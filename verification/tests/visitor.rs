use despatma_dependency_container::lifetime::{Lifetime, Location};
use proc_macro2::Span;
use despatma_dependency_container::processing::{ChildDependency, Container, Dependency};
use despatma_dependency_container::input::Signature;
use despatma_dependency_container::visitor::{
    process_passes, ErrorVisitorMut, Pass, VisitorMut,
};

struct MarkRefs;

// The relations and lemmas are ghost items that only Verus reads; compiled
// code never calls them.
impl VisitorMut for MarkRefs {
    fn child_visited(self, _: ChildDependency, _: Self, _: ChildDependency) -> bool {
        true
    }

    fn dependency_visited(self, _: Dependency, _: Self, _: Dependency) -> bool {
        true
    }

    fn container_visited(self, _: Container, _: Self, _: Container) -> bool {
        true
    }

    fn lemma_child_visit_default(_: Self, _: ChildDependency) {}

    fn lemma_dependency_visit_default(_: Self, _: Dependency, _: Self, _: Dependency) {}

    fn lemma_container_visit_default(_: Self, _: Container, _: Self, _: Container) {}

    fn visit_child_dependency_mut(&mut self, child_dependency: &mut ChildDependency) {
        child_dependency.is_ref = child_dependency.ty.starts_with('&');
    }
}

impl ErrorVisitorMut for MarkRefs {
    fn is_fresh(self) -> bool {
        true
    }

    fn found(self) -> Vec<String> {
        vec![]
    }

    fn emit_errors(self) -> Vec<String> {
        vec![]
    }

    fn new() -> Self {
        MarkRefs
    }
}

fn dep(ident: &str, children: Vec<ChildDependency>) -> Dependency {
    Dependency {
        attrs: vec![],
        sig: Signature {
            constness: false,
            asyncness: false,
            unsafety: false,
            abi: None,
            ident: ident.to_string(),
            ident_span: Location(Span::call_site()),
            generics: String::new(),
            inputs: vec!["&self".to_string()],
            variadic: None,
            output: Some("u8".to_string()),
        },
        block: "{ 0 }".to_string(),
        is_async: false,
        is_boxed: false,
        has_explicit_lifetime: false,
        lifetime: Lifetime::Transient,
        ty: "u8".to_string(),
        create_ty: "u8".to_string(),
        field_ty: None,
        dependencies: children,
    }
}

#[test]
fn process_visitor_walks_every_child() {
    let mut c = Container {
        attrs: vec![],
        self_ty: "C".to_string(),
        dependencies: vec![
            dep("a", vec![]),
            dep(
                "b",
                vec![
                    ChildDependency { inner: 0, ty: "&u8".to_string(), is_ref: false },
                    ChildDependency { inner: 0, ty: "u8".to_string(), is_ref: true },
                ],
            ),
        ],
    };
    let errors = c.process_visitor::<MarkRefs>();
    assert!(errors.is_empty());
    assert!(c.dependencies[1].dependencies[0].is_ref);
    assert!(!c.dependencies[1].dependencies[1].is_ref);
}

#[test]
fn passes_run_in_documented_order() {
    let passes = process_passes();
    assert_eq!(passes.len(), 11);
    let pos = |p: Pass| passes.iter().position(|q| *q == p).unwrap();
    assert!(pos(Pass::ExtractLifetime) < pos(Pass::ImplTraitFields));
    assert!(pos(Pass::LinkDependencies) < pos(Pass::ImplTraitButRegisteredConcrete));
    assert!(pos(Pass::LinkDependencies) < pos(Pass::ExtractAsync));
    assert!(pos(Pass::ExtractBoxType) < pos(Pass::SetHasExplicitLifetime));
    assert!(pos(Pass::AddWildcardLifetime) < pos(Pass::WrapBoxType));
    assert_eq!(passes[0], Pass::ExtractLifetime);
    assert_eq!(passes[10], Pass::WrapBoxType);
}
