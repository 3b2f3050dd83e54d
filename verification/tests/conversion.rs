use despatma_dependency_container::input;
use despatma_dependency_container::lifetime::{Lifetime, Location};
use despatma_dependency_container::output;
use despatma_dependency_container::processing;
use proc_macro2::Span;

fn s(text: &str) -> String {
    text.to_string()
}

fn strings(texts: &[&str]) -> Vec<String> {
    texts.iter().map(|t| t.to_string()).collect()
}

fn sig(ident: &str, asyncness: bool, inputs: &[&str], output: Option<&str>) -> input::Signature {
    input::Signature {
        constness: false,
        asyncness,
        unsafety: false,
        abi: None,
        ident: s(ident),
        ident_span: Location(Span::call_site()),
        generics: String::new(),
        inputs: strings(inputs),
        variadic: None,
        output: output.map(s),
    }
}

fn dependency(
    sig: input::Signature,
    block: &str,
    is_async: bool,
    is_boxed: bool,
    lifetime: Lifetime,
    ty: &str,
    dependencies: Vec<processing::ChildDependency>,
) -> processing::Dependency {
    processing::Dependency {
        attrs: vec![],
        sig,
        block: s(block),
        is_async,
        is_boxed,
        has_explicit_lifetime: false,
        lifetime,
        ty: s(ty),
        create_ty: s(ty),
        field_ty: None,
        dependencies,
    }
}

#[test]
fn from_processing_container() {
    let config = dependency(
        sig("config", true, &["&self"], Some("Config")),
        "{ Config::new().await }",
        true,
        false,
        Lifetime::Singleton(Span::call_site()),
        "Config",
        vec![],
    );
    let service = dependency(
        sig("service", false, &["&self", "config: &Config"], Some("Service")),
        "{ Service::new(config) }",
        true,
        false,
        Lifetime::Transient,
        "Service",
        vec![processing::ChildDependency { inner: 0, ty: s("&Config"), is_ref: true }],
    );
    let container = processing::Container {
        attrs: vec![],
        self_ty: s("Container"),
        dependencies: vec![config, service],
    };
    let container = output::Container::from_processing(container);

    let expected = output::Container {
        attrs: vec![],
        self_ty: s("Container"),
        lifetime_generic: None,
        fields: Some(vec![output::Field {
            ident: s("config"),
            ty: s("std::rc::Rc<std::cell::OnceCell<Config>>"),
        }]),
        constructors: vec![output::FieldValue { ident: s("config"), init: s("Default::default()") }],
        scope_constructors: vec![output::FieldValue {
            ident: s("config"),
            init: s("self.config.clone()"),
        }],
        dependencies: vec![
            output::Dependency {
                attrs: vec![],
                block: s("{ Config::new().await }"),
                constness: false,
                asyncness: true,
                unsafety: false,
                abi: None,
                ident: s("config"),
                ident_span: Location(Span::call_site()),
                generics: String::new(),
                inputs: strings(&["&self"]),
                variadic: None,
                ty: s("&Config"),
                create_asyncness: true,
                create_ident: s("create_config"),
                create_ident_span: Location(Span::call_site()),
                is_managed: true,
                create_ty: s("Config"),
                dependencies: vec![],
            },
            output::Dependency {
                attrs: vec![],
                block: s("{ Service::new(config) }"),
                constness: false,
                asyncness: true,
                unsafety: false,
                abi: None,
                ident: s("service"),
                ident_span: Location(Span::call_site()),
                generics: String::new(),
                inputs: strings(&["&self", "config: &Config"]),
                variadic: None,
                ty: s("Service"),
                create_asyncness: false,
                create_ident: s("create_service"),
                create_ident_span: Location(Span::call_site()),
                is_managed: false,
                create_ty: s("Service"),
                dependencies: vec![output::ChildDependency {
                    ident: s("config"),
                    ident_span: Location(Span::call_site()),
                    awaitness: true,
                    is_ref: true,
                }],
            },
        ],
    };

    assert_eq!(container, expected);
}

#[test]
fn from_processing_dependency() {
    let dependency = dependency(
        sig("db", false, &["&self"], Some("Box<dyn DB>")),
        "{ Box::new(Sqlite::new()) }",
        false,
        true,
        Lifetime::Scoped(Span::call_site()),
        "dyn DB",
        vec![],
    );
    let dependency = output::Dependency::from_processing(&dependency, &vec![]);

    let expected = output::Dependency {
        attrs: vec![],
        block: s("{ Box::new(Sqlite::new()) }"),
        constness: false,
        asyncness: false,
        unsafety: false,
        abi: None,
        ident: s("db"),
        ident_span: Location(Span::call_site()),
        generics: String::new(),
        inputs: strings(&["&self"]),
        variadic: None,
        ty: s("&std::boxed::Box<dyn DB + '_>"),
        create_asyncness: false,
        create_ident: s("create_db"),
        create_ident_span: Location(Span::call_site()),
        is_managed: true,
        create_ty: s("std::boxed::Box<dyn DB + '_>"),
        dependencies: vec![],
    };

    assert_eq!(dependency, expected);
}

#[test]
fn impl_item_fn_without_return_type_creates_unit() {
    let f = input::ImplItemFn {
        attrs: strings(&["#[doc = \"x\"]"]),
        sig: sig("unit", false, &["&self"], None),
        block: s("{}"),
    };
    let d = processing::Dependency::from_impl_item_fn(f);
    assert_eq!(d.ty, "()");
    assert_eq!(d.create_ty, "()");
    assert_eq!(d.lifetime, Lifetime::Transient);
    assert!(!d.is_async && !d.is_boxed && !d.has_explicit_lifetime);
    assert!(d.field_ty.is_none());
    assert!(d.dependencies.is_empty());
    assert_eq!(d.attrs, strings(&["#[doc = \"x\"]"]));
    assert_eq!(d.block, "{}");
}

#[test]
fn impl_item_fn_keeps_declared_return_type() {
    let f = input::ImplItemFn {
        attrs: vec![],
        sig: sig("config", true, &["&self"], Some("Config")),
        block: s("{ Config }"),
    };
    let d = processing::Dependency::from_impl_item_fn(f);
    assert_eq!(d.ty, "Config");
    assert_eq!(d.create_ty, "Config");
    assert!(d.sig.asyncness);
    assert!(!d.is_async);
}

#[test]
fn container_from_input_keeps_order() {
    let c = input::Container {
        attrs: strings(&["#[allow(dead_code)]"]),
        self_ty: s("DependencyContainer"),
        dependencies: vec![
            input::ImplItemFn {
                attrs: vec![],
                sig: sig("config", true, &["&self"], Some("Config")),
                block: s("{ Config { port: 8080 } }"),
            },
            input::ImplItemFn {
                attrs: vec![],
                sig: sig("service", false, &["&self", "config: Config"], Some("Service")),
                block: s("{ Service::new(config.port) }"),
            },
        ],
    };
    let p = processing::Container::from_input(c);
    assert_eq!(p.self_ty, "DependencyContainer");
    assert_eq!(p.attrs, strings(&["#[allow(dead_code)]"]));
    assert_eq!(p.dependencies.len(), 2);
    assert_eq!(p.dependencies[0].sig.ident, "config");
    assert_eq!(p.dependencies[1].sig.ident, "service");
    assert_eq!(p.dependencies[1].ty, "Service");
}

#[test]
fn empty_container_has_no_fields() {
    let c = processing::Container {
        attrs: vec![],
        self_ty: s("Empty"),
        dependencies: vec![dependency(
            sig("value", false, &["&self"], Some("u32")),
            "{ 1 }",
            false,
            false,
            Lifetime::Transient,
            "u32",
            vec![],
        )],
    };
    let out = output::Container::from_processing(c);
    assert_eq!(out.fields, None);
    assert!(out.constructors.is_empty());
    assert!(out.scope_constructors.is_empty());
    assert_eq!(out.lifetime_generic, None);
    assert_eq!(out.dependencies[0].ty, "u32");
    assert!(!out.dependencies[0].is_managed);
}

#[test]
fn boxed_managed_dependency_needs_lifetime() {
    let c = processing::Container {
        attrs: vec![],
        self_ty: s("App"),
        dependencies: vec![
            dependency(
                sig("request", false, &["&self"], Some("Request")),
                "{ Request }",
                false,
                false,
                Lifetime::Transient,
                "Request",
                vec![],
            ),
            dependency(
                sig("db", false, &["&self"], Some("Box<dyn DB>")),
                "{ Box::new(Sqlite::new()) }",
                false,
                true,
                Lifetime::Singleton(Span::call_site()),
                "dyn DB",
                vec![],
            ),
        ],
    };
    let out = output::Container::from_processing(c);
    assert_eq!(out.lifetime_generic, Some(s("<'a>")));
    assert_eq!(
        out.fields,
        Some(vec![output::Field {
            ident: s("db"),
            ty: s("std::rc::Rc<std::cell::OnceCell<std::boxed::Box<dyn DB + 'a>>>"),
        }])
    );
    assert_eq!(
        out.constructors,
        vec![output::FieldValue { ident: s("db"), init: s("Default::default()") }]
    );
    assert_eq!(
        out.scope_constructors,
        vec![output::FieldValue { ident: s("db"), init: s("self.db.clone()") }]
    );
    assert_eq!(out.dependencies[0].ty, "Request");
    assert_eq!(out.dependencies[1].ty, "&std::boxed::Box<dyn DB + '_>");
}

fn simple(ident: &str, ty: &str, lifetime: Lifetime) -> processing::Dependency {
    dependency(sig(ident, false, &["&self"], Some(ty)), "{ Default::default() }", false, false, lifetime, ty, vec![])
}

#[test]
fn field_helpers_map_the_given_dependencies() {
    assert_eq!(
        output::get_struct_fields(&vec![simple("b", "B", Lifetime::Scoped(Span::call_site()))]),
        Some(vec![output::Field { ident: s("b"), ty: s("std::cell::OnceCell<B>") }])
    );
    assert_eq!(output::get_struct_fields(&vec![]), None);
    assert_eq!(
        output::get_new_scope_constructors(&vec![
            simple("b", "B", Lifetime::Scoped(Span::call_site())),
            simple("c", "C", Lifetime::Singleton(Span::call_site())),
        ]),
        vec![
            output::FieldValue { ident: s("b"), init: s("Default::default()") },
            output::FieldValue { ident: s("c"), init: s("self.c.clone()") },
        ]
    );
    assert_eq!(
        output::get_struct_field_constructors(&vec![
            simple("a", "A", Lifetime::Transient),
            simple("b", "B", Lifetime::Scoped(Span::call_site())),
        ]),
        vec![
            output::FieldValue { ident: s("a"), init: s("Default::default()") },
            output::FieldValue { ident: s("b"), init: s("Default::default()") },
        ]
    );
    assert!(output::get_struct_field_constructors(&vec![]).is_empty());
}

#[test]
fn child_takes_name_and_async_from_inner() {
    let deps = vec![dependency(
        sig("config", true, &["&self"], Some("Config")),
        "{ Config }",
        true,
        false,
        Lifetime::Transient,
        "Config",
        vec![],
    )];
    let child = processing::ChildDependency { inner: 0, ty: s("Config"), is_ref: false };
    let out = output::ChildDependency::from_processing(&child, &deps);
    assert_eq!(out, output::ChildDependency { ident: s("config"), ident_span: Location(Span::call_site()), awaitness: true, is_ref: false });
}
