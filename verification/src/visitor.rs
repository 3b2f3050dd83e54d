use vstd::prelude::*;

use crate::processing::{ChildDependency, Container, Dependency};
use crate::text::views;

verus! {

/// The default walk of a dependency: every child, in order, went through
/// one child visit, each starting from the visitor the previous one left;
/// the rest of the dependency is untouched.
pub open spec fn children_walked<V>(
    v: V,
    d: Dependency,
    after: V,
    d_after: Dependency,
    visited: spec_fn(V, ChildDependency, V, ChildDependency) -> bool,
) -> bool {
    &&& d_after.attrs == d.attrs
    &&& d_after.sig == d.sig
    &&& d_after.block == d.block
    &&& d_after.is_async == d.is_async
    &&& d_after.is_boxed == d.is_boxed
    &&& d_after.has_explicit_lifetime == d.has_explicit_lifetime
    &&& d_after.lifetime == d.lifetime
    &&& d_after.ty == d.ty
    &&& d_after.create_ty == d.create_ty
    &&& d_after.field_ty == d.field_ty
    &&& d_after.dependencies@.len() == d.dependencies@.len()
    &&& exists|vs: Seq<V>|
        {
            &&& vs.len() == d.dependencies@.len() + 1
            &&& vs[0] == v
            &&& vs.last() == after
            &&& forall|j: int|
                0 <= j < d.dependencies@.len() ==> visited(
                    #[trigger] vs[j],
                    d.dependencies@[j],
                    vs[j + 1],
                    d_after.dependencies@[j],
                )
        }
}

/// The default walk of a container: every dependency, in order, went
/// through one dependency visit, each starting from the visitor the
/// previous one left; the rest of the container is untouched.
pub open spec fn dependencies_walked<V>(
    v: V,
    c: Container,
    after: V,
    c_after: Container,
    visited: spec_fn(V, Dependency, V, Dependency) -> bool,
) -> bool {
    &&& c_after.attrs == c.attrs
    &&& c_after.self_ty == c.self_ty
    &&& c_after.dependencies@.len() == c.dependencies@.len()
    &&& exists|vs: Seq<V>|
        {
            &&& vs.len() == c.dependencies@.len() + 1
            &&& vs[0] == v
            &&& vs.last() == after
            &&& forall|j: int|
                0 <= j < c.dependencies@.len() ==> visited(
                    #[trigger] vs[j],
                    c.dependencies@[j],
                    vs[j + 1],
                    c_after.dependencies@[j],
                )
        }
}

/// A pass over a container being processed. Each method visits one part;
/// by default a container is walked dependency by dependency, and a
/// dependency child by child.
///
/// Each visitor says, by the three relations, what one visit of a part does
/// to the visitor and to the part; the three lemmas are what a visitor
/// owes where it keeps a default visit.
///
/// A child names its dependency by position in the container, which a
/// child visit does not see; so the default child visit leaves the child
/// alone, and the container walk reaches every dependency in its own turn.
pub trait VisitorMut: Sized {
    /// What visiting `child` does, from visitor `self` to `after`.
    spec fn child_visited(self, child: ChildDependency, after: Self, child_after: ChildDependency) -> bool;

    /// What visiting `dependency` does, from visitor `self` to `after`.
    spec fn dependency_visited(
        self,
        dependency: Dependency,
        after: Self,
        dependency_after: Dependency,
    ) -> bool;

    /// What visiting `container` does, from visitor `self` to `after`.
    spec fn container_visited(
        self,
        container: Container,
        after: Self,
        container_after: Container,
    ) -> bool;

    /// Leaving a child alone is a visit of it.
    proof fn lemma_child_visit_default(v: Self, child: ChildDependency)
        ensures
            v.child_visited(child, v, child),
    ;

    /// Walking the children is a visit of the dependency.
    proof fn lemma_dependency_visit_default(
        v: Self,
        dependency: Dependency,
        after: Self,
        dependency_after: Dependency,
    )
        requires
            children_walked(
                v,
                dependency,
                after,
                dependency_after,
                |a: Self, c: ChildDependency, b: Self, c2: ChildDependency| a.child_visited(c, b, c2),
            ),
        ensures
            v.dependency_visited(dependency, after, dependency_after),
    ;

    /// Walking the dependencies is a visit of the container.
    proof fn lemma_container_visit_default(
        v: Self,
        container: Container,
        after: Self,
        container_after: Container,
    )
        requires
            dependencies_walked(
                v,
                container,
                after,
                container_after,
                |a: Self, d: Dependency, b: Self, d2: Dependency| a.dependency_visited(d, b, d2),
            ),
        ensures
            v.container_visited(container, after, container_after),
    ;

    fn visit_container_mut(&mut self, container: &mut Container)
        ensures
            old(self).container_visited(*old(container), *final(self), *final(container)),
        default_ensures
            dependencies_walked(
                *old(self),
                *old(container),
                *final(self),
                *final(container),
                |a: Self, d: Dependency, b: Self, d2: Dependency| a.dependency_visited(d, b, d2),
            ),
    {
        let ghost v0 = *self;
        let ghost c0 = *container;
        let ghost mut vs: Seq<Self> = seq![*self];
        let n = container.dependencies.len();
        for i in 0..n
            invariant
                n == container.dependencies@.len(),
                n == c0.dependencies@.len(),
                container.attrs == c0.attrs,
                container.self_ty == c0.self_ty,
                vs.len() == i + 1,
                vs[0] == v0,
                vs.last() == *self,
                forall|j: int|
                    0 <= j < i ==> (#[trigger] vs[j]).dependency_visited(
                        c0.dependencies@[j],
                        vs[j + 1],
                        container.dependencies@[j],
                    ),
                forall|j: int|
                    i <= j < n ==> #[trigger] container.dependencies@[j] == c0.dependencies@[j],
        {
            let ghost before = container.dependencies@;
            self.visit_dependency_mut(&mut container.dependencies[i]);
            proof {
                vs = vs.push(*self);
            }
        }
        proof {
            assert(vs.last() == *self);
            assert(dependencies_walked(v0, c0, *self, *container, |a: Self, d: Dependency, b: Self, d2: Dependency| a.dependency_visited(d, b, d2)));
            Self::lemma_container_visit_default(v0, c0, *self, *container);
        }
    }

    fn visit_dependency_mut(&mut self, dependency: &mut Dependency)
        ensures
            old(self).dependency_visited(*old(dependency), *final(self), *final(dependency)),
        default_ensures
            children_walked(
                *old(self),
                *old(dependency),
                *final(self),
                *final(dependency),
                |a: Self, c: ChildDependency, b: Self, c2: ChildDependency| a.child_visited(c, b, c2),
            ),
    {
        let ghost v0 = *self;
        let ghost d0 = *dependency;
        let ghost mut vs: Seq<Self> = seq![*self];
        let n = dependency.dependencies.len();
        for i in 0..n
            invariant
                n == dependency.dependencies@.len(),
                n == d0.dependencies@.len(),
                dependency.attrs == d0.attrs,
                dependency.sig == d0.sig,
                dependency.block == d0.block,
                dependency.is_async == d0.is_async,
                dependency.is_boxed == d0.is_boxed,
                dependency.has_explicit_lifetime == d0.has_explicit_lifetime,
                dependency.lifetime == d0.lifetime,
                dependency.ty == d0.ty,
                dependency.create_ty == d0.create_ty,
                dependency.field_ty == d0.field_ty,
                vs.len() == i + 1,
                vs[0] == v0,
                vs.last() == *self,
                forall|j: int|
                    0 <= j < i ==> (#[trigger] vs[j]).child_visited(
                        d0.dependencies@[j],
                        vs[j + 1],
                        dependency.dependencies@[j],
                    ),
                forall|j: int|
                    i <= j < n ==> #[trigger] dependency.dependencies@[j] == d0.dependencies@[j],
        {
            self.visit_child_dependency_mut(&mut dependency.dependencies[i]);
            proof {
                vs = vs.push(*self);
            }
        }
        proof {
            assert(children_walked(v0, d0, *self, *dependency, |a: Self, c: ChildDependency, b: Self, c2: ChildDependency| a.child_visited(c, b, c2)));
            Self::lemma_dependency_visit_default(v0, d0, *self, *dependency);
        }
    }

    fn visit_child_dependency_mut(&mut self, child_dependency: &mut ChildDependency)
        ensures
            old(self).child_visited(*old(child_dependency), *final(self), *final(child_dependency)),
        default_ensures
            *final(self) == *old(self),
            *final(child_dependency) == *old(child_dependency),
    {
        proof {
            Self::lemma_child_visit_default(*self, *child_dependency);
        }
    }
}

/// A validating pass: it is created fresh for each container, walks it,
/// and then reports whatever it found wrong.
pub trait ErrorVisitorMut: VisitorMut + Sized {
    /// `self` is a visitor as `new` makes it, before any visit.
    spec fn is_fresh(self) -> bool;

    /// The messages of the errors the visitor has found, in order.
    spec fn found(self) -> Vec<String>;

    fn new() -> (v: Self)
        ensures
            v.is_fresh(),
    ;

    /// Hands over every error the visitor has found, in order, for the
    /// caller to report to the compiler.
    fn emit_errors(self) -> (errors: Vec<String>)
        ensures
            views(errors@) == views(self.found()@),
    ;
}

impl Container {
    /// Runs one pass over this container: a fresh visitor walks it, and
    /// then hands over the errors it found there, which the caller reports.
    pub fn process_visitor<V: ErrorVisitorMut>(&mut self) -> (errors: Vec<String>)
        ensures
            exists|v: V, after: V|
                {
                    &&& v.is_fresh()
                    &&& #[trigger] v.container_visited(*old(self), after, *final(self))
                    &&& views(errors@) == views(after.found()@)
                },
    {
        let mut visitor = V::new();
        visitor.visit_container_mut(self);
        visitor.emit_errors()
    }
}

/// The passes that processing runs over a container.
#[derive(Clone, Copy, Debug, PartialEq, Eq, Structural)]
pub enum Pass {
    ExtractLifetime,
    LinkDependencies,
    ImplTraitFields,
    ImplTraitButRegisteredConcrete,
    OwningManagedDependency,
    ExtractAsync,
    ExtractBoxType,
    UnsupportedRegisteredTypes,
    SetHasExplicitLifetime,
    AddWildcardLifetime,
    WrapBoxType,
}

/// Pass `later` relies on the work of pass `earlier`, or must see the
/// container before `earlier` has changed it.
pub open spec fn must_precede(earlier: Pass, later: Pass) -> bool {
    match later {
        Pass::ImplTraitFields => earlier == Pass::ExtractLifetime,
        Pass::ImplTraitButRegisteredConcrete => earlier == Pass::LinkDependencies,
        Pass::ExtractBoxType => earlier == Pass::ImplTraitButRegisteredConcrete,
        Pass::OwningManagedDependency => earlier == Pass::ExtractLifetime || earlier
            == Pass::LinkDependencies,
        Pass::ExtractAsync => earlier == Pass::LinkDependencies,
        Pass::SetHasExplicitLifetime => earlier == Pass::ExtractLifetime || earlier
            == Pass::ExtractBoxType,
        Pass::AddWildcardLifetime => earlier == Pass::LinkDependencies || earlier
            == Pass::ExtractLifetime || earlier == Pass::ImplTraitButRegisteredConcrete,
        Pass::WrapBoxType => earlier == Pass::SetHasExplicitLifetime || earlier
            == Pass::AddWildcardLifetime || earlier == Pass::ImplTraitButRegisteredConcrete,
        _ => false,
    }
}

/// The order in which processing runs its passes.
pub open spec fn pass_order() -> Seq<Pass> {
    seq![
        Pass::ExtractLifetime,
        Pass::LinkDependencies,
        Pass::ImplTraitFields,
        Pass::ImplTraitButRegisteredConcrete,
        Pass::OwningManagedDependency,
        Pass::ExtractAsync,
        Pass::ExtractBoxType,
        Pass::UnsupportedRegisteredTypes,
        Pass::SetHasExplicitLifetime,
        Pass::AddWildcardLifetime,
        Pass::WrapBoxType,
    ]
}

/// The passes of processing, in the order they run.
pub fn process_passes() -> (r: Vec<Pass>)
    ensures
        r@ == pass_order(),
{
    let r = vec![
        Pass::ExtractLifetime,
        Pass::LinkDependencies,
        Pass::ImplTraitFields,
        Pass::ImplTraitButRegisteredConcrete,
        Pass::OwningManagedDependency,
        Pass::ExtractAsync,
        Pass::ExtractBoxType,
        Pass::UnsupportedRegisteredTypes,
        Pass::SetHasExplicitLifetime,
        Pass::AddWildcardLifetime,
        Pass::WrapBoxType,
    ];
    assert(r@ =~= pass_order());
    r
}

/// Every pass runs exactly once, and after every pass it relies on.
pub proof fn lemma_pass_order_respects_prerequisites(i: int, j: int)
    requires
        0 <= i < pass_order().len(),
        0 <= j < pass_order().len(),
    ensures
        must_precede(pass_order()[j], pass_order()[i]) ==> j < i,
        i != j ==> pass_order()[i] != pass_order()[j],
{
}


/// Pass `a` runs before pass `b` in `order`.
pub open spec fn runs_before(order: Seq<Pass>, a: Pass, b: Pass) -> bool {
    exists|i: int, j: int| 0 <= i < j < order.len() && order[i] == a && order[j] == b
}

/// Every pass runs once, and each runs after the passes whose work it
/// needs and before those that would change what it must see unchanged:
/// lifetimes are extracted and dependencies linked before they are used,
/// the check for registered concrete types sees the types before boxes are
/// extracted or types rewritten, explicit lifetimes are known before
/// wildcard lifetimes are added, and boxes are wrapped last. Beyond these,
/// each pass runs right after the one before it in the order of
/// processing, so the order is this one and no other.
pub proof fn lemma_documented_pass_order()
    ensures
        pass_order().len() == 11,
        forall|i: int, j: int|
            0 <= i < j < pass_order().len() ==> pass_order()[i] != pass_order()[j],
        runs_before(pass_order(), Pass::ExtractLifetime, Pass::ImplTraitFields),
        runs_before(pass_order(), Pass::LinkDependencies, Pass::ImplTraitButRegisteredConcrete),
        runs_before(pass_order(), Pass::ImplTraitButRegisteredConcrete, Pass::ExtractBoxType),
        runs_before(pass_order(), Pass::ImplTraitButRegisteredConcrete, Pass::AddWildcardLifetime),
        runs_before(pass_order(), Pass::ImplTraitButRegisteredConcrete, Pass::WrapBoxType),
        runs_before(pass_order(), Pass::ExtractLifetime, Pass::OwningManagedDependency),
        runs_before(pass_order(), Pass::LinkDependencies, Pass::OwningManagedDependency),
        runs_before(pass_order(), Pass::LinkDependencies, Pass::ExtractAsync),
        runs_before(pass_order(), Pass::ExtractAsync, Pass::ExtractBoxType),
        runs_before(pass_order(), Pass::ExtractLifetime, Pass::SetHasExplicitLifetime),
        runs_before(pass_order(), Pass::ExtractBoxType, Pass::SetHasExplicitLifetime),
        runs_before(pass_order(), Pass::LinkDependencies, Pass::AddWildcardLifetime),
        runs_before(pass_order(), Pass::ExtractLifetime, Pass::AddWildcardLifetime),
        runs_before(pass_order(), Pass::SetHasExplicitLifetime, Pass::WrapBoxType),
        runs_before(pass_order(), Pass::AddWildcardLifetime, Pass::WrapBoxType),
        runs_before(pass_order(), Pass::UnsupportedRegisteredTypes, Pass::SetHasExplicitLifetime),
        runs_before(pass_order(), Pass::ExtractLifetime, Pass::LinkDependencies),
        runs_before(pass_order(), Pass::LinkDependencies, Pass::ImplTraitFields),
        runs_before(pass_order(), Pass::ImplTraitFields, Pass::ImplTraitButRegisteredConcrete),
        runs_before(pass_order(), Pass::ImplTraitButRegisteredConcrete, Pass::OwningManagedDependency),
        runs_before(pass_order(), Pass::OwningManagedDependency, Pass::ExtractAsync),
        runs_before(pass_order(), Pass::ExtractBoxType, Pass::UnsupportedRegisteredTypes),
        runs_before(pass_order(), Pass::SetHasExplicitLifetime, Pass::AddWildcardLifetime),
{
    let o = pass_order();
    assert(o[0] == Pass::ExtractLifetime);
    assert(o[1] == Pass::LinkDependencies);
    assert(o[2] == Pass::ImplTraitFields);
    assert(o[3] == Pass::ImplTraitButRegisteredConcrete);
    assert(o[4] == Pass::OwningManagedDependency);
    assert(o[5] == Pass::ExtractAsync);
    assert(o[6] == Pass::ExtractBoxType);
    assert(o[7] == Pass::UnsupportedRegisteredTypes);
    assert(o[8] == Pass::SetHasExplicitLifetime);
    assert(o[9] == Pass::AddWildcardLifetime);
    assert(o[10] == Pass::WrapBoxType);
}

} // verus!
