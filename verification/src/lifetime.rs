use vstd::prelude::*;

verus! {

#[verifier::external_type_specification]
#[verifier::external_body]
pub struct ExSpan(proc_macro2::Span);

/// Where a name was written in the source. Locations take no part in
/// comparing the model: any two compare equal.
#[derive(Clone, Copy, Debug)]
pub struct Location(pub proc_macro2::Span);

impl PartialEq for Location {
    fn eq(&self, other: &Self) -> (r: bool) {
        true
    }
}

impl vstd::std_specs::cmp::PartialEqSpecImpl for Location {
    open spec fn obeys_eq_spec() -> bool {
        true
    }

    open spec fn eq_spec(&self, other: &Location) -> bool {
        true
    }
}

impl Eq for Location {}

/// How long a dependency lives once it has been created.
///
/// `Scoped` and `Singleton` remember where they were declared; that
/// location takes no part in comparing two lifetimes.
#[derive(Clone, Copy, Debug)]
pub enum Lifetime {
    /// A fresh value on every request.
    Transient,
    /// One value per container scope.
    Scoped(proc_macro2::Span),
    /// One value shared by a container and all of its scopes.
    Singleton(proc_macro2::Span),
}

impl Lifetime {
    /// Two lifetimes are of the same kind, whatever their locations.
    pub open spec fn same_kind(self, other: Lifetime) -> bool {
        match (self, other) {
            (Lifetime::Transient, Lifetime::Transient) => true,
            (Lifetime::Scoped(_), Lifetime::Scoped(_)) => true,
            (Lifetime::Singleton(_), Lifetime::Singleton(_)) => true,
            _ => false,
        }
    }

    /// A managed dependency is stored in the container once created.
    pub open spec fn managed(self) -> bool {
        !(self is Transient)
    }

    /// Whether values of this lifetime are stored by the container.
    pub fn is_managed(&self) -> (r: bool)
        ensures
            r == self.managed(),
            r <==> (*self is Scoped || *self is Singleton),
    {
        match self {
            Lifetime::Singleton(_) | Lifetime::Scoped(_) => true,
            Lifetime::Transient => false,
        }
    }
}

impl PartialEq for Lifetime {
    fn eq(&self, other: &Self) -> (r: bool) {
        match (self, other) {
            (Lifetime::Transient, Lifetime::Transient) => true,
            (Lifetime::Scoped(_), Lifetime::Scoped(_)) => true,
            (Lifetime::Singleton(_), Lifetime::Singleton(_)) => true,
            _ => false,
        }
    }
}

impl vstd::std_specs::cmp::PartialEqSpecImpl for Lifetime {
    open spec fn obeys_eq_spec() -> bool {
        true
    }

    open spec fn eq_spec(&self, other: &Lifetime) -> bool {
        self.same_kind(*other)
    }
}

impl Eq for Lifetime {}

/// Comparing lifetimes is an equivalence relation, and it ignores where a
/// lifetime was declared: every two `Scoped` lifetimes are equal, and so are
/// every two `Singleton` lifetimes.
pub proof fn lemma_lifetime_eq_equivalence(a: Lifetime, b: Lifetime, c: Lifetime)
    ensures
        a.same_kind(a),
        a.same_kind(b) == b.same_kind(a),
        a.same_kind(b) && b.same_kind(c) ==> a.same_kind(c),
        (a is Scoped && b is Scoped) ==> a.same_kind(b),
        (a is Singleton && b is Singleton) ==> a.same_kind(b),
        (a is Transient) ==> (a.same_kind(b) <==> b is Transient),
{
}

/// Lifetimes that compare equal agree on whether they are managed, and only
/// `Transient` is unmanaged.
pub proof fn lemma_managed_respects_eq(a: Lifetime, b: Lifetime)
    ensures
        a.same_kind(b) ==> a.managed() == b.managed(),
        a.managed() <==> !(a is Transient),
{
}

} // verus!
