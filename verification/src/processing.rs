use vstd::prelude::*;

use crate::input;
use crate::input::Signature;
use crate::lifetime::Lifetime;

verus! {

/// The type a function returns: its declared return type, or `()`.
pub open spec fn return_type(sig: Signature) -> Seq<char> {
    match sig.output {
        Some(t) => t@,
        None => "()"@,
    }
}

/// A registered dependency while the container is being processed.
#[derive(Debug, PartialEq, Eq)]
pub struct Dependency {
    pub attrs: Vec<String>,
    pub sig: Signature,
    pub block: String,
    pub is_async: bool,
    pub is_boxed: bool,
    pub has_explicit_lifetime: bool,
    pub lifetime: Lifetime,
    pub ty: String,
    pub create_ty: String,
    pub field_ty: Option<String>,
    pub dependencies: Vec<ChildDependency>,
}

/// A dependency requested by another one: `inner` is the position of the
/// requested dependency in its container, `ty` the type of the parameter
/// that receives it, and `is_ref` whether it is received by reference.
#[derive(Debug, PartialEq, Eq)]
pub struct ChildDependency {
    pub inner: usize,
    pub ty: String,
    pub is_ref: bool,
}

/// A container while it is being processed.
#[derive(Debug, PartialEq, Eq)]
pub struct Container {
    pub attrs: Vec<String>,
    pub self_ty: String,
    pub dependencies: Vec<Dependency>,
}

/// `d` is what a registered function `f` becomes before processing: its
/// attributes, header and body, its return type as both the type and the
/// creation type, a transient lifetime and no flags, field type or children.
pub open spec fn fresh_from(f: input::ImplItemFn, d: Dependency) -> bool {
    &&& d.attrs == f.attrs
    &&& d.sig == f.sig
    &&& d.block == f.block
    &&& !d.is_async
    &&& !d.is_boxed
    &&& !d.has_explicit_lifetime
    &&& d.lifetime is Transient
    &&& d.ty@ == return_type(f.sig)
    &&& d.create_ty@ == d.ty@
    &&& d.field_ty is None
    &&& d.dependencies@.len() == 0
}

impl Dependency {
    /// A registered function as an unprocessed dependency.
    pub fn from_impl_item_fn(f: input::ImplItemFn) -> (d: Dependency)
        ensures
            fresh_from(f, d),
    {
        let input::ImplItemFn { attrs, sig, block } = f;
        let ty = match &sig.output {
            Some(t) => t.clone(),
            None => String::from_str("()"),
        };
        let create_ty = ty.clone();
        Dependency {
            attrs,
            sig,
            block,
            is_async: false,
            is_boxed: false,
            has_explicit_lifetime: false,
            lifetime: Lifetime::Transient,
            ty,
            create_ty,
            field_ty: None,
            dependencies: Vec::new(),
        }
    }
}

impl Container {
    /// Every child refers to a dependency of this container.
    pub open spec fn well_formed(self) -> bool {
        forall|i: int, j: int|
            #![trigger self.dependencies@[i].dependencies@[j]]
            0 <= i < self.dependencies@.len() && 0 <= j
                < self.dependencies@[i].dependencies@.len()
                ==> self.dependencies@[i].dependencies@[j].inner < self.dependencies@.len()
    }

    /// An annotated `impl` block as a container to process: each function,
    /// in order, becomes an unprocessed dependency.
    pub fn from_input(input: input::Container) -> (c: Container)
        ensures
            c.attrs == input.attrs,
            c.self_ty == input.self_ty,
            c.dependencies@.len() == input.dependencies@.len(),
            forall|i: int|
                0 <= i < c.dependencies@.len() ==> fresh_from(
                    input.dependencies@[i],
                    #[trigger] c.dependencies@[i],
                ),
            c.well_formed(),
    {
        let input::Container { attrs, self_ty, dependencies: fns } = input;
        let ghost fns_view = fns@;
        let mut dependencies: Vec<Dependency> = Vec::new();
        for f in it: fns.into_iter()
            invariant
                it.seq() == fns_view,
                dependencies@.len() == it.index(),
                forall|i: int|
                    0 <= i < dependencies@.len() ==> fresh_from(
                        fns_view[i],
                        #[trigger] dependencies@[i],
                    ),
        {
            dependencies.push(Dependency::from_impl_item_fn(f));
        }
        Container { attrs, self_ty, dependencies }
    }
}

} // verus!
