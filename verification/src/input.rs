use vstd::prelude::*;

use crate::lifetime::Location;

verus! {

/// The header of a function registered on a container, as source text.
#[derive(Debug, PartialEq, Eq)]
pub struct Signature {
    /// Whether the function is `const`.
    pub constness: bool,
    /// Whether the function is `async`.
    pub asyncness: bool,
    /// Whether the function is `unsafe`.
    pub unsafety: bool,
    /// The `extern "..."` part, if any.
    pub abi: Option<String>,
    /// The function's name.
    pub ident: String,
    /// Where the function's name was written.
    pub ident_span: Location,
    /// The generic parameters, brackets included, or nothing.
    pub generics: String,
    /// Each parameter, receiver included.
    pub inputs: Vec<String>,
    /// The trailing `...` parameter, if any.
    pub variadic: Option<String>,
    /// The declared return type; `None` where the function declares none.
    pub output: Option<String>,
}

/// A function of the annotated `impl` block: one registered dependency.
#[derive(Debug, PartialEq, Eq)]
pub struct ImplItemFn {
    /// Its attributes, each as source text.
    pub attrs: Vec<String>,
    /// Its header.
    pub sig: Signature,
    /// Its body, braces included.
    pub block: String,
}

/// The annotated `impl` block of a container.
#[derive(Debug, PartialEq, Eq)]
pub struct Container {
    /// The attributes of the `impl` block.
    pub attrs: Vec<String>,
    /// The type the block is for.
    pub self_ty: String,
    /// The registered functions, in source order.
    pub dependencies: Vec<ImplItemFn>,
}

} // verus!
