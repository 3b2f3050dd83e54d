//! A verified model of the dependency-container code generator: the
//! dependencies registered on a container, how they are linked, what the
//! generated container struct and accessors look like, and how missing
//! registrations are diagnosed.

pub mod lifetime;
pub mod text;
pub mod input;
pub mod processing;
pub mod output;
pub mod codegen;
pub mod wiring;
pub mod visitor;
