//! Loader-tree code generation: a builder that turns route components
//! (page, layout, error boundary, ...) into uniquely named import bindings,
//! synthetic asset registrations, and lazy-accessor code fragments.

pub mod assets;
pub mod builder;
pub mod component;
pub mod escape;
pub mod identifier;
pub mod numeral;
pub mod text;

pub use component::ComponentType;
