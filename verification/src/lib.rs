//! A small model of Rust type definitions, built for code generation.
//!
//! The library validates (or repairs) every name it stores, assembles named
//! record and union declarations into a registry, and answers structural
//! questions against that registry: whether a type admits a trivially
//! constructed default value, and whether a named type contains itself
//! through value-held (non-boxed) references — the condition under which a
//! declaration would describe a value of unbounded size.

pub mod analysis;
pub mod casing;
pub mod error;
pub mod ident;
pub mod items;
pub mod order;
pub mod registry;
pub mod render;
pub mod typebuilder;

pub use error::{Error, IdentError};
pub use ident::{make_valid_identifier, validate_identifier, Id};
pub use items::{
    Alias, Attributes, Cfg, Derive, Enum, Field, FieldAttr, NewType, Struct, Variant, Visibility,
};
pub use registry::{Item, ItemMap};
pub use render::{render_delimited, Render};
pub use typebuilder::{Primitive, Type};
