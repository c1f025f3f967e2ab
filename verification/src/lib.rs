//! Fixed-layout binary structures: described as data, checked once, and
//! then read through validated, zero-copy views.
//!
//! A layout is described by a [`ast::Container`]: a unit type whose content
//! is one literal, an enumeration stored as the discriminant of a variant,
//! or a composite whose fields lie one after the other without padding.
//! Integers are little-endian, whatever the machine.
//!
//! [`packed_definitions`] makes a [`Definition`] of a description, or says
//! what is wrong with it. A definition gives [`View`]s of byte slices that
//! hold a value, and [`Packet`]s of values. Whatever has the operations of a
//! layout is a [`Packed`]: views and packets are made of any of them.
//!
//! ```
//! use packtool::ast::{Container, Lit, PackedField, Type};
//! use packtool::primitives::{IntType, Integer};
//! use packtool::value::Value;
//! use packtool::packed_definitions;
//!
//! let tag = Container::unit("Tag", Lit::string("\"packcoin\"", "packcoin"));
//! let header = Container::structure(
//!     "Header",
//!     vec![
//!         PackedField::named("tag", Type::packed(tag)),
//!         PackedField::named("block_number", Type::Int(IntType::U32)),
//!     ],
//! );
//! let header = packed_definitions(header).unwrap();
//! assert_eq!(header.size(), 12);
//!
//! let view = header.view(b"packcoin\x2a\0\0\0").unwrap();
//! let number = view.accessor("block_number").unwrap().unpack();
//! assert_eq!(number, Value::Integer(Integer::Unsigned(42)));
//! ```

pub mod accessors;
pub mod ast;
pub mod bytes;
pub mod compare;
pub mod composite;
pub mod definition;
pub mod enumeration;
pub mod error;
pub mod laws;
pub mod layout;
pub mod meta;
pub mod packed;
pub mod packet;
pub mod primitives;
pub mod schema;
pub mod text;
pub mod unit;
pub mod value;
pub mod view;

pub use crate::error::{Context, Error};
pub use crate::packed::Packed;
pub use crate::packet::Packet;
pub use crate::schema::{packed_definitions, Definition};
pub use crate::view::View;
