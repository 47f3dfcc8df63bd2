//! Record identifiers: a table name joined to an identifier component, with a
//! canonical text form, a single-field binary wire form and a resolution step.
//!
//! - `thing`: the record identifier, its rendering and its binary codec;
//! - `id`: the identifier component and its text;
//! - `escape`: escaping of table names;
//! - `syn`: the grammar that reads the text form back;
//! - `wire`: the protobuf wire layer, written and read by `prost`;
//! - `order`: the total order and the comparison operators;
//! - `value`: resolution of deferred identifiers;
//! - `laws`: what holds between the three forms.

pub mod escape;
pub mod id;
pub mod laws;
pub mod order;
pub mod syn;
pub mod thing;
pub mod value;
pub mod wire;
