//! Query-construction core of a typed database-access layer.
//!
//! Calling code composes a [`builder::QueryBuilder`] out of typed clause
//! values, relationship-following EXISTS filters, ordering and paging, and
//! renders it into dialect-correct SQL text plus an ordered parameter list
//! for one of several relational backends.  A separate, offline component
//! reconciles live database introspection into a persisted table manifest
//! used to drive code generation.

pub mod builder;
pub mod clause;
pub mod dialect;
pub mod inflect;
pub mod manifest;
pub mod numtext;
pub mod relation;
pub mod render;

pub use builder::{Direction, ExistIn, OrderBy, QueryBuilder};
pub use clause::{Basic, BasicOpt, ClauseColVal, Numeric, NumericOpt, Operator, Value};
pub use dialect::{quote_ident, Backend};
pub use manifest::{
    merge_manifest, type_str, Column, ColumnDef, DataType, MergeError, Relation, Table, TableDef,
    TableIdent,
};
pub use relation::{RelationKind, Relationship};
pub use render::render;
