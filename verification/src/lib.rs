//! Read-only access to a single-file relational database in the SQLite
//! on-disk format.
//!
//! The engine works on the bytes of a database file held in memory. From
//! the leaves up: `varint` decodes variable-length integers, `serial` and
//! `record` decode record payloads, `pager` and `page` find pages and
//! cells, `btree` and `index` walk table and index B-trees, `schema` loads
//! the schema table, `plan` turns a statement into a plan and `query` runs
//! it; `render` makes text of results. `sorted_table`, `sorted_index` and
//! `indexed_select` state and prove what holds of trees that are in key
//! order.
//!
//! Every function has a contract over a mathematical model of the bytes,
//! and every contract is machine-checked. Text matching is done by the
//! `regex` crate behind `pattern`, whose contracts are believed, not proved.

pub mod btree;
pub mod error;
pub mod index;
pub mod indexed_select;
pub mod page;
pub mod pager;
pub mod pattern;
pub mod plan;
pub mod query;
pub mod record;
pub mod render;
pub mod schema;
pub mod serial;
pub mod sorted_index;
pub mod sorted_table;
pub mod sql_type;
pub mod text;
pub mod varint;
