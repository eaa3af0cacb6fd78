//! A single-table row store: a fixed-width row codec, a page cache over a
//! backing byte store, a leaf-node page layout, cursors and a table.
//!
//! The backing store is the whole content of the table file. The caller
//! reads the file into a `Vec<u8>` to open a table, and writes the store
//! back to the file after `Table::close` has flushed the resident pages
//! into it.
pub mod layout;
pub mod row;
pub mod leaf;
pub mod pager;
pub mod table;
pub mod statement;
