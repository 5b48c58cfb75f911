//! A verified core for a sandboxed file browser.
//!
//! An untrusted path string is normalized by [`path_resolve::resolve_nested`]
//! into a [`path_resolve::ResolvedPath`], a sequence of plain segments that is
//! provably confined below a configured root directory.  The remaining
//! components work only on such resolved paths: [`breadcrumb`] derives the
//! navigation trail of a path, [`dir_list`] classifies and names the children
//! of a listed directory, and [`csv_reader`] turns the bytes of a CSV file
//! into a columnar table.

pub mod breadcrumb;
pub mod csv_reader;
pub mod dir_list;
pub mod path_resolve;
