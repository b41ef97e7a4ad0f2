//! Annotations pinned to spans of text files, kept in place as the files change.
//!
//! An annotation is a comment bound to a literal snippet of a file. The
//! library holds what decides about annotations, and proves it:
//!
//! - [`text`], [`lines`] and [`search`]: text as Unicode scalar values, the
//!   lines of a file, and literal search with places as lines and columns;
//! - [`resync`]: where one annotation stands in a file that may have changed;
//! - [`store`], [`rows`] and [`workspace`]: the records of a workspace, their
//!   listing, their rows in a table, and the merge of imported records;
//! - [`verification`]: a pass over the annotations of a file;
//! - [`files`] and [`digest`]: windows and whole reads of a file from its
//!   bytes, and writes guarded by the digest of the content;
//! - [`clock`]: the time of day and fresh identifiers;
//! - [`paths`], [`language`], [`entries`], [`requests`] and [`stitch`]: what
//!   the interface around them needs;
//! - [`laws`], [`settle`], [`repeat`] and [`geometry`]: what holds of all of
//!   these, whatever the inputs.
//!
//! Reading and writing files, the database and the network are the caller's
//! part: the library takes bytes and texts and gives back what to do.

pub mod annotation;
pub mod clock;
pub mod digest;
pub mod entries;
pub mod files;
pub mod geometry;
pub mod language;
pub mod laws;
pub mod lines;
pub mod paths;
pub mod repeat;
pub mod requests;
pub mod resync;
pub mod rows;
pub mod search;
pub mod settle;
pub mod stitch;
pub mod store;
pub mod text;
pub mod verification;
pub mod workspace;
