//! A content-addressable object store in the style of git.
//!
//! Typed records (blob, tree, commit) are framed with a small header,
//! addressed by the SHA-1 digest of the framed bytes, and kept compressed,
//! one file per object. This crate holds the rules: the byte layouts, the
//! addressing, how a directory becomes trees and blobs, how a commit is
//! laid out, and what a stored file means when it is read back. It works
//! on values in memory; reading and writing files is left to the caller.
//!
//! - [`codec`]: header, record, id, compression of one object.
//! - [`store`]: where an object lives and what is written there.
//! - [`builder`]: from a directory to its tree and everything below it.
//! - [`tree`]: entries of a tree, their layout and order.
//! - [`commit`]: the layout of a commit.
//! - [`reader`]: the bytes of a blob, the listing of a tree.
//! - [`object_id`], [`hex`], [`decimal`], [`bytes`], [`kind`], [`error`]:
//!   the values and notations the above are made of.
//! - [`digest`], [`zlib`]: SHA-1 and zlib, taken from other crates on
//!   trust.

pub mod builder;
pub mod bytes;
pub mod codec;
pub mod commit;
pub mod decimal;
pub mod digest;
pub mod error;
pub mod hex;
pub mod kind;
pub mod object_id;
pub mod reader;
pub mod store;
pub mod tree;
pub mod zlib;
