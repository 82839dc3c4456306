//! A tiddler store and document-assembly engine for a TiddlyWiki sync server.
//!
//! The crate holds the storage model with optimistic revisioning, the codec
//! between the stored record shape and the wire document shape, the binary
//! offload and storage-cleanup decision logic, and the assembly of the full
//! document collection into an HTML carrier page.

pub mod assemble;
pub mod cleaner;
pub mod digest;
pub mod errors;
pub mod jsonval;
pub mod laws;
pub mod numstr;
pub mod offload;
pub mod protocol;
pub mod store;
pub mod strutil;
pub mod tiddler;
