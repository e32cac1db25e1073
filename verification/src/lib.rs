//! A chunked text-file reader.
//!
//! The library reads a file in bounded chunks and reassembles the bytes into
//! valid UTF-8 text, repairing multi-byte characters that a chunk boundary
//! splits.  It offers a streaming mode, which exposes one decoded chunk per
//! physical read, and a batch mode, which accumulates the whole file into one
//! text buffer.  All decoding and state-machine logic is verified; the actual
//! operating-system calls are performed by the caller, which reports each
//! outcome as an event.

pub mod decode;
pub mod driver;
pub mod events;
pub mod paths;

pub use driver::FileDriver;
