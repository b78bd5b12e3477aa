//! A streaming codec for binary FBX documents: a reader that decodes the
//! bytes of a document into structural events (start and end of the
//! document, start of a node with its properties, end of a node), and a
//! writer that encodes such events back into bytes.

pub mod error;
pub mod property;
pub mod reader;
pub mod stream;
pub mod text;
pub mod wire;
pub mod writer;
