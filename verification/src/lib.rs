//! A one-directional binary encoder producing a compact, self-contained
//! byte stream: a variable-length integer codec (unsigned and
//! sign-magnitude signed) plus a structural encoder that appends bytes
//! for each value shape (booleans, integers, strings, blobs, optionals,
//! sequences, tuples, maps, records, and tagged unions).

pub mod ser;
pub mod varint;
