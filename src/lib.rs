//! An incremental HTTP/1.x request scanner.
//!
//! Bytes arrive in chunks into a fixed-capacity buffer owned by a
//! [`cursor::MyReader`]. The scanners walk that buffer with bounded pushback
//! and describe the request line, the header fields and the body as spans
//! (offset pairs) into it. Every scanning step is a pure function of the bytes
//! received so far; when it runs out of bytes it asks for more instead of
//! reading, so the caller owns all I/O (see [`session`]).
pub mod cursor;
pub mod request;
pub mod text;
pub mod body;
pub mod scan;
pub mod session;
pub mod laws;
