//! Reader for ICC colour profiles and the lookup-table engine that evaluates
//! their lut8 / lut16 transforms.
//!
//! - `reader`: big-endian reads over byte buffers, each bounds-checked.
//! - `numbers`: the fixed-point encodings of the format.
//! - `tags`, `decode`: decoded tag payloads and the decoder for one tag.
//! - `profile`: the 128-byte header, the tag directory and the tag table.
//! - `lut`, `transform`: exact evaluation of lut8 / lut16 transforms, one
//!   sample or a packed buffer at a time.
//! - `convert`: conversions that need no profile.
pub mod error;
pub mod reader;
pub mod numbers;
pub mod tags;
pub mod decode;
pub mod profile;
pub mod lut;
pub mod transform;
pub mod convert;
