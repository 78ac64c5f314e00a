//! A codec for the JVM class-file format: bytes to a typed tree and back.
//!
//! Decoding reads the header, the constant pool, the class's references and
//! member tables, then resolves every attribute whose name it recognises
//! ("ConstantValue", "Code", "Exceptions") into a typed shape. Encoding is
//! the mirror image and recomputes every length prefix from the tree.
pub mod class;
pub mod deserialization;
pub mod laws;
mod error;
pub mod read;
pub mod resolve;
mod roundtrip;
pub mod serialization;
pub mod write;

pub use class::{
    AccessFlags, Attribute, AttributeInfo, CPIndex, ConstantPool, ConstantPoolEntry,
    ExceptionTableEntry, Field, JavaClass, Method, ReferenceKind,
};
pub use error::{DecodeError, EncodeError};
pub use read::{read_bytes, read_i32, read_i64, read_u16, read_u32, read_u64, read_u8, Cursor};
pub use write::{write_i32, write_i64, write_u16, write_u32, write_u64, write_u8, ToBeBytes};
