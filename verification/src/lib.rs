//! Codec for the CRI "UTF table" binary container: a tabular format with
//! typed columns (constant or per-row storage), shared string and blob
//! pools, big-endian packed encoding, and an outer packet envelope that
//! may mask the whole table with a fixed self-inverse XOR cipher.

pub mod bytes;
pub mod cipher;
pub mod error;
pub mod kinds;
pub mod packet;
pub mod prim;
pub mod reader;
pub mod roundtrip;
pub mod schema;
pub mod table;
pub mod text;
pub mod writer;

pub use crate::error::EofAt;
pub use crate::error::Error;
pub use crate::kinds::ColumnStorageFormat;
pub use crate::kinds::ColumnStorageType;
pub use crate::kinds::ValueKind;
pub use crate::kinds::is_valid_storage_flag;
pub use crate::kinds::is_valid_value_flag;
pub use crate::kinds::utf_size_of;
pub use crate::packet::Packet;
pub use crate::prim::Primitive;
pub use crate::reader::Reader;
pub use crate::schema::Schema;
pub use crate::schema::SchemaColumn;
pub use crate::table::ColumnSpec;
pub use crate::table::Table;
pub use crate::table::TableSpec;
pub use crate::writer::WriteContext;
pub use crate::writer::Writer;
