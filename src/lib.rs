//! A binary serialization library driven by schemas.
//!
//! A schema describes a record or a tagged union field by field: each field's
//! wire type, context, codec overrides, adapter and skip condition. A field may
//! nest a value of another schema, registered as a dependency. One engine walks
//! any schema to encode a value, decode it back, or size it, and proves that
//! the three agree.

pub mod codec;
pub mod ctx;
pub mod engine;
pub mod error;
pub mod laws;
pub mod scalar;
pub mod schema;
pub mod util;
pub mod value;

pub use crate::codec::{IntCodec, Prefix};
pub use crate::ctx::{Ctx, Endian};
pub use crate::engine::{from_bytes, from_bytes_with_context, to_bytes, to_bytes_with_context, Data};
pub use crate::error::{Error, Fault};
pub use crate::schema::{Asym, Case, CtxExpr, Field, IdExpr, Schema, SchemaError, SkipIf};
pub use crate::util::{Bytes, PrefixVec, Utf8, ZeroOne};
pub use crate::value::{Kind, Value, Via};
