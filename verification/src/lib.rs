//! Transcodes an obfuscated tag-based streaming-video container into its
//! standards-compliant sibling format, rebuilding duration, codec
//! parameters, and a sparse keyframe seek index from the raw tag stream.

use vstd::prelude::*;

pub mod bytes;
pub mod convert_qsv;
pub mod error;
pub mod flv_format;
pub mod ieee754;

pub use convert_qsv::convert_qsv_to_flv;
pub use convert_qsv::FlvTagBlock;
pub use convert_qsv::FlvTagType;
pub use error::Error;
pub use error::ErrorKind;
pub use flv_format::KeyFrame;
pub use flv_format::MetaData;

verus! {

} // verus!
