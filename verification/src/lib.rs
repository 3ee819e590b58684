//! Client-side logic of the Ribbit metadata protocol: request paths, response
//! envelopes, and the pipe-delimited table format with its typed records.

pub mod command;
pub mod flags;
pub mod order;
pub mod record;
pub mod sort;
pub mod table;
pub mod text;
pub mod transport;

pub use crate::command::{FileType, Region, RibbitCommand};
pub use crate::flags::RibbitFlags;
pub use crate::record::{BgdlObject, CdnObject, FromRow, SummaryObject, VersionObject};
pub use crate::table::{parser, FieldSpec, ParseError, Table};
pub use crate::transport::{decode_text, first_part_body, Envelope, TransportError};
