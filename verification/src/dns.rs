//! DNS wire format (RFC 1035 §4) and helpers: the data model, the
//! message parser with name decompression, and query construction.

pub mod model;
pub mod parser;
pub mod util;
