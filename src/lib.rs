//! Wire-level data path of a PostgreSQL client: extended-query request
//! framing, response handling for row streams and affected-row counts, and
//! the binary COPY codec.

pub mod bytes_be;
pub mod fields;
pub mod copy_binary;
pub mod request;
pub mod tag;
pub mod query;

