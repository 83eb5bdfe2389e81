//! Extract the "Summary" section from the human-readable report text that
//! `cargo nextest` prints: a separator line of ten or more dashes followed by
//! an indented "Summary" heading, kept verbatim through the end of the file.

pub mod boundary;
pub mod extract;
pub mod naming;
pub mod batch;
