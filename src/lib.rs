//! Small Unix text utilities as verified functions: a line viewer, echo, a
//! directory-walk filter, a line limiter, an adjacent deduplicator and a
//! count reporter. Each takes the text or the values that its program read
//! and returns what that program prints.
pub mod text;
pub mod find;
pub mod wc;
pub mod cat;
pub mod uniq;
pub mod echo;
pub mod head;

pub use head::parse_positive_int;
pub use wc::get_file_counts;
