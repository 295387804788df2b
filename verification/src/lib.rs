//! Snippet transcoder: converts a snippet manager's configuration between a
//! JSON document holding one newline-delimited text blob and a flat
//! line-oriented format with one snippet per line.

pub mod collapse;
pub mod expand;
pub mod jsondoc;
pub mod laws;
pub mod record;
pub mod text;
