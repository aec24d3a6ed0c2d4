//! Column alignment of text lines: each line is cut into columns by one of
//! several analyzers, the widest text of every column is measured over the
//! whole batch, and every line is then printed with its columns padded.

pub mod analyzers;
pub mod auto_config;
pub mod column_tools;
pub mod decimal;
