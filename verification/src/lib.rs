//! A line-oriented concatenation library: it joins the contents of a sequence
//! of input streams onto one output, optionally numbering each line and
//! marking each line end.

pub mod annotate;
pub mod cat;
pub mod cli;
pub mod lines;
pub mod options;
