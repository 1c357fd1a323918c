//! A persistent jq query session over one JSON dataset: reading the
//! dataset once, query checks, output redirection, saving, pretty printing
//! and an interactive pager.  jaq parses the dataset and parses, compiles
//! and runs the jq programs.
pub mod text;
pub mod redirect;
pub mod json;
pub mod jq;
pub mod query;
pub mod pager;
pub mod repl;
pub mod save;
