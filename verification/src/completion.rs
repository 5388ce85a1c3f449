//! Shell completion: token parsing, matching, ranking and rendering of
//! candidates from templates, history, executables and private commands.
pub mod types;
pub mod parser;
pub mod matching;
pub mod ranking;
pub mod render;
pub mod private;
pub mod first_token;
pub mod index;
pub mod structural;
pub mod typo;
pub mod arguments;
pub mod worker;
pub mod path;
pub mod path_sort;
