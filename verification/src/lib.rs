//! Building blocks of a text user interface: a longest-prefix matcher for
//! byte sequences, which decodes the escape sequences of a terminal's input,
//! and beside it the conversion of a window's key and button events, the
//! layout of text in cells, and a key-value store held in memory.

pub mod audio;
pub mod byte_prefix_tree;
pub mod coord;
pub mod input;
pub mod matching;
pub mod rich_text;
pub mod storage;
pub mod text;
pub mod wrap;
