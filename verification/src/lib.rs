//! Small arithmetic and text helpers, each with a contract that Verus proves.
//!
//! - [`calculator`]: wrapping arithmetic and truncating division on `i32`
//! - [`text_utils`]: reversal, word counting and title casing of text
//! - [`unicode`]: whitespace and case mapping of single scalar values

pub mod calculator;
pub mod text_utils;
pub mod unicode;

pub use calculator::{add, divide, multiply, subtract};
pub use text_utils::{count_words, reverse_string, to_title_case};
