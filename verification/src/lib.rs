//! Small verified building blocks for command-line tools.
//!
//! [`parsemath`] reads arithmetic expressions: a tokenizer splits the text
//! into tokens and a parser builds the expression tree.  [`imagix`] holds the
//! rules of a thumbnail tool: which files it takes, to what size it scales
//! them and how it reports on its work.  [`letters`] counts the occurrences
//! of a letter, and [`text`] holds what the others need of strings.
pub mod imagix;
pub mod letters;
pub mod parsemath;
pub mod text;
