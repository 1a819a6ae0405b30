//! Detects typing under the wrong active keyboard layout and recommends a
//! switch.  A sliding window of recently decoded characters is re-mapped
//! through each candidate layout's key-correspondence table and scored
//! against a dictionary with word-boundary exact/prefix/suffix matching.
pub mod keyboard;
pub mod layout;
pub mod recognizer;
pub mod scanner;
pub mod text;

pub use layout::Layout;
pub use recognizer::Recognizer;
