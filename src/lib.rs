//! Word-frequency extraction over segmented Chinese text: a fixed tag
//! policy, a stopword set and an insert-or-increment table, proved against
//! a mathematical model of the counting fold.

pub mod policy;
pub mod table;
pub mod segmenter;
pub mod dictionary;
pub mod stopwords;
pub mod pipeline;
pub mod laws;

pub use policy::{is_noise, is_skipped_line, MAX_WORD_LEN};
pub use table::{count_in, bump, FrequencyTable};
pub use segmenter::{DictEntry, Segmenter};
pub use dictionary::{entry_from_fields, load_dictionary, parse_entry, DictError};
pub use stopwords::StopwordSet;
pub use pipeline::{admit_folded, count_tokens, process_line, CountError};
