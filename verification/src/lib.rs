//! Keyboard layout analysis.
//!
//! * A corpus ([`TextStats`]) counts the symbols, bigrams and trigrams of a
//!   text and gives each a token from which the tokens of its symbols can
//!   be read.
//! * A model ([`KuehlmakModel`]) knows the keys of a board and the class
//!   of every pair and triple of keys.
//! * Evaluating a [`Layout`] against a corpus counts how often each key
//!   is pressed and how often each class of bigram and trigram is typed.
//!   Scores are weighted sums of these counts; weighing them is left to
//!   the caller.
//! * A search changes a layout step by step; the steps are in [`mutate`].
//!
//! Every function comes with a contract that says what it returns, and
//! every contract is proved.  What is taken on trust from the standard
//! library and from `rand` is in [`chars`] and at the head of [`mutate`].

pub mod alphabet;
pub mod chars;
pub mod corpus_build;
pub mod corpus_format;
pub mod corpus_laws;
pub mod corpus_model;
pub mod constraints;
pub mod counting;
pub mod distance;
pub mod evaluate;
pub mod filtering;
pub mod geometry;
pub mod layout;
pub mod model;
pub mod mutate;
pub mod ngram;
pub mod packed;
pub mod scores;
pub mod selection;
pub mod sorting;
pub mod sums;
pub mod table;
pub mod tally;
pub mod text_stats;
pub mod usage;
pub mod textscan;
pub mod tokens;

pub use geometry::{KeyboardType, FingerWeights, KeyProps};
pub use ngram::{Symbol, Bigram, Trigram};
pub use text_stats::{TextStats, CorpusFormatError};
pub use corpus_format::TextMaps;
pub use layout::{
    Layout, LayoutFormatError, layout_from_str, layout_to_str, layout_to_filename, canonical_layout,
    popularity,
};
pub use distance::layout_distance;
pub use mutate::{neighbor, start_layout};
pub use alphabet::parse_alphabet;
pub use scores::score_names;
pub use model::{mirror_key, KuehlmakModel};
