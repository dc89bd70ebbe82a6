//! Word-occurrence counting over in-memory text.
//!
//! The library tokenizes a text into words (maximal runs of non-delimiter
//! characters, where a delimiter is a whitespace or newline character) and
//! counts how often each distinct word occurs.  Two entry points produce the
//! counts: `word_count` walks the whole text in one pass, and `mt_word_count`
//! first cuts the text into four word-aligned partitions and counts each
//! partition separately into one shared map.  Both are proved to return
//! exactly the same mapping, `word_counts` of the input.

pub mod count_map;
pub mod counting;
pub mod delimiter;
pub mod laws;
pub mod model;
pub mod partition;

pub use count_map::CountMap;
pub use counting::count_into;
pub use counting::mt_word_count;
pub use counting::word_count;
pub use delimiter::is_delimiter;
pub use partition::split_points;
