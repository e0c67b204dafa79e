//! A line-oriented text-search core: given a query string, a body of text,
//! and a case-sensitivity mode, it reports every matching line, keyed by its
//! 1-based line number. Lines are borrowed views into the searched text, and
//! case-insensitive matching folds both sides through a per-character,
//! locale-independent lowercase mapping.

pub mod config;
pub mod fold;
pub mod matcher;
pub mod restaurant;
pub mod scanner;

pub use config::Config;
pub use matcher::{search, search_case_insensitive, search_case_sensitive, CaseMode};
pub use restaurant::{add_to_list, eat_at_restaurant, seat_table};
pub use scanner::scan;
