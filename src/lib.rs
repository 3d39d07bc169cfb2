//! Formatting of fixed-point decimals: canonical text, US dollars rounded to
//! cents, and thousands-separated text at a chosen number of places.
pub mod decimal;
pub mod format;
pub mod grouping;
pub mod laws;

pub use decimal::{Dec, MAX_MAGNITUDE, MAX_SCALE};
pub use format::{
    dec_to_separated_string, dec_to_string_or_empty, dec_to_usd_string, usd_string_from_money,
};
