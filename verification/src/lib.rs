//! Planar distances between grid references.
//!
//! A grid reference is a string of 2, 4, 6, 8 or 10 decimal digits. Its first
//! half is the easting and its second half the northing; the number of digits
//! fixes the precision, from ten kilometres (one digit per axis) down to one
//! metre (five digits per axis). All quantities are whole metres.

mod digits;
mod error;
mod grid;
mod range;

pub use digits::{
    all_digit_chars, all_digits, decimal_value, is_digit, is_digit_char, is_first_non_digit,
    lemma_decimal_value_bound, lemma_digit_chars_encode_as_digits,
    lemma_non_digit_char_has_non_digit_byte, lemma_pow10_adds, lemma_pow10_increases, pow10,
};
pub use error::{CoordParseError, InvalidDigit, MalformedCoordinates};
pub use grid::{
    accepted_length, easting_digits, grid_point, is_grid_reference, lemma_scaled_half_bound,
    metres_per_unit, northing_digits, GridPoint, UtmCoordinate,
};
pub use range::{
    floor_sqrt, integer_sqrt, is_floor_sqrt, lemma_floor_sqrt_is, lemma_floor_sqrt_unique,
    lemma_range_symmetric, lemma_range_to_self, range_metres, squared_range, utm_range,
};
