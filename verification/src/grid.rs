//! Grid references and the coordinates they denote.

use crate::digits::{
    all_digit_chars, all_digits, decimal_value, is_digit, is_first_non_digit,
    lemma_decimal_value_bound, lemma_digit_chars_encode_as_digits, lemma_pow10_adds,
    lemma_pow10_increases, parse_digits, pow10, pow10_u32,
};
use crate::error::{CoordParseError, MalformedCoordinates};
use vstd::prelude::*;
use vstd::utf8::encode_utf8;

verus! {

/// A position on the grid, in whole metres.
#[derive(Clone, Copy, Debug, PartialEq, Eq, Structural)]
pub struct UtmCoordinate {
    /// Metres east of the grid's origin.
    pub easting: i32,
    /// Metres north of the grid's origin.
    pub northing: i32,
}

/// The point of the plane that a coordinate stands for.
pub struct GridPoint {
    pub easting: int,
    pub northing: int,
}

impl View for UtmCoordinate {
    type V = GridPoint;

    open spec fn view(&self) -> GridPoint {
        GridPoint { easting: self.easting as int, northing: self.northing as int }
    }
}

/// The lengths that a grid reference may have.
pub open spec fn accepted_length(len: nat) -> bool {
    len == 2 || len == 4 || len == 6 || len == 8 || len == 10
}

/// How many metres one unit of either half of a grid reference of `len`
/// digits is worth: ten kilometres at one digit per axis, one metre at five.
pub open spec fn metres_per_unit(len: nat) -> nat
    recommends
        accepted_length(len),
{
    pow10((5 - len / 2) as nat)
}

/// Whether `bytes` is a grid reference: an accepted number of decimal digits.
pub open spec fn is_grid_reference(bytes: Seq<u8>) -> bool {
    accepted_length(bytes.len()) && all_digits(bytes)
}

/// The digits of the easting: the first half of the reference.
pub open spec fn easting_digits(bytes: Seq<u8>) -> Seq<u8> {
    bytes.subrange(0, bytes.len() as int / 2)
}

/// The digits of the northing: the second half of the reference.
pub open spec fn northing_digits(bytes: Seq<u8>) -> Seq<u8> {
    bytes.subrange(bytes.len() as int / 2, bytes.len() as int)
}

/// The point that the grid reference `bytes` denotes.
pub open spec fn grid_point(bytes: Seq<u8>) -> GridPoint
    recommends
        is_grid_reference(bytes),
{
    GridPoint {
        easting: (decimal_value(easting_digits(bytes)) * metres_per_unit(bytes.len())) as int,
        northing: (decimal_value(northing_digits(bytes)) * metres_per_unit(bytes.len())) as int,
    }
}

/// Either half of a grid reference, scaled to metres, stays below one hundred
/// kilometres.
pub proof fn lemma_scaled_half_bound(digits: Seq<u8>, len: nat)
    requires
        accepted_length(len),
        digits.len() == len / 2,
        all_digits(digits),
    ensures
        decimal_value(digits) * metres_per_unit(len) < 100_000,
{
    let value = decimal_value(digits);
    let scale = metres_per_unit(len);
    lemma_decimal_value_bound(digits);
    lemma_pow10_increases(0, (5 - len / 2) as nat);
    lemma_pow10_adds(len / 2, (5 - len / 2) as nat);
    assert(pow10(5) == 100_000) by {
        reveal_with_fuel(pow10, 6);
    }
    assert(value * scale < pow10(len / 2) * scale) by (nonlinear_arith)
        requires
            value < pow10(len / 2),
            0 < scale,
    ;
}

impl UtmCoordinate {
    /// Reads a grid reference.
    ///
    /// The length of `coords` is counted in the bytes that encode it. It must
    /// be 2, 4, 6, 8 or 10, else the reference is malformed. Every character
    /// must then be a decimal digit, else the offset of the first byte that
    /// is none is reported. The first half of the digits is the easting and
    /// the second half the northing, each scaled to metres by the precision
    /// that the length implies.
    pub fn from_coords(coords: String) -> (res: Result<UtmCoordinate, CoordParseError>)
        ensures
            res is Ok <==> accepted_length(encode_utf8(coords@).len()) && all_digit_chars(coords@),
            (res matches Err(CoordParseError::MalformedCoordinates(_))) <==> !accepted_length(
                encode_utf8(coords@).len(),
            ),
            (res matches Err(CoordParseError::ParseError(_))) <==> accepted_length(
                encode_utf8(coords@).len(),
            ) && !all_digit_chars(coords@),
            match res {
                Ok(point) => is_grid_reference(encode_utf8(coords@)) && point@ == grid_point(
                    encode_utf8(coords@),
                ),
                Err(CoordParseError::MalformedCoordinates(_)) => true,
                Err(CoordParseError::ParseError(err)) => is_first_non_digit(
                    encode_utf8(coords@),
                    err.position as int,
                ),
            },
    {
        let bytes = coords.as_str().as_bytes();
        let digits: usize = bytes.len();
        proof {
            lemma_digit_chars_encode_as_digits(coords@);
        }
        if digits == 2 || digits == 4 || digits == 6 || digits == 8 || digits == 10 {
            Self::from_digit(bytes, digits)
        } else {
            Err(CoordParseError::MalformedCoordinates(MalformedCoordinates {  }))
        }
    }

    /// Reads a grid reference of `digits` bytes, an accepted number.
    fn from_digit(coords: &[u8], digits: usize) -> (res: Result<UtmCoordinate, CoordParseError>)
        requires
            coords@.len() == digits,
            accepted_length(digits as nat),
        ensures
            res is Ok <==> all_digits(coords@),
            match res {
                Ok(point) => point@ == grid_point(coords@),
                Err(CoordParseError::MalformedCoordinates(_)) => false,
                Err(CoordParseError::ParseError(err)) => is_first_non_digit(
                    coords@,
                    err.position as int,
                ),
            },
    {
        let half: usize = digits / 2;
        let scale: u32 = pow10_u32((5 - half) as u32);
        let east: u32 = match parse_digits(coords, 0, half) {
            Ok(value) => value,
            Err(err) => {
                return Err(CoordParseError::ParseError(err));
            },
        };
        let north: u32 = match parse_digits(coords, half, digits) {
            Ok(value) => value,
            Err(err) => {
                return Err(CoordParseError::ParseError(err));
            },
        };
        proof {
            assert forall|i: int| 0 <= i < easting_digits(coords@).len() implies is_digit(
                #[trigger] easting_digits(coords@)[i],
            ) by {
                assert(easting_digits(coords@)[i] == coords@[i]);
            }
            assert forall|i: int| 0 <= i < northing_digits(coords@).len() implies is_digit(
                #[trigger] northing_digits(coords@)[i],
            ) by {
                assert(northing_digits(coords@)[i] == coords@[half + i]);
            }
            lemma_scaled_half_bound(easting_digits(coords@), digits as nat);
            lemma_scaled_half_bound(northing_digits(coords@), digits as nat);
            assert(scale * east == east * scale && scale * north == north * scale)
                by (nonlinear_arith);
        }
        Ok(UtmCoordinate { easting: (scale * east) as i32, northing: (scale * north) as i32 })
    }
}

} // verus!
