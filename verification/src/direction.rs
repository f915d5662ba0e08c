//! Travel direction at a stop, derived from a request argument.
//!
//! The request carries the direction as a single letter or a full word,
//! in any mix of letter cases; anything else is a validation failure.

use crate::error::ValidationError;
use vstd::prelude::*;
use vstd::string::*;

verus! {

/// ASCII-uppercased code point of `c`.
pub open spec fn upper_code(c: char) -> u32 {
    if 97 <= c as u32 && c as u32 <= 122 {
        (c as u32 - 32) as u32
    } else {
        c as u32
    }
}

/// `s` reads as `pat` once ASCII letter case is ignored; `pat` is written
/// in upper case.
pub open spec fn ci_matches(s: Seq<char>, pat: Seq<char>) -> bool {
    s.len() == pat.len() && (forall|i: int|
        0 <= i < s.len() ==> upper_code(s[i]) == pat[i] as u32)
}

/// The input denotes northbound travel.
pub open spec fn is_north_word(s: Seq<char>) -> bool {
    ci_matches(s, seq!['N']) || ci_matches(s, seq!['N', 'O', 'R', 'T', 'H'])
}

/// The input denotes southbound travel.
pub open spec fn is_south_word(s: Seq<char>) -> bool {
    ci_matches(s, seq!['S']) || ci_matches(s, seq!['S', 'O', 'U', 'T', 'H'])
}

/// Direction of travel requested by the caller.  A stop serves one
/// direction, marked by the final letter of its identifier.
#[derive(Debug, Clone, Copy, PartialEq, Eq, Structural)]
pub enum Direction {
    North,
    South,
}

impl Direction {
    /// The letter that closes the identifier of every stop serving this
    /// direction.
    pub open spec fn spec_suffix(self) -> char {
        match self {
            Direction::North => 'N',
            Direction::South => 'S',
        }
    }

    /// Executable twin of [`Self::spec_suffix`].
    pub fn suffix(self) -> (c: char)
        ensures
            c == self.spec_suffix(),
    {
        match self {
            Direction::North => 'N',
            Direction::South => 'S',
        }
    }

    /// Parse a direction argument, ignoring ASCII letter case: a single
    /// letter or the full word for either direction; anything else is a
    /// validation failure.
    pub fn parse(s: &str) -> (r: Result<Direction, ValidationError>)
        ensures
            r == (if is_north_word(s@) {
                Ok::<Direction, ValidationError>(Direction::North)
            } else if is_south_word(s@) {
                Ok::<Direction, ValidationError>(Direction::South)
            } else {
                Err::<Direction, ValidationError>(ValidationError::InvalidDirection)
            }),
    {
        let n: usize = s.unicode_len();
        if n == 1 {
            let u0 = upper_code_exec(s.get_char(0));
            if u0 == 'N' as u32 {
                assert(ci_matches(s@, seq!['N']));
                Ok(Direction::North)
            } else if u0 == 'S' as u32 {
                assert(ci_matches(s@, seq!['S']));
                Ok(Direction::South)
            } else {
                Err(ValidationError::InvalidDirection)
            }
        } else if n == 5 {
            let u0 = upper_code_exec(s.get_char(0));
            let u1 = upper_code_exec(s.get_char(1));
            let u2 = upper_code_exec(s.get_char(2));
            let u3 = upper_code_exec(s.get_char(3));
            let u4 = upper_code_exec(s.get_char(4));
            if u0 == 'N' as u32 && u1 == 'O' as u32 && u2 == 'R' as u32 && u3 == 'T' as u32 && u4
                == 'H' as u32 {
                assert(ci_matches(s@, seq!['N', 'O', 'R', 'T', 'H']));
                Ok(Direction::North)
            } else if u0 == 'S' as u32 && u1 == 'O' as u32 && u2 == 'U' as u32 && u3 == 'T' as u32
                && u4 == 'H' as u32 {
                assert(ci_matches(s@, seq!['S', 'O', 'U', 'T', 'H']));
                Ok(Direction::South)
            } else {
                Err(ValidationError::InvalidDirection)
            }
        } else {
            Err(ValidationError::InvalidDirection)
        }
    }
}

/// Executable twin of [`upper_code`].
fn upper_code_exec(c: char) -> (u: u32)
    ensures
        u == upper_code(c),
{
    let cu: u32 = c as u32;
    if 97 <= cu && cu <= 122 {
        cu - 32
    } else {
        cu
    }
}

} // verus!
