//! Squares of the board.

use vstd::prelude::*;
use vstd::string::StringExecFns;
use vstd::string::StringSliceAdditionalSpecFns;

verus! {

/// A position on the board: `rank * 8 + file`, with a1 at 0 and h8 at 63.
#[derive(Debug, Clone, Copy, PartialEq, Eq, Hash, Structural)]
pub struct Square(pub u8);

/// The letter of a file, `a` to `h`.
pub open spec fn file_letter(file: int) -> char {
    if file == 0 {
        'a'
    } else if file == 1 {
        'b'
    } else if file == 2 {
        'c'
    } else if file == 3 {
        'd'
    } else if file == 4 {
        'e'
    } else if file == 5 {
        'f'
    } else if file == 6 {
        'g'
    } else {
        'h'
    }
}

/// The digit of a rank, `1` to `8`.
pub open spec fn rank_digit(rank: int) -> char {
    if rank == 0 {
        '1'
    } else if rank == 1 {
        '2'
    } else if rank == 2 {
        '3'
    } else if rank == 3 {
        '4'
    } else if rank == 4 {
        '5'
    } else if rank == 5 {
        '6'
    } else if rank == 6 {
        '7'
    } else {
        '8'
    }
}

/// The file that a byte names: `a` to `h` in either case.
pub open spec fn file_of_byte(b: u8) -> Option<int> {
    if 0x61 <= b <= 0x68 {
        Some(b - 0x61)
    } else if 0x41 <= b <= 0x48 {
        Some(b - 0x41)
    } else {
        None
    }
}

/// The rank that a byte names: `1` to `8`.
pub open spec fn rank_of_byte(b: u8) -> Option<int> {
    if 0x31 <= b <= 0x38 {
        Some(b - 0x31)
    } else {
        None
    }
}

/// The square that two bytes name in algebraic notation, if they name one.
pub open spec fn square_of_bytes(s: Seq<u8>) -> Option<Square> {
    if s.len() == 2 && file_of_byte(s[0]).is_some() && rank_of_byte(s[1]).is_some() {
        Some(Square((rank_of_byte(s[1]).unwrap() * 8 + file_of_byte(s[0]).unwrap()) as u8))
    } else {
        None
    }
}

impl Square {
    /// A square of the board: the index is below 64.
    pub open spec fn wf(self) -> bool {
        self.0 < 64
    }

    /// The index as a mathematical integer.
    pub open spec fn idx(self) -> int {
        self.0 as int
    }

    /// The square's name in algebraic notation.
    pub open spec fn name(self) -> Seq<char> {
        seq![file_letter(self.0 as int % 8), rank_digit(self.0 as int / 8)]
    }

    /// The square at a particular rank and file.
    #[inline]
    pub fn at(rank: u8, file: u8) -> (r: Option<Square>)
        ensures
            rank <= 7 && file <= 7 ==> r == Some(Square((rank * 8 + file) as u8)),
            rank > 7 || file > 7 ==> r.is_none(),
            r.is_some() ==> r.unwrap().wf(),
    {
        if rank > 7 || file > 7 {
            return None;
        }
        Some(Square(rank * 8 + file))
    }

    /// Rank of this square.
    #[inline]
    pub fn rank(&self) -> (r: u8)
        ensures
            r == self.0 / 8,
    {
        self.0 / 8
    }

    /// File of this square.
    #[inline]
    pub fn file(&self) -> (r: u8)
        ensures
            r == self.0 % 8,
    {
        self.0 % 8
    }

    /// Get the internal index representation of this square.
    #[inline]
    pub fn raw_index(&self) -> (r: u8)
        ensures
            r == self.0,
    {
        self.0
    }

    /// Get the internal index representation of this square, for writing.
    ///
    /// Writing an index of 64 or more leaves a value that is no square of the board.
    #[inline]
    pub fn raw_index_mut(&mut self) -> (r: &mut u8)
        ensures
            *r == old(self).0,
            *final(self) == Square(*final(r)),
    {
        &mut self.0
    }

    /// Construct a square from an index skipping any validity checks.
    #[inline]
    pub fn from_index_unchecked(index: u8) -> (r: Square)
        ensures
            r == Square(index),
    {
        Square(index)
    }

    /// Determine a square from a (rank, file) pair.
    #[inline]
    pub fn try_from(value: (u8, u8)) -> (r: Result<Square, ()>)
        ensures
            value.0 <= 7 && value.1 <= 7 ==> r == Ok::<Square, ()>(
                Square((value.0 * 8 + value.1) as u8),
            ),
            value.0 > 7 || value.1 > 7 ==> r == Err::<Square, ()>(()),
    {
        match Square::at(value.0, value.1) {
            Some(sq) => Ok(sq),
            None => Err(()),
        }
    }

    /// Determine a square's position from algebraic notation.
    pub fn from_str(s: &str) -> (r: Result<Square, ()>)
        ensures
            match square_of_bytes(s.spec_bytes()) {
                Some(sq) => r == Ok::<Square, ()>(sq) && sq.wf(),
                None => r == Err::<Square, ()>(()),
            },
    {
        let bytes = s.as_bytes();
        if bytes.len() != 2 {
            return Err(());
        }
        let file = bytes[0];
        let file = if file > 0x48 {
            file.wrapping_sub(0x61)
        } else {
            file.wrapping_sub(0x41)
        };
        let rank = bytes[1].wrapping_sub(0x31);
        Square::try_from((rank, file))
    }

    /// Format the square into algebraic notation.
    pub fn to_string(&self) -> (r: String)
        requires
            self.wf(),
        ensures
            r@ == self.name(),
    {
        let mut out = String::new();
        let file = self.0 % 8;
        let rank = self.0 / 8;
        proof {
            reveal_strlit("a");
            reveal_strlit("b");
            reveal_strlit("c");
            reveal_strlit("d");
            reveal_strlit("e");
            reveal_strlit("f");
            reveal_strlit("g");
            reveal_strlit("h");
            reveal_strlit("1");
            reveal_strlit("2");
            reveal_strlit("3");
            reveal_strlit("4");
            reveal_strlit("5");
            reveal_strlit("6");
            reveal_strlit("7");
            reveal_strlit("8");
        }
        let f = if file == 0 {
            "a"
        } else if file == 1 {
            "b"
        } else if file == 2 {
            "c"
        } else if file == 3 {
            "d"
        } else if file == 4 {
            "e"
        } else if file == 5 {
            "f"
        } else if file == 6 {
            "g"
        } else {
            "h"
        };
        let d = if rank == 0 {
            "1"
        } else if rank == 1 {
            "2"
        } else if rank == 2 {
            "3"
        } else if rank == 3 {
            "4"
        } else if rank == 4 {
            "5"
        } else if rank == 5 {
            "6"
        } else if rank == 6 {
            "7"
        } else {
            "8"
        };
        out.append(f);
        out.append(d);
        proof {
            assert(out@ =~= self.name());
        }
        out
    }
}

impl core::str::FromStr for Square {
    type Err = ();

    /// Determine a square's position from algebraic notation: the square that the two
    /// bytes name, a file letter in either case and a rank digit, and an error for
    /// every other text.
    fn from_str(s: &str) -> (r: Result<Square, ()>)
        ensures
            match square_of_bytes(s.spec_bytes()) {
                Some(sq) => r == Ok::<Square, ()>(sq) && sq.wf(),
                None => r == Err::<Square, ()>(()),
            },
    {
        Square::from_str(s)
    }
}

impl vstd::std_specs::convert::TryFromSpecImpl<(u8, u8)> for Square {
    open spec fn obeys_try_from_spec() -> bool {
        true
    }

    open spec fn try_from_spec(v: (u8, u8)) -> Result<Square, ()> {
        if v.0 <= 7 && v.1 <= 7 {
            Ok(Square((v.0 * 8 + v.1) as u8))
        } else {
            Err(())
        }
    }
}

impl TryFrom<(u8, u8)> for Square {
    type Error = ();

    /// Determine a square from a (rank, file) pair.
    #[inline]
    fn try_from(value: (u8, u8)) -> (r: Result<Square, ()>) {
        Square::try_from(value)
    }
}

} // verus!
