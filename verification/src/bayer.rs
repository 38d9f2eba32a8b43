//! Bayer matrices: for every pixel of a tile, its place in the order in which
//! the pixels of the tile are switched on as an area gets brighter.

use vstd::prelude::*;

use crate::text::same_text;

verus! {

/// The size of the Bayer matrix.
#[derive(Clone, Copy, Debug, PartialEq, Eq, Structural)]
pub enum MatrixSize {
    Eight,
    Four,
    Two,
}

/// The Bayer matrix of 2 by 2.
pub const BAYER_2X2: [usize; 4] = [0, 2, 3, 1];

/// The Bayer matrix of 4 by 4.
pub const BAYER_4X4: [usize; 16] = [0, 8, 2, 10, 12, 4, 14, 6, 3, 11, 1, 9, 15, 7, 13, 5];

/// The Bayer matrix of 8 by 8.
pub const BAYER_8X8: [usize; 64] = [
    0, 48, 12, 60, 3, 51, 15, 63, 32, 16, 44, 28, 35, 19, 47, 31, 8, 56, 4, 52, 11, 59, 7, 55, 40,
    24, 36, 20, 43, 27, 39, 23, 2, 50, 14, 62, 1, 49, 13, 61, 34, 18, 46, 30, 33, 17, 45, 29, 10,
    58, 6, 54, 9, 57, 5, 53, 42, 26, 38, 22, 41, 25, 37, 21,
];

impl MatrixSize {
    /// The matrix size that a word names.
    pub open spec fn named(s: Seq<char>) -> Option<MatrixSize> {
        if s == "two"@ || s == "2"@ || s == "2x2"@ {
            Some(MatrixSize::Two)
        } else if s == "four"@ || s == "4"@ || s == "4x4"@ {
            Some(MatrixSize::Four)
        } else if s == "eight"@ || s == "8"@ || s == "8x8"@ {
            Some(MatrixSize::Eight)
        } else {
            None
        }
    }

    /// The word for the matrix size.
    pub open spec fn name(&self) -> Seq<char> {
        match self {
            MatrixSize::Eight => "eight"@,
            MatrixSize::Four => "four"@,
            MatrixSize::Two => "two"@,
        }
    }

    /// The number of rows, and of columns, of the matrix.
    pub open spec fn side(&self) -> int {
        match self {
            MatrixSize::Eight => 8,
            MatrixSize::Four => 4,
            MatrixSize::Two => 2,
        }
    }

    /// The entries of the matrix, row after row.
    pub open spec fn matrix(&self) -> Seq<usize> {
        match self {
            MatrixSize::Eight => BAYER_8X8@,
            MatrixSize::Four => BAYER_4X4@,
            MatrixSize::Two => BAYER_2X2@,
        }
    }

    /// The entry of the matrix for the pixel at `x`, `y`.
    pub open spec fn threshold(&self, x: int, y: int) -> int {
        self.matrix()[(y % self.side()) * self.side() + x % self.side()] as int
    }

    /// The matrix size that `s` names.
    pub fn from_str(s: &str) -> (r: Result<MatrixSize, &'static str>)
        ensures
            match Self::named(s@) {
                Some(size) => r == Ok::<MatrixSize, &'static str>(size),
                None => r is Err,
            },
    {
        if same_text(s, "two") || same_text(s, "2") || same_text(s, "2x2") {
            Ok(MatrixSize::Two)
        } else if same_text(s, "four") || same_text(s, "4") || same_text(s, "4x4") {
            Ok(MatrixSize::Four)
        } else if same_text(s, "eight") || same_text(s, "8") || same_text(s, "8x8") {
            Ok(MatrixSize::Eight)
        } else {
            Err("Invalid matrix size!")
        }
    }

    /// The word for the matrix size: `eight`, `four` or `two`.
    pub fn to_string(&self) -> (s: &'static str)
        ensures
            s@ == self.name(),
    {
        match self {
            MatrixSize::Eight => "eight",
            MatrixSize::Four => "four",
            MatrixSize::Two => "two",
        }
    }

    /// The matrix size that the number `value` stands for.
    pub fn try_from(value: u8) -> (r: Option<MatrixSize>)
        ensures
            r == if value == 0 {
                Some(MatrixSize::Eight)
            } else if value == 1 {
                Some(MatrixSize::Four)
            } else if value == 2 {
                Some(MatrixSize::Two)
            } else {
                None
            },
    {
        match value {
            0 => Some(MatrixSize::Eight),
            1 => Some(MatrixSize::Four),
            2 => Some(MatrixSize::Two),
            _ => None,
        }
    }

    /// The number of candidates that are mixed for a pixel: the number of
    /// entries of the matrix.
    pub fn candidates(&self) -> (n: usize)
        ensures
            n == self.side() * self.side(),
            n == self.matrix().len(),
            n <= 64,
    {
        match self {
            MatrixSize::Eight => 64,
            MatrixSize::Four => 16,
            MatrixSize::Two => 4,
        }
    }

    /// The entry of the matrix for the pixel at `x`, `y`: the place, among the
    /// candidates in the order of their brightness, of the one to take.
    pub fn pick(&self, x: usize, y: usize) -> (p: usize)
        ensures
            p == self.threshold(x as int, y as int),
            p < self.side() * self.side(),
    {
        match self {
            MatrixSize::Eight => {
                let at: usize = (y % 8) * 8 + (x % 8);
                let p: usize = BAYER_8X8[at];
                proof {
                    assert(BAYER_8X8@[at as int] < 64);
                    assert(self.side() * self.side() == 64);
                    lemma_bayer_8();
                }
                p
            },
            MatrixSize::Four => {
                let at: usize = (y % 4) * 4 + (x % 4);
                let p: usize = BAYER_4X4[at];
                proof {
                    assert(BAYER_4X4@[at as int] < 16);
                    assert(self.side() * self.side() == 16);
                    lemma_bayer_4();
                }
                p
            },
            MatrixSize::Two => {
                let at: usize = (y % 2) * 2 + (x % 2);
                let p: usize = BAYER_2X2[at];
                proof {
                    assert(BAYER_2X2@[at as int] < 4);
                    assert(self.side() * self.side() == 4);
                    lemma_bayer_2();
                }
                p
            },
        }
    }
}

/// Every entry of the 2 by 2 matrix is below 4.
pub proof fn lemma_bayer_2()
    ensures
        forall|i: int| 0 <= i < 4 ==> (#[trigger] BAYER_2X2@[i]) < 4,
{
}

/// Every entry of the 4 by 4 matrix is below 16.
pub proof fn lemma_bayer_4()
    ensures
        forall|i: int| 0 <= i < 16 ==> (#[trigger] BAYER_4X4@[i]) < 16,
{
}

/// Every entry of the 8 by 8 matrix is below 64.
pub proof fn lemma_bayer_8()
    ensures
        forall|i: int| 0 <= i < 64 ==> (#[trigger] BAYER_8X8@[i]) < 64,
{
}

} // verus!
