//! Grid squares (JIS X 0410): the area that a code stands for, computed from
//! the code alone.
//!
//! | digits | size |
//! | ---: | --- |
//! | 4 | about 80 km |
//! | 6 | about 10 km |
//! | 8 | about 1 km |
//! | 9 | about 500 m |
//! | 10 | about 250 m |
//! | 11 | about 125 m |
//!
//! The finest squares are 1/640 of a degree wide and 1/960 of a degree high.
//! In these units every square has integer corners and equal sides.
use crate::text;
use crate::text::{chars_of, push_decimal, quote};
use vstd::prelude::*;

verus! {

/// The number of units of longitude in a degree.
pub const LONGITUDE_UNITS: u32 = 640;

/// The number of units of latitude in a degree.
pub const LATITUDE_UNITS: u32 = 960;

/// The corners of a square: longitudes in 1/640, latitudes in 1/960 of a degree.
#[derive(Debug, Clone, Copy, PartialEq, Eq, Structural)]
pub struct GridBounds {
    pub west: u32,
    pub south: u32,
    pub east: u32,
    pub north: u32,
}

impl GridBounds {
    /// `other` lies in this square.
    pub open spec fn encloses(self, other: GridBounds) -> bool {
        &&& self.west <= other.west
        &&& self.south <= other.south
        &&& self.east >= other.east
        &&& self.north >= other.north
    }

    /// A point lies in this square; its western and southern edges belong to it.
    pub open spec fn holds(self, x: int, y: int) -> bool {
        self.west <= x < self.east && self.south <= y < self.north
    }

    pub open spec fn width(self) -> int {
        self.east - self.west
    }

    pub open spec fn height(self) -> int {
        self.north - self.south
    }
}

/// Why a text is no code of a square.
#[derive(Debug, Clone, Copy, PartialEq, Eq, Structural)]
pub enum MeshError {
    NotDigits,
    /// The number of digits is none of 4, 6, 8, 9, 10, 11.
    Length,
    /// A second-level block number above 7.
    Block,
    /// A quadrant number other than 1 to 4.
    Quadrant,
}

impl MeshError {
    /// What is said of a code.
    pub open spec fn spec_text(self, code: Seq<char>) -> Seq<char> {
        match self {
            MeshError::NotDigits => "メッシュコードに数字以外が入っています: "@ + text::quoted(code),
            MeshError::Length => "メッシュコードの桁数が 4/6/8/9/10/11 のいずれでもありません: "@
                + text::quoted(code) + " ("@ + text::decimal_text(code.len()) + "桁)"@,
            MeshError::Block => "2次メッシュの区画番号は0〜7です: "@ + text::quoted(code),
            MeshError::Quadrant => "分割メッシュの区画番号は1〜4です: "@ + text::quoted(code),
        }
    }

    pub fn to_text(&self, code: &str) -> (text: String)
        ensures
            text@ == self.spec_text(code@),
    {
        let mut text = String::new();
        match self {
            MeshError::NotDigits => {
                text.append("メッシュコードに数字以外が入っています: ");
                text.append(quote(code).as_str());
            },
            MeshError::Length => {
                text.append("メッシュコードの桁数が 4/6/8/9/10/11 のいずれでもありません: ");
                text.append(quote(code).as_str());
                text.append(" (");
                push_decimal(&mut text, chars_of(code).len() as u64);
                text.append("桁)");
            },
            MeshError::Block => {
                text.append("2次メッシュの区画番号は0〜7です: ");
                text.append(quote(code).as_str());
            },
            MeshError::Quadrant => {
                text.append("分割メッシュの区画番号は1〜4です: ");
                text.append(quote(code).as_str());
            },
        }
        text
    }
}

/// The digit at `i`; zero beyond the end.
pub open spec fn digit(code: Seq<char>, i: int) -> int {
    if 0 <= i < code.len() {
        text::digit_value(code[i])
    } else {
        0
    }
}

pub open spec fn known_length(n: int) -> bool {
    n == 4 || n == 6 || n == 8 || n == 9 || n == 10 || n == 11
}

/// The side of a square whose code has `n` digits.
pub open spec fn side(n: int) -> int {
    if n == 4 {
        640
    } else if n == 6 {
        80
    } else if n == 8 {
        8
    } else if n == 9 {
        4
    } else if n == 10 {
        2
    } else {
        1
    }
}

/// The digits from the ninth on are quadrants: 1 to 4.
pub open spec fn quadrants_valid(code: Seq<char>) -> bool {
    forall|i: int| 8 <= i < code.len() ==> 1 <= #[trigger] digit(code, i) <= 4
}

/// How far the digit at `i`, a quadrant, moves the square: quadrants go 1
/// south-west, 2 south-east, 3 north-west, 4 north-east.
pub open spec fn quadrant_shift(code: Seq<char>, i: int, east: bool) -> int {
    let q = digit(code, i);
    if i < code.len() && (if east {
        q == 2 || q == 4
    } else {
        q == 3 || q == 4
    }) {
        side(i + 1)
    } else {
        0
    }
}

/// The western edge.
pub open spec fn west_of(code: Seq<char>) -> int {
    (100 + 10 * digit(code, 2) + digit(code, 3)) * 640 + digit(code, 5) * 80 + digit(code, 7) * 8
        + quadrant_shift(code, 8, true) + quadrant_shift(code, 9, true) + quadrant_shift(
        code,
        10,
        true,
    )
}

/// The southern edge.
pub open spec fn south_of(code: Seq<char>) -> int {
    (10 * digit(code, 0) + digit(code, 1)) * 640 + digit(code, 4) * 80 + digit(code, 6) * 8
        + quadrant_shift(code, 8, false) + quadrant_shift(code, 9, false) + quadrant_shift(
        code,
        10,
        false,
    )
}

/// The square that a code stands for, or why it stands for none.
pub open spec fn square_of(code: Seq<char>) -> Result<GridBounds, MeshError> {
    if !text::all_digits(code) {
        Err(MeshError::NotDigits)
    } else if !known_length(code.len() as int) {
        Err(MeshError::Length)
    } else if digit(code, 4) > 7 || digit(code, 5) > 7 {
        Err(MeshError::Block)
    } else if !quadrants_valid(code) {
        Err(MeshError::Quadrant)
    } else {
        let size = side(code.len() as int);
        Ok(
            GridBounds {
                west: west_of(code) as u32,
                south: south_of(code) as u32,
                east: (west_of(code) + size) as u32,
                north: (south_of(code) + size) as u32,
            },
        )
    }
}

/// The square that a code stands for.
pub fn bounds(code: &str) -> (r: Result<GridBounds, MeshError>)
    ensures
        r == square_of(code@),
{
    let chars = chars_of(code);
    let mut d: Vec<u32> = Vec::new();
    let mut i: usize = 0;
    while i < chars.len()
        invariant
            i <= chars@.len(),
            chars@ == code@,
            d@.len() == i,
            forall|j: int|
                0 <= j < i ==> text::is_digit(#[trigger] code@[j]) && d@[j] == digit(code@, j)
                    && d@[j] <= 9,
        decreases chars@.len() - i,
    {
        let c = chars[i];
        if c < '0' || c > '9' {
            assert(!text::is_digit(code@[i as int]));
            return Err(MeshError::NotDigits);
        }
        d.push(c as u32 - '0' as u32);
        i = i + 1;
    }
    assert(text::all_digits(code@));
    let n: usize = d.len();
    if n != 4 && n != 6 && n != 8 && n != 9 && n != 10 && n != 11 {
        return Err(MeshError::Length);
    }
    assert(code@.len() >= 4);
    assert(text::is_digit(code@[0]) && text::is_digit(code@[1]));
    assert(text::is_digit(code@[2]) && text::is_digit(code@[3]));
    let mut size: u32 = 640;
    let mut south: u32 = (d[0] * 10 + d[1]) * 640;
    let mut west: u32 = (d[2] * 10 + d[3] + 100) * 640;
    if n >= 6 {
        assert(text::is_digit(code@[4]) && text::is_digit(code@[5]));
        if d[4] > 7 || d[5] > 7 {
            return Err(MeshError::Block);
        }
        size = 80;
        south = south + d[4] * 80;
        west = west + d[5] * 80;
    }
    if n >= 8 {
        assert(text::is_digit(code@[6]) && text::is_digit(code@[7]));
        size = 8;
        south = south + d[6] * 8;
        west = west + d[7] * 8;
    }
    let ghost base_west = west as int;
    let ghost base_south = south as int;
    let mut k: usize = 8;
    while k < n
        invariant
            8 <= k,
            n >= 8 ==> k <= n,
            n <= 11,
            known_length(n as int),
            d@.len() == n,
            code@.len() == n,
            text::all_digits(code@),
            n >= 8 ==> size == side(k as int),
            n < 8 ==> size == side(n as int),
            digit(code@, 4) <= 7,
            digit(code@, 5) <= 7,
            forall|j: int| 0 <= j < n ==> (#[trigger] d@[j]) == digit(code@, j),
            base_west <= 199 * 640 + 7 * 80 + 9 * 8,
            base_south <= 99 * 640 + 7 * 80 + 9 * 8,
            base_west == (100 + 10 * digit(code@, 2) + digit(code@, 3)) * 640 + digit(code@, 5) * 80
                + digit(code@, 7) * 8,
            base_south == (10 * digit(code@, 0) + digit(code@, 1)) * 640 + digit(code@, 4) * 80
                + digit(code@, 6) * 8,
            west == base_west + (if k > 8 {
                quadrant_shift(code@, 8, true)
            } else {
                0
            }) + (if k > 9 {
                quadrant_shift(code@, 9, true)
            } else {
                0
            }) + (if k > 10 {
                quadrant_shift(code@, 10, true)
            } else {
                0
            }),
            south == base_south + (if k > 8 {
                quadrant_shift(code@, 8, false)
            } else {
                0
            }) + (if k > 9 {
                quadrant_shift(code@, 9, false)
            } else {
                0
            }) + (if k > 10 {
                quadrant_shift(code@, 10, false)
            } else {
                0
            }),
            west <= base_west + 8,
            south <= base_south + 8,
            west + size <= base_west + 8 || n < 8,
            south + size <= base_south + 8 || n < 8,
            forall|j: int| 8 <= j < k ==> 1 <= #[trigger] digit(code@, j) <= 4,
        decreases n - k,
    {
        let q: u32 = d[k];
        if q < 1 || q > 4 {
            assert(!(1 <= digit(code@, k as int) <= 4));
            return Err(MeshError::Quadrant);
        }
        let index: u32 = q - 1;
        size = size / 2;
        assert(size == side(k + 1));
        assert(index / 2 <= 1 && index % 2 <= 1);
        let up: u32 = if index / 2 == 1 {
            size
        } else {
            0
        };
        let right: u32 = if index % 2 == 1 {
            size
        } else {
            0
        };
        assert(up == quadrant_shift(code@, k as int, false));
        assert(right == quadrant_shift(code@, k as int, true));
        south = south + up;
        west = west + right;
        k = k + 1;
    }
    Ok(GridBounds { west, south, east: west + size, north: south + size })
}

/// A corner of a square.
#[derive(Debug, Clone, Copy, PartialEq, Eq, Structural)]
pub struct GridPoint {
    pub x: u32,
    pub y: u32,
}

/// The outline of a square, closed, from the south-western corner eastwards.
pub open spec fn outline(b: GridBounds) -> Seq<GridPoint> {
    seq![
        GridPoint { x: b.west, y: b.south },
        GridPoint { x: b.east, y: b.south },
        GridPoint { x: b.east, y: b.north },
        GridPoint { x: b.west, y: b.north },
        GridPoint { x: b.west, y: b.south },
    ]
}

/// The outline of the square that a code stands for.
pub fn polygon(code: &str) -> (r: Result<Vec<GridPoint>, MeshError>)
    ensures
        match r {
            Ok(ring) => square_of(code@) is Ok && ring@ == outline(square_of(code@)->Ok_0),
            Err(e) => square_of(code@) == Err::<GridBounds, MeshError>(e),
        },
{
    match bounds(code) {
        Ok(b) => {
            let mut ring: Vec<GridPoint> = Vec::new();
            ring.push(GridPoint { x: b.west, y: b.south });
            ring.push(GridPoint { x: b.east, y: b.south });
            ring.push(GridPoint { x: b.east, y: b.north });
            ring.push(GridPoint { x: b.west, y: b.north });
            ring.push(GridPoint { x: b.west, y: b.south });
            assert(ring@ =~= outline(b));
            Ok(ring)
        },
        Err(e) => Err(e),
    }
}

// ---------------------------------------------------------------------------
// Laws
// ---------------------------------------------------------------------------

proof fn lemma_digit_range(code: Seq<char>, i: int)
    requires
        text::all_digits(code),
    ensures
        0 <= digit(code, i) <= 9,
{
    if 0 <= i < code.len() {
        assert(text::is_digit(code[i]));
    }
}

/// What a valid code says of its edges.
proof fn lemma_edges(code: Seq<char>)
    requires
        square_of(code) is Ok,
    ensures
        0 <= west_of(code) <= 0x1_0000_0000 - 1000,
        0 <= south_of(code) <= 0x1_0000_0000 - 1000,
        square_of(code)->Ok_0.west == west_of(code),
        square_of(code)->Ok_0.south == south_of(code),
        square_of(code)->Ok_0.east == west_of(code) + side(code.len() as int),
        square_of(code)->Ok_0.north == south_of(code) + side(code.len() as int),
        0 <= quadrant_shift(code, 8, true) <= 4,
        0 <= quadrant_shift(code, 8, false) <= 4,
        0 <= quadrant_shift(code, 9, true) <= 2,
        0 <= quadrant_shift(code, 9, false) <= 2,
        0 <= quadrant_shift(code, 10, true) <= 1,
        0 <= quadrant_shift(code, 10, false) <= 1,
{
    lemma_digit_range(code, 0);
    lemma_digit_range(code, 1);
    lemma_digit_range(code, 2);
    lemma_digit_range(code, 3);
    lemma_digit_range(code, 4);
    lemma_digit_range(code, 5);
    lemma_digit_range(code, 6);
    lemma_digit_range(code, 7);
    assert(code.len() > 8 ==> 1 <= digit(code, 8) <= 4);
    assert(code.len() > 9 ==> 1 <= digit(code, 9) <= 4);
    assert(code.len() > 10 ==> 1 <= digit(code, 10) <= 4);
}

/// Every square has as many units in width as in height, by its level.
pub proof fn law_sides(code: Seq<char>)
    requires
        square_of(code) is Ok,
    ensures
        square_of(code)->Ok_0.width() == side(code.len() as int),
        square_of(code)->Ok_0.height() == side(code.len() as int),
{
    lemma_edges(code);
}

/// A code cut short to a known length stands for a square around the first.
pub proof fn law_shorter_codes_enclose(code: Seq<char>, n: int)
    requires
        square_of(code) is Ok,
        0 <= n <= code.len(),
        known_length(n),
    ensures
        square_of(code.take(n)) is Ok,
        square_of(code.take(n))->Ok_0.encloses(square_of(code)->Ok_0),
{
    let short = code.take(n);
    assert forall|i: int| 0 <= i < short.len() implies text::is_digit(#[trigger] short[i]) by {
        assert(text::is_digit(code[i]));
    }
    assert(digit(short, 4) == digit(code, 4) || n <= 4);
    assert(digit(short, 5) == digit(code, 5) || n <= 5);
    assert forall|i: int| 8 <= i < short.len() implies 1 <= #[trigger] digit(short, i) <= 4 by {
        assert(digit(short, i) == digit(code, i));
    }
    lemma_edges(code);
    lemma_edges(short);
    lemma_digit_range(code, 4);
    lemma_digit_range(code, 5);
    lemma_digit_range(code, 6);
    lemma_digit_range(code, 7);
    assert(digit(short, 0) == digit(code, 0) && digit(short, 1) == digit(code, 1));
    assert(digit(short, 2) == digit(code, 2) && digit(short, 3) == digit(code, 3));
    assert(n > 6 ==> digit(short, 6) == digit(code, 6) && digit(short, 7) == digit(code, 7));
    assert(n > 8 ==> quadrant_shift(short, 8, true) == quadrant_shift(code, 8, true));
    assert(n > 8 ==> quadrant_shift(short, 8, false) == quadrant_shift(code, 8, false));
    assert(n > 9 ==> quadrant_shift(short, 9, true) == quadrant_shift(code, 9, true));
    assert(n > 9 ==> quadrant_shift(short, 9, false) == quadrant_shift(code, 9, false));
    assert(n > 10 ==> quadrant_shift(short, 10, true) == quadrant_shift(code, 10, true));
    assert(n > 10 ==> quadrant_shift(short, 10, false) == quadrant_shift(code, 10, false));
    assert(code.len() > 8 ==> 1 <= digit(code, 8) <= 4);
    assert(code.len() > 9 ==> 1 <= digit(code, 9) <= 4);
    assert(code.len() > 10 ==> 1 <= digit(code, 10) <= 4);
}

/// The square next to the east, in the same second-level square, begins where
/// a third-level square ends.
pub proof fn law_eastern_neighbours_share_an_edge(code: Seq<char>)
    requires
        square_of(code) is Ok,
        code.len() == 8,
        digit(code, 7) < 9,
    ensures
        ({
            let next = code.update(7, text::digit_char(digit(code, 7) + 1));
            &&& square_of(next) is Ok
            &&& square_of(next)->Ok_0.west == square_of(code)->Ok_0.east
            &&& square_of(next)->Ok_0.south == square_of(code)->Ok_0.south
            &&& square_of(next)->Ok_0.north == square_of(code)->Ok_0.north
        }),
{
    lemma_edges(code);
    lemma_digit_range(code, 7);
    let next = code.update(7, text::digit_char(digit(code, 7) + 1));
    assert forall|i: int| 0 <= i < next.len() implies text::is_digit(#[trigger] next[i]) by {
        assert(text::is_digit(code[i]));
    }
    assert(forall|i: int| i != 7 ==> digit(next, i) == digit(code, i));
    assert(digit(next, 7) == digit(code, 7) + 1);
    lemma_edges(next);
}

/// The square next to the north, in the same second-level square, begins where
/// a third-level square ends.
pub proof fn law_northern_neighbours_share_an_edge(code: Seq<char>)
    requires
        square_of(code) is Ok,
        code.len() == 8,
        digit(code, 6) < 9,
    ensures
        ({
            let next = code.update(6, text::digit_char(digit(code, 6) + 1));
            &&& square_of(next) is Ok
            &&& square_of(next)->Ok_0.south == square_of(code)->Ok_0.north
            &&& square_of(next)->Ok_0.west == square_of(code)->Ok_0.west
            &&& square_of(next)->Ok_0.east == square_of(code)->Ok_0.east
        }),
{
    lemma_edges(code);
    lemma_digit_range(code, 6);
    let next = code.update(6, text::digit_char(digit(code, 6) + 1));
    assert forall|i: int| 0 <= i < next.len() implies text::is_digit(#[trigger] next[i]) by {
        assert(text::is_digit(code[i]));
    }
    assert(forall|i: int| i != 6 ==> digit(next, i) == digit(code, i));
    assert(digit(next, 6) == digit(code, 6) + 1);
    lemma_edges(next);
}

/// The quarter of a square with that quadrant number.
pub open spec fn quarter(code: Seq<char>, q: int) -> Seq<char> {
    code.push(text::digit_char(q))
}

/// A quarter has half the side of its square, so a fourth of its units.
pub proof fn law_each_split_halves_the_sides(code: Seq<char>, q: int)
    requires
        square_of(code) is Ok,
        8 <= code.len() <= 10,
        1 <= q <= 4,
    ensures
        square_of(quarter(code, q)) is Ok,
        2 * square_of(quarter(code, q))->Ok_0.width() == square_of(code)->Ok_0.width(),
        2 * square_of(quarter(code, q))->Ok_0.height() == square_of(code)->Ok_0.height(),
        square_of(quarter(code, q))->Ok_0.west == square_of(code)->Ok_0.west + (if q == 2 || q == 4 {
            square_of(quarter(code, q))->Ok_0.width()
        } else {
            0
        }),
        square_of(quarter(code, q))->Ok_0.south == square_of(code)->Ok_0.south + (if q == 3 || q == 4 {
            square_of(quarter(code, q))->Ok_0.height()
        } else {
            0
        }),
{
    let part = quarter(code, q);
    assert forall|i: int| 0 <= i < part.len() implies text::is_digit(#[trigger] part[i]) by {
        if i < code.len() {
            assert(text::is_digit(code[i]));
        }
    }
    assert(forall|i: int| i < code.len() ==> digit(part, i) == digit(code, i));
    assert(digit(part, code.len() as int) == q);
    assert forall|i: int| 8 <= i < part.len() implies 1 <= #[trigger] digit(part, i) <= 4 by {
        if i < code.len() {
            assert(digit(part, i) == digit(code, i));
        }
    }
    lemma_edges(code);
    lemma_edges(part);
}

/// The four quarters of a square cover it without overlap: each of its points
/// lies in exactly one of them.
pub proof fn law_quarters_tile(code: Seq<char>, x: int, y: int, p: int, q: int)
    requires
        square_of(code) is Ok,
        8 <= code.len() <= 10,
        1 <= p <= 4,
        1 <= q <= 4,
    ensures
        square_of(code)->Ok_0.holds(x, y) <==> {
            ||| square_of(quarter(code, 1))->Ok_0.holds(x, y)
            ||| square_of(quarter(code, 2))->Ok_0.holds(x, y)
            ||| square_of(quarter(code, 3))->Ok_0.holds(x, y)
            ||| square_of(quarter(code, 4))->Ok_0.holds(x, y)
        },
        square_of(quarter(code, p))->Ok_0.holds(x, y) && square_of(quarter(code, q))->Ok_0.holds(
            x,
            y,
        ) ==> p == q,
{
    lemma_edges(code);
    law_each_split_halves_the_sides(code, 1);
    law_each_split_halves_the_sides(code, 2);
    law_each_split_halves_the_sides(code, 3);
    law_each_split_halves_the_sides(code, 4);
    lemma_edges(quarter(code, 1));
    lemma_edges(quarter(code, 2));
    lemma_edges(quarter(code, 3));
    lemma_edges(quarter(code, 4));
}

/// The outline is closed.
pub proof fn law_outlines_are_closed(b: GridBounds)
    ensures
        outline(b).len() == 5,
        outline(b)[0] == outline(b).last(),
{
}

/// A code is a row of 4, 6, 8, 9, 10 or 11 decimal digits, of which the fifth
/// and the sixth are at most 7 and those from the ninth on 1 to 4. Anything
/// else is refused, for the first of these that it breaks.
pub proof fn law_codes_are_digits(code: Seq<char>)
    ensures
        square_of(code) is Ok <==> {
            &&& forall|i: int| #![trigger code[i]] 0 <= i < code.len() ==> '0' <= code[i] <= '9'
            &&& code.len() == 4 || code.len() == 6 || 8 <= code.len() <= 11
            &&& code.len() >= 6 ==> code[4] <= '7' && code[5] <= '7'
            &&& forall|i: int| #![trigger code[i]] 8 <= i < code.len() ==> '1' <= code[i] <= '4'
        },
        square_of(code) == Err::<GridBounds, MeshError>(MeshError::NotDigits) <==> exists|i: int|
            #![trigger code[i]]
            0 <= i < code.len() && !('0' <= code[i] <= '9'),
        square_of(code) == Err::<GridBounds, MeshError>(MeshError::Length) <==> {
            &&& forall|i: int| #![trigger code[i]] 0 <= i < code.len() ==> '0' <= code[i] <= '9'
            &&& code.len() < 4 || code.len() == 5 || code.len() == 7 || code.len() > 11
        },
        square_of(code) == Err::<GridBounds, MeshError>(MeshError::Block) <==> {
            &&& forall|i: int| #![trigger code[i]] 0 <= i < code.len() ==> '0' <= code[i] <= '9'
            &&& code.len() == 6 || 8 <= code.len() <= 11
            &&& code[4] > '7' || code[5] > '7'
        },
{
    if text::all_digits(code) {
        assert forall|i: int| 0 <= i < code.len() implies '0' <= #[trigger] code[i] <= '9' by {
            assert(text::is_digit(code[i]));
        }
        if forall|i: int| #![trigger code[i]] 8 <= i < code.len() ==> '1' <= code[i] <= '4' {
            assert forall|i: int| 8 <= i < code.len() implies 1 <= #[trigger] digit(code, i)
                <= 4 by {
                assert('1' <= code[i] <= '4');
            }
        }
        if quadrants_valid(code) {
            assert forall|i: int| 8 <= i < code.len() implies '1' <= #[trigger] code[i] <= '4' by {
                assert(1 <= digit(code, i) <= 4);
            }
        }
    } else {
        let i = choose|i: int| 0 <= i < code.len() && !text::is_digit(#[trigger] code[i]);
        assert(!('0' <= code[i] <= '9'));
    }
}

/// A first-level square begins in the south at two thirds of a degree times
/// its first two digits, and in the west at a hundred degrees and as many as
/// its last two digits say. It is two thirds of a degree high and one degree
/// wide. (Two degrees of latitude are 1920 units, one of longitude 640.)
pub proof fn law_first_level_squares(code: Seq<char>)
    requires
        square_of(code) is Ok,
        code.len() == 4,
    ensures
        3 * square_of(code)->Ok_0.south == 1920 * (10 * (code[0] as int - '0' as int) + (
        code[1] as int - '0' as int)),
        square_of(code)->Ok_0.west == 640 * (100 + 10 * (code[2] as int - '0' as int) + (
        code[3] as int - '0' as int)),
        3 * square_of(code)->Ok_0.height() == 1920,
        square_of(code)->Ok_0.width() == 640,
{
    lemma_edges(code);
}

/// The number that two digits write.
pub open spec fn pair(first: char, second: char) -> int {
    10 * (first as int - '0' as int) + (second as int - '0' as int)
}

/// One more in the first two digits of a first-level square is the square to
/// its north, one more in the last two the square to its east.
pub proof fn law_first_level_neighbours(a: Seq<char>, b: Seq<char>)
    requires
        square_of(a) is Ok,
        square_of(b) is Ok,
        a.len() == 4,
        b.len() == 4,
    ensures
        pair(b[0], b[1]) == pair(a[0], a[1]) + 1 ==> square_of(b)->Ok_0.south == square_of(
            a,
        )->Ok_0.north && square_of(b)->Ok_0.south == square_of(a)->Ok_0.south + 640,
        pair(b[2], b[3]) == pair(a[2], a[3]) + 1 ==> square_of(b)->Ok_0.west == square_of(
            a,
        )->Ok_0.east && square_of(b)->Ok_0.west == square_of(a)->Ok_0.west + 640,
        pair(b[0], b[1]) == pair(a[0], a[1]) ==> square_of(b)->Ok_0.south == square_of(
            a,
        )->Ok_0.south && square_of(b)->Ok_0.north == square_of(a)->Ok_0.north,
        pair(b[2], b[3]) == pair(a[2], a[3]) ==> square_of(b)->Ok_0.west == square_of(
            a,
        )->Ok_0.west && square_of(b)->Ok_0.east == square_of(a)->Ok_0.east,
{
    law_first_level_squares(a);
    law_first_level_squares(b);
}

/// Two more digits cut a first-level square into 8 rows of 8, and a
/// second-level square into 10 rows of 10: the first digit counts the rows from
/// the south, the second the columns from the west.
pub proof fn law_two_digits_cut_a_square(code: Seq<char>, row: char, column: char)
    requires
        square_of(code) is Ok,
        code.len() == 4 || code.len() == 6,
        '0' <= row <= (if code.len() == 4 {
            '7'
        } else {
            '9'
        }),
        '0' <= column <= (if code.len() == 4 {
            '7'
        } else {
            '9'
        }),
    ensures
        ({
            let whole = square_of(code)->Ok_0;
            let part = square_of(code + seq![row, column]);
            let n: int = if code.len() == 4 {
                8
            } else {
                10
            };
            &&& part is Ok
            &&& n * part->Ok_0.height() == whole.height()
            &&& n * part->Ok_0.width() == whole.width()
            &&& n * (part->Ok_0.south - whole.south) == (row as int - '0' as int) * whole.height()
            &&& n * (part->Ok_0.west - whole.west) == (column as int - '0' as int) * whole.width()
        }),
{
    let part = code + seq![row, column];
    let n = code.len() as int;
    assert forall|i: int| 0 <= i < part.len() implies text::is_digit(#[trigger] part[i]) by {
        if i < n {
            assert(text::is_digit(code[i]));
        }
    }
    assert(forall|i: int| 0 <= i < n ==> digit(part, i) == digit(code, i));
    assert(part[n] == row && part[n + 1] == column);
    assert(digit(part, n) == row as int - '0' as int);
    assert(digit(part, n + 1) == column as int - '0' as int);
    assert(forall|i: int| i >= n + 2 ==> digit(part, i) == 0);
    assert(forall|i: int| i >= n ==> digit(code, i) == 0);
    lemma_edges(code);
    lemma_edges(part);
    if n == 4 {
        assert((row as int - '0' as int) * square_of(code)->Ok_0.height() == (row as int
            - '0' as int) * 640);
        assert((column as int - '0' as int) * square_of(code)->Ok_0.width() == (column as int
            - '0' as int) * 640);
    } else {
        assert((row as int - '0' as int) * square_of(code)->Ok_0.height() == (row as int
            - '0' as int) * 80);
        assert((column as int - '0' as int) * square_of(code)->Ok_0.width() == (column as int
            - '0' as int) * 80);
    }
}

/// The squares that two more digits cut out lie side by side. The next row
/// begins in the south where a row ends in the north, with the same west and
/// east, and the next column begins in the west where a column ends in the
/// east, with the same south and north. Row 0 has the southern edge of the
/// whole square and column 0 its western edge.
pub proof fn law_rows_and_columns_follow(code: Seq<char>, row: char, column: char, next: char)
    requires
        square_of(code) is Ok,
        code.len() == 4 || code.len() == 6,
        square_of(code + seq![row, column]) is Ok,
        '0' <= next <= (if code.len() == 4 {
            '7'
        } else {
            '9'
        }),
    ensures
        next as int == row as int + 1 ==> {
            let above = square_of(code + seq![next, column]);
            &&& above is Ok
            &&& above->Ok_0.south == square_of(code + seq![row, column])->Ok_0.north
            &&& above->Ok_0.west == square_of(code + seq![row, column])->Ok_0.west
            &&& above->Ok_0.east == square_of(code + seq![row, column])->Ok_0.east
        },
        next as int == column as int + 1 ==> {
            let beside = square_of(code + seq![row, next]);
            &&& beside is Ok
            &&& beside->Ok_0.west == square_of(code + seq![row, column])->Ok_0.east
            &&& beside->Ok_0.south == square_of(code + seq![row, column])->Ok_0.south
            &&& beside->Ok_0.north == square_of(code + seq![row, column])->Ok_0.north
        },
        row == '0' ==> square_of(code + seq![row, column])->Ok_0.south == square_of(
            code,
        )->Ok_0.south,
        column == '0' ==> square_of(code + seq![row, column])->Ok_0.west == square_of(
            code,
        )->Ok_0.west,
{
    let part = code + seq![row, column];
    law_codes_are_digits(part);
    let n = code.len() as int;
    assert(part[n] == row && part[n + 1] == column);
    lemma_edges(code);
    law_two_digits_cut_a_square(code, row, column);
    law_two_digits_cut_a_square(code, next, column);
    law_two_digits_cut_a_square(code, row, next);
    law_sides(code);
    law_sides(part);
    law_sides(code + seq![next, column]);
    law_sides(code + seq![row, next]);
}

/// The outline of a square goes once around it, from the south-western corner
/// to the east, to the north, to the west and back to the south.
pub proof fn law_outlines_go_around(code: Seq<char>)
    requires
        square_of(code) is Ok,
    ensures
        ({
            let b = square_of(code)->Ok_0;
            let ring = outline(b);
            &&& ring.len() == 5
            &&& ring[0].x == b.west && ring[0].y == b.south
            &&& ring[1].y == ring[0].y && ring[1].x == ring[0].x + b.width()
            &&& ring[2].x == ring[1].x && ring[2].y == ring[1].y + b.height()
            &&& ring[3].y == ring[2].y && ring[3].x == ring[2].x - b.width()
            &&& ring[4] == ring[0] && ring[4].y == ring[3].y - b.height()
            &&& b.width() > 0 && b.height() > 0
        }),
{
    law_sides(code);
}

} // verus!
