//! The order of rows in a file: neighbours go into the same row group, so that
//! the statistics of a row group cover a small area.
use crate::number;
use crate::number::{debug_real, Real};
use crate::text;
use crate::text::push_decimal;
use vstd::prelude::*;

verus! {

broadcast use vstd::seq_lib::group_to_multiset_ensures;

/// The size in bytes that a row group aims at.
pub const TARGET_ROW_GROUP_BYTES: usize = 2_097_152;

/// The most rows in a row group, for data whose rows are tiny.
pub const MAX_ROW_GROUP_SIZE: usize = 100_000;

/// The most row groups in a file. Each adds statistics to the footer, which is
/// read in full whenever the file is opened.
pub const MAX_ROW_GROUPS: usize = 2_000;

/// A coordinate, and its place in fixed-point units of the caller's choice. The
/// units of one that is not finite do not matter.
#[derive(Debug, Clone, Copy, PartialEq, Eq, Structural)]
pub struct Coordinate {
    pub value: Real,
    pub units: i64,
}

impl Coordinate {
    /// The lower one of two.
    pub open spec fn spec_lower(self, other: Coordinate) -> Coordinate {
        if self.units <= other.units {
            self
        } else {
            other
        }
    }

    /// The higher one of two.
    pub open spec fn spec_higher(self, other: Coordinate) -> Coordinate {
        if self.units >= other.units {
            self
        } else {
            other
        }
    }

    fn lower(self, other: Coordinate) -> (c: Coordinate)
        ensures
            c == self.spec_lower(other),
    {
        if self.units <= other.units {
            self
        } else {
            other
        }
    }

    fn higher(self, other: Coordinate) -> (c: Coordinate)
        ensures
            c == self.spec_higher(other),
    {
        if self.units >= other.units {
            self
        } else {
            other
        }
    }
}

/// The bounding box of a feature.
#[derive(Debug, Clone, Copy, PartialEq, Eq, Structural)]
pub struct Bbox {
    pub xmin: Coordinate,
    pub ymin: Coordinate,
    pub xmax: Coordinate,
    pub ymax: Coordinate,
}

impl Bbox {
    pub open spec fn finite(self) -> bool {
        self.xmin.value.finite() && self.ymin.value.finite() && self.xmax.value.finite()
            && self.ymax.value.finite()
    }

    /// Twice the centre on the first axis where `x`, else on the second.
    pub open spec fn centre2(self, x: bool) -> int {
        if x {
            self.xmin.units + self.xmax.units
        } else {
            self.ymin.units + self.ymax.units
        }
    }

    pub open spec fn spec_width(self) -> int {
        self.xmax.units - self.xmin.units
    }

    pub open spec fn spec_height(self) -> int {
        self.ymax.units - self.ymin.units
    }

    /// The sides by their names, as text.
    pub open spec fn shown(self) -> Seq<char> {
        "Bbox { xmin: "@ + number::real_debug(self.xmin.value) + ", ymin: "@ + number::real_debug(
            self.ymin.value,
        ) + ", xmax: "@ + number::real_debug(self.xmax.value) + ", ymax: "@ + number::real_debug(
            self.ymax.value,
        ) + " }"@
    }

    pub fn to_text(&self) -> (text: String)
        ensures
            text@ == self.shown(),
    {
        let mut text = "Bbox { xmin: ".to_string();
        text.append(debug_real(&self.xmin.value).as_str());
        text.append(", ymin: ");
        text.append(debug_real(&self.ymin.value).as_str());
        text.append(", xmax: ");
        text.append(debug_real(&self.xmax.value).as_str());
        text.append(", ymax: ");
        text.append(debug_real(&self.ymax.value).as_str());
        text.append(" }");
        text
    }

    pub fn is_finite(&self) -> (finite: bool)
        ensures
            finite == self.finite(),
    {
        self.xmin.value.is_finite() && self.ymin.value.is_finite() && self.xmax.value.is_finite()
            && self.ymax.value.is_finite()
    }

    fn center(&self, x: bool) -> (c: i128)
        ensures
            c == self.centre2(x),
    {
        if x {
            self.xmin.units as i128 + self.xmax.units as i128
        } else {
            self.ymin.units as i128 + self.ymax.units as i128
        }
    }

    pub fn width(&self) -> (w: i128)
        ensures
            w == self.spec_width(),
    {
        self.xmax.units as i128 - self.xmin.units as i128
    }

    pub fn height(&self) -> (h: i128)
        ensures
            h == self.spec_height(),
    {
        self.ymax.units as i128 - self.ymin.units as i128
    }
}

// ---------------------------------------------------------------------------
// Row group size
// ---------------------------------------------------------------------------

/// `a / b`, rounded up.
pub open spec fn ceil_div(a: int, b: int) -> int {
    if a % b == 0 {
        a / b
    } else {
        a / b + 1
    }
}

pub open spec fn max(a: int, b: int) -> int {
    if a >= b {
        a
    } else {
        b
    }
}

pub open spec fn min(a: int, b: int) -> int {
    if a <= b {
        a
    } else {
        b
    }
}

/// The mean size of a row, rounded up, at least one byte.
pub open spec fn bytes_per_row(file_bytes: int, num_rows: int) -> int {
    max(ceil_div(file_bytes, num_rows), 1)
}

/// The rows that fill a row group to its aim, at least one, and more where the
/// file would otherwise have too many row groups.
pub open spec fn row_group_size_for(file_bytes: int, num_rows: int) -> int {
    if num_rows == 0 {
        1
    } else {
        max(
            min(
                max(TARGET_ROW_GROUP_BYTES as int / bytes_per_row(file_bytes, num_rows), 1),
                MAX_ROW_GROUP_SIZE as int,
            ),
            ceil_div(num_rows, MAX_ROW_GROUPS as int),
        )
    }
}

/// The number of rows per row group for a file of `file_bytes` bytes.
pub fn default_row_group_size(file_bytes: u64, num_rows: usize) -> (size: usize)
    ensures
        size == row_group_size_for(file_bytes as int, num_rows as int),
{
    if num_rows == 0 {
        return 1;
    }
    let rows: u64 = num_rows as u64;
    proof {
        lemma_quotient(file_bytes as int, rows as int);
    }
    let whole: u64 = file_bytes / rows;
    let rounded: u64 = if file_bytes % rows == 0 {
        whole
    } else {
        whole + 1
    };
    let per_row: u64 = if rounded >= 1 {
        rounded
    } else {
        1
    };
    proof {
        lemma_quotient(2_097_152, per_row as int);
    }
    let fitting: u64 = 2_097_152 / per_row;
    let at_least_one: u64 = if fitting >= 1 {
        fitting
    } else {
        1
    };
    let by_bytes: usize = if at_least_one <= 100_000 {
        at_least_one as usize
    } else {
        MAX_ROW_GROUP_SIZE
    };
    let by_count: usize = if num_rows % MAX_ROW_GROUPS == 0 {
        num_rows / MAX_ROW_GROUPS
    } else {
        num_rows / MAX_ROW_GROUPS + 1
    };
    if by_bytes >= by_count {
        by_bytes
    } else {
        by_count
    }
}

proof fn lemma_quotient(a: int, b: int)
    requires
        0 <= a,
        0 < b,
    ensures
        0 <= a / b <= a,
        a % b != 0 ==> a / b < a,
        a == b * (a / b) + a % b,
        0 <= a % b < b,
{
    vstd::arithmetic::div_mod::lemma_fundamental_div_mod(a, b);
    vstd::arithmetic::div_mod::lemma_mod_bound(a, b);
    vstd::arithmetic::div_mod::lemma_div_pos_is_pos(a, b);
    let q = a / b;
    assert(b * q >= q) by (nonlinear_arith)
        requires
            b >= 1,
            q >= 0,
    ;
}

proof fn lemma_ceil_div(a: int, b: int)
    requires
        0 <= a,
        0 < b,
    ensures
        0 <= ceil_div(a, b),
        b * ceil_div(a, b) >= a,
        a > 0 ==> b * (ceil_div(a, b) - 1) < a,
{
    lemma_quotient(a, b);
    let q = a / b;
    assert(b * (q + 1) == b * q + b) by (nonlinear_arith);
    assert(b * (q - 1) == b * q - b) by (nonlinear_arith);
}

/// A file never has more than `MAX_ROW_GROUPS` row groups of the default size.
pub proof fn law_row_group_count_is_capped(file_bytes: int, num_rows: int)
    requires
        0 <= file_bytes,
        0 < num_rows,
    ensures
        ceil_div(num_rows, row_group_size_for(file_bytes, num_rows)) <= MAX_ROW_GROUPS,
{
    let size = row_group_size_for(file_bytes, num_rows);
    lemma_ceil_div(num_rows, 2_000);
    lemma_ceil_div(num_rows, size);
    let groups = ceil_div(num_rows, size);
    if groups > 2_000 {
        assert(size * (groups - 1) >= 2_000 * ceil_div(num_rows, 2_000)) by (nonlinear_arith)
            requires
                size >= ceil_div(num_rows, 2_000),
                groups - 1 >= 2_000,
                ceil_div(num_rows, 2_000) >= 0,
        ;
    }
}

/// A row group of the default size holds at most `TARGET_ROW_GROUP_BYTES` by
/// the mean row size, unless it is a single row or the cap on the number of
/// row groups asks for more.
pub proof fn law_row_group_meets_its_target(file_bytes: int, num_rows: int)
    requires
        0 <= file_bytes,
        0 < num_rows,
    ensures
        ({
            let size = row_group_size_for(file_bytes, num_rows);
            ||| size * bytes_per_row(file_bytes, num_rows) <= TARGET_ROW_GROUP_BYTES
            ||| size == 1
            ||| size == ceil_div(num_rows, MAX_ROW_GROUPS as int)
        }),
{
    let per_row = bytes_per_row(file_bytes, num_rows);
    let fitting = 2_097_152int / per_row;
    let size = row_group_size_for(file_bytes, num_rows);
    lemma_quotient(2_097_152, per_row);
    if size <= fitting {
        assert(size * per_row <= per_row * fitting) by (nonlinear_arith)
            requires
                size <= fitting,
                per_row >= 1,
        ;
    }
}

/// Of two files with equally many rows, the heavier never gets larger row groups.
pub proof fn law_heavier_rows_get_fewer(light: int, heavy: int, num_rows: int)
    requires
        0 <= light <= heavy,
        0 < num_rows,
    ensures
        row_group_size_for(heavy, num_rows) <= row_group_size_for(light, num_rows),
{
    lemma_ceil_div(light, num_rows);
    lemma_ceil_div(heavy, num_rows);
    let a = ceil_div(light, num_rows);
    let b = ceil_div(heavy, num_rows);
    if a > b {
        assert(num_rows * b <= num_rows * (a - 1)) by (nonlinear_arith)
            requires
                b <= a - 1,
                num_rows > 0,
        ;
    }
    let p = bytes_per_row(light, num_rows);
    let q = bytes_per_row(heavy, num_rows);
    vstd::arithmetic::div_mod::lemma_div_is_ordered_by_denominator(2_097_152, p, q);
}

// ---------------------------------------------------------------------------
// Extent
// ---------------------------------------------------------------------------

/// Every row number in `rows` names a box, and that box is finite.
pub open spec fn rows_known(rows: Seq<u32>, bboxes: Seq<Bbox>) -> bool {
    forall|i: int| 0 <= i < rows.len() ==> (#[trigger] rows[i]) < bboxes.len()
        && bboxes[rows[i] as int].finite()
}

/// The smallest box that covers the boxes of `rows`, which is not empty.
pub open spec fn extent(rows: Seq<u32>, bboxes: Seq<Bbox>) -> Bbox
    decreases rows.len(),
{
    let last = bboxes[rows.last() as int];
    if rows.len() <= 1 {
        last
    } else {
        let rest = extent(rows.drop_last(), bboxes);
        Bbox {
            xmin: rest.xmin.spec_lower(last.xmin),
            ymin: rest.ymin.spec_lower(last.ymin),
            xmax: rest.xmax.spec_higher(last.xmax),
            ymax: rest.ymax.spec_higher(last.ymax),
        }
    }
}

/// `inner` lies in `outer`.
pub open spec fn covers(outer: Bbox, inner: Bbox) -> bool {
    &&& outer.xmin.units <= inner.xmin.units
    &&& outer.ymin.units <= inner.ymin.units
    &&& outer.xmax.units >= inner.xmax.units
    &&& outer.ymax.units >= inner.ymax.units
}

/// The extent covers the box of every row.
pub proof fn law_extent_covers(rows: Seq<u32>, bboxes: Seq<Bbox>, i: int)
    requires
        rows_known(rows, bboxes),
        0 <= i < rows.len(),
    ensures
        extent(rows, bboxes).finite(),
        covers(extent(rows, bboxes), bboxes[rows[i] as int]),
    decreases rows.len(),
{
    assert(rows.last() == rows[rows.len() - 1]);
    if rows.len() > 1 {
        assert forall|j: int| 0 <= j < rows.drop_last().len() implies (
        #[trigger] rows.drop_last()[j]) < bboxes.len()
            && bboxes[rows.drop_last()[j] as int].finite() by {
            assert(rows.drop_last()[j] == rows[j]);
        }
        law_extent_covers(rows.drop_last(), bboxes, if i < rows.len() - 1 {
            i
        } else {
            0
        });
    }
}

/// The extent of the boxes of `rows`.
pub fn extent_of(rows: &[u32], bboxes: &[Bbox]) -> (e: Bbox)
    requires
        rows@.len() > 0,
        rows_known(rows@, bboxes@),
    ensures
        e == extent(rows@, bboxes@),
        e.finite(),
{
    assert(rows@.take(1).last() == rows@[0]);
    let mut e: Bbox = bboxes[rows[0] as usize];
    let mut i: usize = 1;
    while i < rows.len()
        invariant
            1 <= i <= rows@.len(),
            rows_known(rows@, bboxes@),
            e == extent(rows@.take(i as int), bboxes@),
            e.finite(),
        decreases rows@.len() - i,
    {
        let b: Bbox = bboxes[rows[i] as usize];
        assert(rows@.take(i + 1).drop_last() == rows@.take(i as int));
        assert(rows@.take(i + 1).last() == rows@[i as int]);
        e = Bbox {
            xmin: e.xmin.lower(b.xmin),
            ymin: e.ymin.lower(b.ymin),
            xmax: e.xmax.higher(b.xmax),
            ymax: e.ymax.higher(b.ymax),
        };
        i = i + 1;
    }
    assert(rows@.take(i as int) == rows@);
    e
}

// ---------------------------------------------------------------------------
// Sorting rows along an axis
// ---------------------------------------------------------------------------

pub open spec fn row_key(row: u32, bboxes: Seq<Bbox>, x: bool) -> int {
    bboxes[row as int].centre2(x)
}

/// `rows` goes by rising centres on the axis.
pub open spec fn ordered(rows: Seq<u32>, bboxes: Seq<Bbox>, x: bool) -> bool {
    forall|i: int, j: int|
        0 <= i <= j < rows.len() ==> row_key(#[trigger] rows[i], bboxes, x) <= row_key(
            #[trigger] rows[j],
            bboxes,
            x,
        )
}

/// Both lists hold the same rows, equally often.
pub open spec fn same_rows(a: Seq<u32>, b: Seq<u32>) -> bool {
    a.to_multiset() =~= b.to_multiset()
}

proof fn lemma_known_part(rows: Seq<u32>, bboxes: Seq<Bbox>, from: int, to: int)
    requires
        rows_known(rows, bboxes),
        0 <= from <= to <= rows.len(),
    ensures
        rows_known(rows.subrange(from, to), bboxes),
{
    let part = rows.subrange(from, to);
    assert forall|i: int| 0 <= i < part.len() implies (#[trigger] part[i]) < bboxes.len()
        && bboxes[part[i] as int].finite() by {
        assert(part[i] == rows[from + i]);
    }
}

proof fn lemma_known_same(a: Seq<u32>, b: Seq<u32>, bboxes: Seq<Bbox>)
    requires
        rows_known(a, bboxes),
        same_rows(a, b),
    ensures
        rows_known(b, bboxes),
        a.len() == b.len(),
{
    assert(a.to_multiset().len() == b.to_multiset().len());
    assert forall|i: int| 0 <= i < b.len() implies (#[trigger] b[i]) < bboxes.len()
        && bboxes[b[i] as int].finite() by {
        assert(b.contains(b[i]));
        assert(b.to_multiset().count(b[i]) > 0);
        assert(a.contains(b[i]));
    }
}

proof fn lemma_concat_multiset(a: Seq<u32>, b: Seq<u32>)
    ensures
        (a + b).to_multiset() =~= a.to_multiset().add(b.to_multiset()),
{
    vstd::seq_lib::lemma_multiset_commutative(a, b);
}

fn copy_rows(rows: &Vec<u32>, from: usize, to: usize) -> (part: Vec<u32>)
    requires
        from <= to <= rows@.len(),
    ensures
        part@ == rows@.subrange(from as int, to as int),
{
    let mut part: Vec<u32> = Vec::new();
    let mut i: usize = from;
    while i < to
        invariant
            from <= i <= to <= rows@.len(),
            part@ == rows@.subrange(from as int, i as int),
        decreases to - i,
    {
        part.push(rows[i]);
        i = i + 1;
        assert(rows@.subrange(from as int, i as int) == rows@.subrange(from as int, i - 1).push(
            rows@[i - 1],
        ));
    }
    part
}

fn merge(a: &Vec<u32>, b: &Vec<u32>, bboxes: &[Bbox], x: bool) -> (out: Vec<u32>)
    requires
        rows_known(a@, bboxes@),
        rows_known(b@, bboxes@),
        ordered(a@, bboxes@, x),
        ordered(b@, bboxes@, x),
    ensures
        ordered(out@, bboxes@, x),
        out@.to_multiset() =~= a@.to_multiset().add(b@.to_multiset()),
{
    let mut out: Vec<u32> = Vec::new();
    let mut i: usize = 0;
    let mut j: usize = 0;
    assert(a@.take(0) == Seq::<u32>::empty());
    assert(b@.take(0) == Seq::<u32>::empty());
    while i < a.len() || j < b.len()
        invariant
            i <= a@.len(),
            j <= b@.len(),
            rows_known(a@, bboxes@),
            rows_known(b@, bboxes@),
            ordered(a@, bboxes@, x),
            ordered(b@, bboxes@, x),
            ordered(out@, bboxes@, x),
            forall|k: int, l: int|
                0 <= k < out@.len() && i <= l < a@.len() ==> row_key(
                    #[trigger] out@[k],
                    bboxes@,
                    x,
                ) <= row_key(#[trigger] a@[l], bboxes@, x),
            forall|k: int, l: int|
                0 <= k < out@.len() && j <= l < b@.len() ==> row_key(
                    #[trigger] out@[k],
                    bboxes@,
                    x,
                ) <= row_key(#[trigger] b@[l], bboxes@, x),
            out@.to_multiset() =~= a@.take(i as int).to_multiset().add(
                b@.take(j as int).to_multiset(),
            ),
        decreases a@.len() - i + b@.len() - j,
    {
        let from_a: bool = if i == a.len() {
            false
        } else if j == b.len() {
            true
        } else {
            bboxes[a[i] as usize].center(x) <= bboxes[b[j] as usize].center(x)
        };
        if from_a {
            assert(a@.take(i + 1) == a@.take(i as int).push(a@[i as int]));
            out.push(a[i]);
            i = i + 1;
        } else {
            assert(b@.take(j + 1) == b@.take(j as int).push(b@[j as int]));
            out.push(b[j]);
            j = j + 1;
        }
    }
    assert(a@.take(i as int) == a@);
    assert(b@.take(j as int) == b@);
    out
}

/// The same rows by rising centres on the axis.
fn sort_rows(rows: &Vec<u32>, bboxes: &[Bbox], x: bool) -> (out: Vec<u32>)
    requires
        rows_known(rows@, bboxes@),
    ensures
        same_rows(rows@, out@),
        ordered(out@, bboxes@, x),
    decreases rows@.len(),
{
    if rows.len() <= 1 {
        let out = copy_rows(rows, 0, rows.len());
        assert(out@ == rows@);
        return out;
    }
    let mid: usize = rows.len() / 2;
    let left = copy_rows(rows, 0, mid);
    let right = copy_rows(rows, mid, rows.len());
    proof {
        lemma_known_part(rows@, bboxes@, 0, mid as int);
        lemma_known_part(rows@, bboxes@, mid as int, rows@.len() as int);
    }
    let left_sorted = sort_rows(&left, bboxes, x);
    let right_sorted = sort_rows(&right, bboxes, x);
    proof {
        lemma_known_same(left@, left_sorted@, bboxes@);
        lemma_known_same(right@, right_sorted@, bboxes@);
        assert(left@ + right@ == rows@);
        lemma_concat_multiset(left@, right@);
    }
    merge(&left_sorted, &right_sorted, bboxes, x)
}

// ---------------------------------------------------------------------------
// Packing
// ---------------------------------------------------------------------------

/// The cut goes across the longer axis of the extent.
pub open spec fn splits_x(rows: Seq<u32>, bboxes: Seq<Bbox>) -> bool {
    extent(rows, bboxes).spec_width() >= extent(rows, bboxes).spec_height()
}

/// The rows left of the cut: half of the row groups, at least one, all full.
pub open spec fn split_at(len: int, size: int) -> int {
    max(ceil_div(len, size) / 2, 1) * size
}

/// `out` is `rows` packed into row groups of `size`: unchanged where one row
/// group holds them, else sorted along the longer axis, cut at a row group
/// boundary, and each side packed in turn. Rows with equal centres may stand in
/// either order.
pub open spec fn packed(rows: Seq<u32>, out: Seq<u32>, bboxes: Seq<Bbox>, size: int) -> bool
    decreases rows.len(),
{
    if rows.len() <= size {
        out == rows
    } else {
        let cut = split_at(rows.len() as int, size);
        exists|sorted: Seq<u32>| #[trigger]
            packed_through(sorted, rows, bboxes) && 0 < cut < sorted.len() && sorted.len()
                == rows.len() && out.len() == rows.len() && packed(
                sorted.take(cut),
                out.take(cut),
                bboxes,
                size,
            ) && packed(sorted.skip(cut), out.skip(cut), bboxes, size)
    }
}

/// `sorted` holds the same rows as `rows`, by rising centres on the longer axis.
pub open spec fn packed_through(sorted: Seq<u32>, rows: Seq<u32>, bboxes: Seq<Bbox>) -> bool {
    same_rows(rows, sorted) && ordered(sorted, bboxes, splits_x(rows, bboxes))
}

proof fn lemma_split(len: int, size: int)
    requires
        0 < size < len,
    ensures
        size <= split_at(len, size) < len,
        split_at(len, size) % size == 0,
{
    lemma_ceil_div(len, size);
    let leaves = ceil_div(len, size);
    let half = max(leaves / 2, 1);
    assert(leaves >= 2) by (nonlinear_arith)
        requires
            size * leaves >= len,
            0 < size < len,
    ;
    assert(half * size <= size * (leaves - 1)) by (nonlinear_arith)
        requires
            half <= leaves - 1,
            size > 0,
    ;
    assert(half * size >= size) by (nonlinear_arith)
        requires
            half >= 1,
            size > 0,
    ;
    vstd::arithmetic::div_mod::lemma_mod_multiples_basic(half, size);
}

fn pack_recursive(rows: &Vec<u32>, bboxes: &[Bbox], row_group_size: usize) -> (out: Vec<u32>)
    requires
        row_group_size > 0,
        rows_known(rows@, bboxes@),
    ensures
        packed(rows@, out@, bboxes@, row_group_size as int),
        out@.len() == rows@.len(),
    decreases rows@.len(),
{
    if rows.len() <= row_group_size {
        let out = copy_rows(rows, 0, rows.len());
        assert(out@ == rows@);
        return out;
    }
    let e = extent_of(rows.as_slice(), bboxes);
    let x: bool = e.width() >= e.height();
    let sorted = sort_rows(rows, bboxes, x);
    proof {
        lemma_known_same(rows@, sorted@, bboxes@);
        lemma_split(rows@.len() as int, row_group_size as int);
        lemma_ceil_div(rows@.len() as int, row_group_size as int);
        lemma_quotient(rows@.len() as int, row_group_size as int);
    }
    let whole: usize = rows.len() / row_group_size;
    let leaves: usize = if rows.len() % row_group_size == 0 {
        whole
    } else {
        whole + 1
    };
    let half: usize = if leaves / 2 >= 1 {
        leaves / 2
    } else {
        1
    };
    let cut: usize = half * row_group_size;
    let left = copy_rows(&sorted, 0, cut);
    let right = copy_rows(&sorted, cut, sorted.len());
    proof {
        lemma_known_part(sorted@, bboxes@, 0, cut as int);
        lemma_known_part(sorted@, bboxes@, cut as int, sorted@.len() as int);
        assert(left@ == sorted@.take(cut as int));
        assert(right@ == sorted@.skip(cut as int));
    }
    let mut out = pack_recursive(&left, bboxes, row_group_size);
    let mut tail = pack_recursive(&right, bboxes, row_group_size);
    let ghost head_view = out@;
    let ghost tail_view = tail@;
    out.append(&mut tail);
    proof {
        assert(out@.take(cut as int) == head_view);
        assert(out@.skip(cut as int) == tail_view);
        assert(packed_through(sorted@, rows@, bboxes@));
    }
    out
}

/// Why rows could not be packed.
#[derive(Debug, Clone, Copy, PartialEq, Eq, Structural)]
pub enum PackError {
    ZeroRowGroupSize,
    TooManyRows(usize),
    /// The first row whose box is not finite, and that box.
    NonFinite(usize, Bbox),
}

impl PackError {
    pub open spec fn spec_text(self) -> Seq<char> {
        match self {
            PackError::ZeroRowGroupSize => "row group size must be greater than 0"@,
            PackError::TooManyRows(n) => "too many rows to pack: "@ + text::decimal_text(n as nat),
            PackError::NonFinite(row, b) => "row "@ + text::decimal_text(row as nat)
                + " has a non-finite bbox: "@ + b.shown(),
        }
    }

    pub fn to_string(&self) -> (text: String)
        ensures
            text@ == self.spec_text(),
    {
        let mut text = String::new();
        match *self {
            PackError::ZeroRowGroupSize => {
                text.append("row group size must be greater than 0");
            },
            PackError::TooManyRows(n) => {
                text.append("too many rows to pack: ");
                push_decimal(&mut text, n as u64);
            },
            PackError::NonFinite(row, b) => {
                text.append("row ");
                push_decimal(&mut text, row as u64);
                text.append(" has a non-finite bbox: ");
                text.append(b.to_text().as_str());
            },
        }
        text
    }
}

/// The row numbers from 0, in order.
pub open spec fn identity(len: nat) -> Seq<u32> {
    Seq::new(len, |i: int| i as u32)
}

/// The position of the first box that is not finite; the length where all are.
pub open spec fn first_non_finite(bboxes: Seq<Bbox>) -> int
    decreases bboxes.len(),
{
    if bboxes.len() == 0 {
        0
    } else if !bboxes[0].finite() {
        0
    } else {
        1 + first_non_finite(bboxes.drop_first())
    }
}

proof fn lemma_first_non_finite(bboxes: Seq<Bbox>, at: int)
    requires
        0 <= at <= bboxes.len(),
        forall|i: int| 0 <= i < at ==> (#[trigger] bboxes[i]).finite(),
        at < bboxes.len() ==> !bboxes[at].finite(),
    ensures
        first_non_finite(bboxes) == at,
    decreases at,
{
    if at > 0 {
        let rest = bboxes.drop_first();
        assert forall|i: int| 0 <= i < at - 1 implies (#[trigger] rest[i]).finite() by {
            assert(rest[i] == bboxes[i + 1]);
        }
        lemma_first_non_finite(rest, at - 1);
    }
}

/// The order in which the rows go into a file with row groups of
/// `row_group_size` rows (sort-tile-recursive), as a list of row numbers.
pub fn pack(bboxes: &[Bbox], row_group_size: usize) -> (order: Result<Vec<u32>, PackError>)
    ensures
        match order {
            Ok(out) => {
                &&& row_group_size > 0
                &&& bboxes@.len() <= u32::MAX
                &&& first_non_finite(bboxes@) == bboxes@.len()
                &&& packed(identity(bboxes@.len()), out@, bboxes@, row_group_size as int)
            },
            Err(PackError::ZeroRowGroupSize) => row_group_size == 0,
            Err(PackError::TooManyRows(n)) => row_group_size > 0 && n == bboxes@.len() && n
                > u32::MAX,
            Err(PackError::NonFinite(row, b)) => row_group_size > 0 && bboxes@.len() <= u32::MAX
                && row == first_non_finite(bboxes@) && row < bboxes@.len() && b
                == bboxes@[row as int],
        },
{
    if row_group_size == 0 {
        return Err(PackError::ZeroRowGroupSize);
    }
    if bboxes.len() as u64 > 0xffff_ffff {
        return Err(PackError::TooManyRows(bboxes.len()));
    }
    let mut order: Vec<u32> = Vec::new();
    let mut i: usize = 0;
    while i < bboxes.len()
        invariant
            i <= bboxes@.len() <= u32::MAX,
            row_group_size > 0,
            order@ == identity(i as nat),
            forall|j: int| 0 <= j < i ==> (#[trigger] bboxes@[j]).finite(),
        decreases bboxes@.len() - i,
    {
        if !bboxes[i].is_finite() {
            proof {
                lemma_first_non_finite(bboxes@, i as int);
            }
            return Err(PackError::NonFinite(i, bboxes[i]));
        }
        order.push(i as u32);
        i = i + 1;
        assert(order@ == identity(i as nat));
    }
    proof {
        lemma_first_non_finite(bboxes@, i as int);
    }
    Ok(pack_recursive(&order, bboxes, row_group_size))
}

/// Packing keeps every row and adds none.
pub proof fn law_packing_permutes(rows: Seq<u32>, out: Seq<u32>, bboxes: Seq<Bbox>, size: int)
    requires
        size > 0,
        packed(rows, out, bboxes, size),
    ensures
        same_rows(rows, out),
        out.len() == rows.len(),
    decreases rows.len(),
{
    if rows.len() > size {
        let cut = split_at(rows.len() as int, size);
        let sorted = choose|sorted: Seq<u32>| #[trigger]
            packed_through(sorted, rows, bboxes) && 0 < cut < sorted.len() && sorted.len()
                == rows.len() && out.len() == rows.len() && packed(
                sorted.take(cut),
                out.take(cut),
                bboxes,
                size,
            ) && packed(sorted.skip(cut), out.skip(cut), bboxes, size);
        law_packing_permutes(sorted.take(cut), out.take(cut), bboxes, size);
        law_packing_permutes(sorted.skip(cut), out.skip(cut), bboxes, size);
        assert(sorted.take(cut) + sorted.skip(cut) == sorted);
        assert(out.take(cut) + out.skip(cut) == out);
        lemma_concat_multiset(sorted.take(cut), sorted.skip(cut));
        lemma_concat_multiset(out.take(cut), out.skip(cut));
    }
}

/// Where one row group holds everything, the order is left as it was.
pub proof fn law_one_row_group_keeps_the_order(
    rows: Seq<u32>,
    out: Seq<u32>,
    bboxes: Seq<Bbox>,
    size: int,
)
    requires
        rows.len() <= size,
        packed(rows, out, bboxes, size),
    ensures
        out == rows,
{
}

/// The first cut separates the rows: none on the left has its centre, along the
/// longer axis of the whole, beyond one on the right. The cut is a row group
/// boundary.
pub proof fn law_cut_separates(
    rows: Seq<u32>,
    out: Seq<u32>,
    bboxes: Seq<Bbox>,
    size: int,
    i: int,
    j: int,
)
    requires
        0 < size < rows.len(),
        packed(rows, out, bboxes, size),
        0 <= i < split_at(rows.len() as int, size) <= j < rows.len(),
    ensures
        split_at(rows.len() as int, size) % size == 0,
        row_key(out[i], bboxes, splits_x(rows, bboxes)) <= row_key(
            out[j],
            bboxes,
            splits_x(rows, bboxes),
        ),
{
    let cut = split_at(rows.len() as int, size);
    lemma_split(rows.len() as int, size);
    let sorted = choose|sorted: Seq<u32>| #[trigger]
        packed_through(sorted, rows, bboxes) && 0 < cut < sorted.len() && sorted.len()
            == rows.len() && out.len() == rows.len() && packed(
            sorted.take(cut),
            out.take(cut),
            bboxes,
            size,
        ) && packed(sorted.skip(cut), out.skip(cut), bboxes, size);
    law_packing_permutes(sorted.take(cut), out.take(cut), bboxes, size);
    law_packing_permutes(sorted.skip(cut), out.skip(cut), bboxes, size);
    assert(out.take(cut)[i] == out[i]);
    assert(out.skip(cut)[j - cut] == out[j]);
    assert(out.take(cut).contains(out[i]));
    assert(out.skip(cut).contains(out[j]));
    assert(out.take(cut).to_multiset().count(out[i]) > 0);
    assert(out.skip(cut).to_multiset().count(out[j]) > 0);
    assert(sorted.take(cut).contains(out[i]));
    assert(sorted.skip(cut).contains(out[j]));
    let a = choose|a: int| 0 <= a < cut && sorted.take(cut)[a] == out[i];
    let b = choose|b: int| 0 <= b < sorted.len() - cut && sorted.skip(cut)[b] == out[j];
    assert(sorted[a] == out[i]);
    assert(sorted[cut + b] == out[j]);
}

/// How many rows each row group gets that packing so many rows ends in.
pub open spec fn leaves(len: int, size: int) -> Seq<int>
    decreases len,
{
    let cut = split_at(len, size);
    if len <= size || cut <= 0 || cut >= len {
        seq![len]
    } else {
        leaves(cut, size) + leaves(len - cut, size)
    }
}

/// Every cut is a boundary of row groups: all but the last are full, and the
/// last one is where the rows fill them all.
pub proof fn law_row_groups_are_full(len: int, size: int)
    requires
        0 < size,
        0 < len,
    ensures
        leaves(len, size).len() > 0,
        forall|i: int|
            0 <= i < leaves(len, size).len() - 1 ==> #[trigger] leaves(len, size)[i] == size,
        0 < leaves(len, size).last() <= size,
        len % size == 0 ==> leaves(len, size).last() == size,
    decreases len,
{
    if len <= size {
        if len < size {
            vstd::arithmetic::div_mod::lemma_small_mod(len as nat, size as nat);
        }
    } else {
        lemma_split(len, size);
        let cut = split_at(len, size);
        law_row_groups_are_full(cut, size);
        law_row_groups_are_full(len - cut, size);
        let left = leaves(cut, size);
        let right = leaves(len - cut, size);
        assert(leaves(len, size) == left + right);
        assert forall|i: int| 0 <= i < leaves(len, size).len() - 1 implies #[trigger] leaves(
            len,
            size,
        )[i] == size by {
            if i < left.len() {
                assert(leaves(len, size)[i] == left[i]);
            } else {
                assert(leaves(len, size)[i] == right[i - left.len()]);
            }
        }
        if len % size == 0 {
            vstd::arithmetic::div_mod::lemma_sub_mod_noop(len, cut, size);
            vstd::arithmetic::div_mod::lemma_small_mod(0, size as nat);
        }
    }
}

/// The mean size of a row is as many bytes as are needed for all rows to hold
/// the file, and no more; a row is never taken for less than a byte.
pub proof fn law_mean_rows_hold_the_file(file_bytes: int, num_rows: int)
    requires
        0 <= file_bytes,
        0 < num_rows,
    ensures
        ({
            let per_row = bytes_per_row(file_bytes, num_rows);
            &&& per_row >= 1
            &&& num_rows * per_row >= file_bytes
            &&& per_row == 1 || num_rows * (per_row - 1) < file_bytes
        }),
{
    lemma_ceil_div(file_bytes, num_rows);
    assert(num_rows * 1 == num_rows);
    let c = ceil_div(file_bytes, num_rows);
    if c < 1 {
        assert(c == 0);
        assert(num_rows * c == 0) by (nonlinear_arith)
            requires
                c == 0,
        ;
    }
}

/// A row group of the default size is no smaller than it has to be: one row
/// more would go beyond 2 MiB by the mean row size, unless it has 100000 rows
/// already.
pub proof fn law_row_groups_are_large(file_bytes: int, num_rows: int)
    requires
        0 <= file_bytes,
        0 < num_rows,
    ensures
        ({
            let size = row_group_size_for(file_bytes, num_rows);
            &&& size >= 1
            &&& size >= 100_000 || (size + 1) * bytes_per_row(file_bytes, num_rows) > 2_097_152
            &&& size <= 100_000 || size == ceil_div(num_rows, 2_000)
        }),
{
    let per_row = bytes_per_row(file_bytes, num_rows);
    let fitting = 2_097_152int / per_row;
    let size = row_group_size_for(file_bytes, num_rows);
    lemma_quotient(2_097_152, per_row);
    if size < 100_000 {
        assert(size >= fitting);
        assert((size + 1) * per_row >= per_row * fitting + per_row) by (nonlinear_arith)
            requires
                size >= fitting,
                per_row >= 1,
        ;
    }
}

/// Each side of the extent is that of the box of a row.
pub proof fn law_extent_is_reached(rows: Seq<u32>, bboxes: Seq<Bbox>)
    requires
        rows.len() > 0,
    ensures
        exists|i: int|
            0 <= i < rows.len() && bboxes[(#[trigger] rows[i]) as int].xmin == extent(
                rows,
                bboxes,
            ).xmin,
        exists|i: int|
            0 <= i < rows.len() && bboxes[(#[trigger] rows[i]) as int].ymin == extent(
                rows,
                bboxes,
            ).ymin,
        exists|i: int|
            0 <= i < rows.len() && bboxes[(#[trigger] rows[i]) as int].xmax == extent(
                rows,
                bboxes,
            ).xmax,
        exists|i: int|
            0 <= i < rows.len() && bboxes[(#[trigger] rows[i]) as int].ymax == extent(
                rows,
                bboxes,
            ).ymax,
    decreases rows.len(),
{
    let last = rows.len() - 1;
    assert(rows[last] == rows.last());
    if rows.len() > 1 {
        let rest = rows.drop_last();
        law_extent_is_reached(rest, bboxes);
        let a = choose|i: int|
            0 <= i < rest.len() && bboxes[(#[trigger] rest[i]) as int].xmin == extent(
                rest,
                bboxes,
            ).xmin;
        let b = choose|i: int|
            0 <= i < rest.len() && bboxes[(#[trigger] rest[i]) as int].ymin == extent(
                rest,
                bboxes,
            ).ymin;
        let c = choose|i: int|
            0 <= i < rest.len() && bboxes[(#[trigger] rest[i]) as int].xmax == extent(
                rest,
                bboxes,
            ).xmax;
        let d = choose|i: int|
            0 <= i < rest.len() && bboxes[(#[trigger] rest[i]) as int].ymax == extent(
                rest,
                bboxes,
            ).ymax;
        assert(rows[a] == rest[a] && rows[b] == rest[b] && rows[c] == rest[c] && rows[d]
            == rest[d]);
    }
}

/// Rows are cut across the longer side of their extent, from west to east where
/// both are equal. On that axis a box that ends where another begins, or
/// before, goes before it.
pub proof fn law_cuts_go_across_the_longer_side(
    rows: Seq<u32>,
    bboxes: Seq<Bbox>,
    a: u32,
    b: u32,
)
    ensures
        splits_x(rows, bboxes) <==> extent(rows, bboxes).xmax.units - extent(
            rows,
            bboxes,
        ).xmin.units >= extent(rows, bboxes).ymax.units - extent(rows, bboxes).ymin.units,
        bboxes[a as int].xmin.units <= bboxes[a as int].xmax.units && bboxes[b as int].xmin.units
            <= bboxes[b as int].xmax.units && bboxes[a as int].xmax.units
            <= bboxes[b as int].xmin.units ==> row_key(a, bboxes, true) <= row_key(b, bboxes, true),
        bboxes[a as int].ymin.units <= bboxes[a as int].ymax.units && bboxes[b as int].ymin.units
            <= bboxes[b as int].ymax.units && bboxes[a as int].ymax.units
            <= bboxes[b as int].ymin.units ==> row_key(a, bboxes, false) <= row_key(
            b,
            bboxes,
            false,
        ),
        row_key(a, bboxes, true) == bboxes[a as int].xmin.units + bboxes[a as int].xmax.units,
        row_key(a, bboxes, false) == bboxes[a as int].ymin.units + bboxes[a as int].ymax.units,
{
}

/// Both sides of a cut are packed in turn, each from its own rows, which
/// together are all rows.
pub proof fn law_both_sides_are_packed(
    rows: Seq<u32>,
    out: Seq<u32>,
    bboxes: Seq<Bbox>,
    size: int,
) -> (sides: (Seq<u32>, Seq<u32>))
    requires
        0 < size < rows.len(),
        packed(rows, out, bboxes, size),
    ensures
        packed(sides.0, out.take(split_at(rows.len() as int, size)), bboxes, size),
        packed(sides.1, out.skip(split_at(rows.len() as int, size)), bboxes, size),
        sides.0.len() == split_at(rows.len() as int, size),
        same_rows(rows, sides.0 + sides.1),
        ordered(sides.0 + sides.1, bboxes, splits_x(rows, bboxes)),
{
    let cut = split_at(rows.len() as int, size);
    let sorted = choose|sorted: Seq<u32>| #[trigger]
        packed_through(sorted, rows, bboxes) && 0 < cut < sorted.len() && sorted.len()
            == rows.len() && out.len() == rows.len() && packed(
            sorted.take(cut),
            out.take(cut),
            bboxes,
            size,
        ) && packed(sorted.skip(cut), out.skip(cut), bboxes, size);
    assert(sorted.take(cut) + sorted.skip(cut) =~= sorted);
    (sorted.take(cut), sorted.skip(cut))
}

/// A cut leaves about as many row groups on either side: those on the left are
/// half of all, rounded down, and full.
pub proof fn law_cuts_halve_the_row_groups(len: int, size: int)
    requires
        0 < size < len,
    ensures
        split_at(len, size) % size == 0,
        size <= split_at(len, size) < len,
        split_at(len, size) == (ceil_div(len, size) / 2) * size,
        (ceil_div(len, size) - 1) * size < len <= ceil_div(len, size) * size,
{
    lemma_split(len, size);
    lemma_ceil_div(len, size);
    let n = ceil_div(len, size);
    assert(n >= 2) by (nonlinear_arith)
        requires
            size * n >= len,
            0 < size < len,
    ;
    assert(size * n == n * size && size * (n - 1) == (n - 1) * size) by (nonlinear_arith);
}

/// The row that is refused is the first whose box is not finite.
pub proof fn law_the_first_broken_box_is_named(bboxes: Seq<Bbox>)
    ensures
        0 <= first_non_finite(bboxes) <= bboxes.len(),
        first_non_finite(bboxes) < bboxes.len() ==> !bboxes[first_non_finite(bboxes)].finite(),
        forall|i: int|
            #![trigger bboxes[i]]
            0 <= i < first_non_finite(bboxes) ==> bboxes[i].finite(),
    decreases bboxes.len(),
{
    if bboxes.len() > 0 && bboxes[0].finite() {
        let rest = bboxes.drop_first();
        law_the_first_broken_box_is_named(rest);
        assert(forall|i: int|
            #![trigger bboxes[i]]
            1 <= i < bboxes.len() ==> bboxes[i] == rest[i - 1]);
    }
}

} // verus!
