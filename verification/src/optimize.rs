//! Rewriting a file so that parts of it can be read on their own: which of its
//! metadata stays, and where its row groups begin.
use crate::catalog;
use crate::catalog::{key_value, KeyValue};
use crate::geoparquet;
use crate::geoparquet::{covering_bbox, CoveringBbox, CoveringView, GeoError, GeoFault};
use crate::spatial_pack;
use crate::spatial_pack::default_row_group_size;
use crate::text;
use crate::text::{parse_u64, same_text};
use vstd::prelude::*;

verus! {

/// Why a file cannot be rewritten.
#[derive(Debug, PartialEq)]
pub enum OptimizeError {
    /// It has no `geo` metadata.
    NoGeo,
    Covering(GeoError),
}

/// The view of an [`OptimizeError`].
pub enum OptimizeFault {
    NoGeo,
    Covering(GeoFault),
}

impl View for OptimizeError {
    type V = OptimizeFault;

    open spec fn view(&self) -> OptimizeFault {
        match self {
            OptimizeError::NoGeo => OptimizeFault::NoGeo,
            OptimizeError::Covering(e) => OptimizeFault::Covering(e@),
        }
    }
}

impl OptimizeFault {
    pub open spec fn spec_text(self) -> Seq<char> {
        match self {
            OptimizeFault::NoGeo => "GeoParquetの `geo` メタデータがありません"@,
            OptimizeFault::Covering(e) => e.spec_text(),
        }
    }
}

impl OptimizeError {
    pub fn to_string(&self) -> (text: String)
        ensures
            text@ == self@.spec_text(),
    {
        match self {
            OptimizeError::NoGeo => "GeoParquetの `geo` メタデータがありません".to_string(),
            OptimizeError::Covering(e) => e.to_string(),
        }
    }
}

/// The covering that a file's metadata declares.
pub open spec fn covering_of(metadata: Seq<KeyValue>) -> Result<CoveringView, OptimizeFault> {
    match catalog::value_of(metadata, "geo"@) {
        None => Err(OptimizeFault::NoGeo),
        Some(geo) => match geoparquet::covering_in_text(geo) {
            Ok(covering) => Ok(covering),
            Err(e) => Err(OptimizeFault::Covering(e)),
        },
    }
}

pub fn find_covering(metadata: &Vec<KeyValue>) -> (r: Result<CoveringBbox, OptimizeError>)
    ensures
        match r {
            Ok(covering) => covering_of(metadata@) == Ok::<CoveringView, OptimizeFault>(covering@),
            Err(e) => covering_of(metadata@) == Err::<CoveringView, OptimizeFault>(e@),
        },
{
    match key_value(metadata, "geo") {
        None => Err(OptimizeError::NoGeo),
        Some(geo) => match covering_bbox(geo.as_str()) {
            Ok(covering) => Ok(covering),
            Err(e) => Err(OptimizeError::Covering(e)),
        },
    }
}

/// The number of rows in a row group: what was asked for, else what suits the
/// size of the rows.
pub open spec fn group_size(requested: Option<usize>, file_bytes: u64, num_rows: usize) -> int {
    match requested {
        Some(size) => size as int,
        None => spatial_pack::row_group_size_for(file_bytes as int, num_rows as int),
    }
}

pub fn row_group_size(requested: Option<usize>, file_bytes: u64, num_rows: usize) -> (size: usize)
    ensures
        size == group_size(requested, file_bytes, num_rows),
{
    match requested {
        Some(size) => size,
        None => default_row_group_size(file_bytes, num_rows),
    }
}

/// A number of rows as an argument.
pub fn parse_row_group_size(argument: &str) -> (size: Option<usize>)
    ensures
        match size {
            Some(n) => text::parsed_int(argument@, false) == Some(n as int),
            None => match text::parsed_int(argument@, false) {
                Some(n) => n > usize::MAX,
                None => true,
            },
        },
{
    match parse_u64(argument) {
        Some(n) => if n <= usize::MAX as u64 {
            Some(n as usize)
        } else {
            None
        },
        None => None,
    }
}

/// The first row and the number of rows of each row group.
pub open spec fn groups_of(num_rows: nat, size: nat) -> Seq<(usize, usize)>
    decreases num_rows,
{
    if num_rows == 0 || size == 0 {
        Seq::empty()
    } else {
        let start = ((num_rows - 1) as nat / size) * size;
        if 0 <= start < num_rows {
            groups_of(start as nat, size).push((start as usize, (num_rows - start) as usize))
        } else {
            Seq::empty()
        }
    }
}

proof fn lemma_last_group(start: nat, rest: nat, size: nat, k: nat)
    requires
        size > 0,
        0 < rest <= size,
        start == k * size,
    ensures
        groups_of(start + rest, size) == groups_of(start, size).push(
            (start as usize, rest as usize),
        ),
{
    let n = start + rest;
    assert((n - 1) as nat / size == k) by (nonlinear_arith)
        requires
            n == k * size + rest,
            0 < rest <= size,
    ;
    assert(((n - 1) as nat / size) * size == start);
}

/// The row groups of a file, so that their borders are those that the order of
/// the rows was made for.
pub fn row_groups(num_rows: usize, size: usize) -> (groups: Vec<(usize, usize)>)
    requires
        size > 0,
    ensures
        groups@ == groups_of(num_rows as nat, size as nat),
{
    let mut groups: Vec<(usize, usize)> = Vec::new();
    let mut start: usize = 0;
    let ghost mut k: nat = 0;
    while start < num_rows
        invariant
            size > 0,
            start <= num_rows,
            start < num_rows ==> start == k * size,
            groups@ == groups_of(start as nat, size as nat),
        decreases num_rows - start,
    {
        let rest: usize = num_rows - start;
        let length: usize = if size < rest {
            size
        } else {
            rest
        };
        groups.push((start, length));
        proof {
            lemma_last_group(start as nat, length as nat, size as nat, k);
            assert((k + 1) * size == k * size + size) by (nonlinear_arith);
            k = k + 1;
        }
        start = start + length;
    }
    groups
}

/// Row groups follow each other without a gap, none is empty or larger than
/// asked for, and together they hold all rows.
pub proof fn law_row_groups_cover(num_rows: nat, size: nat)
    requires
        size > 0,
        num_rows <= usize::MAX,
    ensures
        ({
            let groups = groups_of(num_rows, size);
            &&& num_rows > 0 ==> groups.len() > 0 && groups[0].0 == 0 && groups.last().0
                + groups.last().1 == num_rows
            &&& num_rows == 0 ==> groups.len() == 0
            &&& forall|i: int|
                0 <= i < groups.len() ==> 0 < (#[trigger] groups[i]).1 <= size
            &&& forall|i: int, j: int|
                0 <= i && j == i + 1 && j < groups.len() ==> (#[trigger] groups[i]).0 + groups[i].1
                    == (#[trigger] groups[j]).0
        }),
    decreases num_rows,
{
    if num_rows > 0 {
        let q = (num_rows - 1) as nat / size;
        let start = q * size;
        assert(0 <= start < num_rows && num_rows - start <= size) by (nonlinear_arith)
            requires
                size > 0,
                num_rows > 0,
                q == (num_rows - 1) as nat / size,
                start == q * size,
        ;
        law_row_groups_cover(start as nat, size);
        let before = groups_of(start as nat, size);
        let groups = groups_of(num_rows, size);
        assert(groups == before.push((start as usize, (num_rows - start) as usize)));
        assert forall|i: int, j: int|
            0 <= i && j == i + 1 && j < groups.len() implies (#[trigger] groups[i]).0 + groups[i].1
            == (#[trigger] groups[j]).0 by {
            if j < before.len() {
                assert(before[i].0 + before[i].1 == before[j].0);
            }
        }
    }
}

/// The entries of the metadata that go into the new file: all but the schema,
/// which is written anew.
pub open spec fn kept(metadata: Seq<KeyValue>) -> Seq<int>
    decreases metadata.len(),
{
    if metadata.len() == 0 {
        Seq::empty()
    } else if metadata.last().key@ == "ARROW:schema"@ {
        kept(metadata.drop_last())
    } else {
        kept(metadata.drop_last()).push(metadata.len() - 1)
    }
}

pub fn kept_entries(metadata: &Vec<KeyValue>) -> (places: Vec<usize>)
    ensures
        places@.map_values(|p: usize| p as int) == kept(metadata@),
{
    let mut places: Vec<usize> = Vec::new();
    let mut i: usize = 0;
    proof {
        assert(metadata@.take(0) == Seq::<KeyValue>::empty());
        assert(places@.map_values(|p: usize| p as int) =~= Seq::<int>::empty());
    }
    while i < metadata.len()
        invariant
            i <= metadata@.len(),
            places@.map_values(|p: usize| p as int) == kept(metadata@.take(i as int)),
        decreases metadata@.len() - i,
    {
        assert(metadata@.take(i + 1).drop_last() == metadata@.take(i as int));
        let ghost had = places@;
        if !same_text(metadata[i].key.as_str(), "ARROW:schema") {
            places.push(i);
            assert(places@.map_values(|p: usize| p as int) =~= had.map_values(
                |p: usize| p as int,
            ).push(i as int));
        }
        i = i + 1;
    }
    assert(metadata@.take(i as int) == metadata@);
    places
}

/// The entries that are written again.
pub open spec fn written_again(metadata: Seq<KeyValue>) -> Seq<KeyValue> {
    Seq::new(kept(metadata).len(), |i: int| metadata[kept(metadata)[i]])
}

proof fn lemma_written_again(metadata: Seq<KeyValue>, key: Seq<char>)
    requires
        key != "ARROW:schema"@,
    ensures
        forall|i: int|
            0 <= i < kept(metadata).len() ==> 0 <= #[trigger] kept(metadata)[i] < metadata.len(),
        catalog::value_of(written_again(metadata), key) == catalog::value_of(metadata, key),
        catalog::has_key(written_again(metadata), key) == catalog::has_key(metadata, key),
    decreases metadata.len(),
{
    let out = written_again(metadata);
    if metadata.len() > 0 {
        let rest = metadata.drop_last();
        let last = metadata.last();
        lemma_written_again(rest, key);
        assert(metadata =~= rest + seq![last]);
        catalog::lemma_value_behind(rest, seq![last], key);
        reveal_with_fuel(catalog::value_of, 2);
        if last.key@ == "ARROW:schema"@ {
            assert(out =~= written_again(rest));
            let none = Seq::<KeyValue>::empty();
            assert(seq![last].drop_first() =~= none);
            catalog::lemma_value_behind(rest, none, key);
            assert(rest + none =~= rest);
        } else {
            assert(out =~= written_again(rest) + seq![last]);
            catalog::lemma_value_behind(written_again(rest), seq![last], key);
            if last.key@ == key {
                assert(out[out.len() - 1].key@ == key);
                assert(metadata[metadata.len() - 1].key@ == key);
            }
            if catalog::has_key(out, key) && last.key@ != key {
                let i = choose|i: int| 0 <= i < out.len() && (#[trigger] out[i]).key@ == key;
                assert(written_again(rest)[i].key@ == key);
            }
            if catalog::has_key(written_again(rest), key) {
                let i = choose|i: int|
                    0 <= i < written_again(rest).len() && (#[trigger] written_again(rest)[i]).key@
                        == key;
                assert(out[i].key@ == key);
            }
        }
        if catalog::has_key(rest, key) {
            let i = choose|i: int| 0 <= i < rest.len() && (#[trigger] rest[i]).key@ == key;
            assert(metadata[i].key@ == key);
        }
        if catalog::has_key(metadata, key) && last.key@ != key {
            let i = choose|i: int| 0 <= i < metadata.len() && (#[trigger] metadata[i]).key@ == key;
            assert(rest[i].key@ == key);
        }
    } else {
        assert(out =~= metadata);
    }
}

/// Sorting a file anew keeps what its metadata says, but for the schema that
/// the writer adds itself.
pub proof fn law_metadata_stays(metadata: Seq<KeyValue>, key: Seq<char>)
    requires
        key != "ARROW:schema"@,
    ensures
        catalog::value_of(written_again(metadata), key) == catalog::value_of(metadata, key),
{
    lemma_written_again(metadata, key);
}

/// All row groups but the last are full, so each begins at a multiple of their
/// size.
pub proof fn law_row_groups_are_full(num_rows: nat, size: nat, i: int)
    requires
        size > 0,
        num_rows <= usize::MAX,
        0 <= i < groups_of(num_rows, size).len(),
    ensures
        groups_of(num_rows, size)[i].0 == i * size,
        i < groups_of(num_rows, size).len() - 1 ==> groups_of(num_rows, size)[i].1 == size,
        (groups_of(num_rows, size).len() - 1) * size < num_rows <= groups_of(num_rows, size).len()
            * size,
    decreases num_rows,
{
    let n = (num_rows - 1) as nat;
    let q = n / size;
    vstd::arithmetic::div_mod::lemma_fundamental_div_mod(n as int, size as int);
    vstd::arithmetic::div_mod::lemma_mod_bound(n as int, size as int);
    assert(size * q == q * size) by (nonlinear_arith);
    let start = q * size;
    assert(0 <= start < num_rows);
    let rest = groups_of(start, size);
    lemma_full_groups(q, size);
    assert((q + 1) * size == q * size + size) by (nonlinear_arith);
    if i < rest.len() {
        lemma_full_group(q, size, i);
    }
}

proof fn lemma_full_groups(q: nat, size: nat)
    requires
        size > 0,
    ensures
        groups_of(q * size, size).len() == q,
    decreases q,
{
    if q == 0 {
        assert(0 * size == 0) by (nonlinear_arith);
    } else {
        lemma_full_cut(q, size);
        lemma_full_groups((q - 1) as nat, size);
    }
}

proof fn lemma_full_cut(q: nat, size: nat)
    requires
        size > 0,
        q > 0,
    ensures
        q * size > 0,
        ((q * size - 1) as nat / size) * size == (q - 1) * size,
        0 <= (q - 1) * size < q * size,
        q * size - (q - 1) * size == size,
{
    assert(q * size >= size) by (nonlinear_arith)
        requires
            q >= 1,
    ;
    assert(q * size - 1 == (q - 1) * size + (size - 1)) by (nonlinear_arith);
    assert((q - 1) * size >= 0) by (nonlinear_arith)
        requires
            q >= 1,
    ;
    vstd::arithmetic::div_mod::lemma_fundamental_div_mod_converse(
        q * size - 1,
        size as int,
        q - 1,
        size - 1,
    );
}

proof fn lemma_full_group(q: nat, size: nat, i: int)
    requires
        size > 0,
        0 <= i < q,
        q * size <= usize::MAX,
    ensures
        groups_of(q * size, size).len() == q,
        groups_of(q * size, size)[i].0 == i * size,
        groups_of(q * size, size)[i].1 == size,
    decreases q,
{
    lemma_full_groups(q, size);
    lemma_full_cut(q, size);
    lemma_full_groups((q - 1) as nat, size);
    if i < q - 1 {
        lemma_full_group((q - 1) as nat, size, i);
    }
}

/// The size of row groups is the one that was asked for, where one was.
pub proof fn law_requested_sizes_are_kept(size: usize, file_bytes: u64, num_rows: usize)
    ensures
        group_size(Some(size), file_bytes, num_rows) == size,
{
}

} // verus!
