//! Comma-separated text as records of fields.
use crate::text;
use crate::text::{same_text, trim};
use vstd::prelude::*;

verus! {

/// Where a record begins: its number, its line and its byte in the text.
#[derive(Debug, Clone, Copy, PartialEq, Eq, Structural)]
pub struct Place {
    pub record: u64,
    pub line: u64,
    pub byte: u64,
}

/// A record, and where it begins.
#[derive(Debug, PartialEq)]
pub struct Record {
    pub fields: Vec<String>,
    pub place: Option<Place>,
}

/// The view of a [`Record`].
#[verifier::ext_equal]
pub struct RecordView {
    pub fields: Seq<Seq<char>>,
    pub place: Option<Place>,
}

impl View for Record {
    type V = RecordView;

    open spec fn view(&self) -> RecordView {
        RecordView { fields: text::texts(self.fields@), place: self.place }
    }
}

/// What `csv::Reader::records` reads in a text, without a header: its records
/// in order, or what the error on one says.
pub uninterp spec fn csv_records(text: Seq<char>) -> Seq<Result<RecordView, Seq<char>>>;

pub open spec fn record_view(record: Result<Record, String>) -> Result<RecordView, Seq<char>> {
    match record {
        Ok(r) => Ok(r@),
        Err(cause) => Err(cause@),
    }
}

pub open spec fn records_view(records: Seq<Result<Record, String>>) -> Seq<
    Result<RecordView, Seq<char>>,
> {
    Seq::new(records.len(), |i: int| record_view(records[i]))
}

/// `csv::Reader::records` over the bytes of a text, with `has_headers(false)`:
/// a function of the text. A record has its `position`; an error on one is its
/// text.
#[verifier::external_body]
pub(crate) fn read_records(text: &str) -> (records: Vec<Result<Record, String>>)
    ensures
        records_view(records@) == csv_records(text@),
{
    let mut reader = csv::ReaderBuilder::new().has_headers(false).from_reader(text.as_bytes());
    let place = |p: &csv::Position| Place { record: p.record(), line: p.line(), byte: p.byte() };
    let record = |r: csv::StringRecord| Record {
        fields: r.iter().map(|f| f.to_string()).collect(),
        place: r.position().map(place),
    };
    reader.records().map(|r| r.map(record).map_err(|e| e.to_string())).collect()
}

/// The field at `i`, where the record has one.
pub open spec fn field(record: Seq<Seq<char>>, i: int) -> Option<Seq<char>> {
    if 0 <= i < record.len() {
        Some(record[i])
    } else {
        None
    }
}

/// The position of the first field that is `wanted` without the space around it.
pub open spec fn position_of(record: Seq<Seq<char>>, wanted: Seq<char>) -> Option<int>
    decreases record.len(),
{
    if record.len() == 0 {
        None
    } else {
        match position_of(record.drop_last(), wanted) {
            Some(i) => Some(i),
            None => if text::trimmed(record.last()) == wanted {
                Some(record.len() - 1)
            } else {
                None
            },
        }
    }
}

/// Finds a field by its name; space around it does not matter.
pub fn find_trimmed(record: &Vec<String>, wanted: &str) -> (at: Option<usize>)
    ensures
        match at {
            Some(i) => i < record@.len() && position_of(text::texts(record@), wanted@) == Some(
                i as int,
            ),
            None => position_of(text::texts(record@), wanted@) is None,
        },
{
    let ghost all = text::texts(record@);
    let mut i: usize = 0;
    assert(all.take(0) == Seq::<Seq<char>>::empty());
    while i < record.len()
        invariant
            i <= record@.len(),
            all == text::texts(record@),
            position_of(all.take(i as int), wanted@) is None,
        decreases record@.len() - i,
    {
        assert(all.take(i + 1).drop_last() == all.take(i as int));
        assert(all.take(i + 1).last() == record@[i as int]@);
        if same_text(trim(record[i].as_str()).as_str(), wanted) {
            proof {
                lemma_position_stays(all, i + 1, wanted@);
            }
            return Some(i);
        }
        i = i + 1;
    }
    assert(all.take(i as int) == all);
    None
}

proof fn lemma_position_stays(record: Seq<Seq<char>>, n: int, wanted: Seq<char>)
    requires
        0 <= n <= record.len(),
        position_of(record.take(n), wanted) is Some,
    ensures
        position_of(record, wanted) == position_of(record.take(n), wanted),
    decreases record.len(),
{
    if n == record.len() {
        assert(record.take(n) == record);
    } else {
        assert(record.drop_last().take(n) == record.take(n));
        lemma_position_stays(record.drop_last(), n, wanted);
    }
}

/// A column is found at the first field with its name, whatever space stands
/// around it; it is not found only where no field has that name.
pub proof fn law_the_first_field_of_a_name_is_found(record: Seq<Seq<char>>, wanted: Seq<char>)
    ensures
        position_of(record, wanted) is None <==> forall|i: int|
            #![trigger record[i]]
            0 <= i < record.len() ==> text::trimmed(record[i]) != wanted,
        position_of(record, wanted) is Some ==> 0 <= position_of(record, wanted)->0 < record.len()
            && text::trimmed(record[position_of(record, wanted)->0]) == wanted,
        position_of(record, wanted) is Some ==> forall|i: int|
            #![trigger record[i]]
            0 <= i < position_of(record, wanted)->0 ==> text::trimmed(record[i]) != wanted,
    decreases record.len(),
{
    if record.len() > 0 {
        let rest = record.drop_last();
        law_the_first_field_of_a_name_is_found(rest, wanted);
        assert(forall|i: int| #![trigger record[i]] 0 <= i < rest.len() ==> record[i] == rest[i]);
        assert(forall|i: int| #![trigger rest[i]] 0 <= i < rest.len() ==> record[i] == rest[i]);
        assert(record[record.len() - 1] == record.last());
    }
}

} // verus!
