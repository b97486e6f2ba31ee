//! Location reference data: records with a header line, and a point for each.
use crate::archive;
use crate::archive::{read_sjis_by_suffix, ZipEntryError, ZipEntryFault};
use crate::geo;
use crate::geo::{Bounds, Coord, Shape, ShapeView};
use crate::geoparquet;
use crate::geoparquet::{utf8_column, Column};
use crate::metadata;
use crate::metadata::{extract_epsg_from_isj_metadata_xml, EpsgError, EpsgFault};
use crate::number;
use crate::number::{parse_real, Real};
use crate::records;
use crate::records::{Place, Record, RecordView};
use crate::text;
use crate::text::{push_decimal, same_text};
use crate::transform;
use crate::transform::{transform_line, TransformError};
use vstd::prelude::*;

verus! {

/// The column with the latitude.
pub const LATITUDE: &'static str = "緯度";

/// The column with the longitude.
pub const LONGITUDE: &'static str = "経度";

/// Why the fields of a record could not be read.
#[derive(Debug, PartialEq)]
pub enum FieldError {
    /// There is another column of that name before.
    Repeated(String),
    /// The coordinate in that column is no number, for that reason.
    NotANumber(usize, String),
    /// The record ends before the header does.
    EndOfRow,
    /// There is no column of that name.
    Missing(String),
}

/// The view of a [`FieldError`].
pub enum FieldFault {
    Repeated(Seq<char>),
    NotANumber(int, Seq<char>),
    EndOfRow,
    Missing(Seq<char>),
}

impl View for FieldError {
    type V = FieldFault;

    open spec fn view(&self) -> FieldFault {
        match self {
            FieldError::Repeated(name) => FieldFault::Repeated(name@),
            FieldError::NotANumber(i, cause) => FieldFault::NotANumber(*i as int, cause@),
            FieldError::EndOfRow => FieldFault::EndOfRow,
            FieldError::Missing(name) => FieldFault::Missing(name@),
        }
    }
}

impl FieldFault {
    pub open spec fn spec_text(self) -> Seq<char> {
        match self {
            FieldFault::Repeated(name) => "duplicate field `"@ + name + "`"@,
            FieldFault::NotANumber(i, cause) => "field "@ + text::decimal_text(i as nat) + ": "@
                + cause,
            FieldFault::EndOfRow => "expected field, but got end of row"@,
            FieldFault::Missing(name) => "missing field `"@ + name + "`"@,
        }
    }
}

impl FieldError {
    pub fn to_string(&self) -> (text: String)
        ensures
            text@ == self@.spec_text(),
    {
        match self {
            FieldError::Repeated(name) => {
                let mut text = "duplicate field `".to_string();
                text.append(name.as_str());
                text.append("`");
                text
            },
            FieldError::NotANumber(i, cause) => {
                let mut text = "field ".to_string();
                push_decimal(&mut text, *i as u64);
                text.append(": ");
                text.append(cause.as_str());
                text
            },
            FieldError::EndOfRow => "expected field, but got end of row".to_string(),
            FieldError::Missing(name) => {
                let mut text = "missing field `".to_string();
                text.append(name.as_str());
                text.append("`");
                text
            },
        }
    }
}

/// Why a record could not be read.
#[derive(Debug, PartialEq)]
pub enum IsjError {
    /// The record is malformed, as is told there.
    Record(String),
    /// Its fields are not those of a row.
    Fields(Option<Place>, FieldError),
}

/// The view of an [`IsjError`].
pub enum IsjFault {
    Record(Seq<char>),
    Fields(Option<Place>, FieldFault),
}

impl View for IsjError {
    type V = IsjFault;

    open spec fn view(&self) -> IsjFault {
        match self {
            IsjError::Record(cause) => IsjFault::Record(cause@),
            IsjError::Fields(place, e) => IsjFault::Fields(*place, e@),
        }
    }
}

impl IsjFault {
    pub open spec fn spec_text(self) -> Seq<char> {
        match self {
            IsjFault::Record(cause) => cause,
            IsjFault::Fields(Some(place), e) => "CSV deserialize error: record "@
                + text::decimal_text(place.record as nat) + " (line: "@ + text::decimal_text(
                place.line as nat,
            ) + ", byte: "@ + text::decimal_text(place.byte as nat) + "): "@ + e.spec_text(),
            IsjFault::Fields(None, e) => "CSV deserialize error: "@ + e.spec_text(),
        }
    }
}

impl IsjError {
    pub fn to_string(&self) -> (text: String)
        ensures
            text@ == self@.spec_text(),
    {
        match self {
            IsjError::Record(cause) => cause.clone(),
            IsjError::Fields(Some(place), e) => {
                let mut text = "CSV deserialize error: record ".to_string();
                push_decimal(&mut text, place.record);
                text.append(" (line: ");
                push_decimal(&mut text, place.line);
                text.append(", byte: ");
                push_decimal(&mut text, place.byte);
                text.append("): ");
                text.append(e.to_string().as_str());
                text
            },
            IsjError::Fields(None, e) => {
                let mut text = "CSV deserialize error: ".to_string();
                text.append(e.to_string().as_str());
                text
            },
        }
    }
}

/// `name` stands in the header at `i` and nowhere else.
pub open spec fn stands_once(header: Seq<Seq<char>>, name: Seq<char>, i: int) -> bool {
    0 <= i < header.len() && header[i] == name && forall|j: int|
        0 <= j < header.len() && #[trigger] header[j] == name ==> j == i
}

/// The one column of that name.
pub open spec fn column_of(header: Seq<Seq<char>>, name: Seq<char>) -> Option<int> {
    if exists|i: int| stands_once(header, name, i) {
        Some(choose|i: int| stands_once(header, name, i))
    } else {
        None
    }
}

/// The field of a record in the column of that name.
pub open spec fn field_of(
    header: Seq<Seq<char>>,
    record: Seq<Seq<char>>,
    name: Seq<char>,
) -> Option<Seq<char>> {
    match column_of(header, name) {
        Some(i) => records::field(record, i),
        None => None,
    }
}

/// The fields in these columns.
pub open spec fn fields_of(
    header: Seq<Seq<char>>,
    record: Seq<Seq<char>>,
    names: Seq<Seq<char>>,
) -> Seq<Seq<char>> {
    Seq::new(names.len(), |i: int| field_of(header, record, names[i])->0)
}

/// The columns that a table has to have, in the order in which one that is
/// missing is told: the coordinates come before the last two.
pub open spec fn all_columns(names: Seq<Seq<char>>) -> Seq<Seq<char>> {
    names.take(names.len() - 2) + seq![LATITUDE@, LONGITUDE@] + names.skip(names.len() - 2)
}

/// What a column is to a reader who goes through them in order.
#[derive(Debug, Clone, Copy, PartialEq, Eq, Structural)]
pub enum ColumnKind {
    /// One that was there before.
    Repeated,
    Coordinate,
    Other,
}

pub open spec fn kind_of(header: Seq<Seq<char>>, wanted: Seq<Seq<char>>, i: int) -> ColumnKind {
    if wanted.contains(header[i]) && header.take(i).contains(header[i]) {
        ColumnKind::Repeated
    } else if header[i] == LATITUDE@ || header[i] == LONGITUDE@ {
        ColumnKind::Coordinate
    } else {
        ColumnKind::Other
    }
}

/// What stands against the field in a column.
pub open spec fn column_fault(
    header: Seq<Seq<char>>,
    fields: Seq<Seq<char>>,
    wanted: Seq<Seq<char>>,
    i: int,
) -> Option<FieldFault> {
    if kind_of(header, wanted, i) == ColumnKind::Repeated {
        Some(FieldFault::Repeated(header[i]))
    } else if i >= fields.len() {
        Some(FieldFault::EndOfRow)
    } else if kind_of(header, wanted, i) == ColumnKind::Coordinate {
        match number::real_text(fields[i]) {
            Ok(_) => None,
            Err(cause) => Some(FieldFault::NotANumber(i, cause)),
        }
    } else {
        None
    }
}

/// What stands against the fields in the first `n` columns: the first fault.
pub open spec fn columns_fault(
    header: Seq<Seq<char>>,
    fields: Seq<Seq<char>>,
    wanted: Seq<Seq<char>>,
    n: int,
) -> Option<FieldFault>
    decreases n,
{
    if n <= 0 {
        None
    } else {
        match columns_fault(header, fields, wanted, n - 1) {
            Some(f) => Some(f),
            None => column_fault(header, fields, wanted, n - 1),
        }
    }
}

/// The first column that is wanted and not there.
pub open spec fn first_missing(header: Seq<Seq<char>>, wanted: Seq<Seq<char>>) -> Option<Seq<char>>
    decreases wanted.len(),
{
    if wanted.len() == 0 {
        None
    } else {
        match first_missing(header, wanted.drop_last()) {
            Some(name) => Some(name),
            None => if header.contains(wanted.last()) {
                None
            } else {
                Some(wanted.last())
            },
        }
    }
}

/// What stands against the fields of a record: the first fault in the order of
/// the columns, then the first column that is missing.
pub open spec fn fields_fault(
    header: Seq<Seq<char>>,
    fields: Seq<Seq<char>>,
    wanted: Seq<Seq<char>>,
) -> Option<FieldFault> {
    match columns_fault(header, fields, wanted, header.len() as int) {
        Some(f) => Some(f),
        None => match first_missing(header, wanted) {
            Some(name) => Some(FieldFault::Missing(name)),
            None => None,
        },
    }
}

/// The coordinate in the column of that name.
pub open spec fn coordinate_of(
    header: Seq<Seq<char>>,
    fields: Seq<Seq<char>>,
    name: Seq<char>,
) -> Real {
    number::real_text(field_of(header, fields, name)->0)->Ok_0
}

/// The point of a record: longitude, then latitude.
pub open spec fn point_of(header: Seq<Seq<char>>, fields: Seq<Seq<char>>) -> Coord {
    Coord {
        x: coordinate_of(header, fields, LONGITUDE@),
        y: coordinate_of(header, fields, LATITUDE@),
    }
}

/// What a record says in these columns, with its point.
pub open spec fn entry_in(
    header: Seq<Seq<char>>,
    record: Result<RecordView, Seq<char>>,
    names: Seq<Seq<char>>,
) -> Result<(Seq<Seq<char>>, Coord), IsjFault> {
    match record {
        Err(cause) => Err(IsjFault::Record(cause)),
        Ok(r) => match fields_fault(header, r.fields, all_columns(names)) {
            Some(f) => Err(IsjFault::Fields(r.place, f)),
            None => Ok((fields_of(header, r.fields, names), point_of(header, r.fields))),
        },
    }
}

/// What records say, up to the first that cannot be read.
pub open spec fn entries_in(
    header: Seq<Seq<char>>,
    lines: Seq<Result<RecordView, Seq<char>>>,
    names: Seq<Seq<char>>,
) -> Result<Seq<(Seq<Seq<char>>, Coord)>, IsjFault>
    decreases lines.len(),
{
    if lines.len() == 0 {
        Ok(Seq::empty())
    } else {
        match entries_in(header, lines.drop_last(), names) {
            Err(e) => Err(e),
            Ok(rest) => match entry_in(header, lines.last(), names) {
                Err(e) => Err(e),
                Ok(entry) => Ok(rest.push(entry)),
            },
        }
    }
}

/// What a table says: its first line is the header.
pub open spec fn table_in(
    lines: Seq<Result<RecordView, Seq<char>>>,
    names: Seq<Seq<char>>,
) -> Result<Seq<(Seq<Seq<char>>, Coord)>, IsjFault> {
    if lines.len() == 0 {
        Ok(Seq::empty())
    } else {
        match lines[0] {
            Err(cause) => Err(IsjFault::Record(cause)),
            Ok(header) => entries_in(header.fields, lines.skip(1), names),
        }
    }
}

/// A record's fields in the columns asked for, and its point.
pub struct Entry {
    pub fields: Vec<String>,
    pub point: Coord,
}

impl View for Entry {
    type V = (Seq<Seq<char>>, Coord);

    open spec fn view(&self) -> (Seq<Seq<char>>, Coord) {
        (text::texts(self.fields@), self.point)
    }
}

pub open spec fn entries_view(entries: Seq<Entry>) -> Seq<(Seq<Seq<char>>, Coord)> {
    Seq::new(entries.len(), |i: int| entries[i]@)
}

fn find_column(header: &Vec<String>, name: &str) -> (at: Option<usize>)
    ensures
        match at {
            Some(i) => column_of(text::texts(header@), name@) == Some(i as int),
            None => column_of(text::texts(header@), name@) is None,
        },
{
    let ghost all = text::texts(header@);
    let mut found: Option<usize> = None;
    let mut i: usize = 0;
    while i < header.len()
        invariant
            i <= header@.len(),
            all == text::texts(header@),
            match found {
                Some(k) => k < i && all[k as int] == name@ && forall|j: int|
                    0 <= j < i && #[trigger] all[j] == name@ ==> j == k,
                None => forall|j: int| 0 <= j < i ==> #[trigger] all[j] != name@,
            },
        decreases header@.len() - i,
    {
        assert(all[i as int] == header@[i as int]@);
        if same_text(header[i].as_str(), name) {
            if found.is_some() {
                proof {
                    let k = found->0 as int;
                    assert forall|m: int| !stands_once(all, name@, m) by {
                        if stands_once(all, name@, m) {
                            assert(all[k] == name@ && all[i as int] == name@);
                        }
                    }
                }
                return None;
            }
            found = Some(i);
        }
        i = i + 1;
    }
    proof {
        match found {
            Some(k) => {
                assert(stands_once(all, name@, k as int));
                let c = choose|m: int| stands_once(all, name@, m);
                assert(all[k as int] == name@);
            },
            None => {
                assert forall|m: int| !stands_once(all, name@, m) by {}
            },
        }
    }
    found
}

fn find_field(header: &Vec<String>, record: &Vec<String>, name: &str) -> (f: Option<String>)
    ensures
        match f {
            Some(s) => field_of(text::texts(header@), text::texts(record@), name@) == Some(s@),
            None => field_of(text::texts(header@), text::texts(record@), name@) is None,
        },
{
    match find_column(header, name) {
        Some(i) => if i < record.len() {
            assert(text::texts(record@)[i as int] == record@[i as int]@);
            Some(record[i].clone())
        } else {
            None
        },
        None => None,
    }
}

/// A wanted column with no fault before it and none missing has one field.
proof fn lemma_no_fault(
    header: Seq<Seq<char>>,
    fields: Seq<Seq<char>>,
    wanted: Seq<Seq<char>>,
    name: Seq<char>,
)
    requires
        fields_fault(header, fields, wanted) is None,
        wanted.contains(name),
    ensures
        field_of(header, fields, name) is Some,
        name == LATITUDE@ || name == LONGITUDE@ ==> number::real_text(
            field_of(header, fields, name)->0,
        ) is Ok,
{
    lemma_there(header, wanted, name);
    let i = choose|i: int| 0 <= i < header.len() && header[i] == name;
    assert forall|j: int| 0 <= j < header.len() && #[trigger] header[j] == name implies j == i by {
        let later = if i < j {
            j
        } else {
            i
        };
        let earlier = if i < j {
            i
        } else {
            j
        };
        lemma_column_clear(header, fields, wanted, header.len() as int, later);
        if earlier < later {
            assert(header.take(later)[earlier] == header[later]);
        }
    }
    assert(stands_once(header, name, i));
    let c = choose|c: int| stands_once(header, name, c);
    assert(header[c] == name);
    lemma_column_clear(header, fields, wanted, header.len() as int, c);
}

proof fn lemma_there(header: Seq<Seq<char>>, wanted: Seq<Seq<char>>, name: Seq<char>)
    requires
        first_missing(header, wanted) is None,
        wanted.contains(name),
    ensures
        header.contains(name),
    decreases wanted.len(),
{
    let k = choose|k: int| 0 <= k < wanted.len() && wanted[k] == name;
    if k < wanted.len() - 1 {
        assert(wanted.drop_last()[k] == name);
        lemma_there(header, wanted.drop_last(), name);
    }
}

proof fn lemma_column_clear(
    header: Seq<Seq<char>>,
    fields: Seq<Seq<char>>,
    wanted: Seq<Seq<char>>,
    n: int,
    i: int,
)
    requires
        columns_fault(header, fields, wanted, n) is None,
        0 <= i < n,
    ensures
        column_fault(header, fields, wanted, i) is None,
    decreases n,
{
    if i < n - 1 {
        lemma_column_clear(header, fields, wanted, n - 1, i);
    }
}

proof fn lemma_fault_stays(
    header: Seq<Seq<char>>,
    fields: Seq<Seq<char>>,
    wanted: Seq<Seq<char>>,
    n: int,
    m: int,
)
    requires
        columns_fault(header, fields, wanted, n) is Some,
        0 <= n <= m,
    ensures
        columns_fault(header, fields, wanted, m) == columns_fault(header, fields, wanted, n),
    decreases m,
{
    if n < m {
        lemma_fault_stays(header, fields, wanted, n, m - 1);
    }
}

fn has_text(list: &Vec<String>, to: usize, wanted: &str) -> (b: bool)
    requires
        to <= list@.len(),
    ensures
        b == text::texts(list@).take(to as int).contains(wanted@),
{
    let ghost all = text::texts(list@).take(to as int);
    let mut i: usize = 0;
    while i < to
        invariant
            i <= to <= list@.len(),
            all == text::texts(list@).take(to as int),
            forall|k: int| 0 <= k < i ==> #[trigger] all[k] != wanted@,
        decreases to - i,
    {
        assert(all[i as int] == list@[i as int]@);
        if same_text(list[i].as_str(), wanted) {
            return true;
        }
        i = i + 1;
    }
    false
}

fn has_name(names: &Vec<&'static str>, wanted: &str) -> (b: bool)
    ensures
        b == names_view(names@).contains(wanted@),
{
    let ghost all = names_view(names@);
    let mut i: usize = 0;
    while i < names.len()
        invariant
            i <= names@.len(),
            all == names_view(names@),
            forall|k: int| 0 <= k < i ==> #[trigger] all[k] != wanted@,
        decreases names@.len() - i,
    {
        assert(all[i as int] == names@[i as int]@);
        if same_text(names[i], wanted) {
            return true;
        }
        i = i + 1;
    }
    false
}

/// The columns that a table has to have.
fn list_columns(names: &Vec<&'static str>) -> (all: Vec<&'static str>)
    requires
        names@.len() >= 2,
    ensures
        names_view(all@) == all_columns(names_view(names@)),
{
    let ghost want = all_columns(names_view(names@));
    let first: usize = names.len() - 2;
    let mut all: Vec<&'static str> = Vec::new();
    let mut i: usize = 0;
    while i < names.len()
        invariant
            i <= names@.len(),
            first == names@.len() - 2,
            want == all_columns(names_view(names@)),
            all@.len() == if i <= first {
                i as int
            } else {
                i + 2
            },
            forall|k: int| 0 <= k < all@.len() ==> (#[trigger] all@[k])@ == want[k],
        decreases names@.len() - i,
    {
        if i == first {
            all.push(LATITUDE);
            all.push(LONGITUDE);
        }
        all.push(names[i]);
        i = i + 1;
    }
    assert(names_view(all@) =~= want);
    all
}

/// What a header means for all records.
struct Layout {
    kinds: Vec<ColumnKind>,
    missing: Option<&'static str>,
}

impl Layout {
    spec fn fits(self, header: Seq<Seq<char>>, wanted: Seq<Seq<char>>) -> bool {
        &&& self.kinds@.len() == header.len()
        &&& forall|i: int|
            0 <= i < header.len() ==> #[trigger] self.kinds@[i] == kind_of(header, wanted, i)
        &&& match self.missing {
            Some(name) => first_missing(header, wanted) == Some(name@),
            None => first_missing(header, wanted) is None,
        }
    }
}

fn find_missing(header: &Vec<String>, wanted: &Vec<&'static str>) -> (missing: Option<&'static str>)
    ensures
        match missing {
            Some(name) => first_missing(text::texts(header@), names_view(wanted@)) == Some(name@),
            None => first_missing(text::texts(header@), names_view(wanted@)) is None,
        },
{
    let ghost head = text::texts(header@);
    let ghost all = names_view(wanted@);
    let mut i: usize = 0;
    assert(all.take(0) == Seq::<Seq<char>>::empty());
    while i < wanted.len()
        invariant
            i <= wanted@.len(),
            head == text::texts(header@),
            all == names_view(wanted@),
            first_missing(head, all.take(i as int)) is None,
        decreases wanted@.len() - i,
    {
        assert(all.take(i + 1).drop_last() == all.take(i as int));
        assert(all.take(i + 1).last() == wanted@[i as int]@);
        assert(head.take(header@.len() as int) == head);
        if !has_text(header, header.len(), wanted[i]) {
            proof {
                lemma_missing_stays(head, all, i + 1);
            }
            return Some(wanted[i]);
        }
        i = i + 1;
    }
    assert(all.take(i as int) == all);
    None
}

proof fn lemma_missing_stays(header: Seq<Seq<char>>, wanted: Seq<Seq<char>>, n: int)
    requires
        0 <= n <= wanted.len(),
        first_missing(header, wanted.take(n)) is Some,
    ensures
        first_missing(header, wanted) == first_missing(header, wanted.take(n)),
    decreases wanted.len(),
{
    if n == wanted.len() {
        assert(wanted.take(n) == wanted);
    } else {
        assert(wanted.drop_last().take(n) == wanted.take(n));
        lemma_missing_stays(header, wanted.drop_last(), n);
    }
}

fn lay_out(header: &Vec<String>, wanted: &Vec<&'static str>) -> (layout: Layout)
    ensures
        layout.fits(text::texts(header@), names_view(wanted@)),
{
    let ghost head = text::texts(header@);
    let mut kinds: Vec<ColumnKind> = Vec::new();
    let mut i: usize = 0;
    while i < header.len()
        invariant
            i <= header@.len(),
            head == text::texts(header@),
            kinds@.len() == i,
            forall|k: int|
                0 <= k < i ==> #[trigger] kinds@[k] == kind_of(head, names_view(wanted@), k),
        decreases header@.len() - i,
    {
        let name = header[i].as_str();
        assert(head[i as int] == name@);
        let kind = if has_name(wanted, name) && has_text(header, i, name) {
            ColumnKind::Repeated
        } else if same_text(name, LATITUDE) || same_text(name, LONGITUDE) {
            ColumnKind::Coordinate
        } else {
            ColumnKind::Other
        };
        kinds.push(kind);
        i = i + 1;
    }
    Layout { kinds, missing: find_missing(header, wanted) }
}

/// What stands against the fields of a record.
fn find_fault(
    header: &Vec<String>,
    fields: &Vec<String>,
    layout: &Layout,
    wanted: Ghost<Seq<Seq<char>>>,
) -> (fault: Option<FieldError>)
    requires
        layout.fits(text::texts(header@), wanted@),
    ensures
        match fault {
            Some(e) => fields_fault(text::texts(header@), text::texts(fields@), wanted@) == Some(e@),
            None => fields_fault(text::texts(header@), text::texts(fields@), wanted@) is None,
        },
{
    let ghost head = text::texts(header@);
    let ghost line = text::texts(fields@);
    let ghost n = header@.len() as int;
    let mut i: usize = 0;
    while i < header.len()
        invariant
            i <= header@.len(),
            n == header@.len(),
            head == text::texts(header@),
            line == text::texts(fields@),
            layout.fits(head, wanted@),
            columns_fault(head, line, wanted@, i as int) is None,
        decreases header@.len() - i,
    {
        assert(layout.kinds@[i as int] == kind_of(head, wanted@, i as int));
        assert(head[i as int] == header@[i as int]@);
        let mut fault: Option<FieldError> = None;
        match layout.kinds[i] {
            ColumnKind::Repeated => {
                fault = Some(FieldError::Repeated(header[i].clone()));
            },
            _ => {
                if i >= fields.len() {
                    fault = Some(FieldError::EndOfRow);
                } else if layout.kinds[i] == ColumnKind::Coordinate {
                    assert(line[i as int] == fields@[i as int]@);
                    match parse_real(fields[i].as_str()) {
                        Ok(_) => {},
                        Err(cause) => {
                            fault = Some(FieldError::NotANumber(i, cause));
                        },
                    }
                }
            },
        }
        assert(columns_fault(head, line, wanted@, i + 1) == column_fault(
            head,
            line,
            wanted@,
            i as int,
        ));
        if fault.is_some() {
            proof {
                lemma_fault_stays(head, line, wanted@, i + 1, n);
            }
            return fault;
        }
        i = i + 1;
    }
    match layout.missing {
        Some(name) => Some(FieldError::Missing(name.to_string())),
        None => None,
    }
}

fn read_entry(
    header: &Vec<String>,
    record: &Result<Record, String>,
    names: &Vec<&'static str>,
    layout: &Layout,
) -> (r: Result<Entry, IsjError>)
    requires
        names@.len() >= 2,
        layout.fits(text::texts(header@), all_columns(names_view(names@))),
    ensures
        ({
            let wanted = names_view(names@);
            match r {
                Ok(entry) => entry_in(
                    text::texts(header@),
                    records::record_view(*record),
                    wanted,
                ) == Ok::<(Seq<Seq<char>>, Coord), IsjFault>(entry@),
                Err(e) => entry_in(text::texts(header@), records::record_view(*record), wanted)
                    == Err::<(Seq<Seq<char>>, Coord), IsjFault>(e@),
            }
        }),
{
    let line = match record {
        Ok(r) => r,
        Err(cause) => {
            return Err(IsjError::Record(cause.clone()));
        },
    };
    let ghost head = text::texts(header@);
    let ghost values = text::texts(line.fields@);
    let ghost wanted = names_view(names@);
    let ghost every = all_columns(wanted);
    match find_fault(header, &line.fields, layout, Ghost(every)) {
        Some(e) => {
            return Err(IsjError::Fields(line.place, e));
        },
        None => {},
    }
    let mut fields: Vec<String> = Vec::new();
    let mut i: usize = 0;
    while i < names.len()
        invariant
            i <= names@.len(),
            names@.len() >= 2,
            head == text::texts(header@),
            values == text::texts(line.fields@),
            wanted == names_view(names@),
            every == all_columns(wanted),
            fields_fault(head, values, every) is None,
            fields@.len() == i,
            forall|k: int|
                0 <= k < i ==> field_of(head, values, wanted[k]) == Some((#[trigger] fields@[k])@),
        decreases names@.len() - i,
    {
        proof {
            assert(wanted[i as int] == names@[i as int]@);
            let k = if i < wanted.len() - 2 {
                i as int
            } else {
                i + 2
            };
            assert(every[k] == wanted[i as int]);
            lemma_no_fault(head, values, every, wanted[i as int]);
        }
        match find_field(header, &line.fields, names[i]) {
            Some(s) => {
                fields.push(s);
            },
            None => {},
        }
        i = i + 1;
    }
    proof {
        assert(text::texts(fields@) =~= fields_of(head, values, wanted));
        assert(every[wanted.len() - 2] == LATITUDE@);
        assert(every[wanted.len() - 1] == LONGITUDE@);
        lemma_no_fault(head, values, every, LATITUDE@);
        lemma_no_fault(head, values, every, LONGITUDE@);
    }
    let x = read_coordinate(header, &line.fields, LONGITUDE);
    let y = read_coordinate(header, &line.fields, LATITUDE);
    Ok(Entry { fields, point: Coord { x, y } })
}

fn read_coordinate(header: &Vec<String>, fields: &Vec<String>, name: &str) -> (x: Real)
    requires
        field_of(text::texts(header@), text::texts(fields@), name@) is Some,
        number::real_text(field_of(text::texts(header@), text::texts(fields@), name@)->0) is Ok,
    ensures
        x == coordinate_of(text::texts(header@), text::texts(fields@), name@),
{
    match find_field(header, fields, name) {
        Some(s) => match parse_real(s.as_str()) {
            Ok(x) => x,
            Err(_) => Real { bits: 0 },
        },
        None => Real { bits: 0 },
    }
}

pub open spec fn names_view(names: Seq<&'static str>) -> Seq<Seq<char>> {
    Seq::new(names.len(), |i: int| names[i]@)
}

proof fn lemma_error_stays(
    header: Seq<Seq<char>>,
    lines: Seq<Result<RecordView, Seq<char>>>,
    names: Seq<Seq<char>>,
    n: int,
)
    requires
        0 <= n <= lines.len(),
        entries_in(header, lines.take(n), names) is Err,
    ensures
        entries_in(header, lines, names) == entries_in(header, lines.take(n), names),
    decreases lines.len(),
{
    if n == lines.len() {
        assert(lines.take(n) == lines);
    } else {
        assert(lines.drop_last().take(n) == lines.take(n));
        lemma_error_stays(header, lines.drop_last(), names, n);
    }
}

/// Reads a table: the fields in these columns, and the points.
pub fn read_table(lines: &Vec<Result<Record, String>>, names: &Vec<&'static str>) -> (r: Result<
    Vec<Entry>,
    IsjError,
>)
    requires
        names@.len() >= 2,
    ensures
        match r {
            Ok(entries) => table_in(records::records_view(lines@), names_view(names@)) == Ok::<
                Seq<(Seq<Seq<char>>, Coord)>,
                IsjFault,
            >(entries_view(entries@)),
            Err(e) => table_in(records::records_view(lines@), names_view(names@)) == Err::<
                Seq<(Seq<Seq<char>>, Coord)>,
                IsjFault,
            >(e@),
        },
{
    let ghost all = records::records_view(lines@);
    let ghost wanted = names_view(names@);
    let mut entries: Vec<Entry> = Vec::new();
    assert(entries_view(entries@) =~= Seq::<(Seq<Seq<char>>, Coord)>::empty());
    if lines.len() == 0 {
        return Ok(entries);
    }
    assert(all[0] == records::record_view(lines@[0]));
    let header = match &lines[0] {
        Ok(h) => &h.fields,
        Err(cause) => {
            return Err(IsjError::Record(cause.clone()));
        },
    };
    let ghost head = text::texts(header@);
    let ghost data = all.skip(1);
    let layout = lay_out(header, &list_columns(names));
    let mut i: usize = 1;
    assert(data.take(0) == Seq::<Result<RecordView, Seq<char>>>::empty());
    while i < lines.len()
        invariant
            1 <= i <= lines@.len(),
            all == records::records_view(lines@),
            wanted == names_view(names@),
            head == text::texts(header@),
            all[0] is Ok,
            all[0]->Ok_0.fields == head,
            names@.len() >= 2,
            layout.fits(head, all_columns(wanted)),
            data == all.skip(1),
            entries_in(head, data.take(i - 1), wanted) == Ok::<
                Seq<(Seq<Seq<char>>, Coord)>,
                IsjFault,
            >(entries_view(entries@)),
        decreases lines@.len() - i,
    {
        let ghost before = entries@;
        assert(data.take(i as int).drop_last() == data.take(i - 1));
        assert(data.take(i as int).last() == records::record_view(lines@[i as int]));
        match read_entry(header, &lines[i], names, &layout) {
            Ok(entry) => {
                let ghost view = entry@;
                entries.push(entry);
                assert(entries_view(entries@) =~= entries_view(before).push(view));
            },
            Err(e) => {
                proof {
                    lemma_error_stays(head, data, wanted, i as int);
                }
                return Err(e);
            },
        }
        i = i + 1;
    }
    assert(data.take(i - 1) == data);
    Ok(entries)
}

proof fn lemma_entry_widths(
    header: Seq<Seq<char>>,
    lines: Seq<Result<RecordView, Seq<char>>>,
    names: Seq<Seq<char>>,
    i: int,
)
    requires
        entries_in(header, lines, names) is Ok,
        0 <= i < entries_in(header, lines, names)->Ok_0.len(),
    ensures
        entries_in(header, lines, names)->Ok_0[i].0.len() == names.len(),
    decreases lines.len(),
{
    if lines.len() > 0 {
        if i < entries_in(header, lines.drop_last(), names)->Ok_0.len() {
            lemma_entry_widths(header, lines.drop_last(), names, i);
        }
    }
}

/// Every entry has as many fields as there are columns.
pub proof fn lemma_widths(lines: Seq<Result<RecordView, Seq<char>>>, names: Seq<Seq<char>>)
    requires
        table_in(lines, names) is Ok,
    ensures
        forall|i: int|
            0 <= i < table_in(lines, names)->Ok_0.len() ==> (#[trigger] table_in(
                lines,
                names,
            )->Ok_0[i]).0.len() == names.len(),
{
    if lines.len() > 0 {
        assert forall|i: int| 0 <= i < table_in(lines, names)->Ok_0.len() implies (
        #[trigger] table_in(lines, names)->Ok_0[i]).0.len() == names.len() by {
            lemma_entry_widths(lines[0]->Ok_0.fields, lines.skip(1), names, i);
        }
    }
}

/// The points of entries.
pub open spec fn points_of(entries: Seq<(Seq<Seq<char>>, Coord)>) -> Seq<Coord> {
    Seq::new(entries.len(), |i: int| entries[i].1)
}

/// The bounds of the points of entries.
pub fn bounds_of_entries(entries: &Vec<Entry>) -> (b: Bounds)
    ensures
        b == geo::line_bounds(points_of(entries_view(entries@))),
{
    let ghost all = points_of(entries_view(entries@));
    let mut b = Bounds::nothing();
    let mut i: usize = 0;
    assert(all.take(0) == Seq::<Coord>::empty());
    while i < entries.len()
        invariant
            i <= entries@.len(),
            all == points_of(entries_view(entries@)),
            b == geo::line_bounds(all.take(i as int)),
        decreases entries@.len() - i,
    {
        assert(all.take(i + 1).drop_last() == all.take(i as int));
        assert(all.take(i + 1).last() == entries@[i as int].point);
        b = b.union(&Bounds::at(&entries[i].point));
        i = i + 1;
    }
    assert(all.take(i as int) == all);
    b
}

// ---------------------------------------------------------------------------
// Archives
// ---------------------------------------------------------------------------

/// Why an archive could not be read.
#[derive(Debug, PartialEq)]
pub enum IsjZipError {
    Csv(ZipEntryError),
    Xml(ZipEntryError),
    Epsg(EpsgError),
    Rows(IsjError),
}

/// The view of an [`IsjZipError`].
pub enum IsjZipFault {
    Csv(ZipEntryFault),
    Xml(ZipEntryFault),
    Epsg(EpsgFault),
    Rows(IsjFault),
}

impl View for IsjZipError {
    type V = IsjZipFault;

    open spec fn view(&self) -> IsjZipFault {
        match self {
            IsjZipError::Csv(e) => IsjZipFault::Csv(e@),
            IsjZipError::Xml(e) => IsjZipFault::Xml(e@),
            IsjZipError::Epsg(e) => IsjZipFault::Epsg(e@),
            IsjZipError::Rows(e) => IsjZipFault::Rows(e@),
        }
    }
}

impl IsjZipError {
    pub fn to_string(&self) -> (text: String)
        ensures
            text@ == (match self@ {
                IsjZipFault::Csv(e) => e.spec_text(),
                IsjZipFault::Xml(e) => e.spec_text(),
                IsjZipFault::Epsg(e) => e.spec_text(),
                IsjZipFault::Rows(e) => e.spec_text(),
            }),
    {
        match self {
            IsjZipError::Csv(e) => e.to_string(),
            IsjZipError::Xml(e) => e.to_string(),
            IsjZipError::Epsg(e) => e.to_string(),
            IsjZipError::Rows(e) => e.to_string(),
        }
    }
}

/// The table in an archive, and the reference system that its metadata names.
pub open spec fn contents_of(zip: Seq<u8>) -> Result<(Seq<char>, u32), IsjZipFault> {
    match archive::sjis_by_suffix(zip, ".csv"@) {
        Err(e) => Err(IsjZipFault::Csv(e)),
        Ok(csv) => match archive::sjis_by_suffix(zip, ".xml"@) {
            Err(e) => Err(IsjZipFault::Xml(e)),
            Ok(xml) => match metadata::epsg_in_text(xml) {
                Err(e) => Err(IsjZipFault::Epsg(e)),
                Ok(epsg) => Ok((csv, epsg)),
            },
        },
    }
}

/// Reads the table and the reference system from an archive.
pub fn read_contents(zip: &Vec<u8>) -> (r: Result<(String, u32), IsjZipError>)
    ensures
        match r {
            Ok((csv, epsg)) => contents_of(zip@) == Ok::<(Seq<char>, u32), IsjZipFault>(
                (csv@, epsg),
            ),
            Err(e) => contents_of(zip@) == Err::<(Seq<char>, u32), IsjZipFault>(e@),
        },
{
    let csv = match read_sjis_by_suffix(zip, ".csv") {
        Ok(s) => s,
        Err(e) => {
            return Err(IsjZipError::Csv(e));
        },
    };
    let xml = match read_sjis_by_suffix(zip, ".xml") {
        Ok(s) => s,
        Err(e) => {
            return Err(IsjZipError::Xml(e));
        },
    };
    match extract_epsg_from_isj_metadata_xml(xml.as_str()) {
        Ok(epsg) => Ok((csv, epsg)),
        Err(e) => Err(IsjZipError::Epsg(e)),
    }
}

/// What an archive says: its reference system and its rows.
pub open spec fn archive_in(zip: Seq<u8>, names: Seq<Seq<char>>) -> Result<
    (u32, Seq<(Seq<Seq<char>>, Coord)>),
    IsjZipFault,
> {
    match contents_of(zip) {
        Err(e) => Err(e),
        Ok((csv, epsg)) => match table_in(records::csv_records(csv), names) {
            Err(e) => Err(IsjZipFault::Rows(e)),
            Ok(rows) => Ok((epsg, rows)),
        },
    }
}

/// A row of a file: texts, in the order of its fields, and a point.
pub trait Located: View<V = (Seq<Seq<char>>, Coord)> + Sized {
    /// A copy of the text of a field.
    fn text(&self, k: usize) -> (s: String)
        requires
            k < self@.0.len(),
        ensures
            s@ == self@.0[k as int],
    ;

    fn point(&self) -> (c: Coord)
        ensures
            c == self@.1,
    ;

    /// Gives the row another point.
    fn move_to(&mut self, c: Coord)
        ensures
            final(self)@ == (old(self)@.0, c),
    ;
}

pub open spec fn rows_view<R: Located>(rows: Seq<R>) -> Seq<(Seq<Seq<char>>, Coord)> {
    Seq::new(rows.len(), |i: int| rows[i]@)
}

/// Rows were moved together: their points, and nothing else.
pub open spec fn rows_moved<R: Located, F: Fn(&Vec<Coord>) -> Option<Vec<Coord>>>(
    transform: F,
    before: Seq<R>,
    after: Seq<R>,
) -> bool {
    &&& after.len() == before.len()
    &&& forall|i: int| #![trigger after[i]] 0 <= i < after.len() ==> after[i]@.0 == before[i]@.0
    &&& before.len() > 0 ==> exists|points: Vec<Coord>|
        points@ == points_of(rows_view(before)) && #[trigger] transform::line_moved(
            transform,
            points,
            points_of(rows_view(after)),
        )
}

/// The points of rows could not be moved.
pub open spec fn rows_refused<R: Located, F: Fn(&Vec<Coord>) -> Option<Vec<Coord>>>(
    transform: F,
    rows: Seq<R>,
) -> bool {
    rows.len() > 0 && exists|points: Vec<Coord>|
        points@ == points_of(rows_view(rows)) && #[trigger] transform::refuses(transform, points)
}

/// Moves rows. `transform` is not asked where there are none.
pub fn move_rows<R: Located, F: Fn(&Vec<Coord>) -> Option<Vec<Coord>>>(
    rows: Vec<R>,
    transform: F,
) -> (r: Result<Vec<R>, TransformError>)
    requires
        transform::total(transform),
    ensures
        match r {
            Ok(moved) => rows_moved(transform, rows@, moved@),
            Err(_) => rows_refused(transform, rows@),
        },
{
    let ghost before = rows@;
    let ghost places = points_of(rows_view(before));
    let mut rows = rows;
    if rows.len() == 0 {
        return Ok(rows);
    }
    let mut points: Vec<Coord> = Vec::new();
    let mut i: usize = 0;
    while i < rows.len()
        invariant
            i <= rows@.len(),
            rows@ == before,
            places == points_of(rows_view(before)),
            points@ == places.take(i as int),
        decreases rows@.len() - i,
    {
        points.push(rows[i].point());
        i = i + 1;
        assert(places.take(i as int) == places.take(i - 1).push(places[i - 1]));
    }
    assert(places.take(i as int) == places);
    let moved = match transform_line(&points, &transform) {
        Ok(moved) => moved,
        Err(e) => {
            return Err(e);
        },
    };
    let mut k: usize = 0;
    while k < rows.len()
        invariant
            k <= rows@.len(),
            rows@.len() == before.len(),
            moved@.len() == before.len(),
            forall|j: int| #![trigger rows@[j]] 0 <= j < before.len() ==> rows@[j]@.0 == before[j]@.0,
            forall|j: int| #![trigger rows@[j]] 0 <= j < k ==> rows@[j]@.1 == moved@[j],
        decreases rows@.len() - k,
    {
        rows[k].move_to(moved[k]);
        k = k + 1;
    }
    assert(points_of(rows_view(rows@)) =~= moved@);
    Ok(rows)
}

/// The texts of one field of rows.
pub open spec fn field_texts<R: Located>(rows: Seq<R>, k: int) -> Seq<Seq<char>> {
    Seq::new(rows.len(), |i: int| rows[i]@.0[k])
}

/// The column of a file that holds one field of its rows.
pub fn text_column<R: Located>(rows: &Vec<R>, name: &str, k: usize) -> (c: Column)
    requires
        forall|i: int| 0 <= i < rows@.len() ==> k < (#[trigger] rows@[i])@.0.len(),
    ensures
        c.holds_texts(name@, field_texts(rows@, k as int)),
{
    let mut values: Vec<String> = Vec::new();
    let mut i: usize = 0;
    while i < rows.len()
        invariant
            forall|j: int| 0 <= j < rows@.len() ==> k < (#[trigger] rows@[j])@.0.len(),
            i <= rows@.len(),
            values@.len() == i,
            forall|j: int| 0 <= j < i ==> (#[trigger] values@[j])@ == rows@[j]@.0[k as int],
        decreases rows@.len() - i,
    {
        values.push(rows[i].text(k));
        i = i + 1;
    }
    assert(text::texts(values@) =~= field_texts(rows@, k as int));
    utf8_column(name, values)
}

/// The columns hold the texts of rows, in the order of a row's fields.
pub open spec fn columns_hold<R: Located>(
    columns: Seq<Column>,
    names: Seq<Seq<char>>,
    rows: Seq<R>,
) -> bool {
    &&& columns.len() == names.len()
    &&& forall|k: int|
        0 <= k < columns.len() ==> (#[trigger] columns[k]).holds_texts(
            names[k],
            field_texts(rows, k),
        )
}

/// The geometries of a file of rows.
pub open spec fn shapes_of<R: Located>(rows: Seq<R>) -> Seq<ShapeView> {
    Seq::new(rows.len(), |i: int| ShapeView::Point(rows[i]@.1))
}

/// The points of rows, as geometries.
pub fn point_shapes<R: Located>(rows: &Vec<R>) -> (shapes: Vec<Shape>)
    ensures
        geoparquet::shape_views(shapes@) == shapes_of(rows@),
{
    let mut shapes: Vec<Shape> = Vec::new();
    let mut i: usize = 0;
    while i < rows.len()
        invariant
            i <= rows@.len(),
            shapes@.len() == i,
            forall|j: int| 0 <= j < i ==> (#[trigger] shapes@[j])@ == ShapeView::Point(rows@[j]@.1),
        decreases rows@.len() - i,
    {
        shapes.push(Shape::Point(rows[i].point()));
        i = i + 1;
    }
    assert(geoparquet::shape_views(shapes@) =~= shapes_of(rows@));
    shapes
}

/// The records behind the header are read one by one, in order: all of them are
/// there where each can be read, and otherwise the first that cannot says why.
pub proof fn law_records_are_read_one_by_one(
    header: Seq<Seq<char>>,
    lines: Seq<Result<RecordView, Seq<char>>>,
    names: Seq<Seq<char>>,
)
    ensures
        entries_in(header, lines, names) is Ok <==> forall|i: int|
            #![trigger lines[i]]
            0 <= i < lines.len() ==> entry_in(header, lines[i], names) is Ok,
        entries_in(header, lines, names) is Ok ==> entries_in(header, lines, names)->Ok_0.len()
            == lines.len(),
        entries_in(header, lines, names) is Ok ==> forall|i: int|
            #![trigger lines[i]]
            0 <= i < lines.len() ==> entry_in(header, lines[i], names) == Ok::<
                (Seq<Seq<char>>, Coord),
                IsjFault,
            >(entries_in(header, lines, names)->Ok_0[i]),
        entries_in(header, lines, names) is Err ==> exists|i: int|
            #![trigger lines[i]]
            0 <= i < lines.len() && entry_in(header, lines[i], names) == Err::<
                (Seq<Seq<char>>, Coord),
                IsjFault,
            >(entries_in(header, lines, names)->Err_0) && forall|j: int|
                #![trigger lines[j]]
                0 <= j < i ==> entry_in(header, lines[j], names) is Ok,
    decreases lines.len(),
{
    if lines.len() > 0 {
        let rest = lines.drop_last();
        let last = lines.len() - 1;
        law_records_are_read_one_by_one(header, rest, names);
        assert(forall|i: int| #![trigger lines[i]] 0 <= i < last ==> lines[i] == rest[i]);
        assert(forall|i: int| #![trigger rest[i]] 0 <= i < last ==> lines[i] == rest[i]);
        assert(lines[last] == lines.last());
        if entries_in(header, rest, names) is Err {
            let i = choose|i: int|
                #![trigger rest[i]]
                0 <= i < rest.len() && entry_in(header, rest[i], names) == Err::<
                    (Seq<Seq<char>>, Coord),
                    IsjFault,
                >(entries_in(header, rest, names)->Err_0) && forall|j: int|
                    #![trigger rest[j]]
                    0 <= j < i ==> entry_in(header, rest[j], names) is Ok;
            assert(entry_in(header, lines[i], names) is Err);
            assert forall|j: int|
                #![trigger lines[j]]
                0 <= j < i implies entry_in(header, lines[j], names) is Ok by {
                assert(entry_in(header, rest[j], names) is Ok);
            }
        } else if entry_in(header, lines.last(), names) is Err {
            assert forall|j: int|
                #![trigger lines[j]]
                0 <= j < last implies entry_in(header, lines[j], names) is Ok by {
                assert(entry_in(header, rest[j], names) is Ok);
            }
        } else {
            assert forall|i: int|
                #![trigger lines[i]]
                0 <= i < lines.len() implies entry_in(header, lines[i], names) == Ok::<
                (Seq<Seq<char>>, Coord),
                IsjFault,
            >(entries_in(header, lines, names)->Ok_0[i]) by {
                if i < last {
                    assert(entry_in(header, rest[i], names) == Ok::<
                        (Seq<Seq<char>>, Coord),
                        IsjFault,
                    >(entries_in(header, rest, names)->Ok_0[i]));
                }
            }
        }
    }
}

/// The first line of a table is its header, and every other one an entry.
pub proof fn law_tables_begin_with_a_header(
    lines: Seq<Result<RecordView, Seq<char>>>,
    names: Seq<Seq<char>>,
    i: int,
)
    requires
        table_in(lines, names) is Ok,
        1 <= i < lines.len(),
    ensures
        lines[0] is Ok,
        table_in(lines, names)->Ok_0.len() == lines.len() - 1,
        entry_in(lines[0]->Ok_0.fields, lines[i], names) == Ok::<(Seq<Seq<char>>, Coord), IsjFault>(
            table_in(lines, names)->Ok_0[i - 1],
        ),
{
    law_records_are_read_one_by_one(lines[0]->Ok_0.fields, lines.skip(1), names);
    assert(lines.skip(1)[i - 1] == lines[i]);
}

proof fn lemma_wanted(names: Seq<Seq<char>>, name: Seq<char>)
    requires
        names.len() >= 2,
    ensures
        all_columns(names).contains(name) <==> names.contains(name) || name == LATITUDE@ || name
            == LONGITUDE@,
{
    let all = all_columns(names);
    let n = names.len() - 2;
    assert(all.len() == names.len() + 2);
    assert(all[n] == LATITUDE@ && all[n + 1] == LONGITUDE@);
    assert(forall|k: int| #![trigger names[k]] 0 <= k < n ==> all[k] == names[k]);
    assert(forall|k: int| #![trigger names[k]] n <= k < names.len() ==> all[k + 2] == names[k]);
    if names.contains(name) {
        let k = choose|k: int| 0 <= k < names.len() && names[k] == name;
        if k < n {
            assert(all[k] == name);
        } else {
            assert(all[k + 2] == name);
        }
    }
    if all.contains(name) {
        let k = choose|k: int| 0 <= k < all.len() && all[k] == name;
        if k < n {
            assert(names[k] == name);
        } else if k >= n + 2 {
            assert(names[k - 2] == name);
        }
    }
}

/// What an entry says under a name is what the record has in the column of that
/// name; there is such a column, and only one. The point has its longitude from
/// the column 経度 and its latitude from the column 緯度.
pub proof fn law_fields_stand_in_their_columns(
    header: Seq<Seq<char>>,
    record: RecordView,
    names: Seq<Seq<char>>,
    k: int,
    j: int,
)
    requires
        names.len() >= 2,
        entry_in(header, Ok(record), names) is Ok,
        0 <= k < names.len(),
        0 <= j < header.len(),
    ensures
        ({
            let entry = entry_in(header, Ok(record), names)->Ok_0;
            &&& entry.0.len() == names.len()
            &&& header.contains(names[k])
            &&& header[j] == names[k] ==> j < record.fields.len() && entry.0[k]
                == record.fields[j]
            &&& header.contains("経度"@) && header.contains("緯度"@)
            &&& header[j] == "経度"@ ==> j < record.fields.len() && number::real_text(
                record.fields[j],
            ) == Ok::<Real, Seq<char>>(entry.1.x)
            &&& header[j] == "緯度"@ ==> j < record.fields.len() && number::real_text(
                record.fields[j],
            ) == Ok::<Real, Seq<char>>(entry.1.y)
        }),
{
    let wanted = all_columns(names);
    assert(names.contains(names[k]));
    lemma_wanted(names, names[k]);
    lemma_wanted(names, LATITUDE@);
    lemma_wanted(names, LONGITUDE@);
    lemma_no_fault(header, record.fields, wanted, names[k]);
    lemma_no_fault(header, record.fields, wanted, LATITUDE@);
    lemma_no_fault(header, record.fields, wanted, LONGITUDE@);
    lemma_there(header, wanted, names[k]);
    lemma_there(header, wanted, LATITUDE@);
    lemma_there(header, wanted, LONGITUDE@);
    if header[j] == names[k] {
        lemma_one_column(header, record.fields, names[k], j);
    }
    if header[j] == LATITUDE@ {
        lemma_one_column(header, record.fields, LATITUDE@, j);
    }
    if header[j] == LONGITUDE@ {
        lemma_one_column(header, record.fields, LONGITUDE@, j);
    }
}

proof fn lemma_one_column(
    header: Seq<Seq<char>>,
    fields: Seq<Seq<char>>,
    name: Seq<char>,
    j: int,
)
    requires
        field_of(header, fields, name) is Some,
        0 <= j < header.len(),
        header[j] == name,
    ensures
        j < fields.len(),
        field_of(header, fields, name) == Some(fields[j]),
{
    let i = choose|i: int| stands_once(header, name, i);
    assert(stands_once(header, name, i));
    assert(j == i);
}

proof fn lemma_columns_clear(
    header: Seq<Seq<char>>,
    fields: Seq<Seq<char>>,
    wanted: Seq<Seq<char>>,
    n: int,
)
    requires
        0 <= n <= header.len(),
        forall|i: int|
            #![trigger header[i]]
            0 <= i < n ==> column_fault(header, fields, wanted, i) is None,
    ensures
        columns_fault(header, fields, wanted, n) is None,
    decreases n,
{
    if n > 0 {
        lemma_columns_clear(header, fields, wanted, n - 1);
        assert(column_fault(header, fields, wanted, n - 1) is None) by {
            let last = header[n - 1];
        }
    }
}

proof fn lemma_nothing_missing(header: Seq<Seq<char>>, wanted: Seq<Seq<char>>)
    requires
        forall|k: int| #![trigger wanted[k]] 0 <= k < wanted.len() ==> header.contains(wanted[k]),
    ensures
        first_missing(header, wanted) is None,
    decreases wanted.len(),
{
    if wanted.len() > 0 {
        let rest = wanted.drop_last();
        assert(forall|k: int| #![trigger rest[k]] 0 <= k < rest.len() ==> rest[k] == wanted[k]);
        assert(header.contains(wanted[wanted.len() - 1]));
        lemma_nothing_missing(header, rest);
    }
}

/// A record is read where the header has each column that is wanted, and the
/// coordinates, exactly once, the record has a field for each column, and the
/// coordinates are numbers. Nothing else is asked of it.
pub proof fn law_complete_records_are_read(
    header: Seq<Seq<char>>,
    record: RecordView,
    names: Seq<Seq<char>>,
)
    requires
        names.len() >= 2,
        record.fields.len() >= header.len(),
        forall|name: Seq<char>|
            #![trigger header.contains(name)]
            names.contains(name) || name == "緯度"@ || name == "経度"@ ==> header.contains(name),
        forall|i: int, j: int|
            #![trigger header[i], header[j]]
            0 <= i < j < header.len() && header[i] == header[j] ==> !names.contains(header[i])
                && header[i] != "緯度"@ && header[i] != "経度"@,
        forall|i: int|
            #![trigger header[i]]
            0 <= i < header.len() && (header[i] == "緯度"@ || header[i] == "経度"@)
                ==> number::real_text(record.fields[i]) is Ok,
    ensures
        entry_in(header, Ok(record), names) is Ok,
{
    let wanted = all_columns(names);
    assert forall|k: int| #![trigger wanted[k]] 0 <= k < wanted.len() implies header.contains(
        wanted[k],
    ) by {
        assert(wanted.contains(wanted[k]));
        lemma_wanted(names, wanted[k]);
    }
    lemma_nothing_missing(header, wanted);
    assert forall|i: int| #![trigger header[i]] 0 <= i < header.len() implies column_fault(
        header,
        record.fields,
        wanted,
        i,
    ) is None by {
        lemma_wanted(names, header[i]);
        if wanted.contains(header[i]) && header.take(i).contains(header[i]) {
            let j = choose|j: int| 0 <= j < header.take(i).len() && header.take(i)[j] == header[i];
            assert(header[j] == header[i]);
        }
    }
    lemma_columns_clear(header, record.fields, wanted, header.len() as int);
}

/// The bounds of rows hold every point, and each side is reached by one, where
/// all are finite.
pub proof fn law_extent_is_tight(entries: Seq<(Seq<Seq<char>>, Coord)>)
    requires
        entries.len() > 0,
        forall|i: int|
            #![trigger entries[i]]
            0 <= i < entries.len() ==> entries[i].1.x.finite() && entries[i].1.y.finite(),
    ensures
        geo::tight(
            geo::line_bounds(points_of(entries)),
            |c: Coord| exists|i: int| 0 <= i < entries.len() && (#[trigger] entries[i]).1 == c,
        ),
{
    let line = points_of(entries);
    let shape = ShapeView::Line(line);
    let all = |c: Coord| geo::on_shape(shape, c);
    let points = |c: Coord|
        exists|i: int| 0 <= i < entries.len() && (#[trigger] entries[i]).1 == c;
    assert forall|c: Coord| #[trigger] all(c) <==> points(c) by {
        if line.contains(c) {
            let i = choose|i: int| 0 <= i < line.len() && line[i] == c;
            assert(entries[i].1 == c);
        }
        if points(c) {
            let i = choose|i: int| 0 <= i < entries.len() && (#[trigger] entries[i]).1 == c;
            assert(line[i] == c);
        }
    }
    assert(all =~= points);
    assert forall|c: Coord| #[trigger] all(c) implies c.x.finite() && c.y.finite() by {
        assert(points(c));
    }
    assert(line[0] == entries[0].1);
    assert(line.contains(line[0]));
    geo::law_bounds_are_tight(shape, line[0]);
}

/// An archive holds one table and one file of metadata, which names the
/// reference system of the table's coordinates.
pub proof fn law_archives_hold_a_table_and_its_system(
    zip: Seq<u8>,
    names: Seq<Seq<char>>,
    csv: Seq<char>,
    xml: Seq<char>,
    epsg: u32,
)
    requires
        archive::sjis_by_suffix(zip, ".csv"@) is Ok,
        archive::sjis_by_suffix(zip, ".csv"@)->Ok_0 == csv,
        archive::sjis_by_suffix(zip, ".xml"@) is Ok,
        archive::sjis_by_suffix(zip, ".xml"@)->Ok_0 == xml,
        metadata::epsg_in_text(xml) is Ok,
        metadata::epsg_in_text(xml)->Ok_0 == epsg,
    ensures
        archive_in(zip, names) is Ok <==> table_in(records::csv_records(csv), names) is Ok,
        archive_in(zip, names) is Ok ==> archive_in(zip, names)->Ok_0.0 == epsg && archive_in(
            zip,
            names,
        )->Ok_0.1 == table_in(records::csv_records(csv), names)->Ok_0,
{
}

/// Moving rows moves the point of each, in order, and leaves their texts as they
/// were.
pub proof fn law_points_are_moved<R: Located, F: Fn(&Vec<Coord>) -> Option<Vec<Coord>>>(
    transform: F,
    g: spec_fn(Coord) -> Coord,
    before: Seq<R>,
    after: Seq<R>,
    i: int,
)
    requires
        transform::moves_by(transform, g),
        rows_moved(transform, before, after),
        0 <= i < before.len(),
    ensures
        after.len() == before.len(),
        after[i]@.0 == before[i]@.0,
        after[i]@.1 == g(before[i]@.1),
{
    let points = choose|points: Vec<Coord>|
        points@ == points_of(rows_view(before)) && #[trigger] transform::line_moved(
            transform,
            points,
            points_of(rows_view(after)),
        );
    transform::law_lines_are_moved_point_by_point(
        transform,
        g,
        points,
        points_of(rows_view(after)),
    );
    assert(points_of(rows_view(after))[i] == after[i]@.1);
    assert(points@[i] == before[i]@.1);
}

/// A record without faults of its own is refused where a column is missing, for
/// the first one in the order of the columns, with the coordinates before the
/// last two.
pub proof fn law_missing_columns_are_named(
    header: Seq<Seq<char>>,
    record: RecordView,
    names: Seq<Seq<char>>,
    k: int,
)
    requires
        names.len() >= 2,
        columns_fault(header, record.fields, all_columns(names), header.len() as int) is None,
        0 <= k < names.len(),
        !header.contains(names[k]),
        forall|j: int| #![trigger names[j]] 0 <= j < k ==> header.contains(names[j]),
        k >= names.len() - 2 ==> header.contains("緯度"@) && header.contains("経度"@),
    ensures
        entry_in(header, Ok(record), names) == Err::<(Seq<Seq<char>>, Coord), IsjFault>(
            IsjFault::Fields(record.place, FieldFault::Missing(names[k])),
        ),
{
    let wanted = all_columns(names);
    let n = names.len() - 2;
    let at = if k < n {
        k
    } else {
        k + 2
    };
    assert(wanted[at] == names[k]);
    assert forall|j: int| #![trigger wanted[j]] 0 <= j < at implies header.contains(wanted[j]) by {
        if j < n {
            assert(wanted[j] == names[j]);
        } else if j == n {
            assert(wanted[j] == LATITUDE@);
        } else if j == n + 1 {
            assert(wanted[j] == LONGITUDE@);
        } else {
            assert(wanted[j] == names[j - 2]);
        }
    }
    lemma_first_missing(header, wanted, at);
}

proof fn lemma_first_missing(header: Seq<Seq<char>>, wanted: Seq<Seq<char>>, at: int)
    requires
        0 <= at < wanted.len(),
        !header.contains(wanted[at]),
        forall|j: int| #![trigger wanted[j]] 0 <= j < at ==> header.contains(wanted[j]),
    ensures
        first_missing(header, wanted) == Some(wanted[at]),
    decreases wanted.len(),
{
    let rest = wanted.drop_last();
    assert(forall|j: int| #![trigger rest[j]] 0 <= j < rest.len() ==> rest[j] == wanted[j]);
    if at < rest.len() {
        lemma_first_missing(header, rest, at);
    } else {
        lemma_nothing_missing(header, rest);
    }
}

/// A wanted column that comes twice, a record that ends too early and a
/// coordinate that is no number are refused, the first of these in the order of
/// the columns.
pub proof fn law_the_first_column_at_fault_is_named(
    header: Seq<Seq<char>>,
    record: RecordView,
    names: Seq<Seq<char>>,
    i: int,
)
    requires
        names.len() >= 2,
        0 <= i < header.len(),
        forall|j: int|
            #![trigger header[j]]
            0 <= j < i ==> column_fault(header, record.fields, all_columns(names), j) is None,
    ensures
        (names.contains(header[i]) || header[i] == "緯度"@ || header[i] == "経度"@)
            && header.take(i).contains(header[i]) ==> entry_in(header, Ok(record), names) == Err::<
            (Seq<Seq<char>>, Coord),
            IsjFault,
        >(IsjFault::Fields(record.place, FieldFault::Repeated(header[i]))),
        !header.take(i).contains(header[i]) && i >= record.fields.len() ==> entry_in(
            header,
            Ok(record),
            names,
        ) == Err::<(Seq<Seq<char>>, Coord), IsjFault>(
            IsjFault::Fields(record.place, FieldFault::EndOfRow),
        ),
        !header.take(i).contains(header[i]) && i < record.fields.len() && (header[i] == "緯度"@
            || header[i] == "経度"@) && number::real_text(record.fields[i]) is Err ==> entry_in(
            header,
            Ok(record),
            names,
        ) == Err::<(Seq<Seq<char>>, Coord), IsjFault>(
            IsjFault::Fields(
                record.place,
                FieldFault::NotANumber(i, number::real_text(record.fields[i])->Err_0),
            ),
        ),
{
    let wanted = all_columns(names);
    lemma_wanted(names, header[i]);
    lemma_columns_clear(header, record.fields, wanted, i);
    if columns_fault(header, record.fields, wanted, i + 1) is Some {
        lemma_fault_stays(header, record.fields, wanted, i + 1, header.len() as int);
    }
}

} // verus!
