//! Population by grid square, from the statistics that the census publishes.
//!
//! The text has two header lines: the codes of its columns, which change with
//! the year and the table, and their names, by which columns are found.
use crate::archive;
use crate::archive::{read_sjis_by_suffix, ZipEntryError, ZipEntryFault};
use crate::geo::{Coord, Polygon, Shape, ShapeView};
use crate::geoparquet;
use crate::geoparquet::{
    f64_nullable_column, i32_nullable_column, table_of_shapes, utf8_column, Column, Provenance,
    Table, TableError,
};
use crate::mesh;
use crate::mesh::{bounds, GridBounds, GridPoint, MeshError};
use crate::number;
use crate::number::Real;
use crate::records;
use crate::records::{find_trimmed, read_records, Record, RecordView};
use crate::text;
use crate::text::{
    chars_of, find_cut, parse_i32, push_int, quote, quote_list, same_text, text_between, text_less,
    trim, Cut,
};
use vstd::prelude::*;

verus! {

/// The name of the column with the population.
pub const POPULATION: &'static str = "人口（総数）";

/// The name of the column with the number of households.
pub const HOUSEHOLDS: &'static str = "世帯総数";

/// The digits of the coarse squares for the view of the whole country: 1 km.
pub const COARSE_DIGITS: usize = 8;

/// One grid square.
#[derive(Debug, PartialEq)]
pub struct Row {
    /// The code of the square; its length says how fine it is.
    pub mesh_code: String,
    pub population: Option<i32>,
    pub households: Option<i32>,
    /// The highest population density that the square stands for, in people
    /// per square kilometre.
    pub density: Option<Real>,
    /// The outline of the square.
    pub geometry: Vec<GridPoint>,
}

/// What a line of the statistics says.
#[verifier::ext_equal]
pub struct RowView {
    pub mesh_code: Seq<char>,
    pub population: Option<i32>,
    pub households: Option<i32>,
}

impl View for Row {
    type V = RowView;

    open spec fn view(&self) -> RowView {
        RowView {
            mesh_code: self.mesh_code@,
            population: self.population,
            households: self.households,
        }
    }
}

impl Row {
    /// The geometry is the square of the code.
    pub open spec fn placed(self) -> bool {
        mesh::square_of(self.mesh_code@) is Ok && self.geometry@ == mesh::outline(
            mesh::square_of(self.mesh_code@)->Ok_0,
        )
    }
}

pub open spec fn rows_view(rows: Seq<Row>) -> Seq<RowView> {
    Seq::new(rows.len(), |i: int| rows[i]@)
}

/// Why the statistics could not be read.
#[derive(Debug, PartialEq)]
pub enum MeshPopError {
    NoCodes,
    /// The first line cannot be read, for that reason.
    BadCodes(String),
    /// The first column is not `KEY_CODE` but that.
    NotStatistics(Option<String>),
    NoNames,
    /// The second line cannot be read, for that reason.
    BadNames(String),
    /// There is no column of that name; these are there.
    NoColumn(String, Vec<String>),
    /// A line cannot be read, for that reason.
    BadRecord(String),
    BadCode(String, MeshError),
    NoRows,
    /// The sum for that square does not fit.
    TooLarge(String),
    /// Cutting codes changed the number of people, from the first to the second.
    PeopleChanged(i64, i128),
}

/// The view of a [`MeshPopError`].
pub enum MeshPopFault {
    NoCodes,
    BadCodes(Seq<char>),
    NotStatistics(Option<Seq<char>>),
    NoNames,
    BadNames(Seq<char>),
    NoColumn(Seq<char>, Seq<Seq<char>>),
    BadRecord(Seq<char>),
    BadCode(Seq<char>, MeshError),
    NoRows,
    TooLarge(Seq<char>),
    PeopleChanged(i64, i128),
}

impl View for MeshPopError {
    type V = MeshPopFault;

    open spec fn view(&self) -> MeshPopFault {
        match self {
            MeshPopError::NoCodes => MeshPopFault::NoCodes,
            MeshPopError::BadCodes(cause) => MeshPopFault::BadCodes(cause@),
            MeshPopError::NotStatistics(first) => MeshPopFault::NotStatistics(
                text::optional_view(*first),
            ),
            MeshPopError::NoNames => MeshPopFault::NoNames,
            MeshPopError::BadNames(cause) => MeshPopFault::BadNames(cause@),
            MeshPopError::NoColumn(wanted, there) => MeshPopFault::NoColumn(
                wanted@,
                text::texts(there@),
            ),
            MeshPopError::BadRecord(cause) => MeshPopFault::BadRecord(cause@),
            MeshPopError::BadCode(code, e) => MeshPopFault::BadCode(code@, *e),
            MeshPopError::NoRows => MeshPopFault::NoRows,
            MeshPopError::TooLarge(code) => MeshPopFault::TooLarge(code@),
            MeshPopError::PeopleChanged(before, after) => MeshPopFault::PeopleChanged(
                *before,
                *after,
            ),
        }
    }
}

/// How `Debug` shows a field that may be missing.
pub open spec fn shown_field(field: Option<Seq<char>>) -> Seq<char> {
    match field {
        Some(f) => "Some("@ + text::quoted(f) + ")"@,
        None => "None"@,
    }
}

fn show_field(field: &Option<String>) -> (shown: String)
    ensures
        shown@ == shown_field(text::optional_view(*field)),
{
    match field {
        Some(f) => {
            let mut shown = "Some(".to_string();
            shown.append(quote(f.as_str()).as_str());
            shown.append(")");
            shown
        },
        None => "None".to_string(),
    }
}

impl MeshPopFault {
    pub open spec fn spec_text(self) -> Seq<char> {
        match self {
            MeshPopFault::NoCodes => "1行目 (項目コード) がありません"@,
            MeshPopFault::BadCodes(cause) => "1行目を読めません: "@ + cause,
            MeshPopFault::NotStatistics(first) => "1列目が KEY_CODE ではありません: "@
                + shown_field(first)
                + " (統計データではなく境界データを落としていませんか)"@,
            MeshPopFault::NoNames => "2行目 (項目名) がありません"@,
            MeshPopFault::BadNames(cause) => "2行目を読めません: "@ + cause,
            MeshPopFault::NoColumn(wanted, there) => "項目「"@ + wanted
                + "」がありません。この統計表にあるのは: "@ + text::quoted_list(there),
            MeshPopFault::BadRecord(cause) => "行を読めません: "@ + cause,
            MeshPopFault::BadCode(code, e) => "メッシュコードを解釈できません: "@ + code + ": "@
                + e.spec_text(code),
            MeshPopFault::NoRows => "データ行がありません"@,
            MeshPopFault::TooLarge(_) => "out of range integral type conversion attempted"@,
            MeshPopFault::PeopleChanged(before, after) => "1kmに束ねたら人口が変わりました: "@
                + text::int_text(before as int) + " → "@ + text::int_text(after as int),
        }
    }
}

impl MeshPopError {
    pub fn to_string(&self) -> (text: String)
        ensures
            text@ == self@.spec_text(),
    {
        let mut text = String::new();
        match self {
            MeshPopError::NoCodes => {
                text.append("1行目 (項目コード) がありません");
            },
            MeshPopError::BadCodes(cause) => {
                text.append("1行目を読めません: ");
                text.append(cause.as_str());
            },
            MeshPopError::NotStatistics(first) => {
                text.append("1列目が KEY_CODE ではありません: ");
                text.append(show_field(first).as_str());
                text.append(" (統計データではなく境界データを落としていませんか)");
            },
            MeshPopError::NoNames => {
                text.append("2行目 (項目名) がありません");
            },
            MeshPopError::BadNames(cause) => {
                text.append("2行目を読めません: ");
                text.append(cause.as_str());
            },
            MeshPopError::NoColumn(wanted, there) => {
                text.append("項目「");
                text.append(wanted.as_str());
                text.append("」がありません。この統計表にあるのは: ");
                text.append(quote_list(there).as_str());
            },
            MeshPopError::BadRecord(cause) => {
                text.append("行を読めません: ");
                text.append(cause.as_str());
            },
            MeshPopError::BadCode(code, e) => {
                text.append("メッシュコードを解釈できません: ");
                text.append(code.as_str());
                text.append(": ");
                text.append(e.to_text(code.as_str()).as_str());
            },
            MeshPopError::NoRows => {
                text.append("データ行がありません");
            },
            MeshPopError::TooLarge(_) => {
                text.append("out of range integral type conversion attempted");
            },
            MeshPopError::PeopleChanged(before, after) => {
                text.append("1kmに束ねたら人口が変わりました: ");
                push_int(&mut text, *before as i128);
                text.append(" → ");
                push_int(&mut text, *after);
            },
        }
        text
    }
}

// ---------------------------------------------------------------------------
// Reading
// ---------------------------------------------------------------------------

/// The fields that are not blank, without the space around them.
pub open spec fn names_in(record: Seq<Seq<char>>) -> Seq<Seq<char>>
    decreases record.len(),
{
    if record.len() == 0 {
        Seq::empty()
    } else {
        let name = text::trimmed(record.last());
        if name.len() > 0 {
            names_in(record.drop_last()).push(name)
        } else {
            names_in(record.drop_last())
        }
    }
}

/// The number in a field; nothing where it is withheld, absent or blank.
pub open spec fn number_in(field: Option<Seq<char>>) -> Option<i32> {
    match field {
        Some(f) => match text::parsed_int(text::trimmed(f), true) {
            Some(n) => if i32::MIN <= n <= i32::MAX {
                Some(n as i32)
            } else {
                None
            },
            None => None,
        },
        None => None,
    }
}

/// The code in the first field.
pub open spec fn code_in(record: Seq<Seq<char>>) -> Seq<char> {
    if record.len() > 0 {
        text::trimmed(record[0])
    } else {
        Seq::empty()
    }
}

/// What one record says; a record without a code says nothing.
pub open spec fn row_in(
    record: Result<RecordView, Seq<char>>,
    population_at: int,
    households_at: int,
) -> Result<Option<RowView>, MeshPopFault> {
    match record {
        Err(cause) => Err(MeshPopFault::BadRecord(cause)),
        Ok(record) => {
            let fields = record.fields;
            let code = code_in(fields);
            if code.len() == 0 {
                Ok(None)
            } else {
                match mesh::square_of(code) {
                    Err(e) => Err(MeshPopFault::BadCode(code, e)),
                    Ok(_) => Ok(
                        Some(
                            RowView {
                                mesh_code: code,
                                population: number_in(records::field(fields, population_at)),
                                households: number_in(records::field(fields, households_at)),
                            },
                        ),
                    ),
                }
            }
        },
    }
}

/// What records say, up to the first that cannot be read.
pub open spec fn rows_in(
    lines: Seq<Result<RecordView, Seq<char>>>,
    population_at: int,
    households_at: int,
) -> Result<Seq<RowView>, MeshPopFault>
    decreases lines.len(),
{
    if lines.len() == 0 {
        Ok(Seq::empty())
    } else {
        match rows_in(lines.drop_last(), population_at, households_at) {
            Err(e) => Err(e),
            Ok(rows) => match row_in(lines.last(), population_at, households_at) {
                Err(e) => Err(e),
                Ok(None) => Ok(rows),
                Ok(Some(row)) => Ok(rows.push(row)),
            },
        }
    }
}

/// What the two header lines say: where population and households stand.
pub open spec fn header_in(lines: Seq<Result<RecordView, Seq<char>>>) -> Result<
    (int, int),
    MeshPopFault,
> {
    if lines.len() == 0 {
        Err(MeshPopFault::NoCodes)
    } else if lines[0] is Err {
        Err(MeshPopFault::BadCodes(lines[0]->Err_0))
    } else if lines[0]->Ok_0.fields.len() == 0 || text::trimmed(lines[0]->Ok_0.fields[0])
        != "KEY_CODE"@ {
        Err(MeshPopFault::NotStatistics(records::field(lines[0]->Ok_0.fields, 0)))
    } else if lines.len() == 1 {
        Err(MeshPopFault::NoNames)
    } else if lines[1] is Err {
        Err(MeshPopFault::BadNames(lines[1]->Err_0))
    } else {
        let names = lines[1]->Ok_0.fields;
        match records::position_of(names, POPULATION@) {
            None => Err(MeshPopFault::NoColumn(POPULATION@, names_in(names))),
            Some(p) => match records::position_of(names, HOUSEHOLDS@) {
                None => Err(MeshPopFault::NoColumn(HOUSEHOLDS@, names_in(names))),
                Some(h) => Ok((p, h)),
            },
        }
    }
}

/// What the statistics say.
pub open spec fn statistics_in(lines: Seq<Result<RecordView, Seq<char>>>) -> Result<
    Seq<RowView>,
    MeshPopFault,
> {
    match header_in(lines) {
        Err(e) => Err(e),
        Ok((p, h)) => match rows_in(lines.skip(2), p, h) {
            Err(e) => Err(e),
            Ok(rows) => if rows.len() == 0 {
                Err(MeshPopFault::NoRows)
            } else {
                Ok(rows)
            },
        },
    }
}

fn available_names(record: &Vec<String>) -> (names: Vec<String>)
    ensures
        text::texts(names@) == names_in(text::texts(record@)),
{
    let ghost all = text::texts(record@);
    let mut names: Vec<String> = Vec::new();
    let mut i: usize = 0;
    assert(all.take(0) == Seq::<Seq<char>>::empty());
    assert(text::texts(names@) =~= names_in(all.take(0)));
    while i < record.len()
        invariant
            i <= record@.len(),
            all == text::texts(record@),
            text::texts(names@) == names_in(all.take(i as int)),
        decreases record@.len() - i,
    {
        let ghost before = text::texts(names@);
        assert(all.take(i + 1).drop_last() == all.take(i as int));
        assert(all.take(i + 1).last() == record@[i as int]@);
        let name = trim(record[i].as_str());
        let ghost name_view = name@;
        if !name.as_str().is_empty() {
            names.push(name);
            assert(text::texts(names@) =~= before.push(name_view));
        }
        i = i + 1;
    }
    assert(all.take(i as int) == all);
    names
}

/// Finds a column by its name.
fn column_index(names: &Vec<String>, wanted: &str) -> (r: Result<usize, MeshPopError>)
    ensures
        match r {
            Ok(i) => i < names@.len() && records::position_of(text::texts(names@), wanted@)
                == Some(i as int),
            Err(e) => records::position_of(text::texts(names@), wanted@) is None && e@
                == MeshPopFault::NoColumn(wanted@, names_in(text::texts(names@))),
        },
{
    match find_trimmed(names, wanted) {
        Some(i) => Ok(i),
        None => Err(MeshPopError::NoColumn(wanted.to_string(), available_names(names))),
    }
}

/// Reads a number from a record.
fn number(record: &Vec<String>, at: usize) -> (n: Option<i32>)
    ensures
        n == number_in(records::field(text::texts(record@), at as int)),
{
    if at < record.len() {
        assert(text::texts(record@)[at as int] == record@[at as int]@);
        parse_i32(trim(record[at].as_str()).as_str())
    } else {
        None
    }
}

proof fn lemma_error_stays(
    lines: Seq<Result<RecordView, Seq<char>>>,
    n: int,
    population_at: int,
    households_at: int,
)
    requires
        0 <= n <= lines.len(),
        rows_in(lines.take(n), population_at, households_at) is Err,
    ensures
        rows_in(lines, population_at, households_at) == rows_in(
            lines.take(n),
            population_at,
            households_at,
        ),
    decreases lines.len(),
{
    if n == lines.len() {
        assert(lines.take(n) == lines);
    } else {
        assert(lines.drop_last().take(n) == lines.take(n));
        lemma_error_stays(lines.drop_last(), n, population_at, households_at);
    }
}

/// The density of a row is what `density_of` gives for its square and population.
pub open spec fn density_from<F: Fn(GridBounds, i32) -> Real>(density_of: F, row: Row) -> bool {
    match row.population {
        Some(p) => row.density is Some && call_ensures(
            density_of,
            (mesh::square_of(row.mesh_code@)->Ok_0, p),
            row.density->0,
        ),
        None => row.density is None,
    }
}

/// Reads the statistics from records. `density_of` computes the density of a
/// square with so many people.
pub fn parse_records<F: Fn(GridBounds, i32) -> Real>(
    lines: &Vec<Result<Record, String>>,
    density_of: F,
) -> (r: Result<Vec<Row>, MeshPopError>)
    requires
        forall|b: GridBounds, p: i32| #[trigger] call_requires(density_of, (b, p)),
    ensures
        match r {
            Ok(rows) => {
                &&& statistics_in(records::records_view(lines@)) == Ok::<
                    Seq<RowView>,
                    MeshPopFault,
                >(rows_view(rows@))
                &&& forall|i: int| 0 <= i < rows@.len() ==> (#[trigger] rows@[i]).placed()
                &&& forall|i: int|
                    0 <= i < rows@.len() ==> density_from(density_of, #[trigger] rows@[i])
            },
            Err(e) => statistics_in(records::records_view(lines@)) == Err::<
                Seq<RowView>,
                MeshPopFault,
            >(e@),
        },
{
    let ghost all = records::records_view(lines@);
    if lines.len() == 0 {
        return Err(MeshPopError::NoCodes);
    }
    assert(all[0] == records::record_view(lines@[0]));
    match &lines[0] {
        Ok(record) => {
            let codes = &record.fields;
            assert(codes@.len() > 0 ==> text::texts(codes@)[0] == codes@[0]@);
            if codes.len() == 0 || !same_text(trim(codes[0].as_str()).as_str(), "KEY_CODE") {
                let first: Option<String> = if codes.len() == 0 {
                    None
                } else {
                    Some(codes[0].clone())
                };
                return Err(MeshPopError::NotStatistics(first));
            }
        },
        Err(cause) => {
            return Err(MeshPopError::BadCodes(cause.clone()));
        },
    }
    if lines.len() == 1 {
        return Err(MeshPopError::NoNames);
    }
    assert(all[1] == records::record_view(lines@[1]));
    let names = match &lines[1] {
        Ok(record) => &record.fields,
        Err(cause) => {
            return Err(MeshPopError::BadNames(cause.clone()));
        },
    };
    let population_at: usize = match column_index(names, POPULATION) {
        Ok(i) => i,
        Err(e) => {
            return Err(e);
        },
    };
    let households_at: usize = match column_index(names, HOUSEHOLDS) {
        Ok(i) => i,
        Err(e) => {
            return Err(e);
        },
    };
    let ghost data = all.skip(2);
    let ghost p = population_at as int;
    let ghost h = households_at as int;
    let mut rows: Vec<Row> = Vec::new();
    let mut i: usize = 2;
    assert(data.take(0) == Seq::<Result<RecordView, Seq<char>>>::empty());
    assert(rows_view(rows@) =~= Seq::<RowView>::empty());
    while i < lines.len()
        invariant
            2 <= i <= lines@.len(),
            all == records::records_view(lines@),
            data == all.skip(2),
            p == population_at,
            h == households_at,
            header_in(all) == Ok::<(int, int), MeshPopFault>((p, h)),
            forall|b: GridBounds, n: i32| #[trigger] call_requires(density_of, (b, n)),
            rows_in(data.take(i - 2), p, h) == Ok::<Seq<RowView>, MeshPopFault>(rows_view(rows@)),
            forall|k: int| 0 <= k < rows@.len() ==> (#[trigger] rows@[k]).placed(),
            forall|k: int|
                0 <= k < rows@.len() ==> density_from(density_of, #[trigger] rows@[k]),
        decreases lines@.len() - i,
    {
        let ghost before = rows@;
        proof {
            assert(data.take(i - 1).drop_last() == data.take(i - 2));
            assert(data.take(i - 1).last() == records::record_view(lines@[i as int]));
        }
        let record = match &lines[i] {
            Ok(record) => &record.fields,
            Err(cause) => {
                proof {
                    lemma_error_stays(data, i - 1, p, h);
                }
                return Err(MeshPopError::BadRecord(cause.clone()));
            },
        };
        let code = if record.len() > 0 {
            assert(text::texts(record@)[0] == record@[0]@);
            trim(record[0].as_str())
        } else {
            String::new()
        };
        assert(code@ =~= code_in(text::texts(record@)));
        if !code.as_str().is_empty() {
            let square = match bounds(code.as_str()) {
                Ok(b) => b,
                Err(e) => {
                    proof {
                        lemma_error_stays(data, i - 1, p, h);
                    }
                    return Err(MeshPopError::BadCode(code, e));
                },
            };
            let geometry = match mesh::polygon(code.as_str()) {
                Ok(ring) => ring,
                Err(e) => {
                    return Err(MeshPopError::BadCode(code, e));
                },
            };
            let population: Option<i32> = number(record, population_at);
            let households: Option<i32> = number(record, households_at);
            let density: Option<Real> = match population {
                Some(n) => Some(density_of(square, n)),
                None => None,
            };
            let row = Row { mesh_code: code, population, households, density, geometry };
            let ghost row_view = row@;
            rows.push(row);
            proof {
                assert(rows_view(rows@) =~= rows_view(before).push(row_view));
                assert forall|k: int| 0 <= k < rows@.len() implies (#[trigger] rows@[k]).placed() by {
                    if k < before.len() {
                        assert(rows@[k] == before[k]);
                    }
                }
                assert forall|k: int| 0 <= k < rows@.len() implies density_from(
                    density_of,
                    #[trigger] rows@[k],
                ) by {
                    if k < before.len() {
                        assert(rows@[k] == before[k]);
                    }
                }
            }
        }
        i = i + 1;
    }
    assert(data.take(i - 2) == data);
    if rows.len() == 0 {
        return Err(MeshPopError::NoRows);
    }
    Ok(rows)
}

/// Reads the statistics from their text.
pub fn parse_csv<F: Fn(GridBounds, i32) -> Real>(csv_text: &str, density_of: F) -> (r: Result<
    Vec<Row>,
    MeshPopError,
>)
    requires
        forall|b: GridBounds, p: i32| #[trigger] call_requires(density_of, (b, p)),
    ensures
        match r {
            Ok(rows) => {
                &&& statistics_in(records::csv_records(csv_text@)) == Ok::<
                    Seq<RowView>,
                    MeshPopFault,
                >(rows_view(rows@))
                &&& forall|i: int| 0 <= i < rows@.len() ==> (#[trigger] rows@[i]).placed()
                &&& forall|i: int|
                    0 <= i < rows@.len() ==> density_from(density_of, #[trigger] rows@[i])
            },
            Err(e) => statistics_in(records::csv_records(csv_text@)) == Err::<
                Seq<RowView>,
                MeshPopFault,
            >(e@),
        },
{
    let lines = read_records(csv_text);
    parse_records(&lines, density_of)
}

/// Why an archive of statistics could not be read.
#[derive(Debug, PartialEq)]
pub enum MeshPopZipError {
    Entry(ZipEntryError),
    Rows(MeshPopError),
}

/// The view of a [`MeshPopZipError`].
pub enum MeshPopZipFault {
    Entry(ZipEntryFault),
    Rows(MeshPopFault),
}

impl View for MeshPopZipError {
    type V = MeshPopZipFault;

    open spec fn view(&self) -> MeshPopZipFault {
        match self {
            MeshPopZipError::Entry(e) => MeshPopZipFault::Entry(e@),
            MeshPopZipError::Rows(e) => MeshPopZipFault::Rows(e@),
        }
    }
}

impl MeshPopZipError {
    pub fn to_string(&self) -> (text: String)
        ensures
            text@ == (match self@ {
                MeshPopZipFault::Entry(e) => e.spec_text(),
                MeshPopZipFault::Rows(e) => e.spec_text(),
            }),
    {
        match self {
            MeshPopZipError::Entry(e) => e.to_string(),
            MeshPopZipError::Rows(e) => e.to_string(),
        }
    }
}

/// What an archive of statistics says.
pub open spec fn archive_in(zip: Seq<u8>) -> Result<Seq<RowView>, MeshPopZipFault> {
    match archive::sjis_by_suffix(zip, ".txt"@) {
        Err(e) => Err(MeshPopZipFault::Entry(e)),
        Ok(text) => match statistics_in(records::csv_records(text)) {
            Err(e) => Err(MeshPopZipFault::Rows(e)),
            Ok(rows) => Ok(rows),
        },
    }
}

/// Reads the statistics from a distributed archive, which holds one text.
pub fn parse_zip<F: Fn(GridBounds, i32) -> Real>(zip: &Vec<u8>, density_of: F) -> (r: Result<
    Vec<Row>,
    MeshPopZipError,
>)
    requires
        forall|b: GridBounds, p: i32| #[trigger] call_requires(density_of, (b, p)),
    ensures
        match r {
            Ok(rows) => {
                &&& archive_in(zip@) == Ok::<Seq<RowView>, MeshPopZipFault>(rows_view(rows@))
                &&& forall|i: int| 0 <= i < rows@.len() ==> (#[trigger] rows@[i]).placed()
                &&& forall|i: int|
                    0 <= i < rows@.len() ==> density_from(density_of, #[trigger] rows@[i])
            },
            Err(e) => archive_in(zip@) == Err::<Seq<RowView>, MeshPopZipFault>(e@),
        },
{
    match read_sjis_by_suffix(zip, ".txt") {
        Ok(text) => match parse_csv(text.as_str(), density_of) {
            Ok(rows) => Ok(rows),
            Err(e) => Err(MeshPopZipError::Rows(e)),
        },
        Err(e) => Err(MeshPopZipError::Entry(e)),
    }
}

// ---------------------------------------------------------------------------
// Coarser squares
// ---------------------------------------------------------------------------

/// The sums over the rows in a coarse square, and their highest density.
#[derive(Debug, Clone, Copy, PartialEq, Eq, Structural)]
pub struct Cell {
    pub population: Option<i64>,
    pub households: Option<i64>,
    pub density: Option<Real>,
}

/// The view of a [`Cell`]: sums have no limit.
#[verifier::ext_equal]
pub struct CellView {
    pub population: Option<int>,
    pub households: Option<int>,
    pub density: Option<Real>,
}

pub open spec fn sum_view(sum: Option<i64>) -> Option<int> {
    match sum {
        Some(s) => Some(s as int),
        None => None,
    }
}

impl View for Cell {
    type V = CellView;

    open spec fn view(&self) -> CellView {
        CellView {
            population: sum_view(self.population),
            households: sum_view(self.households),
            density: self.density,
        }
    }
}

pub open spec fn cells_view(cells: Seq<Cell>) -> Seq<CellView> {
    Seq::new(cells.len(), |i: int| cells[i]@)
}

impl CellView {
    pub open spec fn empty() -> CellView {
        CellView { population: None, households: None, density: None }
    }

    /// The cell with one more row in it.
    pub open spec fn with_row(self, row: Row) -> CellView {
        CellView {
            population: add_number(self.population, row.population),
            households: add_number(self.households, row.households),
            density: match row.density {
                Some(d) => Some(
                    match self.density {
                        Some(held) => held.spec_max(d),
                        None => d,
                    },
                ),
                None => self.density,
            },
        }
    }

    /// The sums fit into a [`Cell`].
    pub open spec fn fits(self) -> bool {
        fits_i64(sum_value(self.population)) && fits_i64(sum_value(self.households))
    }

    /// The sums are those of `n` numbers at most.
    pub open spec fn within(self, n: int) -> bool {
        &&& -0x8000_0000 * n <= sum_value(self.population) <= 0x8000_0000 * n
        &&& -0x8000_0000 * n <= sum_value(self.households) <= 0x8000_0000 * n
    }
}

pub open spec fn fits_i64(n: int) -> bool {
    i64::MIN <= n <= i64::MAX
}

pub open spec fn add_number(sum: Option<int>, n: Option<i32>) -> Option<int> {
    match n {
        Some(n) => Some(sum_value(sum) + n),
        None => sum,
    }
}

/// A sum as a number; zero where nothing was added.
pub open spec fn sum_value(sum: Option<int>) -> int {
    match sum {
        Some(s) => s,
        None => 0,
    }
}

/// Coarse squares by code, in the order of their codes.
pub struct Cells {
    codes: Vec<String>,
    cells: Vec<Cell>,
}

/// Cells with their codes, as a map.
pub open spec fn cell_map(codes: Seq<Seq<char>>, cells: Seq<CellView>) -> Map<Seq<char>, CellView>
    decreases codes.len(),
{
    if codes.len() == 0 {
        Map::empty()
    } else {
        cell_map(codes.drop_last(), cells.drop_last()).insert(codes.last(), cells.last())
    }
}

/// The people in all cells.
pub open spec fn cells_total(cells: Seq<CellView>) -> int
    decreases cells.len(),
{
    if cells.len() == 0 {
        0
    } else {
        cells_total(cells.drop_last()) + sum_value(cells.last().population)
    }
}

pub open spec fn codes_rising(codes: Seq<Seq<char>>) -> bool {
    forall|i: int, j: int|
        0 <= i < j < codes.len() ==> text::lex_less(#[trigger] codes[i], #[trigger] codes[j])
}

impl Cells {
    pub closed spec fn codes(self) -> Seq<Seq<char>> {
        text::texts(self.codes@)
    }

    pub closed spec fn cells(self) -> Seq<CellView> {
        cells_view(self.cells@)
    }

    pub open spec fn wf(self) -> bool {
        &&& self.codes().len() == self.cells().len()
        &&& codes_rising(self.codes())
    }

    /// The cells by code.
    pub open spec fn map(self) -> Map<Seq<char>, CellView> {
        cell_map(self.codes(), self.cells())
    }

    /// The people in all cells.
    pub open spec fn total(self) -> int {
        cells_total(self.cells())
    }

    pub fn new() -> (c: Cells)
        ensures
            c.wf(),
            c.map() == Map::<Seq<char>, CellView>::empty(),
            c.total() == 0,
    {
        Cells { codes: Vec::new(), cells: Vec::new() }
    }

    /// The place of a code: where it stands, or where it would go.
    fn locate(&self, code: &str) -> (r: (bool, usize))
        requires
            self.wf(),
        ensures
            r.1 <= self.codes().len(),
            forall|k: int|
                0 <= k < r.1 ==> text::lex_less(#[trigger] self.codes()[k], code@),
            r.0 ==> r.1 < self.codes().len() && self.codes()[r.1 as int] == code@,
            !r.0 ==> forall|k: int|
                r.1 <= k < self.codes().len() ==> text::lex_less(
                    code@,
                    #[trigger] self.codes()[k],
                ),
    {
        let mut low: usize = 0;
        let mut high: usize = self.codes.len();
        while low < high
            invariant
                self.wf(),
                low <= high <= self.codes().len(),
                self.codes().len() == self.codes@.len(),
                forall|k: int| 0 <= k < low ==> text::lex_less(#[trigger] self.codes()[k], code@),
                forall|k: int|
                    high <= k < self.codes().len() ==> !text::lex_less(
                        #[trigger] self.codes()[k],
                        code@,
                    ),
            decreases high - low,
        {
            let mid: usize = low + (high - low) / 2;
            assert(self.codes()[mid as int] == self.codes@[mid as int]@);
            if text_less(self.codes[mid].as_str(), code) {
                proof {
                    assert forall|k: int| 0 <= k < mid + 1 implies text::lex_less(
                        #[trigger] self.codes()[k],
                        code@,
                    ) by {
                        if k < mid {
                            assert(text::lex_less(self.codes()[k], self.codes()[mid as int]));
                            text::lemma_lex_transitive(
                                self.codes()[k],
                                self.codes()[mid as int],
                                code@,
                            );
                        }
                    }
                }
                low = mid + 1;
            } else {
                proof {
                    assert forall|k: int| mid <= k < self.codes().len() implies !text::lex_less(
                        #[trigger] self.codes()[k],
                        code@,
                    ) by {
                        if k > mid && text::lex_less(self.codes()[k], code@) {
                            assert(text::lex_less(self.codes()[mid as int], self.codes()[k]));
                            text::lemma_lex_transitive(
                                self.codes()[mid as int],
                                self.codes()[k],
                                code@,
                            );
                        }
                    }
                }
                high = mid;
            }
        }
        if low < self.codes.len() && same_text(self.codes[low].as_str(), code) {
            assert(self.codes()[low as int] == code@);
            (true, low)
        } else {
            proof {
                assert forall|k: int| low <= k < self.codes().len() implies text::lex_less(
                    code@,
                    #[trigger] self.codes()[k],
                ) by {
                    assert(self.codes()[low as int] == self.codes@[low as int]@);
                    text::lemma_lex_total(self.codes()[low as int], code@);
                    if k > low {
                        assert(text::lex_less(self.codes()[low as int], self.codes()[k]));
                        text::lemma_lex_transitive(
                            code@,
                            self.codes()[low as int],
                            self.codes()[k],
                        );
                    }
                }
            }
            (false, low)
        }
    }

    /// Adds a row to the cell with that code.
    fn add_row(&mut self, code: String, row: &Row)
        requires
            old(self).wf(),
            held_cell(old(self).map(), code@).with_row(*row).fits(),
        ensures
            final(self).wf(),
            final(self).map() == old(self).map().insert(
                code@,
                held_cell(old(self).map(), code@).with_row(*row),
            ),
            final(self).total() == old(self).total() + row_people(*row),
    {
        let ghost codes = self.codes();
        let ghost cells = self.cells();
        let (found, at) = self.locate(code.as_str());
        let held: Cell = if found {
            self.cells[at]
        } else {
            Cell { population: None, households: None, density: None }
        };
        proof {
            if found {
                lemma_cell_lookup(codes, cells, at as int);
            } else {
                assert forall|k: int| 0 <= k < codes.len() implies #[trigger] codes[k]
                    != code@ by {
                    text::lemma_lex_irreflexive(code@);
                }
                lemma_cell_absent(codes, cells, code@);
            }
            assert(held@ == held_cell(self.map(), code@));
        }
        let population: Option<i64> = match row.population {
            Some(p) => Some(
                (match held.population {
                    Some(s) => s,
                    None => 0,
                }) + p as i64,
            ),
            None => held.population,
        };
        let households: Option<i64> = match row.households {
            Some(p) => Some(
                (match held.households {
                    Some(s) => s,
                    None => 0,
                }) + p as i64,
            ),
            None => held.households,
        };
        let density: Option<Real> = match row.density {
            Some(d) => Some(
                match held.density {
                    Some(h) => h.max(&d),
                    None => d,
                },
            ),
            None => held.density,
        };
        let cell = Cell { population, households, density };
        assert(cell@ == held@.with_row(*row));
        let ghost code_view = code@;
        if found {
            self.cells.set(at, cell);
            proof {
                lemma_cell_update(codes, cells, at as int, cell@);
                lemma_total_update(cells, at as int, cell@);
                assert(self.cells() =~= cells.update(at as int, cell@));
            }
        } else {
            self.codes.insert(at, code);
            self.cells.insert(at, cell);
            proof {
                assert(self.codes() =~= codes.insert(at as int, code_view));
                assert(self.cells() =~= cells.insert(at as int, cell@));
                lemma_cell_insert(codes, cells, at as int, code_view, cell@);
                lemma_total_insert(cells, at as int, cell@);
                lemma_rising_insert(codes, at as int, code_view);
            }
        }
    }
}

/// The cell that a code has, or an empty one.
pub open spec fn held_cell(m: Map<Seq<char>, CellView>, code: Seq<char>) -> CellView {
    if m.contains_key(code) {
        m[code]
    } else {
        CellView::empty()
    }
}

pub open spec fn row_people(row: Row) -> int {
    match row.population {
        Some(p) => p as int,
        None => 0,
    }
}

proof fn lemma_cell_lookup(codes: Seq<Seq<char>>, cells: Seq<CellView>, i: int)
    requires
        codes_rising(codes),
        codes.len() == cells.len(),
        0 <= i < codes.len(),
    ensures
        cell_map(codes, cells).contains_key(codes[i]),
        cell_map(codes, cells)[codes[i]] == cells[i],
    decreases codes.len(),
{
    if i < codes.len() - 1 {
        let c = codes.drop_last();
        assert forall|a: int, b: int| 0 <= a < b < c.len() implies text::lex_less(
            #[trigger] c[a],
            #[trigger] c[b],
        ) by {
            assert(c[a] == codes[a] && c[b] == codes[b]);
        }
        lemma_cell_lookup(c, cells.drop_last(), i);
        assert(text::lex_less(codes[i], codes[codes.len() - 1]));
        text::lemma_lex_irreflexive(codes[i]);
    }
}

proof fn lemma_cell_absent(codes: Seq<Seq<char>>, cells: Seq<CellView>, code: Seq<char>)
    requires
        codes.len() == cells.len(),
        forall|k: int| 0 <= k < codes.len() ==> #[trigger] codes[k] != code,
    ensures
        !cell_map(codes, cells).contains_key(code),
    decreases codes.len(),
{
    if codes.len() > 0 {
        let c = codes.drop_last();
        assert forall|k: int| 0 <= k < c.len() implies #[trigger] c[k] != code by {
            assert(c[k] == codes[k]);
        }
        lemma_cell_absent(c, cells.drop_last(), code);
        assert(codes[codes.len() - 1] != code);
    }
}

proof fn lemma_cell_update(codes: Seq<Seq<char>>, cells: Seq<CellView>, i: int, cell: CellView)
    requires
        codes_rising(codes),
        codes.len() == cells.len(),
        0 <= i < codes.len(),
    ensures
        cell_map(codes, cells.update(i, cell)) == cell_map(codes, cells).insert(codes[i], cell),
    decreases codes.len(),
{
    let updated = cells.update(i, cell);
    if i == codes.len() - 1 {
        assert(updated.drop_last() =~= cells.drop_last());
        assert(cell_map(codes, updated) =~= cell_map(codes, cells).insert(codes[i], cell));
    } else {
        let c = codes.drop_last();
        assert forall|a: int, b: int| 0 <= a < b < c.len() implies text::lex_less(
            #[trigger] c[a],
            #[trigger] c[b],
        ) by {
            assert(c[a] == codes[a] && c[b] == codes[b]);
        }
        lemma_cell_update(c, cells.drop_last(), i, cell);
        assert(updated.drop_last() =~= cells.drop_last().update(i, cell));
        assert(text::lex_less(codes[i], codes[codes.len() - 1]));
        text::lemma_lex_irreflexive(codes[i]);
        assert(cell_map(codes, updated) =~= cell_map(codes, cells).insert(codes[i], cell));
    }
}

proof fn lemma_cell_insert(
    codes: Seq<Seq<char>>,
    cells: Seq<CellView>,
    at: int,
    code: Seq<char>,
    cell: CellView,
)
    requires
        codes.len() == cells.len(),
        0 <= at <= codes.len(),
        forall|k: int| 0 <= k < codes.len() ==> #[trigger] codes[k] != code,
    ensures
        cell_map(codes.insert(at, code), cells.insert(at, cell)) == cell_map(codes, cells).insert(
            code,
            cell,
        ),
    decreases codes.len(),
{
    let c = codes.insert(at, code);
    let d = cells.insert(at, cell);
    if at == codes.len() {
        assert(c.drop_last() =~= codes);
        assert(d.drop_last() =~= cells);
    } else {
        let e = codes.drop_last();
        assert forall|k: int| 0 <= k < e.len() implies #[trigger] e[k] != code by {
            assert(e[k] == codes[k]);
        }
        lemma_cell_insert(e, cells.drop_last(), at, code, cell);
        assert(c.drop_last() =~= e.insert(at, code));
        assert(d.drop_last() =~= cells.drop_last().insert(at, cell));
        assert(codes[codes.len() - 1] != code);
        assert(cell_map(c, d) =~= cell_map(codes, cells).insert(code, cell));
    }
}

proof fn lemma_total_update(cells: Seq<CellView>, i: int, cell: CellView)
    requires
        0 <= i < cells.len(),
    ensures
        cells_total(cells.update(i, cell)) == cells_total(cells) - sum_value(cells[i].population)
            + sum_value(cell.population),
    decreases cells.len(),
{
    if i == cells.len() - 1 {
        assert(cells.update(i, cell).drop_last() =~= cells.drop_last());
    } else {
        lemma_total_update(cells.drop_last(), i, cell);
        assert(cells.update(i, cell).drop_last() =~= cells.drop_last().update(i, cell));
    }
}

proof fn lemma_total_insert(cells: Seq<CellView>, at: int, cell: CellView)
    requires
        0 <= at <= cells.len(),
    ensures
        cells_total(cells.insert(at, cell)) == cells_total(cells) + sum_value(cell.population),
    decreases cells.len(),
{
    if at == cells.len() {
        assert(cells.insert(at, cell).drop_last() =~= cells);
    } else {
        lemma_total_insert(cells.drop_last(), at, cell);
        assert(cells.insert(at, cell).drop_last() =~= cells.drop_last().insert(at, cell));
    }
}

proof fn lemma_rising_insert(codes: Seq<Seq<char>>, at: int, code: Seq<char>)
    requires
        codes_rising(codes),
        0 <= at <= codes.len(),
        forall|k: int| 0 <= k < at ==> text::lex_less(#[trigger] codes[k], code),
        forall|k: int| at <= k < codes.len() ==> text::lex_less(code, #[trigger] codes[k]),
    ensures
        codes_rising(codes.insert(at, code)),
{
    let c = codes.insert(at, code);
    assert forall|i: int, j: int| 0 <= i < j < c.len() implies text::lex_less(
        #[trigger] c[i],
        #[trigger] c[j],
    ) by {
        let a = if i < at {
            i
        } else {
            i - 1
        };
        let b = if j < at {
            j
        } else {
            j - 1
        };
        assert(i != at ==> c[i] == codes[a]);
        assert(j != at ==> c[j] == codes[b]);
    }
}

/// A row counts where its code takes up at least `digits` bytes.
pub open spec fn counts(row: Row, digits: int) -> bool {
    text::byte_len(row.mesh_code@) >= digits
}

/// The code of the coarser square: the first `digits` bytes.
pub open spec fn coarse_code(row: Row, digits: int) -> Seq<char> {
    row.mesh_code@.take(text::cut_at(row.mesh_code@, digits)->0)
}

/// No code that counts is cut inside a character.
pub open spec fn cut_whole(rows: Seq<Row>, digits: int) -> bool {
    forall|i: int|
        #![trigger rows[i]]
        0 <= i < rows.len() && counts(rows[i], digits) ==> text::cut_at(
            rows[i].mesh_code@,
            digits,
        ) is Some
}

/// The cells with one more row.
pub open spec fn with_one_more(m: Map<Seq<char>, CellView>, row: Row, digits: int) -> Map<
    Seq<char>,
    CellView,
> {
    if counts(row, digits) {
        let code = coarse_code(row, digits);
        m.insert(code, held_cell(m, code).with_row(row))
    } else {
        m
    }
}

/// The cells after rows were added, each by the first `digits` bytes of its code.
pub open spec fn accumulated(m: Map<Seq<char>, CellView>, rows: Seq<Row>, digits: int) -> Map<
    Seq<char>,
    CellView,
>
    decreases rows.len(),
{
    if rows.len() == 0 {
        m
    } else {
        with_one_more(accumulated(m, rows.drop_last(), digits), rows.last(), digits)
    }
}

/// All sums fit into cells.
pub open spec fn cells_fit(m: Map<Seq<char>, CellView>) -> bool {
    forall|code: Seq<char>| #[trigger] m.contains_key(code) ==> m[code].fits()
}

/// No sum overflows while rows are added one after the other.
pub open spec fn sums_fit(m: Map<Seq<char>, CellView>, rows: Seq<Row>, digits: int) -> bool {
    forall|k: int| 0 <= k <= rows.len() ==> cells_fit(#[trigger] accumulated(m, rows.take(k), digits))
}

/// The people in the rows that count.
pub open spec fn people(rows: Seq<Row>, digits: int) -> int
    decreases rows.len(),
{
    if rows.len() == 0 {
        0
    } else {
        people(rows.drop_last(), digits) + (if counts(rows.last(), digits) {
            row_people(rows.last())
        } else {
            0
        })
    }
}

/// Adds rows to coarser squares: sums of people and households, and the
/// highest density. A square can lie across the border of two prefectures, so
/// rows of several files go into the same cells. Nobody is lost or counted twice.
pub fn accumulate(into: &mut Cells, rows: &Vec<Row>, digits: usize)
    requires
        old(into).wf(),
        cut_whole(rows@, digits as int),
        sums_fit(old(into).map(), rows@, digits as int),
    ensures
        final(into).wf(),
        final(into).map() == accumulated(old(into).map(), rows@, digits as int),
        final(into).total() == old(into).total() + people(rows@, digits as int),
{
    let mut i: usize = 0;
    assert(rows@.take(0) == Seq::<Row>::empty());
    while i < rows.len()
        invariant
            i <= rows@.len(),
            into.wf(),
            cut_whole(rows@, digits as int),
            sums_fit(old(into).map(), rows@, digits as int),
            into.map() == accumulated(old(into).map(), rows@.take(i as int), digits as int),
            into.total() == old(into).total() + people(rows@.take(i as int), digits as int),
        decreases rows@.len() - i,
    {
        assert(rows@.take(i + 1).drop_last() == rows@.take(i as int));
        assert(rows@.take(i + 1).last() == rows@[i as int]);
        let chars = chars_of(rows[i].mesh_code.as_str());
        let ghost row = rows@[i as int];
        proof {
            text::lemma_cut_inside(chars@, digits as int);
        }
        match find_cut(&chars, digits) {
            Cut::At(k) => {
                let code = text_between(&chars, 0, k);
                proof {
                    assert(code@ == coarse_code(row, digits as int));
                    let next = accumulated(old(into).map(), rows@.take(i + 1), digits as int);
                    assert(cells_fit(next));
                    assert(next.contains_key(code@));
                }
                into.add_row(code, &rows[i]);
            },
            Cut::Inside => {
                assert(counts(row, digits as int));
            },
            Cut::Beyond => {},
        }
        i = i + 1;
    }
    assert(rows@.take(i as int) == rows@);
}

/// A sum that fits into a row, or the fault.
pub open spec fn sum_fits(sum: Option<int>) -> bool {
    match sum {
        Some(s) => i32::MIN <= s <= i32::MAX,
        None => true,
    }
}

pub open spec fn sum_in_row(sum: Option<int>) -> Option<i32> {
    match sum {
        Some(s) => Some(s as i32),
        None => None,
    }
}

/// What stands against a row for a cell.
pub open spec fn cell_fault(code: Seq<char>, cell: CellView) -> Option<MeshPopFault> {
    match mesh::square_of(code) {
        Err(e) => Some(MeshPopFault::BadCode(code, e)),
        Ok(_) => if sum_fits(cell.population) && sum_fits(cell.households) {
            None
        } else {
            Some(MeshPopFault::TooLarge(code))
        },
    }
}

/// The first fault among cells.
pub open spec fn first_fault(codes: Seq<Seq<char>>, cells: Seq<CellView>) -> Option<MeshPopFault>
    decreases codes.len(),
{
    if codes.len() == 0 {
        None
    } else {
        match first_fault(codes.drop_last(), cells.drop_last()) {
            Some(f) => Some(f),
            None => cell_fault(codes.last(), cells.last()),
        }
    }
}

/// The row shows what the cell holds.
pub open spec fn shows(row: Row, code: Seq<char>, cell: CellView) -> bool {
    &&& row.mesh_code@ == code
    &&& row.population == sum_in_row(cell.population)
    &&& row.households == sum_in_row(cell.households)
    &&& row.density == cell.density
    &&& row.placed()
}

/// The people in rows.
pub open spec fn rows_total(rows: Seq<Row>) -> int
    decreases rows.len(),
{
    if rows.len() == 0 {
        0
    } else {
        rows_total(rows.drop_last()) + row_people(rows.last())
    }
}

fn fit(sum: Option<i64>) -> (r: Result<Option<i32>, ()>)
    ensures
        match r {
            Ok(n) => sum_fits(sum_view(sum)) && n == sum_in_row(sum_view(sum)),
            Err(_) => !sum_fits(sum_view(sum)),
        },
{
    match sum {
        Some(s) => if -0x8000_0000 <= s && s <= 0x7fff_ffff {
            Ok(Some(s as i32))
        } else {
            Err(())
        },
        None => Ok(None),
    }
}

proof fn lemma_fault_stays(codes: Seq<Seq<char>>, cells: Seq<CellView>, n: int)
    requires
        codes.len() == cells.len(),
        0 <= n <= codes.len(),
        first_fault(codes.take(n), cells.take(n)) is Some,
    ensures
        first_fault(codes, cells) == first_fault(codes.take(n), cells.take(n)),
    decreases codes.len(),
{
    if n == codes.len() {
        assert(codes.take(n) == codes);
        assert(cells.take(n) == cells);
    } else {
        assert(codes.drop_last().take(n) == codes.take(n));
        assert(cells.drop_last().take(n) == cells.take(n));
        lemma_fault_stays(codes.drop_last(), cells.drop_last(), n);
    }
}

/// Turns cells into rows, in the order of their codes. A sum that does not fit
/// is an error, never rounded. The people in the rows are those in the cells.
pub fn aggregate(cells: &Cells) -> (r: Result<Vec<Row>, MeshPopError>)
    requires
        cells.wf(),
    ensures
        match r {
            Ok(rows) => {
                &&& first_fault(cells.codes(), cells.cells()) is None
                &&& rows@.len() == cells.codes().len()
                &&& forall|i: int|
                    0 <= i < rows@.len() ==> shows(
                        #[trigger] rows@[i],
                        cells.codes()[i],
                        cells.cells()[i],
                    )
                &&& rows_total(rows@) == cells.total()
            },
            Err(e) => first_fault(cells.codes(), cells.cells()) == Some(e@),
        },
{
    let ghost codes = cells.codes();
    let ghost all = cells.cells();
    let mut rows: Vec<Row> = Vec::new();
    let mut i: usize = 0;
    assert(codes.take(0) == Seq::<Seq<char>>::empty());
    assert(all.take(0) == Seq::<CellView>::empty());
    while i < cells.codes.len()
        invariant
            cells.wf(),
            codes == cells.codes(),
            all == cells.cells(),
            codes.len() == cells.codes@.len(),
            all == cells_view(cells.cells@),
            i <= codes.len(),
            rows@.len() == i,
            first_fault(codes.take(i as int), all.take(i as int)) is None,
            forall|k: int| 0 <= k < i ==> shows(#[trigger] rows@[k], codes[k], all[k]),
            rows_total(rows@) == cells_total(all.take(i as int)),
        decreases cells.codes@.len() - i,
    {
        let ghost before = rows@;
        proof {
            assert(codes.take(i + 1).drop_last() == codes.take(i as int));
            assert(all.take(i + 1).drop_last() == all.take(i as int));
            assert(codes[i as int] == cells.codes@[i as int]@);
            assert(codes.take(i + 1).last() == codes[i as int]);
            assert(all.take(i + 1).last() == all[i as int]);
        }
        let code = cells.codes[i].clone();
        let cell = cells.cells[i];
        let geometry = match mesh::polygon(code.as_str()) {
            Ok(ring) => ring,
            Err(e) => {
                proof {
                    lemma_fault_stays(codes, all, i + 1);
                }
                return Err(MeshPopError::BadCode(code, e));
            },
        };
        let (population, households) = match (fit(cell.population), fit(cell.households)) {
            (Ok(p), Ok(h)) => (p, h),
            _ => {
                proof {
                    lemma_fault_stays(codes, all, i + 1);
                }
                return Err(MeshPopError::TooLarge(code));
            },
        };
        let row = Row { mesh_code: code, population, households, density: cell.density, geometry };
        rows.push(row);
        proof {
            assert(rows@.drop_last() == before);
            assert forall|k: int| 0 <= k < i + 1 implies shows(
                #[trigger] rows@[k],
                codes[k],
                all[k],
            ) by {
                if k < i {
                    assert(rows@[k] == before[k]);
                }
            }
        }
        i = i + 1;
    }
    assert(codes.take(i as int) == codes);
    assert(all.take(i as int) == all);
    Ok(rows)
}

/// No total overflows while the people in rows are counted.
pub open spec fn totals_fit(rows: Seq<Row>) -> bool {
    forall|k: int| 0 <= k <= rows.len() ==> fits_i64(#[trigger] rows_total(rows.take(k)))
}

/// The people in rows, as a number.
pub fn total_population(rows: &Vec<Row>) -> (n: i64)
    requires
        totals_fit(rows@),
    ensures
        n == rows_total(rows@),
{
    let mut n: i64 = 0;
    let mut i: usize = 0;
    assert(rows@.take(0) == Seq::<Row>::empty());
    while i < rows.len()
        invariant
            i <= rows@.len(),
            totals_fit(rows@),
            n == rows_total(rows@.take(i as int)),
        decreases rows@.len() - i,
    {
        assert(rows@.take(i + 1).drop_last() == rows@.take(i as int));
        assert(fits_i64(rows_total(rows@.take(i + 1))));
        match rows[i].population {
            Some(p) => {
                n = n + p as i64;
            },
            None => {},
        }
        i = i + 1;
    }
    assert(rows@.take(i as int) == rows@);
    n
}

/// The people in any number of rows.
fn count_people(rows: &Vec<Row>) -> (n: i128)
    ensures
        n == rows_total(rows@),
{
    let mut n: i128 = 0;
    let mut i: usize = 0;
    assert(rows@.take(0) == Seq::<Row>::empty());
    while i < rows.len()
        invariant
            i <= rows@.len(),
            n == rows_total(rows@.take(i as int)),
            -0x8000_0000 * i <= n <= 0x8000_0000 * i,
        decreases rows@.len() - i,
    {
        assert(rows@.take(i + 1).drop_last() == rows@.take(i as int));
        match rows[i].population {
            Some(p) => {
                n = n + p as i128;
            },
            None => {},
        }
        i = i + 1;
    }
    assert(rows@.take(i as int) == rows@);
    n
}

/// Where every code is long enough, cutting codes to a coarser level loses
/// nobody: the people added to the cells are all the people in the rows.
pub proof fn law_everyone_counts(rows: Seq<Row>, digits: int)
    requires
        forall|i: int| 0 <= i < rows.len() ==> counts(#[trigger] rows[i], digits),
    ensures
        people(rows, digits) == rows_total(rows),
    decreases rows.len(),
{
    if rows.len() > 0 {
        let rest = rows.drop_last();
        assert forall|i: int| 0 <= i < rest.len() implies counts(#[trigger] rest[i], digits) by {
            assert(rest[i] == rows[i]);
        }
        law_everyone_counts(rest, digits);
        assert(counts(rows[rows.len() - 1], digits));
    }
}

/// The codes of squares can be cut at any digit.
pub proof fn law_squares_can_be_cut(rows: Seq<Row>, digits: int)
    requires
        digits >= 0,
        forall|i: int| 0 <= i < rows.len() ==> (#[trigger] rows[i]).placed(),
    ensures
        cut_whole(rows, digits),
        forall|i: int|
            #![trigger rows[i]]
            0 <= i < rows.len() && rows[i].mesh_code@.len() >= digits ==> counts(rows[i], digits)
                && coarse_code(rows[i], digits) == rows[i].mesh_code@.take(digits),
{
    assert forall|i: int| #![trigger rows[i]] 0 <= i < rows.len() implies text::byte_len(
        rows[i].mesh_code@,
    ) == rows[i].mesh_code@.len() && (digits <= rows[i].mesh_code@.len() ==> text::cut_at(
        rows[i].mesh_code@,
        digits,
    ) == Some(digits)) by {
        assert(rows[i].placed());
        text::lemma_cut_digits(rows[i].mesh_code@, digits);
    }
}

/// Adding the rows of two files one after the other is adding them together.
pub proof fn law_files_add_up(m: Map<Seq<char>, CellView>, a: Seq<Row>, b: Seq<Row>, digits: int)
    ensures
        accumulated(accumulated(m, a, digits), b, digits) == accumulated(m, a + b, digits),
    decreases b.len(),
{
    if b.len() == 0 {
        assert(a + b =~= a);
    } else {
        law_files_add_up(m, a, b.drop_last(), digits);
        assert((a + b).drop_last() =~= a + b.drop_last());
    }
}

/// The row has no density that is not a number.
pub open spec fn sane(row: Row) -> bool {
    row.density is Some ==> !row.density->0.nan()
}

/// Cells without a density that is not a number.
pub open spec fn calm(m: Map<Seq<char>, CellView>) -> bool {
    forall|code: Seq<char>| #[trigger]
        m.contains_key(code) ==> (m[code].density is Some ==> !m[code].density->0.nan())
}

/// Cells are calm where each of them is.
pub proof fn lemma_cells_are_calm(codes: Seq<Seq<char>>, cells: Seq<CellView>)
    requires
        codes.len() == cells.len(),
        forall|i: int|
            0 <= i < cells.len() ==> ((#[trigger] cells[i]).density is Some
                ==> !cells[i].density->0.nan()),
    ensures
        calm(cell_map(codes, cells)),
    decreases codes.len(),
{
    if codes.len() > 0 {
        let rest = cells.drop_last();
        assert forall|i: int| 0 <= i < rest.len() implies ((#[trigger] rest[i]).density is Some
            ==> !rest[i].density->0.nan()) by {
            assert(rest[i] == cells[i]);
        }
        lemma_cells_are_calm(codes.drop_last(), rest);
        assert(cells[cells.len() - 1].density is Some ==> !cells[cells.len() - 1].density->0.nan());
    }
}

proof fn lemma_stays_calm(m: Map<Seq<char>, CellView>, row: Row, digits: int)
    requires
        calm(m),
        sane(row),
    ensures
        calm(with_one_more(m, row, digits)),
{
    let out = with_one_more(m, row, digits);
    let added = coarse_code(row, digits);
    assert forall|code: Seq<char>| #[trigger] out.contains_key(code) implies (
    out[code].density is Some ==> !out[code].density->0.nan()) by {
        if counts(row, digits) && code == added {
            assert(out[code] == held_cell(m, added).with_row(row));
            assert(m.contains_key(added) ==> (m[added].density is Some
                ==> !m[added].density->0.nan()));
        } else {
            assert(m.contains_key(code));
        }
    }
}

proof fn lemma_all_stay_calm(m: Map<Seq<char>, CellView>, rows: Seq<Row>, digits: int)
    requires
        calm(m),
        forall|i: int| 0 <= i < rows.len() ==> sane(#[trigger] rows[i]),
    ensures
        calm(accumulated(m, rows, digits)),
    decreases rows.len(),
{
    if rows.len() > 0 {
        let rest = rows.drop_last();
        assert forall|i: int| 0 <= i < rest.len() implies sane(#[trigger] rest[i]) by {
            assert(rest[i] == rows[i]);
        }
        lemma_all_stay_calm(m, rest, digits);
        assert(sane(rows[rows.len() - 1]));
        lemma_stays_calm(accumulated(m, rest, digits), rows.last(), digits);
    }
}

proof fn lemma_two_rows(cell: CellView, x: Row, y: Row)
    requires
        sane(x),
        sane(y),
        cell.density is Some ==> !cell.density->0.nan(),
    ensures
        cell.with_row(x).with_row(y) == cell.with_row(y).with_row(x),
{
    let a = cell.with_row(x).with_row(y);
    let b = cell.with_row(y).with_row(x);
    assert(a.population == b.population);
    assert(a.households == b.households);
    if x.density is Some && y.density is Some {
        let p = x.density->0;
        let q = y.density->0;
        if p.rank() == q.rank() {
            number::law_rank_is_injective(p, q);
        }
        if cell.density is Some {
            let c = cell.density->0;
            if c.rank() == p.rank() {
                number::law_rank_is_injective(c, p);
            }
            if c.rank() == q.rank() {
                number::law_rank_is_injective(c, q);
            }
        }
    }
}

proof fn lemma_swap(m: Map<Seq<char>, CellView>, x: Row, y: Row, digits: int)
    requires
        calm(m),
        sane(x),
        sane(y),
    ensures
        with_one_more(with_one_more(m, x, digits), y, digits) == with_one_more(
            with_one_more(m, y, digits),
            x,
            digits,
        ),
{
    let a = coarse_code(x, digits);
    let b = coarse_code(y, digits);
    if counts(x, digits) && counts(y, digits) {
        assert(m.contains_key(a) ==> (m[a].density is Some ==> !m[a].density->0.nan()));
        if a == b {
            lemma_two_rows(held_cell(m, a), x, y);
        }
        assert(with_one_more(with_one_more(m, x, digits), y, digits) =~= with_one_more(
            with_one_more(m, y, digits),
            x,
            digits,
        ));
    }
}

proof fn lemma_first_goes_last(m: Map<Seq<char>, CellView>, x: Row, rows: Seq<Row>, digits: int)
    requires
        calm(m),
        sane(x),
        forall|i: int| 0 <= i < rows.len() ==> sane(#[trigger] rows[i]),
    ensures
        accumulated(with_one_more(m, x, digits), rows, digits) == with_one_more(
            accumulated(m, rows, digits),
            x,
            digits,
        ),
    decreases rows.len(),
{
    if rows.len() > 0 {
        let rest = rows.drop_last();
        assert forall|i: int| 0 <= i < rest.len() implies sane(#[trigger] rest[i]) by {
            assert(rest[i] == rows[i]);
        }
        lemma_first_goes_last(m, x, rest, digits);
        lemma_all_stay_calm(m, rest, digits);
        assert(sane(rows[rows.len() - 1]));
        lemma_swap(accumulated(m, rest, digits), x, rows.last(), digits);
    }
}

/// The order of files does not matter: a square across the border of two
/// prefectures is summed into one cell whichever comes first, where densities
/// are numbers.
pub proof fn law_order_does_not_matter(
    m: Map<Seq<char>, CellView>,
    a: Seq<Row>,
    b: Seq<Row>,
    digits: int,
)
    requires
        calm(m),
        forall|i: int| 0 <= i < a.len() ==> sane(#[trigger] a[i]),
        forall|i: int| 0 <= i < b.len() ==> sane(#[trigger] b[i]),
    ensures
        accumulated(accumulated(m, a, digits), b, digits) == accumulated(
            accumulated(m, b, digits),
            a,
            digits,
        ),
        accumulated(m, a + b, digits) == accumulated(m, b + a, digits),
    decreases a.len(),
{
    law_files_add_up(m, a, b, digits);
    law_files_add_up(m, b, a, digits);
    if a.len() > 0 {
        let rest = a.drop_last();
        assert forall|i: int| 0 <= i < rest.len() implies sane(#[trigger] rest[i]) by {
            assert(rest[i] == a[i]);
        }
        law_order_does_not_matter(m, rest, b, digits);
        lemma_all_stay_calm(m, rest, digits);
        assert(sane(a[a.len() - 1]));
        lemma_first_goes_last(accumulated(m, rest, digits), a.last(), b, digits);
    }
}

/// The same of cells that are at hand: two files can be added in either order.
pub proof fn law_cells_take_files_in_any_order(c: Cells, a: Seq<Row>, b: Seq<Row>, digits: int)
    requires
        c.wf(),
        forall|i: int|
            0 <= i < c.cells().len() ==> ((#[trigger] c.cells()[i]).density is Some
                ==> !c.cells()[i].density->0.nan()),
        forall|i: int| 0 <= i < a.len() ==> sane(#[trigger] a[i]),
        forall|i: int| 0 <= i < b.len() ==> sane(#[trigger] b[i]),
    ensures
        accumulated(accumulated(c.map(), a, digits), b, digits) == accumulated(
            accumulated(c.map(), b, digits),
            a,
            digits,
        ),
{
    lemma_cells_are_calm(c.codes(), c.cells());
    law_order_does_not_matter(c.map(), a, b, digits);
}

/// Cells hold sums of `n` numbers at most.
pub open spec fn cells_within(m: Map<Seq<char>, CellView>, n: int) -> bool {
    forall|code: Seq<char>| #[trigger] m.contains_key(code) ==> m[code].within(n)
}

proof fn lemma_stays_within(m: Map<Seq<char>, CellView>, n: int, rows: Seq<Row>, digits: int)
    requires
        cells_within(m, n),
        0 <= n,
    ensures
        cells_within(accumulated(m, rows, digits), n + rows.len()),
    decreases rows.len(),
{
    if rows.len() > 0 {
        let rest = rows.drop_last();
        lemma_stays_within(m, n, rest, digits);
        let before = accumulated(m, rest, digits);
        let row = rows.last();
        let added = coarse_code(row, digits);
        let out = with_one_more(before, row, digits);
        assert forall|code: Seq<char>| #[trigger] out.contains_key(code) implies out[code].within(
            n + rows.len(),
        ) by {
            assert(before.contains_key(added) ==> before[added].within(n + rest.len()));
            if !(counts(row, digits) && code == added) {
                assert(before.contains_key(code));
            }
        }
    }
}

/// Fewer than 2^32 rows can always be added, however many people each has.
pub proof fn law_few_rows_fit(m: Map<Seq<char>, CellView>, n: int, rows: Seq<Row>, digits: int)
    requires
        cells_within(m, n),
        0 <= n,
        n + rows.len() <= 0xffff_ffff,
    ensures
        sums_fit(m, rows, digits),
        cells_within(accumulated(m, rows, digits), n + rows.len()),
{
    lemma_stays_within(m, n, rows, digits);
    assert forall|k: int| 0 <= k <= rows.len() implies cells_fit(
        #[trigger] accumulated(m, rows.take(k), digits),
    ) by {
        lemma_stays_within(m, n, rows.take(k), digits);
        let out = accumulated(m, rows.take(k), digits);
        assert forall|code: Seq<char>| #[trigger] out.contains_key(code) implies out[code].fits() by {
            assert(out[code].within(n + k));
        }
    }
}

proof fn lemma_total_within(rows: Seq<Row>)
    ensures
        -0x8000_0000 * rows.len() <= rows_total(rows) <= 0x8000_0000 * rows.len(),
    decreases rows.len(),
{
    if rows.len() > 0 {
        lemma_total_within(rows.drop_last());
    }
}

/// The people in fewer than 2^32 rows can always be counted.
pub proof fn law_few_rows_can_be_counted(rows: Seq<Row>)
    requires
        rows.len() <= 0xffff_ffff,
    ensures
        totals_fit(rows),
{
    assert forall|k: int| 0 <= k <= rows.len() implies fits_i64(
        #[trigger] rows_total(rows.take(k)),
    ) by {
        lemma_total_within(rows.take(k));
    }
}

/// The rows of the coarse squares, with a check that as many people are in
/// them as were counted in the files.
pub fn coarse_rows(cells: &Cells, counted: i64) -> (r: Result<Vec<Row>, MeshPopError>)
    requires
        cells.wf(),
    ensures
        match r {
            Ok(rows) => {
                &&& first_fault(cells.codes(), cells.cells()) is None
                &&& cells.total() == counted
                &&& rows@.len() == cells.codes().len()
                &&& forall|i: int|
                    0 <= i < rows@.len() ==> shows(
                        #[trigger] rows@[i],
                        cells.codes()[i],
                        cells.cells()[i],
                    )
            },
            Err(e) => match first_fault(cells.codes(), cells.cells()) {
                Some(f) => e@ == f,
                None => cells.total() != counted && e@ is PeopleChanged && e@->PeopleChanged_0
                    == counted && e@->PeopleChanged_1 == cells.total(),
            },
        },
{
    let rows = match aggregate(cells) {
        Ok(rows) => rows,
        Err(e) => {
            return Err(e);
        },
    };
    let after: i128 = count_people(&rows);
    if after != counted as i128 {
        return Err(MeshPopError::PeopleChanged(counted, after));
    }
    Ok(rows)
}

/// The prefecture in the name of a distributed file, such as `tblT001231E13`:
/// two digits behind the last `E`.
pub open spec fn prefecture_in(stem: Seq<char>) -> Option<Seq<char>> {
    let code = text::after_last(stem, 'E');
    if text::last_position(stem, 'E') >= 0 && code.len() == 2 && text::all_digits(code) {
        Some(code)
    } else {
        None
    }
}

/// Reads the prefecture from the name of a distributed file without extension.
pub fn prefecture_code(stem: &str) -> (code: Option<String>)
    ensures
        match code {
            Some(c) => prefecture_in(stem@) == Some(c@),
            None => prefecture_in(stem@) is None,
        },
{
    let chars = chars_of(stem);
    let n: usize = chars.len();
    proof {
        text::lemma_last_position(stem@, 'E');
    }
    if n < 3 || chars[n - 3] != 'E' {
        return None;
    }
    let a = chars[n - 2];
    let b = chars[n - 1];
    proof {
        assert(text::after_last(stem@, 'E').len() == stem@.len() - 1 - text::last_position(
            stem@,
            'E',
        ));
        if a != 'E' && b != 'E' {
            assert(text::last_position(stem@, 'E') == n - 3);
            assert(text::after_last(stem@, 'E')[0] == a);
            assert(text::after_last(stem@, 'E')[1] == b);
        }
    }
    if '0' <= a && a <= '9' && '0' <= b && b <= '9' {
        let code = text_between(&chars, n - 2, n);
        assert(code@ =~= text::after_last(stem@, 'E'));
        Some(code)
    } else {
        None
    }
}

/// The columns hold what the rows say.
pub open spec fn columns_hold(columns: Seq<Column>, rows: Seq<Row>) -> bool {
    let n = rows.len();
    &&& columns.len() == 4
    &&& columns[0].holds_texts("mesh_code"@, Seq::new(n, |i: int| rows[i].mesh_code@))
    &&& columns[1].holds_integers("population"@, Seq::new(n, |i: int| rows[i].population))
    &&& columns[2].holds_integers("households"@, Seq::new(n, |i: int| rows[i].households))
    &&& columns[3].holds_reals("density"@, Seq::new(n, |i: int| rows[i].density))
}

/// The columns of a file of rows.
pub fn columns_of(rows: &Vec<Row>) -> (columns: Vec<Column>)
    ensures
        columns_hold(columns@, rows@),
{
    let mut codes: Vec<String> = Vec::new();
    let mut population: Vec<Option<i32>> = Vec::new();
    let mut households: Vec<Option<i32>> = Vec::new();
    let mut density: Vec<Option<Real>> = Vec::new();
    let mut i: usize = 0;
    while i < rows.len()
        invariant
            i <= rows@.len(),
            codes@.len() == i,
            population@.len() == i,
            households@.len() == i,
            density@.len() == i,
            forall|k: int| 0 <= k < i ==> (#[trigger] codes@[k])@ == rows@[k].mesh_code@,
            forall|k: int| 0 <= k < i ==> #[trigger] population@[k] == rows@[k].population,
            forall|k: int| 0 <= k < i ==> #[trigger] households@[k] == rows@[k].households,
            forall|k: int| 0 <= k < i ==> #[trigger] density@[k] == rows@[k].density,
        decreases rows@.len() - i,
    {
        codes.push(rows[i].mesh_code.clone());
        population.push(rows[i].population);
        households.push(rows[i].households);
        density.push(rows[i].density);
        i = i + 1;
    }
    assert(text::texts(codes@) =~= Seq::new(rows@.len(), |i: int| rows@[i].mesh_code@));
    assert(population@ =~= Seq::new(rows@.len(), |i: int| rows@[i].population));
    assert(households@ =~= Seq::new(rows@.len(), |i: int| rows@[i].households));
    assert(density@ =~= Seq::new(rows@.len(), |i: int| rows@[i].density));
    let mut columns: Vec<Column> = Vec::new();
    columns.push(utf8_column("mesh_code", codes));
    columns.push(i32_nullable_column("population", population));
    columns.push(i32_nullable_column("households", households));
    columns.push(f64_nullable_column("density", density));
    columns
}

/// A corner was turned into degrees.
pub open spec fn corner_placed<F: Fn(GridPoint) -> Coord>(
    degrees: F,
    corner: GridPoint,
    c: Coord,
) -> bool {
    call_ensures(degrees, (corner,), c)
}

/// `shape` is an outline whose corners were turned into degrees.
pub open spec fn outline_placed<F: Fn(GridPoint) -> Coord>(
    degrees: F,
    outline: Seq<GridPoint>,
    shape: ShapeView,
) -> bool {
    &&& shape is Polygon
    &&& shape->Polygon_0.interiors.len() == 0
    &&& shape->Polygon_0.exterior.len() == outline.len()
    &&& forall|k: int|
        #![trigger shape->Polygon_0.exterior[k]]
        0 <= k < outline.len() ==> corner_placed(
            degrees,
            outline[k],
            shape->Polygon_0.exterior[k],
        )
}

/// The outlines of rows were turned into degrees.
pub open spec fn outlines_placed<F: Fn(GridPoint) -> Coord>(
    degrees: F,
    rows: Seq<Row>,
    shapes: Seq<ShapeView>,
) -> bool {
    &&& shapes.len() == rows.len()
    &&& forall|i: int|
        #![trigger shapes[i]]
        0 <= i < shapes.len() ==> outline_placed(degrees, rows[i].geometry@, shapes[i])
}

fn place_outline<F: Fn(GridPoint) -> Coord>(outline: &Vec<GridPoint>, degrees: &F) -> (s: Shape)
    requires
        forall|p: GridPoint| #[trigger] call_requires(*degrees, (p,)),
    ensures
        outline_placed(*degrees, outline@, s@),
{
    let mut exterior: Vec<Coord> = Vec::new();
    let mut i: usize = 0;
    while i < outline.len()
        invariant
            i <= outline@.len(),
            forall|p: GridPoint| #[trigger] call_requires(*degrees, (p,)),
            exterior@.len() == i,
            forall|k: int|
                #![trigger exterior@[k]]
                0 <= k < i ==> corner_placed(*degrees, outline@[k], exterior@[k]),
        decreases outline@.len() - i,
    {
        let c = degrees(outline[i]);
        assert(corner_placed(*degrees, outline@[i as int], c));
        exterior.push(c);
        i = i + 1;
    }
    let ghost ring = exterior@;
    let s = Shape::Polygon(Polygon { exterior, interiors: Vec::new() });
    assert(s@->Polygon_0.exterior == ring);
    s
}

/// The file that squares go into. `degrees` turns a corner into degrees.
pub fn table_of<F: Fn(GridPoint) -> Coord>(rows: &Vec<Row>, degrees: F) -> (r: Result<
    Table,
    TableError,
>)
    requires
        forall|p: GridPoint| #[trigger] call_requires(degrees, (p,)),
    ensures
        match r {
            Ok(t) => columns_hold(t.columns@, rows@) && exists|shapes: Seq<ShapeView>|
                outlines_placed(degrees, rows@, shapes) && #[trigger] t.is_of(
                    shapes,
                    "Polygon"@,
                    (Provenance { via: None, vintage: None }),
                ),
            Err(e) => e == TableError::Geometry && exists|shapes: Seq<ShapeView>| #[trigger]
                outlines_placed(degrees, rows@, shapes) && geoparquet::unencodable(shapes),
        },
{
    let mut shapes: Vec<Shape> = Vec::new();
    let mut i: usize = 0;
    while i < rows.len()
        invariant
            i <= rows@.len(),
            forall|p: GridPoint| #[trigger] call_requires(degrees, (p,)),
            shapes@.len() == i,
            forall|j: int|
                #![trigger shapes@[j]]
                0 <= j < i ==> outline_placed(degrees, rows@[j].geometry@, shapes@[j]@),
        decreases rows@.len() - i,
    {
        shapes.push(place_outline(&rows[i].geometry, &degrees));
        i = i + 1;
    }
    proof {
        let views = geoparquet::shape_views(shapes@);
        assert forall|j: int| #![trigger views[j]] 0 <= j < views.len() implies outline_placed(
            degrees,
            rows@[j].geometry@,
            views[j],
        ) by {
            assert(views[j] == shapes@[j]@);
        }
        assert(outlines_placed(degrees, rows@, views));
    }
    let provenance = Provenance { via: None, vintage: None };
    table_of_shapes(columns_of(rows), &shapes, "Polygon", &provenance)
}

/// The statistics begin with a line of codes, of which the first is `KEY_CODE`,
/// and a line of names. Population and households are counted in the columns
/// with these names, the first of each.
pub proof fn law_columns_are_found_by_name(lines: Seq<Result<RecordView, Seq<char>>>)
    requires
        header_in(lines) is Ok,
    ensures
        ({
            let (p, h) = header_in(lines)->Ok_0;
            let names = lines[1]->Ok_0.fields;
            &&& lines.len() >= 2 && lines[0] is Ok && lines[1] is Ok
            &&& lines[0]->Ok_0.fields.len() > 0
            &&& text::trimmed(lines[0]->Ok_0.fields[0]) == "KEY_CODE"@
            &&& 0 <= p < names.len() && text::trimmed(names[p]) == "人口（総数）"@
            &&& 0 <= h < names.len() && text::trimmed(names[h]) == "世帯総数"@
            &&& forall|i: int|
                #![trigger names[i]]
                0 <= i < p ==> text::trimmed(names[i]) != "人口（総数）"@
            &&& forall|i: int|
                #![trigger names[i]]
                0 <= i < h ==> text::trimmed(names[i]) != "世帯総数"@
        }),
{
    let names = lines[1]->Ok_0.fields;
    records::law_the_first_field_of_a_name_is_found(names, POPULATION@);
    records::law_the_first_field_of_a_name_is_found(names, HOUSEHOLDS@);
}

/// The record has a code.
pub open spec fn coded(line: Result<RecordView, Seq<char>>) -> bool {
    line is Ok && line->Ok_0.fields.len() > 0 && text::trimmed(line->Ok_0.fields[0]).len() > 0
}

/// Every record with a code gives one row, in order; those without give none.
/// The code is the first field, and the numbers stand in their columns.
pub proof fn law_one_row_for_each_code(
    lines: Seq<Result<RecordView, Seq<char>>>,
    p: int,
    h: int,
)
    requires
        rows_in(lines, p, h) is Ok,
    ensures
        rows_in(lines, p, h)->Ok_0.len() == lines.filter(
            |l: Result<RecordView, Seq<char>>| coded(l),
        ).len(),
        forall|k: int|
            #![trigger rows_in(lines, p, h)->Ok_0[k]]
            0 <= k < rows_in(lines, p, h)->Ok_0.len() ==> {
                let fields = lines.filter(
                    |l: Result<RecordView, Seq<char>>| coded(l),
                )[k]->Ok_0.fields;
                let row = rows_in(lines, p, h)->Ok_0[k];
                &&& row.mesh_code == text::trimmed(fields[0])
                &&& mesh::square_of(row.mesh_code) is Ok
                &&& 0 <= p < fields.len() ==> row.population == number_in(Some(fields[p]))
                &&& p >= fields.len() ==> row.population is None
                &&& 0 <= h < fields.len() ==> row.households == number_in(Some(fields[h]))
                &&& h >= fields.len() ==> row.households is None
            },
    decreases lines.len(),
{
    reveal(Seq::filter);
    if lines.len() > 0 {
        law_one_row_for_each_code(lines.drop_last(), p, h);
    }
}

/// Records can be read where none is broken and every code is that of a square.
pub proof fn law_squares_can_be_read(lines: Seq<Result<RecordView, Seq<char>>>, p: int, h: int)
    ensures
        rows_in(lines, p, h) is Ok <==> forall|i: int|
            #![trigger lines[i]]
            0 <= i < lines.len() ==> lines[i] is Ok && (coded(lines[i]) ==> mesh::square_of(
                text::trimmed(lines[i]->Ok_0.fields[0]),
            ) is Ok),
    decreases lines.len(),
{
    if lines.len() > 0 {
        let rest = lines.drop_last();
        law_squares_can_be_read(rest, p, h);
        assert(forall|i: int| #![trigger lines[i]] 0 <= i < rest.len() ==> lines[i] == rest[i]);
        assert(forall|i: int| #![trigger rest[i]] 0 <= i < rest.len() ==> lines[i] == rest[i]);
        assert(lines[lines.len() - 1] == lines.last());
    }
}

/// A number that is written out is read as it is; whatever is no number, such
/// as the mark for a withheld one, is none.
pub proof fn law_numbers_are_read(n: i32, field: Seq<char>, i: int)
    ensures
        number_in(Some(text::int_text(n as int))) == Some(n),
        0 <= i < text::trimmed(field).len() && !text::is_digit(text::trimmed(field)[i]) && (i > 0
            || (text::trimmed(field)[i] != '+' && text::trimmed(field)[i] != '-')) ==> number_in(
            Some(field),
        ) is None,
        number_in(None) is None,
{
    text::law_integers_read_back(n as int);
    if 0 <= i < text::trimmed(field).len() && !text::is_digit(text::trimmed(field)[i]) && (i > 0 || (
    text::trimmed(field)[i] != '+' && text::trimmed(field)[i] != '-')) {
        text::law_only_digits_are_an_integer(text::trimmed(field), true, i);
    }
}

/// The households in rows.
pub open spec fn households_total(rows: Seq<Row>) -> int
    decreases rows.len(),
{
    if rows.len() == 0 {
        0
    } else {
        households_total(rows.drop_last()) + match rows.last().households {
            Some(n) => n as int,
            None => 0,
        }
    }
}

/// The people of two files are those of the first and of the second. A row has
/// as many as it says, and none where it does not say.
pub proof fn law_people_add_up(a: Seq<Row>, b: Seq<Row>)
    ensures
        rows_total(a + b) == rows_total(a) + rows_total(b),
        b.len() == 1 && b[0].population is Some ==> rows_total(b) == b[0].population->0,
        b.len() == 1 && b[0].population is None ==> rows_total(b) == 0,
    decreases b.len(),
{
    if b.len() == 0 {
        assert(a + b =~= a);
    } else {
        law_people_add_up(a, b.drop_last());
        assert((a + b).drop_last() =~= a + b.drop_last());
        if b.len() == 1 {
            assert(rows_total(b.drop_last()) == 0);
        }
    }
}

/// The rows that go into the cell of a code.
pub open spec fn rows_for(rows: Seq<Row>, digits: int, code: Seq<char>) -> Seq<Row> {
    rows.filter(|r: Row| counts(r, digits) && coarse_code(r, digits) == code)
}

/// A cell holds what it held and what the rows with its code add: the people of
/// all of them, the households of all of them. A sum is unknown only where
/// nothing of it is known. A code has a cell where it had one or a row has it.
pub proof fn law_cells_sum_their_rows(
    m: Map<Seq<char>, CellView>,
    rows: Seq<Row>,
    digits: int,
    code: Seq<char>,
)
    ensures
        ({
            let own = rows_for(rows, digits, code);
            let before = held_cell(m, code);
            let after = held_cell(accumulated(m, rows, digits), code);
            &&& sum_value(after.population) == sum_value(before.population) + rows_total(own)
            &&& sum_value(after.households) == sum_value(before.households) + households_total(own)
            &&& after.population is None <==> before.population is None && forall|i: int|
                #![trigger own[i]]
                0 <= i < own.len() ==> own[i].population is None
            &&& after.households is None <==> before.households is None && forall|i: int|
                #![trigger own[i]]
                0 <= i < own.len() ==> own[i].households is None
            &&& accumulated(m, rows, digits).contains_key(code) <==> m.contains_key(code)
                || own.len() > 0
        }),
    decreases rows.len(),
{
    reveal(Seq::filter);
    let own = rows_for(rows, digits, code);
    if rows.len() > 0 {
        let rest = rows.drop_last();
        let last = rows.last();
        law_cells_sum_their_rows(m, rest, digits, code);
        let had = rows_for(rest, digits, code);
        if counts(last, digits) && coarse_code(last, digits) == code {
            assert(own == had.push(last));
            assert(own.drop_last() =~= had);
            assert(forall|i: int| #![trigger own[i]] 0 <= i < had.len() ==> own[i] == had[i]);
            assert(forall|i: int| #![trigger had[i]] 0 <= i < had.len() ==> own[i] == had[i]);
            assert(own[had.len() as int] == last);
        } else {
            assert(own == had);
        }
    } else {
        assert(own.len() == 0);
    }
}

/// A cell has the highest density of its rows: none of them has a higher one,
/// and it is that of one of them or the one that the cell had.
pub proof fn law_cells_keep_the_highest_density(
    m: Map<Seq<char>, CellView>,
    rows: Seq<Row>,
    digits: int,
    code: Seq<char>,
)
    requires
        calm(m),
        forall|i: int| 0 <= i < rows.len() ==> sane(#[trigger] rows[i]),
    ensures
        ({
            let own = rows_for(rows, digits, code);
            let before = held_cell(m, code).density;
            let after = held_cell(accumulated(m, rows, digits), code).density;
            &&& before is Some ==> after is Some && before->0.rank() <= after->0.rank()
            &&& forall|i: int|
                #![trigger own[i]]
                0 <= i < own.len() && own[i].density is Some ==> after is Some
                    && own[i].density->0.rank() <= after->0.rank()
            &&& after is Some ==> after == before || exists|i: int|
                #![trigger own[i]]
                0 <= i < own.len() && own[i].density == after
            &&& after is Some ==> !after->0.nan()
        }),
    decreases rows.len(),
{
    reveal(Seq::filter);
    let own = rows_for(rows, digits, code);
    if rows.len() > 0 {
        let rest = rows.drop_last();
        let last = rows.last();
        assert forall|i: int| 0 <= i < rest.len() implies sane(#[trigger] rest[i]) by {
            assert(rest[i] == rows[i]);
        }
        assert(sane(rows[rows.len() - 1]));
        law_cells_keep_the_highest_density(m, rest, digits, code);
        let had = rows_for(rest, digits, code);
        if counts(last, digits) && coarse_code(last, digits) == code {
            assert(own == had.push(last));
            assert(forall|i: int| #![trigger own[i]] 0 <= i < had.len() ==> own[i] == had[i]);
            assert(forall|i: int| #![trigger had[i]] 0 <= i < had.len() ==> own[i] == had[i]);
            assert(own[had.len() as int] == last);
        } else {
            assert(own == had);
        }
    } else {
        assert(own.len() == 0);
    }
}

/// A coarse square is the square of eight digits that lies around the finer one.
pub proof fn law_coarse_squares_lie_around(row: Row)
    requires
        row.placed(),
        row.mesh_code@.len() >= 8,
    ensures
        COARSE_DIGITS == 8,
        counts(row, COARSE_DIGITS as int),
        coarse_code(row, COARSE_DIGITS as int).len() == 8,
        mesh::square_of(coarse_code(row, COARSE_DIGITS as int)) is Ok,
        mesh::square_of(coarse_code(row, COARSE_DIGITS as int))->Ok_0.encloses(
            mesh::square_of(row.mesh_code@)->Ok_0,
        ),
{
    let rows = seq![row];
    assert(rows[0] == row);
    law_squares_can_be_cut(rows, 8);
    mesh::law_shorter_codes_enclose(row.mesh_code@, 8);
}

/// A row of a coarse square says what its cell holds: the sums as they are, where
/// they fit, and the density. It is drawn as the square of its code.
pub proof fn law_rows_show_their_cells(
    codes: Seq<Seq<char>>,
    cells: Seq<CellView>,
    rows: Seq<Row>,
    i: int,
)
    requires
        codes.len() == cells.len(),
        rows.len() == codes.len(),
        first_fault(codes, cells) is None,
        0 <= i < rows.len(),
        shows(rows[i], codes[i], cells[i]),
    ensures
        rows[i].mesh_code@ == codes[i],
        cells[i].population is Some <==> rows[i].population is Some,
        cells[i].population is Some ==> rows[i].population->0 == cells[i].population->0,
        cells[i].households is Some <==> rows[i].households is Some,
        cells[i].households is Some ==> rows[i].households->0 == cells[i].households->0,
        rows[i].density == cells[i].density,
        rows[i].placed(),
    decreases codes.len(),
{
    lemma_cell_clear(codes, cells, i);
}

proof fn lemma_cell_clear(codes: Seq<Seq<char>>, cells: Seq<CellView>, i: int)
    requires
        codes.len() == cells.len(),
        first_fault(codes, cells) is None,
        0 <= i < codes.len(),
    ensures
        cell_fault(codes[i], cells[i]) is None,
    decreases codes.len(),
{
    if i < codes.len() - 1 {
        lemma_cell_clear(codes.drop_last(), cells.drop_last(), i);
    }
}

/// The prefecture is named by two digits behind an `E` at the end of a file's
/// name, whatever stands before; a name that does not end so has none.
pub proof fn law_names_end_in_their_prefecture(before: Seq<char>, a: char, b: char, stem: Seq<char>)
    ensures
        '0' <= a <= '9' && '0' <= b <= '9' ==> prefecture_in(before + seq!['E'] + seq![a, b])
            == Some(seq![a, b]),
        prefecture_in(stem) is Some ==> {
            let n = stem.len() as int;
            &&& n >= 3 && stem[n - 3] == 'E'
            &&& '0' <= stem[n - 2] <= '9' && '0' <= stem[n - 1] <= '9'
            &&& prefecture_in(stem)->0 == seq![stem[n - 2], stem[n - 1]]
        },
{
    if '0' <= a <= '9' && '0' <= b <= '9' {
        let code = seq![a, b];
        assert(!code.contains('E'));
        text::law_the_last_mark_counts(before, 'E', code);
    }
    if prefecture_in(stem) is Some {
        text::lemma_last_position(stem, 'E');
        let code = text::after_last(stem, 'E');
        let n = stem.len() as int;
        assert(code.len() == n - text::last_position(stem, 'E') - 1);
        assert(code[0] == stem[n - 2] && code[1] == stem[n - 1]);
        assert(text::is_digit(code[0]) && text::is_digit(code[1]));
        assert(code =~= seq![stem[n - 2], stem[n - 1]]);
    }
}

/// A file of squares has one row for each, in order, and its columns say under
/// their names what the squares say.
pub proof fn law_columns_tell_of_squares(columns: Seq<Column>, rows: Seq<Row>, i: int)
    requires
        columns_hold(columns, rows),
        0 <= i < rows.len(),
    ensures
        columns.len() == 4,
        forall|k: int| 0 <= k < 4 ==> (#[trigger] columns[k]).height() == rows.len(),
        columns[0].name@ == "mesh_code"@ && columns[0].text_at(i) == Some(rows[i].mesh_code@),
        columns[1].name@ == "population"@ && columns[1].integer_at(i) == rows[i].population,
        columns[2].name@ == "households"@ && columns[2].integer_at(i) == rows[i].households,
        columns[3].name@ == "density"@ && columns[3].real_at(i) == rows[i].density,
{
    let n = rows.len();
    let a0 = Seq::new(n, |i: int| rows[i].mesh_code@);
    let a1 = Seq::new(n, |i: int| rows[i].population);
    let a2 = Seq::new(n, |i: int| rows[i].households);
    let a3 = Seq::new(n, |i: int| rows[i].density);
    let none = Seq::<Option<Seq<char>>>::empty();
    geoparquet::lemma_text_column(columns[0], "mesh_code"@, a0);
    geoparquet::law_columns_hold_their_list(columns[1], "population"@, a0, none, a3, a1);
    geoparquet::law_columns_hold_their_list(columns[2], "households"@, a0, none, a3, a2);
    geoparquet::law_columns_hold_their_list(columns[3], "density"@, a0, none, a3, a1);
    assert(columns[0].text_at(i) == Some(a0[i]));
}

/// Statistics that cannot be read are refused for the first thing that is wrong
/// with them: the line of codes, then the line of names, then a column that is
/// not there, population before households, and last that they have no rows.
pub proof fn law_refusals_say_what_is_wrong(lines: Seq<Result<RecordView, Seq<char>>>)
    ensures
        lines.len() == 0 ==> statistics_in(lines) == Err::<Seq<RowView>, MeshPopFault>(
            MeshPopFault::NoCodes,
        ),
        lines.len() > 0 && lines[0] is Ok && lines[0]->Ok_0.fields.len() > 0 && text::trimmed(
            lines[0]->Ok_0.fields[0],
        ) != "KEY_CODE"@ ==> statistics_in(lines) == Err::<Seq<RowView>, MeshPopFault>(
            MeshPopFault::NotStatistics(Some(lines[0]->Ok_0.fields[0])),
        ),
        headed(lines) && lines.len() == 1 ==> statistics_in(lines) == Err::<
            Seq<RowView>,
            MeshPopFault,
        >(MeshPopFault::NoNames),
        headed(lines) && lines.len() > 1 && lines[1] is Ok && (forall|i: int|
            #![trigger lines[1]->Ok_0.fields[i]]
            0 <= i < lines[1]->Ok_0.fields.len() ==> text::trimmed(lines[1]->Ok_0.fields[i])
                != "人口（総数）"@) ==> statistics_in(lines) == Err::<Seq<RowView>, MeshPopFault>(
            MeshPopFault::NoColumn("人口（総数）"@, names_in(lines[1]->Ok_0.fields)),
        ),
        header_in(lines) is Ok && rows_in(
            lines.skip(2),
            header_in(lines)->Ok_0.0,
            header_in(lines)->Ok_0.1,
        ) is Ok && lines.skip(2).filter(
            |l: Result<RecordView, Seq<char>>| coded(l),
        ).len() == 0 ==> statistics_in(lines) == Err::<Seq<RowView>, MeshPopFault>(
            MeshPopFault::NoRows,
        ),
{
    if headed(lines) && lines.len() > 1 && lines[1] is Ok {
        let names = lines[1]->Ok_0.fields;
        records::law_the_first_field_of_a_name_is_found(names, POPULATION@);
    }
    if header_in(lines) is Ok && rows_in(
        lines.skip(2),
        header_in(lines)->Ok_0.0,
        header_in(lines)->Ok_0.1,
    ) is Ok {
        law_one_row_for_each_code(
            lines.skip(2),
            header_in(lines)->Ok_0.0,
            header_in(lines)->Ok_0.1,
        );
    }
}

/// The first line begins with the code of the squares.
pub open spec fn headed(lines: Seq<Result<RecordView, Seq<char>>>) -> bool {
    lines.len() > 0 && lines[0] is Ok && lines[0]->Ok_0.fields.len() > 0 && text::trimmed(
        lines[0]->Ok_0.fields[0],
    ) == "KEY_CODE"@
}

/// The names that are told as there are all that are not blank, without the
/// space around them, in order.
pub proof fn law_names_that_are_there_are_told(record: Seq<Seq<char>>)
    ensures
        names_in(record).len() == record.filter(
            |f: Seq<char>| text::trimmed(f).len() > 0,
        ).len(),
        forall|k: int|
            #![trigger names_in(record)[k]]
            0 <= k < names_in(record).len() ==> names_in(record)[k] == text::trimmed(
                record.filter(|f: Seq<char>| text::trimmed(f).len() > 0)[k],
            ),
    decreases record.len(),
{
    reveal(Seq::filter);
    if record.len() > 0 {
        law_names_that_are_there_are_told(record.drop_last());
    }
}

/// What statistics say is what their records say behind the two lines of the
/// header.
pub proof fn law_statistics_are_their_records(lines: Seq<Result<RecordView, Seq<char>>>)
    requires
        statistics_in(lines) is Ok,
    ensures
        header_in(lines) is Ok,
        rows_in(lines.skip(2), header_in(lines)->Ok_0.0, header_in(lines)->Ok_0.1) == Ok::<
            Seq<RowView>,
            MeshPopFault,
        >(statistics_in(lines)->Ok_0),
        statistics_in(lines)->Ok_0.len() == lines.skip(2).filter(
            |l: Result<RecordView, Seq<char>>| coded(l),
        ).len(),
        statistics_in(lines)->Ok_0.len() > 0,
{
    law_one_row_for_each_code(
        lines.skip(2),
        header_in(lines)->Ok_0.0,
        header_in(lines)->Ok_0.1,
    );
}

} // verus!
