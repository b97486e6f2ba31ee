//! Location reference data at the level of towns and districts.
use crate::geo;
use crate::geo::{Bounds, Coord};
use crate::geoparquet;
use crate::geoparquet::{table_of_shapes, Column, Provenance, Table, TableError};
use crate::isj;
use crate::isj::{
    bounds_of_entries, move_rows, point_shapes, read_contents, read_table, text_column, Entry,
    IsjError, IsjFault, IsjZipError, IsjZipFault, Located,
};
use crate::number;
use crate::number::Real;
use crate::records;
use crate::records::{read_records, Record};
use crate::transform;
use crate::transform::TransformError;
use vstd::prelude::*;

verus! {

/// A town or district.
#[derive(Debug, PartialEq)]
pub struct Row {
    /// Code of the prefecture.
    pub pref_code: String,
    /// Prefecture.
    pub pref_name: String,
    /// Code of the city, ward, town or village.
    pub city_code: String,
    /// City, ward, town or village.
    pub city_name: String,
    /// Code of the town or district.
    pub oaza_code: String,
    /// Town or district.
    pub oaza_name: String,
    /// Code of the material that the point comes from.
    pub origin_code: String,
    /// Code of the kind of town or district.
    pub classification_code: String,
    /// Longitude and latitude.
    pub geometry: Coord,
}

impl View for Row {
    type V = (Seq<Seq<char>>, Coord);

    /// The texts of the row, in the order of its fields, and its point.
    open spec fn view(&self) -> (Seq<Seq<char>>, Coord) {
        (
            seq![
                self.pref_code@,
                self.pref_name@,
                self.city_code@,
                self.city_name@,
                self.oaza_code@,
                self.oaza_name@,
                self.origin_code@,
                self.classification_code@,
            ],
            self.geometry,
        )
    }
}

/// The columns of the source, in the order of a row's fields.
pub open spec fn source_columns() -> Seq<Seq<char>> {
    seq![
        "都道府県コード"@,
        "都道府県名"@,
        "市区町村コード"@,
        "市区町村名"@,
        "大字町丁目コード"@,
        "大字町丁目名"@,
        "原典資料コード"@,
        "大字・字・丁目区分コード"@,
    ]
}

/// The columns of a file, in the order of a row's fields.
pub open spec fn file_columns() -> Seq<Seq<char>> {
    seq![
        "pref_code"@,
        "pref_name"@,
        "city_code"@,
        "city_name"@,
        "oaza_code"@,
        "oaza_name"@,
        "origin_code"@,
        "classification_code"@,
    ]
}

/// Rows in the coordinates of their source.
#[derive(Debug, PartialEq)]
pub struct Source {
    /// The EPSG code of the coordinates.
    pub epsg: u32,
    /// The bounds of all rows.
    pub bounds: Bounds,
    pub rows: Vec<Row>,
}

fn wanted() -> (names: Vec<&'static str>)
    ensures
        isj::names_view(names@) == source_columns(),
{
    let mut names: Vec<&'static str> = Vec::new();
    names.push("都道府県コード");
    names.push("都道府県名");
    names.push("市区町村コード");
    names.push("市区町村名");
    names.push("大字町丁目コード");
    names.push("大字町丁目名");
    names.push("原典資料コード");
    names.push("大字・字・丁目区分コード");
    assert(isj::names_view(names@) =~= source_columns());
    names
}

fn row_of(entry: &Entry) -> (row: Row)
    requires
        entry@.0.len() == 8,
    ensures
        row@ == entry@,
{
    let f = &entry.fields;
    let row = Row {
        pref_code: f[0].clone(),
        pref_name: f[1].clone(),
        city_code: f[2].clone(),
        city_name: f[3].clone(),
        oaza_code: f[4].clone(),
        oaza_name: f[5].clone(),
        origin_code: f[6].clone(),
        classification_code: f[7].clone(),
        geometry: entry.point,
    };
    assert(row@.0 =~= entry@.0);
    row
}

/// Reads the rows from records, the first of which is the header.
pub fn parse_records(lines: &Vec<Result<Record, String>>, source_epsg: u32) -> (r: Result<
    Source,
    IsjError,
>)
    ensures
        match r {
            Ok(s) => {
                &&& isj::table_in(records::records_view(lines@), source_columns()) == Ok::<
                    Seq<(Seq<Seq<char>>, Coord)>,
                    IsjFault,
                >(isj::rows_view(s.rows@))
                &&& s.epsg == source_epsg
                &&& s.bounds == geo::line_bounds(isj::points_of(isj::rows_view(s.rows@)))
            },
            Err(e) => isj::table_in(records::records_view(lines@), source_columns()) == Err::<
                Seq<(Seq<Seq<char>>, Coord)>,
                IsjFault,
            >(e@),
        },
{
    let entries = match read_table(lines, &wanted()) {
        Ok(entries) => entries,
        Err(e) => {
            return Err(e);
        },
    };
    let ghost all = isj::entries_view(entries@);
    proof {
        isj::lemma_widths(records::records_view(lines@), source_columns());
        assert(isj::table_in(records::records_view(lines@), source_columns())->Ok_0 == all);
        assert forall|k: int| 0 <= k < all.len() implies (#[trigger] all[k]).0.len() == 8 by {
            assert(source_columns().len() == 8);
        }
    }
    let bounds = bounds_of_entries(&entries);
    let mut rows: Vec<Row> = Vec::new();
    let mut i: usize = 0;
    while i < entries.len()
        invariant
            i <= entries@.len(),
            all == isj::entries_view(entries@),
            forall|k: int| 0 <= k < all.len() ==> (#[trigger] all[k]).0.len() == 8,
            rows@.len() == i,
            forall|k: int| 0 <= k < i ==> (#[trigger] rows@[k])@ == all[k],
        decreases entries@.len() - i,
    {
        assert(all[i as int] == entries@[i as int]@);
        rows.push(row_of(&entries[i]));
        i = i + 1;
    }
    assert(isj::rows_view(rows@) =~= all);
    Ok(Source { epsg: source_epsg, bounds, rows })
}

/// Reads the rows from text in UTF-8. `source_epsg` is the reference system of
/// its coordinates.
pub fn parse_csv(csv_text: &str, source_epsg: u32) -> (r: Result<Source, IsjError>)
    ensures
        match r {
            Ok(s) => {
                &&& isj::table_in(records::csv_records(csv_text@), source_columns()) == Ok::<
                    Seq<(Seq<Seq<char>>, Coord)>,
                    IsjFault,
                >(isj::rows_view(s.rows@))
                &&& s.epsg == source_epsg
                &&& s.bounds == geo::line_bounds(isj::points_of(isj::rows_view(s.rows@)))
            },
            Err(e) => isj::table_in(records::csv_records(csv_text@), source_columns()) == Err::<
                Seq<(Seq<Seq<char>>, Coord)>,
                IsjFault,
            >(e@),
        },
{
    let lines = read_records(csv_text);
    parse_records(&lines, source_epsg)
}

/// Reads the rows from a distributed archive: its table, and the metadata that
/// names the reference system.
pub fn parse_zip(zip: &Vec<u8>) -> (r: Result<Source, IsjZipError>)
    ensures
        match r {
            Ok(s) => {
                &&& isj::archive_in(zip@, source_columns()) == Ok::<
                    (u32, Seq<(Seq<Seq<char>>, Coord)>),
                    IsjZipFault,
                >((s.epsg, isj::rows_view(s.rows@)))
                &&& s.bounds == geo::line_bounds(isj::points_of(isj::rows_view(s.rows@)))
            },
            Err(e) => isj::archive_in(zip@, source_columns()) == Err::<
                (u32, Seq<(Seq<Seq<char>>, Coord)>),
                IsjZipFault,
            >(e@),
        },
{
    match read_contents(zip) {
        Ok((csv, epsg)) => match parse_csv(csv.as_str(), epsg) {
            Ok(s) => Ok(s),
            Err(e) => Err(IsjZipError::Rows(e)),
        },
        Err(e) => Err(e),
    }
}

impl Located for Row {
    fn text(&self, k: usize) -> (s: String) {
        match k {
            0 => self.pref_code.clone(),
            1 => self.pref_name.clone(),
            2 => self.city_code.clone(),
            3 => self.city_name.clone(),
            4 => self.oaza_code.clone(),
            5 => self.oaza_name.clone(),
            6 => self.origin_code.clone(),
            _ => self.classification_code.clone(),
        }
    }

    fn point(&self) -> (c: Coord) {
        self.geometry
    }

    fn move_to(&mut self, c: Coord) {
        let ghost held = self@.0;
        self.geometry = c;
        assert(self@.0 =~= held);
    }
}

/// The columns of a file of rows, in the order of a row's fields.
pub fn columns_of(rows: &Vec<Row>) -> (columns: Vec<Column>)
    ensures
        isj::columns_hold(columns@, file_columns(), rows@),
{
    let mut columns: Vec<Column> = Vec::new();
    columns.push(text_column(rows, "pref_code", 0));
    columns.push(text_column(rows, "pref_name", 1));
    columns.push(text_column(rows, "city_code", 2));
    columns.push(text_column(rows, "city_name", 3));
    columns.push(text_column(rows, "oaza_code", 4));
    columns.push(text_column(rows, "oaza_name", 5));
    columns.push(text_column(rows, "origin_code", 6));
    columns.push(text_column(rows, "classification_code", 7));
    columns
}

impl Source {
    /// The rows in WGS84. `transform` moves points there from the reference
    /// system of the source; it is not asked where there are none.
    pub fn to_wgs84<F: Fn(&Vec<Coord>) -> Option<Vec<Coord>>>(self, transform: F) -> (r: Result<
        Vec<Row>,
        TransformError,
    >)
        requires
            transform::total(transform),
        ensures
            match r {
                Ok(rows) => isj::rows_moved(transform, self.rows@, rows@),
                Err(_) => isj::rows_refused(transform, self.rows@),
            },
    {
        move_rows(self.rows, transform)
    }
}

/// The file that rows in WGS84 go into.
pub fn table_of(rows: &Vec<Row>) -> (r: Result<Table, TableError>)
    ensures
        match r {
            Ok(t) => isj::columns_hold(t.columns@, file_columns(), rows@) && t.is_of(
                isj::shapes_of(rows@),
                "Point"@,
                (Provenance { via: None, vintage: None }),
            ),
            Err(e) => e == TableError::Geometry && geoparquet::unencodable(isj::shapes_of(rows@)),
        },
{
    let shapes = point_shapes(rows);
    let provenance = Provenance { via: None, vintage: None };
    table_of_shapes(columns_of(rows), &shapes, "Point", &provenance)
}

/// Each town or district says under its names what its record has in the columns of the
/// source, and lies where the record's longitude and latitude say. There is one
/// row for each record behind the header, in order.
pub proof fn law_rows_come_from_their_columns(
    lines: Seq<Result<records::RecordView, Seq<char>>>,
    rows: Seq<Row>,
    i: int,
    j: int,
)
    requires
        isj::table_in(lines, source_columns()) == Ok::<Seq<(Seq<Seq<char>>, Coord)>, IsjFault>(
            isj::rows_view(rows),
        ),
        1 <= i < lines.len(),
        lines[0] is Ok ==> 0 <= j < lines[0]->Ok_0.fields.len(),
    ensures
        lines[0] is Ok && lines[i] is Ok,
        rows.len() == lines.len() - 1,
        ({
            let name = lines[0]->Ok_0.fields[j];
            let field = lines[i]->Ok_0.fields[j];
            let row = rows[i - 1];
            &&& name == "都道府県コード"@ ==> field == row.pref_code@
            &&& name == "都道府県名"@ ==> field == row.pref_name@
            &&& name == "市区町村コード"@ ==> field == row.city_code@
            &&& name == "市区町村名"@ ==> field == row.city_name@
            &&& name == "大字町丁目コード"@ ==> field == row.oaza_code@
            &&& name == "大字町丁目名"@ ==> field == row.oaza_name@
            &&& name == "原典資料コード"@ ==> field == row.origin_code@
            &&& name == "大字・字・丁目区分コード"@ ==> field == row.classification_code@
            &&& name == "経度"@ ==> number::real_text(field) == Ok::<Real, Seq<char>>(
                row.geometry.x,
            )
            &&& name == "緯度"@ ==> number::real_text(field) == Ok::<Real, Seq<char>>(
                row.geometry.y,
            )
        }),
{
    let names = source_columns();
    isj::law_tables_begin_with_a_header(lines, names, i);
    assert(isj::rows_view(rows).len() == rows.len());
    assert(isj::rows_view(rows)[i - 1] == rows[i - 1]@);
    let header = lines[0]->Ok_0.fields;
    isj::law_fields_stand_in_their_columns(header, lines[i]->Ok_0, names, 0, j);
    isj::law_fields_stand_in_their_columns(header, lines[i]->Ok_0, names, 1, j);
    isj::law_fields_stand_in_their_columns(header, lines[i]->Ok_0, names, 2, j);
    isj::law_fields_stand_in_their_columns(header, lines[i]->Ok_0, names, 3, j);
    isj::law_fields_stand_in_their_columns(header, lines[i]->Ok_0, names, 4, j);
    isj::law_fields_stand_in_their_columns(header, lines[i]->Ok_0, names, 5, j);
    isj::law_fields_stand_in_their_columns(header, lines[i]->Ok_0, names, 6, j);
    isj::law_fields_stand_in_their_columns(header, lines[i]->Ok_0, names, 7, j);
}

/// A file has one row for each town or district, in order, and its columns say under their
/// names what the row says.
pub proof fn law_columns_tell_of_rows(columns: Seq<Column>, rows: Seq<Row>, i: int)
    requires
        isj::columns_hold(columns, file_columns(), rows),
        0 <= i < rows.len(),
    ensures
        columns.len() == 8,
        forall|k: int| 0 <= k < 8 ==> (#[trigger] columns[k]).height() == rows.len(),
        columns[0].name@ == "pref_code"@ && columns[0].text_at(i) == Some(rows[i].pref_code@),
        columns[1].name@ == "pref_name"@ && columns[1].text_at(i) == Some(rows[i].pref_name@),
        columns[2].name@ == "city_code"@ && columns[2].text_at(i) == Some(rows[i].city_code@),
        columns[3].name@ == "city_name"@ && columns[3].text_at(i) == Some(rows[i].city_name@),
        columns[4].name@ == "oaza_code"@ && columns[4].text_at(i) == Some(rows[i].oaza_code@),
        columns[5].name@ == "oaza_name"@ && columns[5].text_at(i) == Some(rows[i].oaza_name@),
        columns[6].name@ == "origin_code"@ && columns[6].text_at(i) == Some(rows[i].origin_code@),
        columns[7].name@ == "classification_code"@ && columns[7].text_at(i) == Some(rows[i].classification_code@),
{
    geoparquet::lemma_text_column(columns[0], "pref_code"@, isj::field_texts(rows, 0));
    assert(columns[0].text_at(i) == Some(isj::field_texts(rows, 0)[i]));
    geoparquet::lemma_text_column(columns[1], "pref_name"@, isj::field_texts(rows, 1));
    assert(columns[1].text_at(i) == Some(isj::field_texts(rows, 1)[i]));
    geoparquet::lemma_text_column(columns[2], "city_code"@, isj::field_texts(rows, 2));
    assert(columns[2].text_at(i) == Some(isj::field_texts(rows, 2)[i]));
    geoparquet::lemma_text_column(columns[3], "city_name"@, isj::field_texts(rows, 3));
    assert(columns[3].text_at(i) == Some(isj::field_texts(rows, 3)[i]));
    geoparquet::lemma_text_column(columns[4], "oaza_code"@, isj::field_texts(rows, 4));
    assert(columns[4].text_at(i) == Some(isj::field_texts(rows, 4)[i]));
    geoparquet::lemma_text_column(columns[5], "oaza_name"@, isj::field_texts(rows, 5));
    assert(columns[5].text_at(i) == Some(isj::field_texts(rows, 5)[i]));
    geoparquet::lemma_text_column(columns[6], "origin_code"@, isj::field_texts(rows, 6));
    assert(columns[6].text_at(i) == Some(isj::field_texts(rows, 6)[i]));
    geoparquet::lemma_text_column(columns[7], "classification_code"@, isj::field_texts(rows, 7));
    assert(columns[7].text_at(i) == Some(isj::field_texts(rows, 7)[i]));
}

} // verus!
