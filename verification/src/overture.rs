//! Statements for DuckDB: what is taken from an Overture release, and how it
//! becomes the files that are served.
use crate::geo::Bounds;
use crate::geoparquet;
use crate::geoparquet::{
    geo_metadata_json, geoparquet_geometry_type, CoveringBbox, UnknownGeometryType, VINTAGE_KEY,
};
use crate::json;
use crate::number;
use crate::number::{debug_real, parse_real, show_real, Real};
use crate::text;
use crate::text::{double, join, quote};
use vstd::prelude::*;

verus! {

/// The release that is used unless another is asked for.
pub const DEFAULT_RELEASE: &'static str = "2026-07-22.0";

// ---------------------------------------------------------------------------
// Areas
// ---------------------------------------------------------------------------

/// An area, in degrees.
#[derive(Debug, Clone, Copy, PartialEq, Eq, Structural)]
pub struct BoundingBox {
    pub xmin: Real,
    pub ymin: Real,
    pub xmax: Real,
    pub ymax: Real,
}

/// Why four texts are no area.
#[derive(Debug, PartialEq)]
pub enum BoundingBoxError {
    /// One of them is no number, for that reason.
    NotANumber { side: &'static str, value: String, cause: String },
    /// A lower side is not below the upper one.
    Inverted(BoundingBox),
}

/// The view of a [`BoundingBoxError`].
#[verifier::ext_equal]
pub enum BoundingBoxFault {
    NotANumber { side: Seq<char>, value: Seq<char>, cause: Seq<char> },
    Inverted(BoundingBox),
}

impl View for BoundingBoxError {
    type V = BoundingBoxFault;

    open spec fn view(&self) -> BoundingBoxFault {
        match self {
            BoundingBoxError::NotANumber { side, value, cause } => BoundingBoxFault::NotANumber {
                side: side@,
                value: value@,
                cause: cause@,
            },
            BoundingBoxError::Inverted(b) => BoundingBoxFault::Inverted(*b),
        }
    }
}

impl BoundingBoxFault {
    pub open spec fn spec_text(self) -> Seq<char> {
        match self {
            BoundingBoxFault::NotANumber { side, value, cause } => side
                + " が数値として読めません: "@ + text::quoted(value) + ": "@ + cause,
            BoundingBoxFault::Inverted(b) => "範囲が不正です (min >= max): "@ + b.shown(),
        }
    }
}

impl BoundingBoxError {
    pub fn to_string(&self) -> (text: String)
        ensures
            text@ == self@.spec_text(),
    {
        match self {
            BoundingBoxError::NotANumber { side, value, cause } => {
                let mut text = (*side).to_string();
                text.append(" が数値として読めません: ");
                text.append(quote(value.as_str()).as_str());
                text.append(": ");
                text.append(cause.as_str());
                text
            },
            BoundingBoxError::Inverted(b) => {
                let mut text = "範囲が不正です (min >= max): ".to_string();
                text.append(b.to_text().as_str());
                text
            },
        }
    }
}

/// The area between four texts: the first that is no number is the error, and
/// sides in the wrong order are one.
pub open spec fn area_of(
    xmin: Seq<char>,
    ymin: Seq<char>,
    xmax: Seq<char>,
    ymax: Seq<char>,
) -> Result<BoundingBox, BoundingBoxFault> {
    match (
        number::real_text(xmin),
        number::real_text(ymin),
        number::real_text(xmax),
        number::real_text(ymax),
    ) {
        (Err(cause), _, _, _) => Err(
            BoundingBoxFault::NotANumber { side: "xmin"@, value: xmin, cause },
        ),
        (_, Err(cause), _, _) => Err(
            BoundingBoxFault::NotANumber { side: "ymin"@, value: ymin, cause },
        ),
        (_, _, Err(cause), _) => Err(
            BoundingBoxFault::NotANumber { side: "xmax"@, value: xmax, cause },
        ),
        (_, _, _, Err(cause)) => Err(
            BoundingBoxFault::NotANumber { side: "ymax"@, value: ymax, cause },
        ),
        (Ok(x0), Ok(y0), Ok(x1), Ok(y1)) => BoundingBox {
            xmin: x0,
            ymin: y0,
            xmax: x1,
            ymax: y1,
        }.spec_checked(),
    }
}

impl BoundingBox {
    /// The area itself, unless a lower side is not below the upper one.
    pub open spec fn spec_checked(self) -> Result<BoundingBox, BoundingBoxFault> {
        if self.xmin.reaches(self.xmax) || self.ymin.reaches(self.ymax) {
            Err(BoundingBoxFault::Inverted(self))
        } else {
            Ok(self)
        }
    }

    pub fn checked(self) -> (r: Result<BoundingBox, BoundingBoxError>)
        ensures
            match r {
                Ok(b) => self.spec_checked() == Ok::<BoundingBox, BoundingBoxFault>(b),
                Err(e) => self.spec_checked() == Err::<BoundingBox, BoundingBoxFault>(e@),
            },
    {
        if self.xmin.at_least(&self.xmax) || self.ymin.at_least(&self.ymax) {
            Err(BoundingBoxError::Inverted(self))
        } else {
            Ok(self)
        }
    }

    pub fn parse(xmin: &str, ymin: &str, xmax: &str, ymax: &str) -> (r: Result<
        BoundingBox,
        BoundingBoxError,
    >)
        ensures
            match r {
                Ok(b) => area_of(xmin@, ymin@, xmax@, ymax@) == Ok::<_, BoundingBoxFault>(b),
                Err(e) => area_of(xmin@, ymin@, xmax@, ymax@) == Err::<BoundingBox, _>(e@),
            },
    {
        match (parse_real(xmin), parse_real(ymin), parse_real(xmax), parse_real(ymax)) {
            (Err(cause), _, _, _) => Err(
                BoundingBoxError::NotANumber { side: "xmin", value: xmin.to_string(), cause },
            ),
            (_, Err(cause), _, _) => Err(
                BoundingBoxError::NotANumber { side: "ymin", value: ymin.to_string(), cause },
            ),
            (_, _, Err(cause), _) => Err(
                BoundingBoxError::NotANumber { side: "xmax", value: xmax.to_string(), cause },
            ),
            (_, _, _, Err(cause)) => Err(
                BoundingBoxError::NotANumber { side: "ymax", value: ymax.to_string(), cause },
            ),
            (Ok(x0), Ok(y0), Ok(x1), Ok(y1)) => BoundingBox {
                xmin: x0,
                ymin: y0,
                xmax: x1,
                ymax: y1,
            }.checked(),
        }
    }

    /// The four sides by their names, as text.
    pub open spec fn shown(self) -> Seq<char> {
        "BoundingBox { xmin: "@ + number::real_debug(self.xmin) + ", ymin: "@ + number::real_debug(
            self.ymin,
        ) + ", xmax: "@ + number::real_debug(self.xmax) + ", ymax: "@ + number::real_debug(
            self.ymax,
        ) + " }"@
    }

    pub fn to_text(&self) -> (text: String)
        ensures
            text@ == self.shown(),
    {
        let mut text = "BoundingBox { xmin: ".to_string();
        text.append(debug_real(&self.xmin).as_str());
        text.append(", ymin: ");
        text.append(debug_real(&self.ymin).as_str());
        text.append(", xmax: ");
        text.append(debug_real(&self.xmax).as_str());
        text.append(", ymax: ");
        text.append(debug_real(&self.ymax).as_str());
        text.append(" }");
        text
    }
}

/// An area that holds all of Japan, and parts of its neighbours: 122 to 154
/// degrees east, 20 to 46 degrees north.
pub open spec fn spec_japan_bbox() -> BoundingBox {
    BoundingBox {
        xmin: Real { bits: 0x405e_8000_0000_0000 },
        ymin: Real { bits: 0x4034_0000_0000_0000 },
        xmax: Real { bits: 0x4063_4000_0000_0000 },
        ymax: Real { bits: 0x4047_0000_0000_0000 },
    }
}

pub fn japan_bbox() -> (b: BoundingBox)
    ensures
        b == spec_japan_bbox(),
{
    BoundingBox {
        xmin: Real { bits: 0x405e_8000_0000_0000 },
        ymin: Real { bits: 0x4034_0000_0000_0000 },
        xmax: Real { bits: 0x4063_4000_0000_0000 },
        ymax: Real { bits: 0x4047_0000_0000_0000 },
    }
}

/// The condition that the lower left corner lies in an area, from the number
/// behind its first `BETWEEN` on.
pub open spec fn between(bbox: BoundingBox, ymin_between: Seq<char>) -> Seq<char> {
    number::real_shown(bbox.xmin) + " AND "@ + number::real_shown(bbox.xmax) + ymin_between
        + number::real_shown(bbox.ymin) + " AND "@ + number::real_shown(bbox.ymax)
}

fn between_text(bbox: &BoundingBox, ymin_between: &str) -> (text: String)
    ensures
        text@ == between(*bbox, ymin_between@),
{
    let mut text = show_real(&bbox.xmin);
    let xmax = show_real(&bbox.xmax);
    let ymin = show_real(&bbox.ymin);
    let ymax = show_real(&bbox.ymax);
    text.append(" AND ");
    text.append(xmax.as_str());
    text.append(ymin_between);
    text.append(ymin.as_str());
    text.append(" AND ");
    text.append(ymax.as_str());
    text
}

// ---------------------------------------------------------------------------
// Choices
// ---------------------------------------------------------------------------

/// The rows of divisions that are municipalities.
///
/// A `locality` can also be a county or some other place. A municipality's name
/// ends in one of these four characters, and that leaves exactly the
/// municipalities.
pub const MUNICIPALITY_FILTER: &'static str =
    "subtype = 'locality' AND name SIMILAR TO '.*(市|町|村|区)'";

/// The area, in square degrees, up to which a part of a clipped area is a
/// splinter. What cutting leaves along the edge of the sea stays three orders
/// of magnitude below it, and the smallest island is above.
pub const SLIVER_AREA: &'static str = "1e-12";

/// Settings for joining by geometry. What its functions allocate does not count
/// toward the memory limit, so fewer threads are used.
pub const SPATIAL_JOIN_SETTINGS: &'static str = "SET threads = 4;
SET memory_limit = '2GB';
SET preserve_insertion_order = false;";

/// The classes of roads that are kept: those with much traffic.
pub open spec fn spec_road_classes() -> Seq<Seq<char>> {
    seq!["motorway"@, "trunk"@, "primary"@]
}

pub fn road_classes() -> (classes: Vec<String>)
    ensures
        text::texts(classes@) == spec_road_classes(),
{
    let mut classes: Vec<String> = Vec::new();
    classes.push("motorway".to_string());
    classes.push("trunk".to_string());
    classes.push("primary".to_string());
    assert(text::texts(classes@) =~= spec_road_classes());
    classes
}

/// Texts as a list of literals.
pub open spec fn literals(list: Seq<Seq<char>>) -> Seq<char> {
    text::joined(Seq::new(list.len(), |i: int| "'"@ + list[i] + "'"@), ", "@)
}

pub open spec fn class_list() -> Seq<char> {
    literals(spec_road_classes())
}

fn road_class_list() -> (list: String)
    ensures
        list@ == class_list(),
{
    let classes = road_classes();
    let ghost all = text::texts(classes@);
    let mut quoted: Vec<String> = Vec::new();
    let mut i: usize = 0;
    while i < classes.len()
        invariant
            i <= classes@.len(),
            all == text::texts(classes@),
            quoted@.len() == i,
            forall|j: int| 0 <= j < i ==> (#[trigger] quoted@[j])@ == "'"@ + all[j] + "'"@,
        decreases classes@.len() - i,
    {
        let mut one = "'".to_string();
        one.append(classes[i].as_str());
        one.append("'");
        quoted.push(one);
        i = i + 1;
    }
    assert(text::texts(quoted@) =~= Seq::new(all.len(), |i: int| "'"@ + all[i] + "'"@));
    join(&quoted, ", ")
}

// ---------------------------------------------------------------------------
// Pieces of statements
// ---------------------------------------------------------------------------

pub const BUILDINGS_SELECT: &'static str = "INSTALL spatial; LOAD spatial;
INSTALL httpfs; LOAD httpfs;
SET s3_region='us-west-2';
COPY (
  SELECT
    id,
    names.primary AS name,
    class,
    subtype,
    height,
    num_floors,
    -- 表示範囲での絞り込みに使う covering 列。
    -- これを落とすと、あとで毎回ジオメトリ本体を評価する羽目になる。
    bbox,
    geometry
  FROM read_parquet(
    's3://overturemaps-us-west-2/release/";

pub const BUILDINGS_WHERE: &'static str = "/theme=buildings/type=building/*',
    hive_partitioning=1
  )
  WHERE bbox.xmin BETWEEN ";

pub const DIVISIONS_SELECT: &'static str = "INSTALL spatial; LOAD spatial;
INSTALL httpfs; LOAD httpfs;
SET s3_region='us-west-2';
COPY (
  WITH divisions AS MATERIALIZED (
    SELECT
      id,
      names.primary AS name,
      subtype,
      region,
      -- 表示範囲での絞り込みに使う covering 列。
      bbox,
      geometry
    FROM read_parquet(
      's3://overturemaps-us-west-2/release/";

pub const DIVISIONS_WHERE: &'static str = "/theme=divisions/type=division_area/*',
      hive_partitioning=1
    )
    -- covering列で先に絞る。これがrow groupの読み飛ばしに効くので、
    -- 国名だけで絞るより取得量がずっと小さくなる。
    -- 範囲の交差判定ではなく xmin が範囲内という条件にしているのは、
    -- 交差判定だと「この経度より東の全row group」が通ってしまい枝刈りが効かないため。
    WHERE bbox.xmin BETWEEN ";

pub const DIVISIONS_COUNTRY: &'static str = "
      -- bboxには近隣国も入るので、国で正確に絞る。
      AND country = '";

pub const DIVISIONS_JOIN: &'static str = "'
      -- class='land' で海域の区画を落とす。
      AND class = 'land'
  ),
  regions AS (
    SELECT region, name FROM divisions WHERE subtype = 'region'
  )
  SELECT
    divisions.id,
    divisions.name,
    divisions.subtype,
    divisions.region,
    regions.name AS pref_name,
    divisions.bbox,
    divisions.geometry
  FROM divisions LEFT JOIN regions USING (region)
) TO '";

pub const OCEAN_SELECT: &'static str = "INSTALL spatial; LOAD spatial;
INSTALL httpfs; LOAD httpfs;
SET s3_region='us-west-2';
COPY (
  SELECT
    -- 範囲が重なるものだけを相手にするので、bbox列は落とさない。
    bbox,
    geometry
  FROM read_parquet(
    's3://overturemaps-us-west-2/release/";

pub const OCEAN_WHERE: &'static str = "/theme=base/type=water/*',
    hive_partitioning=1
  )
  -- divisionsの切り出しと同じく、covering列で先に絞ってrow groupを読み飛ばす。
  WHERE bbox.xmin BETWEEN ";

pub const OCEAN_SUBTYPE: &'static str = "
    AND subtype = 'ocean'
) TO '";

pub const CLIP_SEA: &'static str = "INSTALL spatial; LOAD spatial;
-- 空間関数の中で確保されるメモリはDuckDBの memory_limit の外側にあり、
-- 並列度をそのまま掛けた分だけ実メモリを踏む。既定の並列度で流すと
-- 7GBの環境ではOSごと巻き込んで落ちたので、控えめに固定する。
SET threads=4;
COPY (
  -- 削るのは市区町村だけ。国 (1件) や都道府県 (47件) の区画は日本中の海域と
  -- 範囲が重なるので、同じことをすると海を丸ごと1ポリゴンに束ねる羽目になる。
  -- 配信しているのは市区町村なので、それ以外はそのまま通す。
  WITH sea AS (
    SELECT id, ST_Union_Agg(part) AS geometry
    FROM (
      -- 先に区画で切ってから束ねる。海域ポリゴンをそのまま束ねると、
      -- 1つ数万頂点のタイルが積み上がって現実的なメモリに収まらない。
      -- 交差部分は必ず区画の中に収まるので、束ねても小さいままになる。
      SELECT d.id AS id, ST_Intersection(d.geometry, o.geometry) AS part
      FROM read_parquet('";

pub const CLIP_OVERLAP: &'static str = "') o
        ON o.bbox.xmin <= d.bbox.xmax AND o.bbox.xmax >= d.bbox.xmin
       AND o.bbox.ymin <= d.bbox.ymax AND o.bbox.ymax >= d.bbox.ymin
      WHERE ";

pub const CLIP_AREAS: &'static str = "
    )
    WHERE NOT ST_IsEmpty(part)
    GROUP BY id
  ),
  clipped AS (
    SELECT
      d.id,
      d.name,
      d.subtype,
      d.region,
      d.pref_name,
      -- 海に接していない区画は結合相手が無い。元の形をそのまま使う。
      -- 削った区画からは破片を落とす (下記 SLIVER_AREA)。
      CASE
        WHEN sea.geometry IS NULL THEN d.geometry
        ELSE ST_Collect(list_transform(
               list_filter(
                 ST_Dump(ST_Difference(d.geometry, sea.geometry)),
                 lambda part: ST_Area(part.geom) > ";

pub const CLIP_PARTS: &'static str = "
               ),
               lambda part: part.geom
             ))
      END AS geometry
    FROM read_parquet('";

pub const CLIP_COLUMNS: &'static str = "') d
    LEFT JOIN sea ON sea.id = d.id
  )
  SELECT
    id,
    name,
    subtype,
    region,
    pref_name,
    {
      xmin: ST_XMin(geometry),
      xmax: ST_XMax(geometry),
      ymin: ST_YMin(geometry),
      ymax: ST_YMax(geometry)
    } AS bbox,
    geometry
  FROM clipped
  -- 海しか無かった区画は消える。
  WHERE NOT ST_IsEmpty(geometry)
) TO '";

pub const ADMIN_STATS: &'static str = "INSTALL spatial; LOAD spatial;
SELECT
  min(bbox.xmin) AS xmin,
  min(bbox.ymin) AS ymin,
  max(bbox.xmax) AS xmax,
  max(bbox.ymax) AS ymax,
  -- ST_GeometryType は列挙型を返すので、そのままだとJSONにできない。
  list_sort(list_distinct(list(ST_GeometryType(geometry)::VARCHAR))) AS geometry_types
";

pub const ROADS_SELECT: &'static str = "INSTALL spatial; LOAD spatial;
INSTALL httpfs; LOAD httpfs;
SET s3_region='us-west-2';
-- **メモリを絞って流す。** 全国の幹線は87万区間あり、既定のままだと
-- 書き出しまで抱え込んでOOMで殺される (実測: 81MBまで書いたところで落ちた)。
-- 取り出しは射影と絞り込みだけなので、順序さえ保たなければ流しながら書ける。
-- 並べ替えはこのあと optimize_geoparquet が空間充填曲線でやり直すので、
-- ここでの行順には意味が無い。
SET preserve_insertion_order = false;
SET memory_limit = '2GB';
COPY (
  SELECT
    names.primary AS road_name,
    class,
    -- routes が丸ごとNULLのこともあるので、空リストに寄せてから展開する。
    -- **先に routes を絞ってから2つのリストを作る。** 名前と系統を別々に絞ると、
    -- 名前だけ欠けた路線があったときに長さがずれ、添字で対応づけると違う組になる
    -- (実測で6.3万区間がずれていた)。
    list_transform(
      list_filter(coalesce(routes, []), lambda r: r.name IS NOT NULL), lambda r: r.name
    ) AS route_names,
    list_transform(
      list_filter(coalesce(routes, []), lambda r: r.name IS NOT NULL), lambda r: r.network
    ) AS networks,
    -- 表示範囲での絞り込みに使う covering 列。
    bbox,
    geometry
  FROM read_parquet(
    's3://overturemaps-us-west-2/release/";

pub const ROADS_WHERE: &'static str = "/theme=transportation/type=segment/*',
    hive_partitioning=1
  )
  -- covering列で先に絞る。divisionsと同じ理由で、交差判定ではなく
  -- xmin/yminが範囲内という条件にしてrow groupの読み飛ばしを効かせる。
  WHERE bbox.xmin BETWEEN ";

pub const ROADS_CLASS: &'static str = "
    AND subtype = 'road'
    AND class IN (";

pub const JAPAN_EXISTS: &'static str = "(
    EXISTS (
      SELECT 1 FROM read_parquet('";

pub const JAPAN_OVERLAP: &'static str = "
        AND jp.bbox.xmin <= r.bbox.xmax AND jp.bbox.xmax >= r.bbox.xmin
        AND jp.bbox.ymin <= r.bbox.ymax AND jp.bbox.ymax >= r.bbox.ymin
        AND ST_Intersects(jp.geometry, r.geometry)
    )
    OR len(list_filter(r.networks, lambda n: starts_with(n, 'JP'))) > 0
  )";

pub const ROADS_STATS: &'static str = "
SELECT
  min(r.bbox.xmin) AS xmin,
  min(r.bbox.ymin) AS ymin,
  max(r.bbox.xmax) AS xmax,
  max(r.bbox.ymax) AS ymax,
  list_sort(list_distinct(list(ST_GeometryType(r.geometry)::VARCHAR))) AS geometry_types
";

pub const ROADS_COLUMNS: &'static str = "
COPY (
  SELECT
    r.road_name,
    r.class,
    r.route_names,
    r.bbox,
    ST_AsWKB(r.geometry)::BLOB AS geometry
  ";

pub const METADATA: &'static str = "' (FORMAT PARQUET, KV_METADATA {
  geo: '";

pub const ROUTES_SELECT: &'static str = "COPY (
  SELECT
    route_name,
    -- 等級は代表値。1つの路線が高速と国道をまたぐことは稀。
    mode(class) AS class,
    count(*) AS segments,
    {
      xmin: min(bbox.xmin),
      ymin: min(bbox.ymin),
      xmax: max(bbox.xmax),
      ymax: max(bbox.ymax)
    } AS bbox
  FROM (
    SELECT unnest(route_names) AS route_name, class, bbox
    FROM read_parquet('";

pub const ROUTES_GROUP: &'static str = "')
  )
  GROUP BY route_name
  ORDER BY route_name
) TO '";

pub const ADMIN_COLUMNS: &'static str = "INSTALL spatial; LOAD spatial;
COPY (
  SELECT
    id AS admin_id,
    pref_name,
    NULL::VARCHAR AS county_name,
    name AS city_name,
    NULL::VARCHAR AS ward_name,
    bbox,
    ST_AsWKB(geometry)::BLOB AS geometry
  ";

// ---------------------------------------------------------------------------
// Statements
// ---------------------------------------------------------------------------

/// Takes the buildings of an area out of an Overture release.
///
/// The files are GeoParquet already. DuckDB reads them where they lie and writes
/// what stands in the area.
pub open spec fn extract_sql(
    release: Seq<char>,
    bbox: BoundingBox,
    output: Seq<char>,
) -> Seq<char> {
    BUILDINGS_SELECT@
        + release
        + BUILDINGS_WHERE@
        + between(bbox, "\n    AND bbox.ymin BETWEEN "@)
        + "\n) TO '"@
        + output
        + "' (FORMAT PARQUET);"@
}

pub fn build_extract_sql(release: &str, bbox: BoundingBox, output: &str) -> (sql: String)
    ensures
        sql@ == extract_sql(release@, bbox, output@),
{
    let area = between_text(&bbox, "\n    AND bbox.ymin BETWEEN ");
    let mut sql = BUILDINGS_SELECT.to_string();
    sql.append(release);
    sql.append(BUILDINGS_WHERE);
    sql.append(area.as_str());
    sql.append("\n) TO '");
    sql.append(output);
    sql.append("' (FORMAT PARQUET);");
    sql
}

/// Takes the administrative areas of one country out of an Overture release.
///
/// Areas of every kind are kept: which of them to use is decided later, from the
/// file that this makes.
pub open spec fn divisions_extract_sql(
    release: Seq<char>,
    country: Seq<char>,
    bbox: BoundingBox,
    output: Seq<char>,
) -> Seq<char> {
    DIVISIONS_SELECT@
        + release
        + DIVISIONS_WHERE@
        + between(bbox, "\n      AND bbox.ymin BETWEEN "@)
        + DIVISIONS_COUNTRY@
        + country
        + DIVISIONS_JOIN@
        + output
        + "' (FORMAT PARQUET);"@
}

pub fn build_divisions_extract_sql(
    release: &str,
    country: &str,
    bbox: BoundingBox,
    output: &str,
) -> (sql: String)
    ensures
        sql@ == divisions_extract_sql(release@, country@, bbox, output@),
{
    let area = between_text(&bbox, "\n      AND bbox.ymin BETWEEN ");
    let mut sql = DIVISIONS_SELECT.to_string();
    sql.append(release);
    sql.append(DIVISIONS_WHERE);
    sql.append(area.as_str());
    sql.append(DIVISIONS_COUNTRY);
    sql.append(country);
    sql.append(DIVISIONS_JOIN);
    sql.append(output);
    sql.append("' (FORMAT PARQUET);");
    sql
}

/// Takes the sea out of an Overture release, to cut it from administrative areas.
pub open spec fn ocean_extract_sql(
    release: Seq<char>,
    bbox: BoundingBox,
    output: Seq<char>,
) -> Seq<char> {
    OCEAN_SELECT@
        + release
        + OCEAN_WHERE@
        + between(bbox, "\n    AND bbox.ymin BETWEEN "@)
        + OCEAN_SUBTYPE@
        + output
        + "' (FORMAT PARQUET);"@
}

pub fn build_ocean_extract_sql(release: &str, bbox: BoundingBox, output: &str) -> (sql: String)
    ensures
        sql@ == ocean_extract_sql(release@, bbox, output@),
{
    let area = between_text(&bbox, "\n    AND bbox.ymin BETWEEN ");
    let mut sql = OCEAN_SELECT.to_string();
    sql.append(release);
    sql.append(OCEAN_WHERE);
    sql.append(area.as_str());
    sql.append(OCEAN_SUBTYPE);
    sql.append(output);
    sql.append("' (FORMAT PARQUET);");
    sql
}

/// Cuts the sea from administrative areas. The columns stay as they are; the
/// bounds are made anew.
pub open spec fn clip_ocean_sql(
    divisions: Seq<char>,
    ocean: Seq<char>,
    output: Seq<char>,
) -> Seq<char> {
    CLIP_SEA@
        + divisions
        + "') d\n      JOIN read_parquet('"@
        + ocean
        + CLIP_OVERLAP@
        + MUNICIPALITY_FILTER@
        + CLIP_AREAS@
        + SLIVER_AREA@
        + CLIP_PARTS@
        + divisions
        + CLIP_COLUMNS@
        + output
        + "' (FORMAT PARQUET);"@
}

pub fn build_clip_ocean_sql(divisions: &str, ocean: &str, output: &str) -> (sql: String)
    ensures
        sql@ == clip_ocean_sql(divisions@, ocean@, output@),
{
    let mut sql = CLIP_SEA.to_string();
    sql.append(divisions);
    sql.append("') d\n      JOIN read_parquet('");
    sql.append(ocean);
    sql.append(CLIP_OVERLAP);
    sql.append(MUNICIPALITY_FILTER);
    sql.append(CLIP_AREAS);
    sql.append(SLIVER_AREA);
    sql.append(CLIP_PARTS);
    sql.append(divisions);
    sql.append(CLIP_COLUMNS);
    sql.append(output);
    sql.append("' (FORMAT PARQUET);");
    sql
}

/// The rows of the municipalities in a file. `gap` is the space between clauses.
pub open spec fn admin_rows(input: Seq<char>, gap: Seq<char>) -> Seq<char> {
    "FROM read_parquet('"@ + input + "')"@ + gap + "WHERE "@ + MUNICIPALITY_FILTER@
}

fn push_admin_rows(sql: &mut String, input: &str, gap: &str)
    ensures
        final(sql)@ == old(sql)@ + admin_rows(input@, gap@),
{
    let ghost before = sql@;
    sql.append("FROM read_parquet('");
    sql.append(input);
    sql.append("')");
    sql.append(gap);
    sql.append("WHERE ");
    sql.append(MUNICIPALITY_FILTER);
    assert(sql@ =~= before + admin_rows(input@, gap@));
}

/// Asks for the extent and the geometry types of the municipalities.
pub open spec fn admin_stats_sql(input: Seq<char>) -> Seq<char> {
    ADMIN_STATS@ + admin_rows(input, "\n"@) + ";"@
}

pub fn build_admin_stats_sql(input: &str) -> (sql: String)
    ensures
        sql@ == admin_stats_sql(input@),
{
    let mut sql = ADMIN_STATS.to_string();
    push_admin_rows(&mut sql, input, "\n");
    sql.append(";");
    sql
}

/// Takes the trunk roads out of an Overture release. A section can belong to
/// several routes, so they stay a list.
pub open spec fn roads_extract_sql(
    release: Seq<char>,
    bbox: BoundingBox,
    output: Seq<char>,
) -> Seq<char> {
    ROADS_SELECT@
        + release
        + ROADS_WHERE@
        + between(bbox, "\n    AND bbox.ymin BETWEEN "@)
        + ROADS_CLASS@
        + class_list()
        + ")\n) TO '"@
        + output
        + "' (FORMAT PARQUET);"@
}

pub fn build_roads_extract_sql(release: &str, bbox: BoundingBox, output: &str) -> (sql: String)
    ensures
        sql@ == roads_extract_sql(release@, bbox, output@),
{
    let area = between_text(&bbox, "\n    AND bbox.ymin BETWEEN ");
    let classes = road_class_list();
    let mut sql = ROADS_SELECT.to_string();
    sql.append(release);
    sql.append(ROADS_WHERE);
    sql.append(area.as_str());
    sql.append(ROADS_CLASS);
    sql.append(classes.as_str());
    sql.append(")\n) TO '");
    sql.append(output);
    sql.append("' (FORMAT PARQUET);");
    sql
}

/// The condition that keeps the roads of Japan, on a table `r` of roads: those
/// that meet a municipality, and those of a Japanese road network.
pub open spec fn japan_filter_sql(divisions: Seq<char>) -> Seq<char> {
    JAPAN_EXISTS@
        + divisions
        + "') jp\n      WHERE "@
        + MUNICIPALITY_FILTER@
        + JAPAN_OVERLAP@
}

pub fn japan_road_filter(divisions: &str) -> (sql: String)
    ensures
        sql@ == japan_filter_sql(divisions@),
{
    let mut sql = JAPAN_EXISTS.to_string();
    sql.append(divisions);
    sql.append("') jp\n      WHERE ");
    sql.append(MUNICIPALITY_FILTER);
    sql.append(JAPAN_OVERLAP);
    sql
}

/// The rows of the roads of one class in a file, those of Japan. `gap` is the
/// space between clauses.
pub open spec fn road_rows(
    input: Seq<char>,
    divisions: Seq<char>,
    class: Seq<char>,
    gap: Seq<char>,
) -> Seq<char> {
    "FROM read_parquet('"@ + input + "') r"@ + gap + "WHERE r.class = '"@ + class + "'"@ + gap
        + "  AND "@ + japan_filter_sql(divisions)
}

fn push_road_rows(sql: &mut String, input: &str, divisions: &str, class: &str, gap: &str)
    ensures
        final(sql)@ == old(sql)@ + road_rows(input@, divisions@, class@, gap@),
{
    let ghost before = sql@;
    let japan = japan_road_filter(divisions);
    sql.append("FROM read_parquet('");
    sql.append(input);
    sql.append("') r");
    sql.append(gap);
    sql.append("WHERE r.class = '");
    sql.append(class);
    sql.append("'");
    sql.append(gap);
    sql.append("  AND ");
    sql.append(japan.as_str());
    assert(sql@ =~= before + road_rows(input@, divisions@, class@, gap@));
}

/// Asks for the extent and the geometry types of the roads of one class.
pub open spec fn roads_stats_sql(
    input: Seq<char>,
    divisions: Seq<char>,
    class: Seq<char>,
) -> Seq<char> {
    "INSTALL spatial; LOAD spatial;\n"@
        + SPATIAL_JOIN_SETTINGS@
        + ROADS_STATS@
        + road_rows(input, divisions, class, "\n"@)
        + ";"@
}

pub fn build_roads_stats_sql(input: &str, divisions: &str, class: &str) -> (sql: String)
    ensures
        sql@ == roads_stats_sql(input@, divisions@, class@),
{
    let mut sql = "INSTALL spatial; LOAD spatial;\n".to_string();
    sql.append(SPATIAL_JOIN_SETTINGS);
    sql.append(ROADS_STATS);
    push_road_rows(&mut sql, input, divisions, class, "\n");
    sql.append(";");
    sql
}

/// Writes the roads of one class, with metadata of its own.
pub open spec fn roads_sql(
    input: Seq<char>,
    divisions: Seq<char>,
    class: Seq<char>,
    output: Seq<char>,
    geo_metadata_json: Seq<char>,
    vintage: Seq<char>,
) -> Seq<char> {
    "INSTALL spatial; LOAD spatial;\n"@
        + SPATIAL_JOIN_SETTINGS@
        + ROADS_COLUMNS@
        + road_rows(input, divisions, class, "\n  "@)
        + "\n) TO '"@
        + output
        + METADATA@
        + text::doubled(geo_metadata_json, '\'')
        + "',\n  '"@
        + VINTAGE_KEY@
        + "': '"@
        + text::doubled(vintage, '\'')
        + "'\n});"@
}

pub fn build_roads_sql(
    input: &str,
    divisions: &str,
    class: &str,
    output: &str,
    geo_metadata_json: &str,
    vintage: &str,
) -> (sql: String)
    ensures
        sql@ == roads_sql(input@, divisions@, class@, output@, geo_metadata_json@, vintage@),
{
    let escaped = double(geo_metadata_json, '\'');
    let dated = double(vintage, '\'');
    let mut sql = "INSTALL spatial; LOAD spatial;\n".to_string();
    sql.append(SPATIAL_JOIN_SETTINGS);
    sql.append(ROADS_COLUMNS);
    push_road_rows(&mut sql, input, divisions, class, "\n  ");
    sql.append("\n) TO '");
    sql.append(output);
    sql.append(METADATA);
    sql.append(escaped.as_str());
    sql.append("',\n  '");
    sql.append(VINTAGE_KEY);
    sql.append("': '");
    sql.append(dated.as_str());
    sql.append("'\n});");
    sql
}

/// Makes an index of the routes from the files of roads: where each lies, and
/// no geometry.
pub open spec fn road_routes_sql(input_glob: Seq<char>, output: Seq<char>) -> Seq<char> {
    ROUTES_SELECT@
        + input_glob
        + ROUTES_GROUP@
        + output
        + "' (FORMAT PARQUET);"@
}

pub fn build_road_routes_sql(input_glob: &str, output: &str) -> (sql: String)
    ensures
        sql@ == road_routes_sql(input_glob@, output@),
{
    let mut sql = ROUTES_SELECT.to_string();
    sql.append(input_glob);
    sql.append(ROUTES_GROUP);
    sql.append(output);
    sql.append("' (FORMAT PARQUET);");
    sql
}

/// Writes the municipalities under the columns that all sources of areas share,
/// with metadata of its own.
pub open spec fn admin_sql(
    input: Seq<char>,
    output: Seq<char>,
    geo_metadata_json: Seq<char>,
) -> Seq<char> {
    ADMIN_COLUMNS@
        + admin_rows(input, "\n  "@)
        + "\n) TO '"@
        + output
        + "' (FORMAT PARQUET, KV_METADATA { geo: '"@
        + text::doubled(geo_metadata_json, '\'')
        + "' });"@
}

pub fn build_admin_sql(input: &str, output: &str, geo_metadata_json: &str) -> (sql: String)
    ensures
        sql@ == admin_sql(input@, output@, geo_metadata_json@),
{
    let escaped = double(geo_metadata_json, '\'');
    let mut sql = ADMIN_COLUMNS.to_string();
    push_admin_rows(&mut sql, input, "\n  ");
    sql.append("\n) TO '");
    sql.append(output);
    sql.append("' (FORMAT PARQUET, KV_METADATA { geo: '");
    sql.append(escaped.as_str());
    sql.append("' });");
    sql
}

// ---------------------------------------------------------------------------
// Laws
// ---------------------------------------------------------------------------

/// What is counted is what is written: the statement that asks for the extent
/// of the municipalities and the one that writes them choose rows by the same
/// clauses, up to the space between them, and nothing narrows the choice further.
pub proof fn law_admin_statements_choose_the_same_rows(
    input: Seq<char>,
    output: Seq<char>,
    geo_metadata_json: Seq<char>,
)
    ensures
        admin_stats_sql(input) == ADMIN_STATS@ + admin_rows(input, "\n"@) + ";"@,
        admin_sql(input, output, geo_metadata_json) == ADMIN_COLUMNS@ + admin_rows(
            input,
            "\n  "@,
        ) + ("\n) TO '"@ + output + "' (FORMAT PARQUET, KV_METADATA { geo: '"@ + text::doubled(
            geo_metadata_json,
            '\'',
        ) + "' });"@),
        text::has_part(admin_stats_sql(input), MUNICIPALITY_FILTER@),
        text::has_part(admin_sql(input, output, geo_metadata_json), MUNICIPALITY_FILTER@),
{
    let tail = "\n) TO '"@ + output + "' (FORMAT PARQUET, KV_METADATA { geo: '"@ + text::doubled(
        geo_metadata_json,
        '\'',
    ) + "' });"@;
    let first = "FROM read_parquet('"@ + input + "')"@ + "\n"@ + "WHERE "@;
    let second = "FROM read_parquet('"@ + input + "')"@ + "\n  "@ + "WHERE "@;
    assert(admin_stats_sql(input) =~= (ADMIN_STATS@ + first) + MUNICIPALITY_FILTER@ + ";"@);
    assert(admin_sql(input, output, geo_metadata_json) =~= (ADMIN_COLUMNS@ + second)
        + MUNICIPALITY_FILTER@ + tail);
    assert(admin_sql(input, output, geo_metadata_json) =~= ADMIN_COLUMNS@ + admin_rows(
        input,
        "\n  "@,
    ) + tail);
    text::lemma_part_between(ADMIN_STATS@ + first, MUNICIPALITY_FILTER@, ";"@);
    text::lemma_part_between(ADMIN_COLUMNS@ + second, MUNICIPALITY_FILTER@, tail);
}

/// The same holds of roads: both statements choose the roads of one class in
/// Japan by the same clauses, up to the space between them.
pub proof fn law_road_statements_choose_the_same_rows(
    input: Seq<char>,
    divisions: Seq<char>,
    class: Seq<char>,
    output: Seq<char>,
    geo_metadata_json: Seq<char>,
    vintage: Seq<char>,
)
    ensures
        roads_stats_sql(input, divisions, class) == "INSTALL spatial; LOAD spatial;\n"@
            + SPATIAL_JOIN_SETTINGS@ + ROADS_STATS@ + road_rows(input, divisions, class, "\n"@)
            + ";"@,
        roads_sql(input, divisions, class, output, geo_metadata_json, vintage)
            == "INSTALL spatial; LOAD spatial;\n"@ + SPATIAL_JOIN_SETTINGS@ + ROADS_COLUMNS@
            + road_rows(input, divisions, class, "\n  "@) + ("\n) TO '"@ + output + METADATA@
            + text::doubled(geo_metadata_json, '\'') + "',\n  '"@ + VINTAGE_KEY@ + "': '"@
            + text::doubled(vintage, '\'') + "'\n});"@),
{
    let tail = "\n) TO '"@ + output + METADATA@ + text::doubled(geo_metadata_json, '\'')
        + "',\n  '"@ + VINTAGE_KEY@ + "': '"@ + text::doubled(vintage, '\'') + "'\n});"@;
    let head = "INSTALL spatial; LOAD spatial;\n"@ + SPATIAL_JOIN_SETTINGS@ + ROADS_COLUMNS@
        + road_rows(input, divisions, class, "\n  "@);
    assert(roads_sql(input, divisions, class, output, geo_metadata_json, vintage) =~= head + tail);
}

/// Clipping the sea leaves everything but municipalities as it is.
pub proof fn law_clipping_is_for_municipalities(
    divisions: Seq<char>,
    ocean: Seq<char>,
    output: Seq<char>,
)
    ensures
        text::has_part(
            clip_ocean_sql(divisions, ocean, output),
            CLIP_OVERLAP@ + MUNICIPALITY_FILTER@,
        ),
{
    let part = CLIP_OVERLAP@ + MUNICIPALITY_FILTER@;
    let head = CLIP_SEA@ + divisions + "') d\n      JOIN read_parquet('"@ + ocean;
    assert(head + part =~= head + CLIP_OVERLAP@ + MUNICIPALITY_FILTER@);
    let s0 = head + part + CLIP_AREAS@;
    let s1 = s0 + SLIVER_AREA@;
    let s2 = s1 + CLIP_PARTS@;
    let s3 = s2 + divisions;
    let s4 = s3 + CLIP_COLUMNS@;
    let s5 = s4 + output;
    text::lemma_part_between(head, part, CLIP_AREAS@);
    text::lemma_part_grows(s0, part, SLIVER_AREA@);
    text::lemma_part_grows(s1, part, CLIP_PARTS@);
    text::lemma_part_grows(s2, part, divisions);
    text::lemma_part_grows(s3, part, CLIP_COLUMNS@);
    text::lemma_part_grows(s4, part, output);
    text::lemma_part_grows(s5, part, "' (FORMAT PARQUET);"@);
}

/// Buildings are taken from the release that is named, those whose lower left
/// corner lies in the area: from its western to its eastern edge, and from its
/// southern to its northern edge. Nothing else narrows or widens the choice.
pub proof fn law_buildings_begin_in_the_area(
    release: Seq<char>,
    bbox: BoundingBox,
    output: Seq<char>,
)
    ensures
        text::has_suffix(
            extract_sql(release, bbox, output),
            release + "/theme=buildings/type=building/*',
    hive_partitioning=1
  )
  WHERE bbox.xmin BETWEEN "@
                + number::real_shown(bbox.xmin) + " AND "@
                + number::real_shown(bbox.xmax)
                + "\n    AND bbox.ymin BETWEEN "@
                + number::real_shown(bbox.ymin) + " AND "@
                + number::real_shown(bbox.ymax)
                + "\n) TO '"@ + output + "' (FORMAT PARQUET);"@,
        ),
{
    let tail = release + "/theme=buildings/type=building/*',
    hive_partitioning=1
  )
  WHERE bbox.xmin BETWEEN "@
        + number::real_shown(bbox.xmin) + " AND "@
        + number::real_shown(bbox.xmax)
        + "\n    AND bbox.ymin BETWEEN "@
        + number::real_shown(bbox.ymin) + " AND "@
        + number::real_shown(bbox.ymax)
        + "\n) TO '"@ + output + "' (FORMAT PARQUET);"@;
    assert(extract_sql(release, bbox, output) =~= BUILDINGS_SELECT@ + tail);
    text::lemma_suffix(BUILDINGS_SELECT@, tail);
}

/// Administrative areas are taken where their lower left corner lies in the
/// area, they are of the country and they are land, all three. Each has the
/// name of the region that it lies in beside it.
pub proof fn law_divisions_are_land_of_one_country(
    release: Seq<char>,
    country: Seq<char>,
    bbox: BoundingBox,
    output: Seq<char>,
)
    ensures
        text::has_suffix(
            divisions_extract_sql(release, country, bbox, output),
            release + "/theme=divisions/type=division_area/*',
      hive_partitioning=1
    )
    -- covering列で先に絞る。これがrow groupの読み飛ばしに効くので、
    -- 国名だけで絞るより取得量がずっと小さくなる。
    -- 範囲の交差判定ではなく xmin が範囲内という条件にしているのは、
    -- 交差判定だと「この経度より東の全row group」が通ってしまい枝刈りが効かないため。
    WHERE bbox.xmin BETWEEN "@
                + number::real_shown(bbox.xmin) + " AND "@
                + number::real_shown(bbox.xmax)
                + "\n      AND bbox.ymin BETWEEN "@
                + number::real_shown(bbox.ymin) + " AND "@
                + number::real_shown(bbox.ymax) + "
      -- bboxには近隣国も入るので、国で正確に絞る。
      AND country = '"@ + country + "'
      -- class='land' で海域の区画を落とす。
      AND class = 'land'
  ),
  regions AS (
    SELECT region, name FROM divisions WHERE subtype = 'region'
  )
  SELECT
    divisions.id,
    divisions.name,
    divisions.subtype,
    divisions.region,
    regions.name AS pref_name,
    divisions.bbox,
    divisions.geometry
  FROM divisions LEFT JOIN regions USING (region)
) TO '"@ + output + "' (FORMAT PARQUET);"@,
        ),
{
    let tail = release + "/theme=divisions/type=division_area/*',
      hive_partitioning=1
    )
    -- covering列で先に絞る。これがrow groupの読み飛ばしに効くので、
    -- 国名だけで絞るより取得量がずっと小さくなる。
    -- 範囲の交差判定ではなく xmin が範囲内という条件にしているのは、
    -- 交差判定だと「この経度より東の全row group」が通ってしまい枝刈りが効かないため。
    WHERE bbox.xmin BETWEEN "@
                + number::real_shown(bbox.xmin) + " AND "@
                + number::real_shown(bbox.xmax)
                + "\n      AND bbox.ymin BETWEEN "@
                + number::real_shown(bbox.ymin) + " AND "@
                + number::real_shown(bbox.ymax) + "
      -- bboxには近隣国も入るので、国で正確に絞る。
      AND country = '"@ + country + "'
      -- class='land' で海域の区画を落とす。
      AND class = 'land'
  ),
  regions AS (
    SELECT region, name FROM divisions WHERE subtype = 'region'
  )
  SELECT
    divisions.id,
    divisions.name,
    divisions.subtype,
    divisions.region,
    regions.name AS pref_name,
    divisions.bbox,
    divisions.geometry
  FROM divisions LEFT JOIN regions USING (region)
) TO '"@ + output + "' (FORMAT PARQUET);"@;
    assert(divisions_extract_sql(release, country, bbox, output) =~= DIVISIONS_SELECT@ + tail);
    text::lemma_suffix(DIVISIONS_SELECT@, tail);
}

/// Of the water, what is ocean and has its lower left corner in the area is
/// taken, both.
pub proof fn law_the_sea_is_ocean_in_the_area(
    release: Seq<char>,
    bbox: BoundingBox,
    output: Seq<char>,
)
    ensures
        text::has_suffix(
            ocean_extract_sql(release, bbox, output),
            release + "/theme=base/type=water/*',
    hive_partitioning=1
  )
  -- divisionsの切り出しと同じく、covering列で先に絞ってrow groupを読み飛ばす。
  WHERE bbox.xmin BETWEEN "@
                + number::real_shown(bbox.xmin) + " AND "@
                + number::real_shown(bbox.xmax)
                + "\n    AND bbox.ymin BETWEEN "@
                + number::real_shown(bbox.ymin) + " AND "@
                + number::real_shown(bbox.ymax) + "
    AND subtype = 'ocean'
) TO '"@ + output + "' (FORMAT PARQUET);"@,
        ),
{
    let tail = release + "/theme=base/type=water/*',
    hive_partitioning=1
  )
  -- divisionsの切り出しと同じく、covering列で先に絞ってrow groupを読み飛ばす。
  WHERE bbox.xmin BETWEEN "@
                + number::real_shown(bbox.xmin) + " AND "@
                + number::real_shown(bbox.xmax)
                + "\n    AND bbox.ymin BETWEEN "@
                + number::real_shown(bbox.ymin) + " AND "@
                + number::real_shown(bbox.ymax) + "
    AND subtype = 'ocean'
) TO '"@ + output + "' (FORMAT PARQUET);"@;
    assert(ocean_extract_sql(release, bbox, output) =~= OCEAN_SELECT@ + tail);
    text::lemma_suffix(OCEAN_SELECT@, tail);
}

/// Of the segments, those that have their lower left corner in the area, are
/// roads and are of one of the three classes with much traffic are taken, all
/// three.
pub proof fn law_trunk_roads_are_of_three_classes(
    release: Seq<char>,
    bbox: BoundingBox,
    output: Seq<char>,
)
    ensures
        text::has_suffix(
            roads_extract_sql(release, bbox, output),
            release + "/theme=transportation/type=segment/*',
    hive_partitioning=1
  )
  -- covering列で先に絞る。divisionsと同じ理由で、交差判定ではなく
  -- xmin/yminが範囲内という条件にしてrow groupの読み飛ばしを効かせる。
  WHERE bbox.xmin BETWEEN "@
                + number::real_shown(bbox.xmin) + " AND "@
                + number::real_shown(bbox.xmax)
                + "\n    AND bbox.ymin BETWEEN "@
                + number::real_shown(bbox.ymin) + " AND "@
                + number::real_shown(bbox.ymax) + "
    AND subtype = 'road'
    AND class IN ('motorway', 'trunk', 'primary')\n) TO '"@ + output + "' (FORMAT PARQUET);"@,
        ),
{
    lemma_class_list();
    let tail = release + "/theme=transportation/type=segment/*',
    hive_partitioning=1
  )
  -- covering列で先に絞る。divisionsと同じ理由で、交差判定ではなく
  -- xmin/yminが範囲内という条件にしてrow groupの読み飛ばしを効かせる。
  WHERE bbox.xmin BETWEEN "@
                + number::real_shown(bbox.xmin) + " AND "@
                + number::real_shown(bbox.xmax)
                + "\n    AND bbox.ymin BETWEEN "@
                + number::real_shown(bbox.ymin) + " AND "@
                + number::real_shown(bbox.ymax) + "
    AND subtype = 'road'
    AND class IN ('motorway', 'trunk', 'primary')\n) TO '"@ + output + "' (FORMAT PARQUET);"@;
    assert(roads_extract_sql(release, bbox, output) =~= ROADS_SELECT@ + tail);
    text::lemma_suffix(ROADS_SELECT@, tail);
}

proof fn lemma_class_list()
    ensures
        "
    AND subtype = 'road'
    AND class IN ("@ + class_list() + ")\n) TO '"@
            == "
    AND subtype = 'road'
    AND class IN ('motorway', 'trunk', 'primary')\n) TO '"@,
{
    let classes = spec_road_classes();
    let quoted = Seq::new(classes.len(), |i: int| "'"@ + classes[i] + "'"@);
    reveal_with_fuel(text::joined, 4);
    assert(quoted.drop_last().drop_last() =~= seq![quoted[0]]);
    reveal_strlit("'");
    reveal_strlit(", ");
    reveal_strlit("motorway");
    reveal_strlit("trunk");
    reveal_strlit("primary");
    reveal_strlit("
    AND subtype = 'road'
    AND class IN (");
    reveal_strlit(")\n) TO '");
    reveal_strlit("
    AND subtype = 'road'
    AND class IN ('motorway', 'trunk', 'primary')\n) TO '");
    assert(class_list() =~= quoted[0] + ", "@ + quoted[1] + ", "@ + quoted[2]);
    assert("
    AND subtype = 'road'
    AND class IN ("@ + class_list() + ")\n) TO '"@
        =~= "
    AND subtype = 'road'
    AND class IN ('motorway', 'trunk', 'primary')\n) TO '"@);
}

/// A road is of Japan where a municipality has bounds that meet its own and
/// meets it, or where one of its networks is Japanese. The condition stands in
/// brackets, so it can be joined to others.
pub proof fn law_roads_of_japan_meet_a_municipality(divisions: Seq<char>)
    ensures
        japan_filter_sql(divisions) == "(
    EXISTS (
      SELECT 1 FROM read_parquet('"@ + divisions + "') jp
      WHERE subtype = 'locality' AND name SIMILAR TO '.*(市|町|村|区)'
        AND jp.bbox.xmin <= r.bbox.xmax AND jp.bbox.xmax >= r.bbox.xmin
        AND jp.bbox.ymin <= r.bbox.ymax AND jp.bbox.ymax >= r.bbox.ymin
        AND ST_Intersects(jp.geometry, r.geometry)
    )
    OR len(list_filter(r.networks, lambda n: starts_with(n, 'JP'))) > 0
  )"@,
        japan_filter_sql(divisions)[0] == '(',
        japan_filter_sql(divisions).last() == ')',
{
    let rest = "') jp
      WHERE subtype = 'locality' AND name SIMILAR TO '.*(市|町|村|区)'
        AND jp.bbox.xmin <= r.bbox.xmax AND jp.bbox.xmax >= r.bbox.xmin
        AND jp.bbox.ymin <= r.bbox.ymax AND jp.bbox.ymax >= r.bbox.ymin
        AND ST_Intersects(jp.geometry, r.geometry)
    )
    OR len(list_filter(r.networks, lambda n: starts_with(n, 'JP'))) > 0
  )"@;
    reveal_strlit("') jp
      WHERE subtype = 'locality' AND name SIMILAR TO '.*(市|町|村|区)'
        AND jp.bbox.xmin <= r.bbox.xmax AND jp.bbox.xmax >= r.bbox.xmin
        AND jp.bbox.ymin <= r.bbox.ymax AND jp.bbox.ymax >= r.bbox.ymin
        AND ST_Intersects(jp.geometry, r.geometry)
    )
    OR len(list_filter(r.networks, lambda n: starts_with(n, 'JP'))) > 0
  )");
    reveal_strlit("(
    EXISTS (
      SELECT 1 FROM read_parquet('");
    reveal_strlit("') jp
      WHERE ");
    reveal_strlit("subtype = 'locality' AND name SIMILAR TO '.*(市|町|村|区)'");
    reveal_strlit("
        AND jp.bbox.xmin <= r.bbox.xmax AND jp.bbox.xmax >= r.bbox.xmin
        AND jp.bbox.ymin <= r.bbox.ymax AND jp.bbox.ymax >= r.bbox.ymin
        AND ST_Intersects(jp.geometry, r.geometry)
    )
    OR len(list_filter(r.networks, lambda n: starts_with(n, 'JP'))) > 0
  )");
    assert("') jp\n      WHERE "@ + MUNICIPALITY_FILTER@ + JAPAN_OVERLAP@ =~= rest);
    assert(japan_filter_sql(divisions) =~= JAPAN_EXISTS@ + divisions + ("') jp\n      WHERE "@
        + MUNICIPALITY_FILTER@ + JAPAN_OVERLAP@));
    assert(rest.last() == ')');
}

/// A road is chosen where its class is the one that is asked for and it meets
/// the condition for Japan: between the two stands `AND`, up to white space, and
/// nothing follows them in the clause. The same holds of the statement that
/// counts and of the one that writes.
pub proof fn law_roads_are_of_one_class_and_of_japan(
    input: Seq<char>,
    divisions: Seq<char>,
    class: Seq<char>,
    output: Seq<char>,
    geo_metadata_json: Seq<char>,
    vintage: Seq<char>,
)
    ensures
        text::has_suffix(
            roads_stats_sql(input, divisions, class),
            "FROM read_parquet('"@ + input + "') r\nWHERE r.class = '"@ + class + "'\n  AND "@
                + japan_filter_sql(divisions) + ";"@,
        ),
        text::has_part(
            roads_sql(input, divisions, class, output, geo_metadata_json, vintage),
            "FROM read_parquet('"@ + input + "') r\n  WHERE r.class = '"@ + class + "'\n    AND "@
                + japan_filter_sql(divisions) + "\n) TO '"@ + output + "'"@,
        ),
{
    reveal_strlit("\n");
    reveal_strlit("\n  ");
    reveal_strlit("') r");
    reveal_strlit("') r\nWHERE r.class = '");
    reveal_strlit("') r\n  WHERE r.class = '");
    reveal_strlit("WHERE r.class = '");
    reveal_strlit("'");
    reveal_strlit("  AND ");
    reveal_strlit("'\n  AND ");
    reveal_strlit("'\n    AND ");
    assert("') r"@ + "\n"@ + "WHERE r.class = '"@ =~= "') r\nWHERE r.class = '"@);
    assert("') r"@ + "\n  "@ + "WHERE r.class = '"@ =~= "') r\n  WHERE r.class = '"@);
    assert("'"@ + "\n"@ + "  AND "@ =~= "'\n  AND "@);
    assert("'"@ + "\n  "@ + "  AND "@ =~= "'\n    AND "@);
    let japan = japan_filter_sql(divisions);
    let first = "FROM read_parquet('"@ + input + "') r\nWHERE r.class = '"@ + class + "'\n  AND "@
        + japan;
    let second = "FROM read_parquet('"@ + input + "') r\n  WHERE r.class = '"@ + class
        + "'\n    AND "@ + japan;
    assert(road_rows(input, divisions, class, "\n"@) =~= "FROM read_parquet('"@ + input + ("') r"@
        + "\n"@ + "WHERE r.class = '"@) + class + ("'"@ + "\n"@ + "  AND "@) + japan);
    assert(road_rows(input, divisions, class, "\n  "@) =~= "FROM read_parquet('"@ + input
        + ("') r"@ + "\n  "@ + "WHERE r.class = '"@) + class + ("'"@ + "\n  "@ + "  AND "@)
        + japan);
    let counted = "INSTALL spatial; LOAD spatial;\n"@ + SPATIAL_JOIN_SETTINGS@ + ROADS_STATS@;
    assert(roads_stats_sql(input, divisions, class) =~= counted + (first + ";"@));
    text::lemma_suffix(counted, first + ";"@);
    let written = "INSTALL spatial; LOAD spatial;\n"@ + SPATIAL_JOIN_SETTINGS@ + ROADS_COLUMNS@;
    reveal_strlit("' (FORMAT PARQUET, KV_METADATA {\n  geo: '");
    reveal_strlit(" (FORMAT PARQUET, KV_METADATA {\n  geo: '");
    let quote = "'"@;
    let rest = " (FORMAT PARQUET, KV_METADATA {\n  geo: '"@;
    assert(METADATA@ =~= quote + rest);
    let clause = second + "\n) TO '"@ + output + quote;
    let tail = rest + text::doubled(geo_metadata_json, '\'') + "',\n  '"@ + VINTAGE_KEY@ + "': '"@
        + text::doubled(vintage, '\'') + "'\n});"@;
    assert(roads_sql(input, divisions, class, output, geo_metadata_json, vintage) =~= written
        + clause + tail);
    text::lemma_part_between(written, clause, tail);
}

/// Municipalities are chosen by being a locality and by their name, both, and
/// by nothing else: the statement that counts them ends behind that condition,
/// and the one that writes them goes on with the file that they go to.
pub proof fn law_municipalities_are_localities_by_name(
    input: Seq<char>,
    output: Seq<char>,
    geo_metadata_json: Seq<char>,
)
    ensures
        text::has_suffix(
            admin_stats_sql(input),
            "FROM read_parquet('"@ + input
                + "')\nWHERE subtype = 'locality' AND name SIMILAR TO '.*(市|町|村|区)';"@,
        ),
        text::has_suffix(
            admin_sql(input, output, geo_metadata_json),
            "FROM read_parquet('"@ + input
                + "')\n  WHERE subtype = 'locality' AND name SIMILAR TO '.*(市|町|村|区)'\n) TO '"@
                + output + "' (FORMAT PARQUET, KV_METADATA { geo: '"@ + text::doubled(
                geo_metadata_json,
                '\'',
            ) + "' });"@,
        ),
{
    reveal_strlit("')");
    reveal_strlit("\n");
    reveal_strlit("\n  ");
    reveal_strlit("WHERE ");
    reveal_strlit(";");
    reveal_strlit("\n) TO '");
    reveal_strlit("subtype = 'locality' AND name SIMILAR TO '.*(市|町|村|区)'");
    reveal_strlit("')\nWHERE subtype = 'locality' AND name SIMILAR TO '.*(市|町|村|区)';");
    reveal_strlit("')\n  WHERE subtype = 'locality' AND name SIMILAR TO '.*(市|町|村|区)'\n) TO '");
    assert("')"@ + "\n"@ + "WHERE "@ + MUNICIPALITY_FILTER@ + ";"@
        =~= "')\nWHERE subtype = 'locality' AND name SIMILAR TO '.*(市|町|村|区)';"@);
    assert("')"@ + "\n  "@ + "WHERE "@ + MUNICIPALITY_FILTER@ + "\n) TO '"@
        =~= "')\n  WHERE subtype = 'locality' AND name SIMILAR TO '.*(市|町|村|区)'\n) TO '"@);
    let first = "FROM read_parquet('"@ + input + ("')"@ + "\n"@ + "WHERE "@ + MUNICIPALITY_FILTER@
        + ";"@);
    let second = "FROM read_parquet('"@ + input + ("')"@ + "\n  "@ + "WHERE "@
        + MUNICIPALITY_FILTER@ + "\n) TO '"@) + output
        + "' (FORMAT PARQUET, KV_METADATA { geo: '"@ + text::doubled(geo_metadata_json, '\'')
        + "' });"@;
    assert(admin_stats_sql(input) =~= ADMIN_STATS@ + first);
    assert(admin_sql(input, output, geo_metadata_json) =~= ADMIN_COLUMNS@ + second);
    text::lemma_suffix(ADMIN_STATS@, first);
    text::lemma_suffix(ADMIN_COLUMNS@, second);
}

/// The extent of municipalities and of roads is asked for side by side: the
/// least of the western and of the southern sides, the largest of the eastern
/// and of the northern ones.
pub proof fn law_extents_are_least_and_largest(
    input: Seq<char>,
    divisions: Seq<char>,
    class: Seq<char>,
)
    ensures
        text::has_part(
            admin_stats_sql(input),
            "min(bbox.xmin) AS xmin,"@,
        ),
        text::has_part(
            admin_stats_sql(input),
            "min(bbox.ymin) AS ymin,"@,
        ),
        text::has_part(
            admin_stats_sql(input),
            "max(bbox.xmax) AS xmax,"@,
        ),
        text::has_part(
            admin_stats_sql(input),
            "max(bbox.ymax) AS ymax,"@,
        ),
        text::has_part(
            roads_stats_sql(input, divisions, class),
            "min(r.bbox.xmin) AS xmin,"@,
        ),
        text::has_part(
            roads_stats_sql(input, divisions, class),
            "min(r.bbox.ymin) AS ymin,"@,
        ),
        text::has_part(
            roads_stats_sql(input, divisions, class),
            "max(r.bbox.xmax) AS xmax,"@,
        ),
        text::has_part(
            roads_stats_sql(input, divisions, class),
            "max(r.bbox.ymax) AS ymax,"@,
        ),
{
    reveal_strlit("INSTALL spatial; LOAD spatial;
SELECT
  min(bbox.xmin) AS xmin,
  min(bbox.ymin) AS ymin,
  max(bbox.xmax) AS xmax,
  max(bbox.ymax) AS ymax,
  -- ST_GeometryType は列挙型を返すので、そのままだとJSONにできない。
  list_sort(list_distinct(list(ST_GeometryType(geometry)::VARCHAR))) AS geometry_types
");
    let head1 = Seq::<char>::empty();
    let tail1 = admin_rows(input, "\n"@) + ";"@;
    assert(admin_stats_sql(input) =~= head1 + ADMIN_STATS@ + tail1);
    let part1_1 = "min(bbox.xmin) AS xmin,"@;
    reveal_strlit("min(bbox.xmin) AS xmin,");
    assert(ADMIN_STATS@.subrange(40, 63) =~= part1_1);
    assert(text::occurs_at(ADMIN_STATS@, part1_1, 40));
    text::lemma_part_inside(head1, ADMIN_STATS@, tail1, part1_1);
    let part1_2 = "min(bbox.ymin) AS ymin,"@;
    reveal_strlit("min(bbox.ymin) AS ymin,");
    assert(ADMIN_STATS@.subrange(66, 89) =~= part1_2);
    assert(text::occurs_at(ADMIN_STATS@, part1_2, 66));
    text::lemma_part_inside(head1, ADMIN_STATS@, tail1, part1_2);
    let part1_3 = "max(bbox.xmax) AS xmax,"@;
    reveal_strlit("max(bbox.xmax) AS xmax,");
    assert(ADMIN_STATS@.subrange(92, 115) =~= part1_3);
    assert(text::occurs_at(ADMIN_STATS@, part1_3, 92));
    text::lemma_part_inside(head1, ADMIN_STATS@, tail1, part1_3);
    let part1_4 = "max(bbox.ymax) AS ymax,"@;
    reveal_strlit("max(bbox.ymax) AS ymax,");
    assert(ADMIN_STATS@.subrange(118, 141) =~= part1_4);
    assert(text::occurs_at(ADMIN_STATS@, part1_4, 118));
    text::lemma_part_inside(head1, ADMIN_STATS@, tail1, part1_4);
    reveal_strlit("
SELECT
  min(r.bbox.xmin) AS xmin,
  min(r.bbox.ymin) AS ymin,
  max(r.bbox.xmax) AS xmax,
  max(r.bbox.ymax) AS ymax,
  list_sort(list_distinct(list(ST_GeometryType(r.geometry)::VARCHAR))) AS geometry_types
");
    let head2 = "INSTALL spatial; LOAD spatial;\n"@ + SPATIAL_JOIN_SETTINGS@;
    let tail2 = road_rows(input, divisions, class, "\n"@) + ";"@;
    assert(roads_stats_sql(input, divisions, class) =~= head2 + ROADS_STATS@ + tail2);
    let part2_1 = "min(r.bbox.xmin) AS xmin,"@;
    reveal_strlit("min(r.bbox.xmin) AS xmin,");
    assert(ROADS_STATS@.subrange(10, 35) =~= part2_1);
    assert(text::occurs_at(ROADS_STATS@, part2_1, 10));
    text::lemma_part_inside(head2, ROADS_STATS@, tail2, part2_1);
    let part2_2 = "min(r.bbox.ymin) AS ymin,"@;
    reveal_strlit("min(r.bbox.ymin) AS ymin,");
    assert(ROADS_STATS@.subrange(38, 63) =~= part2_2);
    assert(text::occurs_at(ROADS_STATS@, part2_2, 38));
    text::lemma_part_inside(head2, ROADS_STATS@, tail2, part2_2);
    let part2_3 = "max(r.bbox.xmax) AS xmax,"@;
    reveal_strlit("max(r.bbox.xmax) AS xmax,");
    assert(ROADS_STATS@.subrange(66, 91) =~= part2_3);
    assert(text::occurs_at(ROADS_STATS@, part2_3, 66));
    text::lemma_part_inside(head2, ROADS_STATS@, tail2, part2_3);
    let part2_4 = "max(r.bbox.ymax) AS ymax,"@;
    reveal_strlit("max(r.bbox.ymax) AS ymax,");
    assert(ROADS_STATS@.subrange(94, 119) =~= part2_4);
    assert(text::occurs_at(ROADS_STATS@, part2_4, 94));
    text::lemma_part_inside(head2, ROADS_STATS@, tail2, part2_4);
}

/// Under the shared names of areas stand the identifier, the prefecture and the
/// name of a municipality; a county and a ward it has not. Of roads the name,
/// the class and the routes are kept, and of both the bounds and the geometry.
pub proof fn law_columns_keep_their_meaning(
    input: Seq<char>,
    divisions: Seq<char>,
    class: Seq<char>,
    output: Seq<char>,
    geo_metadata_json: Seq<char>,
    vintage: Seq<char>,
)
    ensures
        text::has_part(
            admin_sql(input, output, geo_metadata_json),
            "id AS admin_id,\n    pref_name,\n    NULL::VARCHAR AS county_name,\n    name AS city_name,\n    NULL::VARCHAR AS ward_name,\n    bbox,\n    ST_AsWKB(geometry)::BLOB AS geometry"@,
        ),
        text::has_part(
            roads_sql(input, divisions, class, output, geo_metadata_json, vintage),
            "r.road_name,\n    r.class,\n    r.route_names,\n    r.bbox,\n    ST_AsWKB(r.geometry)::BLOB AS geometry"@,
        ),
{
    reveal_strlit("INSTALL spatial; LOAD spatial;
COPY (
  SELECT
    id AS admin_id,
    pref_name,
    NULL::VARCHAR AS county_name,
    name AS city_name,
    NULL::VARCHAR AS ward_name,
    bbox,
    ST_AsWKB(geometry)::BLOB AS geometry
  ");
    let head1 = Seq::<char>::empty();
    let tail1 = admin_rows(input, "\n  "@) + "\n) TO '"@ + output + "' (FORMAT PARQUET, KV_METADATA { geo: '"@
        + text::doubled(geo_metadata_json, '\'') + "' });"@;
    assert(admin_sql(input, output, geo_metadata_json) =~= head1 + ADMIN_COLUMNS@ + tail1);
    let part1_1 = "id AS admin_id,\n    pref_name,\n    NULL::VARCHAR AS county_name,\n    name AS city_name,\n    NULL::VARCHAR AS ward_name,\n    bbox,\n    ST_AsWKB(geometry)::BLOB AS geometry"@;
    reveal_strlit("id AS admin_id,\n    pref_name,\n    NULL::VARCHAR AS county_name,\n    name AS city_name,\n    NULL::VARCHAR AS ward_name,\n    bbox,\n    ST_AsWKB(geometry)::BLOB AS geometry");
    assert(ADMIN_COLUMNS@.subrange(51, 221) =~= part1_1);
    assert(text::occurs_at(ADMIN_COLUMNS@, part1_1, 51));
    text::lemma_part_inside(head1, ADMIN_COLUMNS@, tail1, part1_1);
    reveal_strlit("
COPY (
  SELECT
    r.road_name,
    r.class,
    r.route_names,
    r.bbox,
    ST_AsWKB(r.geometry)::BLOB AS geometry
  ");
    let head2 = "INSTALL spatial; LOAD spatial;\n"@ + SPATIAL_JOIN_SETTINGS@;
    let tail2 = road_rows(input, divisions, class, "\n  "@) + "\n) TO '"@ + output + METADATA@
        + text::doubled(geo_metadata_json, '\'') + "',\n  '"@ + VINTAGE_KEY@ + "': '"@
        + text::doubled(vintage, '\'') + "'\n});"@;
    assert(roads_sql(input, divisions, class, output, geo_metadata_json, vintage) =~= head2 + ROADS_COLUMNS@ + tail2);
    let part2_1 = "r.road_name,\n    r.class,\n    r.route_names,\n    r.bbox,\n    ST_AsWKB(r.geometry)::BLOB AS geometry"@;
    reveal_strlit("r.road_name,\n    r.class,\n    r.route_names,\n    r.bbox,\n    ST_AsWKB(r.geometry)::BLOB AS geometry");
    assert(ROADS_COLUMNS@.subrange(21, 120) =~= part2_1);
    assert(text::occurs_at(ROADS_COLUMNS@, part2_1, 21));
    text::lemma_part_inside(head2, ROADS_COLUMNS@, tail2, part2_1);
}

/// An index of routes has one row for each name of a route, in the order of the
/// names, with the bounds of all sections of the route together.
pub proof fn law_routes_are_kept_by_name(
    input_glob: Seq<char>,
    output: Seq<char>,
)
    ensures
        text::has_part(
            road_routes_sql(input_glob, output),
            "xmin: min(bbox.xmin),\n      ymin: min(bbox.ymin),\n      xmax: max(bbox.xmax),\n      ymax: max(bbox.ymax)\n    } AS bbox"@,
        ),
        text::has_part(
            road_routes_sql(input_glob, output),
            "SELECT unnest(route_names) AS route_name, class, bbox"@,
        ),
        text::has_part(
            road_routes_sql(input_glob, output),
            "GROUP BY route_name\n  ORDER BY route_name\n) TO "@,
        ),
{
    reveal_strlit("COPY (
  SELECT
    route_name,
    -- 等級は代表値。1つの路線が高速と国道をまたぐことは稀。
    mode(class) AS class,
    count(*) AS segments,
    {
      xmin: min(bbox.xmin),
      ymin: min(bbox.ymin),
      xmax: max(bbox.xmax),
      ymax: max(bbox.ymax)
    } AS bbox
  FROM (
    SELECT unnest(route_names) AS route_name, class, bbox
    FROM read_parquet('");
    let head1 = Seq::<char>::empty();
    let tail1 = input_glob + ROUTES_GROUP@ + output + "' (FORMAT PARQUET);"@;
    assert(road_routes_sql(input_glob, output) =~= head1 + ROUTES_SELECT@ + tail1);
    let part1_1 = "xmin: min(bbox.xmin),\n      ymin: min(bbox.ymin),\n      xmax: max(bbox.xmax),\n      ymax: max(bbox.ymax)\n    } AS bbox"@;
    reveal_strlit("xmin: min(bbox.xmin),\n      ymin: min(bbox.ymin),\n      xmax: max(bbox.xmax),\n      ymax: max(bbox.ymax)\n    } AS bbox");
    assert(ROUTES_SELECT@.subrange(131, 249) =~= part1_1);
    assert(text::occurs_at(ROUTES_SELECT@, part1_1, 131));
    text::lemma_part_inside(head1, ROUTES_SELECT@, tail1, part1_1);
    let part1_2 = "SELECT unnest(route_names) AS route_name, class, bbox"@;
    reveal_strlit("SELECT unnest(route_names) AS route_name, class, bbox");
    assert(ROUTES_SELECT@.subrange(263, 316) =~= part1_2);
    assert(text::occurs_at(ROUTES_SELECT@, part1_2, 263));
    text::lemma_part_inside(head1, ROUTES_SELECT@, tail1, part1_2);
    reveal_strlit("')
  )
  GROUP BY route_name
  ORDER BY route_name
) TO '");
    let head2 = ROUTES_SELECT@ + input_glob;
    let tail2 = output + "' (FORMAT PARQUET);"@;
    assert(road_routes_sql(input_glob, output) =~= head2 + ROUTES_GROUP@ + tail2);
    let part2_1 = "GROUP BY route_name\n  ORDER BY route_name\n) TO "@;
    reveal_strlit("GROUP BY route_name\n  ORDER BY route_name\n) TO ");
    assert(ROUTES_GROUP@.subrange(9, 56) =~= part2_1);
    assert(text::occurs_at(ROUTES_GROUP@, part2_1, 9));
    text::lemma_part_inside(head2, ROUTES_GROUP@, tail2, part2_1);
}

/// The sea is cut from an area where the bounds of both meet on either side.
/// What is left of the area is what the sea does not cover; an area without sea
/// stays as it is, and the bounds are made anew from what is left.
pub proof fn law_the_sea_is_cut_from_the_land(
    divisions: Seq<char>,
    ocean: Seq<char>,
    output: Seq<char>,
)
    ensures
        text::has_part(
            clip_ocean_sql(divisions, ocean, output),
            "ON o.bbox.xmin <= d.bbox.xmax AND o.bbox.xmax >= d.bbox.xmin\n       AND o.bbox.ymin <= d.bbox.ymax AND o.bbox.ymax >= d.bbox.ymin\n      WHERE "@,
        ),
        text::has_part(
            clip_ocean_sql(divisions, ocean, output),
            "WHEN sea.geometry IS NULL THEN d.geometry\n"@,
        ),
        text::has_part(
            clip_ocean_sql(divisions, ocean, output),
            "ST_Dump(ST_Difference(d.geometry, sea.geometry)),\n                 lambda part: ST_Area(part.geom) > "@,
        ),
        text::has_part(
            clip_ocean_sql(divisions, ocean, output),
            "LEFT JOIN sea ON sea.id = d.id"@,
        ),
        text::has_part(
            clip_ocean_sql(divisions, ocean, output),
            "xmin: ST_XMin(geometry),\n      xmax: ST_XMax(geometry),\n      ymin: ST_YMin(geometry),\n      ymax: ST_YMax(geometry)\n    } AS bbox"@,
        ),
{
    reveal_strlit("') o
        ON o.bbox.xmin <= d.bbox.xmax AND o.bbox.xmax >= d.bbox.xmin
       AND o.bbox.ymin <= d.bbox.ymax AND o.bbox.ymax >= d.bbox.ymin
      WHERE ");
    let head1 = CLIP_SEA@ + divisions + "') d\n      JOIN read_parquet('"@ + ocean;
    let tail1 = MUNICIPALITY_FILTER@ + CLIP_AREAS@ + SLIVER_AREA@ + CLIP_PARTS@ + divisions + CLIP_COLUMNS@ + output + "' (FORMAT PARQUET);"@;
    assert(clip_ocean_sql(divisions, ocean, output) =~= head1 + CLIP_OVERLAP@ + tail1);
    let part1_1 = "ON o.bbox.xmin <= d.bbox.xmax AND o.bbox.xmax >= d.bbox.xmin\n       AND o.bbox.ymin <= d.bbox.ymax AND o.bbox.ymax >= d.bbox.ymin\n      WHERE "@;
    reveal_strlit("ON o.bbox.xmin <= d.bbox.xmax AND o.bbox.xmax >= d.bbox.xmin\n       AND o.bbox.ymin <= d.bbox.ymax AND o.bbox.ymax >= d.bbox.ymin\n      WHERE ");
    assert(CLIP_OVERLAP@.subrange(13, 155) =~= part1_1);
    assert(text::occurs_at(CLIP_OVERLAP@, part1_1, 13));
    text::lemma_part_inside(head1, CLIP_OVERLAP@, tail1, part1_1);
    reveal_strlit("
    )
    WHERE NOT ST_IsEmpty(part)
    GROUP BY id
  ),
  clipped AS (
    SELECT
      d.id,
      d.name,
      d.subtype,
      d.region,
      d.pref_name,
      -- 海に接していない区画は結合相手が無い。元の形をそのまま使う。
      -- 削った区画からは破片を落とす (下記 SLIVER_AREA)。
      CASE
        WHEN sea.geometry IS NULL THEN d.geometry
        ELSE ST_Collect(list_transform(
               list_filter(
                 ST_Dump(ST_Difference(d.geometry, sea.geometry)),
                 lambda part: ST_Area(part.geom) > ");
    let head2 = CLIP_SEA@ + divisions + "') d\n      JOIN read_parquet('"@ + ocean + CLIP_OVERLAP@ + MUNICIPALITY_FILTER@;
    let tail2 = SLIVER_AREA@ + CLIP_PARTS@ + divisions + CLIP_COLUMNS@ + output + "' (FORMAT PARQUET);"@;
    assert(clip_ocean_sql(divisions, ocean, output) =~= head2 + CLIP_AREAS@ + tail2);
    let part2_1 = "WHEN sea.geometry IS NULL THEN d.geometry\n"@;
    reveal_strlit("WHEN sea.geometry IS NULL THEN d.geometry\n");
    assert(CLIP_AREAS@.subrange(264, 306) =~= part2_1);
    assert(text::occurs_at(CLIP_AREAS@, part2_1, 264));
    text::lemma_part_inside(head2, CLIP_AREAS@, tail2, part2_1);
    let part2_2 = "ST_Dump(ST_Difference(d.geometry, sea.geometry)),\n                 lambda part: ST_Area(part.geom) > "@;
    reveal_strlit("ST_Dump(ST_Difference(d.geometry, sea.geometry)),\n                 lambda part: ST_Area(part.geom) > ");
    assert(CLIP_AREAS@.subrange(391, 492) =~= part2_2);
    assert(text::occurs_at(CLIP_AREAS@, part2_2, 391));
    text::lemma_part_inside(head2, CLIP_AREAS@, tail2, part2_2);
    reveal_strlit("') d
    LEFT JOIN sea ON sea.id = d.id
  )
  SELECT
    id,
    name,
    subtype,
    region,
    pref_name,
    {
      xmin: ST_XMin(geometry),
      xmax: ST_XMax(geometry),
      ymin: ST_YMin(geometry),
      ymax: ST_YMax(geometry)
    } AS bbox,
    geometry
  FROM clipped
  -- 海しか無かった区画は消える。
  WHERE NOT ST_IsEmpty(geometry)
) TO '");
    let head3 = CLIP_SEA@ + divisions + "') d\n      JOIN read_parquet('"@ + ocean + CLIP_OVERLAP@ + MUNICIPALITY_FILTER@ + CLIP_AREAS@ + SLIVER_AREA@ + CLIP_PARTS@ + divisions;
    let tail3 = output + "' (FORMAT PARQUET);"@;
    assert(clip_ocean_sql(divisions, ocean, output) =~= head3 + CLIP_COLUMNS@ + tail3);
    let part3_1 = "LEFT JOIN sea ON sea.id = d.id"@;
    reveal_strlit("LEFT JOIN sea ON sea.id = d.id");
    assert(CLIP_COLUMNS@.subrange(9, 39) =~= part3_1);
    assert(text::occurs_at(CLIP_COLUMNS@, part3_1, 9));
    text::lemma_part_inside(head3, CLIP_COLUMNS@, tail3, part3_1);
    let part3_2 = "xmin: ST_XMin(geometry),\n      xmax: ST_XMax(geometry),\n      ymin: ST_YMin(geometry),\n      ymax: ST_YMax(geometry)\n    } AS bbox"@;
    reveal_strlit("xmin: ST_XMin(geometry),\n      xmax: ST_XMax(geometry),\n      ymin: ST_YMin(geometry),\n      ymax: ST_YMax(geometry)\n    } AS bbox");
    assert(CLIP_COLUMNS@.subrange(123, 253) =~= part3_2);
    assert(text::occurs_at(CLIP_COLUMNS@, part3_2, 123));
    text::lemma_part_inside(head3, CLIP_COLUMNS@, tail3, part3_2);
}

/// The four texts are the western, the southern, the eastern and the northern
/// side, in this order. They are an area where each is a number and neither the
/// west reaches the east nor the south the north.
pub proof fn law_areas_have_their_sides(
    xmin: Seq<char>,
    ymin: Seq<char>,
    xmax: Seq<char>,
    ymax: Seq<char>,
)
    ensures
        area_of(xmin, ymin, xmax, ymax) is Ok ==> {
            let b = area_of(xmin, ymin, xmax, ymax)->Ok_0;
            &&& number::real_text(xmin) == Ok::<Real, Seq<char>>(b.xmin)
            &&& number::real_text(ymin) == Ok::<Real, Seq<char>>(b.ymin)
            &&& number::real_text(xmax) == Ok::<Real, Seq<char>>(b.xmax)
            &&& number::real_text(ymax) == Ok::<Real, Seq<char>>(b.ymax)
            &&& b.xmin.finite() && b.xmax.finite() ==> b.xmin.value() < b.xmax.value()
            &&& b.ymin.finite() && b.ymax.finite() ==> b.ymin.value() < b.ymax.value()
        },
        number::real_text(xmin) is Ok && number::real_text(ymin) is Ok && number::real_text(
            xmax,
        ) is Ok && number::real_text(ymax) is Ok && !number::real_text(xmin)->Ok_0.reaches(
            number::real_text(xmax)->Ok_0,
        ) && !number::real_text(ymin)->Ok_0.reaches(number::real_text(ymax)->Ok_0) ==> area_of(
            xmin,
            ymin,
            xmax,
            ymax,
        ) is Ok,
        number::real_text(xmin) is Err || number::real_text(ymin) is Err || number::real_text(
            xmax,
        ) is Err || number::real_text(ymax) is Err ==> area_of(xmin, ymin, xmax, ymax) is Err,
{
    if area_of(xmin, ymin, xmax, ymax) is Ok {
        let b = area_of(xmin, ymin, xmax, ymax)->Ok_0;
        number::law_smaller_and_larger(b.xmin, b.xmax);
        number::law_smaller_and_larger(b.ymin, b.ymax);
    }
}

/// What is cut is read from the file of areas and the sea from the file of the
/// sea, and what is left goes to the file that is named. Parts of at most 1e-12
/// square degrees are left out.
pub proof fn law_clipping_reads_its_files(
    divisions: Seq<char>,
    ocean: Seq<char>,
    output: Seq<char>,
)
    ensures
        text::has_part(
            clip_ocean_sql(divisions, ocean, output),
            divisions + "') d\n      JOIN read_parquet('"@ + ocean + "') o\n"@,
        ),
        text::has_suffix(
            clip_ocean_sql(divisions, ocean, output),
            "1e-12"@ + "\n               ),\n               lambda part: part.geom\n             ))\n      END AS geometry\n    FROM read_parquet('"@
                + divisions + CLIP_COLUMNS@ + output + "' (FORMAT PARQUET);"@,
        ),
{
    reveal_strlit("') o\n");
    reveal_strlit("') o\n        ON o.bbox.xmin <= d.bbox.xmax AND o.bbox.xmax >= d.bbox.xmin\n       AND o.bbox.ymin <= d.bbox.ymax AND o.bbox.ymax >= d.bbox.ymin\n      WHERE ");
    let rest = CLIP_OVERLAP@.skip("') o\n"@.len() as int);
    assert(CLIP_OVERLAP@ =~= "') o\n"@ + rest);
    let part = divisions + "') d\n      JOIN read_parquet('"@ + ocean + "') o\n"@;
    let tail = "1e-12"@ + CLIP_PARTS@ + divisions + CLIP_COLUMNS@ + output
        + "' (FORMAT PARQUET);"@;
    let head = CLIP_SEA@ + part + rest + MUNICIPALITY_FILTER@ + CLIP_AREAS@;
    assert(clip_ocean_sql(divisions, ocean, output) =~= head + tail);
    text::lemma_suffix(head, tail);
    let behind = rest + MUNICIPALITY_FILTER@ + CLIP_AREAS@ + tail;
    assert(clip_ocean_sql(divisions, ocean, output) =~= CLIP_SEA@ + part + behind);
    text::lemma_part_between(CLIP_SEA@, part, behind);
}

// ---------------------------------------------------------------------------
// What the statements find
// ---------------------------------------------------------------------------

/// The extent and the geometry types of rows.
#[derive(Debug, PartialEq)]
pub struct Stats {
    pub bounds: Bounds,
    pub geometry_types: Vec<String>,
}

/// The view of [`Stats`].
#[verifier::ext_equal]
pub struct StatsView {
    pub bounds: Bounds,
    pub geometry_types: Seq<Seq<char>>,
}

impl View for Stats {
    type V = StatsView;

    open spec fn view(&self) -> StatsView {
        StatsView { bounds: self.bounds, geometry_types: text::texts(self.geometry_types@) }
    }
}

/// The spellings of geometry types, up to the first that has none.
pub open spec fn spellings(names: Seq<Seq<char>>) -> Result<Seq<Seq<char>>, Seq<char>>
    decreases names.len(),
{
    if names.len() == 0 {
        Ok(Seq::empty())
    } else {
        match spellings(names.drop_last()) {
            Err(e) => Err(e),
            Ok(list) => {
                let name = text::upper(text::trimmed(names.last()));
                match geoparquet::type_spelling(name) {
                    Some(spelling) => Ok(list.push(spelling)),
                    None => Err(name),
                }
            },
        }
    }
}

proof fn lemma_unknown_stays(names: Seq<Seq<char>>, n: int)
    requires
        0 <= n <= names.len(),
        spellings(names.take(n)) is Err,
    ensures
        spellings(names) == spellings(names.take(n)),
    decreases names.len(),
{
    if n == names.len() {
        assert(names.take(n) == names);
    } else {
        assert(names.drop_last().take(n) == names.take(n));
        lemma_unknown_stays(names.drop_last(), n);
    }
}

/// The geometry types of a file, in GeoParquet's spelling.
pub fn geometry_types(stats: &Stats) -> (r: Result<Vec<String>, UnknownGeometryType>)
    ensures
        match r {
            Ok(list) => spellings(stats@.geometry_types) == Ok::<_, Seq<char>>(
                text::texts(list@),
            ),
            Err(e) => spellings(stats@.geometry_types) == Err::<Seq<Seq<char>>, _>(e.name@),
        },
{
    let ghost all = stats@.geometry_types;
    let mut list: Vec<String> = Vec::new();
    let mut i: usize = 0;
    proof {
        assert(all.take(0) == Seq::<Seq<char>>::empty());
        assert(text::texts(list@) == Seq::<Seq<char>>::empty());
    }
    while i < stats.geometry_types.len()
        invariant
            i <= stats.geometry_types@.len(),
            all == stats@.geometry_types,
            spellings(all.take(i as int)) == Ok::<_, Seq<char>>(text::texts(list@)),
        decreases stats.geometry_types@.len() - i,
    {
        assert(all.take(i + 1).drop_last() == all.take(i as int));
        assert(all.take(i + 1).last() == stats.geometry_types@[i as int]@);
        let ghost had = text::texts(list@);
        match geoparquet_geometry_type(stats.geometry_types[i].as_str()) {
            Ok(spelling) => {
                list.push(spelling.to_string());
                assert(text::texts(list@) =~= had.push(spelling@));
            },
            Err(e) => {
                proof {
                    lemma_unknown_stays(all, i + 1);
                }
                return Err(e);
            },
        }
        i = i + 1;
    }
    assert(all.take(i as int) == all);
    Ok(list)
}

/// The `geo` metadata of a file whose rows have that extent and those geometry
/// types. The bounds stand in the column `bbox`, as the statements have it.
pub fn metadata_for(stats: &Stats, geometry_types: &Vec<String>) -> (r: Result<
    String,
    serde_json::Error,
>)
    ensures
        match r {
            Ok(text) => text@ == json::json_written(
                geoparquet::geo_view(
                    "geometry"@,
                    geoparquet::own_covering(),
                    text::texts(geometry_types@),
                    stats.bounds.numbers(),
                ),
            ),
            Err(_) => false,
        },
{
    let covering = CoveringBbox {
        column: "bbox".to_string(),
        xmin: "xmin".to_string(),
        ymin: "ymin".to_string(),
        xmax: "xmax".to_string(),
        ymax: "ymax".to_string(),
    };
    assert(covering@ =~= geoparquet::own_covering());
    geo_metadata_json("geometry", &covering, geometry_types, stats.bounds)
}

/// Every geometry type gets its spelling, one for one and in order, whatever
/// space or lower case it is written with; the first that has none is named.
pub proof fn law_types_are_spelled_one_by_one(names: Seq<Seq<char>>)
    ensures
        spellings(names) is Ok ==> spellings(names)->Ok_0.len() == names.len(),
        spellings(names) is Ok ==> forall|i: int|
            #![trigger names[i]]
            0 <= i < names.len() ==> geoparquet::type_spelling(
                text::upper(text::trimmed(names[i])),
            ) == Some(spellings(names)->Ok_0[i]),
        spellings(names) is Err ==> exists|i: int|
            #![trigger names[i]]
            0 <= i < names.len() && spellings(names)->Err_0 == text::upper(text::trimmed(names[i]))
                && geoparquet::type_spelling(spellings(names)->Err_0) is None && forall|j: int|
                #![trigger names[j]]
                0 <= j < i ==> geoparquet::type_spelling(
                    text::upper(text::trimmed(names[j])),
                ) is Some,
    decreases names.len(),
{
    if names.len() > 0 {
        let rest = names.drop_last();
        let last = names.len() - 1;
        law_types_are_spelled_one_by_one(rest);
        assert(names[last] == names.last());
        assert(forall|i: int|
            #![trigger names[i]]
            0 <= i < last ==> names[i] == rest[i]);
        assert(forall|i: int|
            #![trigger rest[i]]
            0 <= i < last ==> names[i] == rest[i]);
        if spellings(rest) is Err {
            let i = choose|i: int|
                #![trigger rest[i]]
                0 <= i < rest.len() && spellings(rest)->Err_0 == text::upper(
                    text::trimmed(rest[i]),
                ) && geoparquet::type_spelling(spellings(rest)->Err_0) is None && forall|j: int|
                    #![trigger rest[j]]
                    0 <= j < i ==> geoparquet::type_spelling(
                        text::upper(text::trimmed(rest[j])),
                    ) is Some;
            assert(names[i] == rest[i]);
        }
    }
}

} // verus!
