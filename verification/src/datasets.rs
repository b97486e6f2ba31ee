//! The datasets: what each is, where it comes from, and how its files are named.
use crate::text;
use crate::text::starts_with;
use vstd::prelude::*;

verus! {

/// The kind of a dataset, by which its readers decide what to do with it.
#[derive(Debug, Clone, Copy, PartialEq, Eq, Structural)]
pub enum DatasetKind {
    /// Administrative areas (polygons).
    Admin,
    /// The names of administrative areas, without geometry.
    AdminNames,
    /// Towns and districts (points).
    Oaza,
    /// City blocks (points).
    Block,
    /// Buildings (polygons).
    Buildings,
    /// Population by grid square (polygons computed from the square's code).
    PopulationMesh,
    /// Buildings of PLATEAU (polygons), with columns of their own.
    PlateauBuildings,
    /// Railway lines.
    Railway,
    /// Railway stations: lines too, along the platforms.
    RailwayStation,
    /// Roads (lines).
    Road,
    /// Road routes by name, without geometry.
    RoadRoute,
}

impl DatasetKind {
    /// The name of the kind in a catalog.
    pub open spec fn spec_name(self) -> Seq<char> {
        match self {
            DatasetKind::Admin => "admin"@,
            DatasetKind::AdminNames => "admin_names"@,
            DatasetKind::Oaza => "oaza"@,
            DatasetKind::Block => "block"@,
            DatasetKind::Buildings => "buildings"@,
            DatasetKind::PopulationMesh => "population_mesh"@,
            DatasetKind::PlateauBuildings => "plateau_buildings"@,
            DatasetKind::Railway => "railway"@,
            DatasetKind::RailwayStation => "railway_station"@,
            DatasetKind::Road => "road"@,
            DatasetKind::RoadRoute => "road_route"@,
        }
    }

    pub fn name(&self) -> (name: &'static str)
        ensures
            name@ == self.spec_name(),
    {
        match self {
            DatasetKind::Admin => "admin",
            DatasetKind::AdminNames => "admin_names",
            DatasetKind::Oaza => "oaza",
            DatasetKind::Block => "block",
            DatasetKind::Buildings => "buildings",
            DatasetKind::PopulationMesh => "population_mesh",
            DatasetKind::PlateauBuildings => "plateau_buildings",
            DatasetKind::Railway => "railway",
            DatasetKind::RailwayStation => "railway_station",
            DatasetKind::Road => "road",
            DatasetKind::RoadRoute => "road_route",
        }
    }

    /// Files of this kind have no geometry.
    pub open spec fn spec_names_only(self) -> bool {
        self == DatasetKind::AdminNames || self == DatasetKind::RoadRoute
    }

    pub fn names_only(&self) -> (b: bool)
        ensures
            b == self.spec_names_only(),
    {
        match self {
            DatasetKind::AdminNames => true,
            DatasetKind::RoadRoute => true,
            _ => false,
        }
    }

    /// Users choose among features of this kind by the values of a column.
    pub open spec fn filterable(self) -> bool {
        match self {
            DatasetKind::Buildings => true,
            DatasetKind::PlateauBuildings => true,
            DatasetKind::Railway => true,
            DatasetKind::RailwayStation => true,
            DatasetKind::Road => true,
            _ => false,
        }
    }

    /// The columns whose values go into the catalog as a vocabulary.
    pub open spec fn spec_summary_columns(self) -> Seq<Seq<char>> {
        match self {
            DatasetKind::Buildings => seq!["class"@],
            DatasetKind::Road => seq!["class"@],
            DatasetKind::PlateauBuildings => seq!["usage"@],
            DatasetKind::Railway => seq!["railway_class"@, "institution_type"@],
            DatasetKind::RailwayStation => seq!["railway_class"@, "institution_type"@],
            _ => Seq::empty(),
        }
    }

    pub fn summary_columns(&self) -> (columns: Vec<String>)
        ensures
            text::texts(columns@) == self.spec_summary_columns(),
    {
        let mut columns: Vec<String> = Vec::new();
        match self {
            DatasetKind::Buildings => {
                columns.push("class".to_string());
            },
            DatasetKind::Road => {
                columns.push("class".to_string());
            },
            DatasetKind::PlateauBuildings => {
                columns.push("usage".to_string());
            },
            DatasetKind::Railway => {
                columns.push("railway_class".to_string());
                columns.push("institution_type".to_string());
            },
            DatasetKind::RailwayStation => {
                columns.push("railway_class".to_string());
                columns.push("institution_type".to_string());
            },
            _ => {},
        }
        assert(text::texts(columns@) =~= self.spec_summary_columns());
        columns
    }
}

/// The credit that a dataset has to be shown with.
#[derive(Debug, Clone, Copy, PartialEq, Eq)]
pub struct Attribution {
    /// The text to show, as it stands.
    pub text: &'static str,
    /// The address of the source.
    pub url: &'static str,
    /// An SPDX identifier, or `other`.
    pub license: &'static str,
    /// The name of the organisation.
    pub provider: &'static str,
}

/// What is known of a dataset beforehand.
#[derive(Debug, Clone, Copy, PartialEq, Eq)]
pub struct Description {
    pub kind: DatasetKind,
    /// The collection that it belongs to: one for each source and kind.
    pub collection: &'static str,
    /// Its name, for people.
    pub title: &'static str,
    pub description: &'static str,
    pub attribution: Attribution,
    /// The digits of its grid square codes; `None` where it is no grid.
    pub mesh_digits: Option<u8>,
    /// Where the source data can be had.
    pub via: &'static str,
}

pub const MLIT_ISJ_TEXT: &'static str = "「位置参照情報ダウンロードサービス」（国土交通省）をもとに作成";

pub const MLIT_ISJ_URL: &'static str = "https://nlftp.mlit.go.jp/isj/";

/// Location reference data of the Ministry of Land, Infrastructure, Transport
/// and Tourism. Its terms ask for the title, the ministry, the address and, where
/// the data was processed, a note that it was.
pub open spec fn spec_mlit_isj() -> Attribution {
    Attribution {
        text: MLIT_ISJ_TEXT,
        url: MLIT_ISJ_URL,
        license: "other",
        provider: "国土交通省",
    }
}

/// Location reference data of the Ministry of Land, Infrastructure, Transport
/// and Tourism. Its terms ask for the title, the ministry, the address and, where
/// the data was processed, a note that it was.
pub fn mlit_isj() -> (a: Attribution)
    ensures
        a == spec_mlit_isj(),
{
    Attribution {
        text: MLIT_ISJ_TEXT,
        url: MLIT_ISJ_URL,
        license: "other",
        provider: "国土交通省",
    }
}

pub const MLIT_KSJ_TEXT: &'static str = "「国土数値情報（行政区域データ）」（国土交通省）をもとに作成";

pub const MLIT_KSJ_URL: &'static str = "https://nlftp.mlit.go.jp/ksj/";

/// National land numerical information, administrative areas.
pub open spec fn spec_mlit_ksj() -> Attribution {
    Attribution {
        text: MLIT_KSJ_TEXT,
        url: MLIT_KSJ_URL,
        license: "other",
        provider: "国土交通省",
    }
}

/// National land numerical information, administrative areas.
pub fn mlit_ksj() -> (a: Attribution)
    ensures
        a == spec_mlit_ksj(),
{
    Attribution {
        text: MLIT_KSJ_TEXT,
        url: MLIT_KSJ_URL,
        license: "other",
        provider: "国土交通省",
    }
}

pub const MLIT_KSJ_RAILWAY_TEXT: &'static str = "「国土数値情報（鉄道データ）」（国土交通省）をもとに作成";

pub const MLIT_KSJ_RAILWAY_URL: &'static str = "https://nlftp.mlit.go.jp/ksj/gml/datalist/KsjTmplt-N02-2022.html";

/// National land numerical information, railways: open data with terms of its own.
pub open spec fn spec_mlit_ksj_railway() -> Attribution {
    Attribution {
        text: MLIT_KSJ_RAILWAY_TEXT,
        url: MLIT_KSJ_RAILWAY_URL,
        license: "other",
        provider: "国土交通省",
    }
}

/// National land numerical information, railways: open data with terms of its own.
pub fn mlit_ksj_railway() -> (a: Attribution)
    ensures
        a == spec_mlit_ksj_railway(),
{
    Attribution {
        text: MLIT_KSJ_RAILWAY_TEXT,
        url: MLIT_KSJ_RAILWAY_URL,
        license: "other",
        provider: "国土交通省",
    }
}

pub const OVERTURE_TEXT: &'static str = "Overture Maps / © OpenStreetMap contributors (ODbL 1.0)";

pub const OVERTURE_URL: &'static str = "https://docs.overturemaps.org/attribution/";

/// Overture Maps, under ODbL 1.0, with data from OpenStreetMap: both are named.
pub open spec fn spec_overture() -> Attribution {
    Attribution {
        text: OVERTURE_TEXT,
        url: OVERTURE_URL,
        license: "ODbL-1.0",
        provider: "Overture Maps Foundation",
    }
}

/// Overture Maps, under ODbL 1.0, with data from OpenStreetMap: both are named.
pub fn overture() -> (a: Attribution)
    ensures
        a == spec_overture(),
{
    Attribution {
        text: OVERTURE_TEXT,
        url: OVERTURE_URL,
        license: "ODbL-1.0",
        provider: "Overture Maps Foundation",
    }
}

pub const MLIT_PLATEAU_TEXT: &'static str = "「3D都市モデル（Project PLATEAU）」（国土交通省）をもとに作成";

pub const MLIT_PLATEAU_URL: &'static str = "https://www.mlit.go.jp/plateau/";

/// PLATEAU city models, under PDL 1.0, which allows use under CC BY 4.0.
pub open spec fn spec_mlit_plateau() -> Attribution {
    Attribution {
        text: MLIT_PLATEAU_TEXT,
        url: MLIT_PLATEAU_URL,
        license: "CC-BY-4.0",
        provider: "国土交通省",
    }
}

/// PLATEAU city models, under PDL 1.0, which allows use under CC BY 4.0.
pub fn mlit_plateau() -> (a: Attribution)
    ensures
        a == spec_mlit_plateau(),
{
    Attribution {
        text: MLIT_PLATEAU_TEXT,
        url: MLIT_PLATEAU_URL,
        license: "CC-BY-4.0",
        provider: "国土交通省",
    }
}

pub const ESTAT_MESH_TEXT: &'static str = "「令和2年国勢調査 地域メッシュ統計」（総務省統計局）をもとに作成";

pub const ESTAT_MESH_URL: &'static str = "https://www.e-stat.go.jp/gis";

/// Grid square statistics of the population census, under the government's
/// standard terms of use.
pub open spec fn spec_estat_mesh() -> Attribution {
    Attribution {
        text: ESTAT_MESH_TEXT,
        url: ESTAT_MESH_URL,
        license: "other",
        provider: "総務省統計局",
    }
}

/// Grid square statistics of the population census, under the government's
/// standard terms of use.
pub fn estat_mesh() -> (a: Attribution)
    ensures
        a == spec_estat_mesh(),
{
    Attribution {
        text: ESTAT_MESH_TEXT,
        url: ESTAT_MESH_URL,
        license: "other",
        provider: "総務省統計局",
    }
}

pub const N03_NAMES_DESCRIPTION: &'static str =
    "国土数値情報の行政区域から名称だけを抜き出したもの。地名検索の候補に使う。";

pub const N03_NAMES_VIA: &'static str =
    "https://nlftp.mlit.go.jp/ksj/gml/datalist/KsjTmplt-N03-2026.html";

pub const N03_DESCRIPTION: &'static str =
    "国土数値情報の行政区域 (面)。逆ジオコーディングとハイライトに使う。";

pub const N02_STATIONS_DESCRIPTION: &'static str =
    "国土数値情報の鉄道データのうち駅。原典がホームの延長を線で持っているので、点に潰さず線のまま配っている。";

pub const N02_STATIONS_VIA: &'static str =
    "https://nlftp.mlit.go.jp/ksj/gml/datalist/KsjTmplt-N02-2022.html";

pub const N02_SECTIONS_DESCRIPTION: &'static str =
    "国土数値情報の鉄道データのうち路線 (線)。鉄道区分と事業者種別はコードを名前に解決したうえで、原典のコードも併せて持つ。";

pub const OVERTURE_ADMIN_NAMES_DESCRIPTION: &'static str =
    "Overtureの行政区域から名称だけを抜き出したもの。地名検索の候補に使う。";

pub const OVERTURE_ADMIN_NAMES_VIA: &'static str =
    "https://docs.overturemaps.org/guides/divisions/";

pub const OVERTURE_ADMIN_DESCRIPTION: &'static str =
    "Overtureの行政区域 (面)。逆ジオコーディングとハイライトに使う。";

pub const OVERTURE_BUILDINGS_DESCRIPTION: &'static str =
    "Overtureの建物 (面)。高さと種別は入っている割合が低い。";

pub const OVERTURE_BUILDINGS_VIA: &'static str =
    "https://docs.overturemaps.org/guides/buildings/";

pub const OVERTURE_ROAD_ROUTES_DESCRIPTION: &'static str =
    "Overtureの道路から路線名だけを抜き出したもの。「国道13号」のような路線名検索に使う。";

pub const OVERTURE_ROAD_ROUTES_VIA: &'static str =
    "https://docs.overturemaps.org/guides/transportation/";

pub const OVERTURE_ROADS_DESCRIPTION: &'static str =
    "Overtureの道路 (線) のうち幹線。1つの区間が複数の路線に属することがあるので、路線名と系統はリストで持つ。";

pub const PLATEAU_BLDG_DESCRIPTION: &'static str =
    "PLATEAUの建物 (面)。高さ・用途・階数がほぼ全件に入っている。都市ごとに1ファイル。";

pub const PLATEAU_BLDG_VIA: &'static str =
    "https://www.geospatial.jp/ckan/dataset/plateau";

pub const MESH_POP_1KM_DESCRIPTION: &'static str =
    "令和2年国勢調査の地域メッシュ統計を1kmに束ねたもの。全国で1ファイル。引いた表示で125mを読むと転送量が跳ね上がるため、俯瞰用に別に持つ。人口・世帯数は合計、密度は中に含まれる125mメッシュの最大値。";

pub const MESH_POP_1KM_VIA: &'static str =
    "https://www.e-stat.go.jp/gis/statmap-search?page=1&type=1";

pub const MESH_POP_DESCRIPTION: &'static str =
    "令和2年国勢調査の地域メッシュ統計 (125m)。人口・世帯数・人口密度を持つ。ジオメトリはメッシュコードから計算したもの。都道府県ごとに1ファイル。";

pub const ISJ_OAZA_DESCRIPTION: &'static str =
    "位置参照情報の大字・町丁目 (点)。住所検索に使う。";

pub const ISJ_OAZA_VIA: &'static str =
    "https://nlftp.mlit.go.jp/cgi-bin/isj/dls/_choose_method.cgi";

pub const ISJ_BLOCK_DESCRIPTION: &'static str =
    "位置参照情報の街区 (点)。より細かい住所検索に使う。";

/// File name prefixes and the datasets that they stand for. A file belongs to
/// the first prefix that its name starts with, so a longer prefix comes before
/// the shorter one that it begins with.
pub open spec fn spec_descriptions() -> Seq<(Seq<char>, Description)> {
    seq![
        ("n03_names"@, Description {
            kind: DatasetKind::AdminNames,
            collection: "ksj-admin-names",
            title: "行政区域の名称",
            description: N03_NAMES_DESCRIPTION,
            attribution: spec_mlit_ksj(),
            mesh_digits: None,
            via: N03_NAMES_VIA,
        }),
        ("n03"@, Description {
            kind: DatasetKind::Admin,
            collection: "ksj-admin",
            title: "行政区域",
            description: N03_DESCRIPTION,
            attribution: spec_mlit_ksj(),
            mesh_digits: None,
            via: N03_NAMES_VIA,
        }),
        ("n02_stations"@, Description {
            kind: DatasetKind::RailwayStation,
            collection: "ksj-railway-stations",
            title: "鉄道駅",
            description: N02_STATIONS_DESCRIPTION,
            attribution: spec_mlit_ksj_railway(),
            mesh_digits: None,
            via: N02_STATIONS_VIA,
        }),
        ("n02_sections"@, Description {
            kind: DatasetKind::Railway,
            collection: "ksj-railway",
            title: "鉄道路線",
            description: N02_SECTIONS_DESCRIPTION,
            attribution: spec_mlit_ksj_railway(),
            mesh_digits: None,
            via: N02_STATIONS_VIA,
        }),
        ("overture_admin_names"@, Description {
            kind: DatasetKind::AdminNames,
            collection: "overture-admin-names",
            title: "行政区域の名称",
            description: OVERTURE_ADMIN_NAMES_DESCRIPTION,
            attribution: spec_overture(),
            mesh_digits: None,
            via: OVERTURE_ADMIN_NAMES_VIA,
        }),
        ("overture_admin"@, Description {
            kind: DatasetKind::Admin,
            collection: "overture-admin",
            title: "行政区域",
            description: OVERTURE_ADMIN_DESCRIPTION,
            attribution: spec_overture(),
            mesh_digits: None,
            via: OVERTURE_ADMIN_NAMES_VIA,
        }),
        ("overture_buildings"@, Description {
            kind: DatasetKind::Buildings,
            collection: "overture-buildings",
            title: "建物",
            description: OVERTURE_BUILDINGS_DESCRIPTION,
            attribution: spec_overture(),
            mesh_digits: None,
            via: OVERTURE_BUILDINGS_VIA,
        }),
        ("overture_road_routes"@, Description {
            kind: DatasetKind::RoadRoute,
            collection: "overture-road-routes",
            title: "道路の路線",
            description: OVERTURE_ROAD_ROUTES_DESCRIPTION,
            attribution: spec_overture(),
            mesh_digits: None,
            via: OVERTURE_ROAD_ROUTES_VIA,
        }),
        ("overture_roads"@, Description {
            kind: DatasetKind::Road,
            collection: "overture-roads",
            title: "道路",
            description: OVERTURE_ROADS_DESCRIPTION,
            attribution: spec_overture(),
            mesh_digits: None,
            via: OVERTURE_ROAD_ROUTES_VIA,
        }),
        ("plateau_bldg"@, Description {
            kind: DatasetKind::PlateauBuildings,
            collection: "plateau-buildings",
            title: "建物 (PLATEAU)",
            description: PLATEAU_BLDG_DESCRIPTION,
            attribution: spec_mlit_plateau(),
            mesh_digits: None,
            via: PLATEAU_BLDG_VIA,
        }),
        ("mesh_pop_1km"@, Description {
            kind: DatasetKind::PopulationMesh,
            collection: "estat-mesh-pop-1km",
            title: "人口メッシュ (1km)",
            description: MESH_POP_1KM_DESCRIPTION,
            attribution: spec_estat_mesh(),
            mesh_digits: Some(8),
            via: MESH_POP_1KM_VIA,
        }),
        ("mesh_pop"@, Description {
            kind: DatasetKind::PopulationMesh,
            collection: "estat-mesh-pop",
            title: "人口メッシュ",
            description: MESH_POP_DESCRIPTION,
            attribution: spec_estat_mesh(),
            mesh_digits: Some(11),
            via: MESH_POP_1KM_VIA,
        }),
        ("isj_oaza"@, Description {
            kind: DatasetKind::Oaza,
            collection: "isj-oaza",
            title: "大字・町丁目",
            description: ISJ_OAZA_DESCRIPTION,
            attribution: spec_mlit_isj(),
            mesh_digits: None,
            via: ISJ_OAZA_VIA,
        }),
        ("isj_block"@, Description {
            kind: DatasetKind::Block,
            collection: "isj-block",
            title: "街区",
            description: ISJ_BLOCK_DESCRIPTION,
            attribution: spec_mlit_isj(),
            mesh_digits: None,
            via: ISJ_OAZA_VIA,
        }),
    ]
}

/// File name prefixes and the datasets that they stand for, longer prefixes first.
pub fn descriptions() -> (table: Vec<(&'static str, Description)>)
    ensures
        table@.len() == spec_descriptions().len(),
        forall|i: int|
            #![trigger table@[i]]
            0 <= i < table@.len() ==> (table@[i].0@, table@[i].1) == spec_descriptions()[i],
{
    let mut table: Vec<(&'static str, Description)> = Vec::new();
    table.push(("n03_names", Description {
        kind: DatasetKind::AdminNames,
        collection: "ksj-admin-names",
        title: "行政区域の名称",
        description: N03_NAMES_DESCRIPTION,
        attribution: mlit_ksj(),
        mesh_digits: None,
        via: N03_NAMES_VIA,
    }));
    table.push(("n03", Description {
        kind: DatasetKind::Admin,
        collection: "ksj-admin",
        title: "行政区域",
        description: N03_DESCRIPTION,
        attribution: mlit_ksj(),
        mesh_digits: None,
        via: N03_NAMES_VIA,
    }));
    table.push(("n02_stations", Description {
        kind: DatasetKind::RailwayStation,
        collection: "ksj-railway-stations",
        title: "鉄道駅",
        description: N02_STATIONS_DESCRIPTION,
        attribution: mlit_ksj_railway(),
        mesh_digits: None,
        via: N02_STATIONS_VIA,
    }));
    table.push(("n02_sections", Description {
        kind: DatasetKind::Railway,
        collection: "ksj-railway",
        title: "鉄道路線",
        description: N02_SECTIONS_DESCRIPTION,
        attribution: mlit_ksj_railway(),
        mesh_digits: None,
        via: N02_STATIONS_VIA,
    }));
    table.push(("overture_admin_names", Description {
        kind: DatasetKind::AdminNames,
        collection: "overture-admin-names",
        title: "行政区域の名称",
        description: OVERTURE_ADMIN_NAMES_DESCRIPTION,
        attribution: overture(),
        mesh_digits: None,
        via: OVERTURE_ADMIN_NAMES_VIA,
    }));
    table.push(("overture_admin", Description {
        kind: DatasetKind::Admin,
        collection: "overture-admin",
        title: "行政区域",
        description: OVERTURE_ADMIN_DESCRIPTION,
        attribution: overture(),
        mesh_digits: None,
        via: OVERTURE_ADMIN_NAMES_VIA,
    }));
    table.push(("overture_buildings", Description {
        kind: DatasetKind::Buildings,
        collection: "overture-buildings",
        title: "建物",
        description: OVERTURE_BUILDINGS_DESCRIPTION,
        attribution: overture(),
        mesh_digits: None,
        via: OVERTURE_BUILDINGS_VIA,
    }));
    table.push(("overture_road_routes", Description {
        kind: DatasetKind::RoadRoute,
        collection: "overture-road-routes",
        title: "道路の路線",
        description: OVERTURE_ROAD_ROUTES_DESCRIPTION,
        attribution: overture(),
        mesh_digits: None,
        via: OVERTURE_ROAD_ROUTES_VIA,
    }));
    table.push(("overture_roads", Description {
        kind: DatasetKind::Road,
        collection: "overture-roads",
        title: "道路",
        description: OVERTURE_ROADS_DESCRIPTION,
        attribution: overture(),
        mesh_digits: None,
        via: OVERTURE_ROAD_ROUTES_VIA,
    }));
    table.push(("plateau_bldg", Description {
        kind: DatasetKind::PlateauBuildings,
        collection: "plateau-buildings",
        title: "建物 (PLATEAU)",
        description: PLATEAU_BLDG_DESCRIPTION,
        attribution: mlit_plateau(),
        mesh_digits: None,
        via: PLATEAU_BLDG_VIA,
    }));
    table.push(("mesh_pop_1km", Description {
        kind: DatasetKind::PopulationMesh,
        collection: "estat-mesh-pop-1km",
        title: "人口メッシュ (1km)",
        description: MESH_POP_1KM_DESCRIPTION,
        attribution: estat_mesh(),
        mesh_digits: Some(8),
        via: MESH_POP_1KM_VIA,
    }));
    table.push(("mesh_pop", Description {
        kind: DatasetKind::PopulationMesh,
        collection: "estat-mesh-pop",
        title: "人口メッシュ",
        description: MESH_POP_DESCRIPTION,
        attribution: estat_mesh(),
        mesh_digits: Some(11),
        via: MESH_POP_1KM_VIA,
    }));
    table.push(("isj_oaza", Description {
        kind: DatasetKind::Oaza,
        collection: "isj-oaza",
        title: "大字・町丁目",
        description: ISJ_OAZA_DESCRIPTION,
        attribution: mlit_isj(),
        mesh_digits: None,
        via: ISJ_OAZA_VIA,
    }));
    table.push(("isj_block", Description {
        kind: DatasetKind::Block,
        collection: "isj-block",
        title: "街区",
        description: ISJ_BLOCK_DESCRIPTION,
        attribution: mlit_isj(),
        mesh_digits: None,
        via: ISJ_OAZA_VIA,
    }));
    table
}

/// The description behind the first prefix in `table` that `stem` starts with.
pub open spec fn first_described(
    table: Seq<(Seq<char>, Description)>,
    stem: Seq<char>,
) -> Option<Description>
    decreases table.len(),
{
    if table.len() == 0 {
        None
    } else if text::has_prefix(stem, table[0].0) {
        Some(table[0].1)
    } else {
        first_described(table.drop_first(), stem)
    }
}

/// The dataset that a file of that name belongs to.
pub open spec fn described(stem: Seq<char>) -> Option<Description> {
    first_described(spec_descriptions(), stem)
}

/// Finds the dataset that a file belongs to by its name without extension.
pub fn describe(file_stem: &str) -> (d: Option<Description>)
    ensures
        d == described(file_stem@),
{
    let table = descriptions();
    let ghost all = spec_descriptions();
    let mut i: usize = 0;
    assert(all.skip(0) == all);
    while i < table.len()
        invariant
            i <= table@.len(),
            all == spec_descriptions(),
            table@.len() == all.len(),
            forall|j: int|
                #![trigger table@[j]]
                0 <= j < table@.len() ==> (table@[j].0@, table@[j].1) == all[j],
            described(file_stem@) == first_described(all.skip(i as int), file_stem@),
        decreases table@.len() - i,
    {
        assert(all.skip(i as int)[0] == all[i as int]);
        assert(all.skip(i as int).drop_first() == all.skip(i + 1));
        assert((table@[i as int].0@, table@[i as int].1) == all[i as int]);
        if starts_with(file_stem, table[i].0) {
            return Some(table[i].1);
        }
        i = i + 1;
    }
    None
}

// ---------------------------------------------------------------------------
// Laws
// ---------------------------------------------------------------------------

/// At `k`, `b` has a character that `a` does not have there.
spec fn differs(a: Seq<char>, b: Seq<char>, k: int) -> bool {
    0 <= k < b.len() && (k >= a.len() || a[k] != b[k])
}

proof fn lemma_differs(a: Seq<char>, b: Seq<char>, k: int)
    requires
        differs(a, b, k),
    ensures
        !text::has_prefix(a, b),
        a != b,
{
    if text::has_prefix(a, b) {
        assert(a.subrange(0, b.len() as int)[k] == b[k]);
    }
}
proof fn lemma_prefixes(i: int, j: int)
    requires
        0 <= j < i < spec_descriptions().len(),
    ensures
        !text::has_prefix(spec_descriptions()[i].0, spec_descriptions()[j].0),
{
    let table = spec_descriptions();
    let a = table[i].0;
    let b = table[j].0;
    reveal_strlit("n03_names");
    reveal_strlit("n03");
    reveal_strlit("n02_stations");
    reveal_strlit("n02_sections");
    reveal_strlit("overture_admin_names");
    reveal_strlit("overture_admin");
    reveal_strlit("overture_buildings");
    reveal_strlit("overture_road_routes");
    reveal_strlit("overture_roads");
    reveal_strlit("plateau_bldg");
    reveal_strlit("mesh_pop_1km");
    reveal_strlit("mesh_pop");
    reveal_strlit("isj_oaza");
    reveal_strlit("isj_block");
    assert(differs(a, b, 0)
        || differs(a, b, 2)
        || differs(a, b, 3)
        || differs(a, b, 4)
        || differs(a, b, 5)
        || differs(a, b, 8)
        || differs(a, b, 9)
        || differs(a, b, 13)
        || differs(a, b, 14));
    if differs(a, b, 0) {
        lemma_differs(a, b, 0);
    } else if differs(a, b, 2) {
        lemma_differs(a, b, 2);
    } else if differs(a, b, 3) {
        lemma_differs(a, b, 3);
    } else if differs(a, b, 4) {
        lemma_differs(a, b, 4);
    } else if differs(a, b, 5) {
        lemma_differs(a, b, 5);
    } else if differs(a, b, 8) {
        lemma_differs(a, b, 8);
    } else if differs(a, b, 9) {
        lemma_differs(a, b, 9);
    } else if differs(a, b, 13) {
        lemma_differs(a, b, 13);
    } else if differs(a, b, 14) {
        lemma_differs(a, b, 14);
    }
}

/// No dataset is hidden behind an earlier one: a file named by its prefix alone
/// belongs to it.
pub proof fn law_no_prefix_is_shadowed(i: int)
    requires
        0 <= i < spec_descriptions().len(),
    ensures
        described(spec_descriptions()[i].0) == Some(spec_descriptions()[i].1),
{
    let table = spec_descriptions();
    let stem = table[i].0;
    assert(stem.subrange(0, stem.len() as int) == stem);
    assert forall|j: int| 0 <= j < i implies !text::has_prefix(stem, #[trigger] table[j].0) by {
        lemma_prefixes(i, j);
    }
    lemma_first_described(table, stem, i);
}

/// A file whose name continues a prefix belongs to that dataset, unless it
/// starts with the prefix of an earlier one.
pub proof fn law_continued_prefix(i: int, rest: Seq<char>)
    requires
        0 <= i < spec_descriptions().len(),
        forall|j: int|
            0 <= j < i ==> !text::has_prefix(
                spec_descriptions()[i].0 + rest,
                #[trigger] spec_descriptions()[j].0,
            ),
    ensures
        described(spec_descriptions()[i].0 + rest) == Some(spec_descriptions()[i].1),
{
    let table = spec_descriptions();
    let stem = table[i].0 + rest;
    assert(stem.subrange(0, table[i].0.len() as int) == table[i].0);
    lemma_first_described(table, stem, i);
}

proof fn lemma_first_described(table: Seq<(Seq<char>, Description)>, stem: Seq<char>, i: int)
    requires
        0 <= i < table.len(),
        text::has_prefix(stem, table[i].0),
        forall|j: int| 0 <= j < i ==> !text::has_prefix(stem, #[trigger] table[j].0),
    ensures
        first_described(table, stem) == Some(table[i].1),
    decreases i,
{
    if i > 0 {
        assert(!text::has_prefix(stem, table[0].0));
        let rest = table.drop_first();
        assert forall|j: int| 0 <= j < i - 1 implies !text::has_prefix(
            stem,
            #[trigger] rest[j].0,
        ) by {
            assert(rest[j] == table[j + 1]);
        }
        lemma_first_described(rest, stem, i - 1);
    }
}

/// A collection holds one dataset only, and so one kind.
pub proof fn law_collections_hold_one_kind(i: int, j: int)
    requires
        0 <= i < spec_descriptions().len(),
        0 <= j < spec_descriptions().len(),
        spec_descriptions()[i].1.collection@ == spec_descriptions()[j].1.collection@,
    ensures
        spec_descriptions()[i].1.kind == spec_descriptions()[j].1.kind,
        i == j,
{
    let table = spec_descriptions();
    let a = table[i].1.collection@;
    let b = table[j].1.collection@;
    reveal_strlit("ksj-admin-names");
    reveal_strlit("ksj-admin");
    reveal_strlit("ksj-railway-stations");
    reveal_strlit("ksj-railway");
    reveal_strlit("overture-admin-names");
    reveal_strlit("overture-admin");
    reveal_strlit("overture-buildings");
    reveal_strlit("overture-road-routes");
    reveal_strlit("overture-roads");
    reveal_strlit("plateau-buildings");
    reveal_strlit("estat-mesh-pop-1km");
    reveal_strlit("estat-mesh-pop");
    reveal_strlit("isj-oaza");
    reveal_strlit("isj-block");
    assert(i != j ==> a.len() != b.len() || a[0] != b[0] || a[9] != b[9]);
}

/// No collection has a name that another document of the catalog goes by.
pub proof fn law_collection_names_are_free(i: int)
    requires
        0 <= i < spec_descriptions().len(),
    ensures
        spec_descriptions()[i].1.collection@ != "catalog"@,
        !text::has_suffix(spec_descriptions()[i].1.collection@, "-items"@),
{
    reveal_strlit("catalog");
    reveal_strlit("-items");
    reveal_strlit("ksj-admin-names");
    reveal_strlit("ksj-admin");
    reveal_strlit("ksj-railway-stations");
    reveal_strlit("ksj-railway");
    reveal_strlit("overture-admin-names");
    reveal_strlit("overture-admin");
    reveal_strlit("overture-buildings");
    reveal_strlit("overture-road-routes");
    reveal_strlit("overture-roads");
    reveal_strlit("plateau-buildings");
    reveal_strlit("estat-mesh-pop-1km");
    reveal_strlit("estat-mesh-pop");
    reveal_strlit("isj-oaza");
    reveal_strlit("isj-block");
    let name = spec_descriptions()[i].1.collection@;
    assert(name.len() > 7 && name[name.len() - 2] != 'm');
    if text::has_suffix(name, "-items"@) {
        let end = name.subrange(name.len() - 6, name.len() as int);
        assert(end[4] == name[name.len() - 2]);
        assert("-items"@[4] == 'm');
    }
}

/// Kinds that users filter have a vocabulary, and no others do.
pub proof fn law_filterable_kinds_have_a_vocabulary(kind: DatasetKind)
    ensures
        kind.filterable() == (kind.spec_summary_columns().len() > 0),
{
}

/// Every dataset carries a credit with the address of its source, and belongs
/// to a collection with a description.
pub proof fn law_every_dataset_is_credited(i: int)
    requires
        0 <= i < spec_descriptions().len(),
    ensures
        spec_descriptions()[i].1.attribution.text@.len() > 0,
        text::has_prefix(spec_descriptions()[i].1.attribution.url@, "https://"@),
        spec_descriptions()[i].1.collection@.len() > 0,
        spec_descriptions()[i].1.description@.len() > 0,
{
    reveal_strlit("https://");
    reveal_strlit("「位置参照情報ダウンロードサービス」（国土交通省）をもとに作成");
    reveal_strlit("https://nlftp.mlit.go.jp/isj/");
    reveal_strlit("「国土数値情報（行政区域データ）」（国土交通省）をもとに作成");
    reveal_strlit("https://nlftp.mlit.go.jp/ksj/");
    reveal_strlit("「国土数値情報（鉄道データ）」（国土交通省）をもとに作成");
    reveal_strlit("https://nlftp.mlit.go.jp/ksj/gml/datalist/KsjTmplt-N02-2022.html");
    reveal_strlit("Overture Maps / © OpenStreetMap contributors (ODbL 1.0)");
    reveal_strlit("https://docs.overturemaps.org/attribution/");
    reveal_strlit("「3D都市モデル（Project PLATEAU）」（国土交通省）をもとに作成");
    reveal_strlit("https://www.mlit.go.jp/plateau/");
    reveal_strlit("「令和2年国勢調査 地域メッシュ統計」（総務省統計局）をもとに作成");
    reveal_strlit("https://www.e-stat.go.jp/gis");
    reveal_strlit("ksj-admin-names");
    reveal_strlit("国土数値情報の行政区域から名称だけを抜き出したもの。地名検索の候補に使う。");
    reveal_strlit("ksj-admin");
    reveal_strlit("国土数値情報の行政区域 (面)。逆ジオコーディングとハイライトに使う。");
    reveal_strlit("ksj-railway-stations");
    reveal_strlit("国土数値情報の鉄道データのうち駅。原典がホームの延長を線で持っているので、点に潰さず線のまま配っている。");
    reveal_strlit("ksj-railway");
    reveal_strlit("国土数値情報の鉄道データのうち路線 (線)。鉄道区分と事業者種別はコードを名前に解決したうえで、原典のコードも併せて持つ。");
    reveal_strlit("overture-admin-names");
    reveal_strlit("Overtureの行政区域から名称だけを抜き出したもの。地名検索の候補に使う。");
    reveal_strlit("overture-admin");
    reveal_strlit("Overtureの行政区域 (面)。逆ジオコーディングとハイライトに使う。");
    reveal_strlit("overture-buildings");
    reveal_strlit("Overtureの建物 (面)。高さと種別は入っている割合が低い。");
    reveal_strlit("overture-road-routes");
    reveal_strlit("Overtureの道路から路線名だけを抜き出したもの。「国道13号」のような路線名検索に使う。");
    reveal_strlit("overture-roads");
    reveal_strlit("Overtureの道路 (線) のうち幹線。1つの区間が複数の路線に属することがあるので、路線名と系統はリストで持つ。");
    reveal_strlit("plateau-buildings");
    reveal_strlit("PLATEAUの建物 (面)。高さ・用途・階数がほぼ全件に入っている。都市ごとに1ファイル。");
    reveal_strlit("estat-mesh-pop-1km");
    reveal_strlit("令和2年国勢調査の地域メッシュ統計を1kmに束ねたもの。全国で1ファイル。引いた表示で125mを読むと転送量が跳ね上がるため、俯瞰用に別に持つ。人口・世帯数は合計、密度は中に含まれる125mメッシュの最大値。");
    reveal_strlit("estat-mesh-pop");
    reveal_strlit("令和2年国勢調査の地域メッシュ統計 (125m)。人口・世帯数・人口密度を持つ。ジオメトリはメッシュコードから計算したもの。都道府県ごとに1ファイル。");
    reveal_strlit("isj-oaza");
    reveal_strlit("位置参照情報の大字・町丁目 (点)。住所検索に使う。");
    reveal_strlit("isj-block");
    reveal_strlit("位置参照情報の街区 (点)。より細かい住所検索に使う。");
    let url = spec_descriptions()[i].1.attribution.url@;
    assert(url.len() >= 8);
    assert(url.subrange(0, 8) =~= "https://"@);
}

proof fn lemma_other_prefix(stem: Seq<char>, p: Seq<char>, q: Seq<char>, k: int)
    requires
        text::has_prefix(stem, p),
        0 <= k < p.len(),
        k < q.len(),
        p[k] != q[k],
    ensures
        !text::has_prefix(stem, q),
{
    assert(stem.subrange(0, p.len() as int)[k] == stem[k]);
    if text::has_prefix(stem, q) {
        assert(stem.subrange(0, q.len() as int)[k] == stem[k]);
    }
}

/// A file is credited to a provider, under a licence, as a dataset of a kind in
/// a collection.
pub open spec fn is_about(
    d: Option<Description>,
    kind: DatasetKind,
    collection: Seq<char>,
    provider: Seq<char>,
    license: Seq<char>,
    title: Seq<char>,
    credit: Seq<char>,
    url: Seq<char>,
    mesh_digits: Option<u8>,
) -> bool {
    &&& d is Some
    &&& d->0.kind == kind
    &&& d->0.collection@ == collection
    &&& d->0.attribution.provider@ == provider
    &&& d->0.attribution.license@ == license
    &&& d->0.title@ == title
    &&& d->0.attribution.text@ == credit
    &&& d->0.attribution.url@ == url
    &&& d->0.mesh_digits == mesh_digits
}

/// The name of a file says what it is: by what it begins with it is of a kind,
/// in a collection, from a provider, under a licence and with the credit that its
/// terms ask for. Names of areas and routes, and squares of 1 km, are told from
/// what they were made from by the longer beginning.
pub proof fn law_names_tell_the_dataset(stem: Seq<char>)
    ensures
        text::has_prefix(stem, "n03_names"@) ==> is_about(
            described(stem),
            DatasetKind::AdminNames,
            "ksj-admin-names"@,
            "国土交通省"@,
            "other"@,
            "行政区域の名称"@,
            "「国土数値情報（行政区域データ）」（国土交通省）をもとに作成"@,
            "https://nlftp.mlit.go.jp/ksj/"@,
            None,
        ),
        text::has_prefix(stem, "n03"@) && !text::has_prefix(stem, "n03_names"@) ==> is_about(
            described(stem),
            DatasetKind::Admin,
            "ksj-admin"@,
            "国土交通省"@,
            "other"@,
            "行政区域"@,
            "「国土数値情報（行政区域データ）」（国土交通省）をもとに作成"@,
            "https://nlftp.mlit.go.jp/ksj/"@,
            None,
        ),
        text::has_prefix(stem, "n02_stations"@) ==> is_about(
            described(stem),
            DatasetKind::RailwayStation,
            "ksj-railway-stations"@,
            "国土交通省"@,
            "other"@,
            "鉄道駅"@,
            "「国土数値情報（鉄道データ）」（国土交通省）をもとに作成"@,
            "https://nlftp.mlit.go.jp/ksj/gml/datalist/KsjTmplt-N02-2022.html"@,
            None,
        ),
        text::has_prefix(stem, "n02_sections"@) ==> is_about(
            described(stem),
            DatasetKind::Railway,
            "ksj-railway"@,
            "国土交通省"@,
            "other"@,
            "鉄道路線"@,
            "「国土数値情報（鉄道データ）」（国土交通省）をもとに作成"@,
            "https://nlftp.mlit.go.jp/ksj/gml/datalist/KsjTmplt-N02-2022.html"@,
            None,
        ),
        text::has_prefix(stem, "overture_admin_names"@) ==> is_about(
            described(stem),
            DatasetKind::AdminNames,
            "overture-admin-names"@,
            "Overture Maps Foundation"@,
            "ODbL-1.0"@,
            "行政区域の名称"@,
            "Overture Maps / © OpenStreetMap contributors (ODbL 1.0)"@,
            "https://docs.overturemaps.org/attribution/"@,
            None,
        ),
        text::has_prefix(stem, "overture_admin"@) && !text::has_prefix(stem, "overture_admin_names"@) ==> is_about(
            described(stem),
            DatasetKind::Admin,
            "overture-admin"@,
            "Overture Maps Foundation"@,
            "ODbL-1.0"@,
            "行政区域"@,
            "Overture Maps / © OpenStreetMap contributors (ODbL 1.0)"@,
            "https://docs.overturemaps.org/attribution/"@,
            None,
        ),
        text::has_prefix(stem, "overture_buildings"@) ==> is_about(
            described(stem),
            DatasetKind::Buildings,
            "overture-buildings"@,
            "Overture Maps Foundation"@,
            "ODbL-1.0"@,
            "建物"@,
            "Overture Maps / © OpenStreetMap contributors (ODbL 1.0)"@,
            "https://docs.overturemaps.org/attribution/"@,
            None,
        ),
        text::has_prefix(stem, "overture_road_routes"@) ==> is_about(
            described(stem),
            DatasetKind::RoadRoute,
            "overture-road-routes"@,
            "Overture Maps Foundation"@,
            "ODbL-1.0"@,
            "道路の路線"@,
            "Overture Maps / © OpenStreetMap contributors (ODbL 1.0)"@,
            "https://docs.overturemaps.org/attribution/"@,
            None,
        ),
        text::has_prefix(stem, "overture_roads"@) ==> is_about(
            described(stem),
            DatasetKind::Road,
            "overture-roads"@,
            "Overture Maps Foundation"@,
            "ODbL-1.0"@,
            "道路"@,
            "Overture Maps / © OpenStreetMap contributors (ODbL 1.0)"@,
            "https://docs.overturemaps.org/attribution/"@,
            None,
        ),
        text::has_prefix(stem, "plateau_bldg"@) ==> is_about(
            described(stem),
            DatasetKind::PlateauBuildings,
            "plateau-buildings"@,
            "国土交通省"@,
            "CC-BY-4.0"@,
            "建物 (PLATEAU)"@,
            "「3D都市モデル（Project PLATEAU）」（国土交通省）をもとに作成"@,
            "https://www.mlit.go.jp/plateau/"@,
            None,
        ),
        text::has_prefix(stem, "mesh_pop_1km"@) ==> is_about(
            described(stem),
            DatasetKind::PopulationMesh,
            "estat-mesh-pop-1km"@,
            "総務省統計局"@,
            "other"@,
            "人口メッシュ (1km)"@,
            "「令和2年国勢調査 地域メッシュ統計」（総務省統計局）をもとに作成"@,
            "https://www.e-stat.go.jp/gis"@,
            Some(8u8),
        ),
        text::has_prefix(stem, "mesh_pop"@) && !text::has_prefix(stem, "mesh_pop_1km"@) ==> is_about(
            described(stem),
            DatasetKind::PopulationMesh,
            "estat-mesh-pop"@,
            "総務省統計局"@,
            "other"@,
            "人口メッシュ"@,
            "「令和2年国勢調査 地域メッシュ統計」（総務省統計局）をもとに作成"@,
            "https://www.e-stat.go.jp/gis"@,
            Some(11u8),
        ),
        text::has_prefix(stem, "isj_oaza"@) ==> is_about(
            described(stem),
            DatasetKind::Oaza,
            "isj-oaza"@,
            "国土交通省"@,
            "other"@,
            "大字・町丁目"@,
            "「位置参照情報ダウンロードサービス」（国土交通省）をもとに作成"@,
            "https://nlftp.mlit.go.jp/isj/"@,
            None,
        ),
        text::has_prefix(stem, "isj_block"@) ==> is_about(
            described(stem),
            DatasetKind::Block,
            "isj-block"@,
            "国土交通省"@,
            "other"@,
            "街区"@,
            "「位置参照情報ダウンロードサービス」（国土交通省）をもとに作成"@,
            "https://nlftp.mlit.go.jp/isj/"@,
            None,
        ),
        described(stem) is Some ==> {
            ||| text::has_prefix(stem, "n03_names"@)
            ||| text::has_prefix(stem, "n03"@)
            ||| text::has_prefix(stem, "n02_stations"@)
            ||| text::has_prefix(stem, "n02_sections"@)
            ||| text::has_prefix(stem, "overture_admin_names"@)
            ||| text::has_prefix(stem, "overture_admin"@)
            ||| text::has_prefix(stem, "overture_buildings"@)
            ||| text::has_prefix(stem, "overture_road_routes"@)
            ||| text::has_prefix(stem, "overture_roads"@)
            ||| text::has_prefix(stem, "plateau_bldg"@)
            ||| text::has_prefix(stem, "mesh_pop_1km"@)
            ||| text::has_prefix(stem, "mesh_pop"@)
            ||| text::has_prefix(stem, "isj_oaza"@)
            ||| text::has_prefix(stem, "isj_block"@)
        },
{
    let table = spec_descriptions();
    assert(table.len() == 14);
    reveal_strlit("n03_names");
    reveal_strlit("n03");
    reveal_strlit("n02_stations");
    reveal_strlit("n02_sections");
    reveal_strlit("overture_admin_names");
    reveal_strlit("overture_admin");
    reveal_strlit("overture_buildings");
    reveal_strlit("overture_road_routes");
    reveal_strlit("overture_roads");
    reveal_strlit("plateau_bldg");
    reveal_strlit("mesh_pop_1km");
    reveal_strlit("mesh_pop");
    reveal_strlit("isj_oaza");
    reveal_strlit("isj_block");
    assert(table[0].0 == "n03_names"@ && "n03_names"@.len() == 9);
    assert(table[1].0 == "n03"@ && "n03"@.len() == 3);
    assert(table[2].0 == "n02_stations"@ && "n02_stations"@.len() == 12);
    assert(table[3].0 == "n02_sections"@ && "n02_sections"@.len() == 12);
    assert(table[4].0 == "overture_admin_names"@ && "overture_admin_names"@.len() == 20);
    assert(table[5].0 == "overture_admin"@ && "overture_admin"@.len() == 14);
    assert(table[6].0 == "overture_buildings"@ && "overture_buildings"@.len() == 18);
    assert(table[7].0 == "overture_road_routes"@ && "overture_road_routes"@.len() == 20);
    assert(table[8].0 == "overture_roads"@ && "overture_roads"@.len() == 14);
    assert(table[9].0 == "plateau_bldg"@ && "plateau_bldg"@.len() == 12);
    assert(table[10].0 == "mesh_pop_1km"@ && "mesh_pop_1km"@.len() == 12);
    assert(table[11].0 == "mesh_pop"@ && "mesh_pop"@.len() == 8);
    assert(table[12].0 == "isj_oaza"@ && "isj_oaza"@.len() == 8);
    assert(table[13].0 == "isj_block"@ && "isj_block"@.len() == 9);
    if text::has_prefix(stem, "n03_names"@) {
        assert forall|j: int| 0 <= j < 0 implies !text::has_prefix(stem, #[trigger] table[j].0) by {}
        lemma_first_described(table, stem, 0);
    }
    if text::has_prefix(stem, "n03"@) && !text::has_prefix(stem, "n03_names"@) {
        assert forall|j: int| 0 <= j < 1 implies !text::has_prefix(stem, #[trigger] table[j].0) by {}
        lemma_first_described(table, stem, 1);
    }
    if text::has_prefix(stem, "n02_stations"@) {
        assert("n02_stations"@[2] == '2' && "n03_names"@[2] == '3');
        lemma_other_prefix(stem, "n02_stations"@, "n03_names"@, 2);
        assert("n02_stations"@[2] == '2' && "n03"@[2] == '3');
        lemma_other_prefix(stem, "n02_stations"@, "n03"@, 2);
        assert forall|j: int| 0 <= j < 2 implies !text::has_prefix(stem, #[trigger] table[j].0) by {}
        lemma_first_described(table, stem, 2);
    }
    if text::has_prefix(stem, "n02_sections"@) {
        assert("n02_sections"@[2] == '2' && "n03_names"@[2] == '3');
        lemma_other_prefix(stem, "n02_sections"@, "n03_names"@, 2);
        assert("n02_sections"@[2] == '2' && "n03"@[2] == '3');
        lemma_other_prefix(stem, "n02_sections"@, "n03"@, 2);
        assert("n02_sections"@[5] == 'e' && "n02_stations"@[5] == 't');
        lemma_other_prefix(stem, "n02_sections"@, "n02_stations"@, 5);
        assert forall|j: int| 0 <= j < 3 implies !text::has_prefix(stem, #[trigger] table[j].0) by {}
        lemma_first_described(table, stem, 3);
    }
    if text::has_prefix(stem, "overture_admin_names"@) {
        assert("overture_admin_names"@[0] == 'o' && "n03_names"@[0] == 'n');
        lemma_other_prefix(stem, "overture_admin_names"@, "n03_names"@, 0);
        assert("overture_admin_names"@[0] == 'o' && "n03"@[0] == 'n');
        lemma_other_prefix(stem, "overture_admin_names"@, "n03"@, 0);
        assert("overture_admin_names"@[0] == 'o' && "n02_stations"@[0] == 'n');
        lemma_other_prefix(stem, "overture_admin_names"@, "n02_stations"@, 0);
        assert("overture_admin_names"@[0] == 'o' && "n02_sections"@[0] == 'n');
        lemma_other_prefix(stem, "overture_admin_names"@, "n02_sections"@, 0);
        assert forall|j: int| 0 <= j < 4 implies !text::has_prefix(stem, #[trigger] table[j].0) by {}
        lemma_first_described(table, stem, 4);
    }
    if text::has_prefix(stem, "overture_admin"@) && !text::has_prefix(stem, "overture_admin_names"@) {
        assert("overture_admin"@[0] == 'o' && "n03_names"@[0] == 'n');
        lemma_other_prefix(stem, "overture_admin"@, "n03_names"@, 0);
        assert("overture_admin"@[0] == 'o' && "n03"@[0] == 'n');
        lemma_other_prefix(stem, "overture_admin"@, "n03"@, 0);
        assert("overture_admin"@[0] == 'o' && "n02_stations"@[0] == 'n');
        lemma_other_prefix(stem, "overture_admin"@, "n02_stations"@, 0);
        assert("overture_admin"@[0] == 'o' && "n02_sections"@[0] == 'n');
        lemma_other_prefix(stem, "overture_admin"@, "n02_sections"@, 0);
        assert forall|j: int| 0 <= j < 5 implies !text::has_prefix(stem, #[trigger] table[j].0) by {}
        lemma_first_described(table, stem, 5);
    }
    if text::has_prefix(stem, "overture_buildings"@) {
        assert("overture_buildings"@[0] == 'o' && "n03_names"@[0] == 'n');
        lemma_other_prefix(stem, "overture_buildings"@, "n03_names"@, 0);
        assert("overture_buildings"@[0] == 'o' && "n03"@[0] == 'n');
        lemma_other_prefix(stem, "overture_buildings"@, "n03"@, 0);
        assert("overture_buildings"@[0] == 'o' && "n02_stations"@[0] == 'n');
        lemma_other_prefix(stem, "overture_buildings"@, "n02_stations"@, 0);
        assert("overture_buildings"@[0] == 'o' && "n02_sections"@[0] == 'n');
        lemma_other_prefix(stem, "overture_buildings"@, "n02_sections"@, 0);
        assert("overture_buildings"@[9] == 'b' && "overture_admin_names"@[9] == 'a');
        lemma_other_prefix(stem, "overture_buildings"@, "overture_admin_names"@, 9);
        assert("overture_buildings"@[9] == 'b' && "overture_admin"@[9] == 'a');
        lemma_other_prefix(stem, "overture_buildings"@, "overture_admin"@, 9);
        assert forall|j: int| 0 <= j < 6 implies !text::has_prefix(stem, #[trigger] table[j].0) by {}
        lemma_first_described(table, stem, 6);
    }
    if text::has_prefix(stem, "overture_road_routes"@) {
        assert("overture_road_routes"@[0] == 'o' && "n03_names"@[0] == 'n');
        lemma_other_prefix(stem, "overture_road_routes"@, "n03_names"@, 0);
        assert("overture_road_routes"@[0] == 'o' && "n03"@[0] == 'n');
        lemma_other_prefix(stem, "overture_road_routes"@, "n03"@, 0);
        assert("overture_road_routes"@[0] == 'o' && "n02_stations"@[0] == 'n');
        lemma_other_prefix(stem, "overture_road_routes"@, "n02_stations"@, 0);
        assert("overture_road_routes"@[0] == 'o' && "n02_sections"@[0] == 'n');
        lemma_other_prefix(stem, "overture_road_routes"@, "n02_sections"@, 0);
        assert("overture_road_routes"@[9] == 'r' && "overture_admin_names"@[9] == 'a');
        lemma_other_prefix(stem, "overture_road_routes"@, "overture_admin_names"@, 9);
        assert("overture_road_routes"@[9] == 'r' && "overture_admin"@[9] == 'a');
        lemma_other_prefix(stem, "overture_road_routes"@, "overture_admin"@, 9);
        assert("overture_road_routes"@[9] == 'r' && "overture_buildings"@[9] == 'b');
        lemma_other_prefix(stem, "overture_road_routes"@, "overture_buildings"@, 9);
        assert forall|j: int| 0 <= j < 7 implies !text::has_prefix(stem, #[trigger] table[j].0) by {}
        lemma_first_described(table, stem, 7);
    }
    if text::has_prefix(stem, "overture_roads"@) {
        assert("overture_roads"@[0] == 'o' && "n03_names"@[0] == 'n');
        lemma_other_prefix(stem, "overture_roads"@, "n03_names"@, 0);
        assert("overture_roads"@[0] == 'o' && "n03"@[0] == 'n');
        lemma_other_prefix(stem, "overture_roads"@, "n03"@, 0);
        assert("overture_roads"@[0] == 'o' && "n02_stations"@[0] == 'n');
        lemma_other_prefix(stem, "overture_roads"@, "n02_stations"@, 0);
        assert("overture_roads"@[0] == 'o' && "n02_sections"@[0] == 'n');
        lemma_other_prefix(stem, "overture_roads"@, "n02_sections"@, 0);
        assert("overture_roads"@[9] == 'r' && "overture_admin_names"@[9] == 'a');
        lemma_other_prefix(stem, "overture_roads"@, "overture_admin_names"@, 9);
        assert("overture_roads"@[9] == 'r' && "overture_admin"@[9] == 'a');
        lemma_other_prefix(stem, "overture_roads"@, "overture_admin"@, 9);
        assert("overture_roads"@[9] == 'r' && "overture_buildings"@[9] == 'b');
        lemma_other_prefix(stem, "overture_roads"@, "overture_buildings"@, 9);
        assert("overture_roads"@[13] == 's' && "overture_road_routes"@[13] == '_');
        lemma_other_prefix(stem, "overture_roads"@, "overture_road_routes"@, 13);
        assert forall|j: int| 0 <= j < 8 implies !text::has_prefix(stem, #[trigger] table[j].0) by {}
        lemma_first_described(table, stem, 8);
    }
    if text::has_prefix(stem, "plateau_bldg"@) {
        assert("plateau_bldg"@[0] == 'p' && "n03_names"@[0] == 'n');
        lemma_other_prefix(stem, "plateau_bldg"@, "n03_names"@, 0);
        assert("plateau_bldg"@[0] == 'p' && "n03"@[0] == 'n');
        lemma_other_prefix(stem, "plateau_bldg"@, "n03"@, 0);
        assert("plateau_bldg"@[0] == 'p' && "n02_stations"@[0] == 'n');
        lemma_other_prefix(stem, "plateau_bldg"@, "n02_stations"@, 0);
        assert("plateau_bldg"@[0] == 'p' && "n02_sections"@[0] == 'n');
        lemma_other_prefix(stem, "plateau_bldg"@, "n02_sections"@, 0);
        assert("plateau_bldg"@[0] == 'p' && "overture_admin_names"@[0] == 'o');
        lemma_other_prefix(stem, "plateau_bldg"@, "overture_admin_names"@, 0);
        assert("plateau_bldg"@[0] == 'p' && "overture_admin"@[0] == 'o');
        lemma_other_prefix(stem, "plateau_bldg"@, "overture_admin"@, 0);
        assert("plateau_bldg"@[0] == 'p' && "overture_buildings"@[0] == 'o');
        lemma_other_prefix(stem, "plateau_bldg"@, "overture_buildings"@, 0);
        assert("plateau_bldg"@[0] == 'p' && "overture_road_routes"@[0] == 'o');
        lemma_other_prefix(stem, "plateau_bldg"@, "overture_road_routes"@, 0);
        assert("plateau_bldg"@[0] == 'p' && "overture_roads"@[0] == 'o');
        lemma_other_prefix(stem, "plateau_bldg"@, "overture_roads"@, 0);
        assert forall|j: int| 0 <= j < 9 implies !text::has_prefix(stem, #[trigger] table[j].0) by {}
        lemma_first_described(table, stem, 9);
    }
    if text::has_prefix(stem, "mesh_pop_1km"@) {
        assert("mesh_pop_1km"@[0] == 'm' && "n03_names"@[0] == 'n');
        lemma_other_prefix(stem, "mesh_pop_1km"@, "n03_names"@, 0);
        assert("mesh_pop_1km"@[0] == 'm' && "n03"@[0] == 'n');
        lemma_other_prefix(stem, "mesh_pop_1km"@, "n03"@, 0);
        assert("mesh_pop_1km"@[0] == 'm' && "n02_stations"@[0] == 'n');
        lemma_other_prefix(stem, "mesh_pop_1km"@, "n02_stations"@, 0);
        assert("mesh_pop_1km"@[0] == 'm' && "n02_sections"@[0] == 'n');
        lemma_other_prefix(stem, "mesh_pop_1km"@, "n02_sections"@, 0);
        assert("mesh_pop_1km"@[0] == 'm' && "overture_admin_names"@[0] == 'o');
        lemma_other_prefix(stem, "mesh_pop_1km"@, "overture_admin_names"@, 0);
        assert("mesh_pop_1km"@[0] == 'm' && "overture_admin"@[0] == 'o');
        lemma_other_prefix(stem, "mesh_pop_1km"@, "overture_admin"@, 0);
        assert("mesh_pop_1km"@[0] == 'm' && "overture_buildings"@[0] == 'o');
        lemma_other_prefix(stem, "mesh_pop_1km"@, "overture_buildings"@, 0);
        assert("mesh_pop_1km"@[0] == 'm' && "overture_road_routes"@[0] == 'o');
        lemma_other_prefix(stem, "mesh_pop_1km"@, "overture_road_routes"@, 0);
        assert("mesh_pop_1km"@[0] == 'm' && "overture_roads"@[0] == 'o');
        lemma_other_prefix(stem, "mesh_pop_1km"@, "overture_roads"@, 0);
        assert("mesh_pop_1km"@[0] == 'm' && "plateau_bldg"@[0] == 'p');
        lemma_other_prefix(stem, "mesh_pop_1km"@, "plateau_bldg"@, 0);
        assert forall|j: int| 0 <= j < 10 implies !text::has_prefix(stem, #[trigger] table[j].0) by {}
        lemma_first_described(table, stem, 10);
    }
    if text::has_prefix(stem, "mesh_pop"@) && !text::has_prefix(stem, "mesh_pop_1km"@) {
        assert("mesh_pop"@[0] == 'm' && "n03_names"@[0] == 'n');
        lemma_other_prefix(stem, "mesh_pop"@, "n03_names"@, 0);
        assert("mesh_pop"@[0] == 'm' && "n03"@[0] == 'n');
        lemma_other_prefix(stem, "mesh_pop"@, "n03"@, 0);
        assert("mesh_pop"@[0] == 'm' && "n02_stations"@[0] == 'n');
        lemma_other_prefix(stem, "mesh_pop"@, "n02_stations"@, 0);
        assert("mesh_pop"@[0] == 'm' && "n02_sections"@[0] == 'n');
        lemma_other_prefix(stem, "mesh_pop"@, "n02_sections"@, 0);
        assert("mesh_pop"@[0] == 'm' && "overture_admin_names"@[0] == 'o');
        lemma_other_prefix(stem, "mesh_pop"@, "overture_admin_names"@, 0);
        assert("mesh_pop"@[0] == 'm' && "overture_admin"@[0] == 'o');
        lemma_other_prefix(stem, "mesh_pop"@, "overture_admin"@, 0);
        assert("mesh_pop"@[0] == 'm' && "overture_buildings"@[0] == 'o');
        lemma_other_prefix(stem, "mesh_pop"@, "overture_buildings"@, 0);
        assert("mesh_pop"@[0] == 'm' && "overture_road_routes"@[0] == 'o');
        lemma_other_prefix(stem, "mesh_pop"@, "overture_road_routes"@, 0);
        assert("mesh_pop"@[0] == 'm' && "overture_roads"@[0] == 'o');
        lemma_other_prefix(stem, "mesh_pop"@, "overture_roads"@, 0);
        assert("mesh_pop"@[0] == 'm' && "plateau_bldg"@[0] == 'p');
        lemma_other_prefix(stem, "mesh_pop"@, "plateau_bldg"@, 0);
        assert forall|j: int| 0 <= j < 11 implies !text::has_prefix(stem, #[trigger] table[j].0) by {}
        lemma_first_described(table, stem, 11);
    }
    if text::has_prefix(stem, "isj_oaza"@) {
        assert("isj_oaza"@[0] == 'i' && "n03_names"@[0] == 'n');
        lemma_other_prefix(stem, "isj_oaza"@, "n03_names"@, 0);
        assert("isj_oaza"@[0] == 'i' && "n03"@[0] == 'n');
        lemma_other_prefix(stem, "isj_oaza"@, "n03"@, 0);
        assert("isj_oaza"@[0] == 'i' && "n02_stations"@[0] == 'n');
        lemma_other_prefix(stem, "isj_oaza"@, "n02_stations"@, 0);
        assert("isj_oaza"@[0] == 'i' && "n02_sections"@[0] == 'n');
        lemma_other_prefix(stem, "isj_oaza"@, "n02_sections"@, 0);
        assert("isj_oaza"@[0] == 'i' && "overture_admin_names"@[0] == 'o');
        lemma_other_prefix(stem, "isj_oaza"@, "overture_admin_names"@, 0);
        assert("isj_oaza"@[0] == 'i' && "overture_admin"@[0] == 'o');
        lemma_other_prefix(stem, "isj_oaza"@, "overture_admin"@, 0);
        assert("isj_oaza"@[0] == 'i' && "overture_buildings"@[0] == 'o');
        lemma_other_prefix(stem, "isj_oaza"@, "overture_buildings"@, 0);
        assert("isj_oaza"@[0] == 'i' && "overture_road_routes"@[0] == 'o');
        lemma_other_prefix(stem, "isj_oaza"@, "overture_road_routes"@, 0);
        assert("isj_oaza"@[0] == 'i' && "overture_roads"@[0] == 'o');
        lemma_other_prefix(stem, "isj_oaza"@, "overture_roads"@, 0);
        assert("isj_oaza"@[0] == 'i' && "plateau_bldg"@[0] == 'p');
        lemma_other_prefix(stem, "isj_oaza"@, "plateau_bldg"@, 0);
        assert("isj_oaza"@[0] == 'i' && "mesh_pop_1km"@[0] == 'm');
        lemma_other_prefix(stem, "isj_oaza"@, "mesh_pop_1km"@, 0);
        assert("isj_oaza"@[0] == 'i' && "mesh_pop"@[0] == 'm');
        lemma_other_prefix(stem, "isj_oaza"@, "mesh_pop"@, 0);
        assert forall|j: int| 0 <= j < 12 implies !text::has_prefix(stem, #[trigger] table[j].0) by {}
        lemma_first_described(table, stem, 12);
    }
    if text::has_prefix(stem, "isj_block"@) {
        assert("isj_block"@[0] == 'i' && "n03_names"@[0] == 'n');
        lemma_other_prefix(stem, "isj_block"@, "n03_names"@, 0);
        assert("isj_block"@[0] == 'i' && "n03"@[0] == 'n');
        lemma_other_prefix(stem, "isj_block"@, "n03"@, 0);
        assert("isj_block"@[0] == 'i' && "n02_stations"@[0] == 'n');
        lemma_other_prefix(stem, "isj_block"@, "n02_stations"@, 0);
        assert("isj_block"@[0] == 'i' && "n02_sections"@[0] == 'n');
        lemma_other_prefix(stem, "isj_block"@, "n02_sections"@, 0);
        assert("isj_block"@[0] == 'i' && "overture_admin_names"@[0] == 'o');
        lemma_other_prefix(stem, "isj_block"@, "overture_admin_names"@, 0);
        assert("isj_block"@[0] == 'i' && "overture_admin"@[0] == 'o');
        lemma_other_prefix(stem, "isj_block"@, "overture_admin"@, 0);
        assert("isj_block"@[0] == 'i' && "overture_buildings"@[0] == 'o');
        lemma_other_prefix(stem, "isj_block"@, "overture_buildings"@, 0);
        assert("isj_block"@[0] == 'i' && "overture_road_routes"@[0] == 'o');
        lemma_other_prefix(stem, "isj_block"@, "overture_road_routes"@, 0);
        assert("isj_block"@[0] == 'i' && "overture_roads"@[0] == 'o');
        lemma_other_prefix(stem, "isj_block"@, "overture_roads"@, 0);
        assert("isj_block"@[0] == 'i' && "plateau_bldg"@[0] == 'p');
        lemma_other_prefix(stem, "isj_block"@, "plateau_bldg"@, 0);
        assert("isj_block"@[0] == 'i' && "mesh_pop_1km"@[0] == 'm');
        lemma_other_prefix(stem, "isj_block"@, "mesh_pop_1km"@, 0);
        assert("isj_block"@[0] == 'i' && "mesh_pop"@[0] == 'm');
        lemma_other_prefix(stem, "isj_block"@, "mesh_pop"@, 0);
        assert("isj_block"@[4] == 'b' && "isj_oaza"@[4] == 'o');
        lemma_other_prefix(stem, "isj_block"@, "isj_oaza"@, 4);
        assert forall|j: int| 0 <= j < 13 implies !text::has_prefix(stem, #[trigger] table[j].0) by {}
        lemma_first_described(table, stem, 13);
    }
    lemma_described_by(table, stem);
}

proof fn lemma_described_by(table: Seq<(Seq<char>, Description)>, stem: Seq<char>)
    ensures
        first_described(table, stem) is Some ==> exists|k: int|
            0 <= k < table.len() && text::has_prefix(stem, (#[trigger] table[k]).0),
    decreases table.len(),
{
    if table.len() > 0 && !text::has_prefix(stem, table[0].0) {
        let rest = table.drop_first();
        lemma_described_by(rest, stem);
        if first_described(rest, stem) is Some {
            let k = choose|k: int|
                0 <= k < rest.len() && text::has_prefix(stem, (#[trigger] rest[k]).0);
            assert(table[k + 1] == rest[k]);
        }
    }
}

/// A kind is called what readers of a catalog know it by, and files without
/// geometry are those of names alone.
pub proof fn law_kinds_have_their_names(kind: DatasetKind)
    ensures
        kind is Admin ==> kind.spec_name() == "admin"@,
        kind is AdminNames ==> kind.spec_name() == "admin_names"@,
        kind is Oaza ==> kind.spec_name() == "oaza"@,
        kind is Block ==> kind.spec_name() == "block"@,
        kind is Buildings ==> kind.spec_name() == "buildings"@,
        kind is PopulationMesh ==> kind.spec_name() == "population_mesh"@,
        kind is PlateauBuildings ==> kind.spec_name() == "plateau_buildings"@,
        kind is Railway ==> kind.spec_name() == "railway"@,
        kind is RailwayStation ==> kind.spec_name() == "railway_station"@,
        kind is Road ==> kind.spec_name() == "road"@,
        kind is RoadRoute ==> kind.spec_name() == "road_route"@,
        kind.spec_names_only() <==> kind is AdminNames || kind is RoadRoute,
        kind is Buildings || kind is Road ==> kind.spec_summary_columns() == seq!["class"@],
        kind is PlateauBuildings ==> kind.spec_summary_columns() == seq!["usage"@],
        kind is Railway || kind is RailwayStation ==> kind.spec_summary_columns() == seq![
            "railway_class"@,
            "institution_type"@,
        ],
{
}

} // verus!
