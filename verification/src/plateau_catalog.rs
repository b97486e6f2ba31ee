//! The catalog of the PLATEAU data: from a city's code to the address of its
//! CityGML archive.
use crate::text;
use crate::text::{contains_text, same_text};
use vstd::prelude::*;

verus! {

/// Where the catalog is served.
pub const CATALOG_URL: &'static str =
    "https://api.plateauview.mlit.go.jp/datacatalog/plateau-datasets";

/// One city of the catalog.
#[derive(Debug, Clone)]
pub struct City {
    /// The code of the municipality, five digits.
    pub city_code: String,
    pub city: String,
    pub pref: String,
    /// The CityGML archive. The address redirects to the file itself.
    pub url: String,
    /// The size of the whole archive. The buildings are only a part of it.
    pub file_size: u64,
    /// The kinds of features in it (`bldg`, `dem`, `fld`).
    pub feature_types: Vec<String>,
}

#[verifier::ext_equal]
pub struct CityView {
    pub city_code: Seq<char>,
    pub city: Seq<char>,
    pub pref: Seq<char>,
    pub url: Seq<char>,
    pub file_size: u64,
    pub feature_types: Seq<Seq<char>>,
}

impl View for City {
    type V = CityView;

    open spec fn view(&self) -> CityView {
        CityView {
            city_code: self.city_code@,
            city: self.city@,
            pref: self.pref@,
            url: self.url@,
            file_size: self.file_size,
            feature_types: text::texts(self.feature_types@),
        }
    }
}

impl CityView {
    pub open spec fn buildings(self) -> bool {
        self.feature_types.contains("bldg"@)
    }
}

impl City {
    /// Whether the archive holds buildings.
    pub fn has_buildings(&self) -> (b: bool)
        ensures
            b == self@.buildings(),
    {
        contains_text(&self.feature_types, "bldg")
    }
}

/// What the cities of a list hold.
pub open spec fn city_views(cities: Seq<City>) -> Seq<CityView> {
    Seq::new(cities.len(), |i: int| cities[i]@)
}

// ---------------------------------------------------------------------------
// Reading
// ---------------------------------------------------------------------------

/// What the service answers, as far as it is of use here.
#[derive(Debug)]
pub struct Catalog {
    /// Nothing where the answer does not have it.
    pub latest_citygml: Vec<City>,
}

/// A catalog that lists no city, as it does where the form of the service has
/// changed.
#[derive(Debug, Clone, Copy, PartialEq, Eq, Structural)]
pub struct NoCities;

impl NoCities {
    pub fn to_string(&self) -> (text: String)
        ensures
            text@ == "カタログに latest_citygml がありません (APIの形が変わった可能性)"@,
    {
        "カタログに latest_citygml がありません (APIの形が変わった可能性)".to_string()
    }
}

/// The cities of a catalog. Fetching it and reading its JSON is another matter.
pub fn parse_catalog(catalog: Catalog) -> (r: Result<Vec<City>, NoCities>)
    ensures
        match r {
            Ok(cities) => cities@.len() > 0 && cities == catalog.latest_citygml,
            Err(_) => catalog.latest_citygml@.len() == 0,
        },
{
    if catalog.latest_citygml.len() == 0 {
        Err(NoCities)
    } else {
        Ok(catalog.latest_citygml)
    }
}

// ---------------------------------------------------------------------------
// Finding
// ---------------------------------------------------------------------------

/// A code that the catalog does not list.
#[derive(Debug, PartialEq)]
pub struct UnknownCity {
    pub city_code: String,
}

impl UnknownCity {
    pub open spec fn spec_text(city_code: Seq<char>) -> Seq<char> {
        "都市コード "@ + city_code
            + " がカタログにありません (5桁の全国地方公共団体コード)"@
    }

    pub fn to_string(&self) -> (text: String)
        ensures
            text@ == UnknownCity::spec_text(self.city_code@),
    {
        let mut text = "都市コード ".to_string();
        text.append(self.city_code.as_str());
        text.append(" がカタログにありません (5桁の全国地方公共団体コード)");
        text
    }
}

/// The place of the first city with that code from `from` on, or -1.
pub open spec fn place_of(cities: Seq<CityView>, city_code: Seq<char>, from: int) -> int
    decreases cities.len() - from,
{
    if from >= cities.len() || from < 0 {
        -1
    } else if cities[from].city_code == city_code {
        from
    } else {
        place_of(cities, city_code, from + 1)
    }
}

pub proof fn lemma_place_of(cities: Seq<CityView>, city_code: Seq<char>, from: int)
    requires
        0 <= from,
    ensures
        ({
            let at = place_of(cities, city_code, from);
            &&& at == -1 ==> forall|i: int|
                from <= i < cities.len() ==> (#[trigger] cities[i]).city_code != city_code
            &&& at != -1 ==> from <= at < cities.len() && cities[at].city_code == city_code
        }),
    decreases cities.len() - from,
{
    if from < cities.len() && cities[from].city_code != city_code {
        lemma_place_of(cities, city_code, from + 1);
    }
}

/// The first city with that code.
pub fn find_city<'a>(cities: &'a [City], city_code: &str) -> (r: Result<&'a City, UnknownCity>)
    ensures
        ({
            let at = place_of(city_views(cities@), city_code@, 0);
            match r {
                Ok(city) => 0 <= at < cities@.len() && *city == cities@[at] && city@.city_code
                    == city_code@,
                Err(e) => at == -1 && e.city_code@ == city_code@,
            }
        }),
{
    let ghost views = city_views(cities@);
    let mut i: usize = 0;
    while i < cities.len()
        invariant
            i <= cities@.len(),
            views == city_views(cities@),
            place_of(views, city_code@, 0) == place_of(views, city_code@, i as int),
        decreases cities@.len() - i,
    {
        assert(views[i as int] == cities@[i as int]@);
        if same_text(cities[i].city_code.as_str(), city_code) {
            return Ok(&cities[i]);
        }
        i = i + 1;
    }
    Err(UnknownCity { city_code: city_code.to_string() })
}

/// A city that was found is the first of the catalog with that code; where
/// none is found, the catalog has none.
pub proof fn law_codes_lead_to_their_city(cities: Seq<CityView>, city_code: Seq<char>)
    ensures
        place_of(cities, city_code, 0) == -1 <==> !exists|i: int|
            0 <= i < cities.len() && (#[trigger] cities[i]).city_code == city_code,
        place_of(cities, city_code, 0) != -1 ==> cities[place_of(cities, city_code, 0)].city_code
            == city_code && forall|j: int|
            0 <= j < place_of(cities, city_code, 0) ==> (#[trigger] cities[j]).city_code
                != city_code,
{
    lemma_place_of(cities, city_code, 0);
    lemma_none_before(cities, city_code, 0);
}

proof fn lemma_none_before(cities: Seq<CityView>, city_code: Seq<char>, from: int)
    requires
        0 <= from,
    ensures
        forall|j: int|
            from <= j < place_of(cities, city_code, from) ==> (#[trigger] cities[j]).city_code
                != city_code,
    decreases cities.len() - from,
{
    if from < cities.len() && cities[from].city_code != city_code {
        lemma_none_before(cities, city_code, from + 1);
    }
}

} // verus!
