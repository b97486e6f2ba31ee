//! Which cities to work on, and what became of them.
use crate::plateau_catalog;
use crate::plateau_catalog::{find_city, City, CityView, UnknownCity};
use crate::text;
use crate::text::{join, push_decimal, same_text, split};
use vstd::prelude::*;

verus! {

/// The places of the cities with buildings among the first `n`, in order.
pub open spec fn building_places(cities: Seq<CityView>, n: nat) -> Seq<int>
    decreases n,
{
    if n == 0 {
        Seq::empty()
    } else if cities[n - 1].buildings() {
        building_places(cities, (n - 1) as nat).push(n - 1)
    } else {
        building_places(cities, (n - 1) as nat)
    }
}

/// The cities with buildings.
pub open spec fn with_buildings(cities: Seq<CityView>) -> Seq<int> {
    building_places(cities, cities.len())
}

/// `city` is the one of `all` at that place.
pub open spec fn is_at(city: City, all: Seq<City>, place: int) -> bool {
    0 <= place < all.len() && city == all[place]
}

/// `list` holds the cities of `all` at those places.
pub open spec fn are_at(list: Seq<&City>, all: Seq<City>, places: Seq<int>) -> bool {
    &&& list.len() == places.len()
    &&& forall|k: int| #![trigger list[k]] 0 <= k < list.len() ==> is_at(*list[k], all, places[k])
}

pub proof fn lemma_building_places(cities: Seq<CityView>, n: nat)
    requires
        n <= cities.len(),
    ensures
        building_places(cities, n).len() <= n,
        forall|k: int|
            0 <= k < building_places(cities, n).len() ==> 0 <= #[trigger] building_places(
                cities,
                n,
            )[k] < n && cities[building_places(cities, n)[k]].buildings(),
    decreases n,
{
    if n > 0 {
        lemma_building_places(cities, (n - 1) as nat);
    }
}

fn building_cities<'a>(all: &'a [City]) -> (list: Vec<&'a City>)
    ensures
        are_at(list@, all@, with_buildings(plateau_catalog::city_views(all@))),
{
    let ghost views = plateau_catalog::city_views(all@);
    let mut list: Vec<&'a City> = Vec::new();
    let mut i: usize = 0;
    while i < all.len()
        invariant
            i <= all@.len(),
            views == plateau_catalog::city_views(all@),
            are_at(list@, all@, building_places(views, i as nat)),
        decreases all@.len() - i,
    {
        assert(views[i as int] == all@[i as int]@);
        let ghost before = list@;
        if all[i].has_buildings() {
            list.push(&all[i]);
        }
        i = i + 1;
        assert(are_at(list@, all@, building_places(views, i as nat))) by {
            assert forall|k: int| #![trigger list@[k]] 0 <= k < list@.len() implies is_at(
                *list@[k],
                all@,
                building_places(views, i as nat)[k],
            ) by {
                if k < before.len() {
                    assert(is_at(*before[k], all@, building_places(views, (i - 1) as nat)[k]));
                }
            }
        }
    }
    list
}

/// The places of the first cities with those codes; the first code that has
/// none is the error.
pub open spec fn places_of_codes(cities: Seq<CityView>, codes: Seq<Seq<char>>) -> Result<
    Seq<int>,
    Seq<char>,
>
    decreases codes.len(),
{
    if codes.len() == 0 {
        Ok(Seq::empty())
    } else {
        match places_of_codes(cities, codes.drop_last()) {
            Err(e) => Err(e),
            Ok(places) => {
                let at = plateau_catalog::place_of(cities, codes.last(), 0);
                if at == -1 {
                    Err(codes.last())
                } else {
                    Ok(places.push(at))
                }
            },
        }
    }
}

proof fn lemma_error_stays(cities: Seq<CityView>, codes: Seq<Seq<char>>, n: int)
    requires
        0 <= n <= codes.len(),
        places_of_codes(cities, codes.take(n)) is Err,
    ensures
        places_of_codes(cities, codes) == places_of_codes(cities, codes.take(n)),
    decreases codes.len(),
{
    if n < codes.len() {
        assert(codes.drop_last().take(n) == codes.take(n));
        lemma_error_stays(cities, codes.drop_last(), n);
    } else {
        assert(codes.take(n) == codes);
    }
}

fn coded_cities<'a>(all: &'a [City], codes: &Vec<String>) -> (r: Result<Vec<&'a City>, UnknownCity>)
    ensures
        ({
            let places = places_of_codes(
                plateau_catalog::city_views(all@),
                text::texts(codes@),
            );
            match r {
                Ok(list) => places is Ok && are_at(list@, all@, places->Ok_0),
                Err(e) => places == Err::<Seq<int>, _>(e.city_code@),
            }
        }),
{
    let ghost views = plateau_catalog::city_views(all@);
    let ghost wanted = text::texts(codes@);
    let mut list: Vec<&'a City> = Vec::new();
    let mut i: usize = 0;
    assert(wanted.take(0) == Seq::<Seq<char>>::empty());
    while i < codes.len()
        invariant
            i <= codes@.len(),
            views == plateau_catalog::city_views(all@),
            wanted == text::texts(codes@),
            places_of_codes(views, wanted.take(i as int)) is Ok,
            are_at(list@, all@, places_of_codes(views, wanted.take(i as int))->Ok_0),
        decreases codes@.len() - i,
    {
        let ghost head = wanted.take(i as int);
        let ghost longer = wanted.take(i + 1);
        proof {
            assert(longer.drop_last() == head);
            assert(longer.last() == codes@[i as int]@);
        }
        let ghost before = list@;
        match find_city(all, codes[i].as_str()) {
            Ok(city) => {
                list.push(city);
                assert(are_at(list@, all@, places_of_codes(views, longer)->Ok_0)) by {
                    let places = places_of_codes(views, longer)->Ok_0;
                    assert forall|k: int| #![trigger list@[k]] 0 <= k < list@.len() implies is_at(
                        *list@[k],
                        all@,
                        places[k],
                    ) by {
                        if k < before.len() {
                            assert(is_at(*before[k], all@, places_of_codes(views, head)->Ok_0[k]));
                        }
                    }
                }
            },
            Err(e) => {
                proof {
                    lemma_error_stays(views, wanted, i + 1);
                }
                return Err(e);
            },
        }
        i = i + 1;
    }
    assert(wanted.take(i as int) == wanted);
    Ok(list)
}

/// The cities that a list names: all with buildings for `all`, else those with
/// the codes between its commas.
pub open spec fn targets_of(list: Seq<char>, cities: Seq<CityView>) -> Result<
    Seq<int>,
    Seq<char>,
> {
    if list == "all"@ {
        Ok(with_buildings(cities))
    } else {
        places_of_codes(cities, text::pieces(list, ','))
    }
}

pub fn targets<'a>(list: &str, all: &'a [City]) -> (r: Result<Vec<&'a City>, UnknownCity>)
    ensures
        ({
            let places = targets_of(list@, plateau_catalog::city_views(all@));
            match r {
                Ok(cities) => places is Ok && are_at(cities@, all@, places->Ok_0),
                Err(e) => places == Err::<Seq<int>, _>(e.city_code@),
            }
        }),
{
    if same_text(list, "all") {
        Ok(building_cities(all))
    } else {
        let codes = split(list, ',');
        coded_cities(all, &codes)
    }
}

// ---------------------------------------------------------------------------
// Converting many
// ---------------------------------------------------------------------------

/// The name of the file that a city's buildings go to.
pub fn output_name(city: &City) -> (name: String)
    ensures
        name@ == "plateau_bldg_"@ + city.city_code@ + ".parquet"@,
{
    let mut name = "plateau_bldg_".to_string();
    name.append(city.city_code.as_str());
    name.append(".parquet");
    name
}

/// A city without buildings.
#[derive(Debug, PartialEq)]
pub struct NoBuildings {
    pub message: String,
}

/// Refuses a city without buildings before anything of it is fetched.
pub fn check_buildings(city: &City) -> (r: Result<(), NoBuildings>)
    ensures
        match r {
            Ok(_) => city@.buildings(),
            Err(e) => !city@.buildings() && e.message@ == city.pref@ + " "@ + city.city@
                + " は建物を収録していません (収録: "@ + text::joined(
                city@.feature_types,
                ", "@,
            ) + ")"@,
        },
{
    if city.has_buildings() {
        return Ok(());
    }
    let mut message = city.pref.clone();
    message.append(" ");
    message.append(city.city.as_str());
    message.append(" は建物を収録していません (収録: ");
    let kinds = join(&city.feature_types, ", ");
    message.append(kinds.as_str());
    message.append(")");
    Err(NoBuildings { message })
}

/// What became of a city.
#[derive(Debug, Clone, Copy, PartialEq, Eq, Structural)]
pub enum Outcome {
    Converted,
    /// Its file was there already.
    Skipped,
    Failed,
}

/// How often `what` stands among the outcomes.
pub open spec fn times(outcomes: Seq<Outcome>, what: Outcome) -> nat
    decreases outcomes.len(),
{
    if outcomes.len() == 0 {
        0
    } else if outcomes.last() == what {
        times(outcomes.drop_last(), what) + 1
    } else {
        times(outcomes.drop_last(), what)
    }
}

/// The cities that failed, each by its code and name.
pub open spec fn failed_cities(cities: Seq<CityView>, outcomes: Seq<Outcome>) -> Seq<Seq<char>>
    decreases outcomes.len(),
{
    if outcomes.len() == 0 {
        Seq::empty()
    } else {
        let before = failed_cities(cities, outcomes.drop_last());
        let city = cities[outcomes.len() - 1];
        if outcomes.last() == Outcome::Failed {
            before.push(city.city_code + " "@ + city.city)
        } else {
            before
        }
    }
}

/// The lines that report on the work: how many cities were converted, skipped
/// and lost, and, where some were lost, which.
pub open spec fn report_of(cities: Seq<CityView>, outcomes: Seq<Outcome>) -> Seq<Seq<char>> {
    let first = "変換 "@ + text::decimal_text(times(outcomes, Outcome::Converted))
        + " / 既存を飛ばした "@ + text::decimal_text(times(outcomes, Outcome::Skipped))
        + " / 失敗 "@ + text::decimal_text(times(outcomes, Outcome::Failed));
    if times(outcomes, Outcome::Failed) == 0 {
        seq![first]
    } else {
        seq![first, "失敗した都市: "@ + text::joined(failed_cities(cities, outcomes), ", "@)]
    }
}

/// What the cities of a list of references hold.
pub open spec fn views(cities: Seq<&City>) -> Seq<CityView> {
    Seq::new(cities.len(), |i: int| cities[i]@)
}

fn count(outcomes: &Vec<Outcome>, what: Outcome) -> (n: u64)
    ensures
        n == times(outcomes@, what),
{
    let mut n: u64 = 0;
    let mut i: usize = 0;
    assert(outcomes@.take(0) == Seq::<Outcome>::empty());
    while i < outcomes.len()
        invariant
            i <= outcomes@.len(),
            n <= i,
            n == times(outcomes@.take(i as int), what),
        decreases outcomes@.len() - i,
    {
        assert(outcomes@.take(i + 1).drop_last() == outcomes@.take(i as int));
        if outcomes[i] == what {
            n = n + 1;
        }
        i = i + 1;
    }
    assert(outcomes@.take(i as int) == outcomes@);
    n
}

fn failures(cities: &Vec<&City>, outcomes: &Vec<Outcome>) -> (list: Vec<String>)
    requires
        outcomes@.len() <= cities@.len(),
    ensures
        text::texts(list@) == failed_cities(views(cities@), outcomes@),
        list@.len() == times(outcomes@, Outcome::Failed),
{
    let mut list: Vec<String> = Vec::new();
    let mut i: usize = 0;
    proof {
        assert(outcomes@.take(0) == Seq::<Outcome>::empty());
        assert(text::texts(list@) == Seq::<Seq<char>>::empty());
    }
    while i < outcomes.len()
        invariant
            i <= outcomes@.len() <= cities@.len(),
            text::texts(list@) == failed_cities(views(cities@), outcomes@.take(i as int)),
            list@.len() == times(outcomes@.take(i as int), Outcome::Failed),
        decreases outcomes@.len() - i,
    {
        assert(outcomes@.take(i + 1).drop_last() == outcomes@.take(i as int));
        let ghost had = text::texts(list@);
        if outcomes[i] == Outcome::Failed {
            let mut line = cities[i].city_code.clone();
            line.append(" ");
            line.append(cities[i].city.as_str());
            let ghost added = line@;
            list.push(line);
            assert(text::texts(list@) =~= had.push(added));
        }
        i = i + 1;
    }
    assert(outcomes@.take(i as int) == outcomes@);
    list
}

/// Reports on the cities in the order in which they were worked on.
pub fn report(cities: &Vec<&City>, outcomes: &Vec<Outcome>) -> (lines: Vec<String>)
    requires
        outcomes@.len() <= cities@.len(),
    ensures
        text::texts(lines@) == report_of(views(cities@), outcomes@),
{
    let failed = failures(cities, outcomes);
    let mut first = "変換 ".to_string();
    push_decimal(&mut first, count(outcomes, Outcome::Converted));
    first.append(" / 既存を飛ばした ");
    push_decimal(&mut first, count(outcomes, Outcome::Skipped));
    first.append(" / 失敗 ");
    push_decimal(&mut first, count(outcomes, Outcome::Failed));
    let mut lines: Vec<String> = Vec::new();
    lines.push(first);
    if failed.len() > 0 {
        let mut second = "失敗した都市: ".to_string();
        let names = join(&failed, ", ");
        second.append(names.as_str());
        lines.push(second);
    }
    assert(text::texts(lines@) =~= report_of(views(cities@), outcomes@));
    lines
}

/// Every city that was worked on is counted once.
pub proof fn law_every_city_is_counted(outcomes: Seq<Outcome>)
    ensures
        times(outcomes, Outcome::Converted) + times(outcomes, Outcome::Skipped) + times(
            outcomes,
            Outcome::Failed,
        ) == outcomes.len(),
    decreases outcomes.len(),
{
    if outcomes.len() > 0 {
        law_every_city_is_counted(outcomes.drop_last());
    }
}

/// One failure stops nothing: as many cities are named as failed.
pub proof fn law_failures_are_named(cities: Seq<CityView>, outcomes: Seq<Outcome>)
    ensures
        failed_cities(cities, outcomes).len() == times(outcomes, Outcome::Failed),
    decreases outcomes.len(),
{
    if outcomes.len() > 0 {
        law_failures_are_named(cities, outcomes.drop_last());
    }
}

// ---------------------------------------------------------------------------
// Surveying
// ---------------------------------------------------------------------------

/// Which cities to survey.
pub enum Selector {
    /// Those with these codes.
    Codes(Vec<String>),
    /// So many, spread over the sizes of their archives.
    Sample(usize),
    /// All with buildings.
    All,
}

/// Why no cities can be chosen.
#[derive(Debug, PartialEq)]
pub enum SelectError {
    Unknown(UnknownCity),
    /// 選べる都市がありません
    Nothing,
}

impl SelectError {
    pub fn to_string(&self) -> (text: String)
        ensures
            text@ == (match *self {
                SelectError::Unknown(e) => UnknownCity::spec_text(e.city_code@),
                SelectError::Nothing => "選べる都市がありません"@,
            }),
    {
        match self {
            SelectError::Unknown(e) => e.to_string(),
            SelectError::Nothing => "選べる都市がありません".to_string(),
        }
    }
}

/// `places` with `at` put in behind all whose archives are not larger.
pub open spec fn put_by_size(cities: Seq<CityView>, places: Seq<int>, at: int) -> Seq<int>
    decreases places.len(),
{
    if places.len() == 0 || cities[places.last()].file_size <= cities[at].file_size {
        places.push(at)
    } else {
        put_by_size(cities, places.drop_last(), at).push(places.last())
    }
}

/// `places` by the sizes of the archives; where they are equal, as they were.
pub open spec fn by_size(cities: Seq<CityView>, places: Seq<int>) -> Seq<int>
    decreases places.len(),
{
    if places.len() == 0 {
        places
    } else {
        put_by_size(cities, by_size(cities, places.drop_last()), places.last())
    }
}

proof fn lemma_put_by_size(cities: Seq<CityView>, places: Seq<int>, at: int)
    requires
        forall|i: int, j: int|
            0 <= i <= j < places.len() ==> cities[places[i]].file_size
                <= cities[places[j]].file_size,
    ensures
        ({
            let out = put_by_size(cities, places, at);
            &&& out.len() == places.len() + 1
            &&& out.to_multiset() == places.to_multiset().insert(at)
            &&& forall|i: int, j: int|
                0 <= i <= j < out.len() ==> cities[out[i]].file_size <= cities[out[j]].file_size
            &&& forall|i: int| 0 <= i < out.len() ==> #[trigger] out[i] == at || places.contains(out[i])
        }),
    decreases places.len(),
{
    broadcast use vstd::seq_lib::group_to_multiset_ensures;

    let out = put_by_size(cities, places, at);
    if places.len() == 0 || cities[places.last()].file_size <= cities[at].file_size {
        assert(out == places.push(at));
        assert forall|i: int| 0 <= i < out.len() implies #[trigger] out[i] == at
            || places.contains(out[i]) by {
            if i < places.len() {
                assert(places[i] == out[i]);
            }
        }
        assert forall|i: int, j: int| 0 <= i <= j < out.len() implies cities[out[i]].file_size
            <= cities[out[j]].file_size by {
            if j == places.len() && i < places.len() {
                assert(cities[places[i]].file_size <= cities[places[places.len() - 1]].file_size);
            }
        }
    } else {
        let rest = places.drop_last();
        lemma_put_by_size(cities, rest, at);
        let head = put_by_size(cities, rest, at);
        assert(places == rest.push(places.last()));
        assert(out.to_multiset() == places.to_multiset().insert(at)) by {
            assert(out.to_multiset() =~= head.to_multiset().insert(places.last()));
            assert(places.to_multiset() =~= rest.to_multiset().insert(places.last()));
            assert(rest.to_multiset().insert(at).insert(places.last())
                =~= rest.to_multiset().insert(places.last()).insert(at));
        }
        assert forall|i: int| 0 <= i < out.len() implies #[trigger] out[i] == at
            || places.contains(out[i]) by {
            if i < head.len() {
                assert(out[i] == head[i]);
                if head[i] != at {
                    let k = choose|k: int| 0 <= k < rest.len() && rest[k] == head[i];
                    assert(places[k] == head[i]);
                }
            } else {
                assert(places[places.len() - 1] == out[i]);
            }
        }
        assert forall|i: int, j: int| 0 <= i <= j < out.len() implies cities[out[i]].file_size
            <= cities[out[j]].file_size by {
            if j == head.len() && i < head.len() {
                assert(out[i] == head[i]);
                if head[i] != at {
                    assert(rest.contains(head[i]));
                    let k = choose|k: int| 0 <= k < rest.len() && rest[k] == head[i];
                    assert(places[k] == head[i]);
                    assert(cities[places[k]].file_size
                        <= cities[places[places.len() - 1]].file_size);
                }
            }
        }
    }
}

/// Going by the sizes keeps every city, and orders them from the smallest
/// archive to the largest.
pub proof fn law_by_size_orders(cities: Seq<CityView>, places: Seq<int>)
    ensures
        by_size(cities, places).len() == places.len(),
        by_size(cities, places).to_multiset() == places.to_multiset(),
        forall|i: int, j: int|
            0 <= i <= j < places.len() ==> cities[by_size(cities, places)[i]].file_size
                <= cities[by_size(cities, places)[j]].file_size,
        forall|i: int| 0 <= i < places.len() ==> places.contains(#[trigger] by_size(cities, places)[i]),
    decreases places.len(),
{
    broadcast use vstd::seq_lib::group_to_multiset_ensures;

    if places.len() > 0 {
        let rest = places.drop_last();
        law_by_size_orders(cities, rest);
        lemma_put_by_size(cities, by_size(cities, rest), places.last());
        assert(places == rest.push(places.last()));
        assert forall|i: int| 0 <= i < places.len() implies places.contains(
            #[trigger] by_size(cities, places)[i],
        ) by {
            let x = by_size(cities, places)[i];
            if x == places.last() {
                assert(places[places.len() - 1] == x);
            } else {
                assert(by_size(cities, rest).contains(x));
                let k = choose|k: int|
                    0 <= k < by_size(cities, rest).len() && by_size(cities, rest)[k] == x;
                assert(rest.contains(by_size(cities, rest)[k]));
                let m = choose|m: int| 0 <= m < rest.len() && rest[m] == x;
                assert(places[m] == x);
            }
        }
    }
}

/// The place that `at` is put in at, as `put_by_size` has it.
proof fn lemma_put_at(cities: Seq<CityView>, places: Seq<int>, at: int, k: int)
    requires
        0 <= k <= places.len(),
        k == 0 || cities[places[k - 1]].file_size <= cities[at].file_size,
        forall|j: int| k <= j < places.len() ==> cities[#[trigger] places[j]].file_size > cities[at].file_size,
    ensures
        put_by_size(cities, places, at) == places.take(k) + seq![at] + places.skip(k),
    decreases places.len(),
{
    if k == places.len() {
        assert(places.take(k) + seq![at] + places.skip(k) =~= places.push(at));
    } else {
        assert(places[places.len() - 1] == places.last());
        let rest = places.drop_last();
        lemma_put_at(cities, rest, at, k);
        assert((rest.take(k) + seq![at] + rest.skip(k)).push(places.last()) =~= places.take(k)
            + seq![at] + places.skip(k));
    }
}

fn sort_by_size<'a>(list: &Vec<&'a City>, Ghost(all): Ghost<Seq<City>>, Ghost(places): Ghost<
    Seq<int>,
>) -> (sorted: Vec<&'a City>)
    requires
        are_at(list@, all, places),
    ensures
        are_at(sorted@, all, by_size(plateau_catalog::city_views(all), places)),
{
    let ghost views = plateau_catalog::city_views(all);
    let mut sorted: Vec<&'a City> = Vec::new();
    let mut i: usize = 0;
    assert(places.take(0) == Seq::<int>::empty());
    while i < list.len()
        invariant
            i <= list@.len(),
            are_at(list@, all, places),
            views == plateau_catalog::city_views(all),
            are_at(sorted@, all, by_size(views, places.take(i as int))),
        decreases list@.len() - i,
    {
        let ghost had = by_size(views, places.take(i as int));
        let ghost before = sorted@;
        assert(places.take(i + 1).drop_last() == places.take(i as int));
        assert(is_at(*list@[i as int], all, places[i as int]));
        let mut k: usize = sorted.len();
        while k > 0 && sorted[k - 1].file_size > list[i].file_size
            invariant
                k <= sorted@.len(),
                i < list@.len(),
                are_at(list@, all, places),
                views == plateau_catalog::city_views(all),
                are_at(sorted@, all, had),
                *list@[i as int] == all[places[i as int]],
                forall|j: int|
                    k <= j < had.len() ==> views[#[trigger] had[j]].file_size
                        > views[places[i as int]].file_size,
            decreases k,
        {
            assert(is_at(*sorted@[k - 1], all, had[k - 1]));
            k = k - 1;
        }
        proof {
            if k > 0 {
                assert(is_at(*sorted@[k - 1], all, had[k - 1]));
            }
            lemma_put_at(views, had, places[i as int], k as int);
        }
        sorted.insert(k, list[i]);
        i = i + 1;
        assert(are_at(sorted@, all, by_size(views, places.take(i as int)))) by {
            let now = by_size(views, places.take(i as int));
            assert(now == had.take(k as int) + seq![places[i - 1]] + had.skip(k as int));
            assert forall|j: int| #![trigger sorted@[j]] 0 <= j < sorted@.len() implies is_at(
                *sorted@[j],
                all,
                now[j],
            ) by {
                if j < k {
                    assert(is_at(*before[j], all, had[j]));
                } else if j > k {
                    assert(is_at(*before[j - 1], all, had[j - 1]));
                }
            }
        }
    }
    assert(places.take(i as int) == places);
    sorted
}

/// The place in `sorted` that the spacing gives, the last one where that lies
/// beyond.
pub open spec fn within(sorted: Seq<int>, p: usize) -> int {
    if p < sorted.len() {
        sorted[p as int]
    } else {
        sorted.last()
    }
}

/// `city` may come at step `k` of `n`.
pub open spec fn sampled_at<F: Fn(usize, usize, usize) -> usize>(
    city: City,
    all: Seq<City>,
    sorted: Seq<int>,
    k: int,
    n: usize,
    spacing: F,
) -> bool {
    exists|p: usize| #[trigger]
        call_ensures(spacing, (k as usize, n, sorted.len() as usize), p) && is_at(
            city,
            all,
            within(sorted, p),
        )
}

/// What may come of a sample: at each step the city at the place that the
/// spacing gives.
pub open spec fn sampled<F: Fn(usize, usize, usize) -> usize>(
    list: Seq<&City>,
    all: Seq<City>,
    sorted: Seq<int>,
    n: usize,
    spacing: F,
) -> bool {
    &&& list.len() == n
    &&& forall|k: int| #![trigger list[k]] 0 <= k < n ==> sampled_at(*list[k], all, sorted, k, n, spacing)
}

impl Selector {
    /// The cities to survey. A sample goes by the sizes of the archives;
    /// `spacing` gives the place of the k-th of n cities among so many.
    pub fn pick<'a, F: Fn(usize, usize, usize) -> usize>(&self, all: &'a [City], spacing: F) -> (r:
        Result<Vec<&'a City>, SelectError>)
        requires
            forall|k: usize, n: usize, len: usize|
                k < n && len > 0 ==> #[trigger] call_requires(spacing, (k, n, len)),
        ensures
            ({
                let views = plateau_catalog::city_views(all@);
                match *self {
                    Selector::All => r is Ok && are_at(r->Ok_0@, all@, with_buildings(views)),
                    Selector::Codes(codes) => match places_of_codes(views, text::texts(codes@)) {
                        Ok(places) => r is Ok && are_at(r->Ok_0@, all@, places),
                        Err(code) => r is Err && r->Err_0 is Unknown
                            && r->Err_0->Unknown_0.city_code@ == code,
                    },
                    Selector::Sample(n) => if with_buildings(views).len() == 0 || n == 0 {
                        r is Err && r->Err_0 is Nothing
                    } else {
                        r is Ok && sampled(
                            r->Ok_0@,
                            all@,
                            by_size(views, with_buildings(views)),
                            n,
                            spacing,
                        )
                    },
                }
            }),
    {
        match self {
            Selector::Codes(codes) => match coded_cities(all, codes) {
                Ok(list) => Ok(list),
                Err(e) => Err(SelectError::Unknown(e)),
            },
            Selector::All => Ok(building_cities(all)),
            Selector::Sample(count) => {
                let n: usize = *count;
                let list = building_cities(all);
                if list.len() == 0 || n == 0 {
                    return Err(SelectError::Nothing);
                }
                let ghost views = plateau_catalog::city_views(all@);
                let ghost places = with_buildings(views);
                let ghost order = by_size(views, places);
                let sorted = sort_by_size(&list, Ghost(all@), Ghost(places));
                proof {
                    law_by_size_orders(views, places);
                }
                let mut out: Vec<&'a City> = Vec::new();
                let mut i: usize = 0;
                while i < n
                    invariant
                        i <= n,
                        out@.len() == i,
                        sorted@.len() > 0,
                        are_at(sorted@, all@, order),
                        forall|k: usize, n: usize, len: usize|
                            k < n && len > 0 ==> #[trigger] call_requires(spacing, (k, n, len)),
                        forall|k: int|
                            #![trigger out@[k]]
                            0 <= k < i ==> sampled_at(*out@[k], all@, order, k, n, spacing),
                    decreases n - i,
                {
                    let p: usize = spacing(i, n, sorted.len());
                    let at: usize = if p < sorted.len() {
                        p
                    } else {
                        sorted.len() - 1
                    };
                    assert(is_at(*sorted@[at as int], all@, order[at as int]));
                    assert(call_ensures(spacing, (i, n, order.len() as usize), p));
                    let ghost before = out@;
                    out.push(sorted[at]);
                    assert(sampled_at(*out@[i as int], all@, order, i as int, n, spacing));
                    i = i + 1;
                    assert forall|k: int| #![trigger out@[k]] 0 <= k < i implies sampled_at(
                        *out@[k],
                        all@,
                        order,
                        k,
                        n,
                        spacing,
                    ) by {
                        if k < i - 1 {
                            assert(sampled_at(*before[k], all@, order, k, n, spacing));
                        }
                    }
                }
                Ok(out)
            },
        }
    }
}

/// The sum of sizes.
pub open spec fn total(sizes: Seq<u64>) -> nat
    decreases sizes.len(),
{
    if sizes.len() == 0 {
        0
    } else {
        total(sizes.drop_last()) + sizes.last() as nat
    }
}

/// The sum of sizes, where it fits.
pub fn total_size(sizes: &Vec<u64>) -> (r: Option<u64>)
    ensures
        match r {
            Some(n) => n == total(sizes@),
            None => total(sizes@) > u64::MAX,
        },
{
    let mut n: u64 = 0;
    let mut i: usize = 0;
    assert(sizes@.take(0) == Seq::<u64>::empty());
    while i < sizes.len()
        invariant
            i <= sizes@.len(),
            n == total(sizes@.take(i as int)),
        decreases sizes@.len() - i,
    {
        assert(sizes@.take(i + 1).drop_last() == sizes@.take(i as int));
        if sizes[i] > 0xffff_ffff_ffff_ffff - n {
            proof {
                lemma_total_grows(sizes@, i + 1);
            }
            return None;
        }
        n = n + sizes[i];
        i = i + 1;
    }
    assert(sizes@.take(i as int) == sizes@);
    Some(n)
}

proof fn lemma_total_grows(sizes: Seq<u64>, n: int)
    requires
        0 <= n <= sizes.len(),
    ensures
        total(sizes.take(n)) <= total(sizes),
    decreases sizes.len(),
{
    if n < sizes.len() {
        assert(sizes.drop_last().take(n) == sizes.take(n));
        lemma_total_grows(sizes.drop_last(), n);
    } else {
        assert(sizes.take(n) == sizes);
    }
}

/// The heading of a survey.
pub const SURVEY_HEADING: &'static str =
    "city_code,city,pref,zip_bytes,bldg_files,bldg_bytes,fetched_bytes,seconds";

/// The fields of a line of a survey, with commas between them.
pub open spec fn survey_of(
    city: CityView,
    files: u64,
    bytes: u64,
    fetched: u64,
    seconds: Seq<char>,
) -> Seq<char> {
    text::joined(
        seq![
            city.city_code,
            city.city,
            city.pref,
            text::decimal_text(city.file_size as nat),
            text::decimal_text(files as nat),
            text::decimal_text(bytes as nat),
            text::decimal_text(fetched as nat),
            seconds,
        ],
        ","@,
    )
}

/// One line of a survey.
pub fn survey_line(
    city: &City,
    files: u64,
    bytes: u64,
    fetched: u64,
    seconds: &str,
) -> (line: String)
    ensures
        line@ == text::joined(
            seq![
                city.city_code@,
                city.city@,
                city.pref@,
                text::decimal_text(city.file_size as nat),
                text::decimal_text(files as nat),
                text::decimal_text(bytes as nat),
                text::decimal_text(fetched as nat),
                seconds@,
            ],
            ","@,
        ),
        line@ == survey_of(city@, files, bytes, fetched, seconds@),
{
    let mut fields: Vec<String> = Vec::new();
    fields.push(city.city_code.clone());
    fields.push(city.city.clone());
    fields.push(city.pref.clone());
    fields.push(decimal(city.file_size));
    fields.push(decimal(files));
    fields.push(decimal(bytes));
    fields.push(decimal(fetched));
    fields.push(seconds.to_string());
    proof {
        assert(text::texts(fields@) =~= seq![
            city.city_code@,
            city.city@,
            city.pref@,
            text::decimal_text(city.file_size as nat),
            text::decimal_text(files as nat),
            text::decimal_text(bytes as nat),
            text::decimal_text(fetched as nat),
            seconds@,
        ]);
    }
    join(&fields, ",")
}

fn decimal(n: u64) -> (text: String)
    ensures
        text@ == text::decimal_text(n as nat),
{
    let mut text = String::new();
    push_decimal(&mut text, n);
    text
}

proof fn lemma_places_found(cities: Seq<CityView>, n: nat)
    requires
        n <= cities.len(),
    ensures
        forall|k: int|
            #![trigger building_places(cities, n)[k]]
            0 <= k < building_places(cities, n).len() ==> 0 <= building_places(cities, n)[k] < n
                && cities[building_places(cities, n)[k]].feature_types.contains("bldg"@),
        forall|i: int, j: int|
            #![trigger building_places(cities, n)[i], building_places(cities, n)[j]]
            0 <= i < j < building_places(cities, n).len() ==> building_places(cities, n)[i]
                < building_places(cities, n)[j],
        forall|p: int|
            #![trigger cities[p]]
            0 <= p < n && cities[p].feature_types.contains("bldg"@) ==> building_places(
                cities,
                n,
            ).contains(p),
    decreases n,
{
    if n > 0 {
        let rest = building_places(cities, (n - 1) as nat);
        let all = building_places(cities, n);
        lemma_places_found(cities, (n - 1) as nat);
        assert forall|p: int|
            #![trigger cities[p]]
            0 <= p < n && cities[p].feature_types.contains("bldg"@) implies all.contains(p) by {
            if p < n - 1 {
                assert(rest.contains(p));
                let k = choose|k: int| 0 <= k < rest.len() && rest[k] == p;
                assert(all[k] == p);
            } else {
                assert(all[all.len() - 1] == p);
            }
        }
        assert(forall|k: int| #![trigger all[k]] 0 <= k < rest.len() ==> all[k] == rest[k]);
    }
}

/// The cities with buildings are those whose data hold any, each once, in the
/// order of the catalogue.
pub proof fn law_all_cities_with_buildings_are_found(cities: Seq<CityView>)
    ensures
        forall|k: int|
            #![trigger with_buildings(cities)[k]]
            0 <= k < with_buildings(cities).len() ==> 0 <= with_buildings(cities)[k] < cities.len()
                && cities[with_buildings(cities)[k]].feature_types.contains("bldg"@),
        forall|i: int, j: int|
            #![trigger with_buildings(cities)[i], with_buildings(cities)[j]]
            0 <= i < j < with_buildings(cities).len() ==> with_buildings(cities)[i]
                < with_buildings(cities)[j],
        forall|p: int|
            #![trigger cities[p]]
            0 <= p < cities.len() && cities[p].feature_types.contains("bldg"@) ==> with_buildings(
                cities,
            ).contains(p),
{
    lemma_places_found(cities, cities.len());
}

/// Codes lead to their cities one by one, in order; the first that leads to
/// none is named.
pub proof fn law_each_code_leads_to_its_city(cities: Seq<CityView>, codes: Seq<Seq<char>>)
    ensures
        places_of_codes(cities, codes) is Ok ==> places_of_codes(cities, codes)->Ok_0.len()
            == codes.len(),
        places_of_codes(cities, codes) is Ok ==> forall|k: int|
            #![trigger places_of_codes(cities, codes)->Ok_0[k]]
            0 <= k < codes.len() ==> 0 <= places_of_codes(cities, codes)->Ok_0[k] < cities.len()
                && cities[places_of_codes(cities, codes)->Ok_0[k]].city_code == codes[k],
        places_of_codes(cities, codes) is Err ==> codes.contains(
            places_of_codes(cities, codes)->Err_0,
        ) && forall|i: int|
            #![trigger cities[i]]
            0 <= i < cities.len() ==> cities[i].city_code != places_of_codes(cities, codes)->Err_0,
    decreases codes.len(),
{
    if codes.len() > 0 {
        let rest = codes.drop_last();
        law_each_code_leads_to_its_city(cities, rest);
        plateau_catalog::law_codes_lead_to_their_city(cities, codes.last());
        plateau_catalog::lemma_place_of(cities, codes.last(), 0);
        assert(codes[codes.len() - 1] == codes.last());
        assert(forall|k: int| #![trigger codes[k]] 0 <= k < rest.len() ==> codes[k] == rest[k]);
        if places_of_codes(cities, rest) is Err {
            let e = places_of_codes(cities, rest)->Err_0;
            let k = choose|k: int| 0 <= k < rest.len() && rest[k] == e;
            assert(codes[k] == e);
        } else {
            if places_of_codes(cities, codes) is Ok {
                let all = places_of_codes(cities, codes)->Ok_0;
                assert(all == places_of_codes(cities, rest)->Ok_0.push(
                    plateau_catalog::place_of(cities, codes.last(), 0),
                ));
                assert forall|k: int| #![trigger all[k]] 0 <= k < codes.len() implies 0 <= all[k]
                    < cities.len() && cities[all[k]].city_code == codes[k] by {
                    if k < rest.len() {
                        assert(rest[k] == codes[k]);
                        assert(all[k] == places_of_codes(cities, rest)->Ok_0[k]);
                    }
                }
            }
        }
    }
}

/// A list of targets is the word for all of them, or codes with commas between
/// them.
pub proof fn law_targets_are_all_or_codes(
    list: Seq<char>,
    codes: Seq<Seq<char>>,
    cities: Seq<CityView>,
)
    requires
        codes.len() > 0,
        forall|i: int| #![trigger codes[i]] 0 <= i < codes.len() ==> !codes[i].contains(','),
        list == text::joined(codes, seq![',']),
    ensures
        list == "all"@ ==> targets_of(list, cities) == Ok::<Seq<int>, Seq<char>>(
            with_buildings(cities),
        ),
        list != "all"@ ==> targets_of(list, cities) == places_of_codes(cities, codes),
{
    text::law_pieces_are_what_was_joined(codes, ',');
}

/// The report counts the cities by what became of them: converted, skipped and
/// failed. It names those that failed where there are any, and only then.
pub proof fn law_reports_count_outcomes(cities: Seq<CityView>, outcomes: Seq<Outcome>)
    ensures
        ({
            let converted = outcomes.filter(|o: Outcome| o == Outcome::Converted).len();
            let skipped = outcomes.filter(|o: Outcome| o == Outcome::Skipped).len();
            let failed = outcomes.filter(|o: Outcome| o == Outcome::Failed).len();
            let report = report_of(cities, outcomes);
            &&& report.len() == (if failed == 0 {
                1nat
            } else {
                2nat
            })
            &&& report[0] == "変換 "@ + text::decimal_text(converted) + " / 既存を飛ばした "@
                + text::decimal_text(skipped) + " / 失敗 "@ + text::decimal_text(failed)
            &&& failed > 0 ==> report[1] == "失敗した都市: "@ + text::joined(
                failed_cities(cities, outcomes),
                ", "@,
            )
        }),
{
    lemma_times_is_a_filter(outcomes, Outcome::Converted);
    lemma_times_is_a_filter(outcomes, Outcome::Skipped);
    lemma_times_is_a_filter(outcomes, Outcome::Failed);
}

proof fn lemma_times_is_a_filter(outcomes: Seq<Outcome>, what: Outcome)
    ensures
        times(outcomes, what) == outcomes.filter(|o: Outcome| o == what).len(),
    decreases outcomes.len(),
{
    reveal(Seq::filter);
    if outcomes.len() > 0 {
        lemma_times_is_a_filter(outcomes.drop_last(), what);
    }
}

/// A city is named as failed, by its code and its name, where its own outcome
/// is that it failed.
pub proof fn law_failed_cities_are_named(cities: Seq<CityView>, outcomes: Seq<Outcome>, i: int)
    requires
        0 <= i < outcomes.len(),
        outcomes[i] == Outcome::Failed,
    ensures
        failed_cities(cities, outcomes).contains(cities[i].city_code + " "@ + cities[i].city),
    decreases outcomes.len(),
{
    let all = failed_cities(cities, outcomes);
    let named = cities[i].city_code + " "@ + cities[i].city;
    if i < outcomes.len() - 1 {
        law_failed_cities_are_named(cities, outcomes.drop_last(), i);
        let rest = failed_cities(cities, outcomes.drop_last());
        let k = choose|k: int| 0 <= k < rest.len() && rest[k] == named;
        assert(all[k] == named);
    } else {
        assert(all[all.len() - 1] == named);
    }
}

/// The sizes of two lists add up, and a single size is its own sum.
pub proof fn law_sizes_add_up(a: Seq<u64>, b: Seq<u64>)
    ensures
        total(a + b) == total(a) + total(b),
        b.len() == 1 ==> total(b) == b[0],
    decreases b.len(),
{
    if b.len() == 0 {
        assert(a + b =~= a);
    } else {
        law_sizes_add_up(a, b.drop_last());
        assert((a + b).drop_last() =~= a + b.drop_last());
        if b.len() == 1 {
            assert(total(b.drop_last()) == 0);
        }
    }
}

proof fn lemma_decimal_has_no_comma(n: nat)
    ensures
        !text::decimal_text(n).contains(','),
{
    text::lemma_decimal_digits(n);
    let s = text::decimal_text(n);
    if s.contains(',') {
        let i = choose|i: int| 0 <= i < s.len() && s[i] == ',';
        assert(text::is_digit(s[i]));
    }
}

/// The names in the heading of a survey.
pub open spec fn survey_names() -> Seq<Seq<char>> {
    text::pieces(SURVEY_HEADING@, ',')
}

/// Each field of a line of a survey stands under its name in the heading, where
/// no text holds a comma: the city, the size of its archive, the number and the
/// size of its files with buildings, what was fetched for it and how long it
/// took.
pub proof fn law_survey_fields_stand_under_their_names(
    city: CityView,
    files: u64,
    bytes: u64,
    fetched: u64,
    seconds: Seq<char>,
    k: int,
)
    requires
        !city.city_code.contains(','),
        !city.city.contains(','),
        !city.pref.contains(','),
        !seconds.contains(','),
        0 <= k < 8,
    ensures
        ({
            let fields = text::pieces(survey_of(city, files, bytes, fetched, seconds), ',');
            let name = survey_names()[k];
            &&& survey_names().len() == 8 && fields.len() == 8
            &&& name == "city_code"@ ==> fields[k] == city.city_code
            &&& name == "city"@ ==> fields[k] == city.city
            &&& name == "pref"@ ==> fields[k] == city.pref
            &&& name == "zip_bytes"@ ==> fields[k] == text::decimal_text(city.file_size as nat)
            &&& name == "bldg_files"@ ==> fields[k] == text::decimal_text(files as nat)
            &&& name == "bldg_bytes"@ ==> fields[k] == text::decimal_text(bytes as nat)
            &&& name == "fetched_bytes"@ ==> fields[k] == text::decimal_text(fetched as nat)
            &&& name == "seconds"@ ==> fields[k] == seconds
            &&& survey_names().contains("city_code"@)
            &&& survey_names().contains("city"@)
            &&& survey_names().contains("pref"@)
            &&& survey_names().contains("zip_bytes"@)
            &&& survey_names().contains("bldg_files"@)
            &&& survey_names().contains("bldg_bytes"@)
            &&& survey_names().contains("fetched_bytes"@)
            &&& survey_names().contains("seconds"@)
        }),
{
    let list = seq![
        city.city_code,
        city.city,
        city.pref,
        text::decimal_text(city.file_size as nat),
        text::decimal_text(files as nat),
        text::decimal_text(bytes as nat),
        text::decimal_text(fetched as nat),
        seconds,
    ];
    lemma_decimal_has_no_comma(city.file_size as nat);
    lemma_decimal_has_no_comma(files as nat);
    lemma_decimal_has_no_comma(bytes as nat);
    lemma_decimal_has_no_comma(fetched as nat);
    reveal_strlit(",");
    assert(","@ =~= seq![',']);
    text::law_pieces_are_what_was_joined(list, ',');
    let names = seq!["city_code"@, "city"@, "pref"@, "zip_bytes"@, "bldg_files"@, "bldg_bytes"@, "fetched_bytes"@, "seconds"@];
    lemma_heading();
    assert(survey_names() == names);
    assert(survey_names()[0] == "city_code"@);
    assert(survey_names()[1] == "city"@);
    assert(survey_names()[2] == "pref"@);
    assert(survey_names()[3] == "zip_bytes"@);
    assert(survey_names()[4] == "bldg_files"@);
    assert(survey_names()[5] == "bldg_bytes"@);
    assert(survey_names()[6] == "fetched_bytes"@);
    assert(survey_names()[7] == "seconds"@);
    lemma_heading_names();
}

proof fn lemma_heading()
    ensures
        survey_names() == seq!["city_code"@, "city"@, "pref"@, "zip_bytes"@, "bldg_files"@, "bldg_bytes"@, "fetched_bytes"@, "seconds"@],
{
    let names = seq!["city_code"@, "city"@, "pref"@, "zip_bytes"@, "bldg_files"@, "bldg_bytes"@, "fetched_bytes"@, "seconds"@];
    reveal_strlit("city_code,city,pref,zip_bytes,bldg_files,bldg_bytes,fetched_bytes,seconds");
    reveal_strlit("city_code");
    reveal_strlit("city");
    reveal_strlit("pref");
    reveal_strlit("zip_bytes");
    reveal_strlit("bldg_files");
    reveal_strlit("bldg_bytes");
    reveal_strlit("fetched_bytes");
    reveal_strlit("seconds");
    assert forall|i: int| #![trigger names[i]] 0 <= i < names.len() implies !names[i].contains(
        ',',
    ) by {}
    text::law_pieces_are_what_was_joined(names, ',');
    let comma = seq![','];
    assert(names.take(1).len() == 1);
    assert(names.take(2).drop_last() =~= names.take(1));
    assert(names.take(3).drop_last() =~= names.take(2));
    assert(names.take(4).drop_last() =~= names.take(3));
    assert(names.take(5).drop_last() =~= names.take(4));
    assert(names.take(6).drop_last() =~= names.take(5));
    assert(names.take(7).drop_last() =~= names.take(6));
    assert(names.take(8).drop_last() =~= names.take(7));
    assert(names.take(8) =~= names);
    assert(text::joined(names.take(1), comma) =~= "city_code"@);
    reveal_strlit("city_code,city");
    assert(text::joined(names.take(2), comma) =~= "city_code,city"@);
    reveal_strlit("city_code,city,pref");
    assert(text::joined(names.take(3), comma) =~= "city_code,city,pref"@);
    reveal_strlit("city_code,city,pref,zip_bytes");
    assert(text::joined(names.take(4), comma) =~= "city_code,city,pref,zip_bytes"@);
    reveal_strlit("city_code,city,pref,zip_bytes,bldg_files");
    assert(text::joined(names.take(5), comma) =~= "city_code,city,pref,zip_bytes,bldg_files"@);
    reveal_strlit("city_code,city,pref,zip_bytes,bldg_files,bldg_bytes");
    assert(text::joined(names.take(6), comma) =~= "city_code,city,pref,zip_bytes,bldg_files,bldg_bytes"@);
    reveal_strlit("city_code,city,pref,zip_bytes,bldg_files,bldg_bytes,fetched_bytes");
    assert(text::joined(names.take(7), comma) =~= "city_code,city,pref,zip_bytes,bldg_files,bldg_bytes,fetched_bytes"@);
    assert(text::joined(names.take(8), comma) =~= "city_code,city,pref,zip_bytes,bldg_files,bldg_bytes,fetched_bytes,seconds"@);
}

proof fn lemma_heading_names()
    ensures
        "city_code"@ != "city"@,
        "city_code"@ != "pref"@,
        "city_code"@ != "zip_bytes"@,
        "city_code"@ != "bldg_files"@,
        "city_code"@ != "bldg_bytes"@,
        "city_code"@ != "fetched_bytes"@,
        "city_code"@ != "seconds"@,
        "city"@ != "pref"@,
        "city"@ != "zip_bytes"@,
        "city"@ != "bldg_files"@,
        "city"@ != "bldg_bytes"@,
        "city"@ != "fetched_bytes"@,
        "city"@ != "seconds"@,
        "pref"@ != "zip_bytes"@,
        "pref"@ != "bldg_files"@,
        "pref"@ != "bldg_bytes"@,
        "pref"@ != "fetched_bytes"@,
        "pref"@ != "seconds"@,
        "zip_bytes"@ != "bldg_files"@,
        "zip_bytes"@ != "bldg_bytes"@,
        "zip_bytes"@ != "fetched_bytes"@,
        "zip_bytes"@ != "seconds"@,
        "bldg_files"@ != "bldg_bytes"@,
        "bldg_files"@ != "fetched_bytes"@,
        "bldg_files"@ != "seconds"@,
        "bldg_bytes"@ != "fetched_bytes"@,
        "bldg_bytes"@ != "seconds"@,
        "fetched_bytes"@ != "seconds"@,
{
    reveal_strlit("city_code");
    reveal_strlit("city");
    reveal_strlit("pref");
    reveal_strlit("zip_bytes");
    reveal_strlit("bldg_files");
    reveal_strlit("bldg_bytes");
    reveal_strlit("fetched_bytes");
    reveal_strlit("seconds");
    assert("city_code"@.len() == 9);
    assert("city"@.len() == 4);
    assert("pref"@.len() == 4);
    assert("zip_bytes"@.len() == 9);
    assert("bldg_files"@.len() == 10);
    assert("bldg_bytes"@.len() == 10);
    assert("fetched_bytes"@.len() == 13);
    assert("seconds"@.len() == 7);
    assert("city_code"@[0] == 'c' && "zip_bytes"@[0] == 'z');
    assert("city"@[0] == 'c' && "pref"@[0] == 'p');
    assert("bldg_files"@[5] == 'f' && "bldg_bytes"@[5] == 'b');
}

} // verus!
