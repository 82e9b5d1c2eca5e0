//! The regional dataset: rows of comma-separated fields, grouped under region
//! header rows, then ordered by population.

use crate::entity::{City, Voivodeship};
use crate::fields::{fields, parse_u64, parsed_u64, split_fields};
use crate::order::{is_stable_descending, stable_descending_order};
use crate::pattern::{first_group, regex_group};
use crate::scan::{lines, split_lines, trim, trimmed};
use vstd::prelude::*;

verus! {

/// The number of regions a dataset holds.
pub const VOIVODESHIP_COUNT: usize = 16;

/// The number of fields a row is read from.
pub const DATA_COLUMNS: usize = 7;

/// The pattern that finds a region's name in its header row.
pub const REGION_PATTERN: &'static str = r"WOJ. ([\w-]*)";

/// Why a dataset could not be read.
#[derive(Debug, PartialEq, Eq, Structural, Clone, Copy)]
pub enum DatasetError {
    /// A row has fewer fields than a record needs.
    MissingColumns,
    /// A header row names no region.
    MissingRegionName,
    /// A record comes before the first header row.
    RowBeforeRegion,
    /// A numeric field of a record is not a `u64`.
    InvalidNumber,
    /// The dataset holds another number of regions than it must.
    RegionCount { expected: usize, got: usize },
}

/// What `str::to_lowercase` yields for a string.
pub uninterp spec fn lower_of(s: Seq<char>) -> Seq<char>;

/// Relies on `str::to_lowercase`: the lower-case mapping of a string, which
/// depends on its characters alone.
#[verifier::external_body]
fn lowercase(s: &str) -> (r: String)
    ensures
        r@ == lower_of(s@),
{
    s.to_lowercase()
}

/// A header row: no sub-region field, and something in the name field.
pub open spec fn is_header(cols: Seq<Seq<char>>) -> bool {
    cols[2].len() == 0 && cols[1].len() > 0
}

/// The region a header row names, in lower case.
pub open spec fn region_name_of(cols: Seq<Seq<char>>) -> Option<Seq<char>> {
    match regex_group(REGION_PATTERN@, trimmed(cols[1])) {
        Some(g) => Some(lower_of(g)),
        None => None,
    }
}

/// All four numeric fields of a record read as `u64`.
pub open spec fn numbers_ok(cols: Seq<Seq<char>>) -> bool {
    &&& parsed_u64(cols[3]) is Some
    &&& parsed_u64(cols[4]) is Some
    &&& parsed_u64(cols[5]) is Some
    &&& parsed_u64(cols[6]) is Some
}

/// `city` is the record of the fields `cols` in region `region`.
pub open spec fn city_matches(city: City, cols: Seq<Seq<char>>, region: Seq<char>) -> bool {
    &&& city.identifier@ == cols[0]
    &&& city.name@ == cols[1]
    &&& city.powiat@ == lower_of(cols[2])
    &&& parsed_u64(cols[3]) == Some(city.area_ha)
    &&& parsed_u64(cols[4]) == Some(city.area_km)
    &&& parsed_u64(cols[5]) == Some(city.total_population)
    &&& parsed_u64(cols[6]) == Some(city.population_per_km)
    &&& city.voivodeship@ == region
}

/// How the rows `rows` group: for each region, the index of its header row
/// and the indices of its record rows; or the error of the first row that
/// does not fit.
pub open spec fn layout(rows: Seq<Seq<char>>) -> Result<Seq<(int, Seq<int>)>, DatasetError>
    decreases rows.len(),
{
    if rows.len() == 0 {
        Ok(Seq::empty())
    } else {
        match layout(rows.drop_last()) {
            Err(e) => Err(e),
            Ok(groups) => {
                let i = rows.len() - 1;
                let cols = fields(rows.last());
                if cols.len() < DATA_COLUMNS {
                    Err(DatasetError::MissingColumns)
                } else if is_header(cols) {
                    if region_name_of(cols) is None {
                        Err(DatasetError::MissingRegionName)
                    } else if groups.len() >= VOIVODESHIP_COUNT {
                        Err(
                            DatasetError::RegionCount {
                                expected: VOIVODESHIP_COUNT,
                                got: (groups.len() + 1) as usize,
                            },
                        )
                    } else {
                        Ok(groups.push((i, Seq::empty())))
                    }
                } else if groups.len() == 0 {
                    Err(DatasetError::RowBeforeRegion)
                } else if !numbers_ok(cols) {
                    Err(DatasetError::InvalidNumber)
                } else {
                    let g = groups.last();
                    Ok(groups.update(groups.len() - 1, (g.0, g.1.push(i))))
                }
            },
        }
    }
}

/// `regions` holds the rows `rows` as `groups` places them.
pub open spec fn regions_match(
    regions: Seq<Voivodeship>,
    rows: Seq<Seq<char>>,
    groups: Seq<(int, Seq<int>)>,
) -> bool {
    &&& regions.len() == groups.len()
    &&& forall|r: int|
        0 <= r < regions.len() ==> {
            &&& Some((#[trigger] regions[r]).name@) == region_name_of(fields(rows[groups[r].0]))
            &&& regions[r].content@.len() == groups[r].1.len()
            &&& forall|k: int|
                0 <= k < regions[r].content@.len() ==> city_matches(
                    #[trigger] regions[r].content@[k],
                    fields(rows[groups[r].1[k]]),
                    regions[r].name@,
                )
        }
}

/// What reading `text` in file order gives.
pub open spec fn read_result(text: Seq<char>, r: Result<Vec<Voivodeship>, DatasetError>) -> bool {
    let rows = lines(text);
    match layout(rows) {
        Err(e) => r == Err::<Vec<Voivodeship>, DatasetError>(e),
        Ok(groups) => if groups.len() != VOIVODESHIP_COUNT {
            r == Err::<Vec<Voivodeship>, DatasetError>(
                DatasetError::RegionCount { expected: VOIVODESHIP_COUNT, got: groups.len() as usize },
            )
        } else {
            match r {
                Ok(regions) => regions_match(regions@, rows, groups),
                Err(_) => false,
            }
        },
    }
}

/// An error in a prefix of the rows is the error of all of them.
proof fn lemma_layout_error_stays(rows: Seq<Seq<char>>, i: int)
    requires
        0 <= i <= rows.len(),
        layout(rows.subrange(0, i)) is Err,
    ensures
        layout(rows) == layout(rows.subrange(0, i)),
    decreases rows.len() - i,
{
    if i < rows.len() {
        assert(rows.subrange(0, i + 1).drop_last() =~= rows.subrange(0, i));
        lemma_layout_error_stays(rows, i + 1);
    } else {
        assert(rows.subrange(0, i) =~= rows);
    }
}

/// The record of a row's fields in a region, or `InvalidNumber`.
pub fn city_from_columns(cols: &Vec<&str>, voivodeship: String) -> (r: Result<City, DatasetError>)
    requires
        cols@.len() >= DATA_COLUMNS,
    ensures
        ({
            let views = cols@.map_values(|f: &str| f@);
            match r {
                Ok(city) => numbers_ok(views) && city_matches(city, views, voivodeship@),
                Err(e) => !numbers_ok(views) && e == DatasetError::InvalidNumber,
            }
        }),
{
    let ghost views = cols@.map_values(|f: &str| f@);
    assert(views[3] == cols@[3]@ && views[4] == cols@[4]@ && views[5] == cols@[5]@ && views[6]
        == cols@[6]@);
    assert(views[0] == cols@[0]@ && views[1] == cols@[1]@ && views[2] == cols@[2]@);
    let area_ha = match parse_u64(cols[3]) {
        Some(v) => v,
        None => return Err(DatasetError::InvalidNumber),
    };
    let area_km = match parse_u64(cols[4]) {
        Some(v) => v,
        None => return Err(DatasetError::InvalidNumber),
    };
    let total_population = match parse_u64(cols[5]) {
        Some(v) => v,
        None => return Err(DatasetError::InvalidNumber),
    };
    let population_per_km = match parse_u64(cols[6]) {
        Some(v) => v,
        None => return Err(DatasetError::InvalidNumber),
    };
    Ok(
        City {
            identifier: String::from_str(cols[0]),
            name: String::from_str(cols[1]),
            powiat: lowercase(cols[2]),
            area_ha,
            area_km,
            total_population,
            population_per_km,
            voivodeship,
        },
    )
}

/// Reads the dataset rows of `text` in file order: a header row opens a
/// region, each record row after it is one of its cities.
pub fn read_dataset(text: &str) -> (r: Result<Vec<Voivodeship>, DatasetError>)
    ensures
        read_result(text@, r),
{
    let rows = split_lines(text);
    let ghost lv = rows@.map_values(|l: &str| l@);
    let mut done: Vec<Voivodeship> = Vec::new();
    let mut open = false;
    let mut cur_name = String::new();
    let mut cur: Vec<City> = Vec::new();
    let ghost mut groups: Seq<(int, Seq<int>)> = Seq::empty();
    let mut i: usize = 0;
    assert(lv.subrange(0, 0) =~= Seq::<Seq<char>>::empty());
    while i < rows.len()
        invariant
            i <= rows@.len(),
            lv == rows@.map_values(|l: &str| l@),
            lv == lines(text@),
            layout(lv.subrange(0, i as int)) == Ok::<Seq<(int, Seq<int>)>, DatasetError>(groups),
            groups.len() <= VOIVODESHIP_COUNT,
            open <==> groups.len() > 0,
            !open ==> done@.len() == 0,
            open ==> {
                &&& done@.len() + 1 == groups.len()
                &&& regions_match(done@, lv, groups.drop_last())
                &&& Some(cur_name@) == region_name_of(fields(lv[groups.last().0]))
                &&& cur@.len() == groups.last().1.len()
                &&& forall|k: int|
                    0 <= k < cur@.len() ==> city_matches(
                        #[trigger] cur@[k],
                        fields(lv[groups.last().1[k]]),
                        cur_name@,
                    )
            },
        decreases rows@.len() - i,
    {
        let line = rows[i];
        let cols = split_fields(line);
        let ghost views = cols@.map_values(|f: &str| f@);
        assert(line@ == lv[i as int]);
        assert(views == fields(lv[i as int]));
        assert(lv.subrange(0, i + 1).drop_last() =~= lv.subrange(0, i as int));
        assert(lv.subrange(0, i + 1).last() == lv[i as int]);
        if cols.len() < DATA_COLUMNS {
            proof {
                lemma_layout_error_stays(lv, i + 1);
            }
            return Err(DatasetError::MissingColumns);
        }
        assert(views[1] == cols@[1]@ && views[2] == cols@[2]@);
        if cols[2].unicode_len() == 0 && cols[1].unicode_len() > 0 {
            let found = first_group(REGION_PATTERN, trim(cols[1]));
            let name = match found {
                Some(g) => lowercase(g.as_str()),
                None => {
                    proof {
                        lemma_layout_error_stays(lv, i + 1);
                    }
                    return Err(DatasetError::MissingRegionName);
                },
            };
            let count: usize = if open {
                done.len() + 1
            } else {
                0
            };
            if count >= VOIVODESHIP_COUNT {
                proof {
                    lemma_layout_error_stays(lv, i + 1);
                }
                return Err(DatasetError::RegionCount { expected: VOIVODESHIP_COUNT, got: count + 1 });
            }
            if open {
                let ghost before = done@;
                let finished = Voivodeship { name: cur_name, content: cur };
                done.push(finished);
                proof {
                    let g = groups;
                    assert(done@ == before.push(finished));
                    assert(g.drop_last().push(g.last()) =~= g);
                    assert forall|r: int| 0 <= r < done@.len() implies {
                        &&& Some((#[trigger] done@[r]).name@) == region_name_of(fields(lv[g[r].0]))
                        &&& done@[r].content@.len() == g[r].1.len()
                        &&& forall|k: int|
                            0 <= k < done@[r].content@.len() ==> city_matches(
                                #[trigger] done@[r].content@[k],
                                fields(lv[g[r].1[k]]),
                                done@[r].name@,
                            )
                    } by {
                        if r < before.len() {
                            assert(done@[r] == before[r]);
                            assert(g[r] == g.drop_last()[r]);
                        }
                    }
                }
            }
            cur_name = name;
            cur = Vec::new();
            open = true;
            proof {
                groups = groups.push((i as int, Seq::empty()));
            }
        } else {
            if !open {
                proof {
                    lemma_layout_error_stays(lv, i + 1);
                }
                return Err(DatasetError::RowBeforeRegion);
            }
            let city = match city_from_columns(&cols, cur_name.clone()) {
                Ok(city) => city,
                Err(e) => {
                    proof {
                        lemma_layout_error_stays(lv, i + 1);
                    }
                    return Err(e);
                },
            };
            let ghost before = cur@;
            cur.push(city);
            proof {
                let g = groups;
                let last = g.last();
                groups = g.update(g.len() - 1, (last.0, last.1.push(i as int)));
                assert(groups.drop_last() =~= g.drop_last());
                assert forall|k: int| 0 <= k < cur@.len() implies city_matches(
                    #[trigger] cur@[k],
                    fields(lv[groups.last().1[k]]),
                    cur_name@,
                ) by {
                    if k < before.len() {
                        assert(cur@[k] == before[k]);
                        assert(groups.last().1[k] == last.1[k]);
                    }
                }
            }
        }
        i = i + 1;
    }
    assert(lv.subrange(0, i as int) =~= lv);
    let count: usize = if open {
        done.len() + 1
    } else {
        0
    };
    if count != VOIVODESHIP_COUNT {
        return Err(DatasetError::RegionCount { expected: VOIVODESHIP_COUNT, got: count });
    }
    let ghost before = done@;
    let finished = Voivodeship { name: cur_name, content: cur };
    done.push(finished);
    proof {
        let g = groups;
        assert(done@ == before.push(finished));
        assert forall|r: int| 0 <= r < done@.len() implies {
            &&& Some((#[trigger] done@[r]).name@) == region_name_of(fields(lv[g[r].0]))
            &&& done@[r].content@.len() == g[r].1.len()
            &&& forall|k: int|
                0 <= k < done@[r].content@.len() ==> city_matches(
                    #[trigger] done@[r].content@[k],
                    fields(lv[g[r].1[k]]),
                    done@[r].name@,
                )
        } by {
            if r < before.len() {
                assert(done@[r] == before[r]);
                assert(g[r] == g.drop_last()[r]);
            }
        }
    }
    Ok(done)
}

/// The populations of the cities, as sort keys.
pub open spec fn population_keys(cities: Seq<City>) -> Seq<u128> {
    cities.map_values(|c: City| c.total_population as u128)
}

/// The total population of the cities.
pub open spec fn population_sum(cities: Seq<City>) -> int
    decreases cities.len(),
{
    if cities.len() == 0 {
        0
    } else {
        population_sum(cities.drop_last()) + cities.last().total_population
    }
}

/// The total populations of the regions, as sort keys.
pub open spec fn region_keys(regions: Seq<Voivodeship>) -> Seq<u128> {
    regions.map_values(|v: Voivodeship| population_sum(v.content@) as u128)
}

/// `out` holds the cities of `src`, most populous first, ties in the
/// order they came in.
pub open spec fn cities_ordered(out: Seq<City>, src: Seq<City>) -> bool {
    exists|order: Seq<usize>|
        #![trigger is_stable_descending(population_keys(src), order)]
        is_stable_descending(population_keys(src), order) && out.len() == order.len() && forall|p: int|
            0 <= p < out.len() ==> #[trigger] out[p] == src[order[p] as int]
}

/// `out` holds the regions of `src`, most populous first, ties in the
/// order they came in, each with its cities ordered the same way.
pub open spec fn regions_ordered(out: Seq<Voivodeship>, src: Seq<Voivodeship>) -> bool {
    exists|order: Seq<usize>|
        #![trigger is_stable_descending(region_keys(src), order)]
        is_stable_descending(region_keys(src), order) && out.len() == order.len() && forall|p: int|
            0 <= p < out.len() ==> #[trigger] out[p].name == src[order[p] as int].name
                && cities_ordered(out[p].content@, src[order[p] as int].content@)
}

/// The total population of the cities.
pub fn population_total(cities: &Vec<City>) -> (r: u128)
    ensures
        r == population_sum(cities@),
{
    let mut sum: u128 = 0;
    let mut j: usize = 0;
    while j < cities.len()
        invariant
            j <= cities@.len(),
            sum == population_sum(cities@.subrange(0, j as int)),
            sum <= j * 0xffff_ffff_ffff_ffffu128,
        decreases cities@.len() - j,
    {
        assert(cities@.subrange(0, j + 1).drop_last() =~= cities@.subrange(0, j as int));
        let x = cities[j].total_population;
        assert(sum + x <= (j + 1) * 0xffff_ffff_ffff_ffffu128) by (nonlinear_arith)
            requires
                sum <= j * 0xffff_ffff_ffff_ffffu128,
                x <= 0xffff_ffff_ffff_ffffu64,
        ;
        assert((j + 1) * 0xffff_ffff_ffff_ffffu128 <= 0xffff_ffff_ffff_ffff_ffff_ffff_ffff_ffffu128)
            by (nonlinear_arith)
            requires
                j < 0xffff_ffff_ffff_ffffu64,
        ;
        sum = sum + x as u128;
        j = j + 1;
    }
    assert(cities@.subrange(0, j as int) =~= cities@);
    sum
}

/// The cities, most populous first, ties in the order they came in.
pub fn order_cities(cities: &Vec<City>) -> (r: Vec<City>)
    ensures
        cities_ordered(r@, cities@),
{
    let mut keys: Vec<u128> = Vec::new();
    let mut j: usize = 0;
    while j < cities.len()
        invariant
            j <= cities@.len(),
            keys@ == population_keys(cities@).subrange(0, j as int),
        decreases cities@.len() - j,
    {
        keys.push(cities[j].total_population as u128);
        assert(keys@ =~= population_keys(cities@).subrange(0, j + 1));
        j = j + 1;
    }
    assert(keys@ =~= population_keys(cities@));
    let order = stable_descending_order(&keys);
    let mut out: Vec<City> = Vec::new();
    let mut p: usize = 0;
    while p < order.len()
        invariant
            p <= order@.len(),
            is_stable_descending(population_keys(cities@), order@),
            out@.len() == p,
            forall|q: int| 0 <= q < p ==> #[trigger] out@[q] == cities@[order@[q] as int],
        decreases order@.len() - p,
    {
        out.push(cities[order[p]].duplicate());
        p = p + 1;
    }
    assert(is_stable_descending(population_keys(cities@), order@));
    out
}

/// The regions, most populous first, ties in the order they came in, each
/// with its cities ordered the same way.
pub fn order_dataset(regions: &Vec<Voivodeship>) -> (r: Vec<Voivodeship>)
    ensures
        regions_ordered(r@, regions@),
{
    let mut keys: Vec<u128> = Vec::new();
    let mut j: usize = 0;
    while j < regions.len()
        invariant
            j <= regions@.len(),
            keys@ == region_keys(regions@).subrange(0, j as int),
        decreases regions@.len() - j,
    {
        keys.push(population_total(&regions[j].content));
        assert(keys@ =~= region_keys(regions@).subrange(0, j + 1));
        j = j + 1;
    }
    assert(keys@ =~= region_keys(regions@));
    let order = stable_descending_order(&keys);
    let mut out: Vec<Voivodeship> = Vec::new();
    let mut p: usize = 0;
    while p < order.len()
        invariant
            p <= order@.len(),
            is_stable_descending(region_keys(regions@), order@),
            out@.len() == p,
            forall|q: int|
                0 <= q < p ==> #[trigger] out@[q].name == regions@[order@[q] as int].name
                    && cities_ordered(out@[q].content@, regions@[order@[q] as int].content@),
        decreases order@.len() - p,
    {
        let source = &regions[order[p]];
        let ghost before = out@;
        out.push(Voivodeship { name: source.name.clone(), content: order_cities(&source.content) });
        assert(forall|q: int| 0 <= q < p ==> out@[q] == before[q]);
        p = p + 1;
    }
    assert(is_stable_descending(region_keys(regions@), order@));
    out
}

/// Reads the dataset and orders it: regions by total population, cities by
/// population, the most populous first and ties in file order.
pub fn parse_csv(text: &str) -> (r: Result<Vec<Voivodeship>, DatasetError>)
    ensures
        r is Err ==> read_result(text@, r),
        match r {
            Ok(regions) => exists|raw: Vec<Voivodeship>|
                #![trigger raw@]
                read_result(text@, Ok(raw)) && regions_ordered(regions@, raw@),
            Err(_) => true,
        },
{
    let read = read_dataset(text);
    if let Ok(raw) = read {
        let ordered = order_dataset(&raw);
        assert(read_result(text@, Ok(raw)) && regions_ordered(ordered@, raw@));
        Ok(ordered)
    } else {
        read
    }
}

} // verus!
