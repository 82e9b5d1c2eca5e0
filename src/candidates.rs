//! Which entities still need assets, and which of them share a name.

use crate::entity::{city_key, format_file_name, City, Voivodeship};
use vstd::prelude::*;

verus! {

/// The views of a list of strings.
pub open spec fn texts(v: Seq<String>) -> Seq<Seq<char>> {
    v.map_values(|s: String| s@)
}

/// Every city of the dataset, region after region, in dataset order.
pub open spec fn all_cities(dataset: Seq<Voivodeship>) -> Seq<City>
    decreases dataset.len(),
{
    if dataset.len() == 0 {
        Seq::empty()
    } else {
        all_cities(dataset.drop_last()) + dataset.last().content@
    }
}

/// Both assets of `city` are already stored.
pub open spec fn is_satisfied(
    city: City,
    emblem_stems: Seq<Seq<char>>,
    background_stems: Seq<Seq<char>>,
) -> bool {
    emblem_stems.contains(city_key(city)) && background_stems.contains(city_key(city))
}

/// The cities that still miss an emblem or a background, in their order.
pub open spec fn pending_cities(
    cities: Seq<City>,
    emblem_stems: Seq<Seq<char>>,
    background_stems: Seq<Seq<char>>,
) -> Seq<City> {
    cities.filter(|c: City| !is_satisfied(c, emblem_stems, background_stems))
}

/// The test that a city carries the display name `name`.
pub open spec fn has_name(name: Seq<char>) -> spec_fn(City) -> bool {
    |c: City| c.name@ == name
}

/// How many of `cities` carry the display name `name`.
pub open spec fn name_count(cities: Seq<City>, name: Seq<char>) -> nat {
    cities.filter(has_name(name)).len()
}

/// A pending city and whether its display name is shared with another pending city.
#[derive(Clone, Debug)]
pub struct Candidate {
    pub city: City,
    pub ambiguous: bool,
}

/// Whether `stems` holds `key`.
pub fn has_stem(stems: &Vec<String>, key: &String) -> (r: bool)
    ensures
        r == texts(stems@).contains(key@),
{
    let mut i: usize = 0;
    while i < stems.len()
        invariant
            i <= stems@.len(),
            forall|j: int| 0 <= j < i ==> stems@[j]@ != key@,
        decreases stems@.len() - i,
    {
        if stems[i] == *key {
            assert(texts(stems@)[i as int] == key@);
            return true;
        }
        i = i + 1;
    }
    assert forall|j: int| 0 <= j < texts(stems@).len() implies texts(stems@)[j] != key@ by {}
    false
}

/// Every city of the dataset, in order.
pub fn entities_of(dataset: &Vec<Voivodeship>) -> (r: Vec<City>)
    ensures
        r@ == all_cities(dataset@),
{
    let mut out: Vec<City> = Vec::new();
    let mut i: usize = 0;
    while i < dataset.len()
        invariant
            i <= dataset@.len(),
            out@ == all_cities(dataset@.subrange(0, i as int)),
        decreases dataset@.len() - i,
    {
        let ghost before = out@;
        let content = &dataset[i].content;
        let mut j: usize = 0;
        while j < content.len()
            invariant
                j <= content@.len(),
                out@ == before + content@.subrange(0, j as int),
            decreases content@.len() - j,
        {
            out.push(content[j].duplicate());
            assert(out@ =~= before + content@.subrange(0, j + 1));
            j = j + 1;
        }
        assert(dataset@.subrange(0, i + 1).drop_last() =~= dataset@.subrange(0, i as int));
        assert(content@.subrange(0, j as int) =~= content@);
        i = i + 1;
    }
    assert(dataset@.subrange(0, i as int) =~= dataset@);
    out
}

/// The cities that still miss an emblem or a background, in the given order.
pub fn pending_entities(
    cities: &Vec<City>,
    emblem_stems: &Vec<String>,
    background_stems: &Vec<String>,
) -> (r: Vec<City>)
    ensures
        r@ == pending_cities(cities@, texts(emblem_stems@), texts(background_stems@)),
{
    let ghost em = texts(emblem_stems@);
    let ghost bg = texts(background_stems@);
    let ghost keep = |c: City| !is_satisfied(c, em, bg);
    let mut out: Vec<City> = Vec::new();
    let mut i: usize = 0;
    while i < cities.len()
        invariant
            i <= cities@.len(),
            em == texts(emblem_stems@),
            bg == texts(background_stems@),
            keep == (|c: City| !is_satisfied(c, em, bg)),
            out@ == cities@.subrange(0, i as int).filter(keep),
        decreases cities@.len() - i,
    {
        let city = &cities[i];
        let key = format_file_name(city);
        let has_emblem = has_stem(emblem_stems, &key);
        let has_background = has_stem(background_stems, &key);
        if !(has_emblem && has_background) {
            out.push(city.duplicate());
        }
        proof {
            assert(cities@.subrange(0, i + 1) =~= cities@.subrange(0, i as int).push(cities@[i as int]));
            cities@.subrange(0, i as int).lemma_filter_push(cities@[i as int], keep);
        }
        i = i + 1;
    }
    assert(cities@.subrange(0, i as int) =~= cities@);
    out
}

/// How many of `cities` carry the display name `name`.
pub fn count_name(cities: &Vec<City>, name: &String) -> (r: usize)
    ensures
        r == name_count(cities@, name@),
{
    let ghost same = has_name(name@);
    let mut count: usize = 0;
    let mut i: usize = 0;
    while i < cities.len()
        invariant
            i <= cities@.len(),
            same == has_name(name@),
            count == cities@.subrange(0, i as int).filter(same).len(),
            count <= i,
        decreases cities@.len() - i,
    {
        proof {
            assert(cities@.subrange(0, i + 1) =~= cities@.subrange(0, i as int).push(cities@[i as int]));
            cities@.subrange(0, i as int).lemma_filter_push(cities@[i as int], same);
        }
        if cities[i].name == *name {
            count = count + 1;
        }
        i = i + 1;
    }
    assert(cities@.subrange(0, i as int) =~= cities@);
    count
}

/// Marks each pending city whose display name occurs more than once among them.
pub fn mark_ambiguous(pending: &Vec<City>) -> (r: Vec<Candidate>)
    ensures
        r@.len() == pending@.len(),
        forall|i: int|
            0 <= i < r@.len() ==> (#[trigger] r@[i]).city == pending@[i] && r@[i].ambiguous == (
            name_count(pending@, pending@[i].name@) > 1),
{
    let mut out: Vec<Candidate> = Vec::new();
    let mut i: usize = 0;
    while i < pending.len()
        invariant
            i <= pending@.len(),
            out@.len() == i,
            forall|j: int|
                0 <= j < i ==> (#[trigger] out@[j]).city == pending@[j] && out@[j].ambiguous == (
                name_count(pending@, pending@[j].name@) > 1),
        decreases pending@.len() - i,
    {
        let count = count_name(pending, &pending[i].name);
        let ghost before = out@;
        out.push(Candidate { city: pending[i].duplicate(), ambiguous: count > 1 });
        assert(forall|j: int| 0 <= j < i ==> out@[j] == before[j]);
        i = i + 1;
    }
    out
}

/// The work list of a pass: the cities of the dataset that miss an asset, in
/// dataset order, each marked when its name is shared among them.
pub fn build_candidates(
    dataset: &Vec<Voivodeship>,
    emblem_stems: &Vec<String>,
    background_stems: &Vec<String>,
) -> (r: Vec<Candidate>)
    ensures
        ({
            let pending = pending_cities(
                all_cities(dataset@),
                texts(emblem_stems@),
                texts(background_stems@),
            );
            &&& r@.len() == pending.len()
            &&& forall|i: int|
                0 <= i < r@.len() ==> (#[trigger] r@[i]).city == pending[i] && r@[i].ambiguous == (
                name_count(pending, pending[i].name@) > 1)
        }),
{
    let cities = entities_of(dataset);
    let pending = pending_entities(&cities, emblem_stems, background_stems);
    mark_ambiguous(&pending)
}

/// A city whose emblem and background are both stored is never pending.
pub proof fn lemma_satisfied_not_pending(
    cities: Seq<City>,
    emblem_stems: Seq<Seq<char>>,
    background_stems: Seq<Seq<char>>,
    city: City,
)
    requires
        is_satisfied(city, emblem_stems, background_stems),
    ensures
        !pending_cities(cities, emblem_stems, background_stems).contains(city),
{
    let keep = |c: City| !is_satisfied(c, emblem_stems, background_stems);
    let pending = cities.filter(keep);
    if pending.contains(city) {
        let i = choose|i: int| 0 <= i < pending.len() && pending[i] == city;
        cities.lemma_filter_pred(keep, i);
    }
}

/// A city that misses either asset stays pending.
pub proof fn lemma_unsatisfied_pending(
    cities: Seq<City>,
    emblem_stems: Seq<Seq<char>>,
    background_stems: Seq<Seq<char>>,
    i: int,
)
    requires
        0 <= i < cities.len(),
        !is_satisfied(cities[i], emblem_stems, background_stems),
    ensures
        pending_cities(cities, emblem_stems, background_stems).contains(cities[i]),
{
    let keep = |c: City| !is_satisfied(c, emblem_stems, background_stems);
    cities.lemma_filter_contains(keep, i);
}


/// Two cities of `s` named `name` make its count at least two.
proof fn lemma_name_count_two(s: Seq<City>, name: Seq<char>, i: int, j: int)
    requires
        0 <= i < j < s.len(),
        s[i].name@ == name,
        s[j].name@ == name,
    ensures
        name_count(s, name) >= 2,
    decreases s.len(),
{
    let front = s.drop_last();
    let same = has_name(name);
    assert(front.push(s.last()) =~= s);
    front.lemma_filter_push(s.last(), same);
    assert(s.filter(same).len() >= front.filter(same).len());
    if j == s.len() - 1 {
        assert(front[i] == s[i]);
        front.lemma_filter_contains(same, i);
        assert(front.filter(same).len() >= 1);
        assert(s.filter(same).len() >= 2);
    } else {
        assert(front[i] == s[i] && front[j] == s[j]);
        lemma_name_count_two(front, name, i, j);
    }
}

/// Two pending cities that share a display name are both marked ambiguous.
pub proof fn lemma_shared_name_ambiguous(pending: Seq<City>, i: int, j: int)
    requires
        0 <= i < pending.len(),
        0 <= j < pending.len(),
        i != j,
        pending[i].name@ == pending[j].name@,
    ensures
        name_count(pending, pending[i].name@) > 1,
        name_count(pending, pending[j].name@) > 1,
{
    if i < j {
        lemma_name_count_two(pending, pending[i].name@, i, j);
    } else {
        lemma_name_count_two(pending, pending[i].name@, j, i);
    }
}

} // verus!
