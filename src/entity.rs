//! Entities of the dataset and the file stems that name their assets.

use crate::text::{concat, replace_spaces, underscored};
use vstd::prelude::*;

verus! {

/// One locality of the dataset.
#[derive(Clone, Debug)]
pub struct City {
    pub identifier: String,
    pub name: String,
    pub powiat: String,
    pub area_ha: u64,
    pub area_km: u64,
    pub total_population: u64,
    pub population_per_km: u64,
    pub voivodeship: String,
}

/// A top-level region and the localities it holds, in dataset order.
#[derive(Clone, Debug)]
pub struct Voivodeship {
    pub name: String,
    pub content: Vec<City>,
}

/// The file stem of an entity: identifier and name, spaces turned into
/// underscores, joined by `+`.
pub open spec fn entity_key(identifier: Seq<char>, name: Seq<char>) -> Seq<char> {
    underscored(identifier) + seq!['+'] + underscored(name)
}

/// The file stem of a city.
pub open spec fn city_key(city: City) -> Seq<char> {
    entity_key(city.identifier@, city.name@)
}

impl City {
    /// A copy of this city, field by field.
    pub fn duplicate(&self) -> (r: City)
        ensures
            r == *self,
    {
        City {
            identifier: self.identifier.clone(),
            name: self.name.clone(),
            powiat: self.powiat.clone(),
            area_ha: self.area_ha,
            area_km: self.area_km,
            total_population: self.total_population,
            population_per_km: self.population_per_km,
            voivodeship: self.voivodeship.clone(),
        }
    }
}

/// The file stem for an identifier and a name.
pub fn format_file_name_parts(city_identifier: &str, city_name: &str) -> (r: String)
    ensures
        r@ == entity_key(city_identifier@, city_name@),
{
    let id = replace_spaces(city_identifier);
    let name = replace_spaces(city_name);
    proof {
        reveal_strlit("+");
    }
    let head = concat(id.as_str(), "+");
    assert("+"@ =~= seq!['+']);
    concat(head.as_str(), name.as_str())
}

/// The file stem of a city.
pub fn format_file_name(city: &City) -> (r: String)
    ensures
        r@ == city_key(*city),
{
    format_file_name_parts(city.identifier.as_str(), city.name.as_str())
}

/// What `std::path::Path::file_stem` gives for a path, when it is valid text.
pub uninterp spec fn path_stem(path: Seq<char>) -> Option<Seq<char>>;

/// `i` is the position of the last `.` of a file name, after its first character.
pub open spec fn final_dot(name: Seq<char>, i: int) -> bool {
    0 < i < name.len() && name[i] == '.' && forall|k: int| i < k < name.len() ==> name[k] != '.'
}

/// The stem of a file name: the part before its final `.`, or the whole name
/// when it has no `.` but perhaps a leading one.
pub open spec fn name_stem(name: Seq<char>) -> Seq<char> {
    if exists|i: int| final_dot(name, i) {
        name.subrange(0, choose|i: int| final_dot(name, i))
    } else {
        name
    }
}

/// A path of one plain component: no separator, and neither `.` nor `..`.
pub open spec fn is_plain_name(path: Seq<char>) -> bool {
    path.len() > 0 && !path.contains('/') && path != "."@ && path != ".."@
}

/// The stem of a file path: its final component without the extension.
/// Relies on `std::path::Path::file_stem`, whose result depends on the path
/// alone and which its documentation states for a file name: the whole name
/// without an embedded `.` or with only a leading one, else the part before
/// the final `.`; a path of one plain component is its own file name. A stem
/// taken from a `&str` is always valid text.
#[verifier::external_body]
pub fn file_stem(path: &str) -> (r: Option<String>)
    ensures
        r is Some <==> path_stem(path@) is Some,
        r is Some ==> r->Some_0@ == path_stem(path@)->Some_0,
        is_plain_name(path@) ==> r is Some && r->Some_0@ == name_stem(path@),
{
    match std::path::Path::new(path).file_stem() {
        Some(stem) => match stem.to_str() {
            Some(text) => Some(text.to_owned()),
            None => None,
        },
        None => None,
    }
}

/// The stems of the given file paths, in order, leaving out those without one.
pub fn stems_of(paths: &Vec<String>) -> (r: Vec<String>)
    ensures
        r@.map_values(|s: String| s@) == stem_list(paths@.map_values(|s: String| s@)),
{
    let mut out: Vec<String> = Vec::new();
    let mut i: usize = 0;
    while i < paths.len()
        invariant
            i <= paths@.len(),
            out@.map_values(|s: String| s@) == stem_list(
                paths@.map_values(|s: String| s@).subrange(0, i as int),
            ),
        decreases paths@.len() - i,
    {
        let ghost views = paths@.map_values(|s: String| s@);
        assert(views.subrange(0, i + 1).drop_last() =~= views.subrange(0, i as int));
        match file_stem(paths[i].as_str()) {
            Some(stem) => {
                out.push(stem);
            },
            None => {},
        }
        assert(out@.map_values(|s: String| s@) =~= stem_list(views.subrange(0, i + 1)));
        i = i + 1;
    }
    assert(paths@.map_values(|s: String| s@).subrange(0, i as int) =~= paths@.map_values(
        |s: String| s@,
    ));
    out
}

/// The stems of `paths`, in order, for those that have one.
pub open spec fn stem_list(paths: Seq<Seq<char>>) -> Seq<Seq<char>>
    decreases paths.len(),
{
    if paths.len() == 0 {
        Seq::empty()
    } else {
        let rest = stem_list(paths.drop_last());
        match path_stem(paths.last()) {
            Some(stem) => rest.push(stem),
            None => rest,
        }
    }
}


/// Two entities with the same name get different file stems whenever their
/// identifiers still differ once spaces become underscores.
pub proof fn lemma_keys_differ(identifier_a: Seq<char>, identifier_b: Seq<char>, name: Seq<char>)
    requires
        underscored(identifier_a) != underscored(identifier_b),
    ensures
        entity_key(identifier_a, name) != entity_key(identifier_b, name),
{
    let ua = underscored(identifier_a);
    let ub = underscored(identifier_b);
    let ka = entity_key(identifier_a, name);
    let kb = entity_key(identifier_b, name);
    let un = underscored(name);
    assert(ka.len() == ua.len() + 1 + un.len());
    assert(kb.len() == ub.len() + 1 + un.len());
    if ka == kb {
        assert(ua.len() == ub.len());
        assert(ka.subrange(0, ua.len() as int) =~= ua);
        assert(kb.subrange(0, ub.len() as int) =~= ub);
    }
}

} // verus!
