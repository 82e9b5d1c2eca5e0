//! Which downloaded images still need an edited copy.

use crate::candidates::{has_stem, texts};
use crate::download::asset_file_name;
use crate::entity::{city_key, format_file_name, City};
use vstd::prelude::*;

verus! {

/// The views of (stem, extension) pairs.
pub open spec fn pair_texts(v: Seq<(String, String)>) -> Seq<(Seq<char>, Seq<char>)> {
    v.map_values(|p: (String, String)| (p.0@, p.1@))
}

/// The extension of the last file in `files` whose stem is `stem`.
pub open spec fn last_extension(files: Seq<(Seq<char>, Seq<char>)>, stem: Seq<char>) -> Option<Seq<char>>
    decreases files.len(),
{
    if files.len() == 0 {
        None
    } else if files.last().0 == stem {
        Some(files.last().1)
    } else {
        last_extension(files.drop_last(), stem)
    }
}

/// The file names to edit, city by city: those with a source file and no
/// edited copy, named by their stem and the source's extension.
pub open spec fn edit_names(
    cities: Seq<City>,
    files: Seq<(Seq<char>, Seq<char>)>,
    edited: Seq<Seq<char>>,
) -> Seq<Seq<char>>
    decreases cities.len(),
{
    if cities.len() == 0 {
        Seq::empty()
    } else {
        let before = edit_names(cities.drop_last(), files, edited);
        let key = city_key(cities.last());
        if edited.contains(key) {
            before
        } else {
            match last_extension(files, key) {
                Some(ext) => before.push(key + seq!['.'] + ext),
                None => before,
            }
        }
    }
}

/// The extension of the last file whose stem is `stem`.
pub fn find_extension(files: &Vec<(String, String)>, stem: &String) -> (r: Option<String>)
    ensures
        match r {
            Some(ext) => last_extension(pair_texts(files@), stem@) == Some(ext@),
            None => last_extension(pair_texts(files@), stem@) is None,
        },
{
    let mut found: Option<String> = None;
    let mut i: usize = 0;
    while i < files.len()
        invariant
            i <= files@.len(),
            match found {
                Some(ext) => last_extension(pair_texts(files@).subrange(0, i as int), stem@) == Some(
                    ext@,
                ),
                None => last_extension(pair_texts(files@).subrange(0, i as int), stem@) is None,
            },
        decreases files@.len() - i,
    {
        let ghost views = pair_texts(files@);
        assert(views.subrange(0, i + 1).drop_last() =~= views.subrange(0, i as int));
        assert(views.subrange(0, i + 1).last() == views[i as int]);
        if files[i].0 == *stem {
            found = Some(files[i].1.clone());
        }
        i = i + 1;
    }
    assert(pair_texts(files@).subrange(0, i as int) =~= pair_texts(files@));
    found
}

/// The file names, in city order, of the source images that have no edited
/// copy yet; `files` pairs each source's stem with its extension.
pub fn files_to_edit(
    cities: &Vec<City>,
    files: &Vec<(String, String)>,
    edited_stems: &Vec<String>,
) -> (r: Vec<String>)
    ensures
        texts(r@) == edit_names(cities@, pair_texts(files@), texts(edited_stems@)),
{
    let mut out: Vec<String> = Vec::new();
    let mut i: usize = 0;
    while i < cities.len()
        invariant
            i <= cities@.len(),
            texts(out@) == edit_names(
                cities@.subrange(0, i as int),
                pair_texts(files@),
                texts(edited_stems@),
            ),
        decreases cities@.len() - i,
    {
        let ghost prefix = cities@.subrange(0, i + 1);
        assert(prefix.drop_last() =~= cities@.subrange(0, i as int));
        assert(prefix.last() == cities@[i as int]);
        let key = format_file_name(&cities[i]);
        if !has_stem(edited_stems, &key) {
            match find_extension(files, &key) {
                Some(ext) => {
                    let ghost before = texts(out@);
                    out.push(asset_file_name(key.as_str(), ext.as_str()));
                    assert(texts(out@) =~= before.push(key@ + seq!['.'] + ext@));
                },
                None => {},
            }
        }
        i = i + 1;
    }
    assert(cities@.subrange(0, i as int) =~= cities@);
    out
}

} // verus!
