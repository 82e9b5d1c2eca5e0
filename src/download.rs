//! What a download pass fetches and where each file lands.

use crate::resolver::Links;
use crate::text::{concat, strip_trailing, trim_trailing};
use vstd::prelude::*;

verus! {

/// The content type assumed when an answer declares none.
pub const DEFAULT_CONTENT_TYPE: &'static str = "image/raw";

/// The XML marker taken off the end of a content type.
pub const XML_SUFFIX: &'static str = "+xml";

/// `i` is the position of the first `/` of `s`.
pub open spec fn first_slash(s: Seq<char>, i: int) -> bool {
    0 <= i < s.len() && s[i] == '/' && forall|k: int| 0 <= k < i ==> s[k] != '/'
}

/// A content type without its media-type prefix: the text after its first
/// `/`, or all of it when it has none.
pub open spec fn media_subtype(content_type: Seq<char>) -> Seq<char> {
    if exists|i: int| first_slash(content_type, i) {
        let i = choose|i: int| first_slash(content_type, i);
        content_type.subrange(i + 1, content_type.len() as int)
    } else {
        content_type
    }
}

/// The file extension for a content type: its subtype without the XML marker.
pub open spec fn extension_of(content_type: Seq<char>) -> Seq<char> {
    strip_trailing(media_subtype(content_type), XML_SUFFIX@)
}

/// The content type actually used for a declared one, or its absence.
pub open spec fn effective_content_type(declared: Option<Seq<char>>) -> Seq<char> {
    match declared {
        Some(t) => t,
        None => DEFAULT_CONTENT_TYPE@,
    }
}

/// The file extension for a declared content type: the media-type prefix (up
/// to the first `/`) and the XML marker are taken off; no declaration stands
/// for `image/raw`.
pub fn derive_extension(content_type: Option<&str>) -> (r: String)
    ensures
        r@ == extension_of(
            effective_content_type(
                match content_type {
                    Some(t) => Some(t@),
                    None => None,
                },
            ),
        ),
{
    let declared = match content_type {
        Some(t) => t,
        None => DEFAULT_CONTENT_TYPE,
    };
    let n = declared.unicode_len();
    let mut i: usize = 0;
    while i < n && declared.get_char(i) != '/'
        invariant
            n == declared@.len(),
            i <= n,
            forall|k: int| 0 <= k < i ==> declared@[k] != '/',
        decreases n - i,
    {
        i = i + 1;
    }
    let subtype = if i < n {
        proof {
            assert(first_slash(declared@, i as int));
            let j = choose|j: int| first_slash(declared@, j);
            if j < i {
                assert(declared@[j] == '/');
            } else if j > i {
                assert(declared@[i as int] == '/');
            }
            assert(j == i);
        }
        declared.substring_char(i + 1, n)
    } else {
        assert(!exists|j: int| first_slash(declared@, j));
        assert(declared@.subrange(0, n as int) =~= declared@);
        declared.substring_char(0, n)
    };
    trim_trailing(subtype, XML_SUFFIX)
}

/// The file name of an asset: its stem, a dot, its extension.
pub fn asset_file_name(stem: &str, extension: &str) -> (r: String)
    ensures
        r@ == stem@ + seq!['.'] + extension@,
{
    proof {
        reveal_strlit(".");
    }
    let head = concat(stem, ".");
    assert("."@ =~= seq!['.']);
    concat(head.as_str(), extension)
}

/// Which of the two images of an entity a download fetches.
#[derive(PartialEq, Eq, Structural, Clone, Copy)]
pub enum AssetRole {
    Emblem,
    Background,
}

/// One download: an image URL, and the stem its file is saved under.
pub struct AssetJob {
    pub role: AssetRole,
    pub url: String,
    pub stem: String,
}

/// The downloads of a pass: two per resolved entity, the emblem first, so a
/// pass over `n` entities counts `2 * n` assets.
pub fn download_jobs(links: &Vec<(String, Links)>) -> (r: Vec<AssetJob>)
    ensures
        r@.len() == 2 * links@.len(),
        forall|i: int|
            0 <= i < links@.len() ==> {
                &&& (#[trigger] r@[2 * i]).role == AssetRole::Emblem
                &&& r@[2 * i].url@ == links@[i].1.coa_link@
                &&& r@[2 * i].stem@ == links@[i].0@
                &&& r@[2 * i + 1].role == AssetRole::Background
                &&& r@[2 * i + 1].url@ == links@[i].1.bg_link@
                &&& r@[2 * i + 1].stem@ == links@[i].0@
            },
{
    let mut r: Vec<AssetJob> = Vec::new();
    let mut i: usize = 0;
    while i < links.len()
        invariant
            i <= links@.len(),
            r@.len() == 2 * i,
            forall|j: int|
                0 <= j < i ==> {
                    &&& (#[trigger] r@[2 * j]).role == AssetRole::Emblem
                    &&& r@[2 * j].url@ == links@[j].1.coa_link@
                    &&& r@[2 * j].stem@ == links@[j].0@
                    &&& r@[2 * j + 1].role == AssetRole::Background
                    &&& r@[2 * j + 1].url@ == links@[j].1.bg_link@
                    &&& r@[2 * j + 1].stem@ == links@[j].0@
                },
        decreases links@.len() - i,
    {
        let (stem, entity_links) = &links[i];
        let ghost before = r@;
        r.push(
            AssetJob {
                role: AssetRole::Emblem,
                url: entity_links.coa_link.clone(),
                stem: stem.clone(),
            },
        );
        r.push(
            AssetJob {
                role: AssetRole::Background,
                url: entity_links.bg_link.clone(),
                stem: stem.clone(),
            },
        );
        assert forall|j: int| 0 <= j < i implies #[trigger] r@[2 * j] == before[2 * j] && r@[2 * j
            + 1] == before[2 * j + 1] by {}
        i = i + 1;
    }
    r
}


/// Different stems without a dot give different file names, whatever the
/// extensions: two downloads of one role never write the same file.
pub proof fn lemma_distinct_file_names(
    stem_a: Seq<char>,
    stem_b: Seq<char>,
    extension_a: Seq<char>,
    extension_b: Seq<char>,
)
    requires
        stem_a != stem_b,
        !stem_a.contains('.'),
        !stem_b.contains('.'),
    ensures
        stem_a + seq!['.'] + extension_a != stem_b + seq!['.'] + extension_b,
{
    let fa = stem_a + seq!['.'] + extension_a;
    let fb = stem_b + seq!['.'] + extension_b;
    if fa == fb {
        if stem_a.len() == stem_b.len() {
            assert(fa.subrange(0, stem_a.len() as int) =~= stem_a);
            assert(fb.subrange(0, stem_b.len() as int) =~= stem_b);
        } else if stem_a.len() < stem_b.len() {
            assert(fa[stem_a.len() as int] == '.');
            assert(fb[stem_a.len() as int] == stem_b[stem_a.len() as int]);
        } else {
            assert(fb[stem_b.len() as int] == '.');
            assert(fa[stem_b.len() as int] == stem_a[stem_b.len() as int]);
        }
    }
}

/// Different stems with the same extension give different file names, dots
/// or not.
pub proof fn lemma_distinct_names_same_extension(
    stem_a: Seq<char>,
    stem_b: Seq<char>,
    extension: Seq<char>,
)
    requires
        stem_a != stem_b,
    ensures
        stem_a + seq!['.'] + extension != stem_b + seq!['.'] + extension,
{
    let fa = stem_a + seq!['.'] + extension;
    let fb = stem_b + seq!['.'] + extension;
    if fa == fb {
        assert(fa.len() == stem_a.len() + 1 + extension.len());
        assert(fb.len() == stem_b.len() + 1 + extension.len());
        assert(fa.subrange(0, stem_a.len() as int) =~= stem_a);
        assert(fb.subrange(0, stem_b.len() as int) =~= stem_b);
    }
}

} // verus!
