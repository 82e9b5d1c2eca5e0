//! The directory layout of a workspace.

use crate::text::concat;
use vstd::prelude::*;

verus! {

/// `piece` appended to the path `base`, with a separator unless `base` is
/// empty or already ends in one.
pub open spec fn joined(base: Seq<char>, piece: Seq<char>) -> Seq<char> {
    if base.len() == 0 || base.last() == '/' {
        base + piece
    } else {
        base + seq!['/'] + piece
    }
}

/// Appends a relative path to a base path.
pub fn join_path(base: &str, piece: &str) -> (r: String)
    ensures
        r@ == joined(base@, piece@),
{
    let n = base.unicode_len();
    if n == 0 || base.get_char(n - 1) == '/' {
        concat(base, piece)
    } else {
        proof {
            reveal_strlit("/");
        }
        let head = concat(base, "/");
        assert("/"@ =~= seq!['/']);
        concat(head.as_str(), piece)
    }
}

/// Where the dataset, the assets and the outputs of a workspace live.
#[derive(Clone, Debug)]
pub struct Paths {
    pub dataset: String,
    pub coas: String,
    pub edited_coas: String,
    pub backgrounds: String,
    pub edited_backgrounds: String,
    pub slides: String,
    pub fonts: String,
    pub icons: String,
    pub data: String,
}

impl Paths {
    /// The layout under a workspace root: everything sits in its `data` directory.
    pub fn new(base_dir: &str) -> (r: Paths)
        ensures
            r.data@ == joined(base_dir@, "data"@),
            r.dataset@ == joined(r.data@, "dane.csv"@),
            r.coas@ == joined(r.data@, "coats-of-arms"@),
            r.edited_coas@ == joined(r.data@, "edited-coats-of-arms"@),
            r.backgrounds@ == joined(r.data@, "backgrounds"@),
            r.edited_backgrounds@ == joined(r.data@, "edited-backgrounds"@),
            r.slides@ == joined(r.data@, "slides"@),
            r.fonts@ == joined(r.data@, "fonts"@),
            r.icons@ == joined(r.data@, "icons"@),
    {
        let data = join_path(base_dir, "data");
        Paths {
            dataset: join_path(data.as_str(), "dane.csv"),
            coas: join_path(data.as_str(), "coats-of-arms"),
            edited_coas: join_path(data.as_str(), "edited-coats-of-arms"),
            backgrounds: join_path(data.as_str(), "backgrounds"),
            edited_backgrounds: join_path(data.as_str(), "edited-backgrounds"),
            slides: join_path(data.as_str(), "slides"),
            fonts: join_path(data.as_str(), "fonts"),
            icons: join_path(data.as_str(), "icons"),
            data,
        }
    }
}

} // verus!
