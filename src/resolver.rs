//! Finding the emblem and background of one entity: URL suffixes, pattern
//! pairs, and the attempt-by-attempt state machine that walks them.

use crate::candidates::Candidate;
use crate::entity::{format_file_name, City};
use crate::pattern::{first_group, regex_group, regex_replaced, replace_first};
use crate::text::{concat, remove_all, remove_occurrences, replace_spaces, underscored};
use vstd::prelude::*;

verus! {

/// The page host and path that candidate links are appended to.
pub const WIKI_PREFIX: &'static str = "https://pl.wikipedia.org/wiki/";

/// The scheme prepended to the protocol-relative references of a page.
pub const SCHEME: &'static str = "https:";

/// The path segment that marks a scaled-down copy of an image.
pub const THUMB_SEGMENT: &'static str = "/thumb";

/// The last path segment of a reference: its file name.
pub const TRAILING_FILE: &'static str = r"/[^/]*?$";

/// The number of URL suffixes tried per pattern pair.
pub const SUFFIX_COUNT: usize = 4;

/// The emblem and background image URLs of an entity.
#[derive(Clone, Debug)]
pub struct Links {
    pub coa_link: String,
    pub bg_link: String,
}

/// Two regular expressions applied to one document: the first finds the
/// emblem, the second the background; each captures the reference in group 1.
#[derive(Clone, Debug)]
pub struct PatternPair {
    pub emblem: String,
    pub background: String,
}

/// The suffixes in their plain order: none, the city qualifier, the region
/// qualifier, the sub-region qualifier.
pub open spec fn plain_suffixes(city: City) -> Seq<Seq<char>> {
    seq![
        Seq::empty(),
        "_(miasto)"@,
        "_(województwo_"@ + city.voivodeship@ + ")"@,
        "_(powiat_"@ + city.powiat@ + ")"@,
    ]
}

/// The order in which suffixes are tried: reversed for an ambiguous name, so
/// that the unqualified page comes last.
pub open spec fn suffix_order(city: City, ambiguous: bool) -> Seq<Seq<char>> {
    if ambiguous {
        Seq::new(4, |j: int| plain_suffixes(city)[3 - j])
    } else {
        plain_suffixes(city)
    }
}

/// The page name tried for an entity name and a suffix.
pub open spec fn page_link_of(name: Seq<char>, suffix: Seq<char>) -> Seq<char> {
    underscored(name + suffix)
}

/// The URL of a page name.
pub open spec fn page_url_of(link: Seq<char>) -> Seq<char> {
    WIKI_PREFIX@ + link
}

/// The two references that a pattern pair accepts in a document: both found,
/// and not the same text.
pub open spec fn accepted_refs(pair: PatternPair, document: Seq<char>) -> Option<(Seq<char>, Seq<char>)> {
    match regex_group(pair.emblem@, document) {
        None => None,
        Some(emblem) => match regex_group(pair.background@, document) {
            None => None,
            Some(background) => if emblem == background {
                None
            } else {
                Some((emblem, background))
            },
        },
    }
}

/// The absolute URL of an emblem reference.
pub open spec fn emblem_url(emblem_ref: Seq<char>) -> Seq<char> {
    SCHEME@ + emblem_ref
}

/// The absolute URL of the full-size image behind a background reference:
/// the thumbnail segment and the trailing file name are taken out.
pub open spec fn background_url(background_ref: Seq<char>) -> Seq<char> {
    SCHEME@ + regex_replaced(TRAILING_FILE@, remove_all(background_ref, THUMB_SEGMENT@), Seq::empty())
}

/// The suffixes to try for a city, in the order `suffix_order` gives.
pub fn suffixes_for(city: &City, ambiguous: bool) -> (r: Vec<String>)
    ensures
        r@.len() == SUFFIX_COUNT,
        forall|j: int| 0 <= j < 4 ==> #[trigger] r@[j]@ == suffix_order(*city, ambiguous)[j],
{
    let region_head = concat("_(województwo_", city.voivodeship.as_str());
    let region = concat(region_head.as_str(), ")");
    let powiat_head = concat("_(powiat_", city.powiat.as_str());
    let powiat = concat(powiat_head.as_str(), ")");
    let mut r: Vec<String> = Vec::new();
    if ambiguous {
        r.push(powiat);
        r.push(region);
        r.push(String::from_str("_(miasto)"));
        r.push(String::new());
    } else {
        r.push(String::new());
        r.push(String::from_str("_(miasto)"));
        r.push(region);
        r.push(powiat);
    }
    r
}

/// The page name for an entity name and a suffix, spaces made underscores.
pub fn page_link(name: &str, suffix: &str) -> (r: String)
    ensures
        r@ == page_link_of(name@, suffix@),
{
    let joined = concat(name, suffix);
    replace_spaces(joined.as_str())
}

/// The URL of a page name.
pub fn page_url(link: &str) -> (r: String)
    ensures
        r@ == page_url_of(link@),
{
    concat(WIKI_PREFIX, link)
}

/// The three pattern pairs, in the order they are tried: an infobox emblem
/// with the infobox picture, the same emblem with the first thumbnail figure,
/// then a file named after a coat of arms with the page illustration.
pub fn default_pattern_pairs() -> (r: Vec<PatternPair>)
    ensures
        r@.len() == 3,
        r@[0].emblem@ == r#"<img .*?alt="Herb" .*?src="(.+?)".*?>"#@,
        r@[0].background@ == r#"(?s)<tr class="grafika iboxs.*?<img .*?src="(.+?)".*?>"#@,
        r@[1].emblem@ == r#"<img .*?alt="Herb" .*?src="(.+?)".*?>"#@,
        r@[1].background@ == r#"(?s).*<figure .*?typeof="mw:File/Thumb".*?<img .*?src="(.+?)".*?>"#@,
        r@[2].emblem@ == r#"<img .*?src="(.+?COA.+?)".*?>"#@,
        r@[2].background@ == r#"(?i)<img .*?alt="Ilustracja" .*?src="(.+?)".*?>"#@,
{
    let mut r: Vec<PatternPair> = Vec::new();
    r.push(
        PatternPair {
            emblem: String::from_str(r#"<img .*?alt="Herb" .*?src="(.+?)".*?>"#),
            background: String::from_str(r#"(?s)<tr class="grafika iboxs.*?<img .*?src="(.+?)".*?>"#),
        },
    );
    r.push(
        PatternPair {
            emblem: String::from_str(r#"<img .*?alt="Herb" .*?src="(.+?)".*?>"#),
            background: String::from_str(
                r#"(?s).*<figure .*?typeof="mw:File/Thumb".*?<img .*?src="(.+?)".*?>"#,
            ),
        },
    );
    r.push(
        PatternPair {
            emblem: String::from_str(r#"<img .*?src="(.+?COA.+?)".*?>"#),
            background: String::from_str(r#"(?i)<img .*?alt="Ilustracja" .*?src="(.+?)".*?>"#),
        },
    );
    r
}

/// What one pattern pair made of one document.
pub enum Extraction {
    NoEmblem,
    NoBackground,
    Repeated,
    Found { emblem: String, background: String },
}

/// Applies a pattern pair to a document: the emblem pattern first, the
/// background pattern only when it matched, and the two references compared.
pub fn extract(pair: &PatternPair, document: &str) -> (r: Extraction)
    ensures
        regex_group(pair.emblem@, document@) is None <==> r is NoEmblem,
        (regex_group(pair.emblem@, document@) is Some && regex_group(
            pair.background@,
            document@,
        ) is None) <==> r is NoBackground,
        (r is Repeated) <==> (regex_group(pair.emblem@, document@) is Some && regex_group(
            pair.background@,
            document@,
        ) is Some && accepted_refs(*pair, document@) is None),
        match r {
            Extraction::Found { emblem, background } => accepted_refs(*pair, document@) == Some(
                (emblem@, background@),
            ),
            _ => accepted_refs(*pair, document@) is None,
        },
{
    let emblem = match first_group(pair.emblem.as_str(), document) {
        Some(found) => found,
        None => return Extraction::NoEmblem,
    };
    let background = match first_group(pair.background.as_str(), document) {
        Some(found) => found,
        None => return Extraction::NoBackground,
    };
    if emblem == background {
        Extraction::Repeated
    } else {
        Extraction::Found { emblem, background }
    }
}

/// Turns accepted references into absolute URLs; the background loses its
/// thumbnail segment and trailing file name, which leads to the full-size file.
pub fn normalize_links(emblem_ref: &str, background_ref: &str) -> (r: Links)
    ensures
        r.coa_link@ == emblem_url(emblem_ref@),
        r.bg_link@ == background_url(background_ref@),
{
    let coa_link = concat(SCHEME, emblem_ref);
    let without_thumb = remove_occurrences(background_ref, THUMB_SEGMENT);
    let full_size = replace_first(TRAILING_FILE, without_thumb.as_str(), "");
    proof {
        reveal_strlit("");
    }
    assert(""@ =~= Seq::<char>::empty());
    let bg_link = concat(SCHEME, full_size.as_str());
    Links { coa_link, bg_link }
}

} // verus!

verus! {

/// The position after (`pair`, `suffix`): the next suffix of the same pair,
/// or the first suffix of the next pair once the suffixes run out.
pub open spec fn next_position(pair: int, suffix: int, suffix_count: int) -> (int, int) {
    if suffix + 1 < suffix_count {
        (pair, suffix + 1)
    } else {
        (pair + 1, 0)
    }
}

/// The position of the attempt numbered `t`, counting from zero.
pub open spec fn attempt_position(t: int, suffix_count: int) -> (int, int) {
    (t / suffix_count, t % suffix_count)
}

/// What the transport made of one page request.
pub enum FetchOutcome {
    /// The request failed or the server answered with an error status.
    Failed,
    /// The body of a successful answer.
    Document(String),
}

/// What the resolver asks for next.
pub enum Step {
    /// Fetch this URL; `link` is the page name it was built from.
    Fetch { url: String, link: String },
    /// Both images were found.
    Resolved { key: String, links: Links },
    /// Every suffix of every pattern pair was tried without success.
    Exhausted,
}

/// The resolution of one entity: it tries every suffix under the first
/// pattern pair, then every suffix under the next, until a page yields two
/// different images or nothing is left to try.
pub struct Resolver {
    pub key: String,
    pub name: String,
    pub suffixes: Vec<String>,
    pub pairs: Vec<PatternPair>,
    pub pair: usize,
    pub suffix: usize,
    pub finished: bool,
}

impl Resolver {
    /// The resolver is at a valid position.
    pub open spec fn wf(&self) -> bool {
        &&& self.suffixes@.len() == SUFFIX_COUNT
        &&& self.suffix < SUFFIX_COUNT
        &&& !self.finished ==> self.pair < self.pairs@.len()
    }

    /// The URL of the attempt at (`pair`, `suffix`).
    pub open spec fn url_at(&self, suffix: int) -> Seq<char> {
        page_url_of(page_link_of(self.name@, self.suffixes@[suffix]@))
    }

    /// The step that asks for the current attempt.
    pub open spec fn fetch_step(&self, step: Step) -> bool {
        match step {
            Step::Fetch { url, link } => {
                &&& link@ == page_link_of(self.name@, self.suffixes@[self.suffix as int]@)
                &&& url@ == self.url_at(self.suffix as int)
            },
            _ => false,
        }
    }

    /// A resolver for a candidate, at the first suffix of the first pattern pair.
    pub fn new(candidate: &Candidate, pairs: Vec<PatternPair>) -> (r: Resolver)
        ensures
            r.wf(),
            r.key@ == crate::entity::city_key(candidate.city),
            r.name@ == candidate.city.name@,
            forall|j: int|
                0 <= j < 4 ==> #[trigger] r.suffixes@[j]@ == suffix_order(
                    candidate.city,
                    candidate.ambiguous,
                )[j],
            r.pairs@ == pairs@,
            r.pair == 0,
            r.suffix == 0,
            r.finished == (pairs@.len() == 0),
    {
        let finished = pairs.len() == 0;
        Resolver {
            key: format_file_name(&candidate.city),
            name: candidate.city.name.clone(),
            suffixes: suffixes_for(&candidate.city, candidate.ambiguous),
            pairs,
            pair: 0,
            suffix: 0,
            finished,
        }
    }

    /// The step for the current position: a fetch, or `Exhausted` when there
    /// is nothing to try.
    pub fn current_step(&self) -> (r: Step)
        requires
            self.wf(),
        ensures
            self.finished ==> r is Exhausted,
            !self.finished ==> self.fetch_step(r),
    {
        if self.finished {
            return Step::Exhausted;
        }
        let link = page_link(self.name.as_str(), self.suffixes[self.suffix].as_str());
        let url = page_url(link.as_str());
        Step::Fetch { url, link }
    }

    /// Takes the outcome of the current fetch. A document on which the current
    /// pattern pair accepts two references resolves the entity; anything else
    /// moves on to the next position, or ends the search after the last.
    pub fn advance(&mut self, outcome: FetchOutcome) -> (r: Step)
        requires
            old(self).wf(),
            !old(self).finished,
        ensures
            final(self).wf(),
            final(self).key == old(self).key,
            final(self).name == old(self).name,
            final(self).suffixes == old(self).suffixes,
            final(self).pairs == old(self).pairs,
            ({
                let accepted = match outcome {
                    FetchOutcome::Document(doc) => accepted_refs(
                        old(self).pairs@[old(self).pair as int],
                        doc@,
                    ),
                    FetchOutcome::Failed => None,
                };
                let next = next_position(
                    old(self).pair as int,
                    old(self).suffix as int,
                    SUFFIX_COUNT as int,
                );
                if accepted is Some {
                    &&& final(self).finished
                    &&& final(self).pair == old(self).pair
                    &&& final(self).suffix == old(self).suffix
                    &&& match r {
                        Step::Resolved { key, links } => {
                            &&& key@ == old(self).key@
                            &&& links.coa_link@ == emblem_url(accepted->Some_0.0)
                            &&& links.bg_link@ == background_url(accepted->Some_0.1)
                        },
                        _ => false,
                    }
                } else if next.0 < old(self).pairs@.len() {
                    &&& !final(self).finished
                    &&& final(self).pair == next.0
                    &&& final(self).suffix == next.1
                    &&& final(self).fetch_step(r)
                } else {
                    &&& final(self).finished
                    &&& r is Exhausted
                }
            }),
    {
        match outcome {
            FetchOutcome::Document(doc) => {
                let found = extract(&self.pairs[self.pair], doc.as_str());
                match found {
                    Extraction::Found { emblem, background } => {
                        self.finished = true;
                        let links = normalize_links(emblem.as_str(), background.as_str());
                        return Step::Resolved { key: self.key.clone(), links };
                    },
                    _ => {},
                }
            },
            FetchOutcome::Failed => {},
        }
        let pair_count = self.pairs.len();
        if self.suffix + 1 < SUFFIX_COUNT {
            self.suffix = self.suffix + 1;
        } else {
            self.pair = self.pair + 1;
            self.suffix = 0;
        }
        if self.pair < pair_count {
            self.current_step()
        } else {
            self.finished = true;
            Step::Exhausted
        }
    }
}

/// Attempts follow one another in a fixed order: the attempt after number `t`
/// is number `t + 1`, so every suffix of pattern pair `i` is tried before
/// pattern pair `i + 1`, and pairs are taken in the order 0, 1, 2, ...
pub proof fn lemma_attempt_order(t: int, suffix_count: int)
    requires
        0 <= t,
        0 < suffix_count,
    ensures
        ({
            let p = attempt_position(t, suffix_count);
            next_position(p.0, p.1, suffix_count) == attempt_position(t + 1, suffix_count)
        }),
        attempt_position(0, suffix_count) == (0int, 0int),
{
    let q = t / suffix_count;
    let m = t % suffix_count;
    assert(t == q * suffix_count + m && 0 <= m < suffix_count) by (nonlinear_arith)
        requires
            q == t / suffix_count,
            m == t % suffix_count,
            0 < suffix_count,
    ;
    if m + 1 < suffix_count {
        assert((t + 1) / suffix_count == q && (t + 1) % suffix_count == m + 1) by (nonlinear_arith)
            requires
                t == q * suffix_count + m,
                0 <= m,
                m + 1 < suffix_count,
                0 < suffix_count,
        ;
    } else {
        assert((t + 1) / suffix_count == q + 1 && (t + 1) % suffix_count == 0) by (nonlinear_arith)
            requires
                t == q * suffix_count + m,
                m + 1 == suffix_count,
                0 < suffix_count,
        ;
    }
}

/// A pair of references is never accepted when both are the same text.
pub proof fn lemma_accepted_refs_differ(pair: PatternPair, document: Seq<char>)
    ensures
        accepted_refs(pair, document) matches Some(refs) ==> refs.0 != refs.1,
{
}

/// The order for an ambiguous name is exactly the plain order reversed.
pub proof fn lemma_ambiguous_order_reversed(city: City)
    ensures
        suffix_order(city, true) == suffix_order(city, false).reverse(),
{
    assert(suffix_order(city, true) =~= suffix_order(city, false).reverse());
}

/// The entities a pass resolved: the `Some` outcomes, in order.
pub open spec fn resolved_only(outcomes: Seq<Option<(String, Links)>>) -> Seq<(String, Links)>
    decreases outcomes.len(),
{
    if outcomes.len() == 0 {
        Seq::empty()
    } else {
        let before = resolved_only(outcomes.drop_last());
        match outcomes.last() {
            Some(found) => before.push(found),
            None => before,
        }
    }
}

impl Links {
    /// A copy of these links.
    pub fn duplicate(&self) -> (r: Links)
        ensures
            r == *self,
    {
        Links { coa_link: self.coa_link.clone(), bg_link: self.bg_link.clone() }
    }
}

/// Keeps the outcomes of a resolution pass that found both images, in order.
pub fn collect_resolved(outcomes: &Vec<Option<(String, Links)>>) -> (r: Vec<(String, Links)>)
    ensures
        r@ == resolved_only(outcomes@),
{
    let mut out: Vec<(String, Links)> = Vec::new();
    let mut i: usize = 0;
    while i < outcomes.len()
        invariant
            i <= outcomes@.len(),
            out@ == resolved_only(outcomes@.subrange(0, i as int)),
        decreases outcomes@.len() - i,
    {
        assert(outcomes@.subrange(0, i + 1).drop_last() =~= outcomes@.subrange(0, i as int));
        match &outcomes[i] {
            Some(found) => {
                out.push((found.0.clone(), found.1.duplicate()));
            },
            None => {},
        }
        i = i + 1;
    }
    assert(outcomes@.subrange(0, i as int) =~= outcomes@);
    out
}

} // verus!
