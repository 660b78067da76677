//! Scanning a text for placeholder matches.
//!
//! A match is a byte span of the input together with the text its `id`
//! capture took, when the group participated. The scan itself is the
//! regex engine's; its result is named by `matches_of` and everything
//! after the scan is verified against that name.

use vstd::prelude::*;

use crate::pattern::Pattern;

verus! {

/// What the engine keeps of one match: the full match's byte range in
/// the input, and the `id` capture's text, when that group participated.
pub struct MatchSpan {
    pub start: usize,
    pub end: usize,
    pub id: Option<Vec<u8>>,
}

/// A match as the specifications see it.
pub struct SpecMatch {
    pub start: nat,
    pub end: nat,
    pub id: Option<Seq<u8>>,
}

impl View for MatchSpan {
    type V = SpecMatch;

    open spec fn view(&self) -> SpecMatch {
        SpecMatch {
            start: self.start as nat,
            end: self.end as nat,
            id: match self.id {
                Some(v) => Some(v@),
                None => None,
            },
        }
    }
}

/// The views of a sequence of match spans.
pub open spec fn views_of(ms: Seq<MatchSpan>) -> Seq<SpecMatch> {
    ms.map_values(|m: MatchSpan| m@)
}

/// Spans lie inside a text of `n` bytes, in order and non-overlapping.
pub open spec fn wf_matches(ms: Seq<SpecMatch>, n: nat) -> bool {
    &&& forall|i: int| 0 <= i < ms.len() ==> (#[trigger] ms[i]).start <= ms[i].end <= n
    &&& forall|i: int| 0 <= i && i + 1 < ms.len() ==> (#[trigger] ms[i]).end <= ms[i + 1].start
}

/// The matches that the configured pattern finds in the text, leftmost
/// first and non-overlapping; a function of pattern text and input alone.
pub uninterp spec fn matches_of(pattern: Seq<char>, text: Seq<u8>) -> Seq<SpecMatch>;

/// Relies on `regex::bytes::Regex::captures_iter`: it yields successive
/// non-overlapping matches in order; a match's `start()` and `end()` are
/// byte offsets into the haystack with `start() <= end()`; group 0 (the
/// whole match) always participates; `name("id")` is the named group's
/// span when it participated. What comes back depends on the compiled
/// pattern and the haystack alone.
#[verifier::external_body]
pub(crate) fn find_matches(pattern: &Pattern, text: &[u8]) -> (r: Vec<MatchSpan>)
    ensures
        views_of(r@) == matches_of(pattern.source(), text@),
        wf_matches(views_of(r@), text@.len() as nat),
{
    pattern
        .regex()
        .captures_iter(text)
        .map(|caps| {
            let whole = caps.get(0).unwrap();
            MatchSpan {
                start: whole.start(),
                end: whole.end(),
                id: caps.name("id").map(|g| g.as_bytes().to_vec()),
            }
        })
        .collect()
}

} // verus!
