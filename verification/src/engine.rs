//! The substitution engine.
//!
//! Given the scanned matches, the credential index and the secret file
//! contents, the engine assembles the output: input spans outside the
//! matches are copied byte for byte; a match whose identifier is indexed
//! is replaced by the resolved secret value; a match whose identifier is
//! unknown is copied unchanged; a match whose secret content is missing
//! aborts the whole substitution.

use vstd::prelude::*;
use vstd::string::StrSliceExecFns;
use vstd::utf8::encode_utf8;

use crate::errors::SubstError;
use crate::index::{CredentialIndex, SecretStore};
use crate::pattern::Pattern;
use crate::scan::{find_matches, matches_of, views_of, wf_matches, MatchSpan, SpecMatch};

verus! {

/// What `str::trim_end` leaves of a text; a function of the characters
/// alone.
pub uninterp spec fn trimmed_of(s: Seq<char>) -> Seq<char>;

/// Relies on `str::trim_end`: it removes trailing whitespace, and its
/// result depends on the characters alone.
#[verifier::external_body]
fn trim_trailing(s: &str) -> (r: &str)
    ensures
        r@ == trimmed_of(s@),
{
    s.trim_end()
}

/// One byte of the escaped text: a newline becomes backslash-n, any
/// other byte stays.
pub open spec fn escape_unit(b: u8) -> Seq<u8> {
    if b == 10u8 {
        seq![92u8, 110u8]
    } else {
        seq![b]
    }
}

/// The text with every newline byte replaced by the two characters
/// backslash-n.
pub open spec fn escape_nl(s: Seq<u8>) -> Seq<u8>
    decreases s.len(),
{
    if s.len() == 0 {
        Seq::empty()
    } else {
        escape_nl(s.drop_last()) + escape_unit(s.last())
    }
}

/// Replaces every newline byte by backslash-n.
pub fn escape_newlines(s: &[u8]) -> (r: Vec<u8>)
    ensures
        r@ == escape_nl(s@),
{
    let n = s.len();
    let mut out: Vec<u8> = Vec::new();
    for i in 0..n
        invariant
            n == s@.len(),
            out@ == escape_nl(s@.take(i as int)),
    {
        proof {
            assert(s@.take(i + 1).drop_last() =~= s@.take(i as int));
            assert(s@.take(i + 1).last() == s@[i as int]);
        }
        let b = *vstd::slice::slice_index_get(s, i);
        if b == 10u8 {
            out.push(92u8);
            out.push(110u8);
        } else {
            out.push(b);
        }
        proof {
            assert(out@ =~= escape_nl(s@.take(i as int)) + escape_unit(s@[i as int]));
        }
    }
    proof {
        assert(s@.take(n as int) =~= s@);
    }
    out
}

/// The bytes a secret's file content contributes to the output: the
/// content with its trailing whitespace removed, newline-escaped when
/// asked.
pub open spec fn resolved_value(content: Seq<char>, escape: bool) -> Seq<u8> {
    if escape {
        escape_nl(encode_utf8(trimmed_of(content)))
    } else {
        encode_utf8(trimmed_of(content))
    }
}

/// Resolves one secret's file content to the bytes spliced in for it.
pub fn resolve_content(content: &str, escape: bool) -> (r: Vec<u8>)
    ensures
        r@ == resolved_value(content@, escape),
{
    let trimmed = trim_trailing(content);
    let bytes = trimmed.as_bytes_vec();
    if escape {
        escape_newlines(bytes.as_slice())
    } else {
        bytes
    }
}

/// Appends `src[from..to]` to `out`.
fn push_range(out: &mut Vec<u8>, src: &[u8], from: usize, to: usize)
    requires
        from <= to <= src@.len(),
    ensures
        final(out)@ == old(out)@ + src@.subrange(from as int, to as int),
{
    let ghost base = out@;
    for k in from..to
        invariant
            from <= k <= to <= src@.len(),
            out@ == base + src@.subrange(from as int, k as int),
    {
        out.push(*vstd::slice::slice_index_get(src, k));
        proof {
            assert(src@.subrange(from as int, k + 1) =~= src@.subrange(from as int, k as int).push(
                src@[k as int],
            ));
            assert(out@ =~= base + src@.subrange(from as int, k + 1));
        }
    }
    proof {
        assert(out@ =~= base + src@.subrange(from as int, to as int));
    }
}

/// Pass-through mode: the whole input copied unchanged, with no scanning
/// and no lookup.
pub fn passthrough(input: &[u8]) -> (r: Vec<u8>)
    ensures
        r@ == input@,
{
    vstd::slice::slice_to_vec(input)
}

/// How one substitution ends: the assembled output, or the failure that
/// aborted it.
pub enum SpliceOutcome {
    Done(Seq<u8>),
    MissingId,
    Unreadable(Seq<u8>),
}

/// Puts a prefix in front of an outcome's output; a failure stays as it
/// is.
pub open spec fn prepend(pre: Seq<u8>, o: SpliceOutcome) -> SpliceOutcome {
    match o {
        SpliceOutcome::Done(t) => SpliceOutcome::Done(pre + t),
        _ => o,
    }
}

proof fn lemma_prepend_assoc(a: Seq<u8>, b: Seq<u8>, o: SpliceOutcome)
    ensures
        prepend(a, prepend(b, o)) == prepend(a + b, o),
{
    match o {
        SpliceOutcome::Done(t) => {
            assert(a + (b + t) =~= (a + b) + t);
        },
        _ => {},
    }
}

/// The outcome of substituting matches `i..` of `ms`, with `pos` the end
/// of the last handled match: the gap since `pos` is copied verbatim; a
/// match without `id` capture aborts; an unindexed identifier keeps the
/// matched text; an indexed one splices the resolved secret value, or
/// aborts when its content is not in the store.
pub open spec fn subst_from(
    text: Seq<u8>,
    ms: Seq<SpecMatch>,
    idx: Map<Seq<u8>, Seq<u8>>,
    store: Map<Seq<u8>, Seq<char>>,
    escape: bool,
    i: int,
    pos: int,
) -> SpliceOutcome
    decreases ms.len() - i,
{
    if i < 0 || i >= ms.len() {
        SpliceOutcome::Done(text.subrange(pos, text.len() as int))
    } else {
        let m = ms[i];
        match m.id {
            None => SpliceOutcome::MissingId,
            Some(name) => {
                let gap = text.subrange(pos, m.start as int);
                if !idx.dom().contains(name) {
                    prepend(
                        gap + text.subrange(m.start as int, m.end as int),
                        subst_from(text, ms, idx, store, escape, i + 1, m.end as int),
                    )
                } else {
                    let path = idx[name];
                    if !store.dom().contains(path) {
                        SpliceOutcome::Unreadable(path)
                    } else {
                        prepend(
                            gap + resolved_value(store[path], escape),
                            subst_from(text, ms, idx, store, escape, i + 1, m.end as int),
                        )
                    }
                }
            },
        }
    }
}

/// The outcome of substituting all of `ms` in `text`.
pub open spec fn subst_spec(
    text: Seq<u8>,
    ms: Seq<SpecMatch>,
    idx: Map<Seq<u8>, Seq<u8>>,
    store: Map<Seq<u8>, Seq<char>>,
    escape: bool,
) -> SpliceOutcome {
    subst_from(text, ms, idx, store, escape, 0, 0)
}

/// The returned value carries exactly this outcome.
pub open spec fn agrees(r: Result<Vec<u8>, SubstError>, o: SpliceOutcome) -> bool {
    match o {
        SpliceOutcome::Done(out) => r matches Ok(v) && v@ == out,
        SpliceOutcome::MissingId => r matches Err(SubstError::MissingIdCapture),
        SpliceOutcome::Unreadable(p) => r matches Err(SubstError::SecretUnreadable(q)) && q@ == p,
    }
}

#[verifier::rlimit(50)]
/// Splices the given matches of `input`, reading identifiers in the
/// index and contents in the store.
pub fn splice(
    input: &[u8],
    ms: &Vec<MatchSpan>,
    index: &CredentialIndex,
    store: &SecretStore,
    escape: bool,
) -> (r: Result<Vec<u8>, SubstError>)
    requires
        wf_matches(views_of(ms@), input@.len() as nat),
    ensures
        agrees(r, subst_spec(input@, views_of(ms@), index@, store@, escape)),
{
    let ghost msv = views_of(ms@);
    let ghost goal = subst_spec(input@, msv, index@, store@, escape);
    let n = ms.len();
    let mut out: Vec<u8> = Vec::new();
    let mut last: usize = 0;
    for i in 0..n
        invariant
            n == ms@.len(),
            msv == views_of(ms@),
            goal == subst_spec(input@, msv, index@, store@, escape),
            wf_matches(msv, input@.len() as nat),
            last <= input@.len(),
            i < n ==> last <= msv[i as int].start,
            goal == prepend(
                out@,
                subst_from(input@, msv, index@, store@, escape, i as int, last as int),
            ),
    {
        proof {
            assert(msv[i as int] == ms@[i as int]@);
        }
        let m = &ms[i];
        let s = m.start;
        let e = m.end;
        let ghost rest = subst_from(input@, msv, index@, store@, escape, i + 1, e as int);
        match &m.id {
            None => {
                return Err(SubstError::MissingIdCapture);
            },
            Some(name) => {
                match index.lookup(name.as_slice()) {
                    None => {
                        let ghost pre = out@;
                        push_range(&mut out, input, last, s);
                        push_range(&mut out, input, s, e);
                        proof {
                            let gap = input@.subrange(last as int, s as int);
                            let matched = input@.subrange(s as int, e as int);
                            assert(out@ =~= pre + (gap + matched));
                            lemma_prepend_assoc(pre, gap + matched, rest);
                        }
                    },
                    Some(path) => {
                        match store.lookup(path.as_slice()) {
                            None => {
                                let p = vstd::slice::slice_to_vec(path.as_slice());
                                return Err(SubstError::SecretUnreadable(p));
                            },
                            Some(content) => {
                                let ghost pre = out@;
                                push_range(&mut out, input, last, s);
                                let mut value = resolve_content(content.as_str(), escape);
                                proof {
                                    let gap = input@.subrange(last as int, s as int);
                                    assert((pre + gap) + value@ =~= pre + (gap + value@));
                                    lemma_prepend_assoc(pre, gap + value@, rest);
                                }
                                out.append(&mut value);
                            },
                        }
                    },
                }
                last = e;
            },
        }
    }
    proof {
        assert(subst_from(input@, msv, index@, store@, escape, n as int, last as int)
            == SpliceOutcome::Done(input@.subrange(last as int, input@.len() as int)));
    }
    push_range(&mut out, input, last, input.len());
    Ok(out)
}

/// Scans the input for the pattern's matches and splices them: the
/// substitution engine's single pass.
pub fn substitute(
    input: &[u8],
    pattern: &Pattern,
    index: &CredentialIndex,
    store: &SecretStore,
    escape: bool,
) -> (r: Result<Vec<u8>, SubstError>)
    ensures
        agrees(r, subst_spec(input@, matches_of(pattern.source(), input@), index@, store@, escape)),
{
    let ms = find_matches(pattern, input);
    splice(input, &ms, index, store, escape)
}

/// The paths of the matched identifiers the index knows, in match order,
/// once per match occurrence; a match without `id` capture contributes
/// nothing here and aborts in the splice.
pub open spec fn needed_paths_of(ms: Seq<SpecMatch>, idx: Map<Seq<u8>, Seq<u8>>) -> Seq<Seq<u8>>
    decreases ms.len(),
{
    if ms.len() == 0 {
        Seq::empty()
    } else {
        let front = needed_paths_of(ms.drop_last(), idx);
        match ms.last().id {
            Some(name) => if idx.dom().contains(name) {
                front.push(idx[name])
            } else {
                front
            },
            None => front,
        }
    }
}

/// The paths whose contents the given matches will ask the store for.
pub fn collect_paths(ms: &Vec<MatchSpan>, index: &CredentialIndex) -> (r: Vec<Vec<u8>>)
    ensures
        r@.map_values(|p: Vec<u8>| p@) == needed_paths_of(views_of(ms@), index@),
{
    let ghost msv = views_of(ms@);
    let n = ms.len();
    let mut out: Vec<Vec<u8>> = Vec::new();
    for i in 0..n
        invariant
            n == ms@.len(),
            msv == views_of(ms@),
            out@.map_values(|p: Vec<u8>| p@) == needed_paths_of(msv.take(i as int), index@),
    {
        proof {
            assert(msv[i as int] == ms@[i as int]@);
            assert(msv.take(i + 1).drop_last() =~= msv.take(i as int));
            assert(msv.take(i + 1).last() == msv[i as int]);
        }
        let m = &ms[i];
        if let Some(name) = &m.id {
            if let Some(path) = index.lookup(name.as_slice()) {
                out.push(vstd::slice::slice_to_vec(path.as_slice()));
            }
        }
        proof {
            assert(out@.map_values(|p: Vec<u8>| p@) =~= needed_paths_of(
                msv.take(i + 1),
                index@,
            ));
        }
    }
    proof {
        assert(msv.take(n as int) =~= msv);
    }
    out
}

/// Scans the input and names the files whose contents the substitution
/// will need: the caller reads them and hands them back as the store.
pub fn needed_paths(input: &[u8], pattern: &Pattern, index: &CredentialIndex) -> (r: Vec<Vec<u8>>)
    ensures
        r@.map_values(|p: Vec<u8>| p@) == needed_paths_of(
            matches_of(pattern.source(), input@),
            index@,
        ),
{
    let ms = find_matches(pattern, input);
    collect_paths(&ms, index)
}

proof fn lemma_concat_subrange(pre: Seq<u8>, t: Seq<u8>, a: int, b: int)
    requires
        0 <= a <= b <= t.len(),
    ensures
        (pre + t).subrange(pre.len() + a, pre.len() + b) == t.subrange(a, b),
{
    assert((pre + t).subrange(pre.len() + a, pre.len() + b) =~= t.subrange(a, b));
}

/// An input in which the pattern finds no match substitutes to itself,
/// byte for byte.
pub proof fn lemma_no_match_identity(
    text: Seq<u8>,
    ms: Seq<SpecMatch>,
    idx: Map<Seq<u8>, Seq<u8>>,
    store: Map<Seq<u8>, Seq<char>>,
    escape: bool,
)
    requires
        ms.len() == 0,
    ensures
        subst_spec(text, ms, idx, store, escape) == SpliceOutcome::Done(text),
{
    assert(text.subrange(0, text.len() as int) =~= text);
}

proof fn lemma_unknown_preserved_from(
    text: Seq<u8>,
    ms: Seq<SpecMatch>,
    idx: Map<Seq<u8>, Seq<u8>>,
    store: Map<Seq<u8>, Seq<char>>,
    escape: bool,
    i: int,
    pos: int,
    k: int,
)
    requires
        wf_matches(ms, text.len() as nat),
        0 <= i <= k < ms.len(),
        0 <= pos <= ms[i].start,
        ms[k].id is Some,
        !idx.dom().contains(ms[k].id->0),
        subst_from(text, ms, idx, store, escape, i, pos) is Done,
    ensures
        ({
            let out = subst_from(text, ms, idx, store, escape, i, pos)->Done_0;
            exists|a: int|
                0 <= a && a + (ms[k].end - ms[k].start) <= out.len() && #[trigger] out.subrange(
                    a,
                    a + (ms[k].end - ms[k].start),
                ) == text.subrange(ms[k].start as int, ms[k].end as int)
        }),
    decreases k - i,
{
    let m = ms[i];
    let out = subst_from(text, ms, idx, store, escape, i, pos)->Done_0;
    let gap = text.subrange(pos, m.start as int);
    let matched = text.subrange(m.start as int, m.end as int);
    let rest = subst_from(text, ms, idx, store, escape, i + 1, m.end as int);
    let t = rest->Done_0;
    let mlen = ms[k].end - ms[k].start;
    let target = text.subrange(ms[k].start as int, ms[k].end as int);
    if i == k {
        assert(rest is Done);
        assert(out == (gap + matched) + t);
        assert(out =~= gap + (matched + t));
        lemma_concat_subrange(gap, matched + t, 0, mlen);
        assert((matched + t).subrange(0, mlen) =~= matched);
        assert(out.subrange(gap.len() as int, gap.len() + mlen) == target);
        assert(0 <= gap.len() && gap.len() + mlen <= out.len());
    } else {
        assert(rest is Done);
        let pre = if !idx.dom().contains(m.id->0) {
            gap + matched
        } else {
            gap + resolved_value(store[idx[m.id->0]], escape)
        };
        assert(out == pre + t);
        lemma_unknown_preserved_from(text, ms, idx, store, escape, i + 1, m.end as int, k);
        let a = choose|a: int|
            0 <= a && a + mlen <= t.len() && #[trigger] t.subrange(a, a + mlen) == target;
        lemma_concat_subrange(pre, t, a, a + mlen);
        assert(out.subrange(pre.len() + a, pre.len() + a + mlen) == target);
    }
}

/// For a match whose identifier the index does not know, the matched
/// text itself stands unchanged somewhere in the assembled output.
pub proof fn lemma_unknown_identifier_preserved(
    text: Seq<u8>,
    ms: Seq<SpecMatch>,
    idx: Map<Seq<u8>, Seq<u8>>,
    store: Map<Seq<u8>, Seq<char>>,
    escape: bool,
    k: int,
)
    requires
        wf_matches(ms, text.len() as nat),
        0 <= k < ms.len(),
        ms[k].id is Some,
        !idx.dom().contains(ms[k].id->0),
        subst_spec(text, ms, idx, store, escape) is Done,
    ensures
        ({
            let out = subst_spec(text, ms, idx, store, escape)->Done_0;
            exists|a: int|
                0 <= a && a + (ms[k].end - ms[k].start) <= out.len() && #[trigger] out.subrange(
                    a,
                    a + (ms[k].end - ms[k].start),
                ) == text.subrange(ms[k].start as int, ms[k].end as int)
        }),
{
    lemma_unknown_preserved_from(text, ms, idx, store, escape, 0, 0, k);
}

/// Two placeholders for two known, readable identifiers are both
/// resolved in one pass, and the literal text before, between and after
/// them is kept exactly.
pub proof fn lemma_two_matches_spliced(
    text: Seq<u8>,
    ms: Seq<SpecMatch>,
    idx: Map<Seq<u8>, Seq<u8>>,
    store: Map<Seq<u8>, Seq<char>>,
    escape: bool,
)
    requires
        wf_matches(ms, text.len() as nat),
        ms.len() == 2,
        ms[0].id is Some,
        ms[1].id is Some,
        idx.dom().contains(ms[0].id->0),
        idx.dom().contains(ms[1].id->0),
        store.dom().contains(idx[ms[0].id->0]),
        store.dom().contains(idx[ms[1].id->0]),
    ensures
        subst_spec(text, ms, idx, store, escape) == SpliceOutcome::Done(
            text.subrange(0, ms[0].start as int) + resolved_value(store[idx[ms[0].id->0]], escape)
                + text.subrange(ms[0].end as int, ms[1].start as int) + resolved_value(
                store[idx[ms[1].id->0]],
                escape,
            ) + text.subrange(ms[1].end as int, text.len() as int),
        ),
{
    let g0 = text.subrange(0, ms[0].start as int);
    let v0 = resolved_value(store[idx[ms[0].id->0]], escape);
    let g1 = text.subrange(ms[0].end as int, ms[1].start as int);
    let v1 = resolved_value(store[idx[ms[1].id->0]], escape);
    let tail = text.subrange(ms[1].end as int, text.len() as int);
    assert(subst_from(text, ms, idx, store, escape, 2, ms[1].end as int) == SpliceOutcome::Done(
        tail,
    ));
    assert(subst_from(text, ms, idx, store, escape, 1, ms[0].end as int) == SpliceOutcome::Done(
        (g1 + v1) + tail,
    ));
    assert(subst_spec(text, ms, idx, store, escape) == SpliceOutcome::Done(
        (g0 + v0) + ((g1 + v1) + tail),
    ));
    assert((g0 + v0) + ((g1 + v1) + tail) =~= g0 + v0 + g1 + v1 + tail);
}

} // verus!
