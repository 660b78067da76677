//! The compiled placeholder pattern.
//!
//! A pattern is an externally configured regular expression; it is valid
//! when it compiles and holds a capturing group literally named `id`,
//! which extracts the identifier from each placeholder match.

use vstd::prelude::*;
use vstd::string::StringSliceAdditionalSpecFns;

use crate::errors::PatternError;

verus! {

#[verifier::external_type_specification]
#[verifier::external_body]
pub struct ExRegex(regex::bytes::Regex);

#[verifier::external_type_specification]
#[verifier::external_body]
pub struct ExRegexError(regex::Error);

/// Whether the regex engine accepts this pattern text; a function of the
/// text alone.
pub uninterp spec fn regex_compiles(pattern: Seq<char>) -> bool;

/// Relies on `regex::bytes::Regex::new`: it returns `Ok` exactly when the
/// pattern compiles (and fits the default size limit), and what it
/// returns depends on the pattern text alone.
#[verifier::external_body]
fn compile(src: &str) -> (r: Result<regex::bytes::Regex, regex::Error>)
    ensures
        r is Ok <==> regex_compiles(src@),
{
    regex::bytes::Regex::new(src)
}

/// The UTF-8 bytes of the literal `(?P<id>`.
pub open spec fn id_group_marker() -> Seq<u8> {
    seq![40u8, 63u8, 80u8, 60u8, 105u8, 100u8, 62u8]
}

/// Whether the byte string holds the literal `(?P<id>` somewhere.
pub open spec fn has_id_group(b: Seq<u8>) -> bool {
    exists|i: int| 0 <= i && i + 7 <= b.len() && #[trigger] b.subrange(i, i + 7) == id_group_marker()
}

fn is_marker_at(b: &[u8], i: usize) -> (r: bool)
    requires
        i + 7 <= b@.len(),
    ensures
        r == (b@.subrange(i as int, i as int + 7) == id_group_marker()),
{
    let n = b.len();
    let hit = *vstd::slice::slice_index_get(b, i) == 40u8
        && *vstd::slice::slice_index_get(b, i + 1) == 63u8
        && *vstd::slice::slice_index_get(b, i + 2) == 80u8
        && *vstd::slice::slice_index_get(b, i + 3) == 60u8
        && *vstd::slice::slice_index_get(b, i + 4) == 105u8
        && *vstd::slice::slice_index_get(b, i + 5) == 100u8
        && *vstd::slice::slice_index_get(b, i + 6) == 62u8;
    proof {
        if hit {
            assert(b@.subrange(i as int, i as int + 7) =~= id_group_marker());
        } else {
            assert(b@.subrange(i as int, i as int + 7) != id_group_marker()) by {
                if b@.subrange(i as int, i as int + 7) == id_group_marker() {
                    assert(b@.subrange(i as int, i as int + 7)[0] == 40u8);
                    assert(b@.subrange(i as int, i as int + 7)[1] == 63u8);
                    assert(b@.subrange(i as int, i as int + 7)[2] == 80u8);
                    assert(b@.subrange(i as int, i as int + 7)[3] == 60u8);
                    assert(b@.subrange(i as int, i as int + 7)[4] == 105u8);
                    assert(b@.subrange(i as int, i as int + 7)[5] == 100u8);
                    assert(b@.subrange(i as int, i as int + 7)[6] == 62u8);
                }
            }
        }
    }
    hit
}

/// Whether the pattern text holds the literal `(?P<id>`; the same check
/// on the text's UTF-8 bytes, where the all-ASCII marker cannot straddle
/// a character.
pub fn contains_id_group(src: &str) -> (r: bool)
    ensures
        r == has_id_group(src.spec_bytes()),
{
    let b = src.as_bytes();
    proof {
        assert(b@ == src.spec_bytes());
    }
    let n = b.len();
    if n < 7 {
        proof {
            assert(!has_id_group(b@));
        }
        return false;
    }
    for i in 0..n - 6
        invariant
            n == b@.len(),
            b@ == src.spec_bytes(),
            7 <= n,
            forall|j: int| 0 <= j < i ==> #[trigger] b@.subrange(j, j + 7) != id_group_marker(),
    {
        if is_marker_at(b, i) {
            proof {
                assert(src.spec_bytes().subrange(i as int, i as int + 7) == id_group_marker());
                assert(has_id_group(src.spec_bytes()));
            }
            return true;
        }
    }
    proof {
        assert forall|j: int| 0 <= j && j + 7 <= b@.len() implies #[trigger] b@.subrange(j, j + 7)
            != id_group_marker() by {
            assert(j < n - 6);
        }
    }
    false
}

/// A validated pattern: the compiled matcher beside the text it was
/// compiled from, which holds a group named `id`.
pub struct Pattern {
    re: regex::bytes::Regex,
    src: String,
}

impl Pattern {
    /// The pattern text this matcher was compiled from.
    pub closed spec fn source(&self) -> Seq<char> {
        self.src@
    }

    /// Validates and compiles a pattern: refused when it does not
    /// compile, and when it compiles but holds no group named `id`.
    pub fn parse(src: &str) -> (r: Result<Pattern, PatternError>)
        ensures
            match r {
                Ok(p) => regex_compiles(src@) && has_id_group(src.spec_bytes()) && p.source()
                    == src@,
                Err(e) => match e {
                    PatternError::InvalidRegex(_) => !regex_compiles(src@),
                    PatternError::MissingIdGroup => regex_compiles(src@) && !has_id_group(
                        src.spec_bytes(),
                    ),
                },
            },
    {
        let re = match compile(src) {
            Ok(re) => re,
            Err(e) => {
                return Err(PatternError::InvalidRegex(e));
            },
        };
        if !contains_id_group(src) {
            return Err(PatternError::MissingIdGroup);
        }
        Ok(Pattern { re, src: src.to_owned() })
    }

    pub(crate) fn regex(&self) -> &regex::bytes::Regex {
        &self.re
    }
}

} // verus!
