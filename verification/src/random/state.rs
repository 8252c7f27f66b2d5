//! The saved-state text of the random-note ear trainer: a version header
//! line followed by JSON.

use vstd::prelude::*;
use crate::common::text::{first_newline, lemma_first_newline};

verus! {

broadcast use vstd::string::group_string_axioms;

/// The state format version written today.
pub open spec fn current_version() -> Seq<char> {
    "0.1.0"@
}

/// The version a saved state without one is read as.
pub fn default_version() -> (r: String)
    ensures
        r@ == current_version(),
{
    "0.1.0".to_owned()
}

/// The first line of a saved state starts with this text.
pub open spec fn header_prefix() -> Seq<char> {
    "maolan-random-state-v"@
}

/// The JSON part of a saved state's text: what follows the first line when
/// that line starts with the header prefix, else the whole text.
pub open spec fn json_part(text: Seq<char>) -> Seq<char> {
    let nl = first_newline(text);
    if nl >= 0 && text.take(nl).len() >= header_prefix().len() && text.take(nl).take(
        header_prefix().len() as int,
    ) == header_prefix() {
        text.skip(nl + 1)
    } else {
        text
    }
}

/// Drops the version header line from a saved state's text.
pub fn state_json_text(text: &str) -> (r: String)
    ensures
        r@ == json_part(text@),
{
    let chars = crate::common::text::chars_of(text);
    let s = chars.as_slice();
    let mut i: usize = 0;
    proof {
        lemma_first_newline(s@);
    }
    while i < s.len() && s[i] != '\n'
        invariant
            i <= s@.len(),
            forall|k: int| 0 <= k < i ==> s@[k] != '\n',
        decreases s@.len() - i,
    {
        i = i + 1;
    }
    if i == s.len() {
        assert(first_newline(s@) < 0) by {
            if first_newline(s@) >= 0 {
                assert(s@[first_newline(s@)] == '\n');
            }
        }
        return text.to_owned();
    }
    assert(first_newline(s@) == i) by {
        if first_newline(s@) < 0 || first_newline(s@) > i {
            assert(s@[i as int] == '\n');
        }
    }
    let prefix = "maolan-random-state-v";
    let p = crate::common::text::chars_of(prefix);
    let header = &s[0..i];
    assert(header@ =~= s@.take(i as int));
    let starts = if header.len() >= p.len() {
        let hp = &header[0..p.len()];
        assert(hp@ =~= header@.take(p@.len() as int));
        crate::common::text::chars_eq(hp, p.as_slice())
    } else {
        false
    };
    if starts {
        let rest = &s[i + 1..s.len()];
        assert(rest@ =~= s@.skip(i + 1));
        crate::common::text::string_from_chars(rest)
    } else {
        text.to_owned()
    }
}

} // verus!
