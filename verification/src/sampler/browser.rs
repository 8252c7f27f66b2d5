//! The sample browser's listing of a directory: the way up first, then the
//! directories, then the audio files, each group ordered by name with ASCII
//! letters taken without case.

use vstd::prelude::*;
use crate::common::text::{ascii_lower, chars_of, to_ascii_lower};

verus! {

broadcast use vstd::string::group_string_axioms;

/// One line of the browser: a name, the path it opens, and whether it is a
/// directory. Paths are held as text.
pub struct BrowserEntry {
    pub name: String,
    pub path: String,
    pub is_dir: bool,
}

/// The name an entry is ordered by: its name with ASCII letters lower-cased.
pub open spec fn sort_key(e: BrowserEntry) -> Seq<char> {
    e.name@.map_values(|c: char| ascii_lower(c))
}

/// Whether `a` comes before `b` from position `i` on: the first differing
/// character decides, and a proper prefix comes first.
pub open spec fn key_lt_from(a: Seq<char>, b: Seq<char>, i: int) -> bool
    decreases a.len() - i,
{
    if i < 0 || i >= a.len() {
        0 <= i < b.len()
    } else if i >= b.len() {
        false
    } else if a[i] != b[i] {
        a[i] < b[i]
    } else {
        key_lt_from(a, b, i + 1)
    }
}

/// Whether name `a` sorts before name `b`, character by character, as
/// strings compare.
pub open spec fn key_lt(a: Seq<char>, b: Seq<char>) -> bool {
    key_lt_from(a, b, 0)
}

/// `s` with `x` placed after the last entry whose key is not after that of
/// `x`, searching from the end.
pub open spec fn insert_by_name(s: Seq<BrowserEntry>, x: BrowserEntry) -> Seq<BrowserEntry>
    decreases s.len(),
{
    if s.len() == 0 {
        seq![x]
    } else if key_lt(sort_key(x), sort_key(s.last())) {
        insert_by_name(s.drop_last(), x).push(s.last())
    } else {
        s.push(x)
    }
}

/// The entries ordered by key, entries with equal keys keeping their order.
pub open spec fn sort_by_name(s: Seq<BrowserEntry>) -> Seq<BrowserEntry>
    decreases s.len(),
{
    if s.len() == 0 {
        Seq::empty()
    } else {
        insert_by_name(sort_by_name(s.drop_last()), s.last())
    }
}

/// The directories among listed entries, in order.
pub open spec fn dir_entries(s: Seq<(BrowserEntry, bool)>) -> Seq<BrowserEntry>
    decreases s.len(),
{
    if s.len() == 0 {
        Seq::empty()
    } else if s.last().0.is_dir {
        dir_entries(s.drop_last()).push(s.last().0)
    } else {
        dir_entries(s.drop_last())
    }
}

/// The audio files among listed entries (those that are not directories and
/// are marked as audio), in order.
pub open spec fn audio_entries(s: Seq<(BrowserEntry, bool)>) -> Seq<BrowserEntry>
    decreases s.len(),
{
    if s.len() == 0 {
        Seq::empty()
    } else if !s.last().0.is_dir && s.last().1 {
        audio_entries(s.drop_last()).push(s.last().0)
    } else {
        audio_entries(s.drop_last())
    }
}

/// The listing: the way up, the sorted directories, the sorted audio files.
pub open spec fn listing(up: BrowserEntry, entries: Seq<(BrowserEntry, bool)>) -> Seq<BrowserEntry> {
    seq![up] + sort_by_name(dir_entries(entries)) + sort_by_name(audio_entries(entries))
}

fn lower_key(s: &str) -> (r: Vec<char>)
    ensures
        r@ == s@.map_values(|c: char| ascii_lower(c)),
{
    let chars = chars_of(s);
    let mut out: Vec<char> = Vec::new();
    let mut i: usize = 0;
    while i < chars.len()
        invariant
            i <= chars@.len(),
            chars@ == s@,
            out@ == chars@.take(i as int).map_values(|c: char| ascii_lower(c)),
        decreases chars@.len() - i,
    {
        out.push(to_ascii_lower(chars[i]));
        i = i + 1;
        assert(out@ =~= chars@.take(i as int).map_values(|c: char| ascii_lower(c)));
    }
    assert(chars@.take(chars@.len() as int) =~= chars@);
    out
}

fn key_less(a: &[char], b: &[char]) -> (r: bool)
    ensures
        r == key_lt(a@, b@),
{
    let mut i: usize = 0;
    while i < a.len() && i < b.len()
        invariant
            i <= a@.len(),
            i <= b@.len(),
            key_lt(a@, b@) == key_lt_from(a@, b@, i as int),
        decreases a@.len() - i,
    {
        if a[i] != b[i] {
            return a[i] < b[i];
        }
        i = i + 1;
    }
    i == a.len() && i < b.len()
}

fn name_less(a: &BrowserEntry, b: &BrowserEntry) -> (r: bool)
    ensures
        r == key_lt(sort_key(*a), sort_key(*b)),
{
    let ka = lower_key(a.name.as_str());
    let kb = lower_key(b.name.as_str());
    key_less(ka.as_slice(), kb.as_slice())
}

proof fn lemma_insert_by_name_at(s: Seq<BrowserEntry>, x: BrowserEntry, pos: int)
    requires
        0 <= pos <= s.len(),
        forall|j: int| pos <= j < s.len() ==> key_lt(sort_key(x), sort_key(#[trigger] s[j])),
        pos == 0 || !key_lt(sort_key(x), sort_key(s[pos - 1])),
    ensures
        insert_by_name(s, x) == s.take(pos) + seq![x] + s.skip(pos),
    decreases s.len(),
{
    if s.len() == 0 {
        assert(s.take(pos) + seq![x] + s.skip(pos) =~= seq![x]);
    } else if !key_lt(sort_key(x), sort_key(s.last())) {
        if pos < s.len() {
            assert(key_lt(sort_key(x), sort_key(s[s.len() - 1])));
        }
        assert(pos == s.len());
        assert(s.take(pos) + seq![x] + s.skip(pos) =~= s.push(x));
    } else {
        assert(pos < s.len());
        let d = s.drop_last();
        assert forall|j: int| pos <= j < d.len() implies key_lt(sort_key(x), sort_key(#[trigger] d[j])) by {
            assert(d[j] == s[j]);
        }
        lemma_insert_by_name_at(d, x, pos);
        assert(d.take(pos) =~= s.take(pos));
        assert((d.take(pos) + seq![x] + d.skip(pos)).push(s.last()) =~= s.take(pos) + seq![x] + s.skip(pos));
    }
}

/// Places an entry among entries sorted by name, after those whose name
/// does not sort after it.
fn insert_entry(out: &mut Vec<BrowserEntry>, x: BrowserEntry)
    ensures
        final(out)@ == insert_by_name(old(out)@, x),
{
    let mut pos = out.len();
    while pos > 0 && name_less(&x, &out[pos - 1])
        invariant
            pos <= out@.len(),
            out@ == old(out)@,
            forall|j: int| pos <= j < out@.len() ==> key_lt(sort_key(x), sort_key(#[trigger] out@[j])),
        decreases pos,
    {
        pos = pos - 1;
    }
    proof {
        lemma_insert_by_name_at(out@, x, pos as int);
    }
    let ghost before = out@;
    out.insert(pos, x);
    assert(out@ =~= before.take(pos as int) + seq![x] + before.skip(pos as int));
}

/// Lists a directory for the browser: `up` (the way to the parent) first,
/// then the directories among `entries` and then the entries marked as
/// audio files that are not directories, both ordered by name without
/// regard to ASCII case, equal names keeping their order.
pub fn browser_listing(up: BrowserEntry, entries: Vec<(BrowserEntry, bool)>) -> (r: Vec<BrowserEntry>)
    ensures
        r@ == listing(up, entries@),
{
    let ghost all = entries@;
    let mut rest = entries;
    let total = rest.len();
    let mut dirs: Vec<BrowserEntry> = Vec::new();
    let mut files: Vec<BrowserEntry> = Vec::new();
    let mut k: usize = 0;
    while rest.len() > 0
        invariant
            k + rest@.len() == all.len() == total,
            rest@ == all.skip(k as int),
            dirs@ == sort_by_name(dir_entries(all.take(k as int))),
            files@ == sort_by_name(audio_entries(all.take(k as int))),
        decreases rest@.len(),
    {
        let ghost rest_before = rest@;
        let (e, audio) = rest.remove(0);
        assert(all[k as int] == (e, audio)) by {
            assert(rest_before[0] == all.skip(k as int)[0]);
        }
        let ghost t = all.take(k + 1);
        let ghost prev = all.take(k as int);
        assert(t.drop_last() =~= prev);
        assert(t.last() == (e, audio));
        if e.is_dir {
            let ghost ds = dir_entries(t);
            assert(ds.drop_last() =~= dir_entries(prev));
            assert(audio_entries(t) == audio_entries(prev));
            insert_entry(&mut dirs, e);
        } else if audio {
            let ghost fs = audio_entries(t);
            assert(fs.drop_last() =~= audio_entries(prev));
            assert(dir_entries(t) == dir_entries(prev));
            insert_entry(&mut files, e);
        } else {
            assert(dir_entries(t) == dir_entries(prev));
            assert(audio_entries(t) == audio_entries(prev));
        }
        assert(rest@ =~= all.skip(k + 1));
        k = k + 1;
    }
    assert(all.take(k as int) =~= all);
    let mut out: Vec<BrowserEntry> = Vec::new();
    out.push(up);
    out.append(&mut dirs);
    out.append(&mut files);
    out
}

/// Whether no entry sorts before the one ahead of it.
pub open spec fn in_name_order(s: Seq<BrowserEntry>) -> bool {
    forall|i: int| 1 <= i < s.len() ==> !key_lt(sort_key(#[trigger] s[i]), sort_key(s[i - 1]))
}

proof fn lemma_key_lt_asymmetric(a: Seq<char>, b: Seq<char>, i: int)
    requires
        0 <= i,
        key_lt_from(a, b, i),
    ensures
        !key_lt_from(b, a, i),
    decreases a.len() - i,
{
    if i < a.len() && i < b.len() && a[i] == b[i] {
        lemma_key_lt_asymmetric(a, b, i + 1);
    }
}

proof fn lemma_insert_keeps_order(s: Seq<BrowserEntry>, x: BrowserEntry)
    requires
        in_name_order(s),
    ensures
        in_name_order(insert_by_name(s, x)),
        insert_by_name(s, x).len() == s.len() + 1,
        insert_by_name(s, x).last() == x || (s.len() > 0 && insert_by_name(s, x).last() == s.last()),
    decreases s.len(),
{
    if s.len() > 0 {
        let d = s.drop_last();
        if key_lt(sort_key(x), sort_key(s.last())) {
            assert(in_name_order(d)) by {
                assert forall|i: int| 1 <= i < d.len() implies !key_lt(sort_key(#[trigger] d[i]), sort_key(d[i - 1])) by {
                    assert(d[i] == s[i] && d[i - 1] == s[i - 1]);
                }
            }
            lemma_insert_keeps_order(d, x);
            let r = insert_by_name(d, x);
            let full = r.push(s.last());
            assert(full == insert_by_name(s, x));
            assert forall|i: int| 1 <= i < full.len() implies !key_lt(sort_key(#[trigger] full[i]), sort_key(full[i - 1])) by {
                if i < r.len() {
                    assert(full[i] == r[i] && full[i - 1] == r[i - 1]);
                } else {
                    assert(full[i - 1] == r.last());
                    assert(full[i] == s.last());
                    if r.last() == x {
                        lemma_key_lt_asymmetric(sort_key(x), sort_key(s.last()), 0);
                    } else {
                        assert(r.last() == d.last());
                        assert(d.last() == s[s.len() - 2]);
                        assert(s.last() == s[s.len() - 1]);
                    }
                }
            }
        } else {
            let full = s.push(x);
            assert forall|i: int| 1 <= i < full.len() implies !key_lt(sort_key(#[trigger] full[i]), sort_key(full[i - 1])) by {
                if i < s.len() {
                    assert(full[i] == s[i] && full[i - 1] == s[i - 1]);
                } else {
                    assert(full[i - 1] == s.last());
                    assert(full[i] == x);
                }
            }
        }
    }
}

/// Sorting by name puts the entries in name order, one more than before
/// for each entry placed.
pub proof fn law_sort_by_name_orders(s: Seq<BrowserEntry>)
    ensures
        in_name_order(sort_by_name(s)),
        sort_by_name(s).len() == s.len(),
    decreases s.len(),
{
    if s.len() > 0 {
        law_sort_by_name_orders(s.drop_last());
        lemma_insert_keeps_order(sort_by_name(s.drop_last()), s.last());
    }
}

} // verus!
