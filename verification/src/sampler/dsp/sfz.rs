//! SFZ instrument text: comment stripping, the preprocessor helpers, the
//! tokenizer and the opcode tables.

use vstd::prelude::*;
use crate::common::filter::FilterType;
use crate::sampler::dsp::zone::{CurveType, LoopDirection, LoopMode, SamplePlayMode};
use crate::common::text::{
    chars_eq, chars_eq_str, is_alnum, is_ascii_alnum, trim, trim_chars, ascii_lower, chars_of, decimal_i32, is_alpha, is_ascii_alpha, is_whitespace, is_ws, parse_i32,
    string_from_chars, to_ascii_lower, to_lowercase, unicode_lower,
};

verus! {

broadcast use vstd::string::group_string_axioms;

// ---------------------------------------------------------------------------
// Note names
// ---------------------------------------------------------------------------

/// Semitone of a lower-case note letter above C.
pub open spec fn letter_semitone(l: char) -> int {
    if l == 'c' { 0 } else if l == 'd' { 2 } else if l == 'e' { 4 } else if l == 'f' { 5 }
    else if l == 'g' { 7 } else if l == 'a' { 9 } else { 11 }
}

pub open spec fn is_note_letter(l: char) -> bool {
    l == 'a' || l == 'b' || l == 'c' || l == 'd' || l == 'e' || l == 'f' || l == 'g'
}

/// The accidental of a note name (`#` or `s` sharp; `b` or `f` flat when an
/// octave follows it) and the octave text after it.
pub open spec fn note_accidental(rest: Seq<char>) -> (int, Seq<char>) {
    if rest.len() > 0 && (rest[0] == '#' || rest[0] == 's') {
        (1, rest.drop_first())
    } else if rest.len() > 1 && (rest[0] == 'b' || rest[0] == 'f') {
        (-1, rest.drop_first())
    } else {
        (0, rest)
    }
}

/// The parts of a well-formed note name: lower-cased letter, accidental and
/// octave.
pub open spec fn note_parts(s: Seq<char>) -> Option<(char, int, int)> {
    if s.len() == 0 || !is_ascii_alpha(s[0]) || !is_note_letter(ascii_lower(s[0])) {
        None
    } else {
        let (acc, oct) = note_accidental(s.drop_first());
        match decimal_i32(oct) {
            Some(o) => Some((ascii_lower(s[0]), acc, o as int)),
            None => None,
        }
    }
}

pub open spec fn fits_i32(v: int) -> bool {
    i32::MIN <= v <= i32::MAX
}

/// The note arithmetic `(octave + 1) * 12 + semitone + accidental` stays in
/// `i32` at every step.
pub open spec fn note_arith_fits(s: Seq<char>) -> bool {
    match note_parts(s) {
        Some((l, acc, o)) => fits_i32(o + 1) && fits_i32((o + 1) * 12) && fits_i32(
            (o + 1) * 12 + letter_semitone(l),
        ) && fits_i32((o + 1) * 12 + letter_semitone(l) + acc),
        None => true,
    }
}

/// The MIDI note of a scientific pitch name such as `c4` (60), `Db5` or
/// `F#3`, when it is within 0 to 127.
pub open spec fn note_name_value(s: Seq<char>) -> Option<u8> {
    match note_parts(s) {
        Some((l, acc, o)) => {
            let note = (o + 1) * 12 + letter_semitone(l) + acc;
            if 0 <= note <= 127 { Some(note as u8) } else { None }
        },
        None => None,
    }
}

/// Converts an SFZ note name to a MIDI note number (C4 is 60).
pub fn parse_note_name(value: &str) -> (r: Option<u8>)
    requires
        note_arith_fits(value@),
    ensures
        r == note_name_value(value@),
{
    let chars = chars_of(value);
    let s = chars.as_slice();
    if s.len() == 0 {
        return None;
    }
    let first = s[0];
    if !is_alpha(first) {
        return None;
    }
    let letter = to_ascii_lower(first);
    if !(letter == 'a' || letter == 'b' || letter == 'c' || letter == 'd' || letter == 'e'
        || letter == 'f' || letter == 'g') {
        return None;
    }
    let ghost rest = s@.drop_first();
    let mut accidental: i32 = 0;
    let mut from: usize = 1;
    if s.len() > 1 && (s[1] == '#' || s[1] == 's') {
        accidental = 1;
        from = 2;
    } else if s.len() > 2 && (s[1] == 'b' || s[1] == 'f') {
        accidental = -1;
        from = 2;
    }
    let octave_chars = &s[from..s.len()];
    assert(octave_chars@ =~= note_accidental(rest).1);
    let octave = match parse_i32(octave_chars) {
        Some(o) => o,
        None => return None,
    };
    let base: i32 = if letter == 'c' { 0 } else if letter == 'd' { 2 } else if letter == 'e' { 4 }
        else if letter == 'f' { 5 } else if letter == 'g' { 7 } else if letter == 'a' { 9 } else { 11 };
    let note = (octave + 1) * 12 + base + accidental;
    if 0 <= note && note <= 127 {
        Some(note as u8)
    } else {
        None
    }
}

/// Whether the note arithmetic of a name stays within `i32` (names that are
/// not note names always do).
pub fn note_name_fits(value: &str) -> (r: bool)
    ensures
        r == note_arith_fits(value@),
{
    let chars = chars_of(value);
    let s = chars.as_slice();
    if s.len() == 0 {
        return true;
    }
    let first = s[0];
    if !is_alpha(first) {
        return true;
    }
    let letter = to_ascii_lower(first);
    if !(letter == 'a' || letter == 'b' || letter == 'c' || letter == 'd' || letter == 'e'
        || letter == 'f' || letter == 'g') {
        return true;
    }
    let ghost rest = s@.drop_first();
    let mut accidental: i64 = 0;
    let mut from: usize = 1;
    if s.len() > 1 && (s[1] == '#' || s[1] == 's') {
        accidental = 1;
        from = 2;
    } else if s.len() > 2 && (s[1] == 'b' || s[1] == 'f') {
        accidental = -1;
        from = 2;
    }
    let octave_chars = &s[from..s.len()];
    assert(octave_chars@ =~= note_accidental(rest).1);
    let octave = match parse_i32(octave_chars) {
        Some(o) => o as i64,
        None => return true,
    };
    let base: i64 = if letter == 'c' { 0 } else if letter == 'd' { 2 } else if letter == 'e' { 4 }
        else if letter == 'f' { 5 } else if letter == 'g' { 7 } else if letter == 'a' { 9 } else { 11 };
    let min: i64 = -2147483648;
    let max: i64 = 2147483647;
    let a = octave + 1;
    let b = a * 12;
    let c = b + base;
    let d = c + accidental;
    min <= a && a <= max && min <= b && b <= max && min <= c && c <= max && min <= d && d <= max
}

// ---------------------------------------------------------------------------
// Preprocessor
// ---------------------------------------------------------------------------

/// The macros of `entries`, a later definition of a name replacing an
/// earlier one.
pub open spec fn defs_map(entries: Seq<(Vec<char>, Vec<char>)>) -> Map<Seq<char>, Seq<char>>
    decreases entries.len(),
{
    if entries.len() == 0 {
        Map::empty()
    } else {
        defs_map(entries.drop_last()).insert(entries.last().0@, entries.last().1@)
    }
}

proof fn lemma_defs_map_skip(entries: Seq<(Vec<char>, Vec<char>)>, i: int, k: Seq<char>)
    requires
        0 <= i <= entries.len(),
        forall|j: int| i <= j < entries.len() ==> entries[j].0@ != k,
    ensures
        defs_map(entries).contains_key(k) == defs_map(entries.take(i)).contains_key(k),
        defs_map(entries).contains_key(k) ==> defs_map(entries)[k] == defs_map(entries.take(i))[k],
    decreases entries.len() - i,
{
    if i < entries.len() {
        let shorter = entries.drop_last();
        lemma_defs_map_skip(shorter, i, k);
        assert(shorter.take(i) =~= entries.take(i));
    } else {
        assert(entries.take(i) =~= entries);
    }
}

/// `#define` macros such as `$VAR`: whole names are replaced by their values.
///
/// The macros are kept as name/value pairs in definition order, a later
/// definition of a name overriding an earlier one, so that the contracts can
/// state the table's contents as a map (a `String`-keyed `HashMap` offers no
/// such statement).
pub struct DefineTable {
    pub defs: Vec<(Vec<char>, Vec<char>)>,
}

impl View for DefineTable {
    type V = Map<Seq<char>, Seq<char>>;

    open spec fn view(&self) -> Map<Seq<char>, Seq<char>> {
        defs_map(self.defs@)
    }
}

/// Index of the end of an identifier continuing at `j`: the first character
/// that is neither an ASCII letter, digit nor `_`.
pub open spec fn ident_end(s: Seq<char>, j: int) -> int
    decreases s.len() - j,
{
    if j < 0 || j >= s.len() || !(is_ascii_alnum(s[j]) || s[j] == '_') {
        j
    } else {
        ident_end(s, j + 1)
    }
}

pub proof fn lemma_ident_end_bounds(s: Seq<char>, j: int)
    requires
        0 <= j <= s.len(),
    ensures
        j <= ident_end(s, j) <= s.len(),
    decreases s.len() - j,
{
    if j < s.len() && (is_ascii_alnum(s[j]) || s[j] == '_') {
        lemma_ident_end_bounds(s, j + 1);
    }
}

/// Macro substitution over `s` from `i` on, after the output `acc`: a name
/// (an ASCII letter, `_` or the `$` that starts a `$VAR` macro, then
/// letters, digits or `_`) that is defined is replaced by its value;
/// everything else is copied.
pub open spec fn substitute_from(
    s: Seq<char>,
    i: int,
    defs: Map<Seq<char>, Seq<char>>,
    acc: Seq<char>,
) -> Seq<char>
    decreases s.len() - i,
{
    if i < 0 || i >= s.len() {
        acc
    } else if is_ascii_alpha(s[i]) || s[i] == '_' || s[i] == '$' {
        proof {
            lemma_ident_end_bounds(s, i + 1);
        }
        let j = ident_end(s, i + 1);
        let ident = s.subrange(i, j);
        substitute_from(
            s,
            j,
            defs,
            acc + if defs.contains_key(ident) { defs[ident] } else { ident },
        )
    } else {
        substitute_from(s, i + 1, defs, acc.push(s[i]))
    }
}

proof fn lemma_substitute_nothing(s: Seq<char>, i: int, acc: Seq<char>)
    requires
        0 <= i <= s.len(),
    ensures
        substitute_from(s, i, Map::empty(), acc) == acc + s.skip(i),
    decreases s.len() - i,
{
    if i < s.len() {
        if is_ascii_alpha(s[i]) || s[i] == '_' || s[i] == '$' {
            lemma_ident_end_bounds(s, i + 1);
            let j = ident_end(s, i + 1);
            lemma_substitute_nothing(s, j, acc + s.subrange(i, j));
            assert(acc + s.subrange(i, j) + s.skip(j) =~= acc + s.skip(i));
        } else {
            lemma_substitute_nothing(s, i + 1, acc.push(s[i]));
            assert(acc.push(s[i]) + s.skip(i + 1) =~= acc + s.skip(i));
        }
    } else {
        assert(acc + s.skip(i) =~= acc);
    }
}

/// With no macro defined, substitution leaves a line unchanged.
pub proof fn law_apply_without_defines(line: Seq<char>)
    ensures
        substitute_from(line, 0, Map::empty(), Seq::empty()) == line,
{
    lemma_substitute_nothing(line, 0, Seq::empty());
    assert(Seq::<char>::empty() + line.skip(0) =~= line);
}

impl DefineTable {
    pub fn new() -> (r: Self)
        ensures
            r@ == Map::<Seq<char>, Seq<char>>::empty(),
    {
        DefineTable { defs: Vec::new() }
    }

    pub fn define(&mut self, name: String, value: String)
        ensures
            final(self)@ == old(self)@.insert(name@, value@),
    {
        let n = chars_of(name.as_str());
        let v = chars_of(value.as_str());
        let ghost old_defs = self.defs@;
        self.defs.push((n, v));
        assert(self.defs@.drop_last() =~= old_defs);
    }

    /// The value of a macro name.
    fn lookup(&self, name: &[char]) -> (r: Option<&Vec<char>>)
        ensures
            r is Some <==> self@.contains_key(name@),
            r is Some ==> r->Some_0@ == self@[name@],
    {
        let mut i = self.defs.len();
        while i > 0
            invariant
                i <= self.defs@.len(),
                forall|j: int| i <= j < self.defs@.len() ==> self.defs@[j].0@ != name@,
            decreases i,
        {
            if crate::common::text::chars_eq(self.defs[i - 1].0.as_slice(), name) {
                proof {
                    lemma_defs_map_skip(self.defs@, i as int, name@);
                    let t = self.defs@.take(i as int);
                    assert(t.drop_last() =~= self.defs@.take(i - 1));
                    assert(t.last() == self.defs@[i - 1]);
                }
                return Some(&self.defs[i - 1].1);
            }
            i = i - 1;
        }
        proof {
            lemma_defs_map_skip(self.defs@, 0, name@);
            assert(self.defs@.take(0) =~= Seq::<(Vec<char>, Vec<char>)>::empty());
        }
        None
    }

    pub fn is_defined(&self, name: &str) -> (r: bool)
        ensures
            r == self@.contains_key(name@),
    {
        let n = chars_of(name);
        self.lookup(n.as_slice()).is_some()
    }

    /// Replaces every whole identifier of `line` that names a macro by the
    /// macro's value.
    pub fn apply(&self, line: &str) -> (r: String)
        ensures
            r@ == substitute_from(line@, 0, self@, Seq::empty()),
    {
        let chars = chars_of(line);
        let s = chars.as_slice();
        let n = s.len();
        let mut out: Vec<char> = Vec::new();
        let mut i: usize = 0;
        while i < n
            invariant
                n == s@.len(),
                s@ == line@,
                i <= n,
                substitute_from(line@, 0, self@, Seq::empty()) == substitute_from(s@, i as int, self@, out@),
            decreases n - i,
        {
            let c = s[i];
            if is_alpha(c) || c == '_' || c == '$' {
                let start = i;
                i = i + 1;
                proof { lemma_ident_end_bounds(s@, i as int); }
                while i < n && (is_alnum(s[i]) || s[i] == '_')
                    invariant
                        n == s@.len(),
                        start + 1 <= i <= n,
                        ident_end(s@, start + 1) == ident_end(s@, i as int),
                    decreases n - i,
                {
                    i = i + 1;
                }
                let ident = &s[start..i];
                let ghost out0 = out@;
                match self.lookup(ident) {
                    Some(value) => {
                        let mut k: usize = 0;
                        while k < value.len()
                            invariant
                                k <= value@.len(),
                                out@ == out0 + value@.take(k as int),
                            decreases value@.len() - k,
                        {
                            out.push(value[k]);
                            k = k + 1;
                            assert(out@ =~= out0 + value@.take(k as int));
                        }
                        assert(value@.take(value@.len() as int) =~= value@);
                    },
                    None => {
                        let mut k: usize = 0;
                        while k < ident.len()
                            invariant
                                k <= ident@.len(),
                                out@ == out0 + ident@.take(k as int),
                            decreases ident@.len() - k,
                        {
                            out.push(ident[k]);
                            k = k + 1;
                            assert(out@ =~= out0 + ident@.take(k as int));
                        }
                        assert(ident@.take(ident@.len() as int) =~= ident@);
                    },
                }
            } else {
                out.push(c);
                i = i + 1;
            }
        }
        string_from_chars(out.as_slice())
    }
}

/// The state of one `#if` level.
#[derive(Debug, Clone, Copy, PartialEq, Eq, Structural)]
pub enum IfState {
    Taking,
    Skipping,
    Done,
}

/// Lines are kept when every enclosing `#if` level is taking.
pub fn is_active(stack: &[IfState]) -> (r: bool)
    ensures
        r == (forall|i: int| 0 <= i < stack@.len() ==> stack@[i] == IfState::Taking),
{
    let mut i: usize = 0;
    while i < stack.len()
        invariant
            i <= stack@.len(),
            forall|j: int| 0 <= j < i ==> stack@[j] == IfState::Taking,
        decreases stack@.len() - i,
    {
        if stack[i] != IfState::Taking {
            return false;
        }
        i = i + 1;
    }
    true
}

/// The macro name an `#if` condition tests, and whether it is negated with `!`.
pub open spec fn if_condition(c: Seq<char>) -> (bool, Seq<char>) {
    let t = trim(c);
    if t.len() > 0 && t[0] == '!' { (true, trim(t.drop_first())) } else { (false, t) }
}

/// `#if NAME` holds when NAME is defined, `#if !NAME` when it is not.
pub fn evaluate_if_condition(condition: &str, defines: &DefineTable) -> (r: bool)
    ensures
        r == if if_condition(condition@).0 {
            !defines@.contains_key(if_condition(condition@).1)
        } else {
            defines@.contains_key(if_condition(condition@).1)
        },
{
    let chars = chars_of(condition);
    let t = trim_chars(chars.as_slice());
    if t.len() > 0 && t[0] == '!' {
        let rest = &t.as_slice()[1..t.len()];
        assert(rest@ =~= t@.drop_first());
        let name = trim_chars(rest);
        !defines.lookup(name.as_slice()).is_some()
    } else {
        defines.lookup(t.as_slice()).is_some()
    }
}

// ---------------------------------------------------------------------------
// Opcode tables
// ---------------------------------------------------------------------------

/// The (key, value) texts of opcode entries.
pub open spec fn pairs_view(entries: Seq<(Vec<char>, String)>) -> Seq<(Seq<char>, Seq<char>)> {
    entries.map_values(|e: (Vec<char>, String)| (e.0@, e.1@))
}

/// The opcodes of `pairs`, a later pair for a key replacing an earlier one.
pub open spec fn pairs_map(pairs: Seq<(Seq<char>, Seq<char>)>) -> Map<Seq<char>, Seq<char>>
    decreases pairs.len(),
{
    if pairs.len() == 0 {
        Map::empty()
    } else {
        pairs_map(pairs.drop_last()).insert(pairs.last().0, pairs.last().1)
    }
}

proof fn lemma_pairs_map_skip(pairs: Seq<(Seq<char>, Seq<char>)>, i: int, k: Seq<char>)
    requires
        0 <= i <= pairs.len(),
        forall|j: int| i <= j < pairs.len() ==> pairs[j].0 != k,
    ensures
        pairs_map(pairs).contains_key(k) == pairs_map(pairs.take(i)).contains_key(k),
        pairs_map(pairs).contains_key(k) ==> pairs_map(pairs)[k] == pairs_map(pairs.take(i))[k],
    decreases pairs.len() - i,
{
    if i < pairs.len() {
        let shorter = pairs.drop_last();
        lemma_pairs_map_skip(shorter, i, k);
        assert(shorter.take(i) =~= pairs.take(i));
    } else {
        assert(pairs.take(i) =~= pairs);
    }
}

proof fn lemma_pairs_map_append(a: Seq<(Seq<char>, Seq<char>)>, b: Seq<(Seq<char>, Seq<char>)>)
    ensures
        pairs_map(a + b) == pairs_map(a).union_prefer_right(pairs_map(b)),
    decreases b.len(),
{
    if b.len() == 0 {
        assert(a + b =~= a);
        assert(pairs_map(a).union_prefer_right(Map::empty()) =~= pairs_map(a));
    } else {
        lemma_pairs_map_append(a, b.drop_last());
        assert((a + b).drop_last() =~= a + b.drop_last());
        assert(pairs_map(a + b) =~= pairs_map(a).union_prefer_right(pairs_map(b)));
    }
}

/// Opcode name to value, for one header level.
///
/// The opcodes are kept as name/value pairs in the order they were set, a
/// later value for a name overriding an earlier one, so that the contracts
/// can state the contents as a map (a `String`-keyed `HashMap` offers no
/// such statement).
pub struct OpcodeMap {
    pub entries: Vec<(Vec<char>, String)>,
}

impl View for OpcodeMap {
    type V = Map<Seq<char>, Seq<char>>;

    open spec fn view(&self) -> Map<Seq<char>, Seq<char>> {
        pairs_map(pairs_view(self.entries@))
    }
}

impl OpcodeMap {
    pub fn new() -> (r: Self)
        ensures
            r@ == Map::<Seq<char>, Seq<char>>::empty(),
    {
        let r = OpcodeMap { entries: Vec::new() };
        assert(pairs_view(r.entries@) =~= Seq::<(Seq<char>, Seq<char>)>::empty());
        r
    }

    pub fn get(&self, key: &str) -> (r: Option<&str>)
        ensures
            r is Some <==> self@.contains_key(key@),
            r is Some ==> r->Some_0@ == self@[key@],
    {
        let k = chars_of(key);
        let ghost pv = pairs_view(self.entries@);
        let mut i = self.entries.len();
        while i > 0
            invariant
                i <= self.entries@.len(),
                pv == pairs_view(self.entries@),
                k@ == key@,
                forall|j: int| i <= j < pv.len() ==> pv[j].0 != key@,
            decreases i,
        {
            if chars_eq(self.entries[i - 1].0.as_slice(), k.as_slice()) {
                proof {
                    lemma_pairs_map_skip(pv, i as int, key@);
                    let t = pv.take(i as int);
                    assert(t.drop_last() =~= pv.take(i - 1));
                    assert(t.last() == pv[i - 1]);
                }
                return Some(self.entries[i - 1].1.as_str());
            }
            i = i - 1;
        }
        proof {
            lemma_pairs_map_skip(pv, 0, key@);
            assert(pv.take(0) =~= Seq::<(Seq<char>, Seq<char>)>::empty());
        }
        None
    }

    pub fn insert(&mut self, key: String, value: String)
        ensures
            final(self)@ == old(self)@.insert(key@, value@),
    {
        let k = chars_of(key.as_str());
        let ghost old_view = pairs_view(self.entries@);
        self.entries.push((k, value));
        assert(pairs_view(self.entries@).drop_last() =~= old_view);
    }

    /// Adds every opcode of `other`, replacing values of keys already present.
    pub fn extend(&mut self, other: &Self)
        ensures
            final(self)@ == old(self)@.union_prefer_right(other@),
    {
        let ghost start = pairs_view(self.entries@);
        let ghost ov = pairs_view(other.entries@);
        let mut i: usize = 0;
        while i < other.entries.len()
            invariant
                i <= other.entries@.len(),
                ov == pairs_view(other.entries@),
                pairs_view(self.entries@) == start + ov.take(i as int),
            decreases other.entries@.len() - i,
        {
            let key = vstd::slice::slice_to_vec(other.entries[i].0.as_slice());
            let value = other.entries[i].1.clone();
            let ghost before = self.entries@;
            self.entries.push((key, value));
            proof {
                assert(ov[i as int] == (other.entries@[i as int].0@, other.entries@[i as int].1@));
                assert(self.entries@ =~= before.push((key, value)));
                assert(pairs_view(self.entries@) =~= pairs_view(before).push(ov[i as int]));
                assert(ov.take(i + 1) =~= ov.take(i as int).push(ov[i as int]));
            }
            i = i + 1;
        }
        proof {
            assert(ov.take(ov.len() as int) =~= ov);
            lemma_pairs_map_append(start, ov);
        }
    }
}

/// `a` with the opcodes of `b` laid over it.
pub fn combine_maps(a: &OpcodeMap, b: &OpcodeMap) -> (r: OpcodeMap)
    ensures
        r@ == a@.union_prefer_right(b@),
{
    let mut out = OpcodeMap::new();
    out.extend(a);
    assert(Map::<Seq<char>, Seq<char>>::empty().union_prefer_right(a@) =~= a@);
    out.extend(b);
    out
}

/// The (key, value) texts of an opcode token; a header gives its name and
/// an empty value.
pub open spec fn token_pair(t: Token) -> (Seq<char>, Seq<char>) {
    match t.kind {
        TokenKind::Opcode(k, v) => (k@, v@),
        TokenKind::Header(h) => (h@, Seq::empty()),
    }
}

/// Index of the first header token at or after `i`, or the number of tokens.
pub open spec fn next_header(tokens: Seq<Token>, i: int) -> int
    decreases tokens.len() - i,
{
    if i < 0 || i >= tokens.len() || tokens[i].kind is Header {
        i
    } else {
        next_header(tokens, i + 1)
    }
}

/// The opcode pairs of `tokens[i..j]`.
pub open spec fn token_pairs(tokens: Seq<Token>, i: int, j: int) -> Seq<(Seq<char>, Seq<char>)> {
    Seq::new((j - i) as nat, |k: int| token_pair(tokens[i + k]))
}

proof fn lemma_next_header_step(tokens: Seq<Token>, i: int, j: int)
    requires
        0 <= i <= j < tokens.len(),
        tokens[j].kind is Opcode,
        next_header(tokens, i) == next_header(tokens, j),
    ensures
        next_header(tokens, i) == next_header(tokens, j + 1),
{
}

/// Gathers the opcodes that follow a header, up to the next header. Gives
/// the opcodes (a later one replacing an earlier one of the same key) and
/// the index of that next header, or the number of tokens.
pub fn collect_opcodes_until_header(tokens: &[Token], i: usize, header_line: usize) -> (r: (
    OpcodeMap,
    usize,
))
    ensures
        r.1 == next_header(tokens@, i as int),
        r.0@ == pairs_map(token_pairs(tokens@, i as int, r.1 as int)),
{
    let _ = header_line;
    let mut opcodes = OpcodeMap::new();
    let mut j = i;
    proof {
        assert(token_pairs(tokens@, i as int, i as int) =~= Seq::<(Seq<char>, Seq<char>)>::empty());
    }
    while j < tokens.len()
        invariant
            i <= j,
            next_header(tokens@, i as int) == next_header(tokens@, j as int),
            opcodes@ == pairs_map(token_pairs(tokens@, i as int, j as int)),
        ensures
            i <= j,
            next_header(tokens@, i as int) == next_header(tokens@, j as int),
            opcodes@ == pairs_map(token_pairs(tokens@, i as int, j as int)),
            j >= tokens@.len() || tokens@[j as int].kind is Header,
        decreases tokens@.len() - j,
    {
        match &tokens[j].kind {
            TokenKind::Header(_) => {
                break;
            },
            TokenKind::Opcode(k, v) => {
                opcodes.insert(k.clone(), v.clone());
                proof {
                    lemma_next_header_step(tokens@, i as int, j as int);
                    let before = token_pairs(tokens@, i as int, j as int);
                    let after = token_pairs(tokens@, i as int, j + 1);
                    assert(after.drop_last() =~= before);
                    assert(after.last() == (k@, v@));
                }
            },
        }
        j = j + 1;
    }
    (opcodes, j)
}

// ---------------------------------------------------------------------------
// Header structure
// ---------------------------------------------------------------------------

pub proof fn lemma_next_header_bounds(tokens: Seq<Token>, i: int)
    requires
        0 <= i,
    ensures
        i <= next_header(tokens, i),
        i <= tokens.len() ==> next_header(tokens, i) <= tokens.len(),
        next_header(tokens, i) < tokens.len() ==> tokens[next_header(tokens, i)].kind is Header,
    decreases tokens.len() - i,
{
    if i < tokens.len() && !(tokens[i].kind is Header) {
        lemma_next_header_bounds(tokens, i + 1);
    }
}

/// A group of an SFZ file: the opcodes of its `<group>` header (with the
/// global and master opcodes under them), or none for the default group
/// that regions outside any group fall into, and the opcodes of each of its
/// regions.
pub ghost struct GroupView {
    pub header: Option<Map<Seq<char>, Seq<char>>>,
    pub regions: Seq<Map<Seq<char>, Seq<char>>>,
}

/// The state of the walk over an SFZ file's headers.
pub ghost struct WalkState {
    pub control: Map<Seq<char>, Seq<char>>,
    pub global: Map<Seq<char>, Seq<char>>,
    pub master: Map<Seq<char>, Seq<char>>,
    pub group_ops: Map<Seq<char>, Seq<char>>,
    pub current: Option<GroupView>,
    pub done: Seq<GroupView>,
}

pub open spec fn initial_walk() -> WalkState {
    WalkState {
        control: Map::empty(),
        global: Map::empty(),
        master: Map::empty(),
        group_ops: Map::empty(),
        current: None,
        done: Seq::empty(),
    }
}

/// One header's effect, with opcodes inherited in the order control,
/// global, master, group, region. `<control>` adds to the control opcodes;
/// `<global>` closes the open group, replaces the global opcodes and drops
/// the master and group opcodes; `<master>` replaces the master opcodes;
/// `<group>` closes the open group, keeps its own opcodes and opens a group
/// whose opcodes are control, global, master, then its own; `<region>` adds
/// a region with the control, global, master and group opcodes and then its
/// own, opening the default group when none is open; other headers change
/// nothing.
pub open spec fn walk_step(st: WalkState, name: Seq<char>, ops: Map<Seq<char>, Seq<char>>) -> WalkState {
    if name == "global"@ {
        WalkState {
            global: ops,
            master: Map::empty(),
            group_ops: Map::empty(),
            current: None,
            done: match st.current {
                Some(c) => st.done.push(c),
                None => st.done,
            },
            ..st
        }
    } else if name == "master"@ {
        WalkState { master: ops, ..st }
    } else if name == "group"@ {
        let g = st.control.union_prefer_right(st.global).union_prefer_right(st.master).union_prefer_right(ops);
        WalkState {
            group_ops: ops,
            current: Some(GroupView { header: Some(g), regions: Seq::empty() }),
            done: match st.current {
                Some(c) => st.done.push(c),
                None => st.done,
            },
            ..st
        }
    } else if name == "region"@ {
        let r = st.control.union_prefer_right(st.global).union_prefer_right(st.master).union_prefer_right(
            st.group_ops,
        ).union_prefer_right(ops);
        let c = match st.current {
            Some(c) => c,
            None => GroupView { header: None, regions: Seq::empty() },
        };
        WalkState { current: Some(GroupView { regions: c.regions.push(r), ..c }), ..st }
    } else if name == "control"@ {
        WalkState { control: st.control.union_prefer_right(ops), ..st }
    } else {
        st
    }
}

/// The walk over the tokens from `i` on; opcodes outside any header are
/// skipped.
pub open spec fn walk_from(tokens: Seq<Token>, i: int, st: WalkState) -> WalkState
    decreases tokens.len() - i,
{
    if i < 0 || i >= tokens.len() {
        st
    } else {
        match tokens[i].kind {
            TokenKind::Header(h) => {
                let j = next_header(tokens, i + 1);
                proof {
                    lemma_next_header_bounds(tokens, i + 1);
                }
                walk_from(tokens, j, walk_step(st, h@, pairs_map(token_pairs(tokens, i + 1, j))))
            },
            TokenKind::Opcode(_, _) => walk_from(tokens, i + 1, st),
        }
    }
}

/// The groups of an SFZ file, in order, with the open group last.
pub open spec fn sfz_groups(tokens: Seq<Token>) -> Seq<GroupView> {
    let st = walk_from(tokens, 0, initial_walk());
    match st.current {
        Some(c) => st.done.push(c),
        None => st.done,
    }
}

/// A group of an SFZ file as its instrument is built from it.
pub struct SfzGroupPlan {
    pub header: Option<OpcodeMap>,
    pub regions: Vec<OpcodeMap>,
}

pub open spec fn maps_of(v: Seq<OpcodeMap>) -> Seq<Map<Seq<char>, Seq<char>>> {
    v.map_values(|m: OpcodeMap| m@)
}

impl View for SfzGroupPlan {
    type V = GroupView;

    open spec fn view(&self) -> GroupView {
        GroupView {
            header: match self.header {
                Some(m) => Some(m@),
                None => None,
            },
            regions: maps_of(self.regions@),
        }
    }
}

pub open spec fn opt_view(c: Option<SfzGroupPlan>) -> Option<GroupView> {
    match c {
        Some(p) => Some(p@),
        None => None,
    }
}

pub open spec fn plan_views(v: Seq<SfzGroupPlan>) -> Seq<GroupView> {
    v.map_values(|p: SfzGroupPlan| p@)
}

impl OpcodeMap {
    /// A copy holding the same opcodes.
    pub fn duplicate(&self) -> (r: OpcodeMap)
        ensures
            r@ == self@,
    {
        let mut out = OpcodeMap::new();
        out.extend(self);
        assert(Map::<Seq<char>, Seq<char>>::empty().union_prefer_right(self@) =~= self@);
        out
    }
}

/// Sorts the tokens of an SFZ file into groups and regions, each region
/// carrying every opcode it inherits.
pub fn sfz_structure(tokens: &[Token]) -> (r: Vec<SfzGroupPlan>)
    ensures
        plan_views(r@) == sfz_groups(tokens@),
{
    let mut control = OpcodeMap::new();
    let mut global = OpcodeMap::new();
    let mut master = OpcodeMap::new();
    let mut group_ops = OpcodeMap::new();
    let mut current: Option<SfzGroupPlan> = None;
    let mut done: Vec<SfzGroupPlan> = Vec::new();
    let mut i: usize = 0;
    proof {
        assert(plan_views(done@) =~= Seq::<GroupView>::empty());
    }
    while i < tokens.len()
        invariant
            walk_from(tokens@, 0, initial_walk()) == walk_from(tokens@, i as int, WalkState {
                control: control@,
                global: global@,
                master: master@,
                group_ops: group_ops@,
                current: opt_view(current),
                done: plan_views(done@),
            }),
        decreases tokens@.len() - i,
    {
        let ghost i0 = i as int;
        match &tokens[i].kind {
            TokenKind::Opcode(_, _) => {
                i = i + 1;
            },
            TokenKind::Header(name) => {
                let ghost st = WalkState {
                    control: control@,
                    global: global@,
                    master: master@,
                    group_ops: group_ops@,
                    current: opt_view(current),
                    done: plan_views(done@),
                };
                let (ops, next) = collect_opcodes_until_header(tokens, i + 1, 0);
                proof {
                    lemma_next_header_bounds(tokens@, i + 1);
                }
                let ghost want = walk_step(st, name@, ops@);
                let n = chars_of(name.as_str());
                let nm = n.as_slice();
                if chars_eq_str(nm, "global") {
                    let ghost before = done@;
                    match current {
                        Some(c) => {
                            done.push(c);
                            assert(plan_views(done@) =~= plan_views(before).push(c@));
                        },
                        None => {},
                    }
                    global = ops;
                    group_ops = OpcodeMap::new();
                    master = OpcodeMap::new();
                    current = None;
                } else if chars_eq_str(nm, "master") {
                    master = ops;
                } else if chars_eq_str(nm, "group") {
                    let ghost before = done@;
                    match current {
                        Some(c) => {
                            done.push(c);
                            assert(plan_views(done@) =~= plan_views(before).push(c@));
                        },
                        None => {},
                    }
                    let mut g = combine_maps(&control, &global);
                    g.extend(&master);
                    g.extend(&ops);
                    group_ops = ops;
                    current = Some(SfzGroupPlan { header: Some(g), regions: Vec::new() });
                    proof {
                        assert(maps_of(Seq::<OpcodeMap>::empty()) =~= Seq::<Map<Seq<char>, Seq<char>>>::empty());
                    }
                } else if chars_eq_str(nm, "region") {
                    let mut r = combine_maps(&control, &global);
                    r.extend(&master);
                    r.extend(&group_ops);
                    r.extend(&ops);
                    let mut c = match current {
                        Some(c) => c,
                        None => {
                            let fresh = SfzGroupPlan { header: None, regions: Vec::new() };
                            assert(maps_of(fresh.regions@) =~= Seq::<Map<Seq<char>, Seq<char>>>::empty());
                            fresh
                        },
                    };
                    let ghost rv = r@;
                    let ghost before = c.regions@;
                    c.regions.push(r);
                    assert(maps_of(c.regions@) =~= maps_of(before).push(rv));
                    current = Some(c);
                } else if chars_eq_str(nm, "control") {
                    control.extend(&ops);
                }
                assert(want == WalkState {
                    control: control@,
                    global: global@,
                    master: master@,
                    group_ops: group_ops@,
                    current: opt_view(current),
                    done: plan_views(done@),
                });
                i = next;
            },
        }
    }
    let ghost before = done@;
    match current {
        Some(c) => {
            done.push(c);
            assert(plan_views(done@) =~= plan_views(before).push(c@));
        },
        None => {},
    }
    done
}

// ---------------------------------------------------------------------------
// Opcode values
// ---------------------------------------------------------------------------

/// The boolean an opcode value stands for, from its trimmed text and the
/// lower-case form of that text: `on`/`yes`/`true` and `off`/`no`/`false`,
/// else a note name or integer, zero being false and a positive one true.
pub open spec fn bool_from_parts(trimmed: Seq<char>, lower: Seq<char>) -> Option<bool> {
    if trimmed.len() == 0 {
        None
    } else if lower == "on"@ || lower == "yes"@ || lower == "true"@ {
        Some(true)
    } else if lower == "off"@ || lower == "no"@ || lower == "false"@ {
        Some(false)
    } else {
        match note_name_value(trimmed) {
            Some(n) => Some(n > 0),
            None => match decimal_i32(trimmed) {
                Some(i) => if i == 0 {
                    Some(false)
                } else if i > 0 {
                    Some(true)
                } else {
                    None
                },
                None => None,
            },
        }
    }
}

/// The boolean an opcode value stands for.
pub open spec fn opcode_bool(value: Seq<char>) -> Option<bool> {
    bool_from_parts(trim(value), unicode_lower(trim(value)))
}

/// The boolean of an opcode value, given its trimmed text and the
/// lower-case form of that text.
pub fn bool_value_from_parts(trimmed: &[char], lower: &str) -> (r: Option<bool>)
    requires
        note_arith_fits(trimmed@),
    ensures
        r == bool_from_parts(trimmed@, lower@),
{
    if trimmed.len() == 0 {
        return None;
    }
    let l = chars_of(lower);
    let ls = l.as_slice();
    if chars_eq_str(ls, "on") || chars_eq_str(ls, "yes") || chars_eq_str(ls, "true") {
        return Some(true);
    }
    if chars_eq_str(ls, "off") || chars_eq_str(ls, "no") || chars_eq_str(ls, "false") {
        return Some(false);
    }
    let text = string_from_chars(trimmed);
    match parse_note_name(text.as_str()) {
        Some(n) => Some(n > 0),
        None => match parse_i32(trimmed) {
            Some(i) => if i == 0 {
                Some(false)
            } else if i > 0 {
                Some(true)
            } else {
                None
            },
            None => None,
        },
    }
}

/// An opcode value read as far as whole numbers: a boolean word, an integer
/// (note names included), or other text, which may still read as a decimal
/// fraction.
pub enum OpcodeClass {
    Integer(i32),
    Boolean(bool),
    Other(String),
}

/// What [`OpcodeClass`] says, with text as its characters.
pub enum OpcodeClassView {
    Integer(i32),
    Boolean(bool),
    Other(Seq<char>),
}

impl View for OpcodeClass {
    type V = OpcodeClassView;

    open spec fn view(&self) -> OpcodeClassView {
        match self {
            OpcodeClass::Integer(i) => OpcodeClassView::Integer(*i),
            OpcodeClass::Boolean(b) => OpcodeClassView::Boolean(*b),
            OpcodeClass::Other(s) => OpcodeClassView::Other(s@),
        }
    }
}

/// The class of an opcode value from its trimmed text and the lower-case
/// form of that text: empty text is empty other text; then the boolean words
/// `on`/`yes`/`true` and `off`/`no`/`false`; then a note name; then a
/// decimal `i32`; else the trimmed text.
pub open spec fn class_from_parts(trimmed: Seq<char>, lower: Seq<char>) -> OpcodeClassView {
    if trimmed.len() == 0 {
        OpcodeClassView::Other(Seq::empty())
    } else if lower == "on"@ || lower == "yes"@ || lower == "true"@ {
        OpcodeClassView::Boolean(true)
    } else if lower == "off"@ || lower == "no"@ || lower == "false"@ {
        OpcodeClassView::Boolean(false)
    } else {
        match note_name_value(trimmed) {
            Some(n) => OpcodeClassView::Integer(n as i32),
            None => match decimal_i32(trimmed) {
                Some(i) => OpcodeClassView::Integer(i),
                None => OpcodeClassView::Other(trimmed),
            },
        }
    }
}

/// The class of an opcode value.
pub open spec fn opcode_class(value: Seq<char>) -> OpcodeClassView {
    class_from_parts(trim(value), unicode_lower(trim(value)))
}

/// Classifies an opcode value: booleans and note names come before plain
/// integers, and what is left is handed back trimmed.
pub fn classify_opcode_value(value: &str) -> (r: OpcodeClass)
    requires
        note_arith_fits(trim(value@)),
    ensures
        r@ == opcode_class(value@),
{
    let chars = chars_of(value);
    let t = trim_chars(chars.as_slice());
    let text = string_from_chars(t.as_slice());
    if t.len() == 0 {
        return OpcodeClass::Other(String::new());
    }
    let lower = to_lowercase(text.as_str());
    let l = chars_of(lower.as_str());
    let ls = l.as_slice();
    if chars_eq_str(ls, "on") || chars_eq_str(ls, "yes") || chars_eq_str(ls, "true") {
        return OpcodeClass::Boolean(true);
    }
    if chars_eq_str(ls, "off") || chars_eq_str(ls, "no") || chars_eq_str(ls, "false") {
        return OpcodeClass::Boolean(false);
    }
    match parse_note_name(text.as_str()) {
        Some(n) => OpcodeClass::Integer(n as i32),
        None => match parse_i32(t.as_slice()) {
            Some(i) => OpcodeClass::Integer(i),
            None => OpcodeClass::Other(text),
        },
    }
}

/// The boolean value of the opcode `key`, when it is present and reads as one.
pub fn get_bool(opcodes: &OpcodeMap, key: &str) -> (r: Option<bool>)
    requires
        opcodes@.contains_key(key@) ==> note_arith_fits(trim(opcodes@[key@])),
    ensures
        r == (if opcodes@.contains_key(key@) { opcode_bool(opcodes@[key@]) } else { None }),
{
    match opcodes.get(key) {
        Some(v) => {
            let chars = chars_of(v);
            let t = trim_chars(chars.as_slice());
            let text = string_from_chars(t.as_slice());
            let lower = to_lowercase(text.as_str());
            bool_value_from_parts(t.as_slice(), lower.as_str())
        },
        None => None,
    }
}

// ---------------------------------------------------------------------------
// Named opcode choices
// ---------------------------------------------------------------------------

/// The curve for a lower-cased `curve` value; unknown names give `Linear`.
pub open spec fn curve_type_of(lower: Seq<char>) -> CurveType {
    if lower == "exponential"@ {
        CurveType::Exponential
    } else if lower == "log"@ || lower == "logarithmic"@ {
        CurveType::Logarithmic
    } else if lower == "scurve"@ || lower == "s-curve"@ {
        CurveType::SCurve
    } else {
        CurveType::Linear
    }
}

/// The trigger mode for a lower-cased `trigger` value: `release` and
/// `release_key` sound on release, everything else normally.
pub open spec fn trigger_mode_of(lower: Seq<char>) -> SamplePlayMode {
    if lower == "release"@ || lower == "release_key"@ {
        SamplePlayMode::OnRelease
    } else {
        SamplePlayMode::Normal
    }
}

/// The loop mode for a lower-cased `loop_mode` value; unknown names give `Off`.
pub open spec fn loop_mode_of(lower: Seq<char>) -> LoopMode {
    if lower == "loop_continuous"@ || lower == "loop"@ {
        LoopMode::DuringVoice
    } else if lower == "loop_sustain"@ {
        LoopMode::WhileGated
    } else {
        LoopMode::Off
    }
}

/// The loop direction for a lower-cased `direction` value.
pub open spec fn loop_direction_of(lower: Seq<char>) -> LoopDirection {
    if lower == "alternate"@ {
        LoopDirection::Alternate
    } else {
        LoopDirection::Forward
    }
}

/// The filter response for a lower-cased `fil_type` value; unknown names
/// give `Lowpass`.
pub open spec fn filter_type_of(lower: Seq<char>) -> FilterType {
    if lower == "hpf_1p"@ || lower == "hpf_2p"@ || lower == "hpf_4p"@ || lower == "hpf_6p"@
        || lower == "hpf"@ {
        FilterType::Highpass
    } else if lower == "bpf_2p"@ || lower == "bpf_4p"@ || lower == "bpf"@ {
        FilterType::Bandpass
    } else if lower == "brf_2p"@ || lower == "brf"@ {
        FilterType::Notch
    } else if lower == "apf_1p"@ {
        FilterType::Allpass
    } else if lower == "pkf_2p"@ {
        FilterType::Peak
    } else if lower == "lsh_1p"@ || lower == "lsh_2p"@ || lower == "lsh"@ {
        FilterType::LowShelf
    } else if lower == "hsh_1p"@ || lower == "hsh_2p"@ || lower == "hsh"@ {
        FilterType::HighShelf
    } else if lower == "bpk_2p"@ {
        FilterType::Bell
    } else {
        FilterType::Lowpass
    }
}

/// The curve named by an already lower-cased value.
pub fn curve_type_from_lower(lower: &str) -> (r: CurveType)
    ensures
        r == curve_type_of(lower@),
{
    let l = chars_of(lower);
    let s = l.as_slice();
    if chars_eq_str(s, "exponential") {
        CurveType::Exponential
    } else if chars_eq_str(s, "log") || chars_eq_str(s, "logarithmic") {
        CurveType::Logarithmic
    } else if chars_eq_str(s, "scurve") || chars_eq_str(s, "s-curve") {
        CurveType::SCurve
    } else {
        CurveType::Linear
    }
}

/// The curve named by a `curve` value, in any case.
pub fn parse_curve_type(value: &str) -> (r: CurveType)
    ensures
        r == curve_type_of(unicode_lower(value@)),
{
    let lower = to_lowercase(value);
    curve_type_from_lower(lower.as_str())
}

/// The trigger mode named by an already lower-cased value.
pub fn trigger_mode_from_lower(lower: &str) -> (r: SamplePlayMode)
    ensures
        r == trigger_mode_of(lower@),
{
    let l = chars_of(lower);
    let s = l.as_slice();
    if chars_eq_str(s, "release") || chars_eq_str(s, "release_key") {
        SamplePlayMode::OnRelease
    } else {
        SamplePlayMode::Normal
    }
}

/// The trigger mode named by a `trigger` value, in any case.
pub fn parse_trigger_mode(value: &str) -> (r: SamplePlayMode)
    ensures
        r == trigger_mode_of(unicode_lower(value@)),
{
    let lower = to_lowercase(value);
    trigger_mode_from_lower(lower.as_str())
}

/// The loop mode named by an already lower-cased value.
pub fn loop_mode_from_lower(lower: &str) -> (r: LoopMode)
    ensures
        r == loop_mode_of(lower@),
{
    let l = chars_of(lower);
    let s = l.as_slice();
    if chars_eq_str(s, "loop_continuous") || chars_eq_str(s, "loop") {
        LoopMode::DuringVoice
    } else if chars_eq_str(s, "loop_sustain") {
        LoopMode::WhileGated
    } else {
        LoopMode::Off
    }
}

/// The loop mode named by a `loop_mode` value, in any case.
pub fn parse_loop_mode(value: &str) -> (r: LoopMode)
    ensures
        r == loop_mode_of(unicode_lower(value@)),
{
    let lower = to_lowercase(value);
    loop_mode_from_lower(lower.as_str())
}

/// The loop direction named by an already lower-cased value.
pub fn loop_direction_from_lower(lower: &str) -> (r: LoopDirection)
    ensures
        r == loop_direction_of(lower@),
{
    let l = chars_of(lower);
    if chars_eq_str(l.as_slice(), "alternate") {
        LoopDirection::Alternate
    } else {
        LoopDirection::Forward
    }
}

/// The loop direction named by a `direction` value, in any case.
pub fn parse_loop_direction(value: &str) -> (r: LoopDirection)
    ensures
        r == loop_direction_of(unicode_lower(value@)),
{
    let lower = to_lowercase(value);
    loop_direction_from_lower(lower.as_str())
}

/// The filter response named by an already lower-cased value.
pub fn filter_type_from_lower(lower: &str) -> (r: FilterType)
    ensures
        r == filter_type_of(lower@),
{
    let l = chars_of(lower);
    let s = l.as_slice();
    if chars_eq_str(s, "hpf_1p") || chars_eq_str(s, "hpf_2p") || chars_eq_str(s, "hpf_4p")
        || chars_eq_str(s, "hpf_6p") || chars_eq_str(s, "hpf") {
        FilterType::Highpass
    } else if chars_eq_str(s, "bpf_2p") || chars_eq_str(s, "bpf_4p") || chars_eq_str(s, "bpf") {
        FilterType::Bandpass
    } else if chars_eq_str(s, "brf_2p") || chars_eq_str(s, "brf") {
        FilterType::Notch
    } else if chars_eq_str(s, "apf_1p") {
        FilterType::Allpass
    } else if chars_eq_str(s, "pkf_2p") {
        FilterType::Peak
    } else if chars_eq_str(s, "lsh_1p") || chars_eq_str(s, "lsh_2p") || chars_eq_str(s, "lsh") {
        FilterType::LowShelf
    } else if chars_eq_str(s, "hsh_1p") || chars_eq_str(s, "hsh_2p") || chars_eq_str(s, "hsh") {
        FilterType::HighShelf
    } else if chars_eq_str(s, "bpk_2p") {
        FilterType::Bell
    } else {
        FilterType::Lowpass
    }
}

/// The filter response named by a `fil_type` value, in any case.
pub fn parse_filter_type(value: &str) -> (r: FilterType)
    ensures
        r == filter_type_of(unicode_lower(value@)),
{
    let lower = to_lowercase(value);
    filter_type_from_lower(lower.as_str())
}

// ---------------------------------------------------------------------------
// Errors and export names
// ---------------------------------------------------------------------------

/// A parse or load failure, with the line and column it was found at.
pub struct SfzError {
    pub message: String,
    pub line: usize,
    pub column: usize,
}

impl SfzError {
    pub fn new(message: String, line: usize, column: usize) -> (r: Self)
        ensures
            r.message@ == message@,
            r.line == line,
            r.column == column,
    {
        SfzError { message, line, column }
    }
}

/// Characters that an exported file name keeps as they are.
pub open spec fn is_name_char(c: char) -> bool {
    is_ascii_alnum(c) || c == '-' || c == '_'
}

/// A name with every run of other characters replaced by one `_` (a `_`
/// already written absorbs the run).
pub open spec fn sanitize_raw(s: Seq<char>) -> Seq<char>
    decreases s.len(),
{
    if s.len() == 0 {
        Seq::empty()
    } else {
        let p = sanitize_raw(s.drop_last());
        let c = s.last();
        if is_name_char(c) {
            p.push(c)
        } else if p.len() > 0 && p.last() == '_' {
            p
        } else {
            p.push('_')
        }
    }
}

/// `s` without the copies of `c` at its start.
pub open spec fn strip_leading(s: Seq<char>, c: char) -> Seq<char>
    decreases s.len(),
{
    if s.len() > 0 && s[0] == c {
        strip_leading(s.drop_first(), c)
    } else {
        s
    }
}

/// `s` without the copies of `c` at its end.
pub open spec fn strip_trailing(s: Seq<char>, c: char) -> Seq<char>
    decreases s.len(),
{
    if s.len() > 0 && s.last() == c {
        strip_trailing(s.drop_last(), c)
    } else {
        s
    }
}

/// The file name an exported sample gets: the sanitized name without `_`
/// at either end, or `sample` when nothing is left.
pub open spec fn export_name(name: Seq<char>) -> Seq<char> {
    let t = strip_trailing(strip_leading(sanitize_raw(name), '_'), '_');
    if t.len() == 0 {
        "sample"@
    } else {
        t
    }
}

/// Turns a zone or sample name into a safe file name.
pub fn sanitize_export_name(name: &str) -> (r: String)
    ensures
        r@ == export_name(name@),
{
    let chars = chars_of(name);
    let s = chars.as_slice();
    let mut out: Vec<char> = Vec::new();
    let mut i: usize = 0;
    while i < s.len()
        invariant
            i <= s@.len(),
            out@ == sanitize_raw(s@.take(i as int)),
        decreases s@.len() - i,
    {
        let c = s[i];
        proof {
            assert(s@.take(i + 1).drop_last() =~= s@.take(i as int));
            assert(s@.take(i + 1).last() == c);
        }
        if is_alnum(c) || c == '-' || c == '_' {
            out.push(c);
        } else if !(out.len() > 0 && out[out.len() - 1] == '_') {
            out.push('_');
        }
        i = i + 1;
    }
    assert(s@.take(s@.len() as int) =~= s@);
    let ghost raw = out@;
    let n = out.len();
    let mut start: usize = 0;
    assert(raw.skip(0) =~= raw);
    while start < n && out[start] == '_'
        invariant
            start <= n == raw.len(),
            out@ == raw,
            strip_leading(raw, '_') == strip_leading(raw.skip(start as int), '_'),
        decreases n - start,
    {
        assert(raw.skip(start as int).drop_first() =~= raw.skip(start + 1));
        start = start + 1;
    }
    let ghost rest = raw.skip(start as int);
    assert(strip_leading(raw, '_') == rest);
    let mut end: usize = n;
    while end > start && out[end - 1] == '_'
        invariant
            start <= end <= n == raw.len(),
            out@ == raw,
            rest == raw.skip(start as int),
            strip_trailing(rest, '_') == strip_trailing(raw.subrange(start as int, end as int), '_'),
        decreases end - start,
    {
        assert(raw.subrange(start as int, end as int).drop_last() =~= raw.subrange(
            start as int,
            end - 1,
        ));
        end = end - 1;
    }
    proof {
        assert(raw.skip(start as int) =~= raw.subrange(start as int, n as int));
    }
    if end == start {
        "sample".to_owned()
    } else {
        let kept = &out.as_slice()[start..end];
        assert(kept@ =~= raw.subrange(start as int, end as int));
        string_from_chars(kept)
    }
}

proof fn lemma_sanitize_raw_chars(s: Seq<char>)
    ensures
        forall|i: int| 0 <= i < sanitize_raw(s).len() ==> is_name_char(#[trigger] sanitize_raw(s)[i]),
    decreases s.len(),
{
    if s.len() > 0 {
        lemma_sanitize_raw_chars(s.drop_last());
        let p = sanitize_raw(s.drop_last());
        assert forall|i: int| 0 <= i < sanitize_raw(s).len() implies is_name_char(#[trigger] sanitize_raw(s)[i]) by {
            if i < p.len() {
                assert(sanitize_raw(s)[i] == p[i]);
            }
        }
    }
}

proof fn lemma_strip_leading(s: Seq<char>, c: char)
    ensures
        exists|k: int| 0 <= k <= s.len() && strip_leading(s, c) == s.skip(k),
        strip_leading(s, c).len() > 0 ==> strip_leading(s, c)[0] != c,
    decreases s.len(),
{
    if s.len() > 0 && s[0] == c {
        lemma_strip_leading(s.drop_first(), c);
        let k = choose|k: int| 0 <= k <= s.drop_first().len() && strip_leading(s.drop_first(), c) == s.drop_first().skip(k);
        assert(s.drop_first().skip(k) =~= s.skip(k + 1));
    } else {
        assert(s.skip(0) =~= s);
    }
}

proof fn lemma_strip_trailing(s: Seq<char>, c: char)
    ensures
        exists|k: int| 0 <= k <= s.len() && strip_trailing(s, c) == s.take(k),
        strip_trailing(s, c).len() > 0 ==> strip_trailing(s, c).last() != c,
    decreases s.len(),
{
    if s.len() > 0 && s.last() == c {
        lemma_strip_trailing(s.drop_last(), c);
        let k = choose|k: int| 0 <= k <= s.drop_last().len() && strip_trailing(s.drop_last(), c) == s.drop_last().take(k);
        assert(s.drop_last().take(k) =~= s.take(k));
    } else {
        assert(s.take(s.len() as int) =~= s);
    }
}

/// An exported sample's file name is never empty, holds only ASCII
/// letters, digits, `-` and `_`, and neither starts nor ends with `_`.
pub proof fn law_export_name_is_safe(name: Seq<char>)
    ensures
        export_name(name).len() > 0,
        forall|i: int| 0 <= i < export_name(name).len() ==> is_name_char(#[trigger] export_name(name)[i]),
        export_name(name)[0] != '_',
        export_name(name).last() != '_',
{
    let raw = sanitize_raw(name);
    lemma_sanitize_raw_chars(name);
    let l = strip_leading(raw, '_');
    lemma_strip_leading(raw, '_');
    let t = strip_trailing(l, '_');
    lemma_strip_trailing(l, '_');
    let k1 = choose|k: int| 0 <= k <= raw.len() && l == raw.skip(k);
    let k2 = choose|k: int| 0 <= k <= l.len() && t == l.take(k);
    if t.len() == 0 {
        reveal_strlit("sample");
        assert(export_name(name) == "sample"@);
    } else {
        assert forall|i: int| 0 <= i < t.len() implies is_name_char(#[trigger] t[i]) by {
            assert(t[i] == l[i]);
            assert(l[i] == raw[k1 + i]);
        }
        assert(t[0] == l[0]);
    }
}

/// The path text of an `#include` argument: trimmed, and without one pair
/// of surrounding double quotes or angle brackets.
pub open spec fn include_spec(spec: Seq<char>) -> Seq<char> {
    let t = trim(spec);
    if t.len() >= 2 && t[0] == '"' && t.last() == '"' {
        t.subrange(1, t.len() - 1)
    } else if t.len() >= 2 && t[0] == '<' && t.last() == '>' {
        t.subrange(1, t.len() - 1)
    } else {
        t
    }
}

/// The path named by an `#include` argument, before it is joined to the
/// including file's directory.
pub fn include_path_text(spec: &str) -> (r: String)
    ensures
        r@ == include_spec(spec@),
{
    let chars = chars_of(spec);
    let t = trim_chars(chars.as_slice());
    let n = t.len();
    if n >= 2 && ((t[0] == '"' && t[n - 1] == '"') || (t[0] == '<' && t[n - 1] == '>')) {
        let inner = &t.as_slice()[1..n - 1];
        assert(inner@ =~= t@.subrange(1, n - 1));
        string_from_chars(inner)
    } else {
        string_from_chars(t.as_slice())
    }
}

// ---------------------------------------------------------------------------
// Comments
// ---------------------------------------------------------------------------

/// Index of the first newline at or after `j`, or the end of the text.
pub open spec fn line_end(s: Seq<char>, j: int) -> int
    decreases s.len() - j,
{
    if j < 0 || j >= s.len() || s[j] == '\n' {
        j
    } else {
        line_end(s, j + 1)
    }
}

/// Blanks a block comment body from `j` on: newlines stay, other characters
/// become spaces, up to and including the closing `*/` (two spaces) or the
/// end of the text. Gives the output so far and the index after the comment.
pub open spec fn blank_block(s: Seq<char>, j: int, acc: Seq<char>) -> (Seq<char>, int)
    decreases s.len() - j,
{
    if j < 0 || j >= s.len() {
        (acc, s.len() as int)
    } else if s[j] == '*' && j + 1 < s.len() && s[j + 1] == '/' {
        (acc.push(' ').push(' '), j + 2)
    } else {
        blank_block(s, j + 1, acc.push(if s[j] == '\n' { '\n' } else { ' ' }))
    }
}

/// The text from index `i` on with comments removed, after the output `acc`.
pub open spec fn strip_from(s: Seq<char>, i: int, acc: Seq<char>) -> Seq<char>
    decreases s.len() - i,
{
    if i < 0 || i >= s.len() {
        acc
    } else if s[i] == '/' && i + 1 < s.len() && s[i + 1] == '/' {
        proof {
            lemma_line_end_bounds(s, i + 1);
        }
        let k = line_end(s, i + 1);
        if k < s.len() {
            strip_from(s, k + 1, acc.push('\n'))
        } else {
            acc
        }
    } else if s[i] == '/' && i + 1 < s.len() && s[i + 1] == '*' {
        proof {
            lemma_blank_block_bounds(s, i + 2, acc.push(' ').push(' '));
        }
        let (out, next) = blank_block(s, i + 2, acc.push(' ').push(' '));
        strip_from(s, next, out)
    } else {
        strip_from(s, i + 1, acc.push(s[i]))
    }
}

/// SFZ text with `//` line comments removed (their newline kept) and each
/// `/* */` block comment, delimiters included, replaced by white space of
/// the same shape: a space for each character but newlines, which stay.
pub open spec fn stripped(s: Seq<char>) -> Seq<char> {
    strip_from(s, 0, Seq::empty())
}

pub proof fn lemma_line_end_bounds(s: Seq<char>, j: int)
    requires
        0 <= j <= s.len(),
    ensures
        j <= line_end(s, j) <= s.len(),
        line_end(s, j) < s.len() ==> s[line_end(s, j)] == '\n',
        forall|m: int| j <= m < line_end(s, j) ==> s[m] != '\n',
    decreases s.len() - j,
{
    if j < s.len() && s[j] != '\n' {
        lemma_line_end_bounds(s, j + 1);
    }
}

pub proof fn lemma_blank_block_bounds(s: Seq<char>, j: int, acc: Seq<char>)
    requires
        0 <= j <= s.len(),
    ensures
        j <= blank_block(s, j, acc).1 <= s.len(),
    decreases s.len() - j,
{
    if j < s.len() && !(s[j] == '*' && j + 1 < s.len() && s[j + 1] == '/') {
        lemma_blank_block_bounds(s, j + 1, acc.push(if s[j] == '\n' { '\n' } else { ' ' }));
    }
}

/// Removes `//` and `/* */` comments. Each character of a block comment,
/// its `/*` and `*/` included, becomes a space except newlines, which stay,
/// so the lines and columns of the rest are kept; a line comment keeps its
/// closing newline; an unclosed block comment runs to the end.
pub fn strip_comments(text: &str) -> (out: String)
    ensures
        out@ == stripped(text@),
{
    let chars = chars_of(text);
    let s = chars.as_slice();
    let n = s.len();
    let ghost sv = s@;
    let mut out: Vec<char> = Vec::new();
    let mut i: usize = 0;
    while i < n
        invariant
            n == sv.len(),
            sv == s@,
            sv == text@,
            i <= n,
            stripped(sv) == strip_from(sv, i as int, out@),
        ensures
            stripped(sv) == out@,
        decreases n - i,
    {
        let c = s[i];
        if c == '/' && i + 1 < n && s[i + 1] == '/' {
            let ghost i0 = i as int;
            let ghost out0 = out@;
            i = i + 1;
            proof { lemma_line_end_bounds(sv, i as int); }
            while i < n && s[i] != '\n'
                invariant
                    n == sv.len(),
                    sv == s@,
                    i0 + 1 <= i <= n,
                    line_end(sv, i0 + 1) == line_end(sv, i as int),
                decreases n - i,
            {
                i = i + 1;
            }
            if i < n {
                out.push('\n');
                i = i + 1;
            } else {
                assert(stripped(sv) == out@);
                break;
            }
            assert(strip_from(sv, i0, out0) == strip_from(sv, i as int, out@));
        } else if c == '/' && i + 1 < n && s[i + 1] == '*' {
            let ghost i0 = i as int;
            let ghost out_before = out@;
            out.push(' ');
            out.push(' ');
            let ghost out0 = out@;
            assert(out0 == out_before.push(' ').push(' '));
            i = i + 2;
            let mut closed = false;
            while i < n && !closed
                invariant
                    n == sv.len(),
                    sv == s@,
                    i0 + 2 <= i <= n,
                    !closed ==> blank_block(sv, i0 + 2, out0) == blank_block(sv, i as int, out@),
                    closed ==> blank_block(sv, i0 + 2, out0) == (out@, i as int),
                decreases n - i,
            {
                if s[i] == '*' && i + 1 < n && s[i + 1] == '/' {
                    out.push(' ');
                    out.push(' ');
                    i = i + 2;
                    closed = true;
                } else {
                    if s[i] == '\n' {
                        out.push('\n');
                    } else {
                        out.push(' ');
                    }
                    i = i + 1;
                }
            }
            assert(blank_block(sv, i0 + 2, out0) == (out@, i as int));
            assert(strip_from(sv, i0, out_before) == strip_from(sv, i as int, out@));
        } else {
            out.push(c);
            i = i + 1;
        }
    }
    string_from_chars(out.as_slice())
}

/// Number of newlines in a text.
pub open spec fn newlines(s: Seq<char>) -> nat
    decreases s.len(),
{
    if s.len() == 0 {
        0
    } else {
        newlines(s.drop_last()) + if s.last() == '\n' { 1nat } else { 0nat }
    }
}

pub proof fn lemma_newlines_concat(a: Seq<char>, b: Seq<char>)
    ensures
        newlines(a + b) == newlines(a) + newlines(b),
    decreases b.len(),
{
    if b.len() > 0 {
        lemma_newlines_concat(a, b.drop_last());
        assert((a + b).drop_last() =~= a + b.drop_last());
    } else {
        assert(a + b =~= a);
    }
}

proof fn lemma_newlines_push(a: Seq<char>, c: char)
    ensures
        newlines(a.push(c)) == newlines(a) + if c == '\n' { 1nat } else { 0nat },
{
    assert(a.push(c).drop_last() =~= a);
}

proof fn lemma_no_newlines(s: Seq<char>)
    requires
        forall|m: int| 0 <= m < s.len() ==> s[m] != '\n',
    ensures
        newlines(s) == 0,
    decreases s.len(),
{
    if s.len() > 0 {
        lemma_no_newlines(s.drop_last());
    }
}

proof fn lemma_newlines_single(c: char)
    ensures
        newlines(seq![c]) == if c == '\n' { 1nat } else { 0nat },
{
    let one = seq![c];
    assert(one.drop_last() =~= Seq::<char>::empty());
    assert(one.last() == c);
    assert(newlines(one.drop_last()) == 0);
}

proof fn lemma_newlines_at(s: Seq<char>, j: int)
    requires
        0 <= j < s.len(),
    ensures
        newlines(s.subrange(j, j + 1)) == if s[j] == '\n' { 1nat } else { 0nat },
{
    assert(s.subrange(j, j + 1) =~= seq![s[j]]);
    lemma_newlines_single(s[j]);
}

proof fn lemma_newlines_sub_split(s: Seq<char>, i: int, j: int, k: int)
    requires
        0 <= i <= j <= k <= s.len(),
    ensures
        newlines(s.subrange(i, k)) == newlines(s.subrange(i, j)) + newlines(s.subrange(j, k)),
{
    assert(s.subrange(i, k) =~= s.subrange(i, j) + s.subrange(j, k));
    lemma_newlines_concat(s.subrange(i, j), s.subrange(j, k));
}

proof fn lemma_blank_block_newlines(s: Seq<char>, j: int, acc: Seq<char>)
    requires
        0 <= j <= s.len(),
    ensures
        j <= blank_block(s, j, acc).1 <= s.len(),
        newlines(blank_block(s, j, acc).0) == newlines(acc) + newlines(
            s.subrange(j, blank_block(s, j, acc).1),
        ),
    decreases s.len() - j,
{
    if j == s.len() {
        assert(s.subrange(j, j) =~= Seq::<char>::empty());
    } else if s[j] == '*' && j + 1 < s.len() && s[j + 1] == '/' {
        lemma_newlines_sub_split(s, j, j + 1, j + 2);
        lemma_newlines_at(s, j);
        lemma_newlines_at(s, j + 1);
        lemma_newlines_push(acc, ' ');
        lemma_newlines_push(acc.push(' '), ' ');
    } else {
        let c = if s[j] == '\n' { '\n' } else { ' ' };
        lemma_blank_block_newlines(s, j + 1, acc.push(c));
        lemma_newlines_push(acc, c);
        let k = blank_block(s, j, acc).1;
        lemma_newlines_sub_split(s, j, j + 1, k);
        lemma_newlines_at(s, j);
    }
}

proof fn lemma_strip_from_newlines(s: Seq<char>, i: int, acc: Seq<char>)
    requires
        0 <= i <= s.len(),
    ensures
        newlines(strip_from(s, i, acc)) == newlines(acc) + newlines(s.subrange(i, s.len() as int)),
    decreases s.len() - i,
{
    let n = s.len() as int;
    if i == n {
        assert(s.subrange(i, n) =~= Seq::<char>::empty());
    } else if s[i] == '/' && i + 1 < n && s[i + 1] == '/' {
        lemma_line_end_bounds(s, i + 1);
        let k = line_end(s, i + 1);
        lemma_newlines_sub_split(s, i, k, n);
        lemma_no_newlines(s.subrange(i, k));
        if k < n {
            lemma_newlines_sub_split(s, k, k + 1, n);
            lemma_newlines_at(s, k);
            lemma_newlines_push(acc, '\n');
            lemma_strip_from_newlines(s, k + 1, acc.push('\n'));
        } else {
            assert(s.subrange(k, n) =~= Seq::<char>::empty());
        }
    } else if s[i] == '/' && i + 1 < n && s[i + 1] == '*' {
        let acc2 = acc.push(' ').push(' ');
        lemma_newlines_push(acc, ' ');
        lemma_newlines_push(acc.push(' '), ' ');
        lemma_blank_block_newlines(s, i + 2, acc2);
        let (out, k) = blank_block(s, i + 2, acc2);
        lemma_newlines_sub_split(s, i, i + 2, n);
        lemma_newlines_sub_split(s, i, i + 1, i + 2);
        lemma_newlines_at(s, i);
        lemma_newlines_at(s, i + 1);
        lemma_newlines_sub_split(s, i + 2, k, n);
        lemma_strip_from_newlines(s, k, out);
    } else {
        lemma_newlines_push(acc, s[i]);
        lemma_newlines_sub_split(s, i, i + 1, n);
        lemma_newlines_at(s, i);
        lemma_strip_from_newlines(s, i + 1, acc.push(s[i]));
    }
}

/// Stripping comments keeps every newline and adds none, so the lines of the
/// text keep their numbers.
pub proof fn law_strip_comments_keeps_lines(s: Seq<char>)
    ensures
        newlines(stripped(s)) == newlines(s),
{
    lemma_strip_from_newlines(s, 0, Seq::empty());
    assert(s.subrange(0, s.len() as int) =~= s);
}

proof fn lemma_strip_from_no_slash(s: Seq<char>, i: int, acc: Seq<char>)
    requires
        0 <= i <= s.len(),
        forall|m: int| 0 <= m < s.len() ==> s[m] != '/',
    ensures
        strip_from(s, i, acc) == acc + s.subrange(i, s.len() as int),
    decreases s.len() - i,
{
    if i == s.len() {
        assert(acc + s.subrange(i, i) =~= acc);
    } else {
        lemma_strip_from_no_slash(s, i + 1, acc.push(s[i]));
        assert(acc.push(s[i]) + s.subrange(i + 1, s.len() as int) =~= acc + s.subrange(
            i,
            s.len() as int,
        ));
    }
}


/// Whether `r` keeps `s` character by character up to `k`, with some
/// characters other than newlines blanked to spaces.
pub open spec fn blanked_upto(r: Seq<char>, s: Seq<char>, k: int) -> bool {
    forall|m: int| 0 <= m < k ==> #[trigger] r[m] == s[m] || (r[m] == ' ' && s[m] != '\n')
}

proof fn lemma_blank_block_columns(s: Seq<char>, j: int, acc: Seq<char>)
    requires
        0 <= j <= s.len(),
        acc.len() == j,
        blanked_upto(acc, s, j),
    ensures
        blank_block(s, j, acc).0.len() == blank_block(s, j, acc).1,
        blanked_upto(blank_block(s, j, acc).0, s, blank_block(s, j, acc).1),
    decreases s.len() - j,
{
    if j < s.len() {
        if s[j] == '*' && j + 1 < s.len() && s[j + 1] == '/' {
            let r = acc.push(' ').push(' ');
            assert forall|m: int| 0 <= m < j + 2 implies #[trigger] r[m] == s[m] || (r[m] == ' ' && s[m] != '\n') by {
                if m < j {
                    assert(r[m] == acc[m]);
                }
            }
        } else {
            let c = if s[j] == '\n' { '\n' } else { ' ' };
            let r = acc.push(c);
            assert forall|m: int| 0 <= m < j + 1 implies #[trigger] r[m] == s[m] || (r[m] == ' ' && s[m] != '\n') by {
                if m < j {
                    assert(r[m] == acc[m]);
                }
            }
            lemma_blank_block_columns(s, j + 1, r);
        }
    }
}

proof fn lemma_strip_from_columns(s: Seq<char>, i: int, acc: Seq<char>)
    requires
        0 <= i <= s.len(),
        acc.len() == i,
        blanked_upto(acc, s, i),
        forall|m: int| 0 <= m < s.len() - 1 ==> !(#[trigger] s[m] == '/' && s[m + 1] == '/'),
    ensures
        strip_from(s, i, acc).len() == s.len(),
        blanked_upto(strip_from(s, i, acc), s, s.len() as int),
    decreases s.len() - i,
{
    if i < s.len() {
        if s[i] == '/' && i + 1 < s.len() && s[i + 1] == '/' {
            assert(!(s[i] == '/' && s[i + 1] == '/'));
        } else if s[i] == '/' && i + 1 < s.len() && s[i + 1] == '*' {
            let acc2 = acc.push(' ').push(' ');
            assert forall|m: int| 0 <= m < i + 2 implies #[trigger] acc2[m] == s[m] || (acc2[m] == ' ' && s[m] != '\n') by {
                if m < i {
                    assert(acc2[m] == acc[m]);
                }
            }
            lemma_blank_block_columns(s, i + 2, acc2);
            lemma_blank_block_bounds(s, i + 2, acc2);
            let (out, k) = blank_block(s, i + 2, acc2);
            lemma_strip_from_columns(s, k, out);
        } else {
            let r = acc.push(s[i]);
            assert forall|m: int| 0 <= m < i + 1 implies #[trigger] r[m] == s[m] || (r[m] == ' ' && s[m] != '\n') by {
                if m < i {
                    assert(r[m] == acc[m]);
                }
            }
            lemma_strip_from_columns(s, i + 1, r);
        }
    }
}

/// In text without `//` line comments, stripping block comments keeps
/// every other character at its place: the result is as long as the text,
/// and each character is either kept or, if it is not a newline, blanked to
/// a space, so the rest keeps its lines and columns.
pub proof fn law_strip_comments_keeps_columns(s: Seq<char>)
    requires
        forall|m: int| 0 <= m < s.len() - 1 ==> !(#[trigger] s[m] == '/' && s[m + 1] == '/'),
    ensures
        stripped(s).len() == s.len(),
        blanked_upto(stripped(s), s, s.len() as int),
{
    lemma_strip_from_columns(s, 0, Seq::empty());
}

/// Text without a `/` holds no comment and comes back unchanged.
pub proof fn law_strip_comments_identity_without_slash(s: Seq<char>)
    requires
        forall|m: int| 0 <= m < s.len() ==> s[m] != '/',
    ensures
        stripped(s) == s,
{
    lemma_strip_from_no_slash(s, 0, Seq::empty());
    assert(Seq::<char>::empty() + s.subrange(0, s.len() as int) =~= s);
}

// ---------------------------------------------------------------------------
// Tokenizer
// ---------------------------------------------------------------------------

/// Source position of a token.
pub struct Span {
    pub line: usize,
}

/// A header such as `<region>` (name lower-cased) or an `opcode=value` pair
/// (key lower-cased, value verbatim after escapes).
pub enum TokenKind {
    Header(String),
    Opcode(String, String),
}

pub struct Token {
    pub kind: TokenKind,
    pub span: Span,
}

/// A lexeme as it stands in the text, before lower-casing.
pub ghost enum Lexeme {
    Header(Seq<char>),
    Opcode(Seq<char>, Seq<char>),
}

/// A lexeme with the line it starts on.
pub ghost struct LexItem {
    pub lexeme: Lexeme,
    pub line: int,
}

/// Index of the first `>` at or after `j`, or the end of the text.
pub open spec fn header_close(s: Seq<char>, j: int) -> int
    decreases s.len() - j,
{
    if j >= s.len() || s[j] == '>' {
        j
    } else {
        header_close(s, j + 1)
    }
}

/// End of an opcode key that starts at `j`: the first `=`, white space or `<`.
pub open spec fn key_end(s: Seq<char>, j: int) -> int
    decreases s.len() - j,
{
    if j >= s.len() || s[j] == '=' || is_ws(s[j]) || s[j] == '<' {
        j
    } else {
        key_end(s, j + 1)
    }
}

/// Reads an opcode value from `j` on, with `acc` read so far: a backslash
/// before white space, `<` or another backslash escapes it; any other
/// backslash is kept; the value ends at unescaped white space or `<`.
/// Gives the value and the index after it.
pub open spec fn scan_value(s: Seq<char>, j: int, acc: Seq<char>) -> (Seq<char>, int)
    decreases s.len() - j,
{
    if j < 0 || j >= s.len() {
        (acc, j)
    } else if s[j] == '\\' {
        if j + 1 < s.len() {
            let e = s[j + 1];
            if is_ws(e) || e == '<' || e == '\\' {
                scan_value(s, j + 2, acc.push(e))
            } else {
                scan_value(s, j + 1, acc.push('\\'))
            }
        } else {
            (acc, j + 1)
        }
    } else if is_ws(s[j]) || s[j] == '<' {
        (acc, j)
    } else {
        scan_value(s, j + 1, acc.push(s[j]))
    }
}

/// The lexemes of `s` from index `i` on, after those already read (`acc`),
/// with `line` the current line number.
pub open spec fn lex_from(s: Seq<char>, i: int, line: int, acc: Seq<LexItem>) -> Seq<LexItem>
    decreases s.len() - i,
{
    if i < 0 || i >= s.len() {
        acc
    } else if s[i] == '<' {
        proof {
            lemma_header_close_bounds(s, i + 1);
        }
        let close = header_close(s, i + 1);
        let next = if close < s.len() { close + 1 } else { close };
        lex_from(
            s,
            next,
            line,
            acc.push(LexItem { lexeme: Lexeme::Header(s.subrange(i + 1, close)), line }),
        )
    } else if is_ws(s[i]) {
        lex_from(s, i + 1, if s[i] == '\n' { line + 1 } else { line }, acc)
    } else {
        proof {
            lemma_key_end_bounds(s, i);
        }
        let k = key_end(s, i);
        if k == i {
            // A stray `=`: it and the character after it are dropped.
            lex_from(s, if i + 2 <= s.len() { i + 2 } else { s.len() as int }, line, acc)
        } else {
            let vstart = if k < s.len() && s[k] == '=' { k + 1 } else { k };
            proof {
                lemma_scan_value_bounds(s, vstart, Seq::empty());
            }
            let (value, vend) = scan_value(s, vstart, Seq::empty());
            lex_from(
                s,
                vend,
                line,
                acc.push(LexItem { lexeme: Lexeme::Opcode(s.subrange(i, k), value), line }),
            )
        }
    }
}

/// The lexemes of an SFZ text, line numbers starting at 1.
pub open spec fn lex(s: Seq<char>) -> Seq<LexItem> {
    lex_from(s, 0, 1, Seq::empty())
}

impl Token {
    /// This token is the lexeme `item` with its names lower-cased.
    pub open spec fn is_lexed_from(&self, item: LexItem) -> bool {
        &&& self.span.line == item.line
        &&& match (self.kind, item.lexeme) {
            (TokenKind::Header(n), Lexeme::Header(raw)) => n@ == unicode_lower(raw),
            (TokenKind::Opcode(k, v), Lexeme::Opcode(rk, rv)) => k@ == unicode_lower(rk) && v@ == rv,
            _ => false,
        }
    }
}

pub proof fn lemma_header_close_bounds(s: Seq<char>, j: int)
    requires
        0 <= j <= s.len(),
    ensures
        j <= header_close(s, j) <= s.len(),
        header_close(s, j) < s.len() ==> s[header_close(s, j)] == '>',
    decreases s.len() - j,
{
    if j < s.len() && s[j] != '>' {
        lemma_header_close_bounds(s, j + 1);
    }
}

pub proof fn lemma_key_end_bounds(s: Seq<char>, j: int)
    requires
        0 <= j <= s.len(),
    ensures
        j <= key_end(s, j) <= s.len(),
    decreases s.len() - j,
{
    if j < s.len() && !(s[j] == '=' || is_ws(s[j]) || s[j] == '<') {
        lemma_key_end_bounds(s, j + 1);
    }
}

pub proof fn lemma_scan_value_bounds(s: Seq<char>, j: int, acc: Seq<char>)
    requires
        0 <= j <= s.len(),
    ensures
        j <= scan_value(s, j, acc).1 <= s.len(),
    decreases s.len() - j,
{
    if j < s.len() {
        if s[j] == '\\' {
            if j + 1 < s.len() {
                let e = s[j + 1];
                if is_ws(e) || e == '<' || e == '\\' {
                    lemma_scan_value_bounds(s, j + 2, acc.push(e));
                } else {
                    lemma_scan_value_bounds(s, j + 1, acc.push('\\'));
                }
            }
        } else if !(is_ws(s[j]) || s[j] == '<') {
            lemma_scan_value_bounds(s, j + 1, acc.push(s[j]));
        }
    }
}

/// Splits SFZ text into header and opcode tokens.
pub fn tokenize(text: &str) -> (tokens: Vec<Token>)
    requires
        text@.len() < usize::MAX,
    ensures
        tokens@.len() == lex(text@).len(),
        forall|t: int| 0 <= t < tokens@.len() ==> #[trigger] tokens@[t].is_lexed_from(lex(text@)[t]),
{
    let chars = chars_of(text);
    let s = chars.as_slice();
    let n = s.len();
    let ghost sv = s@;
    let mut tokens: Vec<Token> = Vec::new();
    let mut line: usize = 1;
    let mut i: usize = 0;
    let ghost mut items: Seq<LexItem> = Seq::empty();
    while i < n
        invariant
            n == sv.len() == text@.len(),
            sv == s@,
            sv == text@,
            n < usize::MAX,
            i <= n,
            1 <= line <= i + 1,
            lex(sv) == lex_from(sv, i as int, line as int, items),
            tokens@.len() == items.len(),
            forall|t: int| 0 <= t < tokens@.len() ==> #[trigger] tokens@[t].is_lexed_from(items[t]),
        decreases n - i,
    {
        let c = s[i];
        let ghost i0 = i as int;
        let ghost line0 = line as int;
        let ghost items0 = items;
        if c == '<' {
            let ghost start = i;
            i = i + 1;
            let mut name: Vec<char> = Vec::new();
            proof { lemma_header_close_bounds(sv, i as int); }
            while i < n && s[i] != '>'
                invariant
                    n == sv.len(),
                    sv == s@,
                    start + 1 <= i <= n,
                    header_close(sv, start + 1) == header_close(sv, i as int),
                    name@ == sv.subrange(start + 1, i as int),
                decreases n - i,
            {
                name.push(s[i]);
                i = i + 1;
                assert(name@ =~= sv.subrange(start + 1, i as int));
            }
            assert(i == header_close(sv, start + 1));
            if i < n {
                i = i + 1;
            }
            let name_str = string_from_chars(name.as_slice());
            let lowered = to_lowercase(name_str.as_str());
            let ghost item = LexItem { lexeme: Lexeme::Header(name@), line: line as int };
            let ghost prev = tokens@;
            tokens.push(Token { kind: TokenKind::Header(lowered), span: Span { line } });
            proof {
                items = items.push(item);
                assert(tokens@.last().is_lexed_from(items.last()));
                assert forall|t: int| 0 <= t < tokens@.len() implies #[trigger] tokens@[t].is_lexed_from(items[t]) by {
                    if t < tokens@.len() - 1 {
                        assert(tokens@[t] == prev[t]);
                    }
                }
                assert(lex_from(sv, i0, line0, items0) == lex_from(sv, i as int, line as int, items));
            }
        } else if is_whitespace(c) {
            if c == '\n' {
                line = line + 1;
            }
            i = i + 1;
        } else {
            let ghost start = i;
            let mut key: Vec<char> = Vec::new();
            proof { lemma_key_end_bounds(sv, i as int); }
            while i < n && s[i] != '=' && !is_whitespace(s[i]) && s[i] != '<'
                invariant
                    n == sv.len(),
                    sv == s@,
                    start <= i <= n,
                    key_end(sv, start as int) == key_end(sv, i as int),
                    key@ == sv.subrange(start as int, i as int),
                decreases n - i,
            {
                key.push(s[i]);
                i = i + 1;
                assert(key@ =~= sv.subrange(start as int, i as int));
            }
            assert(i == key_end(sv, start as int));
            if i < n && s[i] == '=' {
                i = i + 1;
            }
            if key.len() == 0 {
                // Only a stray `=` reaches here; it and its follower are dropped.
                if i < n {
                    i = i + 1;
                }
                assert(lex_from(sv, i0, line0, items0) == lex_from(sv, i as int, line as int, items));
            } else {
                let ghost vstart = i;
                let mut value: Vec<char> = Vec::new();
                proof { lemma_scan_value_bounds(sv, i as int, Seq::empty()); }
                while i < n
                    invariant
                        n == sv.len(),
                        sv == s@,
                        vstart <= i <= n,
                        scan_value(sv, vstart as int, Seq::empty()) == scan_value(sv, i as int, value@),
                    ensures
                        vstart <= i <= n,
                        scan_value(sv, vstart as int, Seq::empty()) == scan_value(sv, i as int, value@),
                        scan_value(sv, i as int, value@) == (value@, i as int),
                    decreases n - i,
                {
                    let ch = s[i];
                    if ch == '\\' {
                        if i + 1 < n {
                            let e = s[i + 1];
                            if is_whitespace(e) || e == '<' || e == '\\' {
                                value.push(e);
                                i = i + 2;
                            } else {
                                value.push('\\');
                                i = i + 1;
                            }
                        } else {
                            i = i + 1;
                        }
                    } else if is_whitespace(ch) || ch == '<' {
                        break;
                    } else {
                        value.push(ch);
                        i = i + 1;
                    }
                }
                assert(scan_value(sv, i as int, value@) == (value@, i as int));
                let key_str = string_from_chars(key.as_slice());
                let lowered = to_lowercase(key_str.as_str());
                let value_str = string_from_chars(value.as_slice());
                let ghost item = LexItem {
                    lexeme: Lexeme::Opcode(sv.subrange(start as int, (start + key@.len()) as int), value@),
                    line: line as int,
                };
                let ghost prev = tokens@;
                tokens.push(Token { kind: TokenKind::Opcode(lowered, value_str), span: Span { line } });
                proof {
                    assert(key@ =~= sv.subrange(start as int, (start + key@.len()) as int));
                    items = items.push(item);
                    assert(tokens@.last().is_lexed_from(items.last()));
                    assert forall|t: int| 0 <= t < tokens@.len() implies #[trigger] tokens@[t].is_lexed_from(items[t]) by {
                        if t < tokens@.len() - 1 {
                            assert(tokens@[t] == prev[t]);
                        }
                    }
                    assert(lex_from(sv, i0, line0, items0) == lex_from(sv, i as int, line as int, items));
                }
            }
        }
    }
    tokens
}

} // verus!
