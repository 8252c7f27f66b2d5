//! The SFZ preprocessor, line by line: `#define`, `#if`/`#else`/`#end`,
//! macro substitution, and the `#include` requests that the caller answers
//! with the included file's preprocessed text.

use vstd::prelude::*;
use crate::common::text::{
    chars_of, first_newline, is_whitespace, is_ws, lemma_first_newline, string_from_chars, trim,
    trim_chars, chars_eq_str,
};
use crate::sampler::dsp::sfz::{
    evaluate_if_condition, if_condition, is_active, substitute_from, DefineTable, IfState, SfzError,
};

verus! {

broadcast use vstd::string::group_string_axioms;

// ---------------------------------------------------------------------------
// Lines and words
// ---------------------------------------------------------------------------

/// `s` without one trailing carriage return.
pub open spec fn strip_cr(s: Seq<char>) -> Seq<char> {
    if s.len() > 0 && s.last() == '\r' {
        s.drop_last()
    } else {
        s
    }
}

/// The lines of a text as `str::lines` gives them: split at `\n`, a `\r`
/// before the `\n` dropped, and no empty line after a final `\n`.
pub open spec fn lines_of(s: Seq<char>) -> Seq<Seq<char>>
    decreases s.len(),
{
    if s.len() == 0 {
        Seq::empty()
    } else {
        let nl = first_newline(s);
        if nl < 0 {
            seq![s]
        } else {
            proof {
                lemma_first_newline(s);
            }
            seq![strip_cr(s.take(nl))] + lines_of(s.skip(nl + 1))
        }
    }
}

pub open spec fn texts(v: Seq<Vec<char>>) -> Seq<Seq<char>> {
    v.map_values(|x: Vec<char>| x@)
}

/// Splits a text into lines.
pub fn split_lines(text: &[char]) -> (r: Vec<Vec<char>>)
    ensures
        texts(r@) == lines_of(text@),
{
    let mut out: Vec<Vec<char>> = Vec::new();
    let mut start: usize = 0;
    let n = text.len();
    assert(text@.skip(0) =~= text@);
    while start < n
        invariant
            start <= n == text@.len(),
            lines_of(text@) == texts(out@) + lines_of(text@.skip(start as int)),
        decreases n - start,
    {
        let ghost rest = text@.skip(start as int);
        let mut j = start;
        while j < n && text[j] != '\n'
            invariant
                start <= j <= n == text@.len(),
                forall|k: int| start <= k < j ==> text@[k] != '\n',
            decreases n - j,
        {
            j = j + 1;
        }
        proof {
            lemma_first_newline(rest);
        }
        let mut end = j;
        if j < n && end > start && text[end - 1] == '\r' {
            end = end - 1;
        }
        let line = slice_vec(text, start, end);
        let ghost before = out@;
        out.push(line);
        if j < n {
            assert(first_newline(rest) == j - start) by {
                if first_newline(rest) < 0 || first_newline(rest) > j - start {
                    assert(rest[j - start] == '\n');
                } else if first_newline(rest) < j - start {
                    assert(rest[first_newline(rest)] == text@[start + first_newline(rest)]);
                }
            }
            assert(rest.skip(j - start + 1) =~= text@.skip(j + 1));
            assert(strip_cr(rest.take(j - start)) =~= text@.subrange(start as int, end as int));
            assert(texts(out@) =~= texts(before).push(text@.subrange(start as int, end as int)));
            start = j + 1;
        } else {
            assert(first_newline(rest) < 0) by {
                if first_newline(rest) >= 0 {
                    assert(rest[first_newline(rest)] == text@[start + first_newline(rest)]);
                }
            }
            assert(rest =~= text@.subrange(start as int, end as int));
            assert(text@.skip(n as int) =~= Seq::<char>::empty());
            assert(texts(out@) =~= texts(before).push(text@.subrange(start as int, end as int)));
            start = n;
        }
    }
    assert(text@.skip(n as int) =~= Seq::<char>::empty());
    assert(texts(out@) + Seq::<Seq<char>>::empty() =~= texts(out@));
    out
}

fn slice_vec(s: &[char], from: usize, to: usize) -> (r: Vec<char>)
    requires
        from <= to <= s@.len(),
    ensures
        r@ == s@.subrange(from as int, to as int),
{
    let mut v: Vec<char> = Vec::new();
    let mut i = from;
    while i < to
        invariant
            from <= i <= to <= s@.len(),
            v@ == s@.subrange(from as int, i as int),
        decreases to - i,
    {
        v.push(s[i]);
        i = i + 1;
        assert(v@ =~= s@.subrange(from as int, i as int));
    }
    v
}

/// Number of leading characters of `s` that are not white space.
pub open spec fn word_len(s: Seq<char>) -> int
    decreases s.len(),
{
    if s.len() == 0 || is_ws(s[0]) {
        0
    } else {
        1 + word_len(s.drop_first())
    }
}

pub proof fn lemma_word_len(s: Seq<char>)
    ensures
        0 <= word_len(s) <= s.len(),
        forall|k: int| 0 <= k < word_len(s) ==> !is_ws(#[trigger] s[k]),
        word_len(s) < s.len() ==> is_ws(s[word_len(s)]),
    decreases s.len(),
{
    if s.len() > 0 && !is_ws(s[0]) {
        lemma_word_len(s.drop_first());
        assert forall|k: int| 0 <= k < word_len(s) implies !is_ws(#[trigger] s[k]) by {
            if k > 0 {
                assert(s.drop_first()[k - 1] == s[k]);
            }
        }
        if word_len(s) < s.len() {
            assert(s.drop_first()[word_len(s) - 1] == s[word_len(s)]);
        }
    }
}

/// The words of a text as `str::split_whitespace` gives them: the maximal
/// runs of characters that are not white space.
pub open spec fn words_of(s: Seq<char>) -> Seq<Seq<char>>
    decreases s.len(),
{
    if s.len() == 0 {
        Seq::empty()
    } else if is_ws(s[0]) {
        words_of(s.drop_first())
    } else {
        let e = word_len(s);
        proof {
            lemma_word_len(s);
        }
        seq![s.take(e)] + words_of(s.skip(e))
    }
}

/// Splits a text into words.
pub fn split_words(s: &[char]) -> (r: Vec<Vec<char>>)
    ensures
        texts(r@) == words_of(s@),
{
    let mut out: Vec<Vec<char>> = Vec::new();
    let mut i: usize = 0;
    let n = s.len();
    assert(s@.skip(0) =~= s@);
    while i < n
        invariant
            i <= n == s@.len(),
            words_of(s@) == texts(out@) + words_of(s@.skip(i as int)),
        decreases n - i,
    {
        let ghost rest = s@.skip(i as int);
        if is_whitespace(s[i]) {
            assert(rest.drop_first() =~= s@.skip(i + 1));
            i = i + 1;
        } else {
            let mut j = i;
            proof {
                lemma_word_len(rest);
            }
            while j < n && !is_whitespace(s[j])
                invariant
                    i <= j <= n == s@.len(),
                    j - i <= word_len(rest),
                    rest == s@.skip(i as int),
                    word_len(rest) <= rest.len(),
                    word_len(rest) < rest.len() ==> is_ws(rest[word_len(rest)]),
                decreases n - j,
            {
                assert(rest[j - i] == s@[j as int]);
                j = j + 1;
            }
            assert(j - i == word_len(rest)) by {
                if j - i < word_len(rest) {
                    assert(rest[j - i] == s@[j as int]);
                }
            }
            let w = slice_vec(s, i, j);
            let ghost before = out@;
            out.push(w);
            assert(rest.take(j - i) =~= s@.subrange(i as int, j as int));
            assert(rest.skip(j - i) =~= s@.skip(j as int));
            assert(texts(out@) =~= texts(before).push(s@.subrange(i as int, j as int)));
            i = j;
        }
    }
    assert(s@.skip(n as int) =~= Seq::<char>::empty());
    assert(texts(out@) + Seq::<Seq<char>>::empty() =~= texts(out@));
    out
}

/// Words joined with single spaces.
pub open spec fn join_words(ws: Seq<Seq<char>>) -> Seq<char>
    decreases ws.len(),
{
    if ws.len() == 0 {
        Seq::empty()
    } else if ws.len() == 1 {
        ws[0]
    } else {
        ws[0] + seq![' '] + join_words(ws.drop_first())
    }
}

// ---------------------------------------------------------------------------
// The line step
// ---------------------------------------------------------------------------

/// What the preprocessor holds between lines: the text so far, the macros,
/// and the `#if` levels.
pub ghost struct PreState {
    pub output: Seq<char>,
    pub defines: Map<Seq<char>, Seq<char>>,
    pub stack: Seq<IfState>,
}

/// What a line does: the next state, possibly with a request to include a
/// file in place (its argument text), or a failure with a message and the
/// one-based line.
pub ghost enum LineOutcome {
    Next(PreState),
    Include(PreState, Seq<char>),
    Fail(Seq<char>, int),
}

pub open spec fn all_taking(stack: Seq<IfState>) -> bool {
    forall|i: int| 0 <= i < stack.len() ==> stack[i] == IfState::Taking
}

/// Whether an `#if` condition holds for the macros.
pub open spec fn condition_holds(cond: Seq<char>, defines: Map<Seq<char>, Seq<char>>) -> bool {
    if if_condition(cond).0 {
        !defines.contains_key(if_condition(cond).1)
    } else {
        defines.contains_key(if_condition(cond).1)
    }
}

/// The state after `#else`: a taking level becomes done, a skipping one
/// taking, a done one stays done.
pub open spec fn else_state(s: IfState) -> IfState {
    match s {
        IfState::Taking => IfState::Done,
        IfState::Skipping => IfState::Taking,
        IfState::Done => IfState::Done,
    }
}

/// One line of the preprocessor, numbered from zero.
pub open spec fn line_step(st: PreState, line_no: int, line: Seq<char>) -> LineOutcome {
    let t = trim(line);
    if t.len() > 0 && t[0] == '#' {
        let parts = words_of(t.drop_first());
        if parts.len() == 0 {
            LineOutcome::Next(st)
        } else if parts[0] == "include"@ {
            if !all_taking(st.stack) {
                LineOutcome::Next(st)
            } else if parts.len() < 2 {
                LineOutcome::Fail("#include missing path"@, line_no + 1)
            } else {
                LineOutcome::Include(st, parts[1])
            }
        } else if parts[0] == "define"@ {
            if !all_taking(st.stack) {
                LineOutcome::Next(st)
            } else if parts.len() < 2 {
                LineOutcome::Fail("#define missing name"@, line_no + 1)
            } else {
                LineOutcome::Next(
                    PreState { defines: st.defines.insert(parts[1], join_words(parts.skip(2))), ..st },
                )
            }
        } else if parts[0] == "if"@ {
            let cond = if parts.len() > 1 {
                parts[1]
            } else {
                Seq::empty()
            };
            let taking = all_taking(st.stack) && condition_holds(cond, st.defines);
            LineOutcome::Next(
                PreState {
                    stack: st.stack.push(
                        if taking {
                            IfState::Taking
                        } else {
                            IfState::Skipping
                        },
                    ),
                    ..st
                },
            )
        } else if parts[0] == "else"@ {
            if st.stack.len() == 0 {
                LineOutcome::Fail("#else without #if"@, line_no + 1)
            } else {
                LineOutcome::Next(
                    PreState {
                        stack: st.stack.update(st.stack.len() - 1, else_state(st.stack.last())),
                        ..st
                    },
                )
            }
        } else if parts[0] == "end"@ {
            if st.stack.len() == 0 {
                LineOutcome::Fail("#end without #if"@, line_no + 1)
            } else {
                LineOutcome::Next(PreState { stack: st.stack.drop_last(), ..st })
            }
        } else {
            LineOutcome::Next(st)
        }
    } else if !all_taking(st.stack) {
        LineOutcome::Next(st)
    } else {
        LineOutcome::Next(
            PreState {
                output: st.output + substitute_from(line, 0, st.defines, Seq::empty()) + seq!['\n'],
                ..st
            },
        )
    }
}

/// What the caller does after a line.
pub enum LineAction {
    /// Go on with the next line.
    Continue,
    /// Preprocess the named file and hand its text to `push_included`.
    Include(String),
}

/// The preprocessor between lines.
pub struct Preprocessor {
    pub output: Vec<char>,
    pub defines: DefineTable,
    pub if_stack: Vec<IfState>,
}

impl View for Preprocessor {
    type V = PreState;

    open spec fn view(&self) -> PreState {
        PreState { output: self.output@, defines: self.defines@, stack: self.if_stack@ }
    }
}

fn push_all(out: &mut Vec<char>, s: &[char])
    ensures
        final(out)@ == old(out)@ + s@,
{
    let mut i: usize = 0;
    let ghost start = out@;
    while i < s.len()
        invariant
            i <= s@.len(),
            out@ == start + s@.take(i as int),
        decreases s@.len() - i,
    {
        out.push(s[i]);
        i = i + 1;
        assert(out@ =~= start + s@.take(i as int));
    }
    assert(s@.take(s@.len() as int) =~= s@);
}

fn join_from(parts: &Vec<Vec<char>>, from: usize) -> (r: Vec<char>)
    requires
        from <= parts@.len(),
    ensures
        r@ == join_words(texts(parts@).skip(from as int)),
{
    let mut out: Vec<char> = Vec::new();
    let n = parts.len();
    if from == n {
        assert(texts(parts@).skip(from as int) =~= Seq::<Seq<char>>::empty());
        return out;
    }
    let mut k = n;
    // Build from the back: join(ws[k-1..]) is the last word, then each earlier
    // word, a space, and the join so far.
    let mut tail: Vec<char> = Vec::new();
    push_all(&mut tail, parts[n - 1].as_slice());
    k = n - 1;
    assert(texts(parts@).skip(k as int) =~= seq![parts@[k as int]@]);
    while k > from
        invariant
            from <= k < n == parts@.len(),
            tail@ == join_words(texts(parts@).skip(k as int)),
        decreases k,
    {
        let mut next: Vec<char> = Vec::new();
        push_all(&mut next, parts[k - 1].as_slice());
        next.push(' ');
        push_all(&mut next, tail.as_slice());
        let ghost ws = texts(parts@).skip(k - 1);
        assert(ws.drop_first() =~= texts(parts@).skip(k as int));
        assert(ws[0] == parts@[k - 1]@);
        tail = next;
        k = k - 1;
    }
    out = tail;
    out
}

impl Preprocessor {
    pub fn new() -> (r: Self)
        ensures
            r@ == (PreState { output: Seq::empty(), defines: Map::empty(), stack: Seq::empty() }),
    {
        Preprocessor { output: Vec::new(), defines: DefineTable::new(), if_stack: Vec::new() }
    }

    /// Handles one line, numbered from zero.
    pub fn process_line(&mut self, line_no: usize, line: &str) -> (r: Result<LineAction, SfzError>)
        requires
            line_no < usize::MAX,
        ensures
            match line_step(old(self)@, line_no as int, line@) {
                LineOutcome::Next(st) => r matches Ok(LineAction::Continue) && final(self)@ == st,
                LineOutcome::Include(st, p) => r matches Ok(LineAction::Include(q)) && q@ == p
                    && final(self)@ == st,
                LineOutcome::Fail(msg, n) => r matches Err(e) && e.message@ == msg && e.line == n
                    && e.column == 1,
            },
    {
        let chars = chars_of(line);
        let t = trim_chars(chars.as_slice());
        if t.len() > 0 && t[0] == '#' {
            let rest = &t.as_slice()[1..t.len()];
            assert(rest@ =~= t@.drop_first());
            let parts = split_words(rest);
            let ghost pv = texts(parts@);
            if parts.len() == 0 {
                return Ok(LineAction::Continue);
            }
            let head = parts[0].as_slice();
            assert(head@ == pv[0]);
            if chars_eq_str(head, "include") {
                if !is_active(self.if_stack.as_slice()) {
                    return Ok(LineAction::Continue);
                }
                if parts.len() < 2 {
                    return Err(SfzError::new("#include missing path".to_owned(), line_no + 1, 1));
                }
                assert(parts@[1]@ == pv[1]);
                return Ok(LineAction::Include(string_from_chars(parts[1].as_slice())));
            } else if chars_eq_str(head, "define") {
                if !is_active(self.if_stack.as_slice()) {
                    return Ok(LineAction::Continue);
                }
                if parts.len() < 2 {
                    return Err(SfzError::new("#define missing name".to_owned(), line_no + 1, 1));
                }
                assert(parts@[1]@ == pv[1]);
                let name = string_from_chars(parts[1].as_slice());
                let value_chars = join_from(&parts, 2);
                let value = string_from_chars(value_chars.as_slice());
                self.defines.define(name, value);
                return Ok(LineAction::Continue);
            } else if chars_eq_str(head, "if") {
                let cond = if parts.len() > 1 {
                    assert(parts@[1]@ == pv[1]);
                    string_from_chars(parts[1].as_slice())
                } else {
                    String::new()
                };
                let active = is_active(self.if_stack.as_slice()) && evaluate_if_condition(
                    cond.as_str(),
                    &self.defines,
                );
                if active {
                    self.if_stack.push(IfState::Taking);
                } else {
                    self.if_stack.push(IfState::Skipping);
                }
                return Ok(LineAction::Continue);
            } else if chars_eq_str(head, "else") {
                if self.if_stack.len() == 0 {
                    return Err(SfzError::new("#else without #if".to_owned(), line_no + 1, 1));
                }
                let last = self.if_stack.len() - 1;
                let top = self.if_stack[last];
                let next = match top {
                    IfState::Taking => IfState::Done,
                    IfState::Skipping => IfState::Taking,
                    IfState::Done => IfState::Done,
                };
                self.if_stack.set(last, next);
                return Ok(LineAction::Continue);
            } else if chars_eq_str(head, "end") {
                if self.if_stack.len() == 0 {
                    return Err(SfzError::new("#end without #if".to_owned(), line_no + 1, 1));
                }
                self.if_stack.pop();
                return Ok(LineAction::Continue);
            } else {
                return Ok(LineAction::Continue);
            }
        }
        if !is_active(self.if_stack.as_slice()) {
            return Ok(LineAction::Continue);
        }
        let applied = self.defines.apply(line);
        let ac = chars_of(applied.as_str());
        let ghost before = self.output@;
        push_all(&mut self.output, ac.as_slice());
        self.output.push('\n');
        assert(self.output@ =~= before + substitute_from(line@, 0, self.defines@, Seq::empty()) + seq!['\n']);
        Ok(LineAction::Continue)
    }

    /// Adds the preprocessed text of an included file, then a newline.
    pub fn push_included(&mut self, text: &str)
        ensures
            final(self)@ == (PreState { output: old(self)@.output + text@ + seq!['\n'], ..old(self)@ }),
    {
        let c = chars_of(text);
        let ghost before = self.output@;
        push_all(&mut self.output, c.as_slice());
        self.output.push('\n');
        assert(self.output@ =~= before + text@ + seq!['\n']);
    }

    /// Handles the lines from `from` on, stopping at the first that asks for
    /// an include (its number and argument are returned; the caller hands the
    /// included text to `push_included` and goes on after it) or fails.
    pub fn run_from(&mut self, lines: &Vec<Vec<char>>, from: usize) -> (r: Result<
        Option<(usize, String)>,
        SfzError,
    >)
        ensures
            match run_lines(old(self)@, texts(lines@), from as int) {
                LineOutcome::Next(st) => r matches Ok(None) && final(self)@ == st,
                LineOutcome::Include(st, p) => r matches Ok(Some((k, q))) && q@ == p && k == stop_line(
                    old(self)@,
                    texts(lines@),
                    from as int,
                ) && final(self)@ == st,
                LineOutcome::Fail(msg, n) => r matches Err(e) && e.message@ == msg && e.line == n
                    && e.column == 1,
            },
    {
        let ghost ls = texts(lines@);
        let ghost st0 = self@;
        let mut i = from;
        while i < lines.len()
            invariant
                ls == texts(lines@),
                st0 == old(self)@,
                run_lines(st0, ls, from as int) == run_lines(self@, ls, i as int),
                stop_line(st0, ls, from as int) == stop_line(self@, ls, i as int),
            decreases lines@.len() - i,
        {
            let line = string_from_chars(lines[i].as_slice());
            assert(ls[i as int] == line@);
            let ghost before = self@;
            let ghost step = line_step(before, i as int, ls[i as int]);
            assert(step !is Next ==> run_lines(before, ls, i as int) == step && stop_line(
                before,
                ls,
                i as int,
            ) == i);
            match self.process_line(i, line.as_str()) {
                Ok(LineAction::Continue) => {},
                Ok(LineAction::Include(q)) => {
                    return Ok(Some((i, q)));
                },
                Err(e) => {
                    return Err(e);
                },
            }
            i = i + 1;
        }
        Ok(None)
    }

    /// The preprocessed text, or an error when an `#if` is left open; the
    /// error names the number of lines.
    pub fn finish(self, line_count: usize) -> (r: Result<String, SfzError>)
        ensures
            self@.stack.len() > 0 ==> (r matches Err(e) && e.message@ == "Unclosed #if block"@
                && e.line == line_count && e.column == 1),
            self@.stack.len() == 0 ==> (r matches Ok(s) && s@ == self@.output),
    {
        if self.if_stack.len() > 0 {
            return Err(SfzError::new("Unclosed #if block".to_owned(), line_count, 1));
        }
        Ok(string_from_chars(self.output.as_slice()))
    }
}

// ---------------------------------------------------------------------------
// A whole text
// ---------------------------------------------------------------------------

/// The directive word of a line (`if`, `else`, `end`, `define`, ...), when
/// the trimmed line starts with `#` and a word follows.
pub open spec fn directive_word(line: Seq<char>) -> Option<Seq<char>> {
    let t = trim(line);
    if t.len() > 0 && t[0] == '#' && words_of(t.drop_first()).len() > 0 {
        Some(words_of(t.drop_first())[0])
    } else {
        None
    }
}

/// How a line changes the `#if` nesting: one deeper at `#if`, one
/// shallower at `#end`.
pub open spec fn nesting_change(line: Seq<char>) -> int {
    match directive_word(line) {
        Some(w) => if w == "if"@ {
            1
        } else if w == "end"@ {
            -1
        } else {
            0
        },
        None => 0,
    }
}

/// The `#if` nesting before line `k`.
pub open spec fn nesting(lines: Seq<Seq<char>>, k: int) -> int
    decreases k,
{
    if k <= 0 {
        0
    } else {
        nesting(lines, k - 1) + nesting_change(lines[k - 1])
    }
}

/// Whether line `k` is an `#else` or `#end` with no `#if` open.
pub open spec fn unmatched(lines: Seq<Seq<char>>, k: int) -> bool {
    nesting(lines, k) == 0 && (directive_word(lines[k]) == Some("else"@) || directive_word(lines[k])
        == Some("end"@))
}

/// The error for an `#else` or `#end` line met with no `#if` open.
pub open spec fn unmatched_message(line: Seq<char>) -> Seq<char> {
    if directive_word(line) == Some("else"@) {
        "#else without #if"@
    } else {
        "#end without #if"@
    }
}

/// The preprocessor run over lines from `i` on.
pub open spec fn run_lines(st: PreState, lines: Seq<Seq<char>>, i: int) -> LineOutcome
    decreases lines.len() - i,
{
    if i < 0 || i >= lines.len() {
        LineOutcome::Next(st)
    } else {
        match line_step(st, i, lines[i]) {
            LineOutcome::Next(next) => run_lines(next, lines, i + 1),
            other => other,
        }
    }
}

/// The line at which the run from line `i` stops: the first that asks for an
/// include or fails, else the number of lines.
pub open spec fn stop_line(st: PreState, lines: Seq<Seq<char>>, i: int) -> int
    decreases lines.len() - i,
{
    if i < 0 || i >= lines.len() {
        lines.len() as int
    } else {
        match line_step(st, i, lines[i]) {
            LineOutcome::Next(next) => stop_line(next, lines, i + 1),
            _ => i,
        }
    }
}

/// The whole-text outcome for lines that ask for no include: the
/// preprocessed text, or an error message with its one-based line (an
/// `#if` left open is reported at the number of lines).
pub open spec fn preprocess_outcome(lines: Seq<Seq<char>>) -> Result<Seq<char>, (Seq<char>, int)> {
    match run_lines(initial_pre(), lines, 0) {
        LineOutcome::Next(st) => if st.stack.len() > 0 {
            Err(("Unclosed #if block"@, lines.len() as int))
        } else {
            Ok(st.output)
        },
        LineOutcome::Include(st, p) => Ok(st.output),
        LineOutcome::Fail(m, n) => Err((m, n)),
    }
}

/// The state the preprocessor starts from.
pub open spec fn initial_pre() -> PreState {
    PreState { output: Seq::empty(), defines: Map::empty(), stack: Seq::empty() }
}

proof fn lemma_step_nesting(st: PreState, i: int, line: Seq<char>)
    requires
        directive_word(line) != Some("include"@),
        directive_word(line) != Some("define"@),
    ensures
        line_step(st, i, line) !is Include,
        (st.stack.len() == 0 && (directive_word(line) == Some("else"@) || directive_word(line) == Some("end"@)))
            ==> line_step(st, i, line) == LineOutcome::Fail(
            if directive_word(line) == Some("else"@) {
                "#else without #if"@
            } else {
                "#end without #if"@
            },
            i + 1,
        ),
        !(st.stack.len() == 0 && (directive_word(line) == Some("else"@) || directive_word(line) == Some(
            "end"@,
        ))) ==> (line_step(st, i, line) matches LineOutcome::Next(n) && n.stack.len() == st.stack.len()
            + nesting_change(line)),
{
    reveal_strlit("if");
    reveal_strlit("else");
    reveal_strlit("end");
    reveal_strlit("include");
    reveal_strlit("define");
    assert("if"@.len() == 2 && "end"@.len() == 3 && "else"@.len() == 4);
    let t = trim(line);
    if t.len() > 0 && t[0] == '#' {
        let parts = words_of(t.drop_first());
        if parts.len() > 0 {
            let w = parts[0];
            assert(directive_word(line) == Some(w));
            if w == "else"@ {
                assert(w != "end"@ && w != "if"@);
                if st.stack.len() > 0 {
                    let n = PreState { stack: st.stack.update(st.stack.len() - 1, else_state(st.stack.last())), ..st };
                    assert(line_step(st, i, line) == LineOutcome::Next(n));
                    assert(n.stack.len() == st.stack.len());
                }
            } else if w == "end"@ {
                assert(w != "if"@);
            } else if w == "if"@ {
            } else {
                assert(line_step(st, i, line) == LineOutcome::Next(st));
            }
        } else {
            assert(directive_word(line) is None);
        }
    } else {
        assert(directive_word(line) is None);
    }
}

/// The first line from `i` on that is an `#else` or `#end` with no `#if`
/// open, or -1.
pub open spec fn first_unmatched(lines: Seq<Seq<char>>, i: int) -> int
    decreases lines.len() - i,
{
    if i < 0 || i >= lines.len() {
        -1
    } else if unmatched(lines, i) {
        i
    } else {
        first_unmatched(lines, i + 1)
    }
}

proof fn lemma_first_unmatched(lines: Seq<Seq<char>>, i: int)
    requires
        0 <= i,
    ensures
        first_unmatched(lines, i) >= 0 ==> i <= first_unmatched(lines, i) < lines.len() && unmatched(
            lines,
            first_unmatched(lines, i),
        ) && forall|j: int| i <= j < first_unmatched(lines, i) ==> !#[trigger] unmatched(lines, j),
        first_unmatched(lines, i) < 0 ==> forall|j: int| i <= j < lines.len() ==> !#[trigger] unmatched(lines, j),
    decreases lines.len() - i,
{
    if i < lines.len() && !unmatched(lines, i) {
        lemma_first_unmatched(lines, i + 1);
    }
}

proof fn lemma_run_nesting(st: PreState, lines: Seq<Seq<char>>, i: int)
    requires
        0 <= i <= lines.len(),
        st.stack.len() == nesting(lines, i),
        forall|j: int| 0 <= j < lines.len() ==> directive_word(#[trigger] lines[j]) != Some("include"@)
            && directive_word(lines[j]) != Some("define"@),
    ensures
        first_unmatched(lines, i) >= 0 ==> run_lines(st, lines, i) == LineOutcome::Fail(
            unmatched_message(lines[first_unmatched(lines, i)]),
            first_unmatched(lines, i) + 1,
        ),
        first_unmatched(lines, i) < 0 ==> (run_lines(st, lines, i) matches LineOutcome::Next(n)
            && n.stack.len() == nesting(lines, lines.len() as int)),
    decreases lines.len() - i,
{
    if i < lines.len() {
        let line = lines[i];
        assert(directive_word(line) != Some("include"@) && directive_word(line) != Some("define"@));
        lemma_step_nesting(st, i, line);
        lemma_first_unmatched(lines, i);
        if !unmatched(lines, i) {
            let next = line_step(st, i, line)->Next_0;
            assert(nesting(lines, i + 1) == nesting(lines, i) + nesting_change(line));
            lemma_run_nesting(next, lines, i + 1);
        }
    }
}

/// For a text of lines with no `#include` or `#define`, preprocessing fails
/// exactly at the first `#else` or `#end` met with no `#if` open (on its
/// one-based line), every line before it being free of that fault;
/// otherwise the `#if` levels left open at the end number the `#if`s less
/// the `#end`s, never negative, and the text is refused at the end as an
/// unclosed block exactly when that number is not zero.
pub proof fn law_if_nesting(lines: Seq<Seq<char>>)
    requires
        forall|j: int| 0 <= j < lines.len() ==> directive_word(#[trigger] lines[j]) != Some("include"@)
            && directive_word(lines[j]) != Some("define"@),
    ensures
        first_unmatched(lines, 0) >= 0 ==> ({
            let k = first_unmatched(lines, 0);
            &&& unmatched(lines, k)
            &&& forall|j: int| 0 <= j < k ==> !#[trigger] unmatched(lines, j)
            &&& run_lines(initial_pre(), lines, 0) matches LineOutcome::Fail(m, ln) && ln == k + 1
        }),
        first_unmatched(lines, 0) < 0 ==> ({
            &&& forall|j: int| 0 <= j < lines.len() ==> !#[trigger] unmatched(lines, j)
            &&& run_lines(initial_pre(), lines, 0) matches LineOutcome::Next(n) && n.stack.len() == nesting(
                lines,
                lines.len() as int,
            )
            &&& nesting(lines, lines.len() as int) >= 0
        }),
{
    lemma_first_unmatched(lines, 0);
    lemma_run_nesting(initial_pre(), lines, 0);
}

/// For a text of lines with no `#include` or `#define`, preprocessing is
/// refused exactly when an `#else` or `#end` is met with no `#if` open (the
/// first such line is named, with its message) or an `#if` is left open at
/// the end (reported at the number of lines); otherwise the text comes out.
pub proof fn law_preprocess_outcome(lines: Seq<Seq<char>>)
    requires
        forall|j: int| 0 <= j < lines.len() ==> directive_word(#[trigger] lines[j]) != Some("include"@)
            && directive_word(lines[j]) != Some("define"@),
    ensures
        preprocess_outcome(lines) is Err <==> (first_unmatched(lines, 0) >= 0 || nesting(
            lines,
            lines.len() as int,
        ) > 0),
        first_unmatched(lines, 0) >= 0 ==> preprocess_outcome(lines) == Err::<Seq<char>, (Seq<char>, int)>(
            (unmatched_message(lines[first_unmatched(lines, 0)]), first_unmatched(lines, 0) + 1),
        ),
        first_unmatched(lines, 0) < 0 && nesting(lines, lines.len() as int) > 0 ==> preprocess_outcome(lines)
            == Err::<Seq<char>, (Seq<char>, int)>(("Unclosed #if block"@, lines.len() as int)),
{
    lemma_first_unmatched(lines, 0);
    lemma_run_nesting(initial_pre(), lines, 0);
    law_if_nesting(lines);
}

} // verus!
