//! The lexicalizer turns source text into tokens, line by line, and the
//! token stream gives one token of lookahead over it.
use vstd::prelude::*;

use crate::arranger::{
    arrange_word, find, first_special, gather, is_closed, lemma_find_from_occurs,
    lemma_first_special_found, separate, Arranger,
};
use crate::text::{lines_of, spells, split_lines, split_words, strings_view, words_of};
use crate::token::{classify, Token, TokenTypeView, TokenView};

verus! {

/// The lexicalizer's state as plain values.
pub struct LexState {
    /// The words of each line of the source text.
    pub lines: Seq<Seq<Seq<char>>>,
    /// The index of the current line.
    pub line: nat,
    /// The pending words of the current line; the last is the next.
    pub stack: Seq<Seq<char>>,
    /// How many tokens have been produced (saturating at `usize::MAX`).
    pub count: nat,
}

/// What one step of the lexicalizer gives.
pub enum LexStep {
    /// A token.
    Emit(TokenView),
    /// No token: the word arranged to nothing, or opened a comment.
    Skip,
    /// The text is exhausted.
    End,
}

/// The special strings around which words are split.
pub open spec fn lexer_specials() -> Seq<Seq<char>> {
    seq![seq![','], seq!['('], seq![')'], seq!['['], seq![']'], seq!['-', '-']]
}

/// The comment marker.
pub open spec fn comment_marker() -> Seq<char> {
    seq!['-', '-']
}

pub open spec fn next_count(c: nat) -> nat {
    if c < usize::MAX {
        c + 1
    } else {
        c
    }
}

/// The words of each line of `text`.
pub open spec fn words_by_line(text: Seq<char>) -> Seq<Seq<Seq<char>>> {
    lines_of(text).map_values(|l: Seq<char>| words_of(l))
}

/// The state in which lexing `text` starts: the first line's words pending,
/// the first word last.
pub open spec fn initial_state(text: Seq<char>) -> LexState {
    LexState {
        lines: words_by_line(text),
        line: 0,
        stack: if words_by_line(text).len() > 0 {
            words_by_line(text)[0].reverse()
        } else {
            Seq::empty()
        },
        count: 0,
    }
}

/// One step of the lexicalizer.
///
/// - When the last line's words are exhausted (or there are no lines), the
///   text ends.
/// - When the current line's words are exhausted, the next line's words
///   become pending and one end-of-statement token comes out.
/// - Otherwise the next word is arranged. An empty result gives no token; the
///   comment marker discards the rest of the line and gives no token; any
///   other result is classified into a token.
pub open spec fn lex_step(s: LexState) -> (LexState, LexStep) {
    if s.line >= s.lines.len() || (s.line == s.lines.len() - 1 && s.stack.len() == 0) {
        (s, LexStep::End)
    } else if s.stack.len() == 0 {
        let line = s.line + 1;
        (
            LexState {
                lines: s.lines,
                line: line,
                stack: s.lines[line as int].reverse(),
                count: next_count(s.count),
            },
            LexStep::Emit(
                TokenView { line: line, column: s.count, kind: TokenTypeView::EndOfStatement },
            ),
        )
    } else {
        let (a, st) = arrange_word(lexer_specials(), s.stack.last(), s.stack.drop_last());
        if a.len() == 0 {
            (LexState { stack: st, ..s }, LexStep::Skip)
        } else if a == comment_marker() {
            (LexState { stack: Seq::empty(), ..s }, LexStep::Skip)
        } else {
            (
                LexState { stack: st, count: next_count(s.count), ..s },
                LexStep::Emit(TokenView { line: s.line, column: s.count, kind: classify(a) }),
            )
        }
    }
}

/// The number of characters in the pending words.
pub open spec fn total_chars(st: Seq<Seq<char>>) -> nat
    decreases st.len(),
{
    if st.len() == 0 {
        0
    } else {
        total_chars(st.drop_last()) + st.last().len()
    }
}

/// 1 when the next word would be split further, else 0.
pub open spec fn unsplit_top(st: Seq<Seq<char>>) -> nat {
    if st.len() > 0 && !lexer_specials().contains(st.last()) {
        1
    } else {
        0
    }
}

/// No word is empty, and the line index is in range.
pub open spec fn lex_wf(s: LexState) -> bool {
    &&& s.line <= s.lines.len()
    &&& forall|i: int| 0 <= i < s.stack.len() ==> (#[trigger] s.stack[i]).len() > 0
    &&& forall|k: int, i: int|
        0 <= k < s.lines.len() && 0 <= i < s.lines[k].len() ==> (#[trigger] s.lines[k][i]).len()
            > 0
}

/// The lines left, the pending characters, and whether the next word is
/// still to be split: each step that does not end the text lowers this
/// measure.
pub open spec fn lex_rank_below(a: LexState, b: LexState) -> bool {
    let la = a.lines.len() - a.line;
    let lb = b.lines.len() - b.line;
    ||| la < lb
    ||| (la == lb && total_chars(a.stack) < total_chars(b.stack))
    ||| (la == lb && total_chars(a.stack) == total_chars(b.stack) && unsplit_top(a.stack)
        < unsplit_top(b.stack))
}

/// The tokens that lexing from `s` produces, in order.
pub open spec fn tokens_of(s: LexState) -> Seq<TokenView>
    decreases s.lines.len() - s.line, total_chars(s.stack), unsplit_top(s.stack),
    when lex_wf(s)
{
    let (s1, step) = lex_step(s);
    proof {
        lemma_step(s);
    }
    match step {
        LexStep::End => Seq::empty(),
        LexStep::Skip => tokens_of(s1),
        LexStep::Emit(t) => seq![t] + tokens_of(s1),
    }
}

proof fn lemma_total_chars_push(st: Seq<Seq<char>>, w: Seq<char>)
    ensures
        total_chars(st.push(w)) == total_chars(st) + w.len(),
{
    assert(st.push(w).drop_last() =~= st);
}

proof fn lemma_lexer_specials_nonempty()
    ensures
        forall|j: int| 0 <= j < lexer_specials().len() ==> (#[trigger] lexer_specials()[j]).len() > 0,
{
}

/// Splitting keeps every character, pushes no empty word, and when nothing
/// remains of a word, the next pending word is a special string.
proof fn lemma_separate(specials: Seq<Seq<char>>, txt: Seq<char>, stack: Seq<Seq<char>>)
    requires
        forall|j: int| 0 <= j < specials.len() ==> (#[trigger] specials[j]).len() > 0,
        forall|i: int| 0 <= i < stack.len() ==> (#[trigger] stack[i]).len() > 0,
    ensures
        ({
            let (m, st) = separate(specials, txt, stack);
            &&& total_chars(st) + m.len() == total_chars(stack) + txt.len()
            &&& forall|i: int| 0 <= i < st.len() ==> (#[trigger] st[i]).len() > 0
            &&& (m.len() == 0 && txt.len() > 0) ==> st.len() > 0 && specials.contains(st.last())
        }),
    decreases txt.len(),
{
    if txt.len() > 1 && !specials.contains(txt) {
        match first_special(specials, txt) {
            Some(j) => {
                lemma_first_special_found(specials, txt, 0);
                let c = specials[j];
                lemma_find_from_occurs(txt, c, 0);
                let p = find(txt, c)->0;
                let after = txt.subrange(p + c.len(), txt.len() as int);
                let pushed = if after.len() > 0 {
                    stack.push(after)
                } else {
                    stack
                };
                if 0 <= p < txt.len() {
                    if after.len() > 0 {
                        lemma_total_chars_push(stack, after);
                    }
                    lemma_total_chars_push(pushed, c);
                    assert(forall|i: int|
                        0 <= i < pushed.push(c).len() ==> (#[trigger] pushed.push(c)[i]).len() > 0);
                    lemma_separate(specials, txt.subrange(0, p), pushed.push(c));
                    if p == 0 {
                        assert(specials.contains(c));
                    }
                }
            },
            None => {},
        }
    }
}

/// Joining words leaves a prefix of the pending words.
proof fn lemma_gather(buf: Seq<char>, stack: Seq<Seq<char>>)
    ensures
        ({
            let (b, st) = gather(buf, stack);
            &&& st.len() <= stack.len()
            &&& forall|i: int| 0 <= i < st.len() ==> st[i] == stack[i]
            &&& total_chars(st) <= total_chars(stack)
        }),
    decreases stack.len(),
{
    if !(is_closed(buf) || stack.len() == 0) {
        lemma_gather(buf + seq![' '] + stack.last(), stack.drop_last());
    }
}

/// A step keeps the state well formed, and unless it ends the text, it lowers
/// the rank.
pub proof fn lemma_step(s: LexState)
    requires
        lex_wf(s),
    ensures
        ({
            let (s1, step) = lex_step(s);
            &&& lex_wf(s1)
            &&& s1.lines == s.lines
            &&& (step is End ==> s1 == s)
            &&& (!(step is End) ==> lex_rank_below(s1, s))
        }),
{
    let (s1, step) = lex_step(s);
    if s.line >= s.lines.len() || (s.line == s.lines.len() - 1 && s.stack.len() == 0) {
    } else if s.stack.len() == 0 {
        let ws = s.lines[s.line + 1 as int];
        assert forall|i: int| 0 <= i < s1.stack.len() implies (#[trigger] s1.stack[i]).len() > 0 by {
            assert(s1.stack[i] == ws[ws.len() - 1 - i]);
        }
    } else {
        let w = s.stack.last();
        let rest = s.stack.drop_last();
        assert(s.stack =~= rest.push(w));
        lemma_total_chars_push(rest, w);
        lemma_lexer_specials_nonempty();
        lemma_separate(lexer_specials(), w, rest);
        let (m, st) = separate(lexer_specials(), w, rest);
        if m.len() > 0 && m[0] == '"' && !is_closed(m) {
            lemma_gather(m, st);
        }
    }
}

/// The words of each line, as character sequences.
pub open spec fn lines_view(v: Seq<Vec<String>>) -> Seq<Seq<Seq<char>>> {
    v.map_values(|l: Vec<String>| strings_view(l@))
}

/// What one step of the lexicalizer gave.
enum Outcome {
    Emit(Token),
    Skip,
    End,
}

spec fn outcome_view(o: Outcome) -> LexStep {
    match o {
        Outcome::Emit(t) => LexStep::Emit(t@),
        Outcome::Skip => LexStep::Skip,
        Outcome::End => LexStep::End,
    }
}

fn copy_words(v: &Vec<String>) -> (r: Vec<String>)
    ensures
        strings_view(r@) == strings_view(v@),
{
    let mut r: Vec<String> = Vec::new();
    let mut i: usize = 0;
    while i < v.len()
        invariant
            0 <= i <= v@.len(),
            strings_view(r@) =~= strings_view(v@).subrange(0, i as int),
        decreases v@.len() - i,
    {
        let ghost before = r@;
        r.push(v[i].clone());
        proof {
            assert(strings_view(r@) =~= strings_view(before).push(v@[i as int]@));
            assert(strings_view(v@).subrange(0, i + 1) =~= strings_view(v@).subrange(
                0,
                i as int,
            ).push(v@[i as int]@));
        }
        i = i + 1;
    }
    assert(strings_view(v@).subrange(0, i as int) =~= strings_view(v@));
    r
}

/// Turns source text into tokens, one line after another.
pub struct Lexicalizer {
    input: Vec<Vec<String>>,
    current_line: usize,
    count: usize,
    arranger: Arranger,
}

impl Lexicalizer {
    /// The lexicalizer's state as plain values.
    pub closed spec fn state(&self) -> LexState {
        LexState {
            lines: lines_view(self.input@),
            line: self.current_line as nat,
            stack: self.arranger.stack(),
            count: self.count as nat,
        }
    }

    pub closed spec fn wf(&self) -> bool {
        &&& self.arranger.specials() == lexer_specials()
        &&& lex_wf(self.state())
    }

    /// Loads `input` and makes the words of its first line pending.
    pub fn new(input: String) -> (r: Lexicalizer)
        ensures
            r.wf(),
            r.state() == initial_state(input@),
    {
        let lines = split_lines(input.as_str());
        let mut words: Vec<Vec<String>> = Vec::new();
        let mut i: usize = 0;
        while i < lines.len()
            invariant
                0 <= i <= lines@.len(),
                strings_view(lines@) == lines_of(input@),
                lines_view(words@) =~= words_by_line(input@).subrange(0, i as int),
                forall|k: int, j: int|
                    0 <= k < words@.len() && 0 <= j < words@[k]@.len() ==> (
                    #[trigger] words@[k]@[j])@.len() > 0,
            decreases lines@.len() - i,
        {
            let ws = split_words(lines[i].as_str());
            let ghost before = words@;
            words.push(ws);
            proof {
                assert(lines@[i as int]@ == lines_of(input@)[i as int]);
                assert(lines_view(words@) =~= lines_view(before).push(strings_view(ws@)));
                assert(words_by_line(input@).subrange(0, i + 1) =~= words_by_line(
                    input@,
                ).subrange(0, i as int).push(words_of(lines_of(input@)[i as int])));
                assert forall|k: int, j: int|
                    0 <= k < words@.len() && 0 <= j < words@[k]@.len() implies (
                    #[trigger] words@[k]@[j])@.len() > 0 by {
                    if k < before.len() {
                        assert(words@[k] == before[k]);
                    }
                }
            }
            i = i + 1;
        }
        assert(words_by_line(input@).subrange(0, i as int) =~= words_by_line(input@));
        proof {
            reveal_strlit(",");
            reveal_strlit("(");
            reveal_strlit(")");
            reveal_strlit("[");
            reveal_strlit("]");
            reveal_strlit("--");
        }
        let s0 = ",".to_string();
        let s1 = "(".to_string();
        let s2 = ")".to_string();
        let s3 = "[".to_string();
        let s4 = "]".to_string();
        let s5 = "--".to_string();
        assert(s0@ =~= seq![',']);
        assert(s1@ =~= seq!['(']);
        assert(s2@ =~= seq![')']);
        assert(s3@ =~= seq!['[']);
        assert(s4@ =~= seq![']']);
        assert(s5@ =~= seq!['-', '-']);
        let specials = vec![s0, s1, s2, s3, s4, s5];
        assert(strings_view(specials@) =~= lexer_specials());
        let mut arranger = Arranger::new(specials);
        if words.len() > 0 {
            let first = copy_words(&words[0]);
            arranger.set_stack(first);
            assert(Seq::<Seq<char>>::empty() + strings_view(first@) =~= strings_view(first@));
        }
        let r = Lexicalizer { input: words, current_line: 0, count: 0, arranger };
        proof {
            assert forall|k: int, j: int|
                0 <= k < r.state().lines.len() && 0 <= j < r.state().lines[k].len() implies (
                #[trigger] r.state().lines[k][j]).len() > 0 by {
                assert(r.state().lines[k][j] == r.input@[k]@[j]@);
            }
            if r.input@.len() > 0 {
                let ws = r.state().lines[0];
                assert forall|j: int| 0 <= j < r.state().stack.len() implies (
                #[trigger] r.state().stack[j]).len() > 0 by {
                    assert(r.state().stack[j] == ws[ws.len() - 1 - j]);
                }
            }
            assert(r.state() =~= initial_state(input@));
        }
        r
    }

    /// Makes the words of the current line pending, the first word last.
    fn update_stack(&mut self)
        requires
            old(self).arranger.stack().len() == 0,
            old(self).current_line < old(self).input@.len(),
        ensures
            final(self).arranger.stack() == old(self).state().lines[old(self).current_line as int].reverse(),
            final(self).arranger.specials() == old(self).arranger.specials(),
            final(self).input == old(self).input,
            final(self).current_line == old(self).current_line,
            final(self).count == old(self).count,
    {
        let words = copy_words(&self.input[self.current_line]);
        self.arranger.set_stack(words);
        assert(Seq::<Seq<char>>::empty() + strings_view(words@) =~= strings_view(words@));
    }

    /// Arranges one word (see `arrange_word`).
    fn arrange(&mut self, txt: Vec<char>) -> (r: Vec<char>)
        ensures
            (r@, final(self).arranger.stack()) == arrange_word(
                old(self).arranger.specials(),
                txt@,
                old(self).arranger.stack(),
            ),
            final(self).arranger.specials() == old(self).arranger.specials(),
            final(self).input == old(self).input,
            final(self).current_line == old(self).current_line,
            final(self).count == old(self).count,
    {
        self.arranger.arrange_chars(txt)
    }

    /// Discards the pending words of the current line.
    fn empty_stack(&mut self)
        ensures
            final(self).arranger.stack() == Seq::<Seq<char>>::empty(),
            final(self).arranger.specials() == old(self).arranger.specials(),
            final(self).input == old(self).input,
            final(self).current_line == old(self).current_line,
            final(self).count == old(self).count,
    {
        self.arranger.clear();
    }

    /// One step (see `lex_step`).
    fn step(&mut self) -> (r: Outcome)
        requires
            old(self).wf(),
        ensures
            final(self).wf(),
            (final(self).state(), outcome_view(r)) == lex_step(old(self).state()),
    {
        proof {
            lemma_step(self.state());
        }
        let n = self.input.len();
        if self.current_line >= n || (self.current_line == n - 1 && self.arranger.is_empty()) {
            return Outcome::End;
        }
        if self.arranger.is_empty() {
            self.current_line = self.current_line + 1;
            self.update_stack();
            let t = Token::eos(self.current_line, self.count);
            self.count = self.count.saturating_add(1);
            return Outcome::Emit(t);
        }
        let w = self.arranger.pop_chars().unwrap();
        let a = self.arrange(w);
        if a.len() == 0 {
            return Outcome::Skip;
        }
        proof {
            reveal_strlit("--");
            assert("--"@ =~= comment_marker());
        }
        if spells(a.as_slice(), "--") {
            self.empty_stack();
            return Outcome::Skip;
        }
        let t = Token::from_chars(a.as_slice(), self.current_line, self.count);
        self.count = self.count.saturating_add(1);
        Outcome::Emit(t)
    }

    /// The next token, or `None` once the text is exhausted. Words that give
    /// no token are passed over.
    pub fn lexicalize(&mut self) -> (r: Option<Token>)
        requires
            old(self).wf(),
        ensures
            final(self).wf(),
            match r {
                Some(t) => tokens_of(old(self).state()) == seq![t@] + tokens_of(final(self).state()),
                None => tokens_of(old(self).state()) == Seq::<TokenView>::empty() && tokens_of(
                    final(self).state(),
                ) == Seq::<TokenView>::empty(),
            },
    {
        loop
            invariant
                self.wf(),
                tokens_of(self.state()) == tokens_of(old(self).state()),
            decreases self.state().lines.len() - self.state().line, total_chars(
                self.state().stack,
            ), unsplit_top(self.state().stack),
        {
            let ghost before = self.state();
            let o = self.step();
            proof {
                lemma_step(before);
            }
            match o {
                Outcome::Emit(t) => {
                    return Some(t);
                },
                Outcome::End => {
                    return None;
                },
                Outcome::Skip => {},
            }
        }
    }
}

/// How many end-of-statement tokens `s` holds.
pub open spec fn eos_count(s: Seq<TokenView>) -> nat
    decreases s.len(),
{
    if s.len() == 0 {
        0
    } else {
        (if s[0].kind is EndOfStatement {
            1nat
        } else {
            0nat
        }) + eos_count(s.drop_first())
    }
}

/// A word that arranges to the comment marker discards the rest of its line:
/// none of the words still pending on that line ever gives a token, and the
/// tokens that follow are those of the same state with no word pending.
pub proof fn lemma_comment_discards_line(s: LexState)
    requires
        lex_wf(s),
        s.stack.len() > 0,
        arrange_word(lexer_specials(), s.stack.last(), s.stack.drop_last()).0 == comment_marker(),
    ensures
        tokens_of(s) == tokens_of(LexState { stack: Seq::empty(), ..s }),
{
    lemma_step(s);
    let e = LexState { stack: Seq::<Seq<char>>::empty(), ..s };
    if s.line >= s.lines.len() {
        assert(lex_step(e).1 is End);
    } else {
        assert(lex_step(s).0 == e);
    }
}

/// Each line gives exactly one end-of-statement token once its words are
/// exhausted, before any token of the next line: from a state on line `L`,
/// every token lies on line `L` plus the number of end-of-statement tokens up
/// to and including it, and there is one such token for each following line.
pub proof fn lemma_one_eos_per_line(s: LexState)
    requires
        lex_wf(s),
        s.line < s.lines.len(),
    ensures
        eos_count(tokens_of(s)) == s.lines.len() - 1 - s.line,
        forall|i: int|
            0 <= i < tokens_of(s).len() ==> (#[trigger] tokens_of(s)[i]).line == s.line + eos_count(
                tokens_of(s).subrange(0, i + 1),
            ),
    decreases s.lines.len() - s.line, total_chars(s.stack), unsplit_top(s.stack),
{
    lemma_step(s);
    let (s1, step) = lex_step(s);
    match step {
        LexStep::End => {},
        LexStep::Skip => {
            lemma_one_eos_per_line(s1);
        },
        LexStep::Emit(t) => {
            lemma_one_eos_per_line(s1);
            let rest = tokens_of(s1);
            let all = tokens_of(s);
            let e: nat = if t.kind is EndOfStatement {
                1
            } else {
                0
            };
            assert(all == seq![t] + rest);
            assert(all.drop_first() =~= rest);
            assert(s1.line == s.line + e);
            assert forall|i: int| 0 <= i < all.len() implies (#[trigger] all[i]).line == s.line
                + eos_count(all.subrange(0, i + 1)) by {
                let pre = all.subrange(0, i + 1);
                assert(pre[0] == t);
                assert(pre.drop_first() =~= rest.subrange(0, i));
                assert(eos_count(pre) == e + eos_count(rest.subrange(0, i)));
                if i > 0 {
                    assert(all[i] == rest[i - 1]);
                    assert(rest.subrange(0, i) == rest.subrange(0, (i - 1) + 1));
                } else {
                    assert(rest.subrange(0, 0) =~= Seq::<TokenView>::empty());
                }
            }
        },
    }
}

/// How many end-of-statement tokens open `s`.
pub open spec fn leading_eos(s: Seq<TokenView>) -> nat
    decreases s.len(),
{
    if s.len() > 0 && s[0].kind is EndOfStatement {
        1 + leading_eos(s.drop_first())
    } else {
        0
    }
}

/// The run of end-of-statement tokens fits in `s`, and what follows it is no
/// such token.
pub proof fn lemma_leading_eos(s: Seq<TokenView>)
    ensures
        leading_eos(s) <= s.len(),
        leading_eos(s) < s.len() ==> !(s[leading_eos(s) as int].kind is EndOfStatement),
        forall|i: int| 0 <= i < leading_eos(s) ==> (#[trigger] s[i]).kind is EndOfStatement,
    decreases s.len(),
{
    if s.len() > 0 && s[0].kind is EndOfStatement {
        lemma_leading_eos(s.drop_first());
        assert forall|i: int| 0 <= i < leading_eos(s) implies (#[trigger] s[i]).kind is EndOfStatement by {
            if i > 0 {
                assert(s[i] == s.drop_first()[i - 1]);
            }
        }
    }
}

/// One token of lookahead over a lexicalizer.
pub struct TokenStream {
    lex: Lexicalizer,
    ctoken: Option<Token>,
}

impl TokenStream {
    /// The tokens still to come, the current one first.
    pub closed spec fn remaining(&self) -> Seq<TokenView> {
        match self.ctoken {
            Some(t) => seq![t@] + tokens_of(self.lex.state()),
            None => tokens_of(self.lex.state()),
        }
    }

    /// Whether the current token has been pulled and not yet passed.
    pub closed spec fn has_current(&self) -> bool {
        self.ctoken is Some
    }

    pub closed spec fn wf(&self) -> bool {
        self.lex.wf()
    }

    pub fn new(lex: Lexicalizer) -> (r: TokenStream)
        requires
            lex.wf(),
        ensures
            r.wf(),
            r.remaining() == tokens_of(lex.state()),
            !r.has_current(),
    {
        TokenStream { lex, ctoken: None }
    }

    /// The current token, pulled from the lexicalizer when none is held.
    pub fn current(&mut self) -> (r: Option<Token>)
        requires
            old(self).wf(),
        ensures
            final(self).wf(),
            final(self).remaining() == old(self).remaining(),
            match r {
                Some(t) => old(self).remaining().len() > 0 && t@ == old(self).remaining()[0]
                    && final(self).has_current(),
                None => old(self).remaining().len() == 0 && !final(self).has_current(),
            },
    {
        match &self.ctoken {
            Some(t) => Some(t.clone()),
            None => {
                let t = self.lex.lexicalize();
                match t {
                    Some(tok) => {
                        let c = tok.clone();
                        self.ctoken = Some(tok);
                        Some(c)
                    },
                    None => None,
                }
            },
        }
    }

    /// Passes the current token, if one is held.
    pub fn advance(&mut self)
        requires
            old(self).wf(),
        ensures
            final(self).wf(),
            final(self).remaining() == if old(self).has_current() {
                old(self).remaining().drop_first()
            } else {
                old(self).remaining()
            },
            !final(self).has_current(),
    {
        proof {
            if self.ctoken is Some {
                assert((seq![self.ctoken->0@] + tokens_of(self.lex.state())).drop_first()
                    =~= tokens_of(self.lex.state()));
            }
        }
        self.ctoken = None;
    }

    /// Skips a run of end-of-statement tokens that starts at `current_token`,
    /// the current token. Afterwards the first other token is current; when
    /// the stream ends first, it fails.
    pub fn ignore_eos(&mut self, current_token: Token) -> (r: Result<(), &'static str>)
        requires
            old(self).wf(),
        ensures
            final(self).wf(),
            !(current_token@.kind is EndOfStatement) ==> r is Ok && final(self).remaining()
                == old(self).remaining() && final(self).has_current() == old(self).has_current(),
            current_token@.kind is EndOfStatement ==> ({
                let rest = if old(self).has_current() {
                    old(self).remaining().drop_first()
                } else {
                    old(self).remaining()
                };
                let k = leading_eos(rest);
                &&& k <= rest.len()
                &&& final(self).remaining() == rest.subrange(k as int, rest.len() as int)
                &&& (r is Ok <==> k < rest.len())
                &&& (r is Ok ==> final(self).has_current())
            }),
    {
        if !current_token.is_eos() {
            return Ok(());
        }
        let ghost rest = if self.has_current() {
            self.remaining().drop_first()
        } else {
            self.remaining()
        };
        self.advance();
        let ghost mut j: nat = 0;
        loop
            invariant
                self.wf(),
                current_token@.kind is EndOfStatement,
                rest == if old(self).has_current() {
                    old(self).remaining().drop_first()
                } else {
                    old(self).remaining()
                },
                !self.has_current(),
                j <= rest.len(),
                self.remaining() == rest.subrange(j as int, rest.len() as int),
                leading_eos(rest) == j + leading_eos(self.remaining()),
            decreases self.remaining().len(),
        {
            match self.current() {
                None => {
                    assert(leading_eos(self.remaining()) == 0);
                    return Err("No more tokens");
                },
                Some(t) => {
                    if t.is_eos() {
                        let ghost before = self.remaining();
                        self.advance();
                        proof {
                            assert(rest.subrange(j + 1 as int, rest.len() as int) =~= before.drop_first());
                            j = j + 1;
                        }
                    } else {
                        return Ok(());
                    }
                },
            }
        }
    }
}

} // verus!
