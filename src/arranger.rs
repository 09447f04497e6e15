//! The arranger splits one whitespace-delimited word into atomic pieces
//! around special strings, and joins the words of a quoted literal that
//! whitespace split apart.
//!
//! Pending words sit on a stack whose last element is the next word.
use vstd::prelude::*;

use crate::text::{chars_of, same_chars, string_of, strings_view};

verus! {

/// `pat` occurs in `s` at index `i`.
pub open spec fn occurs_at(s: Seq<char>, pat: Seq<char>, i: int) -> bool {
    0 <= i && i + pat.len() <= s.len() && s.subrange(i, i + pat.len()) == pat
}

/// The first index at or after `i` where `pat` occurs in `s`.
pub open spec fn find_from(s: Seq<char>, pat: Seq<char>, i: int) -> Option<int>
    decreases s.len() + 1 - i,
{
    if i < 0 || i + pat.len() > s.len() {
        None
    } else if occurs_at(s, pat, i) {
        Some(i)
    } else {
        find_from(s, pat, i + 1)
    }
}

/// The first index where `pat` occurs in `s`.
pub open spec fn find(s: Seq<char>, pat: Seq<char>) -> Option<int> {
    find_from(s, pat, 0)
}

/// The first special string, from index `j` of the list on, that occurs in `txt`.
pub open spec fn first_special_from(specials: Seq<Seq<char>>, txt: Seq<char>, j: int) -> Option<
    int,
>
    decreases specials.len() - j,
{
    if j < 0 || j >= specials.len() {
        None
    } else if find(txt, specials[j]) is Some {
        Some(j)
    } else {
        first_special_from(specials, txt, j + 1)
    }
}

/// The first special string of the list that occurs in `txt`.
pub open spec fn first_special(specials: Seq<Seq<char>>, txt: Seq<char>) -> Option<int> {
    first_special_from(specials, txt, 0)
}

/// Splits `txt` around special strings. A word longer than one character that
/// is not itself special is cut at the first occurrence of the first special
/// string of the list that it contains: the rest after that occurrence, when
/// not empty, is pushed, then the special string, and the part before it is
/// split in turn. What remains of `txt` is returned with the new stack.
pub open spec fn separate(specials: Seq<Seq<char>>, txt: Seq<char>, stack: Seq<Seq<char>>) -> (
    Seq<char>,
    Seq<Seq<char>>,
)
    decreases txt.len(),
{
    if txt.len() > 1 && !specials.contains(txt) {
        match first_special(specials, txt) {
            Some(j) => {
                let c = specials[j];
                let p = find(txt, c)->0;
                let after = txt.subrange(p + c.len(), txt.len() as int);
                let pushed = if after.len() > 0 {
                    stack.push(after)
                } else {
                    stack
                };
                if 0 <= p < txt.len() {
                    separate(specials, txt.subrange(0, p), pushed.push(c))
                } else {
                    (txt, stack)
                }
            },
            None => (txt, stack),
        }
    } else {
        (txt, stack)
    }
}

/// Text that ends a quoted literal: at least two characters, the last a quote.
pub open spec fn is_closed(buf: Seq<char>) -> bool {
    buf.len() > 1 && buf[buf.len() - 1] == '"'
}

/// Joins words from the stack onto `buf`, each after one space, until `buf`
/// ends a quoted literal or the stack is empty.
pub open spec fn gather(buf: Seq<char>, stack: Seq<Seq<char>>) -> (Seq<char>, Seq<Seq<char>>)
    decreases stack.len(),
{
    if is_closed(buf) || stack.len() == 0 {
        (buf, stack)
    } else {
        gather(buf + seq![' '] + stack.last(), stack.drop_last())
    }
}

/// Arranges one word: splits it around special strings, and where the result
/// opens a quoted literal that it does not close, joins the following words
/// onto it.
pub open spec fn arrange_word(specials: Seq<Seq<char>>, txt: Seq<char>, stack: Seq<Seq<char>>) -> (
    Seq<char>,
    Seq<Seq<char>>,
) {
    let (m, st) = separate(specials, txt, stack);
    if m.len() > 0 && m[0] == '"' && !is_closed(m) {
        gather(m, st)
    } else {
        (m, st)
    }
}

/// The character sequences held by a vector of words.
pub open spec fn words_view(v: Seq<Vec<char>>) -> Seq<Seq<char>> {
    v.map_values(|w: Vec<char>| w@)
}

proof fn lemma_find_from_none(s: Seq<char>, pat: Seq<char>, i: int)
    requires
        0 <= i,
        forall|m: int| i <= m ==> !occurs_at(s, pat, m),
    ensures
        find_from(s, pat, i) is None,
    decreases s.len() + 1 - i,
{
    if !(i + pat.len() > s.len()) {
        lemma_find_from_none(s, pat, i + 1);
    }
}

proof fn lemma_find_from_first(s: Seq<char>, pat: Seq<char>, i: int, k: int)
    requires
        0 <= i <= k,
        occurs_at(s, pat, k),
        forall|m: int| i <= m < k ==> !occurs_at(s, pat, m),
    ensures
        find_from(s, pat, i) == Some(k),
    decreases k - i,
{
    if i < k {
        lemma_find_from_first(s, pat, i + 1, k);
    }
}

proof fn lemma_first_special_none(specials: Seq<Seq<char>>, txt: Seq<char>, j: int)
    requires
        0 <= j,
        forall|k: int| j <= k < specials.len() ==> find(txt, #[trigger] specials[k]) is None,
    ensures
        first_special_from(specials, txt, j) is None,
    decreases specials.len() - j,
{
    if j < specials.len() {
        lemma_first_special_none(specials, txt, j + 1);
    }
}

proof fn lemma_first_special_some(specials: Seq<Seq<char>>, txt: Seq<char>, j: int, k: int)
    requires
        0 <= j <= k < specials.len(),
        find(txt, specials[k]) is Some,
    ensures
        first_special_from(specials, txt, j) is Some,
    decreases k - j,
{
    if j < k && !(find(txt, specials[j]) is Some) {
        lemma_first_special_some(specials, txt, j + 1, k);
    }
}

/// A word made of a non-empty prefix `p` and one special string `c` at its
/// end, where no special string occurs anywhere else, arranges into the two
/// pieces in their order: `p` comes back and `c` is pending next. The special
/// string then arranges into itself.
pub proof fn lemma_arrange_word_then_special(
    specials: Seq<Seq<char>>,
    p: Seq<char>,
    c: Seq<char>,
    stack: Seq<Seq<char>>,
)
    requires
        specials.contains(c),
        p.len() > 0,
        p[0] != '"',
        c.len() > 0,
        c[0] != '"',
        forall|j: int, i: int|
            0 <= j < specials.len() && #[trigger] occurs_at(p + c, specials[j], i) ==> i == p.len()
                && specials[j] == c,
    ensures
        arrange_word(specials, p + c, stack) == (p, stack.push(c)),
        arrange_word(specials, c, stack.push(c).drop_last()) == (c, stack),
{
    let w = p + c;
    let n = p.len() as int;
    // `w` is not itself special.
    if specials.contains(w) {
        let j = choose|j: int| 0 <= j < specials.len() && specials[j] == w;
        assert(w.subrange(0, w.len() as int) =~= w);
        assert(occurs_at(w, specials[j], 0));
    }
    // The special string found is `c`, at the end of `p`.
    let jc = choose|j: int| 0 <= j < specials.len() && specials[j] == c;
    assert(w.subrange(n, n + c.len()) =~= c);
    assert(occurs_at(w, c, n));
    assert forall|m: int| 0 <= m < n implies !occurs_at(w, c, m) by {
        if occurs_at(w, c, m) {
            assert(occurs_at(w, specials[jc], m));
        }
    }
    lemma_find_from_first(w, c, 0, n);
    lemma_first_special_some(specials, w, 0, jc);
    lemma_first_special_found(specials, w, 0);
    let j0 = first_special(specials, w)->0;
    lemma_find_from_occurs(w, specials[j0], 0);
    let i0 = find(w, specials[j0])->0;
    assert(occurs_at(w, specials[j0], i0));
    assert(specials[j0] == c);
    assert(w.subrange(n + c.len(), w.len() as int) =~= Seq::<char>::empty());
    assert(w.subrange(0, n) =~= p);
    // Nothing special occurs inside `p`.
    if p.len() > 1 {
        if specials.contains(p) {
            let j = choose|j: int| 0 <= j < specials.len() && specials[j] == p;
            assert(w.subrange(0, n) =~= specials[j]);
            assert(occurs_at(w, specials[j], 0));
        }
        assert forall|k: int| 0 <= k < specials.len() implies find(p, #[trigger] specials[k]) is None by {
            assert forall|m: int| 0 <= m implies !occurs_at(p, specials[k], m) by {
                if occurs_at(p, specials[k], m) {
                    assert(w.subrange(m, m + specials[k].len()) =~= p.subrange(
                        m,
                        m + specials[k].len(),
                    ));
                    assert(occurs_at(w, specials[k], m));
                }
            }
            lemma_find_from_none(p, specials[k], 0);
        }
        lemma_first_special_none(specials, p, 0);
    }
    assert(separate(specials, p, stack.push(c)) == (p, stack.push(c)));
    assert(stack.push(c).drop_last() =~= stack);
    if c.len() > 1 {
        assert(specials.contains(c));
    }
}

/// A word that opens a quoted literal without closing it and contains no
/// special string, followed by a word that ends with a quote, arranges into
/// the two words joined by one space; the second word is no longer pending.
pub proof fn lemma_quoted_words_joined(
    specials: Seq<Seq<char>>,
    w1: Seq<char>,
    w2: Seq<char>,
    stack: Seq<Seq<char>>,
)
    requires
        w1.len() > 0,
        w1[0] == '"',
        !is_closed(w1),
        !specials.contains(w1),
        forall|j: int| 0 <= j < specials.len() ==> find(w1, #[trigger] specials[j]) is None,
        w2.len() > 0,
        w2[w2.len() - 1] == '"',
    ensures
        arrange_word(specials, w1, stack.push(w2)) == (w1 + seq![' '] + w2, stack),
{
    lemma_first_special_none(specials, w1, 0);
    let st = stack.push(w2);
    assert(separate(specials, w1, st) == (w1, st));
    assert(st.last() == w2);
    assert(st.drop_last() =~= stack);
    let joined = w1 + seq![' '] + w2;
    assert(joined[joined.len() - 1] == w2[w2.len() - 1]);
    assert(is_closed(joined));
    assert(gather(joined, stack) == (joined, stack));
}

/// A found index is an occurrence, at or after the start.
pub proof fn lemma_find_from_occurs(s: Seq<char>, pat: Seq<char>, i: int)
    ensures
        find_from(s, pat, i) matches Some(k) ==> occurs_at(s, pat, k) && k >= i,
    decreases s.len() + 1 - i,
{
    if !(i < 0 || i + pat.len() > s.len()) && !occurs_at(s, pat, i) {
        lemma_find_from_occurs(s, pat, i + 1);
    }
}

/// Whether `pat` occurs in `s` at index `i`.
fn occurs_in_at(s: &[char], pat: &[char], i: usize) -> (r: bool)
    ensures
        r == occurs_at(s@, pat@, i as int),
{
    let n = s.len();
    if i > n || pat.len() > n - i {
        return false;
    }
    let mut k: usize = 0;
    while k < pat.len()
        invariant
            n == s@.len(),
            i + pat@.len() <= s@.len(),
            0 <= k <= pat@.len(),
            forall|j: int| 0 <= j < k ==> s@[i + j] == pat@[j],
        decreases pat@.len() - k,
    {
        if s[i + k] != pat[k] {
            assert(s@.subrange(i as int, i + pat@.len())[k as int] == s@[i + k]);
            return false;
        }
        k = k + 1;
    }
    assert(s@.subrange(i as int, i + pat@.len()) =~= pat@);
    true
}

/// The first index where `pat` occurs in `s`.
fn find_in(s: &[char], pat: &[char]) -> (r: Option<usize>)
    ensures
        find(s@, pat@) == (match r {
            Some(i) => Some(i as int),
            None => None,
        }),
{
    if pat.len() > s.len() {
        return None;
    }
    let last = s.len() - pat.len();
    let mut i: usize = 0;
    loop
        invariant
            last + pat@.len() == s@.len(),
            0 <= i <= last,
            find_from(s@, pat@, 0) == find_from(s@, pat@, i as int),
        decreases last - i,
    {
        if occurs_in_at(s, pat, i) {
            return Some(i);
        }
        if i == last {
            assert(find_from(s@, pat@, i + 1) is None);
            return None;
        }
        i = i + 1;
    }
}

/// The special string that `first_special_from` picks does occur.
pub proof fn lemma_first_special_found(specials: Seq<Seq<char>>, txt: Seq<char>, k: int)
    ensures
        first_special_from(specials, txt, k) matches Some(j) ==> 0 <= j < specials.len() && find(
            txt,
            specials[j],
        ) is Some,
    decreases specials.len() - k,
{
    if !(k < 0 || k >= specials.len()) && !(find(txt, specials[k]) is Some) {
        lemma_first_special_found(specials, txt, k + 1);
    }
}

pub struct Arranger {
    stack: Vec<Vec<char>>,
    special_chars: Vec<Vec<char>>,
}

impl Arranger {
    /// The pending words; the last is the next.
    pub closed spec fn stack(&self) -> Seq<Seq<char>> {
        words_view(self.stack@)
    }

    /// The special strings, in the order in which they are tried.
    pub closed spec fn specials(&self) -> Seq<Seq<char>> {
        words_view(self.special_chars@)
    }

    pub fn new(special_chars: Vec<String>) -> (r: Arranger)
        ensures
            r.stack() == Seq::<Seq<char>>::empty(),
            r.specials() == strings_view(special_chars@),
    {
        let mut specials: Vec<Vec<char>> = Vec::new();
        let mut i: usize = 0;
        while i < special_chars.len()
            invariant
                0 <= i <= special_chars@.len(),
                words_view(specials@) =~= strings_view(special_chars@).subrange(0, i as int),
            decreases special_chars@.len() - i,
        {
            let w = chars_of(special_chars[i].as_str());
            let ghost before = specials@;
            specials.push(w);
            proof {
                assert(specials@ == before.push(w));
                assert(words_view(specials@) =~= words_view(before).push(w@));
                assert(strings_view(special_chars@).subrange(0, i + 1) =~= strings_view(
                    special_chars@,
                ).subrange(0, i as int).push(special_chars@[i as int]@));
            }
            i = i + 1;
        }
        assert(strings_view(special_chars@).subrange(0, i as int) =~= strings_view(special_chars@));
        let r = Arranger { stack: Vec::new(), special_chars: specials };
        assert(r.stack() =~= Seq::<Seq<char>>::empty());
        r
    }

    /// Appends `v` to the pending words, then reverses the whole stack, so
    /// that the first word of `v` is popped first when the stack was empty.
    pub fn set_stack(&mut self, v: Vec<String>)
        ensures
            final(self).stack() == (old(self).stack() + strings_view(v@)).reverse(),
            final(self).specials() == old(self).specials(),
    {
        let mut i: usize = 0;
        while i < v.len()
            invariant
                0 <= i <= v@.len(),
                self.stack() =~= old(self).stack() + strings_view(v@).subrange(0, i as int),
                self.specials() == old(self).specials(),
            decreases v@.len() - i,
        {
            let w = chars_of(v[i].as_str());
            self.push_chars(w);
            proof {
                assert(strings_view(v@).subrange(0, i + 1) =~= strings_view(v@).subrange(
                    0,
                    i as int,
                ).push(v@[i as int]@));
            }
            i = i + 1;
        }
        assert(strings_view(v@).subrange(0, i as int) =~= strings_view(v@));
        self.reverse_stack();
    }

    fn reverse_stack(&mut self)
        ensures
            final(self).stack() =~= old(self).stack().reverse(),
            final(self).specials() == old(self).specials(),
    {
        let mut rev: Vec<Vec<char>> = Vec::new();
        while self.stack.len() > 0
            invariant
                old(self).stack().reverse() =~= words_view(rev@) + self.stack().reverse(),
                self.specials() == old(self).specials(),
            decreases self.stack@.len(),
        {
            let ghost before = self.stack();
            let w = self.stack.pop().unwrap();
            proof {
                assert(before =~= self.stack().push(w@));
                assert(before.reverse() =~= seq![w@] + self.stack().reverse());
            }
            let ghost rev_before = rev@;
            rev.push(w);
            proof {
                assert(words_view(rev@) =~= words_view(rev_before).push(w@));
            }
        }
        self.stack = rev;
    }

    pub fn is_empty(&self) -> (r: bool)
        ensures
            r == (self.stack().len() == 0),
    {
        self.stack.len() == 0
    }

    /// The pending words; the last is the next.
    pub fn get_stack(&self) -> (r: Vec<String>)
        ensures
            strings_view(r@) == self.stack(),
    {
        let mut r: Vec<String> = Vec::new();
        let mut i: usize = 0;
        while i < self.stack.len()
            invariant
                0 <= i <= self.stack@.len(),
                strings_view(r@) =~= self.stack().subrange(0, i as int),
            decreases self.stack@.len() - i,
        {
            let ghost before = r@;
            r.push(string_of(&self.stack[i]));
            proof {
                assert(r@ == before.push(r@.last()));
                assert(strings_view(r@) =~= strings_view(before).push(r@.last()@));
                assert(self.stack().subrange(0, i + 1) =~= self.stack().subrange(0, i as int).push(
                    self.stack@[i as int]@,
                ));
            }
            i = i + 1;
        }
        assert(self.stack().subrange(0, i as int) =~= self.stack());
        r
    }

    /// Takes the next pending word.
    pub fn pop(&mut self) -> (r: Option<String>)
        ensures
            old(self).stack().len() == 0 ==> r is None && final(self).stack() == old(
                self,
            ).stack(),
            old(self).stack().len() > 0 ==> (r matches Some(w) && w@ == old(self).stack().last()
                && final(self).stack() == old(self).stack().drop_last()),
            final(self).specials() == old(self).specials(),
    {
        match self.pop_chars() {
            Some(w) => Some(string_of(&w)),
            None => None,
        }
    }

    pub(crate) fn pop_chars(&mut self) -> (r: Option<Vec<char>>)
        ensures
            old(self).stack().len() == 0 ==> r is None && final(self).stack() == old(
                self,
            ).stack(),
            old(self).stack().len() > 0 ==> (r matches Some(w) && w@ == old(self).stack().last()
                && final(self).stack() == old(self).stack().drop_last()),
            final(self).specials() == old(self).specials(),
    {
        let r = self.stack.pop();
        proof {
            if old(self).stack@.len() > 0 {
                assert(self.stack() =~= old(self).stack().drop_last());
            }
        }
        r
    }

    pub(crate) fn clear(&mut self)
        ensures
            final(self).stack() == Seq::<Seq<char>>::empty(),
            final(self).specials() == old(self).specials(),
    {
        self.stack = Vec::new();
        assert(self.stack() =~= Seq::<Seq<char>>::empty());
    }

    /// Whether `txt` is one of the special strings.
    fn is_special(&self, txt: &[char]) -> (r: bool)
        ensures
            r == self.specials().contains(txt@),
    {
        let mut j: usize = 0;
        while j < self.special_chars.len()
            invariant
                0 <= j <= self.special_chars@.len(),
                forall|k: int| 0 <= k < j ==> self.specials()[k] != txt@,
            decreases self.special_chars@.len() - j,
        {
            if same_chars(self.special_chars[j].as_slice(), txt) {
                assert(self.specials()[j as int] == txt@);
                return true;
            }
            j = j + 1;
        }
        false
    }

    /// The first special string of the list that occurs in `txt`.
    fn first_special_in(&self, txt: &[char]) -> (r: Option<usize>)
        ensures
            first_special(self.specials(), txt@) == (match r {
                Some(j) => Some(j as int),
                None => None,
            }),
            r matches Some(j) ==> j < self.specials().len(),
    {
        let mut j: usize = 0;
        while j < self.special_chars.len()
            invariant
                0 <= j <= self.special_chars@.len(),
                first_special_from(self.specials(), txt@, 0) == first_special_from(
                    self.specials(),
                    txt@,
                    j as int,
                ),
            decreases self.special_chars@.len() - j,
        {
            assert(self.specials()[j as int] == self.special_chars@[j as int]@);
            if find_in(txt, self.special_chars[j].as_slice()).is_some() {
                return Some(j);
            }
            j = j + 1;
        }
        None
    }

    /// Splits `txt` around special strings (see `separate`).
    fn separate_special_chars(&mut self, txt: Vec<char>) -> (r: Vec<char>)
        ensures
            (r@, final(self).stack()) == separate(old(self).specials(), txt@, old(self).stack()),
            final(self).specials() == old(self).specials(),
        decreases txt@.len(),
    {
        if txt.len() > 1 && !self.is_special(txt.as_slice()) {
            match self.first_special_in(txt.as_slice()) {
                Some(j) => {
                    let c = vstd::slice::slice_to_vec(self.special_chars[j].as_slice());
                    assert(c@ == self.specials()[j as int]);
                    let found = find_in(txt.as_slice(), c.as_slice());
                    proof {
                        lemma_first_special_found(self.specials(), txt@, 0);
                        lemma_find_from_occurs(txt@, c@, 0);
                        if c@.len() == 0 {
                            assert(txt@.subrange(0, 0) =~= c@);
                        }
                    }
                    let p = found.unwrap();
                    let n = txt.len();
                    let after = vstd::slice::slice_to_vec(
                        vstd::slice::slice_subrange(txt.as_slice(), p + c.len(), n),
                    );
                    if after.len() > 0 {
                        self.push_chars(after);
                    }
                    self.push_chars(c);
                    let prefix = vstd::slice::slice_to_vec(
                        vstd::slice::slice_subrange(txt.as_slice(), 0, p),
                    );
                    self.separate_special_chars(prefix)
                },
                None => txt,
            }
        } else {
            txt
        }
    }

    /// Joins pending words onto `buf` (see `gather`).
    fn generate_multi_token_literal(&mut self, start: Vec<char>) -> (r: Vec<char>)
        ensures
            (r@, final(self).stack()) == gather(start@, old(self).stack()),
            final(self).specials() == old(self).specials(),
    {
        let mut buf = start;
        while !(buf.len() > 1 && buf[buf.len() - 1] == '"') && self.stack.len() > 0
            invariant
                gather(buf@, self.stack()) == gather(start@, old(self).stack()),
                self.specials() == old(self).specials(),
            decreases self.stack().len(),
        {
            let mut w = self.pop_chars().unwrap();
            let ghost before = buf@;
            let ghost word = w@;
            buf.push(' ');
            buf.append(&mut w);
            assert(buf@ =~= before + seq![' '] + word);
        }
        buf
    }

    /// Arranges one word (see `arrange_word`): returns its first atomic
    /// piece and leaves the others on the stack.
    pub(crate) fn arrange_chars(&mut self, txt: Vec<char>) -> (r: Vec<char>)
        ensures
            (r@, final(self).stack()) == arrange_word(old(self).specials(), txt@, old(self).stack()),
            final(self).specials() == old(self).specials(),
    {
        let m = self.separate_special_chars(txt);
        if m.len() > 0 && m[0] == '"' && !(m.len() > 1 && m[m.len() - 1] == '"') {
            self.generate_multi_token_literal(m)
        } else {
            m
        }
    }

    /// Arranges one word: returns its first atomic piece and leaves the others
    /// on the stack, to be popped in order.
    pub fn arrange(&mut self, txt: &str) -> (r: String)
        ensures
            (r@, final(self).stack()) == arrange_word(old(self).specials(), txt@, old(self).stack()),
            final(self).specials() == old(self).specials(),
    {
        let v = chars_of(txt);
        let r = self.arrange_chars(v);
        string_of(&r)
    }

    fn push_chars(&mut self, w: Vec<char>)
        ensures
            final(self).stack() == old(self).stack().push(w@),
            final(self).specials() == old(self).specials(),
    {
        let ghost w_view = w@;
        self.stack.push(w);
        assert(self.stack() =~= old(self).stack().push(w_view));
    }
}

} // verus!
