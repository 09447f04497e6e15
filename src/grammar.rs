//! Declarative grammars: rules made of commands, the state machine that feeds
//! tokens to a rule, and the builder that picks one rule among many by their
//! signatures and drives it to a statement.
use vstd::prelude::*;

use crate::lexer::{leading_eos, lemma_leading_eos, TokenStream};
use crate::text::{chars_of, same_chars};
use crate::token::{Keyword, Token, TokenTypeView, TokenView};

verus! {

/// What one grammar slot accepts.
pub enum CommandType {
    /// Any name.
    Name,
    /// One keyword.
    Keyword(Keyword),
    /// Any name or literal, bound under the given field.
    Get(String),
    /// A sub-sequence of commands, cycled through until a token does not fit.
    Repeat(Vec<Command>),
    /// Alternatives: any one of them.
    Or(Vec<Command>),
}

/// One grammar slot and the field that it binds under.
pub struct Command {
    name: String,
    ctype: CommandType,
}

/// Whether command `c` accepts a token holding `t`. A keyword slot compares
/// the keyword only; a repeat accepts nothing by itself; alternatives accept
/// what any one of them accepts.
pub closed spec fn command_matches(c: Command, t: TokenTypeView) -> bool
    decreases c, 0nat,
{
    match c.ctype {
        CommandType::Name => t is Name,
        CommandType::Keyword(k) => t == TokenTypeView::Keyword(k),
        CommandType::Get(_) => t is Name || t is Literal,
        CommandType::Repeat(_) => false,
        CommandType::Or(v) => commands_match_from(v, 0, t),
    }
}

/// Whether one of the commands of `v` from index `i` on accepts `t`.
pub closed spec fn commands_match_from(v: Vec<Command>, i: int, t: TokenTypeView) -> bool
    decreases v, v.len() - i,
{
    if 0 <= i < v.len() {
        proof {
            vstd::std_specs::vec::axiom_vec_index_decreases(v, i);
        }
        command_matches(v@[i], t) || commands_match_from(v, i + 1, t)
    } else {
        false
    }
}

impl Command {
    /// What this slot accepts.
    pub closed spec fn kind(&self) -> CommandType {
        self.ctype
    }

    /// The field this slot binds under.
    pub closed spec fn field_name(&self) -> Seq<char> {
        self.name@
    }

    fn matches_token(&self, token: &Token) -> (r: bool)
        ensures
            r == command_matches(*self, token@.kind),
        decreases *self, 0nat,
    {
        match &self.ctype {
            CommandType::Name => {
token.is_name()
            },
            CommandType::Keyword(k) => {
match token.as_keyword() {
                    Some(kw) => kw == *k,
                    None => false,
                }
            },
            CommandType::Get(_) => {
token.is_name() || token.is_literal()
            },
            CommandType::Repeat(_) => false,
            CommandType::Or(v) => any_matches_from(v, 0, token),
        }
    }
}

/// Whether one of the commands of `v` from index `i` on accepts `token`.
fn any_matches_from(v: &Vec<Command>, i: usize, token: &Token) -> (r: bool)
    ensures
        r == commands_match_from(*v, i as int, token@.kind),
    decreases *v, v@.len() - i,
{
    if i >= v.len() {
        return false;
    }
    proof {
        vstd::std_specs::vec::axiom_vec_index_decreases(*v, i as int);
    }
    if v[i].matches_token(token) {
        true
    } else {
        any_matches_from(v, i + 1, token)
    }
}

/// A token bound under a field.
pub struct Binding {
    field: String,
    token: Token,
}

impl Binding {
    pub closed spec fn view(&self) -> (Seq<char>, TokenView) {
        (self.field@, self.token@)
    }

    pub fn field(&self) -> (r: &String)
        ensures
            r@ == self.view().0,
    {
        &self.field
    }

    pub fn token(&self) -> (r: &Token)
        ensures
            r@ == self.view().1,
    {
        &self.token
    }
}

/// The field and token of each binding, in order.
pub open spec fn bindings_view(v: Seq<Binding>) -> Seq<(Seq<char>, TokenView)> {
    v.map_values(|b: Binding| b.view())
}

/// Where a rule stands while tokens are fed to it, and what it has bound.
pub struct ProgressView {
    /// The index of the current command.
    pub index: nat,
    /// The step inside the current command when it is a repeat.
    pub cycle: nat,
    /// The bindings made so far, in order.
    pub bindings: Seq<(Seq<char>, TokenView)>,
}

/// A rule's progress at the start of a parse.
pub open spec fn start_progress() -> ProgressView {
    ProgressView { index: 0, cycle: 0, bindings: Seq::empty() }
}

/// Whether command `c` is a repeat.
pub closed spec fn is_repeat(c: Command) -> bool {
    c.ctype is Repeat
}

/// The number of steps in a repeat (0 for any other command).
pub closed spec fn repeat_len(c: Command) -> nat {
    match c.ctype {
        CommandType::Repeat(v) => v@.len(),
        _ => 0,
    }
}

/// The command that the next token meets: the command at `index`, or inside
/// a repeat, its step at `cycle`. None once every command is consumed.
pub closed spec fn resolve(cmds: Seq<Command>, index: nat, cycle: nat) -> Option<Command> {
    if index < cmds.len() {
        match cmds[index as int].ctype {
            CommandType::Repeat(v) => if cycle < v@.len() {
                Some(v@[cycle as int])
            } else {
                None
            },
            _ => Some(cmds[index as int]),
        }
    } else {
        None
    }
}

/// At a repeat, a token that its current step does not accept ends the
/// repeat: the position moves to the next command.
pub closed spec fn end_repeat(cmds: Seq<Command>, p: ProgressView, t: TokenTypeView) -> ProgressView {
    if p.index < cmds.len() && is_repeat(cmds[p.index as int]) && !(match resolve(
        cmds,
        p.index,
        p.cycle,
    ) {
        Some(c) => command_matches(c, t),
        None => false,
    }) {
        ProgressView { index: p.index + 1, cycle: 0, ..p }
    } else {
        p
    }
}

/// What a command binds when it accepts a token: a get-slot binds under its
/// field, a name-slot under its name, a keyword-slot nothing.
pub closed spec fn binding_of(c: Command, t: TokenView) -> Seq<(Seq<char>, TokenView)> {
    match c.ctype {
        CommandType::Get(f) => seq![(f@, t)],
        CommandType::Name => seq![(c.name@, t)],
        _ => Seq::empty(),
    }
}

/// The position after the current command accepted a token: inside a repeat
/// the next step (cyclically), otherwise the next command.
pub closed spec fn step_past(cmds: Seq<Command>, p: ProgressView) -> ProgressView {
    if p.index < cmds.len() && is_repeat(cmds[p.index as int]) {
        ProgressView {
            cycle: if p.cycle + 1 < repeat_len(cmds[p.index as int]) {
                p.cycle + 1
            } else {
                0
            },
            ..p
        }
    } else {
        ProgressView { index: p.index + 1, cycle: 0, ..p }
    }
}

/// Feeds one token to a rule: first the repeat-termination check, then, when
/// the command it meets accepts the token, the binding and the step past it.
pub closed spec fn eat(cmds: Seq<Command>, p: ProgressView, t: TokenView) -> ProgressView {
    let q = end_repeat(cmds, p, t.kind);
    match resolve(cmds, q.index, q.cycle) {
        Some(c) => if command_matches(c, t.kind) {
            step_past(cmds, ProgressView { bindings: q.bindings + binding_of(c, t), ..q })
        } else {
            q
        },
        None => q,
    }
}

/// The repeat-termination check for token `t`, and whether afterwards no
/// command remains.
pub closed spec fn satiate(cmds: Seq<Command>, p: ProgressView, t: TokenTypeView) -> (
    ProgressView,
    bool,
) {
    let q = end_repeat(cmds, p, t);
    (q, resolve(cmds, q.index, q.cycle) is None)
}

/// With no token left: every command is consumed, or only a trailing repeat
/// remains.
pub closed spec fn finished(cmds: Seq<Command>, p: ProgressView) -> bool {
    p.index >= cmds.len() || (p.index + 1 == cmds.len() && is_repeat(cmds[p.index as int]))
}

/// Positions that the state machine can reach: inside a repeat the step is
/// in range, elsewhere it is 0.
pub closed spec fn progress_wf(cmds: Seq<Command>, p: ProgressView) -> bool {
    &&& p.index <= cmds.len()
    &&& if p.index < cmds.len() && is_repeat(cmds[p.index as int]) && repeat_len(
        cmds[p.index as int],
    ) > 0 {
        p.cycle < repeat_len(cmds[p.index as int])
    } else {
        p.cycle == 0
    }
}

/// A named sequence of commands: a grammar's template, never changed while
/// parsing.
pub struct Rule {
    name: String,
    rule: Vec<Command>,
}

/// A rule's per-parse state: its position and its bindings.
pub struct Progress {
    food_index: (usize, usize),
    data: Vec<Binding>,
}

impl Progress {
    pub closed spec fn view(&self) -> ProgressView {
        ProgressView {
            index: self.food_index.0 as nat,
            cycle: self.food_index.1 as nat,
            bindings: bindings_view(self.data@),
        }
    }

    pub fn new() -> (r: Progress)
        ensures
            r.view() == start_progress(),
    {
        let r = Progress { food_index: (0, 0), data: Vec::new() };
        assert(r.view().bindings =~= Seq::<(Seq<char>, TokenView)>::empty());
        r
    }
}

impl Rule {
    pub closed spec fn commands(&self) -> Seq<Command> {
        self.rule@
    }

    pub closed spec fn name_view(&self) -> Seq<char> {
        self.name@
    }

    fn get_current_command(&self, p: &Progress) -> (r: Option<&Command>)
        requires
            progress_wf(self.commands(), p.view()),
        ensures
            resolve(self.commands(), p.view().index, p.view().cycle) == match r {
                Some(c) => Some(*c),
                None => None,
            },
    {
        let i = p.food_index.0;
        if i < self.rule.len() {
            match &self.rule[i].ctype {
                CommandType::Repeat(v) => {
                    if p.food_index.1 < v.len() {
                        Some(&v[p.food_index.1])
                    } else {
                        None
                    }
                },
                _ => Some(&self.rule[i]),
            }
        } else {
            None
        }
    }

    fn current_command_is_repeat(&self, p: &Progress) -> (r: bool)
        ensures
            r == (p.view().index < self.commands().len() && is_repeat(
                self.commands()[p.view().index as int],
            )),
    {
        let i = p.food_index.0;
        if i < self.rule.len() {
            matches!(self.rule[i].ctype, CommandType::Repeat(_))
        } else {
            false
        }
    }

    /// Ends the current repeat when its step does not accept `token`.
    fn check_if_repeat_ended(&self, p: &mut Progress, token: &Token)
        requires
            progress_wf(self.commands(), old(p).view()),
        ensures
            progress_wf(self.commands(), final(p).view()),
            final(p).view() == end_repeat(self.commands(), old(p).view(), token@.kind),
    {
        let n = self.rule.len();
        if self.current_command_is_repeat(p) {
            let fits = match self.get_current_command(p) {
                Some(c) => c.matches_token(token),
                None => false,
            };
            if !fits {
                p.food_index = (p.food_index.0 + 1, 0);
            }
        }
    }

    fn go_to_next_command(&self, p: &mut Progress)
        requires
            progress_wf(self.commands(), old(p).view()),
            old(p).view().index < self.commands().len(),
        ensures
            progress_wf(self.commands(), final(p).view()),
            final(p).view() == step_past(self.commands(), old(p).view()),
    {
        let i = p.food_index.0;
        let n = self.rule.len();
        match &self.rule[i].ctype {
            CommandType::Repeat(v) => {
                let len = v.len();
                let next = if p.food_index.1 < len && p.food_index.1 + 1 < len {
                    p.food_index.1 + 1
                } else {
                    0
                };
                p.food_index = (i, next);
            },
            _ => {
                p.food_index = (i + 1, 0);
            },
        }
    }

    /// Feeds `token` to the rule (see `eat`).
    pub fn eat_token(&self, p: &mut Progress, token: &Token)
        requires
            progress_wf(self.commands(), old(p).view()),
        ensures
            progress_wf(self.commands(), final(p).view()),
            final(p).view() == eat(self.commands(), old(p).view(), token@),
    {
        self.check_if_repeat_ended(p, token);
        let ghost q = p.view();
        let bind: Option<Binding> = match self.get_current_command(p) {
            Some(c) => {
                if c.matches_token(token) {
                    match &c.ctype {
                        CommandType::Get(f) => Some(Binding { field: f.clone(), token: token.clone() }),
                        CommandType::Name => Some(Binding { field: c.name.clone(), token: token.clone() }),
                        _ => None,
                    }
                } else {
                    return;
                }
            },
            None => {
                return;
            },
        };
        let ghost c = resolve(self.commands(), q.index, q.cycle)->0;
        match bind {
            Some(b) => {
                let ghost before = p.data@;
                p.data.push(b);
                assert(bindings_view(p.data@) =~= bindings_view(before) + binding_of(c, token@));
            },
            None => {
                assert(binding_of(c, token@) =~= Seq::<(Seq<char>, TokenView)>::empty());
                assert(q.bindings + binding_of(c, token@) =~= q.bindings);
            },
        }
        self.go_to_next_command(p);
    }

    /// The repeat-termination check for `token`, then whether no command
    /// remains.
    pub fn is_satiated(&self, p: &mut Progress, token: &Token) -> (r: bool)
        requires
            progress_wf(self.commands(), old(p).view()),
        ensures
            progress_wf(self.commands(), final(p).view()),
            (final(p).view(), r) == satiate(self.commands(), old(p).view(), token@.kind),
    {
        self.check_if_repeat_ended(p, token);
        self.get_current_command(p).is_none()
    }

    /// Whether, with no token left, the rule is complete.
    pub fn is_finished(&self, p: &Progress) -> (r: bool)
        requires
            progress_wf(self.commands(), p.view()),
        ensures
            r == finished(self.commands(), p.view()),
    {
        let i = p.food_index.0;
        i >= self.rule.len() || (i + 1 == self.rule.len() && self.current_command_is_repeat(p))
    }
}

/// The slot that a signature holds at one position.
#[derive(Debug, Clone, Copy, PartialEq, Eq, Structural)]
pub enum TokenMatch {
    /// Any name.
    Name,
    /// One keyword.
    Keyword(Keyword),
}

/// A defect of a grammar's definition.
#[derive(Debug, Clone, Copy, PartialEq, Eq, Structural)]
pub enum GrammarError {
    /// Two rules cannot be told apart by their signatures: one signature
    /// reaches a get, repeat or alternative slot, or ends, before they differ.
    OverlappingSignature,
}

impl TokenMatch {
    /// Whether `token` fits this slot.
    pub fn matches(&self, token: &Token) -> (r: bool)
        ensures
            r == slot_matches(*self, token@.kind),
    {
        match self {
            TokenMatch::Name => token.is_name(),
            TokenMatch::Keyword(k) => match token.as_keyword() {
                Some(kw) => kw == *k,
                None => false,
            },
        }
    }
}

/// Whether a token holding `t` fits slot `m`.
pub open spec fn slot_matches(m: TokenMatch, t: TokenTypeView) -> bool {
    match m {
        TokenMatch::Name => t is Name,
        TokenMatch::Keyword(k) => t == TokenTypeView::Keyword(k),
    }
}

/// A name-slot or a keyword-slot: the commands a signature is made of.
pub closed spec fn is_plain(c: Command) -> bool {
    c.ctype is Name || c.ctype is Keyword
}

pub closed spec fn slot_of(c: Command) -> TokenMatch {
    match c.ctype {
        CommandType::Keyword(k) => TokenMatch::Keyword(k),
        _ => TokenMatch::Name,
    }
}

/// The end of the run of plain commands that starts at `i`.
pub closed spec fn signature_len_from(cmds: Seq<Command>, i: int) -> int
    decreases cmds.len() - i,
{
    if 0 <= i < cmds.len() && is_plain(cmds[i]) {
        signature_len_from(cmds, i + 1)
    } else {
        i
    }
}

/// The length of a rule's signature: its longest prefix of plain commands.
pub closed spec fn signature_len(cmds: Seq<Command>) -> int {
    signature_len_from(cmds, 0)
}

/// The signature's slot at position `i`: a slot inside the signature; none
/// past the end of a rule that is all signature; a defect where a get,
/// repeat or alternative slot comes at or before `i`.
pub closed spec fn signature_at(cmds: Seq<Command>, i: int) -> Result<Option<TokenMatch>, GrammarError> {
    let n = signature_len(cmds);
    if 0 <= i < n {
        Ok(Some(slot_of(cmds[i])))
    } else if n == cmds.len() {
        Ok(None)
    } else {
        Err(GrammarError::OverlappingSignature)
    }
}

/// Whether a token holding `t` fits a rule's signature at position `i`.
pub closed spec fn fits(cmds: Seq<Command>, t: TokenTypeView, i: int) -> bool {
    match signature_at(cmds, i) {
        Ok(Some(m)) => slot_matches(m, t),
        _ => false,
    }
}

/// Whether two signatures, equal before `i`, differ at some position from `i`
/// on at which both are defined.
pub closed spec fn diverge_from(a: Seq<Command>, b: Seq<Command>, i: int) -> bool
    decreases a.len() - i,
{
    let sa = signature_at(a, i);
    let sb = signature_at(b, i);
    if sa is Err || sb is Err {
        false
    } else if sa != sb {
        true
    } else if 0 <= i < a.len() {
        diverge_from(a, b, i + 1)
    } else {
        false
    }
}

/// Two rules can be told apart by their signatures alone.
pub closed spec fn distinguishable(a: Seq<Command>, b: Seq<Command>) -> bool {
    diverge_from(a, b, 0)
}

proof fn lemma_signature_len_from(cmds: Seq<Command>, i: int)
    requires
        0 <= i <= cmds.len(),
    ensures
        i <= signature_len_from(cmds, i) <= cmds.len(),
        forall|j: int| i <= j < signature_len_from(cmds, i) ==> is_plain(#[trigger] cmds[j]),
        signature_len_from(cmds, i) < cmds.len() ==> !is_plain(
            cmds[signature_len_from(cmds, i)],
        ),
    decreases cmds.len() - i,
{
    if i < cmds.len() && is_plain(cmds[i]) {
        lemma_signature_len_from(cmds, i + 1);
    }
}

proof fn lemma_signature_prefix(cmds: Seq<Command>, i: int)
    requires
        0 <= i <= cmds.len(),
        forall|j: int| 0 <= j < i ==> is_plain(#[trigger] cmds[j]),
    ensures
        signature_len(cmds) == signature_len_from(cmds, i),
    decreases i,
{
    if i > 0 {
        lemma_signature_prefix(cmds, i - 1);
        assert(is_plain(cmds[i - 1]));
    }
}

/// Builds a rule from commands, in order.
pub struct RuleBuilder {
    name: String,
    rule: Vec<Command>,
}

impl RuleBuilder {
    pub closed spec fn name_view(&self) -> Seq<char> {
        self.name@
    }

    pub closed spec fn commands(&self) -> Seq<Command> {
        self.rule@
    }

    pub fn new(name: &str) -> (r: RuleBuilder)
        ensures
            r.name_view() == name@,
            r.commands() == Seq::<Command>::empty(),
    {
        let r = RuleBuilder { name: name.to_string(), rule: Vec::new() };
        assert(r.commands() =~= Seq::<Command>::empty());
        r
    }

    /// Appends a name-slot that binds under `name`.
    pub fn add_name(self, name: &str) -> (r: RuleBuilder)
        ensures
            r.name_view() == self.name_view(),
            r.commands().len() == self.commands().len() + 1,
            r.commands().drop_last() == self.commands(),
            r.commands().last().kind() is Name,
            r.commands().last().field_name() == name@,
    {
        let mut b = self;
        b.rule.push(Command { name: name.to_string(), ctype: CommandType::Name });
        assert(b.rule@.drop_last() =~= self.rule@);
        b
    }

    /// Appends a keyword-slot for `keyword`.
    pub fn add_keyword(self, name: &str, keyword: Keyword) -> (r: RuleBuilder)
        ensures
            r.name_view() == self.name_view(),
            r.commands().len() == self.commands().len() + 1,
            r.commands().drop_last() == self.commands(),
            r.commands().last().kind() == CommandType::Keyword(keyword),
            r.commands().last().field_name() == name@,
    {
        let mut b = self;
        b.rule.push(Command { name: name.to_string(), ctype: CommandType::Keyword(keyword) });
        assert(b.rule@.drop_last() =~= self.rule@);
        b
    }

    /// Appends a get-slot that binds under `name`.
    pub fn add_get(self, name: &str) -> (r: RuleBuilder)
        ensures
            r.name_view() == self.name_view(),
            r.commands().len() == self.commands().len() + 1,
            r.commands().drop_last() == self.commands(),
            r.commands().last().kind() is Get,
            r.commands().last().kind()->Get_0@ == name@,
            r.commands().last().field_name() == name@,
    {
        let mut b = self;
        b.rule.push(Command { name: name.to_string(), ctype: CommandType::Get(name.to_string()) });
        assert(b.rule@.drop_last() =~= self.rule@);
        b
    }

    /// Appends a repeat of the commands of `repeat`.
    pub fn add_repeat(self, name: &str, repeat: RuleBuilder) -> (r: RuleBuilder)
        ensures
            r.name_view() == self.name_view(),
            r.commands().len() == self.commands().len() + 1,
            r.commands().drop_last() == self.commands(),
            r.commands().last().kind() is Repeat,
            r.commands().last().kind()->Repeat_0@ == repeat.commands(),
            r.commands().last().field_name() == name@,
    {
        let mut b = self;
        b.rule.push(Command { name: name.to_string(), ctype: CommandType::Repeat(repeat.rule) });
        assert(b.rule@.drop_last() =~= self.rule@);
        b
    }

    /// Appends alternatives: the commands of `rules`, any one of which may
    /// accept a token.
    pub fn add_or(self, name: &str, rules: RuleBuilder) -> (r: RuleBuilder)
        ensures
            r.name_view() == self.name_view(),
            r.commands().len() == self.commands().len() + 1,
            r.commands().drop_last() == self.commands(),
            r.commands().last().kind() is Or,
            r.commands().last().kind()->Or_0@ == rules.commands(),
            r.commands().last().field_name() == name@,
    {
        let mut b = self;
        b.rule.push(Command { name: name.to_string(), ctype: CommandType::Or(rules.rule) });
        assert(b.rule@.drop_last() =~= self.rule@);
        b
    }

    fn build(self) -> (r: Rule)
        ensures
            r.name_view() == self.name_view(),
            r.commands() == self.commands(),
    {
        Rule { name: self.name, rule: self.rule }
    }
}

impl Rule {
    /// The signature's slot at position `index` (see `signature_at`).
    fn get_possible_tokens_at(&self, index: usize) -> (r: Result<Option<TokenMatch>, GrammarError>)
        ensures
            r == signature_at(self.commands(), index as int),
    {
        let n = self.rule.len();
        let mut i: usize = 0;
        while i < n && i <= index
            invariant
                n == self.commands().len(),
                0 <= i <= n,
                i <= index + 1,
                forall|j: int| 0 <= j < i ==> is_plain(#[trigger] self.commands()[j]),
            decreases n - i,
        {
            let plain = match &self.rule[i].ctype {
                CommandType::Name => true,
                CommandType::Keyword(_) => true,
                _ => false,
            };
            if !plain {
                proof {
                    lemma_signature_prefix(self.commands(), i as int);
                }
                return Err(GrammarError::OverlappingSignature);
            }
            i = i + 1;
        }
        proof {
            lemma_signature_prefix(self.commands(), i as int);
            lemma_signature_len_from(self.commands(), i as int);
        }
        if index < n {
            match &self.rule[index].ctype {
                CommandType::Keyword(k) => Ok(Some(TokenMatch::Keyword(*k))),
                _ => Ok(Some(TokenMatch::Name)),
            }
        } else {
            Ok(None)
        }
    }

    /// Whether `token` fits this rule's signature at position `index`.
    fn fits_at(&self, token: &Token, index: usize) -> (r: bool)
        ensures
            r == fits(self.commands(), token@.kind, index as int),
    {
        match self.get_possible_tokens_at(index) {
            Ok(Some(m)) => m.matches(token),
            _ => false,
        }
    }
}

/// Whether two rules can be told apart by their signatures alone.
fn rules_distinguishable(a: &Rule, b: &Rule) -> (r: bool)
    ensures
        r == distinguishable(a.commands(), b.commands()),
{
    let n = a.rule.len();
    let mut i: usize = 0;
    loop
        invariant
            n == a.commands().len(),
            0 <= i <= n,
            diverge_from(a.commands(), b.commands(), 0) == diverge_from(
                a.commands(),
                b.commands(),
                i as int,
            ),
        decreases n - i,
    {
        let sa = a.get_possible_tokens_at(i);
        let sb = b.get_possible_tokens_at(i);
        match (sa, sb) {
            (Ok(x), Ok(y)) => {
                if x != y {
                    return true;
                }
                if i >= n {
                    return false;
                }
                i = i + 1;
            },
            _ => {
                return false;
            },
        }
    }
}

/// The rules among which each statement is chosen.
pub struct Grammar {
    rules: Vec<Rule>,
}

impl Grammar {
    pub closed spec fn rules(&self) -> Seq<Rule> {
        self.rules@
    }

    /// Every two rules can be told apart by their signatures.
    pub closed spec fn wf(&self) -> bool {
        forall|i: int, j: int|
            0 <= i < j < self.rules@.len() ==> distinguishable(
                #[trigger] self.rules@[i].commands(),
                #[trigger] self.rules@[j].commands(),
            )
    }

    pub fn new() -> (r: Grammar)
        ensures
            r.wf(),
            r.rules().len() == 0,
    {
        Grammar { rules: Vec::new() }
    }

    /// Adds a rule, unless some rule already in the grammar cannot be told
    /// apart from it by signatures; then the grammar is left as it was.
    pub fn add_rule(&mut self, rule: RuleBuilder) -> (r: Result<(), GrammarError>)
        requires
            old(self).wf(),
        ensures
            final(self).wf(),
            r is Ok <==> forall|i: int|
                0 <= i < old(self).rules().len() ==> distinguishable(
                    #[trigger] old(self).rules()[i].commands(),
                    rule.commands(),
                ),
            r is Ok ==> final(self).rules().len() == old(self).rules().len() + 1
                && final(self).rules().drop_last() == old(self).rules()
                && final(self).rules().last().commands() == rule.commands()
                && final(self).rules().last().name_view() == rule.name_view(),
            r is Err ==> final(self).rules() == old(self).rules(),
    {
        let built = rule.build();
        let mut i: usize = 0;
        while i < self.rules.len()
            invariant
                0 <= i <= self.rules@.len(),
                self.rules@ == old(self).rules@,
                self.wf(),
                built.commands() == rule.commands(),
                forall|j: int|
                    0 <= j < i ==> distinguishable(
                        #[trigger] self.rules@[j].commands(),
                        built.commands(),
                    ),
            decreases self.rules@.len() - i,
        {
            if !rules_distinguishable(&self.rules[i], &built) {
                assert(!distinguishable(old(self).rules()[i as int].commands(), rule.commands()));
                return Err(GrammarError::OverlappingSignature);
            }
            i = i + 1;
        }
        self.rules.push(built);
        assert(self.rules@.drop_last() =~= old(self).rules@);
        assert forall|a: int, b: int|
            0 <= a < b < self.rules@.len() implies distinguishable(
            #[trigger] self.rules@[a].commands(),
            #[trigger] self.rules@[b].commands(),
        ) by {
            if b < old(self).rules@.len() {
                assert(self.rules@[a] == old(self).rules@[a]);
                assert(self.rules@[b] == old(self).rules@[b]);
            }
        }
        Ok(())
    }
}

/// The rules of `pool` (indices into `rules`) whose signature at position
/// `i` a token holding `t` fits, in their order.
pub closed spec fn narrow(rules: Seq<Rule>, pool: Seq<usize>, t: TokenTypeView, i: int) -> Seq<usize>
    decreases pool.len(),
{
    if pool.len() == 0 {
        pool
    } else {
        let rest = narrow(rules, pool.drop_last(), t, i);
        if fits(rules[pool.last() as int].commands(), t, i) {
            rest.push(pool.last())
        } else {
            rest
        }
    }
}

/// Disambiguation from position `i`: while more than one rule remains and
/// tokens remain, the pool is narrowed by the token at `i`. Gives the pool
/// left and the number of tokens read.
pub closed spec fn select_from(rules: Seq<Rule>, pool: Seq<usize>, toks: Seq<TokenView>, i: int) -> (
    Seq<usize>,
    int,
)
    decreases toks.len() - i,
{
    if pool.len() <= 1 || i < 0 || i >= toks.len() {
        (pool, i)
    } else {
        select_from(rules, narrow(rules, pool, toks[i].kind, i), toks, i + 1)
    }
}

/// Every rule of a grammar, by index.
pub open spec fn all_rules(n: nat) -> Seq<usize> {
    Seq::new(n, |k: int| k as usize)
}

/// Disambiguation over the whole grammar, from the first token.
pub closed spec fn select(rules: Seq<Rule>, toks: Seq<TokenView>) -> (Seq<usize>, int) {
    select_from(rules, all_rules(rules.len()), toks, 0)
}

/// The progress of a rule after being fed `toks` from the start.
pub closed spec fn replay(cmds: Seq<Command>, toks: Seq<TokenView>) -> ProgressView
    decreases toks.len(),
{
    if toks.len() == 0 {
        start_progress()
    } else {
        eat(cmds, replay(cmds, toks.drop_last()), toks.last())
    }
}

/// Consumption from token `j` on: until a token satiates the rule, each token
/// is fed to it. With no token left, the rule must be finished. Gives the
/// final progress and the index of the first token not consumed.
pub closed spec fn run(cmds: Seq<Command>, p: ProgressView, toks: Seq<TokenView>, j: int) -> Option<
    (ProgressView, int),
>
    decreases toks.len() - j,
{
    if j < 0 || j >= toks.len() {
        if finished(cmds, p) {
            Some((p, j))
        } else {
            None
        }
    } else {
        let (q, sat) = satiate(cmds, p, toks[j].kind);
        if sat {
            Some((q, j))
        } else {
            run(cmds, eat(cmds, q, toks[j]), toks, j + 1)
        }
    }
}

/// How reading one statement from `toks` ends.
pub enum StatementOutcome {
    /// Rule `rule` reached `progress`, and `consumed` tokens were read.
    Complete { rule: int, progress: ProgressView, consumed: int },
    /// No rule's signature accepts this token.
    UnexpectedToken(TokenView),
    /// The tokens ran out first.
    UnexpectedEnd,
}

/// Reads one statement from `toks` with the rules of a grammar: disambiguates
/// by signatures, replays the tokens read doing so into the one rule left,
/// then feeds it fresh tokens until it is satiated.
pub closed spec fn parse_statement(rules: Seq<Rule>, toks: Seq<TokenView>) -> StatementOutcome {
    let (pool, n) = select(rules, toks);
    if pool.len() == 0 {
        if n > 0 {
            StatementOutcome::UnexpectedToken(toks[n - 1])
        } else if toks.len() > 0 {
            StatementOutcome::UnexpectedToken(toks[0])
        } else {
            StatementOutcome::UnexpectedEnd
        }
    } else if pool.len() > 1 {
        StatementOutcome::UnexpectedEnd
    } else {
        let cmds = rules[pool[0] as int].commands();
        match run(cmds, replay(cmds, toks.subrange(0, n)), toks, n) {
            Some((q, j)) => StatementOutcome::Complete { rule: pool[0] as int, progress: q, consumed: j },
            None => StatementOutcome::UnexpectedEnd,
        }
    }
}

/// The tokens bound under field `f`, in order.
pub open spec fn field_values(b: Seq<(Seq<char>, TokenView)>, f: Seq<char>) -> Seq<TokenView>
    decreases b.len(),
{
    if b.len() == 0 {
        Seq::empty()
    } else {
        let rest = field_values(b.drop_last(), f);
        if b.last().0 == f {
            rest.push(b.last().1)
        } else {
            rest
        }
    }
}

/// A statement as plain values: its rule's name and its bindings in order.
pub struct StatementView {
    pub rule: Seq<char>,
    pub bindings: Seq<(Seq<char>, TokenView)>,
}

/// A completed rule: its name and the tokens bound under its fields.
pub struct Statement {
    rule: String,
    data: Vec<Binding>,
}

impl Statement {
    pub closed spec fn view(&self) -> StatementView {
        StatementView { rule: self.rule@, bindings: bindings_view(self.data@) }
    }

    pub fn rule_name(&self) -> (r: &String)
        ensures
            r@ == self.view().rule,
    {
        &self.rule
    }

    /// Every binding, in the order in which it was made.
    pub fn bindings(&self) -> (r: &Vec<Binding>)
        ensures
            bindings_view(r@) == self.view().bindings,
    {
        &self.data
    }

    /// The tokens bound under `field`, in order.
    pub fn get(&self, field: &str) -> (r: Vec<Token>)
        ensures
            r@.map_values(|t: Token| t@) == field_values(self.view().bindings, field@),
    {
        let f = chars_of(field);
        let mut r: Vec<Token> = Vec::new();
        let mut i: usize = 0;
        while i < self.data.len()
            invariant
                0 <= i <= self.data@.len(),
                f@ == field@,
                r@.map_values(|t: Token| t@) =~= field_values(
                    bindings_view(self.data@).subrange(0, i as int),
                    field@,
                ),
            decreases self.data@.len() - i,
        {
            let ghost bs = bindings_view(self.data@);
            assert(bs.subrange(0, i + 1).drop_last() =~= bs.subrange(0, i as int));
            let b = &self.data[i];
            let here = chars_of(b.field.as_str());
            if same_chars(here.as_slice(), f.as_slice()) {
                let ghost before = r@;
                r.push(b.token.clone());
                assert(r@.map_values(|t: Token| t@) =~= before.map_values(|t: Token| t@).push(
                    b.token@,
                ));
            }
            i = i + 1;
        }
        assert(bindings_view(self.data@).subrange(0, i as int) =~= bindings_view(self.data@));
        r
    }
}

/// Why a statement could not be read.
#[derive(Debug)]
pub enum SyntaxError {
    /// No rule's signature accepts this token here.
    UnexpectedToken(Token),
    /// The tokens ran out before a rule was chosen or satiated.
    UnexpectedEnd,
}

/// Chooses one rule of a grammar for the next statement and drives it to
/// completion.
pub struct StatementBuilder {
    grammar: Grammar,
    saved_tokens: Vec<Token>,
    rule_pool: Vec<usize>,
    token_index: usize,
    progressed: bool,
}

impl StatementBuilder {
    pub closed spec fn rules(&self) -> Seq<Rule> {
        self.grammar.rules()
    }

    pub closed spec fn wf(&self) -> bool {
        self.grammar.wf()
    }

    /// Whether the last statement read consumed at least one token.
    pub closed spec fn progressed(&self) -> bool {
        self.progressed
    }

    pub fn consumed_any(&self) -> (r: bool)
        ensures
            r == self.progressed(),
    {
        self.progressed
    }

    pub fn new(grammar: Grammar) -> (r: StatementBuilder)
        requires
            grammar.wf(),
        ensures
            r.wf(),
            r.rules() == grammar.rules(),
    {
        StatementBuilder {
            grammar,
            saved_tokens: Vec::new(),
            rule_pool: Vec::new(),
            token_index: 0,
            progressed: false,
        }
    }

    /// Whether `token` fits the signature of rule `rule` at position `at_index`.
    fn fits_rule_at(&self, token: &Token, rule: usize, at_index: usize) -> (r: bool)
        requires
            rule < self.rules().len(),
        ensures
            r == fits(self.rules()[rule as int].commands(), token@.kind, at_index as int),
    {
        self.grammar.rules[rule].fits_at(token, at_index)
    }

    /// Keeps the rules of the pool that `token` fits at the current position.
    fn trim_rules(&mut self, token: &Token)
        requires
            forall|j: int|
                0 <= j < old(self).rule_pool@.len() ==> (#[trigger] old(self).rule_pool@[j])
                    < old(self).grammar.rules@.len(),
        ensures
            final(self).grammar == old(self).grammar,
            final(self).saved_tokens == old(self).saved_tokens,
            final(self).token_index == old(self).token_index,
            final(self).rule_pool@ == narrow(
                old(self).rules(),
                old(self).rule_pool@,
                token@.kind,
                old(self).token_index as int,
            ),
            forall|j: int|
                0 <= j < final(self).rule_pool@.len() ==> (#[trigger] final(self).rule_pool@[j])
                    < final(self).grammar.rules@.len(),
    {
        let ghost pool = self.rule_pool@;
        let mut kept: Vec<usize> = Vec::new();
        let mut i: usize = 0;
        while i < self.rule_pool.len()
            invariant
                self.grammar == old(self).grammar,
                self.saved_tokens == old(self).saved_tokens,
                self.token_index == old(self).token_index,
                self.rule_pool@ == pool,
                pool == old(self).rule_pool@,
                forall|j: int| 0 <= j < pool.len() ==> (#[trigger] pool[j]) < self.grammar.rules@.len(),
                0 <= i <= pool.len(),
                kept@ == narrow(
                    self.rules(),
                    pool.subrange(0, i as int),
                    token@.kind,
                    self.token_index as int,
                ),
                forall|j: int| 0 <= j < kept@.len() ==> (#[trigger] kept@[j]) < self.grammar.rules@.len(),
            decreases pool.len() - i,
        {
            let k = self.rule_pool[i];
            assert(pool.subrange(0, i + 1).drop_last() =~= pool.subrange(0, i as int));
            if self.fits_rule_at(token, k, self.token_index) {
                kept.push(k);
            }
            i = i + 1;
        }
        assert(pool.subrange(0, i as int) =~= pool);
        self.rule_pool = kept;
    }

    /// Narrows the pool to one rule, saving every token read.
    fn select_rule(&mut self, stream: &mut TokenStream) -> (r: bool)
        requires
            old(stream).wf(),
        ensures
            final(stream).wf(),
            final(self).grammar == old(self).grammar,
            ({
                let toks = old(stream).remaining();
                let (pool, n) = select(old(self).rules(), toks);
                &&& final(self).rule_pool@ == pool
                &&& final(self).token_index == n
                &&& 0 <= n <= toks.len()
                &&& final(self).saved_tokens@.map_values(|t: Token| t@) == toks.subrange(0, n)
                &&& final(stream).remaining() == toks.subrange(n, toks.len() as int)
                &&& forall|j: int|
                    0 <= j < pool.len() ==> (#[trigger] pool[j]) < old(self).rules().len()
            }),
    {
        let ghost toks = stream.remaining();
        let n = self.grammar.rules.len();
        let mut all: Vec<usize> = Vec::new();
        let mut k: usize = 0;
        while k < n
            invariant
                n == self.grammar.rules@.len(),
                0 <= k <= n,
                all@ =~= all_rules(n as nat).subrange(0, k as int),
            decreases n - k,
        {
            all.push(k);
            k = k + 1;
        }
        assert(all@ =~= all_rules(n as nat));
        self.rule_pool = all;
        self.saved_tokens = Vec::new();
        self.token_index = 0;
        assert(toks.subrange(0, 0) =~= self.saved_tokens@.map_values(|t: Token| t@));
        assert(toks.subrange(0, toks.len() as int) =~= toks);
        while self.rule_pool.len() > 1
            invariant
                stream.wf(),
                toks == old(stream).remaining(),
                self.grammar == old(self).grammar,
                self.token_index <= toks.len(),
                stream.remaining() == toks.subrange(self.token_index as int, toks.len() as int),
                select_from(self.rules(), self.rule_pool@, toks, self.token_index as int) == select(
                    self.rules(),
                    toks,
                ),
                self.saved_tokens@.map_values(|t: Token| t@) == toks.subrange(
                    0,
                    self.token_index as int,
                ),
                forall|j: int|
                    0 <= j < self.rule_pool@.len() ==> (#[trigger] self.rule_pool@[j])
                        < self.grammar.rules@.len(),
            decreases stream.remaining().len(),
        {
            match stream.current() {
                None => {
                    assert(self.token_index == toks.len());
                    assert(select_from(self.rules(), self.rule_pool@, toks, self.token_index as int)
                        == (self.rule_pool@, self.token_index as int));
                    return true;
                },
                Some(t) => {
                    let ghost before = self.saved_tokens@;
                    let ghost idx = self.token_index as int;
                    self.trim_rules(&t);
                    self.saved_tokens.push(t);
                    assert(self.saved_tokens@.map_values(|t: Token| t@) =~= before.map_values(
                        |t: Token| t@,
                    ).push(toks[idx]));
                    assert(toks.subrange(0, idx + 1) =~= toks.subrange(0, idx).push(toks[idx]));
                    self.token_index = self.saved_tokens.len();
                    let ghost rem = stream.remaining();
                    stream.advance();
                    assert(toks.subrange(idx + 1, toks.len() as int) =~= rem.drop_first());
                },
            }
        }
        assert(select_from(self.rules(), self.rule_pool@, toks, self.token_index as int) == (
            self.rule_pool@,
            self.token_index as int,
        ));
        true
    }

    /// Reads one statement from `token_stream`, whose current token is
    /// `token`, and leaves the stream at the first token that the statement
    /// did not consume.
    pub fn build(&mut self, token_stream: &mut TokenStream, token: Token) -> (r: Result<
        Statement,
        SyntaxError,
    >)
        requires
            old(self).wf(),
            old(token_stream).wf(),
        ensures
            final(self).wf(),
            final(self).rules() == old(self).rules(),
            final(token_stream).wf(),
            ({
                let toks = old(token_stream).remaining();
                let out = parse_statement(old(self).rules(), toks);
                match r {
                    Ok(st) => match out {
                        StatementOutcome::Complete { rule, progress, consumed } => {
                            &&& st.view() == StatementView {
                                rule: old(self).rules()[rule].name_view(),
                                bindings: progress.bindings,
                            }
                            &&& 0 <= consumed <= toks.len()
                            &&& final(token_stream).remaining() == toks.subrange(
                                consumed,
                                toks.len() as int,
                            )
                            &&& final(self).progressed() == (consumed > 0)
                        },
                        _ => false,
                    },
                    Err(SyntaxError::UnexpectedToken(t)) => out == StatementOutcome::UnexpectedToken(
                        t@,
                    ),
                    Err(SyntaxError::UnexpectedEnd) => out is UnexpectedEnd,
                }
            }),
    {
        let ghost toks = token_stream.remaining();
        self.select_rule(token_stream);
        let ghost n = self.token_index as int;
        if self.rule_pool.len() == 0 {
            if self.saved_tokens.len() > 0 {
                let last = self.saved_tokens.len() - 1;
                assert(self.saved_tokens@.map_values(|t: Token| t@)[last as int] == toks[n - 1]);
                return Err(SyntaxError::UnexpectedToken(self.saved_tokens[last].clone()));
            }
            return match token_stream.current() {
                Some(t) => Err(SyntaxError::UnexpectedToken(t)),
                None => Err(SyntaxError::UnexpectedEnd),
            };
        }
        if self.rule_pool.len() > 1 {
            return Err(SyntaxError::UnexpectedEnd);
        }
        let k = self.rule_pool[0];
        assert(self.rule_pool@ =~= seq![k]);
        let rule = &self.grammar.rules[k];
        let ghost cmds = rule.commands();
        let mut progress = Progress::new();
        let mut i: usize = 0;
        while i < self.saved_tokens.len()
            invariant
                cmds == rule.commands(),
                toks == old(token_stream).remaining(),
                0 <= n <= toks.len(),
                self.saved_tokens@.len() == n,
                0 <= i <= self.saved_tokens@.len(),
                self.saved_tokens@.map_values(|t: Token| t@) == toks.subrange(0, n),
                progress_wf(cmds, progress.view()),
                progress.view() == replay(cmds, toks.subrange(0, i as int)),
            decreases self.saved_tokens@.len() - i,
        {
            assert(toks.subrange(0, i + 1).drop_last() =~= toks.subrange(0, i as int));
            assert(self.saved_tokens@.map_values(|t: Token| t@)[i as int] == self.saved_tokens@[i as int]@);
            rule.eat_token(&mut progress, &self.saved_tokens[i]);
            i = i + 1;
        }
        let ghost p0 = progress.view();
        assert(toks.subrange(0, i as int) =~= toks.subrange(0, n));
        let ghost mut j: int = n;
        let mut consumed_fresh = false;
        loop
            invariant
                consumed_fresh == (j > n),
                self.saved_tokens@.len() == n,
                cmds == rule.commands(),
                toks == old(token_stream).remaining(),
                self.wf(),
                self.rules() == old(self).rules(),
                select(old(self).rules(), toks).0 == seq![k],
                select(old(self).rules(), toks).1 == n,
                0 <= n <= toks.len(),
                k < old(self).rules().len(),
                rule == old(self).rules()[k as int],
                p0 == replay(cmds, toks.subrange(0, n)),
                token_stream.wf(),
                n <= j <= toks.len(),
                token_stream.remaining() == toks.subrange(j, toks.len() as int),
                progress_wf(cmds, progress.view()),
                run(cmds, progress.view(), toks, j) == run(cmds, p0, toks, n),
            decreases token_stream.remaining().len(),
        {
            match token_stream.current() {
                None => {
                    if rule.is_finished(&progress) {
                        assert(run(cmds, progress.view(), toks, j) == Some((progress.view(), j)));
                        self.progressed = self.saved_tokens.len() > 0 || consumed_fresh;
                        return Ok(Statement { rule: rule.name.clone(), data: progress.data });
                    }
                    return Err(SyntaxError::UnexpectedEnd);
                },
                Some(t) => {
                    let ghost before = progress.view();
                    if rule.is_satiated(&mut progress, &t) {
                        assert(run(cmds, before, toks, j) == Some((progress.view(), j)));
                        self.progressed = self.saved_tokens.len() > 0 || consumed_fresh;
                        return Ok(Statement { rule: rule.name.clone(), data: progress.data });
                    }
                    rule.eat_token(&mut progress, &t);
                    let ghost rem = token_stream.remaining();
                    token_stream.advance();
                    consumed_fresh = true;
                    proof {
                        assert(j < toks.len());
                        assert(toks.subrange(j + 1, toks.len() as int) =~= rem.drop_first());
                        j = j + 1;
                    }
                },
            }
        }
    }
}

/// Why reading statements failed, as plain values.
pub enum SyntaxErrorView {
    UnexpectedToken(TokenView),
    UnexpectedEnd,
}

impl SyntaxError {
    pub closed spec fn view(&self) -> SyntaxErrorView {
        match self {
            SyntaxError::UnexpectedToken(t) => SyntaxErrorView::UnexpectedToken(t@),
            SyntaxError::UnexpectedEnd => SyntaxErrorView::UnexpectedEnd,
        }
    }
}

/// Reads statements until the tokens run out. Before each statement a run of
/// end-of-statement tokens is skipped, and tokens must remain after it. A
/// statement that consumes no token is refused, since reading on would not
/// advance.
pub closed spec fn parse_tokens(rules: Seq<Rule>, toks: Seq<TokenView>) -> Result<
    Seq<StatementView>,
    SyntaxErrorView,
>
    decreases toks.len(),
{
    if toks.len() == 0 {
        Ok(Seq::empty())
    } else {
        let rest = toks.subrange(leading_eos(toks) as int, toks.len() as int);
        if leading_eos(toks) > toks.len() || rest.len() == 0 {
            Err(SyntaxErrorView::UnexpectedEnd)
        } else {
            match parse_statement(rules, rest) {
                StatementOutcome::Complete { rule, progress, consumed } => {
                    if consumed <= 0 || consumed > rest.len() {
                        Err(SyntaxErrorView::UnexpectedToken(rest[0]))
                    } else {
                        let st = StatementView { rule: rules[rule].name_view(), bindings: progress.bindings };
                        match parse_tokens(rules, rest.subrange(consumed, rest.len() as int)) {
                            Ok(more) => Ok(seq![st] + more),
                            Err(e) => Err(e),
                        }
                    }
                },
                StatementOutcome::UnexpectedToken(t) => Err(SyntaxErrorView::UnexpectedToken(t)),
                StatementOutcome::UnexpectedEnd => Err(SyntaxErrorView::UnexpectedEnd),
            }
        }
    }
}

/// The statements read from a whole token stream, in order.
pub struct SyntaxTree {
    root: Vec<Statement>,
}

/// The view of each statement.
pub open spec fn statements_view(v: Seq<Statement>) -> Seq<StatementView> {
    v.map_values(|s: Statement| s.view())
}

impl SyntaxTree {
    pub fn statements(&self) -> (r: &Vec<Statement>)
        ensures
            statements_view(r@) == self.view(),
    {
        &self.root
    }

    pub closed spec fn view(&self) -> Seq<StatementView> {
        statements_view(self.root@)
    }
}

/// Reads a whole token stream into statements of a grammar.
pub struct SyntaxParser {
    tokens: TokenStream,
    builder: StatementBuilder,
}

impl SyntaxParser {
    pub closed spec fn wf(&self) -> bool {
        self.tokens.wf() && self.builder.wf()
    }

    pub closed spec fn remaining(&self) -> Seq<TokenView> {
        self.tokens.remaining()
    }

    pub closed spec fn rules(&self) -> Seq<Rule> {
        self.builder.rules()
    }

    pub fn new(tokens: TokenStream, grammar: Grammar) -> (r: SyntaxParser)
        requires
            tokens.wf(),
            grammar.wf(),
        ensures
            r.wf(),
            r.remaining() == tokens.remaining(),
            r.rules() == grammar.rules(),
    {
        SyntaxParser { tokens, builder: StatementBuilder::new(grammar) }
    }

    /// Reads statements until the tokens run out (see `parse_tokens`).
    pub fn parse(&mut self) -> (r: Result<SyntaxTree, SyntaxError>)
        requires
            old(self).wf(),
        ensures
            final(self).wf(),
            match r {
                Ok(tree) => parse_tokens(old(self).rules(), old(self).remaining()) == Ok::<
                    Seq<StatementView>,
                    SyntaxErrorView,
                >(tree.view()),
                Err(e) => parse_tokens(old(self).rules(), old(self).remaining()) == Err::<
                    Seq<StatementView>,
                    SyntaxErrorView,
                >(e.view()),
            },
    {
        let mut root: Vec<Statement> = Vec::new();
        let ghost rules = self.rules();
        loop
            invariant
                self.wf(),
                self.rules() == rules,
                rules == old(self).rules(),
                parse_tokens(rules, old(self).remaining()) == match parse_tokens(
                    rules,
                    self.remaining(),
                ) {
                    Ok(more) => Ok(statements_view(root@) + more),
                    Err(e) => Err::<Seq<StatementView>, SyntaxErrorView>(e),
                },
            decreases self.remaining().len(),
        {
            let ghost toks = self.remaining();
            match self.tokens.current() {
                None => {
                    assert(statements_view(root@) + Seq::<StatementView>::empty() =~= statements_view(root@));
                    return Ok(SyntaxTree { root });
                },
                Some(t) => {
                    let ghost k = leading_eos(toks);
                    proof {
                        lemma_leading_eos(toks);
                        lemma_leading_eos(toks.drop_first());
                        if !(t@.kind is EndOfStatement) {
                            assert(k == 0);
                            assert(toks.subrange(0, toks.len() as int) =~= toks);
                        } else {
                            assert(k == 1 + leading_eos(toks.drop_first()));
                            assert(toks.subrange(k as int, toks.len() as int) =~= toks.drop_first().subrange(k - 1, toks.drop_first().len() as int));
                        }
                    }
                    match self.tokens.ignore_eos(t.clone()) {
                        Err(_) => {
                            return Err(SyntaxError::UnexpectedEnd);
                        },
                        Ok(()) => {},
                    }
                    let ghost rest = self.remaining();
                    let st = match self.builder.build(&mut self.tokens, t) {
                        Ok(st) => st,
                        Err(e) => {
                            return Err(e);
                        },
                    };
                    if !self.builder.consumed_any() {
                        return match self.tokens.current() {
                            Some(first) => Err(SyntaxError::UnexpectedToken(first)),
                            None => Err(SyntaxError::UnexpectedEnd),
                        };
                    }
                    let ghost before = root@;
                    let ghost sv = st.view();
                    root.push(st);
                    proof {
                        assert(statements_view(root@) =~= statements_view(before).push(sv));
                        match parse_tokens(rules, self.remaining()) {
                            Ok(more) => {
                                assert(statements_view(root@) + more =~= statements_view(before) + (
                                seq![sv] + more));
                            },
                            Err(e) => {},
                        }
                    }
                },
            }
        }
    }
}

/// Two signatures diverge at position `k`: before `k` both hold the same
/// slot, and at `k` both are defined and differ.
pub closed spec fn diverge_at(a: Seq<Command>, b: Seq<Command>, k: int) -> bool {
    &&& 0 <= k
    &&& forall|i: int|
        0 <= i < k ==> signature_at(a, i) == signature_at(b, i) && #[trigger] signature_at(
            a,
            i,
        ) is Ok && signature_at(a, i)->Ok_0 is Some
    &&& signature_at(a, k) is Ok
    &&& signature_at(b, k) is Ok
    &&& signature_at(a, k) != signature_at(b, k)
}

proof fn lemma_slots_disjoint(m1: TokenMatch, m2: TokenMatch, t: TokenTypeView)
    requires
        slot_matches(m1, t),
        slot_matches(m2, t),
    ensures
        m1 == m2,
{
}

proof fn lemma_narrow_two(rules: Seq<Rule>, t: TokenTypeView, i: int)
    requires
        rules.len() == 2,
    ensures
        narrow(rules, seq![0usize, 1usize], t, i) == if fits(rules[0].commands(), t, i) {
            if fits(rules[1].commands(), t, i) {
                seq![0usize, 1usize]
            } else {
                seq![0usize]
            }
        } else {
            if fits(rules[1].commands(), t, i) {
                seq![1usize]
            } else {
                Seq::<usize>::empty()
            }
        },
{
    let pool = seq![0usize, 1usize];
    let one = seq![0usize];
    assert(pool.drop_last() =~= one);
    assert(pool.last() == 1usize);
    assert(one.drop_last() =~= Seq::<usize>::empty());
    assert(one.last() == 0usize);
    assert(narrow(rules, Seq::<usize>::empty(), t, i) == Seq::<usize>::empty());
    assert(Seq::<usize>::empty().push(0usize) =~= one);
    assert(narrow(rules, one, t, i) == if fits(rules[0].commands(), t, i) {
        one
    } else {
        Seq::<usize>::empty()
    });
    assert(Seq::<usize>::empty().push(1usize) =~= seq![1usize]);
    assert(one.push(1usize) =~= pool);
}

/// Disambiguation is deterministic and minimal: when the signatures of two
/// rules diverge at position `k`, tokens that fit the first rule's signature
/// up to `k` select the first rule after exactly `k + 1` tokens, however
/// long the rules are.
pub proof fn lemma_selects_after_divergence(rules: Seq<Rule>, toks: Seq<TokenView>, k: int)
    requires
        rules.len() == 2,
        diverge_at(rules[0].commands(), rules[1].commands(), k),
        k < toks.len(),
        forall|i: int| 0 <= i <= k ==> fits(rules[0].commands(), #[trigger] toks[i].kind, i),
    ensures
        select(rules, toks) == (seq![0usize], k + 1),
{
    assert(all_rules(2) =~= seq![0usize, 1usize]);
    lemma_select_two_from(rules, toks, k, 0);
}

proof fn lemma_select_two_from(rules: Seq<Rule>, toks: Seq<TokenView>, k: int, i: int)
    requires
        rules.len() == 2,
        diverge_at(rules[0].commands(), rules[1].commands(), k),
        k < toks.len(),
        forall|j: int| 0 <= j <= k ==> fits(rules[0].commands(), #[trigger] toks[j].kind, j),
        0 <= i <= k,
    ensures
        select_from(rules, seq![0usize, 1usize], toks, i) == (seq![0usize], k + 1),
    decreases k - i,
{
    let a = rules[0].commands();
    let b = rules[1].commands();
    let t = toks[i].kind;
    lemma_narrow_two(rules, t, i);
    assert(fits(a, t, i));
    if i < k {
        assert(signature_at(a, i) is Ok);
        assert(fits(b, t, i));
        lemma_select_two_from(rules, toks, k, i + 1);
    } else {
        if fits(b, t, i) {
            let ma = signature_at(a, i)->Ok_0->Some_0;
            let mb = signature_at(b, i)->Ok_0->Some_0;
            lemma_slots_disjoint(ma, mb, t);
        }
        assert(select_from(rules, seq![0usize], toks, i + 1) == (seq![0usize], i + 1));
    }
}

/// The bindings that the first `n` tokens make on the first `n` commands of a
/// signature: a name-slot binds its token under its field, a keyword-slot
/// binds nothing.
pub closed spec fn signature_bindings(cmds: Seq<Command>, toks: Seq<TokenView>, n: int) -> Seq<
    (Seq<char>, TokenView),
>
    decreases n,
{
    if n <= 0 {
        Seq::empty()
    } else {
        signature_bindings(cmds, toks, n - 1) + binding_of(cmds[n - 1], toks[n - 1])
    }
}

proof fn lemma_narrow_fits(rules: Seq<Rule>, pool: Seq<usize>, t: TokenTypeView, i: int, x: usize)
    requires
        narrow(rules, pool, t, i).contains(x),
    ensures
        pool.contains(x),
        fits(rules[x as int].commands(), t, i),
    decreases pool.len(),
{
    if pool.len() > 0 {
        let rest = narrow(rules, pool.drop_last(), t, i);
        if fits(rules[pool.last() as int].commands(), t, i) && x == pool.last() {
            assert(pool[pool.len() - 1] == x);
        } else {
            if fits(rules[pool.last() as int].commands(), t, i) {
                let j = choose|j: int| 0 <= j < rest.push(pool.last()).len() && rest.push(pool.last())[j] == x;
                assert(rest[j] == x);
            }
            lemma_narrow_fits(rules, pool.drop_last(), t, i, x);
            let j = choose|j: int| 0 <= j < pool.drop_last().len() && pool.drop_last()[j] == x;
            assert(pool[j] == x);
        }
    }
}

/// The rules left by disambiguation fit every token read while narrowing.
proof fn lemma_select_fits(rules: Seq<Rule>, pool: Seq<usize>, toks: Seq<TokenView>, i: int, x: usize)
    requires
        0 <= i <= toks.len(),
        select_from(rules, pool, toks, i).0.contains(x),
    ensures
        i <= select_from(rules, pool, toks, i).1 <= toks.len(),
        pool.contains(x),
        forall|j: int|
            i <= j < select_from(rules, pool, toks, i).1 ==> fits(
                rules[x as int].commands(),
                #[trigger] toks[j].kind,
                j,
            ),
    decreases toks.len() - i,
{
    if !(pool.len() <= 1 || i < 0 || i >= toks.len()) {
        let next = narrow(rules, pool, toks[i].kind, i);
        lemma_select_fits(rules, next, toks, i + 1, x);
        lemma_narrow_fits(rules, pool, toks[i].kind, i, x);
    }
}

/// Replaying tokens that fit a signature moves the rule one command per
/// token and binds exactly what the signature's slots bind.
proof fn lemma_replay_signature(cmds: Seq<Command>, toks: Seq<TokenView>, n: int)
    requires
        0 <= n <= toks.len(),
        forall|j: int| 0 <= j < n ==> fits(cmds, #[trigger] toks[j].kind, j),
    ensures
        replay(cmds, toks.subrange(0, n)) == (ProgressView {
            index: n as nat,
            cycle: 0,
            bindings: signature_bindings(cmds, toks, n),
        }),
    decreases n,
{
    if n > 0 {
        lemma_replay_signature(cmds, toks, n - 1);
        assert(toks.subrange(0, n).drop_last() =~= toks.subrange(0, n - 1));
        let j = n - 1;
        let t = toks[j];
        assert(fits(cmds, t.kind, j));
        lemma_signature_len_from(cmds, 0);
        assert(0 <= j < signature_len(cmds));
        assert(is_plain(cmds[j]));
    } else {
        assert(toks.subrange(0, 0) =~= Seq::<TokenView>::empty());
    }
}

/// Disambiguation is lossless: when it leaves one rule after reading `n`
/// tokens, replaying those tokens into that rule moves it past exactly `n`
/// commands, each token binding under exactly one field (a name-slot) or
/// matching a keyword-slot; no token is dropped.
pub proof fn lemma_replay_lossless(rules: Seq<Rule>, toks: Seq<TokenView>)
    requires
        select(rules, toks).0.len() == 1,
    ensures
        ({
            let (pool, n) = select(rules, toks);
            let cmds = rules[pool[0] as int].commands();
            &&& 0 <= n <= toks.len()
            &&& replay(cmds, toks.subrange(0, n)) == ProgressView {
                index: n as nat,
                cycle: 0,
                bindings: signature_bindings(cmds, toks, n),
            }
            &&& forall|j: int|
                0 <= j < n ==> (#[trigger] cmds[j]).kind() is Name && binding_of(cmds[j], toks[j])
                    == seq![(cmds[j].field_name(), toks[j])] || cmds[j].kind() == CommandType::Keyword(
                    toks[j].kind->Keyword_0,
                ) && binding_of(cmds[j], toks[j]) == Seq::<(Seq<char>, TokenView)>::empty()
        }),
{
    let (pool, n) = select(rules, toks);
    let x = pool[0];
    assert(pool.contains(x));
    lemma_select_fits(rules, all_rules(rules.len()), toks, 0, x);
    let cmds = rules[x as int].commands();
    lemma_replay_signature(cmds, toks, n);
    lemma_signature_len_from(cmds, 0);
    assert forall|j: int| 0 <= j < n implies (#[trigger] cmds[j]).kind() is Name && binding_of(
        cmds[j],
        toks[j],
    ) == seq![(cmds[j].field_name(), toks[j])] || cmds[j].kind() == CommandType::Keyword(
        toks[j].kind->Keyword_0,
    ) && binding_of(cmds[j], toks[j]) == Seq::<(Seq<char>, TokenView)>::empty() by {
        assert(fits(cmds, toks[j].kind, j));
        assert(is_plain(cmds[j]));
    }
}

} // verus!
