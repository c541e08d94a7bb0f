use vstd::prelude::*;
use crate::dfa::{Dfa, trans_lookup, dfa_spec, below};
use crate::nfa::{Nfa, NfaState, Edge, edges_in_bounds, edges_within, same_prefix, nfa_size, fragment, push_edge, thompson};
use crate::regex_ast::{RegexParser, RegexAST, regex_parses, regex_tree, explicit_concat, chars_of};
use crate::token::{Token, TokenView};
use crate::error::CompilerError;
use crate::span::Span;
use crate::text::push_char;

verus! {

broadcast use vstd::std_specs::hash::group_hash_axioms;

/// Characters that have a meaning in a regular expression.
pub open spec fn regex_special(c: char) -> bool {
    c == '|' || c == '*' || c == '.' || c == '?' || c == '(' || c == ')' || c == '\\' || c == '+'
        || c == '[' || c == ']' || c == '{' || c == '}'
}

/// A pattern written as a regular expression that matches exactly the pattern: every
/// special character is preceded by a backslash.
pub open spec fn escape_literal(cs: Seq<char>) -> Seq<char>
    decreases cs.len(),
{
    if cs.len() == 0 {
        Seq::empty()
    } else {
        let c = cs.last();
        escape_literal(cs.drop_last()) + if regex_special(c) {
            seq!['\\', c]
        } else {
            seq![c]
        }
    }
}

/// The regular expression of a named pattern: `Number` and `Identifier` patterns are
/// regular expressions already; any other pattern is a literal.
pub open spec fn pattern_regex(name: Seq<char>, pattern: Seq<char>) -> Seq<char> {
    if name == "Number"@ || name == "Identifier"@ {
        pattern
    } else {
        escape_literal(pattern)
    }
}

/// Unicode white space, as `char::is_whitespace` defines it.
pub open spec fn is_ws(c: char) -> bool {
    ('\u{9}' <= c <= '\u{d}') || c == ' ' || c == '\u{85}' || c == '\u{a0}' || c == '\u{1680}'
        || ('\u{2000}' <= c <= '\u{200a}') || c == '\u{2028}' || c == '\u{2029}' || c == '\u{202f}'
        || c == '\u{205f}' || c == '\u{3000}'
}

/// ASCII decimal digit.
pub open spec fn is_digit(c: char) -> bool {
    '0' <= c <= '9'
}

/// ASCII letter.
pub open spec fn is_alpha(c: char) -> bool {
    ('a' <= c <= 'z') || ('A' <= c <= 'Z')
}

/// A character that may continue an identifier.
pub open spec fn is_ident_char(c: char) -> bool {
    is_digit(c) || is_alpha(c) || c == '_'
}

fn is_ws_exec(c: char) -> (res: bool)
    ensures
        res == is_ws(c),
{
    ('\u{9}' <= c && c <= '\u{d}') || c == ' ' || c == '\u{85}' || c == '\u{a0}' || c == '\u{1680}'
        || ('\u{2000}' <= c && c <= '\u{200a}') || c == '\u{2028}' || c == '\u{2029}' || c == '\u{202f}'
        || c == '\u{205f}' || c == '\u{3000}'
}

fn is_digit_exec(c: char) -> (res: bool)
    ensures
        res == is_digit(c),
{
    '0' <= c && c <= '9'
}

fn is_alpha_exec(c: char) -> (res: bool)
    ensures
        res == is_alpha(c),
{
    ('a' <= c && c <= 'z') || ('A' <= c && c <= 'Z')
}

/// End of the run of digits that starts at `i`.
pub open spec fn scan_digits(cs: Seq<char>, i: int) -> int
    decreases cs.len() - i,
{
    if 0 <= i < cs.len() && is_digit(cs[i]) {
        scan_digits(cs, i + 1)
    } else {
        i
    }
}

/// End of the run of identifier characters that starts at `i`.
pub open spec fn scan_ident(cs: Seq<char>, i: int) -> int
    decreases cs.len() - i,
{
    if 0 <= i < cs.len() && is_ident_char(cs[i]) {
        scan_ident(cs, i + 1)
    } else {
        i
    }
}

/// Position of the first newline at or after `i` (or the end).
pub open spec fn scan_line(cs: Seq<char>, i: int) -> int
    decreases cs.len() - i,
{
    if 0 <= i < cs.len() && cs[i] != '\n' {
        scan_line(cs, i + 1)
    } else {
        i
    }
}

/// End of a number literal starting at `i`: digits, then a `.` and at least one digit
/// if present.
pub open spec fn number_end(cs: Seq<char>, i: int) -> int {
    let e = scan_digits(cs, i);
    if e < cs.len() && cs[e] == '.' {
        let f = scan_digits(cs, e + 1);
        if f == e + 1 {
            e
        } else {
            f
        }
    } else {
        e
    }
}

/// Outcome of reading the body of a string literal.
pub enum StrScan {
    /// The content, and the position after the closing quote.
    Done(Seq<char>, int),
    /// A backslash followed by the given character, at the given position.
    BadEscape(char, int),
    /// The input ended before the closing quote.
    Unclosed,
}

/// Reads a string literal's body from `i` (just after the opening quote); `acc` is the
/// content read so far. Escapes `\n`, `\t`, `\"` and `\\` are decoded.
pub open spec fn scan_string(cs: Seq<char>, i: int, acc: Seq<char>) -> StrScan
    decreases cs.len() - i,
{
    if i < 0 || i >= cs.len() {
        StrScan::Unclosed
    } else if cs[i] == '"' {
        StrScan::Done(acc, i + 1)
    } else if cs[i] == '\\' && i + 1 < cs.len() {
        let c = cs[i + 1];
        if c == 'n' {
            scan_string(cs, i + 2, acc.push('\n'))
        } else if c == 't' {
            scan_string(cs, i + 2, acc.push('\t'))
        } else if c == '"' {
            scan_string(cs, i + 2, acc.push('"'))
        } else if c == '\\' {
            scan_string(cs, i + 2, acc.push('\\'))
        } else {
            StrScan::BadEscape(c, i)
        }
    } else {
        scan_string(cs, i + 1, acc.push(cs[i]))
    }
}

/// The automaton's transition from `state` on `c`.
pub open spec fn dfa_next(d: Dfa, state: usize, c: char) -> Option<usize> {
    if state < d.transitions@.len() {
        trans_lookup(d.transitions@[state as int]@, c)
    } else {
        None
    }
}

/// Runs the automaton from position `j` in state `state`; `last` is the last accepting
/// state met and the position of the character that led to it. Stops at the first
/// missing transition and returns the last accepting state met.
pub open spec fn dfa_run(d: Dfa, cs: Seq<char>, j: int, state: usize, last: Option<(usize, int)>) -> Option<(usize, int)>
    decreases cs.len() - j,
{
    if j < 0 || j >= cs.len() {
        last
    } else {
        match dfa_next(d, state, cs[j]) {
            None => last,
            Some(ns) => dfa_run(
                d,
                cs,
                j + 1,
                ns,
                if d.accept_states@.contains_key(ns) {
                    Some((ns, j))
                } else {
                    last
                },
            ),
        }
    }
}

/// The state the automaton is in after reading `cs[i..j]` from its start state, if every
/// transition on the way exists.
pub open spec fn dfa_reach(d: Dfa, cs: Seq<char>, i: int, j: int) -> Option<usize>
    decreases j - i,
{
    if j <= i {
        Some(0usize)
    } else {
        match dfa_reach(d, cs, i, j - 1) {
            Some(s) => dfa_next(d, s, cs[j - 1]),
            None => None,
        }
    }
}

/// Reading `cs[i..=q]` from the start state leads to an accepting state.
pub open spec fn accepts_piece(d: Dfa, cs: Seq<char>, i: int, q: int) -> bool {
    dfa_reach(d, cs, i, q + 1) matches Some(s) && d.accept_states@.contains_key(s)
}

proof fn lemma_reach_dead(d: Dfa, cs: Seq<char>, i: int, j: int, k: int)
    requires
        i <= j <= k,
        dfa_reach(d, cs, i, j) is None,
    ensures
        dfa_reach(d, cs, i, k) is None,
    decreases k - j,
{
    if k > j {
        lemma_reach_dead(d, cs, i, j, k - 1);
    }
}

proof fn lemma_run_longest(d: Dfa, cs: Seq<char>, i: int, j: int, state: usize, last: Option<(usize, int)>)
    requires
        0 <= i <= j <= cs.len(),
        dfa_reach(d, cs, i, j) == Some(state),
        match last {
            Some((s, p)) => i <= p < j && dfa_reach(d, cs, i, p + 1) == Some(s) && d.accept_states@.contains_key(s)
                && forall|q: int| p < q < j ==> !#[trigger] accepts_piece(d, cs, i, q),
            None => forall|q: int| i <= q < j ==> !#[trigger] accepts_piece(d, cs, i, q),
        },
    ensures
        match dfa_run(d, cs, j, state, last) {
            Some((s, p)) => i <= p < cs.len() && dfa_reach(d, cs, i, p + 1) == Some(s) && d.accept_states@.contains_key(s)
                && forall|q: int| p < q < cs.len() ==> !#[trigger] accepts_piece(d, cs, i, q),
            None => forall|q: int| i <= q < cs.len() ==> !#[trigger] accepts_piece(d, cs, i, q),
        },
    decreases cs.len() - j,
{
    if j < cs.len() {
        match dfa_next(d, state, cs[j]) {
            None => {
                assert(dfa_reach(d, cs, i, j + 1) is None);
                assert forall|q: int| j <= q < cs.len() implies !#[trigger] accepts_piece(d, cs, i, q) by {
                    lemma_reach_dead(d, cs, i, j + 1, q + 1);
                }
            },
            Some(ns) => {
                assert(dfa_reach(d, cs, i, j + 1) == Some(ns));
                let next = if d.accept_states@.contains_key(ns) {
                    Some((ns, j))
                } else {
                    last
                };
                lemma_run_longest(d, cs, i, j + 1, ns, next);
            },
        }
    }
}

/// Longest match: when the automaton's run from `i` ends with the accepting state `st`
/// met on the character at `pos`, reading `cs[i..=pos]` from the start state leads to
/// `st`, and no longer piece `cs[i..=q]` leads to an accepting state; when the run meets
/// no accepting state, no piece starting at `i` is accepted.
pub proof fn lemma_longest_match(d: Dfa, cs: Seq<char>, i: int)
    requires
        0 <= i < cs.len(),
    ensures
        match dfa_run(d, cs, i, 0, None) {
            Some((st, pos)) => i <= pos < cs.len() && dfa_reach(d, cs, i, pos + 1) == Some(st)
                && d.accept_states@.contains_key(st) && forall|q: int|
                pos < q < cs.len() ==> !#[trigger] accepts_piece(d, cs, i, q),
            None => forall|q: int| i <= q < cs.len() ==> !#[trigger] accepts_piece(d, cs, i, q),
        },
{
    lemma_run_longest(d, cs, i, i, 0, None);
}

/// Every character that labels an edge of the NFA is in the alphabet.
pub open spec fn alphabet_covers(st: Seq<NfaState>, alphabet: Seq<char>) -> bool {
    forall|u: usize, c: char, v: usize| #[trigger] crate::utils::moves_on(st, u, c, v) ==> alphabet.contains(c)
}

/// The NFA states reachable from `start` on `cs[i..j]`, closed under epsilon edges
/// before and after each character.
pub open spec fn nfa_sets(st: Seq<NfaState>, start: usize, cs: Seq<char>, i: int, j: int) -> Set<usize>
    decreases j - i,
{
    if j <= i {
        crate::dfa::closure_of(st, set![start])
    } else {
        crate::dfa::closure_of(st, crate::utils::move_set(st, nfa_sets(st, start, cs, i, j - 1), cs[j - 1]))
    }
}

proof fn lemma_closure_contains(st: Seq<NfaState>, s: Set<usize>)
    ensures
        s.subset_of(crate::dfa::closure_of(st, s)),
{
}

proof fn lemma_closure_empty(st: Seq<NfaState>)
    ensures
        crate::dfa::closure_of(st, Set::<usize>::empty()) =~= Set::<usize>::empty(),
{
    assert(crate::utils::eps_closed(st, Set::<usize>::empty()));
}

proof fn lemma_trans_entry(t: Seq<(char, usize)>, c: char)
    requires
        trans_lookup(t, c) is Some,
    ensures
        exists|k: int| 0 <= k < t.len() && #[trigger] t[k] == (c, trans_lookup(t, c).unwrap()),
    decreases t.len(),
{
    if t.last().0 != c {
        lemma_trans_entry(t.drop_last(), c);
        let k = choose|k: int| 0 <= k < t.drop_last().len() && #[trigger] t.drop_last()[k] == (c, trans_lookup(t, c).unwrap());
        assert(t[k] == t.drop_last()[k]);
    } else {
        assert(t[t.len() - 1] == (c, trans_lookup(t, c).unwrap()));
    }
}

/// The subset construction simulates the NFA: after reading `cs[i..j]` from its start
/// state the automaton is in the state that holds exactly the NFA states reachable on
/// that piece, and it has no state to be in exactly when no NFA state is reachable.
pub proof fn lemma_dfa_simulates_nfa(
    d: Dfa,
    st: Seq<NfaState>,
    start: usize,
    alphabet: Seq<char>,
    token_map: Seq<(usize, String)>,
    cs: Seq<char>,
    i: int,
    j: int,
)
    requires
        dfa_spec(d, st, start, alphabet, token_map),
        alphabet_covers(st, alphabet),
        0 <= i <= j <= cs.len(),
    ensures
        match dfa_reach(d, cs, i, j) {
            Some(k) => k < d.states@.len() && d.states@[k as int]@ == nfa_sets(st, start, cs, i, j)
                && !nfa_sets(st, start, cs, i, j).is_empty(),
            None => nfa_sets(st, start, cs, i, j).is_empty(),
        },
    decreases j - i,
{
    let sv = d.states@;
    let tv = d.transitions@;
    if j <= i {
        lemma_closure_contains(st, set![start]);
        assert(nfa_sets(st, start, cs, i, j).contains(start));
    } else {
        lemma_dfa_simulates_nfa(d, st, start, alphabet, token_map, cs, i, j - 1);
        let c = cs[j - 1];
        let prev = nfa_sets(st, start, cs, i, j - 1);
        let mv = crate::utils::move_set(st, prev, c);
        match dfa_reach(d, cs, i, j - 1) {
            Some(k) => {
                if !mv.is_empty() {
                    let v = mv.choose();
                    assert(mv.contains(v));
                    let u = choose|u: usize| prev.contains(u) && #[trigger] crate::utils::moves_on(st, u, c, v);
                    assert(alphabet.contains(c));
                    assert(trans_lookup(tv[k as int]@, c) is Some);
                    lemma_trans_entry(tv[k as int]@, c);
                    let x = trans_lookup(tv[k as int]@, c).unwrap();
                    let idx = choose|idx: int| 0 <= idx < tv[k as int]@.len() && #[trigger] tv[k as int]@[idx] == (c, x);
                    assert(tv[k as int]@[idx] == (c, x));
                    assert(sv[x as int]@ == crate::dfa::closure_of(st, mv));
                    lemma_closure_contains(st, mv);
                    assert(nfa_sets(st, start, cs, i, j).contains(v));
                } else {
                    if trans_lookup(tv[k as int]@, c) is Some {
                        lemma_trans_entry(tv[k as int]@, c);
                        let x = trans_lookup(tv[k as int]@, c).unwrap();
                        let idx = choose|idx: int| 0 <= idx < tv[k as int]@.len() && #[trigger] tv[k as int]@[idx] == (c, x);
                        assert(tv[k as int]@[idx] == (c, x));
                        assert(false);
                    }
                    assert(mv =~= Set::<usize>::empty());
                    lemma_closure_empty(st);
                }
            },
            None => {
                assert(mv =~= Set::<usize>::empty());
                lemma_closure_empty(st);
            },
        }
    }
}

/// One step of the lexer at position `i`.
pub enum LexStep {
    /// Nothing is produced; continue at the given position.
    Skip(int),
    /// A token with its start and end; continue at the end.
    Emit(TokenView, int, int),
    /// A lexical error with its message and span.
    Fail(Seq<char>, int, int),
}

/// The message for a character that no rule recognizes.
pub open spec fn unrecognized_msg(c: char) -> Seq<char> {
    "Carácter no reconocido: '"@ + seq![c] + "'"@
}

/// The message for an unknown escape in a string literal.
pub open spec fn bad_escape_msg(c: char) -> Seq<char> {
    "Invalid escape sequence: '\\"@ + seq![c] + "'"@
}

/// What the lexer does at position `i` (which is inside the input): white space and
/// `//` comments are skipped; numbers, words and string literals are read by hand; `@`,
/// `@@` and `.` are recognized directly; anything else is the longest match of the
/// automaton.
pub open spec fn lex_step(d: Dfa, cs: Seq<char>, i: int) -> LexStep {
    let c = cs[i];
    if is_ws(c) {
        LexStep::Skip(i + 1)
    } else if i + 1 < cs.len() && c == '/' && cs[i + 1] == '/' {
        let e = scan_line(cs, i);
        LexStep::Skip(if e < cs.len() { e + 1 } else { e })
    } else if is_digit(c) {
        let e = number_end(cs, i);
        LexStep::Emit(TokenView::Number(cs.subrange(i, e)), i, e)
    } else if is_alpha(c) || c == '_' {
        let e = scan_ident(cs, i);
        LexStep::Emit(keyword_token(cs.subrange(i, e)), i, e)
    } else if c == '"' {
        match scan_string(cs, i + 1, Seq::empty()) {
            StrScan::Done(s, e) => LexStep::Emit(TokenView::Str(s), i, e),
            StrScan::BadEscape(ch, p) => LexStep::Fail(bad_escape_msg(ch), p, p + 2),
            StrScan::Unclosed => LexStep::Fail("Unclosed string literal"@, i, cs.len() as int),
        }
    } else if c == '@' {
        if i + 1 < cs.len() && cs[i + 1] == '@' {
            LexStep::Emit(TokenView::ConcatSpace, i, i + 2)
        } else {
            LexStep::Emit(TokenView::Concat, i, i + 1)
        }
    } else if c == '.' {
        LexStep::Emit(TokenView::Dot, i, i + 1)
    } else {
        match dfa_run(d, cs, i, 0, None) {
            Some((st, pos)) => match named_token(d.accept_states@[st]@, cs.subrange(i, pos + 1)) {
                Some(t) => LexStep::Emit(t, i, pos + 1),
                None => LexStep::Skip(i + 1),
            },
            None => LexStep::Fail(unrecognized_msg(c), i, i + 1),
        }
    }
}

/// Tokens with their spans, or the lexical error (message, span start, span end).
pub type LexResult = Result<Seq<(usize, TokenView, usize)>, (Seq<char>, usize, usize)>;

/// The lexer's result for the input from position `i` on.
pub open spec fn lex_from(d: Dfa, cs: Seq<char>, i: int) -> LexResult
    decreases cs.len() - i,
{
    if i < 0 || i >= cs.len() {
        Ok(Seq::empty())
    } else {
        match lex_step(d, cs, i) {
            LexStep::Skip(j) => if j <= i || j > cs.len() {
                Ok(Seq::empty())
            } else {
                lex_from(d, cs, j)
            },
            LexStep::Emit(t, s, e) => if e <= i || e > cs.len() {
                Ok(Seq::empty())
            } else {
                match lex_from(d, cs, e) {
                    Ok(rest) => Ok(seq![(s as usize, t, e as usize)] + rest),
                    Err(err) => Err(err),
                }
            },
            LexStep::Fail(m, a, b) => Err((m, a as usize, b as usize)),
        }
    }
}

/// The view of a token list.
pub open spec fn tokens_view(v: Seq<(usize, Token, usize)>) -> Seq<(usize, TokenView, usize)> {
    v.map_values(|x: (usize, Token, usize)| (x.0, x.1@, x.2))
}

fn chars_eq(v: &Vec<char>, lit: &str) -> (res: bool)
    ensures
        res == (v@ == lit@),
{
    let n = lit.unicode_len();
    if v.len() != n {
        return false;
    }
    let mut k: usize = 0;
    while k < n
        invariant
            k <= n,
            n == lit@.len(),
            v@.len() == n,
            forall|j: int| 0 <= j < k ==> v@[j] == lit@[j],
        decreases n - k,
    {
        if v[k] != lit.get_char(k) {
            return false;
        }
        k = k + 1;
    }
    assert(v@ =~= lit@);
    true
}

fn chars_of_string(s: &String) -> (res: Vec<char>)
    ensures
        res@ == s@,
{
    broadcast use vstd::string::group_string_axioms;

    let mut v: Vec<char> = Vec::new();
    for c in it: s.as_str().chars()
        invariant
            v@ == it.seq().take(it.index() as int),
    {
        v.push(c);
    }
    assert(v@ =~= s@);
    v
}

fn string_of(cs: &Vec<char>, start: usize, end: usize) -> (res: String)
    requires
        start <= end <= cs@.len(),
    ensures
        res@ == cs@.subrange(start as int, end as int),
{
    let mut r = String::new();
    let mut k = start;
    while k < end
        invariant
            start <= k <= end,
            end <= cs@.len(),
            r@ == cs@.subrange(start as int, k as int),
        decreases end - k,
    {
        push_char(&mut r, cs[k]);
        k = k + 1;
        assert(r@ =~= cs@.subrange(start as int, k as int));
    }
    r
}

/// The token of an identifier-like word: a keyword, a type name, or an identifier.
pub open spec fn keyword_token(s: Seq<char>) -> TokenView {
    if s == "is"@ {
        TokenView::Is
    } else if s == "as"@ {
        TokenView::As
    } else if s == "let"@ {
        TokenView::Let
    } else if s == "in"@ {
        TokenView::In
    } else if s == "if"@ {
        TokenView::If
    } else if s == "else"@ {
        TokenView::Else
    } else if s == "elif"@ {
        TokenView::Elif
    } else if s == "while"@ {
        TokenView::While
    } else if s == "for"@ {
        TokenView::For
    } else if s == "function"@ {
        TokenView::Function
    } else if s == "true"@ {
        TokenView::True
    } else if s == "false"@ {
        TokenView::False
    } else if s == "PI"@ {
        TokenView::Pi
    } else if s == "E"@ {
        TokenView::E
    } else if s == "type"@ {
        TokenView::Type
    } else if s == "inherits"@ {
        TokenView::Inherits
    } else if s == "new"@ {
        TokenView::New
    } else if s == "protocol"@ {
        TokenView::Protocol
    } else if s == "extends"@ {
        TokenView::Extends
    } else if s == "range"@ {
        TokenView::Range
    } else if s == "Number"@ {
        TokenView::NumberType
    } else if s == "String"@ {
        TokenView::StringType
    } else if s == "Boolean"@ {
        TokenView::BooleanType
    } else if s == "Object"@ {
        TokenView::ObjectType
    } else {
        TokenView::Identifier(s)
    }
}

/// Every identifier-like word is shown as itself by the token it gets: a keyword's token
/// is spelled as that keyword, and any other word becomes an identifier of that word.
pub proof fn lemma_keyword_spelling(s: Seq<char>)
    ensures
        crate::token::token_text(keyword_token(s)) == s,
{
}

/// Two different words never get the same token: each reserved word has its own token
/// kind, and no identifier is mistaken for a reserved word.
pub proof fn lemma_keyword_injective(s1: Seq<char>, s2: Seq<char>)
    ensures
        keyword_token(s1) == keyword_token(s2) ==> s1 == s2,
{
    lemma_keyword_spelling(s1);
    lemma_keyword_spelling(s2);
}

/// The token for an accepted token-type name of the automaton, applied to the lexeme;
/// `None` for an unknown name.
pub open spec fn named_token(name: Seq<char>, lexeme: Seq<char>) -> Option<TokenView> {
    if name == "Number"@ {
        Some(TokenView::Number(lexeme))
    } else if name == "Identifier"@ {
        Some(TokenView::Identifier(lexeme))
    } else if name == "Let"@ {
        Some(TokenView::Let)
    } else if name == "In"@ {
        Some(TokenView::In)
    } else if name == "If"@ {
        Some(TokenView::If)
    } else if name == "Else"@ {
        Some(TokenView::Else)
    } else if name == "Elif"@ {
        Some(TokenView::Elif)
    } else if name == "While"@ {
        Some(TokenView::While)
    } else if name == "For"@ {
        Some(TokenView::For)
    } else if name == "Function"@ {
        Some(TokenView::Function)
    } else if name == "Print"@ {
        Some(TokenView::Print)
    } else if name == "True"@ {
        Some(TokenView::True)
    } else if name == "False"@ {
        Some(TokenView::False)
    } else if name == "Pi"@ {
        Some(TokenView::Pi)
    } else if name == "E"@ {
        Some(TokenView::E)
    } else if name == "Type"@ {
        Some(TokenView::Type)
    } else if name == "Sin"@ {
        Some(TokenView::Sin)
    } else if name == "Cos"@ {
        Some(TokenView::Cos)
    } else if name == "Tan"@ {
        Some(TokenView::Tan)
    } else if name == "Sqrt"@ {
        Some(TokenView::Sqrt)
    } else if name == "Log"@ {
        Some(TokenView::Log)
    } else if name == "Exp"@ {
        Some(TokenView::Exp)
    } else if name == "Rand"@ {
        Some(TokenView::Rand)
    } else if name == "Arrow"@ {
        Some(TokenView::Arrow)
    } else if name == "RArrow"@ {
        Some(TokenView::RArrow)
    } else if name == "Eq"@ {
        Some(TokenView::Eq)
    } else if name == "Assign"@ {
        Some(TokenView::Assign)
    } else if name == "EqEq"@ {
        Some(TokenView::EqEq)
    } else if name == "Neq"@ {
        Some(TokenView::Neq)
    } else if name == "Leq"@ {
        Some(TokenView::Leq)
    } else if name == "Geq"@ {
        Some(TokenView::Geq)
    } else if name == "Lt"@ {
        Some(TokenView::Lt)
    } else if name == "Gt"@ {
        Some(TokenView::Gt)
    } else if name == "And"@ {
        Some(TokenView::And)
    } else if name == "Or"@ {
        Some(TokenView::Or)
    } else if name == "Not"@ {
        Some(TokenView::Not)
    } else if name == "Plus"@ {
        Some(TokenView::Plus)
    } else if name == "Minus"@ {
        Some(TokenView::Minus)
    } else if name == "Mult"@ {
        Some(TokenView::Mult)
    } else if name == "Div"@ {
        Some(TokenView::Div)
    } else if name == "Percent"@ {
        Some(TokenView::Percent)
    } else if name == "Power"@ {
        Some(TokenView::Power)
    } else if name == "LParen"@ {
        Some(TokenView::LParen)
    } else if name == "RParen"@ {
        Some(TokenView::RParen)
    } else if name == "LBrace"@ {
        Some(TokenView::LBrace)
    } else if name == "RBrace"@ {
        Some(TokenView::RBrace)
    } else if name == "Comma"@ {
        Some(TokenView::Comma)
    } else if name == "Semicolon"@ {
        Some(TokenView::Semicolon)
    } else if name == "COLON"@ {
        Some(TokenView::Colon)
    } else if name == "Dot"@ {
        Some(TokenView::Dot)
    } else if name == "New"@ {
        Some(TokenView::New)
    } else if name == "protocol"@ {
        Some(TokenView::Protocol)
    } else if name == "extends"@ {
        Some(TokenView::Extends)
    } else if name == "is"@ {
        Some(TokenView::Is)
    } else if name == "as"@ {
        Some(TokenView::As)
    } else {
        None
    }
}

/// Different token-type names never give the same token: each name of the automaton's
/// patterns stands for its own kind of token.
pub proof fn lemma_named_token_injective(n1: Seq<char>, n2: Seq<char>, lexeme: Seq<char>)
    ensures
        named_token(n1, lexeme) is Some && named_token(n1, lexeme) == named_token(n2, lexeme) ==> n1 == n2,
{
}

fn keyword_token_exec(s: &Vec<char>) -> (res: Token)
    ensures
        res@ == keyword_token(s@),
{
    if chars_eq(s, "is") {
        Token::Is
    } else if chars_eq(s, "as") {
        Token::As
    } else if chars_eq(s, "let") {
        Token::Let
    } else if chars_eq(s, "in") {
        Token::In
    } else if chars_eq(s, "if") {
        Token::If
    } else if chars_eq(s, "else") {
        Token::Else
    } else if chars_eq(s, "elif") {
        Token::Elif
    } else if chars_eq(s, "while") {
        Token::While
    } else if chars_eq(s, "for") {
        Token::For
    } else if chars_eq(s, "function") {
        Token::Function
    } else if chars_eq(s, "true") {
        Token::True
    } else if chars_eq(s, "false") {
        Token::False
    } else if chars_eq(s, "PI") {
        Token::Pi
    } else if chars_eq(s, "E") {
        Token::E
    } else if chars_eq(s, "type") {
        Token::Type
    } else if chars_eq(s, "inherits") {
        Token::Inherits
    } else if chars_eq(s, "new") {
        Token::New
    } else if chars_eq(s, "protocol") {
        Token::Protocol
    } else if chars_eq(s, "extends") {
        Token::Extends
    } else if chars_eq(s, "range") {
        Token::Range
    } else if chars_eq(s, "Number") {
        Token::NumberType
    } else if chars_eq(s, "String") {
        Token::StringType
    } else if chars_eq(s, "Boolean") {
        Token::BooleanType
    } else if chars_eq(s, "Object") {
        Token::ObjectType
    } else {
        let r = string_of(s, 0, s.len());
        assert(r@ =~= s@);
        Token::Identifier(r)
    }
}

fn named_token_exec(name: &String, lexeme: &Vec<char>) -> (res: Option<Token>)
    ensures
        match res {
            Some(t) => named_token(name@, lexeme@) == Some(t@),
            None => named_token(name@, lexeme@) is None,
        },
{
    let n = chars_of_string(name);
    if chars_eq(&n, "Number") {
        let r = string_of(lexeme, 0, lexeme.len());
        assert(r@ =~= lexeme@);
        Some(Token::Number(r))
    } else if chars_eq(&n, "Identifier") {
        let r = string_of(lexeme, 0, lexeme.len());
        assert(r@ =~= lexeme@);
        Some(Token::Identifier(r))
    } else if chars_eq(&n, "Let") {
        Some(Token::Let)
    } else if chars_eq(&n, "In") {
        Some(Token::In)
    } else if chars_eq(&n, "If") {
        Some(Token::If)
    } else if chars_eq(&n, "Else") {
        Some(Token::Else)
    } else if chars_eq(&n, "Elif") {
        Some(Token::Elif)
    } else if chars_eq(&n, "While") {
        Some(Token::While)
    } else if chars_eq(&n, "For") {
        Some(Token::For)
    } else if chars_eq(&n, "Function") {
        Some(Token::Function)
    } else if chars_eq(&n, "Print") {
        Some(Token::Print)
    } else if chars_eq(&n, "True") {
        Some(Token::True)
    } else if chars_eq(&n, "False") {
        Some(Token::False)
    } else if chars_eq(&n, "Pi") {
        Some(Token::Pi)
    } else if chars_eq(&n, "E") {
        Some(Token::E)
    } else if chars_eq(&n, "Type") {
        Some(Token::Type)
    } else if chars_eq(&n, "Sin") {
        Some(Token::Sin)
    } else if chars_eq(&n, "Cos") {
        Some(Token::Cos)
    } else if chars_eq(&n, "Tan") {
        Some(Token::Tan)
    } else if chars_eq(&n, "Sqrt") {
        Some(Token::Sqrt)
    } else if chars_eq(&n, "Log") {
        Some(Token::Log)
    } else if chars_eq(&n, "Exp") {
        Some(Token::Exp)
    } else if chars_eq(&n, "Rand") {
        Some(Token::Rand)
    } else if chars_eq(&n, "Arrow") {
        Some(Token::Arrow)
    } else if chars_eq(&n, "RArrow") {
        Some(Token::RArrow)
    } else if chars_eq(&n, "Eq") {
        Some(Token::Eq)
    } else if chars_eq(&n, "Assign") {
        Some(Token::Assign)
    } else if chars_eq(&n, "EqEq") {
        Some(Token::EqEq)
    } else if chars_eq(&n, "Neq") {
        Some(Token::Neq)
    } else if chars_eq(&n, "Leq") {
        Some(Token::Leq)
    } else if chars_eq(&n, "Geq") {
        Some(Token::Geq)
    } else if chars_eq(&n, "Lt") {
        Some(Token::Lt)
    } else if chars_eq(&n, "Gt") {
        Some(Token::Gt)
    } else if chars_eq(&n, "And") {
        Some(Token::And)
    } else if chars_eq(&n, "Or") {
        Some(Token::Or)
    } else if chars_eq(&n, "Not") {
        Some(Token::Not)
    } else if chars_eq(&n, "Plus") {
        Some(Token::Plus)
    } else if chars_eq(&n, "Minus") {
        Some(Token::Minus)
    } else if chars_eq(&n, "Mult") {
        Some(Token::Mult)
    } else if chars_eq(&n, "Div") {
        Some(Token::Div)
    } else if chars_eq(&n, "Percent") {
        Some(Token::Percent)
    } else if chars_eq(&n, "Power") {
        Some(Token::Power)
    } else if chars_eq(&n, "LParen") {
        Some(Token::LParen)
    } else if chars_eq(&n, "RParen") {
        Some(Token::RParen)
    } else if chars_eq(&n, "LBrace") {
        Some(Token::LBrace)
    } else if chars_eq(&n, "RBrace") {
        Some(Token::RBrace)
    } else if chars_eq(&n, "Comma") {
        Some(Token::Comma)
    } else if chars_eq(&n, "Semicolon") {
        Some(Token::Semicolon)
    } else if chars_eq(&n, "COLON") {
        Some(Token::Colon)
    } else if chars_eq(&n, "Dot") {
        Some(Token::Dot)
    } else if chars_eq(&n, "New") {
        Some(Token::New)
    } else if chars_eq(&n, "protocol") {
        Some(Token::Protocol)
    } else if chars_eq(&n, "extends") {
        Some(Token::Extends)
    } else if chars_eq(&n, "is") {
        Some(Token::Is)
    } else if chars_eq(&n, "as") {
        Some(Token::As)
    } else {
        None
    }
}

fn scan_digits_exec(cs: &Vec<char>, i: usize) -> (res: usize)
    requires
        i <= cs@.len(),
    ensures
        res == scan_digits(cs@, i as int),
        i <= res <= cs@.len(),
        i < cs@.len() && is_digit(cs@[i as int]) ==> res > i,
{
    let mut k = i;
    while k < cs.len() && is_digit_exec(cs[k])
        invariant
            i <= k <= cs@.len(),
            i < cs@.len() && is_digit(cs@[i as int]) && k == i ==> k < cs@.len() && is_digit(cs@[k as int]),
            scan_digits(cs@, i as int) == scan_digits(cs@, k as int),
        decreases cs@.len() - k,
    {
        k = k + 1;
    }
    k
}

fn scan_ident_exec(cs: &Vec<char>, i: usize) -> (res: usize)
    requires
        i <= cs@.len(),
    ensures
        res == scan_ident(cs@, i as int),
        i <= res <= cs@.len(),
        i < cs@.len() && is_ident_char(cs@[i as int]) ==> res > i,
{
    let mut k = i;
    while k < cs.len() && (is_digit_exec(cs[k]) || is_alpha_exec(cs[k]) || cs[k] == '_')
        invariant
            i <= k <= cs@.len(),
            i < cs@.len() && is_ident_char(cs@[i as int]) && k == i ==> k < cs@.len() && is_ident_char(cs@[k as int]),
            scan_ident(cs@, i as int) == scan_ident(cs@, k as int),
        decreases cs@.len() - k,
    {
        k = k + 1;
    }
    k
}

fn scan_line_exec(cs: &Vec<char>, i: usize) -> (res: usize)
    requires
        i <= cs@.len(),
    ensures
        res == scan_line(cs@, i as int),
        i <= res <= cs@.len(),
{
    let mut k = i;
    while k < cs.len() && cs[k] != '\n'
        invariant
            i <= k <= cs@.len(),
            scan_line(cs@, i as int) == scan_line(cs@, k as int),
        decreases cs@.len() - k,
    {
        k = k + 1;
    }
    k
}

/// Reads a string body from `i`: `Ok((content, end))`, `Err(Some((c, p)))` for a bad escape
/// `\c` at `p`, `Err(None)` when unclosed.
fn scan_string_exec(cs: &Vec<char>, i: usize) -> (res: Result<(String, usize), Option<(char, usize)>>)
    requires
        i <= cs@.len(),
    ensures
        match scan_string(cs@, i as int, Seq::empty()) {
            StrScan::Done(s, e) => res matches Ok((r, e2)) && r@ == s && e2 == e,
            StrScan::BadEscape(c, p) => res == Err::<(String, usize), Option<(char, usize)>>(Some((c, p as usize)))
                && i <= p && p + 2 <= cs@.len(),
            StrScan::Unclosed => res == Err::<(String, usize), Option<(char, usize)>>(None),
        },
        res matches Ok((_, e)) ==> e <= cs@.len() && e > i,
        res matches Err(Some((_, p))) ==> p + 2 <= cs@.len() && p >= i,
{
    let mut content = String::new();
    let mut k = i;
    while k < cs.len() && cs[k] != '"'
        invariant
            i <= k <= cs@.len(),
            scan_string(cs@, i as int, Seq::empty()) == scan_string(cs@, k as int, content@),
        decreases cs@.len() - k,
    {
        if cs[k] == '\\' && k + 1 < cs.len() {
            let c = cs[k + 1];
            if c == 'n' {
                push_char(&mut content, '\n');
            } else if c == 't' {
                push_char(&mut content, '\t');
            } else if c == '"' {
                push_char(&mut content, '"');
            } else if c == '\\' {
                push_char(&mut content, '\\');
            } else {
                return Err(Some((c, k)));
            }
            k = k + 2;
        } else {
            push_char(&mut content, cs[k]);
            k = k + 1;
        }
    }
    if k < cs.len() {
        Ok((content, k + 1))
    } else {
        Err(None)
    }
}

/// A lexer driven by a deterministic automaton.
pub struct Lexer {
    pub dfa: Dfa,
}

/// Joins a token prefix with the result for the rest of the input.
pub open spec fn after_prefix(prefix: Seq<(usize, TokenView, usize)>, r: LexResult) -> LexResult {
    match r {
        Ok(rest) => Ok(prefix + rest),
        Err(e) => Err(e),
    }
}

/// An accepting state and position, with the position as an integer.
pub open spec fn opt_pos(l: Option<(usize, usize)>) -> Option<(usize, int)> {
    match l {
        Some((s, p)) => Some((s, p as int)),
        None => None,
    }
}

/// Tokens lie in `[lo, hi)`, each spans at least one character, and each ends no later
/// than the next one starts.
pub open spec fn tokens_in_order(s: Seq<(usize, TokenView, usize)>, lo: int, hi: int) -> bool {
    &&& forall|k: int| 0 <= k < s.len() ==> lo <= (#[trigger] s[k]).0 < s[k].2 <= hi
    &&& forall|k: int| 0 <= k < s.len() - 1 ==> (#[trigger] s[k]).2 <= s[k + 1].0
}

/// A step that produces a token produces it at the current position.
proof fn lemma_emit_here(d: Dfa, cs: Seq<char>, i: int)
    requires
        0 <= i < cs.len(),
    ensures
        lex_step(d, cs, i) matches LexStep::Emit(_, s, _) ==> s == i,
{
}

/// The tokens of a successful lexing from position `i` lie within the rest of the
/// input, in order of position, each non-empty and none overlapping the next.
pub proof fn lemma_tokens_in_order(d: Dfa, cs: Seq<char>, i: int)
    requires
        0 <= i,
        cs.len() <= usize::MAX,
    ensures
        lex_from(d, cs, i) matches Ok(s) ==> tokens_in_order(s, i, cs.len() as int),
    decreases cs.len() - i,
{
    if i < cs.len() {
        lemma_emit_here(d, cs, i);
        match lex_step(d, cs, i) {
            LexStep::Skip(j) => {
                if i < j <= cs.len() {
                    lemma_tokens_in_order(d, cs, j);
                }
            },
            LexStep::Emit(t, s, e) => {
                if i < e <= cs.len() {
                    lemma_tokens_in_order(d, cs, e);
                    if let Ok(rest) = lex_from(d, cs, e) {
                        let all = seq![(s as usize, t, e as usize)] + rest;
                        assert forall|k: int| 0 <= k < all.len() implies i <= (#[trigger] all[k]).0 < all[k].2
                            <= cs.len() by {
                            if k > 0 {
                                assert(all[k] == rest[k - 1]);
                            }
                        }
                        assert forall|k: int| 0 <= k < all.len() - 1 implies (#[trigger] all[k]).2 <= all[k
                            + 1].0 by {
                            assert(all[k + 1] == rest[k]);
                            if k > 0 {
                                assert(all[k] == rest[k - 1]);
                            }
                        }
                    }
                }
            },
            LexStep::Fail(..) => {},
        }
    }
}

proof fn lemma_after_prefix(
    before: Seq<(usize, TokenView, usize)>,
    t: (usize, TokenView, usize),
    r: LexResult,
)
    ensures
        after_prefix(before, after_prefix(seq![t], r)) == after_prefix(before.push(t), r),
{
    if let Ok(rest) = r {
        assert(before + (seq![t] + rest) =~= before.push(t) + rest);
    }
}

impl Lexer {
    fn dfa_longest(&self, cs: &Vec<char>, i: usize) -> (res: Option<(usize, usize)>)
        requires
            i <= cs@.len(),
        ensures
            match dfa_run(self.dfa, cs@, i as int, 0, None) {
                Some((st, pos)) => res == Some((st, pos as usize)) && i <= pos < cs@.len()
                    && self.dfa.accept_states@.contains_key(st),
                None => res is None,
            },
    {
        let mut current_state: usize = 0;
        let mut last: Option<(usize, usize)> = None;
        let mut j = i;
        while j < cs.len()
            invariant
                i <= j <= cs@.len(),
                dfa_run(self.dfa, cs@, i as int, 0, None) == dfa_run(
                    self.dfa,
                    cs@,
                    j as int,
                    current_state,
                    opt_pos(last),
                ),
                last matches Some((s, p)) ==> i <= p < j && self.dfa.accept_states@.contains_key(s),
            decreases cs@.len() - j,
        {
            match self.dfa.transition(current_state, cs[j]) {
                Some(next_state) => {
                    current_state = next_state;
                    j = j + 1;
                    if self.dfa.accept_states.contains_key(&current_state) {
                        last = Some((current_state, j - 1));
                    }
                },
                None => {
                    return last;
                },
            }
        }
        last
    }

    /// One step of the lexer at position `i`: a skipped stretch, one token, or the error.
    fn step(&self, chars: &Vec<char>, i: usize) -> (res: Result<(Option<(usize, Token, usize)>, usize), CompilerError>)
        requires
            i < chars@.len(),
        ensures
            match lex_step(self.dfa, chars@, i as int) {
                LexStep::Skip(j) => res matches Ok((None, n)) && n == j,
                LexStep::Emit(t, a, b) => res matches Ok((Some(tok), n)) && tok.0 == a && tok.1@ == t
                    && tok.2 == b && n == b,
                LexStep::Fail(m, a, b) => res matches Err(e) && e matches CompilerError::LexerError {
                    msg,
                    span,
                } && msg@ == m && span == Span { start: a as usize, end: b as usize },
            },
            res matches Ok((_, n)) ==> i < n <= chars@.len(),
    {
        let ghost cs = chars@;
        let len = chars.len();
        let c = chars[i];
        // white space
        if is_ws_exec(c) {
            return Ok((None, i + 1));
        }
        // comments
        if i + 1 < chars.len() && c == '/' && chars[i + 1] == '/' {
            let e = scan_line_exec(chars, i);
            let next = if e < chars.len() { e + 1 } else { e };
            return Ok((None, next));
        }
        // numbers
        if is_digit_exec(c) {
            let e = scan_digits_exec(chars, i);
            let mut end = e;
            if e < chars.len() && chars[e] == '.' {
                let f = scan_digits_exec(chars, e + 1);
                if f != e + 1 {
                    end = f;
                }
            }
            let text = string_of(chars, i, end);
            return Ok((Some((i, Token::Number(text), end)), end));
        }
        // identifiers and keywords
        if is_alpha_exec(c) || c == '_' {
            let e = scan_ident_exec(chars, i);
            let word: Vec<char> = chars_slice(chars, i, e);
            let tok = keyword_token_exec(&word);
            return Ok((Some((i, tok, e)), e));
        }
        // string literals
        if c == '"' {
            return match scan_string_exec(chars, i + 1) {
                Ok((content, e)) => Ok((Some((i, Token::Str(content), e)), e)),
                Err(Some((bad, p))) => {
                    let mut msg = String::from_str("Invalid escape sequence: '\\");
                    push_char(&mut msg, bad);
                    msg.append("'");
                    proof {
                        assert(msg@ =~= bad_escape_msg(bad));
                    }
                    Err(CompilerError::LexerError { msg, span: Span::new(p, p + 2) })
                },
                Err(None) => Err(
                    CompilerError::LexerError {
                        msg: String::from_str("Unclosed string literal"),
                        span: Span::new(i, chars.len()),
                    },
                ),
            };
        }
        // concatenation operators
        if c == '@' {
            if i + 1 < chars.len() && chars[i + 1] == '@' {
                return Ok((Some((i, Token::ConcatSpace, i + 2)), i + 2));
            } else {
                return Ok((Some((i, Token::Concat, i + 1)), i + 1));
            }
        }
        // dot
        if c == '.' {
            return Ok((Some((i, Token::Dot, i + 1)), i + 1));
        }
        // longest match of the automaton
        match self.dfa_longest(chars, i) {
            Some((accept_state, pos)) => {
                let lexeme = chars_slice(chars, i, pos + 1);
                let name = match self.dfa.accept_states.get(&accept_state) {
                    Some(n) => n,
                    None => {
                        return Err(CompilerError::LexerError { msg: String::new(), span: Span::new(i, i) });
                    },
                };
                match named_token_exec(name, &lexeme) {
                    Some(tok) => Ok((Some((i, tok, pos + 1)), pos + 1)),
                    None => Ok((None, i + 1)),
                }
            },
            None => {
                let mut msg = String::from_str("Carácter no reconocido: '");
                push_char(&mut msg, c);
                msg.append("'");
                proof {
                    assert(msg@ =~= unrecognized_msg(c));
                }
                Err(CompilerError::LexerError { msg, span: Span::new(i, i + 1) })
            },
        }
    }

    /// Splits the input into tokens with their (start, end) character positions, or
    /// returns the first lexical error.
    pub fn tokenize(&self, input: &str) -> (res: Result<Vec<(usize, Token, usize)>, CompilerError>)
        ensures
            match (res, lex_from(self.dfa, input@, 0)) {
                (Ok(v), Ok(s)) => tokens_view(v@) == s,
                (Err(e), Err((m, a, b))) => e matches CompilerError::LexerError { msg, span } && msg@ == m
                    && span == Span { start: a, end: b },
                _ => false,
            },
    {
        let ghost d = self.dfa;
        let mut tokens: Vec<(usize, Token, usize)> = Vec::new();
        let chars = crate::regex_ast::chars_of(input);
        let ghost cs = chars@;
        let mut i: usize = 0;
        while i < chars.len()
            invariant
                cs == chars@,
                cs == input@,
                d == self.dfa,
                i <= cs.len(),
                lex_from(d, cs, 0) == after_prefix(tokens_view(tokens@), lex_from(d, cs, i as int)),
            decreases cs.len() - i,
        {
            let ghost before = tokens_view(tokens@);
            match self.step(&chars, i) {
                Ok((Some(t), n)) => {
                    let ghost tv = (t.0, t.1@, t.2);
                    tokens.push(t);
                    proof {
                        assert(tokens_view(tokens@) =~= before.push(tv));
                        lemma_after_prefix(before, tv, lex_from(d, cs, n as int));
                    }
                    i = n;
                },
                Ok((None, n)) => {
                    i = n;
                },
                Err(e) => {
                    return Err(e);
                },
            }
        }
        proof {
            assert(tokens_view(tokens@) + Seq::<(usize, TokenView, usize)>::empty() =~= tokens_view(tokens@));
        }
        Ok(tokens)
    }
}

fn chars_slice(cs: &Vec<char>, start: usize, end: usize) -> (res: Vec<char>)
    requires
        start <= end <= cs@.len(),
    ensures
        res@ == cs@.subrange(start as int, end as int),
{
    let mut r: Vec<char> = Vec::new();
    let mut k = start;
    while k < end
        invariant
            start <= k <= end,
            end <= cs@.len(),
            r@ == cs@.subrange(start as int, k as int),
        decreases end - k,
    {
        r.push(cs[k]);
        k = k + 1;
        assert(r@ =~= cs@.subrange(start as int, k as int));
    }
    r
}


/// The patterns as (name, regular expression) character sequences.
pub open spec fn patterns_view(p: Seq<(&str, &str)>) -> Seq<(Seq<char>, Seq<char>)> {
    p.map_values(|x: (&str, &str)| (x.0@, x.1@))
}

/// The tree of the `k`-th pattern.
pub open spec fn pattern_tree(ps: Seq<(Seq<char>, Seq<char>)>, k: int) -> RegexAST {
    regex_tree(pattern_regex(ps[k].0, ps[k].1))
}

/// Every pattern's regular expression parses.
pub open spec fn all_parse(ps: Seq<(Seq<char>, Seq<char>)>) -> bool {
    forall|k: int| 0 <= k < ps.len() ==> #[trigger] regex_parses(pattern_regex(ps[k].0, ps[k].1))
}

/// Number of automaton states that the first `n` patterns take.
pub open spec fn total_size(ps: Seq<(Seq<char>, Seq<char>)>, n: int) -> nat
    decreases n,
{
    if n <= 0 {
        0
    } else {
        total_size(ps, n - 1) + nfa_size(pattern_tree(ps, n - 1))
    }
}

/// A character occurs in some pattern's regular expression.
pub open spec fn in_patterns(ps: Seq<(Seq<char>, Seq<char>)>, c: char) -> bool {
    exists|k: int, j: int| 0 <= k < ps.len() && 0 <= j < ps[k].1.len() && #[trigger] ps[k].1[j] == c
}

/// The `j`-th pattern's fragment in `st` is the Thompson construction of its tree, placed
/// from state `1 + total_size(ps, j)` on: its states carry exactly the construction's
/// edges, state 0's `j`-th edge leads to the construction's start, and the `j`-th entry of
/// `tm` is the construction's end.
pub open spec fn fragment_exact(
    ps: Seq<(Seq<char>, Seq<char>)>,
    j: int,
    st: Seq<NfaState>,
    tm: Seq<(usize, String)>,
) -> bool {
    let lo: int = (1 + total_size(ps, j)) as int;
    let th = thompson(pattern_tree(ps, j), lo);
    &&& st[0].edges@[j] == Edge::Epsilon(th.1 as usize)
    &&& tm[j].0 == th.2
    &&& forall|i: int| 0 <= i < nfa_size(pattern_tree(ps, j)) ==> st[lo + i].edges@ == #[trigger] th.0[i]
}

/// The combined automaton of the patterns: state 0 is the start, with one empty edge to
/// the start of each pattern's fragment, in order; the `k`-th fragment takes the states
/// from `1 + total_size(ps, k)` on; the accepting states are exactly the fragments' ends,
/// each listed with its pattern's name; the alphabet is the set of characters of the
/// patterns.
pub open spec fn lexer_automaton(
    ps: Seq<(Seq<char>, Seq<char>)>,
    st: Seq<NfaState>,
    alphabet: Seq<char>,
    tm: Seq<(usize, String)>,
) -> bool {
    &&& st.len() == 1 + total_size(ps, ps.len() as int)
    &&& edges_in_bounds(st)
    &&& st[0].edges@.len() == ps.len()
    &&& tm.len() == ps.len()
    &&& forall|k: int|
        0 <= k < ps.len() ==> {
            let lo = 1 + total_size(ps, k);
            let hi = 1 + total_size(ps, k + 1);
            &&& (#[trigger] tm[k]).1@ == ps[k].0
            &&& lo <= tm[k].0 < hi
            &&& st[0].edges@[k] matches Edge::Epsilon(s) && lo <= s < hi
        }
    &&& forall|i: int|
        0 <= i < st.len() ==> (#[trigger] st[i].is_accept <==> exists|k: int|
            0 <= k < tm.len() && tm[k].0 == i)
    &&& forall|c: char| #[trigger] alphabet.contains(c) <==> in_patterns(ps, c)
    &&& forall|k: int| 0 <= k < ps.len() ==> #[trigger] fragment_exact(ps, k, st, tm)
}

proof fn lemma_total_monotone(ps: Seq<(Seq<char>, Seq<char>)>, a: int, b: int)
    requires
        0 <= a <= b,
    ensures
        total_size(ps, a) <= total_size(ps, b),
    decreases b - a,
{
    if a < b {
        lemma_total_monotone(ps, a, b - 1);
    }
}

/// Escapes every regular-expression operator of a literal pattern with a backslash.
pub fn escape_regex_literal(pattern: &str) -> (res: String)
    ensures
        res@ == escape_literal(pattern@),
{
    let cs = chars_of(pattern);
    let mut escaped = String::new();
    let mut k: usize = 0;
    while k < cs.len()
        invariant
            k <= cs@.len(),
            cs@ == pattern@,
            escaped@ == escape_literal(cs@.subrange(0, k as int)),
        decreases cs@.len() - k,
    {
        let ch = cs[k];
        if ch == '|' || ch == '*' || ch == '.' || ch == '?' || ch == '(' || ch == ')' || ch == '\\'
            || ch == '+' || ch == '[' || ch == ']' || ch == '{' || ch == '}' {
            push_char(&mut escaped, '\\');
            push_char(&mut escaped, ch);
        } else {
            push_char(&mut escaped, ch);
        }
        proof {
            assert(cs@.subrange(0, k + 1).drop_last() =~= cs@.subrange(0, k as int));
        }
        k = k + 1;
        assert(escaped@ =~= escape_literal(cs@.subrange(0, k as int)));
    }
    assert(cs@.subrange(0, k as int) =~= cs@);
    escaped
}

fn vec_has_char(v: &Vec<char>, c: char) -> (res: bool)
    ensures
        res == v@.contains(c),
{
    let mut k: usize = 0;
    while k < v.len()
        invariant
            k <= v@.len(),
            forall|j: int| 0 <= j < k ==> v@[j] != c,
        decreases v@.len() - k,
    {
        if v[k] == c {
            return true;
        }
        k = k + 1;
    }
    false
}

fn set_accept(states: &mut Vec<NfaState>, i: usize)
    requires
        i < old(states)@.len(),
    ensures
        final(states)@.len() == old(states)@.len(),
        final(states)@[i as int].edges@ == old(states)@[i as int].edges@,
        final(states)@[i as int].is_accept,
        forall|j: int|
            0 <= j < old(states)@.len() && j != i ==> #[trigger] final(states)@[j] == old(states)@[j],
{
    states[i].is_accept = true;
}

/// The characters of the patterns' regular expressions, each once, in order of first
/// appearance.
fn collect_alphabet(patterns: &Vec<(&str, &str)>) -> (res: Vec<char>)
    ensures
        forall|c: char| #[trigger] res@.contains(c) <==> in_patterns(patterns_view(patterns@), c),
{
    let ghost ps = patterns_view(patterns@);
    let mut alphabet: Vec<char> = Vec::new();
    let mut k: usize = 0;
    while k < patterns.len()
        invariant
            k <= patterns@.len(),
            ps == patterns_view(patterns@),
            forall|c: char| #[trigger] alphabet@.contains(c) <==> exists|k2: int, j: int|
                0 <= k2 < k && 0 <= j < ps[k2].1.len() && #[trigger] ps[k2].1[j] == c,
        decreases patterns@.len() - k,
    {
        let cs = chars_of(patterns[k].1);
        let mut j: usize = 0;
        while j < cs.len()
            invariant
                k < patterns@.len(),
                j <= cs@.len(),
                ps == patterns_view(patterns@),
                cs@ == ps[k as int].1,
                forall|c: char| #[trigger] alphabet@.contains(c) <==> (exists|k2: int, j2: int|
                    0 <= k2 < k && 0 <= j2 < ps[k2].1.len() && #[trigger] ps[k2].1[j2] == c) || (exists|j2: int|
                    0 <= j2 < j && #[trigger] cs@[j2] == c),
            decreases cs@.len() - j,
        {
            let c = cs[j];
            let ghost old_a = alphabet@;
            if !vec_has_char(&alphabet, c) {
                alphabet.push(c);
                proof {
                    assert(alphabet@[old_a.len() as int] == c);
                }
            }
            proof {
                assert forall|d: char| #[trigger] alphabet@.contains(d) <==> (old_a.contains(d) || d == c) by {
                    if alphabet@.contains(d) {
                        let idx = choose|idx: int| 0 <= idx < alphabet@.len() && alphabet@[idx] == d;
                        if idx < old_a.len() {
                            assert(old_a[idx] == d);
                        }
                    }
                    if old_a.contains(d) {
                        let idx = choose|idx: int| 0 <= idx < old_a.len() && old_a[idx] == d;
                        assert(alphabet@[idx] == d);
                    }
                }
                assert forall|d: char| #[trigger] alphabet@.contains(d) <==> (exists|k2: int, j2: int|
                    0 <= k2 < k && 0 <= j2 < ps[k2].1.len() && #[trigger] ps[k2].1[j2] == d) || (exists|j2: int|
                    0 <= j2 < j + 1 && #[trigger] cs@[j2] == d) by {
                    if d == c {
                        assert(alphabet@.contains(c));
                        assert(cs@[j as int] == c);
                    }
                }
            }
            j = j + 1;
        }
        proof {
            assert forall|c: char| #[trigger] alphabet@.contains(c) <==> exists|k2: int, j2: int|
                0 <= k2 < k + 1 && 0 <= j2 < ps[k2].1.len() && #[trigger] ps[k2].1[j2] == c by {
                if exists|j2: int| 0 <= j2 < j && #[trigger] cs@[j2] == c {
                    let j2 = choose|j2: int| 0 <= j2 < j && #[trigger] cs@[j2] == c;
                    assert(ps[k as int].1[j2] == c);
                }
                if exists|k2: int, j2: int|
                    0 <= k2 < k + 1 && 0 <= j2 < ps[k2].1.len() && #[trigger] ps[k2].1[j2] == c {
                    let (k2, j2) = choose|k2: int, j2: int|
                        0 <= k2 < k + 1 && 0 <= j2 < ps[k2].1.len() && #[trigger] ps[k2].1[j2] == c;
                    if k2 == k {
                        assert(cs@[j2] == c);
                    }
                }
            }
        }
        k = k + 1;
    }
    alphabet
}


/// What holds of the combined automaton after the first `k` patterns were added.
pub open spec fn built_upto(
    ps: Seq<(Seq<char>, Seq<char>)>,
    k: int,
    st: Seq<NfaState>,
    tm: Seq<(usize, String)>,
) -> bool {
    &&& st.len() == 1 + total_size(ps, k)
    &&& edges_in_bounds(st)
    &&& st[0].edges@.len() == k
    &&& tm.len() == k
    &&& forall|j: int|
        0 <= j < k ==> {
            let lo = 1 + total_size(ps, j);
            let hi = 1 + total_size(ps, j + 1);
            &&& (#[trigger] tm[j]).1@ == ps[j].0
            &&& lo <= tm[j].0 < hi
            &&& tm[j].0 < st.len()
            &&& st[0].edges@[j] matches Edge::Epsilon(s) && lo <= s < hi
        }
    &&& forall|i: int|
        0 <= i < st.len() ==> (#[trigger] st[i].is_accept <==> exists|j: int|
            0 <= j < k && tm[j].0 == i)
    &&& forall|j: int| 0 <= j < k ==> #[trigger] fragment_exact(ps, j, st, tm)
}

#[verifier::rlimit(40)]
proof fn lemma_add_pattern(
    ps: Seq<(Seq<char>, Seq<char>)>,
    k: int,
    before: Seq<NfaState>,
    built: Seq<NfaState>,
    linked: Seq<NfaState>,
    fin: Seq<NfaState>,
    tm: Seq<(usize, String)>,
    name: String,
    pat_start: usize,
    pat_end: usize,
)
    requires
        0 <= k < ps.len(),
        built_upto(ps, k, before, tm),
        fragment(before, built, pattern_tree(ps, k), pat_start, pat_end),
        linked.len() == built.len(),
        linked[0].edges@ == built[0].edges@.push(Edge::Epsilon(pat_start)),
        linked[0].is_accept == built[0].is_accept,
        forall|j: int| 0 < j < built.len() ==> #[trigger] linked[j] == built[j],
        fin.len() == linked.len(),
        fin[pat_end as int].edges@ == linked[pat_end as int].edges@,
        fin[pat_end as int].is_accept,
        forall|j: int| 0 <= j < linked.len() && j != pat_end ==> #[trigger] fin[j] == linked[j],
        name@ == ps[k].0,
        pat_start == thompson(pattern_tree(ps, k), before.len() as int).1,
        pat_end == thompson(pattern_tree(ps, k), before.len() as int).2,
        forall|i: int|
            0 <= i < nfa_size(pattern_tree(ps, k)) ==> (#[trigger] built[before.len() + i]).edges@ == thompson(
                pattern_tree(ps, k),
                before.len() as int,
            ).0[i],
    ensures
        built_upto(ps, k + 1, fin, tm.push((pat_end, name))),
{
    let lo = before.len() as int;
    let tm2 = tm.push((pat_end, name));
    assert(fin[0] == linked[0]);
    assert forall|j: int| 0 <= j < k + 1 implies #[trigger] fragment_exact(ps, j, fin, tm2) by {
        let loj: int = (1 + total_size(ps, j)) as int;
        let th = thompson(pattern_tree(ps, j), loj);
        crate::nfa::lemma_thompson_shape(pattern_tree(ps, j), loj);
        if j < k {
            assert(fragment_exact(ps, j, before, tm));
            lemma_total_monotone(ps, j + 1, k);
            assert(tm2[j] == tm[j]);
            assert(built[0].edges@ == before[0].edges@);
            assert(fin[0].edges@[j] == before[0].edges@[j]);
            assert forall|i: int| 0 <= i < nfa_size(pattern_tree(ps, j)) implies fin[loj + i].edges@ == #[trigger] th.0[i] by {
                assert(before[loj + i].edges@ == th.0[i]);
                assert(built[loj + i].edges@ == before[loj + i].edges@);
            }
        } else {
            assert(tm2[k].0 == pat_end);
            assert(fin[0].edges@[k] == Edge::Epsilon(pat_start));
            assert forall|i: int| 0 <= i < nfa_size(pattern_tree(ps, j)) implies fin[loj + i].edges@ == #[trigger] th.0[i] by {
                assert(built[lo + i].edges@ == th.0[i]);
            }
        }
    }
    assert forall|i: int, e: int|
        #![trigger fin[i].edges@[e]]
        0 <= i < fin.len() && 0 <= e < fin[i].edges@.len() implies 0 <= crate::nfa::edge_target(
            fin[i].edges@[e],
        ) < fin.len() by {
        if i == 0 {
            if e < before[0].edges@.len() {
                assert(built[0].edges@ == before[0].edges@);
                assert(fin[0].edges@[e] == before[0].edges@[e]);
            }
        } else if i < lo {
            assert(built[i].edges@ == before[i].edges@);
            assert(fin[i].edges@ == before[i].edges@);
        } else {
            assert(fin[i].edges@ == built[i].edges@);
        }
    }
    assert(built[0].edges@ == before[0].edges@);
    assert forall|j: int| 0 <= j < k + 1 implies {
        let lo2 = 1 + total_size(ps, j);
        let hi2 = 1 + total_size(ps, j + 1);
        &&& (#[trigger] tm2[j]).1@ == ps[j].0
        &&& lo2 <= tm2[j].0 < hi2
        &&& tm2[j].0 < fin.len()
        &&& fin[0].edges@[j] matches Edge::Epsilon(s) && lo2 <= s < hi2
    } by {
        if j < k {
            assert(tm2[j] == tm[j]);
            assert(fin[0].edges@[j] == before[0].edges@[j]);
        }
    }
    assert forall|i: int| 0 <= i < fin.len() implies (#[trigger] fin[i].is_accept <==> exists|j: int|
        0 <= j < k + 1 && tm2[j].0 == i) by {
        if i == pat_end {
            assert(tm2[k].0 == i);
        } else if i < lo {
            assert(built[i].edges@ == before[i].edges@);
            assert(fin[i].is_accept == before[i].is_accept);
            if exists|j: int| 0 <= j < k + 1 && tm2[j].0 == i {
                let j = choose|j: int| 0 <= j < k + 1 && tm2[j].0 == i;
                assert(tm2[j] == tm[j]);
            }
            if before[i].is_accept {
                let j = choose|j: int| 0 <= j < k && tm[j].0 == i;
                assert(tm2[j] == tm[j]);
            }
        } else {
            assert(!built[i].is_accept);
            assert(fin[i] == built[i]);
            if exists|j: int| 0 <= j < k + 1 && tm2[j].0 == i {
                let j = choose|j: int| 0 <= j < k + 1 && tm2[j].0 == i;
                assert(tm2[j] == tm[j]);
                assert(tm[j].0 < before.len());
            }
        }
    }
}

/// Builds the lexer of the given (name, pattern) list. `Number` and `Identifier`
/// patterns are regular expressions; every other pattern is matched literally. The
/// result's automaton is the subset construction of the combined automaton of the
/// patterns, in which an earlier pattern wins a tie.
pub fn build_lexer(patterns: Vec<(&str, &str)>) -> (res: Lexer)
    requires
        all_parse(patterns_view(patterns@)),
        1 + total_size(patterns_view(patterns@), patterns@.len() as int) <= usize::MAX,
    ensures
        exists|st: Seq<NfaState>, alphabet: Seq<char>, tm: Seq<(usize, String)>|
            #![trigger dfa_spec(res.dfa, st, 0, alphabet, tm)]
            lexer_automaton(patterns_view(patterns@), st, alphabet, tm) && dfa_spec(
                res.dfa,
                st,
                0,
                alphabet,
                tm,
            ),
{
    let ghost ps = patterns_view(patterns@);
    let mut states: Vec<NfaState> = Vec::new();
    states.push(NfaState { edges: Vec::new(), is_accept: false });
    let mut token_map: Vec<(usize, String)> = Vec::new();
    let alphabet = collect_alphabet(&patterns);
    let mut k: usize = 0;
    while k < patterns.len()
        invariant
            k <= patterns@.len(),
            ps == patterns_view(patterns@),
            all_parse(ps),
            1 + total_size(ps, patterns@.len() as int) <= usize::MAX,
            built_upto(ps, k as int, states@, token_map@),
        decreases patterns@.len() - k,
    {
        let (name, pattern) = patterns[k];
        let name_chars = chars_of(name);
        let regex_str = if chars_eq(&name_chars, "Number") || chars_eq(&name_chars, "Identifier") {
            String::from_str(pattern)
        } else {
            escape_regex_literal(pattern)
        };
        proof {
            reveal_strlit("Number");
            reveal_strlit("Identifier");
            assert(regex_str@ == pattern_regex(ps[k as int].0, ps[k as int].1));
            assert(regex_parses(pattern_regex(ps[k as int].0, ps[k as int].1)));
            lemma_total_monotone(ps, k + 1, patterns@.len() as int);
        }
        let mut regex_parser = RegexParser::new(regex_str.as_str());
        let regex_ast = regex_parser.parse();
        let ghost before = states@;
        let ghost tm_before = token_map@;
        let (pat_start, pat_end) = Nfa::build_from_ast(&regex_ast, &mut states);
        let ghost built = states@;
        push_edge(&mut states, 0, Edge::Epsilon(pat_start));
        let ghost linked = states@;
        set_accept(&mut states, pat_end);
        let owned_name = String::from_str(name);
        let ghost name_view = owned_name;
        token_map.push((pat_end, owned_name));
        proof {
            lemma_add_pattern(ps, k as int, before, built, linked, states@, tm_before, name_view, pat_start, pat_end);
            assert(token_map@ == tm_before.push((pat_end, name_view)));
        }
        k = k + 1;
    }
    let nfa = Nfa { states, start: 0, end: 0 };
    let dfa = Dfa::from_nfa(&nfa, &alphabet, &token_map);
    let res = Lexer { dfa };
    proof {
        assert(lexer_automaton(ps, nfa.states@, alphabet@, token_map@));
        assert(dfa_spec(res.dfa, nfa.states@, 0, alphabet@, token_map@));
    }
    res
}

/// The number of automaton states of a tree, or `None` when it does not fit in `usize`.
fn tree_size(ast: &RegexAST) -> (res: Option<usize>)
    ensures
        match res {
            Some(n) => n == nfa_size(*ast),
            None => nfa_size(*ast) > usize::MAX,
        },
    decreases ast,
{
    match ast {
        RegexAST::Literal(_) => Some(2),
        RegexAST::Epsilon => Some(2),
        RegexAST::Concat(l, r) => match (tree_size(l), tree_size(r)) {
            (Some(a), Some(b)) => a.checked_add(b),
            _ => None,
        },
        RegexAST::Union(l, r) => match (tree_size(l), tree_size(r)) {
            (Some(a), Some(b)) => match a.checked_add(b) {
                Some(c) => c.checked_add(2),
                None => None,
            },
            _ => None,
        },
        RegexAST::Star(i) => match tree_size(i) {
            Some(a) => a.checked_add(2),
            None => None,
        },
    }
}

/// Whether `build_lexer` accepts the patterns: every pattern's regular expression parses,
/// and the combined automaton's states can be counted in `usize`.
pub fn patterns_ok(patterns: &Vec<(&str, &str)>) -> (res: bool)
    ensures
        res == (all_parse(patterns_view(patterns@)) && 1 + total_size(
            patterns_view(patterns@),
            patterns@.len() as int,
        ) <= usize::MAX),
{
    let ghost ps = patterns_view(patterns@);
    let mut total: usize = 1;
    let mut k: usize = 0;
    while k < patterns.len()
        invariant
            k <= patterns@.len(),
            ps == patterns_view(patterns@),
            forall|j: int| 0 <= j < k ==> #[trigger] regex_parses(pattern_regex(ps[j].0, ps[j].1)),
            total == 1 + total_size(ps, k as int),
        decreases patterns@.len() - k,
    {
        let (name, pattern) = patterns[k];
        let name_chars = chars_of(name);
        let regex_str = if chars_eq(&name_chars, "Number") || chars_eq(&name_chars, "Identifier") {
            String::from_str(pattern)
        } else {
            escape_regex_literal(pattern)
        };
        proof {
            reveal_strlit("Number");
            reveal_strlit("Identifier");
            assert(regex_str@ == pattern_regex(ps[k as int].0, ps[k as int].1));
        }
        let mut parser = RegexParser::new(regex_str.as_str());
        let tree = match parser.try_parse() {
            Some(t) => t,
            None => {
                proof {
                    assert(!regex_parses(pattern_regex(ps[k as int].0, ps[k as int].1)));
                }
                return false;
            },
        };
        if !parser.at_end() {
            proof {
                assert(!regex_parses(pattern_regex(ps[k as int].0, ps[k as int].1)));
            }
            return false;
        }
        let size = match tree_size(&tree) {
            Some(n) => n,
            None => {
                proof {
                    lemma_total_grows(ps, k as int, patterns@.len() as int);
                }
                return false;
            },
        };
        total = match total.checked_add(size) {
            Some(t) => t,
            None => {
                proof {
                    lemma_total_grows(ps, k as int, patterns@.len() as int);
                }
                return false;
            },
        };
        k = k + 1;
    }
    true
}

proof fn lemma_total_grows(ps: Seq<(Seq<char>, Seq<char>)>, k: int, n: int)
    requires
        0 <= k < n,
    ensures
        total_size(ps, n) >= total_size(ps, k) + nfa_size(pattern_tree(ps, k)),
{
    lemma_total_monotone(ps, k + 1, n);
}

} // verus!
