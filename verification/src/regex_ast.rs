use vstd::prelude::*;

verus! {

/// Syntax tree of a regular expression.
#[derive(Debug)]
pub enum RegexAST {
    /// One exact character.
    Literal(char),
    /// Concatenation (AB).
    Concat(Box<RegexAST>, Box<RegexAST>),
    /// Union (A|B).
    Union(Box<RegexAST>, Box<RegexAST>),
    /// Kleene closure (A*).
    Star(Box<RegexAST>),
    /// The empty string.
    Epsilon,
}

impl Clone for RegexAST {
    fn clone(&self) -> (res: Self)
        ensures
            res == *self,
        decreases self,
    {
        match self {
            RegexAST::Literal(c) => RegexAST::Literal(*c),
            RegexAST::Concat(l, r) => RegexAST::Concat(
                Box::new((**l).clone()),
                Box::new((**r).clone()),
            ),
            RegexAST::Union(l, r) => RegexAST::Union(Box::new((**l).clone()), Box::new((**r).clone())),
            RegexAST::Star(i) => RegexAST::Star(Box::new((**i).clone())),
            RegexAST::Epsilon => RegexAST::Epsilon,
        }
    }
}

/// A character that may stand to the left of an implicit concatenation.
pub open spec fn concat_left(c: char) -> bool {
    c != '|' && c != '('
}

/// A character that may stand to the right of an implicit concatenation.
pub open spec fn concat_right(c: char) -> bool {
    c != '|' && c != ')' && c != '*' && c != '?' && c != '.'
}

/// The number of characters of the operand that starts at `i`: an escaped pair `\x` is
/// one operand; any other character stands alone.
pub open spec fn operand_width(cs: Seq<char>, i: int) -> int {
    if cs[i] == '\\' && i + 1 < cs.len() {
        2
    } else {
        1
    }
}

/// The output of the explicit-concatenation pass for the characters from position `i` on:
/// each operand (an escaped pair, or one character) is copied, followed by a `.` when it
/// may end an operand (an escaped pair always may) and the next one may start one.
pub open spec fn explicit_concat_from(cs: Seq<char>, i: int) -> Seq<char>
    decreases cs.len() - i,
{
    if i < 0 || i >= cs.len() {
        Seq::empty()
    } else {
        let j = i + operand_width(cs, i);
        let ends = operand_width(cs, i) == 2 || concat_left(cs[i]);
        cs.subrange(i, j) + (if ends && j < cs.len() && concat_right(cs[j]) {
            seq!['.']
        } else {
            Seq::empty()
        }) + explicit_concat_from(cs, j)
    }
}

/// The input after a lone parenthesis has been escaped.
pub open spec fn escape_lone_paren(cs: Seq<char>) -> Seq<char> {
    if cs == seq!['('] {
        seq!['\\', '(']
    } else if cs == seq![')'] {
        seq!['\\', ')']
    } else {
        cs
    }
}

/// Result of the explicit-concatenation pass on a whole regular expression.
pub open spec fn explicit_concat(cs: Seq<char>) -> Seq<char> {
    explicit_concat_from(escape_lone_paren(cs), 0)
}

pub(crate) fn chars_of(s: &str) -> (res: Vec<char>)
    ensures
        res@ == s@,
{
    broadcast use vstd::string::group_string_axioms;

    let mut v: Vec<char> = Vec::new();
    for c in it: s.chars()
        invariant
            v@ == it.seq().take(it.index() as int),
    {
        v.push(c);
    }
    assert(v@ =~= s@);
    v
}

/// Makes every implicit concatenation explicit with a `.`.
pub fn insert_explicit_concat(regex: &str) -> (res: String)
    ensures
        res@ == explicit_concat(regex@),
{
    let chars0 = chars_of(regex);
    let chars: Vec<char> = if chars0.len() == 1 && chars0[0] == '(' {
        vec!['\\', '(']
    } else if chars0.len() == 1 && chars0[0] == ')' {
        vec!['\\', ')']
    } else {
        chars0
    };
    proof {
        if chars0@.len() == 1 && chars0@[0] == '(' {
            assert(chars0@ =~= seq!['(']);
        } else if chars0@.len() == 1 && chars0@[0] == ')' {
            assert(chars0@ =~= seq![')']);
        } else {
            assert(chars0@ != seq!['(']);
            assert(chars0@ != seq![')']);
        }
        assert(chars@ =~= escape_lone_paren(regex@));
    }
    let mut result = String::new();
    let mut i: usize = 0;
    while i < chars.len()
        invariant
            i <= chars@.len(),
            result@ + explicit_concat_from(chars@, i as int) == explicit_concat_from(chars@, 0),
        decreases chars@.len() - i,
    {
        let c1 = chars[i];
        let ghost before = result@;
        let ghost at = i as int;
        let escaped = c1 == '\\' && i + 1 < chars.len();
        crate::text::push_char(&mut result, c1);
        if escaped {
            crate::text::push_char(&mut result, chars[i + 1]);
            i = i + 2;
        } else {
            i = i + 1;
        }
        let ends = escaped || !(c1 == '|' || c1 == '(');
        if ends && i < chars.len() {
            let c2 = chars[i];
            if !(c2 == '|' || c2 == ')' || c2 == '*' || c2 == '?' || c2 == '.') {
                crate::text::push_char(&mut result, '.');
            }
        }
        proof {
            assert(chars@.subrange(at, i as int) =~= if escaped {
                seq![c1, chars@[at + 1]]
            } else {
                seq![c1]
            });
        }
        assert(result@ + explicit_concat_from(chars@, i as int) =~= before + explicit_concat_from(
            chars@,
            at,
        ));
    }
    assert(result@ =~= explicit_concat_from(chars@, 0));
    result
}

/// Outcome of a parsing step: the tree built and the position reached, or `None` when a
/// `(` is not closed (the parser gives up there).
pub type Step = Option<(RegexAST, int)>;

/// Union level: concatenations separated by `|`.
pub open spec fn sp_union(t: Seq<char>, p: int) -> Step
    decreases t.len() - p, 6int,
{
    if p < 0 || p > t.len() {
        None
    } else {
        match sp_concat(t, p) {
            None => None,
            Some((l, p1)) => if p1 < p || p1 > t.len() {
                None
            } else {
                sp_union_loop(t, l, p1)
            },
        }
    }
}

/// Repetition of `| concat` after a union's first operand.
pub open spec fn sp_union_loop(t: Seq<char>, left: RegexAST, p: int) -> Step
    decreases t.len() - p, 5int,
{
    if p < 0 || p > t.len() {
        None
    } else if p < t.len() && t[p] == '|' {
        match sp_concat(t, p + 1) {
            None => None,
            Some((r, p2)) => if p2 <= p || p2 > t.len() {
                None
            } else {
                sp_union_loop(t, RegexAST::Union(Box::new(left), Box::new(r)), p2)
            },
        }
    } else {
        Some((left, p))
    }
}

/// Concatenation level: starred operands separated by `.`.
pub open spec fn sp_concat(t: Seq<char>, p: int) -> Step
    decreases t.len() - p, 4int,
{
    if p < 0 || p > t.len() {
        None
    } else {
        match sp_star(t, p) {
            None => None,
            Some((l, p1)) => if p1 < p || p1 > t.len() {
                None
            } else {
                sp_concat_loop(t, l, p1)
            },
        }
    }
}

/// Repetition of `. star` after a concatenation's first operand.
pub open spec fn sp_concat_loop(t: Seq<char>, left: RegexAST, p: int) -> Step
    decreases t.len() - p, 3int,
{
    if p < 0 || p > t.len() {
        None
    } else if p < t.len() && t[p] == '.' {
        match sp_star(t, p + 1) {
            None => None,
            Some((r, p2)) => if p2 <= p || p2 > t.len() {
                None
            } else {
                sp_concat_loop(t, RegexAST::Concat(Box::new(left), Box::new(r)), p2)
            },
        }
    } else {
        Some((left, p))
    }
}

/// Postfix level: a primary followed by any number of `*` and `?`.
pub open spec fn sp_star(t: Seq<char>, p: int) -> Step
    decreases t.len() - p, 2int,
{
    if p < 0 || p > t.len() {
        None
    } else {
        match sp_primary(t, p) {
            None => None,
            Some((n, p1)) => if p1 < p || p1 > t.len() {
                None
            } else {
                sp_star_loop(t, n, p1)
            },
        }
    }
}

/// Repetition of postfix operators: `*` wraps in a closure, `?` in a union with epsilon.
pub open spec fn sp_star_loop(t: Seq<char>, node: RegexAST, p: int) -> Step
    decreases t.len() - p, 1int,
{
    if p < 0 || p > t.len() {
        None
    } else if p < t.len() && t[p] == '*' {
        sp_star_loop(t, RegexAST::Star(Box::new(node)), p + 1)
    } else if p < t.len() && t[p] == '?' {
        sp_star_loop(t, RegexAST::Union(Box::new(node), Box::new(RegexAST::Epsilon)), p + 1)
    } else {
        Some((node, p))
    }
}

/// Primary level: an escaped character, a parenthesized union, a plain character, or
/// epsilon when nothing fits.
pub open spec fn sp_primary(t: Seq<char>, p: int) -> Step
    decreases t.len() - p, 0int,
{
    if p < 0 || p > t.len() {
        None
    } else if p < t.len() && t[p] == '\\' && p + 1 < t.len() {
        Some((RegexAST::Literal(t[p + 1]), p + 2))
    } else if p < t.len() && t[p] == '(' {
        match sp_union(t, p + 1) {
            None => None,
            Some((node, p1)) => if p1 < t.len() && t[p1] == ')' {
                Some((node, p1 + 1))
            } else {
                None
            },
        }
    } else if p < t.len() && t[p] != '|' && t[p] != '*' && t[p] != '.' && t[p] != ')' && t[p]
        != '\\' {
        Some((RegexAST::Literal(t[p]), p + 1))
    } else {
        Some((RegexAST::Epsilon, p))
    }
}

/// Whether parsing the token sequence succeeds (every `(` is closed) and reads all of it.
pub open spec fn parses(t: Seq<char>) -> bool {
    sp_union(t, 0) matches Some((_, q)) && q == t.len()
}

/// The tree that parsing the token sequence gives.
pub open spec fn parse_tree(t: Seq<char>) -> RegexAST {
    sp_union(t, 0).unwrap().0
}

/// Whether a regular expression, given as written, parses.
pub open spec fn regex_parses(regex: Seq<char>) -> bool {
    parses(explicit_concat(regex))
}

/// The tree of a regular expression given as written.
pub open spec fn regex_tree(regex: Seq<char>) -> RegexAST {
    parse_tree(explicit_concat(regex))
}

/// The words a regular expression tree matches: a literal its one character, epsilon the
/// empty word, a union what either side matches, a concatenation a word split into a part
/// for each side, and a closure the empty word or a nonempty part for the operand followed
/// by more of the closure.
pub open spec fn regex_matches(r: RegexAST, w: Seq<char>) -> bool
    decreases r, w.len(), w.len() + 2,
{
    match r {
        RegexAST::Literal(c) => w == seq![c],
        RegexAST::Epsilon => w.len() == 0,
        RegexAST::Union(a, b) => regex_matches(*a, w) || regex_matches(*b, w),
        RegexAST::Concat(_, _) => splits_from(r, w, 0),
        RegexAST::Star(_) => w.len() == 0 || splits_from(r, w, 1),
    }
}

/// The word splits after its first `k` characters into parts that the concatenation or
/// closure `r` joins: the two operands of a concatenation, or for a closure a nonempty
/// word of its operand followed by more of the closure.
pub open spec fn split_at(r: RegexAST, w: Seq<char>, k: int) -> bool
    decreases r, w.len(), 0int,
{
    if k < 0 || k > w.len() {
        false
    } else {
        match r {
            RegexAST::Concat(a, b) => regex_matches(*a, w.take(k)) && regex_matches(*b, w.skip(k)),
            RegexAST::Star(a) => k >= 1 && regex_matches(*a, w.take(k)) && regex_matches(r, w.skip(k)),
            _ => false,
        }
    }
}

/// Some split of the word at position `k` or later suits `r`.
pub open spec fn splits_from(r: RegexAST, w: Seq<char>, k: int) -> bool
    decreases r, w.len(), w.len() - k + 1,
{
    if k < 0 || k > w.len() {
        false
    } else {
        split_at(r, w, k) || (k < w.len() && splits_from(r, w, k + 1))
    }
}

/// A search for a split from position `k` on succeeds exactly when some position from
/// `k` on splits the word.
pub proof fn lemma_splits_from(r: RegexAST, w: Seq<char>, k: int)
    requires
        0 <= k <= w.len(),
    ensures
        splits_from(r, w, k) <==> exists|i: int| k <= i <= w.len() && #[trigger] split_at(r, w, i),
    decreases w.len() - k,
{
    assert(splits_from(r, w, k) == (split_at(r, w, k) || (k < w.len() && splits_from(r, w, k + 1))));
    if k < w.len() {
        lemma_splits_from(r, w, k + 1);
        if splits_from(r, w, k + 1) {
            let i = choose|i: int| k + 1 <= i <= w.len() && #[trigger] split_at(r, w, i);
            assert(k <= i <= w.len() && split_at(r, w, i));
        }
        if exists|i: int| k <= i <= w.len() && #[trigger] split_at(r, w, i) {
            let i = choose|i: int| k <= i <= w.len() && #[trigger] split_at(r, w, i);
            if i > k {
                assert(k + 1 <= i <= w.len() && split_at(r, w, i));
            }
        }
    } else {
        if exists|i: int| k <= i <= w.len() && #[trigger] split_at(r, w, i) {
            let i = choose|i: int| k <= i <= w.len() && #[trigger] split_at(r, w, i);
            assert(i == k);
        }
    }
}

/// A `?` after an operand makes it optional: the tree built for the operand followed by
/// `?` matches exactly the empty word and the words the operand matches, nothing more.
pub proof fn lemma_optional_language(t: Seq<char>, node: RegexAST, p: int, w: Seq<char>)
    requires
        0 <= p < t.len(),
        t[p] == '?',
        p + 1 == t.len() || (t[p + 1] != '*' && t[p + 1] != '?'),
    ensures
        sp_star_loop(t, node, p) matches Some((r, q)) && q == p + 1 && (regex_matches(r, w) <==> (w.len() == 0
            || regex_matches(node, w))),
{
    let u = RegexAST::Union(Box::new(node), Box::new(RegexAST::Epsilon));
    assert(sp_star_loop(t, u, p + 1) == Some((u, p + 1)));
    assert(sp_star_loop(t, node, p) == sp_star_loop(t, u, p + 1));
    assert(regex_matches(u, w) == (regex_matches(node, w) || regex_matches(RegexAST::Epsilon, w)));
}

/// A single ordinary character followed by `?` matches exactly the empty word and that
/// character.
pub proof fn lemma_optional_char(c: char, w: Seq<char>)
    requires
        c != '|' && c != '(' && c != ')' && c != '*' && c != '?' && c != '.' && c != '\\',
    ensures
        regex_parses(seq![c, '?']),
        regex_matches(regex_tree(seq![c, '?']), w) <==> (w.len() == 0 || w == seq![c]),
{
    let cs = seq![c, '?'];
    assert(escape_lone_paren(cs) == cs);
    assert(explicit_concat_from(cs, 2) == Seq::<char>::empty());
    assert(explicit_concat_from(cs, 1) =~= seq!['?']);
    assert(explicit_concat_from(cs, 0) =~= cs);
    assert(explicit_concat(cs) == cs);
    assert(sp_primary(cs, 0) == Some((RegexAST::Literal(c), 1int)));
    lemma_optional_language(cs, RegexAST::Literal(c), 1, w);
    reveal_with_fuel(sp_star_loop, 2);
    let u = RegexAST::Union(Box::new(RegexAST::Literal(c)), Box::new(RegexAST::Epsilon));
    assert(sp_star(cs, 0) == Some((u, 2int)));
    assert(sp_concat_loop(cs, u, 2) == Some((u, 2int)));
    assert(sp_concat(cs, 0) == Some((u, 2int)));
    assert(sp_union_loop(cs, u, 2) == Some((u, 2int)));
    assert(sp_union(cs, 0) == Some((u, 2int)));
}

/// A closure matches the concatenation of any two words it matches.
pub proof fn lemma_star_concat(a: RegexAST, w1: Seq<char>, w2: Seq<char>)
    requires
        regex_matches(RegexAST::Star(Box::new(a)), w1),
        regex_matches(RegexAST::Star(Box::new(a)), w2),
    ensures
        regex_matches(RegexAST::Star(Box::new(a)), w1 + w2),
    decreases w1.len(),
{
    let r = RegexAST::Star(Box::new(a));
    if w1.len() == 0 {
        assert(w1 + w2 =~= w2);
    } else {
        lemma_splits_from(r, w1, 1);
        let i = choose|i: int| 1 <= i <= w1.len() && #[trigger] split_at(r, w1, i);
        lemma_star_concat(a, w1.skip(i), w2);
        let w = w1 + w2;
        assert(w.take(i) =~= w1.take(i));
        assert(w.skip(i) =~= w1.skip(i) + w2);
        assert(split_at(r, w, i));
        lemma_splits_from(r, w, 1);
    }
}

/// A `*` after an operand gives its closure: the tree matches the empty word and every
/// word the operand matches, it matches the concatenation of any two words it matches,
/// and every nonempty word it matches starts with a nonempty word of the operand.
pub proof fn lemma_closure_language(t: Seq<char>, node: RegexAST, p: int, w1: Seq<char>, w2: Seq<char>)
    requires
        0 <= p < t.len(),
        t[p] == '*',
        p + 1 == t.len() || (t[p + 1] != '*' && t[p + 1] != '?'),
    ensures
        sp_star_loop(t, node, p) matches Some((r, q)) && q == p + 1 && {
            &&& regex_matches(r, Seq::empty())
            &&& regex_matches(node, w1) ==> regex_matches(r, w1)
            &&& regex_matches(r, w1) && regex_matches(r, w2) ==> regex_matches(r, w1 + w2)
            &&& regex_matches(r, w1) && w1.len() > 0 ==> exists|i: int|
                1 <= i <= w1.len() && #[trigger] regex_matches(node, w1.take(i)) && regex_matches(r, w1.skip(i))
        },
{
    let r = RegexAST::Star(Box::new(node));
    assert(sp_star_loop(t, r, p + 1) == Some((r, p + 1)));
    assert(sp_star_loop(t, node, p) == sp_star_loop(t, r, p + 1));
    if w1.len() > 0 {
        lemma_splits_from(r, w1, 1);
    }
    if regex_matches(node, w1) && w1.len() > 0 {
        let n = w1.len() as int;
        assert(w1.take(n) =~= w1);
        assert(w1.skip(n) =~= Seq::<char>::empty());
        assert(regex_matches(r, w1.skip(n)));
        assert(split_at(r, w1, n));
    }
    if regex_matches(r, w1) && w1.len() > 0 {
        let i = choose|i: int| 1 <= i <= w1.len() && #[trigger] split_at(r, w1, i);
        assert(regex_matches(node, w1.take(i)) && regex_matches(r, w1.skip(i)));
    }
    if regex_matches(r, w1) && regex_matches(r, w2) {
        lemma_star_concat(node, w1, w2);
    }
}

/// Two ordinary characters written one after the other match exactly the word made of
/// the first followed by the second.
pub proof fn lemma_concat_chars(a: char, b: char, w: Seq<char>)
    requires
        a != '|' && a != '(' && a != ')' && a != '*' && a != '?' && a != '.' && a != '\\',
        b != '|' && b != '(' && b != ')' && b != '*' && b != '?' && b != '.' && b != '\\',
    ensures
        regex_parses(seq![a, b]),
        regex_matches(regex_tree(seq![a, b]), w) <==> w == seq![a, b],
{
    let cs = seq![a, b];
    let t = seq![a, '.', b];
    assert(escape_lone_paren(cs) == cs);
    assert(explicit_concat_from(cs, 2) == Seq::<char>::empty());
    assert(explicit_concat_from(cs, 1) =~= seq![b]);
    assert(explicit_concat_from(cs, 0) =~= t);
    assert(explicit_concat(cs) == t);
    let la = RegexAST::Literal(a);
    let lb = RegexAST::Literal(b);
    assert(sp_primary(t, 0) == Some((la, 1int)));
    assert(sp_star_loop(t, la, 1) == Some((la, 1int)));
    assert(sp_star(t, 0) == Some((la, 1int)));
    assert(sp_primary(t, 2) == Some((lb, 3int)));
    assert(sp_star_loop(t, lb, 3) == Some((lb, 3int)));
    assert(sp_star(t, 2) == Some((lb, 3int)));
    let c = RegexAST::Concat(Box::new(la), Box::new(lb));
    assert(sp_concat_loop(t, c, 3) == Some((c, 3int)));
    assert(sp_concat_loop(t, la, 1) == Some((c, 3int)));
    assert(sp_concat(t, 0) == Some((c, 3int)));
    assert(sp_union_loop(t, c, 3) == Some((c, 3int)));
    assert(sp_union(t, 0) == Some((c, 3int)));
    lemma_splits_from(c, w, 0);
    assert(regex_matches(c, w) == splits_from(c, w, 0));
    assert forall|i: int| 0 <= i <= w.len() implies #[trigger] split_at(c, w, i) == (w.take(i) == seq![a] && w.skip(i)
        == seq![b]) by {
        assert(regex_matches(la, w.take(i)) == (w.take(i) == seq![a]));
        assert(regex_matches(lb, w.skip(i)) == (w.skip(i) == seq![b]));
    }
    if w == cs {
        assert(w.take(1) =~= seq![a]);
        assert(w.skip(1) =~= seq![b]);
        assert(split_at(c, w, 1));
    }
    if regex_matches(c, w) {
        let i = choose|i: int| 0 <= i <= w.len() && #[trigger] split_at(c, w, i);
        assert(w.take(i) == seq![a]);
        assert(w.skip(i) == seq![b]);
        assert(w =~= w.take(i) + w.skip(i));
        assert(seq![a] + seq![b] =~= cs);
    }
    assert(regex_tree(cs) == c);
}

/// An escaped character matches exactly that character, whatever it is, operators and
/// parentheses included.
pub proof fn lemma_escaped_char(c: char, w: Seq<char>)
    ensures
        regex_parses(seq!['\\', c]),
        regex_matches(regex_tree(seq!['\\', c]), w) <==> w == seq![c],
{
    let cs = seq!['\\', c];
    assert(escape_lone_paren(cs) == cs);
    assert(operand_width(cs, 0) == 2);
    assert(cs.subrange(0, 2) =~= cs);
    assert(explicit_concat_from(cs, 2) == Seq::<char>::empty());
    assert(explicit_concat_from(cs, 0) =~= cs);
    assert(explicit_concat(cs) == cs);
    let l = RegexAST::Literal(c);
    assert(sp_primary(cs, 0) == Some((l, 2int)));
    assert(sp_star_loop(cs, l, 2) == Some((l, 2int)));
    assert(sp_star(cs, 0) == Some((l, 2int)));
    assert(sp_concat_loop(cs, l, 2) == Some((l, 2int)));
    assert(sp_concat(cs, 0) == Some((l, 2int)));
    assert(sp_union_loop(cs, l, 2) == Some((l, 2int)));
    assert(sp_union(cs, 0) == Some((l, 2int)));
}

/// Two ordinary characters separated by `|` match exactly either character.
pub proof fn lemma_union_chars(a: char, b: char, w: Seq<char>)
    requires
        a != '|' && a != '(' && a != ')' && a != '*' && a != '?' && a != '.' && a != '\\',
        b != '|' && b != '(' && b != ')' && b != '*' && b != '?' && b != '.' && b != '\\',
    ensures
        regex_parses(seq![a, '|', b]),
        regex_matches(regex_tree(seq![a, '|', b]), w) <==> (w == seq![a] || w == seq![b]),
{
    let cs = seq![a, '|', b];
    assert(escape_lone_paren(cs) == cs);
    assert(explicit_concat_from(cs, 3) == Seq::<char>::empty());
    assert(explicit_concat_from(cs, 2) =~= seq![b]);
    assert(explicit_concat_from(cs, 1) =~= seq!['|', b]);
    assert(explicit_concat_from(cs, 0) =~= cs);
    assert(explicit_concat(cs) == cs);
    let la = RegexAST::Literal(a);
    let lb = RegexAST::Literal(b);
    assert(sp_primary(cs, 0) == Some((la, 1int)));
    assert(sp_star_loop(cs, la, 1) == Some((la, 1int)));
    assert(sp_star(cs, 0) == Some((la, 1int)));
    assert(sp_concat_loop(cs, la, 1) == Some((la, 1int)));
    assert(sp_concat(cs, 0) == Some((la, 1int)));
    assert(sp_primary(cs, 2) == Some((lb, 3int)));
    assert(sp_star_loop(cs, lb, 3) == Some((lb, 3int)));
    assert(sp_star(cs, 2) == Some((lb, 3int)));
    assert(sp_concat_loop(cs, lb, 3) == Some((lb, 3int)));
    assert(sp_concat(cs, 2) == Some((lb, 3int)));
    let u = RegexAST::Union(Box::new(la), Box::new(lb));
    assert(sp_union_loop(cs, u, 3) == Some((u, 3int)));
    assert(sp_union_loop(cs, la, 1) == Some((u, 3int)));
    assert(sp_union(cs, 0) == Some((u, 3int)));
    assert(regex_matches(la, w) == (w == seq![a]));
    assert(regex_matches(lb, w) == (w == seq![b]));
    assert(regex_matches(u, w) == (regex_matches(la, w) || regex_matches(lb, w)));
}

/// Recursive-descent parser of regular expressions over explicit-concatenation tokens.
pub struct RegexParser {
    tokens: Vec<char>,
    pos: usize,
}

impl RegexParser {
    #[verifier::type_invariant]
    spec fn inv(&self) -> bool {
        self.pos <= self.tokens@.len()
    }

    /// The token sequence.
    pub closed spec fn tokens(&self) -> Seq<char> {
        self.tokens@
    }

    /// The current position.
    pub closed spec fn position(&self) -> usize {
        self.pos
    }

    /// A parser positioned at the start of `regex` after the explicit-concatenation pass.
    pub fn new(regex: &str) -> (res: Self)
        ensures
            res.tokens() == explicit_concat(regex@),
            res.position() == 0,
    {
        let preprocessed = insert_explicit_concat(regex);
        RegexParser { tokens: chars_of(preprocessed.as_str()), pos: 0 }
    }

    /// Parses the whole token sequence from the current position.
    pub fn parse(&mut self) -> (res: RegexAST)
        requires
            sp_union(old(self).tokens(), old(self).position() as int) is Some,
        ensures
            sp_union(old(self).tokens(), old(self).position() as int) == Some(
                (res, final(self).position() as int),
            ),
            final(self).tokens() == old(self).tokens(),
    {
        proof {
            use_type_invariant(&*self);
        }
        let r = self.parse_union();
        r.unwrap()
    }

    /// Whether every token has been read.
    pub fn at_end(&self) -> (res: bool)
        ensures
            res == (self.position() == self.tokens().len()),
    {
        self.pos == self.tokens.len()
    }

    /// Parses from the current position, or `None` when a `(` is not closed.
    pub fn try_parse(&mut self) -> (res: Option<RegexAST>)
        ensures
            res is Some <==> sp_union(old(self).tokens(), old(self).position() as int) is Some,
            res matches Some(tree) ==> sp_union(old(self).tokens(), old(self).position() as int)
                == Some((tree, final(self).position() as int)),
            final(self).tokens() == old(self).tokens(),
    {
        proof {
            use_type_invariant(&*self);
        }
        self.parse_union()
    }

    fn parse_union(&mut self) -> (res: Option<RegexAST>)
        requires
            old(self).pos <= old(self).tokens@.len(),
        ensures
            final(self).tokens@ == old(self).tokens@,
            final(self).pos <= final(self).tokens@.len(),
            final(self).pos >= old(self).pos,
            match sp_union(old(self).tokens@, old(self).pos as int) {
                None => res is None,
                Some((tree, q)) => res == Some(tree) && final(self).pos == q,
            },
        decreases old(self).tokens@.len() - old(self).pos, 6int,
    {
        let ghost t = self.tokens@;
        let ghost p0 = self.pos as int;
        let left = match self.parse_concat() {
            Some(l) => l,
            None => return None,
        };
        let mut left = left;
        loop
            invariant
                self.tokens@ == t,
                t == old(self).tokens@,
                p0 == old(self).pos,
                p0 <= self.pos <= t.len(),
                sp_union(t, p0) == sp_union_loop(t, left, self.pos as int),
            decreases t.len() - self.pos,
        {
            if !(self.pos < self.tokens.len() && self.tokens[self.pos] == '|') {
                return Some(left);
            }
            let ghost at = self.pos as int;
            self.pos = self.pos + 1;
            let right = match self.parse_concat() {
                Some(r) => r,
                None => return None,
            };
            left = RegexAST::Union(Box::new(left), Box::new(right));
            assert(self.pos > at);
        }
    }

    fn parse_concat(&mut self) -> (res: Option<RegexAST>)
        requires
            old(self).pos <= old(self).tokens@.len(),
        ensures
            final(self).tokens@ == old(self).tokens@,
            final(self).pos <= final(self).tokens@.len(),
            final(self).pos >= old(self).pos,
            match sp_concat(old(self).tokens@, old(self).pos as int) {
                None => res is None,
                Some((tree, q)) => res == Some(tree) && final(self).pos == q,
            },
        decreases old(self).tokens@.len() - old(self).pos, 4int,
    {
        let ghost t = self.tokens@;
        let ghost p0 = self.pos as int;
        let left = match self.parse_star() {
            Some(l) => l,
            None => return None,
        };
        let mut left = left;
        loop
            invariant
                self.tokens@ == t,
                t == old(self).tokens@,
                p0 == old(self).pos,
                p0 <= self.pos <= t.len(),
                sp_concat(t, p0) == sp_concat_loop(t, left, self.pos as int),
            decreases t.len() - self.pos,
        {
            if !(self.pos < self.tokens.len() && self.tokens[self.pos] == '.') {
                return Some(left);
            }
            let ghost at = self.pos as int;
            self.pos = self.pos + 1;
            let right = match self.parse_star() {
                Some(r) => r,
                None => return None,
            };
            left = RegexAST::Concat(Box::new(left), Box::new(right));
            assert(self.pos > at);
        }
    }

    fn parse_star(&mut self) -> (res: Option<RegexAST>)
        requires
            old(self).pos <= old(self).tokens@.len(),
        ensures
            final(self).tokens@ == old(self).tokens@,
            final(self).pos <= final(self).tokens@.len(),
            final(self).pos >= old(self).pos,
            match sp_star(old(self).tokens@, old(self).pos as int) {
                None => res is None,
                Some((tree, q)) => res == Some(tree) && final(self).pos == q,
            },
        decreases old(self).tokens@.len() - old(self).pos, 2int,
    {
        let ghost t = self.tokens@;
        let ghost p0 = self.pos as int;
        let node = match self.parse_primary() {
            Some(n) => n,
            None => return None,
        };
        let mut node = node;
        loop
            invariant
                self.tokens@ == t,
                t == old(self).tokens@,
                p0 == old(self).pos,
                p0 <= self.pos <= t.len(),
                sp_star(t, p0) == sp_star_loop(t, node, self.pos as int),
            decreases t.len() - self.pos,
        {
            if self.pos < self.tokens.len() && self.tokens[self.pos] == '*' {
                self.pos = self.pos + 1;
                node = RegexAST::Star(Box::new(node));
            } else if self.pos < self.tokens.len() && self.tokens[self.pos] == '?' {
                self.pos = self.pos + 1;
                node = RegexAST::Union(Box::new(node), Box::new(RegexAST::Epsilon));
            } else {
                return Some(node);
            }
        }
    }

    fn parse_primary(&mut self) -> (res: Option<RegexAST>)
        requires
            old(self).pos <= old(self).tokens@.len(),
        ensures
            final(self).tokens@ == old(self).tokens@,
            final(self).pos <= final(self).tokens@.len(),
            final(self).pos >= old(self).pos,
            match sp_primary(old(self).tokens@, old(self).pos as int) {
                None => res is None,
                Some((tree, q)) => res == Some(tree) && final(self).pos == q,
            },
        decreases old(self).tokens@.len() - old(self).pos, 0int,
    {
        if self.pos < self.tokens.len() {
            let c = self.tokens[self.pos];
            if c == '\\' && self.pos + 1 < self.tokens.len() {
                self.pos = self.pos + 1;
                let escaped_char = self.tokens[self.pos];
                self.pos = self.pos + 1;
                return Some(RegexAST::Literal(escaped_char));
            }
            if c == '(' {
                self.pos = self.pos + 1;
                let node = match self.parse_union() {
                    Some(n) => n,
                    None => return None,
                };
                if self.pos < self.tokens.len() && self.tokens[self.pos] == ')' {
                    self.pos = self.pos + 1;
                    return Some(node);
                } else {
                    return None;
                }
            }
            if c != '|' && c != '*' && c != '.' && c != ')' && c != '\\' {
                self.pos = self.pos + 1;
                return Some(RegexAST::Literal(c));
            }
        }
        Some(RegexAST::Epsilon)
    }
}

} // verus!
