//! Lexicographic order of strings by character, which is the order `String`
//! compares in (UTF-8 keeps the order of code points), and a stable sort by it.

use vstd::prelude::*;
use crate::text::chars_of;

verus! {

/// `a` sorts strictly before `b`: at the first position where they differ `a` has
/// the smaller character, or `a` is a proper prefix of `b`.
pub open spec fn lex_lt(a: Seq<char>, b: Seq<char>) -> bool
    decreases a.len(),
{
    if b.len() == 0 {
        false
    } else if a.len() == 0 {
        true
    } else if a[0] != b[0] {
        a[0] < b[0]
    } else {
        lex_lt(a.drop_first(), b.drop_first())
    }
}

/// No string sorts before itself.
pub proof fn lemma_lex_lt_irreflexive(a: Seq<char>)
    ensures
        !lex_lt(a, a),
    decreases a.len(),
{
    if a.len() > 0 {
        lemma_lex_lt_irreflexive(a.drop_first());
    }
}

/// The order is transitive.
pub proof fn lemma_lex_lt_transitive(a: Seq<char>, b: Seq<char>, c: Seq<char>)
    requires
        lex_lt(a, b),
        lex_lt(b, c),
    ensures
        lex_lt(a, c),
    decreases a.len(),
{
    if a.len() > 0 && a[0] == b[0] && b[0] == c[0] {
        lemma_lex_lt_transitive(a.drop_first(), b.drop_first(), c.drop_first());
    }
}

/// Of two different strings, one sorts before the other.
pub proof fn lemma_lex_lt_total(a: Seq<char>, b: Seq<char>)
    requires
        a != b,
    ensures
        lex_lt(a, b) || lex_lt(b, a),
    decreases a.len(),
{
    if a.len() > 0 && b.len() > 0 && a[0] == b[0] {
        if a.drop_first() == b.drop_first() {
            assert(a =~= seq![a[0]] + a.drop_first());
            assert(b =~= seq![b[0]] + b.drop_first());
        }
        lemma_lex_lt_total(a.drop_first(), b.drop_first());
    } else if a.len() > 0 && b.len() > 0 {
        assert(a[0] != b[0]);
    } else if a.len() == 0 && b.len() == 0 {
        assert(a =~= b);
    }
}

/// The order is ascending by character at the first difference: after a common
/// prefix `p`, a smaller character sorts first, whatever follows; and a proper
/// prefix sorts before any longer string that extends it.
pub proof fn law_lex_lt_first_difference(p: Seq<char>, c1: char, x: Seq<char>, c2: char, y: Seq<char>)
    requires
        c1 < c2,
    ensures
        lex_lt(p + seq![c1] + x, p + seq![c2] + y),
        !lex_lt(p + seq![c2] + y, p + seq![c1] + x),
        lex_lt(p, p + seq![c1] + x),
        !lex_lt(p + seq![c1] + x, p),
    decreases p.len(),
{
    if p.len() > 0 {
        law_lex_lt_first_difference(p.drop_first(), c1, x, c2, y);
        assert((p + seq![c1] + x).drop_first() =~= p.drop_first() + seq![c1] + x);
        assert((p + seq![c2] + y).drop_first() =~= p.drop_first() + seq![c2] + y);
        assert((p + seq![c1] + x)[0] == p[0]);
        assert((p + seq![c2] + y)[0] == p[0]);
    } else {
        assert(p + seq![c1] + x =~= seq![c1] + x);
        assert(p + seq![c2] + y =~= seq![c2] + y);
        assert((seq![c1] + x)[0] == c1);
        assert((seq![c2] + y)[0] == c2);
    }
}

/// Whether `a` sorts strictly before `b`.
pub fn lex_less(a: &str, b: &str) -> (r: bool)
    ensures
        r == lex_lt(a@, b@),
{
    let x = chars_of(a);
    let y = chars_of(b);
    let mut i: usize = 0;
    assert(a@.skip(0) =~= a@);
    assert(b@.skip(0) =~= b@);
    while i < x.len() && i < y.len()
        invariant
            x@ == a@,
            y@ == b@,
            i <= x.len(),
            i <= y.len(),
            lex_lt(a@, b@) == lex_lt(a@.skip(i as int), b@.skip(i as int)),
        decreases x.len() - i,
    {
        if x[i] != y[i] {
            return x[i] < y[i];
        }
        assert(a@.skip(i as int).drop_first() =~= a@.skip(i + 1));
        assert(b@.skip(i as int).drop_first() =~= b@.skip(i + 1));
        i = i + 1;
    }
    i < y.len()
}

/// `keys` is in order: no key sorts before an earlier one.
pub open spec fn sorted_by_lex(keys: Seq<Seq<char>>) -> bool {
    forall|i: int, j: int| 0 <= i < j < keys.len() ==> !lex_lt(keys[j], keys[i])
}

} // verus!
