//! Lexicographic strict orders on sequences, the order that group keys and
//! their string payloads are ranked by.

use vstd::prelude::*;

verus! {

/// `lt` is a strict total order on `A`: irreflexive, transitive and total.
pub open spec fn strict_total<A>(lt: spec_fn(A, A) -> bool) -> bool {
    &&& forall|a: A| !#[trigger] lt(a, a)
    &&& forall|a: A, b: A, c: A| #[trigger] lt(a, b) && #[trigger] lt(b, c) ==> lt(a, c)
    &&& forall|a: A, b: A| a != b ==> #[trigger] lt(a, b) || #[trigger] lt(b, a)
}

/// Lexicographic extension of `lt` to sequences: the first differing element
/// decides, and a proper prefix comes first.
pub open spec fn lex_lt<A>(a: Seq<A>, b: Seq<A>, lt: spec_fn(A, A) -> bool) -> bool
    decreases a.len(),
{
    if a.len() == 0 {
        b.len() > 0
    } else if b.len() == 0 {
        false
    } else if a[0] == b[0] {
        lex_lt(a.drop_first(), b.drop_first(), lt)
    } else {
        lt(a[0], b[0])
    }
}

/// `lex_lt` is irreflexive.
pub proof fn lemma_lex_irreflexive<A>(a: Seq<A>, lt: spec_fn(A, A) -> bool)
    ensures
        !lex_lt(a, a, lt),
    decreases a.len(),
{
    if a.len() > 0 {
        lemma_lex_irreflexive(a.drop_first(), lt);
    }
}

/// `lex_lt` is transitive when `lt` is a strict total order.
pub proof fn lemma_lex_transitive<A>(a: Seq<A>, b: Seq<A>, c: Seq<A>, lt: spec_fn(A, A) -> bool)
    requires
        strict_total(lt),
        lex_lt(a, b, lt),
        lex_lt(b, c, lt),
    ensures
        lex_lt(a, c, lt),
    decreases a.len(),
{
    if a.len() > 0 && b.len() > 0 && c.len() > 0 {
        if a[0] == b[0] && b[0] == c[0] {
            lemma_lex_transitive(a.drop_first(), b.drop_first(), c.drop_first(), lt);
        } else if a[0] == c[0] {
            // a[0] < b[0] < c[0] = a[0] or similar leads to a contradiction
            assert(lt(a[0], a[0]));
        }
    }
}

/// `lex_lt` is total on distinct sequences when `lt` is a strict total order.
pub proof fn lemma_lex_total<A>(a: Seq<A>, b: Seq<A>, lt: spec_fn(A, A) -> bool)
    requires
        strict_total(lt),
        a != b,
    ensures
        lex_lt(a, b, lt) || lex_lt(b, a, lt),
    decreases a.len(),
{
    if a.len() > 0 && b.len() > 0 && a[0] == b[0] {
        if a.drop_first() == b.drop_first() {
            assert(a =~= seq![a[0]] + a.drop_first());
            assert(b =~= seq![b[0]] + b.drop_first());
        }
        lemma_lex_total(a.drop_first(), b.drop_first(), lt);
    } else if a.len() == 0 && b.len() == 0 {
        assert(a =~= b);
    }
}

/// The lexicographic extension of a strict total order is a strict total order.
pub proof fn lemma_lex_strict_total<A>(lt: spec_fn(A, A) -> bool)
    requires
        strict_total(lt),
    ensures
        strict_total(|a: Seq<A>, b: Seq<A>| lex_lt(a, b, lt)),
{
    let l = |a: Seq<A>, b: Seq<A>| lex_lt(a, b, lt);
    assert forall|a: Seq<A>| !#[trigger] l(a, a) by {
        lemma_lex_irreflexive(a, lt);
    }
    assert forall|a: Seq<A>, b: Seq<A>, c: Seq<A>| #[trigger] l(a, b) && #[trigger] l(b, c) implies l(a, c) by {
        lemma_lex_transitive(a, b, c, lt);
    }
    assert forall|a: Seq<A>, b: Seq<A>| a != b implies #[trigger] l(a, b) || #[trigger] l(b, a) by {
        lemma_lex_total(a, b, lt);
    }
}

/// Code-point order on characters.
pub open spec fn char_lt(a: char, b: char) -> bool {
    (a as int) < (b as int)
}

/// Code-point order on characters, as a relation.
pub open spec fn char_order() -> spec_fn(char, char) -> bool {
    |a: char, b: char| char_lt(a, b)
}

/// Code-point order on characters is a strict total order.
pub proof fn lemma_char_lt_strict_total()
    ensures
        strict_total(char_order()),
{
    let l = char_order();
    assert forall|a: char, b: char| a != b implies #[trigger] l(a, b) || #[trigger] l(b, a) by {
        assert((a as int) != (b as int));
    }
}

/// Lexicographic code-point order on strings (the order of Rust's `str`).
pub open spec fn str_lt(a: Seq<char>, b: Seq<char>) -> bool {
    lex_lt(a, b, char_order())
}

/// Lexicographic code-point order on strings is a strict total order.
pub proof fn lemma_str_lt_facts(a: Seq<char>, b: Seq<char>, c: Seq<char>)
    ensures
        !str_lt(a, a),
        str_lt(a, b) && str_lt(b, c) ==> str_lt(a, c),
        a != b ==> str_lt(a, b) || str_lt(b, a),
{
    lemma_char_lt_strict_total();
    lemma_lex_irreflexive(a, char_order());
    if str_lt(a, b) && str_lt(b, c) {
        lemma_lex_transitive(a, b, c, char_order());
    }
    if a != b {
        lemma_lex_total(a, b, char_order());
    }
}

/// Whether string `a` sorts strictly before string `b`.
pub fn string_less(a: &String, b: &String) -> (r: bool)
    ensures
        r == str_lt(a@, b@),
{
    let sa = a.as_str();
    let sb = b.as_str();
    let la = sa.unicode_len();
    let lb = sb.unicode_len();
    let ghost lt = char_order();
    let mut i: usize = 0;
    assert(a@.skip(0) =~= a@);
    assert(b@.skip(0) =~= b@);
    while i < la && i < lb
        invariant
            la == a@.len(),
            lb == b@.len(),
            sa@ == a@,
            sb@ == b@,
            i <= la,
            i <= lb,
            lt == char_order(),
            str_lt(a@, b@) == lex_lt(a@.skip(i as int), b@.skip(i as int), lt),
        decreases la - i,
    {
        let ca = sa.get_char(i);
        let cb = sb.get_char(i);
        assert(a@.skip(i as int)[0] == ca);
        assert(b@.skip(i as int)[0] == cb);
        if (ca as u32) != (cb as u32) {
            return (ca as u32) < (cb as u32);
        }
        assert(a@.skip(i as int).drop_first() =~= a@.skip(i + 1));
        assert(b@.skip(i as int).drop_first() =~= b@.skip(i + 1));
        i = i + 1;
    }
    i == la && i < lb
}

} // verus!
