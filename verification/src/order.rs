//! Orders, sortedness and the lemmas that stable insertion needs.
use vstd::prelude::*;
use vstd::multiset::Multiset;

verus! {

/// No element of `s` comes strictly before an earlier one under `lt`.
pub open spec fn sorted_by<T>(s: Seq<T>, lt: spec_fn(T, T) -> bool) -> bool {
    forall|i: int, j: int| 0 <= i < j < s.len() ==> !lt(#[trigger] s[j], #[trigger] s[i])
}

/// `lt` is transitive.
pub open spec fn transitive<T>(lt: spec_fn(T, T) -> bool) -> bool {
    forall|a: T, b: T, c: T| #[trigger] lt(a, b) && #[trigger] lt(b, c) ==> lt(a, c)
}

/// `lt` relates nothing to itself.
pub open spec fn irreflexive<T>(lt: spec_fn(T, T) -> bool) -> bool {
    forall|a: T| !#[trigger] lt(a, a)
}

/// Inserting `x` at `p` keeps `s` sorted where everything before `p` does not
/// come after `x` and `x` comes strictly before what stood at `p`.
pub proof fn lemma_insert_sorted<T>(s: Seq<T>, x: T, p: int, lt: spec_fn(T, T) -> bool)
    requires
        sorted_by(s, lt),
        transitive(lt),
        irreflexive(lt),
        0 <= p <= s.len(),
        forall|i: int| 0 <= i < p ==> !lt(x, #[trigger] s[i]),
        p < s.len() ==> lt(x, s[p]),
    ensures
        sorted_by(s.insert(p, x), lt),
        s.insert(p, x).to_multiset() =~= s.to_multiset().insert(x),
{
    let t = s.insert(p, x);
    assert forall|i: int, j: int| 0 <= i < j < t.len() implies !lt(#[trigger] t[j], #[trigger] t[i]) by {
        if j < p {
            assert(t[i] == s[i] && t[j] == s[j]);
        } else if i < p && j == p {
            assert(t[i] == s[i] && t[j] == x);
        } else if i < p && j > p {
            assert(t[i] == s[i] && t[j] == s[j - 1]);
        } else if i == p {
            assert(t[i] == x && t[j] == s[j - 1]);
            if lt(s[j - 1], x) {
                assert(lt(x, s[p]));
                assert(lt(s[j - 1], s[p]));
                if j - 1 > p {
                    assert(!lt(s[j - 1], s[p]));
                }
            }
        } else {
            assert(t[i] == s[i - 1] && t[j] == s[j - 1]);
        }
    }
    broadcast use vstd::seq_lib::group_to_multiset_ensures;
    assert(t.remove(p) =~= s);
    assert(t[p] == x);
    assert(t.to_multiset().remove(x) =~= s.to_multiset());
    assert(t.to_multiset().count(x) > 0) by {
        assert(t.contains(x));
    }
    assert forall|y: T| #[trigger] t.to_multiset().count(y) == s.to_multiset().insert(x).count(y) by {
        if y == x {
            assert(t.to_multiset().remove(x).count(x) == t.to_multiset().count(x) - 1);
        } else {
            assert(t.to_multiset().remove(x).count(y) == t.to_multiset().count(y));
        }
    }
}

/// `a` comes strictly before `b` in byte-wise lexicographic order (the order
/// of `str`).
pub open spec fn lex_lt(a: Seq<u8>, b: Seq<u8>) -> bool
    decreases a.len(),
{
    if a.len() == 0 {
        b.len() > 0
    } else if b.len() == 0 {
        false
    } else if a[0] != b[0] {
        a[0] < b[0]
    } else {
        lex_lt(a.drop_first(), b.drop_first())
    }
}

pub proof fn lemma_lex_lt_transitive(a: Seq<u8>, b: Seq<u8>, c: Seq<u8>)
    requires
        lex_lt(a, b),
        lex_lt(b, c),
    ensures
        lex_lt(a, c),
    decreases a.len(),
{
    if a.len() > 0 && b.len() > 0 && c.len() > 0 && a[0] == b[0] && b[0] == c[0] {
        lemma_lex_lt_transitive(a.drop_first(), b.drop_first(), c.drop_first());
    }
}

pub proof fn lemma_lex_lt_irreflexive(a: Seq<u8>)
    ensures
        !lex_lt(a, a),
    decreases a.len(),
{
    if a.len() > 0 {
        lemma_lex_lt_irreflexive(a.drop_first());
    }
}

/// Whether `a` comes strictly before `b` in byte-wise lexicographic order.
pub fn bytes_lt(a: &Vec<u8>, b: &Vec<u8>) -> (r: bool)
    ensures
        r == lex_lt(a@, b@),
{
    let mut i: usize = 0;
    assert(a@.skip(0) =~= a@);
    assert(b@.skip(0) =~= b@);
    while i < a.len() && i < b.len() && a[i] == b[i]
        invariant
            i <= a.len(),
            i <= b.len(),
            lex_lt(a@, b@) == lex_lt(a@.skip(i as int), b@.skip(i as int)),
        decreases a.len() - i,
    {
        assert(a@.skip(i as int).drop_first() =~= a@.skip(i + 1));
        assert(b@.skip(i as int).drop_first() =~= b@.skip(i + 1));
        i = i + 1;
    }
    if i == a.len() {
        i < b.len()
    } else if i == b.len() {
        false
    } else {
        a[i] < b[i]
    }
}


/// Every element of `out` is one of `kept[..i]`.
pub open spec fn drawn_from<T>(out: Seq<T>, kept: Seq<T>, i: int) -> bool {
    forall|m: int| 0 <= m < out.len() ==> exists|k: int| 0 <= k < i && kept[k] == #[trigger] out[m]
}

/// Every element of `kept[..i]` is in `out`.
pub open spec fn holds_all<T>(out: Seq<T>, kept: Seq<T>, i: int) -> bool {
    forall|k: int| 0 <= k < i ==> exists|m: int| 0 <= m < out.len() && #[trigger] out[m] == #[trigger] kept[k]
}

/// Inserting `x = kept[i]` into `before`, which holds exactly the elements of
/// `kept[..i]`, gives a sequence holding exactly those of `kept[..i + 1]`.
pub proof fn lemma_insert_members<T>(before: Seq<T>, x: T, p: int, kept: Seq<T>, i: int)
    requires
        0 <= p <= before.len(),
        0 <= i < kept.len(),
        kept[i] == x,
        drawn_from(before, kept, i),
        holds_all(before, kept, i),
    ensures
        drawn_from(before.insert(p, x), kept, i + 1),
        holds_all(before.insert(p, x), kept, i + 1),
{
    let out = before.insert(p, x);
    assert forall|m: int| 0 <= m < out.len() implies exists|k: int| 0 <= k < i + 1 && kept[k] == #[trigger] out[m] by {
        if m < p {
            assert(out[m] == before[m]);
        } else if m == p {
            assert(kept[i] == out[m]);
        } else {
            assert(out[m] == before[m - 1]);
        }
    }
    assert forall|k: int| 0 <= k < i + 1 implies exists|m: int| 0 <= m < out.len() && #[trigger] out[m] == #[trigger] kept[k] by {
        if k == i {
            assert(out[p] == kept[k]);
        } else {
            let m0 = choose|m0: int| 0 <= m0 < before.len() && before[m0] == kept[k];
            if m0 < p {
                assert(out[m0] == kept[k]);
            } else {
                assert(out[m0 + 1] == kept[k]);
            }
        }
    }
}

} // verus!
