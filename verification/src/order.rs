//! Lexicographic ordering of strings by code point, with the lemmas the
//! sorted-candidate invariants rest on, and executable comparisons proved
//! against the spec-level order.
use vstd::multiset::Multiset;
use vstd::prelude::*;

verus! {

/// `a` is lexicographically at most `b`, comparing characters by code point.
pub open spec fn lex_le(a: Seq<char>, b: Seq<char>) -> bool
    decreases a.len(),
{
    if a.len() == 0 {
        true
    } else if b.len() == 0 {
        false
    } else if a[0] == b[0] {
        lex_le(a.skip(1), b.skip(1))
    } else {
        (a[0] as int) < (b[0] as int)
    }
}

/// Strict lexicographic order.
pub open spec fn lex_lt(a: Seq<char>, b: Seq<char>) -> bool {
    lex_le(a, b) && a != b
}

/// The views of a sequence of strings.
pub open spec fn str_views(s: Seq<String>) -> Seq<Seq<char>> {
    s.map_values(|x: String| x@)
}

/// A sequence of strings in strictly increasing order (hence duplicate-free).
pub open spec fn strictly_sorted(s: Seq<Seq<char>>) -> bool {
    forall|i: int, j: int| 0 <= i < j < s.len() ==> lex_lt(s[i], s[j])
}

pub proof fn lemma_lex_le_refl(a: Seq<char>)
    ensures
        lex_le(a, a),
    decreases a.len(),
{
    if a.len() > 0 {
        lemma_lex_le_refl(a.skip(1));
    }
}

/// The order is total: any two strings are comparable.
pub proof fn lemma_lex_le_total(a: Seq<char>, b: Seq<char>)
    ensures
        lex_le(a, b) || lex_le(b, a),
    decreases a.len(),
{
    if a.len() == 0 {
        assert(lex_le(a, b));
    } else if b.len() == 0 {
        assert(lex_le(b, a));
    } else if a[0] == b[0] {
        lemma_lex_le_total(a.skip(1), b.skip(1));
    }
}

/// Mutual `lex_le` only holds between equal strings.
pub proof fn lemma_lex_le_antisymmetric(a: Seq<char>, b: Seq<char>)
    requires
        lex_le(a, b),
        lex_le(b, a),
    ensures
        a == b,
    decreases a.len(),
{
    if a.len() == 0 {
        assert(b.len() == 0);
        assert(a =~= b);
    } else {
        assert(b.len() > 0);
        if a[0] == b[0] {
            lemma_lex_le_antisymmetric(a.skip(1), b.skip(1));
            assert(a.skip(1).len() == b.skip(1).len());
            assert forall|i: int| 0 <= i < a.len() implies a[i] == b[i] by {
                if i >= 1 {
                    assert(a[i] == a.skip(1)[i - 1]);
                    assert(b[i] == b.skip(1)[i - 1]);
                }
            }
            assert(a =~= b);
        }
    }
}

pub proof fn lemma_lex_le_transitive(a: Seq<char>, b: Seq<char>, c: Seq<char>)
    requires
        lex_le(a, b),
        lex_le(b, c),
    ensures
        lex_le(a, c),
    decreases a.len(),
{
    if a.len() > 0 && b.len() > 0 && c.len() > 0 {
        if a[0] == b[0] && b[0] == c[0] {
            lemma_lex_le_transitive(a.skip(1), b.skip(1), c.skip(1));
        }
    }
}

/// A string that is not at most another is strictly above it.
pub proof fn lemma_lex_not_le(a: Seq<char>, b: Seq<char>)
    requires
        !lex_le(a, b),
    ensures
        lex_lt(b, a),
{
    lemma_lex_le_total(a, b);
    if a == b {
        lemma_lex_le_refl(a);
    }
}

pub proof fn lemma_lex_lt_transitive(a: Seq<char>, b: Seq<char>, c: Seq<char>)
    requires
        lex_lt(a, b),
        lex_lt(b, c),
    ensures
        lex_lt(a, c),
{
    lemma_lex_le_transitive(a, b, c);
    if a == c {
        lemma_lex_le_antisymmetric(a, b);
    }
}

/// Mapping a function over a sequence commutes with inserting an element.
pub proof fn lemma_map_values_insert<A, B>(s: Seq<A>, j: int, x: A, f: spec_fn(A) -> B)
    requires
        0 <= j <= s.len(),
    ensures
        s.insert(j, x).map_values(f) =~= s.map_values(f).insert(j, f(x)),
{
    s.insert_ensures(j, x);
    s.map_values(f).insert_ensures(j, f(x));
}

/// What an insertion adds to a sequence's membership.
pub proof fn lemma_insert_contains<A>(s: Seq<A>, j: int, x: A)
    requires
        0 <= j <= s.len(),
    ensures
        forall|d: A| s.insert(j, x).contains(d) <==> (s.contains(d) || d == x),
{
    s.insert_ensures(j, x);
    let t = s.insert(j, x);
    assert forall|d: A| t.contains(d) implies (s.contains(d) || d == x) by {
        let k = choose|k: int| 0 <= k < t.len() && t[k] == d;
        if k < j {
            assert(s[k] == d);
        } else if k > j {
            assert(s[k - 1] == d);
        }
    }
    assert forall|d: A| s.contains(d) implies t.contains(d) by {
        let k = choose|k: int| 0 <= k < s.len() && s[k] == d;
        if k < j {
            assert(t[k] == d);
        } else {
            assert(t[k + 1] == d);
        }
    }
    assert(t[j] == x);
}

/// What an insertion adds to a sequence's multiset of elements.
pub proof fn lemma_insert_to_multiset<A>(s: Seq<A>, j: int, x: A)
    requires
        0 <= j <= s.len(),
    ensures
        s.insert(j, x).to_multiset() =~= s.to_multiset().insert(x),
{
    broadcast use vstd::seq_lib::group_seq_properties;
    broadcast use vstd::multiset::group_multiset_axioms;

    let left = s.subrange(0, j);
    let right = s.subrange(j, s.len() as int);
    assert(s.insert(j, x) == left.push(x) + right);
    vstd::seq_lib::lemma_multiset_commutative(left.push(x), right);
    left.to_multiset_ensures();
    assert(left.push(x).to_multiset() =~= left.to_multiset().insert(x));
    assert(s =~= left + right);
    vstd::seq_lib::lemma_multiset_commutative(left, right);
}

/// What a push adds to a sequence's membership.
pub proof fn lemma_push_contains<A>(s: Seq<A>, x: A)
    ensures
        forall|d: A| s.push(x).contains(d) <==> (s.contains(d) || d == x),
{
    assert forall|d: A| s.push(x).contains(d) implies (s.contains(d) || d == x) by {
        let k = choose|k: int| 0 <= k < s.push(x).len() && s.push(x)[k] == d;
        if k < s.len() {
            assert(s[k] == d);
        }
    }
    assert forall|d: A| s.contains(d) implies s.push(x).contains(d) by {
        let k = choose|k: int| 0 <= k < s.len() && s[k] == d;
        assert(s.push(x)[k] == d);
    }
    assert(s.push(x)[s.len() as int] == x);
}

/// The multiset of the empty sequence.
pub proof fn lemma_empty_to_multiset<A>()
    ensures
        Seq::<A>::empty().to_multiset() =~= Multiset::<A>::empty(),
{
    broadcast use vstd::multiset::group_multiset_axioms;

    Seq::<A>::empty().to_multiset_ensures();
}

/// The multiset of a one-element sequence.
pub proof fn lemma_singleton_to_multiset<A>(x: A)
    ensures
        seq![x].to_multiset() =~= Multiset::<A>::empty().insert(x),
{
    broadcast use vstd::multiset::group_multiset_axioms;

    lemma_empty_to_multiset::<A>();
    Seq::<A>::empty().to_multiset_ensures();
    assert(seq![x] =~= Seq::<A>::empty().push(x));
    assert(Seq::<A>::empty().push(x).to_multiset() =~= Seq::<A>::empty().to_multiset().insert(x));
}

/// Insert a string into a strictly sorted vector, keeping it strictly sorted;
/// a string already present is not inserted again.
pub fn insert_unique_sorted(v: &mut Vec<String>, x: String)
    requires
        strictly_sorted(str_views(old(v)@)),
    ensures
        strictly_sorted(str_views(final(v)@)),
        forall|d: Seq<char>|
            str_views(final(v)@).contains(d) <==> (str_views(old(v)@).contains(d) || d == x@),
{
    let ghost vs = str_views(v@);
    let mut j: usize = 0;
    let mut present = false;
    loop
        invariant_except_break
            !present,
        invariant
            strictly_sorted(vs),
            vs == str_views(v@),
            0 <= j <= v@.len(),
            forall|k: int| 0 <= k < j ==> lex_lt(vs[k], x@),
        ensures
            vs == str_views(v@),
            0 <= j <= v@.len(),
            forall|k: int| 0 <= k < j ==> lex_lt(vs[k], x@),
            present ==> vs.contains(x@),
            !present && j < vs.len() ==> lex_lt(x@, vs[j as int]),
        decreases v@.len() - j,
    {
        if j == v.len() {
            break;
        }
        if v[j].eq(&x) {
            assert(vs[j as int] == x@);
            assert(vs.contains(x@));
            present = true;
            break;
        }
        if !str_le(v[j].as_str(), x.as_str()) {
            proof {
                lemma_lex_not_le(vs[j as int], x@);
            }
            break;
        }
        j += 1;
    }
    if present {
        return;
    }
    v.insert(j, x);
    proof {
        lemma_map_values_insert(old(v)@, j as int, x, |s: String| s@);
        lemma_insert_contains(vs, j as int, x@);
        let nvs = str_views(v@);
        assert(nvs =~= vs.insert(j as int, x@));
        vs.insert_ensures(j as int, x@);
        assert forall|a: int, b: int| 0 <= a < b < nvs.len() implies lex_lt(nvs[a], nvs[b]) by {
            if b == j {
                assert(lex_lt(vs[a], x@));
            } else if a == j {
                if b > j + 1 {
                    lemma_lex_lt_transitive(x@, vs[j as int], vs[b - 1]);
                }
            } else if a < j && j < b {
                assert(lex_lt(vs[a], vs[b - 1]));
            }
        }
    }
}

/// Decides `lex_le` on the suffixes of `a` and `b` that start at character
/// position `i`.
fn le_from(a: &str, b: &str, i: usize) -> (r: bool)
    requires
        i <= a@.len(),
        i <= b@.len(),
    ensures
        r == lex_le(a@.skip(i as int), b@.skip(i as int)),
    decreases a@.len() - i,
{
    let an = a.unicode_len();
    let bn = b.unicode_len();
    if i == an {
        true
    } else if i == bn {
        false
    } else {
        let ca = a.get_char(i);
        let cb = b.get_char(i);
        if ca == cb {
            proof {
                assert(a@.skip(i as int).skip(1) =~= a@.skip(i + 1));
                assert(b@.skip(i as int).skip(1) =~= b@.skip(i + 1));
            }
            le_from(a, b, i + 1)
        } else {
            (ca as u32) < (cb as u32)
        }
    }
}

/// Decides the lexicographic order on whole strings.
pub fn str_le(a: &str, b: &str) -> (r: bool)
    ensures
        r == lex_le(a@, b@),
{
    proof {
        assert(a@.skip(0) =~= a@);
        assert(b@.skip(0) =~= b@);
    }
    le_from(a, b, 0)
}

/// Decides whether the view of `prefix` is a prefix of the view of `s`.
pub fn str_starts_with(s: &str, prefix: &str) -> (r: bool)
    ensures
        r == prefix@.is_prefix_of(s@),
{
    let pn = prefix.unicode_len();
    let sn = s.unicode_len();
    if pn > sn {
        return false;
    }
    let mut i: usize = 0;
    while i < pn
        invariant
            0 <= i <= pn,
            pn <= sn,
            pn == prefix@.len(),
            sn == s@.len(),
            forall|k: int| 0 <= k < i ==> prefix@[k] == s@[k],
        decreases pn - i,
    {
        if prefix.get_char(i) != s.get_char(i) {
            assert(!prefix@.is_prefix_of(s@)) by {
                assert(s@.subrange(0, pn as int)[i as int] == s@[i as int]);
            }
            return false;
        }
        i += 1;
    }
    assert(prefix@ =~= s@.subrange(0, pn as int));
    true
}

} // verus!
