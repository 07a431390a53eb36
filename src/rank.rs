//! Ordering the collected statistics by check name, stably.
use vstd::prelude::*;
use vstd::utf8::encode_utf8;
use crate::uptime::UptimeStat;

verus! {

broadcast use vstd::seq_lib::group_to_multiset_ensures;

/// Lexicographic order on byte strings, the order of `str`'s comparison.
pub open spec fn bytes_le(a: Seq<u8>, b: Seq<u8>) -> bool
    decreases a.len(),
{
    if a.len() == 0 {
        true
    } else if b.len() == 0 {
        false
    } else if a[0] != b[0] {
        a[0] < b[0]
    } else {
        bytes_le(a.drop_first(), b.drop_first())
    }
}

/// A statistic's check name, as the bytes it is compared by.
pub open spec fn name_key(s: UptimeStat) -> Seq<u8> {
    encode_utf8(s.name@)
}

pub open spec fn name_le(x: UptimeStat, y: UptimeStat) -> bool {
    bytes_le(name_key(x), name_key(y))
}

/// Names never decrease along the sequence.
pub open spec fn sorted_by_name(s: Seq<UptimeStat>) -> bool {
    forall|i: int, j: int| 0 <= i < j < s.len() ==> name_le(#[trigger] s[i], #[trigger] s[j])
}

/// How many of `s` have a name that does not exceed that of `x`.
pub open spec fn count_le(s: Seq<UptimeStat>, x: UptimeStat) -> nat
    decreases s.len(),
{
    if s.len() == 0 {
        0
    } else {
        count_le(s.drop_last(), x) + if name_le(s.last(), x) { 1nat } else { 0nat }
    }
}

/// `x` placed after every item of the sorted `s` whose name does not exceed its own.
pub open spec fn insert_by_name(s: Seq<UptimeStat>, x: UptimeStat) -> Seq<UptimeStat> {
    s.insert(count_le(s, x) as int, x)
}

/// The stable sort by name: each item in turn goes after all those already
/// placed whose name does not exceed its own.
pub open spec fn ranked(s: Seq<UptimeStat>) -> Seq<UptimeStat>
    decreases s.len(),
{
    if s.len() == 0 {
        s
    } else {
        insert_by_name(ranked(s.drop_last()), s.last())
    }
}

proof fn lemma_bytes_le_refl(a: Seq<u8>)
    ensures
        bytes_le(a, a),
    decreases a.len(),
{
    if a.len() > 0 {
        lemma_bytes_le_refl(a.drop_first());
    }
}

proof fn lemma_bytes_le_total(a: Seq<u8>, b: Seq<u8>)
    ensures
        bytes_le(a, b) || bytes_le(b, a),
    decreases a.len(),
{
    if a.len() > 0 && b.len() > 0 && a[0] == b[0] {
        lemma_bytes_le_total(a.drop_first(), b.drop_first());
    }
}

proof fn lemma_bytes_le_trans(a: Seq<u8>, b: Seq<u8>, c: Seq<u8>)
    requires
        bytes_le(a, b),
        bytes_le(b, c),
    ensures
        bytes_le(a, c),
    decreases a.len(),
{
    if a.len() > 0 && b.len() > 0 && c.len() > 0 && a[0] == b[0] && b[0] == c[0] {
        lemma_bytes_le_trans(a.drop_first(), b.drop_first(), c.drop_first());
    }
}

/// In a sorted sequence the items whose name does not exceed that of `x`
/// form a prefix, of length `count_le(s, x)`.
proof fn lemma_count_le_splits(s: Seq<UptimeStat>, x: UptimeStat)
    requires
        sorted_by_name(s),
    ensures
        count_le(s, x) <= s.len(),
        forall|k: int| 0 <= k < count_le(s, x) ==> name_le(#[trigger] s[k], x),
        forall|k: int| count_le(s, x) <= k < s.len() ==> !name_le(#[trigger] s[k], x),
    decreases s.len(),
{
    if s.len() > 0 {
        let t = s.drop_last();
        assert(sorted_by_name(t)) by {
            assert forall|i: int, j: int| 0 <= i < j < t.len() implies name_le(#[trigger] t[i], #[trigger] t[j]) by {
                assert(name_le(s[i], s[j]));
            }
        }
        lemma_count_le_splits(t, x);
        let last = s.last();
        let c = count_le(t, x) as int;
        assert forall|k: int| 0 <= k < t.len() implies #[trigger] s[k] == t[k] by {}
        if name_le(last, x) {
            assert forall|k: int| 0 <= k < t.len() implies name_le(#[trigger] t[k], x) by {
                assert(name_le(s[k], s[s.len() - 1]));
                lemma_bytes_le_trans(name_key(t[k]), name_key(last), name_key(x));
            }
            assert(c == t.len()) by {
                if c < t.len() {
                    assert(!name_le(t[c], x));
                }
            }
            assert forall|k: int| 0 <= k < count_le(s, x) implies name_le(#[trigger] s[k], x) by {
                if k < t.len() {
                    assert(name_le(t[k], x));
                }
            }
        } else {
            assert forall|k: int| 0 <= k < count_le(s, x) implies name_le(#[trigger] s[k], x) by {
                assert(name_le(t[k], x));
            }
            assert forall|k: int| count_le(s, x) <= k < s.len() implies !name_le(#[trigger] s[k], x) by {
                if k < t.len() {
                    assert(!name_le(t[k], x));
                }
            }
        }
    }
}

/// Placing `x` by `insert_by_name` keeps a sorted sequence sorted.
proof fn lemma_insert_sorted(s: Seq<UptimeStat>, x: UptimeStat)
    requires
        sorted_by_name(s),
    ensures
        sorted_by_name(insert_by_name(s, x)),
{
    lemma_count_le_splits(s, x);
    let p = count_le(s, x) as int;
    let r = insert_by_name(s, x);
    assert forall|i: int, j: int| 0 <= i < j < r.len() implies name_le(#[trigger] r[i], #[trigger] r[j]) by {
        if i < p && j < p {
            assert(name_le(s[i], s[j]));
        } else if i < p && j == p {
        } else if i < p {
            assert(name_le(s[i], s[j - 1]));
        } else if i == p {
            lemma_bytes_le_total(name_key(s[j - 1]), name_key(x));
        } else {
            assert(name_le(s[i - 1], s[j - 1]));
        }
    }
}

/// The ranked sequence is sorted by name.
pub proof fn lemma_ranked_sorted(s: Seq<UptimeStat>)
    ensures
        sorted_by_name(ranked(s)),
    decreases s.len(),
{
    if s.len() > 0 {
        lemma_ranked_sorted(s.drop_last());
        lemma_insert_sorted(ranked(s.drop_last()), s.last());
    }
}

/// Ranking keeps every item, as many times as it occurs.
pub proof fn lemma_ranked_permutes(s: Seq<UptimeStat>)
    ensures
        ranked(s).to_multiset() == s.to_multiset(),
        ranked(s).len() == s.len(),
    decreases s.len(),
{
    if s.len() > 0 {
        let t = s.drop_last();
        lemma_ranked_permutes(t);
        lemma_ranked_sorted(t);
        lemma_count_le_splits(ranked(t), s.last());
        vstd::seq_lib::to_multiset_insert(ranked(t), count_le(ranked(t), s.last()) as int, s.last());
        assert(t.push(s.last()) =~= s);
    }
}

/// A sequence that is already sorted by name ranks to itself.
pub proof fn lemma_sorted_is_fixed(s: Seq<UptimeStat>)
    requires
        sorted_by_name(s),
    ensures
        ranked(s) == s,
    decreases s.len(),
{
    if s.len() > 0 {
        let t = s.drop_last();
        assert(sorted_by_name(t)) by {
            assert forall|i: int, j: int| 0 <= i < j < t.len() implies name_le(#[trigger] t[i], #[trigger] t[j]) by {
                assert(name_le(s[i], s[j]));
            }
        }
        lemma_sorted_is_fixed(t);
        lemma_count_le_splits(t, s.last());
        assert(count_le(t, s.last()) == t.len()) by {
            if count_le(t, s.last()) < t.len() {
                let k = count_le(t, s.last()) as int;
                assert(name_le(s[k], s[s.len() - 1]));
            }
        }
        assert(t.insert(t.len() as int, s.last()) =~= s);
    }
}

/// The items of `s` that carry the name bytes `k`, in their order.
pub open spec fn with_name(s: Seq<UptimeStat>, k: Seq<u8>) -> Seq<UptimeStat> {
    s.filter(|e: UptimeStat| name_key(e) == k)
}

/// Ranking is stable: items with the same name come out in the order they
/// went in.
pub proof fn lemma_ranked_stable(s: Seq<UptimeStat>, k: Seq<u8>)
    ensures
        with_name(ranked(s), k) == with_name(s, k),
    decreases s.len(),
{
    let f = |e: UptimeStat| name_key(e) == k;
    if s.len() > 0 {
        let t = s.drop_last();
        let x = s.last();
        let r = ranked(t);
        lemma_ranked_stable(t, k);
        lemma_ranked_sorted(t);
        lemma_count_le_splits(r, x);
        let p = count_le(r, x) as int;
        let head = r.take(p);
        let tail = r.skip(p);
        assert(r.insert(p, x) =~= head + seq![x] + tail);
        assert(r =~= head + tail);
        Seq::filter_distributes_over_add(head, tail, f);
        Seq::filter_distributes_over_add(head + seq![x], tail, f);
        Seq::filter_distributes_over_add(head, seq![x], f);
        assert(t.push(x) =~= s);
        t.lemma_filter_push(x, f);
        Seq::<UptimeStat>::empty().lemma_filter_push(x, f);
        assert(seq![x] =~= Seq::<UptimeStat>::empty().push(x));
        assert(Seq::<UptimeStat>::empty().filter(f) =~= Seq::<UptimeStat>::empty()) by {
            Seq::<UptimeStat>::empty().lemma_all_neg_filter_empty(f);
        }
        if f(x) {
            assert(tail.filter(f) =~= Seq::<UptimeStat>::empty()) by {
                assert forall|i: int| 0 <= i < tail.len() implies !f(#[trigger] tail[i]) by {
                    assert(!name_le(r[p + i], x));
                    lemma_bytes_le_refl(name_key(x));
                }
                tail.lemma_all_neg_filter_empty(f);
            }
            assert(with_name(ranked(s), k) =~= with_name(s, k));
        } else {
            assert(with_name(ranked(s), k) =~= with_name(s, k));
        }
    }
}

/// Ranking twice gives what ranking once gave.
pub proof fn lemma_rank_idempotent(s: Seq<UptimeStat>)
    ensures
        ranked(ranked(s)) == ranked(s),
{
    lemma_ranked_sorted(s);
    lemma_sorted_is_fixed(ranked(s));
}

/// Whether the name of `x` does not exceed that of `y`, byte by byte.
pub fn name_le_exec(x: &UptimeStat, y: &UptimeStat) -> (r: bool)
    ensures
        r == name_le(*x, *y),
{
    let a = x.name.as_str().as_bytes();
    let b = y.name.as_str().as_bytes();
    let mut i: usize = 0;
    assert(a@.skip(0) =~= a@);
    assert(b@.skip(0) =~= b@);
    while i < a.len() && i < b.len()
        invariant
            i <= a@.len(),
            i <= b@.len(),
            a@ == name_key(*x),
            b@ == name_key(*y),
            name_le(*x, *y) == bytes_le(a@.skip(i as int), b@.skip(i as int)),
        decreases a@.len() - i,
    {
        if a[i] != b[i] {
            return a[i] < b[i];
        }
        assert(a@.skip(i as int).drop_first() =~= a@.skip(i + 1));
        assert(b@.skip(i as int).drop_first() =~= b@.skip(i + 1));
        i = i + 1;
    }
    i == a.len()
}

/// The statistics sorted by check name ascending; items with equal names keep
/// their relative order.
pub fn rank(stats: Vec<UptimeStat>) -> (r: Vec<UptimeStat>)
    ensures
        r@ == ranked(stats@),
        sorted_by_name(r@),
        r@.to_multiset() == stats@.to_multiset(),
{
    let ghost s = stats@;
    let mut rest = stats;
    let mut out: Vec<UptimeStat> = Vec::new();
    let ghost i: int = 0;
    assert(s.take(0) =~= Seq::<UptimeStat>::empty());
    while rest.len() > 0
        invariant
            0 <= i <= s.len(),
            rest@ == s.skip(i),
            out@ == ranked(s.take(i)),
            sorted_by_name(out@),
        decreases rest@.len(),
    {
        let x = rest.remove(0);
        proof {
            lemma_count_le_splits(out@, x);
            lemma_insert_sorted(out@, x);
            assert(s.take(i + 1).drop_last() =~= s.take(i));
            assert(rest@ =~= s.skip(i + 1));
        }
        let mut j: usize = 0;
        while j < out.len() && name_le_exec(&out[j], &x)
            invariant
                j <= out@.len(),
                forall|k: int| 0 <= k < j ==> name_le(#[trigger] out@[k], x),
                sorted_by_name(out@),
                count_le(out@, x) <= out@.len(),
                forall|k: int| 0 <= k < count_le(out@, x) ==> name_le(#[trigger] out@[k], x),
                forall|k: int| count_le(out@, x) <= k < out@.len() ==> !name_le(#[trigger] out@[k], x),
            decreases out@.len() - j,
        {
            j = j + 1;
        }
        proof {
            let c = count_le(out@, x) as int;
            if j < c {
                assert(name_le(out@[j as int], x));
            }
            if j > c {
                assert(name_le(out@[c], x));
            }
        }
        out.insert(j, x);
        proof {
            i = i + 1;
        }
    }
    assert(s.take(s.len() as int) =~= s);
    proof {
        lemma_ranked_permutes(s);
    }
    out
}

} // verus!
