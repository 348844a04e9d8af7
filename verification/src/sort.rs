//! Stable sorting, by a numeric key and by a string key.
//!
//! A stable sort is pinned down exactly by two facts: the result is ordered,
//! and for every key value the items with that key appear in the result in
//! the same order as in the input.
use vstd::prelude::*;

verus! {

// ---------------------------------------------------------------------------
// Orders
// ---------------------------------------------------------------------------

/// Strict lexicographic order of character sequences by code point, which is
/// the order `Ord for String` gives (UTF-8 preserves code point order).
pub open spec fn lex_lt(a: Seq<char>, b: Seq<char>) -> bool
    decreases a.len(),
{
    if b.len() == 0 {
        false
    } else if a.len() == 0 {
        true
    } else if a[0] != b[0] {
        a[0] < b[0]
    } else {
        lex_lt(a.drop_first(), b.drop_first())
    }
}

/// Non-strict lexicographic order.
pub open spec fn lex_le(a: Seq<char>, b: Seq<char>) -> bool {
    !lex_lt(b, a)
}

/// No sequence is below itself.
pub proof fn lemma_lex_irreflexive(a: Seq<char>)
    ensures
        !lex_lt(a, a),
    decreases a.len(),
{
    if a.len() > 0 {
        lemma_lex_irreflexive(a.drop_first());
    }
}

/// Distinct sequences are ordered one way or the other.
pub proof fn lemma_lex_total(a: Seq<char>, b: Seq<char>)
    ensures
        a != b ==> lex_lt(a, b) || lex_lt(b, a),
        !(lex_lt(a, b) && lex_lt(b, a)),
    decreases a.len(),
{
    if a.len() > 0 && b.len() > 0 && a[0] == b[0] {
        lemma_lex_total(a.drop_first(), b.drop_first());
        if a != b {
            assert(a.drop_first() != b.drop_first()) by {
                if a.drop_first() == b.drop_first() {
                    assert(a =~= seq![a[0]] + a.drop_first());
                    assert(b =~= seq![b[0]] + b.drop_first());
                }
            }
        }
    } else if a.len() == 0 && b.len() == 0 {
        assert(a =~= b);
    }
}

/// The strict order is transitive.
pub proof fn lemma_lex_transitive(a: Seq<char>, b: Seq<char>, c: Seq<char>)
    requires
        lex_lt(a, b),
        lex_lt(b, c),
    ensures
        lex_lt(a, c),
    decreases a.len(),
{
    if a.len() > 0 && a[0] == b[0] && b[0] == c[0] {
        lemma_lex_transitive(a.drop_first(), b.drop_first(), c.drop_first());
    }
}

/// The non-strict order is transitive.
pub proof fn lemma_lex_le_transitive(a: Seq<char>, b: Seq<char>, c: Seq<char>)
    requires
        lex_le(a, b),
        lex_le(b, c),
    ensures
        lex_le(a, c),
{
    lemma_lex_total(a, b);
    lemma_lex_total(b, c);
    lemma_lex_total(a, c);
    if lex_lt(c, a) {
        if a == b {
            assert(lex_lt(c, b));
        } else if b == c {
            assert(lex_lt(b, a));
        } else {
            lemma_lex_transitive(a, b, c);
        }
    }
}

/// Filtering after an insertion at `p`, where no item from `p` on passes the
/// filter if the inserted item does.
pub proof fn lemma_filter_insert<T>(s: Seq<T>, p: int, x: T, pred: spec_fn(T) -> bool)
    requires
        0 <= p <= s.len(),
        pred(x) ==> forall|j: int| p <= j < s.len() ==> !pred(s[j]),
    ensures
        s.insert(p, x).filter(pred) == (if pred(x) {
            s.filter(pred).push(x)
        } else {
            s.filter(pred)
        }),
{
    broadcast use Seq::filter_distributes_over_add;

    reveal(Seq::filter);
    let a = s.take(p);
    let b = s.skip(p);
    assert(s.insert(p, x) =~= a + seq![x] + b);
    assert(s =~= a + b);
    assert(seq![x].drop_last() =~= Seq::<T>::empty());
    assert(seq![x].drop_last().filter(pred) =~= Seq::<T>::empty());
    if pred(x) {
        assert forall|j: int| 0 <= j < b.len() implies !pred(b[j]) by {
            assert(b[j] == s[p + j]);
        }
        b.lemma_all_neg_filter_empty(pred);
        assert(seq![x].filter(pred) =~= seq![x]);
        assert(b.filter(pred) =~= Seq::<T>::empty());
        assert(s.insert(p, x).filter(pred) =~= a.filter(pred) + seq![x]);
        assert(s.filter(pred) =~= a.filter(pred));
    } else {
        assert(seq![x].filter(pred) =~= Seq::<T>::empty());
        assert(s.insert(p, x).filter(pred) =~= a.filter(pred) + b.filter(pred));
    }
}

/// Filtering after a push.
pub proof fn lemma_filter_push<T>(s: Seq<T>, x: T, pred: spec_fn(T) -> bool)
    ensures
        s.push(x).filter(pred) == (if pred(x) {
            s.filter(pred).push(x)
        } else {
            s.filter(pred)
        }),
{
    reveal(Seq::filter);
    assert(s.push(x).drop_last() =~= s);
}

// ---------------------------------------------------------------------------
// Stable sort by a numeric key
// ---------------------------------------------------------------------------

/// `s` is ordered by the key `f`.
pub open spec fn sorted_by_num<T>(s: Seq<T>, f: spec_fn(T) -> u128) -> bool {
    forall|i: int, j: int| 0 <= i < j < s.len() ==> f(s[i]) <= f(s[j])
}

/// The items of `s` whose key is `k`, in order.
pub open spec fn num_class<T>(s: Seq<T>, f: spec_fn(T) -> u128, k: u128) -> Seq<T> {
    s.filter(num_key_is(f, k))
}

/// The predicate "the key of an item is `k`".
pub open spec fn num_key_is<T>(f: spec_fn(T) -> u128, k: u128) -> spec_fn(T) -> bool {
    |x: T| f(x) == k
}

/// `r` is the stable sort of `s` by the key `f`.
pub open spec fn stable_sort_num<T>(r: Seq<T>, s: Seq<T>, f: spec_fn(T) -> u128) -> bool {
    &&& sorted_by_num(r, f)
    &&& forall|k: u128| #[trigger] num_class(r, f, k) == num_class(s, f, k)
}

/// Stable insertion sort of `items` by `keys`, where `keys[i]` is the key of `items[i]`.
pub fn sort_by_num_key<T>(items: Vec<T>, keys: Vec<u128>, Ghost(f): Ghost<spec_fn(T) -> u128>) -> (r: Vec<T>)
    requires
        keys@.len() == items@.len(),
        forall|i: int| 0 <= i < items@.len() ==> keys@[i] == f(items@[i]),
    ensures
        stable_sort_num(r@, items@, f),
        r@.len() == items@.len(),
{
    broadcast use Seq::filter_distributes_over_add;

    let ghost orig = items@;
    let mut items = items;
    let mut keys = keys;
    let mut r: Vec<T> = Vec::new();
    let mut rk: Vec<u128> = Vec::new();
    let ghost mut n: int = 0;
    assert(orig.skip(0) =~= orig);
    proof {
        reveal(Seq::filter);
        assert forall|k: u128| #[trigger] num_class(r@, f, k) == num_class(orig.take(0), f, k) by {
            assert(orig.take(0) =~= r@);
        }
    }
    while items.len() > 0
        invariant
            0 <= n <= orig.len(),
            items@ == orig.skip(n),
            keys@.len() == items@.len(),
            forall|i: int| 0 <= i < items@.len() ==> keys@[i] == f(items@[i]),
            rk@.len() == r@.len(),
            r@.len() == n,
            forall|i: int| 0 <= i < r@.len() ==> rk@[i] == f(r@[i]),
            sorted_by_num(r@, f),
            forall|k: u128| #[trigger] num_class(r@, f, k) == num_class(orig.take(n), f, k),
        decreases items.len(),
    {
        let x = items.remove(0);
        let kx = keys.remove(0);
        assert(x == orig[n]);
        assert(kx == f(x));
        assert(items@ =~= orig.skip(n + 1));
        let mut p = r.len();
        while p > 0 && rk[p - 1] > kx
            invariant
                p <= r@.len(),
                rk@.len() == r@.len(),
                forall|i: int| 0 <= i < r@.len() ==> rk@[i] == f(r@[i]),
                forall|j: int| p <= j < r@.len() ==> f(r@[j]) > kx,
            decreases p,
        {
            p = p - 1;
        }
        let ghost old_r = r@;
        r.insert(p, x);
        rk.insert(p, kx);
        proof {
            reveal(Seq::filter);
            assert(r@ == old_r.insert(p as int, x));
            assert forall|i: int, j: int| 0 <= i < j < r@.len() implies f(r@[i]) <= f(r@[j]) by {
                if j < p {
                } else if j == p {
                    if p > 0 {
                        assert(f(old_r[p - 1]) <= kx);
                        assert(f(old_r[i]) <= f(old_r[p - 1]));
                    }
                } else if i == p {
                    assert(r@[j] == old_r[j - 1]);
                } else if i < p {
                    assert(r@[j] == old_r[j - 1]);
                } else {
                    assert(r@[i] == old_r[i - 1]);
                    assert(r@[j] == old_r[j - 1]);
                }
            }
            assert(orig.take(n + 1) =~= orig.take(n).push(x));
            assert forall|k: u128| #[trigger] num_class(r@, f, k) == num_class(orig.take(n + 1), f, k) by {
                let pred = num_key_is(f, k);
                assert forall|j: int| p <= j < old_r.len() implies (pred(x) ==> !pred(old_r[j])) by {
                }
                lemma_filter_insert(old_r, p as int, x, pred);
                lemma_filter_push(orig.take(n), x, pred);
                assert(num_class(old_r, f, k) == num_class(orig.take(n), f, k));
                assert(num_class(r@, f, k) == old_r.insert(p as int, x).filter(pred));
                assert(num_class(orig.take(n + 1), f, k) == orig.take(n).push(x).filter(pred));
            }
            n = n + 1;
        }
    }
    assert(orig.take(n) =~= orig);
    r
}

// ---------------------------------------------------------------------------
// Stable sort by a string key
// ---------------------------------------------------------------------------

/// `s` is ordered by the key `f`.
pub open spec fn sorted_by_str<T>(s: Seq<T>, f: spec_fn(T) -> Seq<char>) -> bool {
    forall|i: int, j: int| 0 <= i < j < s.len() ==> lex_le(f(s[i]), f(s[j]))
}

/// The items of `s` whose key is `k`, in order.
pub open spec fn str_class<T>(s: Seq<T>, f: spec_fn(T) -> Seq<char>, k: Seq<char>) -> Seq<T> {
    s.filter(str_key_is(f, k))
}

/// The predicate "the key of an item is `k`".
pub open spec fn str_key_is<T>(f: spec_fn(T) -> Seq<char>, k: Seq<char>) -> spec_fn(T) -> bool {
    |x: T| f(x) == k
}

/// `r` is the stable sort of `s` by the key `f`.
pub open spec fn stable_sort_str<T>(r: Seq<T>, s: Seq<T>, f: spec_fn(T) -> Seq<char>) -> bool {
    &&& sorted_by_str(r, f)
    &&& forall|k: Seq<char>| #[trigger] str_class(r, f, k) == str_class(s, f, k)
}

/// Whether `a` sorts strictly before `b`.
pub fn lex_less(a: &Vec<char>, b: &Vec<char>) -> (r: bool)
    ensures
        r == lex_lt(a@, b@),
{
    let mut i: usize = 0;
    assert(a@.skip(0) =~= a@);
    assert(b@.skip(0) =~= b@);
    while i < a.len() && i < b.len() && a[i] == b[i]
        invariant
            i <= a.len(),
            i <= b.len(),
            lex_lt(a@.skip(i as int), b@.skip(i as int)) == lex_lt(a@, b@),
        decreases a.len() - i,
    {
        assert(a@.skip(i as int).drop_first() =~= a@.skip(i + 1));
        assert(b@.skip(i as int).drop_first() =~= b@.skip(i + 1));
        i = i + 1;
    }
    if i == b.len() {
        false
    } else if i == a.len() {
        true
    } else {
        assert(a@.skip(i as int)[0] == a@[i as int]);
        assert(b@.skip(i as int)[0] == b@[i as int]);
        a[i] < b[i]
    }
}

/// Stable insertion sort of `items` by `keys`, where `keys[i]` is the key of `items[i]`.
pub fn sort_by_str_key<T>(items: Vec<T>, keys: Vec<Vec<char>>, Ghost(f): Ghost<spec_fn(T) -> Seq<char>>) -> (r: Vec<T>)
    requires
        keys@.len() == items@.len(),
        forall|i: int| 0 <= i < items@.len() ==> keys@[i]@ == f(items@[i]),
    ensures
        stable_sort_str(r@, items@, f),
        r@.len() == items@.len(),
{
    broadcast use Seq::filter_distributes_over_add;

    let ghost orig = items@;
    let mut items = items;
    let mut keys = keys;
    let mut r: Vec<T> = Vec::new();
    let mut rk: Vec<Vec<char>> = Vec::new();
    let ghost mut n: int = 0;
    assert(orig.skip(0) =~= orig);
    proof {
        reveal(Seq::filter);
        assert forall|k: Seq<char>| #[trigger] str_class(r@, f, k) == str_class(orig.take(0), f, k) by {
            assert(orig.take(0) =~= r@);
        }
    }
    while items.len() > 0
        invariant
            0 <= n <= orig.len(),
            items@ == orig.skip(n),
            keys@.len() == items@.len(),
            forall|i: int| 0 <= i < items@.len() ==> keys@[i]@ == f(items@[i]),
            rk@.len() == r@.len(),
            r@.len() == n,
            forall|i: int| 0 <= i < r@.len() ==> rk@[i]@ == f(r@[i]),
            sorted_by_str(r@, f),
            forall|k: Seq<char>| #[trigger] str_class(r@, f, k) == str_class(orig.take(n), f, k),
        decreases items.len(),
    {
        let x = items.remove(0);
        let kx = keys.remove(0);
        assert(x == orig[n]);
        assert(kx@ == f(x));
        assert(items@ =~= orig.skip(n + 1));
        let mut p = r.len();
        while p > 0 && lex_less(&kx, &rk[p - 1])
            invariant
                p <= r@.len(),
                rk@.len() == r@.len(),
                forall|i: int| 0 <= i < r@.len() ==> rk@[i]@ == f(r@[i]),
                forall|j: int| p <= j < r@.len() ==> lex_lt(kx@, f(r@[j])),
            decreases p,
        {
            p = p - 1;
        }
        let ghost old_r = r@;
        r.insert(p, x);
        rk.insert(p, kx);
        proof {
            reveal(Seq::filter);
            assert(r@ == old_r.insert(p as int, x));
            assert forall|i: int, j: int| 0 <= i < j < r@.len() implies lex_le(f(r@[i]), f(r@[j])) by {
                if j < p {
                } else if j == p {
                    if p > 0 {
                        assert(lex_le(f(old_r[p - 1]), f(x)));
                        if i < p - 1 {
                            assert(lex_le(f(old_r[i]), f(old_r[p - 1])));
                            lemma_lex_le_transitive(f(old_r[i]), f(old_r[p - 1]), f(x));
                        }
                    }
                } else if i == p {
                    assert(r@[j] == old_r[j - 1]);
                    assert(lex_lt(f(x), f(old_r[j - 1])));
                    lemma_lex_total(f(x), f(old_r[j - 1]));
                } else if i < p {
                    assert(r@[j] == old_r[j - 1]);
                } else {
                    assert(r@[i] == old_r[i - 1]);
                    assert(r@[j] == old_r[j - 1]);
                }
            }
            assert(orig.take(n + 1) =~= orig.take(n).push(x));
            assert forall|k: Seq<char>| #[trigger] str_class(r@, f, k) == str_class(orig.take(n + 1), f, k) by {
                let pred = str_key_is(f, k);
                assert forall|j: int| p <= j < old_r.len() implies (pred(x) ==> !pred(old_r[j])) by {
                    lemma_lex_irreflexive(f(x));
                }
                lemma_filter_insert(old_r, p as int, x, pred);
                lemma_filter_push(orig.take(n), x, pred);
                assert(str_class(old_r, f, k) == str_class(orig.take(n), f, k));
                assert(str_class(r@, f, k) == old_r.insert(p as int, x).filter(pred));
                assert(str_class(orig.take(n + 1), f, k) == orig.take(n).push(x).filter(pred));
            }
            n = n + 1;
        }
    }
    assert(orig.take(n) =~= orig);
    r
}

} // verus!
