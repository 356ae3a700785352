//! Orderings of pages and feed entries: newest first, ties broken by
//! identifier, and otherwise by the order given.
use vstd::prelude::*;
use vstd::string::StrSliceExecFns;

verus! {

/// Whether `a` comes before `b` in the order of their characters' code
/// points, which is the order of their UTF-8 bytes.
pub open spec fn text_lt(a: Seq<char>, b: Seq<char>) -> bool
    decreases a.len(),
{
    if a.len() == 0 {
        b.len() > 0
    } else if b.len() == 0 {
        false
    } else if a[0] != b[0] {
        a[0] < b[0]
    } else {
        text_lt(a.drop_first(), b.drop_first())
    }
}

proof fn lemma_text_lt_total(a: Seq<char>, b: Seq<char>)
    ensures
        text_lt(a, b) || a == b || text_lt(b, a),
        !(text_lt(a, b) && text_lt(b, a)),
        !text_lt(a, a),
    decreases a.len(),
{
    if a.len() > 0 && b.len() > 0 {
        lemma_text_lt_total(a.drop_first(), b.drop_first());
        if a[0] == b[0] && a.drop_first() == b.drop_first() {
            assert forall|i: int| 0 <= i < a.len() implies a[i] == b[i] by {
                if i > 0 {
                    assert(a[i] == a.drop_first()[i - 1]);
                    assert(b[i] == b.drop_first()[i - 1]);
                }
            }
            assert(a =~= b);
        }
    } else if a.len() == 0 && b.len() == 0 {
        assert(a =~= b);
    }
    if a.len() > 0 {
        lemma_text_lt_total(a.drop_first(), a.drop_first());
    }
}

proof fn lemma_text_lt_trans(a: Seq<char>, b: Seq<char>, c: Seq<char>)
    requires
        text_lt(a, b),
        text_lt(b, c),
    ensures
        text_lt(a, c),
    decreases a.len(),
{
    if a.len() > 0 && b.len() > 0 && c.len() > 0 && a[0] == b[0] && b[0] == c[0] {
        lemma_text_lt_trans(a.drop_first(), b.drop_first(), c.drop_first());
    }
}

/// Compares two texts by code point: negative, zero or positive as `a`
/// comes before, equals or comes after `b`.
pub fn compare_text(a: &str, b: &str) -> (r: i8)
    ensures
        r < 0 <==> text_lt(a@, b@),
        r == 0 <==> a@ == b@,
        r > 0 <==> text_lt(b@, a@),
{
    proof {
        lemma_text_lt_total(a@, b@);
    }
    let n = a.unicode_len();
    let m = b.unicode_len();
    let mut i: usize = 0;
    assert(a@.subrange(0, n as int) =~= a@);
    assert(b@.subrange(0, m as int) =~= b@);
    while i < n && i < m
        invariant
            n == a@.len(),
            m == b@.len(),
            0 <= i <= n,
            i <= m,
            a@.subrange(0, i as int) == b@.subrange(0, i as int),
            text_lt(a@, b@) == text_lt(a@.subrange(i as int, n as int), b@.subrange(i as int, m as int)),
            text_lt(b@, a@) == text_lt(b@.subrange(i as int, m as int), a@.subrange(i as int, n as int)),
        decreases n - i,
    {
        let x = a.get_char(i);
        let y = b.get_char(i);
        let ghost ra = a@.subrange(i as int, n as int);
        let ghost rb = b@.subrange(i as int, m as int);
        if x != y {
            proof {
                assert(ra[0] == x && rb[0] == y);
                if a@ == b@ {
                    assert(a@[i as int] == b@[i as int]);
                }
            }
            if x < y {
                return -1;
            } else {
                return 1;
            }
        }
        assert(ra.drop_first() =~= a@.subrange(i + 1, n as int));
        assert(rb.drop_first() =~= b@.subrange(i + 1, m as int));
        assert(a@.subrange(0, i + 1) =~= a@.subrange(0, i as int).push(x));
        assert(b@.subrange(0, i + 1) =~= b@.subrange(0, i as int).push(y));
        i = i + 1;
    }
    proof {
        if n == m {
            assert(a@ =~= a@.subrange(0, i as int));
            assert(b@ =~= b@.subrange(0, i as int));
        } else {
            if a@ == b@ {
                assert(false);
            }
        }
    }
    if n < m {
        -1
    } else if n == m {
        0
    } else {
        1
    }
}

/// A sort key: newest first (a larger `rank` first), then by `name`.
pub open spec fn key_before(a: (i128, Seq<char>), b: (i128, Seq<char>)) -> bool {
    a.0 > b.0 || (a.0 == b.0 && text_lt(a.1, b.1))
}

/// `a` may stand before `b`.
pub open spec fn key_le(a: (i128, Seq<char>), b: (i128, Seq<char>)) -> bool {
    !key_before(b, a)
}

pub open spec fn key_view(k: (i128, String)) -> (i128, Seq<char>) {
    (k.0, k.1@)
}

proof fn lemma_key_order(a: (i128, Seq<char>), b: (i128, Seq<char>), c: (i128, Seq<char>))
    ensures
        key_le(a, b) || key_le(b, a),
        key_le(a, b) && key_le(b, c) ==> key_le(a, c),
{
    lemma_text_lt_total(a.1, b.1);
    lemma_text_lt_total(b.1, c.1);
    lemma_text_lt_total(a.1, c.1);
    if key_le(a, b) && key_le(b, c) && !key_le(a, c) {
        if a.0 == b.0 && b.0 == c.0 {
            if text_lt(b.1, c.1) {
                lemma_text_lt_trans(b.1, c.1, a.1);
            }
        }
    }
}

/// `order` lists its indices into `keys` with keys that never decrease.
pub open spec fn sorted_by_key(order: Seq<usize>, keys: Seq<(i128, String)>) -> bool {
    forall|i: int, j: int|
        0 <= i < j < order.len() ==> key_le(
            key_view(keys[#[trigger] order[i] as int]),
            key_view(keys[#[trigger] order[j] as int]),
        )
}

/// Whether key `a` stands before key `b`.
fn before(a: &(i128, String), b: &(i128, String)) -> (r: bool)
    ensures
        r == key_before(key_view(*a), key_view(*b)),
{
    if a.0 != b.0 {
        a.0 > b.0
    } else {
        compare_text(a.1.as_str(), b.1.as_str()) < 0
    }
}

/// The indices `0..keys.len()`, ordered by key: a larger rank first, then
/// by name; equal keys keep their order.
pub fn sort_indices(keys: &Vec<(i128, String)>) -> (r: Vec<usize>)
    ensures
        r@.len() == keys@.len(),
        r@.no_duplicates(),
        forall|i: int| 0 <= i < r@.len() ==> r@[i] < keys@.len(),
        forall|i: usize| i < keys@.len() ==> r@.contains(i),
        sorted_by_key(r@, keys@),
{
    let mut r: Vec<usize> = Vec::new();
    let mut k: usize = 0;
    while k < keys.len()
        invariant
            0 <= k <= keys@.len(),
            r@.len() == k,
            r@.no_duplicates(),
            forall|i: usize| i < k ==> r@.contains(i),
            forall|i: int| 0 <= i < r@.len() ==> r@[i] < k,
            sorted_by_key(r@, keys@),
        decreases keys@.len() - k,
    {
        let mut p: usize = 0;
        while p < r.len() && !before(&keys[k], &keys[r[p]])
            invariant
                0 <= p <= r@.len(),
                k < keys@.len(),
                forall|i: int| 0 <= i < r@.len() ==> r@[i] < k,
                forall|i: int| 0 <= i < p ==> key_le(key_view(keys@[#[trigger] r@[i] as int]), key_view(keys@[k as int])),
            decreases r@.len() - p,
        {
            p = p + 1;
        }
        let ghost old_r = r@;
        r.insert(p, k);
        proof {
            assert(r@ =~= old_r.insert(p as int, k));
            assert(r@[p as int] == k);
            assert forall|i: usize| i < k + 1 implies r@.contains(i) by {
                if i < k {
                    assert(old_r.contains(i));
                    let q = choose|q: int| 0 <= q < old_r.len() && old_r[q] == i;
                    if q < p {
                        assert(r@[q] == i);
                    } else {
                        assert(r@[q + 1] == i);
                    }
                }
            }
            assert forall|a: int, b: int| 0 <= a < r@.len() && 0 <= b < r@.len() && a != b implies r@[a] != r@[b] by {
                if a != p && b != p {
                    let oa = if a < p { a } else { a - 1 };
                    let ob = if b < p { b } else { b - 1 };
                    assert(r@[a] == old_r[oa] && r@[b] == old_r[ob]);
                } else if a == p {
                    let ob = if b < p { b } else { b - 1 };
                    assert(r@[b] == old_r[ob]);
                } else {
                    let oa = if a < p { a } else { a - 1 };
                    assert(r@[a] == old_r[oa]);
                }
            }
            let kk = key_view(keys@[k as int]);
            if p < old_r.len() {
                lemma_key_order(kk, key_view(keys@[old_r[p as int] as int]), kk);
            }
            assert forall|i: int, j: int| 0 <= i < j < r@.len() implies key_le(
                key_view(keys@[#[trigger] r@[i] as int]),
                key_view(keys@[#[trigger] r@[j] as int]),
            ) by {
                if i < p && j < p {
                    assert(r@[i] == old_r[i] && r@[j] == old_r[j]);
                } else if i < p && j == p {
                    assert(r@[i] == old_r[i]);
                } else if i < p && j > p {
                    assert(r@[i] == old_r[i] && r@[j] == old_r[j - 1]);
                    lemma_key_order(key_view(keys@[old_r[i] as int]), kk, key_view(keys@[old_r[j - 1] as int]));
                    if !key_le(key_view(keys@[old_r[i] as int]), key_view(keys@[old_r[j - 1] as int])) {
                        lemma_key_order(key_view(keys@[old_r[i] as int]), key_view(keys@[old_r[p as int] as int]), key_view(keys@[old_r[j - 1] as int]));
                        assert(key_le(key_view(keys@[old_r[i] as int]), key_view(keys@[old_r[p as int] as int]))) by {
                            if (i as int) < (p as int) {
                                lemma_key_order(key_view(keys@[old_r[i] as int]), kk, key_view(keys@[old_r[p as int] as int]));
                            }
                        }
                    }
                } else if i == p {
                    assert(r@[j] == old_r[j - 1]);
                    lemma_key_order(kk, key_view(keys@[old_r[p as int] as int]), key_view(keys@[old_r[j - 1] as int]));
                } else {
                    assert(r@[i] == old_r[i - 1] && r@[j] == old_r[j - 1]);
                }
            }
        }
        k = k + 1;
    }
    r
}

} // verus!
