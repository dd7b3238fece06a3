//! Orderings used by the reports: permutations of row indices sorted by an
//! integer key (largest first) or by a text key (as SQLite's BINARY collation
//! orders text).
use vstd::prelude::*;

verus! {

/// `p` lists every index below `n` exactly once.
pub open spec fn is_permutation(p: Seq<usize>, n: nat) -> bool {
    &&& p.len() == n
    &&& forall|i: int| 0 <= i < p.len() ==> #[trigger] p[i] < n
    &&& forall|i: int, j: int| 0 <= i < p.len() && 0 <= j < p.len() && i != j ==> p[i] != p[j]
    &&& forall|k: usize| k < n ==> #[trigger] p.contains(k)
}

/// Lexicographic order of character sequences by code point; for UTF-8 text
/// this is the order of the bytes, which is how SQLite's BINARY collation
/// and Rust's `str` comparison order text.
pub open spec fn text_lt(a: Seq<char>, b: Seq<char>) -> bool
    decreases a.len(),
{
    if a.len() == 0 {
        b.len() > 0
    } else if b.len() == 0 {
        false
    } else if (a[0] as int) < (b[0] as int) {
        true
    } else if a[0] == b[0] {
        text_lt(a.drop_first(), b.drop_first())
    } else {
        false
    }
}

/// `a` comes before `b` in the requested direction.
pub open spec fn text_before(a: Seq<char>, b: Seq<char>, descending: bool) -> bool {
    if descending {
        text_lt(b, a)
    } else {
        text_lt(a, b)
    }
}

/// No text is strictly before itself.
pub proof fn lemma_text_lt_irreflexive(a: Seq<char>)
    ensures
        !text_lt(a, a),
    decreases a.len(),
{
    if a.len() > 0 {
        lemma_text_lt_irreflexive(a.drop_first());
    }
}

/// The text order is transitive.
pub proof fn lemma_text_lt_transitive(a: Seq<char>, b: Seq<char>, c: Seq<char>)
    requires
        text_lt(a, b),
        text_lt(b, c),
    ensures
        text_lt(a, c),
    decreases a.len(),
{
    if a.len() > 0 && b.len() > 0 && c.len() > 0 {
        if a[0] == b[0] && b[0] == c[0] {
            lemma_text_lt_transitive(a.drop_first(), b.drop_first(), c.drop_first());
        }
    }
}

/// Two texts that differ are ordered one way or the other.
pub proof fn lemma_text_lt_total(a: Seq<char>, b: Seq<char>)
    requires
        a != b,
    ensures
        text_lt(a, b) || text_lt(b, a),
    decreases a.len(),
{
    if a.len() > 0 && b.len() > 0 && a[0] == b[0] {
        if a.drop_first() == b.drop_first() {
            assert(a =~= seq![a[0]] + a.drop_first());
            assert(b =~= seq![b[0]] + b.drop_first());
        }
        lemma_text_lt_total(a.drop_first(), b.drop_first());
    } else if a.len() == 0 && b.len() == 0 {
        assert(a =~= b);
    }
}

/// Two permutations that both list their indices in the order of the same
/// strict ordering `lt` agree on their first `i` entries.
pub proof fn lemma_sorted_prefix_unique(
    p: Seq<usize>,
    q: Seq<usize>,
    n: nat,
    lt: spec_fn(usize, usize) -> bool,
    i: int,
)
    requires
        0 <= i <= n,
        is_permutation(p, n),
        is_permutation(q, n),
        forall|x: usize, y: usize| #[trigger] lt(x, y) ==> !lt(y, x),
        forall|a: int, b: int| 0 <= a < b < n ==> #[trigger] lt(p[a], p[b]),
        forall|a: int, b: int| 0 <= a < b < n ==> #[trigger] lt(q[a], q[b]),
    ensures
        forall|a: int| 0 <= a < i ==> p[a] == q[a],
    decreases i,
{
    if i > 0 {
        let k = i - 1;
        lemma_sorted_prefix_unique(p, q, n, lt, k);
        let x = p[k];
        let y = q[k];
        assert(q.contains(x));
        assert(p.contains(y));
        let j = choose|j: int| 0 <= j < q.len() && q[j] == x;
        let j2 = choose|j: int| 0 <= j < p.len() && p[j] == y;
        if x != y {
            if j < k {
                assert(p[j] == q[j]);
            }
            if j2 < k {
                assert(p[j2] == q[j2]);
            }
            assert(lt(q[k], q[j]));
            assert(lt(p[k], p[j2]));
        }
    }
}

/// Two permutations that both list their indices in the order of the same
/// strict ordering `lt` are the same.
pub proof fn lemma_sorted_permutation_unique(
    p: Seq<usize>,
    q: Seq<usize>,
    n: nat,
    lt: spec_fn(usize, usize) -> bool,
)
    requires
        is_permutation(p, n),
        is_permutation(q, n),
        forall|x: usize, y: usize| #[trigger] lt(x, y) ==> !lt(y, x),
        forall|a: int, b: int| 0 <= a < b < n ==> #[trigger] lt(p[a], p[b]),
        forall|a: int, b: int| 0 <= a < b < n ==> #[trigger] lt(q[a], q[b]),
    ensures
        p == q,
{
    lemma_sorted_prefix_unique(p, q, n, lt, n as int);
    assert(p =~= q);
}

/// Texts that agree on their first `i` characters compare as their rests do.
pub proof fn lemma_text_lt_skip(a: Seq<char>, b: Seq<char>, i: int)
    requires
        0 <= i <= a.len(),
        i <= b.len(),
        forall|k: int| 0 <= k < i ==> a[k] == b[k],
    ensures
        text_lt(a, b) == text_lt(a.skip(i), b.skip(i)),
    decreases i,
{
    if i > 0 {
        assert(a[0] == b[0]);
        lemma_text_lt_skip(a.drop_first(), b.drop_first(), i - 1);
        assert(a.drop_first().skip(i - 1) =~= a.skip(i));
        assert(b.drop_first().skip(i - 1) =~= b.skip(i));
    } else {
        assert(a.skip(0) =~= a);
        assert(b.skip(0) =~= b);
    }
}

/// Whether `a` comes before `b` in text order, character by character.
fn text_less(a: &str, b: &str) -> (r: bool)
    ensures
        r == text_lt(a@, b@),
{
    let la = a.unicode_len();
    let lb = b.unicode_len();
    let mut i: usize = 0;
    while i < la && i < lb
        invariant
            i <= la,
            i <= lb,
            la == a@.len(),
            lb == b@.len(),
            forall|k: int| 0 <= k < i ==> a@[k] == b@[k],
        decreases la - i,
    {
        let ca = a.get_char(i);
        let cb = b.get_char(i);
        if ca != cb {
            proof {
                lemma_text_lt_skip(a@, b@, i as int);
                assert(a@.skip(i as int)[0] == ca);
                assert(b@.skip(i as int)[0] == cb);
            }
            return (ca as u32) < (cb as u32);
        }
        i = i + 1;
    }
    proof {
        lemma_text_lt_skip(a@, b@, i as int);
    }
    la < lb
}

/// The same integers, as `i128`.
pub fn widen(v: &Vec<i64>) -> (r: Vec<i128>)
    ensures
        r@.len() == v@.len(),
        forall|k: int| 0 <= k < v@.len() ==> #[trigger] r@[k] == v@[k],
{
    let mut r: Vec<i128> = Vec::new();
    for k in 0..v.len()
        invariant
            r@.len() == k,
            forall|a: int| 0 <= a < k ==> #[trigger] r@[a] == v@[a],
    {
        r.push(v[k] as i128);
    }
    r
}

/// Indices of `keys`, largest key first; equal keys keep their input order.
pub fn order_by_amount_desc(keys: &Vec<i128>) -> (p: Vec<usize>)
    ensures
        is_permutation(p@, keys@.len()),
        forall|i: int, j: int|
            0 <= i < j < p@.len() ==> keys@[p@[i] as int] >= keys@[p@[j] as int],
        forall|i: int, j: int|
            0 <= i < j < p@.len() && keys@[p@[i] as int] == keys@[p@[j] as int] ==> p@[i] < p@[j],
{
    let n = keys.len();
    let mut res: Vec<usize> = Vec::new();
    let mut i: usize = 0;
    while i < n
        invariant
            i <= n,
            n == keys@.len(),
            res@.len() == i,
            forall|a: int| 0 <= a < res@.len() ==> #[trigger] res@[a] < i,
            forall|a: int, b: int|
                0 <= a < res@.len() && 0 <= b < res@.len() && a != b ==> res@[a] != res@[b],
            forall|k: usize| k < i ==> #[trigger] res@.contains(k),
            forall|a: int, b: int|
                0 <= a < b < res@.len() ==> keys@[res@[a] as int] >= keys@[res@[b] as int],
            forall|a: int, b: int|
                0 <= a < b < res@.len() && keys@[res@[a] as int] == keys@[res@[b] as int]
                    ==> res@[a] < res@[b],
        decreases n - i,
    {
        let key = keys[i];
        let mut pos: usize = 0;
        while pos < res.len() && keys[res[pos]] >= key
            invariant
                pos <= res@.len(),
                i < n,
                n == keys@.len(),
                key == keys@[i as int],
                forall|a: int| 0 <= a < res@.len() ==> #[trigger] res@[a] < i,
                forall|a: int| 0 <= a < pos ==> keys@[#[trigger] res@[a] as int] >= key,
            decreases res@.len() - pos,
        {
            pos = pos + 1;
        }
        let ghost old_res = res@;
        res.insert(pos, i);
        proof {
            old_res.insert_ensures(pos as int, i);
            assert forall|k: usize| k < i + 1 implies #[trigger] res@.contains(k) by {
                if k == i {
                    assert(res@[pos as int] == k);
                } else {
                    assert(old_res.contains(k));
                    let a = choose|a: int| 0 <= a < old_res.len() && old_res[a] == k;
                    if a < pos {
                        assert(res@[a] == k);
                    } else {
                        assert(res@[a + 1] == k);
                    }
                }
            }
            assert forall|a: int, b: int|
                0 <= a < res@.len() && 0 <= b < res@.len() && a != b implies res@[a]
                != res@[b] by {
                let oa = if a < pos { a } else { a - 1 };
                let ob = if b < pos { b } else { b - 1 };
                if a != pos as int && b != pos as int {
                    assert(res@[a] == old_res[oa]);
                    assert(res@[b] == old_res[ob]);
                } else if a == pos as int {
                    assert(res@[b] == old_res[ob]);
                } else {
                    assert(res@[a] == old_res[oa]);
                }
            }
            assert forall|a: int, b: int|
                0 <= a < b < res@.len() implies keys@[res@[a] as int] >= keys@[res@[b] as int] by {
                let oa = if a < pos { a } else { a - 1 };
                let ob = if b < pos { b } else { b - 1 };
                if a != pos as int && b != pos as int {
                    assert(res@[a] == old_res[oa]);
                    assert(res@[b] == old_res[ob]);
                } else if a == pos as int {
                    assert(res@[b] == old_res[ob]);
                    if ob >= pos {
                        assert(pos < old_res.len());
                        assert(keys@[old_res[pos as int] as int] < key);
                        if ob > pos {
                            assert(keys@[old_res[pos as int] as int] >= keys@[old_res[ob] as int]);
                        }
                    }
                } else {
                    assert(res@[a] == old_res[oa]);
                }
            }
            assert forall|a: int, b: int|
                0 <= a < b < res@.len() && keys@[res@[a] as int] == keys@[res@[b] as int]
                    implies res@[a] < res@[b] by {
                let oa = if a < pos { a } else { a - 1 };
                let ob = if b < pos { b } else { b - 1 };
                if a != pos as int && b != pos as int {
                    assert(res@[a] == old_res[oa]);
                    assert(res@[b] == old_res[ob]);
                } else if a == pos as int {
                    assert(res@[b] == old_res[ob]);
                    assert(keys@[old_res[pos as int] as int] < key);
                    if ob > pos {
                        assert(keys@[old_res[pos as int] as int] >= keys@[old_res[ob] as int]);
                    }
                } else {
                    assert(res@[a] == old_res[oa]);
                }
            }
        }
        i = i + 1;
    }
    res
}

/// Indices of `keys` in text order (ascending, or descending when asked);
/// equal keys keep their input order.
pub fn order_by_text(keys: &Vec<String>, descending: bool) -> (p: Vec<usize>)
    ensures
        is_permutation(p@, keys@.len()),
        forall|i: int, j: int|
            0 <= i < j < p@.len() ==> !text_before(
                keys@[p@[j] as int]@,
                keys@[p@[i] as int]@,
                descending,
            ),
        forall|i: int, j: int|
            0 <= i < j < p@.len() && keys@[p@[i] as int]@ == keys@[p@[j] as int]@ ==> p@[i] < p@[j],
{
    let n = keys.len();
    let mut res: Vec<usize> = Vec::new();
    let mut i: usize = 0;
    while i < n
        invariant
            i <= n,
            n == keys@.len(),
            res@.len() == i,
            forall|a: int| 0 <= a < res@.len() ==> #[trigger] res@[a] < i,
            forall|a: int, b: int|
                0 <= a < res@.len() && 0 <= b < res@.len() && a != b ==> res@[a] != res@[b],
            forall|k: usize| k < i ==> #[trigger] res@.contains(k),
            forall|a: int, b: int|
                0 <= a < b < res@.len() ==> !text_before(
                    keys@[res@[b] as int]@,
                    keys@[res@[a] as int]@,
                    descending,
                ),
            forall|a: int, b: int|
                0 <= a < b < res@.len() && keys@[res@[a] as int]@ == keys@[res@[b] as int]@
                    ==> res@[a] < res@[b],
        decreases n - i,
    {
        let key = &keys[i];
        let mut pos: usize = 0;
        while pos < res.len() && !text_before_exec(key, &keys[res[pos]], descending)
            invariant
                pos <= res@.len(),
                i < n,
                n == keys@.len(),
                *key == keys@[i as int],
                forall|a: int| 0 <= a < res@.len() ==> #[trigger] res@[a] < i,
                forall|a: int|
                    0 <= a < pos ==> !text_before(
                        key@,
                        keys@[#[trigger] res@[a] as int]@,
                        descending,
                    ),
            decreases res@.len() - pos,
        {
            pos = pos + 1;
        }
        let ghost old_res = res@;
        res.insert(pos, i);
        proof {
            old_res.insert_ensures(pos as int, i);
            assert forall|k: usize| k < i + 1 implies #[trigger] res@.contains(k) by {
                if k == i {
                    assert(res@[pos as int] == k);
                } else {
                    assert(old_res.contains(k));
                    let a = choose|a: int| 0 <= a < old_res.len() && old_res[a] == k;
                    if a < pos {
                        assert(res@[a] == k);
                    } else {
                        assert(res@[a + 1] == k);
                    }
                }
            }
            assert forall|a: int, b: int|
                0 <= a < res@.len() && 0 <= b < res@.len() && a != b implies res@[a]
                != res@[b] by {
                let oa = if a < pos { a } else { a - 1 };
                let ob = if b < pos { b } else { b - 1 };
                if a != pos as int && b != pos as int {
                    assert(res@[a] == old_res[oa]);
                    assert(res@[b] == old_res[ob]);
                } else if a == pos as int {
                    assert(res@[b] == old_res[ob]);
                } else {
                    assert(res@[a] == old_res[oa]);
                }
            }
            assert forall|a: int, b: int|
                0 <= a < b < res@.len() implies !text_before(
                keys@[res@[b] as int]@,
                keys@[res@[a] as int]@,
                descending,
            ) by {
                let oa = if a < pos { a } else { a - 1 };
                let ob = if b < pos { b } else { b - 1 };
                if a != pos as int && b != pos as int {
                    assert(res@[a] == old_res[oa]);
                    assert(res@[b] == old_res[ob]);
                } else if a == pos as int {
                    assert(res@[b] == old_res[ob]);
                    let kp = keys@[old_res[pos as int] as int]@;
                    let kb = keys@[old_res[ob] as int]@;
                    assert(text_before(key@, kp, descending));
                    if text_before(kb, key@, descending) {
                        if descending {
                            lemma_text_lt_transitive(kp, key@, kb);
                            if ob > pos {
                                assert(!text_before(kb, kp, descending));
                            } else {
                                lemma_text_lt_irreflexive(kp);
                            }
                        } else {
                            lemma_text_lt_transitive(kb, key@, kp);
                            if ob > pos {
                                assert(!text_before(kb, kp, descending));
                            } else {
                                lemma_text_lt_irreflexive(kp);
                            }
                        }
                    }
                } else {
                    assert(res@[a] == old_res[oa]);
                }
            }
            assert forall|a: int, b: int|
                0 <= a < b < res@.len() && keys@[res@[a] as int]@ == keys@[res@[b] as int]@
                    implies res@[a] < res@[b] by {
                let oa = if a < pos { a } else { a - 1 };
                let ob = if b < pos { b } else { b - 1 };
                if a != pos as int && b != pos as int {
                    assert(res@[a] == old_res[oa]);
                    assert(res@[b] == old_res[ob]);
                } else if a == pos as int {
                    assert(res@[b] == old_res[ob]);
                    let kp = keys@[old_res[pos as int] as int]@;
                    assert(text_before(key@, kp, descending));
                    if ob == pos as int {
                        lemma_text_lt_irreflexive(kp);
                    } else {
                        assert(!text_before(keys@[old_res[ob] as int]@, kp, descending));
                    }
                } else {
                    assert(res@[a] == old_res[oa]);
                }
            }
        }
        i = i + 1;
    }
    res
}

/// `text_before` on two texts, in the requested direction.
fn text_before_exec(a: &String, b: &String, descending: bool) -> (r: bool)
    ensures
        r == text_before(a@, b@, descending),
{
    if descending {
        text_less(b.as_str(), a.as_str())
    } else {
        text_less(a.as_str(), b.as_str())
    }
}

} // verus!
