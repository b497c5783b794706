//! Ordering of keyed items: by an integer first, then by text, character by
//! character.

use vstd::prelude::*;

verus! {

/// Whether `a` stands strictly before `b` character by character: at the
/// first position where they differ `a` has the smaller character, or `a` is
/// a proper prefix of `b`.
pub open spec fn text_less(a: Seq<char>, b: Seq<char>) -> bool
    decreases a.len(),
{
    if b.len() == 0 {
        false
    } else if a.len() == 0 {
        true
    } else if a[0] != b[0] {
        a[0] < b[0]
    } else {
        text_less(a.drop_first(), b.drop_first())
    }
}

/// A sort key: an integer, then a text.
pub type Key = (int, Seq<char>);

/// Whether key `a` stands at or before key `b`.
pub open spec fn key_le(a: Key, b: Key) -> bool {
    a.0 < b.0 || (a.0 == b.0 && !text_less(b.1, a.1))
}

/// The order of texts is transitive.
pub proof fn lemma_text_less_transitive(a: Seq<char>, b: Seq<char>, c: Seq<char>)
    requires
        text_less(a, b),
        text_less(b, c),
    ensures
        text_less(a, c),
    decreases a.len(),
{
    if a.len() > 0 && a[0] == b[0] && b[0] == c[0] {
        lemma_text_less_transitive(a.drop_first(), b.drop_first(), c.drop_first());
    }
}

/// Of two different texts one stands before the other.
pub proof fn lemma_text_less_total(a: Seq<char>, b: Seq<char>)
    ensures
        text_less(a, b) || text_less(b, a) || a == b,
    decreases a.len(),
{
    if a.len() == 0 || b.len() == 0 {
        if a.len() == 0 && b.len() == 0 {
            assert(a =~= b);
        }
    } else if a[0] == b[0] {
        lemma_text_less_total(a.drop_first(), b.drop_first());
        if a.drop_first() == b.drop_first() {
            assert(a =~= seq![a[0]] + a.drop_first());
            assert(b =~= seq![b[0]] + b.drop_first());
        }
    }
}

/// Of two texts at most one stands before the other.
pub proof fn lemma_text_less_asymmetric(a: Seq<char>, b: Seq<char>)
    requires
        text_less(a, b),
    ensures
        !text_less(b, a),
    decreases a.len(),
{
    if a.len() > 0 && b.len() > 0 && a[0] == b[0] {
        lemma_text_less_asymmetric(a.drop_first(), b.drop_first());
    }
}

/// Of two keys one stands at or before the other.
pub proof fn lemma_key_le_total(a: Key, b: Key)
    ensures
        key_le(a, b) || key_le(b, a),
{
    if a.0 == b.0 && text_less(b.1, a.1) {
        lemma_text_less_asymmetric(b.1, a.1);
    }
}

/// The order of keys is transitive.
pub proof fn lemma_key_le_transitive(a: Key, b: Key, c: Key)
    requires
        key_le(a, b),
        key_le(b, c),
    ensures
        key_le(a, c),
{
    if a.0 == b.0 && b.0 == c.0 && text_less(c.1, a.1) {
        // c < a and not (b < a) give, by totality, a <= b; then c < b.
        lemma_text_less_total(a.1, b.1);
        if a.1 == b.1 {
        } else {
            lemma_text_less_transitive(c.1, a.1, b.1);
        }
    }
}

/// Whether the text of `a` stands strictly before that of `b`.
pub fn chars_less(a: &Vec<char>, b: &Vec<char>) -> (r: bool)
    ensures
        r == text_less(a@, b@),
{
    let mut i: usize = 0;
    assert(a@.skip(0) == a@ && b@.skip(0) == b@);
    while i < a.len() && i < b.len()
        invariant
            i <= a.len(),
            i <= b.len(),
            text_less(a@, b@) == text_less(a@.skip(i as int), b@.skip(i as int)),
        decreases a.len() - i,
    {
        let ghost ra = a@.skip(i as int);
        let ghost rb = b@.skip(i as int);
        assert(ra[0] == a@[i as int] && rb[0] == b@[i as int]);
        if a[i] != b[i] {
            return a[i] < b[i];
        }
        assert(ra.drop_first() == a@.skip(i + 1));
        assert(rb.drop_first() == b@.skip(i + 1));
        i += 1;
    }
    assert(a@.skip(i as int).len() == a.len() - i);
    assert(b@.skip(i as int).len() == b.len() - i);
    i < b.len()
}

/// `sorted` with the position `x` entered behind the last position whose key
/// stands at or before that of `x`.
pub open spec fn place(keys: Seq<Key>, sorted: Seq<int>, x: int) -> Seq<int>
    decreases sorted.len(),
{
    if sorted.len() == 0 {
        seq![x]
    } else if key_le(keys[sorted.last()], keys[x]) {
        sorted.push(x)
    } else {
        place(keys, sorted.drop_last(), x).push(sorted.last())
    }
}

/// The first `n` positions of `keys`, arranged by ascending key; positions
/// with equal keys keep their order.
pub open spec fn ranking(keys: Seq<Key>, n: nat) -> Seq<int>
    decreases n,
{
    if n == 0 {
        Seq::empty()
    } else {
        place(keys, ranking(keys, (n - 1) as nat), n - 1)
    }
}

/// The positions of `keys`, arranged by ascending key.
pub open spec fn sorted_order(keys: Seq<Key>) -> Seq<int> {
    ranking(keys, keys.len())
}

/// Whether the keys at the positions `order` ascend.
pub open spec fn ascending(keys: Seq<Key>, order: Seq<int>) -> bool {
    forall|i: int, j: int|
        0 <= i < j < order.len() ==> key_le(keys[#[trigger] order[i]], keys[#[trigger] order[j]])
}

/// Whether `order` lists each of the positions below `n` exactly once.
pub open spec fn lists_each(order: Seq<int>, n: nat) -> bool {
    &&& order.len() == n
    &&& order.no_duplicates()
    &&& forall|i: int| 0 <= i < order.len() ==> 0 <= #[trigger] order[i] < n
}

/// Entering `x` at position `at` is what `place` does, when the items from
/// `at` on stand strictly behind `x` and the one before `at` does not.
pub proof fn lemma_place_at(keys: Seq<Key>, sorted: Seq<int>, x: int, at: int)
    requires
        0 <= at <= sorted.len(),
        forall|j: int| at <= j < sorted.len() ==> !key_le(keys[#[trigger] sorted[j]], keys[x]),
        at > 0 ==> key_le(keys[sorted[at - 1]], keys[x]),
    ensures
        place(keys, sorted, x) == sorted.insert(at, x),
    decreases sorted.len() - at,
{
    if sorted.len() == 0 {
        assert(sorted.insert(at, x) =~= seq![x]);
    } else if at == sorted.len() {
        assert(sorted.insert(at, x) =~= sorted.push(x));
    } else {
        let front = sorted.drop_last();
        assert(!key_le(keys[sorted[sorted.len() - 1]], keys[x]));
        assert forall|j: int| at <= j < front.len() implies !key_le(
            keys[#[trigger] front[j]],
            keys[x],
        ) by {
            assert(front[j] == sorted[j]);
        }
        if at > 0 {
            assert(front[at - 1] == sorted[at - 1]);
        }
        lemma_place_at(keys, front, x, at);
        assert(front.insert(at, x).push(sorted.last()) =~= sorted.insert(at, x));
    }
}

/// Entering a new position keeps an ascending listing ascending and complete.
pub proof fn lemma_place_sorted(keys: Seq<Key>, sorted: Seq<int>, n: nat)
    requires
        n < keys.len(),
        lists_each(sorted, n),
        ascending(keys, sorted),
    ensures
        lists_each(place(keys, sorted, n as int), n + 1),
        ascending(keys, place(keys, sorted, n as int)),
    decreases sorted.len(),
{
    let x = n as int;
    let out = place(keys, sorted, x);
    if sorted.len() == 0 {
    } else if key_le(keys[sorted.last()], keys[x]) {
        assert forall|i: int, j: int| 0 <= i < j < out.len() implies key_le(
            keys[#[trigger] out[i]],
            keys[#[trigger] out[j]],
        ) by {
            if j == sorted.len() {
                if i < sorted.len() - 1 {
                    assert(key_le(keys[sorted[i]], keys[sorted[sorted.len() - 1]]));
                    lemma_key_le_transitive(keys[sorted[i]], keys[sorted.last()], keys[x]);
                }
            } else {
                assert(key_le(keys[sorted[i]], keys[sorted[j]]));
            }
        }
    } else {
        let at = lemma_place_position(keys, sorted, x);
        assert(out == sorted.insert(at, x));
        assert forall|i: int, j: int| 0 <= i < j < out.len() implies key_le(
            keys[#[trigger] out[i]],
            keys[#[trigger] out[j]],
        ) by {
            let i0 = if i < at { i } else { i - 1 };
            let j0 = if j < at { j } else { j - 1 };
            if i == at {
                assert(out[j] == sorted[j0]);
                assert(!key_le(keys[sorted[j0]], keys[x]));
                lemma_key_le_total(keys[sorted[j0]], keys[x]);
            } else if j == at {
                assert(out[i] == sorted[i0]);
                if at > 0 {
                    if i0 < at - 1 {
                        assert(key_le(keys[sorted[i0]], keys[sorted[at - 1]]));
                        lemma_key_le_transitive(keys[sorted[i0]], keys[sorted[at - 1]], keys[x]);
                    }
                }
            } else {
                assert(out[i] == sorted[i0]);
                assert(out[j] == sorted[j0]);
                assert(key_le(keys[sorted[i0]], keys[sorted[j0]]));
            }
        }
        assert forall|i: int, j: int|
            0 <= i < out.len() && 0 <= j < out.len() && i != j implies out[i] != out[j] by {
            let i0 = if i < at { i } else { i - 1 };
            let j0 = if j < at { j } else { j - 1 };
            if i != at && j != at {
                assert(out[i] == sorted[i0]);
                assert(out[j] == sorted[j0]);
            } else if i == at {
                assert(out[j] == sorted[j0]);
            } else {
                assert(out[i] == sorted[i0]);
            }
        }
        assert forall|i: int| 0 <= i < out.len() implies 0 <= #[trigger] out[i] < n + 1 by {
            let i0 = if i < at { i } else { i - 1 };
            if i != at {
                assert(out[i] == sorted[i0]);
            }
        }
    }
}

/// The position at which `place` enters `x`.
pub proof fn lemma_place_position(keys: Seq<Key>, sorted: Seq<int>, x: int) -> (at: int)
    ensures
        0 <= at <= sorted.len(),
        forall|j: int| at <= j < sorted.len() ==> !key_le(keys[#[trigger] sorted[j]], keys[x]),
        at > 0 ==> key_le(keys[sorted[at - 1]], keys[x]),
        place(keys, sorted, x) == sorted.insert(at, x),
    decreases sorted.len(),
{
    if sorted.len() == 0 {
        lemma_place_at(keys, sorted, x, 0);
        0
    } else if key_le(keys[sorted.last()], keys[x]) {
        lemma_place_at(keys, sorted, x, sorted.len() as int);
        sorted.len() as int
    } else {
        let front = sorted.drop_last();
        let at = lemma_place_position(keys, front, x);
        assert forall|j: int| at <= j < sorted.len() implies !key_le(
            keys[#[trigger] sorted[j]],
            keys[x],
        ) by {
            if j < front.len() {
                assert(front[j] == sorted[j]);
            }
        }
        if at > 0 {
            assert(front[at - 1] == sorted[at - 1]);
        }
        lemma_place_at(keys, sorted, x, at);
        at
    }
}

/// The ranking of the first `n` positions lists each of them once, by
/// ascending key.
pub proof fn lemma_ranking_sorted(keys: Seq<Key>, n: nat)
    requires
        n <= keys.len(),
    ensures
        lists_each(ranking(keys, n), n),
        ascending(keys, ranking(keys, n)),
    decreases n,
{
    if n > 0 {
        lemma_ranking_sorted(keys, (n - 1) as nat);
        lemma_place_sorted(keys, ranking(keys, (n - 1) as nat), (n - 1) as nat);
    }
}

/// The keys of executable items.
pub open spec fn key_seq(v: Seq<(i64, Vec<char>)>) -> Seq<Key> {
    v.map_values(|p: (i64, Vec<char>)| (p.0 as int, p.1@))
}

/// Whether item `a` stands at or before item `b`.
pub fn item_le(a: &(i64, Vec<char>), b: &(i64, Vec<char>)) -> (r: bool)
    ensures
        r == key_le((a.0 as int, a.1@), (b.0 as int, b.1@)),
{
    a.0 < b.0 || (a.0 == b.0 && !chars_less(&b.1, &a.1))
}

/// The positions of `keys`, arranged by ascending key; positions with equal
/// keys keep their order.
pub fn sort_positions(keys: &Vec<(i64, Vec<char>)>) -> (r: Vec<usize>)
    ensures
        r@.map_values(|i: usize| i as int) == sorted_order(key_seq(keys@)),
        r.len() == keys.len(),
        forall|i: int| 0 <= i < r.len() ==> #[trigger] r@[i] < keys.len(),
{
    let ghost ks = key_seq(keys@);
    let mut out: Vec<usize> = Vec::new();
    let mut n: usize = 0;
    assert(out@.map_values(|i: usize| i as int) =~= ranking(ks, 0));
    while n < keys.len()
        invariant
            ks == key_seq(keys@),
            n <= keys.len(),
            out.len() == n,
            out@.map_values(|i: usize| i as int) == ranking(ks, n as nat),
            forall|i: int| 0 <= i < out.len() ==> #[trigger] out@[i] < n,
        decreases keys.len() - n,
    {
        let ghost before = out@.map_values(|i: usize| i as int);
        let mut at: usize = out.len();
        while at > 0 && !item_le(&keys[out[at - 1]], &keys[n])
            invariant
                ks == key_seq(keys@),
                n < keys.len(),
                at <= out.len(),
                out.len() == n,
                before == out@.map_values(|i: usize| i as int),
                forall|i: int| 0 <= i < out.len() ==> #[trigger] out@[i] < n,
                forall|j: int|
                    at <= j < before.len() ==> !key_le(ks[#[trigger] before[j]], ks[n as int]),
            decreases at,
        {
            assert(before[at - 1] == out@[at - 1] as int);
            at -= 1;
        }
        proof {
            if at > 0 {
                assert(before[at - 1] == out@[at - 1] as int);
            }
            lemma_place_at(ks, before, n as int, at as int);
        }
        out.insert(at, n);
        assert(out@.map_values(|i: usize| i as int) =~= before.insert(at as int, n as int));
        n += 1;
    }
    out
}

} // verus!
