//! Ordering of records for display: a strict total order on keys, broken by input
//! position, and an insertion sort that produces the permutation it determines.
use vstd::prelude::*;

verus! {

/// Lexicographic order on character sequences, character by code point: the order
/// `String`'s `Ord` gives (UTF-8 byte order and code-point order agree).
pub open spec fn text_lt(a: Seq<char>, b: Seq<char>) -> bool
    decreases a.len(),
{
    if a.len() == 0 {
        b.len() > 0
    } else if b.len() == 0 {
        false
    } else if a[0] != b[0] {
        (a[0] as u32) < (b[0] as u32)
    } else {
        text_lt(a.drop_first(), b.drop_first())
    }
}

/// `text_lt` is irreflexive.
pub proof fn lemma_text_lt_irreflexive(a: Seq<char>)
    ensures
        !text_lt(a, a),
    decreases a.len(),
{
    if a.len() > 0 {
        lemma_text_lt_irreflexive(a.drop_first());
    }
}

/// `text_lt` is transitive.
pub proof fn lemma_text_lt_transitive(a: Seq<char>, b: Seq<char>, c: Seq<char>)
    requires
        text_lt(a, b),
        text_lt(b, c),
    ensures
        text_lt(a, c),
    decreases a.len(),
{
    if a.len() > 0 && b.len() > 0 && c.len() > 0 {
        if a[0] == b[0] && b[0] == c[0] {
            lemma_text_lt_transitive(a.drop_first(), b.drop_first(), c.drop_first());
        }
    }
}

/// Two different sequences are ordered one way or the other, and never both ways.
pub proof fn lemma_text_lt_total(a: Seq<char>, b: Seq<char>)
    ensures
        a != b ==> (text_lt(a, b) || text_lt(b, a)),
        !(text_lt(a, b) && text_lt(b, a)),
    decreases a.len(),
{
    if a.len() > 0 && b.len() > 0 {
        lemma_text_lt_total(a.drop_first(), b.drop_first());
        if a[0] == b[0] && a != b {
            assert(a =~= seq![a[0]] + a.drop_first());
            assert(b =~= seq![b[0]] + b.drop_first());
        }
        if a[0] != b[0] {
            vstd::utf8::char_u32_cast(a[0], a[0] as u32);
            vstd::utf8::char_u32_cast(b[0], b[0] as u32);
        }
    } else if a.len() == 0 && b.len() == 0 {
        assert(a =~= b);
    }
}

/// A sort key: a rank, then a text, then a number. The text is compared ascending, or
/// descending when the sort asks for it.
pub struct SortKey {
    pub rank: u8,
    pub text: Vec<char>,
    pub number: u32,
}

impl View for SortKey {
    type V = (u8, Seq<char>, u32);

    open spec fn view(&self) -> (u8, Seq<char>, u32) {
        (self.rank, self.text@, self.number)
    }
}

/// Strict order on keys: rank ascending, then text (ascending, or descending when
/// `text_desc`), then number ascending.
pub open spec fn key_lt(x: (u8, Seq<char>, u32), y: (u8, Seq<char>, u32), text_desc: bool) -> bool {
    ||| x.0 < y.0
    ||| x.0 == y.0 && (if text_desc {
        text_lt(y.1, x.1)
    } else {
        text_lt(x.1, y.1)
    })
    ||| x.0 == y.0 && x.1 == y.1 && x.2 < y.2
}

/// Strict total order on the positions of `keys`: by key, and between equal keys by
/// position, so that a sort by it is stable.
pub open spec fn index_before(keys: Seq<(u8, Seq<char>, u32)>, text_desc: bool, i: int, j: int) -> bool {
    key_lt(keys[i], keys[j], text_desc) || (keys[i] == keys[j] && i < j)
}

/// `key_lt` is a strict total order.
pub proof fn lemma_key_lt_order(
    x: (u8, Seq<char>, u32),
    y: (u8, Seq<char>, u32),
    z: (u8, Seq<char>, u32),
    text_desc: bool,
)
    ensures
        !key_lt(x, x, text_desc),
        !(key_lt(x, y, text_desc) && key_lt(y, x, text_desc)),
        x != y ==> key_lt(x, y, text_desc) || key_lt(y, x, text_desc),
        key_lt(x, y, text_desc) && key_lt(y, z, text_desc) ==> key_lt(x, z, text_desc),
{
    lemma_text_lt_irreflexive(x.1);
    lemma_text_lt_total(x.1, y.1);
    lemma_text_lt_total(y.1, z.1);
    lemma_text_lt_total(x.1, z.1);
    if text_lt(x.1, y.1) && text_lt(y.1, z.1) {
        lemma_text_lt_transitive(x.1, y.1, z.1);
    }
    if text_lt(z.1, y.1) && text_lt(y.1, x.1) {
        lemma_text_lt_transitive(z.1, y.1, x.1);
    }
}

/// `index_before` is a strict total order on the positions of `keys`.
pub proof fn lemma_index_before_order(
    keys: Seq<(u8, Seq<char>, u32)>,
    text_desc: bool,
    i: int,
    j: int,
    k: int,
)
    ensures
        !index_before(keys, text_desc, i, i),
        !(index_before(keys, text_desc, i, j) && index_before(keys, text_desc, j, i)),
        i != j ==> index_before(keys, text_desc, i, j) || index_before(keys, text_desc, j, i),
        index_before(keys, text_desc, i, j) && index_before(keys, text_desc, j, k)
            ==> index_before(keys, text_desc, i, k),
{
    lemma_key_lt_order(keys[i], keys[j], keys[k], text_desc);
    lemma_key_lt_order(keys[j], keys[i], keys[k], text_desc);
    lemma_key_lt_order(keys[i], keys[k], keys[j], text_desc);
}

/// Whether `order` lists every position of `keys` once, sorted by `index_before`.
pub open spec fn is_sorted_permutation(
    keys: Seq<(u8, Seq<char>, u32)>,
    text_desc: bool,
    order: Seq<usize>,
) -> bool {
    &&& order.len() == keys.len()
    &&& forall|k: int| 0 <= k < order.len() ==> #[trigger] order[k] < keys.len()
    &&& forall|x: usize| x < keys.len() ==> #[trigger] order.contains(x)
    &&& forall|a: int, b: int|
        0 <= a < b < order.len() ==> index_before(
            keys,
            text_desc,
            #[trigger] order[a] as int,
            #[trigger] order[b] as int,
        )
}

/// The prefix of length `k + 1` of two sorted permutations of the same keys agree.
proof fn lemma_sorted_prefix_agrees(
    keys: Seq<(u8, Seq<char>, u32)>,
    text_desc: bool,
    o1: Seq<usize>,
    o2: Seq<usize>,
    k: int,
)
    requires
        is_sorted_permutation(keys, text_desc, o1),
        is_sorted_permutation(keys, text_desc, o2),
        0 <= k < o1.len(),
    ensures
        forall|j: int| 0 <= j <= k ==> #[trigger] o1[j] == o2[j],
    decreases k,
{
    if k > 0 {
        lemma_sorted_prefix_agrees(keys, text_desc, o1, o2, k - 1);
    }
    let x = o1[k];
    let y = o2[k];
    if x != y {
        lemma_index_before_order(keys, text_desc, x as int, y as int, x as int);
        assert(o2.contains(x));
        let m = choose|m: int| 0 <= m < o2.len() && o2[m] == x;
        assert(o1.contains(y));
        let m1 = choose|m: int| 0 <= m < o1.len() && o1[m] == y;
        if m < k {
            assert(o1[m] == x);
            lemma_index_before_order(keys, text_desc, x as int, x as int, x as int);
        } else if m1 < k {
            assert(o2[m1] == y);
            lemma_index_before_order(keys, text_desc, y as int, y as int, y as int);
        } else {
            assert(index_before(keys, text_desc, y as int, x as int));
            assert(index_before(keys, text_desc, x as int, y as int));
        }
    }
}

/// There is only one sorted permutation of a sequence of keys: the order the sort
/// produces is fully determined, ties included.
pub proof fn lemma_sorted_permutation_unique(
    keys: Seq<(u8, Seq<char>, u32)>,
    text_desc: bool,
    o1: Seq<usize>,
    o2: Seq<usize>,
)
    requires
        is_sorted_permutation(keys, text_desc, o1),
        is_sorted_permutation(keys, text_desc, o2),
    ensures
        o1 == o2,
{
    if o1.len() > 0 {
        lemma_sorted_prefix_agrees(keys, text_desc, o1, o2, o1.len() - 1);
    }
    assert(o1 =~= o2);
}

/// Whether `a` comes before `b` in code-point order.
pub fn text_before(a: &Vec<char>, b: &Vec<char>) -> (r: bool)
    ensures
        r == text_lt(a@, b@),
{
    let mut i: usize = 0;
    assert(a@.skip(0) =~= a@);
    assert(b@.skip(0) =~= b@);
    while i < a.len() && i < b.len() && a[i] == b[i]
        invariant
            i <= a@.len(),
            i <= b@.len(),
            text_lt(a@, b@) == text_lt(a@.skip(i as int), b@.skip(i as int)),
        decreases a@.len() - i,
    {
        assert(a@.skip(i as int).drop_first() =~= a@.skip(i + 1));
        assert(b@.skip(i as int).drop_first() =~= b@.skip(i + 1));
        i = i + 1;
    }
    if i == a.len() {
        i < b.len()
    } else if i == b.len() {
        false
    } else {
        (a[i] as u32) < (b[i] as u32)
    }
}

/// Executable form of [`key_lt`].
pub fn key_before(x: &SortKey, y: &SortKey, text_desc: bool) -> (r: bool)
    ensures
        r == key_lt(x@, y@, text_desc),
{
    if x.rank != y.rank {
        return x.rank < y.rank;
    }
    let xy = text_before(&x.text, &y.text);
    let yx = text_before(&y.text, &x.text);
    proof {
        lemma_text_lt_total(x.text@, y.text@);
    }
    if text_desc {
        if yx {
            return true;
        }
        if xy {
            return false;
        }
    } else {
        if xy {
            return true;
        }
        if yx {
            return false;
        }
    }
    x.number < y.number
}

/// The view of every key of `keys`.
pub open spec fn key_views(keys: Seq<SortKey>) -> Seq<(u8, Seq<char>, u32)> {
    Seq::new(keys.len(), |i: int| keys[i]@)
}

/// The positions of `keys`, sorted by key (text descending when `text_desc`), equal keys
/// keeping their input order.
pub fn sort_indices(keys: &Vec<SortKey>, text_desc: bool) -> (order: Vec<usize>)
    ensures
        is_sorted_permutation(key_views(keys@), text_desc, order@),
{
    let ghost kv = key_views(keys@);
    let mut order: Vec<usize> = Vec::new();
    let mut i: usize = 0;
    while i < keys.len()
        invariant
            i <= keys@.len(),
            kv == key_views(keys@),
            order@.len() == i,
            forall|k: int| 0 <= k < order@.len() ==> #[trigger] order@[k] < i,
            forall|x: usize| x < i ==> #[trigger] order@.contains(x),
            forall|a: int, b: int|
                0 <= a < b < order@.len() ==> index_before(
                    kv,
                    text_desc,
                    #[trigger] order@[a] as int,
                    #[trigger] order@[b] as int,
                ),
        decreases keys@.len() - i,
    {
        let mut p: usize = 0;
        while p < order.len() && !key_before(&keys[i], &keys[order[p]], text_desc)
            invariant
                i < keys@.len(),
                kv == key_views(keys@),
                order@.len() == i,
                p <= order@.len(),
                forall|k: int| 0 <= k < order@.len() ==> #[trigger] order@[k] < i,
                forall|a: int| 0 <= a < p ==> index_before(kv, text_desc, #[trigger] order@[a] as int, i as int),
            decreases order@.len() - p,
        {
            proof {
                let q = order@[p as int] as int;
                lemma_index_before_order(kv, text_desc, i as int, q, q);
                assert(kv[i as int] == keys@[i as int]@);
                assert(kv[q] == keys@[q]@);
            }
            p = p + 1;
        }
        let ghost old_order = order@;
        proof {
            if p < order@.len() {
                let q = order@[p as int] as int;
                assert(kv[i as int] == keys@[i as int]@);
                assert(kv[q] == keys@[q]@);
                assert(index_before(kv, text_desc, i as int, q));
                assert forall|b: int| p <= b < old_order.len() implies index_before(
                    kv,
                    text_desc,
                    i as int,
                    #[trigger] old_order[b] as int,
                ) by {
                    if b > p {
                        lemma_index_before_order(kv, text_desc, i as int, q, old_order[b] as int);
                    }
                }
            }
        }
        order.insert(p, i);
        proof {
            assert(order@ =~= old_order.insert(p as int, i));
            assert forall|x: usize| x < i + 1 implies #[trigger] order@.contains(x) by {
                if x == i {
                    assert(order@[p as int] == i);
                } else {
                    assert(old_order.contains(x));
                    let k = choose|k: int| 0 <= k < old_order.len() && old_order[k] == x;
                    if k < p {
                        assert(order@[k] == x);
                    } else {
                        assert(order@[k + 1] == x);
                    }
                }
            }
            assert forall|a: int, b: int| 0 <= a < b < order@.len() implies index_before(
                kv,
                text_desc,
                #[trigger] order@[a] as int,
                #[trigger] order@[b] as int,
            ) by {
                if b < p {
                    assert(order@[a] == old_order[a] && order@[b] == old_order[b]);
                } else if b == p {
                    assert(order@[a] == old_order[a]);
                } else if a < p {
                    assert(order@[a] == old_order[a] && order@[b] == old_order[b - 1]);
                    lemma_index_before_order(kv, text_desc, old_order[a] as int, i as int, old_order[b - 1] as int);
                } else if a == p {
                    assert(order@[b] == old_order[b - 1]);
                } else {
                    assert(order@[a] == old_order[a - 1] && order@[b] == old_order[b - 1]);
                }
            }
        }
        i = i + 1;
    }
    order
}

} // verus!
