//! A stable ordering of items by a composite key: two integers compared in
//! descending order, then a text compared in ascending order, then the
//! position in the input.

use vstd::prelude::*;

use crate::text::{
    chars_less, lemma_seq_less_asymmetric, lemma_seq_less_irreflexive, lemma_seq_less_total,
    lemma_seq_less_transitive, seq_less,
};

verus! {

/// Sort key of one item.
#[derive(Debug, Clone)]
pub struct SortKey {
    /// Compared first, larger first.
    pub major: i64,
    /// Compared second, larger first.
    pub minor: i64,
    /// Compared third, lexicographically smaller first.
    pub text: Vec<char>,
}

/// Mathematical form of a sort key.
pub struct KeyView {
    pub major: int,
    pub minor: int,
    pub text: Seq<char>,
}

impl DeepView for SortKey {
    type V = KeyView;

    open spec fn deep_view(&self) -> KeyView {
        KeyView { major: self.major as int, minor: self.minor as int, text: self.text@ }
    }
}

/// `a` sorts strictly before `b` by key alone.
pub open spec fn key_before(a: KeyView, b: KeyView) -> bool {
    a.major > b.major || (a.major == b.major && (a.minor > b.minor || (a.minor == b.minor
        && seq_less(a.text, b.text))))
}

pub open spec fn key_equal(a: KeyView, b: KeyView) -> bool {
    a.major == b.major && a.minor == b.minor && a.text == b.text
}

/// Item `i` sorts before item `j`: by key, and equal keys keep their
/// input order (a stable sort).
pub open spec fn index_before(keys: Seq<KeyView>, i: int, j: int) -> bool {
    key_before(keys[i], keys[j]) || (key_equal(keys[i], keys[j]) && i < j)
}

/// `order` lists every index of `keys` exactly once, in sorted order.
pub open spec fn sorted_order(keys: Seq<KeyView>, order: Seq<usize>) -> bool {
    &&& order.len() == keys.len()
    &&& forall|a: int| 0 <= a < order.len() ==> #[trigger] order[a] < keys.len()
    &&& forall|a: int, b: int| 0 <= a < b < order.len() ==> index_before(
        keys,
        #[trigger] order[a] as int,
        #[trigger] order[b] as int,
    )
}

pub proof fn lemma_index_before_irreflexive(keys: Seq<KeyView>, i: int)
    ensures
        !index_before(keys, i, i),
{
    lemma_seq_less_irreflexive(keys[i].text);
}

pub proof fn lemma_index_before_asymmetric(keys: Seq<KeyView>, i: int, j: int)
    ensures
        !(index_before(keys, i, j) && index_before(keys, j, i)),
{
    lemma_seq_less_asymmetric(keys[i].text, keys[j].text);
    lemma_seq_less_irreflexive(keys[i].text);
    lemma_seq_less_irreflexive(keys[j].text);
}

pub proof fn lemma_index_before_total(keys: Seq<KeyView>, i: int, j: int)
    requires
        i != j,
    ensures
        index_before(keys, i, j) || index_before(keys, j, i),
{
    lemma_seq_less_total(keys[i].text, keys[j].text);
}

pub proof fn lemma_index_before_transitive(keys: Seq<KeyView>, i: int, j: int, k: int)
    requires
        index_before(keys, i, j),
        index_before(keys, j, k),
    ensures
        index_before(keys, i, k),
{
    let (a, b, c) = (keys[i], keys[j], keys[k]);
    if a.major == b.major && b.major == c.major && a.minor == b.minor && b.minor == c.minor {
        if seq_less(a.text, b.text) && seq_less(b.text, c.text) {
            lemma_seq_less_transitive(a.text, b.text, c.text);
        }
    }
}

/// A sorted listing of every index is unique: the order is fully determined.
pub proof fn law_sorted_order_unique(keys: Seq<KeyView>, o1: Seq<usize>, o2: Seq<usize>)
    requires
        sorted_order(keys, o1),
        sorted_order(keys, o2),
    ensures
        o1 == o2,
{
    lemma_sorted_lists_all(keys, o1);
    lemma_sorted_lists_all(keys, o2);
    assert forall|k: int| 0 <= k < o1.len() implies o1[k] == o2[k] by {
        lemma_same_prefix(keys, o1, o2, k);
    }
    assert(o1 =~= o2);
}

/// `x` occurs in `o`.
pub open spec fn lists(o: Seq<usize>, x: int) -> bool {
    exists|p: int| 0 <= p < o.len() && #[trigger] o[p] == x
}

pub proof fn lemma_sorted_distinct(keys: Seq<KeyView>, o: Seq<usize>, a: int, b: int)
    requires
        sorted_order(keys, o),
        0 <= a < o.len(),
        0 <= b < o.len(),
        a != b,
    ensures
        o[a] != o[b],
{
    if a < b {
        assert(index_before(keys, o[a] as int, o[b] as int));
        if o[a] == o[b] {
            lemma_index_before_irreflexive(keys, o[a] as int);
        }
    } else {
        assert(index_before(keys, o[b] as int, o[a] as int));
        if o[a] == o[b] {
            lemma_index_before_irreflexive(keys, o[a] as int);
        }
    }
}

/// A sorted listing contains every index (pigeonhole on distinct entries).
proof fn lemma_sorted_lists_all(keys: Seq<KeyView>, o: Seq<usize>)
    requires
        sorted_order(keys, o),
    ensures
        forall|x: int| 0 <= x < keys.len() ==> #[trigger] lists(o, x),
{
    assert forall|x: int| 0 <= x < keys.len() implies #[trigger] lists(o, x) by {
        if forall|p: int| 0 <= p < o.len() ==> #[trigger] o[p] != x {
            let m = o.map_values(|v: usize| v as int);
            let s = m.to_set();
            let full = Set::new(|v: int| 0 <= v < keys.len());
            assert(s.subset_of(full.remove(x))) by {
                assert forall|v: int| s.contains(v) implies full.remove(x).contains(v) by {
                    assert(m.contains(v));
                    let p = choose|p: int| 0 <= p < m.len() && #[trigger] m[p] == v;
                    assert(o[p] as int == v);
                }
            }
            lemma_int_range_set_len(keys.len() as int);
            assert(full.remove(x).len() == keys.len() - 1);
            vstd::set_lib::lemma_len_subset(s, full.remove(x));
            lemma_distinct_map_len(keys, o);
        }
    }
}

proof fn lemma_int_range_set_len(n: int)
    requires
        n >= 0,
    ensures
        Set::new(|v: int| 0 <= v < n).finite(),
        Set::new(|v: int| 0 <= v < n).len() == n,
    decreases n,
{
    if n == 0 {
        assert(Set::new(|v: int| 0 <= v < n) =~= Set::<int>::empty());
    } else {
        lemma_int_range_set_len(n - 1);
        assert(Set::new(|v: int| 0 <= v < n) =~= Set::new(|v: int| 0 <= v < n - 1).insert(
            n - 1,
        ));
    }
}

proof fn lemma_distinct_map_len(keys: Seq<KeyView>, o: Seq<usize>)
    requires
        sorted_order(keys, o),
    ensures
        o.map_values(|v: usize| v as int).to_set().len() == o.len(),
{
    let m = o.map_values(|v: usize| v as int);
    assert(m.no_duplicates()) by {
        assert forall|a: int, b: int| 0 <= a < m.len() && 0 <= b < m.len() && a != b implies m[a]
            != m[b] by {
            lemma_sorted_distinct(keys, o, a, b);
        }
    }
    m.unique_seq_to_set();
}

proof fn lemma_same_prefix(keys: Seq<KeyView>, o1: Seq<usize>, o2: Seq<usize>, k: int)
    requires
        sorted_order(keys, o1),
        sorted_order(keys, o2),
        forall|x: int| 0 <= x < keys.len() ==> #[trigger] lists(o1, x),
        forall|x: int| 0 <= x < keys.len() ==> #[trigger] lists(o2, x),
        0 <= k < o1.len(),
    ensures
        o1[k] == o2[k],
    decreases k,
{
    if k > 0 {
        lemma_same_prefix(keys, o1, o2, k - 1);
    }
    assert forall|q: int| 0 <= q < k implies o1[q] == o2[q] by {
        lemma_same_prefix(keys, o1, o2, q);
    }
    let x = o1[k] as int;
    let y = o2[k] as int;
    if x != y {
        assert(lists(o2, x));
        assert(lists(o1, y));
        let m2 = choose|p: int| 0 <= p < o2.len() && #[trigger] o2[p] == x;
        let m1 = choose|p: int| 0 <= p < o1.len() && #[trigger] o1[p] == y;
        if m2 < k {
            assert(o1[m2] == o2[m2]);
            lemma_sorted_distinct(keys, o1, m2, k);
        }
        if m1 < k {
            assert(o1[m1] == o2[m1]);
            lemma_sorted_distinct(keys, o2, m1, k);
        }
        assert(m2 > k && m1 > k);
        assert(index_before(keys, o2[k] as int, o2[m2] as int));
        assert(index_before(keys, o1[k] as int, o1[m1] as int));
        lemma_index_before_asymmetric(keys, x, y);
    }
}

fn key_before_exec(a: &SortKey, b: &SortKey) -> (r: bool)
    ensures
        r == key_before(a.deep_view(), b.deep_view()),
{
    if a.major != b.major {
        a.major > b.major
    } else if a.minor != b.minor {
        a.minor > b.minor
    } else {
        chars_less(&a.text, &b.text)
    }
}

/// The stable sorted order of the items: each index once, larger `major`
/// first, then larger `minor`, then smaller `text`, then input position.
pub fn sort_order(keys: &Vec<SortKey>) -> (order: Vec<usize>)
    ensures
        sorted_order(keys.deep_view(), order@),
{
    let n = keys.len();
    let mut order: Vec<usize> = Vec::new();
    for i in 0..n
        invariant
            n == keys@.len(),
            order@.len() == i,
            forall|a: int| 0 <= a < order@.len() ==> #[trigger] order@[a] < i,
            forall|a: int, b: int|
                0 <= a < b < order@.len() ==> index_before(
                    keys.deep_view(),
                    #[trigger] order@[a] as int,
                    #[trigger] order@[b] as int,
                ),
    {
        let mut p: usize = 0;
        while p < order.len() && !key_before_exec(&keys[i], &keys[order[p]])
            invariant
                n == keys@.len(),
                i < n,
                order@.len() == i,
                p <= order@.len(),
                forall|a: int| 0 <= a < order@.len() ==> #[trigger] order@[a] < i,
                forall|a: int| 0 <= a < p ==> !key_before(keys.deep_view()[i as int], keys.deep_view()[#[trigger] order@[a] as int]),
            decreases order@.len() - p,
        {
            p = p + 1;
        }
        let ghost old_order = order@;
        proof {
            assert forall|a: int| 0 <= a < p implies index_before(keys.deep_view(), #[trigger] old_order[a] as int, i as int) by {
                lemma_index_before_total(keys.deep_view(), old_order[a] as int, i as int);
            }
            if p < old_order.len() {
                assert(index_before(keys.deep_view(), i as int, old_order[p as int] as int));
                assert forall|a: int| p <= a < old_order.len() implies index_before(keys.deep_view(), i as int, #[trigger] old_order[a] as int) by {
                    if a > p {
                        lemma_index_before_transitive(keys.deep_view(), i as int, old_order[p as int] as int, old_order[a] as int);
                    }
                }
            }
        }
        order.insert(p, i);
        proof {
            let s = order@;
            assert forall|a: int| 0 <= a < s.len() implies #[trigger] s[a] < i + 1 by {
                if a < p {
                    assert(s[a] == old_order[a]);
                } else if a > p {
                    assert(s[a] == old_order[a - 1]);
                }
            }
            assert forall|a: int, b: int| 0 <= a < b < s.len() implies index_before(
                keys.deep_view(),
                #[trigger] s[a] as int,
                #[trigger] s[b] as int,
            ) by {
                if b < p {
                    assert(s[a] == old_order[a] && s[b] == old_order[b]);
                } else if b == p {
                    assert(s[a] == old_order[a]);
                } else if a < p {
                    assert(s[a] == old_order[a] && s[b] == old_order[b - 1]);
                    lemma_index_before_transitive(keys.deep_view(), s[a] as int, i as int, s[b] as int);
                } else if a == p {
                    assert(s[b] == old_order[b - 1]);
                } else {
                    assert(s[a] == old_order[a - 1] && s[b] == old_order[b - 1]);
                }
            }
        }
    }
    order
}


/// `order` lists distinct indices below `n`, `n` of them.
pub open spec fn is_permutation(order: Seq<usize>, n: nat) -> bool {
    &&& order.len() == n
    &&& forall|a: int| 0 <= a < order.len() ==> #[trigger] order[a] < n
    &&& forall|a: int, b: int| 0 <= a < b < order.len() ==> #[trigger] order[a] != #[trigger] order[b]
}

pub proof fn lemma_sorted_is_permutation(keys: Seq<KeyView>, o: Seq<usize>)
    requires
        sorted_order(keys, o),
    ensures
        is_permutation(o, keys.len()),
{
    assert forall|a: int, b: int| 0 <= a < b < o.len() implies #[trigger] o[a] != #[trigger] o[b] by {
        lemma_sorted_distinct(keys, o, a, b);
    }
}

/// Rearranges items: the `k`-th output is the item at `order[k]`.
pub fn permute<T>(items: Vec<T>, order: &Vec<usize>) -> (r: Vec<T>)
    requires
        is_permutation(order@, items@.len()),
    ensures
        r@.len() == order@.len(),
        forall|k: int| 0 <= k < order@.len() ==> r@[k] == items@[#[trigger] order@[k] as int],
{
    let n = items.len();
    let ghost input_items = items@;
    let mut items = items;
    let mut slots: Vec<Option<T>> = Vec::new();
    while items.len() > 0
        invariant
            items@.len() + slots@.len() == n,
            n == input_items.len(),
            items@ == input_items.take(items@.len() as int),
            forall|j: int| 0 <= j < slots@.len() ==> #[trigger] slots@[j] == Some(input_items[n - 1 - j]),
        decreases items@.len(),
    {
        let x = items.pop().unwrap();
        slots.push(Some(x));
        assert(items@ =~= input_items.take(items@.len() as int));
    }
    let mut out: Vec<T> = Vec::new();
    let m = order.len();
    for k in 0..m
        invariant
            m == order@.len() == n,
            n == input_items.len(),
            slots@.len() == n,
            is_permutation(order@, n as nat),
            out@.len() == k,
            forall|q: int| 0 <= q < k ==> out@[q] == input_items[#[trigger] order@[q] as int],
            forall|j: int|
                0 <= j < n ==> (#[trigger] slots@[j] == Some(input_items[n - 1 - j]) || exists|q: int|
                    0 <= q < k && order@[q] == n - 1 - j),
            forall|j: int|
                0 <= j < n ==> (slots@[j] is Some || exists|q: int|
                    0 <= q < k && #[trigger] order@[q] == n - 1 - j),
            forall|q: int| 0 <= q < k ==> #[trigger] slots@[n - 1 - order@[q]] is None,
    {
        let idx = order[k];
        let slot = n - 1 - idx;
        assert forall|q: int| 0 <= q < k implies #[trigger] order@[q] != idx by {}
        assert(slots@[slot as int] == Some(input_items[idx as int]));
        let mut taken: Option<T> = None;
        std::mem::swap(&mut taken, &mut slots[slot]);
        match taken {
            Some(x) => {
                out.push(x);
            },
            None => {},
        }
    }
    out
}

} // verus!
