//! Sort keys and the deterministic sorting that every report relies on.
use vstd::prelude::*;

use crate::text::{flip, lemma_text_order, lemma_text_order_transitive, text_order, then, Order};

verus! {

/// One component of a sort key.
pub enum KeyPart {
    Num(int),
    Text(Seq<char>),
}

/// Order of key components: numbers by value, texts lexicographically, and
/// every number before every text.
pub open spec fn part_order(a: KeyPart, b: KeyPart) -> Order {
    match (a, b) {
        (KeyPart::Num(x), KeyPart::Num(y)) => if x < y {
            Order::Less
        } else if x > y {
            Order::Greater
        } else {
            Order::Equal
        },
        (KeyPart::Text(x), KeyPart::Text(y)) => text_order(x, y),
        (KeyPart::Num(_), KeyPart::Text(_)) => Order::Less,
        (KeyPart::Text(_), KeyPart::Num(_)) => Order::Greater,
    }
}

/// Lexicographic order of sort keys.
pub open spec fn key_order(a: Seq<KeyPart>, b: Seq<KeyPart>) -> Order
    decreases a.len(),
{
    if a.len() == 0 {
        if b.len() == 0 {
            Order::Equal
        } else {
            Order::Less
        }
    } else if b.len() == 0 {
        Order::Greater
    } else {
        then(part_order(a[0], b[0]), key_order(a.drop_first(), b.drop_first()))
    }
}

/// `a` sorts no later than `b`.
pub open spec fn key_le(a: Seq<KeyPart>, b: Seq<KeyPart>) -> bool {
    key_order(a, b) != Order::Greater
}

proof fn lemma_part_order(a: KeyPart, b: KeyPart, c: KeyPart)
    ensures
        (part_order(a, b) == Order::Equal) == (a == b),
        part_order(b, a) == flip(part_order(a, b)),
        part_order(a, b) == Order::Less && part_order(b, c) == Order::Less ==> part_order(a, c)
            == Order::Less,
{
    match (a, b) {
        (KeyPart::Text(x), KeyPart::Text(y)) => {
            lemma_text_order(x, y);
        },
        _ => {},
    }
    match (a, b, c) {
        (KeyPart::Text(x), KeyPart::Text(y), KeyPart::Text(z)) => {
            if part_order(a, b) == Order::Less && part_order(b, c) == Order::Less {
                lemma_text_order_transitive(x, y, z);
            }
        },
        _ => {},
    }
}

/// `key_order` is an order: `Equal` exactly on equal keys, antisymmetric,
/// and transitive.
pub proof fn lemma_key_order(a: Seq<KeyPart>, b: Seq<KeyPart>)
    ensures
        (key_order(a, b) == Order::Equal) == (a == b),
        key_order(b, a) == flip(key_order(a, b)),
    decreases a.len(),
{
    if a.len() > 0 && b.len() > 0 {
        lemma_part_order(a[0], b[0], a[0]);
        lemma_key_order(a.drop_first(), b.drop_first());
        if a[0] == b[0] && a.drop_first() == b.drop_first() {
            assert(a =~= seq![a[0]] + a.drop_first());
            assert(b =~= seq![b[0]] + b.drop_first());
        }
    }
    if a.len() == 0 && b.len() == 0 {
        assert(a =~= b);
    }
}

/// Transitivity of `key_order` for `Less`.
pub proof fn lemma_key_order_transitive(a: Seq<KeyPart>, b: Seq<KeyPart>, c: Seq<KeyPart>)
    requires
        key_order(a, b) == Order::Less,
        key_order(b, c) == Order::Less,
    ensures
        key_order(a, c) == Order::Less,
    decreases a.len(),
{
    if a.len() > 0 && b.len() > 0 && c.len() > 0 {
        lemma_part_order(a[0], b[0], c[0]);
        lemma_part_order(a[0], c[0], b[0]);
        lemma_part_order(b[0], c[0], a[0]);
        if part_order(a[0], b[0]) == Order::Equal && part_order(b[0], c[0]) == Order::Equal {
            lemma_key_order_transitive(a.drop_first(), b.drop_first(), c.drop_first());
        }
    }
}

/// `key_le` is transitive.
pub proof fn lemma_key_le_transitive(a: Seq<KeyPart>, b: Seq<KeyPart>, c: Seq<KeyPart>)
    requires
        key_le(a, b),
        key_le(b, c),
    ensures
        key_le(a, c),
{
    lemma_key_order(a, b);
    lemma_key_order(b, c);
    lemma_key_order(a, c);
    if key_order(a, b) == Order::Less && key_order(b, c) == Order::Less {
        lemma_key_order_transitive(a, b, c);
    }
}

/// A value with a sort key and an executable comparison that agrees with it.
pub trait Keyed: Sized {
    spec fn key(&self) -> Seq<KeyPart>;

    fn compare_key(&self, other: &Self) -> (r: Order)
        ensures
            r == key_order(self.key(), other.key()),
    ;
}

/// Every element sorts no later than every later element.
pub open spec fn sorted_by_key<T: Keyed>(s: Seq<T>) -> bool {
    forall|i: int, j: int| 0 <= i < j < s.len() ==> key_le(#[trigger] s[i].key(), #[trigger] s[j].key())
}

/// Every element sorts strictly before every later element.
pub open spec fn strictly_sorted_by_key<T: Keyed>(s: Seq<T>) -> bool {
    forall|i: int, j: int|
        0 <= i < j < s.len() ==> key_order(#[trigger] s[i].key(), #[trigger] s[j].key())
            == Order::Less
}

/// Two values with equal sort keys.
pub open spec fn same_key<T: Keyed>(a: T, b: T) -> bool {
    a.key() == b.key()
}

/// Every key of `s` is the key of some element of `r`.
pub open spec fn covers_keys<T: Keyed>(r: Seq<T>, s: Seq<T>) -> bool {
    forall|i: int| 0 <= i < s.len() ==> #[trigger] has_key_of(r, s[i])
}

/// Some element of `r` has the key of `x`.
pub open spec fn has_key_of<T: Keyed>(r: Seq<T>, x: T) -> bool {
    exists|j: int| 0 <= j < r.len() && same_key(#[trigger] r[j], x)
}

/// Two strictly sorted sequences whose elements have the same keys list the same
/// keys in the same order.
pub proof fn lemma_strictly_sorted_same_keys<T: Keyed>(a: Seq<T>, b: Seq<T>)
    requires
        strictly_sorted_by_key(a),
        strictly_sorted_by_key(b),
        forall|i: int| 0 <= i < a.len() ==> #[trigger] has_key_of(b, a[i]),
        forall|j: int| 0 <= j < b.len() ==> #[trigger] has_key_of(a, b[j]),
    ensures
        a.len() == b.len(),
        forall|i: int| 0 <= i < a.len() ==> #[trigger] a[i].key() == b[i].key(),
    decreases a.len(),
{
    if a.len() == 0 {
        if b.len() > 0 {
            assert(has_key_of(a, b[0]));
        }
    } else if b.len() == 0 {
        assert(has_key_of(b, a[0]));
    } else {
        assert(has_key_of(b, a[0]));
        let j = choose|j: int| 0 <= j < b.len() && same_key(#[trigger] b[j], a[0]);
        assert(has_key_of(a, b[0]));
        let k = choose|k: int| 0 <= k < a.len() && same_key(#[trigger] a[k], b[0]);
        if j > 0 {
            assert(key_order(b[0].key(), b[j].key()) == Order::Less);
            if k > 0 {
                assert(key_order(a[0].key(), a[k].key()) == Order::Less);
                lemma_key_order_transitive(a[0].key(), b[0].key(), a[0].key());
                lemma_key_order(a[0].key(), a[0].key());
            } else {
                lemma_key_order(a[0].key(), a[0].key());
            }
            assert(false);
        }
        assert(a[0].key() == b[0].key());
        let a1 = a.drop_first();
        let b1 = b.drop_first();
        assert forall|i: int| 0 <= i < a1.len() implies #[trigger] has_key_of(b1, a1[i]) by {
            assert(a1[i] == a[i + 1]);
            assert(has_key_of(b, a[i + 1]));
            let m = choose|m: int| 0 <= m < b.len() && same_key(#[trigger] b[m], a[i + 1]);
            assert(key_order(a[0].key(), a[i + 1].key()) == Order::Less);
            if m == 0 {
                lemma_key_order(a[0].key(), a[0].key());
                assert(false);
            }
            assert(b1[m - 1] == b[m]);
            assert(same_key(b1[m - 1], a1[i]));
        }
        assert forall|i: int| 0 <= i < b1.len() implies #[trigger] has_key_of(a1, b1[i]) by {
            assert(b1[i] == b[i + 1]);
            assert(has_key_of(a, b[i + 1]));
            let m = choose|m: int| 0 <= m < a.len() && same_key(#[trigger] a[m], b[i + 1]);
            assert(key_order(b[0].key(), b[i + 1].key()) == Order::Less);
            if m == 0 {
                lemma_key_order(b[0].key(), b[0].key());
                assert(false);
            }
            assert(a1[m - 1] == a[m]);
            assert(same_key(a1[m - 1], b1[i]));
        }
        assert(strictly_sorted_by_key(a1)) by {
            assert forall|x: int, y: int| 0 <= x < y < a1.len() implies key_order(
                #[trigger] a1[x].key(),
                #[trigger] a1[y].key(),
            ) == Order::Less by {
                assert(a1[x] == a[x + 1] && a1[y] == a[y + 1]);
            }
        }
        assert(strictly_sorted_by_key(b1)) by {
            assert forall|x: int, y: int| 0 <= x < y < b1.len() implies key_order(
                #[trigger] b1[x].key(),
                #[trigger] b1[y].key(),
            ) == Order::Less by {
                assert(b1[x] == b[x + 1] && b1[y] == b[y + 1]);
            }
        }
        lemma_strictly_sorted_same_keys(a1, b1);
        assert forall|i: int| 0 <= i < a.len() implies #[trigger] a[i].key() == b[i].key() by {
            if i > 0 {
                assert(a1[i - 1] == a[i] && b1[i - 1] == b[i]);
            }
        }
    }
}

/// Position after the last element of the sorted `out` that sorts no later
/// than `x` (insertion there keeps equal keys in arrival order).
fn insertion_point<T: Keyed>(out: &Vec<T>, x: &T) -> (p: usize)
    requires
        sorted_by_key(out@),
    ensures
        p <= out@.len(),
        forall|i: int| 0 <= i < p ==> key_le(#[trigger] out@[i].key(), x.key()),
        forall|i: int| p <= i < out@.len() ==> key_order(x.key(), #[trigger] out@[i].key()) == Order::Less,
{
    let mut p = out.len();
    while p > 0 && out[p - 1].compare_key(x) == Order::Greater
        invariant
            p <= out@.len(),
            sorted_by_key(out@),
            forall|i: int| p <= i < out@.len() ==> key_order(x.key(), #[trigger] out@[i].key()) == Order::Less,
        decreases p,
    {
        proof {
            lemma_key_order(out@[p - 1].key(), x.key());
        }
        p = p - 1;
    }
    proof {
        assert forall|i: int| 0 <= i < p implies key_le(#[trigger] out@[i].key(), x.key()) by {
            if i < p - 1 {
                lemma_key_le_transitive(out@[i].key(), out@[p - 1].key(), x.key());
            }
        }
    }
    p
}

/// Where a stable insertion places `x` in `out`: after the last element
/// that does not sort after it.
pub open spec fn insert_point<T: Keyed>(out: Seq<T>, x: T) -> int
    decreases out.len(),
{
    if out.len() == 0 {
        0
    } else if key_order(out.last().key(), x.key()) == Order::Greater {
        insert_point(out.drop_last(), x)
    } else {
        out.len() as int
    }
}

/// The stable sort of `s` by key: each element in turn is inserted after
/// every element before it that does not sort after it, so elements with
/// equal keys keep their order.
pub open spec fn stable_sort<T: Keyed>(s: Seq<T>) -> Seq<T>
    decreases s.len(),
{
    if s.len() == 0 {
        Seq::empty()
    } else {
        let o = stable_sort(s.drop_last());
        o.insert(insert_point(o, s.last()), s.last())
    }
}

proof fn lemma_insert_point_bounds<T: Keyed>(out: Seq<T>, x: T)
    ensures
        0 <= insert_point(out, x) <= out.len(),
        forall|i: int| insert_point(out, x) <= i < out.len() ==> key_order(#[trigger] out[i].key(), x.key()) == Order::Greater,
        insert_point(out, x) > 0 ==> key_order(out[insert_point(out, x) - 1].key(), x.key()) != Order::Greater,
    decreases out.len(),
{
    if out.len() > 0 && key_order(out.last().key(), x.key()) == Order::Greater {
        lemma_insert_point_bounds(out.drop_last(), x);
        assert forall|i: int| insert_point(out, x) <= i < out.len() implies key_order(#[trigger] out[i].key(), x.key()) == Order::Greater by {
            if i < out.len() - 1 {
                assert(out[i] == out.drop_last()[i]);
            }
        }
    }
}

/// Sorts by key, keeping elements with equal keys in their original order
/// (insertion sort).
pub fn sort_by_key<T: Keyed>(v: Vec<T>) -> (r: Vec<T>)
    ensures
        r@ == stable_sort(v@),
        sorted_by_key(r@),
        r@.to_multiset() == v@.to_multiset(),
{
    broadcast use vstd::seq_lib::group_to_multiset_ensures;
    let mut input = v;
    let mut out: Vec<T> = Vec::new();
    let ghost original = input@;
    let ghost mut taken: int = 0;
    while input.len() > 0
        invariant
            sorted_by_key(out@),
            out@.to_multiset().add(input@.to_multiset()) == original.to_multiset(),
            original == v@,
            0 <= taken <= original.len(),
            input@ == original.skip(taken),
            out@ == stable_sort(original.take(taken)),
        decreases input@.len(),
    {
        let ghost input_before = input@;
        let x = input.remove(0);
        proof {
            assert(x == original[taken]);
            assert(original.take(taken + 1).drop_last() =~= original.take(taken));
            assert(original.take(taken + 1).last() == x);
            lemma_insert_point_bounds(out@, x);
        }
        proof {
            vstd::seq_lib::to_multiset_remove(input_before, 0);
            assert(input_before.remove(0) =~= input@);
        }
        let p = insertion_point(&out, &x);
        let ghost before = out@;
        let ghost xk = x.key();
        let ghost xv = x;
        proof {
            let q = insert_point(before, xv);
            if q < p {
                lemma_key_order(before[q].key(), xk);
            } else if p < q {
                lemma_key_order(before[q - 1].key(), xk);
            }
            assert(q == p);
        }
        out.insert(p, x);
        proof {
            taken = taken + 1;
            assert(input@ =~= original.skip(taken));
            broadcast use vstd::multiset::group_multiset_axioms;
            vstd::seq_lib::to_multiset_insert(before, p as int, xv);
            assert(before.insert(p as int, xv) =~= out@);
            assert(input_before[0] == xv);
            vstd::seq_lib::to_multiset_contains(input_before, xv);
            assert(input_before.to_multiset().count(xv) > 0);
            assert(out@.to_multiset().add(input@.to_multiset()) =~= original.to_multiset());
            assert forall|i: int, j: int| 0 <= i < j < out@.len() implies key_le(
                #[trigger] out@[i].key(),
                #[trigger] out@[j].key(),
            ) by {
                if j < p {
                    assert(out@[i] == before[i]);
                    assert(out@[j] == before[j]);
                } else if j == p {
                    assert(out@[i] == before[i]);
                } else if i == p {
                    assert(out@[j] == before[j - 1]);
                    lemma_key_order(xk, before[j - 1].key());
                } else if i < p {
                    assert(out@[i] == before[i]);
                    assert(out@[j] == before[j - 1]);
                } else {
                    assert(out@[i] == before[i - 1]);
                    assert(out@[j] == before[j - 1]);
                }
            }
        }
    }
    proof {
        assert(original.take(taken) =~= original);
    }
    out
}

/// Sorts by key and keeps one element of each key, the first to arrive.
pub fn sort_dedup_by_key<T: Keyed>(v: Vec<T>) -> (r: Vec<T>)
    ensures
        strictly_sorted_by_key(r@),
        forall|i: int| 0 <= i < r@.len() ==> v@.contains(#[trigger] r@[i]),
        covers_keys(r@, v@),
{
    let mut input = v;
    let mut out: Vec<T> = Vec::new();
    let ghost original = input@;
    let total = input.len();
    let mut taken: usize = 0;
    while input.len() > 0
        invariant
            strictly_sorted_by_key(out@),
            taken + input@.len() == original.len(),
            total == original.len(),
            original == v@,
            input@ == original.skip(taken as int),
            forall|i: int| 0 <= i < out@.len() ==> original.contains(#[trigger] out@[i]),
            covers_keys(out@, original.take(taken as int)),
        decreases input@.len(),
    {
        let x = input.remove(0);
        proof {
            assert(x == original[taken as int]);
        }
        let ghost xv = x;
        let ghost xk = x.key();
        let ghost before = out@;
        let ghost done = original.take(taken as int);
        let ghost next = original.take(taken + 1);
        proof {
            assert(next =~= done.push(xv));
        }
        let p = insertion_point(&out, &x);
        let duplicate = p > 0 && out[p - 1].compare_key(&x) == Order::Equal;
        if duplicate {
            proof {
                lemma_key_order(before[p - 1].key(), xk);
                assert forall|i: int| 0 <= i < next.len() implies #[trigger] has_key_of(out@, next[i]) by {
                    if i == taken {
                        assert(same_key(out@[p - 1], next[i]));
                    } else {
                        assert(next[i] == done[i]);
                        assert(has_key_of(out@, done[i]));
                    }
                }
            }
        } else {
            proof {
                if p > 0 {
                    lemma_key_order(before[p - 1].key(), xk);
                }
            }
            out.insert(p, x);
            proof {
                assert forall|i: int, j: int| 0 <= i < j < out@.len() implies key_order(
                    #[trigger] out@[i].key(),
                    #[trigger] out@[j].key(),
                ) == Order::Less by {
                    if j < p {
                        assert(out@[i] == before[i]);
                        assert(out@[j] == before[j]);
                    } else if j == p {
                        assert(out@[i] == before[i]);
                        lemma_key_order(before[i].key(), xk);
                        if i < p - 1 {
                            lemma_key_order(before[p - 1].key(), xk);
                            lemma_key_order_transitive(before[i].key(), before[p - 1].key(), xk);
                        }
                    } else if i == p {
                        assert(out@[j] == before[j - 1]);
                    } else if i < p {
                        assert(out@[i] == before[i]);
                        assert(out@[j] == before[j - 1]);
                    } else {
                        assert(out@[i] == before[i - 1]);
                        assert(out@[j] == before[j - 1]);
                    }
                }
                assert forall|i: int| 0 <= i < out@.len() implies original.contains(
                    #[trigger] out@[i],
                ) by {
                    if i < p {
                        assert(out@[i] == before[i]);
                    } else if i == p {
                        assert(original[taken as int] == out@[i]);
                    } else {
                        assert(out@[i] == before[i - 1]);
                    }
                }
                assert forall|i: int| 0 <= i < next.len() implies #[trigger] has_key_of(out@, next[i]) by {
                    if i == taken {
                        assert(same_key(out@[p as int], next[i]));
                    } else {
                        assert(next[i] == done[i]);
                        assert(has_key_of(before, done[i]));
                        let j = choose|j: int| 0 <= j < before.len() && same_key(#[trigger] before[j], done[i]);
                        if j < p {
                            assert(out@[j] == before[j]);
                            assert(same_key(out@[j], next[i]));
                        } else {
                            assert(out@[j + 1] == before[j]);
                            assert(same_key(out@[j + 1], next[i]));
                        }
                    }
                }
            }
        }
        proof {
            assert(covers_keys(out@, next));
        }
        taken = taken + 1;
        proof {
            assert(input@ =~= original.skip(taken as int));
            assert(original.take(taken as int) == next);
        }
    }
    proof {
        assert(original.take(taken as int) =~= original);
    }
    out
}

} // verus!

verus! {

/// Sorting keeps exactly the same elements.
pub proof fn lemma_stable_sort_multiset<T: Keyed>(s: Seq<T>)
    ensures
        stable_sort(s).to_multiset() == s.to_multiset(),
        stable_sort(s).len() == s.len(),
    decreases s.len(),
{
    broadcast use vstd::seq_lib::group_to_multiset_ensures;
    if s.len() > 0 {
        let o = stable_sort(s.drop_last());
        lemma_stable_sort_multiset(s.drop_last());
        lemma_insert_point_bounds(o, s.last());
        vstd::seq_lib::to_multiset_insert(o, insert_point(o, s.last()), s.last());
        assert(s =~= s.drop_last().push(s.last()));
        vstd::seq_lib::to_multiset_build(s.drop_last(), s.last());
    }
}

/// `stable_sort` sorts.
pub proof fn lemma_stable_sort_sorted<T: Keyed>(s: Seq<T>)
    ensures
        sorted_by_key(stable_sort(s)),
    decreases s.len(),
{
    if s.len() > 0 {
        let o = stable_sort(s.drop_last());
        let x = s.last();
        lemma_stable_sort_sorted(s.drop_last());
        lemma_insert_point_bounds(o, x);
        let p = insert_point(o, x);
        let r = o.insert(p, x);
        assert forall|i: int, j: int| 0 <= i < j < r.len() implies key_le(#[trigger] r[i].key(), #[trigger] r[j].key()) by {
            if j < p {
                assert(r[i] == o[i] && r[j] == o[j]);
            } else if j == p {
                assert(r[j] == x);
                assert(r[i] == o[i]);
                if i < p - 1 {
                    lemma_key_le_transitive(o[i].key(), o[p - 1].key(), x.key());
                }
            } else if i < p {
                assert(r[i] == o[i] && r[j] == o[j - 1]);
            } else if i == p {
                assert(r[i] == x && r[j] == o[j - 1]);
                lemma_key_order(o[j - 1].key(), x.key());
            } else {
                assert(r[i] == o[i - 1] && r[j] == o[j - 1]);
            }
        }
    }
}

/// The order in which elements arrive changes nothing but the order of elements
/// with equal keys: any two arrangements of the same elements sort into the same
/// sequence of keys.
pub proof fn lemma_stable_sort_order_independent<T: Keyed>(a: Seq<T>, b: Seq<T>)
    requires
        a.to_multiset() == b.to_multiset(),
    ensures
        stable_sort(a).map_values(|x: T| x.key()) == stable_sort(b).map_values(|x: T| x.key()),
{
    let sa = stable_sort(a);
    let sb = stable_sort(b);
    lemma_stable_sort_multiset(a);
    lemma_stable_sort_multiset(b);
    lemma_stable_sort_sorted(a);
    lemma_stable_sort_sorted(b);
    let f = |x: T| x.key();
    lemma_map_multiset(sa, sb, f);
    let ka = sa.map_values(f);
    let kb = sb.map_values(f);
    let leq = |x: Seq<KeyPart>, y: Seq<KeyPart>| key_le(x, y);
    assert(vstd::relations::total_ordering(leq)) by {
        assert forall|x: Seq<KeyPart>| #[trigger] leq(x, x) by {
            lemma_key_order(x, x);
        }
        assert forall|x: Seq<KeyPart>, y: Seq<KeyPart>| #[trigger] leq(x, y) && #[trigger] leq(y, x) implies x == y by {
            lemma_key_order(x, y);
        }
        assert forall|x: Seq<KeyPart>, y: Seq<KeyPart>, z: Seq<KeyPart>| #[trigger] leq(x, y) && #[trigger] leq(y, z) implies leq(x, z) by {
            lemma_key_le_transitive(x, y, z);
        }
        assert forall|x: Seq<KeyPart>, y: Seq<KeyPart>| #[trigger] leq(x, y) || #[trigger] leq(y, x) by {
            lemma_key_order(x, y);
        }
    }
    assert(vstd::relations::sorted_by(ka, leq)) by {
        assert forall|i: int, j: int| 0 <= i < j < ka.len() implies #[trigger] leq(ka[i], ka[j]) by {
            assert(ka[i] == sa[i].key() && ka[j] == sa[j].key());
        }
    }
    assert(vstd::relations::sorted_by(kb, leq)) by {
        assert forall|i: int, j: int| 0 <= i < j < kb.len() implies #[trigger] leq(kb[i], kb[j]) by {
            assert(kb[i] == sb[i].key() && kb[j] == sb[j].key());
        }
    }
    vstd::seq_lib::lemma_sorted_unique(ka, kb, leq);
}

/// Every element of the sorted sequence is an element of the input.
pub proof fn lemma_stable_sort_contains<T: Keyed>(s: Seq<T>, i: int)
    requires
        0 <= i < stable_sort(s).len(),
    ensures
        s.contains(stable_sort(s)[i]),
{
    broadcast use vstd::seq_lib::group_to_multiset_ensures;
    lemma_stable_sort_multiset(s);
    let x = stable_sort(s)[i];
    assert(stable_sort(s).contains(x));
    assert(stable_sort(s).to_multiset().count(x) > 0);
    assert(s.to_multiset().count(x) > 0);
}

} // verus!

verus! {

/// Rearranging a sequence rearranges its image under any function.
pub proof fn lemma_map_multiset<A, B>(s1: Seq<A>, s2: Seq<A>, f: spec_fn(A) -> B)
    requires
        s1.to_multiset() == s2.to_multiset(),
    ensures
        s1.map_values(f).to_multiset() == s2.map_values(f).to_multiset(),
    decreases s1.len(),
{
    broadcast use vstd::seq_lib::group_to_multiset_ensures;
    broadcast use vstd::multiset::group_multiset_axioms;
    if s1.len() == 0 {
        assert(s2.to_multiset().len() == 0);
        assert(s2.len() == 0);
        assert(s1.map_values(f) =~= Seq::<B>::empty());
        assert(s2.map_values(f) =~= Seq::<B>::empty());
    } else {
        let x = s1.last();
        assert(s1.to_multiset().count(x) > 0) by {
            vstd::seq_lib::to_multiset_build(s1.drop_last(), x);
            assert(s1 =~= s1.drop_last().push(x));
        }
        assert(s2.contains(x));
        let j = choose|j: int| 0 <= j < s2.len() && s2[j] == x;
        let s2r = s2.remove(j);
        vstd::seq_lib::to_multiset_remove(s2, j);
        assert(s1 =~= s1.drop_last().push(x));
        vstd::seq_lib::to_multiset_build(s1.drop_last(), x);
        assert(s1.drop_last().to_multiset() =~= s2r.to_multiset());
        lemma_map_multiset(s1.drop_last(), s2r, f);
        assert(s1.map_values(f) =~= s1.drop_last().map_values(f).push(f(x)));
        vstd::seq_lib::to_multiset_build(s1.drop_last().map_values(f), f(x));
        assert(s2r.map_values(f) =~= s2.map_values(f).remove(j));
        vstd::seq_lib::to_multiset_remove(s2.map_values(f), j);
        assert(s2.map_values(f).to_multiset().count(f(x)) > 0) by {
            assert(s2.map_values(f)[j] == f(x));
            assert(s2.map_values(f).contains(f(x)));
        }
        assert(s1.map_values(f).to_multiset() =~= s2.map_values(f).to_multiset());
    }
}

} // verus!

verus! {

impl Keyed for String {
    open spec fn key(&self) -> Seq<KeyPart> {
        seq![KeyPart::Text(self@)]
    }

    fn compare_key(&self, other: &Self) -> (r: Order) {
        let r = crate::text::compare_text(self.as_str(), other.as_str());
        proof {
            reveal_with_fuel(key_order, 2);
            assert(self.key().drop_first() =~= Seq::<KeyPart>::empty());
            assert(other.key().drop_first() =~= Seq::<KeyPart>::empty());
        }
        r
    }
}

/// Strings in ascending order without repetitions.
pub open spec fn strictly_ascending(s: Seq<Seq<char>>) -> bool {
    forall|i: int, j: int| 0 <= i < j < s.len() ==> crate::text::text_order(#[trigger] s[i], #[trigger] s[j]) == Order::Less
}

/// The distinct strings of `v` in ascending order (what collecting into a
/// `BTreeSet` gives).
pub fn sorted_unique_strings(v: Vec<String>) -> (r: Vec<String>)
    ensures
        strictly_ascending(r@.map_values(|s: String| s@)),
        r@.map_values(|s: String| s@).to_set() == v@.map_values(|s: String| s@).to_set(),
{
    let ghost input = v@;
    let r = sort_dedup_by_key(v);
    proof {
        let rv = r@.map_values(|s: String| s@);
        let iv = input.map_values(|s: String| s@);
        assert forall|i: int, j: int| 0 <= i < j < rv.len() implies crate::text::text_order(#[trigger] rv[i], #[trigger] rv[j]) == Order::Less by {
            reveal_with_fuel(key_order, 2);
            assert(key_order(r@[i].key(), r@[j].key()) == Order::Less);
            assert(r@[i].key().drop_first() =~= Seq::<KeyPart>::empty());
            assert(r@[j].key().drop_first() =~= Seq::<KeyPart>::empty());
        }
        assert forall|x: Seq<char>| rv.to_set().contains(x) implies iv.to_set().contains(x) by {
            let i = choose|i: int| 0 <= i < rv.len() && rv[i] == x;
            assert(input.contains(r@[i]));
            let k = choose|k: int| 0 <= k < input.len() && input[k] == r@[i];
            assert(iv[k] == x);
        }
        assert forall|x: Seq<char>| iv.to_set().contains(x) implies rv.to_set().contains(x) by {
            let k = choose|k: int| 0 <= k < iv.len() && iv[k] == x;
            assert(has_key_of(r@, input[k]));
            let j = choose|j: int| 0 <= j < r@.len() && same_key(#[trigger] r@[j], input[k]);
            assert(r@[j].key()[0] == input[k].key()[0]);
            assert(rv[j] == x);
        }
        assert(rv.to_set() =~= iv.to_set());
    }
    r
}

/// The number of distinct strings in `v`.
pub fn count_distinct_strings(v: Vec<String>) -> (r: usize)
    ensures
        r == v@.map_values(|s: String| s@).to_set().len(),
{
    let r = sorted_unique_strings(v);
    proof {
        let rv = r@.map_values(|s: String| s@);
        assert forall|i: int, j: int| 0 <= i < rv.len() && 0 <= j < rv.len() && i != j implies rv[i] != rv[j] by {
            if i < j {
                crate::text::lemma_text_order(rv[i], rv[j]);
            } else {
                crate::text::lemma_text_order(rv[j], rv[i]);
            }
        }
        assert(rv.no_duplicates());
        rv.unique_seq_to_set();
    }
    r.len()
}

} // verus!
