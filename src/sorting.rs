//! Why canonical bytes do not depend on the order of object members: the
//! member order that canonicalisation uses is strictly increasing by key, and
//! a strictly increasing arrangement of given entries is unique.
use vstd::prelude::*;
use crate::json::{
    canonical, utf16_rank, canonical_member, canonical_members, insert_index, key_less,
    member_order, JsonValue,
};

verus! {

/// A member's key and the canonical bytes of its value.
pub open spec fn entry(ms: Seq<(String, JsonValue)>, j: int) -> (Seq<char>, Seq<u8>) {
    (ms[j].0@, canonical(ms[j].1))
}

/// The members named by `order` have strictly increasing keys.
pub open spec fn increasing(ms: Seq<(String, JsonValue)>, order: Seq<usize>) -> bool {
    forall|a: int, b: int|
        0 <= a < b < order.len() ==> key_less(
            #[trigger] ms[order[a] as int].0@,
            #[trigger] ms[order[b] as int].0@,
        )
}

/// Every index of `order` names a member.
pub open spec fn in_range(ms: Seq<(String, JsonValue)>, order: Seq<usize>) -> bool {
    forall|k: int| 0 <= k < order.len() ==> (#[trigger] order[k]) < ms.len()
}

proof fn lemma_rank_injective(x: char, y: char)
    ensures
        x != y ==> utf16_rank(x) != utf16_rank(y),
{
    assert((x as u32) == (y as u32) ==> x == y);
}

proof fn lemma_key_less_order(a: Seq<char>, b: Seq<char>, c: Seq<char>)
    ensures
        !key_less(a, a),
        a != b ==> key_less(a, b) || key_less(b, a),
        !(key_less(a, b) && key_less(b, a)),
        key_less(a, b) && key_less(b, c) ==> key_less(a, c),
    decreases a.len(),
{
    if a.len() > 0 {
        lemma_key_less_order(a.drop_first(), a.drop_first(), a.drop_first());
        if b.len() > 0 {
            lemma_key_less_order(a.drop_first(), b.drop_first(), b.drop_first());
            if c.len() > 0 {
                lemma_key_less_order(a.drop_first(), b.drop_first(), c.drop_first());
            }
            if a != b && a[0] == b[0] {
                assert(a =~= seq![a[0]] + a.drop_first());
                assert(b =~= seq![b[0]] + b.drop_first());
            }
            lemma_rank_injective(a[0], b[0]);
        }
    } else if b.len() == 0 {
        assert(a =~= b);
    }
}

proof fn lemma_contains_split<T>(s: Seq<T>, x: T)
    requires
        s.len() > 0,
    ensures
        s.contains(x) <==> x == s[0] || s.drop_first().contains(x),
{
    if s.contains(x) {
        let k = choose|k: int| 0 <= k < s.len() && s[k] == x;
        if k > 0 {
            assert(s.drop_first()[k - 1] == x);
        }
    }
    if s.drop_first().contains(x) {
        let k = choose|k: int| 0 <= k < s.drop_first().len() && s.drop_first()[k] == x;
        assert(s[k + 1] == x);
    }
    if x == s[0] {
        assert(s[0] == x);
    }
}

proof fn lemma_insert_index(ms: Seq<(String, JsonValue)>, order: Seq<usize>, i: usize)
    requires
        increasing(ms, order),
        in_range(ms, order),
        i < ms.len(),
        !order.contains(i),
    ensures
        increasing(ms, insert_index(ms, order, i)),
        in_range(ms, insert_index(ms, order, i)),
        forall|x: usize| #[trigger]
            insert_index(ms, order, i).contains(x) <==> (order.contains(x) && ms[x as int].0@
                != ms[i as int].0@) || x == i,
    decreases order.len(),
{
    let r = insert_index(ms, order, i);
    let ki = ms[i as int].0@;
    if order.len() == 0 {
        assert(r =~= seq![i]);
        assert forall|x: usize| #[trigger] r.contains(x) <==> (order.contains(x) && ms[x as int].0@
            != ki) || x == i by {
            lemma_contains_split(r, x);
        }
    } else {
        let first = order[0];
        let k0 = ms[first as int].0@;
        let rest = order.drop_first();
        assert forall|a: int, b: int| 0 <= a < b < rest.len() implies key_less(
            #[trigger] ms[rest[a] as int].0@,
            #[trigger] ms[rest[b] as int].0@,
        ) by {
            assert(rest[a] == order[a + 1] && rest[b] == order[b + 1]);
        }
        assert forall|k: int| 0 <= k < rest.len() implies (#[trigger] rest[k]) < ms.len() by {
            assert(rest[k] == order[k + 1]);
        }
        // Every later member of `order` has a key above the first one's.
        assert forall|x: usize| #[trigger] rest.contains(x) implies key_less(k0, ms[x as int].0@) by {
            let k = choose|k: int| 0 <= k < rest.len() && rest[k] == x;
            assert(order[k + 1] == x);
            assert(key_less(ms[order[0] as int].0@, ms[order[k + 1] as int].0@));
        }
        lemma_key_less_order(ki, k0, k0);
        if ki == k0 {
            assert(r =~= seq![i] + rest);
            assert forall|a: int, b: int| 0 <= a < b < r.len() implies key_less(
                #[trigger] ms[r[a] as int].0@,
                #[trigger] ms[r[b] as int].0@,
            ) by {
                if a == 0 {
                    assert(rest.contains(r[b]));
                } else {
                    assert(r[a] == rest[a - 1] && r[b] == rest[b - 1]);
                }
            }
            assert forall|x: usize| #[trigger] r.contains(x) <==> (order.contains(x)
                && ms[x as int].0@ != ki) || x == i by {
                lemma_contains_split(r, x);
                lemma_contains_split(order, x);
                assert(r.drop_first() =~= rest);
                if rest.contains(x) {
                    lemma_key_less_order(k0, ms[x as int].0@, k0);
                }
            }
        } else if key_less(ki, k0) {
            assert(r =~= seq![i] + order);
            assert forall|a: int, b: int| 0 <= a < b < r.len() implies key_less(
                #[trigger] ms[r[a] as int].0@,
                #[trigger] ms[r[b] as int].0@,
            ) by {
                if a == 0 {
                    if b > 1 {
                        assert(rest.contains(r[b])) by {
                            assert(rest[b - 2] == r[b]);
                        }
                        lemma_key_less_order(ki, k0, ms[r[b] as int].0@);
                    }
                } else {
                    assert(r[a] == order[a - 1] && r[b] == order[b - 1]);
                }
            }
            assert forall|x: usize| #[trigger] r.contains(x) <==> (order.contains(x)
                && ms[x as int].0@ != ki) || x == i by {
                lemma_contains_split(r, x);
                lemma_contains_split(order, x);
                assert(r.drop_first() =~= order);
                if rest.contains(x) {
                    lemma_key_less_order(ki, k0, ms[x as int].0@);
                    lemma_key_less_order(ki, ki, ki);
                }
            }
        } else {
            assert(!rest.contains(i)) by {
                lemma_contains_split(order, i);
            }
            lemma_insert_index(ms, rest, i);
            let tail = insert_index(ms, rest, i);
            assert(r =~= seq![first] + tail);
            assert(key_less(k0, ki));
            assert forall|a: int, b: int| 0 <= a < b < r.len() implies key_less(
                #[trigger] ms[r[a] as int].0@,
                #[trigger] ms[r[b] as int].0@,
            ) by {
                if a == 0 {
                    assert(tail[b - 1] == r[b]);
                    assert(tail.contains(r[b]));
                } else {
                    assert(r[a] == tail[a - 1] && r[b] == tail[b - 1]);
                }
            }
            assert forall|x: usize| #[trigger] r.contains(x) <==> (order.contains(x)
                && ms[x as int].0@ != ki) || x == i by {
                lemma_contains_split(r, x);
                lemma_contains_split(order, x);
                assert(r.drop_first() =~= tail);
                assert(tail.contains(x) <==> (rest.contains(x) && ms[x as int].0@ != ki) || x == i);
            }
        }
    }
}

/// The last member among the first `n` with the same key as member `x`.
pub open spec fn last_of_key(ms: Seq<(String, JsonValue)>, x: int, n: int) -> bool {
    &&& 0 <= x < n
    &&& forall|j: int| x < j < n ==> (#[trigger] ms[j]).0@ != ms[x].0@
}

/// The canonical member order sorts the first `n` members strictly by key
/// and names, for each key, the last member that has it.
pub proof fn lemma_member_order(ms: Seq<(String, JsonValue)>, n: nat)
    requires
        n <= ms.len() <= usize::MAX,
    ensures
        increasing(ms, member_order(ms, n)),
        in_range(ms, member_order(ms, n)),
        forall|x: usize| #[trigger]
            member_order(ms, n).contains(x) <==> last_of_key(ms, x as int, n as int),
        forall|b: int|
            0 <= b < n ==> exists|x: usize|
                #[trigger] member_order(ms, n).contains(x) && ms[x as int].0@ == (#[trigger] ms[b]).0@,
    decreases n,
{
    if n > 0 {
        let m = (n - 1) as nat;
        let i = (n - 1) as usize;
        lemma_member_order(ms, m);
        let prev = member_order(ms, m);
        assert(!prev.contains(i));
        lemma_insert_index(ms, prev, i);
        let cur = member_order(ms, n);
        assert forall|x: usize| #[trigger] cur.contains(x) <==> last_of_key(ms, x as int, n as int) by {
            if x < i && last_of_key(ms, x as int, m as int) && ms[x as int].0@ != ms[i as int].0@ {
                assert forall|j: int| x < j < n implies (#[trigger] ms[j]).0@ != ms[x as int].0@ by {
                    if j < m {
                        assert(ms[j].0@ != ms[x as int].0@);
                    }
                }
            }
            if last_of_key(ms, x as int, n as int) && x < i {
                assert(ms[i as int].0@ != ms[x as int].0@);
                assert(last_of_key(ms, x as int, m as int));
            }
        }
        assert forall|b: int| 0 <= b < n implies exists|x: usize|
            #[trigger] cur.contains(x) && ms[x as int].0@ == (#[trigger] ms[b]).0@ by {
            if b == i {
                assert(cur.contains(i) && ms[i as int].0@ == ms[b].0@);
            } else {
                let x = choose|x: usize| #[trigger] prev.contains(x) && ms[x as int].0@ == ms[b].0@;
                if ms[x as int].0@ != ms[i as int].0@ {
                    assert(cur.contains(x) && ms[x as int].0@ == ms[b].0@);
                } else {
                    assert(cur.contains(i) && ms[i as int].0@ == ms[b].0@);
                }
            }
        }
    }
}

/// The entries of the members named by `order`.
pub open spec fn entries(ms: Seq<(String, JsonValue)>, order: Seq<usize>) -> Seq<(Seq<char>, Seq<u8>)> {
    order.map_values(|i: usize| entry(ms, i as int))
}

/// Keys strictly increase along the entries.
pub open spec fn strictly_increasing(e: Seq<(Seq<char>, Seq<u8>)>) -> bool {
    forall|a: int, b: int| 0 <= a < b < e.len() ==> key_less(#[trigger] e[a].0, #[trigger] e[b].0)
}

/// Two arrangements of the same entries, each strictly increasing by key,
/// are one and the same.
pub proof fn lemma_increasing_unique(e1: Seq<(Seq<char>, Seq<u8>)>, e2: Seq<(Seq<char>, Seq<u8>)>)
    requires
        strictly_increasing(e1),
        strictly_increasing(e2),
        forall|x: (Seq<char>, Seq<u8>)| e1.contains(x) <==> e2.contains(x),
    ensures
        e1 == e2,
    decreases e1.len(),
{
    if e1.len() == 0 {
        if e2.len() > 0 {
            assert(e2.contains(e2[0]));
        }
        assert(e1 =~= e2);
    } else if e2.len() == 0 {
        assert(e1.contains(e1[0]));
    } else {
        assert(e1.contains(e1[0]));
        assert(e2.contains(e2[0]));
        let j = choose|j: int| 0 <= j < e2.len() && e2[j] == e1[0];
        let k = choose|k: int| 0 <= k < e1.len() && e1[k] == e2[0];
        lemma_key_less_order(e1[0].0, e2[0].0, e1[0].0);
        if j > 0 {
            assert(key_less(e2[0].0, e2[j].0));
            if k > 0 {
                assert(key_less(e1[0].0, e1[k].0));
            }
        }
        let r1 = e1.drop_first();
        let r2 = e2.drop_first();
        assert forall|x: (Seq<char>, Seq<u8>)| r1.contains(x) <==> r2.contains(x) by {
            if r1.contains(x) {
                let m = choose|m: int| 0 <= m < r1.len() && r1[m] == x;
                assert(e1[m + 1] == x);
                assert(key_less(e1[0].0, e1[m + 1].0));
                lemma_key_less_order(x.0, x.0, x.0);
                assert(e1.contains(x));
                let q = choose|q: int| 0 <= q < e2.len() && e2[q] == x;
                assert(q != 0);
                assert(r2[q - 1] == x);
            }
            if r2.contains(x) {
                let m = choose|m: int| 0 <= m < r2.len() && r2[m] == x;
                assert(e2[m + 1] == x);
                assert(key_less(e2[0].0, e2[m + 1].0));
                lemma_key_less_order(x.0, x.0, x.0);
                assert(e2.contains(x));
                let q = choose|q: int| 0 <= q < e1.len() && e1[q] == x;
                assert(q != 0);
                assert(r1[q - 1] == x);
            }
        }
        assert forall|a: int, b: int| 0 <= a < b < r1.len() implies key_less(
            #[trigger] r1[a].0,
            #[trigger] r1[b].0,
        ) by {
            assert(r1[a] == e1[a + 1] && r1[b] == e1[b + 1]);
        }
        assert forall|a: int, b: int| 0 <= a < b < r2.len() implies key_less(
            #[trigger] r2[a].0,
            #[trigger] r2[b].0,
        ) by {
            assert(r2[a] == e2[a + 1] && r2[b] == e2[b + 1]);
        }
        lemma_increasing_unique(r1, r2);
        assert(e1 =~= seq![e1[0]] + r1);
        assert(e2 =~= seq![e2[0]] + r2);
    }
}

/// Members with equal entries in the same places have equal canonical text.
pub proof fn lemma_members_congruent(
    ms1: Seq<(String, JsonValue)>,
    o1: Seq<usize>,
    ms2: Seq<(String, JsonValue)>,
    o2: Seq<usize>,
    n: int,
)
    requires
        in_range(ms1, o1),
        in_range(ms2, o2),
        0 <= n <= o1.len(),
        o1.len() == o2.len(),
        forall|k: int| 0 <= k < n ==> entry(ms1, #[trigger] o1[k] as int) == entry(ms2, o2[k] as int),
    ensures
        canonical_members(ms1, o1, n) == canonical_members(ms2, o2, n),
    decreases n,
{
    if n > 0 {
        lemma_members_congruent(ms1, o1, ms2, o2, n - 1);
        assert(entry(ms1, o1[n - 1] as int) == entry(ms2, o2[n - 1] as int));
        assert(canonical_member(ms1, o1[n - 1] as int) == canonical_member(ms2, o2[n - 1] as int));
    }
}

proof fn lemma_insert_congruent(
    ms1: Seq<(String, JsonValue)>,
    ms2: Seq<(String, JsonValue)>,
    order: Seq<usize>,
    i: usize,
)
    requires
        ms1.len() == ms2.len(),
        forall|k: int| 0 <= k < ms1.len() ==> (#[trigger] ms1[k]).0@ == ms2[k].0@,
        in_range(ms1, order),
        i < ms1.len(),
    ensures
        insert_index(ms1, order, i) == insert_index(ms2, order, i),
    decreases order.len(),
{
    if order.len() > 0 {
        assert(ms1[order[0] as int].0@ == ms2[order[0] as int].0@);
        assert(ms1[i as int].0@ == ms2[i as int].0@);
        let rest = order.drop_first();
        assert forall|k: int| 0 <= k < rest.len() implies (#[trigger] rest[k]) < ms1.len() by {
            assert(rest[k] == order[k + 1]);
        }
        lemma_insert_congruent(ms1, ms2, rest, i);
    }
}

/// The canonical member order depends on the keys alone.
pub proof fn lemma_order_congruent(ms1: Seq<(String, JsonValue)>, ms2: Seq<(String, JsonValue)>, n: nat)
    requires
        ms1.len() == ms2.len(),
        n <= ms1.len() <= usize::MAX,
        forall|k: int| 0 <= k < ms1.len() ==> (#[trigger] ms1[k]).0@ == ms2[k].0@,
    ensures
        member_order(ms1, n) == member_order(ms2, n),
    decreases n,
{
    if n > 0 {
        lemma_order_congruent(ms1, ms2, (n - 1) as nat);
        lemma_member_order(ms1, (n - 1) as nat);
        lemma_insert_congruent(ms1, ms2, member_order(ms1, (n - 1) as nat), (n - 1) as usize);
    }
}

} // verus!
