//! Sorting by string order: strings as `Vec::sort` and `BTreeSet` order them,
//! and positions by key as a stable `sort_by` orders them.
use vstd::prelude::*;
use crate::json::{key_less, key_lt, lemma_key_lt_asym, lemma_key_lt_total, lemma_key_lt_trans};
use crate::text::{lemma_views_push, views};

verus! {

/// `a` comes before `b` or equals it.
pub open spec fn key_le(a: Seq<char>, b: Seq<char>) -> bool {
    a == b || key_lt(a, b)
}

/// The strings of `s` never decrease.
pub open spec fn sorted_strings(s: Seq<Seq<char>>) -> bool {
    forall|i: int, j: int| 0 <= i < j < s.len() ==> key_le(#[trigger] s[i], #[trigger] s[j])
}

/// The strings of `s` strictly increase.
pub open spec fn strictly_sorted(s: Seq<Seq<char>>) -> bool {
    forall|i: int, j: int| 0 <= i < j < s.len() ==> key_lt(#[trigger] s[i], #[trigger] s[j])
}

/// `key_le` is transitive.
proof fn lemma_key_le_trans(a: Seq<char>, b: Seq<char>, c: Seq<char>)
    requires
        key_le(a, b),
        key_le(b, c),
    ensures
        key_le(a, c),
{
    if key_lt(a, b) && key_lt(b, c) {
        lemma_key_lt_trans(a, b, c);
    }
}

/// The strings of `v`, sorted in increasing order, as `Vec::sort` leaves them.
pub fn sort_strings(v: &Vec<String>) -> (r: Vec<String>)
    ensures
        sorted_strings(views(r@)),
        views(r@).to_multiset() == views(v@).to_multiset(),
{
    broadcast use vstd::seq_lib::to_multiset_build, vstd::seq_lib::to_multiset_insert;

    let mut r: Vec<String> = Vec::new();
    let mut i: usize = 0;
    assert(views(v@).take(0) =~= Seq::<Seq<char>>::empty());
    assert(views(r@) =~= Seq::<Seq<char>>::empty());
    while i < v.len()
        invariant
            i <= v.len(),
            sorted_strings(views(r@)),
            views(r@).to_multiset() == views(v@).take(i as int).to_multiset(),
        decreases v.len() - i,
    {
        let x = v[i].clone();
        let ghost rs = views(r@);
        let mut p: usize = 0;
        while p < r.len() && !key_less(x.as_str(), r[p].as_str())
            invariant
                p <= r.len(),
                rs == views(r@),
                forall|a: int| 0 <= a < p ==> key_le(#[trigger] rs[a], x@),
            decreases r.len() - p,
        {
            proof {
                lemma_key_lt_total(x@, rs[p as int]);
            }
            p = p + 1;
        }
        r.insert(p, x);
        proof {
            assert(views(r@) =~= rs.insert(p as int, x@));
            let ns = views(r@);
            assert forall|a: int, b: int| 0 <= a < b < ns.len() implies key_le(
                #[trigger] ns[a],
                #[trigger] ns[b],
            ) by {
                if b < p {
                    assert(key_le(rs[a], rs[b]));
                } else if b == p {
                    assert(key_le(rs[a], x@));
                } else if a < p {
                    assert(key_le(rs[a], rs[b - 1]));
                } else if a == p {
                    assert(key_lt(x@, rs[p as int]));
                    if b - 1 > p {
                        assert(key_le(rs[p as int], rs[b - 1]));
                        lemma_key_le_trans(x@, rs[p as int], rs[b - 1]);
                    }
                } else {
                    assert(key_le(rs[a - 1], rs[b - 1]));
                }
            }
            assert(views(v@).take(i + 1) =~= views(v@).take(i as int).push(x@));
            vstd::seq_lib::to_multiset_insert(rs, p as int, x@);
            vstd::seq_lib::to_multiset_build(views(v@).take(i as int), x@);
        }
        i = i + 1;
    }
    assert(views(v@).take(v.len() as int) =~= views(v@));
    r
}

/// The distinct strings of `v` in increasing order, as a `BTreeSet` holds
/// them.
pub fn sorted_distinct(v: &Vec<String>) -> (r: Vec<String>)
    ensures
        strictly_sorted(views(r@)),
        views(r@).to_set() == views(v@).to_set(),
{
    broadcast use vstd::seq_lib::group_to_multiset_ensures;

    let s = sort_strings(v);
    let ghost ss = views(s@);
    let mut r: Vec<String> = Vec::new();
    let mut i: usize = 0;
    while i < s.len()
        invariant
            i <= s.len(),
            ss == views(s@),
            sorted_strings(ss),
            strictly_sorted(views(r@)),
            views(r@).to_set() == ss.take(i as int).to_set(),
            i > 0 ==> views(r@).len() > 0 && views(r@).last() == ss[i - 1],
            i == 0 ==> views(r@).len() == 0,
        decreases s.len() - i,
    {
        let ghost old_r = views(r@);
        if r.len() == 0 || !crate::text::str_eq(r[r.len() - 1].as_str(), s[i].as_str()) {
            let x = s[i].clone();
            proof {
                lemma_views_push(r@, x);
                if i > 0 {
                    assert(key_le(ss[i - 1], ss[i as int]));
                }
            }
            r.push(x);
            proof {
                let nr = views(r@);
                assert forall|a: int, b: int| 0 <= a < b < nr.len() implies key_lt(
                    #[trigger] nr[a],
                    #[trigger] nr[b],
                ) by {
                    if b == nr.len() - 1 && a < b {
                        if a < nr.len() - 2 {
                            assert(key_lt(old_r[a], old_r.last()));
                            lemma_key_lt_trans(old_r[a], old_r.last(), x@);
                        }
                    } else {
                        assert(nr[a] == old_r[a]);
                        assert(nr[b] == old_r[b]);
                    }
                }
                assert(ss.take(i + 1) =~= ss.take(i as int).push(ss[i as int]));
                assert(nr =~= old_r.push(x@));
                old_r.lemma_push_to_set_commute(x@);
                ss.take(i as int).lemma_push_to_set_commute(ss[i as int]);
            }
        } else {
            proof {
                assert(ss.take(i + 1) =~= ss.take(i as int).push(ss[i as int]));
                ss.take(i as int).lemma_push_to_set_commute(ss[i as int]);
                assert(old_r.to_set().contains(old_r.last())) by {
                    assert(old_r[old_r.len() - 1] == old_r.last());
                }
                assert(ss.take(i as int).to_set().insert(ss[i as int]) =~= ss.take(i as int).to_set());
            }
        }
        i = i + 1;
    }
    proof {
        assert(ss.take(s.len() as int) =~= ss);
        assert forall|x: Seq<char>| ss.to_set().contains(x) <==> views(v@).to_set().contains(x) by {
            assert(ss.to_multiset().count(x) == views(v@).to_multiset().count(x));
        }
        assert(ss.to_set() =~= views(v@).to_set());
    }
    r
}

/// The smallest string of a sorted list is its first.
proof fn lemma_sorted_first_least(s: Seq<Seq<char>>, x: Seq<char>)
    requires
        sorted_strings(s),
        s.contains(x),
    ensures
        key_le(s[0], x),
{
    let j = choose|j: int| 0 <= j < s.len() && s[j] == x;
    if j > 0 {
        assert(key_le(s[0], s[j]));
    }
}

/// Law: strings have one sorted order: two sorted lists that hold the same
/// strings, each as often, are the same list.
pub proof fn lemma_sorted_unique(a: Seq<Seq<char>>, b: Seq<Seq<char>>)
    requires
        sorted_strings(a),
        sorted_strings(b),
        a.to_multiset() == b.to_multiset(),
    ensures
        a == b,
    decreases a.len(),
{
    broadcast use vstd::seq_lib::group_to_multiset_ensures;

    assert(a.len() == b.len()) by {
        vstd::seq_lib::to_multiset_len(a);
        vstd::seq_lib::to_multiset_len(b);
    }
    if a.len() == 0 {
        assert(a =~= b);
    } else {
        assert(a.contains(a[0]));
        assert(b.contains(b[0]));
        assert(a.to_multiset().count(a[0]) > 0);
        assert(b.to_multiset().count(b[0]) > 0);
        lemma_sorted_first_least(b, a[0]);
        lemma_sorted_first_least(a, b[0]);
        lemma_key_lt_asym(a[0], b[0]);
        assert(a[0] == b[0]);
        let ra = a.remove(0);
        let rb = b.remove(0);
        assert(ra.to_multiset() == rb.to_multiset());
        assert(sorted_strings(ra)) by {
            assert forall|i: int, j: int| 0 <= i < j < ra.len() implies key_le(#[trigger] ra[i], #[trigger] ra[j]) by {
                assert(ra[i] == a[i + 1] && ra[j] == a[j + 1]);
            }
        }
        assert(sorted_strings(rb)) by {
            assert forall|i: int, j: int| 0 <= i < j < rb.len() implies key_le(#[trigger] rb[i], #[trigger] rb[j]) by {
                assert(rb[i] == b[i + 1] && rb[j] == b[j + 1]);
            }
        }
        lemma_sorted_unique(ra, rb);
        assert forall|i: int| 0 <= i < a.len() implies a[i] == b[i] by {
            if i > 0 {
                assert(a[i] == ra[i - 1] && b[i] == rb[i - 1]);
            }
        }
        assert(a =~= b);
    }
}

} // verus!
