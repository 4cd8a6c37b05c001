//! The order of `str`'s `Ord` — lexicographic by character, which for UTF-8
//! is the order of the bytes — and a sort by it.
use vstd::prelude::*;
use vstd::relations::*;
use crate::text::views;

verus! {

/// `a <= b` in `str` order.
pub open spec fn text_le(a: Seq<char>, b: Seq<char>) -> bool
    decreases a.len(),
{
    if a.len() == 0 {
        true
    } else if b.len() == 0 {
        false
    } else if a[0] != b[0] {
        a[0] < b[0]
    } else {
        text_le(a.drop_first(), b.drop_first())
    }
}

pub open spec fn text_order() -> spec_fn(Seq<char>, Seq<char>) -> bool {
    |a: Seq<char>, b: Seq<char>| text_le(a, b)
}

proof fn lemma_le_reflexive(a: Seq<char>)
    ensures
        text_le(a, a),
    decreases a.len(),
{
    if a.len() > 0 {
        lemma_le_reflexive(a.drop_first());
    }
}

proof fn lemma_le_antisymmetric(a: Seq<char>, b: Seq<char>)
    requires
        text_le(a, b),
        text_le(b, a),
    ensures
        a == b,
    decreases a.len(),
{
    if a.len() == 0 {
        assert(b.len() == 0);
        assert(a =~= b);
    } else {
        assert(b.len() > 0);
        lemma_le_antisymmetric(a.drop_first(), b.drop_first());
        assert(a =~= seq![a[0]] + a.drop_first());
        assert(b =~= seq![b[0]] + b.drop_first());
    }
}

proof fn lemma_le_transitive(a: Seq<char>, b: Seq<char>, c: Seq<char>)
    requires
        text_le(a, b),
        text_le(b, c),
    ensures
        text_le(a, c),
    decreases a.len(),
{
    if a.len() > 0 && b.len() > 0 && c.len() > 0 && a[0] == b[0] && b[0] == c[0] {
        lemma_le_transitive(a.drop_first(), b.drop_first(), c.drop_first());
    }
}

proof fn lemma_le_connected(a: Seq<char>, b: Seq<char>)
    ensures
        text_le(a, b) || text_le(b, a),
    decreases a.len(),
{
    if a.len() > 0 && b.len() > 0 && a[0] == b[0] {
        lemma_le_connected(a.drop_first(), b.drop_first());
    }
}

pub proof fn lemma_text_order_total()
    ensures
        total_ordering(text_order()),
{
    assert forall|a: Seq<char>| #[trigger] text_order()(a, a) by {
        lemma_le_reflexive(a);
    }
    assert forall|a: Seq<char>, b: Seq<char>|
        #[trigger] text_order()(a, b) && #[trigger] text_order()(b, a) implies a == b by {
        lemma_le_antisymmetric(a, b);
    }
    assert forall|a: Seq<char>, b: Seq<char>, c: Seq<char>|
        #[trigger] text_order()(a, b) && #[trigger] text_order()(b, c) implies text_order()(
        a,
        c,
    ) by {
        lemma_le_transitive(a, b, c);
    }
    assert forall|a: Seq<char>, b: Seq<char>|
        #[trigger] text_order()(a, b) || #[trigger] text_order()(b, a) by {
        lemma_le_connected(a, b);
    }
    assert(reflexive(text_order()));
    assert(antisymmetric(text_order()));
    assert(transitive(text_order()));
    assert(strongly_connected(text_order()));
}

/// `a <= b` in `str` order.
pub fn text_leq(a: &str, b: &str) -> (r: bool)
    ensures
        r == text_le(a@, b@),
{
    let x = crate::text::chars_of(a);
    let y = crate::text::chars_of(b);
    let mut i: usize = 0;
    assert(a@.subrange(0, a@.len() as int) =~= a@);
    assert(b@.subrange(0, b@.len() as int) =~= b@);
    while i < x.len() && i < y.len() && x[i] == y[i]
        invariant
            i <= x@.len(),
            i <= y@.len(),
            x@ == a@,
            y@ == b@,
            text_le(a@, b@) == text_le(a@.subrange(i as int, a@.len() as int), b@.subrange(
                i as int,
                b@.len() as int,
            )),
        decreases x@.len() - i,
    {
        proof {
            let sa = a@.subrange(i as int, a@.len() as int);
            let sb = b@.subrange(i as int, b@.len() as int);
            assert(sa.drop_first() =~= a@.subrange(i + 1, a@.len() as int));
            assert(sb.drop_first() =~= b@.subrange(i + 1, b@.len() as int));
        }
        i = i + 1;
    }
    if i == x.len() {
        true
    } else if i == y.len() {
        false
    } else {
        x[i] < y[i]
    }
}

/// The list sorted in `str` order, as `slice::sort` leaves it.
pub open spec fn sorted_texts(v: Seq<Seq<char>>) -> Seq<Seq<char>> {
    v.sort_by(text_order())
}

/// Sorts a list of strings in `str` order.
pub fn sort_strings(v: Vec<String>) -> (r: Vec<String>)
    ensures
        views(r@) == sorted_texts(views(v@)),
{
    let mut out: Vec<String> = Vec::new();
    let mut i: usize = 0;
    proof {
        lemma_text_order_total();
        assert(views(v@.subrange(0, 0)) =~= Seq::<Seq<char>>::empty());
        assert(views(out@) =~= Seq::<Seq<char>>::empty());
    }
    while i < v.len()
        invariant
            i <= v@.len(),
            total_ordering(text_order()),
            sorted_by(views(out@), text_order()),
            views(out@).to_multiset() == views(v@.subrange(0, i as int)).to_multiset(),
        decreases v@.len() - i,
    {
        let ghost before = views(out@);
        // find the insertion point: after every element <= v[i]
        let mut j: usize = 0;
        while j < out.len() && text_leq(out[j].as_str(), v[i].as_str())
            invariant
                j <= out@.len(),
                views(out@) == before,
                i < v@.len(),
                forall|k: int| 0 <= k < j ==> text_le(before[k], v@[i as int]@),
            decreases out@.len() - j,
        {
            j = j + 1;
        }
        let item = crate::text::copy(&v[i]);
        out.insert(j, item);
        proof {
            let x = v@[i as int]@;
            let now = views(out@);
            assert(now =~= before.subrange(0, j as int).push(x) + before.subrange(
                j as int,
                before.len() as int,
            ));
            assert forall|p: int, q: int| 0 <= p < q < now.len() implies text_order()(
                #[trigger] now[p],
                #[trigger] now[q],
            ) by {
                if q < j {
                    assert(now[p] == before[p] && now[q] == before[q]);
                } else if q == j {
                    assert(now[p] == before[p]);
                } else if p < j {
                    assert(now[p] == before[p] && now[q] == before[q - 1]);
                    if j < before.len() {
                        lemma_le_connected(before[j as int], x);
                        assert(text_order()(before[p], before[j as int]));
                        assert(text_order()(before[j as int], before[q - 1]));
                        lemma_le_transitive(before[p], before[j as int], before[q - 1]);
                    }
                } else if p == j {
                    assert(now[q] == before[q - 1]);
                    lemma_le_connected(before[j as int], x);
                    assert(text_order()(before[j as int], before[q - 1]));
                    lemma_le_transitive(x, before[j as int], before[q - 1]);
                } else {
                    assert(now[p] == before[p - 1] && now[q] == before[q - 1]);
                }
            }
            let prefix = views(v@.subrange(0, i as int));
            let next = views(v@.subrange(0, i + 1));
            assert(next =~= prefix.push(x));
            vstd::seq_lib::lemma_multiset_commutative(
                before.subrange(0, j as int).push(x),
                before.subrange(j as int, before.len() as int),
            );
            vstd::seq_lib::lemma_multiset_commutative(
                before.subrange(0, j as int),
                before.subrange(j as int, before.len() as int),
            );
            assert(before =~= before.subrange(0, j as int) + before.subrange(
                j as int,
                before.len() as int,
            ));
            broadcast use vstd::seq_lib::group_to_multiset_ensures;

            assert(now.to_multiset() =~= before.to_multiset().insert(x));
        }
        i = i + 1;
    }
    proof {
        assert(v@.subrange(0, v@.len() as int) =~= v@);
        let s = views(v@);
        s.lemma_sort_by_ensures(text_order());
        vstd::seq_lib::lemma_sorted_unique(views(out@), s.sort_by(text_order()), text_order());
    }
    out
}

} // verus!
