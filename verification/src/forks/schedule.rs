//! Start-after dependencies between the agents of one `task` call: which of
//! them can ever start, and the proof that "all of them can" is exactly "the
//! dependencies have a schedule".
use vstd::prelude::*;
use crate::order::sorted_texts;
use crate::text::{joined, views};

verus! {

/// Some agent named `d` has already been started (is no longer pending).
pub open spec fn removed(names: Seq<Seq<char>>, alive: Seq<bool>, d: Seq<char>) -> bool {
    exists|k: int| 0 <= k < names.len() && k < alive.len() && !alive[k] && names[k] == d
}

/// Agent `i` is still pending and everything it waits for has started.
pub open spec fn ready(names: Seq<Seq<char>>, deps: Seq<Seq<Seq<char>>>, alive: Seq<bool>, i: int) -> bool {
    &&& 0 <= i < alive.len()
    &&& alive[i]
    &&& forall|j: int| 0 <= j < deps[i].len() ==> removed(names, alive, #[trigger] deps[i][j])
}

/// One round: every ready agent starts.
pub open spec fn step(names: Seq<Seq<char>>, deps: Seq<Seq<Seq<char>>>, alive: Seq<bool>) -> Seq<bool> {
    Seq::new(alive.len(), |i: int| alive[i] && !ready(names, deps, alive, i))
}

/// How many agents are still pending.
pub open spec fn live(alive: Seq<bool>) -> nat
    decreases alive.len(),
{
    if alive.len() == 0 {
        0
    } else {
        live(alive.drop_last()) + if alive.last() { 1nat } else { 0nat }
    }
}

pub proof fn lemma_live_shrinks(a: Seq<bool>, b: Seq<bool>, i: int)
    requires
        a.len() == b.len(),
        forall|k: int| 0 <= k < b.len() && b[k] ==> a[k],
        0 <= i < a.len(),
        a[i],
        !b[i],
    ensures
        live(b) < live(a),
    decreases a.len(),
{
    if i == a.len() - 1 {
        lemma_live_le(a.drop_last(), b.drop_last());
    } else {
        lemma_live_shrinks(a.drop_last(), b.drop_last(), i);
    }
}

pub proof fn lemma_live_le(a: Seq<bool>, b: Seq<bool>)
    requires
        a.len() == b.len(),
        forall|k: int| 0 <= k < b.len() && b[k] ==> a[k],
    ensures
        live(b) <= live(a),
    decreases a.len(),
{
    if a.len() > 0 {
        lemma_live_le(a.drop_last(), b.drop_last());
    }
}

pub proof fn lemma_step_shrinks(names: Seq<Seq<char>>, deps: Seq<Seq<Seq<char>>>, alive: Seq<bool>, i: int)
    requires
        ready(names, deps, alive, i),
    ensures
        live(step(names, deps, alive)) < live(alive),
{
    lemma_live_shrinks(alive, step(names, deps, alive), i);
}

/// Rounds until no agent is ready: what is left pending for good.
pub open spec fn settle(names: Seq<Seq<char>>, deps: Seq<Seq<Seq<char>>>, alive: Seq<bool>) -> Seq<bool>
    decreases live(alive),
{
    if exists|i: int| ready(names, deps, alive, i) {
        let i = choose|i: int| ready(names, deps, alive, i);
        proof {
            lemma_step_shrinks(names, deps, alive, i);
        }
        settle(names, deps, step(names, deps, alive))
    } else {
        alive
    }
}

/// The indices a round starts, in index order.
pub open spec fn ready_indices(names: Seq<Seq<char>>, deps: Seq<Seq<Seq<char>>>, alive: Seq<bool>, n: nat) -> Seq<int>
    decreases n,
{
    if n == 0 {
        Seq::empty()
    } else {
        let before = ready_indices(names, deps, alive, (n - 1) as nat);
        if ready(names, deps, alive, n - 1) {
            before.push(n - 1)
        } else {
            before
        }
    }
}

/// The order in which the rounds start the agents.
pub open spec fn settle_order(names: Seq<Seq<char>>, deps: Seq<Seq<Seq<char>>>, alive: Seq<bool>) -> Seq<int>
    decreases live(alive),
{
    if exists|i: int| ready(names, deps, alive, i) {
        let i = choose|i: int| ready(names, deps, alive, i);
        proof {
            lemma_step_shrinks(names, deps, alive, i);
        }
        ready_indices(names, deps, alive, alive.len()) + settle_order(names, deps, step(names, deps, alive))
    } else {
        Seq::empty()
    }
}

/// Every agent pending.
pub open spec fn all_pending(n: nat) -> Seq<bool> {
    Seq::new(n, |_i: int| true)
}

pub open spec fn none_pending(alive: Seq<bool>) -> bool {
    forall|i: int| 0 <= i < alive.len() ==> !alive[i]
}

/// Agent `i` has a place in `order`.
pub open spec fn scheduled(order: Seq<int>, i: int) -> bool {
    exists|p: int| 0 <= p < order.len() && #[trigger] order[p] == i
}

/// `order` starts every agent, and starts each only after an agent with each
/// name it waits for.
pub open spec fn is_schedule(names: Seq<Seq<char>>, deps: Seq<Seq<Seq<char>>>, order: Seq<int>) -> bool {
    &&& forall|p: int| 0 <= p < order.len() ==> 0 <= #[trigger] order[p] < names.len()
    &&& forall|i: int| 0 <= i < names.len() ==> #[trigger] scheduled(order, i)
    &&& forall|p: int, j: int|
        0 <= p < order.len() && 0 <= j < deps[order[p]].len() ==> met_before(names, order, p, #[trigger] deps[order[p]][j])
}

/// An agent named `d` comes before place `p` of `order`.
pub open spec fn met_before(names: Seq<Seq<char>>, order: Seq<int>, p: int, d: Seq<char>) -> bool {
    exists|q: int| 0 <= q < p && #[trigger] names[order[q]] == d
}

/// The agents of a call can all be started, in some order.
pub open spec fn schedulable(names: Seq<Seq<char>>, deps: Seq<Seq<Seq<char>>>) -> bool {
    exists|order: Seq<int>| is_schedule(names, deps, order)
}

proof fn lemma_ready_indices(names: Seq<Seq<char>>, deps: Seq<Seq<Seq<char>>>, alive: Seq<bool>, n: nat)
    requires
        n <= alive.len(),
    ensures
        forall|p: int| 0 <= p < ready_indices(names, deps, alive, n).len() ==> {
            let i = #[trigger] ready_indices(names, deps, alive, n)[p];
            0 <= i < n && ready(names, deps, alive, i)
        },
        forall|i: int| 0 <= i < n && ready(names, deps, alive, i) ==> exists|p: int|
            0 <= p < ready_indices(names, deps, alive, n).len() && #[trigger] ready_indices(
                names,
                deps,
                alive,
                n,
            )[p] == i,
    decreases n,
{
    if n > 0 {
        lemma_ready_indices(names, deps, alive, (n - 1) as nat);
        let before = ready_indices(names, deps, alive, (n - 1) as nat);
        let now = ready_indices(names, deps, alive, n);
        assert forall|i: int| 0 <= i < n && ready(names, deps, alive, i) implies exists|p: int|
            0 <= p < now.len() && #[trigger] now[p] == i by {
            if i < n - 1 {
                let p = choose|p: int| 0 <= p < before.len() && #[trigger] before[p] == i;
                assert(now[p] == i);
            } else {
                assert(now[now.len() - 1] == i);
            }
        }
    }
}

/// The rounds either leave someone pending or produce a schedule of whoever
/// was pending, where a dependency may also be met by an agent started
/// before the rounds began.
proof fn lemma_settle_order(names: Seq<Seq<char>>, deps: Seq<Seq<Seq<char>>>, alive: Seq<bool>)
    requires
        alive.len() == names.len(),
        deps.len() == names.len(),
        none_pending(settle(names, deps, alive)),
    ensures
        ({
            let order = settle_order(names, deps, alive);
            &&& forall|p: int| 0 <= p < order.len() ==> 0 <= #[trigger] order[p] < names.len() && alive[order[p]]
            &&& forall|i: int| 0 <= i < names.len() && alive[i] ==> #[trigger] scheduled(order, i)
            &&& forall|p: int, j: int|
                0 <= p < order.len() && 0 <= j < deps[order[p]].len() ==>
                    removed(names, alive, #[trigger] deps[order[p]][j])
                    || met_before(names, order, p, deps[order[p]][j])
        }),
    decreases live(alive),
{
    if exists|i: int| ready(names, deps, alive, i) {
        let i0 = choose|i: int| ready(names, deps, alive, i);
        lemma_step_shrinks(names, deps, alive, i0);
        let next = step(names, deps, alive);
        lemma_settle_order(names, deps, next);
        let r = ready_indices(names, deps, alive, alive.len());
        lemma_ready_indices(names, deps, alive, alive.len());
        let rest = settle_order(names, deps, next);
        let order = settle_order(names, deps, alive);
        assert(order == r + rest);
        assert forall|p: int| 0 <= p < order.len() implies 0 <= #[trigger] order[p] < names.len() && alive[order[p]] by {
            if p < r.len() {
                assert(order[p] == r[p]);
            } else {
                assert(order[p] == rest[p - r.len()]);
            }
        }
        assert forall|i: int| 0 <= i < names.len() && alive[i] implies #[trigger] scheduled(order, i) by {
            if ready(names, deps, alive, i) {
                let p = choose|p: int| 0 <= p < r.len() && #[trigger] r[p] == i;
                assert(order[p] == i);
            } else {
                assert(next[i]);
                assert(scheduled(rest, i));
                let p = choose|p: int| 0 <= p < rest.len() && #[trigger] rest[p] == i;
                assert(order[p + r.len()] == i);
            }
        }
        assert forall|p: int, j: int|
            0 <= p < order.len() && 0 <= j < deps[order[p]].len() implies
                removed(names, alive, #[trigger] deps[order[p]][j])
                || met_before(names, order, p, deps[order[p]][j]) by {
            if p < r.len() {
                assert(order[p] == r[p]);
                assert(ready(names, deps, alive, r[p]));
            } else {
                let pp = p - r.len();
                assert(order[p] == rest[pp]);
                let d = deps[rest[pp]][j];
                if removed(names, next, d) {
                    let k = choose|k: int| 0 <= k < names.len() && k < next.len() && !next[k] && names[k] == d;
                    if !alive[k] {
                        assert(removed(names, alive, d));
                    } else {
                        assert(ready(names, deps, alive, k));
                        let q = choose|q: int| 0 <= q < r.len() && #[trigger] r[q] == k;
                        assert(order[q] == k);
                        assert(names[order[q]] == deps[order[p]][j]);
                        assert(met_before(names, order, p, deps[order[p]][j]));
                    }
                } else {
                    assert(met_before(names, rest, pp, d));
                    let q = choose|q: int| 0 <= q < pp && #[trigger] names[rest[q]] == d;
                    assert(order[q + r.len()] == rest[q]);
                    assert(names[order[q + r.len()]] == deps[order[p]][j]);
                    assert(met_before(names, order, p, deps[order[p]][j]));
                }
            }
        }
    } else {
        assert forall|i: int| 0 <= i < names.len() && alive[i] implies false by {
            assert(!settle(names, deps, alive)[i]);
        }
    }
}

/// Nothing is ready once the rounds are over.
pub proof fn lemma_settled(names: Seq<Seq<char>>, deps: Seq<Seq<Seq<char>>>, alive: Seq<bool>)
    ensures
        settle(names, deps, alive).len() == alive.len(),
        forall|i: int| !ready(names, deps, settle(names, deps, alive), i),
        forall|i: int| 0 <= i < alive.len() && settle(names, deps, alive)[i] ==> alive[i],
    decreases live(alive),
{
    if exists|i: int| ready(names, deps, alive, i) {
        let i0 = choose|i: int| ready(names, deps, alive, i);
        lemma_step_shrinks(names, deps, alive, i0);
        lemma_settled(names, deps, step(names, deps, alive));
        assert forall|i: int| 0 <= i < alive.len() && settle(names, deps, alive)[i] implies alive[i] by {
            assert(step(names, deps, alive)[i]);
        }
    }
}

proof fn lemma_schedule_kills_prefix(
    names: Seq<Seq<char>>,
    deps: Seq<Seq<Seq<char>>>,
    order: Seq<int>,
    fin: Seq<bool>,
    p: int,
)
    requires
        is_schedule(names, deps, order),
        fin.len() == names.len(),
        deps.len() == names.len(),
        forall|i: int| !ready(names, deps, fin, i),
        0 <= p < order.len(),
    ensures
        forall|q: int| 0 <= q <= p ==> !fin[#[trigger] order[q]],
    decreases p,
{
    if p > 0 {
        lemma_schedule_kills_prefix(names, deps, order, fin, p - 1);
    }
    let i = order[p];
    assert forall|j: int| 0 <= j < deps[i].len() implies removed(names, fin, #[trigger] deps[i][j]) by {
        assert(met_before(names, order, p, deps[order[p]][j]));
        let q = choose|q: int| 0 <= q < p && #[trigger] names[order[q]] == deps[order[p]][j];
        assert(!fin[order[q]]);
        assert(0 <= order[q] < names.len());
    }
    assert(!ready(names, deps, fin, i));
    assert forall|q: int| 0 <= q <= p implies !fin[#[trigger] order[q]] by {
        if q < p {
        }
    }
}

/// Every agent of a call can be started by the rounds exactly when the
/// agents' start-after dependencies admit a schedule; in particular the
/// rounds never give up on a call whose dependencies have no cycle.
pub proof fn lemma_rounds_finish_iff_schedulable(names: Seq<Seq<char>>, deps: Seq<Seq<Seq<char>>>)
    requires
        deps.len() == names.len(),
    ensures
        none_pending(settle(names, deps, all_pending(names.len()))) <==> schedulable(names, deps),
{
    let start = all_pending(names.len());
    let fin = settle(names, deps, start);
    lemma_settled(names, deps, start);
    if none_pending(fin) {
        lemma_settle_order(names, deps, start);
        let order = settle_order(names, deps, start);
        assert forall|p: int, j: int|
            0 <= p < order.len() && 0 <= j < deps[order[p]].len() implies met_before(names, order, p, #[trigger] deps[order[p]][j]) by {
            if removed(names, start, deps[order[p]][j]) {
                let k = choose|k: int| 0 <= k < names.len() && k < start.len() && !start[k] && names[k] == deps[order[p]][j];
                assert(start[k]);
            }
        }
        assert forall|i: int| 0 <= i < names.len() implies #[trigger] scheduled(order, i) by {
            assert(start[i]);
        }
        assert forall|p: int| 0 <= p < order.len() implies 0 <= #[trigger] order[p] < names.len() by {
        }
        assert(is_schedule(names, deps, order));
    }
    if schedulable(names, deps) {
        let order = choose|order: Seq<int>| is_schedule(names, deps, order);
        assert forall|i: int| 0 <= i < fin.len() implies !fin[i] by {
            assert(scheduled(order, i));
            let p = choose|p: int| 0 <= p < order.len() && #[trigger] order[p] == i;
            lemma_schedule_kills_prefix(names, deps, order, fin, p);
        }
    }
}

/// The names of the agents still pending, in index order.
pub open spec fn pending_names(names: Seq<Seq<char>>, alive: Seq<bool>, n: nat) -> Seq<Seq<char>>
    decreases n,
{
    if n == 0 {
        Seq::empty()
    } else {
        let before = pending_names(names, alive, (n - 1) as nat);
        if alive[n - 1] {
            before.push(names[n - 1])
        } else {
            before
        }
    }
}

/// The refusal for a call whose agents wait on each other.
pub open spec fn cycle_message(names: Seq<Seq<char>>, fin: Seq<bool>) -> Seq<char> {
    "these agents wait on each other in a cycle: "@ + joined(sorted_texts(pending_names(names, fin, fin.len())), ", "@)
}

/// `check_acyclic`'s verdict on agents named `names` waiting on `deps`.
pub open spec fn acyclic_verdict(names: Seq<Seq<char>>, deps: Seq<Seq<Seq<char>>>) -> Result<(), Seq<char>> {
    let fin = settle(names, deps, all_pending(names.len()));
    if none_pending(fin) {
        Ok(())
    } else {
        Err(cycle_message(names, fin))
    }
}

/// Whether an agent named `d` has started.
fn has_removed(names: &Vec<String>, alive: &Vec<bool>, d: &String) -> (r: bool)
    requires
        names@.len() == alive@.len(),
    ensures
        r == removed(views(names@), alive@, d@),
{
    let mut k: usize = 0;
    while k < names.len()
        invariant
            names@.len() == alive@.len(),
            k <= names@.len(),
            forall|m: int| 0 <= m < k ==> !(!alive@[m] && names@[m]@ == d@),
        decreases names@.len() - k,
    {
        if !alive[k] && crate::text::same(names[k].as_str(), d.as_str()) {
            assert(views(names@)[k as int] == names@[k as int]@);
            return true;
        }
        k = k + 1;
    }
    proof {
        if removed(views(names@), alive@, d@) {
            let m = choose|m: int| 0 <= m < views(names@).len() && m < alive@.len() && !alive@[m] && views(names@)[m] == d@;
            assert(views(names@)[m] == names@[m]@);
        }
    }
    false
}

pub open spec fn deps_view(deps: Seq<Vec<String>>) -> Seq<Seq<Seq<char>>> {
    deps.map_values(|d: Vec<String>| views(d@))
}

fn is_ready(names: &Vec<String>, deps: &Vec<Vec<String>>, alive: &Vec<bool>, i: usize) -> (r: bool)
    requires
        names@.len() == alive@.len(),
        deps@.len() == alive@.len(),
        i < alive@.len(),
    ensures
        r == ready(views(names@), deps_view(deps@), alive@, i as int),
{
    if !alive[i] {
        return false;
    }
    let ghost ds = deps_view(deps@)[i as int];
    let mut j: usize = 0;
    while j < deps[i].len()
        invariant
            names@.len() == alive@.len(),
            deps@.len() == alive@.len(),
            i < alive@.len(),
            ds == views(deps@[i as int]@),
            j <= deps@[i as int]@.len(),
            forall|m: int| 0 <= m < j ==> removed(views(names@), alive@, #[trigger] ds[m]),
        decreases deps@[i as int]@.len() - j,
    {
        if !has_removed(names, alive, &deps[i][j]) {
            assert(ds[j as int] == deps@[i as int]@[j as int]@);
            assert(deps_view(deps@)[i as int][j as int] == ds[j as int]);
            assert(!ready(views(names@), deps_view(deps@), alive@, i as int));
            return false;
        }
        j = j + 1;
    }
    true
}

/// Every pending agent whose dependencies have all started, started.
fn run_round(names: &Vec<String>, deps: &Vec<Vec<String>>, alive: &Vec<bool>) -> (r: (Vec<bool>, bool))
    requires
        names@.len() == alive@.len(),
        deps@.len() == alive@.len(),
    ensures
        r.0@ == step(views(names@), deps_view(deps@), alive@),
        r.1 == exists|i: int| ready(views(names@), deps_view(deps@), alive@, i),
{
    let ghost nv = views(names@);
    let ghost dv = deps_view(deps@);
    let mut next: Vec<bool> = Vec::new();
    let mut any = false;
    let mut i: usize = 0;
    while i < alive.len()
        invariant
            names@.len() == alive@.len(),
            deps@.len() == alive@.len(),
            nv == views(names@),
            dv == deps_view(deps@),
            i <= alive@.len(),
            next@.len() == i,
            forall|k: int| 0 <= k < i ==> next@[k] == (alive@[k] && !ready(nv, dv, alive@, k)),
            any == exists|k: int| 0 <= k < i && ready(nv, dv, alive@, k),
        decreases alive@.len() - i,
    {
        let r = is_ready(names, deps, alive, i);
        next.push(alive[i] && !r);
        if r {
            any = true;
        }
        i = i + 1;
    }
    assert(next@ =~= step(nv, dv, alive@));
    (next, any)
}

/// The names of pending agents.
fn pending_list(names: &Vec<String>, alive: &Vec<bool>) -> (r: Vec<String>)
    requires
        names@.len() == alive@.len(),
    ensures
        views(r@) == pending_names(views(names@), alive@, alive@.len()),
{
    let mut out: Vec<String> = Vec::new();
    let mut i: usize = 0;
    while i < alive.len()
        invariant
            names@.len() == alive@.len(),
            i <= alive@.len(),
            views(out@) == pending_names(views(names@), alive@, i as nat),
        decreases alive@.len() - i,
    {
        if alive[i] {
            out.push(crate::text::copy(&names[i]));
            assert(views(out@) =~= pending_names(views(names@), alive@, i as nat).push(names@[i as int]@));
        }
        i = i + 1;
    }
    out
}

/// Whether some agent is still pending.
fn any_pending(alive: &Vec<bool>) -> (r: bool)
    ensures
        r == !none_pending(alive@),
{
    let mut i: usize = 0;
    while i < alive.len()
        invariant
            i <= alive@.len(),
            forall|k: int| 0 <= k < i ==> !alive@[k],
        decreases alive@.len() - i,
    {
        if alive[i] {
            return true;
        }
        i = i + 1;
    }
    false
}

/// Starts, round by round, every agent whose dependencies have all started;
/// refuses the call, naming the agents left over in `str` order, if a round
/// starts nobody while some are still pending. Names must be distinct, as
/// they are once a `task` call has been read.
pub fn check_acyclic(names: &Vec<String>, deps: &Vec<Vec<String>>) -> (r: Result<(), String>)
    requires
        deps@.len() == names@.len(),
    ensures
        match r {
            Ok(()) => acyclic_verdict(views(names@), deps_view(deps@)) == Ok::<(), Seq<char>>(()),
            Err(m) => acyclic_verdict(views(names@), deps_view(deps@)) == Err::<(), Seq<char>>(m@),
        },
{
    let ghost nv = views(names@);
    let ghost dv = deps_view(deps@);
    let mut alive: Vec<bool> = Vec::new();
    let mut i: usize = 0;
    while i < names.len()
        invariant
            i <= names@.len(),
            alive@ == Seq::new(i as nat, |_k: int| true),
        decreases names@.len() - i,
    {
        alive.push(true);
        i = i + 1;
        assert(alive@ =~= Seq::new(i as nat, |_k: int| true));
    }
    assert(alive@ =~= all_pending(nv.len()));
    loop
        invariant
            deps@.len() == names@.len(),
            alive@.len() == names@.len(),
            nv == views(names@),
            dv == deps_view(deps@),
            settle(nv, dv, alive@) == settle(nv, dv, all_pending(nv.len())),
        decreases live(alive@),
    {
        if !any_pending(&alive) {
            proof {
                if exists|k: int| ready(nv, dv, alive@, k) {
                    let k = choose|k: int| ready(nv, dv, alive@, k);
                    assert(alive@[k]);
                }
            }
            return Ok(());
        }
        let (next, any) = run_round(names, deps, &alive);
        if !any {
            let stuck = crate::order::sort_strings(pending_list(names, &alive));
            let list = crate::text::join(&stuck, ", ");
            return Err(crate::text::cat("these agents wait on each other in a cycle: ", list.as_str()));
        }
        proof {
            let k = choose|k: int| ready(nv, dv, alive@, k);
            lemma_step_shrinks(nv, dv, alive@, k);
        }
        alive = next;
    }
}

} // verus!
