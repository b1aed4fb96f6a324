use vstd::prelude::*;

use crate::text::{push_str, str_eq, string_of};

verus! {

/// What the collecting loop of the batch processor learned last.
#[derive(PartialEq, Eq, Structural, Clone, Copy, Debug)]
pub enum Collected {
    /// A new round begins; nothing was received yet.
    Nothing,
    /// An event arrived and joined the batch.
    Item,
    /// The channel closed: no event will come.
    Closed,
    /// The flush interval ran out.
    TimedOut,
}

/// What the collecting loop does next.
#[derive(PartialEq, Eq, Structural, Clone, Copy, Debug)]
pub enum CollectAction {
    /// Wait for another event, until the flush deadline.
    Receive,
    /// Process the batch collected so far.
    Process,
    /// Drop the (empty) batch and begin a new round.
    Restart,
    /// Stop the processor.
    Stop,
}

/// The decision of the collecting loop: stop when the channel closes;
/// process the batch when the deadline passes or the batch is full, unless
/// it is empty; otherwise wait for more.
pub open spec fn collect_spec(batch_len: nat, batch_size: nat, last: Collected) -> CollectAction {
    match last {
        Collected::Closed => CollectAction::Stop,
        Collected::TimedOut => if batch_len == 0 { CollectAction::Restart } else { CollectAction::Process },
        _ => if batch_len >= batch_size {
            if batch_len == 0 { CollectAction::Restart } else { CollectAction::Process }
        } else {
            CollectAction::Receive
        },
    }
}

/// Decides what the collecting loop does next, given the size of the batch
/// so far, the batch size, and what it learned last.
pub fn collect_step(batch_len: usize, batch_size: usize, last: Collected) -> (r: CollectAction)
    ensures
        r == collect_spec(batch_len as nat, batch_size as nat, last),
{
    match last {
        Collected::Closed => CollectAction::Stop,
        Collected::TimedOut => if batch_len == 0 { CollectAction::Restart } else { CollectAction::Process },
        _ => if batch_len >= batch_size {
            if batch_len == 0 { CollectAction::Restart } else { CollectAction::Process }
        } else {
            CollectAction::Receive
        },
    }
}

/// What the collecting loop keeps across its rounds: it waits for another
/// event only while the batch is below the batch size and the deadline has
/// not passed (a batch with events is processed at the deadline, and as
/// soon as it is full), so a batch never
/// holds more than the batch size (it starts empty and grows by one event
/// per wait); it processes only a batch that is not empty, and only when the
/// batch is full or the deadline passed; it stops exactly when the channel
/// has closed.
pub proof fn lemma_collect_keeps_batches_bounded(batch_len: nat, batch_size: nat, last: Collected)
    ensures
        collect_spec(batch_len, batch_size, last) == CollectAction::Receive ==> batch_len + 1 <= batch_size
            && (last == Collected::Nothing || last == Collected::Item),
        last == Collected::TimedOut && batch_len > 0 ==> collect_spec(batch_len, batch_size, last)
            == CollectAction::Process,
        last != Collected::Closed && batch_len > 0 && batch_len >= batch_size ==> collect_spec(
            batch_len,
            batch_size,
            last,
        ) == CollectAction::Process,
        collect_spec(batch_len, batch_size, last) == CollectAction::Process ==> batch_len > 0 && (batch_len
            >= batch_size || last == Collected::TimedOut),
        (collect_spec(batch_len, batch_size, last) == CollectAction::Stop) == (last == Collected::Closed),
{
}

/// The positions of `types` that hold `t`, in order.
pub open spec fn positions_of(types: Seq<Seq<char>>, t: Seq<char>) -> Seq<usize>
    decreases types.len(),
{
    if types.len() == 0 {
        Seq::empty()
    } else {
        let rest = positions_of(types.drop_last(), t);
        if types.last() == t {
            rest.push((types.len() - 1) as usize)
        } else {
            rest
        }
    }
}

/// The event types, each once, in the order of their first appearance.
pub open spec fn distinct_types(types: Seq<Seq<char>>) -> Seq<Seq<char>>
    decreases types.len(),
{
    if types.len() == 0 {
        Seq::empty()
    } else {
        let rest = distinct_types(types.drop_last());
        if rest.contains(types.last()) {
            rest
        } else {
            rest.push(types.last())
        }
    }
}

/// The views of a sequence of groups.
pub open spec fn group_views(groups: Seq<(String, Vec<usize>)>) -> Seq<(Seq<char>, Seq<usize>)> {
    Seq::new(groups.len(), |i: int| (groups[i].0@, groups[i].1@))
}

/// The batch grouped by event type: one group per type, in the order in
/// which the types first appear, each with the positions of its events in
/// order.
pub open spec fn grouping_spec(types: Seq<Seq<char>>) -> Seq<(Seq<char>, Seq<usize>)> {
    let ds = distinct_types(types);
    Seq::new(ds.len(), |i: int| (ds[i], positions_of(types, ds[i])))
}

/// The views of a sequence of strings.
pub open spec fn type_views(types: Seq<String>) -> Seq<Seq<char>> {
    Seq::new(types.len(), |i: int| types[i]@)
}

/// Groups a batch by event type (see `grouping_spec`). The processor then
/// handles the groups one after the other.
pub fn group_by_event_type(types: &Vec<String>) -> (r: Vec<(String, Vec<usize>)>)
    ensures
        group_views(r@) == grouping_spec(type_views(types@)),
{
    let ghost tv = type_views(types@);
    let mut groups: Vec<(String, Vec<usize>)> = Vec::new();
    let mut i: usize = 0;
    assert(tv.take(0) =~= Seq::<Seq<char>>::empty());
    assert(group_views(groups@) =~= grouping_spec(tv.take(0)));
    while i < types.len()
        invariant
            i <= types@.len(),
            tv == type_views(types@),
            group_views(groups@) == grouping_spec(tv.take(i as int)),
        decreases types@.len() - i,
    {
        let ghost pre = tv.take(i as int);
        let ghost post = tv.take(i + 1);
        let ghost t = types@[i as int]@;
        assert(post.drop_last() =~= pre);
        assert(post.last() == t);
        let ghost before = group_views(groups@);
        let ghost dpre = distinct_types(pre);
        let mut g: usize = 0;
        let mut found = false;
        while g < groups.len() && !found
            invariant
                g <= groups@.len(),
                i < types@.len(),
                t == types@[i as int]@,
                found ==> g < groups@.len() && groups@[g as int].0@ == t,
                forall|h: int| 0 <= h < g ==> groups@[h].0@ != t,
            decreases groups@.len() - g, if found { 0int } else { 1int },
        {
            if str_eq(groups[g].0.as_str(), types[i].as_str()) {
                found = true;
            } else {
                g = g + 1;
            }
        }
        proof {
            assert(before.len() == dpre.len());
            assert forall|h: int| 0 <= h < dpre.len() implies before[h].0 == #[trigger] dpre[h] by {}
        }
        if found {
            // the type was seen before: its group gains position i
            let ghost old_groups = groups@;
            let (key, mut positions) = groups.remove(g);
            let ghost old_pos = positions@;
            assert(old_pos == before[g as int].1);
            positions.push(i);
            let ghost new_entry = (key, positions);
            groups.insert(g, (key, positions));
            proof {
                assert(groups@ =~= old_groups.update(g as int, new_entry));
                assert(group_views(groups@) =~= before.update(g as int, (t, old_pos.push(i as usize))));
                assert(dpre[g as int] == t);
                assert(dpre.contains(t));
                assert(distinct_types(post) == dpre);
                assert forall|h: int| 0 <= h < dpre.len() implies #[trigger] positions_of(post, dpre[h]) == (if dpre[h] == t {
                    positions_of(pre, dpre[h]).push(i as usize)
                } else {
                    positions_of(pre, dpre[h])
                }) by {}
                lemma_distinct_types_unique(pre);
                let gv = group_views(groups@);
                let gs = grouping_spec(post);
                assert(gv.len() == gs.len());
                assert forall|h: int| 0 <= h < gv.len() implies gv[h] == gs[h] by {
                    assert(before[h] == grouping_spec(pre)[h]);
                    assert(gs[h] == (dpre[h], positions_of(post, dpre[h])));
                    if h == g {
                        assert(gv[h] == (t, old_pos.push(i as usize)));
                    } else {
                        assert(gv[h] == before[h]);
                    }
                }
                assert(gv =~= gs);
            }
        } else {
            let mut positions: Vec<usize> = Vec::new();
            positions.push(i);
            groups.push((types[i].clone(), positions));
            proof {
                assert(!dpre.contains(t)) by {
                    if dpre.contains(t) {
                        let h = choose|h: int| 0 <= h < dpre.len() && dpre[h] == t;
                        assert(groups@[h].0@ == before[h].0);
                    }
                }
                assert(distinct_types(post) == dpre.push(t));
                lemma_positions_absent(pre, t);
                assert(positions_of(pre, t) =~= Seq::<usize>::empty());
                assert forall|h: int| 0 <= h < dpre.len() implies #[trigger] positions_of(post, dpre[h]) == positions_of(pre, dpre[h]) by {}
                assert(group_views(groups@) =~= grouping_spec(post));
            }
        }
        i = i + 1;
    }
    assert(tv.take(types@.len() as int) =~= tv);
    groups
}

/// No type is listed twice.
proof fn lemma_distinct_types_unique(types: Seq<Seq<char>>)
    ensures
        forall|a: int, b: int| 0 <= a < b < distinct_types(types).len() ==> distinct_types(types)[a] != distinct_types(types)[b],
    decreases types.len(),
{
    if types.len() > 0 {
        lemma_distinct_types_unique(types.drop_last());
        let rest = distinct_types(types.drop_last());
        let x = types.last();
        if !rest.contains(x) {
            let d = rest.push(x);
            assert(distinct_types(types) == d);
            assert forall|a: int, b: int| 0 <= a < b < d.len() implies d[a] != d[b] by {
                if b == d.len() - 1 {
                    if d[a] == d[b] {
                        assert(rest[a] == x);
                        assert(rest.contains(x));
                    }
                } else {
                    assert(d[a] == rest[a] && d[b] == rest[b]);
                }
            }
        }
    }
}

/// A type that does not appear has no positions.
proof fn lemma_positions_absent(types: Seq<Seq<char>>, t: Seq<char>)
    requires
        !distinct_types(types).contains(t),
    ensures
        positions_of(types, t).len() == 0,
    decreases types.len(),
{
    if types.len() > 0 {
        let rest = distinct_types(types.drop_last());
        if !rest.contains(types.last()) {
            assert(distinct_types(types) == rest.push(types.last()));
            assert(distinct_types(types).last() == types.last());
        }
        assert forall|x: Seq<char>| rest.contains(x) implies distinct_types(types).contains(x) by {
            let h = choose|h: int| 0 <= h < rest.len() && rest[h] == x;
            if !rest.contains(types.last()) {
                assert(distinct_types(types)[h] == x);
            }
        }
        lemma_positions_absent(types.drop_last(), t);
    }
}

/// The answer to an event that no handler takes.
pub fn no_handler_error(event_type: &str) -> (r: String)
    ensures
        r@ == "No handler for event: "@ + event_type@,
{
    let mut out: Vec<char> = Vec::new();
    push_str(&mut out, "No handler for event: ");
    push_str(&mut out, event_type);
    string_of(&out)
}

/// What the processor does with an event: hand it to its type's handler, or
/// answer it at once with this error.
#[derive(Debug, PartialEq, Eq)]
pub enum Dispatch {
    CallHandler,
    Reply(String),
}

/// The model of a dispatch decision.
pub enum DispatchView {
    CallHandler,
    Reply(Seq<char>),
}

impl View for Dispatch {
    type V = DispatchView;

    open spec fn view(&self) -> DispatchView {
        match self {
            Dispatch::CallHandler => DispatchView::CallHandler,
            Dispatch::Reply(e) => DispatchView::Reply(e@),
        }
    }
}

/// An event of a type that has a handler goes to it; any other is answered
/// with the no-handler error.
pub open spec fn dispatch_spec(event_type: Seq<char>, handled: Seq<Seq<char>>) -> DispatchView {
    if handled.contains(event_type) {
        DispatchView::CallHandler
    } else {
        DispatchView::Reply("No handler for event: "@ + event_type)
    }
}

/// How an event of `event_type` is answered, given the types that have a
/// handler (see `dispatch_spec`).
pub fn dispatch(event_type: &str, handled: &Vec<String>) -> (r: Dispatch)
    ensures
        r@ == dispatch_spec(event_type@, type_views(handled@)),
{
    let ghost hv = type_views(handled@);
    let mut i: usize = 0;
    while i < handled.len()
        invariant
            i <= handled@.len(),
            hv == type_views(handled@),
            forall|j: int| 0 <= j < i ==> hv[j] != event_type@,
        decreases handled@.len() - i,
    {
        if str_eq(handled[i].as_str(), event_type) {
            proof {
                assert(hv[i as int] == event_type@);
            }
            return Dispatch::CallHandler;
        }
        i = i + 1;
    }
    Dispatch::Reply(no_handler_error(event_type))
}

/// Entry `i` comes before entry `j` in the order of a plan: a lower rank,
/// or the same rank and an earlier position.
pub open spec fn rank_before(plan: Seq<(usize, Dispatch)>, rank: Seq<int>, i: int, j: int) -> bool {
    rank[i] < rank[j] || (rank[i] == rank[j] && plan[i].0 < plan[j].0)
}

/// The entries of a plan come in order of rank, then of position.
pub open spec fn plan_ordered(plan: Seq<(usize, Dispatch)>, rank: Seq<int>) -> bool {
    forall|i: int, j: int| 0 <= i < j < plan.len() ==> #[trigger] rank_before(plan, rank, i, j)
}

/// The event at position `p` has an entry in the plan.
pub open spec fn answered(plan: Seq<(usize, Dispatch)>, p: int) -> bool {
    exists|i: int| 0 <= i < plan.len() && (#[trigger] plan[i]).0 == p
}

/// The rank of an event type in a batch: where it stands among the types in
/// the order of their first appearance.
pub open spec fn type_rank(types: Seq<Seq<char>>, t: Seq<char>) -> int {
    distinct_types(types).index_of(t)
}

/// In what order the events of a batch are answered, and how: each entry is
/// an event's position and its dispatch. Every event is answered exactly
/// once, as `dispatch_spec` says; the types come in the order of their first
/// appearance, and the events of one type in the order they arrived.
pub fn reply_plan(types: &Vec<String>, handled: &Vec<String>) -> (plan: Vec<(usize, Dispatch)>)
    ensures
        forall|i: int| 0 <= i < plan@.len() ==> {
            &&& (#[trigger] plan@[i]).0 < types@.len()
            &&& plan@[i].1@ == dispatch_spec(types@[plan@[i].0 as int]@, type_views(handled@))
        },
        forall|i: int, j: int| 0 <= i < j < plan@.len() ==> (#[trigger] plan@[i]).0 != (#[trigger] plan@[j]).0,
        forall|p: int| 0 <= p < types@.len() ==> #[trigger] answered(plan@, p),
        forall|i: int, j: int| 0 <= i < j < plan@.len() ==> {
            let a = types@[(#[trigger] plan@[i]).0 as int]@;
            let b = types@[(#[trigger] plan@[j]).0 as int]@;
            &&& type_rank(type_views(types@), a) <= type_rank(type_views(types@), b)
            &&& a == b ==> plan@[i].0 < plan@[j].0
        },
{
    let n: usize = types.len();
    let ghost tv = type_views(types@);
    let ghost ds = distinct_types(tv);
    let ghost hv = type_views(handled@);
    let groups = group_by_event_type(types);
    proof {
        lemma_distinct_types_no_duplicates(tv);
        assert(group_views(groups@) == grouping_spec(tv));
        assert(group_views(groups@).len() == groups@.len());
        assert(groups@.len() == ds.len());
    }
    let mut plan: Vec<(usize, Dispatch)> = Vec::new();
    let ghost mut rank: Seq<int> = Seq::empty();
    let mut g: usize = 0;
    while g < groups.len()
        invariant
            n == types@.len(),
            tv == type_views(types@),
            ds == distinct_types(tv),
            hv == type_views(handled@),
            ds.no_duplicates(),
            group_views(groups@) == grouping_spec(tv),
            groups@.len() == ds.len(),
            g <= groups@.len(),
            rank.len() == plan@.len(),
            forall|i: int| 0 <= i < plan@.len() ==> {
                &&& (#[trigger] plan@[i]).0 < tv.len()
                &&& 0 <= rank[i] < g
                &&& tv[plan@[i].0 as int] == ds[rank[i]]
                &&& plan@[i].1@ == dispatch_spec(tv[plan@[i].0 as int], hv)
            },
            forall|i: int, j: int| 0 <= i < j < plan@.len() ==> (#[trigger] plan@[i]).0 != (#[trigger] plan@[j]).0,
            plan_ordered(plan@, rank),
            forall|p: int, h: int| #![trigger tv[p], ds[h]] 0 <= p < tv.len() && 0 <= h < g && tv[p] == ds[h] ==> answered(plan@, p),
        decreases groups@.len() - g,
    {
        let ghost t = ds[g as int];
        let ghost ps = positions_of(tv, t);
        proof {
            assert(group_views(groups@)[g as int] == grouping_spec(tv)[g as int]);
            assert(groups@[g as int].1@ == ps);
            assert(tv.len() == n);
            lemma_positions_exact(tv, t);
            assert forall|i: int| 0 <= i < plan@.len() implies rank[i] < g by {
                assert(plan@[i].0 < tv.len());
            }
        }
        let ghost start = plan@.len();
        let mut k: usize = 0;
        while k < groups[g].1.len()
            invariant
                tv == type_views(types@),
                ds == distinct_types(tv),
                hv == type_views(handled@),
                ds.no_duplicates(),
                group_views(groups@) == grouping_spec(tv),
                groups@.len() == ds.len(),
                g < groups@.len(),
                t == ds[g as int],
                ps == positions_of(tv, t),
                groups@[g as int].1@ == ps,
                forall|k2: int| 0 <= k2 < ps.len() ==> {
                    let p = #[trigger] ps[k2];
                    p < tv.len() && tv[p as int] == t
                },
                forall|a: int, b: int| 0 <= a < b < ps.len() ==> ps[a] < ps[b],
                k <= ps.len(),
                plan@.len() == start + k,
                rank.len() == plan@.len(),
                forall|k2: int| 0 <= k2 < k ==> (#[trigger] plan@[start + k2]).0 == ps[k2] && rank[start + k2] == g,
                forall|i: int| 0 <= i < plan@.len() ==> {
                    &&& (#[trigger] plan@[i]).0 < tv.len()
                    &&& 0 <= rank[i] <= g
                    &&& tv[plan@[i].0 as int] == ds[rank[i]]
                    &&& plan@[i].1@ == dispatch_spec(tv[plan@[i].0 as int], hv)
                },
                forall|i: int| 0 <= i < start ==> rank[i] < g,
                forall|i: int, j: int| 0 <= i < j < plan@.len() ==> (#[trigger] plan@[i]).0 != (#[trigger] plan@[j]).0,
                plan_ordered(plan@, rank),
                forall|p: int, h: int| #![trigger tv[p], ds[h]] 0 <= p < tv.len() && 0 <= h < g && tv[p] == ds[h] ==> answered(plan@, p),
            decreases ps.len() - k,
        {
            let p = groups[g].1[k];
            proof {
                assert(p == ps[k as int]);
                assert(tv[p as int] == types@[p as int]@);
            }
            let d = dispatch(types[p].as_str(), handled);
            let ghost before = plan@;
            let ghost before_rank = rank;
            plan.push((p, d));
            proof {
                rank = rank.push(g as int);
                assert forall|i: int, j: int| 0 <= i < j < plan@.len() implies (#[trigger] plan@[i]).0 != (#[trigger] plan@[j]).0 by {
                    if j == plan@.len() - 1 && i < start {
                        assert(plan@[i] == before[i]);
                        assert(rank[i] == before_rank[i]);
                        assert(0 <= rank[i] < g);
                        assert(tv[plan@[i].0 as int] == ds[rank[i]]);
                        assert(ds[rank[i]] != ds[g as int]);
                    } else if j == plan@.len() - 1 {
                        let k2 = i - start;
                        assert(plan@[start + k2] == before[start + k2]);
                        assert(ps[k2] < ps[k as int]);
                    } else {
                        assert(plan@[i] == before[i] && plan@[j] == before[j]);
                    }
                }
                assert forall|i: int, j: int| 0 <= i < j < plan@.len() implies #[trigger] rank_before(plan@, rank, i, j) by {
                    assert(rank[i] == before_rank[i]);
                    if j == plan@.len() - 1 {
                        assert(rank[j] == g);
                        assert(plan@[j].0 == ps[k as int]);
                        if i >= start {
                            let k2 = i - start;
                            assert(before[start + k2].0 == ps[k2]);
                            assert(plan@[start + k2] == before[start + k2]);
                            assert(rank[start + k2] == g);
                            assert(ps[k2] < ps[k as int]);
                        } else {
                            assert(before_rank[i] < g);
                        }
                    } else {
                        assert(rank[j] == before_rank[j]);
                        assert(plan@[i] == before[i] && plan@[j] == before[j]);
                        assert(rank_before(before, before_rank, i, j));
                    }
                }
                assert forall|k2: int| 0 <= k2 < k + 1 implies (#[trigger] plan@[start + k2]).0 == ps[k2] && rank[start + k2] == g by {
                    if k2 < k {
                        assert(plan@[start + k2] == before[start + k2]);
                    }
                }
                assert forall|i: int| 0 <= i < plan@.len() implies {
                    &&& (#[trigger] plan@[i]).0 < tv.len()
                    &&& 0 <= rank[i] <= g
                    &&& tv[plan@[i].0 as int] == ds[rank[i]]
                    &&& plan@[i].1@ == dispatch_spec(tv[plan@[i].0 as int], hv)
                } by {
                    if i < plan@.len() - 1 {
                        assert(plan@[i] == before[i]);
                    }
                }
                assert forall|p2: int, h: int| #![trigger tv[p2], ds[h]] 0 <= p2 < tv.len() && 0 <= h < g && tv[p2] == ds[h] implies answered(plan@, p2) by {
                    assert(answered(before, p2));
                    let i = choose|i: int| 0 <= i < before.len() && (#[trigger] before[i]).0 == p2;
                    assert(plan@[i] == before[i]);
                }
            }
            k = k + 1;
        }
        proof {
            assert forall|p2: int, h: int| #![trigger tv[p2], ds[h]] 0 <= p2 < tv.len() && 0 <= h < g + 1 && tv[p2] == ds[h] implies answered(plan@, p2) by {
                if h == g {
                    assert(ps.contains(p2 as usize));
                    let k2 = choose|k2: int| 0 <= k2 < ps.len() && ps[k2] == p2 as usize;
                    assert(plan@[start + k2].0 == ps[k2]);
                }
            }
        }
        g = g + 1;
    }
    proof {
        assert(groups@.len() == ds.len());
        assert forall|p: int| 0 <= p < types@.len() implies #[trigger] answered(plan@, p) by {
            lemma_type_listed(tv, p);
            let h = choose|h: int| 0 <= h < ds.len() && ds[h] == tv[p];
            assert(tv[p] == ds[h]);
        }
        assert forall|i: int, j: int| 0 <= i < j < plan@.len() implies {
            let a = types@[(#[trigger] plan@[i]).0 as int]@;
            let b = types@[(#[trigger] plan@[j]).0 as int]@;
            &&& type_rank(tv, a) <= type_rank(tv, b)
            &&& a == b ==> plan@[i].0 < plan@[j].0
        } by {
            let a = tv[plan@[i].0 as int];
            let b = tv[plan@[j].0 as int];
            assert(a == types@[plan@[i].0 as int]@ && b == types@[plan@[j].0 as int]@);
            assert(a == ds[rank[i]] && b == ds[rank[j]]);
            assert(rank_before(plan@, rank, i, j));
            let ca = ds.index_of(a);
            assert(0 <= ca < ds.len() && ds[ca] == a);
            assert(ca == rank[i]);
            let cb = ds.index_of(b);
            assert(0 <= cb < ds.len() && ds[cb] == b);
            assert(cb == rank[j]);
        }
    }
    plan
}

/// The distinct types of a batch are listed once each.
proof fn lemma_distinct_types_no_duplicates(types: Seq<Seq<char>>)
    ensures
        distinct_types(types).no_duplicates(),
{
    lemma_distinct_types_unique(types);
    let ds = distinct_types(types);
    assert forall|i: int, j: int| 0 <= i < ds.len() && 0 <= j < ds.len() && i != j implies ds[i] != ds[j] by {
        if j < i {
            assert(ds[j] != ds[i]);
        }
    }
}

/// The positions listed for `t` are exactly those that hold `t`, each once,
/// in increasing order.
pub proof fn lemma_positions_exact(types: Seq<Seq<char>>, t: Seq<char>)
    requires
        types.len() <= usize::MAX,
    ensures
        forall|k: int| 0 <= k < positions_of(types, t).len() ==> {
            let p = #[trigger] positions_of(types, t)[k];
            p < types.len() && types[p as int] == t
        },
        forall|a: int, b: int| 0 <= a < b < positions_of(types, t).len() ==> positions_of(types, t)[a] < positions_of(types, t)[b],
        forall|p: int| 0 <= p < types.len() && types[p] == t ==> positions_of(types, t).contains(p as usize),
    decreases types.len(),
{
    if types.len() > 0 {
        let rest = types.drop_last();
        lemma_positions_exact(rest, t);
        let ps = positions_of(types, t);
        let pr = positions_of(rest, t);
        let last = (types.len() - 1) as usize;
        assert(ps == (if types.last() == t { pr.push(last) } else { pr }));
        assert forall|k: int| 0 <= k < ps.len() implies {
            let p = #[trigger] ps[k];
            p < types.len() && types[p as int] == t
        } by {
            if k < pr.len() {
                assert(ps[k] == pr[k]);
                assert(rest[pr[k] as int] == types[pr[k] as int]);
            }
        }
        assert forall|a: int, b: int| 0 <= a < b < ps.len() implies ps[a] < ps[b] by {
            if b < pr.len() {
                assert(ps[a] == pr[a] && ps[b] == pr[b]);
            } else {
                assert(ps[a] == pr[a]);
                assert(pr[a] < rest.len());
            }
        }
        assert forall|p: int| 0 <= p < types.len() && types[p] == t implies ps.contains(p as usize) by {
            if p < types.len() - 1 {
                assert(rest[p] == t);
                assert(pr.contains(p as usize));
                let k = choose|k: int| 0 <= k < pr.len() && pr[k] == p as usize;
                assert(ps[k] == p as usize);
            } else {
                assert(ps[ps.len() - 1] == p as usize);
            }
        }
    }
}

/// Every event of a batch is in exactly one group: the group of its type,
/// where it is listed once. So every event is answered, and only once.
pub proof fn lemma_every_event_grouped_once(types: Seq<Seq<char>>, p: int)
    requires
        0 <= p < types.len(),
        types.len() <= usize::MAX,
    ensures
        ({
            let gs = grouping_spec(types);
            &&& exists|g: int| 0 <= g < gs.len() && gs[g].0 == types[p] && #[trigger] gs[g].1.contains(p as usize)
            &&& forall|g: int, k: int| 0 <= g < gs.len() && 0 <= k < gs[g].1.len() && #[trigger] gs[g].1[k] == p as usize ==> gs[g].0 == types[p]
            &&& forall|g: int, a: int, b: int| 0 <= g < gs.len() && 0 <= a < b < gs[g].1.len() ==> #[trigger] gs[g].1[a] != #[trigger] gs[g].1[b]
        }),
{
    let gs = grouping_spec(types);
    let ds = distinct_types(types);
    lemma_type_listed(types, p);
    let g = choose|g: int| 0 <= g < ds.len() && ds[g] == types[p];
    lemma_positions_exact(types, types[p]);
    assert(gs[g].0 == types[p]);
    assert(gs[g].1.contains(p as usize));
    assert forall|g2: int, k: int| 0 <= g2 < gs.len() && 0 <= k < gs[g2].1.len() && #[trigger] gs[g2].1[k] == p as usize implies gs[g2].0 == types[p] by {
        lemma_positions_exact(types, ds[g2]);
        assert(gs[g2].1 == positions_of(types, ds[g2]));
    }
    assert forall|g2: int, a: int, b: int| 0 <= g2 < gs.len() && 0 <= a < b < gs[g2].1.len() implies #[trigger] gs[g2].1[a] != #[trigger] gs[g2].1[b] by {
        lemma_positions_exact(types, ds[g2]);
        assert(gs[g2].1 == positions_of(types, ds[g2]));
    }
}

/// Every type of the batch is listed among the distinct types.
proof fn lemma_type_listed(types: Seq<Seq<char>>, p: int)
    requires
        0 <= p < types.len(),
    ensures
        distinct_types(types).contains(types[p]),
    decreases types.len(),
{
    let rest = types.drop_last();
    let rd = distinct_types(rest);
    if p < types.len() - 1 {
        lemma_type_listed(rest, p);
        assert(rest[p] == types[p]);
        let h = choose|h: int| 0 <= h < rd.len() && rd[h] == types[p];
        if !rd.contains(types.last()) {
            assert(distinct_types(types)[h] == types[p]);
        }
    } else {
        if !rd.contains(types.last()) {
            assert(distinct_types(types)[rd.len() as int] == types[p]);
        }
    }
}

} // verus!
