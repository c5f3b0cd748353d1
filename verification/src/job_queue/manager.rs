//! The decisions of the job queue's manager.
//!
//! The manager keeps a dependency graph of the jobs it knows, the status of each of them, a FIFO of jobs waiting
//! to be added to the graph, and a FIFO of jobs that are ready to run. Each operation updates that state and
//! returns the messages to send, in order: jobs to hand to the workers, and notices for the owner of the queue.
//! Jobs are handed to workers only while fewer than the target number of jobs wait in the workers' channel.
use std::collections::{HashMap, HashSet};

use vstd::prelude::*;

use crate::job_queue::graph::{
    dependency_edges, edges_closed, graph_add_edge, graph_add_node, graph_edge_weight, graph_incoming, graph_new,
    graph_outgoing, graph_remove_node, has_edge, out_edges, with_edge, with_node, without_node, DependencyGraph,
};
use crate::job_queue::order::{
    key_order, order_insert, order_is_empty, order_new, order_pop_front, order_remove, without_key, KeyOrder,
};
use crate::job_queue::{Job, JobQueueMessage};

verus! {

broadcast use vstd::std_specs::hash::group_hash_axioms;

/// The status of a job in the dependency graph.
pub enum JobStatus<I, O> {
    /// Not run yet: the job's input, and the outputs of its dependencies that completed so far.
    Pending(I, Vec<(u64, O)>),
    /// Handed to a worker.
    Running,
    /// Completed with this output.
    Completed(O),
}

/// A message that the manager sends.
pub enum ManagerAction<I, O> {
    /// To the workers: run the job with this key, this input and these dependency outputs.
    RunJob(u64, I, Vec<(u64, O)>),
    /// To the owner of the queue.
    Notify(JobQueueMessage<u64, I, O>),
}

/// The keys of the pending jobs.
pub open spec fn pending_keys<I, O>(status: Map<u64, JobStatus<I, O>>) -> Set<u64> {
    status.dom().filter(|k: u64| status[k] is Pending)
}

/// The keys of the running jobs.
pub open spec fn running_keys<I, O>(status: Map<u64, JobStatus<I, O>>) -> Set<u64> {
    status.dom().filter(|k: u64| status[k] is Running)
}

/// The message that notes that the queue became empty, when it did: after a decrement of a counter, when no job is
/// pending and none is running.
pub open spec fn queue_empty_notice<I, O>(pending: nat, running: nat) -> Seq<ManagerAction<I, O>> {
    if pending == 0 && running == 0 {
        seq![ManagerAction::Notify(JobQueueMessage::QueueEmpty)]
    } else {
        Seq::empty()
    }
}

/// The input of a pending job.
pub open spec fn pending_input<I, O>(s: JobStatus<I, O>) -> I
    recommends
        s is Pending,
{
    match s {
        JobStatus::Pending(input, _) => input,
        _ => arbitrary(),
    }
}

/// The dependency outputs collected by a pending job.
pub open spec fn pending_outputs<I, O>(s: JobStatus<I, O>) -> Vec<(u64, O)>
    recommends
        s is Pending,
{
    match s {
        JobStatus::Pending(_, outputs) => outputs,
        _ => arbitrary(),
    }
}

/// The output of a completed job.
pub open spec fn completed_output<I, O>(s: JobStatus<I, O>) -> O
    recommends
        s is Completed,
{
    match s {
        JobStatus::Completed(output) => output,
        _ => arbitrary(),
    }
}

/// Taking `k` out of a sequence without duplicates leaves every other element, and only those.
proof fn lemma_without_key(s: Seq<u64>, k: u64)
    requires
        s.no_duplicates(),
    ensures
        forall|x: u64| #[trigger] without_key(s, k).contains(x) <==> s.contains(x) && x != k,
        without_key(s, k).no_duplicates(),
{
    if s.contains(k) {
        let i = s.index_of(k);
        let r = s.remove(i);
        assert forall|x: u64| #[trigger] r.contains(x) <==> s.contains(x) && x != k by {
            if r.contains(x) {
                let j = choose|j: int| 0 <= j < r.len() && r[j] == x;
                if j < i {
                    assert(s[j] == x);
                } else {
                    assert(s[j + 1] == x);
                }
            }
            if s.contains(x) && x != k {
                let j = choose|j: int| 0 <= j < s.len() && s[j] == x;
                if j < i {
                    assert(r[j] == x);
                } else {
                    assert(j != i);
                    assert(r[j - 1] == x);
                }
            }
        }
        assert forall|a: int, b: int| 0 <= a < r.len() && 0 <= b < r.len() && a != b implies r[a] != r[b] by {
            let a2 = if a < i { a } else { a + 1 };
            let b2 = if b < i { b } else { b + 1 };
            assert(r[a] == s[a2]);
            assert(r[b] == s[b2]);
        }
    }
}

/// The statuses after the jobs `keys` were handed to workers.
pub open spec fn with_running<I, O>(status: Map<u64, JobStatus<I, O>>, keys: Seq<u64>) -> Map<u64, JobStatus<I, O>> {
    Map::new(
        |k: u64| status.contains_key(k),
        |k: u64|
            if keys.contains(k) {
                JobStatus::Running
            } else {
                status[k]
            },
    )
}

/// The messages that hand the pending jobs `keys` to workers, in order.
pub open spec fn run_messages<I, O>(status: Map<u64, JobStatus<I, O>>, keys: Seq<u64>) -> Seq<ManagerAction<I, O>> {
    keys.map_values(|k: u64| ManagerAction::RunJob(k, pending_input(status[k]), pending_outputs(status[k])))
}

/// Changing the status of one job changes the pending and running keys by that job alone.
proof fn lemma_status_insert<I, O>(m: Map<u64, JobStatus<I, O>>, k: u64, v: JobStatus<I, O>)
    requires
        m.dom().finite(),
    ensures
        pending_keys(m).finite(),
        running_keys(m).finite(),
        pending_keys(m.insert(k, v)) == (if v is Pending {
            pending_keys(m).insert(k)
        } else {
            pending_keys(m).remove(k)
        }),
        running_keys(m.insert(k, v)) == (if v is Running {
            running_keys(m).insert(k)
        } else {
            running_keys(m).remove(k)
        }),
{
    assert(pending_keys(m).subset_of(m.dom()));
    assert(running_keys(m).subset_of(m.dom()));
    vstd::set_lib::lemma_set_subset_finite(m.dom(), pending_keys(m));
    vstd::set_lib::lemma_set_subset_finite(m.dom(), running_keys(m));
    let m2 = m.insert(k, v);
    if v is Pending {
        assert(pending_keys(m2) =~= pending_keys(m).insert(k));
    } else {
        assert(pending_keys(m2) =~= pending_keys(m).remove(k));
    }
    if v is Running {
        assert(running_keys(m2) =~= running_keys(m).insert(k));
    } else {
        assert(running_keys(m2) =~= running_keys(m).remove(k));
    }
}

/// The jobs waiting to be added are distinct, not in the graph, and filed under their own keys.
pub open spec fn add_queue_ok<I, J: Job<I>>(to_add: Seq<u64>, add_jobs: Map<u64, J>, graph: Map<u64, Map<u64, u64>>) -> bool {
    &&& to_add.no_duplicates()
    &&& forall|k: u64| #[trigger] to_add.contains(k) <==> add_jobs.contains_key(k)
    &&& forall|k: u64| #[trigger]
        add_jobs.contains_key(k) ==> !graph.contains_key(k) && add_jobs[k].spec_key() == k
}

/// The jobs ready to run are distinct and pending.
pub open spec fn run_queue_ok<I, O>(to_run: Seq<u64>, status: Map<u64, JobStatus<I, O>>) -> bool {
    &&& to_run.no_duplicates()
    &&& forall|k: u64| #[trigger] to_run.contains(k) ==> status.contains_key(k) && status[k] is Pending
}

/// The key of the job that a message hands to a worker.
pub open spec fn run_key<I, O>(a: ManagerAction<I, O>) -> u64
    recommends
        a is RunJob,
{
    match a {
        ManagerAction::RunJob(k, _, _) => k,
        _ => arbitrary(),
    }
}

/// The messages `sent` only hand jobs to workers, each job at most once, each now running, and each with the
/// input and the dependency outputs that it held when it was pending before.
pub open spec fn hands_out<I, O>(
    before: Map<u64, JobStatus<I, O>>,
    after: Map<u64, JobStatus<I, O>>,
    sent: Seq<ManagerAction<I, O>>,
) -> bool {
    &&& forall|i: int| 0 <= i < sent.len() ==> #[trigger] sent[i] is RunJob
    &&& forall|i: int, j: int| 0 <= i < j < sent.len() ==> run_key(#[trigger] sent[i]) != run_key(#[trigger] sent[j])
    &&& forall|i: int|
        0 <= i < sent.len() ==> {
            let k = run_key(#[trigger] sent[i]);
            &&& after.contains_key(k)
            &&& after[k] is Running
            &&& before.contains_key(k) ==> before[k] is Pending && sent[i] == ManagerAction::RunJob(
                k,
                pending_input(before[k]),
                pending_outputs(before[k]),
            )
        }
}

/// How many jobs are handed to workers from a ready queue of `ready` jobs when `backlog` jobs already wait in
/// the workers' channel and the manager keeps `target` jobs waiting there.
pub open spec fn dispatch_count(ready: nat, backlog: nat, target: nat) -> nat {
    if backlog >= target {
        0
    } else if ready <= target - backlog {
        ready
    } else {
        (target - backlog) as nat
    }
}

/// What the job `j` holds after the job `k` completed with `output`, given what it held before: a pending job
/// that depends on `k` holds, after the dependency outputs it held, the pair of its dependency key for `k` and a
/// clone of the output; any other job holds what it held.
pub open spec fn output_handed<I, O: Clone>(
    before: JobStatus<I, O>,
    graph: Map<u64, Map<u64, u64>>,
    j: u64,
    k: u64,
    output: O,
    after: JobStatus<I, O>,
) -> bool {
    if has_edge(graph, j, k) && before is Pending {
        let outputs = pending_outputs(after)@;
        &&& after is Pending
        &&& pending_input(after) == pending_input(before)
        &&& outputs.len() == pending_outputs(before)@.len() + 1
        &&& outputs.drop_last() == pending_outputs(before)@
        &&& outputs.last().0 == graph[j][k]
        &&& cloned(output, outputs.last().1)
    } else {
        after == before
    }
}

/// The statuses `after` are the statuses `before` once the running job `k` completed with `output`: `k` holds a
/// clone of the output, and every other job holds what [`output_handed`] says.
pub open spec fn completion_applied<I, O: Clone>(
    before: Map<u64, JobStatus<I, O>>,
    graph: Map<u64, Map<u64, u64>>,
    k: u64,
    output: O,
    after: Map<u64, JobStatus<I, O>>,
) -> bool {
    &&& after.dom() == before.dom()
    &&& after.contains_key(k)
    &&& after[k] is Completed
    &&& cloned(output, completed_output(after[k]))
    &&& forall|j: u64| j != k && #[trigger] before.contains_key(j) ==> output_handed(before[j], graph, j, k, output, after[j])
}

/// The ready queue `after` holds the jobs of the ready queue `before`, and the pending dependents of the job `k`
/// that the completion of `k` made ready: those that, with the output of `k`, hold as many dependency outputs as
/// they have dependencies.
pub open spec fn ready_after_completion<I, O>(
    before: Seq<u64>,
    status: Map<u64, JobStatus<I, O>>,
    graph: Map<u64, Map<u64, u64>>,
    k: u64,
    after: Seq<u64>,
) -> bool {
    &&& after.no_duplicates()
    &&& forall|x: u64| #[trigger]
        after.contains(x) <==> before.contains(x) || (x != k && status.contains_key(x) && has_edge(graph, x, k)
            && status[x] is Pending && pending_outputs(status[x])@.len() + 1 == out_edges(graph, x).len())
}

/// The graph without the nodes `removed`, taken out one after the other.
pub open spec fn without_nodes(g: Map<u64, Map<u64, u64>>, removed: Seq<u64>) -> Map<u64, Map<u64, u64>>
    decreases removed.len(),
{
    if removed.len() == 0 {
        g
    } else {
        without_node(without_nodes(g, removed.drop_last()), removed.last())
    }
}

/// The sequence `s` without the keys `removed`, taken out one after the other.
pub open spec fn without_keys(s: Seq<u64>, removed: Seq<u64>) -> Seq<u64>
    decreases removed.len(),
{
    if removed.len() == 0 {
        s
    } else {
        without_key(without_keys(s, removed.drop_last()), removed.last())
    }
}

/// The notice that the job `k`, of status `s`, was removed.
pub open spec fn removal_message<I, O>(k: u64, s: JobStatus<I, O>) -> ManagerAction<I, O> {
    match s {
        JobStatus::Pending(input, _) => ManagerAction::Notify(JobQueueMessage::PendingJobRemoved(k, input)),
        JobStatus::Running => ManagerAction::Notify(JobQueueMessage::RunningJobRemoved(k)),
        JobStatus::Completed(output) => ManagerAction::Notify(JobQueueMessage::CompletedJobRemoved(k, output)),
    }
}

/// The messages that removing the jobs `removed` from the statuses `status`, one after the other, sends: for each
/// job the notice of its removal, followed, when it was pending or running, by the notice that the queue became
/// empty when it did.
pub open spec fn removal_actions<I, O>(status: Map<u64, JobStatus<I, O>>, removed: Seq<u64>) -> Seq<ManagerAction<I, O>>
    decreases removed.len(),
{
    if removed.len() == 0 {
        Seq::empty()
    } else {
        let k = removed.last();
        let after = status.remove_keys(removed.to_set());
        removal_actions(status, removed.drop_last()).push(removal_message(k, status[k])) + (if status[k] is Completed {
            Seq::empty()
        } else {
            queue_empty_notice::<I, O>(pending_keys(after).len(), running_keys(after).len())
        })
    }
}

/// One of the first `n` jobs taken out depends on `d`.
pub open spec fn depended_on_by_removed(g: Map<u64, Map<u64, u64>>, removed: Seq<u64>, n: int, d: u64) -> bool {
    exists|p: int| 0 <= p < n && #[trigger] has_edge(g, removed[p], d)
}

/// Looking at `x` when `n` jobs were taken out: `x` was taken out right then, as the job after those `n`; or it was
/// kept, because a job other than those `n` depends on it.
pub open spec fn looked_at(g: Map<u64, Map<u64, u64>>, removed: Seq<u64>, x: u64, n: int) -> bool {
    if removed.contains(x) {
        0 <= n < removed.len() && removed[n] == x
    } else {
        0 <= n <= removed.len() && exists|y: u64| #[trigger] has_edge(g, y, x) && !removed.take(n).contains(y)
    }
}

/// The breadth-first removal that started from `k` in the graph `g` looked at the jobs `considered`, in this order,
/// and took out the jobs `removed`, in this order; `removed_at[q]` jobs were taken out when it looked at
/// `considered[q]`. It started from `k`; it looked at each job once, and at each job after `k` only because a job
/// taken out before depends on it; it took out each job it looked at on which only jobs taken out before depend,
/// and kept the others; it looked at every dependency of a job it took out; and it took out only jobs it looked at.
pub open spec fn removal_outcome(
    g: Map<u64, Map<u64, u64>>,
    k: u64,
    removed: Seq<u64>,
    considered: Seq<u64>,
    removed_at: Seq<int>,
) -> bool {
    &&& removed.no_duplicates()
    &&& considered.no_duplicates()
    &&& considered.len() >= 1
    &&& considered[0] == k
    &&& removed.len() > 0 ==> removed[0] == k
    &&& removed_at.len() == considered.len()
    &&& forall|q: int| 1 <= q < considered.len() ==> #[trigger] depended_on_by_removed(g, removed, removed_at[q], considered[q])
    &&& forall|q: int| 0 <= q < considered.len() ==> #[trigger] looked_at(g, removed, considered[q], removed_at[q])
    &&& forall|j: int| 0 <= j < removed.len() ==> considered.contains(#[trigger] removed[j])
    &&& forall|j: int, y: u64| 0 <= j < removed.len() && #[trigger] has_edge(g, y, removed[j]) ==> removed.take(j).contains(y)
    &&& forall|r: u64, d: u64| removed.contains(r) && #[trigger] has_edge(g, r, d) ==> considered.contains(d)
}

/// Taking nodes out of a graph leaves the other nodes and the edges between them.
proof fn lemma_without_nodes(g: Map<u64, Map<u64, u64>>, removed: Seq<u64>)
    ensures
        forall|a: u64| #[trigger] without_nodes(g, removed).contains_key(a) <==> g.contains_key(a) && !removed.contains(a),
        forall|a: u64, b: u64| #[trigger] has_edge(without_nodes(g, removed), a, b) <==> has_edge(g, a, b)
            && !removed.contains(a) && !removed.contains(b),
    decreases removed.len(),
{
    if removed.len() > 0 {
        let rest = removed.drop_last();
        let x = removed.last();
        lemma_without_nodes(g, rest);
        assert forall|a: u64| #[trigger] removed.contains(a) <==> rest.contains(a) || a == x by {
            if removed.contains(a) {
                let i = choose|i: int| 0 <= i < removed.len() && removed[i] == a;
                if i < rest.len() {
                    assert(rest[i] == a);
                }
            }
            if rest.contains(a) {
                let i = choose|i: int| 0 <= i < rest.len() && rest[i] == a;
                assert(removed[i] == a);
            }
            if a == x {
                assert(removed[removed.len() - 1] == a);
            }
        }
        let h = without_nodes(g, rest);
        assert forall|a: u64, b: u64| #[trigger] has_edge(without_node(h, x), a, b) <==> has_edge(h, a, b) && a != x
            && b != x by {
            if has_edge(without_node(h, x), a, b) {
                assert(h.contains_key(a) && a != x);
                assert(without_node(h, x)[a] == h[a].remove(x));
            }
            if has_edge(h, a, b) && a != x && b != x {
                assert(without_node(h, x)[a] == h[a].remove(x));
            }
        }
    }
}

/// The state of the breadth-first removal that started from `k` in the graph `g`: the jobs `queue` were queued, in
/// this order, each once, and the first `idx` of them were looked at; the jobs `removed` were taken out, in this
/// order, `removed[j]` being `queue[rpos[j]]`; `removed_at[q]` jobs were taken out when `queue[q]` was looked at,
/// and `keeper[q]` depends on it when it was kept; `queue[q]` was queued as a dependency of `removed[qparent[q]]`.
#[verifier::opaque]
spec fn bfs_state(
    g: Map<u64, Map<u64, u64>>,
    k: u64,
    removed: Seq<u64>,
    rpos: Seq<int>,
    queue: Seq<u64>,
    qparent: Seq<int>,
    removed_at: Seq<int>,
    keeper: Seq<u64>,
    idx: int,
) -> bool {
    &&& removed.no_duplicates()
    &&& queue.no_duplicates()
    &&& 1 <= queue.len()
    &&& queue[0] == k
    &&& 0 <= idx <= queue.len()
    &&& rpos.len() == removed.len()
    &&& qparent.len() == queue.len()
    &&& removed_at.len() == idx
    &&& keeper.len() == idx
    &&& forall|j: int| 0 <= j < removed.len() ==> 0 <= #[trigger] rpos[j] < idx && queue[rpos[j]] == removed[j]
        && removed_at[rpos[j]] == j
    &&& forall|q: int| 0 <= q < idx ==> 0 <= #[trigger] removed_at[q] <= removed.len()
    &&& forall|q: int| 0 <= q < idx && !removed.contains(#[trigger] queue[q]) ==> has_edge(g, keeper[q], queue[q])
        && !removed.take(removed_at[q]).contains(keeper[q])
    &&& forall|q: int| 1 <= q < queue.len() ==> 0 <= #[trigger] qparent[q] < removed.len() && has_edge(g, removed[qparent[q]], queue[q])
        && (q < idx ==> qparent[q] < removed_at[q])
    &&& forall|q: int| idx <= q < queue.len() ==> !removed.contains(#[trigger] queue[q]) && g.contains_key(queue[q])
    &&& forall|j: int, y: u64| 0 <= j < removed.len() && #[trigger] has_edge(g, y, removed[j])
        ==> removed.take(j).contains(y)
    &&& forall|r: u64, d: u64| removed.contains(r) && #[trigger] has_edge(g, r, d) ==> queue.contains(d)
    &&& forall|j: int| 0 <= j < removed.len() ==> g.contains_key(#[trigger] removed[j])
    &&& idx == 0 ==> removed.len() == 0
    &&& removed.len() == 0 ==> queue.len() == 1
    &&& removed.len() > 0 ==> removed[0] == k
}

/// The next queued job is in the graph and was not taken out.
proof fn lemma_bfs_entry(
    g: Map<u64, Map<u64, u64>>,
    k: u64,
    removed: Seq<u64>,
    rpos: Seq<int>,
    queue: Seq<u64>,
    qparent: Seq<int>,
    removed_at: Seq<int>,
    keeper: Seq<u64>,
    idx: int,
)
    requires
        bfs_state(g, k, removed, rpos, queue, qparent, removed_at, keeper, idx),
        idx < queue.len(),
    ensures
        g.contains_key(queue[idx]),
        !removed.contains(queue[idx]),
        idx >= 1 ==> removed.len() > 0,
{
    reveal(bfs_state);
}

/// A job taken out is in the queue.
proof fn lemma_removed_in_queue(removed: Seq<u64>, rpos: Seq<int>, queue: Seq<u64>, r: u64)
    requires
        rpos.len() == removed.len(),
        forall|j: int| 0 <= j < removed.len() ==> 0 <= #[trigger] rpos[j] < queue.len() && queue[rpos[j]] == removed[j],
        removed.contains(r),
    ensures
        queue.contains(r),
{
    let j = choose|j: int| 0 <= j < removed.len() && removed[j] == r;
    assert(queue[rpos[j]] == r);
}

/// Keeping the next queued job, on which the job `y`, not taken out, depends, keeps the state.
proof fn lemma_bfs_keep(
    g: Map<u64, Map<u64, u64>>,
    k: u64,
    removed: Seq<u64>,
    rpos: Seq<int>,
    queue: Seq<u64>,
    qparent: Seq<int>,
    removed_at: Seq<int>,
    keeper: Seq<u64>,
    idx: int,
    y: u64,
)
    requires
        bfs_state(g, k, removed, rpos, queue, qparent, removed_at, keeper, idx),
        idx < queue.len(),
        !removed.contains(y),
        has_edge(g, y, queue[idx]),
    ensures
        bfs_state(
            g,
            k,
            removed,
            rpos,
            queue,
            qparent,
            removed_at.push(removed.len() as int),
            keeper.push(y),
            idx + 1,
        ),
        removed.len() == 0 ==> exists|w: u64| has_edge(g, w, k),
{
    reveal(bfs_state);
    let ra = removed_at.push(removed.len() as int);
    let kp = keeper.push(y);
    assert(removed.take(removed.len() as int) =~= removed);
    assert forall|j: int| 0 <= j < removed.len() implies 0 <= #[trigger] rpos[j] < idx + 1 && queue[rpos[j]] == removed[j]
        && ra[rpos[j]] == j by {
        assert(ra[rpos[j]] == removed_at[rpos[j]]);
    }
    assert forall|q: int| 0 <= q < idx + 1 && !removed.contains(#[trigger] queue[q]) implies has_edge(g, kp[q], queue[q])
        && !removed.take(ra[q]).contains(kp[q]) by {
        if q < idx {
            assert(kp[q] == keeper[q] && ra[q] == removed_at[q]);
        }
    }
    assert forall|q: int| 1 <= q < queue.len() implies 0 <= #[trigger] qparent[q] < removed.len() && has_edge(
        g,
        removed[qparent[q]],
        queue[q],
    ) && (q < idx + 1 ==> qparent[q] < ra[q]) by {
        if q < idx {
            assert(ra[q] == removed_at[q]);
        }
    }
    if removed.len() == 0 {
        assert(idx == 0);
        assert(has_edge(g, y, k));
    }
}

/// Taking out the next queued job, on which only jobs taken out depend, and queueing `added`, the dependencies
/// `deps` of it that were not taken out nor queued, keeps the state.
proof fn lemma_bfs_take_out(
    g: Map<u64, Map<u64, u64>>,
    k: u64,
    removed: Seq<u64>,
    rpos: Seq<int>,
    queue: Seq<u64>,
    qparent: Seq<int>,
    removed_at: Seq<int>,
    keeper: Seq<u64>,
    idx: int,
    deps: Seq<u64>,
    added: Seq<u64>,
)
    requires
        bfs_state(g, k, removed, rpos, queue, qparent, removed_at, keeper, idx),
        edges_closed(g),
        idx < queue.len(),
        forall|y: u64| #[trigger] has_edge(g, y, queue[idx]) ==> removed.contains(y),
        forall|d: u64| #[trigger] deps.contains(d) <==> has_edge(g, queue[idx], d) && !removed.contains(d),
        added.no_duplicates(),
        forall|d: u64| #[trigger] added.contains(d) <==> deps.contains(d) && !queue.contains(d),
    ensures
        bfs_state(
            g,
            k,
            removed.push(queue[idx]),
            rpos.push(idx),
            queue + added,
            qparent + Seq::new(added.len(), |m: int| removed.len() as int),
            removed_at.push(removed.len() as int),
            keeper.push(queue[idx]),
            idx + 1,
        ),
{
    reveal(bfs_state);
    let x = queue[idx];
    let rl = removed.len() as int;
    let ql = queue.len() as int;
    let r2 = removed.push(x);
    let rp2 = rpos.push(idx);
    let q2 = queue + added;
    let qp2 = qparent + Seq::new(added.len(), |m: int| rl);
    let ra2 = removed_at.push(rl);
    let kp2 = keeper.push(x);
    assert(!removed.contains(x));
    assert(g.contains_key(x));
    assert forall|j: int| 0 <= j < rl implies #[trigger] r2[j] == removed[j] by {}
    assert forall|q: int| 0 <= q < ql implies #[trigger] q2[q] == queue[q] by {}
    assert forall|q: int| 0 <= q < idx implies #[trigger] ra2[q] == removed_at[q] && kp2[q] == keeper[q] by {}
    assert forall|a: u64| #[trigger] r2.contains(a) <==> removed.contains(a) || a == x by {
        if r2.contains(a) {
            let j = choose|j: int| 0 <= j < r2.len() && r2[j] == a;
            if j < rl {
                assert(removed[j] == a);
            }
        }
        if removed.contains(a) {
            let j = choose|j: int| 0 <= j < rl && removed[j] == a;
            assert(r2[j] == a);
        }
        if a == x {
            assert(r2[rl] == a);
        }
    }
    assert forall|a: u64| #[trigger] q2.contains(a) <==> queue.contains(a) || added.contains(a) by {
        if q2.contains(a) {
            let q = choose|q: int| 0 <= q < q2.len() && q2[q] == a;
            if q >= ql {
                assert(added[q - ql] == a);
            }
        }
        if queue.contains(a) {
            let q = choose|q: int| 0 <= q < ql && queue[q] == a;
            assert(q2[q] == a);
        }
        if added.contains(a) {
            let m = choose|m: int| 0 <= m < added.len() && added[m] == a;
            assert(q2[ql + m] == a);
        }
    }
    assert(r2.no_duplicates()) by {
        assert forall|a: int, b: int| 0 <= a < r2.len() && 0 <= b < r2.len() && a != b implies r2[a] != r2[b] by {
            if a == rl {
                assert(removed.contains(r2[b]));
            } else if b == rl {
                assert(removed.contains(r2[a]));
            }
        }
    }
    assert(q2.no_duplicates()) by {
        assert forall|a: int, b: int| 0 <= a < q2.len() && 0 <= b < q2.len() && a != b implies q2[a] != q2[b] by {
            if a < ql && b >= ql {
                assert(added.contains(q2[b]));
                assert(queue.contains(q2[a]));
            } else if a >= ql && b < ql {
                assert(added.contains(q2[a]));
                assert(queue.contains(q2[b]));
            } else if a >= ql && b >= ql {
                assert(q2[a] == added[a - ql] && q2[b] == added[b - ql]);
            }
        }
    }
    assert forall|j: int| 0 <= j < r2.len() implies 0 <= #[trigger] rp2[j] < idx + 1 && q2[rp2[j]] == r2[j] && ra2[rp2[j]]
        == j by {
        if j < rl {
            assert(rp2[j] == rpos[j]);
        }
    }
    assert forall|q: int| 0 <= q < idx + 1 implies 0 <= #[trigger] ra2[q] <= r2.len() by {}
    assert forall|q: int| 0 <= q < idx + 1 && !r2.contains(#[trigger] q2[q]) implies has_edge(g, kp2[q], q2[q])
        && !r2.take(ra2[q]).contains(kp2[q]) by {
        assert(q < idx);
        assert(r2.take(ra2[q]) =~= removed.take(removed_at[q]));
    }
    assert forall|q: int| 1 <= q < q2.len() implies 0 <= #[trigger] qp2[q] < r2.len() && has_edge(g, r2[qp2[q]], q2[q])
        && (q < idx + 1 ==> qp2[q] < ra2[q]) by {
        if q < ql {
            assert(qp2[q] == qparent[q]);
        } else {
            assert(qp2[q] == rl);
            assert(added.contains(q2[q])) by {
                assert(added[q - ql] == q2[q]);
            }
        }
    }
    assert forall|q: int| idx + 1 <= q < q2.len() implies !r2.contains(#[trigger] q2[q]) && g.contains_key(q2[q]) by {
        if q >= ql {
            assert(added.contains(q2[q])) by {
                assert(added[q - ql] == q2[q]);
            }
            assert(has_edge(g, x, q2[q]));
        } else {
            assert(q2[q] != x) by {
                assert(queue[idx] == x);
            }
        }
    }
    assert forall|j: int, y: u64| 0 <= j < r2.len() && #[trigger] has_edge(g, y, r2[j]) implies r2.take(j).contains(y) by {
        if j < rl {
            assert(r2.take(j) =~= removed.take(j));
            assert(has_edge(g, y, removed[j]));
        } else {
            assert(r2.take(j) =~= removed);
        }
    }
    assert forall|r: u64, d: u64| r2.contains(r) && #[trigger] has_edge(g, r, d) implies q2.contains(d) by {
        if r == x {
            if removed.contains(d) {
                lemma_removed_in_queue(removed, rpos, queue, d);
            } else if !queue.contains(d) {
                assert(deps.contains(d));
                assert(added.contains(d));
            }
        } else {
            assert(queue.contains(d));
        }
    }
}

/// When every queued job was looked at, the removal's outcome holds, and nothing was taken out exactly when a job
/// depends on the first.
proof fn lemma_bfs_done(
    g: Map<u64, Map<u64, u64>>,
    k: u64,
    removed: Seq<u64>,
    rpos: Seq<int>,
    queue: Seq<u64>,
    qparent: Seq<int>,
    removed_at: Seq<int>,
    keeper: Seq<u64>,
)
    requires
        bfs_state(g, k, removed, rpos, queue, qparent, removed_at, keeper, queue.len() as int),
        removed.len() == 0 ==> exists|w: u64| has_edge(g, w, k),
    ensures
        removal_outcome(g, k, removed, queue, removed_at),
        removed.len() == 0 <==> exists|y: u64| has_edge(g, y, k),
{
    reveal(bfs_state);
    assert forall|q: int| 1 <= q < queue.len() implies #[trigger] depended_on_by_removed(g, removed, removed_at[q], queue[q]) by {
        assert(has_edge(g, removed[qparent[q]], queue[q]));
    }
    assert forall|q: int| 0 <= q < queue.len() implies #[trigger] looked_at(g, removed, queue[q], removed_at[q]) by {
        if removed.contains(queue[q]) {
            let j = choose|j: int| 0 <= j < removed.len() && removed[j] == queue[q];
            assert(queue[rpos[j]] == removed[j]);
            assert(rpos[j] == q);
        } else {
            assert(has_edge(g, keeper[q], queue[q]));
        }
    }
    assert forall|j: int| 0 <= j < removed.len() implies queue.contains(#[trigger] removed[j]) by {
        assert(queue[rpos[j]] == removed[j]);
    }
    if removed.len() > 0 {
        assert forall|y: u64| !has_edge(g, y, k) by {
            if has_edge(g, y, removed[0]) {
                assert(removed.take(0).contains(y));
            }
        }
    }
}

/// Removing a job that waits to be added undoes queueing it: when `k` was neither in the add queue `to_add` nor
/// among the waiting jobs `add_jobs`, queueing `job` under `k` and then removing `k` gives back the add queue and
/// the waiting jobs as they were.
pub proof fn lemma_remove_undoes_queued_add<J>(to_add: Seq<u64>, add_jobs: Map<u64, J>, k: u64, job: J)
    requires
        to_add.no_duplicates(),
        !to_add.contains(k),
        !add_jobs.contains_key(k),
    ensures
        without_key(to_add.push(k), k) == to_add,
        add_jobs.insert(k, job).remove(k) == add_jobs,
{
    let s = to_add.push(k);
    assert(s[to_add.len() as int] == k);
    assert(s.contains(k));
    let i = s.index_of(k);
    assert(i == to_add.len()) by {
        if i < to_add.len() {
            assert(to_add[i] == k);
        }
    }
    assert(s.remove(i) =~= to_add);
    assert(add_jobs.insert(k, job).remove(k) =~= add_jobs);
}

/// The messages `sent` start by handing out, first ready first, the jobs of the ready queue `to_run` that fit in
/// the workers' channel, where `backlog` jobs wait and `target` may wait, each with the input and the dependency
/// outputs that `status` gives it.
pub open spec fn first_dispatch<I, O>(
    status: Map<u64, JobStatus<I, O>>,
    to_run: Seq<u64>,
    backlog: nat,
    target: nat,
    sent: Seq<ManagerAction<I, O>>,
) -> bool {
    let n = dispatch_count(to_run.len(), backlog, target);
    &&& n <= sent.len()
    &&& sent.take(n as int) == run_messages(status, to_run.take(n as int))
}

/// The dependencies of the job `j` that completed.
pub open spec fn completed_dependencies<I, O>(
    graph: Map<u64, Map<u64, u64>>,
    status: Map<u64, JobStatus<I, O>>,
    j: u64,
) -> Set<u64> {
    out_edges(graph, j).dom().filter(|d: u64| status.contains_key(d) && status[d] is Completed)
}

/// Every dependency of the job `j` completed.
pub open spec fn dependencies_completed<I, O>(
    graph: Map<u64, Map<u64, u64>>,
    status: Map<u64, JobStatus<I, O>>,
    j: u64,
) -> bool {
    forall|d: u64| #[trigger] has_edge(graph, j, d) ==> status.contains_key(d) && status[d] is Completed
}

/// The dependency key `key` is the dependency key of a dependency of the job `j` that completed.
pub open spec fn key_of_completed<I, O>(
    graph: Map<u64, Map<u64, u64>>,
    status: Map<u64, JobStatus<I, O>>,
    j: u64,
    key: u64,
) -> bool {
    exists|d: u64| #[trigger] has_edge(graph, j, d) && status.contains_key(d) && status[d] is Completed && key == graph[j][d]
}

/// The value `v` is the output that the job of status `s` completed with: a clone of it, or a clone of the value
/// that it is a clone of.
pub open spec fn output_of<I, O: Clone>(s: JobStatus<I, O>, v: O) -> bool {
    cloned(completed_output(s), v) || exists|o: O| cloned(o, completed_output(s)) && #[trigger] cloned(o, v)
}

/// The dependency output `out` of the job `j` came from its dependency `d`: `d` completed, and `out` is the
/// dependency key of the edge from `j` to `d` with the output that `d` completed with.
pub open spec fn output_from<I, O: Clone>(
    graph: Map<u64, Map<u64, u64>>,
    status: Map<u64, JobStatus<I, O>>,
    j: u64,
    d: u64,
    out: (u64, O),
) -> bool {
    &&& has_edge(graph, j, d)
    &&& status.contains_key(d)
    &&& status[d] is Completed
    &&& out.0 == graph[j][d]
    &&& output_of(status[d], out.1)
}

/// The dependencies `src` are where the dependency outputs `outputs` of the job `j` came from, one for each, and
/// no dependency twice.
pub open spec fn outputs_sourced_by<I, O: Clone>(
    graph: Map<u64, Map<u64, u64>>,
    status: Map<u64, JobStatus<I, O>>,
    j: u64,
    outputs: Seq<(u64, O)>,
    src: Seq<u64>,
) -> bool {
    &&& src.len() == outputs.len()
    &&& src.no_duplicates()
    &&& forall|i: int| 0 <= i < outputs.len() ==> #[trigger] output_from(graph, status, j, src[i], outputs[i])
}

/// Each of the dependency outputs `outputs` of the job `j` came from a different dependency of `j` that completed:
/// it is the dependency key of the edge to that dependency with the output that the dependency completed with.
pub open spec fn outputs_from_completed<I, O: Clone>(
    graph: Map<u64, Map<u64, u64>>,
    status: Map<u64, JobStatus<I, O>>,
    j: u64,
    outputs: Seq<(u64, O)>,
) -> bool {
    exists|src: Seq<u64>| #[trigger] outputs_sourced_by(graph, status, j, outputs, src)
}

/// Outputs that came from completed dependencies still do when every such dependency keeps its edge, its dependency
/// key and its status.
proof fn lemma_outputs_transfer<I, O: Clone>(
    g1: Map<u64, Map<u64, u64>>,
    st1: Map<u64, JobStatus<I, O>>,
    g2: Map<u64, Map<u64, u64>>,
    st2: Map<u64, JobStatus<I, O>>,
    j: u64,
    outputs: Seq<(u64, O)>,
)
    requires
        outputs_from_completed(g1, st1, j, outputs),
        forall|d: u64|
            #[trigger] has_edge(g1, j, d) && st1.contains_key(d) && st1[d] is Completed ==> has_edge(g2, j, d) && g2[j][d]
                == g1[j][d] && st2.contains_key(d) && st2[d] == st1[d],
    ensures
        outputs_from_completed(g2, st2, j, outputs),
{
    let src = choose|src: Seq<u64>| #[trigger] outputs_sourced_by(g1, st1, j, outputs, src);
    assert forall|i: int| 0 <= i < outputs.len() implies #[trigger] output_from(g2, st2, j, src[i], outputs[i]) by {
        assert(output_from(g1, st1, j, src[i], outputs[i]));
        assert(has_edge(g1, j, src[i]));
    }
    assert(outputs_sourced_by(g2, st2, j, outputs, src));
}

/// The pending job `j` is ready in the right way: it has finitely many dependencies, it holds one dependency
/// output per dependency that completed, each tagged with the dependency key of a completed dependency, and it is
/// in the ready queue `to_run` exactly when every dependency completed.
pub open spec fn job_readiness<I, O: Clone>(
    graph: Map<u64, Map<u64, u64>>,
    status: Map<u64, JobStatus<I, O>>,
    to_run: Seq<u64>,
    j: u64,
) -> bool {
    &&& out_edges(graph, j).dom().finite()
    &&& pending_outputs(status[j])@.len() == completed_dependencies(graph, status, j).len()
    &&& outputs_from_completed(graph, status, j, pending_outputs(status[j])@)
    &&& (to_run.contains(j) <==> dependencies_completed(graph, status, j))
}

/// Every pending job but those in `except` is ready in the right way.
pub open spec fn readiness<I, O: Clone>(
    graph: Map<u64, Map<u64, u64>>,
    status: Map<u64, JobStatus<I, O>>,
    to_run: Seq<u64>,
    except: Set<u64>,
) -> bool {
    forall|j: u64|
        #![trigger status.contains_key(j), except.contains(j)]
        status.contains_key(j) && status[j] is Pending && !except.contains(j) ==> job_readiness(graph, status, to_run, j)
}

/// The completed dependencies of `j` that are all its dependencies are exactly as many as its dependencies.
proof fn lemma_all_completed<I, O: Clone>(graph: Map<u64, Map<u64, u64>>, status: Map<u64, JobStatus<I, O>>, j: u64)
    requires
        out_edges(graph, j).dom().finite(),
    ensures
        completed_dependencies(graph, status, j).finite(),
        completed_dependencies(graph, status, j).len() <= out_edges(graph, j).len(),
        dependencies_completed(graph, status, j) <==> completed_dependencies(graph, status, j).len() == out_edges(
            graph,
            j,
        ).len(),
{
    let c = completed_dependencies(graph, status, j);
    let e = out_edges(graph, j).dom();
    assert(c.subset_of(e));
    vstd::set_lib::lemma_len_subset(c, e);
    if c.len() == e.len() {
        vstd::set_lib::lemma_subset_equality(c, e);
        assert forall|d: u64| #[trigger] has_edge(graph, j, d) implies status.contains_key(d) && status[d] is Completed by {
            assert(e.contains(d));
            assert(c.contains(d));
        }
    }
    if dependencies_completed(graph, status, j) {
        assert forall|d: u64| e.contains(d) implies c.contains(d) by {
            assert(has_edge(graph, j, d));
        }
        assert(c =~= e);
    }
}

/// Every pending job outside `except2` that was pending and outside `except1` before, that kept its status, its
/// dependencies, its place in the ready queue and whether each dependency completed, is still ready in the right
/// way.
proof fn lemma_readiness_frame<I, O: Clone>(
    g1: Map<u64, Map<u64, u64>>,
    st1: Map<u64, JobStatus<I, O>>,
    tr1: Seq<u64>,
    e1: Set<u64>,
    g2: Map<u64, Map<u64, u64>>,
    st2: Map<u64, JobStatus<I, O>>,
    tr2: Seq<u64>,
    e2: Set<u64>,
)
    requires
        readiness(g1, st1, tr1, e1),
        forall|j: u64|
            #![trigger st2.contains_key(j), e2.contains(j)]
            st2.contains_key(j) && st2[j] is Pending && !e2.contains(j) ==> {
                &&& st1.contains_key(j)
                &&& !e1.contains(j)
                &&& st2[j] == st1[j]
                &&& out_edges(g2, j) == out_edges(g1, j)
                &&& (tr2.contains(j) <==> tr1.contains(j))
                &&& forall|d: u64| #[trigger]
                    out_edges(g1, j).contains_key(d) ==> (st2.contains_key(d) <==> st1.contains_key(d)) && (
                    st2.contains_key(d) ==> (st2[d] is Completed <==> st1[d] is Completed)) && (st1.contains_key(d)
                        && st1[d] is Completed ==> st2[d] == st1[d])
            },
    ensures
        readiness(g2, st2, tr2, e2),
{
    assert forall|j: u64| st2.contains_key(j) && st2[j] is Pending && !e2.contains(j) implies job_readiness(
        g2,
        st2,
        tr2,
        j,
    ) by {
        assert(st1.contains_key(j) && !e1.contains(j));
        assert(job_readiness(g1, st1, tr1, j));
        assert forall|d: u64| #[trigger] has_edge(g1, j, d) && st1.contains_key(d) && st1[d] is Completed implies has_edge(
            g2,
            j,
            d,
        ) && g2[j][d] == g1[j][d] && st2.contains_key(d) && st2[d] == st1[d] by {
            assert(out_edges(g1, j).contains_key(d));
        }
        lemma_outputs_transfer(g1, st1, g2, st2, j, pending_outputs(st1[j])@);
        assert(completed_dependencies(g2, st2, j) =~= completed_dependencies(g1, st1, j));
        assert(dependencies_completed(g2, st2, j) <==> dependencies_completed(g1, st1, j)) by {
            if dependencies_completed(g1, st1, j) {
                assert forall|d: u64| #[trigger] has_edge(g2, j, d) implies st2.contains_key(d) && st2[d] is Completed by {
                    assert(out_edges(g2, j).contains_key(d));
                    assert(has_edge(g1, j, d));
                }
            }
            if dependencies_completed(g2, st2, j) {
                assert forall|d: u64| #[trigger] has_edge(g1, j, d) implies st1.contains_key(d) && st1[d] is Completed by {
                    assert(out_edges(g1, j).contains_key(d));
                    assert(has_edge(g2, j, d));
                }
            }
        }
    }
}

/// Handing the first `n` jobs of the ready queue to workers keeps every other pending job ready in the right way.
proof fn lemma_readiness_dispatch<I, O: Clone>(
    graph: Map<u64, Map<u64, u64>>,
    status: Map<u64, JobStatus<I, O>>,
    to_run: Seq<u64>,
    except: Set<u64>,
    n: int,
)
    requires
        readiness(graph, status, to_run, except),
        run_queue_ok(to_run, status),
        0 <= n <= to_run.len(),
    ensures
        readiness(graph, with_running(status, to_run.take(n)), to_run.skip(n), except),
{
    let st = with_running(status, to_run.take(n));
    let tr = to_run.skip(n);
    assert forall|j: u64| st.contains_key(j) && st[j] is Pending && !except.contains(j) implies job_readiness(
        graph,
        st,
        tr,
        j,
    ) by {
        assert(!to_run.take(n).contains(j));
        assert(st[j] == status[j]);
        assert forall|d: u64| #[trigger] st.contains_key(d) implies (st[d] is Completed <==> status[d] is Completed) by {
            if to_run.take(n).contains(d) {
                let i = choose|i: int| 0 <= i < n && to_run.take(n)[i] == d;
                assert(to_run.contains(d)) by {
                    assert(to_run[i] == d);
                }
            }
        }
        assert(job_readiness(graph, status, to_run, j));
        assert forall|d: u64| #[trigger] has_edge(graph, j, d) && status.contains_key(d) && status[d] is Completed implies has_edge(
            graph,
            j,
            d,
        ) && graph[j][d] == graph[j][d] && st.contains_key(d) && st[d] == status[d] by {
            assert(st.contains_key(d));
            if to_run.take(n).contains(d) {
                let i = choose|i: int| 0 <= i < n && to_run.take(n)[i] == d;
                assert(to_run.contains(d)) by {
                    assert(to_run[i] == d);
                }
            }
        }
        lemma_outputs_transfer(graph, status, graph, st, j, pending_outputs(status[j])@);
        assert(completed_dependencies(graph, st, j) =~= completed_dependencies(graph, status, j)) by {
            assert forall|d: u64| completed_dependencies(graph, st, j).contains(d) <==> completed_dependencies(
                graph,
                status,
                j,
            ).contains(d) by {
                if st.contains_key(d) {
                    assert(st[d] is Completed <==> status[d] is Completed);
                }
            }
        }
        assert(dependencies_completed(graph, st, j) <==> dependencies_completed(graph, status, j)) by {
            if dependencies_completed(graph, status, j) {
                assert forall|d: u64| #[trigger] has_edge(graph, j, d) implies st.contains_key(d) && st[d] is Completed by {
                    assert(status[d] is Completed);
                    if to_run.take(n).contains(d) {
                        let i = choose|i: int| 0 <= i < n && to_run.take(n)[i] == d;
                        assert(to_run.contains(d)) by {
                            assert(to_run[i] == d);
                        }
                    }
                }
            }
            if dependencies_completed(graph, st, j) {
                assert forall|d: u64| #[trigger] has_edge(graph, j, d) implies status.contains_key(d)
                    && status[d] is Completed by {
                    assert(st[d] is Completed);
                }
            }
        }
        assert(tr.contains(j) <==> to_run.contains(j)) by {
            if tr.contains(j) {
                let i = choose|i: int| 0 <= i < tr.len() && tr[i] == j;
                assert(to_run[n + i] == j);
            }
            if to_run.contains(j) {
                let i = choose|i: int| 0 <= i < to_run.len() && to_run[i] == j;
                if i < n {
                    assert(to_run.take(n)[i] == j);
                }
                assert(tr[i - n] == j);
            }
        }
    }
}

/// The completion of the running job `k`, which hands its output to its pending dependents and makes ready those
/// whose dependencies all completed, keeps every pending job ready in the right way.
proof fn lemma_readiness_completion<I, O: Clone>(
    graph: Map<u64, Map<u64, u64>>,
    status: Map<u64, JobStatus<I, O>>,
    to_run: Seq<u64>,
    k: u64,
    output: O,
    mid: Map<u64, JobStatus<I, O>>,
    mid_to_run: Seq<u64>,
)
    requires
        readiness(graph, status, to_run, Set::empty()),
        status.contains_key(k),
        status[k] is Running,
        completion_applied(status, graph, k, output, mid),
        ready_after_completion(to_run, status, graph, k, mid_to_run),
    ensures
        readiness(graph, mid, mid_to_run, Set::empty()),
{
    assert forall|d: u64| d != k && #[trigger] mid.contains_key(d) implies (mid[d] is Completed <==> status[d] is Completed)
        && (mid[d] is Pending <==> status[d] is Pending) by {
        assert(output_handed(status[d], graph, d, k, output, mid[d]));
    }
    assert forall|j: u64| mid.contains_key(j) && mid[j] is Pending && !Set::<u64>::empty().contains(j) implies job_readiness(
        graph,
        mid,
        mid_to_run,
        j,
    ) by {
        assert(j != k);
        assert(output_handed(status[j], graph, j, k, output, mid[j]));
        assert(status[j] is Pending);
        assert(job_readiness(graph, status, to_run, j));
        let c = completed_dependencies(graph, status, j);
        let c2 = completed_dependencies(graph, mid, j);
        lemma_all_completed(graph, status, j);
        lemma_all_completed(graph, mid, j);
        assert forall|d: u64| #[trigger] has_edge(graph, j, d) && status.contains_key(d) && status[d] is Completed implies has_edge(
            graph,
            j,
            d,
        ) && graph[j][d] == graph[j][d] && mid.contains_key(d) && mid[d] == status[d] by {
            assert(d != k);
            assert(mid.contains_key(d));
            assert(output_handed(status[d], graph, d, k, output, mid[d]));
        }
        let before_outputs = pending_outputs(status[j])@;
        lemma_outputs_transfer(graph, status, graph, mid, j, before_outputs);
        if has_edge(graph, j, k) {
            let after_outputs = pending_outputs(mid[j])@;
            let src = choose|src: Seq<u64>| #[trigger] outputs_sourced_by(graph, status, j, before_outputs, src);
            let src2 = src.push(k);
            assert(!src.contains(k)) by {
                if src.contains(k) {
                    let i = choose|i: int| 0 <= i < src.len() && src[i] == k;
                    assert(output_from(graph, status, j, src[i], before_outputs[i]));
                }
            }
            assert(src2.no_duplicates()) by {
                assert forall|a: int, b: int| 0 <= a < src2.len() && 0 <= b < src2.len() && a != b implies src2[a] != src2[b] by {
                    if a == src.len() {
                        assert(src.contains(src2[b]));
                    } else if b == src.len() {
                        assert(src.contains(src2[a]));
                    }
                }
            }
            assert forall|i: int| 0 <= i < after_outputs.len() implies #[trigger] output_from(
                graph,
                mid,
                j,
                src2[i],
                after_outputs[i],
            ) by {
                if i < before_outputs.len() {
                    assert(after_outputs.drop_last()[i] == before_outputs[i]);
                    assert(output_from(graph, status, j, src[i], before_outputs[i]));
                    assert(src[i] != k);
                    assert(mid[src[i]] == status[src[i]]);
                } else {
                    assert(has_edge(graph, j, k));
                    assert(cloned(output, completed_output(mid[k])));
                    assert(cloned(output, after_outputs[i].1));
                    assert(output_of(mid[k], after_outputs[i].1));
                }
            }
            assert(outputs_sourced_by(graph, mid, j, after_outputs, src2));
            assert(c2 =~= c.insert(k));
            assert(!c.contains(k));
            assert(!dependencies_completed(graph, status, j));
            assert(!to_run.contains(j));
        } else {
            assert(c2 =~= c);
            assert(mid[j] == status[j]);
            assert(dependencies_completed(graph, mid, j) <==> dependencies_completed(graph, status, j)) by {
                if dependencies_completed(graph, status, j) {
                    assert forall|d: u64| #[trigger] has_edge(graph, j, d) implies mid.contains_key(d)
                        && mid[d] is Completed by {
                        assert(status[d] is Completed);
                    }
                }
                if dependencies_completed(graph, mid, j) {
                    assert forall|d: u64| #[trigger] has_edge(graph, j, d) implies status.contains_key(d)
                        && status[d] is Completed by {
                        assert(mid[d] is Completed);
                    }
                }
            }
        }
    }
}

/// An element of a non-empty sequence is an element of the sequence without its last element, or that last
/// element.
proof fn lemma_drop_last_contains(s: Seq<u64>, a: u64)
    requires
        s.len() > 0,
    ensures
        s.contains(a) <==> s.drop_last().contains(a) || a == s.last(),
{
    if s.contains(a) {
        let i = choose|i: int| 0 <= i < s.len() && s[i] == a;
        if i < s.len() - 1 {
            assert(s.drop_last()[i] == a);
        }
    }
    if s.drop_last().contains(a) {
        let i = choose|i: int| 0 <= i < s.drop_last().len() && s.drop_last()[i] == a;
        assert(s[i] == a);
    }
    if a == s.last() {
        assert(s[s.len() - 1] == a);
    }
}

/// Taking keys out of a sequence without duplicates, one after the other, leaves exactly the other elements.
proof fn lemma_without_keys(s: Seq<u64>, removed: Seq<u64>)
    requires
        s.no_duplicates(),
    ensures
        forall|x: u64| #[trigger] without_keys(s, removed).contains(x) <==> s.contains(x) && !removed.contains(x),
        without_keys(s, removed).no_duplicates(),
    decreases removed.len(),
{
    if removed.len() > 0 {
        let rest = removed.drop_last();
        lemma_without_keys(s, rest);
        lemma_without_key(without_keys(s, rest), removed.last());
        assert forall|x: u64| #[trigger] without_keys(s, removed).contains(x) <==> s.contains(x) && !removed.contains(x) by {
            lemma_drop_last_contains(removed, x);
        }
    }
}

/// Taking nodes out of a graph leaves each other node with its edges to the nodes that were not taken out.
proof fn lemma_without_nodes_edges(g: Map<u64, Map<u64, u64>>, removed: Seq<u64>)
    ensures
        forall|a: u64| #[trigger] without_nodes(g, removed).contains_key(a) ==> without_nodes(g, removed)[a]
            == g[a].remove_keys(removed.to_set()),
    decreases removed.len(),
{
    if removed.len() > 0 {
        let rest = removed.drop_last();
        let x = removed.last();
        lemma_without_nodes_edges(g, rest);
        lemma_without_nodes(g, rest);
        lemma_without_nodes(g, removed);
        assert forall|a: u64| #[trigger] without_nodes(g, removed).contains_key(a) implies without_nodes(g, removed)[a]
            == g[a].remove_keys(removed.to_set()) by {
            let h = without_nodes(g, rest);
            assert(h.contains_key(a));
            assert(without_nodes(g, removed)[a] == h[a].remove(x));
            assert forall|d: u64| #[trigger] removed.to_set().contains(d) <==> rest.to_set().contains(d) || d == x by {
                lemma_drop_last_contains(removed, d);
            }
            assert(h[a].remove(x) =~= g[a].remove_keys(removed.to_set()));
        }
    }
}

/// Taking out of the graph, the statuses and the ready queue the jobs that a removal took out, on which only jobs
/// taken out depend, keeps every other pending job ready in the right way.
proof fn lemma_readiness_removal<I, O: Clone>(
    g: Map<u64, Map<u64, u64>>,
    status: Map<u64, JobStatus<I, O>>,
    to_run: Seq<u64>,
    k: u64,
    removed: Seq<u64>,
    considered: Seq<u64>,
    removed_at: Seq<int>,
)
    requires
        readiness(g, status, to_run, Set::empty()),
        removal_outcome(g, k, removed, considered, removed_at),
        run_queue_ok(to_run, status),
    ensures
        readiness(without_nodes(g, removed), status.remove_keys(removed.to_set()), without_keys(to_run, removed), Set::empty()),
{
    let g2 = without_nodes(g, removed);
    let st2 = status.remove_keys(removed.to_set());
    let tr2 = without_keys(to_run, removed);
    lemma_without_nodes(g, removed);
    lemma_without_nodes_edges(g, removed);
    lemma_without_keys(to_run, removed);
    assert forall|j: u64|
        #![trigger st2.contains_key(j), Set::<u64>::empty().contains(j)]
        st2.contains_key(j) && st2[j] is Pending && !Set::<u64>::empty().contains(j) implies {
        &&& status.contains_key(j)
        &&& !Set::<u64>::empty().contains(j)
        &&& st2[j] == status[j]
        &&& out_edges(g2, j) == out_edges(g, j)
        &&& (tr2.contains(j) <==> to_run.contains(j))
        &&& forall|d: u64| #[trigger]
            out_edges(g, j).contains_key(d) ==> (st2.contains_key(d) <==> status.contains_key(d)) && (st2.contains_key(d)
                ==> (st2[d] is Completed <==> status[d] is Completed))
    } by {
        assert(!removed.to_set().contains(j));
        assert(!removed.contains(j));
        assert forall|d: u64| #[trigger] out_edges(g, j).contains_key(d) implies !removed.contains(d) by {
            if removed.contains(d) {
                let i = choose|i: int| 0 <= i < removed.len() && removed[i] == d;
                assert(has_edge(g, j, removed[i]));
                assert(removed.take(i).contains(j));
                let m = choose|m: int| 0 <= m < i && removed.take(i)[m] == j;
                assert(removed[m] == j);
            }
        }
        if g.contains_key(j) {
            assert(g2.contains_key(j));
            assert(g2[j] =~= g[j]);
        } else {
            assert(!g2.contains_key(j));
        }
    }
    lemma_readiness_frame(g, status, to_run, Set::empty(), g2, st2, tr2, Set::empty());
}

/// The edges of a job with the dependencies `deps`: each dependency's key mapped to its dependency key, a later
/// dependency with the same key replacing an earlier one.
pub open spec fn dependency_map<I, J: Job<I>>(deps: Seq<(u64, J)>) -> Map<u64, u64>
    decreases deps.len(),
{
    if deps.len() == 0 {
        Map::empty()
    } else {
        dependency_map::<I, J>(deps.drop_last()).insert(deps.last().1.spec_key(), deps.last().0)
    }
}

/// The edges of a job with the dependencies `deps` go to exactly the keys of its dependencies; when those keys are
/// distinct, each edge is labelled by its dependency's dependency key and there are as many edges as dependencies.
pub proof fn lemma_dependency_map<I, J: Job<I>>(deps: Seq<(u64, J)>)
    ensures
        forall|d: u64|
            #[trigger] dependency_map::<I, J>(deps).contains_key(d) <==> exists|i: int|
                0 <= i < deps.len() && #[trigger] deps[i].1.spec_key() == d,
        dependency_map::<I, J>(deps).dom().finite(),
        (forall|a: int, b: int| 0 <= a < b < deps.len() ==> #[trigger] deps[a].1.spec_key() != #[trigger] deps[b].1.spec_key())
            ==> {
            &&& forall|i: int|
                0 <= i < deps.len() ==> #[trigger] dependency_map::<I, J>(deps)[deps[i].1.spec_key()] == deps[i].0
            &&& dependency_map::<I, J>(deps).len() == deps.len()
        },
    decreases deps.len(),
{
    if deps.len() > 0 {
        let front = deps.drop_last();
        let last = deps.last();
        lemma_dependency_map::<I, J>(front);
        let m = dependency_map::<I, J>(deps);
        let mf = dependency_map::<I, J>(front);
        assert forall|d: u64| #[trigger] m.contains_key(d) <==> exists|i: int|
            0 <= i < deps.len() && #[trigger] deps[i].1.spec_key() == d by {
            if m.contains_key(d) {
                if d == last.1.spec_key() {
                    assert(deps[deps.len() - 1].1.spec_key() == d);
                } else {
                    assert(mf.contains_key(d));
                    let i = choose|i: int| 0 <= i < front.len() && #[trigger] front[i].1.spec_key() == d;
                    assert(deps[i].1.spec_key() == d);
                }
            }
            if exists|i: int| 0 <= i < deps.len() && #[trigger] deps[i].1.spec_key() == d {
                let i = choose|i: int| 0 <= i < deps.len() && #[trigger] deps[i].1.spec_key() == d;
                if i < front.len() {
                    assert(front[i].1.spec_key() == d);
                    assert(mf.contains_key(d));
                }
            }
        }
        if forall|a: int, b: int| 0 <= a < b < deps.len() ==> #[trigger] deps[a].1.spec_key() != #[trigger] deps[b].1.spec_key() {
            assert forall|a: int, b: int| 0 <= a < b < front.len() implies #[trigger] front[a].1.spec_key()
                != #[trigger] front[b].1.spec_key() by {
                assert(deps[a].1.spec_key() != deps[b].1.spec_key());
            }
            assert(!mf.contains_key(last.1.spec_key())) by {
                if mf.contains_key(last.1.spec_key()) {
                    let i = choose|i: int| 0 <= i < front.len() && #[trigger] front[i].1.spec_key() == last.1.spec_key();
                    assert(deps[i].1.spec_key() != deps[deps.len() - 1].1.spec_key());
                }
            }
            assert forall|i: int| 0 <= i < deps.len() implies #[trigger] m[deps[i].1.spec_key()] == deps[i].0 by {
                if i < front.len() {
                    assert(front[i] == deps[i]);
                    assert(deps[i].1.spec_key() != deps[deps.len() - 1].1.spec_key());
                    assert(mf[front[i].1.spec_key()] == front[i].0);
                }
            }
        }
    }
}

/// Every job in the graph but those in `except` stands as the job it was added as, `origin[x]`: under that job's
/// key, with an edge to each of that job's dependencies labelled by its dependency key and no other edge, and, while
/// pending, with that job's input.
pub open spec fn origins_except<I, O, J: Job<I>>(
    graph: Map<u64, Map<u64, u64>>,
    status: Map<u64, JobStatus<I, O>>,
    origin: Map<u64, J>,
    except: Set<u64>,
) -> bool {
    forall|x: u64|
        #![trigger graph.contains_key(x), except.contains(x)]
        graph.contains_key(x) && !except.contains(x) ==> {
            &&& origin.contains_key(x)
            &&& origin[x].spec_key() == x
            &&& graph[x] == dependency_map::<I, J>(origin[x].job_dependencies())
            &&& (status.contains_key(x) && status[x] is Pending ==> pending_input(status[x]) == origin[x].job_input())
        }
}

/// Handing jobs to workers keeps every job standing as the job it was added as.
proof fn lemma_origins_dispatch<I, O, J: Job<I>>(
    graph: Map<u64, Map<u64, u64>>,
    status: Map<u64, JobStatus<I, O>>,
    origin: Map<u64, J>,
    keys: Seq<u64>,
)
    requires
        origins_except(graph, status, origin, Set::empty()),
    ensures
        origins_except(graph, with_running(status, keys), origin, Set::empty()),
{
    let st = with_running(status, keys);
    assert forall|x: u64|
        #![trigger graph.contains_key(x), Set::<u64>::empty().contains(x)]
        graph.contains_key(x) && !Set::<u64>::empty().contains(x) implies {
        &&& origin.contains_key(x)
        &&& origin[x].spec_key() == x
        &&& graph[x] == dependency_map::<I, J>(origin[x].job_dependencies())
        &&& (st.contains_key(x) && st[x] is Pending ==> pending_input(st[x]) == origin[x].job_input())
    } by {
        if st.contains_key(x) && st[x] is Pending {
            assert(!keys.contains(x));
            assert(st[x] == status[x]);
        }
    }
}

/// The completion of a job, which hands its output to its pending dependents, keeps every job standing as the job
/// it was added as.
proof fn lemma_origins_completion<I, O: Clone, J: Job<I>>(
    graph: Map<u64, Map<u64, u64>>,
    status: Map<u64, JobStatus<I, O>>,
    origin: Map<u64, J>,
    k: u64,
    output: O,
    mid: Map<u64, JobStatus<I, O>>,
)
    requires
        origins_except(graph, status, origin, Set::empty()),
        completion_applied(status, graph, k, output, mid),
    ensures
        origins_except(graph, mid, origin, Set::empty()),
{
    assert forall|x: u64|
        #![trigger graph.contains_key(x), Set::<u64>::empty().contains(x)]
        graph.contains_key(x) && !Set::<u64>::empty().contains(x) implies {
        &&& origin.contains_key(x)
        &&& origin[x].spec_key() == x
        &&& graph[x] == dependency_map::<I, J>(origin[x].job_dependencies())
        &&& (mid.contains_key(x) && mid[x] is Pending ==> pending_input(mid[x]) == origin[x].job_input())
    } by {
        if mid.contains_key(x) && mid[x] is Pending {
            assert(x != k);
            assert(output_handed(status[x], graph, x, k, output, mid[x]));
        }
    }
}

/// Taking out the jobs that a removal took out, on which only jobs taken out depend, keeps every other job standing
/// as the job it was added as.
proof fn lemma_origins_removal<I, O, J: Job<I>>(
    g: Map<u64, Map<u64, u64>>,
    status: Map<u64, JobStatus<I, O>>,
    origin: Map<u64, J>,
    k: u64,
    removed: Seq<u64>,
    considered: Seq<u64>,
    removed_at: Seq<int>,
)
    requires
        origins_except(g, status, origin, Set::empty()),
        removal_outcome(g, k, removed, considered, removed_at),
    ensures
        origins_except(without_nodes(g, removed), status.remove_keys(removed.to_set()), origin, Set::empty()),
{
    let g2 = without_nodes(g, removed);
    let st2 = status.remove_keys(removed.to_set());
    lemma_without_nodes(g, removed);
    lemma_without_nodes_edges(g, removed);
    assert forall|x: u64|
        #![trigger g2.contains_key(x), Set::<u64>::empty().contains(x)]
        g2.contains_key(x) && !Set::<u64>::empty().contains(x) implies {
        &&& origin.contains_key(x)
        &&& origin[x].spec_key() == x
        &&& g2[x] == dependency_map::<I, J>(origin[x].job_dependencies())
        &&& (st2.contains_key(x) && st2[x] is Pending ==> pending_input(st2[x]) == origin[x].job_input())
    } by {
        assert(g.contains_key(x) && !removed.contains(x));
        assert(!Set::<u64>::empty().contains(x));
        assert forall|d: u64| #[trigger] g[x].contains_key(d) implies !removed.to_set().contains(d) by {
            if removed.contains(d) {
                let i = choose|i: int| 0 <= i < removed.len() && removed[i] == d;
                assert(has_edge(g, x, removed[i]));
                assert(removed.take(i).contains(x));
                let m = choose|m: int| 0 <= m < i && removed.take(i)[m] == x;
                assert(removed[m] == x);
            }
        }
        assert(g2[x] =~= g[x]);
    }
}

/// Every job that the messages `sent` hand to a worker has every dependency completed in the graph `graph` with the
/// statuses `status`, and is handed one dependency output per dependency, each the dependency key of the edge to a
/// different dependency with the output that the dependency completed with.
pub open spec fn runs_carry_outputs<I, O: Clone>(
    graph: Map<u64, Map<u64, u64>>,
    status: Map<u64, JobStatus<I, O>>,
    sent: Seq<ManagerAction<I, O>>,
) -> bool {
    forall|i: int|
        0 <= i < sent.len() ==> (#[trigger] sent[i] matches ManagerAction::RunJob(k, _, outputs) ==> {
            &&& dependencies_completed(graph, status, k)
            &&& out_edges(graph, k).dom().finite()
            &&& outputs@.len() == out_edges(graph, k).len()
            &&& outputs_from_completed(graph, status, k, outputs@)
        })
}

/// Handing out the first ready jobs of jobs that are ready in the right way hands each with one output per
/// dependency, each from a different completed dependency.
proof fn lemma_run_messages_carry_outputs<I, O: Clone>(
    graph: Map<u64, Map<u64, u64>>,
    status: Map<u64, JobStatus<I, O>>,
    to_run: Seq<u64>,
    n: int,
)
    requires
        readiness(graph, status, to_run, Set::empty()),
        run_queue_ok(to_run, status),
        0 <= n <= to_run.len(),
    ensures
        runs_carry_outputs(graph, with_running(status, to_run.take(n)), run_messages(status, to_run.take(n))),
{
    let sent = run_messages(status, to_run.take(n));
    let st = with_running(status, to_run.take(n));
    assert forall|d: u64| #[trigger] status.contains_key(d) && status[d] is Completed implies st.contains_key(d) && st[d]
        == status[d] by {
        if to_run.take(n).contains(d) {
            let i = choose|i: int| 0 <= i < n && to_run.take(n)[i] == d;
            assert(to_run.contains(d)) by {
                assert(to_run[i] == d);
            }
        }
    }
    assert forall|i: int| 0 <= i < sent.len() implies (#[trigger] sent[i] matches ManagerAction::RunJob(k, _, outputs) ==> {
        &&& dependencies_completed(graph, st, k)
        &&& out_edges(graph, k).dom().finite()
        &&& outputs@.len() == out_edges(graph, k).len()
        &&& outputs_from_completed(graph, st, k, outputs@)
    }) by {
        let k = to_run.take(n)[i];
        assert(to_run[i] == k);
        assert(to_run.contains(k));
        assert(status.contains_key(k) && !Set::<u64>::empty().contains(k));
        assert(job_readiness(graph, status, to_run, k));
        lemma_all_completed(graph, status, k);
        assert forall|d: u64| #[trigger] has_edge(graph, k, d) && status.contains_key(d) && status[d] is Completed implies has_edge(
            graph,
            k,
            d,
        ) && graph[k][d] == graph[k][d] && st.contains_key(d) && st[d] == status[d] by {}
        lemma_outputs_transfer(graph, status, graph, st, k, pending_outputs(status[k])@);
        assert forall|d: u64| #[trigger] has_edge(graph, k, d) implies st.contains_key(d) && st[d] is Completed by {
            assert(status.contains_key(d) && status[d] is Completed);
        }
    }
}

/// Messages that hand jobs with their dependencies' outputs keep doing so while every job handed out keeps its
/// edges and every completed job keeps its status.
proof fn lemma_runs_carry_outputs_transfer<I, O: Clone>(
    g1: Map<u64, Map<u64, u64>>,
    st1: Map<u64, JobStatus<I, O>>,
    g2: Map<u64, Map<u64, u64>>,
    st2: Map<u64, JobStatus<I, O>>,
    sent: Seq<ManagerAction<I, O>>,
)
    requires
        runs_carry_outputs(g1, st1, sent),
        forall|i: int| 0 <= i < sent.len() ==> #[trigger] sent[i] is RunJob && g1.contains_key(run_key(sent[i])),
        forall|x: u64| #[trigger] g1.contains_key(x) ==> g2.contains_key(x) && g2[x] == g1[x],
        forall|d: u64| #[trigger] st1.contains_key(d) && st1[d] is Completed ==> st2.contains_key(d) && st2[d] == st1[d],
    ensures
        runs_carry_outputs(g2, st2, sent),
{
    assert forall|i: int| 0 <= i < sent.len() implies (#[trigger] sent[i] matches ManagerAction::RunJob(k, _, outputs) ==> {
        &&& dependencies_completed(g2, st2, k)
        &&& out_edges(g2, k).dom().finite()
        &&& outputs@.len() == out_edges(g2, k).len()
        &&& outputs_from_completed(g2, st2, k, outputs@)
    }) by {
        let k = run_key(sent[i]);
        assert(g1.contains_key(k));
        assert(out_edges(g2, k) == out_edges(g1, k));
        if let ManagerAction::RunJob(kk, _, outputs) = sent[i] {
            assert(kk == k);
            assert forall|d: u64| #[trigger] has_edge(g1, k, d) && st1.contains_key(d) && st1[d] is Completed implies has_edge(
                g2,
                k,
                d,
            ) && g2[k][d] == g1[k][d] && st2.contains_key(d) && st2[d] == st1[d] by {}
            lemma_outputs_transfer(g1, st1, g2, st2, k, outputs@);
            assert forall|d: u64| #[trigger] has_edge(g2, k, d) implies st2.contains_key(d) && st2[d] is Completed by {
                assert(has_edge(g1, k, d));
                assert(st1.contains_key(d) && st1[d] is Completed);
            }
        }
    }
}

/// Two runs of messages that hand jobs with their dependencies' outputs make one.
proof fn lemma_runs_carry_outputs_concat<I, O: Clone>(
    graph: Map<u64, Map<u64, u64>>,
    status: Map<u64, JobStatus<I, O>>,
    a: Seq<ManagerAction<I, O>>,
    b: Seq<ManagerAction<I, O>>,
)
    requires
        runs_carry_outputs(graph, status, a),
        runs_carry_outputs(graph, status, b),
    ensures
        runs_carry_outputs(graph, status, a + b),
{
    assert forall|i: int| 0 <= i < (a + b).len() implies (#[trigger] (a + b)[i] matches ManagerAction::RunJob(k, _, outputs) ==> {
        &&& dependencies_completed(graph, status, k)
        &&& out_edges(graph, k).dom().finite()
        &&& outputs@.len() == out_edges(graph, k).len()
        &&& outputs_from_completed(graph, status, k, outputs@)
    }) by {
        if i < a.len() {
            assert((a + b)[i] == a[i]);
        } else {
            assert((a + b)[i] == b[i - a.len()]);
        }
    }
}

/// A job handed out by messages that hand jobs with their dependencies' outputs gets exactly one output per
/// dependency: the outputs come, in order, from distinct dependencies `src` that are all the dependencies of the
/// job, each completed, and each output is the dependency key of the edge to its dependency with the output that
/// dependency completed with.
pub proof fn lemma_handed_outputs_match_dependencies<I, O: Clone>(
    graph: Map<u64, Map<u64, u64>>,
    status: Map<u64, JobStatus<I, O>>,
    sent: Seq<ManagerAction<I, O>>,
    i: int,
    k: u64,
    input: I,
    outputs: Vec<(u64, O)>,
)
    requires
        runs_carry_outputs(graph, status, sent),
        0 <= i < sent.len(),
        sent[i] == ManagerAction::<I, O>::RunJob(k, input, outputs),
    ensures
        exists|src: Seq<u64>|
            {
                &&& src.len() == outputs@.len()
                &&& src.no_duplicates()
                &&& forall|d: u64| #[trigger] has_edge(graph, k, d) <==> src.contains(d)
                &&& forall|m: int|
                    0 <= m < src.len() ==> {
                        &&& status.contains_key(#[trigger] src[m])
                        &&& status[src[m]] is Completed
                        &&& outputs@[m].0 == graph[k][src[m]]
                        &&& output_of(status[src[m]], outputs@[m].1)
                    }
            },
{
    assert(sent[i] matches ManagerAction::RunJob(k2, _, o2) && k2 == k && o2 == outputs);
    let src = choose|src: Seq<u64>| #[trigger] outputs_sourced_by(graph, status, k, outputs@, src);
    let e = out_edges(graph, k).dom();
    assert forall|m: int| 0 <= m < src.len() implies {
        &&& status.contains_key(#[trigger] src[m])
        &&& status[src[m]] is Completed
        &&& outputs@[m].0 == graph[k][src[m]]
        &&& output_of(status[src[m]], outputs@[m].1)
    } by {
        assert(output_from(graph, status, k, src[m], outputs@[m]));
    }
    assert(src.to_set().subset_of(e)) by {
        assert forall|d: u64| src.to_set().contains(d) implies e.contains(d) by {
            let m = choose|m: int| 0 <= m < src.len() && src[m] == d;
            assert(output_from(graph, status, k, src[m], outputs@[m]));
        }
    }
    src.unique_seq_to_set();
    vstd::set_lib::lemma_subset_equality(src.to_set(), e);
    assert forall|d: u64| #[trigger] has_edge(graph, k, d) <==> src.contains(d) by {
        if has_edge(graph, k, d) {
            assert(e.contains(d));
            assert(src.to_set().contains(d));
        }
        if src.contains(d) {
            assert(src.to_set().contains(d));
        }
    }
}

/// Every job that the messages `sent` hand to a worker is handed with the input of the job it was added as,
/// `origin[k]`.
pub open spec fn runs_carry_inputs<I, O, J: Job<I>>(origin: Map<u64, J>, sent: Seq<ManagerAction<I, O>>) -> bool {
    forall|i: int|
        0 <= i < sent.len() ==> (#[trigger] sent[i] matches ManagerAction::RunJob(k, input, _) ==> origin.contains_key(k)
            && input == origin[k].job_input())
}

/// Handing out the first ready jobs hands each with the input of the job it was added as.
proof fn lemma_run_messages_carry_inputs<I, O, J: Job<I>>(
    graph: Map<u64, Map<u64, u64>>,
    status: Map<u64, JobStatus<I, O>>,
    origin: Map<u64, J>,
    to_run: Seq<u64>,
    n: int,
)
    requires
        origins_except(graph, status, origin, Set::empty()),
        run_queue_ok(to_run, status),
        status.dom() == graph.dom(),
        0 <= n <= to_run.len(),
    ensures
        runs_carry_inputs(origin, run_messages(status, to_run.take(n))),
{
    let sent = run_messages(status, to_run.take(n));
    assert forall|i: int| 0 <= i < sent.len() implies (#[trigger] sent[i] matches ManagerAction::RunJob(k, input, _)
        ==> origin.contains_key(k) && input == origin[k].job_input()) by {
        let k = to_run.take(n)[i];
        assert(to_run[i] == k);
        assert(to_run.contains(k));
        assert(graph.contains_key(k) && !Set::<u64>::empty().contains(k));
    }
}

/// Messages that hand jobs with the inputs of the jobs they were added as keep doing so while the jobs in the
/// graph keep the jobs they were added as, as long as every job handed out is in the graph.
proof fn lemma_runs_carry_transfer<I, O, J: Job<I>>(
    o1: Map<u64, J>,
    o2: Map<u64, J>,
    graph: Map<u64, Map<u64, u64>>,
    sent: Seq<ManagerAction<I, O>>,
)
    requires
        runs_carry_inputs(o1, sent),
        forall|i: int| 0 <= i < sent.len() ==> #[trigger] sent[i] is RunJob && graph.contains_key(run_key(sent[i])),
        forall|x: u64| #[trigger] graph.contains_key(x) ==> o2[x] == o1[x] && (o2.contains_key(x) <==> o1.contains_key(x)),
    ensures
        runs_carry_inputs(o2, sent),
{
    assert forall|i: int| 0 <= i < sent.len() implies (#[trigger] sent[i] matches ManagerAction::RunJob(k, input, _)
        ==> o2.contains_key(k) && input == o2[k].job_input()) by {
        assert(graph.contains_key(run_key(sent[i])));
    }
}

/// Two runs of messages that hand jobs with the inputs of the jobs they were added as make one.
proof fn lemma_runs_carry_concat<I, O, J: Job<I>>(
    origin: Map<u64, J>,
    a: Seq<ManagerAction<I, O>>,
    b: Seq<ManagerAction<I, O>>,
)
    requires
        runs_carry_inputs(origin, a),
        runs_carry_inputs(origin, b),
    ensures
        runs_carry_inputs(origin, a + b),
{
    assert forall|i: int| 0 <= i < (a + b).len() implies (#[trigger] (a + b)[i] matches ManagerAction::RunJob(k, input, _)
        ==> origin.contains_key(k) && input == origin[k].job_input()) by {
        if i < a.len() {
            assert((a + b)[i] == a[i]);
        } else {
            assert((a + b)[i] == b[i - a.len()]);
        }
    }
}

/// The manager of a job queue.
pub struct JobManager<I, J, O> {
    target_running_job_count: usize,
    job_graph: DependencyGraph,
    job_status: HashMap<u64, JobStatus<I, O>>,
    jobs_to_add_order: KeyOrder,
    jobs_to_add: HashMap<u64, J>,
    jobs_to_run: KeyOrder,
    pending_jobs: usize,
    running_jobs: usize,
    origins: Ghost<Map<u64, J>>,
}

impl<I, J: Job<I>, O: Clone> JobManager<I, J, O> {
    /// The dependency graph: each job mapped to its dependencies, each dependency mapped to its dependency key.
    pub closed spec fn graph(&self) -> Map<u64, Map<u64, u64>> {
        dependency_edges(self.job_graph)
    }

    /// The job that each job of the dependency graph was added as.
    pub closed spec fn origin(&self) -> Map<u64, J> {
        self.origins@
    }

    /// Every job in the dependency graph stands as the job it was added as: with its key, with an edge to each of
    /// its dependencies labelled by the dependency key, and, while pending, with its input.
    pub open spec fn origins_ok(&self) -> bool {
        origins_except(self.graph(), self.status(), self.origin(), Set::empty())
    }

    /// The status of each job in the dependency graph.
    pub closed spec fn status(&self) -> Map<u64, JobStatus<I, O>> {
        self.job_status@
    }

    /// The keys of the jobs waiting to be added to the graph, first to be added first.
    pub closed spec fn to_add(&self) -> Seq<u64> {
        key_order(self.jobs_to_add_order)
    }

    /// The jobs waiting to be added to the graph, by key.
    pub closed spec fn add_jobs(&self) -> Map<u64, J> {
        self.jobs_to_add@
    }

    /// The keys of the jobs that are ready to run, first to run first.
    pub closed spec fn to_run(&self) -> Seq<u64> {
        key_order(self.jobs_to_run)
    }

    /// The number of jobs the manager keeps waiting in the workers' channel.
    pub closed spec fn target(&self) -> nat {
        self.target_running_job_count as nat
    }

    /// The number of pending jobs, as counted.
    pub closed spec fn pending_count(&self) -> nat {
        self.pending_jobs as nat
    }

    /// The number of running jobs, as counted.
    pub closed spec fn running_count(&self) -> nat {
        self.running_jobs as nat
    }

    /// The manager's state is consistent: every node of the graph has a status and every edge ends at a node;
    /// jobs waiting to be added are not in the graph and are filed under their own keys; jobs ready to run are
    /// pending; and the counters count the pending and the running jobs.
    pub open spec fn wf(&self) -> bool {
        &&& edges_closed(self.graph())
        &&& self.status().dom() == self.graph().dom()
        &&& add_queue_ok(self.to_add(), self.add_jobs(), self.graph())
        &&& run_queue_ok(self.to_run(), self.status())
        &&& self.pending_count() == pending_keys(self.status()).len()
        &&& self.running_count() == running_keys(self.status()).len()
    }

    /// Jobs become ready to run only when their dependencies are done: every pending job holds one dependency
    /// output per dependency that completed, and it is in the ready queue exactly when every dependency completed;
    /// and no job waiting to be added lists two dependencies with the same key, anywhere in its dependency tree.
    pub open spec fn ready_ok(&self) -> bool {
        &&& readiness(self.graph(), self.status(), self.to_run(), Set::empty())
        &&& forall|k: u64| #[trigger] self.add_jobs().contains_key(k) ==> self.add_jobs()[k].distinct_dependencies()
    }

    /// A job in the ready queue of a manager whose jobs become ready only when their dependencies are done is
    /// pending, every one of its dependencies completed, and it holds one dependency output per dependency, each
    /// tagged with the dependency key of a dependency: what the dispatch hands to a worker with it.
    pub proof fn lemma_ready_job_has_its_dependency_outputs(&self, k: u64)
        requires
            self.wf(),
            self.ready_ok(),
            self.to_run().contains(k),
        ensures
            self.status().contains_key(k),
            self.status()[k] is Pending,
            dependencies_completed(self.graph(), self.status(), k),
            pending_outputs(self.status()[k])@.len() == out_edges(self.graph(), k).len(),
            outputs_from_completed(self.graph(), self.status(), k, pending_outputs(self.status()[k])@),
    {
        assert(self.status().contains_key(k) && !Set::<u64>::empty().contains(k));
        assert(job_readiness(self.graph(), self.status(), self.to_run(), k));
        lemma_all_completed(self.graph(), self.status(), k);
    }

    /// A job in the graph of a manager whose jobs stand as the jobs they were added as has an edge to each of its
    /// dependencies and to nothing else; when the keys of its dependencies are distinct, each edge is labelled by
    /// that dependency's dependency key and it has as many edges as dependencies.
    pub proof fn lemma_job_edges(&self, k: u64)
        requires
            self.origins_ok(),
            self.graph().contains_key(k),
        ensures
            self.origin().contains_key(k),
            self.origin()[k].spec_key() == k,
            forall|d: u64|
                #[trigger] has_edge(self.graph(), k, d) <==> exists|i: int|
                    0 <= i < self.origin()[k].job_dependencies().len() && #[trigger] self.origin()[k].job_dependencies()[i].1.spec_key()
                        == d,
            (forall|a: int, b: int|
                0 <= a < b < self.origin()[k].job_dependencies().len() ==> #[trigger] self.origin()[k].job_dependencies()[a].1.spec_key()
                    != #[trigger] self.origin()[k].job_dependencies()[b].1.spec_key()) ==> {
                &&& forall|i: int|
                    0 <= i < self.origin()[k].job_dependencies().len() ==> #[trigger] self.graph()[k][self.origin()[k].job_dependencies()[i].1.spec_key()]
                        == self.origin()[k].job_dependencies()[i].0
                &&& out_edges(self.graph(), k).len() == self.origin()[k].job_dependencies().len()
            },
    {
        assert(self.graph().contains_key(k) && !Set::<u64>::empty().contains(k));
        lemma_dependency_map::<I, J>(self.origin()[k].job_dependencies());
        assert forall|d: u64| #[trigger] has_edge(self.graph(), k, d) <==> exists|i: int|
            0 <= i < self.origin()[k].job_dependencies().len() && #[trigger] self.origin()[k].job_dependencies()[i].1.spec_key()
                == d by {
            assert(has_edge(self.graph(), k, d) <==> dependency_map::<I, J>(self.origin()[k].job_dependencies()).contains_key(d));
        }
    }

    /// A manager without jobs that keeps up to `target_running_job_count` jobs waiting in the workers' channel.
    pub fn new(target_running_job_count: usize) -> (r: Self)
        ensures
            r.wf(),
            r.ready_ok(),
            r.origins_ok(),
            r.target() == target_running_job_count,
            r.graph() == Map::<u64, Map<u64, u64>>::empty(),
            r.status() == Map::<u64, JobStatus<I, O>>::empty(),
            r.to_add() == Seq::<u64>::empty(),
            r.add_jobs() == Map::<u64, J>::empty(),
            r.to_run() == Seq::<u64>::empty(),
    {
        let r = JobManager {
            target_running_job_count,
            job_graph: graph_new(),
            job_status: HashMap::new(),
            jobs_to_add_order: order_new(),
            jobs_to_add: HashMap::new(),
            jobs_to_run: order_new(),
            pending_jobs: 0,
            running_jobs: 0,
            origins: Ghost(Map::empty()),
        };
        assert(r.status().dom() =~= r.graph().dom());
        assert(pending_keys(r.status()) =~= Set::empty());
        assert(running_keys(r.status()) =~= Set::empty());
        r
    }

    /// Counts one pending job less, noting an empty queue when no job is pending or running anymore.
    fn decrement_pending_jobs(&mut self, actions: &mut Vec<ManagerAction<I, O>>)
        requires
            old(self).pending_jobs > 0,
        ensures
            final(self).pending_jobs == old(self).pending_jobs - 1,
            final(self).running_jobs == old(self).running_jobs,
            final(self).job_graph == old(self).job_graph,
            final(self).job_status == old(self).job_status,
            final(self).jobs_to_add_order == old(self).jobs_to_add_order,
            final(self).jobs_to_add == old(self).jobs_to_add,
            final(self).jobs_to_run == old(self).jobs_to_run,
            final(self).target_running_job_count == old(self).target_running_job_count,
            final(self).origins == old(self).origins,
            final(actions)@ == old(actions)@ + queue_empty_notice::<I, O>(
                final(self).pending_count(),
                final(self).running_count(),
            ),
    {
        self.pending_jobs = self.pending_jobs - 1;
        if self.pending_jobs == 0 && self.running_jobs == 0 {
            actions.push(ManagerAction::Notify(JobQueueMessage::QueueEmpty));
        }
        assert(actions@ =~= old(actions)@ + queue_empty_notice::<I, O>(
            self.pending_count(),
            self.running_count(),
        ));
    }

    /// Counts one running job less, noting an empty queue when no job is pending or running anymore.
    fn decrement_running_jobs(&mut self, actions: &mut Vec<ManagerAction<I, O>>)
        requires
            old(self).running_jobs > 0,
        ensures
            final(self).running_jobs == old(self).running_jobs - 1,
            final(self).pending_jobs == old(self).pending_jobs,
            final(self).job_graph == old(self).job_graph,
            final(self).job_status == old(self).job_status,
            final(self).jobs_to_add_order == old(self).jobs_to_add_order,
            final(self).jobs_to_add == old(self).jobs_to_add,
            final(self).jobs_to_run == old(self).jobs_to_run,
            final(self).target_running_job_count == old(self).target_running_job_count,
            final(self).origins == old(self).origins,
            final(actions)@ == old(actions)@ + queue_empty_notice::<I, O>(
                final(self).pending_count(),
                final(self).running_count(),
            ),
    {
        self.running_jobs = self.running_jobs - 1;
        if self.running_jobs == 0 && self.pending_jobs == 0 {
            actions.push(ManagerAction::Notify(JobQueueMessage::QueueEmpty));
        }
        assert(actions@ =~= old(actions)@ + queue_empty_notice::<I, O>(
            self.pending_count(),
            self.running_count(),
        ));
    }

    /// Hands the job `k` to a worker when it is pending: it becomes running and is counted as such.
    fn run_pending_job(&mut self, k: u64, actions: &mut Vec<ManagerAction<I, O>>)
        requires
            old(self).wf(),
            old(self).status().contains_key(k),
            !old(self).to_run().contains(k),
        ensures
            final(self).wf(),
            final(self).origin() == old(self).origin(),
            final(self).graph() == old(self).graph(),
            final(self).to_add() == old(self).to_add(),
            final(self).add_jobs() == old(self).add_jobs(),
            final(self).to_run() == old(self).to_run(),
            final(self).target() == old(self).target(),
            old(self).status()[k] is Pending ==> {
                &&& final(self).status() == old(self).status().insert(k, JobStatus::Running)
                &&& final(actions)@ == old(actions)@.push(
                    ManagerAction::RunJob(
                        k,
                        pending_input(old(self).status()[k]),
                        pending_outputs(old(self).status()[k]),
                    ),
                )
            },
            !(old(self).status()[k] is Pending) ==> {
                &&& final(self).status() == old(self).status()
                &&& final(actions)@ == old(actions)@
            },
    {
        let ghost old_status = self.status();
        proof {
            lemma_status_insert(old_status, k, JobStatus::Running);
        }
        let status_count = self.job_status.len();
        let status = self.job_status.remove(&k);
        match status {
            Some(JobStatus::Pending(input, outputs)) => {
                self.job_status.insert(k, JobStatus::Running);
                assert(self.status() =~= old_status.insert(k, JobStatus::Running));
                assert(pending_keys(old_status).contains(k));
                self.pending_jobs = self.pending_jobs - 1;
                assert(!running_keys(old_status).contains(k));
                proof {
                    assert(running_keys(old_status).subset_of(old_status.dom().remove(k)));
                    vstd::set_lib::lemma_len_subset(running_keys(old_status), old_status.dom().remove(k));
                }
                self.running_jobs = self.running_jobs + 1;
                assert(pending_keys(self.status()) == pending_keys(old_status).remove(k));
                assert(running_keys(self.status()) == running_keys(old_status).insert(k));
                actions.push(ManagerAction::RunJob(k, input, outputs));
                assert(self.wf());
            },
            Some(other) => {
                self.job_status.insert(k, other);
                assert(self.status() =~= old_status);
                assert(self.wf());
            },
            None => {},
        }
    }

    /// Hands jobs that are ready to run to workers, first ready first, while fewer than the target number of jobs
    /// wait in the workers' channel; `backlog` counts the jobs waiting there.
    fn run_jobs_until_target(&mut self, backlog: &mut usize, actions: &mut Vec<ManagerAction<I, O>>)
        requires
            old(self).wf(),
        ensures
            final(self).wf(),
            final(self).origin() == old(self).origin(),
            final(self).graph() == old(self).graph(),
            final(self).to_add() == old(self).to_add(),
            final(self).add_jobs() == old(self).add_jobs(),
            final(self).target() == old(self).target(),
            ({
                let n = dispatch_count(old(self).to_run().len(), *old(backlog) as nat, old(self).target());
                &&& final(self).to_run() == old(self).to_run().skip(n as int)
                &&& final(self).status() == with_running(old(self).status(), old(self).to_run().take(n as int))
                &&& *final(backlog) == *old(backlog) + n
                &&& final(actions)@ == old(actions)@ + run_messages(
                    old(self).status(),
                    old(self).to_run().take(n as int),
                )
            }),
    {
        let ghost start_run = self.to_run();
        let ghost start_status = self.status();
        let ghost start_actions = actions@;
        let ghost start_backlog = *backlog;
        let ghost n = dispatch_count(start_run.len(), start_backlog as nat, self.target());
        assert(start_run.take(0) =~= Seq::<u64>::empty());
        assert(with_running(start_status, start_run.take(0)) =~= start_status);
        assert(run_messages(start_status, start_run.take(0)) =~= Seq::<ManagerAction<I, O>>::empty());
        assert(start_run.skip(0) =~= start_run);
        while !order_is_empty(&self.jobs_to_run) && *backlog < self.target_running_job_count
            invariant
                self.wf(),
                self.graph() == old(self).graph(),
                self.origin() == old(self).origin(),
                self.to_add() == old(self).to_add(),
                self.add_jobs() == old(self).add_jobs(),
                self.target() == old(self).target(),
                start_run == old(self).to_run(),
                start_status == old(self).status(),
                start_backlog == *old(backlog),
                start_actions == old(actions)@,
                run_queue_ok(start_run, start_status),
                start_backlog <= *backlog,
                *backlog - start_backlog <= n,
                n == dispatch_count(start_run.len(), start_backlog as nat, self.target()),
                self.to_run() == start_run.skip(*backlog - start_backlog),
                self.status() == with_running(start_status, start_run.take(*backlog - start_backlog)),
                actions@ == start_actions + run_messages(start_status, start_run.take(*backlog - start_backlog)),
            decreases self.to_run().len(),
        {
            let ghost d: int = *backlog - start_backlog;
            let front = order_pop_front(&mut self.jobs_to_run);
            let k = match front {
                Some(k) => k,
                None => { assert(false); 0 },
            };
            assert(k == start_run[d]);
            assert(start_run.contains(k));
            assert forall|j: int| 0 <= j < d implies start_run[j] != k by {
                assert(start_run.no_duplicates());
            }
            assert(!start_run.take(d).contains(k));
            assert(self.status()[k] == start_status[k]);
            assert(!self.to_run().contains(k)) by {
                assert(self.to_run() =~= start_run.skip(d + 1));
                if self.to_run().contains(k) {
                    let j = choose|j: int| 0 <= j < self.to_run().len() && self.to_run()[j] == k;
                    assert(start_run[d + 1 + j] == k);
                }
            }
            assert forall|x: u64| #[trigger] self.to_run().contains(x) implies self.status().contains_key(x)
                && self.status()[x] is Pending by {
                let j = choose|j: int| 0 <= j < self.to_run().len() && self.to_run()[j] == x;
                assert(start_run[d + 1 + j] == x);
                assert(start_run.contains(x));
                assert(!start_run.take(d).contains(x)) by {
                    if start_run.take(d).contains(x) {
                        let i = choose|i: int| 0 <= i < d && start_run.take(d)[i] == x;
                        assert(start_run[i] == start_run[d + 1 + j]);
                    }
                }
            }
            self.run_pending_job(k, actions);
            *backlog = *backlog + 1;
            assert(start_run.take(d + 1) =~= start_run.take(d).push(k));
            assert(self.to_run() =~= start_run.skip(d + 1));
            assert(self.status() =~= with_running(start_status, start_run.take(d + 1))) by {
                let t1 = start_run.take(d + 1);
                let t0 = start_run.take(d);
                assert forall|x: u64| t1.contains(x) <==> (t0.contains(x) || x == k) by {
                    if t1.contains(x) {
                        let i = choose|i: int| 0 <= i < t1.len() && t1[i] == x;
                        if i < d {
                            assert(t0[i] == x);
                        }
                    }
                    if t0.contains(x) {
                        let i = choose|i: int| 0 <= i < t0.len() && t0[i] == x;
                        assert(t1[i] == x);
                    }
                    if x == k {
                        assert(t1[d] == x);
                    }
                }
            }
            assert(run_messages(start_status, start_run.take(d + 1)) =~= run_messages(start_status, start_run.take(d)).push(
                ManagerAction::RunJob(k, pending_input(start_status[k]), pending_outputs(start_status[k])),
            ));
            assert(actions@ =~= start_actions + run_messages(start_status, start_run.take(d + 1)));
        }
        proof {
            let d: int = *backlog - start_backlog;
            if d < n {
                assert(self.to_run().len() == 0);
            }
        }
    }

    /// Hands the output of the completed job `dependee` to its pending dependent `depender`, making the dependent
    /// ready to run once it holds as many dependency outputs as it has dependencies.
    fn try_make_job_ready_to_run(&mut self, depender: u64, dependee: u64, dependee_output: &O)
        requires
            old(self).wf(),
            has_edge(old(self).graph(), depender, dependee),
        ensures
            final(self).wf(),
            final(self).origin() == old(self).origin(),
            final(self).graph() == old(self).graph(),
            final(self).to_add() == old(self).to_add(),
            final(self).add_jobs() == old(self).add_jobs(),
            final(self).target() == old(self).target(),
            final(self).status().dom() == old(self).status().dom(),
            forall|k: u64|
                k != depender && #[trigger] old(self).status().contains_key(k) ==> final(self).status()[k]
                    == old(self).status()[k],
            !(old(self).status()[depender] is Pending) ==> final(self).status() == old(self).status()
                && final(self).to_run() == old(self).to_run(),
            old(self).status()[depender] is Pending ==> ({
                let before = pending_outputs(old(self).status()[depender])@;
                let after = pending_outputs(final(self).status()[depender])@;
                &&& final(self).status()[depender] is Pending
                &&& pending_input(final(self).status()[depender]) == pending_input(old(self).status()[depender])
                &&& after.len() == before.len() + 1
                &&& after.drop_last() == before
                &&& after.last().0 == old(self).graph()[depender][dependee]
                &&& cloned(*dependee_output, after.last().1)
                &&& final(self).to_run() == (if after.len() == out_edges(old(self).graph(), depender).len() {
                    without_key(old(self).to_run(), depender).push(depender)
                } else {
                    old(self).to_run()
                })
            }),
    {
        let ghost old_status = self.status();
        let ghost g = self.graph();
        proof {
            lemma_status_insert(old_status, depender, old_status[depender]);
            lemma_without_key(self.to_run(), depender);
        }
        let status = self.job_status.remove(&depender);
        match status {
            Some(JobStatus::Pending(input, outputs)) => {
                let mut outputs = outputs;
                let weight = graph_edge_weight(&self.job_graph, depender, dependee);
                let dependency_key = match weight {
                    Some(w) => w,
                    None => 0,
                };
                outputs.push((dependency_key, dependee_output.clone()));
                let output_count = outputs.len();
                let ghost new_outputs = outputs@;
                self.job_status.insert(depender, JobStatus::Pending(input, outputs));
                assert(pending_keys(self.status()) =~= pending_keys(old_status));
                assert(running_keys(self.status()) =~= running_keys(old_status));
                let dependencies = graph_outgoing(&self.job_graph, depender);
                proof {
                    dependencies@.unique_seq_to_set();
                    assert(dependencies@.to_set() =~= out_edges(g, depender).dom());
                }
                assert(self.status().dom() =~= old_status.dom());
                if dependencies.len() == output_count {
                    let ghost before_run = self.to_run();
                    order_insert(&mut self.jobs_to_run, depender);
                    assert forall|x: u64| #[trigger] self.to_run().contains(x) implies self.status().contains_key(x)
                        && self.status()[x] is Pending by {
                        if x != depender {
                            assert(without_key(before_run, depender).contains(x));
                        }
                    }
                } else {
                    assert forall|x: u64| #[trigger] self.to_run().contains(x) implies self.status().contains_key(x)
                        && self.status()[x] is Pending by {
                        if x != depender {
                            assert(old_status.contains_key(x));
                        }
                    }
                }
                assert(new_outputs.drop_last() =~= pending_outputs(old_status[depender])@);
            },
            Some(other) => {
                self.job_status.insert(depender, other);
                assert(self.status() =~= old_status);
            },
            None => {},
        }
    }

    /// Records the output of the running job `k`, notes its completion, and counts one running job less.
    fn complete_job(&mut self, k: u64, output: O, actions: &mut Vec<ManagerAction<I, O>>)
        requires
            old(self).wf(),
            old(self).status().contains_key(k),
            old(self).status()[k] is Running,
        ensures
            final(self).wf(),
            final(self).origin() == old(self).origin(),
            final(self).graph() == old(self).graph(),
            final(self).to_add() == old(self).to_add(),
            final(self).add_jobs() == old(self).add_jobs(),
            final(self).to_run() == old(self).to_run(),
            final(self).target() == old(self).target(),
            final(self).status().dom() == old(self).status().dom(),
            forall|j: u64|
                j != k && #[trigger] old(self).status().contains_key(j) ==> final(self).status()[j]
                    == old(self).status()[j],
            final(self).status()[k] is Completed,
            cloned(output, completed_output(final(self).status()[k])),
            final(self).pending_count() == old(self).pending_count(),
            final(self).running_count() + 1 == old(self).running_count(),
            final(actions)@ == old(actions)@.push(ManagerAction::Notify(JobQueueMessage::JobCompleted(k, output)))
                + queue_empty_notice::<I, O>(final(self).pending_count(), final(self).running_count()),
    {
        let ghost old_status = self.status();
        let stored = output.clone();
        let ghost completed = JobStatus::<I, O>::Completed(stored);
        proof {
            lemma_status_insert(old_status, k, completed);
        }
        self.job_status.insert(k, JobStatus::Completed(stored));
        assert(self.status().dom() =~= old_status.dom());
        assert(pending_keys(self.status()) =~= pending_keys(old_status));
        assert(running_keys(self.status()) =~= running_keys(old_status).remove(k));
        assert(running_keys(old_status).contains(k));
        actions.push(ManagerAction::Notify(JobQueueMessage::JobCompleted(k, output)));
        self.decrement_running_jobs(actions);
    }

    /// This state grew from `earlier` by adding jobs to the graph: the jobs that were there keep their
    /// dependencies and their status, the new jobs are pending, jobs that entered the graph left the add queue,
    /// and jobs ready to run were only appended, all of them new.
    pub closed spec fn extends(&self, earlier: &Self) -> bool {
        &&& self.target() == earlier.target()
        &&& forall|x: u64| #[trigger] earlier.graph().contains_key(x) ==> self.graph().contains_key(x)
            && self.graph()[x] == earlier.graph()[x]
        &&& forall|x: u64| #[trigger] earlier.status().contains_key(x) ==> self.status()[x] == earlier.status()[x]
        &&& forall|x: u64| #[trigger] self.status().contains_key(x) && !earlier.status().contains_key(x)
            ==> self.status()[x] is Pending
        &&& earlier.to_run().len() <= self.to_run().len()
        &&& self.to_run().take(earlier.to_run().len() as int) == earlier.to_run()
        &&& forall|i: int| earlier.to_run().len() <= i < self.to_run().len() ==> !earlier.graph().contains_key(#[trigger] self.to_run()[i])
        &&& forall|k: u64| #[trigger] self.to_add().contains(k) <==> earlier.to_add().contains(k)
            && !self.graph().contains_key(k)
        &&& forall|k: u64| #[trigger] self.add_jobs().contains_key(k) ==> earlier.add_jobs().contains_key(k)
            && self.add_jobs()[k] == earlier.add_jobs()[k]
    }

    /// Every state grew from itself.
    proof fn lemma_extends_refl(a: &Self)
        requires
            a.wf(),
        ensures
            a.extends(a),
    {
        assert(a.to_run().take(a.to_run().len() as int) =~= a.to_run());
    }

    /// Growing is transitive.
    proof fn lemma_extends_trans(a: &Self, b: &Self, c: &Self)
        requires
            a.wf(),
            b.wf(),
            c.extends(b),
            b.extends(a),
        ensures
            c.extends(a),
    {
        let ra = a.to_run();
        let rb = b.to_run();
        let rc = c.to_run();
        assert(rc.take(ra.len() as int) =~= ra) by {
            assert forall|i: int| 0 <= i < ra.len() implies rc[i] == ra[i] by {
                assert(rc.take(rb.len() as int)[i] == rb[i]);
                assert(rb.take(ra.len() as int)[i] == ra[i]);
            }
        }
        assert forall|i: int| ra.len() <= i < rc.len() implies !a.graph().contains_key(#[trigger] rc[i]) by {
            if i < rb.len() {
                assert(rc.take(rb.len() as int)[i] == rb[i]);
            } else {
                if a.graph().contains_key(rc[i]) {
                    assert(b.graph().contains_key(rc[i]));
                }
            }
        }
        assert forall|k: u64| #[trigger] c.to_add().contains(k) <==> a.to_add().contains(k) && !c.graph().contains_key(k) by {
            if a.to_add().contains(k) && !c.graph().contains_key(k) {
                if b.graph().contains_key(k) {
                    assert(c.graph().contains_key(k));
                }
            }
        }
        assert forall|x: u64| #[trigger] c.status().contains_key(x) && !a.status().contains_key(x)
            implies c.status()[x] is Pending by {
            if b.status().contains_key(x) {
                assert(c.status()[x] == b.status()[x]);
            }
        }
    }

    /// Adds `job` to the graph unless a job with its key is there already, and its dependencies before it,
    /// depth first. A new job is pending, and it is ready to run when every dependency was completed already.
    /// Returns a clone of the output of a job with the key that was there and completed already, and `None`
    /// otherwise.
    fn force_add_job_and_dependencies(&mut self, job: J, Ghost(except): Ghost<Set<u64>>) -> (r: Option<O>)
        requires
            old(self).wf(),
        ensures
            final(self).wf(),
            readiness(old(self).graph(), old(self).status(), old(self).to_run(), except) && job.distinct_dependencies()
                ==> readiness(final(self).graph(), final(self).status(), final(self).to_run(), except),
            final(self).extends(old(self)),
            final(self).graph().contains_key(job.spec_key()),
            origins_except(old(self).graph(), old(self).status(), old(self).origin(), except) ==> origins_except(
                final(self).graph(),
                final(self).status(),
                final(self).origin(),
                except,
            ),
            forall|x: u64| #[trigger] old(self).graph().contains_key(x) ==> final(self).origin()[x] == old(self).origin()[x]
                && (final(self).origin().contains_key(x) <==> old(self).origin().contains_key(x)),
            !old(self).graph().contains_key(job.spec_key()) ==> final(self).origin().contains_key(job.spec_key())
                && final(self).origin()[job.spec_key()] == job,
            old(self).graph().contains_key(job.spec_key()) ==> {
                &&& final(self).graph() == old(self).graph()
                &&& final(self).status() == old(self).status()
                &&& final(self).to_run() == old(self).to_run()
                &&& final(self).to_add() == old(self).to_add()
                &&& final(self).add_jobs() == old(self).add_jobs()
                &&& (r is Some <==> old(self).status()[job.spec_key()] is Completed)
                &&& (r matches Some(c) ==> cloned(completed_output(old(self).status()[job.spec_key()]), c))
            },
            !old(self).graph().contains_key(job.spec_key()) ==> r is None,
        decreases job.dependency_depth(),
    {
        let job_key = job.key();
        proof {
            Self::lemma_extends_refl(self);
        }
        match self.job_status.get(&job_key) {
            Some(JobStatus::Completed(output)) => {
                return Some(output.clone());
            },
            Some(_) => {
                return None;
            },
            None => {},
        }
        let ghost start = *self;
        let ghost depth = job.dependency_depth();
        let ghost dist = job.distinct_dependencies();
        let ghost ready0 = readiness(start.graph(), start.status(), start.to_run(), except) && dist;
        let ghost inner = except.insert(job_key);
        let ghost origins0 = origins_except(start.graph(), start.status(), start.origin(), except);
        let ghost job0 = job;
        proof {
            lemma_without_key(self.to_add(), job_key);
        }
        order_remove(&mut self.jobs_to_add_order, job_key);
        self.jobs_to_add.remove(&job_key);
        let (input, dependencies) = Job::into(job);
        let ghost all_deps = dependencies@;
        self.origins = Ghost(self.origins@.insert(job_key, job0));
        graph_add_node(&mut self.job_graph, job_key);
        let ghost before_status = self.status();
        let placeholder: JobStatus<I, O> = JobStatus::Pending(input, Vec::new());
        proof {
            lemma_status_insert(before_status, job_key, placeholder);
        }
        self.job_status.insert(job_key, placeholder);
        let status_count = self.job_status.len();
        proof {
            assert(pending_keys(before_status).subset_of(before_status.dom()));
            vstd::set_lib::lemma_len_subset(pending_keys(before_status), before_status.dom());
            assert(self.status().dom() =~= before_status.dom().insert(job_key));
        }
        self.pending_jobs = self.pending_jobs + 1;
        assert(self.graph() =~= start.graph().insert(job_key, Map::empty()));
        assert(self.status().dom() =~= self.graph().dom());
        assert(pending_keys(self.status()) =~= pending_keys(before_status).insert(job_key));
        assert(running_keys(self.status()) =~= running_keys(before_status));
        assert(add_queue_ok(self.to_add(), self.add_jobs(), self.graph()));
        assert(edges_closed(self.graph())) by {
            assert forall|a: u64, b: u64| #[trigger] has_edge(self.graph(), a, b) implies self.graph().contains_key(b) by {
                assert(has_edge(start.graph(), a, b));
            }
        }
        assert(run_queue_ok(self.to_run(), self.status())) by {
            assert forall|x: u64| #[trigger] self.to_run().contains(x) implies self.status().contains_key(x)
                && self.status()[x] is Pending by {
                assert(start.status().contains_key(x));
            }
        }
        assert(self.wf());
        assert(self.extends(&start)) by {
            assert(self.to_run().take(start.to_run().len() as int) =~= start.to_run());
        }
        proof {
            if ready0 {
                assert forall|j: u64|
                    #![trigger self.status().contains_key(j), inner.contains(j)]
                    self.status().contains_key(j) && self.status()[j] is Pending && !inner.contains(j) implies {
                    &&& start.status().contains_key(j)
                    &&& !except.contains(j)
                    &&& self.status()[j] == start.status()[j]
                    &&& out_edges(self.graph(), j) == out_edges(start.graph(), j)
                    &&& (self.to_run().contains(j) <==> start.to_run().contains(j))
                    &&& forall|d: u64| #[trigger]
                        out_edges(start.graph(), j).contains_key(d) ==> (self.status().contains_key(d)
                            <==> start.status().contains_key(d)) && (self.status().contains_key(d) ==> (
                        self.status()[d] is Completed <==> start.status()[d] is Completed))
                } by {
                    assert forall|d: u64| #[trigger] out_edges(start.graph(), j).contains_key(d) implies d != job_key by {
                        assert(has_edge(start.graph(), j, d));
                    }
                }
                lemma_readiness_frame(
                    start.graph(),
                    start.status(),
                    start.to_run(),
                    except,
                    self.graph(),
                    self.status(),
                    self.to_run(),
                    inner,
                );
            }
        }
        assert(out_edges(self.graph(), job_key).dom() =~= Seq::<u64>::empty().to_set());
        assert(completed_dependencies(self.graph(), self.status(), job_key) =~= Set::<u64>::empty());
        let ghost mut keys: Seq<u64> = Seq::empty();
        let ghost mut n: int = 0;
        let mut dependency_outputs: Vec<(u64, O)> = Vec::new();
        assert(outputs_sourced_by(self.graph(), self.status(), job_key, dependency_outputs@, Seq::<u64>::empty()));
        let mut can_run = true;
        let mut dependencies = dependencies;
        assert forall|i: int| 0 <= i < dependencies.len() implies #[trigger] dependencies@[i].1.dependency_depth() < depth by {
            assert(dependencies[i].1.dependency_depth() < depth);
        }
        while dependencies.len() > 0
            invariant
                self.wf(),
                self.extends(&start),
                start.wf(),
                !start.graph().contains_key(job_key),
                self.graph().contains_key(job_key),
                self.status()[job_key] is Pending,
                !self.to_run().contains(job_key),
                depth == job.dependency_depth(),
                forall|i: int| 0 <= i < dependencies.len() ==> #[trigger] dependencies@[i].1.dependency_depth() < depth,
                0 <= n <= all_deps.len(),
                dependencies@ == all_deps.skip(n),
                keys.len() == n,
                forall|i: int| 0 <= i < n ==> keys[i] == (#[trigger] all_deps[i]).1.spec_key(),
                out_edges(self.graph(), job_key).dom() == keys.to_set(),
                inner == except.insert(job_key),
                dist ==> forall|a: int, b: int|
                    0 <= a < b < all_deps.len() ==> #[trigger] all_deps[a].1.spec_key() != #[trigger] all_deps[b].1.spec_key(),
                dist ==> forall|i: int| 0 <= i < all_deps.len() ==> #[trigger] all_deps[i].1.distinct_dependencies(),
                dist ==> keys.no_duplicates(),
                dist ==> dependency_outputs@.len() == completed_dependencies(self.graph(), self.status(), job_key).len(),
                dist ==> outputs_from_completed(self.graph(), self.status(), job_key, dependency_outputs@),
                can_run <==> dependencies_completed(self.graph(), self.status(), job_key),
                ready0 ==> readiness(self.graph(), self.status(), self.to_run(), inner),
                ready0 == (readiness(start.graph(), start.status(), start.to_run(), except) && dist),
                self.origin().contains_key(job_key),
                self.origin()[job_key] == job0,
                job0.spec_key() == job_key,
                all_deps == job0.job_dependencies(),
                pending_input(self.status()[job_key]) == job0.job_input(),
                forall|x: u64| #[trigger] start.graph().contains_key(x) ==> self.origin()[x] == start.origin()[x]
                    && (self.origin().contains_key(x) <==> start.origin().contains_key(x)),
                out_edges(self.graph(), job_key) == dependency_map::<I, J>(all_deps.take(n)),
                origins0 ==> origins_except(self.graph(), self.status(), self.origin(), inner),
                origins0 == origins_except(start.graph(), start.status(), start.origin(), except),
            decreases dependencies.len(),
        {
            let ghost iter_start = *self;
            let ghost first = dependencies@[0];
            let ghost before_remove = dependencies@;
            assert(first == all_deps[n]);
            let (dependency_key, dependency_job) = dependencies.remove(0);
            assert(dependency_job == first.1);
            assert(dependency_job.dependency_depth() < depth);
            assert forall|i: int| 0 <= i < dependencies.len() implies #[trigger] dependencies@[i].1.dependency_depth() < depth by {
                assert(dependencies@[i] == before_remove[i + 1]);
            }
            assert(dependencies@ =~= all_deps.skip(n + 1));
            let dependency_job_key = dependency_job.key();
            let ghost before = *self;
            proof {
                if dist {
                    assert(all_deps[n].1.distinct_dependencies());
                }
            }
            let dependency_output = self.force_add_job_and_dependencies(dependency_job, Ghost(inner));
            proof {
                Self::lemma_extends_trans(&start, &before, self);
                if self.to_run().contains(job_key) {
                    let i = choose|i: int| 0 <= i < self.to_run().len() && self.to_run()[i] == job_key;
                    if i < before.to_run().len() {
                        assert(self.to_run().take(before.to_run().len() as int)[i] == job_key);
                    }
                }
            }
            let ghost before_edge = *self;
            assert(before.graph().contains_key(job_key));
            assert(out_edges(before_edge.graph(), job_key) == out_edges(before.graph(), job_key));
            assert(self.status().contains_key(dependency_job_key));
            assert(self.status()[dependency_job_key] is Completed <==> dependency_output is Some) by {
                if !before.graph().contains_key(dependency_job_key) {
                    assert(!before.status().contains_key(dependency_job_key));
                }
            }
            assert forall|d: u64| #[trigger] keys.to_set().contains(d) implies before.status().contains_key(d)
                && self.status()[d] == before.status()[d] by {
                assert(has_edge(before.graph(), job_key, d));
            }
            graph_add_edge(&mut self.job_graph, job_key, dependency_job_key, dependency_key);
            assert(self.graph().dom() =~= before_edge.graph().dom());
            assert(edges_closed(self.graph())) by {
                assert forall|a: u64, b: u64| #[trigger] has_edge(self.graph(), a, b) implies self.graph().contains_key(b) by {
                    if a != job_key {
                        assert(has_edge(before_edge.graph(), a, b));
                    } else if b != dependency_job_key {
                        assert(has_edge(before_edge.graph(), a, b));
                    }
                }
            }
            assert(add_queue_ok(self.to_add(), self.add_jobs(), self.graph()));
            assert(self.extends(&start));
            let ghost new_keys = keys.push(dependency_job_key);
            proof {
                keys.lemma_push_to_set_commute(dependency_job_key);
                assert(before.graph().contains_key(job_key));
                assert forall|x: u64| #[trigger] start.graph().contains_key(x) implies self.origin()[x] == start.origin()[x]
                    && (self.origin().contains_key(x) <==> start.origin().contains_key(x)) by {
                    assert(before.graph().contains_key(x));
                    assert(iter_start.origin()[x] == start.origin()[x]);
                }
                assert(all_deps.take(n + 1).drop_last() =~= all_deps.take(n));
                assert(all_deps.take(n + 1).last() == all_deps[n]);
                assert(out_edges(before_edge.graph(), job_key) == out_edges(iter_start.graph(), job_key));
                assert(out_edges(self.graph(), job_key) =~= dependency_map::<I, J>(all_deps.take(n + 1)));
                if origins0 {
                    assert(origins_except(before_edge.graph(), before_edge.status(), before_edge.origin(), inner));
                    assert forall|x: u64|
                        #![trigger self.graph().contains_key(x), inner.contains(x)]
                        self.graph().contains_key(x) && !inner.contains(x) implies {
                        &&& self.origin().contains_key(x)
                        &&& self.origin()[x].spec_key() == x
                        &&& self.graph()[x] == dependency_map::<I, J>(self.origin()[x].job_dependencies())
                        &&& (self.status().contains_key(x) && self.status()[x] is Pending ==> pending_input(
                            self.status()[x],
                        ) == self.origin()[x].job_input())
                    } by {
                        assert(before_edge.graph().contains_key(x));
                        assert(self.graph()[x] == before_edge.graph()[x]);
                    }
                }
            }
            assert(out_edges(self.graph(), job_key).dom() =~= new_keys.to_set());
            proof {
                if ready0 {
                    assert forall|j: u64|
                        #![trigger self.status().contains_key(j), inner.contains(j)]
                        self.status().contains_key(j) && self.status()[j] is Pending && !inner.contains(j) implies {
                        &&& before_edge.status().contains_key(j)
                        &&& !inner.contains(j)
                        &&& self.status()[j] == before_edge.status()[j]
                        &&& out_edges(self.graph(), j) == out_edges(before_edge.graph(), j)
                        &&& (self.to_run().contains(j) <==> before_edge.to_run().contains(j))
                        &&& forall|d: u64| #[trigger]
                            out_edges(before_edge.graph(), j).contains_key(d) ==> (self.status().contains_key(d)
                                <==> before_edge.status().contains_key(d)) && (self.status().contains_key(d) ==> (
                            self.status()[d] is Completed <==> before_edge.status()[d] is Completed))
                    } by {}
                    lemma_readiness_frame(
                        before_edge.graph(),
                        before_edge.status(),
                        before_edge.to_run(),
                        inner,
                        self.graph(),
                        self.status(),
                        self.to_run(),
                        inner,
                    );
                }
                if dist {
                    assert(!keys.contains(dependency_job_key)) by {
                        if keys.contains(dependency_job_key) {
                            let i = choose|i: int| 0 <= i < keys.len() && keys[i] == dependency_job_key;
                            assert(all_deps[i].1.spec_key() != all_deps[n].1.spec_key());
                        }
                    }
                    assert(new_keys.no_duplicates()) by {
                        assert forall|a: int, b: int| 0 <= a < new_keys.len() && 0 <= b < new_keys.len() && a != b
                            implies new_keys[a] != new_keys[b] by {
                            if a == n {
                                assert(keys.contains(new_keys[b]));
                            } else if b == n {
                                assert(keys.contains(new_keys[a]));
                            }
                        }
                    }
                }
            }
            let ghost c1 = completed_dependencies(before_edge.graph(), before_edge.status(), job_key);
            let ghost c2 = completed_dependencies(self.graph(), self.status(), job_key);
            assert(c1 =~= completed_dependencies(iter_start.graph(), iter_start.status(), job_key));
            proof {
                vstd::seq_lib::seq_to_set_is_finite(keys);
                vstd::seq_lib::seq_to_set_is_finite(new_keys);
                assert(c1.subset_of(keys.to_set()));
                vstd::set_lib::lemma_set_subset_finite(keys.to_set(), c1);
                if dependency_output is Some {
                    assert(c2 =~= c1.insert(dependency_job_key));
                } else {
                    assert(c2 =~= c1);
                }
                if dist {
                    assert(!c1.contains(dependency_job_key));
                }
                assert(dependencies_completed(self.graph(), self.status(), job_key) <==> dependencies_completed(
                    before_edge.graph(),
                    before_edge.status(),
                    job_key,
                ) && dependency_output is Some) by {
                    if dependencies_completed(self.graph(), self.status(), job_key) {
                        assert(has_edge(self.graph(), job_key, dependency_job_key));
                        assert forall|d: u64| #[trigger] has_edge(before_edge.graph(), job_key, d) implies before_edge.status().contains_key(d)
                            && before_edge.status()[d] is Completed by {
                            assert(has_edge(self.graph(), job_key, d));
                        }
                    }
                    if dependencies_completed(before_edge.graph(), before_edge.status(), job_key) && dependency_output is Some {
                        assert forall|d: u64| #[trigger] has_edge(self.graph(), job_key, d) implies self.status().contains_key(d)
                            && self.status()[d] is Completed by {
                            if d != dependency_job_key {
                                assert(has_edge(before_edge.graph(), job_key, d));
                            }
                        }
                    }
                }
            }
            let ghost outputs_before = dependency_outputs@;
            proof {
                if dist {
                    assert forall|d: u64| #[trigger] has_edge(iter_start.graph(), job_key, d) && iter_start.status().contains_key(d)
                        && iter_start.status()[d] is Completed implies has_edge(self.graph(), job_key, d)
                        && self.graph()[job_key][d] == iter_start.graph()[job_key][d] && self.status().contains_key(d)
                        && self.status()[d] == iter_start.status()[d] by {
                        assert(keys.to_set().contains(d));
                        assert(d != dependency_job_key);
                        assert(before_edge.graph()[job_key] == iter_start.graph()[job_key]);
                    }
                    lemma_outputs_transfer(iter_start.graph(), iter_start.status(), self.graph(), self.status(), job_key, outputs_before);
                }
            }
            match dependency_output {
                Some(output) => {
                    dependency_outputs.push((dependency_key, output));
                },
                None => {
                    can_run = false;
                },
            }
            proof {
                if dist {
                    let src = choose|src: Seq<u64>| #[trigger] outputs_sourced_by(
                        iter_start.graph(),
                        iter_start.status(),
                        job_key,
                        outputs_before,
                        src,
                    );
                    assert forall|i: int| 0 <= i < src.len() implies #[trigger] keys.contains(src[i]) by {
                        assert(output_from(iter_start.graph(), iter_start.status(), job_key, src[i], outputs_before[i]));
                        assert(out_edges(iter_start.graph(), job_key).dom().contains(src[i]));
                        assert(keys.to_set().contains(src[i]));
                    }
                    let src2 = if dependency_output is Some {
                        src.push(dependency_job_key)
                    } else {
                        src
                    };
                    assert(src2.no_duplicates()) by {
                        assert forall|a: int, b: int| 0 <= a < src2.len() && 0 <= b < src2.len() && a != b implies src2[a]
                            != src2[b] by {
                            if a == src.len() {
                                assert(keys.contains(src2[b]));
                            } else if b == src.len() {
                                assert(keys.contains(src2[a]));
                            }
                        }
                    }
                    assert forall|i: int| 0 <= i < dependency_outputs@.len() implies #[trigger] output_from(
                        self.graph(),
                        self.status(),
                        job_key,
                        src2[i],
                        dependency_outputs@[i],
                    ) by {
                        if i < outputs_before.len() {
                            assert(dependency_outputs@[i] == outputs_before[i]);
                            assert(src2[i] == src[i]);
                            assert(output_from(iter_start.graph(), iter_start.status(), job_key, src[i], outputs_before[i]));
                            assert(has_edge(iter_start.graph(), job_key, src[i]));
                        } else {
                            assert(src2[i] == dependency_job_key);
                            assert(has_edge(self.graph(), job_key, dependency_job_key));
                            assert(self.graph()[job_key][dependency_job_key] == dependency_key);
                            assert(self.status().contains_key(dependency_job_key));
                            assert(self.status()[dependency_job_key] is Completed);
                            assert(self.status()[dependency_job_key] == before.status()[dependency_job_key]);
                        }
                    }
                    assert(outputs_sourced_by(self.graph(), self.status(), job_key, dependency_outputs@, src2));
                }
            }
            proof {
                keys = new_keys;
                n = n + 1;
            }
        }
        let ghost before_final = *self;
        let status = self.job_status.remove(&job_key);
        match status {
            Some(JobStatus::Pending(input, _)) => {
                let ready: JobStatus<I, O> = JobStatus::Pending(input, dependency_outputs);
                proof {
                    lemma_status_insert(before_final.status(), job_key, ready);
                }
                self.job_status.insert(job_key, ready);
                assert(self.status().dom() =~= before_final.status().dom());
                assert(pending_keys(self.status()) =~= pending_keys(before_final.status()));
                assert(running_keys(self.status()) =~= running_keys(before_final.status()));
            },
            Some(other) => {
                self.job_status.insert(job_key, other);
                assert(self.status() =~= before_final.status());
            },
            None => {},
        }
        assert(self.status().contains_key(job_key) && self.status()[job_key] is Pending);
        assert(self.wf());
        assert(self.extends(&start));
        if can_run {
            let ghost before_run = self.to_run();
            order_insert(&mut self.jobs_to_run, job_key);
            assert(without_key(before_run, job_key) == before_run);
            assert(self.to_run() =~= before_run.push(job_key));
            assert(self.to_run().take(before_run.len() as int) =~= before_run);
            assert(self.to_run().take(start.to_run().len() as int) =~= start.to_run()) by {
                assert forall|i: int| 0 <= i < start.to_run().len() implies self.to_run()[i] == start.to_run()[i] by {
                    assert(before_run.take(start.to_run().len() as int)[i] == start.to_run()[i]);
                }
            }
            assert forall|x: u64| #[trigger] self.to_run().contains(x) implies self.status().contains_key(x)
                && self.status()[x] is Pending by {
                if x != job_key {
                    let i = choose|i: int| 0 <= i < self.to_run().len() && self.to_run()[i] == x;
                    assert(i < before_run.len());
                    assert(before_run[i] == x);
                    assert(before_run.contains(x));
                }
            }
            assert forall|i: int| start.to_run().len() <= i < self.to_run().len() implies !start.graph().contains_key(
                #[trigger] self.to_run()[i],
            ) by {
                if i < before_run.len() {
                    assert(before_run[i] == self.to_run()[i]);
                }
            }
        }
        proof {
            if origins0 {
                assert(all_deps.take(n) =~= all_deps);
                assert(before_final.graph() == self.graph());
                assert forall|x: u64|
                    #![trigger self.graph().contains_key(x), except.contains(x)]
                    self.graph().contains_key(x) && !except.contains(x) implies {
                    &&& self.origin().contains_key(x)
                    &&& self.origin()[x].spec_key() == x
                    &&& self.graph()[x] == dependency_map::<I, J>(self.origin()[x].job_dependencies())
                    &&& (self.status().contains_key(x) && self.status()[x] is Pending ==> pending_input(self.status()[x])
                        == self.origin()[x].job_input())
                } by {
                    if x != job_key {
                        assert(!inner.contains(x));
                        assert(before_final.graph().contains_key(x));
                        assert(self.status()[x] == before_final.status()[x]);
                    } else {
                        assert(self.graph()[x] == out_edges(before_final.graph(), job_key));
                    }
                }
            }
            if ready0 {
                let g = self.graph();
                let st = self.status();
                let tr = self.to_run();
                assert(st[job_key] is Pending);
                assert(pending_outputs(st[job_key]) == dependency_outputs);
                assert(tr.contains(job_key) <==> can_run) by {
                    if !can_run {
                        assert(tr == before_final.to_run());
                    } else {
                        assert(tr[tr.len() - 1] == job_key);
                    }
                }
                assert(completed_dependencies(g, st, job_key) =~= completed_dependencies(
                    before_final.graph(),
                    before_final.status(),
                    job_key,
                ));
                assert(dependencies_completed(g, st, job_key) <==> dependencies_completed(
                    before_final.graph(),
                    before_final.status(),
                    job_key,
                )) by {
                    if dependencies_completed(g, st, job_key) {
                        assert forall|d: u64| #[trigger] has_edge(before_final.graph(), job_key, d) implies before_final.status().contains_key(d)
                            && before_final.status()[d] is Completed by {
                            assert(has_edge(g, job_key, d));
                        }
                    }
                    if dependencies_completed(before_final.graph(), before_final.status(), job_key) {
                        assert forall|d: u64| #[trigger] has_edge(g, job_key, d) implies st.contains_key(d)
                            && st[d] is Completed by {
                            assert(has_edge(before_final.graph(), job_key, d));
                        }
                    }
                }
                vstd::seq_lib::seq_to_set_is_finite(keys);
                assert forall|d: u64| #[trigger] has_edge(before_final.graph(), job_key, d) && before_final.status().contains_key(d)
                    && before_final.status()[d] is Completed implies has_edge(g, job_key, d) && g[job_key][d]
                    == before_final.graph()[job_key][d] && st.contains_key(d) && st[d] is Completed by {
                    assert(d != job_key);
                }
                lemma_outputs_transfer(before_final.graph(), before_final.status(), g, st, job_key, dependency_outputs@);
                assert(job_readiness(g, st, tr, job_key));
                assert forall|j: u64|
                    #![trigger st.contains_key(j), inner.contains(j)]
                    st.contains_key(j) && st[j] is Pending && !inner.contains(j) implies {
                    &&& before_final.status().contains_key(j)
                    &&& !inner.contains(j)
                    &&& st[j] == before_final.status()[j]
                    &&& out_edges(g, j) == out_edges(before_final.graph(), j)
                    &&& (tr.contains(j) <==> before_final.to_run().contains(j))
                    &&& forall|d: u64| #[trigger]
                        out_edges(before_final.graph(), j).contains_key(d) ==> (st.contains_key(d)
                            <==> before_final.status().contains_key(d)) && (st.contains_key(d) ==> (
                        st[d] is Completed <==> before_final.status()[d] is Completed))
                } by {
                    if can_run {
                        if tr.contains(j) {
                            let i = choose|i: int| 0 <= i < tr.len() && tr[i] == j;
                            assert(i < tr.len() - 1);
                            assert(before_final.to_run()[i] == j);
                        }
                        if before_final.to_run().contains(j) {
                            let i = choose|i: int| 0 <= i < before_final.to_run().len() && before_final.to_run()[i] == j;
                            assert(tr[i] == j);
                        }
                    }
                }
                lemma_readiness_frame(
                    before_final.graph(),
                    before_final.status(),
                    before_final.to_run(),
                    inner,
                    g,
                    st,
                    tr,
                    inner,
                );
                assert forall|j: u64|
                    #![trigger st.contains_key(j), except.contains(j)]
                    st.contains_key(j) && st[j] is Pending && !except.contains(j) implies job_readiness(g, st, tr, j) by {
                    if j != job_key {
                        assert(!inner.contains(j));
                        assert(st.contains_key(j) && !inner.contains(j));
                    }
                }
            }
        }
        None
    }

    /// This state advanced from the state with dependency graph `graph`, statuses `status`, ready queue `to_run`,
    /// add queue `to_add` and waiting jobs `add_jobs`, by adding jobs to the graph and handing jobs to workers: the
    /// jobs that were in the graph keep their dependencies, and keep their status unless a pending one started
    /// running; new jobs are pending or running; jobs left the ready queue only to run; jobs left the add queue only
    /// to enter the graph; and the jobs still waiting are the ones that were waiting.
    pub open spec fn progressed(
        &self,
        graph: Map<u64, Map<u64, u64>>,
        status: Map<u64, JobStatus<I, O>>,
        to_run: Seq<u64>,
        to_add: Seq<u64>,
        add_jobs: Map<u64, J>,
    ) -> bool {
        &&& forall|x: u64| #[trigger] graph.contains_key(x) ==> self.graph().contains_key(x)
            && self.graph()[x] == graph[x]
        &&& forall|x: u64| #[trigger] status.contains_key(x) ==> self.status()[x] == status[x]
            || (status[x] is Pending && self.status()[x] is Running)
        &&& forall|x: u64| #[trigger] self.status().contains_key(x) && !status.contains_key(x)
            ==> self.status()[x] is Pending || self.status()[x] is Running
        &&& forall|x: u64| #[trigger] to_run.contains(x) ==> self.to_run().contains(x) || (self.status().contains_key(x)
            && self.status()[x] is Running)
        &&& forall|k: u64| #[trigger] self.to_add().contains(k) ==> to_add.contains(k)
        &&& forall|k: u64| #[trigger] to_add.contains(k) && !self.to_add().contains(k)
            ==> self.graph().contains_key(k)
        &&& forall|k: u64| #[trigger] self.add_jobs().contains_key(k) ==> self.add_jobs()[k] == add_jobs[k]
    }

    /// This state advanced from `earlier` by adding jobs to the graph and handing jobs to workers.
    pub open spec fn advances(&self, earlier: &Self) -> bool {
        &&& self.target() == earlier.target()
        &&& self.progressed(earlier.graph(), earlier.status(), earlier.to_run(), earlier.to_add(), earlier.add_jobs())
    }

    /// Advancing is transitive.
    proof fn lemma_advances_trans(a: &Self, b: &Self, c: &Self)
        requires
            a.wf(),
            b.wf(),
            c.wf(),
            c.advances(b),
            b.advances(a),
        ensures
            c.advances(a),
    {
        assert forall|k: u64| #[trigger] a.to_add().contains(k) && !c.to_add().contains(k) implies c.graph().contains_key(k) by {
            if b.to_add().contains(k) {
            } else {
                assert(b.graph().contains_key(k));
            }
        }
        assert forall|x: u64| #[trigger] c.status().contains_key(x) && !a.status().contains_key(x)
            implies c.status()[x] is Pending || c.status()[x] is Running by {
            if b.status().contains_key(x) {
                assert(b.status()[x] is Pending || b.status()[x] is Running);
            }
        }
        assert forall|k: u64| #[trigger] c.add_jobs().contains_key(k) implies c.add_jobs()[k] == a.add_jobs()[k] by {
            assert(c.to_add().contains(k));
            assert(b.to_add().contains(k));
        }
    }

    /// Handing out messages composes: what one step handed out and what the next one handed out after it, both
    /// hand out from the first state to the last.
    proof fn lemma_hands_out_trans(a: &Self, b: &Self, c: &Self, s1: Seq<ManagerAction<I, O>>, s2: Seq<ManagerAction<I, O>>)
        requires
            a.wf(),
            b.wf(),
            c.wf(),
            b.advances(a),
            c.advances(b),
            hands_out(a.status(), b.status(), s1),
            hands_out(b.status(), c.status(), s2),
        ensures
            hands_out(a.status(), c.status(), s1 + s2),
    {
        let s = s1 + s2;
        assert forall|i: int| 0 <= i < s.len() implies #[trigger] s[i] is RunJob by {
            if i < s1.len() {
                assert(s[i] == s1[i]);
            } else {
                assert(s[i] == s2[i - s1.len()]);
            }
        }
        assert forall|i: int| 0 <= i < s.len() implies {
            let k = run_key(#[trigger] s[i]);
            &&& c.status().contains_key(k)
            &&& c.status()[k] is Running
            &&& a.status().contains_key(k) ==> a.status()[k] is Pending && s[i] == ManagerAction::RunJob(
                k,
                pending_input(a.status()[k]),
                pending_outputs(a.status()[k]),
            )
        } by {
            if i < s1.len() {
                assert(s[i] == s1[i]);
                let k = run_key(s1[i]);
                assert(b.status().contains_key(k) && b.status()[k] is Running);
            } else {
                let j = i - s1.len();
                assert(s[i] == s2[j]);
                let k = run_key(s2[j]);
                if a.status().contains_key(k) {
                    assert(a.graph().contains_key(k));
                    assert(b.graph().contains_key(k));
                    assert(b.status().contains_key(k) && b.status()[k] is Pending);
                    assert(b.status()[k] == a.status()[k]);
                }
            }
        }
        assert forall|i: int, j: int| 0 <= i < j < s.len() implies run_key(#[trigger] s[i]) != run_key(#[trigger] s[j]) by {
            if j < s1.len() {
                assert(s[i] == s1[i] && s[j] == s1[j]);
            } else if i >= s1.len() {
                assert(s[i] == s2[i - s1.len()] && s[j] == s2[j - s1.len()]);
            } else {
                assert(s[i] == s1[i] && s[j] == s2[j - s1.len()]);
                let k = run_key(s1[i]);
                assert(b.status().contains_key(k) && b.status()[k] is Running);
                let k2 = run_key(s2[j - s1.len()]);
                if b.status().contains_key(k2) {
                    assert(b.status()[k2] is Pending);
                }
            }
        }
    }

    /// Handing the first jobs ready to run to workers advances the state and hands those jobs out.
    proof fn lemma_dispatch_advances(a: &Self, b: &Self, n: int)
        requires
            a.wf(),
            b.wf(),
            0 <= n <= a.to_run().len(),
            b.graph() == a.graph(),
            b.to_add() == a.to_add(),
            b.add_jobs() == a.add_jobs(),
            b.target() == a.target(),
            b.to_run() == a.to_run().skip(n),
            b.status() == with_running(a.status(), a.to_run().take(n)),
        ensures
            b.advances(a),
            hands_out(a.status(), b.status(), run_messages(a.status(), a.to_run().take(n))),
    {
        let keys = a.to_run().take(n);
        let msgs = run_messages(a.status(), keys);
        assert forall|x: u64| #[trigger] a.to_run().contains(x) implies b.to_run().contains(x) || (
        b.status().contains_key(x) && b.status()[x] is Running) by {
            let i = choose|i: int| 0 <= i < a.to_run().len() && a.to_run()[i] == x;
            if i < n {
                assert(keys[i] == x);
                assert(keys.contains(x));
            } else {
                assert(b.to_run()[i - n] == x);
            }
        }
        assert forall|x: u64| #[trigger] a.status().contains_key(x) implies b.status()[x] == a.status()[x]
            || (a.status()[x] is Pending && b.status()[x] is Running) by {
            if keys.contains(x) {
                let i = choose|i: int| 0 <= i < keys.len() && keys[i] == x;
                assert(a.to_run().contains(x)) by {
                    assert(a.to_run()[i] == x);
                }
            }
        }
        assert forall|i: int| 0 <= i < msgs.len() implies {
            let k = run_key(#[trigger] msgs[i]);
            &&& b.status().contains_key(k)
            &&& b.status()[k] is Running
            &&& a.status().contains_key(k) ==> a.status()[k] is Pending && msgs[i] == ManagerAction::RunJob(
                k,
                pending_input(a.status()[k]),
                pending_outputs(a.status()[k]),
            )
        } by {
            let k = keys[i];
            assert(msgs[i] == ManagerAction::RunJob(k, pending_input(a.status()[k]), pending_outputs(a.status()[k])));
            assert(a.to_run()[i] == k);
            assert(a.to_run().contains(k));
            assert(keys.contains(k));
        }
        assert forall|i: int, j: int| 0 <= i < j < msgs.len() implies run_key(#[trigger] msgs[i]) != run_key(#[trigger] msgs[j]) by {
            assert(a.to_run()[i] == keys[i]);
            assert(a.to_run()[j] == keys[j]);
        }
    }

    /// Taking the first waiting job and adding it to the graph shortens the add queue.
    proof fn lemma_to_add_shrinks(a: &Self, b: &Self, c: &Self)
        requires
            a.wf(),
            b.wf(),
            a.to_add().len() > 0,
            c.wf(),
            b.to_add() == a.to_add().drop_first(),
            c.extends(b),
        ensures
            c.to_add().len() < a.to_add().len(),
    {
        let sc = c.to_add();
        let sb = b.to_add();
        assert(sc.to_set().subset_of(sb.to_set()));
        sc.unique_seq_to_set();
        sb.unique_seq_to_set();
        vstd::set_lib::lemma_len_subset(sc.to_set(), sb.to_set());
    }

    /// Hands jobs that are ready to run to workers, and then adds waiting jobs to the graph, first waiting first,
    /// handing out the jobs that became ready after each, all while fewer than the target number of jobs wait in
    /// the workers' channel; `backlog` counts the jobs waiting there.
    fn run_and_add_jobs_until_target(&mut self, backlog: &mut usize, actions: &mut Vec<ManagerAction<I, O>>)
        requires
            old(self).wf(),
        ensures
            final(self).wf(),
            old(self).ready_ok() ==> final(self).ready_ok(),
            old(self).origins_ok() ==> final(self).origins_ok(),
            old(self).origins_ok() ==> runs_carry_inputs(final(self).origin(), final(actions)@.skip(old(actions)@.len() as int)),
            old(self).ready_ok() ==> runs_carry_outputs(
                final(self).graph(),
                final(self).status(),
                final(actions)@.skip(old(actions)@.len() as int),
            ),
            forall|x: u64| #[trigger] old(self).graph().contains_key(x) ==> final(self).origin()[x] == old(self).origin()[x]
                && (final(self).origin().contains_key(x) <==> old(self).origin().contains_key(x)),
            ({
                let f = old(self).to_add()[0];
                old(self).to_add().len() == 1 && !final(self).to_add().contains(f) ==> final(self).origin().contains_key(f)
                    && final(self).origin()[f] == old(self).add_jobs()[f]
            }),
            final(self).advances(old(self)),
            *old(backlog) <= *final(backlog),
            final(actions)@.len() == old(actions)@.len() + (*final(backlog) - *old(backlog)),
            final(actions)@.take(old(actions)@.len() as int) == old(actions)@,
            hands_out(old(self).status(), final(self).status(), final(actions)@.skip(old(actions)@.len() as int)),
            *final(backlog) >= final(self).target() || (final(self).to_run().len() == 0 && final(self).to_add().len()
                == 0),
            *old(backlog) < old(self).target() ==> *final(backlog) <= old(self).target(),
            ({
                let n = dispatch_count(old(self).to_run().len(), *old(backlog) as nat, old(self).target());
                &&& final(actions)@.len() >= old(actions)@.len() + n
                &&& final(actions)@.subrange(old(actions)@.len() as int, (old(actions)@.len() + n) as int) == run_messages(
                    old(self).status(),
                    old(self).to_run().take(n as int),
                )
            }),
            *old(backlog) >= old(self).target() ==> {
                &&& final(self).graph() == old(self).graph()
                &&& final(self).status() == old(self).status()
                &&& final(self).to_run() == old(self).to_run()
                &&& final(self).to_add() == old(self).to_add()
                &&& final(self).add_jobs() == old(self).add_jobs()
                &&& *final(backlog) == *old(backlog)
                &&& final(actions)@ == old(actions)@
            },
    {
        let ghost start = *self;
        let ghost start_actions = actions@;
        let ghost start_backlog = *backlog;
        let ghost mid0 = *self;
        let ghost acts0 = actions@;
        let ghost ready0 = start.ready_ok();
        let ghost o0 = start.origins_ok();
        let ghost f = start.to_add()[0];
        self.run_jobs_until_target(backlog, actions);
        let ghost first_actions = actions@;
        proof {
            if o0 {
                let n = dispatch_count(mid0.to_run().len(), start_backlog as nat, mid0.target());
                lemma_origins_dispatch(mid0.graph(), mid0.status(), mid0.origin(), mid0.to_run().take(n as int));
                lemma_run_messages_carry_inputs(mid0.graph(), mid0.status(), mid0.origin(), mid0.to_run(), n as int);
                assert(actions@.skip(start_actions.len() as int) =~= run_messages(mid0.status(), mid0.to_run().take(n as int)));
            }
            if ready0 {
                let n = dispatch_count(mid0.to_run().len(), start_backlog as nat, mid0.target());
                lemma_readiness_dispatch(mid0.graph(), mid0.status(), mid0.to_run(), Set::empty(), n as int);
                lemma_run_messages_carry_outputs(mid0.graph(), mid0.status(), mid0.to_run(), n as int);
                assert(actions@.skip(start_actions.len() as int) =~= run_messages(mid0.status(), mid0.to_run().take(n as int)));
            }
            let n = dispatch_count(mid0.to_run().len(), start_backlog as nat, mid0.target());
            assert(first_actions.subrange(start_actions.len() as int, (start_actions.len() + n) as int) =~= run_messages(
                mid0.status(),
                mid0.to_run().take(n as int),
            ));
            Self::lemma_dispatch_advances(&mid0, self, n as int);
            assert(actions@.skip(start_actions.len() as int) =~= run_messages(mid0.status(), mid0.to_run().take(n as int)));
            assert(actions@.take(start_actions.len() as int) =~= start_actions);
            if start_backlog >= start.target() {
                assert(self.to_run() =~= start.to_run());
                assert(self.status() =~= start.status()) by {
                    assert(mid0.to_run().take(0) =~= Seq::<u64>::empty());
                    assert(with_running(mid0.status(), Seq::<u64>::empty()) =~= mid0.status());
                }
                assert(actions@ =~= start_actions);
            }
        }
        while !order_is_empty(&self.jobs_to_add_order) && *backlog < self.target_running_job_count
            invariant
                self.wf(),
                start.wf(),
                self.advances(&start),
                start_backlog <= *backlog,
                start_backlog < start.target() || *backlog == start_backlog,
                start_backlog < start.target() ==> *backlog <= start.target(),
                actions@.len() == start_actions.len() + (*backlog - start_backlog),
                actions@.take(start_actions.len() as int) == start_actions,
                first_actions.len() <= actions@.len(),
                actions@.take(first_actions.len() as int) == first_actions,
                hands_out(start.status(), self.status(), actions@.skip(start_actions.len() as int)),
                *backlog >= self.target() || self.to_run().len() == 0,
                self.target() == start.target(),
                o0 == start.origins_ok(),
                o0 ==> self.origins_ok(),
                o0 ==> runs_carry_inputs(self.origin(), actions@.skip(start_actions.len() as int)),
                ready0 ==> runs_carry_outputs(self.graph(), self.status(), actions@.skip(start_actions.len() as int)),
                forall|x: u64| #[trigger] start.graph().contains_key(x) ==> self.origin()[x] == start.origin()[x]
                    && (self.origin().contains_key(x) <==> start.origin().contains_key(x)),
                f == start.to_add()[0],
                start.to_add().len() == 1 && !self.to_add().contains(f) ==> self.origin().contains_key(f)
                    && self.origin()[f] == start.add_jobs()[f],
                ready0 == start.ready_ok(),
                ready0 ==> self.ready_ok(),
                start_backlog >= start.target() ==> {
                    &&& self.graph() == start.graph()
                    &&& self.status() == start.status()
                    &&& self.to_run() == start.to_run()
                    &&& self.to_add() == start.to_add()
                    &&& self.add_jobs() == start.add_jobs()
                    &&& actions@ == start_actions
                },
            decreases self.to_add().len(),
        {
            let ghost loop_start = *self;
            let ghost loop_actions = actions@;
            let ghost loop_backlog = *backlog;
            let front = order_pop_front(&mut self.jobs_to_add_order);
            let k = match front {
                Some(k) => k,
                None => { assert(false); 0 },
            };
            assert(loop_start.to_add().contains(k)) by {
                assert(loop_start.to_add()[0] == k);
            }
            let removed = self.jobs_to_add.remove(&k);
            let job = match removed {
                Some(job) => job,
                None => { assert(false); return; },
            };
            assert(job.spec_key() == k);
            assert(add_queue_ok(self.to_add(), self.add_jobs(), self.graph())) by {
                assert forall|x: u64| #[trigger] self.to_add().contains(x) <==> self.add_jobs().contains_key(x) by {
                    if self.to_add().contains(x) {
                        let i = choose|i: int| 0 <= i < self.to_add().len() && self.to_add()[i] == x;
                        assert(loop_start.to_add()[i + 1] == x);
                        assert(loop_start.to_add().contains(x));
                        assert(x != k) by {
                            assert(loop_start.to_add()[0] == k);
                        }
                    }
                    if self.add_jobs().contains_key(x) {
                        assert(loop_start.to_add().contains(x));
                        let i = choose|i: int| 0 <= i < loop_start.to_add().len() && loop_start.to_add()[i] == x;
                        assert(i != 0);
                        assert(self.to_add()[i - 1] == x);
                    }
                }
            }
            assert(self.wf());
            let ghost after_pop = *self;
            proof {
                if ready0 {
                    assert(loop_start.add_jobs().contains_key(k));
                    assert(job.distinct_dependencies());
                }
            }
            self.force_add_job_and_dependencies(job, Ghost(Set::empty()));
            let ghost after_add = *self;
            proof {
                assert forall|x: u64| #[trigger] start.graph().contains_key(x) implies after_add.origin()[x] == start.origin()[x]
                    && (after_add.origin().contains_key(x) <==> start.origin().contains_key(x)) by {
                    assert(loop_start.graph().contains_key(x));
                    assert(after_pop.graph().contains_key(x));
                }
                if start.to_add().len() == 1 && !after_add.to_add().contains(f) {
                    if loop_start.to_add().contains(f) {
                        assert(loop_start.to_add().len() > 0);
                        assert(start.to_add().contains(loop_start.to_add()[0]));
                        assert(start.to_add()[0] == f);
                        assert(loop_start.to_add()[0] == f);
                        assert(k == f);
                        assert(!after_pop.graph().contains_key(f));
                        assert(job == start.add_jobs()[f]);
                    } else {
                        assert(loop_start.graph().contains_key(f)) by {
                            assert(start.to_add().contains(f)) by {
                                assert(start.to_add()[0] == f);
                            }
                        }
                        assert(after_pop.graph().contains_key(f));
                    }
                }
            }
            assert(after_add.advances(&loop_start)) by {
                assert forall|x: u64| #[trigger] after_add.to_add().contains(x) implies loop_start.to_add().contains(x) by {
                    assert(after_pop.to_add().contains(x));
                    let i = choose|i: int| 0 <= i < after_pop.to_add().len() && after_pop.to_add()[i] == x;
                    assert(loop_start.to_add()[i + 1] == x);
                }
                assert forall|x: u64| #[trigger] loop_start.to_add().contains(x) && !after_add.to_add().contains(x)
                    implies after_add.graph().contains_key(x) by {
                    if x != k {
                        let i = choose|i: int| 0 <= i < loop_start.to_add().len() && loop_start.to_add()[i] == x;
                        assert(i != 0) by {
                            assert(loop_start.to_add()[0] == k);
                        }
                        assert(after_pop.to_add()[i - 1] == x);
                        assert(after_pop.to_add().contains(x));
                    }
                }
                assert forall|x: u64| #[trigger] after_add.add_jobs().contains_key(x)
                    implies after_add.add_jobs()[x] == loop_start.add_jobs()[x] by {
                    assert(after_pop.add_jobs().contains_key(x));
                }
            }
            assert(hands_out(loop_start.status(), after_add.status(), Seq::<ManagerAction<I, O>>::empty()));
            proof {
                Self::lemma_advances_trans(&start, &loop_start, &after_add);
                Self::lemma_hands_out_trans(&start, &loop_start, &after_add, loop_actions.skip(start_actions.len() as int), Seq::empty());
                assert(loop_actions.skip(start_actions.len() as int) + Seq::<ManagerAction<I, O>>::empty() =~= loop_actions.skip(start_actions.len() as int));
            }
            proof {
                Self::lemma_to_add_shrinks(&loop_start, &after_pop, &after_add);
            }
            self.run_jobs_until_target(backlog, actions);
            proof {
                let n = dispatch_count(after_add.to_run().len(), loop_backlog as nat, after_add.target());
                if o0 {
                    lemma_origins_dispatch(after_add.graph(), after_add.status(), after_add.origin(), after_add.to_run().take(n as int));
                    let before_sent = loop_actions.skip(start_actions.len() as int);
                    assert forall|i: int| 0 <= i < before_sent.len() implies #[trigger] before_sent[i] is RunJob
                        && loop_start.graph().contains_key(run_key(before_sent[i])) by {
                        assert(loop_start.status().contains_key(run_key(before_sent[i])));
                    }
                    lemma_runs_carry_transfer(loop_start.origin(), after_add.origin(), loop_start.graph(), before_sent);
                    lemma_run_messages_carry_inputs(after_add.graph(), after_add.status(), after_add.origin(), after_add.to_run(), n as int);
                    let sent = run_messages(after_add.status(), after_add.to_run().take(n as int));
                    lemma_runs_carry_concat(after_add.origin(), before_sent, sent);
                    assert(actions@.skip(start_actions.len() as int) =~= before_sent + sent);
                }
                if start.to_add().len() == 1 && !self.to_add().contains(f) {
                    assert(self.to_add() == after_add.to_add());
                }
                if ready0 {
                    lemma_readiness_dispatch(after_add.graph(), after_add.status(), after_add.to_run(), Set::empty(), n as int);
                    let before_sent = loop_actions.skip(start_actions.len() as int);
                    assert forall|i: int| 0 <= i < before_sent.len() implies #[trigger] before_sent[i] is RunJob
                        && loop_start.graph().contains_key(run_key(before_sent[i])) by {
                        assert(loop_start.status().contains_key(run_key(before_sent[i])));
                    }
                    assert forall|x: u64| #[trigger] loop_start.graph().contains_key(x) implies self.graph().contains_key(x)
                        && self.graph()[x] == loop_start.graph()[x] by {
                        assert(after_pop.graph().contains_key(x));
                    }
                    assert forall|d: u64| #[trigger] loop_start.status().contains_key(d) && loop_start.status()[d] is Completed
                        implies self.status().contains_key(d) && self.status()[d] == loop_start.status()[d] by {
                        assert(after_pop.status().contains_key(d));
                        assert(after_add.status()[d] == loop_start.status()[d]);
                        if after_add.to_run().take(n as int).contains(d) {
                            let i = choose|i: int| 0 <= i < n && after_add.to_run().take(n as int)[i] == d;
                            assert(after_add.to_run()[i] == d);
                            assert(after_add.to_run().contains(d));
                        }
                    }
                    lemma_runs_carry_outputs_transfer(loop_start.graph(), loop_start.status(), self.graph(), self.status(), before_sent);
                    lemma_run_messages_carry_outputs(after_add.graph(), after_add.status(), after_add.to_run(), n as int);
                    let sent = run_messages(after_add.status(), after_add.to_run().take(n as int));
                    lemma_runs_carry_outputs_concat(self.graph(), self.status(), before_sent, sent);
                    assert(actions@.skip(start_actions.len() as int) =~= before_sent + sent);
                    assert forall|x: u64| #[trigger] self.add_jobs().contains_key(x) implies self.add_jobs()[x].distinct_dependencies() by {
                        assert(after_pop.add_jobs().contains_key(x));
                        assert(loop_start.add_jobs().contains_key(x));
                    }
                }
                Self::lemma_dispatch_advances(&after_add, self, n as int);
                Self::lemma_advances_trans(&start, &after_add, self);
                let sent = run_messages(after_add.status(), after_add.to_run().take(n as int));
                Self::lemma_hands_out_trans(&start, &after_add, self, loop_actions.skip(start_actions.len() as int), sent);
                assert(actions@ =~= loop_actions + sent);
                assert(actions@.skip(start_actions.len() as int) =~= loop_actions.skip(start_actions.len() as int) + sent);
                assert(actions@.take(start_actions.len() as int) =~= start_actions) by {
                    assert(loop_actions.take(start_actions.len() as int) == start_actions);
                }
                assert(actions@.take(first_actions.len() as int) =~= first_actions) by {
                    assert(loop_actions.take(first_actions.len() as int) == first_actions);
                }
            }
        }
    }

    /// Queues `job` to be added to the graph unless a job with its key is in the graph or waiting to be added
    /// already, and then hands out and adds jobs while fewer than the target number of jobs wait in the
    /// workers' channel, where `worker_backlog` jobs wait now. Returns the messages to send, in order. Every job
    /// that enters the graph enters as the job it was added as, with an edge to each of its dependencies labelled by
    /// the dependency key, and is handed out with its input ([`JobManager::origins_ok`]); when the add queue was
    /// empty and `job` leaves it, `job` is the job its key entered as. Jobs keep becoming ready only when their
    /// dependencies are done ([`JobManager::ready_ok`]) as long as no job in the dependency tree of `job` lists two
    /// dependencies with the same key.
    pub fn try_add_job(&mut self, job: J, worker_backlog: usize) -> (actions: Vec<ManagerAction<I, O>>)
        requires
            old(self).wf(),
        ensures
            final(self).wf(),
            old(self).ready_ok() && job.distinct_dependencies() ==> final(self).ready_ok(),
            old(self).ready_ok() && job.distinct_dependencies() ==> runs_carry_outputs(
                final(self).graph(),
                final(self).status(),
                actions@,
            ),
            old(self).origins_ok() ==> final(self).origins_ok(),
            old(self).origins_ok() ==> runs_carry_inputs(final(self).origin(), actions@),
            forall|x: u64| #[trigger] old(self).graph().contains_key(x) ==> final(self).origin()[x] == old(self).origin()[x]
                && (final(self).origin().contains_key(x) <==> old(self).origin().contains_key(x)),
            !old(self).graph().contains_key(job.spec_key()) && !old(self).add_jobs().contains_key(job.spec_key())
                && old(self).to_add().len() == 0 && !final(self).to_add().contains(job.spec_key()) ==> {
                &&& final(self).graph().contains_key(job.spec_key())
                &&& final(self).origin().contains_key(job.spec_key())
                &&& final(self).origin()[job.spec_key()] == job
            },
            final(self).target() == old(self).target(),
            old(self).graph().contains_key(job.spec_key()) || old(self).add_jobs().contains_key(job.spec_key()) ==> {
                &&& final(self).graph() == old(self).graph()
                &&& final(self).status() == old(self).status()
                &&& final(self).to_run() == old(self).to_run()
                &&& final(self).to_add() == old(self).to_add()
                &&& final(self).add_jobs() == old(self).add_jobs()
                &&& actions@.len() == 0
            },
            !old(self).graph().contains_key(job.spec_key()) && !old(self).add_jobs().contains_key(job.spec_key()) ==> {
                let k = job.spec_key();
                let to_add = old(self).to_add().push(k);
                let add_jobs = old(self).add_jobs().insert(k, job);
                &&& final(self).progressed(old(self).graph(), old(self).status(), old(self).to_run(), to_add, add_jobs)
                &&& hands_out(old(self).status(), final(self).status(), actions@)
                &&& first_dispatch(old(self).status(), old(self).to_run(), worker_backlog as nat, old(self).target(), actions@)
                &&& worker_backlog + actions@.len() >= final(self).target() || (final(self).to_run().len() == 0
                    && final(self).to_add().len() == 0)
                &&& worker_backlog < old(self).target() ==> worker_backlog + actions@.len() <= old(self).target()
                &&& worker_backlog >= old(self).target() ==> {
                    &&& final(self).graph() == old(self).graph()
                    &&& final(self).status() == old(self).status()
                    &&& final(self).to_run() == old(self).to_run()
                    &&& final(self).to_add() == to_add
                    &&& final(self).add_jobs() == add_jobs
                    &&& actions@.len() == 0
                }
            },
    {
        let mut actions: Vec<ManagerAction<I, O>> = Vec::new();
        let k = job.key();
        if self.job_status.contains_key(&k) {
            return actions;
        }
        if self.jobs_to_add.contains_key(&k) {
            return actions;
        }
        let ghost before = *self;
        proof {
            lemma_without_key(self.to_add(), k);
        }
        order_insert(&mut self.jobs_to_add_order, k);
        assert(without_key(before.to_add(), k) == before.to_add());
        self.jobs_to_add.insert(k, job);
        assert(self.to_add() =~= before.to_add().push(k));
        assert(add_queue_ok(self.to_add(), self.add_jobs(), self.graph())) by {
            assert forall|x: u64| #[trigger] self.to_add().contains(x) <==> self.add_jobs().contains_key(x) by {
                if x == k {
                    assert(self.to_add()[before.to_add().len() as int] == k);
                } else {
                    if self.to_add().contains(x) {
                        let i = choose|i: int| 0 <= i < self.to_add().len() && self.to_add()[i] == x;
                        assert(before.to_add()[i] == x);
                        assert(before.to_add().contains(x));
                    }
                    if self.add_jobs().contains_key(x) {
                        assert(before.add_jobs().contains_key(x));
                        assert(before.to_add().contains(x));
                        let i = choose|i: int| 0 <= i < before.to_add().len() && before.to_add()[i] == x;
                        assert(self.to_add()[i] == x);
                    }
                }
            }
        }
        assert(self.wf());
        let ghost mid = *self;
        proof {
            if before.ready_ok() && job.distinct_dependencies() {
                assert forall|x: u64| #[trigger] self.add_jobs().contains_key(x) implies self.add_jobs()[x].distinct_dependencies() by {
                    if x != k {
                        assert(before.add_jobs().contains_key(x));
                    }
                }
            }
        }
        let mut backlog = worker_backlog;
        self.run_and_add_jobs_until_target(&mut backlog, &mut actions);
        assert(actions@.skip(0) =~= actions@);
        assert(mid.add_jobs() == before.add_jobs().insert(k, job));
        proof {
            if before.to_add().len() == 0 {
                assert(mid.to_add().len() == 1);
                assert(mid.to_add()[0] == k);
                if !self.to_add().contains(k) {
                    assert(mid.to_add().contains(k));
                }
            }
        }
        assert(mid.to_add() == before.to_add().push(k));
        assert(mid.graph() == before.graph());
        assert(mid.status() == before.status());
        assert(self.advances(&mid));
        proof {
            let n = dispatch_count(mid.to_run().len(), worker_backlog as nat, mid.target());
            assert(actions@.subrange(0, n as int) =~= actions@.take(n as int));
        }
        actions
    }

    /// Handles the output that a worker returned for the job `k`: when `k` is running, hands a clone of the output
    /// to each pending job that depends on it, marks it completed with a clone of the output, notes its completion,
    /// and then hands out and adds jobs while fewer than the target number of jobs wait in the workers' channel,
    /// where `worker_backlog` jobs wait now. A job that is not running (it was removed, or removed and added again,
    /// while it ran) is left as it is. Returns the messages to send, in order. Jobs keep becoming ready only when
    /// their dependencies are done ([`JobManager::ready_ok`]).
    pub fn handle_job_completed(&mut self, k: u64, output: O, worker_backlog: usize) -> (actions: Vec<ManagerAction<I, O>>)
        requires
            old(self).wf(),
        ensures
            final(self).wf(),
            old(self).ready_ok() ==> final(self).ready_ok(),
            old(self).ready_ok() ==> runs_carry_outputs(final(self).graph(), final(self).status(), actions@),
            old(self).origins_ok() ==> final(self).origins_ok(),
            old(self).origins_ok() ==> runs_carry_inputs(final(self).origin(), actions@),
            forall|x: u64| #[trigger] old(self).graph().contains_key(x) ==> final(self).origin()[x] == old(self).origin()[x]
                && (final(self).origin().contains_key(x) <==> old(self).origin().contains_key(x)),
            final(self).target() == old(self).target(),
            !(old(self).status().contains_key(k) && old(self).status()[k] is Running) ==> {
                &&& final(self).graph() == old(self).graph()
                &&& final(self).status() == old(self).status()
                &&& final(self).to_run() == old(self).to_run()
                &&& final(self).to_add() == old(self).to_add()
                &&& final(self).add_jobs() == old(self).add_jobs()
                &&& actions@.len() == 0
            },
            old(self).status().contains_key(k) && old(self).status()[k] is Running ==> {
                let head = seq![ManagerAction::Notify(JobQueueMessage::JobCompleted(k, output))]
                    + queue_empty_notice::<I, O>(
                    pending_keys(old(self).status()).len(),
                    (running_keys(old(self).status()).len() - 1) as nat,
                );
                &&& head.len() <= actions@.len()
                &&& actions@.take(head.len() as int) == head
                &&& exists|mid: Map<u64, JobStatus<I, O>>, mid_to_run: Seq<u64>|
                    #![trigger completion_applied(old(self).status(), old(self).graph(), k, output, mid), ready_after_completion(old(self).to_run(), old(self).status(), old(self).graph(), k, mid_to_run)]
                    completion_applied(old(self).status(), old(self).graph(), k, output, mid)
                        && ready_after_completion(old(self).to_run(), old(self).status(), old(self).graph(), k, mid_to_run)
                        && final(self).progressed(
                        old(self).graph(),
                        mid,
                        mid_to_run,
                        old(self).to_add(),
                        old(self).add_jobs(),
                    ) && hands_out(mid, final(self).status(), actions@.skip(head.len() as int))
                        && first_dispatch(mid, mid_to_run, worker_backlog as nat, old(self).target(), actions@.skip(head.len() as int))
                &&& worker_backlog + (actions@.len() - head.len()) >= final(self).target() || (
                    final(self).to_run().len() == 0 && final(self).to_add().len() == 0)
                &&& worker_backlog < old(self).target() ==> worker_backlog + (actions@.len() - head.len())
                    <= old(self).target()
            },
    {
        let mut actions: Vec<ManagerAction<I, O>> = Vec::new();
        let running = match self.job_status.get(&k) {
            Some(JobStatus::Running) => true,
            _ => false,
        };
        if !running {
            return actions;
        }
        let ghost start = *self;
        let dependers = graph_incoming(&self.job_graph, k);
        let mut i: usize = 0;
        while i < dependers.len()
            invariant
                self.wf(),
                start.wf(),
                self.graph() == start.graph(),
                self.origin() == start.origin(),
                self.to_add() == start.to_add(),
                self.add_jobs() == start.add_jobs(),
                self.target() == start.target(),
                dependers@.no_duplicates(),
                forall|a: u64| dependers@.contains(a) <==> has_edge(start.graph(), a, k),
                0 <= i <= dependers.len(),
                self.status().dom() == start.status().dom(),
                start.status().contains_key(k),
                start.status()[k] is Running,
                self.status()[k] == start.status()[k],
                forall|x: u64| #[trigger]
                    self.to_run().contains(x) <==> start.to_run().contains(x) || (dependers@.take(i as int).contains(x)
                        && x != k && start.status().contains_key(x) && has_edge(start.graph(), x, k)
                        && start.status()[x] is Pending && pending_outputs(start.status()[x])@.len() + 1 == out_edges(
                        start.graph(),
                        x,
                    ).len()),
                forall|j: u64|
                    j != k && #[trigger] start.status().contains_key(j) ==> (if dependers@.take(i as int).contains(j) {
                        output_handed(start.status()[j], start.graph(), j, k, output, self.status()[j])
                    } else {
                        self.status()[j] == start.status()[j]
                    }),
            decreases dependers.len() - i,
        {
            let d = dependers[i];
            let ghost before = *self;
            assert(!dependers@.take(i as int).contains(d)) by {
                if dependers@.take(i as int).contains(d) {
                    let a = choose|a: int| 0 <= a < i && dependers@.take(i as int)[a] == d;
                    assert(dependers@[a] == dependers@[i as int]);
                }
            }
            assert(dependers@.contains(d)) by {
                assert(dependers@[i as int] == d);
            }
            proof {
                lemma_without_key(self.to_run(), d);
            }
            self.try_make_job_ready_to_run(d, k, &output);
            let ghost t0 = dependers@.take(i as int);
            let ghost t1 = dependers@.take(i + 1);
            assert forall|j: u64| #[trigger] t1.contains(j) <==> t0.contains(j) || j == d by {
                if t1.contains(j) {
                    let a = choose|a: int| 0 <= a < t1.len() && t1[a] == j;
                    if a < i {
                        assert(t0[a] == j);
                    }
                }
                if t0.contains(j) {
                    let a = choose|a: int| 0 <= a < t0.len() && t0[a] == j;
                    assert(t1[a] == j);
                }
                if j == d {
                    assert(t1[i as int] == j);
                }
            }
            assert(has_edge(start.graph(), d, k));
            assert(d != k ==> before.status()[d] == start.status()[d]);
            assert forall|x: u64| #[trigger]
                self.to_run().contains(x) <==> start.to_run().contains(x) || (t1.contains(x) && x != k
                    && start.status().contains_key(x) && has_edge(start.graph(), x, k) && start.status()[x] is Pending
                    && pending_outputs(start.status()[x])@.len() + 1 == out_edges(start.graph(), x).len()) by {
                if before.status()[d] is Pending {
                    assert(d != k);
                    let after_len = pending_outputs(self.status()[d])@.len();
                    if after_len == out_edges(before.graph(), d).len() {
                        let w = without_key(before.to_run(), d);
                        assert(self.to_run() == w.push(d));
                        if x == d {
                            assert(w.push(d)[w.len() as int] == d);
                            assert(t1.contains(x));
                        } else {
                            if self.to_run().contains(x) {
                                let i2 = choose|i2: int| 0 <= i2 < self.to_run().len() && self.to_run()[i2] == x;
                                assert(i2 < w.len());
                                assert(w[i2] == x);
                                assert(w.contains(x));
                            }
                            if before.to_run().contains(x) {
                                assert(w.contains(x));
                                let i2 = choose|i2: int| 0 <= i2 < w.len() && w[i2] == x;
                                assert(self.to_run()[i2] == x);
                            }
                        }
                    } else {
                        assert(self.to_run() == before.to_run());
                    }
                } else {
                    assert(self.to_run() == before.to_run());
                }
            }
            i = i + 1;
        }
        assert(dependers@.take(dependers.len() as int) =~= dependers@);
        let ghost after_loop = *self;
        assert(pending_keys(after_loop.status()) =~= pending_keys(start.status())) by {
            assert forall|j: u64| #[trigger] after_loop.status().contains_key(j) implies (after_loop.status()[j] is Pending
                <==> start.status()[j] is Pending) by {
                if j != k && dependers@.contains(j) {
                    assert(output_handed(start.status()[j], start.graph(), j, k, output, after_loop.status()[j]));
                }
            }
        }
        assert(running_keys(after_loop.status()) =~= running_keys(start.status())) by {
            assert forall|j: u64| #[trigger] after_loop.status().contains_key(j) implies (after_loop.status()[j] is Running
                <==> start.status()[j] is Running) by {
                if j != k && dependers@.contains(j) {
                    assert(output_handed(start.status()[j], start.graph(), j, k, output, after_loop.status()[j]));
                }
            }
        }
        self.complete_job(k, output, &mut actions);
        let ghost mid = *self;
        assert(completion_applied(start.status(), start.graph(), k, output, mid.status())) by {
            assert forall|j: u64| j != k && #[trigger] start.status().contains_key(j) implies output_handed(
                start.status()[j],
                start.graph(),
                j,
                k,
                output,
                mid.status()[j],
            ) by {
                if !dependers@.contains(j) {
                    assert(!has_edge(start.graph(), j, k));
                }
            }
        }
        assert(ready_after_completion(start.to_run(), start.status(), start.graph(), k, mid.to_run()));
        proof {
            if start.ready_ok() {
                lemma_readiness_completion(start.graph(), start.status(), start.to_run(), k, output, mid.status(), mid.to_run());
            }
            if start.origins_ok() {
                lemma_origins_completion(start.graph(), start.status(), start.origin(), k, output, mid.status());
            }
        }
        let ghost head = actions@;
        let mut backlog = worker_backlog;
        self.run_and_add_jobs_until_target(&mut backlog, &mut actions);
        assert(self.advances(&mid));
        proof {
            let n = dispatch_count(mid.to_run().len(), worker_backlog as nat, mid.target());
            assert(actions@.subrange(head.len() as int, (head.len() + n) as int) =~= actions@.skip(head.len() as int).take(
                n as int,
            ));
        }
        assert(head =~= seq![ManagerAction::Notify(JobQueueMessage::JobCompleted(k, output))] + queue_empty_notice::<I, O>(
            pending_keys(start.status()).len(),
            (running_keys(start.status()).len() - 1) as nat,
        ));
        proof {
            if start.origins_ok() {
                let rest = actions@.skip(head.len() as int);
                assert(runs_carry_inputs(self.origin(), head)) by {
                    assert forall|i: int| 0 <= i < head.len() implies !(#[trigger] head[i] is RunJob) by {
                        if i > 0 {
                            assert(head[i] == ManagerAction::<I, O>::Notify(JobQueueMessage::QueueEmpty));
                        }
                    }
                }
                lemma_runs_carry_concat(self.origin(), head, rest);
                assert(actions@ =~= head + rest) by {
                    assert(actions@.take(head.len() as int) == head);
                }
            }
            if start.ready_ok() {
                let rest = actions@.skip(head.len() as int);
                assert(runs_carry_outputs(self.graph(), self.status(), head)) by {
                    assert forall|i: int| 0 <= i < head.len() implies !(#[trigger] head[i] is RunJob) by {
                        if i > 0 {
                            assert(head[i] == ManagerAction::<I, O>::Notify(JobQueueMessage::QueueEmpty));
                        }
                    }
                }
                lemma_runs_carry_outputs_concat(self.graph(), self.status(), head, rest);
                assert(actions@ =~= head + rest) by {
                    assert(actions@.take(head.len() as int) == head);
                }
            }
        }
        actions
    }

    /// Takes the job `x`, on which no job depends, out of the graph and the ready queue, notes its removal, and
    /// counts one pending or running job less when it was pending or running.
    fn remove_job(&mut self, x: u64, actions: &mut Vec<ManagerAction<I, O>>)
        requires
            old(self).wf(),
            old(self).graph().contains_key(x),
            forall|y: u64| !has_edge(old(self).graph(), y, x),
        ensures
            final(self).wf(),
            final(self).origin() == old(self).origin(),
            final(self).target() == old(self).target(),
            final(self).to_add() == old(self).to_add(),
            final(self).add_jobs() == old(self).add_jobs(),
            final(self).graph() == without_node(old(self).graph(), x),
            final(self).status() == old(self).status().remove(x),
            final(self).to_run() == without_key(old(self).to_run(), x),
            final(actions)@ == old(actions)@.push(removal_message(x, old(self).status()[x])) + (if old(
                self,
            ).status()[x] is Completed {
                Seq::<ManagerAction<I, O>>::empty()
            } else {
                queue_empty_notice::<I, O>(
                    pending_keys(final(self).status()).len(),
                    running_keys(final(self).status()).len(),
                )
            }),
    {
        let ghost old_status = self.status();
        let ghost g = self.graph();
        proof {
            lemma_status_insert(old_status, x, old_status[x]);
            lemma_without_key(self.to_run(), x);
            assert(pending_keys(old_status.remove(x)) =~= pending_keys(old_status).remove(x));
            assert(running_keys(old_status.remove(x)) =~= running_keys(old_status).remove(x));
        }
        graph_remove_node(&mut self.job_graph, x);
        order_remove(&mut self.jobs_to_run, x);
        let status = self.job_status.remove(&x);
        assert(self.status() == old_status.remove(x));
        let ghost ng = self.graph();
        assert(edges_closed(ng)) by {
            assert forall|a: u64, b: u64| #[trigger] has_edge(ng, a, b) implies ng.contains_key(b) by {
                assert(ng[a] == g[a].remove(x));
                assert(has_edge(g, a, b));
            }
        }
        assert(self.status().dom() =~= ng.dom());
        assert(add_queue_ok(self.to_add(), self.add_jobs(), ng));
        assert(run_queue_ok(self.to_run(), self.status())) by {
            assert forall|y: u64| #[trigger] self.to_run().contains(y) implies self.status().contains_key(y)
                && self.status()[y] is Pending by {
                assert(old_status.contains_key(y));
            }
        }
        match status {
            Some(JobStatus::Pending(input, outputs)) => {
                assert(pending_keys(old_status).contains(x));
                actions.push(ManagerAction::Notify(JobQueueMessage::PendingJobRemoved(x, input)));
                self.decrement_pending_jobs(actions);
            },
            Some(JobStatus::Running) => {
                assert(running_keys(old_status).contains(x));
                actions.push(ManagerAction::Notify(JobQueueMessage::RunningJobRemoved(x)));
                self.decrement_running_jobs(actions);
            },
            Some(JobStatus::Completed(output)) => {
                actions.push(ManagerAction::Notify(JobQueueMessage::CompletedJobRemoved(x, output)));
            },
            None => {},
        }
        assert(self.wf());
    }

    /// Removes the job `job_key`: when it waits to be added, it leaves the add queue; when it is in the graph and no
    /// job depends on it, it leaves the graph, and so do its dependencies, breadth first: each dependency of a job
    /// that left is looked at once, and leaves when no job that is still in the graph depends on it by then. Returns
    /// the notices to send, in order. Jobs keep becoming ready only when their dependencies are done
    /// ([`JobManager::ready_ok`]).
    pub fn try_remove_job_and_orphaned_dependencies(&mut self, job_key: u64) -> (actions: Vec<ManagerAction<I, O>>)
        requires
            old(self).wf(),
        ensures
            final(self).wf(),
            old(self).ready_ok() ==> final(self).ready_ok(),
            old(self).origins_ok() ==> final(self).origins_ok(),
            final(self).origin() == old(self).origin(),
            final(self).target() == old(self).target(),
            old(self).add_jobs().contains_key(job_key) ==> {
                &&& final(self).graph() == old(self).graph()
                &&& final(self).status() == old(self).status()
                &&& final(self).to_run() == old(self).to_run()
                &&& final(self).to_add() == without_key(old(self).to_add(), job_key)
                &&& final(self).add_jobs() == old(self).add_jobs().remove(job_key)
                &&& actions@.len() == 0
            },
            !old(self).add_jobs().contains_key(job_key) && !old(self).graph().contains_key(job_key) ==> {
                &&& final(self).graph() == old(self).graph()
                &&& final(self).status() == old(self).status()
                &&& final(self).to_run() == old(self).to_run()
                &&& final(self).to_add() == old(self).to_add()
                &&& final(self).add_jobs() == old(self).add_jobs()
                &&& actions@.len() == 0
            },
            old(self).graph().contains_key(job_key) ==> exists|removed: Seq<u64>, considered: Seq<u64>, removed_at: Seq<int>|
                #[trigger] removal_outcome(old(self).graph(), job_key, removed, considered, removed_at) && {
                    &&& (removed.len() == 0 <==> exists|y: u64| has_edge(old(self).graph(), y, job_key))
                    &&& final(self).graph() == without_nodes(old(self).graph(), removed)
                    &&& final(self).status() == old(self).status().remove_keys(removed.to_set())
                    &&& final(self).to_run() == without_keys(old(self).to_run(), removed)
                    &&& final(self).to_add() == old(self).to_add()
                    &&& final(self).add_jobs() == old(self).add_jobs()
                    &&& actions@ == removal_actions(old(self).status(), removed)
                },
    {
        let mut actions: Vec<ManagerAction<I, O>> = Vec::new();
        if self.jobs_to_add.contains_key(&job_key) {
            proof {
                lemma_without_key(self.to_add(), job_key);
            }
            order_remove(&mut self.jobs_to_add_order, job_key);
            self.jobs_to_add.remove(&job_key);
            assert(add_queue_ok(self.to_add(), self.add_jobs(), self.graph()));
            return actions;
        }
        if !self.job_status.contains_key(&job_key) {
            return actions;
        }
        let ghost start = *self;
        let ghost g = start.graph();
        let ghost mut removed: Seq<u64> = Seq::empty();
        let ghost mut rpos: Seq<int> = Seq::empty();
        let ghost mut qparent: Seq<int> = seq![0int];
        let ghost mut removed_at: Seq<int> = Seq::empty();
        let ghost mut keeper: Seq<u64> = Seq::empty();
        let mut queue: Vec<u64> = Vec::new();
        queue.push(job_key);
        let mut discovered: HashSet<u64> = HashSet::new();
        discovered.insert(job_key);
        let mut idx: usize = 0;
        assert(without_nodes(g, removed) == g);
        assert(start.status().remove_keys(removed.to_set()) =~= start.status());
        assert(without_keys(start.to_run(), removed) == start.to_run());
        assert(actions@ =~= removal_actions(start.status(), removed));
        proof {
            reveal(bfs_state);
            assert forall|d: u64| #[trigger] discovered@.contains(d) <==> queue@.contains(d) by {
                if d == job_key {
                    assert(queue@[0] == d);
                }
            }
        }
        while idx < queue.len()
            invariant
                self.wf(),
                start.wf(),
                g == start.graph(),
                g.contains_key(job_key),
                edges_closed(g),
                self.target() == start.target(),
                self.to_add() == start.to_add(),
                self.add_jobs() == start.add_jobs(),
                self.graph() == without_nodes(g, removed),
                self.status() == start.status().remove_keys(removed.to_set()),
                self.to_run() == without_keys(start.to_run(), removed),
                self.origin() == start.origin(),
                actions@ == removal_actions(start.status(), removed),
                bfs_state(g, job_key, removed, rpos, queue@, qparent, removed_at, keeper, idx as int),
                forall|d: u64| #[trigger] discovered@.contains(d) <==> queue@.contains(d),
                idx >= 1 && removed.len() == 0 ==> exists|w: u64| has_edge(g, w, job_key),
            decreases self.status().dom().len(), queue.len() - idx,
        {
            let x = queue[idx];
            let ghost old_idx = idx as int;
            proof {
                lemma_bfs_entry(g, job_key, removed, rpos, queue@, qparent, removed_at, keeper, old_idx);
                lemma_without_nodes(g, removed);
            }
            idx = idx + 1;
            let dependers = graph_incoming(&self.job_graph, x);
            if dependers.len() > 0 {
                let y = dependers[0];
                proof {
                    assert(dependers@.contains(y)) by {
                        assert(dependers@[0] == y);
                    }
                    lemma_bfs_keep(g, job_key, removed, rpos, queue@, qparent, removed_at, keeper, old_idx, y);
                    removed_at = removed_at.push(removed.len() as int);
                    keeper = keeper.push(y);
                }
                continue;
            }
            let dependencies = graph_outgoing(&self.job_graph, x);
            let ghost before = *self;
            let ghost before_removed = removed;
            let ghost before_queue = queue@;
            assert forall|y: u64| !has_edge(before.graph(), y, x) by {
                if has_edge(before.graph(), y, x) {
                    assert(dependers@.contains(y));
                }
            }
            assert forall|y: u64| #[trigger] has_edge(g, y, x) implies removed.contains(y) by {
                if !removed.contains(y) {
                    assert(has_edge(before.graph(), y, x));
                }
            }
            assert forall|d: u64| #[trigger] dependencies@.contains(d) <==> has_edge(g, x, d) && !removed.contains(d) by {
                if has_edge(g, x, d) && !removed.contains(d) {
                    assert(has_edge(before.graph(), x, d));
                }
            }
            self.remove_job(x, &mut actions);
            let ghost mut added: Seq<u64> = Seq::empty();
            let mut i: usize = 0;
            while i < dependencies.len()
                invariant
                    0 <= i <= dependencies.len(),
                    dependencies@.no_duplicates(),
                    queue@ == before_queue + added,
                    added.no_duplicates(),
                    forall|d: u64| #[trigger]
                        added.contains(d) <==> dependencies@.take(i as int).contains(d) && !before_queue.contains(d),
                    forall|d: u64| #[trigger] discovered@.contains(d) <==> queue@.contains(d),
                decreases dependencies.len() - i,
            {
                let d = dependencies[i];
                let ghost t0 = dependencies@.take(i as int);
                let ghost t1 = dependencies@.take(i + 1);
                assert(!t0.contains(d)) by {
                    if t0.contains(d) {
                        let a = choose|a: int| 0 <= a < t0.len() && t0[a] == d;
                        assert(dependencies@[a] == dependencies@[i as int]);
                    }
                }
                assert forall|e: u64| #[trigger] t1.contains(e) <==> t0.contains(e) || e == d by {
                    if t1.contains(e) {
                        let a = choose|a: int| 0 <= a < t1.len() && t1[a] == e;
                        if a < i {
                            assert(t0[a] == e);
                        }
                    }
                    if t0.contains(e) {
                        let a = choose|a: int| 0 <= a < t0.len() && t0[a] == e;
                        assert(t1[a] == e);
                    }
                    if e == d {
                        assert(t1[i as int] == e);
                    }
                }
                let ghost queue_before_push = queue@;
                assert forall|e: u64| #[trigger] queue_before_push.contains(e) <==> before_queue.contains(e)
                    || added.contains(e) by {
                    if queue_before_push.contains(e) {
                        let q = choose|q: int| 0 <= q < queue_before_push.len() && queue_before_push[q] == e;
                        if q >= before_queue.len() {
                            assert(added[q - before_queue.len()] == e);
                        }
                    }
                    if before_queue.contains(e) {
                        let q = choose|q: int| 0 <= q < before_queue.len() && before_queue[q] == e;
                        assert(queue_before_push[q] == e);
                    }
                    if added.contains(e) {
                        let m = choose|m: int| 0 <= m < added.len() && added[m] == e;
                        assert(queue_before_push[before_queue.len() + m] == e);
                    }
                }
                if !discovered.contains(&d) {
                    discovered.insert(d);
                    queue.push(d);
                    proof {
                        let a0 = added;
                        added = added.push(d);
                        assert(queue@ =~= before_queue + added);
                        assert forall|e: u64| #[trigger] added.contains(e) <==> a0.contains(e) || e == d by {
                            if added.contains(e) {
                                let m = choose|m: int| 0 <= m < added.len() && added[m] == e;
                                if m < a0.len() {
                                    assert(a0[m] == e);
                                }
                            }
                            if a0.contains(e) {
                                let m = choose|m: int| 0 <= m < a0.len() && a0[m] == e;
                                assert(added[m] == e);
                            }
                            if e == d {
                                assert(added[a0.len() as int] == e);
                            }
                        }
                        assert(added.no_duplicates()) by {
                            assert forall|a: int, b: int| 0 <= a < added.len() && 0 <= b < added.len() && a != b implies added[a]
                                != added[b] by {
                                if a == a0.len() {
                                    assert(a0.contains(added[b]));
                                } else if b == a0.len() {
                                    assert(a0.contains(added[a]));
                                }
                            }
                        }
                        assert forall|e: u64| #[trigger] discovered@.contains(e) <==> queue@.contains(e) by {
                            if queue@.contains(e) && e != d {
                                let q = choose|q: int| 0 <= q < queue@.len() && queue@[q] == e;
                                assert(queue_before_push[q] == e);
                            }
                            if e == d {
                                assert(queue@[queue_before_push.len() as int] == d);
                            }
                            if queue_before_push.contains(e) {
                                let q = choose|q: int| 0 <= q < queue_before_push.len() && queue_before_push[q] == e;
                                assert(queue@[q] == e);
                            }
                        }
                    }
                }
                i = i + 1;
            }
            assert(dependencies@.take(dependencies.len() as int) =~= dependencies@);
            proof {
                lemma_bfs_take_out(
                    g,
                    job_key,
                    before_removed,
                    rpos,
                    before_queue,
                    qparent,
                    removed_at,
                    keeper,
                    old_idx,
                    dependencies@,
                    added,
                );
                removed = before_removed.push(x);
                rpos = rpos.push(old_idx);
                qparent = qparent + Seq::new(added.len(), |m: int| before_removed.len() as int);
                removed_at = removed_at.push(before_removed.len() as int);
                keeper = keeper.push(x);
                assert(removed.drop_last() =~= before_removed);
                assert(removed.last() == x);
                assert(removed.to_set() =~= before_removed.to_set().insert(x));
                assert(start.status().remove_keys(removed.to_set()) =~= before.status().remove(x));
                assert(start.status()[x] == before.status()[x]);
                assert(before.status().contains_key(x));
                assert(self.status().dom() =~= before.status().dom().remove(x));
            }
        }
        proof {
            lemma_bfs_done(g, job_key, removed, rpos, queue@, qparent, removed_at, keeper);
            if start.ready_ok() {
                lemma_readiness_removal(g, start.status(), start.to_run(), job_key, removed, queue@, removed_at);
            }
            if start.origins_ok() {
                lemma_origins_removal(g, start.status(), start.origin(), job_key, removed, queue@, removed_at);
            }
        }
        actions
    }
}

} // verus!
