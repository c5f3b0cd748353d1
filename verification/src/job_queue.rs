//! A job queue whose jobs may depend on the outputs of other jobs.
//!
//! Jobs are known by `u64` keys, and a job names its dependencies by `u64` dependency keys. The decisions of the
//! queue's manager stand in [`manager`]: what to do when a job is added, when a worker finishes a job, and when a
//! job is removed. The threads and channels that carry its messages stand outside this library.
use vstd::prelude::*;

pub mod graph;
pub mod manager;
pub mod order;

verus! {

/// A message from the job queue's manager to the owner of the queue.
pub enum JobQueueMessage<JK, I, O> {
    /// The job with this key completed with this output.
    JobCompleted(JK, O),
    /// The job with this key was removed before it ran; its input is handed back.
    PendingJobRemoved(JK, I),
    /// The job with this key was removed while it was running; its output will be dropped.
    RunningJobRemoved(JK),
    /// The job with this key was removed after it completed; its output is handed back.
    CompletedJobRemoved(JK, O),
    /// No job is pending or running anymore.
    QueueEmpty,
}

/// A job: it has a key, and it splits into its input and its dependencies, each a dependency key with a job.
///
/// Dependencies must bottom out: every dependency of a job has a smaller dependency depth than the job itself.
pub trait Job<I>: Sized {
    /// The key of this job.
    spec fn spec_key(&self) -> u64;

    /// How deep the dependencies of this job go.
    spec fn dependency_depth(&self) -> nat;

    /// The input of this job.
    spec fn job_input(&self) -> I;

    /// The dependencies of this job, each under its dependency key.
    spec fn job_dependencies(&self) -> Seq<(u64, Self)>;

    /// No job in the dependency tree of this job lists two dependencies with the same key.
    spec fn distinct_dependencies(&self) -> bool;

    /// The key of this job.
    fn key(&self) -> (key: u64)
        ensures
            key == self.spec_key(),
    ;

    /// Splits this job into its input and its dependencies.
    fn into(self) -> (parts: (I, Vec<(u64, Self)>))
        ensures
            parts.0 == self.job_input(),
            parts.1@ == self.job_dependencies(),
            self.distinct_dependencies() ==> forall|a: int, b: int|
                0 <= a < b < parts.1.len() ==> #[trigger] parts.1[a].1.spec_key() != #[trigger] parts.1[b].1.spec_key(),
            self.distinct_dependencies() ==> forall|i: int|
                0 <= i < parts.1.len() ==> #[trigger] parts.1[i].1.distinct_dependencies(),
            forall|i: int|
                0 <= i < parts.1.len() ==> #[trigger] parts.1[i].1.dependency_depth() < self.dependency_depth(),
    ;
}

/// A job given by value: its key, its input, and its dependencies, each under its dependency key. Its depth is one
/// more than the deepest of its dependencies.
pub struct JobTree<I> {
    key: u64,
    input: I,
    dependencies: Vec<(u64, JobTree<I>)>,
    depth: u64,
}

impl<I> JobTree<I> {
    /// Every dependency is less deep than the job.
    #[verifier::type_invariant]
    spec fn dependencies_less_deep(self) -> bool {
        forall|i: int| 0 <= i < self.dependencies@.len() ==> #[trigger] self.dependencies@[i].1.depth < self.depth
    }

    /// The key of this job.
    pub closed spec fn spec_job_key(&self) -> u64 {
        self.key
    }

    /// The input of this job.
    pub closed spec fn spec_input(&self) -> I {
        self.input
    }

    /// The dependencies of this job, each under its dependency key.
    pub closed spec fn spec_dependencies(&self) -> Seq<(u64, JobTree<I>)> {
        self.dependencies@
    }

    /// No job in the dependency tree of this job lists two dependencies with the same key.
    pub closed spec fn keys_distinct(&self) -> bool
        decreases self,
    {
        &&& forall|a: int, b: int|
            0 <= a < b < self.dependencies@.len() ==> #[trigger] self.dependencies@[a].1.key != #[trigger] self.dependencies@[
                b
            ].1.key
        &&& forall|i: int| 0 <= i < self.dependencies@.len() ==> (#[trigger] self.dependencies@[i]).1.keys_distinct()
    }

    /// When no job in the dependency tree of this job lists two dependencies with the same key, the dependencies
    /// of this job have distinct keys and none of them lists two dependencies with the same key.
    pub proof fn lemma_keys_distinct(&self)
        ensures
            self.keys_distinct() ==> (forall|a: int, b: int|
                0 <= a < b < self.spec_dependencies().len() ==> #[trigger] self.spec_dependencies()[a].1.spec_job_key()
                    != #[trigger] self.spec_dependencies()[b].1.spec_job_key()),
            self.keys_distinct() ==> (forall|i: int|
                0 <= i < self.spec_dependencies().len() ==> #[trigger] self.spec_dependencies()[i].1.keys_distinct()),
            (forall|a: int, b: int|
                0 <= a < b < self.spec_dependencies().len() ==> #[trigger] self.spec_dependencies()[a].1.spec_job_key()
                    != #[trigger] self.spec_dependencies()[b].1.spec_job_key()) && (forall|i: int|
                0 <= i < self.spec_dependencies().len() ==> #[trigger] self.spec_dependencies()[i].1.keys_distinct())
                ==> self.keys_distinct(),
    {
        let d = self.dependencies@;
        reveal_with_fuel(JobTree::keys_distinct, 2);
        if self.keys_distinct() {
            assert forall|i: int| 0 <= i < d.len() implies #[trigger] d[i].1.keys_distinct() by {
                assert(self.dependencies@[i].1.keys_distinct());
            }
            assert forall|a: int, b: int| 0 <= a < b < d.len() implies #[trigger] d[a].1.spec_job_key()
                != #[trigger] d[b].1.spec_job_key() by {
                assert(d[a].1.key != d[b].1.key);
            }
        }
        if (forall|a: int, b: int|
            0 <= a < b < self.spec_dependencies().len() ==> #[trigger] self.spec_dependencies()[a].1.spec_job_key()
                != #[trigger] self.spec_dependencies()[b].1.spec_job_key()) && (forall|i: int|
            0 <= i < self.spec_dependencies().len() ==> #[trigger] self.spec_dependencies()[i].1.keys_distinct()) {
            assert forall|a: int, b: int| 0 <= a < b < d.len() implies #[trigger] d[a].1.key != #[trigger] d[b].1.key by {
                assert(self.spec_dependencies()[a].1.spec_job_key() != self.spec_dependencies()[b].1.spec_job_key());
            }
            assert forall|i: int| 0 <= i < self.dependencies@.len() implies (#[trigger] self.dependencies@[i]).1.keys_distinct() by {
                assert(self.spec_dependencies()[i].1.keys_distinct());
            }
            assert(self.keys_distinct());
        }
    }

    /// How deep the dependencies of this job go.
    pub closed spec fn depth(&self) -> nat {
        self.depth as nat
    }

    /// The depth of a job with the dependencies `deps`: one more than the deepest of them, and zero without any.
    pub open spec fn depth_of(deps: Seq<(u64, JobTree<I>)>) -> nat
        decreases deps.len(),
    {
        if deps.len() == 0 {
            0
        } else {
            let rest = Self::depth_of(deps.drop_last());
            let last = deps.last().1.depth() + 1;
            if last > rest {
                last
            } else {
                rest
            }
        }
    }

    /// The job with `key` and `input` that depends on `dependencies`, each under its dependency key.
    pub fn new(key: u64, input: I, dependencies: Vec<(u64, JobTree<I>)>) -> (r: Self)
        requires
            forall|i: int| 0 <= i < dependencies@.len() ==> #[trigger] dependencies@[i].1.depth() < u64::MAX,
        ensures
            r.spec_job_key() == key,
            r.spec_input() == input,
            r.spec_dependencies() == dependencies@,
            r.depth() == Self::depth_of(dependencies@),
    {
        let mut depth: u64 = 0;
        let mut i: usize = 0;
        while i < dependencies.len()
            invariant
                0 <= i <= dependencies.len(),
                forall|j: int| 0 <= j < dependencies@.len() ==> #[trigger] dependencies@[j].1.depth() < u64::MAX,
                forall|j: int| 0 <= j < i ==> #[trigger] dependencies@[j].1.depth < depth,
                depth == Self::depth_of(dependencies@.take(i as int)),
            decreases dependencies.len() - i,
        {
            let d = dependencies[i].1.depth;
            assert(dependencies@[i as int].1.depth() < u64::MAX);
            assert(dependencies@.take(i + 1).drop_last() =~= dependencies@.take(i as int));
            if d >= depth {
                depth = d + 1;
            }
            i = i + 1;
        }
        assert(dependencies@.take(i as int) =~= dependencies@);
        JobTree { key, input, dependencies, depth }
    }
}

impl<I> Job<I> for JobTree<I> {
    open spec fn spec_key(&self) -> u64 {
        self.spec_job_key()
    }

    open spec fn dependency_depth(&self) -> nat {
        self.depth()
    }

    open spec fn distinct_dependencies(&self) -> bool {
        self.keys_distinct()
    }

    open spec fn job_input(&self) -> I {
        self.spec_input()
    }

    open spec fn job_dependencies(&self) -> Seq<(u64, JobTree<I>)> {
        self.spec_dependencies()
    }

    fn key(&self) -> (key: u64) {
        self.key
    }

    fn into(self) -> (parts: (I, Vec<(u64, Self)>)) {
        proof {
            use_type_invariant(&self);
            self.lemma_keys_distinct();
        }
        (self.input, self.dependencies)
    }
}

/// What runs a job: given the job's key, its input and the outputs of its dependencies, each with its dependency
/// key, it returns the job's output.
pub trait Handler<JK, DK, I, O>: FnMut(JK, I, &[(DK, O)]) -> O + Clone + Send + 'static {}

impl<T, JK, DK, I, O> Handler<JK, DK, I, O> for T where T: FnMut(JK, I, &[(DK, O)]) -> O + Clone + Send + 'static {}

/// What a job key is: a small value that can be copied, compared, ordered, hashed and sent to other threads.
pub trait JobKey: Send + Copy + Eq + Ord + std::hash::Hash + std::fmt::Debug + 'static {}

impl<T> JobKey for T where T: Send + Copy + Eq + Ord + std::hash::Hash + std::fmt::Debug + 'static {}

/// What a dependency key is: a small value that can be copied and sent to other threads.
pub trait DepKey: Send + Copy + std::fmt::Debug + 'static {}

impl<T> DepKey for T where T: Send + Copy + std::fmt::Debug + 'static {}

/// What a job input is: a value that can be sent to other threads.
pub trait In: Send + 'static {}

impl<T> In for T where T: Send + 'static {}

/// What a job output is: a value that can be cloned and sent to other threads.
pub trait Out: Send + Clone + 'static {}

impl<T> Out for T where T: Send + Clone + 'static {}

} // verus!
