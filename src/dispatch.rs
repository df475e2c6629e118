use vstd::prelude::*;
use crate::request::RenderJob;

verus! {

/// What a render produced: the pixels, or why it failed.
pub type RenderOutcome = Result<Vec<u8>, String>;

/// Why the dispatcher turned a step down.
#[derive(PartialEq, Eq, Structural, Debug, Clone, Copy)]
pub enum DispatchError {
    /// The bounded queue holds as many jobs as it may.
    QueueFull,
    /// A result was delivered for a job that is not being rendered: the
    /// pipeline's own bookkeeping is broken.
    DispatcherFault,
}

/// The decisions of the render pipeline, kept apart from the tasks that act
/// on them: one admission permit, a bounded queue of admitted jobs in arrival
/// order, one worker that renders a job at a time, and the results that wait
/// for their producers. Jobs are named by the numbers their producers pick.
pub struct Dispatcher {
    capacity: usize,
    permit: Option<u64>,
    queue: Vec<(u64, RenderJob)>,
    running: Option<u64>,
    resolved: Vec<(u64, RenderOutcome)>,
}

/// The state of a dispatcher, by job numbers.
pub struct DispatcherView {
    pub capacity: nat,
    pub permit: Option<u64>,
    pub queue: Seq<(u64, RenderJob)>,
    pub running: Option<u64>,
    pub resolved: Seq<(u64, RenderOutcome)>,
}

impl View for Dispatcher {
    type V = DispatcherView;

    closed spec fn view(&self) -> DispatcherView {
        DispatcherView {
            capacity: self.capacity as nat,
            permit: self.permit,
            queue: self.queue@,
            running: self.running,
            resolved: self.resolved@,
        }
    }
}

/// The queue never holds more jobs than its capacity.
pub open spec fn wf(s: DispatcherView) -> bool {
    s.queue.len() <= s.capacity
}

/// Admission: the permit goes to `id` when nobody holds it.
pub open spec fn admit_step(s: DispatcherView, id: u64) -> (DispatcherView, bool) {
    if s.permit is None {
        (DispatcherView { permit: Some(id), ..s }, true)
    } else {
        (s, false)
    }
}

/// Enqueueing: the job joins the back of the queue unless the queue is full.
pub open spec fn enqueue_step(s: DispatcherView, id: u64, job: RenderJob) -> (DispatcherView, Option<DispatchError>) {
    if s.queue.len() >= s.capacity {
        (s, Some(DispatchError::QueueFull))
    } else {
        (DispatcherView { queue: s.queue.push((id, job)), ..s }, None)
    }
}

/// The worker takes the front job, unless it is rendering one already or
/// the queue is empty.
pub open spec fn start_step(s: DispatcherView) -> (DispatcherView, Option<(u64, RenderJob)>) {
    if s.running is None && s.queue.len() > 0 {
        (DispatcherView { queue: s.queue.drop_first(), running: Some(s.queue[0].0), ..s }, Some(s.queue[0]))
    } else {
        (s, None)
    }
}

/// Resolution: only the job being rendered can be resolved, and resolving it
/// frees the worker.
pub open spec fn complete_step(s: DispatcherView, id: u64, outcome: RenderOutcome) -> (
    DispatcherView,
    Option<DispatchError>,
) {
    if s.running == Some(id) {
        (DispatcherView { running: None, resolved: s.resolved.push((id, outcome)), ..s }, None)
    } else {
        (s, Some(DispatchError::DispatcherFault))
    }
}

/// The first place of `id` among the resolved jobs.
pub open spec fn first_index(ids: Seq<(u64, RenderOutcome)>, id: u64) -> Option<int>
    decreases ids.len(),
{
    if ids.len() == 0 {
        None
    } else if ids[0].0 == id {
        Some(0)
    } else {
        match first_index(ids.drop_first(), id) {
            Some(k) => Some(k + 1),
            None => None,
        }
    }
}

/// Observation: the producer of `id` takes its result, if there is one, and
/// then gives the permit back if it holds it.
pub open spec fn observe_step(s: DispatcherView, id: u64) -> (DispatcherView, Option<RenderOutcome>) {
    match first_index(s.resolved, id) {
        Some(k) => (
            DispatcherView {
                resolved: s.resolved.remove(k),
                permit: if s.permit == Some(id) {
                    None
                } else {
                    s.permit
                },
                ..s
            },
            Some(s.resolved[k].1),
        ),
        None => (s, None),
    }
}

/// Withdrawal: a producer whose job could not be queued gives the permit
/// back, if it holds it.
pub open spec fn release_step(s: DispatcherView, id: u64) -> DispatcherView {
    if s.permit == Some(id) {
        DispatcherView { permit: None, ..s }
    } else {
        s
    }
}

proof fn lemma_first_index(ids: Seq<(u64, RenderOutcome)>, id: u64)
    ensures
        match first_index(ids, id) {
            Some(k) => 0 <= k < ids.len() && ids[k].0 == id && forall|j: int| 0 <= j < k ==> ids[j].0 != id,
            None => forall|j: int| 0 <= j < ids.len() ==> ids[j].0 != id,
        },
    decreases ids.len(),
{
    if ids.len() > 0 {
        lemma_first_index(ids.drop_first(), id);
        assert forall|j: int| 0 < j < ids.len() implies ids[j] == ids.drop_first()[j - 1] by {}
    }
}

/// The worker renders one job at a time: while a job is being rendered, the
/// worker is given no other, and the permit, once held, is given to nobody
/// else.
pub proof fn law_one_render_at_a_time(s: DispatcherView, id: u64)
    ensures
        s.running is Some ==> start_step(s) == (s, None::<(u64, RenderJob)>),
        start_step(s).1 matches Some(p) ==> start_step(s).0.running == Some(p.0),
        s.permit is Some ==> admit_step(s, id) == (s, false),
{
}

/// The permit stays with its holder until that holder observes its result:
/// enqueueing, starting and resolving jobs leave it as it is, and so does an
/// observation by anyone else.
pub proof fn law_permit_held_until_observed(
    s: DispatcherView,
    holder: u64,
    other: u64,
    job: RenderJob,
    outcome: RenderOutcome,
)
    requires
        s.permit == Some(holder),
        other != holder,
    ensures
        enqueue_step(s, other, job).0.permit == Some(holder),
        start_step(s).0.permit == Some(holder),
        complete_step(s, other, outcome).0.permit == Some(holder),
        observe_step(s, other).0.permit == Some(holder),
        first_index(s.resolved, holder) is Some ==> observe_step(s, holder).0.permit is None,
{
}

/// A job being rendered is resolved exactly once: its result is recorded,
/// a second result for it is refused as a fault, its producer observes the
/// result once, and a second observation finds nothing.
pub proof fn law_resolved_exactly_once(s: DispatcherView, id: u64, outcome: RenderOutcome, again: RenderOutcome)
    requires
        s.running == Some(id),
        first_index(s.resolved, id) is None,
    ensures
        complete_step(s, id, outcome).1 is None,
        complete_step(s, id, outcome).0.resolved == s.resolved.push((id, outcome)),
        complete_step(complete_step(s, id, outcome).0, id, again) == (
            complete_step(s, id, outcome).0,
            Some(DispatchError::DispatcherFault),
        ),
        observe_step(complete_step(s, id, outcome).0, id).1 == Some(outcome),
        observe_step(observe_step(complete_step(s, id, outcome).0, id).0, id).1 is None,
{
    let t = complete_step(s, id, outcome).0;
    lemma_first_index(s.resolved, id);
    lemma_first_index(t.resolved, id);
    assert(t.resolved[s.resolved.len() as int].0 == id);
    match first_index(t.resolved, id) {
        Some(k) => {
            if k < s.resolved.len() {
                assert(t.resolved[k] == s.resolved[k]);
            }
        },
        None => {},
    }
    assert(first_index(t.resolved, id) == Some(s.resolved.len() as int));
    let u = observe_step(t, id).0;
    assert(u.resolved =~= s.resolved);
}

impl Dispatcher {
    /// A dispatcher with a queue of `capacity` jobs, no job admitted.
    pub fn new(capacity: usize) -> (r: Dispatcher)
        ensures
            r@ == (DispatcherView {
                capacity: capacity as nat,
                permit: None,
                queue: Seq::empty(),
                running: None,
                resolved: Seq::empty(),
            }),
            wf(r@),
    {
        let r = Dispatcher { capacity, permit: None, queue: Vec::new(), running: None, resolved: Vec::new() };
        assert(r@.queue =~= Seq::<(u64, RenderJob)>::empty());
        assert(r@.resolved =~= Seq::<(u64, RenderOutcome)>::empty());
        r
    }

    /// Gives the admission permit to `id` if nobody holds it; says whether
    /// it did. A producer that is refused waits and asks again.
    pub fn try_admit(&mut self, id: u64) -> (r: bool)
        ensures
            (final(self)@, r) == admit_step(old(self)@, id),
    {
        if self.permit.is_none() {
            self.permit = Some(id);
            true
        } else {
            false
        }
    }

    /// Gives the permit back for a producer whose job could not be queued.
    pub fn release(&mut self, id: u64)
        requires
            wf(old(self)@),
        ensures
            wf(final(self)@),
            final(self)@ == release_step(old(self)@, id),
    {
        if self.permit == Some(id) {
            self.permit = None;
        }
    }

    /// Puts an admitted job at the back of the queue.
    pub fn enqueue(&mut self, id: u64, job: RenderJob) -> (r: Result<(), DispatchError>)
        requires
            wf(old(self)@),
        ensures
            wf(final(self)@),
            final(self)@ == enqueue_step(old(self)@, id, job).0,
            match enqueue_step(old(self)@, id, job).1 {
                Some(e) => r == Err::<(), DispatchError>(e),
                None => r is Ok,
            },
    {
        if self.queue.len() >= self.capacity {
            return Err(DispatchError::QueueFull);
        }
        self.queue.push((id, job));
        Ok(())
    }

    /// The worker's next job, in arrival order; none while it renders one or
    /// when the queue is empty.
    pub fn start_next(&mut self) -> (r: Option<(u64, RenderJob)>)
        requires
            wf(old(self)@),
        ensures
            wf(final(self)@),
            final(self)@ == start_step(old(self)@).0,
            r == start_step(old(self)@).1,
    {
        if self.running.is_some() || self.queue.len() == 0 {
            return None;
        }
        let front = self.queue.remove(0);
        self.running = Some(front.0);
        proof {
            assert(self.queue@ =~= old(self).queue@.drop_first());
        }
        Some(front)
    }

    /// Delivers the result of the job being rendered.
    pub fn complete(&mut self, id: u64, outcome: RenderOutcome) -> (r: Result<(), DispatchError>)
        requires
            wf(old(self)@),
        ensures
            wf(final(self)@),
            final(self)@ == complete_step(old(self)@, id, outcome).0,
            match complete_step(old(self)@, id, outcome).1 {
                Some(e) => r == Err::<(), DispatchError>(e),
                None => r is Ok,
            },
    {
        if self.running != Some(id) {
            return Err(DispatchError::DispatcherFault);
        }
        self.running = None;
        self.resolved.push((id, outcome));
        Ok(())
    }

    /// Hands the producer of `id` its result, if it has come, and then takes
    /// back the permit if that producer holds it.
    pub fn observe(&mut self, id: u64) -> (r: Option<RenderOutcome>)
        requires
            wf(old(self)@),
        ensures
            wf(final(self)@),
            (final(self)@, r) == observe_step(old(self)@, id),
    {
        proof {
            lemma_first_index(self@.resolved, id);
        }
        let mut i: usize = 0;
        while i < self.resolved.len()
            invariant
                i <= self.resolved@.len(),
                self == old(self),
                forall|j: int| 0 <= j < i ==> self.resolved@[j].0 != id,
                self@ == old(self)@,
                wf(self@),
            decreases self.resolved@.len() - i,
        {
            if self.resolved[i].0 == id {
                let ghost k = i as int;
                assert(self@.resolved[k].0 == id);
                proof {
                    lemma_first_index(self@.resolved, id);
                }
                assert(first_index(self@.resolved, id) == Some(k));
                let entry = self.resolved.remove(i);
                if self.permit == Some(id) {
                    self.permit = None;
                }
                return Some(entry.1);
            }
            i += 1;
        }
        assert(first_index(self@.resolved, id) is None);
        None
    }
}

} // verus!
