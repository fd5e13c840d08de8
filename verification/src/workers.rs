//! Background-job registry for the orchestrator. Tracks in-flight response jobs
//! (sync, async, and auto-promoted) so `/status` can report them, `/cancel` can
//! abort them, and agentic subprocess jobs can be serialized per room (one at a
//! time, to avoid two agents fighting over the same working directory).

use crate::text;
use vstd::prelude::*;
use vstd::string::*;

verus! {

/// A job. `started_ms` is when it began, on the process clock.
#[derive(Debug)]
pub struct JobHandle {
    pub room: String,
    pub profile: String,
    pub model: String,
    pub started_ms: u64,
    /// Whether this job runs an agentic subprocess (for per-room serialization).
    pub agentic: bool,
}

/// A point-in-time view of one active job for display.
#[derive(Debug)]
pub struct JobInfo {
    pub id: u64,
    pub room: String,
    pub profile: String,
    pub model: String,
    pub elapsed_secs: u64,
}

/// The registry: the next id, the active jobs in the order of their ids, and the advisory cap.
#[verifier::ext_equal]
pub struct WorkersView {
    pub next_id: nat,
    pub jobs: Seq<(u64, JobHandle)>,
    pub soft_cap: nat,
}

/// Without the job `id`.
pub open spec fn without(jobs: Seq<(u64, JobHandle)>, id: u64) -> Seq<(u64, JobHandle)>
    decreases jobs.len(),
{
    if jobs.len() == 0 {
        jobs
    } else if jobs.last().0 == id {
        without(jobs.drop_last(), id)
    } else {
        without(jobs.drop_last(), id).push(jobs.last())
    }
}

/// Whether a job `id` is active.
pub open spec fn active(jobs: Seq<(u64, JobHandle)>, id: u64) -> bool {
    exists|i: int| 0 <= i < jobs.len() && (#[trigger] jobs[i]).0 == id
}

/// Whether a job of the room is active.
pub open spec fn busy(jobs: Seq<(u64, JobHandle)>, room: Seq<char>) -> bool {
    exists|i: int| 0 <= i < jobs.len() && (#[trigger] jobs[i]).1.room@ == room
}

/// The ids rise and stay below `next_id`.
pub open spec fn ids_rise(jobs: Seq<(u64, JobHandle)>, next_id: nat) -> bool {
    &&& forall|i: int, j: int|
        0 <= i < j < jobs.len() ==> (#[trigger] jobs[i]).0 < (#[trigger] jobs[j]).0
    &&& forall|i: int| 0 <= i < jobs.len() ==> (#[trigger] jobs[i]).0 < next_id
}

/// Taking a job out leaves the others, in their order, and no job of that id.
pub proof fn law_only_the_job_leaves(jobs: Seq<(u64, JobHandle)>, id: u64, other: u64)
    ensures
        !active(without(jobs, id), id),
        other != id ==> active(without(jobs, id), other) == active(jobs, other),
        without(jobs, id).len() <= jobs.len(),
    decreases jobs.len(),
{
    if jobs.len() > 0 {
        let rest = jobs.drop_last();
        law_only_the_job_leaves(rest, id, other);
        let w = without(rest, id);
        let after = without(jobs, id);
        assert(jobs[jobs.len() - 1] == jobs.last());
        if active(jobs, other) {
            let i = choose|i: int| 0 <= i < jobs.len() && (#[trigger] jobs[i]).0 == other;
            if i < rest.len() {
                assert(rest[i].0 == other);
            }
        }
        if active(rest, other) {
            let i = choose|i: int| 0 <= i < rest.len() && (#[trigger] rest[i]).0 == other;
            assert(jobs[i].0 == other);
        }
        if jobs.last().0 != id {
            assert(after == w.push(jobs.last()));
            assert forall|i: int| 0 <= i < after.len() implies (#[trigger] after[i]).0 != id by {
                if i < w.len() {
                    assert(w[i] == after[i]);
                }
            }
            if active(w, other) {
                let i = choose|i: int| 0 <= i < w.len() && (#[trigger] w[i]).0 == other;
                assert(after[i].0 == other);
            }
            if jobs.last().0 == other {
                assert(after[w.len() as int].0 == other);
            }
            if active(after, other) {
                let i = choose|i: int| 0 <= i < after.len() && (#[trigger] after[i]).0 == other;
                if i < w.len() {
                    assert(w[i].0 == other);
                } else {
                    assert(jobs[jobs.len() - 1].0 == other);
                }
            }
        }
    }
}

/// Taking out a job that is active leaves exactly one job fewer, and taking out one that is not
/// changes nothing.
pub proof fn law_one_job_leaves(jobs: Seq<(u64, JobHandle)>, id: u64, next_id: nat)
    requires
        ids_rise(jobs, next_id),
    ensures
        active(jobs, id) ==> without(jobs, id).len() == jobs.len() - 1,
        !active(jobs, id) ==> without(jobs, id) == jobs,
    decreases jobs.len(),
{
    if jobs.len() > 0 {
        let rest = jobs.drop_last();
        assert(jobs[jobs.len() - 1] == jobs.last());
        lemma_rest_rises(jobs, next_id);
        law_one_job_leaves(rest, id, next_id);
        if active(rest, id) {
            let i = choose|i: int| 0 <= i < rest.len() && (#[trigger] rest[i]).0 == id;
            assert(jobs[i].0 == id);
            assert(jobs[i].0 < jobs[jobs.len() - 1].0);
        } else if active(jobs, id) {
            let i = choose|i: int| 0 <= i < jobs.len() && (#[trigger] jobs[i]).0 == id;
            if i < rest.len() {
                assert(rest[i].0 == id);
            }
        } else {
            assert(rest.push(jobs.last()) =~= jobs);
        }
    }
}

/// The registry with a job inserted under the next id.
pub open spec fn inserted(w: WorkersView, handle: JobHandle) -> WorkersView {
    WorkersView {
        next_id: w.next_id + 1,
        jobs: w.jobs.push((w.next_id as u64, handle)),
        soft_cap: w.soft_cap,
    }
}

/// The registry without the job `id`.
pub open spec fn removed(w: WorkersView, id: u64) -> WorkersView {
    WorkersView { jobs: without(w.jobs, id), ..w }
}

/// `after` comes of `before` by one insertion or by taking one job out.
pub open spec fn is_step(before: WorkersView, after: WorkersView) -> bool {
    ||| before.next_id < u64::MAX && exists|handle: JobHandle|
        after == #[trigger] inserted(before, handle)
    ||| exists|id: u64| after == #[trigger] removed(before, id)
}

/// Whatever is inserted and taken out after a job has left, no job of its id is active again, and
/// the id is not given out again: the next id stays above it.
pub proof fn law_ids_are_not_given_again(run: Seq<WorkersView>, id: u64)
    requires
        run.len() > 0,
        active(run[0].jobs, id),
        ids_rise(run[0].jobs, run[0].next_id),
        run.len() > 1 ==> run[1] == removed(run[0], id),
        forall|i: int| 0 < i < run.len() - 1 ==> is_step(#[trigger] run[i], run[i + 1]),
    ensures
        forall|i: int| 0 <= i < run.len() ==> id < (#[trigger] run[i]).next_id,
        forall|i: int| 1 <= i < run.len() ==> !active((#[trigger] run[i]).jobs, id),
    decreases run.len(),
{
    let last = run.last();
    if run.len() == 1 {
        let i = choose|i: int| 0 <= i < last.jobs.len() && (#[trigger] last.jobs[i]).0 == id;
        assert(last.jobs[i].0 < last.next_id);
    } else {
        let before = run.drop_last();
        assert forall|i: int| 0 < i < before.len() - 1 implies is_step(
            #[trigger] before[i],
            before[i + 1],
        ) by {
            assert(is_step(run[i], run[i + 1]));
        }
        law_ids_are_not_given_again(before, id);
        let prev = run[run.len() - 2];
        assert(prev == before[before.len() - 1]);
        if run.len() == 2 {
            law_only_the_job_leaves(prev.jobs, id, id);
        } else {
            assert(is_step(prev, last));
            if exists|other: u64| last == #[trigger] removed(prev, other) {
                let other = choose|other: u64| last == #[trigger] removed(prev, other);
                law_only_the_job_leaves(prev.jobs, other, id);
            } else {
                let handle = choose|handle: JobHandle| last == #[trigger] inserted(prev, handle);
                assert forall|i: int| 0 <= i < last.jobs.len() implies (
                #[trigger] last.jobs[i]).0 != id by {
                    if i < prev.jobs.len() {
                        assert(prev.jobs[i] == last.jobs[i]);
                    }
                }
            }
        }
        assert forall|i: int| 0 <= i < run.len() implies id < (#[trigger] run[i]).next_id by {
            if i < before.len() {
                assert(before[i] == run[i]);
            }
        }
        assert forall|i: int| 1 <= i < run.len() implies !active((#[trigger] run[i]).jobs, id) by {
            if i < before.len() {
                assert(before[i] == run[i]);
            }
        }
    }
}

/// What is left was there before.
pub proof fn lemma_without_members(jobs: Seq<(u64, JobHandle)>, id: u64, i: int)
    requires
        0 <= i < without(jobs, id).len(),
    ensures
        exists|j: int| 0 <= j < jobs.len() && #[trigger] jobs[j] == without(jobs, id)[i],
    decreases jobs.len(),
{
    let rest = jobs.drop_last();
    let w = without(rest, id);
    if i < w.len() {
        lemma_without_members(rest, id, i);
        let j = choose|j: int| 0 <= j < rest.len() && #[trigger] rest[j] == w[i];
        assert(jobs[j] == without(jobs, id)[i]);
    } else {
        assert(jobs[jobs.len() - 1] == without(jobs, id)[i]);
    }
}

/// At most one agentic job runs in each room.
pub open spec fn one_agent_per_room(jobs: Seq<(u64, JobHandle)>) -> bool {
    forall|i: int, j: int|
        0 <= i < j < jobs.len() && (#[trigger] jobs[i]).1.agentic && (#[trigger] jobs[j]).1.agentic
            ==> jobs[i].1.room@ != jobs[j].1.room@
}

/// Where at most one agentic job runs in each room, it stays so when a job leaves, and when one is
/// added that is not agentic or whose room has no agentic job.
pub proof fn law_agents_stay_apart(jobs: Seq<(u64, JobHandle)>, id: u64, added: (u64, JobHandle))
    requires
        one_agent_per_room(jobs),
    ensures
        one_agent_per_room(without(jobs, id)),
        !added.1.agentic || (forall|i: int|
            0 <= i < jobs.len() && (#[trigger] jobs[i]).1.agentic ==> jobs[i].1.room@
                != added.1.room@) ==> one_agent_per_room(jobs.push(added)),
    decreases jobs.len(),
{
    if jobs.len() > 0 {
        let rest = jobs.drop_last();
        let w = without(rest, id);
        assert forall|i: int, j: int|
            0 <= i < j < rest.len() && (#[trigger] rest[i]).1.agentic && (
            #[trigger] rest[j]).1.agentic implies rest[i].1.room@ != rest[j].1.room@ by {
            assert(jobs[i].1.agentic && jobs[j].1.agentic);
        }
        law_agents_stay_apart(rest, id, added);
        if jobs.last().0 != id {
            let after = w.push(jobs.last());
            assert forall|i: int, j: int|
                0 <= i < j < after.len() && (#[trigger] after[i]).1.agentic && (
                #[trigger] after[j]).1.agentic implies after[i].1.room@ != after[j].1.room@ by {
                if j < w.len() {
                    assert(w[i].1.agentic && w[j].1.agentic);
                } else {
                    lemma_without_members(rest, id, i);
                    let k = choose|k: int| 0 <= k < rest.len() && #[trigger] rest[k] == w[i];
                    assert(jobs[k].1.agentic && jobs[jobs.len() - 1].1.agentic);
                }
            }
        }
    }
}

/// Rising ids without the last of them rise.
proof fn lemma_rest_rises(jobs: Seq<(u64, JobHandle)>, next_id: nat)
    requires
        jobs.len() > 0,
        ids_rise(jobs, next_id),
    ensures
        ids_rise(jobs.drop_last(), next_id),
{
    let rest = jobs.drop_last();
    assert forall|i: int, j: int| 0 <= i < j < rest.len() implies (#[trigger] rest[i]).0 < (
    #[trigger] rest[j]).0 by {
        assert(jobs[i].0 < jobs[j].0);
    }
    assert forall|i: int| 0 <= i < rest.len() implies (#[trigger] rest[i]).0 < next_id by {
        assert(jobs[i].0 < next_id);
    }
}

/// What is left of rising ids rises.
proof fn lemma_without_rises(jobs: Seq<(u64, JobHandle)>, id: u64, next_id: nat)
    requires
        ids_rise(jobs, next_id),
    ensures
        ids_rise(without(jobs, id), next_id),
        forall|i: int|
            0 <= i < without(jobs, id).len() ==> exists|j: int|
                0 <= j < jobs.len() && (#[trigger] without(jobs, id)[i]) == jobs[j],
    decreases jobs.len(),
{
    if jobs.len() > 0 {
        let rest = jobs.drop_last();
        lemma_rest_rises(jobs, next_id);
        lemma_without_rises(rest, id, next_id);
        let w = without(rest, id);
        let after = without(jobs, id);
        assert forall|i: int| 0 <= i < after.len() implies exists|j: int|
            0 <= j < jobs.len() && (#[trigger] after[i]) == jobs[j] by {
            if i < w.len() {
                assert(after[i] == w[i]);
                let j = choose|j: int| 0 <= j < rest.len() && w[i] == rest[j];
                assert(jobs[j] == after[i]);
            } else {
                assert(after[i] == jobs[jobs.len() - 1]);
            }
        }
        assert forall|i: int, j: int| 0 <= i < j < after.len() implies (#[trigger] after[i]).0 < (
        #[trigger] after[j]).0 by {
            if j < w.len() {
                assert(w[i].0 < w[j].0);
            } else {
                assert(after[i] == w[i]);
                let k = choose|k: int| 0 <= k < rest.len() && w[i] == rest[k];
                assert(jobs[k].0 < jobs[jobs.len() - 1].0);
            }
        }
        assert forall|i: int| 0 <= i < after.len() implies (#[trigger] after[i]).0 < next_id by {
            let j = choose|j: int| 0 <= j < jobs.len() && after[i] == jobs[j];
            assert(jobs[j].0 < next_id);
        }
    }
}

/// A job as it is shown at `now_ms`.
pub open spec fn is_info(info: JobInfo, job: (u64, JobHandle), now_ms: u64) -> bool {
    &&& info.id == job.0
    &&& info.room@ == job.1.room@
    &&& info.profile@ == job.1.profile@
    &&& info.model@ == job.1.model@
    &&& info.elapsed_secs == (if now_ms >= job.1.started_ms {
        (now_ms - job.1.started_ms) / 1000
    } else {
        0
    })
}

/// The active jobs.
pub struct Workers {
    next_id: u64,
    jobs: Vec<(u64, JobHandle)>,
    /// Soft advisory cap on total concurrent jobs (warn, don't block).
    soft_cap: usize,
}

impl View for Workers {
    type V = WorkersView;

    closed spec fn view(&self) -> WorkersView {
        WorkersView {
            next_id: self.next_id as nat,
            jobs: self.jobs@,
            soft_cap: self.soft_cap as nat,
        }
    }
}

impl Workers {
    #[verifier::type_invariant]
    closed spec fn ordered(self) -> bool {
        ids_rise(self.jobs@, self.next_id as nat)
    }

    /// A registry without jobs; the first id is 1.
    pub fn new(soft_cap: usize) -> (r: Self)
        ensures
            r@ == (WorkersView { next_id: 1, jobs: Seq::empty(), soft_cap: soft_cap as nat }),
    {
        Workers { next_id: 1, jobs: Vec::new(), soft_cap }
    }

    /// Insert a job and return its id, which is higher than that of every job before.
    pub fn insert_pending(&mut self, handle: JobHandle) -> (id: u64)
        requires
            old(self)@.next_id < u64::MAX,
        ensures
            id == old(self)@.next_id,
            final(self)@ == inserted(old(self)@, handle),
            ids_rise(final(self)@.jobs, final(self)@.next_id),
    {
        proof {
            use_type_invariant(&*self);
        }
        let id = self.next_id;
        let mut jobs: Vec<(u64, JobHandle)> = Vec::new();
        std::mem::swap(&mut jobs, &mut self.jobs);
        jobs.push((id, handle));
        self.next_id = id + 1;
        self.jobs = jobs;
        id
    }

    /// The id of the next job.
    pub fn next_id(&self) -> (r: u64)
        ensures
            r == self@.next_id,
    {
        self.next_id
    }

    /// Whether there are more jobs than the soft cap.
    pub fn over_soft_cap(&self) -> (r: bool)
        ensures
            r == (self@.jobs.len() > self@.soft_cap),
    {
        self.jobs.len() > self.soft_cap
    }

    /// Takes a job out, where it is there.
    pub fn remove(&mut self, id: u64)
        ensures
            final(self)@ == removed(old(self)@, id),
    {
        let _ = self.cancel(id);
    }

    /// True if the room already has an active agentic (subprocess) job.
    pub fn agentic_active_in_room(&self, room: &str) -> (r: bool)
        ensures
            r == exists|i: int|
                0 <= i < self@.jobs.len() && (#[trigger] self@.jobs[i]).1.agentic
                    && self@.jobs[i].1.room@ == room@,
    {
        let mut i: usize = 0;
        while i < self.jobs.len()
            invariant
                i <= self.jobs.len(),
                forall|j: int|
                    0 <= j < i ==> !((#[trigger] self@.jobs[j]).1.agentic && self@.jobs[j].1.room@
                        == room@),
            decreases self.jobs.len() - i,
        {
            if self.jobs[i].1.agentic && text::same(self.jobs[i].1.room.as_str(), room) {
                assert(self@.jobs[i as int].1.agentic);
                return true;
            }
            i += 1;
        }
        false
    }

    /// True if the room has an active job.
    pub fn active_in_room(&self, room: &str) -> (r: bool)
        ensures
            r == busy(self@.jobs, room@),
    {
        let mut i: usize = 0;
        while i < self.jobs.len()
            invariant
                i <= self.jobs.len(),
                forall|j: int| 0 <= j < i ==> (#[trigger] self@.jobs[j]).1.room@ != room@,
            decreases self.jobs.len() - i,
        {
            if text::same(self.jobs[i].1.room.as_str(), room) {
                assert(self@.jobs[i as int].1.room@ == room@);
                return true;
            }
            i += 1;
        }
        false
    }

    /// The number of active jobs.
    pub fn count(&self) -> (r: usize)
        ensures
            r == self@.jobs.len(),
    {
        self.jobs.len()
    }

    /// Takes a job out by id; returns true if it existed, and changes nothing where it did not.
    pub fn cancel(&mut self, id: u64) -> (r: bool)
        ensures
            r == active(old(self)@.jobs, id),
            final(self)@ == removed(old(self)@, id),
            r ==> final(self)@.jobs.len() == old(self)@.jobs.len() - 1,
            !r ==> final(self)@ == old(self)@,
            !active(final(self)@.jobs, id),
    {
        proof {
            use_type_invariant(&*self);
            law_one_job_leaves(self.jobs@, id, self.next_id as nat);
            law_only_the_job_leaves(self.jobs@, id, id);
            lemma_without_rises(self.jobs@, id, self.next_id as nat);
        }
        let mut jobs: Vec<(u64, JobHandle)> = Vec::new();
        std::mem::swap(&mut jobs, &mut self.jobs);
        let ghost all = jobs@;
        let mut found = false;
        let mut kept: Vec<(u64, JobHandle)> = Vec::new();
        let ghost mut done: int = 0;
        assert(all.skip(0) == all);
        assert(without(all.take(0), id) =~= Seq::<(u64, JobHandle)>::empty());
        while jobs.len() > 0
            invariant
                0 <= done <= all.len(),
                jobs@ == all.skip(done),
                kept@ == without(all.take(done), id),
                found == active(all.take(done), id),
            decreases jobs.len(),
        {
            let job = jobs.remove(0);
            proof {
                let t = all.take(done);
                let t1 = all.take(done + 1);
                assert(t1.drop_last() == t);
                assert(t1.last() == job);
                assert(all.skip(done).remove(0) == all.skip(done + 1));
                if active(t, id) {
                    let i = choose|i: int| 0 <= i < t.len() && (#[trigger] t[i]).0 == id;
                    assert(t1[i].0 == id);
                }
                if job.0 == id {
                    assert(t1[done].0 == id);
                }
                if active(t1, id) && job.0 != id {
                    let i = choose|i: int| 0 <= i < t1.len() && (#[trigger] t1[i]).0 == id;
                    assert(t[i].0 == id);
                }
                done = done + 1;
            }
            if job.0 == id {
                found = true;
            } else {
                kept.push(job);
            }
        }
        assert(all.take(done) == all);
        self.jobs = kept;
        found
    }

    /// The active jobs in the order of their ids.
    pub fn list(&self, now_ms: u64) -> (r: Vec<JobInfo>)
        ensures
            r@.len() == self@.jobs.len(),
            forall|i: int| 0 <= i < r@.len() ==> is_info(#[trigger] r@[i], self@.jobs[i], now_ms),
            ids_rise(self@.jobs, self@.next_id),
    {
        proof {
            use_type_invariant(self);
        }
        let mut out: Vec<JobInfo> = Vec::new();
        let mut i: usize = 0;
        while i < self.jobs.len()
            invariant
                i <= self.jobs.len(),
                out@.len() == i,
                forall|j: int| 0 <= j < i ==> is_info(#[trigger] out@[j], self@.jobs[j], now_ms),
            decreases self.jobs.len() - i,
        {
            let job = &self.jobs[i].1;
            let elapsed_secs: u64 = if now_ms >= job.started_ms {
                (now_ms - job.started_ms) / 1000
            } else {
                0
            };
            out.push(
                JobInfo {
                    id: self.jobs[i].0,
                    room: job.room.clone(),
                    profile: job.profile.clone(),
                    model: job.model.clone(),
                    elapsed_secs,
                },
            );
            i += 1;
        }
        out
    }
}

/// A job that is inserted is active under an id that no job had, as the newest, and the others stay
/// as they were; taking it out again gives the jobs that were there before.
pub proof fn law_inserted_jobs_are_active(w: WorkersView, handle: JobHandle)
    requires
        ids_rise(w.jobs, w.next_id),
        w.next_id < u64::MAX,
    ensures
        inserted(w, handle).jobs.last() == (w.next_id as u64, handle),
        inserted(w, handle).jobs.drop_last() == w.jobs,
        inserted(w, handle).next_id == w.next_id + 1,
        inserted(w, handle).soft_cap == w.soft_cap,
        !active(w.jobs, w.next_id as u64),
        active(inserted(w, handle).jobs, w.next_id as u64),
        busy(inserted(w, handle).jobs, handle.room@),
        removed(inserted(w, handle), w.next_id as u64).jobs == w.jobs,
        removed(inserted(w, handle), w.next_id as u64).next_id == w.next_id + 1,
{
    let id = w.next_id as u64;
    let jobs = inserted(w, handle).jobs;
    assert(jobs[w.jobs.len() as int] == (id, handle));
    assert(jobs.drop_last() =~= w.jobs);
    assert(!active(w.jobs, id)) by {
        if active(w.jobs, id) {
            let i = choose|i: int| 0 <= i < w.jobs.len() && (#[trigger] w.jobs[i]).0 == id;
            assert(w.jobs[i].0 < w.next_id);
        }
    }
    law_one_job_leaves(w.jobs, id, w.next_id);
}

/// Jobs one after another leave a job out each by itself.
pub proof fn law_leaving_is_by_job(
    a: Seq<(u64, JobHandle)>,
    b: Seq<(u64, JobHandle)>,
    one: (u64, JobHandle),
    id: u64,
)
    ensures
        without(a + b, id) == without(a, id) + without(b, id),
        one.0 != id ==> without(seq![one], id) == seq![one],
        one.0 == id ==> without(seq![one], id).len() == 0,
    decreases b.len(),
{
    let single = seq![one];
    assert(without(single.drop_last(), id) =~= Seq::empty());
    assert(Seq::empty().push(one) =~= single);
    if b.len() == 0 {
        assert(a + b =~= a);
        assert(without(a, id) + without(b, id) =~= without(a, id));
    } else {
        law_leaving_is_by_job(a, b.drop_last(), one, id);
        assert((a + b).drop_last() =~= a + b.drop_last());
        assert((a + b).last() == b.last());
        assert(without(a, id) + without(b.drop_last(), id).push(b.last()) =~= (without(a, id)
            + without(b.drop_last(), id)).push(b.last()));
    }
}

/// A room is busy while one of its jobs is active, whichever jobs stand around it.
pub proof fn law_rooms_are_busy_with_their_jobs(
    a: Seq<(u64, JobHandle)>,
    job: (u64, JobHandle),
    b: Seq<(u64, JobHandle)>,
    room: Seq<char>,
)
    ensures
        busy(a + seq![job] + b, room) == (busy(a, room) || job.1.room@ == room || busy(b, room)),
        active(a + seq![job] + b, job.0),
        !busy(Seq::empty(), room),
{
    let all = a + seq![job] + b;
    assert(all[a.len() as int] == job);
    if busy(a, room) {
        let i = choose|i: int| 0 <= i < a.len() && (#[trigger] a[i]).1.room@ == room;
        assert(all[i].1.room@ == room);
    }
    if busy(b, room) {
        let i = choose|i: int| 0 <= i < b.len() && (#[trigger] b[i]).1.room@ == room;
        assert(all[a.len() + 1 + i].1.room@ == room);
    }
    if busy(all, room) {
        let i = choose|i: int| 0 <= i < all.len() && (#[trigger] all[i]).1.room@ == room;
        if i < a.len() {
            assert(a[i].1.room@ == room);
        } else if i > a.len() {
            assert(b[i - a.len() - 1].1.room@ == room);
        }
    }
}

/// A job is shown with its own id, room, profile and model, and with the whole seconds that it has
/// run.
pub proof fn law_jobs_are_shown_as_they_are(
    info: JobInfo,
    job: (u64, JobHandle),
    now_ms: u64,
    secs: int,
    ms: int,
)
    requires
        is_info(info, job, now_ms),
        0 <= secs,
        0 <= ms < 1000,
    ensures
        info.id == job.0,
        info.room@ == job.1.room@,
        info.profile@ == job.1.profile@,
        info.model@ == job.1.model@,
        now_ms == job.1.started_ms + secs * 1000 + ms ==> info.elapsed_secs == secs,
        now_ms < job.1.started_ms ==> info.elapsed_secs == 0,
{
}

} // verus!
