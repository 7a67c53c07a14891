//! The engine's control plane: the task lifecycle state machine over the
//! store, the queue, and the active set.

use vstd::prelude::*;
use vstd::string::StringExecFns;
use crate::config::EngineConfig;
use crate::error::CoreError;
use crate::queue::{QueueItem, TaskQueue};
use crate::scheduler::Scheduler;
use crate::sqlite::SqliteStorage;
use crate::stop::StopSignal;
use crate::storage::MemoryStorage;
use crate::transfer::{finalize_status, spec_finalize};
use crate::task::{Task, TaskId, TaskStatus, TaskView};

verus! {

/// A task identifier occurs in a sequence.
pub open spec fn spec_id_in(s: Seq<TaskId>, id: u128) -> bool {
    exists|i: int| 0 <= i < s.len() && s[i].bits == id
}

/// The sequence with every occurrence of `id` left out.
pub open spec fn spec_ids_without(s: Seq<TaskId>, id: u128) -> Seq<TaskId>
    decreases s.len(),
{
    if s.len() == 0 {
        seq![]
    } else {
        spec_ids_without(s.drop_last(), id) + (if s.last().bits == id {
            seq![]
        } else {
            seq![s.last()]
        })
    }
}

/// The status a task converges to when the queue is rebuilt: an `Active`
/// leftover is demoted to `Queued`, everything else keeps its status.
pub open spec fn spec_demoted(st: TaskStatus) -> TaskStatus {
    if st == TaskStatus::Active {
        TaskStatus::Queued
    } else {
        st
    }
}

/// A task is re-queued by a queue rebuild exactly when it is `Queued` or
/// `Active`.
pub open spec fn spec_requeued(st: TaskStatus) -> bool {
    st == TaskStatus::Queued || st == TaskStatus::Active
}

/// Rebuilding the queue is idempotent: demoting twice is demoting once,
/// and demotion does not change which tasks a replay would re-queue, so
/// the set of re-queued tasks converges to exactly those `Queued` or
/// `Active`.
pub proof fn law_enqueue_idempotent(st: TaskStatus)
    ensures
        spec_demoted(spec_demoted(st)) == spec_demoted(st),
        spec_requeued(spec_demoted(st)) == spec_requeued(st),
{
}

/// The identifiers of the tasks a queue rebuild re-queues, in
/// enumeration order, one per task.
pub open spec fn spec_requeued_ids(s: Seq<TaskView>) -> Seq<u128>
    decreases s.len(),
{
    if s.len() == 0 {
        seq![]
    } else {
        spec_requeued_ids(s.drop_last()) + (if spec_requeued(s.last().status) {
            seq![s.last().id]
        } else {
            seq![]
        })
    }
}

/// The identifiers a run of queue entries carries, in order.
pub open spec fn spec_entry_ids(q: Seq<QueueItem>) -> Seq<u128> {
    q.map_values(|item: QueueItem| item.id.bits)
}

/// A rebuild over distinct tasks queues each at most once: the re-queued
/// identifiers are pairwise distinct whenever the enumeration's are.
pub proof fn law_requeued_ids_unique(s: Seq<TaskView>)
    requires
        forall|a: int, b: int|
            0 <= a < b < s.len() ==> (#[trigger] s[a]).id != (#[trigger] s[b]).id,
    ensures
        forall|a: int, b: int|
            0 <= a < b < spec_requeued_ids(s).len() ==> #[trigger] spec_requeued_ids(s)[a]
                != #[trigger] spec_requeued_ids(s)[b],
    decreases s.len(),
{
    if s.len() > 0 {
        assert(forall|j: int|
            0 <= j < s.len() - 1 ==> (#[trigger] s.drop_last()[j]) == s[j]);
        law_requeued_ids_unique(s.drop_last());
        lemma_requeued_ids_from(s.drop_last());
        let prev = spec_requeued_ids(s.drop_last());
        if spec_requeued(s.last().status) {
            assert forall|a: int| 0 <= a < prev.len() implies prev[a] != s.last().id by {
                let j = choose|j: int|
                    0 <= j < s.drop_last().len() && (#[trigger] s.drop_last()[j]).id == prev[a];
                assert(s[j].id != s.last().id);
            }
        }
    }
}

/// Every re-queued identifier is some enumerated task's.
proof fn lemma_requeued_ids_from(s: Seq<TaskView>)
    ensures
        forall|a: int|
            0 <= a < spec_requeued_ids(s).len() ==> exists|j: int|
                0 <= j < s.len() && (#[trigger] s[j]).id == #[trigger] spec_requeued_ids(s)[a],
    decreases s.len(),
{
    if s.len() > 0 {
        lemma_requeued_ids_from(s.drop_last());
        assert forall|a: int| 0 <= a < spec_requeued_ids(s).len() implies exists|j: int|
            0 <= j < s.len() && (#[trigger] s[j]).id == #[trigger] spec_requeued_ids(s)[a] by {
            if a < spec_requeued_ids(s.drop_last()).len() {
                let j = choose|j: int|
                    0 <= j < s.drop_last().len() && (#[trigger] s.drop_last()[j]).id
                        == spec_requeued_ids(s.drop_last())[a];
                assert(s[j].id == spec_requeued_ids(s)[a]);
            } else {
                assert(s[s.len() - 1].id == spec_requeued_ids(s)[a]);
            }
        }
    }
}

/// Importing tasks only inserts: every key bound before stays bound.
proof fn lemma_import_keeps_keys(m: Map<u128, TaskView>, ts: Seq<Task>)
    ensures
        forall|k: u128|
            #[trigger] m.contains_key(k) ==> DownloadEngine::spec_import(m, ts).contains_key(k),
    decreases ts.len(),
{
    if ts.len() > 0 {
        lemma_import_keeps_keys(m, ts.drop_last());
    }
}

/// Importing segment lists only inserts: every key bound before stays
/// bound.
proof fn lemma_import_segs_keeps_keys(
    m: Map<u128, Seq<crate::segment::Segment>>,
    ts: Seq<Task>,
    ss: Seq<Vec<crate::segment::Segment>>,
)
    ensures
        forall|k: u128|
            #[trigger] m.contains_key(k) ==> DownloadEngine::spec_import_segs(
                m,
                ts,
                ss,
            ).contains_key(k),
    decreases ts.len(),
{
    if ts.len() > 0 && ss.len() == ts.len() {
        lemma_import_segs_keeps_keys(m, ts.drop_last(), ss.drop_last());
    }
}

/// How many of the tasks would be re-queued.
pub open spec fn spec_count_requeued(s: Seq<TaskView>) -> int
    decreases s.len(),
{
    if s.len() == 0 {
        0int
    } else {
        spec_count_requeued(s.drop_last()) + (if spec_requeued(s.last().status) {
            1int
        } else {
            0int
        })
    }
}

/// The download engine's control plane: configuration, scheduler,
/// storage, the pending queue, and the set of active task identifiers.
/// The in-memory store is the authoritative model the contracts speak
/// of; an attached durable store, when present, receives a best-effort
/// copy of every write, as the worker threads of a crash-resumable
/// engine must.
pub struct DownloadEngine {
    pub config: EngineConfig,
    pub scheduler: Scheduler,
    storage: MemoryStorage,
    durable: Option<SqliteStorage>,
    queue: TaskQueue,
    active: Vec<TaskId>,
}

impl DownloadEngine {
    /// The stored tasks.
    pub closed spec fn tasks(&self) -> Map<u128, TaskView> {
        self.storage.tasks_view()
    }

    /// The stored segment lists.
    pub closed spec fn segs(&self) -> Map<u128, Seq<crate::segment::Segment>> {
        self.storage.segs_view()
    }

    /// The pending queue's entries.
    pub closed spec fn queue_view(&self) -> Seq<QueueItem> {
        self.queue@
    }

    /// The identifiers of tasks currently running.
    pub closed spec fn active_ids(&self) -> Seq<TaskId> {
        self.active@
    }

    /// Storage identifiers are unique.
    pub closed spec fn wf(&self) -> bool {
        self.storage.wf()
    }

    /// The active-task cap the scheduler enforces.
    pub closed spec fn cap(&self) -> usize {
        self.scheduler.max_active
    }

    /// An engine with empty storage, queue, and active set.
    pub fn new(config: EngineConfig) -> (e: DownloadEngine)
        ensures
            e.wf(),
            e.tasks() == Map::<u128, TaskView>::empty(),
            e.queue_view().len() == 0,
            e.active_ids().len() == 0,
            e.cap() == config.max_concurrent_tasks,
    {
        let scheduler = Scheduler::new(config.max_concurrent_tasks);
        DownloadEngine {
            config,
            scheduler,
            storage: MemoryStorage::new(),
            durable: None,
            queue: TaskQueue::new(),
            active: Vec::new(),
        }
    }

    /// Copy a task's state to the attached durable store. Control
    /// operations write here before touching the in-memory model, so a
    /// durable failure surfaces synchronously with the model unchanged;
    /// the worker's hot-path flushes ignore the result, as the original's
    /// opportunistic writes did.
    fn mirror_task(&self, task: &Task) -> (r: Result<(), CoreError>)
        ensures
            r is Err ==> r->Err_0 is Storage,
    {
        match &self.durable {
            Some(d) => d.save_task(task),
            None => Ok(()),
        }
    }

    /// Copy a segment list to the attached durable store.
    fn mirror_segments(&self, id: &TaskId, segments: &Vec<crate::segment::Segment>) -> (r: Result<
        (),
        CoreError,
    >)
        ensures
            r is Err ==> r->Err_0 is Storage,
    {
        match &self.durable {
            Some(d) => d.save_segments(id, segments),
            None => Ok(()),
        }
    }

    /// Remove a task from the attached durable store.
    fn mirror_delete(&self, id: &TaskId) -> (r: Result<(), CoreError>)
        ensures
            r is Err ==> r->Err_0 is Storage,
    {
        match &self.durable {
            Some(d) => d.delete_task(id),
            None => Ok(()),
        }
    }

    /// The map after inserting each task of a sequence in order.
    pub open spec fn spec_import(m: Map<u128, TaskView>, ts: Seq<Task>) -> Map<u128, TaskView>
        decreases ts.len(),
    {
        if ts.len() == 0 {
            m
        } else {
            Self::spec_import(m, ts.drop_last()).insert(ts.last()@.id, ts.last()@)
        }
    }

    /// Store the given tasks, in order, later entries winning; the queue
    /// and active set are untouched, so a following queue rebuild decides
    /// what runs.
    pub fn import_tasks(&mut self, tasks: &Vec<Task>) -> (n: usize)
        requires
            old(self).wf(),
        ensures
            final(self).wf(),
            n == tasks@.len(),
            final(self).tasks() == Self::spec_import(old(self).tasks(), tasks@),
            final(self).segs() == old(self).segs(),
            final(self).queue_view() == old(self).queue_view(),
            final(self).active_ids() == old(self).active_ids(),
    {
        let mut i: usize = 0;
        proof {
            assert(tasks@.subrange(0, 0) =~= Seq::<Task>::empty());
        }
        while i < tasks.len()
            invariant
                self.wf(),
                0 <= i <= tasks@.len(),
                self.tasks() == Self::spec_import(old(self).tasks(), tasks@.subrange(0, i as int)),
                self.segs() == old(self).segs(),
                self.queue_view() == old(self).queue_view(),
                self.active_ids() == old(self).active_ids(),
            decreases tasks@.len() - i,
        {
            proof {
                assert(tasks@.subrange(0, i + 1).drop_last() =~= tasks@.subrange(0, i as int));
                assert(tasks@.subrange(0, i + 1).last() == tasks@[i as int]);
            }
            self.storage.save_task(&tasks[i]);
            i = i + 1;
        }
        proof {
            assert(tasks@.subrange(0, tasks@.len() as int) =~= tasks@);
        }
        tasks.len()
    }

    /// The segment map after inserting, for each task of a sequence in
    /// order, the matching segment list of a parallel sequence.
    pub open spec fn spec_import_segs(
        m: Map<u128, Seq<crate::segment::Segment>>,
        ts: Seq<Task>,
        ss: Seq<Vec<crate::segment::Segment>>,
    ) -> Map<u128, Seq<crate::segment::Segment>>
        decreases ts.len(),
    {
        if ts.len() == 0 || ss.len() != ts.len() {
            m
        } else {
            Self::spec_import_segs(m, ts.drop_last(), ss.drop_last()).insert(
                ts.last()@.id,
                ss.last()@,
            )
        }
    }

    /// Store, for each given task in order, the matching segment list.
    pub fn import_segments(
        &mut self,
        tasks: &Vec<Task>,
        segments: &Vec<Vec<crate::segment::Segment>>,
    )
        requires
            old(self).wf(),
            tasks@.len() == segments@.len(),
        ensures
            final(self).wf(),
            final(self).tasks() == old(self).tasks(),
            final(self).segs() == Self::spec_import_segs(old(self).segs(), tasks@, segments@),
            final(self).queue_view() == old(self).queue_view(),
            final(self).active_ids() == old(self).active_ids(),
    {
        let mut i: usize = 0;
        proof {
            assert(tasks@.subrange(0, 0) =~= Seq::<Task>::empty());
            assert(segments@.subrange(0, 0) =~= Seq::<Vec<crate::segment::Segment>>::empty());
        }
        while i < tasks.len()
            invariant
                self.wf(),
                tasks@.len() == segments@.len(),
                0 <= i <= tasks@.len(),
                self.tasks() == old(self).tasks(),
                self.segs() == Self::spec_import_segs(
                    old(self).segs(),
                    tasks@.subrange(0, i as int),
                    segments@.subrange(0, i as int),
                ),
                self.queue_view() == old(self).queue_view(),
                self.active_ids() == old(self).active_ids(),
            decreases tasks@.len() - i,
        {
            proof {
                assert(tasks@.subrange(0, i + 1).drop_last() =~= tasks@.subrange(0, i as int));
                assert(tasks@.subrange(0, i + 1).last() == tasks@[i as int]);
                assert(segments@.subrange(0, i + 1).drop_last() =~= segments@.subrange(
                    0,
                    i as int,
                ));
                assert(segments@.subrange(0, i + 1).last() == segments@[i as int]);
            }
            let id = tasks[i].id;
            self.storage.save_segments(&id, &segments[i]);
            i = i + 1;
        }
        proof {
            assert(tasks@.subrange(0, tasks@.len() as int) =~= tasks@);
            assert(segments@.subrange(0, segments@.len() as int) =~= segments@);
        }
    }

    /// Attach a durable store: its persisted tasks *and their segment
    /// lists* are imported into the in-memory model, restoring
    /// crash-resumable progress, and every later write is copied to it.
    /// What the store holds depends on the database file; the import of
    /// whatever came back is pinned by `import_tasks` and
    /// `import_segments`, and every task and segment list stored before
    /// the attach stays present.
    pub fn attach_durable(&mut self, store: SqliteStorage) -> (r: Result<usize, CoreError>)
        requires
            old(self).wf(),
        ensures
            final(self).wf(),
            final(self).queue_view() == old(self).queue_view(),
            final(self).active_ids() == old(self).active_ids(),
            match r {
                Ok(n) => {
                    &&& exists|ts: Seq<Task>, ss: Seq<Vec<crate::segment::Segment>>|
                        ts.len() == n && ss.len() == n && final(self).tasks()
                            == #[trigger] Self::spec_import(old(self).tasks(), ts) && final(self).segs() == #[trigger] Self::spec_import_segs(old(self).segs(), ts, ss)
                    &&& forall|k: u128|
                        #[trigger] old(self).tasks().contains_key(k) ==> final(self).tasks().contains_key(k)
                    &&& forall|k: u128|
                        #[trigger] old(self).segs().contains_key(k) ==> final(self).segs().contains_key(k)
                },
                Err(e) => {
                    &&& e is NotFound || e is Storage
                    &&& final(self).tasks() == old(self).tasks()
                    &&& final(self).segs() == old(self).segs()
                },
            },
    {
        let loaded = match store.list_tasks() {
            Ok(ts) => ts,
            Err(e) => {
                return Err(e);
            },
        };
        let mut seglists: Vec<Vec<crate::segment::Segment>> = Vec::new();
        let mut i: usize = 0;
        while i < loaded.len()
            invariant
                self.wf(),
                self.tasks() == old(self).tasks(),
                self.segs() == old(self).segs(),
                self.queue_view() == old(self).queue_view(),
                self.active_ids() == old(self).active_ids(),
                0 <= i <= loaded@.len(),
                seglists@.len() == i,
            decreases loaded@.len() - i,
        {
            match store.load_segments(&loaded[i].id) {
                Ok(segs) => {
                    seglists.push(segs);
                },
                Err(e) => {
                    return Err(e);
                },
            }
            i = i + 1;
        }
        let n = self.import_tasks(&loaded);
        self.import_segments(&loaded, &seglists);
        self.durable = Some(store);
        proof {
            lemma_import_keeps_keys(old(self).tasks(), loaded@);
            lemma_import_segs_keeps_keys(old(self).segs(), loaded@, seglists@);
            assert(loaded@.len() == n && seglists@.len() == n && self.tasks()
                == Self::spec_import(old(self).tasks(), loaded@) && self.segs()
                == Self::spec_import_segs(old(self).segs(), loaded@, seglists@));
        }
        Ok(n)
    }

    /// Create a fresh `Queued` task for `url`, persist it, and push it
    /// onto the queue.
    pub fn add_task(&mut self, url: String, dest_path: String) -> (r: Result<TaskId, CoreError>)
        requires
            old(self).wf(),
        ensures
            final(self).wf(),
            match r {
                Ok(id) => {
                    &&& final(self).tasks().contains_key(id.bits)
                    &&& final(self).tasks() == old(self).tasks().insert(
                        id.bits,
                        final(self).tasks()[id.bits],
                    )
                    &&& final(self).tasks()[id.bits].id == id.bits
                    &&& final(self).tasks()[id.bits].url == url@
                    &&& final(self).tasks()[id.bits].dest_path == dest_path@
                    &&& final(self).tasks()[id.bits].status == TaskStatus::Queued
                    &&& final(self).tasks()[id.bits].priority == 0
                    &&& final(self).tasks()[id.bits].downloaded_bytes == 0
                    &&& final(self).tasks()[id.bits].total_bytes == 0
                    &&& final(self).tasks()[id.bits].error is None
                    &&& final(self).queue_view().len() == old(self).queue_view().len() + 1
                    &&& final(self).queue_view() == old(self).queue_view().push(
                        final(self).queue_view().last(),
                    )
                    &&& final(self).queue_view().last().id == id
                    &&& final(self).queue_view().last().priority == final(self).tasks()[
                        id.bits
                    ].priority
                    &&& final(self).active_ids() == old(self).active_ids()
                    &&& final(self).segs() == old(self).segs()
                },
                Err(e) => {
                    &&& e is Storage
                    &&& final(self).tasks() == old(self).tasks()
                    &&& final(self).segs() == old(self).segs()
                    &&& final(self).queue_view() == old(self).queue_view()
                    &&& final(self).active_ids() == old(self).active_ids()
                },
            },
    {
        let task = Task::new(url, dest_path);
        let id = task.id;
        if let Err(e) = self.mirror_task(&task) {
            return Err(e);
        }
        self.storage.save_task(&task);
        let item = QueueItem::new(id, task.priority);
        self.queue.push(item);
        Ok(id)
    }

    /// The stored task under `id`, or `NotFound`.
    pub fn get_task(&self, id: &TaskId) -> (r: Result<Task, CoreError>)
        requires
            self.wf(),
        ensures
            match r {
                Ok(t) => self.tasks().contains_key(id.bits) && t@ == self.tasks()[id.bits]
                    && t@.id == id.bits,
                Err(e) => !self.tasks().contains_key(id.bits) && e is NotFound,
            },
    {
        self.storage.load_task(id)
    }

    /// Copies of all stored tasks.
    pub fn list_tasks(&self) -> (r: Result<Vec<Task>, CoreError>)
        requires
            self.wf(),
        ensures
            match r {
                Ok(ts) => ts@.len() == self.tasks_order().len() && forall|i: int|
                    0 <= i < ts@.len() ==> self.tasks().contains_key(
                        (#[trigger] ts@[i])@.id,
                    ) && ts@[i]@ == self.tasks()[ts@[i]@.id] && ts@[i]@ == self.tasks_order()[i],
                Err(_) => false,
            },
    {
        let ts = self.storage.list_tasks();
        proof {
            assert forall|i: int|
                0 <= i < ts@.len() implies self.tasks().contains_key((#[trigger] ts@[i])@.id)
                && ts@[i]@ == self.tasks()[ts@[i]@.id] by {
                self.storage.lemma_tasks_seq_in_map(i);
            }
        }
        Ok(ts)
    }

    /// Pause a running task: only `Active` may pause. The status is
    /// persisted and the id leaves the active set; workers observe the
    /// persisted status and unwind.
    pub fn pause_task(&mut self, id: &TaskId) -> (r: Result<(), CoreError>)
        requires
            old(self).wf(),
        ensures
            final(self).wf(),
            match r {
                Ok(_) => {
                    &&& old(self).tasks().contains_key(id.bits)
                    &&& old(self).tasks()[id.bits].status == TaskStatus::Active
                    &&& final(self).tasks() == old(self).tasks().insert(
                        id.bits,
                        (TaskView {
                            status: TaskStatus::Paused,
                            updated_at: final(self).tasks()[id.bits].updated_at,
                            ..old(self).tasks()[id.bits]
                        }),
                    )
                    &&& final(self).active_ids() == spec_ids_without(
                        old(self).active_ids(),
                        id.bits,
                    )
                    &&& final(self).queue_view() == old(self).queue_view()
                    &&& final(self).segs() == old(self).segs()
                },
                Err(e) => {
                    &&& final(self).tasks() == old(self).tasks()
                    &&& final(self).active_ids() == old(self).active_ids()
                    &&& final(self).queue_view() == old(self).queue_view()
                    &&& final(self).segs() == old(self).segs()
                    &&& (e is NotFound <==> !old(self).tasks().contains_key(id.bits))
                    &&& (e is InvalidState <==> old(self).tasks().contains_key(id.bits)
                        && old(self).tasks()[id.bits].status != TaskStatus::Active)
                    &&& (e is NotFound || e is InvalidState || e is Storage)
                },
            },
    {
        let mut task = match self.storage.load_task(id) {
            Ok(t) => t,
            Err(e) => {
                return Err(e);
            },
        };
        match task.status {
            TaskStatus::Active => {},
            _ => {
                return Err(
                    CoreError::InvalidState(String::from_str("cannot pause task in this state")),
                );
            },
        }
        task.status = TaskStatus::Paused;
        task.touch();
        if let Err(e) = self.mirror_task(&task) {
            return Err(e);
        }
        self.storage.save_task(&task);
        self.remove_active(id);
        Ok(())
    }

    /// Resume a paused or failed task back to `Queued` and re-queue it.
    pub fn resume_task(&mut self, id: &TaskId) -> (r: Result<(), CoreError>)
        requires
            old(self).wf(),
        ensures
            final(self).wf(),
            match r {
                Ok(_) => {
                    &&& old(self).tasks().contains_key(id.bits)
                    &&& (old(self).tasks()[id.bits].status == TaskStatus::Paused || old(self).tasks()[id.bits].status == TaskStatus::Failed)
                    &&& final(self).tasks() == old(self).tasks().insert(
                        id.bits,
                        (TaskView {
                            status: TaskStatus::Queued,
                            updated_at: final(self).tasks()[id.bits].updated_at,
                            ..old(self).tasks()[id.bits]
                        }),
                    )
                    &&& final(self).queue_view() == old(self).queue_view().push(
                        final(self).queue_view().last(),
                    )
                    &&& final(self).queue_view().last().id.bits == id.bits
                    &&& final(self).queue_view().last().priority == old(self).tasks()[
                        id.bits
                    ].priority
                    &&& final(self).active_ids() == old(self).active_ids()
                    &&& final(self).segs() == old(self).segs()
                },
                Err(e) => {
                    &&& final(self).tasks() == old(self).tasks()
                    &&& final(self).active_ids() == old(self).active_ids()
                    &&& final(self).queue_view() == old(self).queue_view()
                    &&& final(self).segs() == old(self).segs()
                    &&& (e is NotFound <==> !old(self).tasks().contains_key(id.bits))
                    &&& (e is InvalidState <==> old(self).tasks().contains_key(id.bits)
                        && old(self).tasks()[id.bits].status != TaskStatus::Paused && old(
                        self,
                    ).tasks()[id.bits].status != TaskStatus::Failed)
                    &&& (e is NotFound || e is InvalidState || e is Storage)
                },
            },
    {
        let mut task = match self.storage.load_task(id) {
            Ok(t) => t,
            Err(e) => {
                return Err(e);
            },
        };
        match task.status {
            TaskStatus::Paused => {},
            TaskStatus::Failed => {},
            _ => {
                return Err(
                    CoreError::InvalidState(String::from_str("cannot resume task in this state")),
                );
            },
        }
        task.status = TaskStatus::Queued;
        task.touch();
        if let Err(e) = self.mirror_task(&task) {
            return Err(e);
        }
        self.storage.save_task(&task);
        let item = QueueItem::new(task.id, task.priority);
        self.queue.push(item);
        Ok(())
    }

    /// Cancel a task in any state: the status is persisted and the id
    /// leaves the active set; a running worker observes it and unwinds.
    pub fn cancel_task(&mut self, id: &TaskId) -> (r: Result<(), CoreError>)
        requires
            old(self).wf(),
        ensures
            final(self).wf(),
            match r {
                Ok(_) => {
                    &&& old(self).tasks().contains_key(id.bits)
                    &&& final(self).tasks() == old(self).tasks().insert(
                        id.bits,
                        (TaskView {
                            status: TaskStatus::Canceled,
                            updated_at: final(self).tasks()[id.bits].updated_at,
                            ..old(self).tasks()[id.bits]
                        }),
                    )
                    &&& final(self).active_ids() == spec_ids_without(
                        old(self).active_ids(),
                        id.bits,
                    )
                    &&& final(self).queue_view() == old(self).queue_view()
                    &&& final(self).segs() == old(self).segs()
                },
                Err(e) => {
                    &&& final(self).tasks() == old(self).tasks()
                    &&& final(self).active_ids() == old(self).active_ids()
                    &&& final(self).queue_view() == old(self).queue_view()
                    &&& final(self).segs() == old(self).segs()
                    &&& (e is NotFound <==> !old(self).tasks().contains_key(id.bits))
                    &&& (e is NotFound || e is Storage)
                },
            },
    {
        let mut task = match self.storage.load_task(id) {
            Ok(t) => t,
            Err(e) => {
                return Err(e);
            },
        };
        task.status = TaskStatus::Canceled;
        task.touch();
        if let Err(e) = self.mirror_task(&task) {
            return Err(e);
        }
        self.storage.save_task(&task);
        self.remove_active(id);
        Ok(())
    }

    /// Remove a task and its segments: an `Active` task may not be
    /// removed; afterwards a lookup returns `NotFound`. Removing an
    /// unknown id succeeds.
    pub fn remove_task(&mut self, id: &TaskId) -> (r: Result<(), CoreError>)
        requires
            old(self).wf(),
        ensures
            final(self).wf(),
            match r {
                Ok(_) => {
                    &&& !spec_id_in(old(self).active_ids(), id.bits)
                    &&& final(self).tasks() == old(self).tasks().remove(id.bits)
                    &&& final(self).segs() == old(self).segs().remove(id.bits)
                    &&& !final(self).tasks().contains_key(id.bits)
                    &&& final(self).active_ids() == old(self).active_ids()
                    &&& final(self).queue_view() == old(self).queue_view()
                },
                Err(e) => {
                    &&& (e is InvalidState <==> spec_id_in(old(self).active_ids(), id.bits))
                    &&& (e is InvalidState || e is Storage)
                    &&& final(self).tasks() == old(self).tasks()
                    &&& final(self).segs() == old(self).segs()
                    &&& final(self).active_ids() == old(self).active_ids()
                    &&& final(self).queue_view() == old(self).queue_view()
                },
            },
    {
        if self.is_active(id) {
            return Err(CoreError::InvalidState(String::from_str("cannot remove active task")));
        }
        if let Err(e) = self.mirror_delete(id) {
            return Err(e);
        }
        self.storage.delete_task(id);
        Ok(())
    }

    /// Whether `id` is in the active set.
    fn is_active(&self, id: &TaskId) -> (r: bool)
        ensures
            r == spec_id_in(self.active_ids(), id.bits),
    {
        let mut i: usize = 0;
        while i < self.active.len()
            invariant
                0 <= i <= self.active@.len(),
                forall|j: int| 0 <= j < i ==> (#[trigger] self.active@[j]).bits != id.bits,
            decreases self.active@.len() - i,
        {
            if self.active[i].bits == id.bits {
                return true;
            }
            i = i + 1;
        }
        false
    }

    /// Drop every occurrence of `id` from the active set.
    fn remove_active(&mut self, id: &TaskId)
        ensures
            final(self).active@ == spec_ids_without(old(self).active@, id.bits),
            final(self).storage == old(self).storage,
            final(self).queue == old(self).queue,
            final(self).config == old(self).config,
            final(self).scheduler == old(self).scheduler,
    {
        let mut keep: Vec<TaskId> = Vec::new();
        let n = self.active.len();
        let mut i: usize = 0;
        while i < n
            invariant
                0 <= i <= self.active@.len(),
                n == self.active@.len(),
                self.active@ == old(self).active@,
                self.storage == old(self).storage,
                self.queue == old(self).queue,
                self.config == old(self).config,
                self.scheduler == old(self).scheduler,
                keep@ == spec_ids_without(self.active@.subrange(0, i as int), id.bits),
            decreases n - i,
        {
            proof {
                assert(self.active@.subrange(0, i + 1).drop_last() =~= self.active@.subrange(
                    0,
                    i as int,
                ));
                assert(self.active@.subrange(0, i + 1).last() == self.active@[i as int]);
            }
            if self.active[i].bits != id.bits {
                keep.push(self.active[i]);
                proof {
                    assert(keep@ =~= spec_ids_without(self.active@.subrange(0, i + 1), id.bits));
                }
            } else {
                proof {
                    assert(keep@ =~= spec_ids_without(self.active@.subrange(0, i + 1), id.bits));
                }
            }
            i = i + 1;
        }
        proof {
            assert(self.active@.subrange(0, self.active@.len() as int) =~= self.active@);
        }
        self.active = keep;
    }
}

impl DownloadEngine {
    /// The stored tasks in enumeration order.
    pub closed spec fn tasks_order(&self) -> Seq<TaskView> {
        self.storage.tasks_seq()
    }

    /// The enumeration is faithful to the stored map: identifiers are
    /// pairwise distinct, each entry is its map binding, every bound key
    /// appears, and the enumeration's length is the map's size. With
    /// `list_tasks`' contract this pins what a listing returns.
    pub proof fn law_enumeration(&self)
        requires
            self.wf(),
        ensures
            forall|a: int, b: int|
                0 <= a < b < self.tasks_order().len() ==> (#[trigger] self.tasks_order()[a]).id
                    != (#[trigger] self.tasks_order()[b]).id,
            forall|i: int|
                0 <= i < self.tasks_order().len() ==> self.tasks().contains_key(
                    (#[trigger] self.tasks_order()[i]).id,
                ) && self.tasks()[self.tasks_order()[i].id] == self.tasks_order()[i],
            forall|k: u128|
                #[trigger] self.tasks().contains_key(k) ==> exists|i: int|
                    0 <= i < self.tasks_order().len() && (#[trigger] self.tasks_order()[i]).id
                        == k,
            self.tasks().dom().finite(),
            self.tasks_order().len() == self.tasks().dom().len(),
    {
        self.storage.lemma_tasks_seq_unique();
        self.storage.lemma_tasks_count();
        assert forall|i: int| 0 <= i < self.tasks_order().len() implies self.tasks().contains_key(
            (#[trigger] self.tasks_order()[i]).id,
        ) && self.tasks()[self.tasks_order()[i].id] == self.tasks_order()[i] by {
            self.storage.lemma_tasks_seq_in_map(i);
        }
        assert forall|k: u128| #[trigger] self.tasks().contains_key(k) implies exists|i: int|
            0 <= i < self.tasks_order().len() && (#[trigger] self.tasks_order()[i]).id == k by {
            self.storage.lemma_map_key_in_seq(k);
        }
    }

    /// Rebuild the queue: push every `Queued` task, demote and push every
    /// lingering `Active` task, and return how many were re-queued.
    pub fn enqueue_queued(&mut self) -> (r: Result<usize, CoreError>)
        requires
            old(self).wf(),
        ensures
            final(self).wf(),
            match r {
                Ok(count) => {
                    &&& count as int == spec_count_requeued(old(self).tasks_order())
                    &&& forall|k: u128|
                        final(self).tasks().contains_key(k) == old(self).tasks().contains_key(k)
                    &&& forall|k: u128|
                        #[trigger] old(self).tasks().contains_key(k) ==> final(self).tasks()[k]
                            == (if old(self).tasks()[k].status == TaskStatus::Active {
                            TaskView {
                                status: TaskStatus::Queued,
                                updated_at: final(self).tasks()[k].updated_at,
                                ..old(self).tasks()[k]
                            }
                        } else {
                            old(self).tasks()[k]
                        })
                    &&& final(self).queue_view().len() == old(self).queue_view().len() + count
                    &&& forall|j: int|
                        0 <= j < old(self).queue_view().len() ==> #[trigger] final(self).queue_view()[j] == old(self).queue_view()[j]
                    &&& forall|j: int|
                        old(self).queue_view().len() <= j < final(self).queue_view().len()
                            ==> old(self).tasks().contains_key(
                            (#[trigger] final(self).queue_view()[j]).id.bits,
                        ) && spec_requeued(
                            old(self).tasks()[final(self).queue_view()[j].id.bits].status,
                        )
                    &&& spec_entry_ids(
                        final(self).queue_view().subrange(
                            old(self).queue_view().len() as int,
                            final(self).queue_view().len() as int,
                        ),
                    ) == spec_requeued_ids(old(self).tasks_order())
                    &&& final(self).active_ids() == old(self).active_ids()
                    &&& final(self).segs() == old(self).segs()
                },
                Err(e) => {
                    &&& e is Storage
                    &&& final(self).active_ids() == old(self).active_ids()
                    &&& final(self).segs() == old(self).segs()
                    &&& forall|k: u128|
                        final(self).tasks().contains_key(k) == old(self).tasks().contains_key(k)
                    &&& forall|k: u128|
                        #[trigger] old(self).tasks().contains_key(k) ==> final(self).tasks()[k]
                            == old(self).tasks()[k] || (old(self).tasks()[k].status
                            == TaskStatus::Active && final(self).tasks()[k] == (TaskView {
                            status: TaskStatus::Queued,
                            updated_at: final(self).tasks()[k].updated_at,
                            ..old(self).tasks()[k]
                        }))
                    &&& forall|j: int|
                        0 <= j < old(self).queue_view().len() ==> #[trigger] final(self).queue_view()[j] == old(self).queue_view()[j]
                    &&& forall|j: int|
                        old(self).queue_view().len() <= j < final(self).queue_view().len()
                            ==> old(self).tasks().contains_key(
                            (#[trigger] final(self).queue_view()[j]).id.bits,
                        ) && spec_requeued(
                            old(self).tasks()[final(self).queue_view()[j].id.bits].status,
                        )
                },
            },
    {
        let ts = self.storage.list_tasks();
        let ghost order = old(self).tasks_order();
        proof {
            assert forall|i: int|
                0 <= i < ts@.len() implies self.storage.tasks_view().contains_key(
                (#[trigger] ts@[i])@.id,
            ) && ts@[i]@ == self.storage.tasks_view()[ts@[i]@.id] by {
                self.storage.lemma_tasks_seq_in_map(i);
            }
            assert(spec_count_requeued(order.subrange(0, 0)) == 0) by {
                assert(order.subrange(0, 0) =~= Seq::<TaskView>::empty());
            }
            old(self).storage.lemma_tasks_seq_unique();
            assert forall|j: int| 0 <= j < ts@.len() implies #[trigger] self.tasks()[order[j].id]
                == order[j] by {
                assert(ts@[j]@ == order[j]);
            }
        }
        let mut count: usize = 0;
        let mut i: usize = 0;
        while i < ts.len()
            invariant
                self.wf(),
                old(self).wf(),
                order == old(self).tasks_order(),
                ts@.len() == order.len(),
                forall|j: int| 0 <= j < ts@.len() ==> (#[trigger] ts@[j])@ == order[j],
                forall|j: int|
                    0 <= j < ts@.len() ==> old(self).tasks().contains_key(
                        (#[trigger] ts@[j])@.id,
                    ) && old(self).tasks()[ts@[j]@.id] == order[j],
                forall|a: int, b: int|
                    0 <= a < b < ts@.len() ==> (#[trigger] order[a]).id != (#[trigger] order[b]).id,
                0 <= i <= ts@.len(),
                count <= i,
                count as int == spec_count_requeued(order.subrange(0, i as int)),
                forall|k: u128|
                    self.tasks().contains_key(k) == old(self).tasks().contains_key(k),
                forall|j: int|
                    0 <= j < ts@.len() ==> #[trigger] self.tasks()[order[j].id] == (if j < i
                        && order[j].status == TaskStatus::Active {
                        TaskView {
                            status: TaskStatus::Queued,
                            updated_at: self.tasks()[order[j].id].updated_at,
                            ..order[j]
                        }
                    } else {
                        order[j]
                    }),
                self.segs() == old(self).segs(),
                self.queue_view().len() == old(self).queue_view().len() + count,
                forall|j: int|
                    0 <= j < old(self).queue_view().len() ==> #[trigger] self.queue_view()[j]
                        == old(self).queue_view()[j],
                forall|j: int|
                    old(self).queue_view().len() <= j < self.queue_view().len() ==> old(self).tasks().contains_key((#[trigger] self.queue_view()[j]).id.bits)
                        && spec_requeued(
                        old(self).tasks()[self.queue_view()[j].id.bits].status,
                    ),
                spec_entry_ids(
                    self.queue_view().subrange(
                        old(self).queue_view().len() as int,
                        self.queue_view().len() as int,
                    ),
                ) == spec_requeued_ids(order.subrange(0, i as int)),
                self.active_ids() == old(self).active_ids(),
            decreases ts@.len() - i,
        {
            proof {
                assert(order.subrange(0, i + 1).drop_last() =~= order.subrange(0, i as int));
                assert(order.subrange(0, i + 1).last() == order[i as int]);
            }
            let needs_queue = match ts[i].status {
                TaskStatus::Queued => true,
                TaskStatus::Active => {
                    let mut task = ts[i].duplicate();
                    task.status = TaskStatus::Queued;
                    task.touch();
                    if let Err(e) = self.mirror_task(&task) {
                        proof {
                            assert forall|k: u128|
                                #[trigger] old(self).tasks().contains_key(k) implies self.tasks()[
                                k
                            ] == old(self).tasks()[k] || (old(self).tasks()[k].status
                                == TaskStatus::Active && self.tasks()[k] == (TaskView {
                                status: TaskStatus::Queued,
                                updated_at: self.tasks()[k].updated_at,
                                ..old(self).tasks()[k]
                            })) by {
                                old(self).storage.lemma_map_key_in_seq(k);
                                let j = choose|j: int|
                                    0 <= j < old(self).storage.tasks_seq().len() && (#[trigger] old(
                                    self,
                                ).storage.tasks_seq()[j]).id == k;
                                assert(order[j] == old(self).storage.tasks_seq()[j]);
                                assert(ts@[j]@ == order[j]);
                                assert(old(self).tasks()[order[j].id] == order[j]);
                                assert(self.tasks()[order[j].id] == (if j < i as int && order[
                                    j
                                ].status == TaskStatus::Active {
                                    TaskView {
                                        status: TaskStatus::Queued,
                                        updated_at: self.tasks()[order[j].id].updated_at,
                                        ..order[j]
                                    }
                                } else {
                                    order[j]
                                }));
                            }
                        }
                        return Err(e);
                    }
                    self.storage.save_task(&task);
                    true
                },
                _ => false,
            };
            let ghost pre_q = self.queue_view();
            if needs_queue {
                let item = QueueItem::new(ts[i].id, ts[i].priority);
                self.queue.push(item);
                count = count + 1;
            }
            proof {
                let base = old(self).queue_view().len() as int;
                let appended = self.queue_view().subrange(base, self.queue_view().len() as int);
                assert(spec_requeued_ids(order.subrange(0, i + 1)) == spec_requeued_ids(
                    order.subrange(0, i as int),
                ) + (if spec_requeued(order[i as int].status) {
                    seq![order[i as int].id]
                } else {
                    Seq::<u128>::empty()
                }));
                if needs_queue {
                    assert(self.queue_view() == pre_q.push(self.queue_view().last()));
                    assert(self.queue_view().last().id.bits == order[i as int].id);
                    assert(appended =~= pre_q.subrange(base, pre_q.len() as int).push(
                        self.queue_view().last(),
                    ));
                    assert(spec_entry_ids(appended) =~= spec_requeued_ids(
                        order.subrange(0, i + 1),
                    ));
                } else {
                    assert(appended =~= pre_q.subrange(base, pre_q.len() as int));
                    assert(spec_entry_ids(appended) =~= spec_requeued_ids(
                        order.subrange(0, i + 1),
                    ));
                }
                assert forall|j: int|
                    0 <= j < ts@.len() implies #[trigger] self.tasks()[order[j].id] == (if j < i
                        + 1 && order[j].status == TaskStatus::Active {
                        TaskView {
                            status: TaskStatus::Queued,
                            updated_at: self.tasks()[order[j].id].updated_at,
                            ..order[j]
                        }
                    } else {
                        order[j]
                    }) by {
                    if j != i as int {
                        assert(order[j].id != order[i as int].id);
                    }
                }
            }
            i = i + 1;
        }
        proof {
            assert(order.subrange(0, order.len() as int) =~= order);
            assert forall|k: u128| #[trigger] old(self).tasks().contains_key(k) implies final(self).tasks()[k] == (if old(self).tasks()[k].status == TaskStatus::Active {
                TaskView {
                    status: TaskStatus::Queued,
                    updated_at: final(self).tasks()[k].updated_at,
                    ..old(self).tasks()[k]
                }
            } else {
                old(self).tasks()[k]
            }) by {
                old(self).storage.lemma_map_key_in_seq(k);
                let j = choose|j: int|
                    0 <= j < order.len() && (#[trigger] order[j]).id == k;
                assert(old(self).tasks().contains_key(order[j].id));
                assert(old(self).tasks()[order[j].id] == order[j]);
                assert(self.tasks()[order[j].id] == (if order[j].status == TaskStatus::Active {
                    TaskView {
                        status: TaskStatus::Queued,
                        updated_at: self.tasks()[order[j].id].updated_at,
                        ..order[j]
                    }
                } else {
                    order[j]
                }));
            }
        }
        Ok(count)
    }

    /// The persisted segment list of a task; empty when none was stored.
    pub fn load_task_segments(&self, id: &TaskId) -> (r: Vec<crate::segment::Segment>)
        ensures
            r@ == if self.segs().contains_key(id.bits) {
                self.segs()[id.bits]
            } else {
                Seq::<crate::segment::Segment>::empty()
            },
    {
        self.storage.load_segments(id)
    }

    /// Persist a task's state as a worker leaves it; a task written in a
    /// non-`Active` state also leaves the active set.
    pub fn save_task_state(&mut self, task: &Task) -> (r: Result<(), CoreError>)
        requires
            old(self).wf(),
        ensures
            final(self).wf(),
            r is Ok,
            final(self).tasks() == old(self).tasks().insert(task@.id, task@),
            final(self).queue_view() == old(self).queue_view(),
            final(self).active_ids() == if task@.status != TaskStatus::Active {
                spec_ids_without(old(self).active_ids(), task@.id)
            } else {
                old(self).active_ids()
            },
    {
        self.storage.save_task(task);
        let _ = self.mirror_task(task);
        let is_active = match task.status {
            TaskStatus::Active => true,
            _ => false,
        };
        if !is_active {
            let id = task.id;
            self.remove_active(&id);
        }
        Ok(())
    }

    /// Persist a worker's progress: the aggregate byte counter onto the
    /// task row and the full segment array, as one flush. When the handed
    /// counter is the sum of the handed segment counters, that aggregate
    /// law holds verbatim of the persisted state; over a well-formed,
    /// clamped plan the persisted counter also stays within the total.
    pub fn flush_progress(
        &mut self,
        id: &TaskId,
        downloaded: u64,
        segments: &Vec<crate::segment::Segment>,
    ) -> (r: Result<(), CoreError>)
        requires
            old(self).wf(),
        ensures
            final(self).wf(),
            final(self).queue_view() == old(self).queue_view(),
            final(self).active_ids() == old(self).active_ids(),
            match r {
                Ok(_) => {
                    &&& old(self).tasks().contains_key(id.bits)
                    &&& final(self).tasks() == old(self).tasks().insert(
                        id.bits,
                        (TaskView {
                            downloaded_bytes: downloaded,
                            updated_at: final(self).tasks()[id.bits].updated_at,
                            ..old(self).tasks()[id.bits]
                        }),
                    )
                    &&& final(self).segs() == old(self).segs().insert(id.bits, segments@)
                    &&& downloaded as int == crate::progress::spec_sum_downloaded(segments@)
                        ==> final(self).tasks()[id.bits].downloaded_bytes as int
                        == crate::progress::spec_sum_downloaded(final(self).segs()[id.bits])
                    &&& (downloaded as int == crate::progress::spec_sum_downloaded(segments@)
                        && old(self).tasks()[id.bits].total_bytes > 0
                        && crate::segment::spec_ranges_wf(
                        segments@,
                        old(self).tasks()[id.bits].total_bytes,
                    ) && (forall|i: int|
                        0 <= i < segments@.len() ==> (#[trigger] segments@[i]).downloaded_bytes
                            <= segments@[i].spec_size())) ==> final(self).tasks()[
                        id.bits
                    ].downloaded_bytes <= final(self).tasks()[id.bits].total_bytes
                },
                Err(e) => {
                    &&& e is NotFound
                    &&& !old(self).tasks().contains_key(id.bits)
                    &&& final(self).tasks() == old(self).tasks()
                    &&& final(self).segs() == old(self).segs()
                },
            },
    {
        let mut task = match self.storage.load_task(id) {
            Ok(t) => t,
            Err(e) => {
                return Err(e);
            },
        };
        task.downloaded_bytes = downloaded;
        task.touch();
        self.storage.save_task(&task);
        self.storage.save_segments(id, segments);
        let _ = self.mirror_task(&task);
        let _ = self.mirror_segments(id, segments);
        proof {
            if downloaded as int == crate::progress::spec_sum_downloaded(segments@)
                && old(self).tasks()[id.bits].total_bytes > 0 && crate::segment::spec_ranges_wf(
                segments@,
                old(self).tasks()[id.bits].total_bytes,
            ) && (forall|i: int|
                0 <= i < segments@.len() ==> (#[trigger] segments@[i]).downloaded_bytes
                    <= segments@[i].spec_size()) {
                crate::progress::law_progress_within_total(
                    segments@,
                    old(self).tasks()[id.bits].total_bytes,
                );
            }
        }
        Ok(())
    }

    /// Record what probing settled for a task: the resolved destination
    /// path and the reported total size, persisted before the transfer
    /// starts (and again when an unknown total is learned from the file).
    pub fn set_task_target(&mut self, id: &TaskId, total_bytes: u64, dest_path: String) -> (r:
        Result<(), CoreError>)
        requires
            old(self).wf(),
        ensures
            final(self).wf(),
            final(self).queue_view() == old(self).queue_view(),
            final(self).active_ids() == old(self).active_ids(),
            final(self).segs() == old(self).segs(),
            match r {
                Ok(_) => {
                    &&& old(self).tasks().contains_key(id.bits)
                    &&& final(self).tasks() == old(self).tasks().insert(
                        id.bits,
                        (TaskView {
                            total_bytes,
                            dest_path: dest_path@,
                            updated_at: final(self).tasks()[id.bits].updated_at,
                            ..old(self).tasks()[id.bits]
                        }),
                    )
                },
                Err(e) => {
                    &&& (e is NotFound <==> !old(self).tasks().contains_key(id.bits))
                    &&& (e is NotFound || e is Storage)
                    &&& final(self).tasks() == old(self).tasks()
                },
            },
    {
        let mut task = match self.storage.load_task(id) {
            Ok(t) => t,
            Err(e) => {
                return Err(e);
            },
        };
        task.total_bytes = total_bytes;
        task.dest_path = dest_path;
        task.touch();
        if let Err(e) = self.mirror_task(&task) {
            return Err(e);
        }
        self.storage.save_task(&task);
        Ok(())
    }

    /// Persist the outcome of a finished transfer in one step: the
    /// terminal status from the stop flag and the checksum verdict, the
    /// aggregate byte counter, the segment array, and the error text (the
    /// joined worker errors on failure, the fixed mismatch text on a
    /// checksum failure, the prior text otherwise). A task is persisted
    /// `Completed` only with a clear stop flag and no checksum mismatch,
    /// and then its persisted counter is exactly the aggregate handed in;
    /// when every handed segment of a well-formed plan is fully counted,
    /// a completed task's persisted counter equals its persisted total.
    pub fn finish_transfer(
        &mut self,
        id: &TaskId,
        stop: StopSignal,
        checksum_ok: Option<bool>,
        worker_errors: Option<String>,
        downloaded: u64,
        segments: &Vec<crate::segment::Segment>,
    ) -> (r: Result<TaskStatus, CoreError>)
        requires
            old(self).wf(),
        ensures
            final(self).wf(),
            final(self).queue_view() == old(self).queue_view(),
            match r {
                Ok(st) => {
                    &&& st == spec_finalize(stop, checksum_ok).0
                    &&& (st == TaskStatus::Completed ==> stop == StopSignal::Clear && checksum_ok
                        != Some(false))
                    &&& old(self).tasks().contains_key(id.bits)
                    &&& final(self).tasks() == old(self).tasks().insert(
                        id.bits,
                        (TaskView {
                            status: st,
                            downloaded_bytes: downloaded,
                            error: (if st == TaskStatus::Failed && worker_errors is Some {
                                match worker_errors {
                                    Some(ref j) => Some(j@),
                                    None => old(self).tasks()[id.bits].error,
                                }
                            } else {
                                match spec_finalize(stop, checksum_ok).1 {
                                    Some(m) => Some(m),
                                    None => old(self).tasks()[id.bits].error,
                                }
                            }),
                            updated_at: final(self).tasks()[id.bits].updated_at,
                            ..old(self).tasks()[id.bits]
                        }),
                    )
                    &&& final(self).segs() == old(self).segs().insert(id.bits, segments@)
                    &&& final(self).active_ids() == (if st != TaskStatus::Active {
                        spec_ids_without(old(self).active_ids(), id.bits)
                    } else {
                        old(self).active_ids()
                    })
                    &&& (st == TaskStatus::Completed && old(self).tasks()[id.bits].total_bytes > 0
                        && crate::segment::spec_ranges_wf(
                        segments@,
                        old(self).tasks()[id.bits].total_bytes,
                    ) && (forall|i: int|
                        0 <= i < segments@.len() ==> (#[trigger] segments@[i]).downloaded_bytes
                            == segments@[i].spec_size()) && downloaded as int
                        == crate::progress::spec_sum_downloaded(segments@)) ==> final(self).tasks()[
                        id.bits
                    ].downloaded_bytes == final(self).tasks()[id.bits].total_bytes
                },
                Err(e) => {
                    &&& (e is NotFound <==> !old(self).tasks().contains_key(id.bits))
                    &&& (e is NotFound || e is Storage)
                    &&& final(self).tasks() == old(self).tasks()
                    &&& final(self).segs() == old(self).segs()
                    &&& final(self).active_ids() == old(self).active_ids()
                },
            },
    {
        let mut task = match self.storage.load_task(id) {
            Ok(t) => t,
            Err(e) => {
                return Err(e);
            },
        };
        let (status, mismatch) = finalize_status(stop, checksum_ok);
        let is_failed = match status {
            TaskStatus::Failed => true,
            _ => false,
        };
        task.status = status;
        task.downloaded_bytes = downloaded;
        if is_failed && worker_errors.is_some() {
            task.error = worker_errors;
        } else {
            match mismatch {
                Some(m) => {
                    task.error = Some(m);
                },
                None => {},
            }
        }
        task.touch();
        if let Err(e) = self.mirror_task(&task) {
            return Err(e);
        }
        if let Err(e) = self.mirror_segments(id, segments) {
            return Err(e);
        }
        self.storage.save_task(&task);
        self.storage.save_segments(id, segments);
        let is_active = match status {
            TaskStatus::Active => true,
            _ => false,
        };
        if !is_active {
            let tid = task.id;
            self.remove_active(&tid);
        }
        proof {
            if old(self).tasks()[id.bits].total_bytes > 0 && crate::segment::spec_ranges_wf(
                segments@,
                old(self).tasks()[id.bits].total_bytes,
            ) && (forall|i: int|
                0 <= i < segments@.len() ==> (#[trigger] segments@[i]).downloaded_bytes
                    == segments@[i].spec_size()) {
                crate::progress::law_completed_covers_total(
                    segments@,
                    old(self).tasks()[id.bits].total_bytes,
                );
            }
        }
        Ok(status)
    }

    /// Admit the next runnable task: pop entries until one denotes a task
    /// still `Queued`, mark it `Active` with its error cleared, add it to
    /// the active set, and hand its identifier back. `None` when the cap
    /// is reached or no queued entry remains.
    pub fn start_next(&mut self) -> (r: Result<Option<TaskId>, CoreError>)
        requires
            old(self).wf(),
        ensures
            final(self).wf(),
            match r {
                Ok(Some(id)) => {
                    &&& old(self).tasks().contains_key(id.bits)
                    &&& old(self).tasks()[id.bits].status == TaskStatus::Queued
                    &&& final(self).tasks() == old(self).tasks().insert(
                        id.bits,
                        (TaskView {
                            status: TaskStatus::Active,
                            error: None,
                            updated_at: final(self).tasks()[id.bits].updated_at,
                            ..old(self).tasks()[id.bits]
                        }),
                    )
                    &&& final(self).active_ids() == old(self).active_ids().push(id)
                    &&& old(self).active_ids().len() < old(self).cap()
                    &&& final(self).queue_view().len() < old(self).queue_view().len()
                    &&& final(self).segs() == old(self).segs()
                },
                Ok(None) => {
                    &&& final(self).tasks() == old(self).tasks()
                    &&& final(self).active_ids() == old(self).active_ids()
                    &&& final(self).segs() == old(self).segs()
                    &&& (old(self).active_ids().len() >= old(self).cap() && final(self)
                        .queue_view() == old(self).queue_view()) || final(self).queue_view().len()
                        == 0
                },
                Err(e) => {
                    &&& e is Storage
                    &&& final(self).tasks() == old(self).tasks()
                    &&& final(self).segs() == old(self).segs()
                    &&& final(self).active_ids() == old(self).active_ids()
                    &&& final(self).queue_view().len() <= old(self).queue_view().len()
                },
            },
    {
        let active_count = self.active.len();
        if !self.scheduler.can_start(active_count) {
            return Ok(None);
        }
        loop
            invariant
                self.wf(),
                self.tasks() == old(self).tasks(),
                self.segs() == old(self).segs(),
                self.active_ids() == old(self).active_ids(),
                self.active_ids().len() < self.cap(),
                self.cap() == old(self).cap(),
                self.queue_view().len() <= old(self).queue_view().len(),
            decreases self.queue_view().len(),
        {
            let item = match self.queue.pop() {
                Some(item) => item,
                None => {
                    return Ok(None);
                },
            };
            match self.storage.load_task(&item.id) {
                Err(_) => {},
                Ok(mut task) => {
                    let is_queued = match task.status {
                        TaskStatus::Queued => true,
                        _ => false,
                    };
                    if is_queued {
                        task.status = TaskStatus::Active;
                        task.error = None;
                        task.touch();
                        if let Err(e) = self.mirror_task(&task) {
                            return Err(e);
                        }
                        self.storage.save_task(&task);
                        self.active.push(task.id);
                        return Ok(Some(task.id));
                    }
                },
            }
        }
    }
}

} // verus!
