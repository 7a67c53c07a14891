//! Task and segment persistence. The in-memory store is the reference
//! model: a map from task identifier to task, and one from identifier to
//! segment list.

use vstd::prelude::*;
use vstd::map::*;
use crate::error::CoreError;
use crate::segment::Segment;
use crate::task::{Task, TaskView, TaskId};
use crate::strutil::string_from_chars;

verus! {

/// The map a task sequence denotes, later entries winning.
pub open spec fn spec_task_map(s: Seq<Task>) -> Map<u128, TaskView>
    decreases s.len(),
{
    if s.len() == 0 {
        Map::empty()
    } else {
        spec_task_map(s.drop_last()).insert(s.last()@.id, s.last()@)
    }
}

/// No two entries share an identifier.
pub open spec fn spec_unique_ids(s: Seq<Task>) -> bool {
    forall|i: int, j: int|
        0 <= i < j < s.len() ==> (#[trigger] s[i])@.id != (#[trigger] s[j])@.id
}

/// Every entry of a unique-id sequence is its map's binding for its id.
proof fn lemma_task_map_index(s: Seq<Task>, i: int)
    requires
        spec_unique_ids(s),
        0 <= i < s.len(),
    ensures
        spec_task_map(s).contains_key(s[i]@.id),
        spec_task_map(s)[s[i]@.id] == s[i]@,
    decreases s.len(),
{
    if i == s.len() - 1 {
    } else {
        assert(s.drop_last()[i] == s[i]);
        assert(spec_unique_ids(s.drop_last())) by {
            assert(forall|a: int, b: int|
                0 <= a < b < s.len() - 1 ==> s.drop_last()[a] == s[a] && s.drop_last()[b] == s[b]);
        }
        lemma_task_map_index(s.drop_last(), i);
        assert(s[i]@.id != s.last()@.id);
    }
}

/// An identifier no entry carries is not in the map.
proof fn lemma_task_map_absent(s: Seq<Task>, id: u128)
    requires
        forall|i: int| 0 <= i < s.len() ==> (#[trigger] s[i])@.id != id,
    ensures
        !spec_task_map(s).contains_key(id),
    decreases s.len(),
{
    if s.len() > 0 {
        assert(forall|i: int|
            0 <= i < s.len() - 1 ==> (#[trigger] s.drop_last()[i])@.id != id && s.drop_last()[i]
                == s[i]);
        lemma_task_map_absent(s.drop_last(), id);
        assert(s.last()@.id != id);
    }
}

/// Replacing the entry that carries an id rebinds exactly that id.
proof fn lemma_task_map_update(s: Seq<Task>, k: int, t: Task)
    requires
        spec_unique_ids(s),
        0 <= k < s.len(),
        s[k]@.id == t@.id,
    ensures
        spec_task_map(s.update(k, t)) == spec_task_map(s).insert(t@.id, t@),
        spec_unique_ids(s.update(k, t)),
    decreases s.len(),
{
    let su = s.update(k, t);
    assert(spec_unique_ids(su)) by {
        assert(forall|i: int|
            0 <= i < s.len() && i != k ==> (#[trigger] su[i]) == s[i]);
        assert(su[k]@.id == s[k]@.id);
    }
    if k == s.len() - 1 {
        assert(su.drop_last() =~= s.drop_last());
        assert(su.last() == t);
        assert(spec_task_map(su) =~= spec_task_map(s).insert(t@.id, t@)) by {
            lemma_task_map_absent_tail(s);
        }
    } else {
        assert(su.drop_last() =~= s.drop_last().update(k, t));
        assert(spec_unique_ids(s.drop_last())) by {
            assert(forall|a: int, b: int|
                0 <= a < b < s.len() - 1 ==> s.drop_last()[a] == s[a] && s.drop_last()[b] == s[b]);
        }
        assert(s.drop_last()[k] == s[k]);
        lemma_task_map_update(s.drop_last(), k, t);
        assert(su.last() == s.last());
        assert(s.last()@.id != t@.id);
        assert(spec_task_map(su) =~= spec_task_map(s).insert(t@.id, t@));
    }
}

/// The last entry's id is bound by the last entry, so re-inserting the
/// tail binding over the head map loses nothing.
proof fn lemma_task_map_absent_tail(s: Seq<Task>)
    requires
        spec_unique_ids(s),
        s.len() > 0,
    ensures
        !spec_task_map(s.drop_last()).contains_key(s.last()@.id),
{
    assert(forall|i: int|
        0 <= i < s.len() - 1 ==> (#[trigger] s.drop_last()[i]) == s[i]);
    lemma_task_map_absent(s.drop_last(), s.last()@.id);
}

/// Removing the entry that carries an id unbinds exactly that id.
proof fn lemma_task_map_remove(s: Seq<Task>, k: int)
    requires
        spec_unique_ids(s),
        0 <= k < s.len(),
    ensures
        spec_task_map(s.remove(k)) == spec_task_map(s).remove(s[k]@.id),
        spec_unique_ids(s.remove(k)),
    decreases s.len(),
{
    let sr = s.remove(k);
    assert(spec_unique_ids(sr)) by {
        assert(forall|i: int|
            0 <= i < sr.len() ==> (#[trigger] sr[i]) == (if i < k {
                s[i]
            } else {
                s[i + 1]
            }));
    }
    if k == s.len() - 1 {
        assert(sr =~= s.drop_last());
        lemma_task_map_absent_tail(s);
        assert(spec_task_map(sr) =~= spec_task_map(s).remove(s[k]@.id));
    } else {
        assert(sr.drop_last() =~= s.drop_last().remove(k));
        assert(spec_unique_ids(s.drop_last())) by {
            assert(forall|a: int, b: int|
                0 <= a < b < s.len() - 1 ==> s.drop_last()[a] == s[a] && s.drop_last()[b] == s[b]);
        }
        assert(s.drop_last()[k] == s[k]);
        lemma_task_map_remove(s.drop_last(), k);
        assert(sr.last() == s.last());
        assert(s.last()@.id != s[k]@.id);
        assert(spec_task_map(sr) =~= spec_task_map(s).remove(s[k]@.id));
    }
}

/// A unique-id sequence's map binds exactly as many keys as it has
/// entries.
proof fn lemma_task_map_dom_len(s: Seq<Task>)
    requires
        spec_unique_ids(s),
    ensures
        spec_task_map(s).dom().finite(),
        spec_task_map(s).dom().len() == s.len(),
    decreases s.len(),
{
    if s.len() == 0 {
        assert(spec_task_map(s).dom() =~= Set::<u128>::empty());
    } else {
        assert(spec_unique_ids(s.drop_last())) by {
            assert(forall|a: int, b: int|
                0 <= a < b < s.len() - 1 ==> s.drop_last()[a] == s[a] && s.drop_last()[b] == s[b]);
        }
        lemma_task_map_dom_len(s.drop_last());
        lemma_task_map_absent_tail(s);
        let mp = spec_task_map(s.drop_last());
        assert(spec_task_map(s).dom() =~= mp.dom().insert(s.last()@.id));
        vstd::set::axiom_set_insert_len(mp.dom(), s.last()@.id);
    }
}

/// The segment pair sequence as values.
pub open spec fn spec_seg_pairs(v: Seq<(u128, Vec<Segment>)>) -> Seq<(u128, Seq<Segment>)> {
    v.map_values(|p: (u128, Vec<Segment>)| (p.0, p.1@))
}

/// The segment lists a pair sequence denotes, later entries winning.
pub open spec fn spec_seg_map(s: Seq<(u128, Seq<Segment>)>) -> Map<u128, Seq<Segment>>
    decreases s.len(),
{
    if s.len() == 0 {
        Map::empty()
    } else {
        spec_seg_map(s.drop_last()).insert(s.last().0, s.last().1)
    }
}

/// In-memory storage: the reference model of persistence.
#[derive(Debug)]
pub struct MemoryStorage {
    tasks: Vec<Task>,
    segments: Vec<(u128, Vec<Segment>)>,
}

impl MemoryStorage {
    /// The map of stored tasks.
    pub closed spec fn tasks_view(&self) -> Map<u128, TaskView> {
        spec_task_map(self.tasks@)
    }

    /// The map of stored segment lists.
    pub closed spec fn segs_view(&self) -> Map<u128, Seq<Segment>> {
        spec_seg_map(spec_seg_pairs(self.segments@))
    }

    /// The task sequence, for enumeration contracts.
    pub closed spec fn tasks_seq(&self) -> Seq<TaskView> {
        self.tasks@.map_values(|t: Task| t@)
    }

    /// Identifiers are unique; enumeration and the map agree.
    pub closed spec fn wf(&self) -> bool {
        spec_unique_ids(self.tasks@)
    }

    pub fn new() -> (s: MemoryStorage)
        ensures
            s.wf(),
            s.tasks_view() == Map::<u128, TaskView>::empty(),
            s.segs_view() == Map::<u128, Seq<Segment>>::empty(),
            s.tasks_seq().len() == 0,
    {
        let s = MemoryStorage { tasks: Vec::new(), segments: Vec::new() };
        proof {
            assert(spec_seg_pairs(s.segments@) =~= Seq::<(u128, Seq<Segment>)>::empty());
            assert(s.tasks_seq() =~= Seq::<TaskView>::empty());
        }
        s
    }

    /// Store `task` under its identifier, replacing any previous value.
    pub fn save_task(&mut self, task: &Task)
        requires
            old(self).wf(),
        ensures
            final(self).wf(),
            final(self).tasks_view() == old(self).tasks_view().insert(task@.id, task@),
            final(self).segs_view() == old(self).segs_view(),
    {
        let mut i: usize = 0;
        while i < self.tasks.len()
            invariant
                self.wf(),
                self.tasks@ == old(self).tasks@,
                self.segments@ == old(self).segments@,
                0 <= i <= self.tasks@.len(),
                forall|j: int| 0 <= j < i ==> (#[trigger] self.tasks@[j])@.id != task@.id,
            decreases self.tasks@.len() - i,
        {
            if self.tasks[i].id.bits == task.id.bits {
                let t = task.duplicate();
                self.tasks.set(i, t);
                proof {
                    lemma_task_map_update(old(self).tasks@, i as int, self.tasks@[i as int]);
                }
                return;
            }
            i = i + 1;
        }
        let t = task.duplicate();
        self.tasks.push(t);
        proof {
            assert(self.tasks@.drop_last() =~= old(self).tasks@);
            assert(forall|j: int|
                0 <= j < old(self).tasks@.len() ==> (#[trigger] old(self).tasks@[j])@.id
                    != task@.id);
            assert(spec_unique_ids(self.tasks@)) by {
                assert(forall|j: int|
                    0 <= j < self.tasks@.len() - 1 ==> (#[trigger] self.tasks@[j]) == old(
                        self,
                    ).tasks@[j]);
            }
        }
    }

    /// The stored task under `id`, or `NotFound`.
    pub fn load_task(&self, id: &TaskId) -> (r: Result<Task, CoreError>)
        requires
            self.wf(),
        ensures
            match r {
                Ok(t) => self.tasks_view().contains_key(id.bits) && t@ == self.tasks_view()[
                    id.bits
                ] && t@.id == id.bits,
                Err(e) => !self.tasks_view().contains_key(id.bits) && e is NotFound,
            },
    {
        let mut i: usize = 0;
        while i < self.tasks.len()
            invariant
                self.wf(),
                0 <= i <= self.tasks@.len(),
                forall|j: int| 0 <= j < i ==> (#[trigger] self.tasks@[j])@.id != id.bits,
            decreases self.tasks@.len() - i,
        {
            if self.tasks[i].id.bits == id.bits {
                proof {
                    lemma_task_map_index(self.tasks@, i as int);
                }
                return Ok(self.tasks[i].duplicate());
            }
            i = i + 1;
        }
        proof {
            lemma_task_map_absent(self.tasks@, id.bits);
        }
        let text = id.to_canonical();
        Err(CoreError::NotFound(text))
    }

    /// Copies of all stored tasks, in storage order.
    pub fn list_tasks(&self) -> (r: Vec<Task>)
        requires
            self.wf(),
        ensures
            r@.len() == self.tasks_seq().len(),
            forall|i: int| 0 <= i < r@.len() ==> (#[trigger] r@[i])@ == self.tasks_seq()[i],
    {
        let mut r: Vec<Task> = Vec::new();
        let mut i: usize = 0;
        while i < self.tasks.len()
            invariant
                0 <= i <= self.tasks@.len(),
                r@.len() == i,
                forall|j: int| 0 <= j < i ==> (#[trigger] r@[j])@ == self.tasks@[j]@,
            decreases self.tasks@.len() - i,
        {
            r.push(self.tasks[i].duplicate());
            i = i + 1;
        }
        r
    }

    /// Remove the task and its segments; removing an absent id succeeds.
    pub fn delete_task(&mut self, id: &TaskId)
        requires
            old(self).wf(),
        ensures
            final(self).wf(),
            final(self).tasks_view() == old(self).tasks_view().remove(id.bits),
            final(self).segs_view() == old(self).segs_view().remove(id.bits),
    {
        let mut i: usize = 0;
        let n = self.tasks.len();
        let mut idx: usize = n;
        while i < n
            invariant
                self.wf(),
                self.tasks@ == old(self).tasks@,
                self.segments@ == old(self).segments@,
                n == self.tasks@.len(),
                0 <= i <= n,
                idx == n || (0 <= idx < n && self.tasks@[idx as int]@.id == id.bits),
                idx == n ==> forall|j: int|
                    0 <= j < i ==> (#[trigger] self.tasks@[j])@.id != id.bits,
            decreases n - i,
        {
            if idx == n && self.tasks[i].id.bits == id.bits {
                idx = i;
            }
            i = i + 1;
        }
        if idx < n {
            self.tasks.remove(idx);
            proof {
                lemma_task_map_remove(old(self).tasks@, idx as int);
            }
        } else {
            proof {
                lemma_task_map_absent(self.tasks@, id.bits);
                assert(self.tasks_view() =~= old(self).tasks_view().remove(id.bits));
            }
        }
        self.remove_segments(id);
    }

    /// Replace the stored segment list of `task_id`.
    pub fn save_segments(&mut self, task_id: &TaskId, segments: &Vec<Segment>)
        requires
            old(self).wf(),
        ensures
            final(self).wf(),
            final(self).tasks_view() == old(self).tasks_view(),
            final(self).segs_view() == old(self).segs_view().insert(task_id.bits, segments@),
    {
        let mut copy: Vec<Segment> = Vec::new();
        let mut i: usize = 0;
        while i < segments.len()
            invariant
                0 <= i <= segments@.len(),
                copy@ == segments@.subrange(0, i as int),
            decreases segments@.len() - i,
        {
            copy.push(segments[i]);
            proof {
                assert(copy@ =~= segments@.subrange(0, i + 1));
            }
            i = i + 1;
        }
        proof {
            assert(copy@ =~= segments@);
        }
        self.segments.push((task_id.bits, copy));
        proof {
            let m = spec_seg_pairs(self.segments@);
            let mo = spec_seg_pairs(old(self).segments@);
            assert(m.drop_last() =~= mo);
            assert(m.last() == (task_id.bits, segments@));
        }
    }

    /// The stored segment list of `task_id`; empty when none is stored.
    pub fn load_segments(&self, task_id: &TaskId) -> (r: Vec<Segment>)
        ensures
            r@ == if self.segs_view().contains_key(task_id.bits) {
                self.segs_view()[task_id.bits]
            } else {
                Seq::<Segment>::empty()
            },
    {
        let n = self.segments.len();
        let mut i: usize = n;
        let ghost m = spec_seg_pairs(self.segments@);
        while i > 0
            invariant
                0 <= i <= self.segments@.len(),
                m == spec_seg_pairs(self.segments@),
                forall|j: int| i <= j < m.len() ==> (#[trigger] m[j]).0 != task_id.bits,
            decreases i,
        {
            if self.segments[i - 1].0 == task_id.bits {
                let found = &self.segments[i - 1].1;
                let mut copy: Vec<Segment> = Vec::new();
                let mut k: usize = 0;
                while k < found.len()
                    invariant
                        0 <= k <= found@.len(),
                        copy@ == found@.subrange(0, k as int),
                    decreases found@.len() - k,
                {
                    copy.push(found[k]);
                    proof {
                        assert(copy@ =~= found@.subrange(0, k + 1));
                    }
                    k = k + 1;
                }
                proof {
                    assert(copy@ =~= found@);
                    assert(m[i - 1].0 == task_id.bits && m[i - 1].1 == found@);
                    lemma_seg_map_found(m, i as int - 1, task_id.bits);
                }
                return copy;
            }
            i = i - 1;
        }
        proof {
            lemma_seg_map_absent(m, task_id.bits);
        }
        Vec::new()
    }

    /// The enumeration has exactly one entry per bound key.
    pub proof fn lemma_tasks_count(&self)
        requires
            self.wf(),
        ensures
            self.tasks_view().dom().finite(),
            self.tasks_seq().len() == self.tasks_view().dom().len(),
    {
        lemma_task_map_dom_len(self.tasks@);
    }

    /// Enumerated identifiers are pairwise distinct.
    pub proof fn lemma_tasks_seq_unique(&self)
        requires
            self.wf(),
        ensures
            forall|a: int, b: int|
                0 <= a < b < self.tasks_seq().len() ==> (#[trigger] self.tasks_seq()[a]).id
                    != (#[trigger] self.tasks_seq()[b]).id,
    {
        assert forall|a: int, b: int|
            0 <= a < b < self.tasks_seq().len() implies (#[trigger] self.tasks_seq()[a]).id
            != (#[trigger] self.tasks_seq()[b]).id by {
            assert(self.tasks_seq()[a] == self.tasks@[a]@);
            assert(self.tasks_seq()[b] == self.tasks@[b]@);
        }
    }

    /// Every bound key appears in the enumeration.
    pub proof fn lemma_map_key_in_seq(&self, id: u128)
        requires
            self.wf(),
            self.tasks_view().contains_key(id),
        ensures
            exists|j: int|
                0 <= j < self.tasks_seq().len() && (#[trigger] self.tasks_seq()[j]).id == id,
    {
        lemma_task_map_key_has_index(self.tasks@, id);
        let j = choose|j: int| 0 <= j < self.tasks@.len() && self.tasks@[j]@.id == id;
        assert(self.tasks_seq()[j].id == id);
    }

    /// Each enumerated task is its map binding.
    pub proof fn lemma_tasks_seq_in_map(&self, i: int)
        requires
            self.wf(),
            0 <= i < self.tasks_seq().len(),
        ensures
            self.tasks_view().contains_key(self.tasks_seq()[i].id),
            self.tasks_view()[self.tasks_seq()[i].id] == self.tasks_seq()[i],
    {
        assert(self.tasks_seq()[i] == self.tasks@[i]@);
        lemma_task_map_index(self.tasks@, i);
    }

    fn remove_segments(&mut self, id: &TaskId)
        ensures
            final(self).tasks@ == old(self).tasks@,
            final(self).segs_view() == old(self).segs_view().remove(id.bits),
    {
        let mut keep: Vec<(u128, Vec<Segment>)> = Vec::new();
        let n = self.segments.len();
        let mut i: usize = 0;
        while i < n
            invariant
                0 <= i <= self.segments@.len(),
                n == self.segments@.len(),
                self.tasks@ == old(self).tasks@,
                self.segments@ == old(self).segments@,
                spec_seg_pairs(keep@) == spec_filter_out(
                    spec_seg_pairs(self.segments@).subrange(0, i as int),
                    id.bits,
                ),
            decreases self.segments@.len() - i,
        {
            let ghost pre = spec_seg_pairs(keep@);
            let pair_id = self.segments[i].0;
            if pair_id != id.bits {
                let src = &self.segments[i].1;
                let mut copy: Vec<Segment> = Vec::new();
                let mut k: usize = 0;
                while k < src.len()
                    invariant
                        0 <= k <= src@.len(),
                        copy@ == src@.subrange(0, k as int),
                    decreases src@.len() - k,
                {
                    copy.push(src[k]);
                    proof {
                        assert(copy@ =~= src@.subrange(0, k + 1));
                    }
                    k = k + 1;
                }
                proof {
                    assert(copy@ =~= src@);
                }
                keep.push((pair_id, copy));
                proof {
                    assert(spec_seg_pairs(keep@) =~= pre.push((pair_id, src@)));
                }
            }
            proof {
                let mall = spec_seg_pairs(self.segments@);
                let sub1 = mall.subrange(0, i + 1);
                assert(sub1.drop_last() =~= mall.subrange(0, i as int));
                assert(sub1.last() == mall[i as int]);
                assert(mall[i as int].0 == self.segments@[i as int].0);
                if self.segments@[i as int].0 == id.bits {
                    assert(spec_filter_out(sub1, id.bits) == spec_filter_out(
                        mall.subrange(0, i as int),
                        id.bits,
                    ) + Seq::<(u128, Seq<Segment>)>::empty());
                    assert(spec_filter_out(sub1, id.bits) =~= spec_filter_out(
                        mall.subrange(0, i as int),
                        id.bits,
                    ));
                    assert(spec_seg_pairs(keep@) == spec_filter_out(sub1, id.bits));
                } else {
                    assert(spec_filter_out(sub1, id.bits) =~= spec_filter_out(
                        mall.subrange(0, i as int),
                        id.bits,
                    ).push(mall[i as int]));
                    assert((pair_id, self.segments@[i as int].1@) == mall[i as int]);
                    assert(spec_seg_pairs(keep@) =~= spec_filter_out(sub1, id.bits));
                }
            }
            i = i + 1;
        }
        proof {
            let mall = spec_seg_pairs(self.segments@);
            assert(mall.subrange(0, mall.len() as int) =~= mall);
            lemma_seg_map_filter(mall, id.bits);
        }
        self.segments = keep;
    }
}

/// A bound key is carried by some entry.
proof fn lemma_task_map_key_has_index(s: Seq<Task>, id: u128)
    requires
        spec_task_map(s).contains_key(id),
    ensures
        exists|j: int| 0 <= j < s.len() && (#[trigger] s[j])@.id == id,
    decreases s.len(),
{
    if s.len() > 0 {
        if s.last()@.id == id {
            assert(s[s.len() - 1]@.id == id);
        } else {
            lemma_task_map_key_has_index(s.drop_last(), id);
            let j = choose|j: int|
                0 <= j < s.drop_last().len() && (#[trigger] s.drop_last()[j])@.id == id;
            assert(s[j]@.id == id);
        }
    }
}

/// The pair sequence with every binding of `id` left out.
pub open spec fn spec_filter_out(s: Seq<(u128, Seq<Segment>)>, id: u128) -> Seq<
    (u128, Seq<Segment>),
>
    decreases s.len(),
{
    if s.len() == 0 {
        seq![]
    } else {
        spec_filter_out(s.drop_last(), id) + (if s.last().0 == id {
            seq![]
        } else {
            seq![s.last()]
        })
    }
}

/// Filtering a key out of the sequence removes exactly that key from the
/// map.
proof fn lemma_seg_map_filter(s: Seq<(u128, Seq<Segment>)>, id: u128)
    ensures
        spec_seg_map(spec_filter_out(s, id)) == spec_seg_map(s).remove(id),
    decreases s.len(),
{
    if s.len() == 0 {
        assert(spec_seg_map(spec_filter_out(s, id)) =~= spec_seg_map(s).remove(id));
    } else {
        lemma_seg_map_filter(s.drop_last(), id);
        if s.last().0 == id {
            assert(spec_filter_out(s, id) =~= spec_filter_out(s.drop_last(), id));
            assert(spec_seg_map(spec_filter_out(s, id)) =~= spec_seg_map(s).remove(id));
        } else {
            let f = spec_filter_out(s, id);
            assert(f.drop_last() =~= spec_filter_out(s.drop_last(), id));
            assert(f.last() == s.last());
            assert(spec_seg_map(f) =~= spec_seg_map(s).remove(id));
        }
    }
}

proof fn lemma_seg_map_found(s: Seq<(u128, Seq<Segment>)>, k: int, id: u128)
    requires
        0 <= k < s.len(),
        s[k].0 == id,
        forall|j: int| k < j < s.len() ==> (#[trigger] s[j]).0 != id,
    ensures
        spec_seg_map(s).contains_key(id),
        spec_seg_map(s)[id] == s[k].1,
    decreases s.len(),
{
    if k == s.len() - 1 {
    } else {
        assert(forall|j: int|
            k < j < s.len() - 1 ==> (#[trigger] s.drop_last()[j]) == s[j]);
        assert(s.drop_last()[k] == s[k]);
        lemma_seg_map_found(s.drop_last(), k, id);
        assert(s.last().0 != id);
    }
}

proof fn lemma_seg_map_absent(s: Seq<(u128, Seq<Segment>)>, id: u128)
    requires
        forall|j: int| 0 <= j < s.len() ==> (#[trigger] s[j]).0 != id,
    ensures
        !spec_seg_map(s).contains_key(id),
    decreases s.len(),
{
    if s.len() > 0 {
        assert(forall|j: int|
            0 <= j < s.len() - 1 ==> (#[trigger] s.drop_last()[j]) == s[j]);
        lemma_seg_map_absent(s.drop_last(), id);
    }
}

} // verus!

