//! The event graph: an append-only sequence of unit tensors, one per
//! resolved triplet, with branch/rejoin intervals marking runs of
//! virtual (non-indicative-mood) events over the real timeline.

use vstd::prelude::*;

verus! {

/// More events than this would exhaust the id space.
pub const EVENT_STORE_CAP: usize = 0x7FFF_0000;

/// One node in the discourse's chronologically ordered event sequence.
#[derive(Debug, Clone, Copy, PartialEq, Eq, Structural)]
pub struct UnitTensor {
    /// Row id; strictly increasing, assigned on append starting at 1.
    pub unit_tensor_id: i64,
    pub sentence_id: i32,
    pub discourse_id: i32,
    /// Entity of the object; also the location when no explicit
    /// location is classified.
    pub object_entity_id: i64,
    pub subject_entity_id: i64,
    /// Entity of a geographic location, or -1.  Mutually exclusive
    /// with `when_entity_id`.
    pub where_entity_id: i64,
    /// Entity of a temporal location, or -1.
    pub when_entity_id: i64,
    pub predicate_entity_id: i64,
    /// 1 = past, 2 = present, 3 = future.
    pub tense: i32,
    /// Interned verb mood code.
    pub mood: u32,
    /// Excited position carried by the event.
    pub excited_x: i64,
    pub excited_y: i64,
}

/// Creates a new unit tensor with `unit_tensor_id` set to -1 until the
/// graph assigns one.
pub fn create_unit_tensor(
    sentence_id: i32,
    discourse_id: i32,
    object_entity_id: i64,
    subject_entity_id: i64,
    where_entity_id: i64,
    when_entity_id: i64,
    predicate_entity_id: i64,
    tense: i32,
    mood: u32,
    excited_x: i64,
    excited_y: i64,
) -> (r: UnitTensor)
    ensures
        r == (UnitTensor {
            unit_tensor_id: -1i64,
            sentence_id,
            discourse_id,
            object_entity_id,
            subject_entity_id,
            where_entity_id,
            when_entity_id,
            predicate_entity_id,
            tense,
            mood,
            excited_x,
            excited_y,
        }),
{
    UnitTensor {
        unit_tensor_id: -1,
        sentence_id,
        discourse_id,
        object_entity_id,
        subject_entity_id,
        where_entity_id,
        when_entity_id,
        predicate_entity_id,
        tense,
        mood,
        excited_x,
        excited_y,
    }
}

/// A run of consecutive virtual unit tensors: it branches off the real
/// timeline at `branch_id` and rejoins it at `rejoin_id`.  A rejoin id
/// of -1 marks a trailing run left open when the discourse ends while
/// still virtual.
#[derive(Debug, Clone, Copy, PartialEq, Eq, Structural)]
pub struct UnitTensorEtherealDef {
    pub branch_id: i64,
    pub rejoin_id: i64,
}

/// The intervals as pairs of ids.
pub open spec fn intervals_view(s: Seq<UnitTensorEtherealDef>) -> Seq<(int, int)> {
    s.map_values(|d: UnitTensorEtherealDef| (d.branch_id as int, d.rejoin_id as int))
}

/// The intervals that a sequence of virtuality flags produces, one flag
/// per appended event, event ids starting at 1: a real-to-virtual
/// transition opens an interval at the new event's id, the next
/// virtual-to-real transition closes it at the new event's id, and
/// consecutive virtual events extend the current run.
pub open spec fn spec_intervals(flags: Seq<bool>) -> Seq<(int, int)>
    decreases flags.len(),
{
    if flags.len() == 0 {
        Seq::empty()
    } else {
        let prev = spec_intervals(flags.drop_last());
        let id = flags.len() as int;
        let was_virtual = flags.len() > 1 && flags[flags.len() - 2];
        if flags.last() && !was_virtual {
            prev.push((id, -1))
        } else if !flags.last() && was_virtual && prev.len() > 0 && prev.last().1 == -1 {
            prev.update(prev.len() - 1, (prev.last().0, id))
        } else {
            prev
        }
    }
}

/// Whether an event id falls inside one of the intervals; an open
/// interval covers every id from its branch onward.
pub open spec fn id_in_intervals(ivs: Seq<(int, int)>, id: int) -> bool {
    exists|i: int|
        0 <= i < ivs.len() && (#[trigger] ivs[i]).0 <= id && (ivs[i].1 == -1 || id <= ivs[i].1)
}

/// The discourse's event graph.
pub struct EventGraph {
    pub tensors: Vec<UnitTensor>,
    pub intervals: Vec<UnitTensorEtherealDef>,
    /// Whether the most recently appended event was virtual.
    pub currently_virtual: bool,
    /// The virtuality flag of every appended event, in order.
    pub flags: Ghost<Seq<bool>>,
}

impl EventGraph {
    pub open spec fn wf(&self) -> bool {
        &&& self.tensors@.len() == self.flags@.len()
        &&& self.tensors@.len() <= EVENT_STORE_CAP
        &&& forall|i: int| 0 <= i < self.tensors@.len() ==> (#[trigger] self.tensors@[i]).unit_tensor_id == i + 1
        &&& self.currently_virtual == (self.flags@.len() > 0 && self.flags@.last())
        &&& intervals_view(self.intervals@) == spec_intervals(self.flags@)
        &&& (self.currently_virtual <==> (self.intervals@.len() > 0
            && self.intervals@.last().rejoin_id == -1))
    }

    pub fn new() -> (r: EventGraph)
        ensures
            r.wf(),
            r.tensors@.len() == 0,
            r.intervals@.len() == 0,
            r.flags@ =~= Seq::<bool>::empty(),
    {
        let r = EventGraph {
            tensors: Vec::new(),
            intervals: Vec::new(),
            currently_virtual: false,
            flags: Ghost(Seq::empty()),
        };
        proof {
            assert(intervals_view(r.intervals@) =~= spec_intervals(r.flags@));
        }
        r
    }

    /// Appends one event carrying the fields of `tensor`, assigning it
    /// the next id, and threads the virtual branch/rejoin intervals:
    /// a real-to-virtual transition opens an interval, a
    /// virtual-to-real transition closes the open one, and consecutive
    /// virtual events open nothing new.
    pub fn append_event(&mut self, tensor: &UnitTensor, is_virtual_triplet: bool) -> (id: i64)
        requires
            old(self).wf(),
            old(self).tensors@.len() < EVENT_STORE_CAP,
        ensures
            final(self).wf(),
            final(self).flags@ == old(self).flags@.push(is_virtual_triplet),
            id == old(self).tensors@.len() + 1,
            final(self).tensors@ == old(self).tensors@.push(
                UnitTensor { unit_tensor_id: id, ..*tensor },
            ),
            final(self).currently_virtual == is_virtual_triplet,
            final(self).intervals@.len() >= old(self).intervals@.len(),
            intervals_view(final(self).intervals@) == spec_intervals(
                old(self).flags@.push(is_virtual_triplet),
            ),
    {
        let id: i64 = self.tensors.len() as i64 + 1;
        let appended = UnitTensor { unit_tensor_id: id, ..*tensor };
        self.tensors.push(appended);
        let ghost old_flags = self.flags@;
        let ghost new_flags = self.flags@.push(is_virtual_triplet);
        proof {
            self.flags@ = new_flags;
            assert(new_flags.drop_last() =~= old_flags);
        }
        if is_virtual_triplet && !self.currently_virtual {
            self.intervals.push(UnitTensorEtherealDef { branch_id: id, rejoin_id: -1 });
            proof {
                assert(intervals_view(self.intervals@) =~= spec_intervals(new_flags));
            }
        } else if !is_virtual_triplet && self.currently_virtual {
            let n = self.intervals.len();
            let last = self.intervals[n - 1];
            self.intervals.set(n - 1, UnitTensorEtherealDef {
                branch_id: last.branch_id,
                rejoin_id: id,
            });
            proof {
                assert(intervals_view(self.intervals@) =~= spec_intervals(new_flags));
            }
        } else {
            proof {
                assert(intervals_view(self.intervals@) =~= spec_intervals(new_flags));
            }
        }
        self.currently_virtual = is_virtual_triplet;
        id
    }
}

/// The interval law on the canonical five-event shape: the virtuality
/// sequence real, real, virtual, virtual, real produces exactly one
/// interval, branching at the id of the first virtual event and
/// rejoining at the id of the real event that follows the run.
pub proof fn lemma_interval_law()
    ensures
        spec_intervals(seq![false, false, true, true, false]) =~= seq![(3int, 5int)],
{
    let f5 = seq![false, false, true, true, false];
    let f4 = seq![false, false, true, true];
    let f3 = seq![false, false, true];
    let f2 = seq![false, false];
    let f1 = seq![false];
    let f0 = Seq::<bool>::empty();
    assert(f5.drop_last() =~= f4);
    assert(f4.drop_last() =~= f3);
    assert(f3.drop_last() =~= f2);
    assert(f2.drop_last() =~= f1);
    assert(f1.drop_last() =~= f0);
    assert(spec_intervals(f0) =~= Seq::<(int, int)>::empty());
    assert(spec_intervals(f1) =~= Seq::<(int, int)>::empty());
    assert(spec_intervals(f2) =~= Seq::<(int, int)>::empty());
    assert(spec_intervals(f3) =~= seq![(3int, -1int)]);
    assert(spec_intervals(f4) =~= seq![(3int, -1int)]);
    assert(spec_intervals(f5) =~= seq![(3int, 5int)]);
}

/// Tests whether the event with the given id lies inside a virtual
/// branch/rejoin run.
pub fn tensor_is_virtual(intervals: &Vec<UnitTensorEtherealDef>, unit_tensor_id: i64) -> (r: bool)
    ensures
        r == id_in_intervals(intervals_view(intervals@), unit_tensor_id as int),
{
    let mut i: usize = 0;
    while i < intervals.len()
        invariant
            i <= intervals@.len(),
            !id_in_intervals(intervals_view(intervals@).take(i as int), unit_tensor_id as int),
        decreases intervals@.len() - i,
    {
        let d = intervals[i];
        if d.branch_id <= unit_tensor_id && (d.rejoin_id == -1 || unit_tensor_id <= d.rejoin_id) {
            proof {
                assert(intervals_view(intervals@)[i as int].0 <= unit_tensor_id as int);
            }
            return true;
        }
        proof {
            let iv = intervals_view(intervals@);
            assert forall|k: int| 0 <= k < i + 1 implies !((#[trigger] iv.take(i + 1)[k]).0
                <= unit_tensor_id as int && (iv.take(i + 1)[k].1 == -1 || unit_tensor_id as int
                <= iv.take(i + 1)[k].1)) by {
                if k < i {
                    assert(iv.take(i as int)[k] == iv.take(i + 1)[k]);
                    assert(!id_in_intervals(iv.take(i as int), unit_tensor_id as int));
                } else {
                    assert(iv.take(i + 1)[k] == iv[i as int]);
                }
            }
        }
        i = i + 1;
    }
    proof {
        assert(intervals_view(intervals@).take(intervals@.len() as int) =~= intervals_view(
            intervals@,
        ));
    }
    false
}

/// The shape every interval list of an event sequence of `n` events
/// keeps: branch ids name events, a closed interval rejoins at or
/// after its branch, only the last interval can be open, and the
/// intervals are disjoint and ordered.
pub open spec fn intervals_shape(ivs: Seq<(int, int)>, n: int) -> bool {
    &&& forall|i: int| 0 <= i < ivs.len() ==> 1 <= (#[trigger] ivs[i]).0 <= n
    &&& forall|i: int|
        0 <= i < ivs.len() ==> ((#[trigger] ivs[i]).1 == -1 ==> i == ivs.len() - 1)
    &&& forall|i: int|
        0 <= i < ivs.len() ==> ((#[trigger] ivs[i]).1 != -1 ==> ivs[i].0 <= ivs[i].1 <= n)
    &&& forall|i: int, j: int|
        0 <= i < j < ivs.len() ==> (#[trigger] ivs[i]).1 != -1 && ivs[i].1 < (#[trigger] ivs[j]).0
}

/// The interval law in general: every virtuality sequence produces
/// non-overlapping, ordered intervals whose branch and rejoin ids name
/// events, a closed interval rejoins no earlier than it branches, and
/// at most the trailing interval stays open, exactly when the sequence
/// ends while virtual.
pub proof fn lemma_intervals_shape(flags: Seq<bool>)
    ensures
        intervals_shape(spec_intervals(flags), flags.len() as int),
        (spec_intervals(flags).len() > 0 && spec_intervals(flags).last().1 == -1) <==> (flags.len()
            > 0 && flags.last()),
    decreases flags.len(),
{
    if flags.len() > 0 {
        lemma_intervals_shape(flags.drop_last());
        let prev = spec_intervals(flags.drop_last());
        let ivs = spec_intervals(flags);
        let n = flags.len() as int;
        let was_virtual = flags.len() > 1 && flags[flags.len() - 2];
        if flags.last() && !was_virtual {
            assert(ivs =~= prev.push((n, -1)));
            assert forall|i: int| 0 <= i < ivs.len() implies ((#[trigger] ivs[i]).1 == -1 ==> i
                == ivs.len() - 1) by {
                if i < prev.len() {
                    assert(ivs[i] == prev[i]);
                }
            }
        } else if !flags.last() && was_virtual && prev.len() > 0 && prev.last().1 == -1 {
            assert(ivs =~= prev.update(prev.len() - 1, (prev.last().0, n)));
        }
    }
}

/// One side of the real/virtual partition of the event sequence:
/// the tensors whose interval membership matches the requested side,
/// in their chronological order.
pub open spec fn partition_tensors(
    tensors: Seq<UnitTensor>,
    ivs: Seq<(int, int)>,
    virtual_part: bool,
) -> Seq<UnitTensor>
    decreases tensors.len(),
{
    if tensors.len() == 0 {
        Seq::empty()
    } else {
        let prev = partition_tensors(tensors.drop_last(), ivs, virtual_part);
        let t = tensors.last();
        if id_in_intervals(ivs, t.unit_tensor_id as int) == virtual_part {
            prev.push(t)
        } else {
            prev
        }
    }
}

/// The two partitions cover the event sequence exactly: every event
/// stands in the real partition or in the virtual one, and in only
/// one of them.
pub proof fn lemma_partition_complete(tensors: Seq<UnitTensor>, ivs: Seq<(int, int)>)
    ensures
        partition_tensors(tensors, ivs, false).to_multiset().add(
            partition_tensors(tensors, ivs, true).to_multiset(),
        ) == tensors.to_multiset(),
    decreases tensors.len(),
{
    broadcast use vstd::seq_lib::group_to_multiset_ensures;

    if tensors.len() > 0 {
        lemma_partition_complete(tensors.drop_last(), ivs);
        let t = tensors.last();
        assert(tensors =~= tensors.drop_last().push(t));
        assert(tensors.to_multiset() =~= tensors.drop_last().to_multiset().insert(t));
        if id_in_intervals(ivs, t.unit_tensor_id as int) {
            assert(partition_tensors(tensors, ivs, true).to_multiset() =~= partition_tensors(
                tensors.drop_last(),
                ivs,
                true,
            ).to_multiset().insert(t));
            assert(partition_tensors(tensors, ivs, false) == partition_tensors(
                tensors.drop_last(),
                ivs,
                false,
            ));
        } else {
            assert(partition_tensors(tensors, ivs, false).to_multiset() =~= partition_tensors(
                tensors.drop_last(),
                ivs,
                false,
            ).to_multiset().insert(t));
            assert(partition_tensors(tensors, ivs, true) == partition_tensors(
                tensors.drop_last(),
                ivs,
                true,
            ));
        }
        assert(partition_tensors(tensors, ivs, false).to_multiset().add(
            partition_tensors(tensors, ivs, true).to_multiset(),
        ) =~= tensors.to_multiset());
    } else {
        assert(partition_tensors(tensors, ivs, false).to_multiset().add(
            partition_tensors(tensors, ivs, true).to_multiset(),
        ) =~= tensors.to_multiset());
    }
}

/// Selects the unit tensors of one partition of the discourse: the
/// virtual events (those inside a branch/rejoin run) or the real ones.
pub fn select_unit_tensor(graph: &EventGraph, is_virtual: bool) -> (r: Vec<UnitTensor>)
    ensures
        r@ == partition_tensors(graph.tensors@, intervals_view(graph.intervals@), is_virtual),
        r@.len() <= graph.tensors@.len(),
        forall|i: int| 0 <= i < r@.len() ==> graph.tensors@.contains(#[trigger] r@[i]),
{
    let mut result: Vec<UnitTensor> = Vec::new();
    let mut i: usize = 0;
    while i < graph.tensors.len()
        invariant
            i <= graph.tensors@.len(),
            result@ == partition_tensors(
                graph.tensors@.take(i as int),
                intervals_view(graph.intervals@),
                is_virtual,
            ),
            result@.len() <= i,
            forall|k: int| 0 <= k < result@.len() ==> graph.tensors@.contains(#[trigger] result@[k]),
        decreases graph.tensors@.len() - i,
    {
        let t = graph.tensors[i];
        proof {
            assert(graph.tensors@.take(i + 1).drop_last() =~= graph.tensors@.take(i as int));
            assert(graph.tensors@.take(i + 1).last() == graph.tensors@[i as int]);
            assert(graph.tensors@.contains(graph.tensors@[i as int]));
        }
        if tensor_is_virtual(&graph.intervals, t.unit_tensor_id) == is_virtual {
            result.push(t);
        }
        i = i + 1;
    }
    proof {
        assert(graph.tensors@.take(graph.tensors@.len() as int) =~= graph.tensors@);
    }
    result
}

} // verus!
