//! Frames under reception, and ordered walks over maps keyed by frame.
use std::collections::BTreeMap;
use vstd::prelude::*;
use vstd::std_specs::cmp::OrdSpec;
use vstd::std_specs::iter::IteratorSpec;

verus! {

// ---------------------------------------------------------------------------
// Keys in ascending order
// ---------------------------------------------------------------------------

/// Strictly ascending numbers.
pub open spec fn ascending(ids: Seq<u64>) -> bool {
    forall|i: int, j: int| 0 <= i < j < ids.len() ==> ids[i] < ids[j]
}

/// Whether `ids` lists the members of `set` in ascending order.
pub open spec fn lists(ids: Seq<u64>, set: Set<u64>) -> bool {
    ascending(ids) && ids.to_set() == set
}

/// The members of a set in ascending order.
pub open spec fn sorted(set: Set<u64>) -> Seq<u64> {
    choose|ids: Seq<u64>| lists(ids, set)
}

/// There is only one ascending listing of a set.
pub proof fn lemma_sorted_unique(ids: Seq<u64>, set: Set<u64>)
    requires
        lists(ids, set),
    ensures
        sorted(set) == ids,
{
    lemma_same_listing(ids, sorted(set), set);
}

proof fn lemma_same_listing(left: Seq<u64>, right: Seq<u64>, set: Set<u64>)
    requires
        lists(left, set),
        lists(right, set),
    ensures
        left == right,
    decreases left.len(),
{
    if left.len() == 0 {
        if right.len() > 0 {
            assert(right.to_set().contains(right[0]));
            assert(left.to_set().contains(right[0]));
        }
        assert(left =~= right);
    } else {
        let last = left.last();
        assert(left.to_set().contains(last));
        assert(right.to_set().contains(last));
        let at = choose|k: int| 0 <= k < right.len() && right[k] == last;
        let other = right.last();
        assert(right.to_set().contains(other));
        assert(left.to_set().contains(other));
        let place = choose|k: int| 0 <= k < left.len() && left[k] == other;
        assert(other == last);
        let rest = set.remove(last);
        lemma_drop_listing(left, set);
        lemma_drop_listing(right, set);
        lemma_same_listing(left.drop_last(), right.drop_last(), rest);
        assert(left =~= left.drop_last().push(last));
        assert(right =~= right.drop_last().push(last));
    }
}

proof fn lemma_drop_listing(ids: Seq<u64>, set: Set<u64>)
    requires
        lists(ids, set),
        ids.len() > 0,
    ensures
        lists(ids.drop_last(), set.remove(ids.last())),
{
    let head = ids.drop_last();
    assert forall|id: u64| head.to_set().contains(id) == set.remove(ids.last()).contains(id) by {
        if head.to_set().contains(id) {
            let k = choose|k: int| 0 <= k < head.len() && head[k] == id;
            assert(ids[k] == id);
            assert(ids.to_set().contains(id));
        }
        if set.remove(ids.last()).contains(id) {
            assert(ids.to_set().contains(id));
            let k = choose|k: int| 0 <= k < ids.len() && ids[k] == id;
            assert(head[k] == id);
        }
    }
    assert(head.to_set() =~= set.remove(ids.last()));
}

/// `ids` with `id` at its place.
spec fn with_id(ids: Seq<u64>, id: u64) -> Seq<u64>
    decreases ids.len(),
{
    if ids.len() == 0 || ids.last() < id {
        ids.push(id)
    } else {
        with_id(ids.drop_last(), id).push(ids.last())
    }
}

proof fn lemma_with_id(ids: Seq<u64>, id: u64)
    requires
        ascending(ids),
        !ids.contains(id),
    ensures
        ascending(with_id(ids, id)),
        with_id(ids, id).to_set() == ids.to_set().insert(id),
    decreases ids.len(),
{
    let more = with_id(ids, id);
    if ids.len() == 0 || ids.last() < id {
        lemma_push_to_set(ids, id);
    } else {
        let head = ids.drop_last();
        assert forall|k: int| 0 <= k < head.len() implies head[k] != id by {
            assert(ids[k] != id);
        }
        lemma_with_id(head, id);
        let front = with_id(head, id);
        lemma_push_to_set(front, ids.last());
        lemma_push_to_set(head, ids.last());
        assert(ids =~= head.push(ids.last()));
        assert(ids[ids.len() - 1] != id);
        assert forall|k: int| 0 <= k < front.len() implies front[k] < ids.last() by {
            assert(front.to_set().contains(front[k]));
            if front[k] != id {
                assert(head.to_set().contains(front[k]));
                let j = choose|j: int| 0 <= j < head.len() && head[j] == front[k];
                assert(ids[j] < ids[ids.len() - 1]);
            }
        }
        assert(more.to_set() =~= ids.to_set().insert(id));
    }
}

proof fn lemma_push_to_set(ids: Seq<u64>, id: u64)
    ensures
        ids.push(id).to_set() == ids.to_set().insert(id),
{
    let more = ids.push(id);
    assert forall|other: u64| more.to_set().contains(other) == ids.to_set().insert(id).contains(other) by {
        if ids.to_set().contains(other) {
            let j = choose|j: int| 0 <= j < ids.len() && ids[j] == other;
            assert(more[j] == other);
        }
        if other == id {
            assert(more[ids.len() as int] == id);
        }
    }
    assert(more.to_set() =~= ids.to_set().insert(id));
}

/// A finite set has an ascending listing, and [`sorted`] is it.
pub proof fn lemma_sorted_lists(set: Set<u64>)
    requires
        set.finite(),
    ensures
        lists(sorted(set), set),
    decreases set.len(),
{
    if set.len() == 0 {
        let none = Seq::<u64>::empty();
        assert(none.to_set() =~= set) by {
            vstd::set_lib::lemma_set_empty_equivalency_len(set);
        }
        assert(lists(none, set));
    } else {
        let id = set.choose();
        let rest = set.remove(id);
        lemma_sorted_lists(rest);
        let ids = sorted(rest);
        if ids.contains(id) {
            assert(ids.to_set().contains(id));
        }
        lemma_with_id(ids, id);
        assert(rest.insert(id) =~= set);
        assert(lists(with_id(ids, id), set));
    }
}

/// The keys of a map in ascending order.
pub fn sorted_keys<V>(map: &BTreeMap<u64, V>) -> (ids: Vec<u64>)
    ensures
        lists(ids@, map@.dom()),
        ids@ == sorted(map@.dom()),
        ids.len() == map@.dom().len(),
{
    broadcast use vstd::std_specs::btree::group_btree_axioms;

    let mut ids: Vec<u64> = Vec::new();
    let walk = map.iter();
    let ghost pairs = walk.remaining();
    for pair in it: walk
        invariant
            it.seq() == pairs,
            ids.len() == it.index(),
            forall|k: int| 0 <= k < ids.len() ==> ids@[k] == *pairs[k].0,
    {
        ids.push(*pair.0);
    }
    proof {
        let keys = pairs.map_values(|pair: (&u64, &V)| *pair.0);
        assert(ids@ =~= keys);
        assert forall|i: int, j: int| 0 <= i < j < ids.len() implies ids@[i] < ids@[j] by {
            assert(keys[i].cmp_spec(&keys[j]) is Less);
        }
        assert forall|id: u64| ids@.to_set().contains(id) == map@.dom().contains(id) by {
            if map@.contains_key(id) {
                let k = pairs.index_of((&id, &map@[id]));
                assert(ids@[k] == id);
            }
            if ids@.to_set().contains(id) {
                let k = choose|k: int| 0 <= k < ids.len() && ids@[k] == id;
                assert(map@.contains_key(*pairs[k].0));
            }
        }
        assert(ids@.to_set() =~= map@.dom());
        lemma_sorted_unique(ids@, map@.dom());
    }
    ids
}

// ---------------------------------------------------------------------------
// Chunks seen
// ---------------------------------------------------------------------------

/// How many of the marks are set.
pub open spec fn count_set(marks: Seq<bool>) -> nat
    decreases marks.len(),
{
    if marks.len() == 0 {
        0
    } else {
        count_set(marks.drop_last()) + if marks.last() { 1nat } else { 0nat }
    }
}

pub proof fn lemma_count_bounds(marks: Seq<bool>)
    ensures
        count_set(marks) <= marks.len(),
        count_set(marks) == marks.len() <==> forall|i: int| 0 <= i < marks.len() ==> marks[i],
        count_set(marks) == 0 <==> forall|i: int| 0 <= i < marks.len() ==> !marks[i],
    decreases marks.len(),
{
    if marks.len() > 0 {
        let head = marks.drop_last();
        lemma_count_bounds(head);
        assert(forall|i: int| 0 <= i < head.len() ==> head[i] == marks[i]);
        assert(marks.last() == marks[marks.len() - 1]);
        if count_set(marks) == marks.len() {
            assert forall|i: int| 0 <= i < marks.len() implies marks[i] by {
                if i < head.len() {
                    assert(head[i]);
                }
            }
        }
        if count_set(marks) == 0 {
            assert forall|i: int| 0 <= i < marks.len() implies !marks[i] by {
                if i < head.len() {
                    assert(!head[i]);
                }
            }
        }
    }
}

pub proof fn lemma_count_update(marks: Seq<bool>, index: int)
    requires
        0 <= index < marks.len(),
        !marks[index],
    ensures
        count_set(marks.update(index, true)) == count_set(marks) + 1,
    decreases marks.len(),
{
    let next = marks.update(index, true);
    if index == marks.len() - 1 {
        assert(next.drop_last() =~= marks.drop_last());
    } else {
        assert(next.drop_last() =~= marks.drop_last().update(index, true));
        lemma_count_update(marks.drop_last(), index);
    }
}

/// The indexes of the marks that are not set, ascending.
pub open spec fn unset_indexes(marks: Seq<bool>) -> Seq<u32>
    decreases marks.len(),
{
    if marks.len() == 0 {
        seq![]
    } else if marks.last() {
        unset_indexes(marks.drop_last())
    } else {
        unset_indexes(marks.drop_last()).push((marks.len() - 1) as u32)
    }
}

pub proof fn lemma_unset_indexes(marks: Seq<bool>)
    requires
        marks.len() <= u32::MAX,
    ensures
        unset_indexes(marks).len() == marks.len() - count_set(marks),
        forall|i: int, j: int|
            0 <= i < j < unset_indexes(marks).len() ==> unset_indexes(marks)[i] < unset_indexes(marks)[j],
        forall|i: int|
            0 <= i < unset_indexes(marks).len() ==> (#[trigger] unset_indexes(marks)[i]) < marks.len()
                && !marks[unset_indexes(marks)[i] as int],
        forall|index: u32|
            index < marks.len() && !marks[index as int] ==> #[trigger] unset_indexes(marks).contains(index),
    decreases marks.len(),
{
    if marks.len() > 0 {
        let head = marks.drop_last();
        lemma_unset_indexes(head);
        let all = unset_indexes(marks);
        let fewer = unset_indexes(head);
        assert forall|i: int| 0 <= i < all.len() implies (#[trigger] all[i]) < marks.len()
            && !marks[all[i] as int] by {
            if i < fewer.len() {
                assert(all[i] == fewer[i]);
                assert(!head[fewer[i] as int]);
            }
        }
        assert forall|i: int, j: int| 0 <= i < j < all.len() implies all[i] < all[j] by {
            assert(all[i] == fewer[i]);
            assert(fewer[i] < head.len());
        }
        assert forall|index: u32|
            index < marks.len() && !marks[index as int] implies #[trigger] all.contains(index) by {
            if index < head.len() {
                assert(!head[index as int]);
                assert(fewer.contains(index));
                let k = fewer.index_of(index);
                assert(all[k] == index);
            } else {
                assert(all[all.len() - 1] == index);
            }
        }
    }
}

// ---------------------------------------------------------------------------
// Frames
// ---------------------------------------------------------------------------

/// A frame under reception. Times are readings of the monotonic clock.
#[derive(Debug)]
pub struct FrameRxState {
    pub session_id: u64,
    pub frame_size: u32,
    pub chunk_count: u32,
    pub first_unix_us: u64,
    pub started: u64,
    pub seen: Vec<bool>,
    pub chunks_seen: u32,
    pub bytes_seen: u32,
    pub last_nack: Option<u64>,
    pub nack_rounds: u32,
}

/// What a [`FrameRxState`] stands for; `seen` holds one mark per chunk.
pub struct FrameModel {
    pub session_id: u64,
    pub frame_size: u32,
    pub chunk_count: u32,
    pub first_unix_us: u64,
    pub started: u64,
    pub seen: Seq<bool>,
    pub bytes_seen: u32,
    pub last_nack: Option<u64>,
    pub nack_rounds: u32,
}

impl View for FrameRxState {
    type V = FrameModel;

    open spec fn view(&self) -> FrameModel {
        FrameModel {
            session_id: self.session_id,
            frame_size: self.frame_size,
            chunk_count: self.chunk_count,
            first_unix_us: self.first_unix_us,
            started: self.started,
            seen: self.seen@,
            bytes_seen: self.bytes_seen,
            last_nack: self.last_nack,
            nack_rounds: self.nack_rounds,
        }
    }
}

impl FrameModel {
    /// A frame of which nothing has arrived.
    pub open spec fn opened(
        session_id: u64,
        frame_size: u32,
        chunk_count: u32,
        first_unix_us: u64,
        started: u64,
    ) -> FrameModel {
        FrameModel {
            session_id,
            frame_size,
            chunk_count,
            first_unix_us,
            started,
            seen: Seq::new(chunk_count as nat, |i: int| false),
            bytes_seen: 0,
            last_nack: None,
            nack_rounds: 0,
        }
    }

    /// The number of chunks that have arrived.
    pub open spec fn chunks_seen(self) -> nat {
        count_set(self.seen)
    }

    /// Whether every chunk has arrived.
    pub open spec fn complete(self) -> bool {
        self.chunks_seen() == self.chunk_count
    }

    /// The frame after chunk `index` has arrived; a second arrival changes nothing.
    pub open spec fn accepted(self, index: int, payload_len: u32) -> FrameModel {
        if self.seen[index] {
            self
        } else {
            FrameModel {
                seen: self.seen.update(index, true),
                bytes_seen: if self.bytes_seen + payload_len > u32::MAX {
                    u32::MAX
                } else {
                    (self.bytes_seen + payload_len) as u32
                },
                ..self
            }
        }
    }

    /// One mark per chunk.
    pub open spec fn wf(self) -> bool {
        self.seen.len() == self.chunk_count
    }

    /// A frame that waits for chunks.
    pub open spec fn pending(self) -> bool {
        self.wf() && self.chunks_seen() < self.chunk_count
    }
}

/// Every chunk counts once: accepting a chunk that was missing adds one to the
/// chunks seen, accepting it again changes nothing, and the frame is complete
/// exactly if no chunk is missing.
pub proof fn law_accept_chunk(frame: FrameModel, index: int, payload_len: u32)
    requires
        frame.wf(),
        0 <= index < frame.chunk_count,
    ensures
        frame.accepted(index, payload_len).wf(),
        frame.accepted(index, payload_len).chunks_seen() == if frame.seen[index] {
            frame.chunks_seen()
        } else {
            frame.chunks_seen() + 1
        },
        frame.accepted(index, payload_len).accepted(index, payload_len) == frame.accepted(index, payload_len),
        frame.complete() <==> forall|i: int| 0 <= i < frame.chunk_count ==> frame.seen[i],
{
    lemma_count_bounds(frame.seen);
    if !frame.seen[index] {
        lemma_count_update(frame.seen, index);
    }
}

/// A frame after chunks have arrived in some order; each comes with its payload
/// length.
pub open spec fn accepted_all(frame: FrameModel, chunks: Seq<(u32, u32)>) -> FrameModel
    decreases chunks.len(),
{
    if chunks.len() == 0 {
        frame
    } else {
        accepted_all(frame, chunks.drop_last()).accepted(chunks.last().0 as int, chunks.last().1)
    }
}

/// A frame is complete as soon as each of its chunks has arrived, in whatever
/// order, however often and however many others came in between.
pub proof fn law_any_order_completes(frame: FrameModel, chunks: Seq<(u32, u32)>)
    requires
        frame.wf(),
        forall|i: int| 0 <= i < chunks.len() ==> (#[trigger] chunks[i]).0 < frame.chunk_count,
    ensures
        accepted_all(frame, chunks).wf(),
        accepted_all(frame, chunks).chunk_count == frame.chunk_count,
        forall|index: int|
            0 <= index < frame.chunk_count ==> (#[trigger] accepted_all(frame, chunks).seen[index] <==> (
            frame.seen[index] || exists|i: int| 0 <= i < chunks.len() && (#[trigger] chunks[i]).0 == index)),
        accepted_all(frame, chunks).complete() <==> forall|index: int|
            0 <= index < frame.chunk_count ==> #[trigger] frame.seen[index] || exists|i: int|
                0 <= i < chunks.len() && (#[trigger] chunks[i]).0 == index,
    decreases chunks.len(),
{
    let after = accepted_all(frame, chunks);
    if chunks.len() > 0 {
        let head = chunks.drop_last();
        let last = chunks.last();
        assert(chunks[chunks.len() - 1] == last);
        assert forall|i: int| 0 <= i < head.len() implies (#[trigger] head[i]).0 < frame.chunk_count by {
            assert(head[i] == chunks[i]);
        }
        law_any_order_completes(frame, head);
        let before = accepted_all(frame, head);
        assert forall|index: int| 0 <= index < frame.chunk_count implies (#[trigger] after.seen[index] <==> (
        frame.seen[index] || exists|i: int| 0 <= i < chunks.len() && (#[trigger] chunks[i]).0 == index)) by {
            if after.seen[index] && !frame.seen[index] {
                if index == last.0 {
                    assert(chunks[chunks.len() - 1].0 == index);
                } else {
                    assert(before.seen[index]);
                    let i = choose|i: int| 0 <= i < head.len() && (#[trigger] head[i]).0 == index;
                    assert(chunks[i].0 == index);
                }
            }
            if exists|i: int| 0 <= i < chunks.len() && (#[trigger] chunks[i]).0 == index {
                let i = choose|i: int| 0 <= i < chunks.len() && (#[trigger] chunks[i]).0 == index;
                if i < head.len() {
                    assert(head[i].0 == index);
                    assert(before.seen[index]);
                }
            }
        }
    }
    lemma_count_bounds(after.seen);
    if after.complete() {
        assert forall|index: int| 0 <= index < frame.chunk_count implies #[trigger] frame.seen[index]
            || exists|i: int| 0 <= i < chunks.len() && (#[trigger] chunks[i]).0 == index by {
            assert(after.seen[index]);
        }
    }
    if forall|index: int|
        0 <= index < frame.chunk_count ==> #[trigger] frame.seen[index] || exists|i: int|
            0 <= i < chunks.len() && (#[trigger] chunks[i]).0 == index {
        assert forall|index: int| 0 <= index < after.seen.len() implies after.seen[index] by {
            assert(frame.seen[index] || exists|i: int|
                0 <= i < chunks.len() && (#[trigger] chunks[i]).0 == index);
        }
    }
}

impl FrameRxState {
    /// The marks fit the chunk count and the counter fits the marks.
    pub open spec fn wf(&self) -> bool {
        &&& self@.wf()
        &&& self.chunks_seen == self@.chunks_seen()
    }

    /// A frame that waits for chunks.
    pub open spec fn pending(&self) -> bool {
        self.wf() && self@.pending()
    }

    /// A frame of which nothing has arrived.
    pub fn open(
        session_id: u64,
        frame_size: u32,
        chunk_count: u32,
        first_unix_us: u64,
        started: u64,
    ) -> (frame: FrameRxState)
        ensures
            frame.wf(),
            frame@ == FrameModel::opened(session_id, frame_size, chunk_count, first_unix_us, started),
            frame.chunks_seen == 0,
    {
        let mut seen: Vec<bool> = Vec::new();
        seen.resize(chunk_count as usize, false);
        let frame = FrameRxState {
            session_id,
            frame_size,
            chunk_count,
            first_unix_us,
            started,
            seen,
            chunks_seen: 0,
            bytes_seen: 0,
            last_nack: None,
            nack_rounds: 0,
        };
        proof {
            lemma_count_bounds(frame.seen@);
            assert(frame.seen@ =~= Seq::new(chunk_count as nat, |i: int| false));
        }
        frame
    }

    /// Marks chunk `index` as arrived; returns whether it had arrived before.
    pub fn accept(&mut self, index: u32, payload_len: u32) -> (duplicate: bool)
        requires
            old(self).wf(),
            index < old(self).chunk_count,
        ensures
            final(self).wf(),
            final(self)@ == old(self)@.accepted(index as int, payload_len),
            duplicate == old(self)@.seen[index as int],
    {
        proof {
            law_accept_chunk(self@, index as int, payload_len);
            lemma_count_bounds(self.seen@);
            if !self@.seen[index as int] {
                lemma_count_bounds(self.seen@.update(index as int, true));
            }
        }
        if self.seen[index as usize] {
            true
        } else {
            self.seen.set(index as usize, true);
            self.chunks_seen = self.chunks_seen + 1;
            self.bytes_seen = self.bytes_seen.saturating_add(payload_len);
            false
        }
    }
}

/// The frames of a map by what they stand for.
pub open spec fn frame_models(frames: Map<u64, FrameRxState>) -> Map<u64, FrameModel> {
    frames.map_values(|frame: FrameRxState| frame@)
}

/// Every frame of a map waits for chunks.
pub open spec fn all_pending(frames: Map<u64, FrameRxState>) -> bool {
    forall|id: u64| #[trigger] frames.contains_key(id) ==> frames[id].pending()
}

pub broadcast proof fn lemma_models_insert(frames: Map<u64, FrameRxState>, id: u64, frame: FrameRxState)
    ensures
        #[trigger] frame_models(frames.insert(id, frame)) == frame_models(frames).insert(id, frame@),
{
    assert(frame_models(frames.insert(id, frame)) =~= frame_models(frames).insert(id, frame@));
}

pub broadcast proof fn lemma_models_remove(frames: Map<u64, FrameRxState>, id: u64)
    ensures
        #[trigger] frame_models(frames.remove(id)) == frame_models(frames).remove(id),
{
    assert(frame_models(frames.remove(id)) =~= frame_models(frames).remove(id));
}

pub broadcast proof fn lemma_models_dom(frames: Map<u64, FrameRxState>)
    ensures
        #[trigger] frame_models(frames).dom() == frames.dom(),
{
    assert(frame_models(frames).dom() =~= frames.dom());
}

} // verus!
