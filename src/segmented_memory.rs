//! Segmented memory: word arrays addressed by id, with LIFO id recycling.
use vstd::prelude::*;

verus! {

/// Why a memory operation was refused.
#[derive(Debug, Clone, Copy, PartialEq, Eq, Structural)]
pub enum MemoryError {
    /// The id is not live, or is 0 where 0 may not be freed.
    UnknownSegment,
    /// The offset is not below the segment's length.
    OutOfRange,
}

/// The abstract state of a segmented memory.
pub struct MemoryModel {
    /// The live segments, by id.
    pub segments: Map<u32, Seq<u32>>,
    /// Ids awaiting reuse; the last one is reused first.
    pub recycled: Seq<u32>,
    /// The high-water mark: every id at or above it was never issued.
    pub next_id: nat,
}

/// `length` zero words.
pub open spec fn zeros(length: nat) -> Seq<u32> {
    Seq::new(length, |i: int| 0u32)
}

impl MemoryModel {
    /// The memory at construction: segment 0 holds `program`, and nothing else
    /// was issued.
    pub open spec fn initial(program: Seq<u32>) -> MemoryModel {
        MemoryModel { segments: map![0u32 => program], recycled: Seq::empty(), next_id: 1 }
    }

    pub open spec fn is_live(self, id: u32) -> bool {
        self.segments.contains_key(id)
    }

    /// Live, recycled and never-issued ids are disjoint and cover every id;
    /// segment 0 is live; the recycled pool holds no id twice.
    pub open spec fn inv(self) -> bool {
        &&& self.is_live(0)
        &&& self.next_id <= u32::MAX as nat + 1
        &&& forall|id: u32| #[trigger] self.is_live(id) ==> (id as nat) < self.next_id
        &&& forall|i: int|
            0 <= i < self.recycled.len() ==> (#[trigger] self.recycled[i] as nat) < self.next_id
                && !self.is_live(self.recycled[i])
        &&& forall|i: int, j: int|
            0 <= i < j < self.recycled.len() ==> self.recycled[i] != self.recycled[j]
        &&& forall|id: u32|
            (id as nat) < self.next_id && !#[trigger] self.is_live(id) ==> self.recycled.contains(
                id,
            )
    }

    /// The word at `offset` of segment `id`.
    pub open spec fn read(self, id: u32, offset: int) -> Result<u32, MemoryError> {
        if !self.is_live(id) {
            Err(MemoryError::UnknownSegment)
        } else if offset < 0 || offset >= self.segments[id].len() {
            Err(MemoryError::OutOfRange)
        } else {
            Ok(self.segments[id][offset])
        }
    }

    /// The memory after storing `word` at `offset` of segment `id`.
    pub open spec fn write(self, id: u32, offset: int, word: u32) -> Result<
        MemoryModel,
        MemoryError,
    > {
        if !self.is_live(id) {
            Err(MemoryError::UnknownSegment)
        } else if offset < 0 || offset >= self.segments[id].len() {
            Err(MemoryError::OutOfRange)
        } else {
            Ok(
                MemoryModel {
                    segments: self.segments.insert(id, self.segments[id].update(offset, word)),
                    ..self
                },
            )
        }
    }

    /// There is an id to hand out: a recycled one, or a never-issued one that
    /// fits in a word.
    pub open spec fn can_allocate(self) -> bool {
        self.recycled.len() > 0 || self.next_id <= u32::MAX as nat
    }

    /// The id that the next allocation hands out.
    pub open spec fn next_allocated_id(self) -> u32 {
        if self.recycled.len() > 0 {
            self.recycled.last()
        } else {
            self.next_id as u32
        }
    }

    /// The memory after allocating a zeroed segment of `length` words.
    pub open spec fn allocate(self, length: nat) -> MemoryModel {
        let id = self.next_allocated_id();
        if self.recycled.len() > 0 {
            MemoryModel {
                segments: self.segments.insert(id, zeros(length)),
                recycled: self.recycled.drop_last(),
                next_id: self.next_id,
            }
        } else {
            MemoryModel {
                segments: self.segments.insert(id, zeros(length)),
                recycled: self.recycled,
                next_id: self.next_id + 1,
            }
        }
    }

    /// The memory after freeing segment `id`.
    pub open spec fn free(self, id: u32) -> Result<MemoryModel, MemoryError> {
        if id == 0 || !self.is_live(id) {
            Err(MemoryError::UnknownSegment)
        } else {
            Ok(
                MemoryModel {
                    segments: self.segments.remove(id),
                    recycled: self.recycled.push(id),
                    next_id: self.next_id,
                },
            )
        }
    }

    /// The memory after replacing segment 0 with a copy of segment `id`.
    pub open spec fn load_program(self, id: u32) -> Result<MemoryModel, MemoryError> {
        if !self.is_live(id) {
            Err(MemoryError::UnknownSegment)
        } else {
            Ok(MemoryModel { segments: self.segments.insert(0, self.segments[id]), ..self })
        }
    }
}

impl MemoryModel {
    proof fn lemma_same_ids_inv(self, other: MemoryModel)
        requires
            self.inv(),
            other.segments.dom() == self.segments.dom(),
            other.recycled == self.recycled,
            other.next_id == self.next_id,
        ensures
            other.inv(),
    {
        assert forall|id: u32| #[trigger] other.is_live(id) == self.is_live(id) by {}
    }

    /// Storing a word keeps the invariant.
    pub proof fn lemma_write_inv(self, id: u32, offset: int, word: u32)
        requires
            self.inv(),
            self.write(id, offset, word) is Ok,
        ensures
            self.write(id, offset, word)->Ok_0.inv(),
    {
        let m2 = self.write(id, offset, word)->Ok_0;
        assert(m2.segments.dom() =~= self.segments.dom());
        self.lemma_same_ids_inv(m2);
    }

    /// Loading a program keeps the invariant.
    pub proof fn lemma_load_program_inv(self, id: u32)
        requires
            self.inv(),
            self.load_program(id) is Ok,
        ensures
            self.load_program(id)->Ok_0.inv(),
    {
        let m2 = self.load_program(id)->Ok_0;
        assert(m2.segments.dom() =~= self.segments.dom());
        self.lemma_same_ids_inv(m2);
    }

    /// Allocating keeps the invariant, and the new segment is live.
    pub proof fn lemma_allocate_inv(self, length: nat)
        requires
            self.inv(),
            self.can_allocate(),
        ensures
            self.allocate(length).inv(),
            self.allocate(length).is_live(self.next_allocated_id()),
            !self.is_live(self.next_allocated_id()),
    {
        let id = self.next_allocated_id();
        let m2 = self.allocate(length);
        if self.recycled.len() > 0 {
            assert(self.recycled[self.recycled.len() - 1] == id);
        }
        assert forall|o: u32| #[trigger] m2.is_live(o) implies (o as nat) < m2.next_id by {
            if o != id {
                assert(self.is_live(o));
            }
        }
        if self.recycled.len() > 0 {
            assert(self.recycled[self.recycled.len() - 1] == id);
            assert forall|i: int| 0 <= i < m2.recycled.len() implies (#[trigger] m2.recycled[i]
                as nat) < m2.next_id && !m2.is_live(m2.recycled[i]) by {
                assert(m2.recycled[i] == self.recycled[i]);
                assert(self.recycled[i] != id);
            }
            assert forall|other: u32|
                (other as nat) < m2.next_id && !#[trigger] m2.is_live(
                    other,
                ) implies m2.recycled.contains(other) by {
                assert(!self.is_live(other));
                assert(self.recycled.contains(other));
                let k = choose|k: int| 0 <= k < self.recycled.len() && self.recycled[k] == other;
                assert(k != self.recycled.len() - 1);
                assert(m2.recycled[k] == other);
            }
        } else {
            assert forall|other: u32|
                (other as nat) < m2.next_id && !#[trigger] m2.is_live(
                    other,
                ) implies m2.recycled.contains(other) by {
                assert(!self.is_live(other));
                assert(self.recycled.contains(other));
            }
        }
    }

    /// Freeing keeps the invariant, and the freed id is no longer live.
    pub proof fn lemma_free_inv(self, id: u32)
        requires
            self.inv(),
            self.free(id) is Ok,
        ensures
            self.free(id)->Ok_0.inv(),
            !self.free(id)->Ok_0.is_live(id),
    {
        let m2 = self.free(id)->Ok_0;
        assert forall|o: u32| #[trigger] m2.is_live(o) implies (o as nat) < m2.next_id by {
            assert(self.is_live(o));
        }
        assert forall|i: int| 0 <= i < m2.recycled.len() implies (#[trigger] m2.recycled[i]
            as nat) < m2.next_id && !m2.is_live(m2.recycled[i]) by {
            if i < self.recycled.len() {
                assert(m2.recycled[i] == self.recycled[i]);
            }
        }
        assert forall|i: int, j: int|
            0 <= i < j < m2.recycled.len() implies m2.recycled[i] != m2.recycled[j] by {
            if j == self.recycled.len() {
                assert(!self.is_live(self.recycled[i]));
            }
        }
        assert forall|other: u32|
            (other as nat) < m2.next_id && !#[trigger] m2.is_live(
                other,
            ) implies m2.recycled.contains(other) by {
            if other != id {
                assert(!self.is_live(other));
                assert(self.recycled.contains(other));
                let k = choose|k: int| 0 <= k < self.recycled.len() && self.recycled[k] == other;
                assert(m2.recycled[k] == other);
            } else {
                assert(m2.recycled[m2.recycled.len() - 1] == other);
            }
        }
    }
}

/// One allocator operation, as a program issues it.
#[derive(Debug, Clone, Copy, PartialEq, Eq, Structural)]
pub enum PoolOp {
    /// Allocate a segment of this many words.
    Allocate(u32),
    /// Free the segment with this id.
    Free(u32),
}

/// The memory after applying `ops` in order; an operation that would fail
/// (a refused free, an allocation with no id left) leaves the memory as it is.
pub open spec fn apply_ops(m: MemoryModel, ops: Seq<PoolOp>) -> MemoryModel
    decreases ops.len(),
{
    if ops.len() == 0 {
        m
    } else {
        let prev = apply_ops(m, ops.drop_last());
        match ops.last() {
            PoolOp::Allocate(length) => if prev.can_allocate() {
                prev.allocate(length as nat)
            } else {
                prev
            },
            PoolOp::Free(id) => match prev.free(id) {
                Ok(next) => next,
                Err(_) => prev,
            },
        }
    }
}

/// Every sequence of operations from a well-formed memory keeps it
/// well-formed, and never lowers the high-water mark.
pub proof fn lemma_apply_ops_inv(m: MemoryModel, ops: Seq<PoolOp>)
    requires
        m.inv(),
    ensures
        apply_ops(m, ops).inv(),
        apply_ops(m, ops).next_id >= m.next_id,
    decreases ops.len(),
{
    if ops.len() > 0 {
        lemma_apply_ops_inv(m, ops.drop_last());
        let prev = apply_ops(m, ops.drop_last());
        match ops.last() {
            PoolOp::Allocate(length) => if prev.can_allocate() {
                prev.lemma_allocate_inv(length as nat);
            },
            PoolOp::Free(id) => if prev.free(id) is Ok {
                prev.lemma_free_inv(id);
            },
        }
    }
}

/// After any sequence of allocations and frees on a fresh memory, no live id
/// is in the recycled pool.
pub proof fn lemma_live_disjoint_from_recycled(program: Seq<u32>, ops: Seq<PoolOp>)
    ensures
        forall|i: int|
            0 <= i < apply_ops(MemoryModel::initial(program), ops).recycled.len() ==> !apply_ops(
                MemoryModel::initial(program),
                ops,
            ).is_live(#[trigger] apply_ops(MemoryModel::initial(program), ops).recycled[i]),
{
    let m = MemoryModel::initial(program);
    assert forall|id: u32|
        (id as nat) < m.next_id && !#[trigger] m.is_live(id) implies m.recycled.contains(id) by {
        assert(id == 0);
    }
    lemma_apply_ops_inv(m, ops);
}

/// Reading a word right after writing it gives that word.
pub proof fn lemma_read_after_write(m: MemoryModel, id: u32, offset: int, word: u32)
    requires
        m.is_live(id),
        0 <= offset < m.segments[id].len(),
    ensures
        m.write(id, offset, word) is Ok,
        m.write(id, offset, word)->Ok_0.read(id, offset) == Ok::<u32, MemoryError>(word),
{
}

/// Freeing a nonzero live id and then allocating hands back that same id,
/// as a segment of zeros whatever it held before.
pub proof fn lemma_free_then_allocate(m: MemoryModel, id: u32, length: nat)
    requires
        m.inv(),
        id != 0,
        m.is_live(id),
    ensures
        m.free(id) is Ok,
        m.free(id)->Ok_0.can_allocate(),
        m.free(id)->Ok_0.next_allocated_id() == id,
        m.free(id)->Ok_0.allocate(length).segments[id] == zeros(length),
{
}

/// After loading segment `s` (nonzero) as the program, a write to `s` leaves
/// segment 0 as it is.
pub proof fn lemma_load_program_detached(
    m: MemoryModel,
    s: u32,
    offset: int,
    word: u32,
)
    requires
        m.inv(),
        s != 0,
        m.load_program(s) is Ok,
        m.load_program(s)->Ok_0.write(s, offset, word) is Ok,
    ensures
        m.load_program(s)->Ok_0.write(s, offset, word)->Ok_0.segments[0] == m.load_program(
            s,
        )->Ok_0.segments[0],
        m.load_program(s)->Ok_0.segments[0] == m.segments[s],
{
}

/// A segmented memory, held densely: slot `id` of `segments` is segment `id`
/// while `live[id]` holds, and `recycled` is the stack of freed ids.
pub struct SegmentedMemory {
    segments: Vec<Vec<u32>>,
    live: Vec<bool>,
    recycled: Vec<u32>,
}

impl View for SegmentedMemory {
    type V = MemoryModel;

    closed spec fn view(&self) -> MemoryModel {
        MemoryModel {
            segments: Map::new(
                |id: u32| (id as int) < self.live@.len() && self.live@[id as int],
                |id: u32| self.segments@[id as int]@,
            ),
            recycled: self.recycled@,
            next_id: self.segments@.len(),
        }
    }
}

impl SegmentedMemory {
    /// The representation matches its model, and the model's invariant holds.
    pub closed spec fn wf(&self) -> bool {
        &&& self.segments@.len() == self.live@.len()
        &&& self@.inv()
    }

    /// A memory whose segment 0 is a copy of `initial_instructions`.
    pub fn new(initial_instructions: &Vec<u32>) -> (r: SegmentedMemory)
        ensures
            r.wf(),
            r@ == MemoryModel::initial(initial_instructions@),
    {
        let seg_zero = initial_instructions.clone();
        assert(seg_zero@ =~= initial_instructions@);
        let mut segments: Vec<Vec<u32>> = Vec::new();
        segments.push(seg_zero);
        let mut live: Vec<bool> = Vec::new();
        live.push(true);
        let mem = SegmentedMemory { segments, live, recycled: Vec::new() };
        assert(mem@.segments =~= map![0u32 => initial_instructions@]);
        mem
    }

    /// A well-formed memory's model satisfies the model invariant, and each
    /// of its segments is short enough to be indexed by a `usize`.
    pub proof fn lemma_wf_inv(&self)
        requires
            self.wf(),
        ensures
            self@.inv(),
            forall|id: u32| #[trigger] self@.is_live(id) ==> self@.segments[id].len() <= usize::MAX,
    {
        assert forall|id: u32| #[trigger] self@.is_live(id) implies self@.segments[id].len()
            <= usize::MAX by {
            let v = &self.segments@[id as int];
            assert(v@.len() == v.len());
        }
    }

    /// Whether an allocation can hand out an id.
    pub fn can_allocate(&self) -> (r: bool)
        requires
            self.wf(),
        ensures
            r == self@.can_allocate(),
    {
        self.recycled.len() > 0 || self.segments.len() <= u32::MAX as usize
    }

    /// The word at `offset` of segment `segment_id`.
    pub fn read_word(&self, segment_id: u32, offset: usize) -> (r: Result<u32, MemoryError>)
        requires
            self.wf(),
        ensures
            r == self@.read(segment_id, offset as int),
    {
        let id = segment_id as usize;
        if id >= self.live.len() || !self.live[id] {
            return Err(MemoryError::UnknownSegment);
        }
        assert(self@.is_live(segment_id));
        if offset >= self.segments[id].len() {
            return Err(MemoryError::OutOfRange);
        }
        Ok(self.segments[id][offset])
    }

    /// The instruction at `program_counter` of segment 0.
    pub fn fetch_instruction(&self, program_counter: usize) -> (r: Result<u32, MemoryError>)
        requires
            self.wf(),
        ensures
            r == self@.read(0, program_counter as int),
    {
        if program_counter >= self.segments[0].len() {
            return Err(MemoryError::OutOfRange);
        }
        Ok(self.segments[0][program_counter])
    }

    /// Stores `word` at `offset` of segment `segment_id`; on failure the
    /// memory is unchanged.
    pub fn write_word(&mut self, segment_id: u32, offset: usize, word: u32) -> (r: Result<
        (),
        MemoryError,
    >)
        requires
            old(self).wf(),
        ensures
            final(self).wf(),
            match old(self)@.write(segment_id, offset as int, word) {
                Ok(m) => r is Ok && final(self)@ == m,
                Err(e) => r == Err::<(), MemoryError>(e) && final(self)@ == old(self)@,
            },
    {
        let id = segment_id as usize;
        if id >= self.live.len() || !self.live[id] {
            return Err(MemoryError::UnknownSegment);
        }
        if offset >= self.segments[id].len() {
            return Err(MemoryError::OutOfRange);
        }
        self.segments[id][offset] = word;
        assert(self@.segments =~= old(self)@.segments.insert(
            segment_id,
            old(self)@.segments[segment_id].update(offset as int, word),
        ));
        proof {
            old(self)@.lemma_write_inv(segment_id, offset as int, word);
        }
        Ok(())
    }

    /// Allocates a segment of `length` zero words and returns its id: the
    /// most recently freed id if there is one, else the high-water mark.
    pub fn map_new_segment(&mut self, length: usize) -> (r: u32)
        requires
            old(self).wf(),
            old(self)@.can_allocate(),
        ensures
            final(self).wf(),
            r == old(self)@.next_allocated_id(),
            final(self)@ == old(self)@.allocate(length as nat),
    {
        let new_segment: Vec<u32> = vec![0u32; length];
        assert(new_segment@ =~= zeros(length as nat));
        let ghost m = self@;
        match self.recycled.pop() {
            Some(id) => {
                assert(m.recycled[m.recycled.len() - 1] == id);
                let slot = id as usize;
                self.segments[slot] = new_segment;
                self.live[slot] = true;
                proof {
                    assert(self@.segments =~= m.segments.insert(id, zeros(length as nat)));
                    assert(self@.recycled =~= m.recycled.drop_last());
                    m.lemma_allocate_inv(length as nat);
                }
                id
            },
            None => {
                let id = self.segments.len() as u32;
                self.segments.push(new_segment);
                self.live.push(true);
                proof {
                    assert(self@.segments =~= m.segments.insert(id, zeros(length as nat)));
                    m.lemma_allocate_inv(length as nat);
                }
                id
            },
        }
    }

    /// Frees segment `segment_id` and pushes its id onto the recycled pool.
    /// Refuses id 0 and ids that are not live, leaving the memory unchanged.
    pub fn unmap_segment(&mut self, segment_id: u32) -> (r: Result<(), MemoryError>)
        requires
            old(self).wf(),
        ensures
            final(self).wf(),
            match old(self)@.free(segment_id) {
                Ok(m) => r is Ok && final(self)@ == m,
                Err(e) => r == Err::<(), MemoryError>(e) && final(self)@ == old(self)@,
            },
    {
        let id = segment_id as usize;
        if segment_id == 0 || id >= self.live.len() || !self.live[id] {
            return Err(MemoryError::UnknownSegment);
        }
        let ghost m = self@;
        self.segments[id] = Vec::new();
        self.live[id] = false;
        self.recycled.push(segment_id);
        proof {
            assert(self@.segments =~= m.segments.remove(segment_id));
            assert(self@.recycled =~= m.recycled.push(segment_id));
            m.lemma_free_inv(segment_id);
        }
        Ok(())
    }

    /// Replaces segment 0 with a copy of segment `segment_id`; the copy shares
    /// nothing with its source. Refuses an id that is not live, leaving the
    /// memory unchanged.
    pub fn load_segment_zero(&mut self, segment_id: u32) -> (r: Result<(), MemoryError>)
        requires
            old(self).wf(),
        ensures
            final(self).wf(),
            match old(self)@.load_program(segment_id) {
                Ok(m) => r is Ok && final(self)@ == m,
                Err(e) => r == Err::<(), MemoryError>(e) && final(self)@ == old(self)@,
            },
    {
        let id = segment_id as usize;
        if id >= self.live.len() || !self.live[id] {
            return Err(MemoryError::UnknownSegment);
        }
        if segment_id != 0 {
            let copy = self.segments[id].clone();
            assert(copy@ =~= self.segments@[id as int]@);
            let ghost m = self@;
            self.segments[0] = copy;
            assert(self@.segments =~= m.segments.insert(0, m.segments[segment_id]));
            proof {
                m.lemma_load_program_inv(segment_id);
            }
        } else {
            assert(self@.segments =~= self@.segments.insert(0, self@.segments[0]));
            proof {
                self@.lemma_load_program_inv(segment_id);
            }
        }
        Ok(())
    }
}

} // verus!
