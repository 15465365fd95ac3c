//! The reference-counted heap: fixed-size address ranges with one count
//! per range base, values keyed by absolute address, and collection of a
//! range when its count reaches zero.
use crate::value::Value;
use std::collections::HashMap;
use vstd::prelude::*;

verus! {

broadcast use vstd::std_specs::hash::group_hash_axioms;

/// Errors of the heap itself.
#[derive(Debug, Clone, Copy, PartialEq, Eq, Structural)]
pub enum HeapError {
    BlockNotAllocated(usize),
    BadPointer(usize),
    AddressExhausted,
}

/// One allocated range: its base address and its length in slots.
#[derive(Debug, Clone, Copy, PartialEq, Eq, Structural)]
pub struct MemoryBlock {
    pub pointer: usize,
    pub size: usize,
}

/// An address belongs to a range when it is the base or lies inside it;
/// a range of size zero still occupies its base.
pub open spec fn block_contains(mb: MemoryBlock, p: usize) -> bool {
    p == mb.pointer || (mb.pointer < p && p < mb.pointer + mb.size)
}

/// The first listed range an address belongs to.
pub open spec fn owner_of(blocks: Seq<MemoryBlock>, p: usize) -> Option<MemoryBlock>
    decreases blocks.len(),
{
    if blocks.len() == 0 {
        None
    } else if block_contains(blocks[0], p) {
        Some(blocks[0])
    } else {
        owner_of(blocks.drop_first(), p)
    }
}

/// The first listed range whose base is exactly the address.
pub open spec fn base_of(blocks: Seq<MemoryBlock>, p: usize) -> Option<MemoryBlock>
    decreases blocks.len(),
{
    if blocks.len() == 0 {
        None
    } else if blocks[0].pointer == p {
        Some(blocks[0])
    } else {
        base_of(blocks.drop_first(), p)
    }
}

/// The whole range of `size` slots from `p` is outside every listed
/// range; a request of size zero still claims its base address.
pub open spec fn range_free(blocks: Seq<MemoryBlock>, p: usize, size: usize) -> bool {
    forall|a: usize|
        p <= a && (a < p + size || a == p) ==> owner_of(blocks, a) is None
}

/// An upper bound past every occupied address.
pub open spec fn blocks_bound(blocks: Seq<MemoryBlock>) -> int
    decreases blocks.len(),
{
    if blocks.len() == 0 {
        0
    } else {
        let rest = blocks_bound(blocks.drop_first());
        let this = blocks[0].pointer + if blocks[0].size == 0 {
            1int
        } else {
            blocks[0].size as int
        };
        if this > rest {
            this
        } else {
            rest
        }
    }
}

pub proof fn lemma_past_bound_free(blocks: Seq<MemoryBlock>, p: usize, size: usize)
    requires
        blocks_bound(blocks) <= p,
    ensures
        range_free(blocks, p, size),
    decreases blocks.len(),
{
    if blocks.len() > 0 {
        lemma_past_bound_free(blocks.drop_first(), p, size);
        assert forall|a: usize|
            p <= a && (a < p + size || a == p) implies owner_of(blocks, a) is None by {
            assert(!block_contains(blocks[0], a));
            assert(owner_of(blocks.drop_first(), a) is None);
        }
    }
}

/// A suffix of the ranges never raises the bound.
pub proof fn lemma_blocks_bound_skip(blocks: Seq<MemoryBlock>, k: int)
    requires
        0 <= k <= blocks.len(),
    ensures
        blocks_bound(blocks.skip(k)) <= blocks_bound(blocks),
    decreases k,
{
    if k > 0 {
        lemma_blocks_bound_skip(blocks, k - 1);
        assert(blocks.skip(k - 1)[0] == blocks[k - 1]);
        assert(blocks.skip(k - 1).drop_first() =~= blocks.skip(k));
        assert(blocks_bound(blocks.skip(k)) <= blocks_bound(blocks.skip(k - 1)));
    } else {
        assert(blocks.skip(0) =~= blocks);
    }
}

/// Ranges end within the address space and do not overlap.
pub open spec fn blocks_wf(s: Seq<MemoryBlock>) -> bool {
    &&& forall|i: int| 0 <= i < s.len() ==> (#[trigger] s[i]).pointer + s[i].size <= usize::MAX
    &&& forall|i: int, j: int, a: usize|
        0 <= i < j < s.len() && #[trigger] block_contains(s[i], a) ==> !(#[trigger] block_contains(
            s[j],
            a,
        ))
}

/// Removing a range keeps the list well-formed, and keeps only ranges
/// that were already listed.
pub proof fn lemma_blocks_wf_remove(s: Seq<MemoryBlock>, i: int)
    requires
        blocks_wf(s),
        0 <= i < s.len(),
    ensures
        blocks_wf(s.remove(i)),
        forall|k: int| 0 <= k < s.remove(i).len() ==> s.contains(#[trigger] s.remove(i)[k]),
{
    let t = s.remove(i);
    assert forall|k: int| 0 <= k < t.len() implies s.contains(#[trigger] t[k]) by {
        if k < i {
            assert(t[k] == s[k]);
        } else {
            assert(t[k] == s[k + 1]);
        }
    }
    assert forall|p: int| 0 <= p < t.len() implies (#[trigger] t[p]).pointer + t[p].size
        <= usize::MAX by {
        if p < i {
            assert(t[p] == s[p]);
        } else {
            assert(t[p] == s[p + 1]);
        }
    }
    assert forall|p: int, q: int, a: usize|
        0 <= p < q < t.len() && #[trigger] block_contains(t[p], a) implies !(
    #[trigger] block_contains(t[q], a)) by {
        let p0 = if p < i { p } else { p + 1 };
        let q0 = if q < i { q } else { q + 1 };
        assert(t[p] == s[p0]);
        assert(t[q] == s[q0]);
        assert(block_contains(s[p0], a));
    }
}

/// The reference-counted value store.
pub struct Heap {
    pub gc_enabled: bool,
    pub debug_gc: bool,
    slots: HashMap<usize, Value>,
    blocks: Vec<MemoryBlock>,
    rc: HashMap<usize, usize>,
}

impl Heap {
    /// Whether the collector is on.
    pub closed spec fn spec_gc(&self) -> bool {
        self.gc_enabled
    }

    /// Whether collection is traced by the embedder.
    pub closed spec fn spec_debug(&self) -> bool {
        self.debug_gc
    }

    /// The values held, by absolute address.
    pub closed spec fn spec_slots(&self) -> Map<usize, Value> {
        self.slots@
    }

    /// The live ranges, oldest first.
    pub closed spec fn spec_blocks(&self) -> Seq<MemoryBlock> {
        self.blocks@
    }

    /// The reference counts, by range base.
    pub closed spec fn spec_rc(&self) -> Map<usize, usize> {
        self.rc@
    }

    /// Ranges end within the address space and do not overlap.
    pub open spec fn wf(&self) -> bool {
        blocks_wf(self.spec_blocks())
    }

    pub fn new(gc_enabled: bool, debug_gc: bool) -> (r: Self)
        ensures
            r.wf(),
            r.spec_gc() == gc_enabled,
            r.spec_debug() == debug_gc,
            r.spec_slots() =~= Map::<usize, Value>::empty(),
            r.spec_blocks() =~= Seq::<MemoryBlock>::empty(),
            r.spec_rc() =~= Map::<usize, usize>::empty(),
    {
        Heap {
            gc_enabled,
            debug_gc,
            slots: HashMap::new(),
            blocks: Vec::new(),
            rc: HashMap::new(),
        }
    }

    /// The first listed range the address belongs to.
    fn get_pointer_owner_block(&self, pointer: usize) -> (r: Option<MemoryBlock>)
        ensures
            r == owner_of(self.spec_blocks(), pointer),
    {
        let n = self.blocks.len();
        proof {
            assert(self.spec_blocks().skip(0) =~= self.spec_blocks());
        }
        let mut i: usize = 0;
        while i < n
            invariant
                n == self.spec_blocks().len(),
                i <= n,
                owner_of(self.spec_blocks(), pointer) == owner_of(
                    self.spec_blocks().skip(i as int),
                    pointer,
                ),
            decreases n - i,
        {
            let mb = self.blocks[i];
            proof {
                assert(self.spec_blocks().skip(i as int)[0] == mb);
                assert(self.spec_blocks().skip(i as int).drop_first() =~= self.spec_blocks().skip(
                    i as int + 1,
                ));
            }
            let inside = pointer == mb.pointer || (pointer > mb.pointer && mb.size > 0 && pointer
                - mb.pointer < mb.size);
            if inside {
                return Some(mb);
            }
            i = i + 1;
        }
        None
    }

    /// The range whose base is exactly the address.
    fn get_block(&self, pointer: usize) -> (r: Option<MemoryBlock>)
        ensures
            r == base_of(self.spec_blocks(), pointer),
    {
        let n = self.blocks.len();
        proof {
            assert(self.spec_blocks().skip(0) =~= self.spec_blocks());
        }
        let mut i: usize = 0;
        while i < n
            invariant
                n == self.spec_blocks().len(),
                i <= n,
                base_of(self.spec_blocks(), pointer) == base_of(
                    self.spec_blocks().skip(i as int),
                    pointer,
                ),
            decreases n - i,
        {
            let mb = self.blocks[i];
            proof {
                assert(self.spec_blocks().skip(i as int)[0] == mb);
                assert(self.spec_blocks().skip(i as int).drop_first() =~= self.spec_blocks().skip(
                    i as int + 1,
                ));
            }
            if mb.pointer == pointer {
                return Some(mb);
            }
            i = i + 1;
        }
        None
    }

    /// An address past every live range.
    fn bound(&self) -> (r: Option<usize>)
        ensures
            match r {
                Some(b) => b == blocks_bound(self.spec_blocks()),
                None => blocks_bound(self.spec_blocks()) > usize::MAX,
            },
    {
        let n = self.blocks.len();
        let mut i: usize = n;
        let mut best: usize = 0;
        proof {
            assert(self.spec_blocks().skip(n as int) =~= Seq::<MemoryBlock>::empty());
        }
        while i > 0
            invariant
                n == self.spec_blocks().len(),
                i <= n,
                best == blocks_bound(self.spec_blocks().skip(i as int)),
            decreases i,
        {
            let mb = self.blocks[i - 1];
            proof {
                assert(self.spec_blocks().skip(i as int - 1)[0] == mb);
                assert(self.spec_blocks().skip(i as int - 1).drop_first()
                    =~= self.spec_blocks().skip(i as int));
            }
            let need: usize = if mb.size == 0 {
                1
            } else {
                mb.size
            };
            if mb.pointer > usize::MAX - need {
                proof {
                    lemma_blocks_bound_skip(self.spec_blocks(), i as int - 1);
                }
                return None;
            }
            let this = mb.pointer + need;
            if this > best {
                best = this;
            }
            i = i - 1;
        }
        proof {
            assert(self.spec_blocks().skip(0) =~= self.spec_blocks());
        }
        Some(best)
    }

    /// Is any address of the range (or its base, for size zero) inside a
    /// live range?
    fn range_used(&self, p: usize, size: usize) -> (r: bool)
        requires
            p + size <= usize::MAX,
        ensures
            r == !range_free(self.spec_blocks(), p, size),
    {
        if self.get_pointer_owner_block(p).is_some() {
            return true;
        }
        let mut off: usize = 1;
        while off < size
            invariant
                p + size <= usize::MAX,
                1 <= off,
                forall|q: usize| p <= q < p + off ==> owner_of(self.spec_blocks(), q) is None,
            decreases size - off,
        {
            if self.get_pointer_owner_block(p + off).is_some() {
                return true;
            }
            off = off + 1;
        }
        false
    }

    /// The lowest free base for a range of the given size.
    fn find_space(&self, size: usize) -> (r: Result<usize, HeapError>)
        ensures
            match r {
                Ok(p) => {
                    &&& p + size <= usize::MAX
                    &&& range_free(self.spec_blocks(), p, size)
                    &&& forall|q: usize| q < p ==> !range_free(self.spec_blocks(), q, size)
                },
                Err(e) => e == HeapError::AddressExhausted,
            },
    {
        let bound = match self.bound() {
            Some(b) => b,
            None => {
                return Err(HeapError::AddressExhausted);
            },
        };
        if size > usize::MAX - bound {
            return Err(HeapError::AddressExhausted);
        }
        let mut p: usize = 0;
        while p < bound
            invariant
                bound == blocks_bound(self.spec_blocks()),
                bound + size <= usize::MAX,
                p <= bound,
                forall|q: usize| q < p ==> !range_free(self.spec_blocks(), q, size),
            decreases bound - p,
        {
            if !self.range_used(p, size) {
                return Ok(p);
            }
            p = p + 1;
        }
        proof {
            lemma_past_bound_free(self.spec_blocks(), p, size);
        }
        Ok(p)
    }

    /// Adds a fresh range record at the lowest free base, touching no
    /// count.
    fn create_block(&mut self, size: usize) -> (r: Result<MemoryBlock, HeapError>)
        requires
            old(self).wf(),
        ensures
            final(self).wf(),
            final(self).spec_gc() == old(self).spec_gc(),
            final(self).spec_debug() == old(self).spec_debug(),
            final(self).spec_slots() == old(self).spec_slots(),
            final(self).spec_rc() == old(self).spec_rc(),
            match r {
                Ok(mb) => {
                    &&& mb.size == size
                    &&& mb.pointer + size <= usize::MAX
                    &&& range_free(old(self).spec_blocks(), mb.pointer, size)
                    &&& forall|q: usize|
                        q < mb.pointer ==> !range_free(old(self).spec_blocks(), q, size)
                    &&& final(self).spec_blocks() == old(self).spec_blocks().push(mb)
                },
                Err(e) => {
                    &&& e == HeapError::AddressExhausted
                    &&& *final(self) == *old(self)
                },
            },
    {
        let p = match self.find_space(size) {
            Ok(p) => p,
            Err(e) => {
                return Err(e);
            },
        };
        let mb = MemoryBlock { pointer: p, size };
        self.blocks.push(mb);
        proof {
            let nb = self.spec_blocks();
            let ob = old(self).spec_blocks();
            assert(nb =~= ob.push(mb));
            assert forall|i: int, j: int, a: usize|
                0 <= i < j < nb.len() && #[trigger] block_contains(nb[i], a) implies !(
            #[trigger] block_contains(nb[j], a)) by {
                if j + 1 == nb.len() {
                    assert(nb[j] == mb);
                    assert(nb[i] == ob[i]);
                    if block_contains(mb, a) {
                        assert(p <= a && (a < p + size || a == p));
                        assert(owner_of(ob, a) is None);
                        lemma_owner_of_contains(ob, a);
                        assert(!block_contains(ob[i], a));
                    }
                } else {
                    assert(nb[i] == ob[i]);
                    assert(nb[j] == ob[j]);
                    assert(block_contains(ob[i], a));
                }
            }
            assert(self.wf());
        }
        Ok(mb)
    }

    /// Allocates a fresh range with count one (count untouched when the
    /// collector is off) at the lowest free base.
    pub fn allocate(&mut self, size: usize) -> (r: Result<MemoryBlock, HeapError>)
        requires
            old(self).wf(),
        ensures
            final(self).wf(),
            final(self).spec_gc() == old(self).spec_gc(),
            final(self).spec_debug() == old(self).spec_debug(),
            final(self).spec_slots() == old(self).spec_slots(),
            match r {
                Ok(mb) => {
                    &&& mb.size == size
                    &&& range_free(old(self).spec_blocks(), mb.pointer, size)
                    &&& forall|q: usize|
                        q < mb.pointer ==> !range_free(old(self).spec_blocks(), q, size)
                    &&& final(self).spec_blocks() == old(self).spec_blocks().push(mb)
                    &&& final(self).spec_rc() == if old(self).spec_gc() {
                        old(self).spec_rc().insert(mb.pointer, 1usize)
                    } else {
                        old(self).spec_rc()
                    }
                },
                Err(e) => {
                    &&& e == HeapError::AddressExhausted
                    &&& *final(self) == *old(self)
                },
            },
    {
        let mb = match self.create_block(size) {
            Ok(mb) => mb,
            Err(e) => {
                return Err(e);
            },
        };
        if self.gc_enabled {
            self.rc.insert(mb.pointer, 1);
        }
        Ok(mb)
    }

    /// Reads the value at an address, if one was ever set there.
    pub fn get(&self, pointer: usize) -> (r: Option<Value>)
        ensures
            match r {
                Some(v) => self.spec_slots().contains_key(pointer) && v
                    == self.spec_slots().index(pointer),
                None => !self.spec_slots().contains_key(pointer),
            },
    {
        match self.slots.get(&pointer) {
            Some(v) => Some(v.clone()),
            None => None,
        }
    }

    /// Assigns a slot; a stored pointer value acquires one count on its
    /// target, and the write fails (with the slot already written) when
    /// that target is not inside any live range and the collector is on.
    pub fn set(&mut self, pointer: usize, value: Value) -> (r: Result<(), HeapError>)
        requires
            old(self).wf(),
        ensures
            final(self).wf(),
            final(self).spec_gc() == old(self).spec_gc(),
            final(self).spec_debug() == old(self).spec_debug(),
            final(self).spec_blocks() == old(self).spec_blocks(),
            final(self).spec_slots() == old(self).spec_slots().insert(pointer, value),
            match value {
                Value::Pointer(t) => {
                    &&& r is Ok <==> !old(self).spec_gc() || owner_of(
                        old(self).spec_blocks(),
                        t,
                    ) is Some
                    &&& r is Err ==> r == Result::<(), HeapError>::Err(
                        HeapError::BlockNotAllocated(t),
                    ) && final(self).spec_rc() == old(self).spec_rc()
                    &&& !old(self).spec_gc() ==> final(self).spec_rc() == old(self).spec_rc()
                    &&& (old(self).spec_gc() && owner_of(old(self).spec_blocks(), t) is Some)
                        ==> final(self).spec_rc() == rc_bumped(
                        old(self).spec_rc(),
                        owner_of(old(self).spec_blocks(), t)->Some_0.pointer,
                    )
                },
                _ => r is Ok && final(self).spec_rc() == old(self).spec_rc(),
            },
    {
        let is_ptr = matches!(&value, Value::Pointer(_));
        let ghost tgt: usize = match value {
            Value::Pointer(t) => t,
            _ => 0usize,
        };
        if is_ptr {
            let t = match &value {
                Value::Pointer(t) => *t,
                _ => 0,
            };
            self.slots.insert(pointer, value);
            self.rc_plus(t)
        } else {
            self.slots.insert(pointer, value);
            Ok(())
        }
    }

    /// Adds one count to the range the address belongs to. Never frees.
    pub fn rc_plus(&mut self, pointer: usize) -> (r: Result<(), HeapError>)
        requires
            old(self).wf(),
        ensures
            final(self).wf(),
            final(self).spec_gc() == old(self).spec_gc(),
            final(self).spec_debug() == old(self).spec_debug(),
            final(self).spec_blocks() == old(self).spec_blocks(),
            final(self).spec_slots() == old(self).spec_slots(),
            !old(self).spec_gc() ==> r is Ok && final(self).spec_rc() == old(self).spec_rc(),
            old(self).spec_gc() ==> match owner_of(old(self).spec_blocks(), pointer) {
                Some(mb) => r is Ok && final(self).spec_rc() == rc_bumped(
                    old(self).spec_rc(),
                    mb.pointer,
                ),
                None => r == Result::<(), HeapError>::Err(
                    HeapError::BlockNotAllocated(pointer),
                ) && final(self).spec_rc() == old(self).spec_rc(),
            },
    {
        if !self.gc_enabled {
            return Ok(());
        }
        let mb = match self.get_pointer_owner_block(pointer) {
            Some(mb) => mb,
            None => {
                return Err(HeapError::BlockNotAllocated(pointer));
            },
        };
        let cur: usize = match self.rc.get(&mb.pointer) {
            Some(c) => *c,
            None => 0,
        };
        let next: usize = if cur == usize::MAX {
            usize::MAX
        } else {
            cur + 1
        };
        self.rc.insert(mb.pointer, next);
        Ok(())
    }

    /// Sets the count of the range the address belongs to back to zero,
    /// without freeing it; unknown addresses are ignored.
    pub fn rc_reset(&mut self, pointer: usize)
        requires
            old(self).wf(),
        ensures
            final(self).wf(),
            final(self).spec_gc() == old(self).spec_gc(),
            final(self).spec_debug() == old(self).spec_debug(),
            final(self).spec_blocks() == old(self).spec_blocks(),
            final(self).spec_slots() == old(self).spec_slots(),
            final(self).spec_rc() == match owner_of(old(self).spec_blocks(), pointer) {
                Some(mb) => old(self).spec_rc().insert(mb.pointer, 0usize),
                None => old(self).spec_rc(),
            },
    {
        match self.get_pointer_owner_block(pointer) {
            Some(mb) => {
                self.rc.insert(mb.pointer, 0);
            },
            None => {},
        }
    }
}

/// The count map after one more reference to a base: an absent entry
/// counts as zero, and the count pins at the largest machine value.
pub open spec fn rc_bumped(rc: Map<usize, usize>, base: usize) -> Map<usize, usize> {
    let cur: usize = if rc.contains_key(base) {
        rc[base]
    } else {
        0usize
    };
    let next: usize = if cur == usize::MAX {
        usize::MAX
    } else {
        (cur + 1) as usize
    };
    rc.insert(base, next)
}

/// Belonging to some listed range is the same as `owner_of` finding one.
pub proof fn lemma_owner_of_contains(blocks: Seq<MemoryBlock>, a: usize)
    ensures
        (owner_of(blocks, a) is Some) <==> exists|i: int|
            0 <= i < blocks.len() && block_contains(#[trigger] blocks[i], a),
        owner_of(blocks, a) is Some ==> exists|i: int|
            0 <= i < blocks.len() && blocks[i] == owner_of(blocks, a)->Some_0 && block_contains(
                blocks[i],
                a,
            ),
    decreases blocks.len(),
{
    if blocks.len() > 0 {
        lemma_owner_of_contains(blocks.drop_first(), a);
        if block_contains(blocks[0], a) {
        } else {
            if owner_of(blocks, a) is Some {
                let i = choose|i: int|
                    0 <= i < blocks.drop_first().len() && blocks.drop_first()[i]
                        == owner_of(blocks.drop_first(), a)->Some_0 && block_contains(
                        blocks.drop_first()[i],
                        a,
                    );
                assert(blocks[i + 1] == blocks.drop_first()[i]);
            }
            if exists|i: int| 0 <= i < blocks.len() && block_contains(#[trigger] blocks[i], a) {
                let i = choose|i: int|
                    0 <= i < blocks.len() && block_contains(#[trigger] blocks[i], a);
                assert(blocks.drop_first()[i - 1] == blocks[i]);
            }
        }
    }
}


/// A base is found exactly when some listed range starts there.
pub proof fn lemma_base_of_contains(blocks: Seq<MemoryBlock>, p: usize)
    ensures
        (base_of(blocks, p) is Some) <==> exists|i: int|
            0 <= i < blocks.len() && (#[trigger] blocks[i]).pointer == p,
        base_of(blocks, p) is Some ==> exists|i: int|
            0 <= i < blocks.len() && blocks[i] == base_of(blocks, p)->Some_0 && blocks[i].pointer
                == p,
    decreases blocks.len(),
{
    if blocks.len() > 0 {
        lemma_base_of_contains(blocks.drop_first(), p);
        if blocks[0].pointer == p {
        } else {
            if base_of(blocks, p) is Some {
                let i = choose|i: int|
                    0 <= i < blocks.drop_first().len() && blocks.drop_first()[i] == base_of(
                        blocks.drop_first(),
                        p,
                    )->Some_0 && blocks.drop_first()[i].pointer == p;
                assert(blocks[i + 1] == blocks.drop_first()[i]);
            }
            if exists|i: int| 0 <= i < blocks.len() && (#[trigger] blocks[i]).pointer == p {
                let i = choose|i: int|
                    0 <= i < blocks.len() && (#[trigger] blocks[i]).pointer == p;
                assert(blocks.drop_first()[i - 1] == blocks[i]);
            }
        }
    }
}

/// The slot map with one range's addresses taken out.
pub open spec fn slots_minus_range(slots: Map<usize, Value>, mb: MemoryBlock) -> Map<
    usize,
    Value,
> {
    Map::new(
        |a: usize| slots.contains_key(a) && !(mb.pointer <= a < mb.pointer + mb.size),
        |a: usize| slots[a],
    )
}

/// Clearing a range only loses slots.
pub proof fn lemma_minus_range_submap(slots: Map<usize, Value>, mb: MemoryBlock)
    ensures
        slots_minus_range(slots, mb).submap_of(slots),
{
}

/// No slot of the range holds a pointer value.
pub open spec fn no_pointer_slots(slots: Map<usize, Value>, mb: MemoryBlock) -> bool {
    forall|a: usize|
        mb.pointer <= a < mb.pointer + mb.size && slots.contains_key(a) ==> !(
        (#[trigger] slots[a]) is Pointer)
}

impl Heap {
    /// The index of the range record whose base is the address.
    fn find_base_index(&self, pointer: usize) -> (r: Option<usize>)
        ensures
            match r {
                Some(i) => i < self.spec_blocks().len() && self.spec_blocks()[i as int].pointer
                    == pointer && base_of(self.spec_blocks(), pointer) == Some(
                    self.spec_blocks()[i as int],
                ),
                None => base_of(self.spec_blocks(), pointer) is None,
            },
    {
        let n = self.blocks.len();
        proof {
            assert(self.spec_blocks().skip(0) =~= self.spec_blocks());
        }
        let mut i: usize = 0;
        while i < n
            invariant
                n == self.spec_blocks().len(),
                i <= n,
                base_of(self.spec_blocks(), pointer) == base_of(
                    self.spec_blocks().skip(i as int),
                    pointer,
                ),
            decreases n - i,
        {
            let mb = self.blocks[i];
            proof {
                assert(self.spec_blocks().skip(i as int)[0] == mb);
                assert(self.spec_blocks().skip(i as int).drop_first() =~= self.spec_blocks().skip(
                    i as int + 1,
                ));
            }
            if mb.pointer == pointer {
                return Some(i);
            }
            i = i + 1;
        }
        None
    }

    /// Empties every slot of a range, collecting the targets of pointer
    /// values that were held there.
    fn clear_range(&mut self, mb: MemoryBlock, targets: &mut Vec<usize>)
        requires
            old(self).wf(),
            mb.pointer + mb.size <= usize::MAX,
        ensures
            final(self).wf(),
            final(self).spec_gc() == old(self).spec_gc(),
            final(self).spec_debug() == old(self).spec_debug(),
            final(self).spec_blocks() == old(self).spec_blocks(),
            final(self).spec_rc() == old(self).spec_rc(),
            final(self).spec_slots() == slots_minus_range(old(self).spec_slots(), mb),
            no_pointer_slots(old(self).spec_slots(), mb) ==> final(targets)@ == old(targets)@,
    {
        let mut off: usize = 0;
        while off < mb.size
            invariant
                self.wf(),
                mb.pointer + mb.size <= usize::MAX,
                off <= mb.size,
                self.spec_gc() == old(self).spec_gc(),
                self.spec_debug() == old(self).spec_debug(),
                self.spec_blocks() == old(self).spec_blocks(),
                self.spec_rc() == old(self).spec_rc(),
                self.spec_slots() =~= Map::new(
                    |a: usize|
                        old(self).spec_slots().contains_key(a) && !(mb.pointer <= a < mb.pointer
                            + off),
                    |a: usize| old(self).spec_slots()[a],
                ),
                no_pointer_slots(old(self).spec_slots(), mb) ==> targets@ == old(targets)@,
            decreases mb.size - off,
        {
            let addr = mb.pointer + off;
            match self.slots.remove(&addr) {
                Some(v) => {
                    match v {
                        Value::Pointer(t) => {
                            proof {
                                if no_pointer_slots(old(self).spec_slots(), mb) {
                                    assert(old(self).spec_slots()[addr] is Pointer);
                                }
                            }
                            targets.push(t);
                        },
                        _ => {},
                    }
                },
                None => {},
            }
            proof {
                assert(self.spec_slots() =~= Map::new(
                    |a: usize|
                        old(self).spec_slots().contains_key(a) && !(mb.pointer <= a < mb.pointer
                            + off + 1),
                    |a: usize| old(self).spec_slots()[a],
                ));
            }
            off = off + 1;
        }
        proof {
            assert(self.spec_slots() =~= slots_minus_range(old(self).spec_slots(), mb));
        }
    }

    /// Frees the range whose base is the address: every slot of the range
    /// is cleared, and each pointer value held there gives up one count on
    /// its target, which may free further ranges. An address that is no
    /// base is ignored. A cascade target outside every live range fails
    /// when the collector is on.
    pub fn free(&mut self, pointer: usize) -> (r: Result<(), HeapError>)
        requires
            old(self).wf(),
        ensures
            final(self).wf(),
            final(self).spec_gc() == old(self).spec_gc(),
            final(self).spec_debug() == old(self).spec_debug(),
            final(self).spec_slots().submap_of(old(self).spec_slots()),
            forall|k: int|
                0 <= k < final(self).spec_blocks().len() ==> old(self).spec_blocks().contains(
                    #[trigger] final(self).spec_blocks()[k],
                ),
            final(self).spec_blocks().len() <= old(self).spec_blocks().len(),
            base_of(old(self).spec_blocks(), pointer) is None ==> r is Ok
                && *final(self) == *old(self),
            r is Ok ==> base_of(final(self).spec_blocks(), pointer) is None,
            !old(self).spec_gc() ==> r is Ok && final(self).spec_rc() == old(self).spec_rc(),
            (match base_of(old(self).spec_blocks(), pointer) {
                Some(mb) => no_pointer_slots(old(self).spec_slots(), mb),
                None => true,
            }) ==> r is Ok,
            (match base_of(old(self).spec_blocks(), pointer) {
                Some(mb) => no_pointer_slots(old(self).spec_slots(), mb) ==> {
                    &&& final(self).spec_slots() == slots_minus_range(old(self).spec_slots(), mb)
                    &&& exists|i: int|
                        0 <= i < old(self).spec_blocks().len() && old(self).spec_blocks()[i] == mb
                            && final(self).spec_blocks() == old(self).spec_blocks().remove(i)
                    &&& final(self).spec_rc() == if old(self).spec_gc() {
                        old(self).spec_rc().remove(mb.pointer)
                    } else {
                        old(self).spec_rc()
                    }
                },
                None => true,
            }),
    {
        let idx = match self.find_base_index(pointer) {
            None => {
                return Ok(());
            },
            Some(i) => i,
        };
        let mb = self.blocks[idx];
        let ghost no_ptr = no_pointer_slots(old(self).spec_slots(), mb);
        self.blocks.remove(idx);
        proof {
            lemma_blocks_wf_remove(old(self).spec_blocks(), idx as int);
            assert forall|k: int|
                0 <= k < self.spec_blocks().len() implies (#[trigger] self.spec_blocks()[k]).pointer
                != pointer by {
                let k0 = if k < idx {
                    k
                } else {
                    k + 1
                };
                assert(self.spec_blocks()[k] == old(self).spec_blocks()[k0]);
                if old(self).spec_blocks()[k0].pointer == pointer {
                    assert(block_contains(old(self).spec_blocks()[k0], pointer));
                    assert(block_contains(old(self).spec_blocks()[idx as int], pointer));
                }
            }
            lemma_base_of_contains(self.spec_blocks(), pointer);
        }
        if self.gc_enabled {
            self.rc.remove(&mb.pointer);
        }
        let mut targets: Vec<usize> = Vec::new();
        self.clear_range(mb, &mut targets);
        if !self.gc_enabled {
            return Ok(());
        }
        proof {
            lemma_minus_range_submap(old(self).spec_slots(), mb);
            if no_ptr {
                assert(self.spec_blocks() =~= old(self).spec_blocks().remove(idx as int));
            }
        }
        while targets.len() > 0
            invariant
                self.wf(),
                self.spec_gc() == old(self).spec_gc(),
                self.spec_debug() == old(self).spec_debug(),
                self.spec_gc(),
                old(self).wf(),
                idx < old(self).spec_blocks().len(),
                old(self).spec_blocks()[idx as int] == mb,
                base_of(old(self).spec_blocks(), pointer) == Some(mb),
                no_ptr == no_pointer_slots(old(self).spec_slots(), mb),
                self.spec_slots().submap_of(old(self).spec_slots()),
                forall|k: int|
                    0 <= k < self.spec_blocks().len() ==> old(self).spec_blocks().contains(
                        #[trigger] self.spec_blocks()[k],
                    ),
                self.spec_blocks().len() < old(self).spec_blocks().len(),
                base_of(self.spec_blocks(), pointer) is None,
                no_ptr ==> {
                    &&& targets@.len() == 0
                    &&& self.spec_slots() == slots_minus_range(old(self).spec_slots(), mb)
                    &&& self.spec_blocks() == old(self).spec_blocks().remove(idx as int)
                    &&& self.spec_rc() == old(self).spec_rc().remove(mb.pointer)
                },
            decreases self.spec_blocks().len(), targets.len(),
        {
            let ghost top = *self;
            proof {
                if no_ptr {
                    assert(targets@.len() == 0);
                }
            }
            let t = match targets.pop() {
                Some(t) => t,
                None => {
                    return Ok(());
                },
            };
            let omb = match self.get_pointer_owner_block(t) {
                Some(omb) => omb,
                None => {
                    return Err(HeapError::BlockNotAllocated(t));
                },
            };
            let cur: usize = match self.rc.get(&omb.pointer) {
                Some(c) => *c,
                None => 0,
            };
            if cur <= 1 {
                proof {
                    lemma_owner_of_contains(self.spec_blocks(), t);
                    lemma_base_of_contains(self.spec_blocks(), omb.pointer);
                }
                let oidx = match self.find_base_index(omb.pointer) {
                    Some(i) => i,
                    None => {
                        return Err(HeapError::BlockNotAllocated(t));
                    },
                };
                let omb2 = self.blocks[oidx];
                let ghost mid = *self;
                self.blocks.remove(oidx);
                proof {
                    lemma_blocks_wf_remove(mid.spec_blocks(), oidx as int);
                    assert forall|k: int|
                        0 <= k < self.spec_blocks().len() implies old(self).spec_blocks().contains(
                        #[trigger] self.spec_blocks()[k],
                    ) by {
                        let k0 = if k < oidx {
                            k
                        } else {
                            k + 1
                        };
                        assert(self.spec_blocks()[k] == mid.spec_blocks()[k0]);
                    }
                    assert forall|k: int|
                        0 <= k < self.spec_blocks().len() implies (
                    #[trigger] self.spec_blocks()[k]).pointer != pointer by {
                        let k0 = if k < oidx {
                            k
                        } else {
                            k + 1
                        };
                        assert(self.spec_blocks()[k] == mid.spec_blocks()[k0]);
                        lemma_base_of_contains(mid.spec_blocks(), pointer);
                    }
                    lemma_base_of_contains(self.spec_blocks(), pointer);
                }
                self.rc.remove(&omb2.pointer);
                let ghost pre = *self;
                self.clear_range(omb2, &mut targets);
                proof {
                    broadcast use vstd::map_lib::lemma_submap_of_trans;

                    lemma_minus_range_submap(pre.spec_slots(), omb2);
                    assert(pre.spec_slots() == top.spec_slots());
                    assert(self.spec_slots().submap_of(top.spec_slots()));
                }
            } else {
                self.rc.insert(omb.pointer, cur - 1);
            }
        }
        proof {
            if no_ptr {
                assert(old(self).spec_blocks()[idx as int] == mb && self.spec_blocks() == old(
                    self,
                ).spec_blocks().remove(idx as int));
            }
        }
        Ok(())
    }

    /// Takes one count from the range the address belongs to; at zero the
    /// range is freed as by `free`. Unknown addresses fail when the
    /// collector is on.
    pub fn rc_minus(&mut self, pointer: usize) -> (r: Result<(), HeapError>)
        requires
            old(self).wf(),
        ensures
            final(self).wf(),
            final(self).spec_gc() == old(self).spec_gc(),
            final(self).spec_debug() == old(self).spec_debug(),
            !old(self).spec_gc() ==> r is Ok && *final(self) == *old(self),
            final(self).spec_slots().submap_of(old(self).spec_slots()),
            forall|k: int|
                0 <= k < final(self).spec_blocks().len() ==> old(self).spec_blocks().contains(
                    #[trigger] final(self).spec_blocks()[k],
                ),
            old(self).spec_gc() ==> match owner_of(old(self).spec_blocks(), pointer) {
                Some(mb) => {
                    let plural = old(self).spec_rc().contains_key(mb.pointer)
                        && old(self).spec_rc().index(mb.pointer) >= 2;
                    &&& plural ==> r is Ok && final(self).spec_rc() == old(self).spec_rc().insert(
                        mb.pointer,
                        (old(self).spec_rc().index(mb.pointer) - 1) as usize,
                    ) && final(self).spec_slots() == old(self).spec_slots()
                        && final(self).spec_blocks() == old(self).spec_blocks()
                    &&& !plural ==> (no_pointer_slots(old(self).spec_slots(), mb) ==> {
                        &&& r is Ok
                        &&& final(self).spec_slots() == slots_minus_range(
                            old(self).spec_slots(),
                            mb,
                        )
                        &&& exists|i: int|
                            0 <= i < old(self).spec_blocks().len() && old(self).spec_blocks()[i]
                                == mb && final(self).spec_blocks()
                                == old(self).spec_blocks().remove(i)
                        &&& final(self).spec_rc() == old(self).spec_rc().remove(mb.pointer)
                    })
                },
                None => r == Result::<(), HeapError>::Err(HeapError::BlockNotAllocated(pointer))
                    && *final(self) == *old(self),
            },
    {
        if !self.gc_enabled {
            return Ok(());
        }
        let mb = match self.get_pointer_owner_block(pointer) {
            Some(mb) => mb,
            None => {
                return Err(HeapError::BlockNotAllocated(pointer));
            },
        };
        let cur: usize = match self.rc.get(&mb.pointer) {
            Some(c) => *c,
            None => 0,
        };
        if cur <= 1 {
            proof {
                lemma_owner_of_contains(self.spec_blocks(), pointer);
                lemma_base_of_contains(self.spec_blocks(), mb.pointer);
                let i = choose|i: int|
                    0 <= i < self.spec_blocks().len() && self.spec_blocks()[i] == base_of(
                        self.spec_blocks(),
                        mb.pointer,
                    )->Some_0 && self.spec_blocks()[i].pointer == mb.pointer;
                let j = choose|j: int|
                    0 <= j < self.spec_blocks().len() && self.spec_blocks()[j] == mb
                        && block_contains(self.spec_blocks()[j], pointer);
                assert(block_contains(self.spec_blocks()[i], mb.pointer));
                assert(block_contains(self.spec_blocks()[j], mb.pointer));
                if i != j {
                    if i < j {
                        assert(block_contains(self.spec_blocks()[i], mb.pointer));
                    } else {
                        assert(block_contains(self.spec_blocks()[j], mb.pointer));
                    }
                }
                assert(base_of(self.spec_blocks(), mb.pointer) == Some(mb));
            }
            self.free(mb.pointer)
        } else {
            self.rc.insert(mb.pointer, cur - 1);
            Ok(())
        }
    }
}


impl Heap {
    /// Grows an allocation: an unknown base allocates afresh; a range
    /// already large enough is kept; otherwise a new range is allocated,
    /// every set slot of the old range moves to the same offset of the
    /// new one, and the old range record is dropped with its base's
    /// count reset; counts of ranges that moved slots point at are
    /// untouched.
    pub fn realloc(&mut self, pointer: usize, size: usize) -> (r: Result<usize, HeapError>)
        requires
            old(self).wf(),
        ensures
            final(self).wf(),
            final(self).spec_gc() == old(self).spec_gc(),
            final(self).spec_debug() == old(self).spec_debug(),
            r is Err ==> r == Result::<usize, HeapError>::Err(HeapError::AddressExhausted)
                && *final(self) == *old(self),
            match base_of(old(self).spec_blocks(), pointer) {
                None => match r {
                    Ok(np) => {
                        &&& range_free(old(self).spec_blocks(), np, size)
                        &&& forall|q: usize|
                            q < np ==> !range_free(old(self).spec_blocks(), q, size)
                        &&& final(self).spec_blocks() == old(self).spec_blocks().push(
                            MemoryBlock { pointer: np, size },
                        )
                        &&& final(self).spec_slots() == old(self).spec_slots()
                        &&& final(self).spec_rc() == if old(self).spec_gc() {
                            old(self).spec_rc().insert(np, 1usize)
                        } else {
                            old(self).spec_rc()
                        }
                    },
                    Err(_) => true,
                },
                Some(mb) => if size <= mb.size {
                    r == Result::<usize, HeapError>::Ok(mb.pointer) && *final(self) == *old(self)
                } else {
                    match r {
                        Ok(np) => {
                            &&& range_free(old(self).spec_blocks(), np, size)
                            &&& np + size <= usize::MAX
                            &&& exists|i: int|
                                0 <= i < old(self).spec_blocks().len() && old(self).spec_blocks()[i]
                                    == mb && final(self).spec_blocks() == old(
                                    self,
                                ).spec_blocks().push(MemoryBlock { pointer: np, size }).remove(i)
                            &&& final(self).spec_rc() == old(self).spec_rc().remove(mb.pointer)
                            &&& forall|a: usize|
                                mb.pointer <= a < mb.pointer + mb.size
                                    && #[trigger] old(self).spec_slots().contains_key(a)
                                    ==> final(self).spec_slots().contains_key(
                                    (np + (a - mb.pointer)) as usize,
                                ) && final(self).spec_slots()[(np + (a - mb.pointer)) as usize]
                                    == old(self).spec_slots()[a]
                            &&& forall|a: usize|
                                mb.pointer <= a < mb.pointer + mb.size
                                    ==> !(#[trigger] final(self).spec_slots().contains_key(a))
                            &&& forall|a: usize|
                                !(mb.pointer <= a < mb.pointer + mb.size) && !(np <= a < np
                                    + mb.size) ==> final(self).spec_slots().contains_key(a)
                                    == #[trigger] old(self).spec_slots().contains_key(a)
                                    && (old(self).spec_slots().contains_key(a)
                                    ==> final(self).spec_slots()[a] == old(self).spec_slots()[a])
                        },
                        Err(_) => true,
                    }
                },
            },
    {
        let idx = match self.find_base_index(pointer) {
            None => {
                return match self.allocate(size) {
                    Ok(b) => Ok(b.pointer),
                    Err(e) => Err(e),
                };
            },
            Some(i) => i,
        };
        let mb = self.blocks[idx];
        if size <= mb.size {
            return Ok(mb.pointer);
        }
        let nb = match self.create_block(size) {
            Ok(b) => b,
            Err(e) => {
                return Err(e);
            },
        };
        let np = nb.pointer;
        proof {
            if np <= mb.pointer && mb.pointer < np + size {
                assert(owner_of(old(self).spec_blocks(), mb.pointer) is None);
                lemma_owner_of_contains(old(self).spec_blocks(), mb.pointer);
                assert(block_contains(old(self).spec_blocks()[idx as int], mb.pointer));
            }
            if mb.size > 0 && np + size > mb.pointer && mb.pointer + mb.size > np {
                let w: usize = if np > mb.pointer {
                    np
                } else {
                    mb.pointer
                };
                assert(np <= w && (w < np + size || w == np));
                assert(owner_of(old(self).spec_blocks(), w) is None);
                lemma_owner_of_contains(old(self).spec_blocks(), w);
                assert(block_contains(old(self).spec_blocks()[idx as int], w));
            }
        }
        let ghost mid = *self;
        let mut off: usize = 0;
        while off < mb.size
            invariant
                self.wf(),
                old(self).wf(),
                mid.wf(),
                off <= mb.size,
                mb.size < size,
                np + size <= usize::MAX,
                mb.pointer + mb.size <= usize::MAX,
                idx < old(self).spec_blocks().len(),
                old(self).spec_blocks()[idx as int] == mb,
                mid.spec_blocks() == old(self).spec_blocks().push(MemoryBlock { pointer: np, size }),
                mid.spec_slots() == old(self).spec_slots(),
                mid.spec_rc() == old(self).spec_rc(),
                self.spec_gc() == old(self).spec_gc(),
                self.spec_debug() == old(self).spec_debug(),
                self.spec_blocks() == mid.spec_blocks(),
                self.spec_rc() == mid.spec_rc(),
                range_free(old(self).spec_blocks(), np, size),
                !(np <= mb.pointer < np + size),
                mb.size > 0 ==> np + size <= mb.pointer || mb.pointer + mb.size <= np,
                forall|a: usize|
                    mb.pointer <= a < mb.pointer + off
                        && #[trigger] old(self).spec_slots().contains_key(a)
                        ==> self.spec_slots().contains_key((np + (a - mb.pointer)) as usize)
                        && self.spec_slots()[(np + (a - mb.pointer)) as usize]
                        == old(self).spec_slots()[a],
                forall|a: usize|
                    mb.pointer <= a < mb.pointer + off ==> !(
                    #[trigger] self.spec_slots().contains_key(a)),
                forall|a: usize|
                    !(mb.pointer <= a < mb.pointer + off) && !(np <= a < np + off)
                        ==> self.spec_slots().contains_key(a) == #[trigger] old(
                        self,
                    ).spec_slots().contains_key(a) && (old(self).spec_slots().contains_key(a)
                        ==> self.spec_slots()[a] == old(self).spec_slots()[a]),
            decreases mb.size - off,
        {
            let src = mb.pointer + off;
            let dst = np + off;
            proof {
                assert(np <= dst && (dst < np + size || dst == np));
                assert(owner_of(old(self).spec_blocks(), dst) is None);
                lemma_owner_of_contains(old(self).spec_blocks(), dst);
                assert(!block_contains(old(self).spec_blocks()[idx as int], dst));
                assert(block_contains(old(self).spec_blocks()[idx as int], src));
                if np <= src && (src < np + size || src == np) {
                    assert(owner_of(old(self).spec_blocks(), src) is None);
                    lemma_owner_of_contains(old(self).spec_blocks(), src);
                }
                assert(!(np <= src < np + size));
            }
            let ghost pre = *self;
            match self.slots.remove(&src) {
                Some(v) => {
                    self.slots.insert(dst, v);
                },
                None => {},
            }
            proof {
                assert(!pre.spec_slots().contains_key(src) ==> self.spec_slots()
                    == pre.spec_slots().remove(src));
                assert(pre.spec_slots().contains_key(src) ==> self.spec_slots()
                    == pre.spec_slots().remove(src).insert(dst, pre.spec_slots()[src]));
                assert forall|a: usize|
                    mb.pointer <= a < mb.pointer + (off + 1)
                        && #[trigger] old(self).spec_slots().contains_key(a)
                        implies self.spec_slots().contains_key((np + (a - mb.pointer)) as usize)
                    && self.spec_slots()[(np + (a - mb.pointer)) as usize]
                    == old(self).spec_slots()[a] by {
                    let d = (np + (a - mb.pointer)) as usize;
                    if a < mb.pointer + off {
                        assert(pre.spec_slots().contains_key(d) && pre.spec_slots()[d] == old(
                            self,
                        ).spec_slots()[a]);
                        assert(d != src && d != dst);
                    } else {
                        assert(a == src && d == dst);
                        assert(pre.spec_slots().contains_key(src) == old(
                            self,
                        ).spec_slots().contains_key(src));
                    }
                }
                assert forall|a: usize|
                    mb.pointer <= a < mb.pointer + (off + 1) implies !(
                #[trigger] self.spec_slots().contains_key(a)) by {
                    assert(a != dst);
                    if a < mb.pointer + off {
                        assert(!pre.spec_slots().contains_key(a));
                    }
                }
                assert forall|a: usize|
                    !(mb.pointer <= a < mb.pointer + (off + 1)) && !(np <= a < np + (off + 1))
                        implies self.spec_slots().contains_key(a) == old(
                    self,
                ).spec_slots().contains_key(a) && (old(self).spec_slots().contains_key(a)
                    ==> self.spec_slots()[a] == old(self).spec_slots()[a]) by {
                    assert(a != src && a != dst);
                    assert(pre.spec_slots().contains_key(a) == old(
                        self,
                    ).spec_slots().contains_key(a));
                }
            }
            off = off + 1;
        }
        let ghost done = *self;
        self.blocks.remove(idx);
        self.rc.remove(&mb.pointer);
        proof {
            lemma_blocks_wf_remove(mid.spec_blocks(), idx as int);
            assert(old(self).spec_blocks()[idx as int] == mb && self.spec_blocks() == old(
                self,
            ).spec_blocks().push(MemoryBlock { pointer: np, size }).remove(idx as int));
            assert(self.spec_slots() == done.spec_slots());
            assert forall|a: usize|
                mb.pointer <= a < mb.pointer + mb.size implies !(
            #[trigger] self.spec_slots().contains_key(a)) by {
                assert(!done.spec_slots().contains_key(a));
            }
        }
        Ok(np)
    }
}


/// How one added count relates two heap states.
pub open spec fn rc_plus_rel(h0: Heap, h1: Heap, t: usize, ok: bool) -> bool {
    &&& h1.wf()
    &&& h1.spec_gc() == h0.spec_gc()
    &&& h1.spec_debug() == h0.spec_debug()
    &&& h1.spec_blocks() == h0.spec_blocks()
    &&& h1.spec_slots() == h0.spec_slots()
    &&& (!h0.spec_gc() ==> ok && h1.spec_rc() == h0.spec_rc())
    &&& (h0.spec_gc() ==> match owner_of(h0.spec_blocks(), t) {
        Some(mb) => ok && h1.spec_rc() == rc_bumped(h0.spec_rc(), mb.pointer),
        None => !ok && h1.spec_rc() == h0.spec_rc(),
    })
}

/// How one removed count (with its possible cascade of frees) relates
/// two heap states.
pub open spec fn rc_minus_rel(h0: Heap, h1: Heap, t: usize, ok: bool) -> bool {
    &&& h1.wf()
    &&& h1.spec_gc() == h0.spec_gc()
    &&& h1.spec_debug() == h0.spec_debug()
    &&& (!h0.spec_gc() ==> ok && h1 == h0)
    &&& h1.spec_slots().submap_of(h0.spec_slots())
    &&& forall|k: int|
        0 <= k < h1.spec_blocks().len() ==> h0.spec_blocks().contains(
            #[trigger] h1.spec_blocks()[k],
        )
    &&& (h0.spec_gc() ==> match owner_of(h0.spec_blocks(), t) {
        Some(mb) => {
            let plural = h0.spec_rc().contains_key(mb.pointer) && h0.spec_rc().index(mb.pointer)
                >= 2;
            &&& plural ==> ok && h1.spec_rc() == h0.spec_rc().insert(
                mb.pointer,
                (h0.spec_rc().index(mb.pointer) - 1) as usize,
            ) && h1.spec_slots() == h0.spec_slots() && h1.spec_blocks() == h0.spec_blocks()
            &&& !plural ==> (no_pointer_slots(h0.spec_slots(), mb) ==> {
                &&& ok
                &&& h1.spec_slots() == slots_minus_range(h0.spec_slots(), mb)
                &&& exists|i: int|
                    0 <= i < h0.spec_blocks().len() && h0.spec_blocks()[i] == mb
                        && h1.spec_blocks() == h0.spec_blocks().remove(i)
                &&& h1.spec_rc() == h0.spec_rc().remove(mb.pointer)
            })
        },
        None => !ok && h1 == h0,
    })
}


/// Law (reference counting, one step): taking one more count on a live
/// range and then giving it back leaves the heap exactly as it was.
/// This is the primitive the stack leans on: pushing a pointer value
/// and popping it again is count-neutral. The hypotheses are what
/// `rc_plus` and `rc_minus` promise for a range already holding at
/// least one count below the machine maximum.
pub proof fn lemma_rc_plus_then_minus(h0: Heap, h1: Heap, h2: Heap, t: usize)
    requires
        h0.wf(),
        h0.spec_gc(),
        owner_of(h0.spec_blocks(), t) is Some,
        ({
            let base = owner_of(h0.spec_blocks(), t)->Some_0.pointer;
            h0.spec_rc().contains_key(base) && 1 <= h0.spec_rc().index(base) < usize::MAX
        }),
        rc_plus_rel(h0, h1, t, true),
        rc_minus_rel(h1, h2, t, true),
    ensures
        h2.spec_slots() == h0.spec_slots(),
        h2.spec_blocks() == h0.spec_blocks(),
        h2.spec_rc() =~= h0.spec_rc(),
{
    let base = owner_of(h0.spec_blocks(), t)->Some_0.pointer;
    assert(h1.spec_rc() == rc_bumped(h0.spec_rc(), base));
    assert(h1.spec_rc().index(base) == h0.spec_rc().index(base) + 1);
    assert(h1.spec_blocks() == h0.spec_blocks());
    assert(owner_of(h1.spec_blocks(), t) == owner_of(h0.spec_blocks(), t));
    assert(h2.spec_rc() == h1.spec_rc().insert(
        base,
        (h1.spec_rc().index(base) - 1) as usize,
    ));
}

} // verus!
