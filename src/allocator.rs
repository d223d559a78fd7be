//! The typed-pool allocator: one free list per type symbol, so that storage
//! handed back for a type is reused for the next object of that type.
use vstd::prelude::*;
use std::collections::VecDeque;
use crate::object_table::ObjectDescTable;
use crate::vm::{
    Metadata, Object, StackFrame, StackFrameCore, TypeSymbol, VariantId, VmType, STACK_FRAME_TYPE,
};

verus! {

/// A free list: blocks handed back and not yet reused.
pub struct AllocationGroup<T> {
    objects: VecDeque<T>,
}

impl<T> View for AllocationGroup<T> {
    type V = Seq<T>;

    closed spec fn view(&self) -> Seq<T> {
        self.objects@
    }
}

impl<T> AllocationGroup<T> {
    pub fn new() -> (r: AllocationGroup<T>)
        ensures
            r@ == Seq::<T>::empty(),
    {
        AllocationGroup { objects: VecDeque::new() }
    }

    /// Puts a block at the front of the list.
    pub fn push_front(&mut self, memory: T)
        ensures
            final(self)@ == seq![memory] + old(self)@,
    {
        self.objects.push_front(memory);
    }

    /// Takes the block at the front of the list, if any.
    pub fn pop_front(&mut self) -> (r: Option<T>)
        ensures
            old(self)@.len() == 0 ==> r is None && final(self)@ == old(self)@,
            old(self)@.len() > 0 ==> r == Some(old(self)@[0]) && final(self)@ == old(
                self,
            )@.drop_first(),
    {
        let r = self.objects.pop_front();
        proof {
            if old(self)@.len() > 0 {
                assert(old(self)@.subrange(1, old(self)@.len() as int) =~= old(self)@.drop_first());
            }
        }
        r
    }

    /// Takes the block at the back of the list, the one handed back first.
    pub fn pop_back(&mut self) -> (r: Option<T>)
        ensures
            old(self)@.len() == 0 ==> r is None && final(self)@ == old(self)@,
            old(self)@.len() > 0 ==> r == Some(old(self)@.last()) && final(self)@ == old(
                self,
            )@.drop_last(),
    {
        let r = self.objects.pop_back();
        proof {
            if old(self)@.len() > 0 {
                assert(old(self)@.subrange(0, old(self)@.len() - 1) =~= old(self)@.drop_last());
            }
        }
        r
    }
}

/// The allocator: a free list of objects for each type symbol, and one of
/// stack frames for the reserved symbol `0`. A list hands out the block that
/// was handed back first.
pub struct Allocator {
    memory_pool: Vec<AllocationGroup<Object>>,
    frame_pool: AllocationGroup<StackFrame>,
}

impl Allocator {
    /// The number of type symbols served.
    pub closed spec fn symbols(&self) -> nat {
        self.memory_pool@.len()
    }

    /// The free objects of type `symbol`, the next one to be reused last.
    pub closed spec fn pool(&self, symbol: int) -> Seq<Object> {
        self.memory_pool@[symbol]@
    }

    /// The free stack frames, the next one to be reused last.
    pub closed spec fn frames(&self) -> Seq<StackFrame> {
        self.frame_pool@
    }

    /// An allocator for type symbols below `max_type_symbol`, with every
    /// free list empty.
    pub fn new(max_type_symbol: TypeSymbol) -> (r: Allocator)
        ensures
            r.symbols() == max_type_symbol,
            forall|t: int| 0 <= t < max_type_symbol ==> #[trigger] r.pool(t).len() == 0,
            r.frames().len() == 0,
    {
        let mut memory_pool: Vec<AllocationGroup<Object>> = Vec::new();
        let mut i: u32 = 0;
        while i < max_type_symbol
            invariant
                i <= max_type_symbol,
                memory_pool@.len() == i,
                forall|t: int| 0 <= t < i ==> (#[trigger] memory_pool@[t])@.len() == 0,
            decreases max_type_symbol - i,
        {
            memory_pool.push(AllocationGroup::new());
            i = i + 1;
        }
        Allocator { memory_pool, frame_pool: AllocationGroup::new() }
    }

    /// The number of type symbols served.
    pub fn type_count(&self) -> (r: usize)
        ensures
            r == self.symbols(),
    {
        self.memory_pool.len()
    }

    /// An object of type `symbol` and variant `variant`, with a fresh header
    /// (one unique owner). The free object of that type handed back first is
    /// reused, its data area as it was left; when there is none, a new data
    /// area of the described size, zeroed, is made. `symbol` must be an
    /// object type that the allocator and the table both know.
    pub fn allocate(&mut self, symbol: TypeSymbol, variant: VariantId, desc_table: &ObjectDescTable) -> (r: Object)
        requires
            symbol != STACK_FRAME_TYPE,
            (symbol as int) < old(self).symbols(),
            (symbol as int) < desc_table@.len(),
        ensures
            r.metadata.refcount.value() == 1,
            r.metadata.type_id == symbol,
            r.metadata.variant_id == variant,
            final(self).symbols() == old(self).symbols(),
            final(self).frames() == old(self).frames(),
            forall|t: int|
                0 <= t < old(self).symbols() && t != symbol ==> #[trigger] final(self).pool(t)
                    == old(self).pool(t),
            old(self).pool(symbol as int).len() > 0 ==> {
                &&& r.data == old(self).pool(symbol as int).last().data
                &&& final(self).pool(symbol as int) == old(self).pool(symbol as int).drop_last()
            },
            old(self).pool(symbol as int).len() == 0 ==> {
                &&& r.data@ == Seq::new(desc_table@[symbol as int].size as nat, |i: int| 0u8)
                &&& final(self).pool(symbol as int) == old(self).pool(symbol as int)
            },
    {
        let reused = self.memory_pool[symbol as usize].pop_back();
        let data = match reused {
            Some(object) => object.data,
            None => {
                let size = desc_table.index(symbol).size;
                let mut data: Vec<u8> = Vec::new();
                let mut i: usize = 0;
                while i < size
                    invariant
                        i <= size,
                        data@ == Seq::new(i as nat, |j: int| 0u8),
                    decreases size - i,
                {
                    data.push(0u8);
                    i = i + 1;
                    assert(data@ =~= Seq::new(i as nat, |j: int| 0u8));
                }
                data
            },
        };
        Object { metadata: Metadata::new(symbol, variant), data }
    }

    /// Hands an object back to the free list of its type, for reuse. Its
    /// last owner must be gone (count zero), and its type must be an object
    /// type that the allocator serves.
    pub fn reuse_memory(&mut self, memory: Object)
        requires
            memory.metadata.type_id != STACK_FRAME_TYPE,
            (memory.metadata.type_id as int) < old(self).symbols(),
            memory.metadata.refcount.value() == 0,
        ensures
            final(self).symbols() == old(self).symbols(),
            final(self).frames() == old(self).frames(),
            final(self).pool(memory.metadata.type_id as int) == seq![memory] + old(self).pool(
                memory.metadata.type_id as int,
            ),
            forall|t: int|
                0 <= t < old(self).symbols() && t != memory.metadata.type_id ==> #[trigger] final(self).pool(t)
                    == old(self).pool(t),
    {
        let t = memory.metadata.type_id as usize;
        self.memory_pool[t].push_front(memory);
    }

    /// Releases an object's storage for good.
    pub fn deallocate(memory: Object) {
        let _ = memory;
    }

    /// A stack frame with `variable_size` registers and a fresh header. The
    /// frame handed back first is reused when there is one; its register
    /// file is made anew either way.
    pub fn allocate_stack_frame(&mut self, variable_size: usize) -> (r: StackFrame)
        ensures
            r.metadata.refcount.value() == 1,
            r.metadata.type_id == STACK_FRAME_TYPE,
            r.metadata.variant_id == 0,
            r.core.wf(),
            r.core.is_live(),
            r.core.variables_len == variable_size,
            r.core.prev is None,
            r.core.next is None,
            r.core.return_slot == 0,
            r.core.closure_slot == 0,
            forall|i: int| 0 <= i < variable_size ==> r.core.variables.unwrap()@[i] == 0u64,
            forall|i: int|
                0 <= i < variable_size ==> r.core.variables_type.unwrap()@[i] == VmType::Unit,
            final(self).symbols() == old(self).symbols(),
            forall|t: int| #[trigger] final(self).pool(t) == old(self).pool(t),
            old(self).frames().len() > 0 ==> final(self).frames() == old(self).frames().drop_last(),
            old(self).frames().len() == 0 ==> final(self).frames() == old(self).frames(),
    {
        match self.frame_pool.pop_back() {
            Some(shell) => {
                let mut frame = shell;
                frame.metadata = Metadata::new(STACK_FRAME_TYPE, 0);
                frame.core = StackFrameCore::new(variable_size);
                frame
            },
            None => StackFrame {
                metadata: Metadata::new(STACK_FRAME_TYPE, 0),
                core: StackFrameCore::new(variable_size),
            },
        }
    }

    /// Releases a frame's register file and hands the frame back for reuse.
    pub fn reuse_stack_frame_memory(&mut self, frame: StackFrame)
        ensures
            final(self).symbols() == old(self).symbols(),
            forall|t: int| #[trigger] final(self).pool(t) == old(self).pool(t),
            final(self).frames().len() == old(self).frames().len() + 1,
            final(self).frames().drop_first() == old(self).frames(),
            final(self).frames()[0] == (StackFrame {
                metadata: frame.metadata,
                core: StackFrameCore { variables: None, variables_type: None, ..frame.core },
            }),
    {
        let mut frame = frame;
        frame.core.free_memory();
        self.frame_pool.push_front(frame);
        assert(self.frame_pool@.drop_first() =~= old(self).frame_pool@);
    }

    /// Releases a frame's register file and the frame itself for good.
    pub fn deallocate_stack_frame(frame: StackFrame) {
        let mut frame = frame;
        frame.core.free_memory();
    }
}

} // verus!
