//! The execution state of the VM: object headers, register files and stack
//! frames.
//!
//! Objects are owned values here rather than raw blocks: a frame or an
//! object moves between the allocator's free lists and its user by value, so
//! that no block can be reused twice or read after it was handed back.
use vstd::prelude::*;
use crate::refcounter::RefCounter;

verus! {

/// Index into the string table.
pub type StringSymbol = u32;

/// Index into the object descriptor table; `0` is reserved for stack frames.
pub type TypeSymbol = u32;

/// Index into a type's variants.
pub type VariantId = u32;

/// Index into the function table.
pub type FunctionSymbol = u32;

/// The type symbol reserved for stack frames.
pub const STACK_FRAME_TYPE: TypeSymbol = 0;

/// The runtime type of a register slot.
#[derive(Clone, Copy, Debug, PartialEq, Eq, Structural)]
pub enum VmType {
    Unit,
    Bool,
    U8,
    I8,
    U16,
    I16,
    U32,
    I32,
    U64,
    I64,
    F32,
    F64,
    Object(TypeSymbol),
}

/// The header that every heap object starts with.
pub struct Metadata {
    pub refcount: RefCounter,
    pub type_id: TypeSymbol,
    pub variant_id: VariantId,
}

impl Metadata {
    /// The header of a freshly allocated object: one unique owner.
    pub fn new(type_id: TypeSymbol, variant_id: VariantId) -> (r: Metadata)
        ensures
            r.refcount.value() == 1,
            r.type_id == type_id,
            r.variant_id == variant_id,
    {
        Metadata { refcount: RefCounter::new(), type_id, variant_id }
    }
}

/// The body of a stack frame: its links in the call chain, the return and
/// closure slots, and the register file with the type of each slot.
pub struct StackFrameCore {
    /// Position of the calling frame in the call chain, if any.
    pub prev: Option<usize>,
    /// Position of the called frame in the call chain, if any.
    pub next: Option<usize>,
    /// Where a callee leaves its return value.
    pub return_slot: u64,
    /// The active closure, or zero.
    pub closure_slot: u64,
    /// Number of register slots.
    pub variables_len: usize,
    /// The register file; `None` once released.
    pub variables: Option<Vec<u64>>,
    /// The runtime type of each register; `None` once released.
    pub variables_type: Option<Vec<VmType>>,
}

impl StackFrameCore {
    /// The register file and its types are both present with the advertised
    /// length, or both released.
    pub open spec fn wf(&self) -> bool {
        match (self.variables, self.variables_type) {
            (Some(v), Some(t)) => v@.len() == self.variables_len && t@.len() == self.variables_len,
            (None, None) => true,
            _ => false,
        }
    }

    /// Both arrays are present.
    pub open spec fn is_live(&self) -> bool {
        self.variables is Some && self.variables_type is Some
    }

    /// A frame body with `variables_len` registers, all zero and of unit
    /// type, no links and empty slots.
    pub fn new(variables_len: usize) -> (r: StackFrameCore)
        ensures
            r.wf(),
            r.is_live(),
            r.variables_len == variables_len,
            r.prev is None,
            r.next is None,
            r.return_slot == 0,
            r.closure_slot == 0,
            forall|i: int| 0 <= i < variables_len ==> r.variables.unwrap()@[i] == 0u64,
            forall|i: int|
                0 <= i < variables_len ==> r.variables_type.unwrap()@[i] == VmType::Unit,
    {
        let mut variables: Vec<u64> = Vec::new();
        let mut variables_type: Vec<VmType> = Vec::new();
        let mut i: usize = 0;
        while i < variables_len
            invariant
                i <= variables_len,
                variables@.len() == i,
                variables_type@.len() == i,
                forall|j: int| 0 <= j < i ==> variables@[j] == 0u64,
                forall|j: int| 0 <= j < i ==> variables_type@[j] == VmType::Unit,
            decreases variables_len - i,
        {
            variables.push(0u64);
            variables_type.push(VmType::Unit);
            i = i + 1;
        }
        StackFrameCore {
            prev: None,
            next: None,
            return_slot: 0,
            closure_slot: 0,
            variables_len,
            variables: Some(variables),
            variables_type: Some(variables_type),
        }
    }

    /// Releases the register file and its types; everything else is kept.
    pub fn free_memory(&mut self)
        ensures
            final(self).variables is None,
            final(self).variables_type is None,
            final(self).wf(),
            final(self).variables_len == old(self).variables_len,
            final(self).prev == old(self).prev,
            final(self).next == old(self).next,
            final(self).return_slot == old(self).return_slot,
            final(self).closure_slot == old(self).closure_slot,
    {
        self.variables = None;
        self.variables_type = None;
    }
}

/// A stack frame: an object of type [`STACK_FRAME_TYPE`] with a frame body.
pub struct StackFrame {
    pub metadata: Metadata,
    pub core: StackFrameCore,
}

/// A heap object: its header, then its data area.
pub struct Object {
    pub metadata: Metadata,
    pub data: Vec<u8>,
}

} // verus!
