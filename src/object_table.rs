//! The object descriptor table: one description per type symbol, built once
//! at start-up and read-only after.
use vstd::prelude::*;
use crate::vm::{StringSymbol, TypeSymbol, VariantId};

verus! {

/// The size and alignment of an object's storage.
#[derive(Clone, Copy, Debug, PartialEq, Eq, Structural)]
pub struct ObjectLayout {
    pub size: usize,
    pub align: usize,
}

/// One variant of a type: its member names in declaration order, and where
/// each member sits in the data area.
pub struct VariantDescription {
    pub variant_names: Box<[StringSymbol]>,
    /// Offset from the start of the data area of each member, in declaration
    /// order. Members are stored packed, out of declaration order.
    pub packing_offsets: Box<[usize]>,
}

/// The description of one type.
pub struct ObjectDescription {
    pub name: StringSymbol,
    /// The monomorphized name; the same as `name` where nothing was
    /// substituted.
    pub mono_name: StringSymbol,
    /// Size of an instance's data area.
    pub size: usize,
    pub variants: Box<[VariantDescription]>,
    pub layout: ObjectLayout,
}

impl ObjectDescription {
    /// Where member `member` of variant `variant` sits in the data area.
    /// Both must be in range.
    pub fn field_offset(&self, variant: VariantId, member: usize) -> (r: usize)
        requires
            (variant as int) < self.variants@.len(),
            member < self.variants@[variant as int].packing_offsets@.len(),
        ensures
            r == self.variants@[variant as int].packing_offsets@[member as int],
    {
        let v: &VariantDescription = &self.variants[variant as usize];
        v.packing_offsets[member]
    }
}

/// The descriptions of all types, indexed by type symbol.
pub struct ObjectDescTable {
    table: Vec<ObjectDescription>,
}

impl View for ObjectDescTable {
    type V = Seq<ObjectDescription>;

    closed spec fn view(&self) -> Seq<ObjectDescription> {
        self.table@
    }
}

impl ObjectDescTable {
    /// An empty table with room for `max_type_symbol` descriptions.
    pub fn new(max_type_symbol: TypeSymbol) -> (r: ObjectDescTable)
        ensures
            r@ == Seq::<ObjectDescription>::empty(),
    {
        ObjectDescTable { table: Vec::with_capacity(max_type_symbol as usize) }
    }

    /// Adds the description of the next type symbol.
    pub fn push_desc(&mut self, desc: ObjectDescription)
        ensures
            final(self)@ == old(self)@.push(desc),
    {
        self.table.push(desc);
    }

    /// The number of described types.
    pub fn len(&self) -> (r: usize)
        ensures
            r == self@.len(),
    {
        self.table.len()
    }

    /// The description of `symbol`, which must be in range.
    pub fn index(&self, symbol: TypeSymbol) -> (r: &ObjectDescription)
        requires
            (symbol as int) < self@.len(),
        ensures
            *r == self@[symbol as int],
    {
        &self.table[symbol as usize]
    }
}

} // verus!
