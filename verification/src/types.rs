//! Data structures describing the compiler-supplied metadata: function
//! indexes, source locations, compiled-code layout, value labels and the
//! VM execution-context layout.

use vstd::prelude::*;

verus! {

/// Index of a function, dense and zero-based in compile order.
#[derive(Debug, PartialEq, Eq, Clone, Copy, Structural)]
pub struct DefinedFuncIndex(usize);

impl View for DefinedFuncIndex {
    type V = usize;

    closed spec fn view(&self) -> usize {
        self.0
    }
}

impl DefinedFuncIndex {
    /// Create an index from its dense position.
    pub fn new(v: usize) -> (r: Self)
        ensures
            r@ == v,
    {
        Self(v)
    }

    /// Get the dense position back.
    pub fn index(self) -> (r: usize)
        ensures
            r == self@,
    {
        self.0
    }
}

/// Byte offset into the Wasm module, starting at the code section.
/// The all-bits-set value is a reserved sentinel meaning "unknown".
#[derive(Debug, PartialEq, Eq, Clone, Copy, Structural)]
pub struct SourceLoc(u32);

impl View for SourceLoc {
    type V = u32;

    closed spec fn view(&self) -> u32 {
        self.0
    }
}

impl SourceLoc {
    /// Create a `SourceLoc`.
    pub fn new(v: u32) -> (r: Self)
        ensures
            r@ == v,
    {
        Self(v)
    }

    /// Get the inner value.
    pub fn get(&self) -> (r: u32)
        ensures
            r == self@,
    {
        self.0
    }

    /// Check if this is the default (unknown) `SourceLoc`.
    pub fn is_default(&self) -> (r: bool)
        ensures
            r == (self@ == 0xffff_ffffu32),
    {
        self.0 == 0xffff_ffffu32
    }
}

/// Information about one compiled WebAssembly instruction.
#[derive(Debug, PartialEq, Eq, Clone, Copy, Structural)]
pub struct CompiledInstructionData {
    /// The location in the Wasm of the instruction.
    pub loc: SourceLoc,
    /// The length of the compiled instruction in bytes.
    pub length: usize,
    /// The offset from the start of the function's compiled code.
    pub offset: usize,
}

/// Information about a compiled function.
#[derive(Debug, PartialEq, Eq, Clone)]
pub struct CompiledFunctionData {
    /// Information about the instructions in this function, in order.
    pub instructions: Vec<CompiledInstructionData>,
    /// The start location in the Wasm of this function.
    pub start: SourceLoc,
    /// The end location in the Wasm of this function.
    pub end: SourceLoc,
    /// The offset into the compiled code blob where this function is.
    pub compiled_offset: usize,
    /// The size of the compiled function in bytes.
    pub compiled_size: usize,
}

/// Mapping from `DefinedFuncIndex` (the position) to compiled functions,
/// ordered by compiled offset.
pub type ModuleAddressMap = Vec<CompiledFunctionData>;

/// Copy a list of instruction records.
fn copy_instructions(v: &Vec<CompiledInstructionData>) -> (r: Vec<CompiledInstructionData>)
    ensures
        r@ == v@,
{
    let mut r: Vec<CompiledInstructionData> = Vec::new();
    let mut i: usize = 0;
    while i < v.len()
        invariant
            i <= v.len(),
            r@ == v@.take(i as int),
        decreases v.len() - i,
    {
        r.push(v[i]);
        i = i + 1;
        proof {
            assert(r@ =~= v@.take(i as int));
        }
    }
    proof {
        assert(v@.take(v@.len() as int) =~= v@);
    }
    r
}

/// Two function records carry the same data.
pub open spec fn function_data_equiv(a: CompiledFunctionData, b: CompiledFunctionData) -> bool {
    &&& a.instructions@ == b.instructions@
    &&& a.start == b.start
    &&& a.end == b.end
    &&& a.compiled_offset == b.compiled_offset
    &&& a.compiled_size == b.compiled_size
}

/// Build a [`ModuleAddressMap`] by copying the given records in order.
pub fn create_module_address_map(info: &Vec<CompiledFunctionData>) -> (r: ModuleAddressMap)
    ensures
        r@.len() == info@.len(),
        forall|i: int| 0 <= i < info@.len() ==> function_data_equiv(#[trigger] r@[i], info@[i]),
{
    let mut map: ModuleAddressMap = Vec::new();
    let mut i: usize = 0;
    while i < info.len()
        invariant
            i <= info.len(),
            map@.len() == i,
            forall|k: int| 0 <= k < i ==> function_data_equiv(#[trigger] map@[k], info@[k]),
        decreases info.len() - i,
    {
        let f = &info[i];
        map.push(CompiledFunctionData {
            instructions: copy_instructions(&f.instructions),
            start: f.start,
            end: f.end,
            compiled_offset: f.compiled_offset,
            compiled_size: f.compiled_size,
        });
        i = i + 1;
    }
    map
}

/// Type to track in which register a value is located.
pub type RegUnit = u16;

/// Type to track where on the stack a value is located.
#[derive(Debug, PartialEq, Eq, Clone, Copy, Hash, Structural)]
pub struct StackSlot(u32);

impl View for StackSlot {
    type V = u32;

    closed spec fn view(&self) -> u32 {
        self.0
    }
}

impl StackSlot {
    /// Create a stack slot.
    pub fn from_u32(x: u32) -> (r: Self)
        ensures
            r@ == x,
    {
        Self(x)
    }

    /// Get the inner value.
    pub fn as_u32(self) -> (r: u32)
        ensures
            r == self@,
    {
        self.0
    }
}

/// Type used to keep track of values during compilation.
#[derive(Debug, PartialEq, Eq, Clone, Copy, Hash, Structural)]
pub struct ValueLabel(u32);

impl View for ValueLabel {
    type V = u32;

    closed spec fn view(&self) -> u32 {
        self.0
    }
}

impl ValueLabel {
    /// Create a value label.
    pub fn from_u32(x: u32) -> (r: Self)
        ensures
            r@ == x,
    {
        Self(x)
    }

    /// Get the inner value.
    pub fn as_u32(self) -> (r: u32)
        ensures
            r == self@,
    {
        self.0
    }

    /// Create a label from a dense position.
    pub fn new(v: usize) -> (r: Self)
        ensures
            r@ == v as u32,
    {
        Self(v as u32)
    }

    /// Get the dense position back.
    pub fn index(self) -> (r: usize)
        ensures
            r == self@ as usize,
    {
        self.0 as usize
    }
}

/// The label reserved for the VM execution-context pointer itself.
pub fn get_vmctx_value_label() -> (r: ValueLabel)
    ensures
        r@ == 0xffff_fffeu32,
{
    ValueLabel(0xffff_fffeu32)
}

/// The location where a value is.
#[derive(Debug, PartialEq, Eq, Clone, Copy, Structural)]
pub enum ValueLoc {
    /// No assigned location.
    Unassigned,
    /// Value is in a register.
    Reg(RegUnit),
    /// Value is at this location on the stack.
    Stack(StackSlot),
}

/// A native-address range in which a value is valid.
#[derive(Debug, PartialEq, Eq, Clone, Copy, Structural)]
pub struct ValueLocRange {
    /// Where the value is.
    pub loc: ValueLoc,
    /// Where it starts being there.
    pub start: u32,
    /// Where it stops being there.
    pub end: u32,
}

/// Per-function list of value labels, each with the ordered locations where
/// it is valid.
pub type ValueLabelsRangesInner = Vec<(ValueLabel, Vec<ValueLocRange>)>;

/// Map of functions (by dense position) to information about when and where
/// their values are valid.
pub type ValueLabelsRanges = Vec<ValueLabelsRangesInner>;

/// Copy one label's range list.
fn copy_ranges(v: &Vec<ValueLocRange>) -> (r: Vec<ValueLocRange>)
    ensures
        r@ == v@,
{
    let mut r: Vec<ValueLocRange> = Vec::new();
    let mut i: usize = 0;
    while i < v.len()
        invariant
            i <= v.len(),
            r@ == v@.take(i as int),
        decreases v.len() - i,
    {
        r.push(v[i]);
        i = i + 1;
        proof {
            assert(r@ =~= v@.take(i as int));
        }
    }
    proof {
        assert(v@.take(v@.len() as int) =~= v@);
    }
    r
}

/// Two per-function label lists carry the same data.
pub open spec fn labels_equiv(a: ValueLabelsRangesInner, b: ValueLabelsRangesInner) -> bool {
    &&& a@.len() == b@.len()
    &&& forall|j: int| 0 <= j < a@.len()
        ==> (#[trigger] a@[j]).0 == b@[j].0 && a@[j].1@ == b@[j].1@
}

/// Copy one function's label-to-ranges list.
fn copy_inner(v: &ValueLabelsRangesInner) -> (r: ValueLabelsRangesInner)
    ensures
        labels_equiv(r, *v),
{
    let mut r: ValueLabelsRangesInner = Vec::new();
    let mut i: usize = 0;
    while i < v.len()
        invariant
            i <= v.len(),
            r@.len() == i,
            forall|j: int| 0 <= j < i
                ==> (#[trigger] r@[j]).0 == v@[j].0 && r@[j].1@ == v@[j].1@,
        decreases v.len() - i,
    {
        let (label, ranges) = &v[i];
        r.push((*label, copy_ranges(ranges)));
        i = i + 1;
    }
    r
}

/// Build a [`ValueLabelsRanges`] by copying the given per-function data
/// in order.
pub fn build_values_ranges(vlri: &Vec<ValueLabelsRangesInner>) -> (r: ValueLabelsRanges)
    ensures
        r@.len() == vlri@.len(),
        forall|i: int| 0 <= i < vlri@.len() ==> labels_equiv(#[trigger] r@[i], vlri@[i]),
{
    let mut map: ValueLabelsRanges = Vec::new();
    let mut i: usize = 0;
    while i < vlri.len()
        invariant
            i <= vlri.len(),
            map@.len() == i,
            forall|k: int| 0 <= k < i ==> labels_equiv(#[trigger] map@[k], vlri@[k]),
        decreases vlri.len() - i,
    {
        map.push(copy_inner(&vlri[i]));
        i = i + 1;
    }
    map
}

/// Information about the module and the VM execution context.
pub struct ModuleVmctxInfo {
    /// Offset from the context base where a pointer to linear memory can
    /// be found.
    pub memory_offset: i64,
    /// The size of the execution-context structure.
    pub vmctx_size: i64,
    /// For each function, the frame offsets of its stack slots; `None`
    /// means the slot is not spilled or unknown.
    pub stack_slot_offsets: Vec<Vec<Option<i32>>>,
}

/// Copy one function's stack-slot offsets.
fn copy_offsets(v: &Vec<Option<i32>>) -> (r: Vec<Option<i32>>)
    ensures
        r@ == v@,
{
    let mut r: Vec<Option<i32>> = Vec::new();
    let mut i: usize = 0;
    while i < v.len()
        invariant
            i <= v.len(),
            r@ == v@.take(i as int),
        decreases v.len() - i,
    {
        r.push(v[i]);
        i = i + 1;
        proof {
            assert(r@ =~= v@.take(i as int));
        }
    }
    proof {
        assert(v@.take(v@.len() as int) =~= v@);
    }
    r
}

impl ModuleVmctxInfo {
    /// Gather the context layout and the per-function stack-slot offsets.
    pub fn new(memory_offset: i64, vmctx_size: i64, stack_slot_offsets: &Vec<Vec<Option<i32>>>)
        -> (r: Self)
        ensures
            r.memory_offset == memory_offset,
            r.vmctx_size == vmctx_size,
            r.stack_slot_offsets@.len() == stack_slot_offsets@.len(),
            forall|i: int| 0 <= i < stack_slot_offsets@.len()
                ==> (#[trigger] r.stack_slot_offsets@[i])@ == stack_slot_offsets@[i]@,
    {
        let mut map: Vec<Vec<Option<i32>>> = Vec::new();
        let mut i: usize = 0;
        while i < stack_slot_offsets.len()
            invariant
                i <= stack_slot_offsets.len(),
                map@.len() == i,
                forall|k: int| 0 <= k < i
                    ==> (#[trigger] map@[k])@ == stack_slot_offsets@[k]@,
            decreases stack_slot_offsets.len() - i,
        {
            map.push(copy_offsets(&stack_slot_offsets[i]));
            i = i + 1;
        }
        Self { memory_offset, vmctx_size, stack_slot_offsets: map }
    }
}

} // verus!
