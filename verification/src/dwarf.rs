//! The structured debug-info model: a flat table of entries addressed by
//! integer index (never by ownership links), one tree per compile unit with
//! entries stored in pre-order, and the structured output handed to an
//! external writer for byte serialization.

use vstd::prelude::*;

verus! {

/// Operand of an input location expression.
#[derive(Debug, PartialEq, Eq, Clone, Copy, Structural)]
pub enum ExprOp {
    /// Opaque operand, copied verbatim.
    Const(u64),
    /// Operand referring to a tracked value by its label.
    Local(u32),
}

/// Operand of a rewritten location expression.
#[derive(Debug, PartialEq, Eq, Clone, Copy, Structural)]
pub enum OutExprOp {
    /// Opaque operand, copied verbatim.
    Const(u64),
    /// Compute the value's address as the execution-context base plus
    /// this byte offset.
    ContextOffset(i64),
}

/// Attribute value of an input entry.
#[derive(Debug)]
pub enum AttrValue {
    /// Plain data, copied verbatim.
    Data(u64),
    /// A string, interned into the output string table.
    Str(String),
    /// A single code address, as a source-bytecode offset.
    Addr(u32),
    /// Source-bytecode ranges `[start, end)`, rewritten to native range
    /// lists.
    Ranges(Vec<(u32, u32)>),
    /// Reference to another entry, by index into the flat entry table.
    Ref(usize),
    /// A location expression, together with the function (by dense index)
    /// whose frame it speaks of.
    Exprloc(u32, Vec<ExprOp>),
    /// An attribute in a form this transform does not support; the payload
    /// is the form code.
    Unsupported(u32),
}

/// One attribute: its attribute code and its value.
#[derive(Debug)]
pub struct Attr {
    /// The attribute code.
    pub at: u32,
    /// The attribute value.
    pub value: AttrValue,
}

/// One debug-info entry of the flat entry table.
#[derive(Debug)]
pub struct Entry {
    /// The entry's tag.
    pub tag: u32,
    /// Indexes of the entry's children; in the pre-order table every child
    /// index is greater than its parent's.
    pub children: Vec<usize>,
    /// The entry's attributes.
    pub attrs: Vec<Attr>,
}

/// One row of an input line-number program: a source offset and its source
/// position.
#[derive(Debug, PartialEq, Eq, Clone, Copy, Structural)]
pub struct LineRow {
    /// Source-bytecode offset of the row.
    pub loc: u32,
    /// Source line.
    pub line: u32,
    /// Source column.
    pub col: u32,
}

/// One compile unit: its root entry and its line-number program.
#[derive(Debug)]
pub struct Unit {
    /// Index of the unit's root entry.
    pub root: usize,
    /// The unit's line-number program.
    pub line_program: Vec<LineRow>,
}

/// Parsed debug information handed in by the external parser: the flat
/// entry table and the units over it. Input-only, owned for one transform
/// invocation.
#[derive(Debug)]
pub struct DebugInfoData {
    /// All entries of all units, each unit's entries in pre-order.
    pub entries: Vec<Entry>,
    /// The compile units.
    pub units: Vec<Unit>,
}

/// Entry indexes, child links and reference attributes all stay within the
/// table, and children come after their parent (the table is in pre-order,
/// which also rules out containment cycles).
pub open spec fn wf_entries_table(entries: Seq<Entry>) -> bool {
    forall|i: int| 0 <= i < entries.len() ==> wf_entry(entries, #[trigger] entries[i], i)
}

/// Well-formedness of one entry at index `i`.
pub open spec fn wf_entry(entries: Seq<Entry>, e: Entry, i: int) -> bool {
    &&& forall|c: int| 0 <= c < e.children@.len()
        ==> i < #[trigger] e.children@[c] < entries.len()
    &&& forall|k: int| 0 <= k < e.attrs@.len()
        ==> ((#[trigger] e.attrs@[k]).value is Ref ==> e.attrs@[k].value->Ref_0 < entries.len())
}

/// Unit roots stay within the entry table.
pub open spec fn wf_units(entries: Seq<Entry>, units: Seq<Unit>) -> bool {
    forall|u: int| 0 <= u < units.len() ==> (#[trigger] units[u]).root < entries.len()
}

/// Well-formedness of the whole input.
pub open spec fn wf_debug_info(entries: Seq<Entry>, units: Seq<Unit>) -> bool {
    &&& wf_entries_table(entries)
    &&& wf_units(entries, units)
}

/// Attribute value of an output entry.
#[derive(Debug)]
pub enum OutAttrValue {
    /// Plain data, copied verbatim.
    Data(u64),
    /// Index into the output string table.
    Str(usize),
    /// A single native code address.
    Addr(u64),
    /// A list of native address ranges `[start, end)`.
    Ranges(Vec<(u64, u64)>),
    /// Reference to another output entry, by index.
    Ref(usize),
    /// A rewritten location expression.
    Exprloc(Vec<OutExprOp>),
}

/// One output attribute.
#[derive(Debug)]
pub struct OutAttr {
    /// The attribute code.
    pub at: u32,
    /// The attribute value.
    pub value: OutAttrValue,
}

/// One output debug-info entry.
#[derive(Debug)]
pub struct OutEntry {
    /// The entry's tag.
    pub tag: u32,
    /// Indexes of the entry's children in the output table.
    pub children: Vec<usize>,
    /// The entry's attributes.
    pub attrs: Vec<OutAttr>,
}

/// One row of an output line-number program: a native address and its
/// source position.
#[derive(Debug, PartialEq, Eq, Clone, Copy, Structural)]
pub struct OutLineRow {
    /// Native address of the row.
    pub address: u64,
    /// Source line.
    pub line: u32,
    /// Source column.
    pub col: u32,
}

/// One output compile unit.
#[derive(Debug)]
pub struct OutUnit {
    /// Index of the unit's root entry in the output table.
    pub root: usize,
    /// The unit's rewritten line rows, strictly ascending by native
    /// address.
    pub line_rows: Vec<OutLineRow>,
}

/// The structured output: an entry table, the units over it and the
/// interned string table, handed to an external writer for serialization.
#[derive(Debug)]
pub struct OutputDwarf {
    /// All output entries.
    pub entries: Vec<OutEntry>,
    /// The output units.
    pub units: Vec<OutUnit>,
    /// The interned string table.
    pub strings: Vec<String>,
    /// The configured address width in bytes (4 or 8).
    pub address_size: u8,
}

} // verus!
