//! Cloning of the reachable debug-info entries with rewritten addresses,
//! location expressions and line tables, and the driver that runs the
//! whole transformation.

use vstd::prelude::*;
use crate::address_transform::{
    AddressMapEntry, AddressTransform, map_entries, spec_forward, spec_translate,
    wf_address_map,
};
use crate::dwarf::{
    Attr, AttrValue, DebugInfoData, ExprOp, LineRow, OutAttr, OutAttrValue, OutEntry,
    OutExprOp, OutLineRow, OutUnit, OutputDwarf, wf_debug_info,
};
use crate::gc::{count_marked, is_root, lemma_count_bounds, lemma_root_reaches, reachable_entries};
use crate::simulate::{covered, generate_simulated_dwarf, is_sim_subprogram, mark_translated,
    out_covers};
use crate::types::{ModuleAddressMap, ModuleVmctxInfo, ValueLabelsRanges, ValueLocRange, ValueLoc};

verus! {

/// A recoverable transform failure: an attribute used a form this
/// transform does not support. The surrounding entry and its siblings are
/// still emitted; only the offending attribute is omitted.
#[derive(Debug, PartialEq, Eq, Clone, Copy, Structural)]
pub struct TransformError {
    /// The unsupported form code.
    pub form: u32,
}

impl TransformError {
    /// A short description of the failure.
    pub fn message(&self) -> (r: &'static str)
        ensures
            r@ == "unsupported attribute form"@,
    {
        "unsupported attribute form"
    }
}

/// The label reserved for the execution-context pointer itself.
pub open spec fn vmctx_label() -> u32 {
    0xffff_fffeu32
}

/// First range list recorded for label `l`, scanning from position `i`.
pub open spec fn spec_find_label(
    inner: Seq<(crate::types::ValueLabel, Vec<ValueLocRange>)>,
    l: u32,
    i: int,
) -> Option<Seq<ValueLocRange>>
    decreases inner.len() - i,
{
    if i < 0 || i >= inner.len() {
        None
    } else if inner[i].0@ == l {
        Some(inner[i].1@)
    } else {
        spec_find_label(inner, l, i + 1)
    }
}

/// First stack slot among the label's locations, scanning from `i`.
pub open spec fn spec_find_stack_slot(rs: Seq<ValueLocRange>, i: int) -> Option<u32>
    decreases rs.len() - i,
{
    if i < 0 || i >= rs.len() {
        None
    } else if rs[i].loc is Stack {
        Some(rs[i].loc->Stack_0@)
    } else {
        spec_find_stack_slot(rs, i + 1)
    }
}

/// Resolve a tracked value to a byte offset from the execution-context
/// base: the context label resolves to offset zero; any other label
/// resolves through its first stack location and the function's stack-slot
/// offsets; everything else is unresolvable.
pub open spec fn spec_resolve_label(
    l: u32,
    fidx: int,
    vmctx: ModuleVmctxInfo,
    ranges: ValueLabelsRanges,
) -> Option<i64> {
    if l == vmctx_label() {
        Some(0i64)
    } else if 0 <= fidx < ranges@.len() {
        match spec_find_label(ranges@[fidx]@, l, 0) {
            Some(rs) => match spec_find_stack_slot(rs, 0) {
                Some(slot) => {
                    if 0 <= fidx < vmctx.stack_slot_offsets@.len()
                        && slot < vmctx.stack_slot_offsets@[fidx]@.len()
                        && vmctx.stack_slot_offsets@[fidx]@[slot as int] is Some {
                        Some(vmctx.stack_slot_offsets@[fidx]@[slot as int]->0 as i64)
                    } else {
                        None
                    }
                },
                None => None,
            },
            None => None,
        }
    } else {
        None
    }
}

/// The rewritten form of the first `i` operands: opaque operands are
/// copied, resolvable value operands become context-relative addresses,
/// unresolvable operands are dropped.
pub open spec fn spec_rewrite_ops(
    ops: Seq<ExprOp>,
    fidx: int,
    vmctx: ModuleVmctxInfo,
    ranges: ValueLabelsRanges,
    i: int,
) -> Seq<OutExprOp>
    decreases i,
{
    if i <= 0 {
        Seq::empty()
    } else {
        let rest = spec_rewrite_ops(ops, fidx, vmctx, ranges, i - 1);
        match ops[i - 1] {
            ExprOp::Const(c) => rest.push(OutExprOp::Const(c)),
            ExprOp::Local(l) => match spec_resolve_label(l, fidx, vmctx, ranges) {
                Some(off) => rest.push(OutExprOp::ContextOffset(off)),
                None => rest,
            },
        }
    }
}

/// Resolve one value label for function `fidx`.
fn resolve_label(l: u32, fidx: usize, vmctx: &ModuleVmctxInfo, ranges: &ValueLabelsRanges)
    -> (r: Option<i64>)
    ensures
        r == spec_resolve_label(l, fidx as int, *vmctx, *ranges),
{
    if l == 0xffff_fffeu32 {
        return Some(0i64);
    }
    if fidx >= ranges.len() {
        return None;
    }
    let inner = &ranges[fidx];
    let mut i: usize = 0;
    while i < inner.len()
        invariant
            i <= inner@.len(),
            fidx < ranges@.len(),
            l != vmctx_label(),
            inner@ == ranges@[fidx as int]@,
            spec_find_label(inner@, l, 0) == spec_find_label(inner@, l, i as int),
        decreases inner@.len() - i,
    {
        let (label, rs) = &inner[i];
        if label.as_u32() == l {
            proof {
                assert(spec_find_label(inner@, l, i as int) == Some(rs@));
            }
            let mut j: usize = 0;
            while j < rs.len()
                invariant
                    j <= rs@.len(),
                    i < inner@.len(),
                    fidx < ranges@.len(),
                    inner@ == ranges@[fidx as int]@,
                    l != vmctx_label(),
                    rs@ == inner@[i as int].1@,
                    spec_find_label(inner@, l, 0) == Some(rs@),
                    spec_find_stack_slot(rs@, 0) == spec_find_stack_slot(rs@, j as int),
                decreases rs@.len() - j,
            {
                match rs[j].loc {
                    ValueLoc::Stack(slot) => {
                        let s = slot.as_u32();
                        proof {
                            assert(spec_find_stack_slot(rs@, j as int) == Some(s));
                        }
                        if fidx < vmctx.stack_slot_offsets.len()
                            && (s as usize) < vmctx.stack_slot_offsets[fidx].len() {
                            match vmctx.stack_slot_offsets[fidx][s as usize] {
                                Some(off) => {
                                    return Some(off as i64);
                                },
                                None => {
                                    return None;
                                },
                            }
                        } else {
                            return None;
                        }
                    },
                    _ => {},
                }
                j = j + 1;
            }
            return None;
        }
        i = i + 1;
    }
    None
}

/// Rewrite one location expression for function `fidx`: tracked values
/// live inside the VM execution context, so resolvable operands become
/// context-relative addresses and unresolvable operands are dropped.
pub fn transform_expression(
    ops: &Vec<ExprOp>,
    fidx: u32,
    vmctx: &ModuleVmctxInfo,
    ranges: &ValueLabelsRanges,
) -> (r: Vec<OutExprOp>)
    ensures
        r@ == spec_rewrite_ops(ops@, fidx as int, *vmctx, *ranges, ops@.len() as int),
{
    let mut r: Vec<OutExprOp> = Vec::new();
    let mut i: usize = 0;
    while i < ops.len()
        invariant
            i <= ops@.len(),
            r@ == spec_rewrite_ops(ops@, fidx as int, *vmctx, *ranges, i as int),
        decreases ops@.len() - i,
    {
        match ops[i] {
            ExprOp::Const(c) => {
                r.push(OutExprOp::Const(c));
            },
            ExprOp::Local(l) => {
                match resolve_label(l, fidx as usize, vmctx, ranges) {
                    Some(off) => {
                        r.push(OutExprOp::ContextOffset(off));
                    },
                    None => {},
                }
            },
        }
        i = i + 1;
    }
    r
}

/// Intern a string into the output string table, returning its index.
pub fn intern_string(strings: &mut Vec<String>, s: &String) -> (idx: usize)
    ensures
        old(strings)@.len() <= final(strings)@.len(),
        forall|j: int| 0 <= j < old(strings)@.len()
            ==> final(strings)@[j] == old(strings)@[j],
        idx < final(strings)@.len(),
        final(strings)@[idx as int]@ == s@,
        (exists|j: int| 0 <= j < old(strings)@.len() && (#[trigger] old(strings)@[j])@ == s@)
            ==> final(strings)@.len() == old(strings)@.len(),
        !(exists|j: int| 0 <= j < old(strings)@.len() && (#[trigger] old(strings)@[j])@ == s@)
            ==> final(strings)@.len() == old(strings)@.len() + 1
                && idx == old(strings)@.len(),
{
    let mut j: usize = 0;
    while j < strings.len()
        invariant
            j <= strings@.len(),
            forall|j2: int| 0 <= j2 < j ==> (#[trigger] strings@[j2])@ != s@,
        decreases strings@.len() - j,
    {
        if strings[j].eq(s) {
            return j;
        }
        j = j + 1;
    }
    let idx = strings.len();
    strings.push(s.clone());
    idx
}

/// Native ranges of all the source ranges in `rl`, concatenated in order.
pub open spec fn spec_translate_all(
    t: Seq<crate::address_transform::AddressMapEntry>,
    rl: Seq<(u32, u32)>,
    i: int,
) -> Seq<(u64, u64)>
    decreases i,
{
    if i <= 0 {
        Seq::empty()
    } else {
        spec_translate_all(t, rl, i - 1) + spec_translate(t, rl[i - 1].0, rl[i - 1].1)
    }
}

/// Rewrite one attribute. Data is copied, strings are interned, address
/// attributes go through the Address Transform (promoted to a range list
/// when one source address maps to several native ranges, dropped when it
/// maps to none), location expressions are rewritten, and an unsupported
/// form is a typed error naming the form. Reference attributes are
/// resolved by the caller against the output entry mapping.
pub fn transform_attr(
    attr: &Attr,
    at: &AddressTransform,
    vmctx: &ModuleVmctxInfo,
    ranges: &ValueLabelsRanges,
    strings: &mut Vec<String>,
) -> (r: Result<Option<OutAttr>, TransformError>)
    requires
        !(attr.value is Ref),
    ensures
        old(strings)@.len() <= final(strings)@.len(),
        forall|j: int| 0 <= j < old(strings)@.len()
            ==> final(strings)@[j] == old(strings)@[j],
        attr.value is Unsupported ==> (r matches Err(e) && e.form == attr.value->Unsupported_0),
        !(attr.value is Unsupported) ==> r is Ok,
        attr.value is Data ==> (r matches Ok(Some(o)) && o.at == attr.at && o.value is Data
            && o.value->Data_0 == attr.value->Data_0),
        attr.value is Str ==> (r matches Ok(Some(o)) && o.at == attr.at && o.value is Str
            && o.value->Str_0 < final(strings)@.len()
            && final(strings)@[o.value->Str_0 as int]@ == attr.value->Str_0@),
        attr.value is Addr ==> (
            if spec_forward(at@, attr.value->Addr_0).len() == 0 {
                r == Result::<Option<OutAttr>, TransformError>::Ok(None::<OutAttr>)
            } else if spec_forward(at@, attr.value->Addr_0).len() == 1 {
                r matches Ok(Some(o)) && o.at == attr.at && o.value is Addr
                    && o.value->Addr_0 == spec_forward(at@, attr.value->Addr_0)[0].0
            } else {
                r matches Ok(Some(o)) && o.at == attr.at && o.value is Ranges
                    && o.value->Ranges_0@ == spec_forward(at@, attr.value->Addr_0)
            }
        ),
        attr.value is Ranges ==> (
            if spec_translate_all(at@, attr.value->Ranges_0@, attr.value->Ranges_0@.len() as int)
                .len() == 0 {
                r == Result::<Option<OutAttr>, TransformError>::Ok(None::<OutAttr>)
            } else {
                r matches Ok(Some(o)) && o.at == attr.at && o.value is Ranges
                    && o.value->Ranges_0@ == spec_translate_all(
                        at@,
                        attr.value->Ranges_0@,
                        attr.value->Ranges_0@.len() as int,
                    )
            }
        ),
        attr.value is Exprloc ==> (r matches Ok(Some(o)) && o.at == attr.at
            && o.value is Exprloc
            && o.value->Exprloc_0@ == spec_rewrite_ops(
                attr.value->Exprloc_1@,
                attr.value->Exprloc_0 as int,
                *vmctx,
                *ranges,
                attr.value->Exprloc_1@.len() as int,
            )),
{
    match &attr.value {
        AttrValue::Data(d) => {
            Ok(Some(OutAttr { at: attr.at, value: OutAttrValue::Data(*d) }))
        },
        AttrValue::Str(s) => {
            let idx = intern_string(strings, s);
            Ok(Some(OutAttr { at: attr.at, value: OutAttrValue::Str(idx) }))
        },
        AttrValue::Addr(a) => {
            let rs = at.lookup_ranges(crate::types::SourceLoc::new(*a));
            if rs.len() == 0 {
                Ok(None)
            } else if rs.len() == 1 {
                let (start, _end) = rs[0];
                Ok(Some(OutAttr { at: attr.at, value: OutAttrValue::Addr(start) }))
            } else {
                Ok(Some(OutAttr { at: attr.at, value: OutAttrValue::Ranges(rs) }))
            }
        },
        AttrValue::Ranges(rl) => {
            let mut all: Vec<(u64, u64)> = Vec::new();
            let mut i: usize = 0;
            while i < rl.len()
                invariant
                    i <= rl@.len(),
                    rl@ == attr.value->Ranges_0@,
                    all@ == spec_translate_all(at@, rl@, i as int),
                decreases rl@.len() - i,
            {
                let (s, e) = rl[i];
                let mut part = at.translate_range(
                    crate::types::SourceLoc::new(s),
                    crate::types::SourceLoc::new(e),
                );
                let mut q: usize = 0;
                while q < part.len()
                    invariant
                        q <= part@.len(),
                        all@ == spec_translate_all(at@, rl@, i as int)
                            + part@.take(q as int),
                    decreases part@.len() - q,
                {
                    all.push(part[q]);
                    q = q + 1;
                    proof {
                        assert(all@ =~= spec_translate_all(at@, rl@, i as int)
                            + part@.take(q as int));
                    }
                }
                i = i + 1;
                proof {
                    assert(part@.take(part@.len() as int) =~= part@);
                    assert(all@ =~= spec_translate_all(at@, rl@, i as int));
                }
            }
            if all.len() == 0 {
                Ok(None)
            } else {
                Ok(Some(OutAttr { at: attr.at, value: OutAttrValue::Ranges(all) }))
            }
        },
        AttrValue::Ref(_) => {
            // Excluded by the precondition; kept total for the compiler.
            Ok(None)
        },
        AttrValue::Exprloc(fidx, ops) => {
            let out_ops = transform_expression(ops, *fidx, vmctx, ranges);
            Ok(Some(OutAttr { at: attr.at, value: OutAttrValue::Exprloc(out_ops) }))
        },
        AttrValue::Unsupported(form) => Err(TransformError { form: *form }),
    }
}


/// Output line rows are strictly ascending by native address.
pub open spec fn rows_strictly_sorted(rs: Seq<OutLineRow>) -> bool {
    forall|k: int| 0 <= k < rs.len() - 1 ==> (#[trigger] rs[k]).address < rs[k + 1].address
}

/// The output row carries an input row's source position at one of the
/// native addresses its source offset maps to.
pub open spec fn row_origin(rows: Seq<LineRow>, t: Seq<AddressMapEntry>, o: OutLineRow) -> bool {
    exists|j: int, q: int|
        #![trigger rows[j], spec_forward(t, rows[j].loc)[q]]
        0 <= j < rows.len() && 0 <= q < spec_forward(t, rows[j].loc).len()
            && spec_forward(t, rows[j].loc)[q].0 == o.address
            && rows[j].line == o.line && rows[j].col == o.col
}

/// Some output row sits at this native address.
pub open spec fn has_address(rs: Seq<OutLineRow>, a: u64) -> bool {
    exists|k: int| 0 <= k < rs.len() && (#[trigger] rs[k]).address == a
}

/// The rewritten form of a line program: strictly ascending by native
/// address, every row traced back to an input row, and an output row at
/// every native start that an input row's source offset maps to
/// (duplicate addresses collapse into one row).
pub open spec fn line_rows_rewritten(
    rows: Seq<LineRow>,
    t: Seq<AddressMapEntry>,
    out: Seq<OutLineRow>,
) -> bool {
    &&& rows_strictly_sorted(out)
    &&& forall|k: int| 0 <= k < out.len() ==> row_origin(rows, t, #[trigger] out[k])
    &&& forall|j: int, q: int|
        #![trigger spec_forward(t, rows[j].loc)[q]]
        0 <= j < rows.len() && 0 <= q < spec_forward(t, rows[j].loc).len()
            ==> has_address(out, spec_forward(t, rows[j].loc)[q].0)
}

/// Insert a row into a strictly sorted list; a row whose address is
/// already present is dropped, keeping the order strict.
fn insert_row(out: &mut Vec<OutLineRow>, row: OutLineRow)
    requires
        rows_strictly_sorted(old(out)@),
    ensures
        rows_strictly_sorted(final(out)@),
        forall|k: int| 0 <= k < final(out)@.len()
            ==> (old(out)@.contains(#[trigger] final(out)@[k]) || final(out)@[k] == row),
        forall|a: u64| has_address(old(out)@, a) ==> has_address(final(out)@, a),
        has_address(final(out)@, row.address),
{
    let n = out.len();
    let mut pos: usize = 0;
    while pos < n && out[pos].address < row.address
        invariant
            pos <= n,
            n == out@.len(),
            out@ == old(out)@,
            forall|k: int| 0 <= k < pos ==> (#[trigger] out@[k]).address < row.address,
        decreases n - pos,
    {
        pos = pos + 1;
    }
    if pos < n && out[pos].address == row.address {
        proof {
            assert forall|k: int| 0 <= k < out@.len()
                implies old(out)@.contains(#[trigger] out@[k]) by {
                assert(old(out)@[k] == out@[k]);
            }
            assert(out@[pos as int].address == row.address);
            assert(has_address(out@, row.address));
        }
        return;
    }
    let ghost prev = out@;
    out.insert(pos, row);
    proof {
        assert(out@ == prev.insert(pos as int, row));
        assert forall|k: int| 0 <= k < out@.len() - 1
            implies (#[trigger] out@[k]).address < out@[k + 1].address by {
            if k + 1 < pos {
                assert(out@[k] == prev[k]);
                assert(out@[k + 1] == prev[k + 1]);
            } else if k + 1 == pos {
                assert(out@[k] == prev[k]);
                assert(out@[k + 1] == row);
            } else if k == pos {
                assert(out@[k] == row);
                assert(out@[k + 1] == prev[k]);
            } else {
                assert(out@[k] == prev[k - 1]);
                assert(out@[k + 1] == prev[k]);
            }
        }
        assert forall|k: int| 0 <= k < out@.len()
            implies (prev.contains(#[trigger] out@[k]) || out@[k] == row) by {
            if k < pos {
                assert(out@[k] == prev[k]);
                assert(prev.contains(prev[k]));
            } else if k > pos {
                assert(out@[k] == prev[k - 1]);
                assert(prev.contains(prev[k - 1]));
            }
        }
        assert forall|a: u64| has_address(prev, a) implies has_address(out@, a) by {
            let k = choose|k: int| 0 <= k < prev.len() && (#[trigger] prev[k]).address == a;
            if k < pos {
                assert(out@[k].address == a);
            } else {
                assert(out@[k + 1].address == a);
            }
        }
        assert(out@[pos as int].address == row.address);
        assert(has_address(out@, row.address));
    }
}

/// Rewrite a unit's line-number program: each row's source offset is
/// remapped through the Address Transform (one output row per native
/// range it maps to), rows with no native mapping are dropped, and the
/// remaining rows come out strictly ascending by native address.
pub fn transform_line_program(rows: &Vec<LineRow>, at: &AddressTransform) -> (r: Vec<OutLineRow>)
    ensures
        line_rows_rewritten(rows@, at@, r@),
{
    let mut out: Vec<OutLineRow> = Vec::new();
    let mut j: usize = 0;
    while j < rows.len()
        invariant
            j <= rows@.len(),
            rows_strictly_sorted(out@),
            forall|k: int| 0 <= k < out@.len() ==> row_origin(rows@, at@, #[trigger] out@[k]),
            forall|j2: int, q2: int|
                #![trigger spec_forward(at@, rows@[j2].loc)[q2]]
                0 <= j2 < j && 0 <= q2 < spec_forward(at@, rows@[j2].loc).len()
                    ==> has_address(out@, spec_forward(at@, rows@[j2].loc)[q2].0),
        decreases rows@.len() - j,
    {
        let lr = rows[j];
        let rs = at.lookup_ranges(crate::types::SourceLoc::new(lr.loc));
        let mut q: usize = 0;
        while q < rs.len()
            invariant
                q <= rs@.len(),
                j < rows@.len(),
                lr == rows@[j as int],
                rs@ == spec_forward(at@, rows@[j as int].loc),
                rows_strictly_sorted(out@),
                forall|k: int| 0 <= k < out@.len() ==> row_origin(rows@, at@, #[trigger] out@[k]),
                forall|j2: int, q2: int|
                    #![trigger spec_forward(at@, rows@[j2].loc)[q2]]
                    0 <= j2 < j && 0 <= q2 < spec_forward(at@, rows@[j2].loc).len()
                        ==> has_address(out@, spec_forward(at@, rows@[j2].loc)[q2].0),
                forall|q2: int| 0 <= q2 < q
                    ==> has_address(out@, (#[trigger] rs@[q2]).0),
            decreases rs@.len() - q,
        {
            let (start, _end) = rs[q];
            let newrow = OutLineRow { address: start, line: lr.line, col: lr.col };
            proof {
                assert(spec_forward(at@, rows@[j as int].loc)[q as int].0 == newrow.address);
                assert(row_origin(rows@, at@, newrow));
            }
            let ghost prev = out@;
            insert_row(&mut out, newrow);
            proof {
                assert forall|k: int| 0 <= k < out@.len()
                    implies row_origin(rows@, at@, #[trigger] out@[k]) by {
                    if out@[k] == newrow {
                    } else {
                        assert(prev.contains(out@[k]));
                        let kk = choose|kk: int| 0 <= kk < prev.len() && prev[kk] == out@[k];
                        assert(row_origin(rows@, at@, prev[kk]));
                    }
                }
                assert(has_address(out@, rs@[q as int].0));
            }
            q = q + 1;
        }
        j = j + 1;
    }
    out
}

/// The counted prefix never shrinks.
pub proof fn lemma_count_mono(m: Seq<bool>, i: int, j: int)
    requires
        0 <= i <= j <= m.len(),
    ensures
        count_marked(m, i) <= count_marked(m, j),
    decreases j,
{
    if i < j {
        lemma_count_mono(m, i, j - 1);
    }
}

/// Images of the retained children among the first `i`, in order.
pub open spec fn spec_map_children(children: Seq<usize>, omap: Seq<Option<usize>>, i: int)
    -> Seq<usize>
    decreases i,
{
    if i <= 0 {
        Seq::empty()
    } else {
        let rest = spec_map_children(children, omap, i - 1);
        if children[i - 1] < omap.len() && omap[children[i - 1] as int] is Some {
            rest.push(omap[children[i - 1] as int]->Some_0)
        } else {
            rest
        }
    }
}

/// Clone the reachable entries in pre-order. Returns the output entry
/// table and, for every input entry, its output index: an entry is
/// present in the output exactly when it is reachable, whatever the forms
/// of its attributes, so one unsupported attribute never discards its
/// entry, its siblings or its ancestors. Reference attributes are
/// resolved to the referenced entry's output index; dangling references
/// are dropped silently.
#[verifier::rlimit(100)]
pub fn clone_entries(
    di: &DebugInfoData,
    at: &AddressTransform,
    reachable: &Vec<bool>,
    vmctx: &ModuleVmctxInfo,
    ranges: &ValueLabelsRanges,
    strings: &mut Vec<String>,
    errors: &mut Vec<TransformError>,
) -> (r: (Vec<OutEntry>, Vec<Option<usize>>))
    requires
        wf_debug_info(di.entries@, di.units@),
        reachable@.len() == di.entries@.len(),
    ensures
        r.1@.len() == di.entries@.len(),
        forall|i: int| 0 <= i < r.1@.len() ==> (((#[trigger] r.1@[i]) is Some) == reachable@[i]),
        forall|i: int| 0 <= i < r.1@.len() && reachable@[i]
            ==> (#[trigger] r.1@[i])->Some_0 == count_marked(reachable@, i),
        r.0@.len() == count_marked(reachable@, reachable@.len() as int),
        forall|i: int| #![trigger count_marked(reachable@, i)] 0 <= i < r.1@.len()
            && reachable@[i]
            ==> count_marked(reachable@, i) < r.0@.len()
                && r.0@[count_marked(reachable@, i)].tag == di.entries@[i].tag
                && r.0@[count_marked(reachable@, i)].children@ == spec_map_children(
                    di.entries@[i].children@,
                    r.1@,
                    di.entries@[i].children@.len() as int,
                ),
        forall|oi: int, k: int|
            0 <= oi < r.0@.len() && 0 <= k < r.0@[oi].attrs@.len()
                && (#[trigger] r.0@[oi].attrs@[k]).value is Ref
            ==> r.0@[oi].attrs@[k].value->Ref_0 < r.0@.len(),
        old(strings)@.len() <= final(strings)@.len(),
        forall|j: int| 0 <= j < old(strings)@.len()
            ==> final(strings)@[j] == old(strings)@[j],
{
    let n = di.entries.len();
    let mut omap: Vec<Option<usize>> = Vec::new();
    let mut cnt: usize = 0;
    let mut i: usize = 0;
    while i < n
        invariant
            n == di.entries@.len(),
            reachable@.len() == n,
            i <= n,
            omap@.len() == i,
            cnt == count_marked(reachable@, i as int),
            forall|x: int| 0 <= x < i ==> (((#[trigger] omap@[x]) is Some) == reachable@[x]),
            forall|x: int| 0 <= x < i && reachable@[x]
                ==> (#[trigger] omap@[x])->Some_0 == count_marked(reachable@, x),
        decreases n - i,
    {
        proof {
            lemma_count_bounds(reachable@, i as int);
        }
        if reachable[i] {
            omap.push(Some(cnt));
            cnt = cnt + 1;
        } else {
            omap.push(None);
        }
        i = i + 1;
    }
    let ghost total = count_marked(reachable@, n as int);

    let mut oes: Vec<OutEntry> = Vec::new();
    let mut i2: usize = 0;
    while i2 < n
        invariant
            wf_debug_info(di.entries@, di.units@),
            n == di.entries@.len(),
            reachable@.len() == n,
            omap@.len() == n,
            total == count_marked(reachable@, n as int),
            forall|x: int| 0 <= x < n ==> (((#[trigger] omap@[x]) is Some) == reachable@[x]),
            forall|x: int| 0 <= x < n && reachable@[x]
                ==> (#[trigger] omap@[x])->Some_0 == count_marked(reachable@, x),
            i2 <= n,
            oes@.len() == count_marked(reachable@, i2 as int),
            forall|x: int| #![trigger count_marked(reachable@, x)] 0 <= x < i2
                && reachable@[x]
                ==> count_marked(reachable@, x) < oes@.len()
                    && oes@[count_marked(reachable@, x)].tag
                        == di.entries@[x].tag
                    && oes@[count_marked(reachable@, x)].children@ == spec_map_children(
                        di.entries@[x].children@,
                        omap@,
                        di.entries@[x].children@.len() as int,
                    ),
            forall|oi: int, k: int|
                0 <= oi < oes@.len() && 0 <= k < oes@[oi].attrs@.len()
                    && (#[trigger] oes@[oi].attrs@[k]).value is Ref
                ==> oes@[oi].attrs@[k].value->Ref_0 < total,
            old(strings)@.len() <= strings@.len(),
            forall|j: int| 0 <= j < old(strings)@.len()
                ==> strings@[j] == old(strings)@[j],
        decreases n - i2,
    {
        if reachable[i2] {
            let nc = di.entries[i2].children.len();
            let mut oc: Vec<usize> = Vec::new();
            let mut c: usize = 0;
            while c < nc
                invariant
                    wf_debug_info(di.entries@, di.units@),
                    n == di.entries@.len(),
                    omap@.len() == n,
                    i2 < n,
                    nc == di.entries@[i2 as int].children@.len(),
                    c <= nc,
                    oc@ == spec_map_children(
                        di.entries@[i2 as int].children@,
                        omap@,
                        c as int,
                    ),
                decreases nc - c,
            {
                let cc = di.entries[i2].children[c];
                assert(cc < n);
                match omap[cc] {
                    Some(x) => {
                        oc.push(x);
                    },
                    None => {},
                }
                c = c + 1;
            }

            let na = di.entries[i2].attrs.len();
            let mut oa: Vec<OutAttr> = Vec::new();
            let mut k: usize = 0;
            while k < na
                invariant
                    wf_debug_info(di.entries@, di.units@),
                    n == di.entries@.len(),
                    reachable@.len() == n,
                    omap@.len() == n,
                    total == count_marked(reachable@, n as int),
                    forall|x: int| 0 <= x < n
                        ==> (((#[trigger] omap@[x]) is Some) == reachable@[x]),
                    forall|x: int| 0 <= x < n && reachable@[x]
                        ==> (#[trigger] omap@[x])->Some_0 == count_marked(reachable@, x),
                    i2 < n,
                    na == di.entries@[i2 as int].attrs@.len(),
                    k <= na,
                    oc@ == spec_map_children(
                        di.entries@[i2 as int].children@,
                        omap@,
                        di.entries@[i2 as int].children@.len() as int,
                    ),
                    forall|x: int| 0 <= x < oa@.len() && ((#[trigger] oa@[x]).value is Ref)
                        ==> oa@[x].value->Ref_0 < total,
                    old(strings)@.len() <= strings@.len(),
                    forall|j: int| 0 <= j < old(strings)@.len()
                        ==> strings@[j] == old(strings)@[j],
                decreases na - k,
            {
                let a = &di.entries[i2].attrs[k];
                let target: Option<usize> = match &a.value {
                    AttrValue::Ref(t) => Some(*t),
                    _ => None,
                };
                match target {
                    Some(t) => {
                        assert(t < n);
                        match omap[t] {
                            Some(nt) => {
                                proof {
                                    assert(reachable@[t as int]);
                                    assert(nt == count_marked(reachable@, t as int));
                                    lemma_count_mono(reachable@, t as int + 1, n as int);
                                }
                                oa.push(OutAttr {
                                    at: a.at,
                                    value: OutAttrValue::Ref(nt),
                                });
                            },
                            None => {},
                        }
                    },
                    None => {
                        match transform_attr(a, at, vmctx, ranges, strings) {
                            Ok(Some(o)) => {
                                proof {
                                    assert(!(o.value is Ref));
                                }
                                oa.push(o);
                            },
                            Ok(None) => {},
                            Err(e) => {
                                errors.push(e);
                            },
                        }
                    },
                }
                k = k + 1;
            }

            let tag = di.entries[i2].tag;
            let ghost cm = count_marked(reachable@, i2 as int);
            let ghost oes_prev = oes@;
            oes.push(OutEntry { tag, children: oc, attrs: oa });
            proof {
                assert(count_marked(reachable@, i2 as int + 1) == cm + 1);
                assert(oes@.len() == cm + 1);
                assert(oes@[cm as int].tag == di.entries@[i2 as int].tag);
                assert(oes@[cm as int].children@ == spec_map_children(
                    di.entries@[i2 as int].children@,
                    omap@,
                    di.entries@[i2 as int].children@.len() as int,
                ));
                assert forall|x: int| #![trigger count_marked(reachable@, x)]
                    0 <= x < i2 + 1 && reachable@[x]
                    implies count_marked(reachable@, x) < oes@.len()
                        && oes@[count_marked(reachable@, x)].tag
                            == di.entries@[x].tag
                        && oes@[count_marked(reachable@, x)].children@ == spec_map_children(
                            di.entries@[x].children@,
                            omap@,
                            di.entries@[x].children@.len() as int,
                        ) by {
                    if x < i2 as int {
                        lemma_count_bounds(reachable@, x);
                        lemma_count_mono(reachable@, x + 1, i2 as int);
                        assert(count_marked(reachable@, x + 1)
                            == count_marked(reachable@, x) + 1);
                        assert(count_marked(reachable@, x) < cm + 1);
                        assert(oes@[count_marked(reachable@, x)]
                            == oes_prev[count_marked(reachable@, x)]);
                    }
                }
            }
        }
        i2 = i2 + 1;
    }
    proof {
        assert(oes@.len() == total);
    }
    (oes, omap)
}

/// Run the whole transformation: build the Address Transform from the
/// module's address map, compute the reachable entries, clone them with
/// rewritten addresses, expressions and line rows, and synthesize
/// fallback entries for every function with live code but no covering
/// subprogram. Returns the structured output together with the typed
/// errors for attributes in unsupported forms; those attributes are
/// omitted while their entries are kept.
/// Every function with live code is covered in the final entry table:
/// either a cloned subprogram already covered it, or the synthesis added
/// one for it.
proof fn lemma_driver_coverage(
    at_s: Seq<crate::types::CompiledFunctionData>,
    translated: Seq<bool>,
    pre: Seq<OutEntry>,
    cur: Seq<OutEntry>,
    root: int,
)
    requires
        wf_address_map(at_s),
        translated.len() == at_s.len(),
        pre.len() <= cur.len(),
        forall|j: int| 0 <= j < pre.len() ==> cur[j] == pre[j],
        forall|fi: int| 0 <= fi < at_s.len()
            ==> translated[fi] == exists|oi: int|
                0 <= oi < pre.len() && out_covers(#[trigger] pre[oi], at_s[fi]),
        forall|fi: int| 0 <= fi < at_s.len() && !translated[fi] && at_s[fi].compiled_size > 0
            ==> exists|oi: int|
                pre.len() <= oi < cur.len()
                    && is_sim_subprogram(#[trigger] cur[oi], at_s[fi])
                    && cur[root].children@.contains(oi as usize),
    ensures
        forall|fi: int| 0 <= fi < at_s.len() && at_s[fi].compiled_size > 0
            ==> covered(cur, #[trigger] at_s[fi]),
{
    assert forall|fi: int| 0 <= fi < at_s.len() && at_s[fi].compiled_size > 0
        implies covered(cur, #[trigger] at_s[fi]) by {
        if translated[fi] {
            let oi = choose|oi: int|
                0 <= oi < pre.len() && out_covers(#[trigger] pre[oi], at_s[fi]);
            assert(cur[oi] == pre[oi]);
            assert(out_covers(cur[oi], at_s[fi]));
        } else {
            let oi = choose|oi: int|
                pre.len() <= oi < cur.len() && is_sim_subprogram(#[trigger] cur[oi], at_s[fi])
                    && cur[root].children@.contains(oi as usize);
            crate::simulate::lemma_sim_subprogram_covers(cur[oi], at_s[fi]);
            assert(out_covers(cur[oi], at_s[fi]));
        }
    }
}

#[verifier::rlimit(100)]
#[verifier::spinoff_prover]
pub fn transform_dwarf(
    pointer_width_bytes: u8,
    di: &DebugInfoData,
    at: &ModuleAddressMap,
    vmctx_info: &ModuleVmctxInfo,
    ranges: &ValueLabelsRanges,
) -> (r: (OutputDwarf, Vec<TransformError>))
    requires
        wf_address_map(at@),
        wf_debug_info(di.entries@, di.units@),
    ensures
        r.0.units@.len() == di.units@.len() + 1,
        forall|u: int| 0 <= u < di.units@.len()
            ==> line_rows_rewritten(
                di.units@[u].line_program@,
                map_entries(at@),
                (#[trigger] r.0.units@[u]).line_rows@,
            ),
        forall|u: int| 0 <= u < r.0.units@.len()
            ==> rows_strictly_sorted((#[trigger] r.0.units@[u]).line_rows@),
        forall|fi: int| 0 <= fi < at@.len() && at@[fi].compiled_size > 0
            ==> covered(r.0.entries@, #[trigger] at@[fi]),
        r.0.address_size == pointer_width_bytes,
{
    let tr = AddressTransform::new(at);
    let reachable = reachable_entries(di, &tr);
    let mut strings: Vec<String> = Vec::new();
    let mut errors: Vec<TransformError> = Vec::new();
    let (entries, omap) =
        clone_entries(di, &tr, &reachable, vmctx_info, ranges, &mut strings, &mut errors);

    let mut units: Vec<OutUnit> = Vec::new();
    let mut u: usize = 0;
    while u < di.units.len()
        invariant
            wf_debug_info(di.entries@, di.units@),
            u <= di.units@.len(),
            units@.len() == u,
            reachable@.len() == di.entries@.len(),
            omap@.len() == di.entries@.len(),
            forall|i: int| 0 <= i < omap@.len()
                ==> (((#[trigger] omap@[i]) is Some) == reachable@[i]),
            forall|i: int| 0 <= i < reachable@.len()
                ==> reachable@[i] == crate::gc::reaches(di.entries@, di.units@, tr@, i),
            tr@ == map_entries(at@),
            forall|x: int| 0 <= x < u
                ==> line_rows_rewritten(
                    di.units@[x].line_program@,
                    map_entries(at@),
                    (#[trigger] units@[x]).line_rows@,
                ),
        decreases di.units@.len() - u,
    {
        let root = di.units[u].root;
        proof {
            assert(is_root(di.entries@, di.units@, tr@, root as int));
            lemma_root_reaches(di.entries@, di.units@, tr@, root as int);
        }
        let nr = match omap[root] {
            Some(x) => x,
            None => 0,
        };
        let rows = transform_line_program(&di.units[u].line_program, &tr);
        units.push(OutUnit { root: nr, line_rows: rows });
        u = u + 1;
    }

    let translated = mark_translated(&entries, at);
    let mut out = OutputDwarf { entries, units, strings, address_size: pointer_width_bytes };
    let ghost pre_sim = out.entries@;
    let ghost pre_units = out.units@;
    generate_simulated_dwarf(at, vmctx_info, &translated, &mut out);
    proof {
        lemma_driver_coverage(
            at@,
            translated@,
            pre_sim,
            out.entries@,
            out.units@.last().root as int,
        );
        assert forall|u2: int| 0 <= u2 < di.units@.len()
            implies line_rows_rewritten(
                di.units@[u2].line_program@,
                map_entries(at@),
                (#[trigger] out.units@[u2]).line_rows@,
            ) by {
            assert(out.units@[u2] == pre_units[u2]);
        }
        assert forall|u2: int| 0 <= u2 < out.units@.len()
            implies rows_strictly_sorted((#[trigger] out.units@[u2]).line_rows@) by {
            if u2 < di.units@.len() {
                assert(out.units@[u2] == pre_units[u2]);
            } else {
                assert(out.units@[u2].line_rows@.len() == 0);
            }
        }
    }
    (out, errors)
}

} // verus!
