//! Fallback debug-info synthesis: after real-unit cloning, every function
//! with live machine code but no subprogram entry in the cloned output
//! gets a minimal synthesized subprogram spanning its full native range,
//! with a simple frame-base expression and synthetic locals derived from
//! its stack-slot offsets; a structure-type entry describes the VM
//! execution context. This guarantees every function with live code has
//! at least one subprogram entry in the output.

use vstd::prelude::*;
use crate::dwarf::{OutAttr, OutAttrValue, OutEntry, OutExprOp, OutUnit, OutputDwarf};
use crate::types::{CompiledFunctionData, ModuleAddressMap, ModuleVmctxInfo};
use crate::address_transform::wf_address_map;

verus! {

/// The tag of a subprogram entry.
pub open spec fn subprogram_tag() -> u32 {
    0x2eu32
}

/// The attribute value names a native address inside the function's span.
pub open spec fn attr_covers(v: OutAttrValue, f: CompiledFunctionData) -> bool {
    ||| (v is Addr && f.compiled_offset <= v->Addr_0 < f.compiled_offset + f.compiled_size)
    ||| (v is Ranges && exists|q: int|
        0 <= q < v->Ranges_0@.len()
            && f.compiled_offset <= (#[trigger] v->Ranges_0@[q]).0
                < f.compiled_offset + f.compiled_size)
}

/// The output entry is a subprogram whose addresses fall into the
/// function's native span.
pub open spec fn out_covers(e: OutEntry, f: CompiledFunctionData) -> bool {
    &&& e.tag == subprogram_tag()
    &&& exists|k: int| 0 <= k < e.attrs@.len()
        && attr_covers((#[trigger] e.attrs@[k]).value, f)
}

/// Some entry of the table is a subprogram covering the function.
pub open spec fn covered(entries: Seq<OutEntry>, f: CompiledFunctionData) -> bool {
    exists|oi: int| 0 <= oi < entries.len() && out_covers(#[trigger] entries[oi], f)
}

/// Does one attribute of the entry cover the function?
fn entry_covers(e: &OutEntry, f: &CompiledFunctionData) -> (r: bool)
    requires
        f.compiled_offset + f.compiled_size <= usize::MAX,
    ensures
        r == out_covers(*e, *f),
{
    if e.tag != 0x2eu32 {
        assert(!out_covers(*e, *f));
        return false;
    }
    let lo = f.compiled_offset as u64;
    let hi = (f.compiled_offset + f.compiled_size) as u64;
    let mut k: usize = 0;
    while k < e.attrs.len()
        invariant
            k <= e.attrs@.len(),
            e.tag == 0x2eu32,
            lo == f.compiled_offset as u64,
            hi == (f.compiled_offset + f.compiled_size) as u64,
            f.compiled_offset + f.compiled_size <= usize::MAX,
            forall|k2: int| 0 <= k2 < k ==> !attr_covers((#[trigger] e.attrs@[k2]).value, *f),
        decreases e.attrs@.len() - k,
    {
        match &e.attrs[k].value {
            OutAttrValue::Addr(a) => {
                if lo <= *a && *a < hi {
                    assert(attr_covers(e.attrs@[k as int].value, *f));
                    return true;
                }
                assert(!attr_covers(e.attrs@[k as int].value, *f));
            },
            OutAttrValue::Ranges(rl) => {
                let mut q: usize = 0;
                while q < rl.len()
                    invariant
                        q <= rl@.len(),
                        k < e.attrs@.len(),
                        e.tag == 0x2eu32,
                        lo == f.compiled_offset as u64,
                        hi == (f.compiled_offset + f.compiled_size) as u64,
                        f.compiled_offset + f.compiled_size <= usize::MAX,
                        e.attrs@[k as int].value is Ranges,
                        e.attrs@[k as int].value->Ranges_0@ == rl@,
                        forall|q2: int| 0 <= q2 < q
                            ==> !(f.compiled_offset <= (#[trigger] rl@[q2]).0
                                < f.compiled_offset + f.compiled_size),
                    decreases rl@.len() - q,
                {
                    let (s, _e2) = rl[q];
                    if lo <= s && s < hi {
                        assert(attr_covers(e.attrs@[k as int].value, *f));
                        return true;
                    }
                    q = q + 1;
                }
                assert(!attr_covers(e.attrs@[k as int].value, *f));
            },
            _ => {
                assert(!attr_covers(e.attrs@[k as int].value, *f));
            },
        }
        k = k + 1;
    }
    false
}

/// A synthesized subprogram for function `f`: subprogram-tagged, its
/// first attribute a range list holding exactly the function's full
/// native span.
pub open spec fn is_sim_subprogram(e: OutEntry, f: CompiledFunctionData) -> bool {
    &&& e.tag == subprogram_tag()
    &&& e.attrs@.len() > 0
    &&& e.attrs@[0].value is Ranges
    &&& e.attrs@[0].value->Ranges_0@ == seq![
        ((f.compiled_offset as u64), ((f.compiled_offset + f.compiled_size) as u64)),
    ]
}

/// A synthesized subprogram covers its function.
pub proof fn lemma_sim_subprogram_covers(e: OutEntry, f: CompiledFunctionData)
    requires
        is_sim_subprogram(e, f),
        f.compiled_size > 0,
        f.compiled_offset + f.compiled_size <= usize::MAX,
    ensures
        out_covers(e, f),
{
    assert(e.attrs@[0].value->Ranges_0@[0].0 == (f.compiled_offset as u64));
    assert(attr_covers(e.attrs@[0].value, f));
}

/// Appending one entry keeps the synthesis invariants: established
/// coverage witnesses survive, and the added entry is a subprogram only
/// when it is a synthesized one for an uncovered function.
proof fn lemma_sim_push(
    prev: Seq<OutEntry>,
    cur: Seq<OutEntry>,
    prev_ch: Seq<usize>,
    cur_ch: Seq<usize>,
    at_map: Seq<CompiledFunctionData>,
    translated: Seq<bool>,
    base: int,
    fi: int,
    e: OutEntry,
)
    requires
        cur == prev.push(e),
        prev_ch.len() <= cur_ch.len(),
        forall|j: int| 0 <= j < prev_ch.len() ==> cur_ch[j] == prev_ch[j],
        0 <= base <= prev.len(),
        e.tag == subprogram_tag() ==> exists|f2: int|
            0 <= f2 < at_map.len() && !translated[f2] && at_map[f2].compiled_size > 0
                && is_sim_subprogram(e, #[trigger] at_map[f2]),
        forall|f2: int| 0 <= f2 < fi && !translated[f2] && at_map[f2].compiled_size > 0
            ==> exists|oi: int| base <= oi < prev.len()
                && is_sim_subprogram(#[trigger] prev[oi], at_map[f2])
                && prev_ch.contains(oi as usize),
        forall|oi: int| base <= oi < prev.len()
            && (#[trigger] prev[oi]).tag == subprogram_tag()
            ==> exists|f2: int| 0 <= f2 < at_map.len() && !translated[f2]
                && at_map[f2].compiled_size > 0
                && is_sim_subprogram(prev[oi], #[trigger] at_map[f2]),
    ensures
        forall|f2: int| 0 <= f2 < fi && !translated[f2] && at_map[f2].compiled_size > 0
            ==> exists|oi: int| base <= oi < cur.len()
                && is_sim_subprogram(#[trigger] cur[oi], at_map[f2])
                && cur_ch.contains(oi as usize),
        forall|oi: int| base <= oi < cur.len()
            && (#[trigger] cur[oi]).tag == subprogram_tag()
            ==> exists|f2: int| 0 <= f2 < at_map.len() && !translated[f2]
                && at_map[f2].compiled_size > 0
                && is_sim_subprogram(cur[oi], #[trigger] at_map[f2]),
{
    assert forall|f2: int| 0 <= f2 < fi && !translated[f2] && at_map[f2].compiled_size > 0
        implies exists|oi: int|
            base <= oi < cur.len() && is_sim_subprogram(#[trigger] cur[oi], at_map[f2])
                && cur_ch.contains(oi as usize) by {
        let oi = choose|oi: int|
            base <= oi < prev.len() && is_sim_subprogram(#[trigger] prev[oi], at_map[f2])
                && prev_ch.contains(oi as usize);
        assert(cur[oi] == prev[oi]);
        let kk = choose|kk: int| 0 <= kk < prev_ch.len() && prev_ch[kk] == oi as usize;
        assert(cur_ch[kk] == oi as usize);
        assert(cur_ch.contains(oi as usize));
    }
    assert forall|oi: int| base <= oi < cur.len()
        && (#[trigger] cur[oi]).tag == subprogram_tag()
        implies exists|f2: int|
            0 <= f2 < at_map.len() && !translated[f2] && at_map[f2].compiled_size > 0
                && is_sim_subprogram(cur[oi], #[trigger] at_map[f2]) by {
        if oi < prev.len() {
            assert(cur[oi] == prev[oi]);
        } else {
            assert(cur[oi] == e);
        }
    }
}

/// For each function, whether some cloned output entry is already a
/// subprogram covering its native span.
pub fn mark_translated(entries: &Vec<OutEntry>, at_map: &ModuleAddressMap) -> (r: Vec<bool>)
    requires
        wf_address_map(at_map@),
    ensures
        r@.len() == at_map@.len(),
        forall|fi: int| 0 <= fi < at_map@.len()
            ==> r@[fi] == exists|oi: int|
                0 <= oi < entries@.len() && out_covers(#[trigger] entries@[oi], at_map@[fi]),
{
    let mut r: Vec<bool> = Vec::new();
    let mut fi: usize = 0;
    while fi < at_map.len()
        invariant
            wf_address_map(at_map@),
            fi <= at_map@.len(),
            r@.len() == fi,
            forall|f2: int| 0 <= f2 < fi
                ==> r@[f2] == exists|oi: int|
                    0 <= oi < entries@.len() && out_covers(#[trigger] entries@[oi], at_map@[f2]),
        decreases at_map@.len() - fi,
    {
        let f = &at_map[fi];
        assert(f.compiled_offset + f.compiled_size <= usize::MAX);
        let mut found = false;
        let mut oi: usize = 0;
        while oi < entries.len() && !found
            invariant
                oi <= entries@.len(),
                fi < at_map@.len(),
                *f == at_map@[fi as int],
                f.compiled_offset + f.compiled_size <= usize::MAX,
                found ==> oi < entries@.len()
                    && out_covers(entries@[oi as int], at_map@[fi as int]),
                !found ==> forall|o2: int| 0 <= o2 < oi
                    ==> !out_covers(#[trigger] entries@[o2], at_map@[fi as int]),
            decreases entries@.len() - oi, if found { 0int } else { 1int },
        {
            if entry_covers(&entries[oi], f) {
                found = true;
            } else {
                oi = oi + 1;
            }
        }
        r.push(found);
        fi = fi + 1;
    }
    r
}

/// Synthesize fallback entries, gathered under one new output unit: an
/// execution-context structure type, and for every function with live
/// code but no covering subprogram a minimal subprogram spanning its
/// full native range, with synthetic locals taken from its stack-slot
/// offsets. Existing entries and units are left untouched; the new
/// unit's root reaches every synthesized subprogram, so the fallback
/// entries are part of the serialized output.
#[verifier::rlimit(100)]
pub fn generate_simulated_dwarf(
    at_map: &ModuleAddressMap,
    vmctx: &ModuleVmctxInfo,
    translated: &Vec<bool>,
    out: &mut OutputDwarf,
)
    requires
        wf_address_map(at_map@),
        translated@.len() == at_map@.len(),
    ensures
        old(out).entries@.len() <= final(out).entries@.len(),
        forall|j: int| 0 <= j < old(out).entries@.len()
            ==> final(out).entries@[j] == old(out).entries@[j],
        final(out).strings == old(out).strings,
        final(out).address_size == old(out).address_size,
        final(out).units@.len() == old(out).units@.len() + 1,
        forall|u: int| 0 <= u < old(out).units@.len()
            ==> final(out).units@[u] == old(out).units@[u],
        final(out).units@.last().root < final(out).entries@.len(),
        final(out).units@.last().line_rows@.len() == 0,
        forall|fi: int| 0 <= fi < at_map@.len() && !translated@[fi]
            && at_map@[fi].compiled_size > 0
            ==> exists|oi: int|
                old(out).entries@.len() <= oi < final(out).entries@.len()
                    && is_sim_subprogram(#[trigger] final(out).entries@[oi], at_map@[fi])
                    && final(out).entries@[final(out).units@.last().root as int].children@
                        .contains(oi as usize),
        forall|oi: int| old(out).entries@.len() <= oi < final(out).entries@.len()
            && (#[trigger] final(out).entries@[oi]).tag == subprogram_tag()
            ==> exists|f2: int| 0 <= f2 < at_map@.len() && !translated@[f2]
                && at_map@[f2].compiled_size > 0
                && is_sim_subprogram(final(out).entries@[oi], #[trigger] at_map@[f2]),
{
    let ghost base = out.entries@;
    let ghost units0 = out.units@;
    let mut root_children: Vec<usize> = Vec::new();

    // The execution-context structure type: the memory pointer's offset
    // and the context's total size.
    let mut ctx_attrs: Vec<OutAttr> = Vec::new();
    let memoff = #[verifier::truncate] (vmctx.memory_offset as u64);
    let ctxsize = #[verifier::truncate] (vmctx.vmctx_size as u64);
    ctx_attrs.push(OutAttr { at: 0x38u32, value: OutAttrValue::Data(memoff) });
    ctx_attrs.push(OutAttr { at: 0x0bu32, value: OutAttrValue::Data(ctxsize) });
    root_children.push(out.entries.len());
    out.entries.push(OutEntry { tag: 0x13u32, children: Vec::new(), attrs: ctx_attrs });
    proof {
        assert forall|oi: int| base.len() <= oi < out.entries@.len()
            && (#[trigger] out.entries@[oi]).tag == subprogram_tag()
            implies exists|f2: int|
                0 <= f2 < at_map@.len() && !translated@[f2] && at_map@[f2].compiled_size > 0
                    && is_sim_subprogram(out.entries@[oi], #[trigger] at_map@[f2]) by {
            assert(out.entries@[oi].tag == 0x13u32);
        }
    }

    let mut fi: usize = 0;
    while fi < at_map.len()
        invariant
            wf_address_map(at_map@),
            translated@.len() == at_map@.len(),
            fi <= at_map@.len(),
            base.len() < out.entries@.len(),
            forall|j: int| 0 <= j < base.len() ==> out.entries@[j] == base[j],
            out.units@ == units0,
            out.strings == old(out).strings,
            out.address_size == old(out).address_size,
            forall|f2: int| 0 <= f2 < fi && !translated@[f2]
                && at_map@[f2].compiled_size > 0
                ==> exists|oi: int|
                    base.len() <= oi < out.entries@.len()
                        && is_sim_subprogram(#[trigger] out.entries@[oi], at_map@[f2])
                        && root_children@.contains(oi as usize),
            forall|oi: int| base.len() <= oi < out.entries@.len()
                && (#[trigger] out.entries@[oi]).tag == subprogram_tag()
                ==> exists|f2: int| 0 <= f2 < at_map@.len() && !translated@[f2]
                    && at_map@[f2].compiled_size > 0
                    && is_sim_subprogram(out.entries@[oi], #[trigger] at_map@[f2]),
        decreases at_map@.len() - fi,
    {
        let f = &at_map[fi];
        assert(f.compiled_offset + f.compiled_size <= usize::MAX);
        if !translated[fi] && f.compiled_size > 0 {
            let lo = f.compiled_offset as u64;
            let hi = (f.compiled_offset + f.compiled_size) as u64;

            // Synthetic locals come from the function's stack-slot
            // offsets; they are emitted first and the subprogram lists
            // their indexes as its children.
            let mut children: Vec<usize> = Vec::new();
            if fi < vmctx.stack_slot_offsets.len() {
                let nslots = vmctx.stack_slot_offsets[fi].len();
                let mut sl: usize = 0;
                while sl < nslots
                    invariant
                        sl <= nslots,
                        fi < vmctx.stack_slot_offsets@.len(),
                        nslots == vmctx.stack_slot_offsets@[fi as int]@.len(),
                        wf_address_map(at_map@),
                        translated@.len() == at_map@.len(),
                        fi < at_map@.len(),
                        base.len() < out.entries@.len(),
                        forall|j: int| 0 <= j < base.len() ==> out.entries@[j] == base[j],
                        out.units@ == units0,
                        out.strings == old(out).strings,
                        out.address_size == old(out).address_size,
                        forall|f2: int| 0 <= f2 < fi && !translated@[f2]
                            && at_map@[f2].compiled_size > 0
                            ==> exists|oi: int|
                                base.len() <= oi < out.entries@.len()
                                    && is_sim_subprogram(
                                        #[trigger] out.entries@[oi],
                                        at_map@[f2],
                                    ) && root_children@.contains(oi as usize),
                        forall|oi: int| base.len() <= oi < out.entries@.len()
                            && (#[trigger] out.entries@[oi]).tag == subprogram_tag()
                            ==> exists|f2: int| 0 <= f2 < at_map@.len() && !translated@[f2]
                                && at_map@[f2].compiled_size > 0
                                && is_sim_subprogram(
                                    out.entries@[oi],
                                    #[trigger] at_map@[f2],
                                ),
                    decreases nslots - sl,
                {
                    match vmctx.stack_slot_offsets[fi][sl] {
                        Some(off) => {
                            let mut loc: Vec<OutExprOp> = Vec::new();
                            loc.push(OutExprOp::ContextOffset(off as i64));
                            let mut lattrs: Vec<OutAttr> = Vec::new();
                            lattrs.push(OutAttr {
                                at: 0x02u32,
                                value: OutAttrValue::Exprloc(loc),
                            });
                            children.push(out.entries.len());
                            let ghost prev = out.entries@;
                            let local = OutEntry {
                                tag: 0x34u32,
                                children: Vec::new(),
                                attrs: lattrs,
                            };
                            out.entries.push(local);
                            proof {
                                lemma_sim_push(
                                    prev,
                                    out.entries@,
                                    root_children@,
                                    root_children@,
                                    at_map@,
                                    translated@,
                                    base.len() as int,
                                    fi as int,
                                    local,
                                );
                            }
                        },
                        None => {},
                    }
                    sl = sl + 1;
                }
            }

            let mut ranges: Vec<(u64, u64)> = Vec::new();
            ranges.push((lo, hi));
            let mut frame_base: Vec<OutExprOp> = Vec::new();
            frame_base.push(OutExprOp::ContextOffset(0));
            let mut sp_attrs: Vec<OutAttr> = Vec::new();
            sp_attrs.push(OutAttr { at: 0x55u32, value: OutAttrValue::Ranges(ranges) });
            sp_attrs.push(OutAttr { at: 0x40u32, value: OutAttrValue::Exprloc(frame_base) });
            let sp = OutEntry { tag: 0x2eu32, children, attrs: sp_attrs };
            proof {
                assert(sp.attrs@[0].value->Ranges_0@ =~= seq![(lo, hi)]);
                assert(is_sim_subprogram(sp, at_map@[fi as int]));
            }
            let sp_idx = out.entries.len();
            let ghost prev = out.entries@;
            let ghost prev_ch = root_children@;
            root_children.push(sp_idx);
            out.entries.push(sp);
            proof {
                lemma_sim_push(
                    prev,
                    out.entries@,
                    prev_ch,
                    root_children@,
                    at_map@,
                    translated@,
                    base.len() as int,
                    fi as int,
                    sp,
                );
                assert(out.entries@[sp_idx as int] == sp);
                assert(root_children@[root_children@.len() - 1] == sp_idx);
                assert(root_children@.contains(sp_idx));
            }
        }
        fi = fi + 1;
    }

    // The new unit: its root entry gathers the context type and the
    // synthesized subprograms as children.
    let root_idx = out.entries.len();
    let ghost prev = out.entries@;
    let ghost prev_ch = root_children@;
    let root_entry = OutEntry { tag: 0x11u32, children: root_children, attrs: Vec::new() };
    let ghost root_entry_g = root_entry;
    out.entries.push(root_entry);
    proof {
        lemma_sim_push(
            prev,
            out.entries@,
            prev_ch,
            prev_ch,
            at_map@,
            translated@,
            base.len() as int,
            at_map@.len() as int,
            root_entry_g,
        );
        assert(out.entries@[root_idx as int].children@ == prev_ch);
    }
    out.units.push(OutUnit { root: root_idx, line_rows: Vec::new() });
    proof {
        assert(out.units@.last().root == root_idx);
        assert(out.units@.last().line_rows@.len() == 0);
        assert forall|u: int| 0 <= u < units0.len()
            implies out.units@[u] == units0[u] by {
        }
    }
}

} // verus!
