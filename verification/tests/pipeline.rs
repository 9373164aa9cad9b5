use wasm_debug::address_transform::AddressTransform;
use wasm_debug::dwarf::{Attr, AttrValue, DebugInfoData, Entry, ExprOp, LineRow, OutAttrValue,
    OutExprOp, Unit};
use wasm_debug::emit::{code_region, FunctionRelocResolver, ImageRelocResolver, ResolvedSymbol,
    SymbolResolver};
use wasm_debug::gc::reachable_entries;
use wasm_debug::image::convert_to_loadable_file;
use wasm_debug::transform::{clone_entries, intern_string, transform_dwarf, transform_expression,
    transform_line_program, TransformError};
use wasm_debug::types::{build_values_ranges, create_module_address_map, get_vmctx_value_label,
    CompiledFunctionData, CompiledInstructionData, DefinedFuncIndex, ModuleVmctxInfo, SourceLoc,
    StackSlot, ValueLabel, ValueLoc, ValueLocRange};

fn one_func_map() -> Vec<CompiledFunctionData> {
    vec![CompiledFunctionData {
        instructions: vec![CompiledInstructionData {
            loc: SourceLoc::new(0),
            length: 0x32,
            offset: 0,
        }],
        start: SourceLoc::new(0),
        end: SourceLoc::new(50),
        compiled_offset: 0x1000,
        compiled_size: 0x32,
    }]
}

fn two_func_map() -> Vec<CompiledFunctionData> {
    vec![
        CompiledFunctionData {
            instructions: vec![
                CompiledInstructionData { loc: SourceLoc::new(4), length: 8, offset: 0 },
                CompiledInstructionData { loc: SourceLoc::new(9), length: 4, offset: 8 },
            ],
            start: SourceLoc::new(4),
            end: SourceLoc::new(20),
            compiled_offset: 0x100,
            compiled_size: 0x10,
        },
        CompiledFunctionData {
            instructions: vec![
                CompiledInstructionData { loc: SourceLoc::new(4), length: 6, offset: 0 },
            ],
            start: SourceLoc::new(4),
            end: SourceLoc::new(40),
            compiled_offset: 0x200,
            compiled_size: 0x8,
        },
    ]
}

#[test]
fn source_loc_basics() {
    let l = SourceLoc::new(7);
    assert_eq!(l.get(), 7);
    assert!(!l.is_default());
    assert!(SourceLoc::new(u32::MAX).is_default());
}

#[test]
fn func_index_roundtrip() {
    let i = DefinedFuncIndex::new(4);
    assert_eq!(i.index(), 4);
}

#[test]
fn label_and_slot_roundtrip() {
    assert_eq!(StackSlot::from_u32(5).as_u32(), 5);
    assert_eq!(ValueLabel::from_u32(9).as_u32(), 9);
    assert_eq!(ValueLabel::new(3).index(), 3);
    assert_eq!(get_vmctx_value_label().as_u32(), 0xffff_fffe);
}

#[test]
fn address_map_copy() {
    let m = create_module_address_map(&two_func_map());
    assert_eq!(m.len(), 2);
    assert_eq!(m[0].compiled_offset, 0x100);
    assert_eq!(m[1].instructions.len(), 1);
}

#[test]
fn values_ranges_copy() {
    let inner = vec![(
        ValueLabel::from_u32(1),
        vec![ValueLocRange { loc: ValueLoc::Stack(StackSlot::from_u32(0)), start: 0, end: 8 }],
    )];
    let r = build_values_ranges(&vec![inner]);
    assert_eq!(r.len(), 1);
    assert_eq!(r[0][0].0.as_u32(), 1);
    assert_eq!(r[0][0].1[0].end, 8);
}

#[test]
fn vmctx_info_copy() {
    let v = ModuleVmctxInfo::new(16, 128, &vec![vec![Some(24), None]]);
    assert_eq!(v.memory_offset, 16);
    assert_eq!(v.vmctx_size, 128);
    assert_eq!(v.stack_slot_offsets[0][0], Some(24));
}

#[test]
fn forward_then_reverse_lookup() {
    let tr = AddressTransform::new(&two_func_map());
    let ranges = tr.lookup_ranges(SourceLoc::new(4));
    assert_eq!(ranges, vec![(0x100, 0x108), (0x200, 0x206)]);
    for (s, e) in ranges {
        for a in s..e {
            let back = tr.lookup(a).expect("mapped address");
            assert_eq!(back.get(), 4);
        }
    }
    assert_eq!(tr.lookup(0x50), None);
}

#[test]
fn forward_ranges_sorted_disjoint() {
    let tr = AddressTransform::new(&two_func_map());
    let ranges = tr.lookup_ranges(SourceLoc::new(4));
    for w in ranges.windows(2) {
        assert!(w[0].1 <= w[1].0);
    }
    for (s, e) in &ranges {
        assert!(s < e);
    }
}

#[test]
fn translate_range_splits_and_drops_empty() {
    let tr = AddressTransform::new(&two_func_map());
    let parts = tr.translate_range(SourceLoc::new(0), SourceLoc::new(32));
    assert_eq!(parts, vec![(0x100, 0x108), (0x108, 0x10c), (0x200, 0x206)]);
    let empty = tr.translate_range(SourceLoc::new(9), SourceLoc::new(9));
    assert!(empty.is_empty());
}

fn ref_attr(target: usize) -> Attr {
    Attr { at: 0x47, value: AttrValue::Ref(target) }
}

#[test]
fn reference_cycle_stays_reachable() {
    // Root 0 references 1; 1 and 2 reference each other.
    let di = DebugInfoData {
        entries: vec![
            Entry { tag: 0x11, children: vec![], attrs: vec![ref_attr(1)] },
            Entry { tag: 0x0f, children: vec![], attrs: vec![ref_attr(2)] },
            Entry { tag: 0x0f, children: vec![], attrs: vec![ref_attr(1)] },
        ],
        units: vec![Unit { root: 0, line_program: vec![] }],
    };
    let tr = AddressTransform::new(&two_func_map());
    let r = reachable_entries(&di, &tr);
    assert_eq!(r, vec![true, true, true]);
}

#[test]
fn unreferenced_entry_absent() {
    let di = DebugInfoData {
        entries: vec![
            Entry { tag: 0x11, children: vec![], attrs: vec![] },
            Entry { tag: 0x0f, children: vec![], attrs: vec![] },
        ],
        units: vec![Unit { root: 0, line_program: vec![] }],
    };
    let tr = AddressTransform::new(&two_func_map());
    let r = reachable_entries(&di, &tr);
    assert_eq!(r, vec![true, false]);
}

#[test]
fn ancestors_of_live_entry_kept() {
    // Entry 1 is a child of 0; 1 has a live address, 0 has nothing, and
    // the unit root is a separate dead tree.
    let di = DebugInfoData {
        entries: vec![
            Entry { tag: 0x11, children: vec![1], attrs: vec![] },
            Entry { tag: 0x2e, children: vec![], attrs: vec![Attr {
                at: 0x11,
                value: AttrValue::Addr(4),
            }] },
            Entry { tag: 0x24, children: vec![], attrs: vec![] },
        ],
        units: vec![Unit { root: 2, line_program: vec![] }],
    };
    let tr = AddressTransform::new(&two_func_map());
    let r = reachable_entries(&di, &tr);
    assert_eq!(r, vec![true, true, true]);
}

#[test]
fn unsupported_form_keeps_entry_and_siblings() {
    let di = DebugInfoData {
        entries: vec![
            Entry { tag: 0x11, children: vec![1, 2], attrs: vec![ref_attr(1), ref_attr(2)] },
            Entry { tag: 0x0f, children: vec![], attrs: vec![Attr {
                at: 0x03,
                value: AttrValue::Unsupported(0x1234),
            }] },
            Entry { tag: 0x0f, children: vec![], attrs: vec![Attr {
                at: 0x1c,
                value: AttrValue::Data(9),
            }] },
        ],
        units: vec![Unit { root: 0, line_program: vec![] }],
    };
    let tr = AddressTransform::new(&two_func_map());
    let reachable = reachable_entries(&di, &tr);
    let vmctx = ModuleVmctxInfo::new(0, 16, &vec![]);
    let ranges = build_values_ranges(&vec![]);
    let mut strings = Vec::new();
    let mut errors: Vec<TransformError> = Vec::new();
    let (entries, omap) =
        clone_entries(&di, &tr, &reachable, &vmctx, &ranges, &mut strings, &mut errors);
    // All three entries survive; only the unsupported attribute is gone.
    assert_eq!(omap, vec![Some(0), Some(1), Some(2)]);
    assert_eq!(entries.len(), 3);
    assert!(entries[1].attrs.is_empty());
    assert_eq!(entries[0].children, vec![1, 2]);
    assert_eq!(errors.len(), 1);
    assert_eq!(errors[0].form, 0x1234);
    assert_eq!(errors[0].message(), "unsupported attribute form");
}

#[test]
fn line_rows_strictly_ascending() {
    let rows = vec![
        LineRow { loc: 9, line: 2, col: 1 },
        LineRow { loc: 4, line: 1, col: 1 },
        LineRow { loc: 77, line: 3, col: 1 },
    ];
    let tr = AddressTransform::new(&two_func_map());
    let out = transform_line_program(&rows, &tr);
    // loc 4 maps to 0x100 and 0x200, loc 9 to 0x108, loc 77 is dropped.
    let addrs: Vec<u64> = out.iter().map(|r| r.address).collect();
    assert_eq!(addrs, vec![0x100, 0x108, 0x200]);
    for w in addrs.windows(2) {
        assert!(w[0] < w[1]);
    }
}

#[test]
fn expression_rewrite() {
    let vmctx = ModuleVmctxInfo::new(0, 16, &vec![vec![Some(40)]]);
    let ranges = build_values_ranges(&vec![vec![(
        ValueLabel::from_u32(2),
        vec![ValueLocRange { loc: ValueLoc::Stack(StackSlot::from_u32(0)), start: 0, end: 8 }],
    )]]);
    let ops = vec![
        ExprOp::Const(3),
        ExprOp::Local(2),
        ExprOp::Local(0xffff_fffe),
        ExprOp::Local(77),
    ];
    let out = transform_expression(&ops, 0, &vmctx, &ranges);
    assert_eq!(out, vec![
        OutExprOp::Const(3),
        OutExprOp::ContextOffset(40),
        OutExprOp::ContextOffset(0),
    ]);
}

#[test]
fn string_interning_dedups() {
    let mut strings: Vec<String> = Vec::new();
    let a = intern_string(&mut strings, &String::from("alpha"));
    let b = intern_string(&mut strings, &String::from("beta"));
    let a2 = intern_string(&mut strings, &String::from("alpha"));
    assert_eq!(a, a2);
    assert_ne!(a, b);
    assert_eq!(strings.len(), 2);
}

#[test]
fn simulated_subprogram_for_unmapped_function() {
    // One function, bytecode range [0, 50) compiled to [0x1000, 0x1032),
    // and no original debug info: exactly one subprogram comes out, and
    // it spans the full native range.
    let at = one_func_map();
    let di = DebugInfoData { entries: vec![], units: vec![] };
    let vmctx = ModuleVmctxInfo::new(0, 16, &vec![]);
    let ranges = build_values_ranges(&vec![]);
    let (out, errors) = transform_dwarf(8, &di, &at, &vmctx, &ranges);
    assert!(errors.is_empty());
    let subprograms: Vec<(usize, _)> =
        out.entries.iter().enumerate().filter(|(_, e)| e.tag == 0x2e).collect();
    assert_eq!(subprograms.len(), 1);
    // The synthesized entries hang off the one new unit, so a writer
    // walking the units reaches the fallback subprogram.
    assert_eq!(out.units.len(), 1);
    let root = &out.entries[out.units[0].root];
    assert!(root.children.contains(&subprograms[0].0));
    assert!(out.units[0].line_rows.is_empty());
    let ranges_attr = subprograms[0]
        .1
        .attrs
        .iter()
        .find_map(|a| match &a.value {
            OutAttrValue::Ranges(r) => Some(r.clone()),
            _ => None,
        })
        .expect("subprogram has a range");
    assert_eq!(ranges_attr, vec![(0x1000, 0x1032)]);
    assert_eq!(out.address_size, 8);
}

#[test]
fn transform_rewrites_addresses() {
    // A subprogram whose address maps; its cloned attribute is rewritten
    // and no simulated subprogram is added for that function.
    let di = DebugInfoData {
        entries: vec![
            Entry { tag: 0x11, children: vec![1], attrs: vec![ref_attr(1)] },
            Entry { tag: 0x2e, children: vec![], attrs: vec![Attr {
                at: 0x11,
                value: AttrValue::Addr(4),
            }] },
        ],
        units: vec![Unit { root: 0, line_program: vec![] }],
    };
    let at = two_func_map();
    let vmctx = ModuleVmctxInfo::new(0, 16, &vec![]);
    let ranges = build_values_ranges(&vec![]);
    let (out, errors) = transform_dwarf(4, &di, &at, &vmctx, &ranges);
    assert!(errors.is_empty());
    // One unit is cloned and one synthesized unit is appended.
    assert_eq!(out.units.len(), 2);
    // Source offset 4 maps to two native ranges, so the address attribute
    // is promoted to a range list.
    match &out.entries[1].attrs[0].value {
        OutAttrValue::Ranges(r) => assert_eq!(r, &vec![(0x100, 0x108), (0x200, 0x206)]),
        other => panic!("expected a range list, got {:?}", other),
    }
}

#[test]
fn resolver_wraps_negative_addend() {
    let i = ImageRelocResolver { func_offsets: vec![0x4000] };
    match i.resolve_symbol(0, -0x10) {
        ResolvedSymbol::PhysicalAddress(a) => assert_eq!(a, 0x3ff0),
        _ => panic!("expected an address"),
    }
    match i.resolve_symbol(7, 1) {
        ResolvedSymbol::PhysicalAddress(a) => assert_eq!(a, 0),
        _ => panic!("expected an address"),
    }
}

#[test]
fn resolver_names_and_addresses() {
    let f = FunctionRelocResolver {};
    match f.resolve_symbol(123, 5) {
        ResolvedSymbol::Reloc { name, addend } => {
            assert_eq!(name, "_wasm_function_123");
            assert_eq!(addend, 5);
        },
        _ => panic!("expected a relocation"),
    }
    let i = ImageRelocResolver { func_offsets: vec![0x4000, 0x5000] };
    match i.resolve_symbol(1, 0x10) {
        ResolvedSymbol::PhysicalAddress(a) => assert_eq!(a, 0x5010),
        _ => panic!("expected an address"),
    }
}

fn wr16(b: &mut [u8], off: usize, v: u16) {
    b[off..off + 2].copy_from_slice(&v.to_le_bytes());
}

fn wr32(b: &mut [u8], off: usize, v: u32) {
    b[off..off + 4].copy_from_slice(&v.to_le_bytes());
}

fn wr64(b: &mut [u8], off: usize, v: u64) {
    b[off..off + 8].copy_from_slice(&v.to_le_bytes());
}

fn rd16(b: &[u8], off: usize) -> u16 {
    u16::from_le_bytes(b[off..off + 2].try_into().unwrap())
}

fn rd32(b: &[u8], off: usize) -> u32 {
    u32::from_le_bytes(b[off..off + 4].try_into().unwrap())
}

fn rd64(b: &[u8], off: usize) -> u64 {
    u64::from_le_bytes(b[off..off + 8].try_into().unwrap())
}

/// A minimal object buffer: header, a symbol-table section whose file
/// offset points at the string data, a text section named ".text.all",
/// and one empty section.
fn object_buffer(text_offset: u64, text_size: u64) -> Vec<u8> {
    let mut b = vec![0u8; 0x10a];
    b[4] = 2;
    b[5] = 1;
    wr16(&mut b, 0x36, 0x38);
    wr16(&mut b, 0x3a, 0x40);
    wr64(&mut b, 0x28, 0x40);
    wr16(&mut b, 0x3c, 3);
    // Section 0: symbol table; its file offset locates the string data.
    wr32(&mut b, 0x40 + 0x4, 3);
    wr64(&mut b, 0x40 + 0x18, 0x100);
    // Section 1: the combined text section.
    wr32(&mut b, 0x80 + 0x0, 0);
    wr32(&mut b, 0x80 + 0x4, 1);
    wr64(&mut b, 0x80 + 0x18, text_offset);
    wr64(&mut b, 0x80 + 0x20, text_size);
    // String data at 0x100: ".text.all\0".
    b[0x100..0x10a].copy_from_slice(b".text.all\0");
    b
}

#[test]
fn image_synthesis_patches_segment() {
    // Two contiguous function bodies: the appended load segment has
    // size len1 + len2 and virtual address min(ptr1, ptr2).
    let funcs: Vec<(u64, usize)> = vec![(0x7f000, 0x20), (0x7f020, 0x30)];
    let (lo, hi) = code_region(&funcs);
    assert_eq!(lo, 0x7f000);
    assert_eq!(hi - lo, 0x50);

    let mut b = object_buffer(0x200, hi - lo);
    let orig_len = b.len();
    let ok = convert_to_loadable_file(&mut b, lo);
    assert!(ok);
    assert_eq!(b.len(), orig_len + 0x38);
    // The text section's virtual address is the live code address and
    // its name is cut to ".text".
    assert_eq!(rd64(&b, 0x80 + 0x10), lo);
    assert_eq!(&b[0x100..0x106], b".text\0");
    // The appended loadable segment record.
    let ph = orig_len;
    assert_eq!(rd32(&b, ph), 1);
    assert_eq!(rd64(&b, ph + 0x8), 0x200);
    assert_eq!(rd64(&b, ph + 0x10), lo);
    assert_eq!(rd64(&b, ph + 0x18), lo);
    assert_eq!(rd64(&b, ph + 0x20), 0x50);
    assert_eq!(rd64(&b, ph + 0x28), 0x50);
    // The finalized header: shared-object kind, one program header.
    assert_eq!(rd16(&b, 0x10), 3);
    assert_eq!(rd64(&b, 0x20), ph as u64);
    assert_eq!(rd16(&b, 0x38), 1);
}

#[test]
fn image_synthesis_deterministic() {
    let mut b1 = object_buffer(0x200, 0x50);
    let mut b2 = object_buffer(0x200, 0x50);
    assert!(convert_to_loadable_file(&mut b1, 0x7f000));
    assert!(convert_to_loadable_file(&mut b2, 0x7f000));
    assert_eq!(b1, b2);
}

#[test]
fn image_synthesis_rejects_bad_header() {
    // A wrong fixed section-entry size: no output is produced and the
    // buffer stays as it was.
    let mut b = object_buffer(0x200, 0x50);
    wr16(&mut b, 0x3a, 0x3f);
    let orig = b.clone();
    let ok = convert_to_loadable_file(&mut b, 0x7f000);
    assert!(!ok);
    assert_eq!(b, orig);
}

#[test]
fn image_synthesis_rejects_missing_text_section() {
    let mut b = object_buffer(0x200, 0x50);
    // Break the text section's name.
    b[0x100] = b'x';
    let orig = b.clone();
    assert!(!convert_to_loadable_file(&mut b, 0x7f000));
    assert_eq!(b, orig);
}
