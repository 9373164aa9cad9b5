//! Bidirectional mapping between source-bytecode offsets and generated
//! machine-code address ranges, built once from a module's address map.

use vstd::prelude::*;
use crate::types::{CompiledFunctionData, ModuleAddressMap, SourceLoc};

verus! {

/// One interval of the transform's table: code compiled from source
/// location `loc` occupies native addresses `[native_start, native_end)`.
#[derive(Debug, PartialEq, Eq, Clone, Copy, Structural)]
pub struct AddressMapEntry {
    /// The originating source location.
    pub loc: u32,
    /// First native address of the interval.
    pub native_start: u64,
    /// First native address past the interval.
    pub native_end: u64,
}

/// The interval holds the given native address.
pub open spec fn entry_contains(e: AddressMapEntry, addr: u64) -> bool {
    e.native_start <= addr < e.native_end
}

/// Table well-formedness: every interval is non-empty and carries a known
/// source location, and the intervals are disjoint, ascending by native
/// address.
pub open spec fn wf_entries(t: Seq<AddressMapEntry>) -> bool {
    &&& forall|i: int| 0 <= i < t.len() ==> (#[trigger] t[i]).native_start < t[i].native_end
    &&& forall|i: int| 0 <= i < t.len() ==> (#[trigger] t[i]).loc != 0xffff_ffffu32
    &&& forall|i: int| 0 <= i < t.len() - 1
        ==> (#[trigger] t[i]).native_end <= t[i + 1].native_start
}

/// In a well-formed table, intervals at distinct positions are ordered.
pub proof fn lemma_entries_ordered(t: Seq<AddressMapEntry>, i: int, j: int)
    requires
        wf_entries(t),
        0 <= i < j < t.len(),
    ensures
        t[i].native_end <= t[j].native_start,
    decreases j - i,
{
    if i + 1 < j {
        lemma_entries_ordered(t, i + 1, j);
    }
}

/// A native address lies in at most one interval.
pub proof fn lemma_unique_container(t: Seq<AddressMapEntry>, addr: u64, i: int, j: int)
    requires
        wf_entries(t),
        0 <= i < t.len(),
        0 <= j < t.len(),
        entry_contains(t[i], addr),
        entry_contains(t[j], addr),
    ensures
        i == j,
{
    if i < j {
        lemma_entries_ordered(t, i, j);
    } else if j < i {
        lemma_entries_ordered(t, j, i);
    }
}

/// Reverse lookup from position `i` on: the source location of the first
/// interval holding `addr`.
pub open spec fn spec_reverse_from(t: Seq<AddressMapEntry>, addr: u64, i: int) -> Option<u32>
    decreases t.len() - i,
{
    if i < 0 || i >= t.len() {
        None
    } else if entry_contains(t[i], addr) {
        Some(t[i].loc)
    } else {
        spec_reverse_from(t, addr, i + 1)
    }
}

/// Reverse lookup: the source location of the interval holding `addr`.
pub open spec fn spec_reverse(t: Seq<AddressMapEntry>, addr: u64) -> Option<u32> {
    spec_reverse_from(t, addr, 0)
}

/// Forward lookup restricted to the first `i` intervals: the native ranges
/// of the intervals whose source location is `l`, in table order.
pub open spec fn spec_forward_upto(t: Seq<AddressMapEntry>, l: u32, i: int) -> Seq<(u64, u64)>
    decreases i,
{
    if i <= 0 {
        Seq::empty()
    } else {
        let rest = spec_forward_upto(t, l, i - 1);
        if t[i - 1].loc == l {
            rest.push((t[i - 1].native_start, t[i - 1].native_end))
        } else {
            rest
        }
    }
}

/// Forward lookup: all native ranges of code compiled from `l`.
pub open spec fn spec_forward(t: Seq<AddressMapEntry>, l: u32) -> Seq<(u64, u64)> {
    spec_forward_upto(t, l, t.len() as int)
}

/// Range translation restricted to the first `i` intervals: the native
/// ranges of the intervals whose source location lies in `[s, e)`.
pub open spec fn spec_translate_upto(t: Seq<AddressMapEntry>, s: u32, e: u32, i: int)
    -> Seq<(u64, u64)>
    decreases i,
{
    if i <= 0 {
        Seq::empty()
    } else {
        let rest = spec_translate_upto(t, s, e, i - 1);
        if s <= t[i - 1].loc < e {
            rest.push((t[i - 1].native_start, t[i - 1].native_end))
        } else {
            rest
        }
    }
}

/// Range translation: the native ranges of code compiled from `[s, e)`,
/// clipped and split to the table's intervals.
pub open spec fn spec_translate(t: Seq<AddressMapEntry>, s: u32, e: u32) -> Seq<(u64, u64)> {
    spec_translate_upto(t, s, e, t.len() as int)
}

/// A list of native ranges is non-empty element-wise, disjoint and
/// ascending.
pub open spec fn ranges_sorted(rs: Seq<(u64, u64)>) -> bool {
    &&& forall|k: int| 0 <= k < rs.len() ==> (#[trigger] rs[k]).0 < rs[k].1
    &&& forall|k: int| 0 <= k < rs.len() - 1 ==> (#[trigger] rs[k]).1 <= rs[k + 1].0
}

/// Instruction `k` of `f` contributes an interval: its source location is
/// known and its compiled code is non-empty.
pub open spec fn keep_instruction(f: CompiledFunctionData, k: int) -> bool {
    &&& f.instructions@[k].loc@ != 0xffff_ffffu32
    &&& f.instructions@[k].length > 0
}

/// The interval contributed by instruction `k` of `f`.
pub open spec fn instruction_entry(f: CompiledFunctionData, k: int) -> AddressMapEntry {
    AddressMapEntry {
        loc: f.instructions@[k].loc@,
        native_start: (f.compiled_offset + f.instructions@[k].offset) as u64,
        native_end: (f.compiled_offset + f.instructions@[k].offset
            + f.instructions@[k].length) as u64,
    }
}

/// The intervals of the first `k` instructions of `f`.
pub open spec fn func_entries_upto(f: CompiledFunctionData, k: int) -> Seq<AddressMapEntry>
    decreases k,
{
    if k <= 0 {
        Seq::empty()
    } else {
        let rest = func_entries_upto(f, k - 1);
        if keep_instruction(f, k - 1) {
            rest.push(instruction_entry(f, k - 1))
        } else {
            rest
        }
    }
}

/// All intervals of `f`.
pub open spec fn func_entries(f: CompiledFunctionData) -> Seq<AddressMapEntry> {
    func_entries_upto(f, f.instructions@.len() as int)
}

/// The intervals of the first `n` functions.
pub open spec fn map_entries_upto(fs: Seq<CompiledFunctionData>, n: int) -> Seq<AddressMapEntry>
    decreases n,
{
    if n <= 0 {
        Seq::empty()
    } else {
        map_entries_upto(fs, n - 1) + func_entries(fs[n - 1])
    }
}

/// The full interval table of an address map.
pub open spec fn map_entries(fs: Seq<CompiledFunctionData>) -> Seq<AddressMapEntry> {
    map_entries_upto(fs, fs.len() as int)
}

/// A function record is well formed: its instruction spans lie within the
/// function's compiled size, ascending and non-overlapping, and the
/// function's own span fits the machine.
pub open spec fn wf_function(f: CompiledFunctionData) -> bool {
    &&& f.compiled_offset + f.compiled_size <= usize::MAX
    &&& forall|k: int| 0 <= k < f.instructions@.len()
        ==> (#[trigger] f.instructions@[k]).offset + f.instructions@[k].length
            <= f.compiled_size
    &&& forall|k: int| 0 <= k < f.instructions@.len() - 1
        ==> (#[trigger] f.instructions@[k]).offset + f.instructions@[k].length
            <= f.instructions@[k + 1].offset
}

/// An address map is well formed: every function is, and function spans are
/// ascending and non-overlapping in compiled order.
pub open spec fn wf_address_map(fs: Seq<CompiledFunctionData>) -> bool {
    &&& forall|i: int| 0 <= i < fs.len() ==> wf_function(#[trigger] fs[i])
    &&& forall|i: int| 0 <= i < fs.len() - 1
        ==> (#[trigger] fs[i]).compiled_offset + fs[i].compiled_size
            <= fs[i + 1].compiled_offset
}

/// Appending an interval past the table's end keeps it well formed.
proof fn lemma_wf_push(t: Seq<AddressMapEntry>, e: AddressMapEntry)
    requires
        wf_entries(t),
        e.native_start < e.native_end,
        e.loc != 0xffff_ffffu32,
        t.len() > 0 ==> t.last().native_end <= e.native_start,
    ensures
        wf_entries(t.push(e)),
{
    let t2 = t.push(e);
    assert forall|i: int| 0 <= i < t2.len() - 1
        implies (#[trigger] t2[i]).native_end <= t2[i + 1].native_start by {
        if i < t.len() - 1 {
            assert(t2[i] == t[i]);
            assert(t2[i + 1] == t[i + 1]);
        } else {
            assert(t2[i] == t.last());
            assert(t2[i + 1] == e);
        }
    }
}

/// Bidirectional mapping between source locations and native address
/// ranges, as an ordered interval table.
pub struct AddressTransform {
    map: Vec<AddressMapEntry>,
}

impl View for AddressTransform {
    type V = Seq<AddressMapEntry>;

    closed spec fn view(&self) -> Seq<AddressMapEntry> {
        self.map@
    }
}

impl AddressTransform {
    /// The table invariant.
    pub open spec fn wf(&self) -> bool {
        wf_entries(self@)
    }

    /// Build the transform from a module's address map: one interval per
    /// instruction with a known source location and non-empty code.
    #[verifier::rlimit(100)]
    pub fn new(at: &ModuleAddressMap) -> (r: Self)
        requires
            wf_address_map(at@),
        ensures
            r@ == map_entries(at@),
            r.wf(),
    {
        let mut map: Vec<AddressMapEntry> = Vec::new();
        let mut fi: usize = 0;
        while fi < at.len()
            invariant
                wf_address_map(at@),
                fi <= at@.len(),
                map@ == map_entries_upto(at@, fi as int),
                wf_entries(map@),
                map@.len() > 0 && fi < at@.len()
                    ==> map@.last().native_end <= at@[fi as int].compiled_offset,
            decreases at@.len() - fi,
        {
            let ghost fv = at@[fi as int];
            let nk = at[fi].instructions.len();
            let mut k: usize = 0;
            while k < nk
                invariant
                    wf_address_map(at@),
                    fi < at@.len(),
                    fv == at@[fi as int],
                    wf_function(fv),
                    nk == fv.instructions@.len(),
                    k <= nk,
                    map@ == map_entries_upto(at@, fi as int) + func_entries_upto(fv, k as int),
                    wf_entries(map@),
                    map@.len() > 0 ==> map@.last().native_end <= (
                        if k < nk {
                            fv.compiled_offset + fv.instructions@[k as int].offset
                        } else {
                            fv.compiled_offset + fv.compiled_size
                        }
                    ),
                    map@.len() > 0 && fi < at@.len() - 1
                        ==> map@.last().native_end <= at@[fi as int + 1].compiled_offset,
                decreases nk - k,
            {
                let it = at[fi].instructions[k];
                assert(it == fv.instructions@[k as int]);
                if !it.loc.is_default() && it.length > 0 {
                    let start = at[fi].compiled_offset + it.offset;
                    let end = start + it.length;
                    let e = AddressMapEntry {
                        loc: it.loc.get(),
                        native_start: start as u64,
                        native_end: end as u64,
                    };
                    proof {
                        assert(e == instruction_entry(fv, k as int));
                        lemma_wf_push(map@, e);
                    }
                    map.push(e);
                    proof {
                        assert(map@ =~= map_entries_upto(at@, fi as int)
                            + func_entries_upto(fv, k as int + 1));
                    }
                } else {
                    proof {
                        assert(func_entries_upto(fv, k as int + 1)
                            == func_entries_upto(fv, k as int));
                    }
                }
                k = k + 1;
            }
            fi = fi + 1;
            proof {
                assert(map@ =~= map_entries_upto(at@, fi as int));
            }
        }
        proof {
            assert(map@ == map_entries(at@));
        }
        AddressTransform { map }
    }

    /// Reverse lookup: the source location of the code at native address
    /// `addr`, or `None` when no interval holds it.
    pub fn lookup(&self, addr: u64) -> (r: Option<SourceLoc>)
        ensures
            match r {
                Some(l) => spec_reverse(self@, addr) == Some(l@),
                None => spec_reverse(self@, addr) is None,
            },
    {
        let mut i: usize = 0;
        while i < self.map.len()
            invariant
                i <= self@.len(),
                spec_reverse(self@, addr) == spec_reverse_from(self@, addr, i as int),
            decreases self@.len() - i,
        {
            let e = self.map[i];
            if e.native_start <= addr && addr < e.native_end {
                return Some(SourceLoc::new(e.loc));
            }
            i = i + 1;
        }
        None
    }

    /// Forward lookup: all native ranges currently holding code compiled
    /// from source location `loc`, in table order. An empty result means
    /// the location is not present in current code.
    pub fn lookup_ranges(&self, loc: SourceLoc) -> (r: Vec<(u64, u64)>)
        ensures
            r@ == spec_forward(self@, loc@),
    {
        let l = loc.get();
        let mut r: Vec<(u64, u64)> = Vec::new();
        let mut i: usize = 0;
        while i < self.map.len()
            invariant
                i <= self@.len(),
                l == loc@,
                r@ == spec_forward_upto(self@, l, i as int),
            decreases self@.len() - i,
        {
            let e = self.map[i];
            if e.loc == l {
                r.push((e.native_start, e.native_end));
            }
            i = i + 1;
        }
        r
    }

    /// Translate the source range `[start, end)` into the full set of
    /// native sub-ranges it is compiled to, clipped and split to the
    /// table's intervals. A zero-length range yields nothing.
    pub fn translate_range(&self, start: SourceLoc, end: SourceLoc) -> (r: Vec<(u64, u64)>)
        ensures
            r@ == spec_translate(self@, start@, end@),
    {
        let s = start.get();
        let e = end.get();
        let mut r: Vec<(u64, u64)> = Vec::new();
        let mut i: usize = 0;
        while i < self.map.len()
            invariant
                i <= self@.len(),
                s == start@,
                e == end@,
                r@ == spec_translate_upto(self@, s, e, i as int),
            decreases self@.len() - i,
        {
            let entry = self.map[i];
            if s <= entry.loc && entry.loc < e {
                r.push((entry.native_start, entry.native_end));
            }
            i = i + 1;
        }
        r
    }
}

/// Every range of a forward lookup is the native range of one interval of
/// the table with the looked-up source location.
pub proof fn lemma_forward_elem(t: Seq<AddressMapEntry>, l: u32, i: int, k: int)
    requires
        0 <= i <= t.len(),
        0 <= k < spec_forward_upto(t, l, i).len(),
    ensures
        exists|j: int|
            0 <= j < i && (#[trigger] t[j]).loc == l
                && spec_forward_upto(t, l, i)[k] == (t[j].native_start, t[j].native_end),
    decreases i,
{
    if i > 0 {
        if t[i - 1].loc == l && k == spec_forward_upto(t, l, i).len() - 1 {
            assert(t[i - 1].loc == l
                && spec_forward_upto(t, l, i)[k] == (t[i - 1].native_start, t[i - 1].native_end));
        } else {
            lemma_forward_elem(t, l, i - 1, k);
            let j = choose|j: int|
                0 <= j < i - 1 && (#[trigger] t[j]).loc == l
                    && spec_forward_upto(t, l, i - 1)[k]
                        == (t[j].native_start, t[j].native_end);
            assert(t[j].loc == l
                && spec_forward_upto(t, l, i)[k] == (t[j].native_start, t[j].native_end));
        }
    }
}

/// The first interval found by reverse lookup is the unique interval
/// holding the address.
pub proof fn lemma_reverse_finds(t: Seq<AddressMapEntry>, addr: u64, x: int, i: int)
    requires
        wf_entries(t),
        0 <= x <= i < t.len(),
        entry_contains(t[i], addr),
    ensures
        spec_reverse_from(t, addr, x) == Some(t[i].loc),
    decreases i - x,
{
    if entry_contains(t[x], addr) {
        lemma_unique_container(t, addr, x, i);
    } else {
        lemma_reverse_finds(t, addr, x + 1, i);
    }
}

/// Forward-reverse agreement: every native address inside a range returned
/// by forward lookup of source location `l` reverse-looks-up to `l`.
pub proof fn lemma_forward_reverse(t: Seq<AddressMapEntry>, l: u32, rng: (u64, u64), addr: u64)
    requires
        wf_entries(t),
        spec_forward(t, l).contains(rng),
        rng.0 <= addr < rng.1,
    ensures
        spec_reverse(t, addr) == Some(l),
{
    let k = choose|k: int| 0 <= k < spec_forward(t, l).len() && spec_forward(t, l)[k] == rng;
    lemma_forward_elem(t, l, t.len() as int, k);
    let j = choose|j: int|
        0 <= j < t.len() && (#[trigger] t[j]).loc == l
            && spec_forward(t, l)[k] == (t[j].native_start, t[j].native_end);
    assert(entry_contains(t[j], addr));
    lemma_reverse_finds(t, addr, 0, j);
}

/// Forward lookup on a well-formed table returns non-empty ranges that are
/// disjoint and ascending by native address.
pub proof fn lemma_forward_sorted(t: Seq<AddressMapEntry>, l: u32, i: int)
    requires
        wf_entries(t),
        0 <= i <= t.len(),
    ensures
        ranges_sorted(spec_forward_upto(t, l, i)),
        spec_forward_upto(t, l, i).len() > 0
            ==> i > 0 && spec_forward_upto(t, l, i).last().1 <= t[i - 1].native_end,
    decreases i,
{
    if i > 0 {
        lemma_forward_sorted(t, l, i - 1);
        let prev = spec_forward_upto(t, l, i - 1);
        let cur = spec_forward_upto(t, l, i);
        if t[i - 1].loc == l {
            assert(cur == prev.push((t[i - 1].native_start, t[i - 1].native_end)));
            if prev.len() > 0 {
                assert(prev.last().1 <= t[i - 2].native_end);
                assert(t[i - 2].native_end <= t[i - 1].native_start);
            }
            assert forall|k: int| 0 <= k < cur.len() - 1
                implies (#[trigger] cur[k]).1 <= cur[k + 1].0 by {
                if k < prev.len() - 1 {
                    assert(cur[k] == prev[k]);
                    assert(cur[k + 1] == prev[k + 1]);
                } else {
                    assert(cur[k] == prev.last());
                    assert(cur[k + 1] == (t[i - 1].native_start, t[i - 1].native_end));
                }
            }
        } else {
            if prev.len() > 0 {
                assert(t[i - 2].native_end <= t[i - 1].native_start);
                assert(t[i - 1].native_start < t[i - 1].native_end);
            }
        }
    }
}

/// The ranges of a full forward lookup are non-overlapping and sorted
/// ascending by native address.
pub proof fn lemma_forward_ranges_sorted(t: Seq<AddressMapEntry>, l: u32)
    requires
        wf_entries(t),
    ensures
        ranges_sorted(spec_forward(t, l)),
{
    lemma_forward_sorted(t, l, t.len() as int);
}

/// In a sorted range list, ranges at distinct positions are ordered.
pub proof fn lemma_ranges_ordered(rs: Seq<(u64, u64)>, i: int, j: int)
    requires
        ranges_sorted(rs),
        0 <= i < j < rs.len(),
    ensures
        rs[i].1 <= rs[j].0,
    decreases j - i,
{
    if i + 1 < j {
        lemma_ranges_ordered(rs, i + 1, j);
    }
}

} // verus!
