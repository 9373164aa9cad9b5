//! Reachability analysis over the debug-info entry graph: entries still
//! referenced by surviving native code are retained, everything else is
//! garbage-collected. The graph has an edge for every reference-typed
//! attribute and an edge from every child to its parent (so ancestors of a
//! reachable entry stay alive); roots are unit roots and entries whose
//! address ranges still map to surviving code. The traversal is an
//! iterative worklist with an explicit visited set, so reference cycles
//! are harmless.

use vstd::prelude::*;
use crate::address_transform::{AddressMapEntry, AddressTransform, spec_forward, spec_translate};
use crate::dwarf::{AttrValue, DebugInfoData, Entry, Unit, wf_debug_info};
use crate::types::SourceLoc;

verus! {

/// Entry `a` references entry `b` through one of its attributes.
pub open spec fn ref_edge(entries: Seq<Entry>, a: int, b: int) -> bool {
    exists|k: int| 0 <= k < entries[a].attrs@.len()
        && (#[trigger] entries[a].attrs@[k]).value is Ref
        && entries[a].attrs@[k].value->Ref_0 == b
}

/// One edge of the dependency graph: a reference-typed attribute of `a`
/// naming `b`, or `b` being the structural parent of `a`.
pub open spec fn edge(entries: Seq<Entry>, a: int, b: int) -> bool {
    &&& 0 <= a < entries.len()
    &&& 0 <= b < entries.len()
    &&& (ref_edge(entries, a, b) || entries[b].children@.contains(a as usize))
}

/// The attribute value still maps to surviving native code.
pub open spec fn attr_live(t: Seq<AddressMapEntry>, v: AttrValue) -> bool {
    ||| (v is Addr && spec_forward(t, v->Addr_0).len() > 0)
    ||| (v is Ranges && exists|m: int|
        0 <= m < v->Ranges_0@.len()
            && spec_translate(t, (#[trigger] v->Ranges_0@[m]).0, v->Ranges_0@[m].1).len() > 0)
}

/// The entry's address ranges still map to surviving native code.
pub open spec fn live_entry(entries: Seq<Entry>, t: Seq<AddressMapEntry>, i: int) -> bool {
    exists|k: int| 0 <= k < entries[i].attrs@.len()
        && attr_live(t, (#[trigger] entries[i].attrs@[k]).value)
}

/// A root of the traversal: a unit root, or an entry with surviving code.
pub open spec fn is_root(
    entries: Seq<Entry>,
    units: Seq<Unit>,
    t: Seq<AddressMapEntry>,
    i: int,
) -> bool {
    &&& 0 <= i < entries.len()
    &&& ((exists|u: int| 0 <= u < units.len() && (#[trigger] units[u]).root == i)
        || live_entry(entries, t, i))
}

/// The index sequence `p` steps along graph edges.
pub open spec fn is_path(entries: Seq<Entry>, p: Seq<int>) -> bool {
    forall|k: int| 0 <= k < p.len() - 1 ==> edge(entries, #[trigger] p[k], p[k + 1])
}

/// Entry `i` is reachable: some edge path leads from a root to it.
pub open spec fn reaches(
    entries: Seq<Entry>,
    units: Seq<Unit>,
    t: Seq<AddressMapEntry>,
    i: int,
) -> bool {
    exists|p: Seq<int>|
        #[trigger] is_path(entries, p) && p.len() > 0 && is_root(entries, units, t, p[0])
            && p.last() == i
}

/// Reachability is closed under graph edges.
pub proof fn lemma_reaches_step(
    entries: Seq<Entry>,
    units: Seq<Unit>,
    t: Seq<AddressMapEntry>,
    i: int,
    j: int,
)
    requires
        reaches(entries, units, t, i),
        edge(entries, i, j),
    ensures
        reaches(entries, units, t, j),
{
    let p = choose|p: Seq<int>|
        #[trigger] is_path(entries, p) && p.len() > 0 && is_root(entries, units, t, p[0])
            && p.last() == i;
    let q = p.push(j);
    assert forall|k: int| 0 <= k < q.len() - 1 implies edge(entries, #[trigger] q[k], q[k + 1]) by {
        if k < p.len() - 1 {
            assert(q[k] == p[k]);
            assert(q[k + 1] == p[k + 1]);
        } else {
            assert(q[k] == p.last());
            assert(q[k + 1] == j);
        }
    }
    assert(is_path(entries, q) && q.len() > 0 && is_root(entries, units, t, q[0])
        && q.last() == j);
}

/// A root reaches itself.
pub proof fn lemma_root_reaches(
    entries: Seq<Entry>,
    units: Seq<Unit>,
    t: Seq<AddressMapEntry>,
    i: int,
)
    requires
        is_root(entries, units, t, i),
    ensures
        reaches(entries, units, t, i),
{
    let p = seq![i];
    assert(is_path(entries, p) && p.len() > 0 && is_root(entries, units, t, p[0])
        && p.last() == i);
}

/// An entry that is not a root and has no inbound edge at all is not
/// reachable.
pub proof fn lemma_unreferenced_absent(
    entries: Seq<Entry>,
    units: Seq<Unit>,
    t: Seq<AddressMapEntry>,
    i: int,
)
    requires
        !is_root(entries, units, t, i),
        forall|a: int| !edge(entries, a, i),
    ensures
        !reaches(entries, units, t, i),
{
    if reaches(entries, units, t, i) {
        let p = choose|p: Seq<int>|
            #[trigger] is_path(entries, p) && p.len() > 0 && is_root(entries, units, t, p[0])
                && p.last() == i;
        if p.len() == 1 {
            assert(p[0] == i);
        } else {
            assert(edge(entries, p[p.len() - 2], p[p.len() - 1]));
        }
    }
}

/// Every node the marking reached has all its successors marked.
pub open spec fn closed_node(entries: Seq<Entry>, m: Seq<bool>, i: int) -> bool {
    forall|j: int| #[trigger] edge(entries, i, j) ==> m[j]
}

/// The number of marked positions among the first `i`.
pub open spec fn count_marked(m: Seq<bool>, i: int) -> int
    decreases i,
{
    if i <= 0 {
        0
    } else {
        count_marked(m, i - 1) + if m[i - 1] {
            1int
        } else {
            0int
        }
    }
}

pub proof fn lemma_count_bounds(m: Seq<bool>, i: int)
    requires
        0 <= i <= m.len(),
    ensures
        0 <= count_marked(m, i) <= i,
    decreases i,
{
    if i > 0 {
        lemma_count_bounds(m, i - 1);
    }
}

pub proof fn lemma_count_update(m: Seq<bool>, j: int, i: int)
    requires
        0 <= j < m.len(),
        !m[j],
        0 <= i <= m.len(),
    ensures
        count_marked(m.update(j, true), i) == count_marked(m, i) + if j < i {
            1int
        } else {
            0int
        },
    decreases i,
{
    if i > 0 {
        lemma_count_update(m, j, i - 1);
        assert(m.update(j, true)[i - 1] == if i - 1 == j {
            true
        } else {
            m[i - 1]
        });
    }
}

/// A marking that holds all roots and is closed under edges marks the end
/// of every path from a root.
proof fn lemma_path_marked(
    entries: Seq<Entry>,
    units: Seq<Unit>,
    t: Seq<AddressMapEntry>,
    m: Seq<bool>,
    p: Seq<int>,
)
    requires
        m.len() == entries.len(),
        forall|i: int| is_root(entries, units, t, i) ==> m[i],
        forall|i: int| 0 <= i < entries.len() && m[i] ==> #[trigger] closed_node(entries, m, i),
        is_path(entries, p),
        p.len() > 0,
        is_root(entries, units, t, p[0]),
    ensures
        0 <= p.last() < entries.len(),
        m[p.last()],
    decreases p.len(),
{
    if p.len() == 1 {
        assert(m[p[0]]);
    } else {
        let q = p.drop_last();
        assert forall|k: int| 0 <= k < q.len() - 1
            implies edge(entries, #[trigger] q[k], q[k + 1]) by {
            assert(q[k] == p[k]);
            assert(q[k + 1] == p[k + 1]);
            assert(edge(entries, p[k], p[k + 1]));
        }
        lemma_path_marked(entries, units, t, m, q);
        assert(edge(entries, p[p.len() - 2], p[p.len() - 1]));
        assert(closed_node(entries, m, p[p.len() - 2]));
    }
}

/// Does the vector contain the value?
fn contains_usize(v: &Vec<usize>, x: usize) -> (r: bool)
    ensures
        r == v@.contains(x),
{
    let mut i: usize = 0;
    while i < v.len()
        invariant
            i <= v@.len(),
            forall|k: int| 0 <= k < i ==> v@[k] != x,
        decreases v@.len() - i,
    {
        if v[i] == x {
            return true;
        }
        i = i + 1;
    }
    false
}

/// Does the entry still map to surviving native code through one of its
/// address attributes?
fn entry_is_live(e: &Entry, at: &AddressTransform) -> (r: bool)
    ensures
        r == (exists|k: int| 0 <= k < e.attrs@.len()
            && attr_live(at@, (#[trigger] e.attrs@[k]).value)),
{
    let mut k: usize = 0;
    while k < e.attrs.len()
        invariant
            k <= e.attrs@.len(),
            forall|k2: int| 0 <= k2 < k ==> !attr_live(at@, (#[trigger] e.attrs@[k2]).value),
        decreases e.attrs@.len() - k,
    {
        match &e.attrs[k].value {
            AttrValue::Addr(a) => {
                let rs = at.lookup_ranges(SourceLoc::new(*a));
                if rs.len() > 0 {
                    assert(attr_live(at@, e.attrs@[k as int].value));
                    return true;
                }
            },
            AttrValue::Ranges(rl) => {
                let mut m: usize = 0;
                while m < rl.len()
                    invariant
                        m <= rl@.len(),
                        k < e.attrs@.len(),
                        e.attrs@[k as int].value is Ranges,
                        e.attrs@[k as int].value->Ranges_0@ == rl@,
                        forall|m2: int| 0 <= m2 < m
                            ==> spec_translate(at@, (#[trigger] rl@[m2]).0, rl@[m2].1).len()
                                == 0,
                    decreases rl@.len() - m,
                {
                    let (s, e2) = rl[m];
                    let rs = at.translate_range(SourceLoc::new(s), SourceLoc::new(e2));
                    if rs.len() > 0 {
                        assert(attr_live(at@, e.attrs@[k as int].value));
                        return true;
                    }
                    m = m + 1;
                }
                assert(!attr_live(at@, e.attrs@[k as int].value));
            },
            _ => {
                assert(!attr_live(at@, e.attrs@[k as int].value));
            },
        }
        k = k + 1;
    }
    false
}

/// Compute the reachable-entry set: `r[i]` holds exactly when entry `i`
/// is reachable from a retained root. The traversal is iterative with an
/// explicit visited set, so it terminates on cyclic reference graphs.
#[verifier::rlimit(100)]
pub fn reachable_entries(di: &DebugInfoData, at: &AddressTransform) -> (r: Vec<bool>)
    requires
        wf_debug_info(di.entries@, di.units@),
    ensures
        r@.len() == di.entries@.len(),
        forall|i: int| 0 <= i < r@.len()
            ==> r@[i] == #[trigger] reaches(di.entries@, di.units@, at@, i),
{
    let ghost entries = di.entries@;
    let ghost units = di.units@;
    let n = di.entries.len();
    let mut m: Vec<bool> = Vec::new();
    let mut i0: usize = 0;
    while i0 < n
        invariant
            i0 <= n,
            m@.len() == i0,
            forall|k: int| 0 <= k < i0 ==> !(#[trigger] m@[k]),
        decreases n - i0,
    {
        m.push(false);
        i0 = i0 + 1;
    }

    let mut stack: Vec<usize> = Vec::new();

    // Seed the unit roots.
    let mut u: usize = 0;
    while u < di.units.len()
        invariant
            entries == di.entries@,
            units == di.units@,
            wf_debug_info(entries, units),
            n == entries.len(),
            u <= units.len(),
            m@.len() == n,
            forall|k: int| 0 <= k < stack@.len()
                ==> #[trigger] stack@[k] < n && m@[stack@[k] as int],
            forall|i: int| 0 <= i < n && m@[i] ==> #[trigger] reaches(entries, units, at@, i),
            forall|u2: int| 0 <= u2 < u ==> m@[(#[trigger] units[u2]).root as int],
            forall|i: int| 0 <= i < n && m@[i] ==> stack@.contains(i as usize),
        decreases units.len() - u,
    {
        let root = di.units[u].root;
        if !m[root] {
            let ghost m_prev = m@;
            let ghost stack_prev = stack@;
            m.set(root, true);
            stack.push(root);
            proof {
                lemma_root_reaches(entries, units, at@, root as int);
                assert forall|x: int| 0 <= x < n && m@[x]
                    implies stack@.contains(x as usize) by {
                    if x == root as int {
                        assert(stack@[stack@.len() - 1] == root);
                    } else {
                        assert(m_prev[x]);
                        let kk = choose|kk: int|
                            0 <= kk < stack_prev.len() && stack_prev[kk] == x as usize;
                        assert(stack@[kk] == x as usize);
                    }
                }
            }
        }
        u = u + 1;
    }

    // Seed the entries whose addresses still map to surviving code.
    let mut i1: usize = 0;
    while i1 < n
        invariant
            entries == di.entries@,
            units == di.units@,
            wf_debug_info(entries, units),
            n == entries.len(),
            i1 <= n,
            m@.len() == n,
            forall|k: int| 0 <= k < stack@.len()
                ==> #[trigger] stack@[k] < n && m@[stack@[k] as int],
            forall|i: int| 0 <= i < n && m@[i] ==> #[trigger] reaches(entries, units, at@, i),
            forall|i: int| is_root(entries, units, at@, i)
                && (i < i1 || (exists|u2: int| 0 <= u2 < units.len()
                    && (#[trigger] units[u2]).root == i)) ==> m@[i],
            forall|i: int| 0 <= i < n && m@[i] ==> stack@.contains(i as usize),
        decreases n - i1,
    {
        let live = entry_is_live(&di.entries[i1], at);
        if live && !m[i1] {
            let ghost m_prev = m@;
            let ghost stack_prev = stack@;
            m.set(i1, true);
            stack.push(i1);
            proof {
                assert(live_entry(entries, at@, i1 as int));
                lemma_root_reaches(entries, units, at@, i1 as int);
                assert forall|x: int| 0 <= x < n && m@[x]
                    implies stack@.contains(x as usize) by {
                    if x == i1 as int {
                        assert(stack@[stack@.len() - 1] == i1);
                    } else {
                        assert(m_prev[x]);
                        let kk = choose|kk: int|
                            0 <= kk < stack_prev.len() && stack_prev[kk] == x as usize;
                        assert(stack@[kk] == x as usize);
                    }
                }
            }
        }
        i1 = i1 + 1;
    }

    // Worklist traversal of the dependency graph.
    while stack.len() > 0
        invariant
            entries == di.entries@,
            units == di.units@,
            wf_debug_info(entries, units),
            n == entries.len(),
            m@.len() == n,
            forall|k: int| 0 <= k < stack@.len()
                ==> #[trigger] stack@[k] < n && m@[stack@[k] as int],
            forall|i: int| 0 <= i < n && m@[i] ==> #[trigger] reaches(entries, units, at@, i),
            forall|i: int| is_root(entries, units, at@, i) ==> m@[i],
            forall|i: int| 0 <= i < n && m@[i] && !stack@.contains(i as usize)
                ==> #[trigger] closed_node(entries, m@, i),
        decreases n - count_marked(m@, n as int), stack@.len(),
    {
        let ghost m0 = m@;
        let ghost stack0 = stack@;
        proof {
            lemma_count_bounds(m0, n as int);
        }
        let i = stack.pop().unwrap();
        let ghost popped = i as int;
        let ghost count0 = count_marked(m0, n as int);
        proof {
            assert(stack@ == stack0.drop_last());
            assert forall|j: int| 0 <= j < n && m@[j] && !stack@.contains(j as usize)
                && j != popped implies #[trigger] closed_node(entries, m@, j) by {
                if stack0.contains(j as usize) {
                    let kk = choose|kk: int|
                        0 <= kk < stack0.len() && stack0[kk] == j as usize;
                    if kk < stack0.len() - 1 {
                        assert(stack@[kk] == j as usize);
                        assert(false);
                    } else {
                        assert(j == popped);
                        assert(false);
                    }
                }
            }
        }

        // Mark every entry this one references.
        let nk = di.entries[i].attrs.len();
        let mut k: usize = 0;
        while k < nk
            invariant
                entries == di.entries@,
                units == di.units@,
                wf_debug_info(entries, units),
                n == entries.len(),
                0 <= popped < n,
                nk == entries[popped].attrs@.len(),
                i as int == popped,
                k <= nk,
                m@.len() == n,
                m@[popped],
                reaches(entries, units, at@, popped),
                forall|j: int| 0 <= j < n && m0[j] ==> m@[j],
                forall|kk: int| 0 <= kk < stack@.len()
                    ==> #[trigger] stack@[kk] < n && m@[stack@[kk] as int],
                forall|j: int| 0 <= j < n && m@[j]
                    ==> #[trigger] reaches(entries, units, at@, j),
                forall|j: int| is_root(entries, units, at@, j) ==> m@[j],
                forall|j: int| 0 <= j < n && m@[j] && !stack@.contains(j as usize) && j != popped
                    ==> #[trigger] closed_node(entries, m@, j),
                forall|k2: int| 0 <= k2 < k && (#[trigger] entries[popped].attrs@[k2]).value is Ref
                    ==> m@[entries[popped].attrs@[k2].value->Ref_0 as int],
                count_marked(m@, n as int) >= count0
                    + if stack@.len() > stack0.len() - 1 { 1int } else { 0int },
                stack@.len() >= stack0.len() - 1,
            decreases nk - k,
        {
            let target_opt: Option<usize> = match &di.entries[i].attrs[k].value {
                AttrValue::Ref(r2) => Some(*r2),
                _ => None,
            };
            if let Some(tgt) = target_opt {
                assert(entries[popped].attrs@[k as int].value is Ref
                    && entries[popped].attrs@[k as int].value->Ref_0 == tgt);
                assert(tgt < n);
                if !m[tgt] {
                    proof {
                        assert(ref_edge(entries, popped, tgt as int));
                        assert(edge(entries, popped, tgt as int));
                        lemma_reaches_step(entries, units, at@, popped, tgt as int);
                        lemma_count_update(m@, tgt as int, n as int);
                    }
                    let ghost m_prev = m@;
                    let ghost stack_prev = stack@;
                    m.set(tgt, true);
                    stack.push(tgt);
                    proof {
                        assert forall|j: int| 0 <= j < n && m@[j]
                            && !stack@.contains(j as usize) && j != popped
                            implies #[trigger] closed_node(entries, m@, j) by {
                            if j == tgt as int {
                                assert(stack@[stack@.len() - 1] == tgt);
                                assert(false);
                            } else {
                                assert(m_prev[j]);
                                if stack_prev.contains(j as usize) {
                                    let kk = choose|kk: int|
                                        0 <= kk < stack_prev.len()
                                            && stack_prev[kk] == j as usize;
                                    assert(stack@[kk] == j as usize);
                                    assert(false);
                                }
                                assert(closed_node(entries, m_prev, j));
                                assert forall|j2: int| #[trigger] edge(entries, j, j2)
                                    implies m@[j2] by {
                                    assert(m_prev[j2]);
                                }
                            }
                        }
                    }
                }
            }
            k = k + 1;
        }

        // Mark this entry's parent, keeping ancestors alive.
        let mut p: usize = 0;
        while p < n
            invariant
                entries == di.entries@,
                units == di.units@,
                wf_debug_info(entries, units),
                n == entries.len(),
                0 <= popped < n,
                i as int == popped,
                p <= n,
                m@.len() == n,
                m@[popped],
                reaches(entries, units, at@, popped),
                forall|j: int| 0 <= j < n && m0[j] ==> m@[j],
                forall|kk: int| 0 <= kk < stack@.len()
                    ==> #[trigger] stack@[kk] < n && m@[stack@[kk] as int],
                forall|j: int| 0 <= j < n && m@[j]
                    ==> #[trigger] reaches(entries, units, at@, j),
                forall|j: int| is_root(entries, units, at@, j) ==> m@[j],
                forall|j: int| 0 <= j < n && m@[j] && !stack@.contains(j as usize) && j != popped
                    ==> #[trigger] closed_node(entries, m@, j),
                forall|k2: int| 0 <= k2 < entries[popped].attrs@.len()
                    && (#[trigger] entries[popped].attrs@[k2]).value is Ref
                    ==> m@[entries[popped].attrs@[k2].value->Ref_0 as int],
                forall|p2: int| 0 <= p2 < p
                    && (#[trigger] entries[p2]).children@.contains(popped as usize)
                    ==> m@[p2],
                count_marked(m@, n as int) >= count0
                    + if stack@.len() > stack0.len() - 1 { 1int } else { 0int },
                stack@.len() >= stack0.len() - 1,
            decreases n - p,
        {
            if contains_usize(&di.entries[p].children, i) {
                if !m[p] {
                    proof {
                        assert(edge(entries, popped, p as int));
                        lemma_reaches_step(entries, units, at@, popped, p as int);
                        lemma_count_update(m@, p as int, n as int);
                    }
                    let ghost m_prev = m@;
                    let ghost stack_prev = stack@;
                    m.set(p, true);
                    stack.push(p);
                    proof {
                        assert forall|j: int| 0 <= j < n && m@[j]
                            && !stack@.contains(j as usize) && j != popped
                            implies #[trigger] closed_node(entries, m@, j) by {
                            if j == p as int {
                                assert(stack@[stack@.len() - 1] == p);
                                assert(false);
                            } else {
                                assert(m_prev[j]);
                                if stack_prev.contains(j as usize) {
                                    let kk = choose|kk: int|
                                        0 <= kk < stack_prev.len()
                                            && stack_prev[kk] == j as usize;
                                    assert(stack@[kk] == j as usize);
                                    assert(false);
                                }
                                assert(closed_node(entries, m_prev, j));
                                assert forall|j2: int| #[trigger] edge(entries, j, j2)
                                    implies m@[j2] by {
                                    assert(m_prev[j2]);
                                }
                            }
                        }
                    }
                }
            }
            p = p + 1;
        }

        proof {
            assert forall|j: int| #[trigger] edge(entries, popped, j) implies m@[j] by {
                if ref_edge(entries, popped, j) {
                    let k2 = choose|k2: int| 0 <= k2 < entries[popped].attrs@.len()
                        && (#[trigger] entries[popped].attrs@[k2]).value is Ref
                        && entries[popped].attrs@[k2].value->Ref_0 == j;
                    assert(m@[j]);
                } else {
                    assert(entries[j].children@.contains(popped as usize));
                }
            }
            assert(closed_node(entries, m@, popped));
            lemma_count_bounds(m@, n as int);
            if stack@.len() <= stack0.len() - 1 {
                assert(stack@.len() == stack0.len() - 1);
            }
        }
    }

    proof {
        assert forall|i: int| 0 <= i < n
            implies m@[i] == reaches(entries, units, at@, i) by {
            if m@[i] {
                assert(reaches(entries, units, at@, i));
            } else {
                if reaches(entries, units, at@, i) {
                    let p = choose|p: Seq<int>|
                        #[trigger] is_path(entries, p) && p.len() > 0
                            && is_root(entries, units, at@, p[0]) && p.last() == i;
                    lemma_path_marked(entries, units, at@, m@, p);
                }
            }
        }
    }
    m
}

} // verus!
