//! Emission-side helpers: the caller-supplied symbol-resolver capability,
//! the two resolvers used for relocation-name and physical-address
//! emission, and the code-region computation for image synthesis.

use vstd::prelude::*;

verus! {

/// What a symbol resolves to: a textual relocation target (resolved later
/// by a linker) or a concrete physical address (used directly, with no
/// linking phase).
pub enum ResolvedSymbol {
    /// Resolve later by name, with an addend.
    Reloc {
        /// The relocation target's name.
        name: String,
        /// The addend to apply.
        addend: i64,
    },
    /// An already-resolved physical address.
    PhysicalAddress(u64),
}

/// The caller-supplied capability that resolves abstract symbol ids; the
/// transform is agnostic to which variant a caller's implementation
/// returns.
pub trait SymbolResolver {
    /// Resolve one symbol id with an addend.
    fn resolve_symbol(&self, symbol: usize, addend: i64) -> ResolvedSymbol;
}

/// The digit character of one decimal digit.
pub open spec fn digit_char(d: u64) -> char {
    if d == 0 {
        '0'
    } else if d == 1 {
        '1'
    } else if d == 2 {
        '2'
    } else if d == 3 {
        '3'
    } else if d == 4 {
        '4'
    } else if d == 5 {
        '5'
    } else if d == 6 {
        '6'
    } else if d == 7 {
        '7'
    } else if d == 8 {
        '8'
    } else {
        '9'
    }
}

/// The decimal digits of `n`, most significant first, with no leading
/// zeros (a lone zero for zero).
pub open spec fn decimal_digits(n: u64) -> Seq<char>
    decreases n,
{
    if n < 10 {
        seq![digit_char(n)]
    } else {
        decimal_digits(n / 10).push(digit_char(n % 10))
    }
}

/// Relies on std's formatting to render an unsigned integer in decimal:
/// most significant digit first, no sign, no leading zeros.
#[verifier::external_body]
fn decimal_string(n: u64) -> (r: String)
    ensures
        r@ == decimal_digits(n),
{
    format!("{}", n)
}

/// Resolves symbols to relocation names for section emission into an
/// object file: function `i` becomes a named relocation target.
pub struct FunctionRelocResolver {}

impl SymbolResolver for FunctionRelocResolver {
    fn resolve_symbol(&self, symbol: usize, addend: i64) -> (r: ResolvedSymbol)
        ensures
            r matches ResolvedSymbol::Reloc { name, addend: a }
                && name@ == "_wasm_function_"@ + decimal_digits(symbol as u64)
                && a == addend,
    {
        let digits = decimal_string(symbol as u64);
        let mut name: String = "_wasm_function_".to_owned();
        name.append(digits.as_str());
        ResolvedSymbol::Reloc { name, addend }
    }
}

/// Resolves symbols to physical addresses for image emission: function
/// `i` starts at the caller-supplied offset `func_offsets[i]`.
pub struct ImageRelocResolver {
    /// The start address of each function's body, by dense index.
    pub func_offsets: Vec<u64>,
}

/// The 64-bit wrap-around sum of a base address and a signed addend.
pub open spec fn wrap_add64(base: u64, addend: i64) -> int {
    let v = base + addend;
    if v < 0 {
        v + 0x1_0000_0000_0000_0000
    } else if v >= 0x1_0000_0000_0000_0000 {
        v - 0x1_0000_0000_0000_0000
    } else {
        v
    }
}

/// Add a signed addend to an address, wrapping around the 64-bit range.
fn wrap_add_offset(base: u64, addend: i64) -> (r: u64)
    ensures
        r as int == wrap_add64(base, addend),
{
    if addend >= 0 {
        let a = addend as u64;
        if base <= u64::MAX - a {
            base + a
        } else {
            base - (u64::MAX - a) - 1
        }
    } else {
        let m = ((-(addend + 1)) as u64) + 1;
        if base >= m {
            base - m
        } else {
            base + (u64::MAX - m) + 1
        }
    }
}

impl SymbolResolver for ImageRelocResolver {
    fn resolve_symbol(&self, symbol: usize, addend: i64) -> (r: ResolvedSymbol)
        ensures
            symbol < self.func_offsets@.len() ==> (r matches ResolvedSymbol::PhysicalAddress(p)
                && p as int == wrap_add64(self.func_offsets@[symbol as int], addend)),
            symbol >= self.func_offsets@.len()
                ==> r == ResolvedSymbol::PhysicalAddress(0u64),
    {
        if symbol < self.func_offsets.len() {
            let base = self.func_offsets[symbol];
            ResolvedSymbol::PhysicalAddress(wrap_add_offset(base, addend))
        } else {
            ResolvedSymbol::PhysicalAddress(0)
        }
    }
}

/// The lowest body address among the first `i` functions.
pub open spec fn region_lo(funcs: Seq<(u64, usize)>, i: int) -> int
    decreases i,
{
    if i <= 1 {
        funcs[0].0 as int
    } else if funcs[i - 1].0 < region_lo(funcs, i - 1) {
        funcs[i - 1].0 as int
    } else {
        region_lo(funcs, i - 1)
    }
}

/// The highest body end among the first `i` functions.
pub open spec fn region_hi(funcs: Seq<(u64, usize)>, i: int) -> int
    decreases i,
{
    if i <= 1 {
        funcs[0].0 + funcs[0].1
    } else if funcs[i - 1].0 + funcs[i - 1].1 > region_hi(funcs, i - 1) {
        funcs[i - 1].0 + funcs[i - 1].1
    } else {
        region_hi(funcs, i - 1)
    }
}

/// The contiguous region holding all the function bodies: from the lowest
/// body address to the highest body end.
pub fn code_region(funcs: &Vec<(u64, usize)>) -> (r: (u64, u64))
    requires
        funcs@.len() > 0,
        forall|i: int| 0 <= i < funcs@.len()
            ==> (#[trigger] funcs@[i]).0 + funcs@[i].1 <= u64::MAX,
    ensures
        r.0 == region_lo(funcs@, funcs@.len() as int),
        r.1 == region_hi(funcs@, funcs@.len() as int),
        r.0 <= r.1,
{
    let (p0, l0) = funcs[0];
    let mut lo: u64 = p0;
    let mut hi: u64 = p0 + (l0 as u64);
    let mut i: usize = 1;
    while i < funcs.len()
        invariant
            1 <= i <= funcs@.len(),
            funcs@.len() > 0,
            forall|k: int| 0 <= k < funcs@.len()
                ==> (#[trigger] funcs@[k]).0 + funcs@[k].1 <= u64::MAX,
            lo == region_lo(funcs@, i as int),
            hi == region_hi(funcs@, i as int),
            lo <= hi,
        decreases funcs@.len() - i,
    {
        let (p, l) = funcs[i];
        let end = p + (l as u64);
        if p < lo {
            lo = p;
        }
        if end > hi {
            hi = end;
        }
        i = i + 1;
    }
    (lo, hi)
}

/// For two contiguous function bodies the region starts at the first body
/// and its size is the sum of the two body lengths, so the synthesized
/// image's load segment gets that size and the lower pointer as its
/// virtual address.
pub proof fn lemma_region_two_contiguous(p1: u64, l1: usize, p2: u64, l2: usize)
    requires
        p2 == p1 + l1,
        p1 + l1 + l2 <= u64::MAX,
    ensures
        region_lo(seq![(p1, l1), (p2, l2)], 2) == p1,
        region_hi(seq![(p1, l1), (p2, l2)], 2) - region_lo(seq![(p1, l1), (p2, l2)], 2)
            == l1 + l2,
{
    let s = seq![(p1, l1), (p2, l2)];
    assert(s[0] == (p1, l1));
    assert(s[1] == (p2, l2));
    assert(region_lo(s, 1) == p1 as int);
    assert(region_hi(s, 1) == p1 + l1);
}

} // verus!
