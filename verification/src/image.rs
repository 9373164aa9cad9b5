//! Loadable-image synthesis: patches an object-file byte buffer produced by
//! an external object builder into a directly loadable image anchored at a
//! live code address.
//!
//! The buffer is validated first (fixed bit-width and endianness marker,
//! empty program-header table, expected header and section-entry sizes) and
//! its section headers are scanned read-only; only then is it patched: the
//! combined text section gets the live code address as its virtual address,
//! its name is truncated to the conventional short form, one loadable
//! segment record is appended, and the container header is finalized.

use vstd::prelude::*;

verus! {

/// Little-endian 16-bit field at `off`.
pub open spec fn le16(b: Seq<u8>, off: int) -> int {
    b[off] + 0x100 * b[off + 1]
}

/// Little-endian 32-bit field at `off`.
pub open spec fn le32(b: Seq<u8>, off: int) -> int {
    b[off] + 0x100 * b[off + 1] + 0x1_0000 * b[off + 2] + 0x100_0000 * b[off + 3]
}

/// Little-endian 64-bit field at `off`.
pub open spec fn le64(b: Seq<u8>, off: int) -> int {
    b[off] + 0x100 * b[off + 1] + 0x1_0000 * b[off + 2] + 0x100_0000 * b[off + 3]
        + 0x1_0000_0000 * b[off + 4] + 0x100_0000_0000 * b[off + 5]
        + 0x1_0000_0000_0000 * b[off + 6] + 0x100_0000_0000_0000 * b[off + 7]
}

/// The buffer with a 16-bit little-endian field stored at `off`.
pub open spec fn store_le16(b: Seq<u8>, off: int, v: u64) -> Seq<u8> {
    b.update(off, (v % 0x100) as u8).update(off + 1, ((v / 0x100) % 0x100) as u8)
}

/// The buffer with a 32-bit little-endian field stored at `off`.
pub open spec fn store_le32(b: Seq<u8>, off: int, v: u64) -> Seq<u8> {
    b.update(off, (v % 0x100) as u8)
        .update(off + 1, ((v / 0x100) % 0x100) as u8)
        .update(off + 2, ((v / 0x1_0000) % 0x100) as u8)
        .update(off + 3, ((v / 0x100_0000) % 0x100) as u8)
}

/// The buffer with a 64-bit little-endian field stored at `off`.
pub open spec fn store_le64(b: Seq<u8>, off: int, v: u64) -> Seq<u8> {
    b.update(off, (v % 0x100) as u8)
        .update(off + 1, ((v / 0x100) % 0x100) as u8)
        .update(off + 2, ((v / 0x1_0000) % 0x100) as u8)
        .update(off + 3, ((v / 0x100_0000) % 0x100) as u8)
        .update(off + 4, ((v / 0x1_0000_0000) % 0x100) as u8)
        .update(off + 5, ((v / 0x100_0000_0000) % 0x100) as u8)
        .update(off + 6, ((v / 0x1_0000_0000_0000) % 0x100) as u8)
        .update(off + 7, ((v / 0x100_0000_0000_0000) % 0x100) as u8)
}

/// Read a little-endian 16-bit field.
fn read_u16(b: &Vec<u8>, off: usize) -> (r: u16)
    requires
        off + 2 <= b@.len(),
    ensures
        r as int == le16(b@, off as int),
{
    let n = b.len();
    assert(off + 2 <= n);
    b[off] as u16 + 0x100 * (b[off + 1] as u16)
}

/// Read a little-endian 32-bit field.
fn read_u32(b: &Vec<u8>, off: usize) -> (r: u32)
    requires
        off + 4 <= b@.len(),
    ensures
        r as int == le32(b@, off as int),
{
    let n = b.len();
    assert(off + 4 <= n);
    b[off] as u32 + 0x100 * (b[off + 1] as u32) + 0x1_0000 * (b[off + 2] as u32)
        + 0x100_0000 * (b[off + 3] as u32)
}

/// Read a little-endian 64-bit field.
fn read_u64(b: &Vec<u8>, off: usize) -> (r: u64)
    requires
        off + 8 <= b@.len(),
    ensures
        r as int == le64(b@, off as int),
{
    let n = b.len();
    assert(off + 8 <= n);
    b[off] as u64 + 0x100 * (b[off + 1] as u64) + 0x1_0000 * (b[off + 2] as u64)
        + 0x100_0000 * (b[off + 3] as u64) + 0x1_0000_0000 * (b[off + 4] as u64)
        + 0x100_0000_0000 * (b[off + 5] as u64) + 0x1_0000_0000_0000 * (b[off + 6] as u64)
        + 0x100_0000_0000_0000 * (b[off + 7] as u64)
}

/// Store a little-endian 16-bit field in place.
fn write_u16(b: &mut Vec<u8>, off: usize, v: u16)
    requires
        off + 2 <= old(b)@.len(),
    ensures
        final(b)@ == store_le16(old(b)@, off as int, v as u64),
{
    let n = b.len();
    assert(off + 2 <= n);
    b.set(off, (v % 0x100) as u8);
    b.set(off + 1, ((v / 0x100) % 0x100) as u8);
}

/// Store a little-endian 32-bit field in place.
fn write_u32(b: &mut Vec<u8>, off: usize, v: u32)
    requires
        off + 4 <= old(b)@.len(),
    ensures
        final(b)@ == store_le32(old(b)@, off as int, v as u64),
{
    let n = b.len();
    assert(off + 4 <= n);
    b.set(off, (v % 0x100) as u8);
    b.set(off + 1, ((v / 0x100) % 0x100) as u8);
    b.set(off + 2, ((v / 0x1_0000) % 0x100) as u8);
    b.set(off + 3, ((v / 0x100_0000) % 0x100) as u8);
}

/// Store a little-endian 64-bit field in place.
fn write_u64(b: &mut Vec<u8>, off: usize, v: u64)
    requires
        off + 8 <= old(b)@.len(),
    ensures
        final(b)@ == store_le64(old(b)@, off as int, v as u64),
{
    let n = b.len();
    assert(off + 8 <= n);
    b.set(off, (v % 0x100) as u8);
    b.set(off + 1, ((v / 0x100) % 0x100) as u8);
    b.set(off + 2, ((v / 0x1_0000) % 0x100) as u8);
    b.set(off + 3, ((v / 0x100_0000) % 0x100) as u8);
    b.set(off + 4, ((v / 0x1_0000_0000) % 0x100) as u8);
    b.set(off + 5, ((v / 0x100_0000_0000) % 0x100) as u8);
    b.set(off + 6, ((v / 0x1_0000_0000_0000) % 0x100) as u8);
    b.set(off + 7, ((v / 0x100_0000_0000_0000) % 0x100) as u8);
}

/// The section-header table offset of the container.
pub open spec fn spec_shoff(b: Seq<u8>) -> int {
    le64(b, 0x28)
}

/// The number of section headers of the container.
pub open spec fn spec_shnum(b: Seq<u8>) -> int {
    le16(b, 0x3C)
}

/// The fixed-layout checks on the container header: 64-bit little-endian
/// marker, empty program-header table, expected header and section-entry
/// sizes, and a section-header table that lies within the buffer.
pub open spec fn image_header_ok(b: Seq<u8>) -> bool {
    &&& b.len() >= 0x40
    &&& b[4] == 2
    &&& b[5] == 1
    &&& le64(b, 0x20) == 0
    &&& le16(b, 0x38) == 0
    &&& le16(b, 0x36) == 0x38
    &&& le16(b, 0x3A) == 0x40
    &&& spec_shoff(b) + spec_shnum(b) * 0x40 <= b.len()
}

/// The name at string-table position `npos` is exactly the combined text
/// section's synthetic name, NUL-terminated.
pub open spec fn name_is_text_all(b: Seq<u8>, npos: int) -> bool {
    &&& 0 <= npos
    &&& npos + 10 <= b.len()
    &&& b[npos] == 0x2eu8
    &&& b[npos + 1] == 0x74u8
    &&& b[npos + 2] == 0x65u8
    &&& b[npos + 3] == 0x78u8
    &&& b[npos + 4] == 0x74u8
    &&& b[npos + 5] == 0x2eu8
    &&& b[npos + 6] == 0x61u8
    &&& b[npos + 7] == 0x6cu8
    &&& b[npos + 8] == 0x6cu8
    &&& b[npos + 9] == 0u8
}

/// Read-only scan of the section headers from index `i` on, carrying the
/// string-table offset taken from the symbol-table section and the combined
/// text section found so far (its header offset and name position).
/// `None` means the scan failed: two sections carry the text section's name.
pub open spec fn scan_sections(
    b: Seq<u8>,
    shoff: int,
    n: int,
    i: int,
    strtab: int,
    found: Option<(int, int)>,
) -> Option<Option<(int, int)>>
    decreases n - i,
{
    if i >= n {
        Some(found)
    } else {
        let off = shoff + i * 0x40;
        let ty = le32(b, off + 4);
        if ty == 3 {
            scan_sections(b, shoff, n, i + 1, le64(b, off + 0x18), found)
        } else if ty == 1 {
            let npos = strtab + le32(b, off);
            if name_is_text_all(b, npos) {
                if found is Some {
                    None
                } else {
                    scan_sections(b, shoff, n, i + 1, strtab, Some((off, npos)))
                }
            } else {
                scan_sections(b, shoff, n, i + 1, strtab, found)
            }
        } else {
            scan_sections(b, shoff, n, i + 1, strtab, found)
        }
    }
}

/// The whole scan, from the first section header.
pub open spec fn spec_scan(b: Seq<u8>) -> Option<Option<(int, int)>> {
    scan_sections(b, spec_shoff(b), spec_shnum(b), 0, 0, None::<(int, int)>)
}

/// The precondition of image synthesis: the fixed layout holds, the scan
/// finds exactly one combined text section, and the appended segment record
/// still fits in a buffer.
pub open spec fn image_precondition(b: Seq<u8>) -> bool {
    &&& image_header_ok(b)
    &&& spec_scan(b) matches Some(Some(_))
    &&& b.len() + 0x38 <= usize::MAX
}

/// The patched image: the text section's virtual address set to the live
/// code address, its name truncated, one loadable segment record appended,
/// and the header finalized to the shared-object kind with the new
/// program-header table. Meaningful only under [`image_precondition`];
/// otherwise the buffer is left as it is.
pub open spec fn patched_image(b: Seq<u8>, code_ptr: u64) -> Seq<u8> {
    if image_precondition(b) {
        let (hoff, npos) = spec_scan(b)->Some_0->Some_0;
        let sh_offset = le64(b, hoff + 0x18);
        let sh_size = le64(b, hoff + 0x20);
        let ph_off = b.len() as int;
        let b1 = store_le64(b, hoff + 0x10, code_ptr);
        let b2 = b1.update(npos + 5, 0u8);
        let b3 = b2 + Seq::new(0x38, |k: int| 0u8);
        let b4 = store_le32(b3, ph_off, 1);
        let b5 = store_le64(b4, ph_off + 0x8, sh_offset as u64);
        let b6 = store_le64(b5, ph_off + 0x10, code_ptr);
        let b7 = store_le64(b6, ph_off + 0x18, code_ptr);
        let b8 = store_le64(b7, ph_off + 0x20, sh_size as u64);
        let b9 = store_le64(b8, ph_off + 0x28, sh_size as u64);
        let b10 = store_le16(b9, 0x10, 3);
        let b11 = store_le64(b10, 0x20, ph_off as u64);
        store_le16(b11, 0x38, 1)
    } else {
        b
    }
}

/// Check whether the name at `npos` (if in bounds) is the synthetic
/// combined text-section name.
fn check_text_all_name(b: &Vec<u8>, npos: usize) -> (r: bool)
    ensures
        r == name_is_text_all(b@, npos as int),
{
    if npos > b.len() || b.len() - npos < 10 {
        return false;
    }
    b[npos] == 0x2eu8 && b[npos + 1] == 0x74u8 && b[npos + 2] == 0x65u8 && b[npos + 3] == 0x78u8
        && b[npos + 4] == 0x74u8 && b[npos + 5] == 0x2eu8 && b[npos + 6] == 0x61u8
        && b[npos + 7] == 0x6cu8 && b[npos + 8] == 0x6cu8 && b[npos + 9] == 0u8
}

/// Patch the object-file buffer into a directly loadable image anchored at
/// `code_ptr`. Returns whether the buffer met the layout precondition; a
/// buffer that does not is left untouched, and no output is produced.
pub fn convert_to_loadable_file(bytes: &mut Vec<u8>, code_ptr: u64) -> (ok: bool)
    ensures
        ok == image_precondition(old(bytes)@),
        final(bytes)@ == patched_image(old(bytes)@, code_ptr),
{
    if bytes.len() < 0x40 {
        return false;
    }
    if !(bytes[4] == 2 && bytes[5] == 1) {
        return false;
    }
    if !(read_u64(bytes, 0x20) == 0 && read_u16(bytes, 0x38) == 0) {
        return false;
    }
    if read_u16(bytes, 0x36) != 0x38 {
        return false;
    }
    if read_u16(bytes, 0x3A) != 0x40 {
        return false;
    }
    let shoff = read_u64(bytes, 0x28);
    let shnum = read_u16(bytes, 0x3C);
    let table = (shnum as usize) * 0x40;
    if shoff > bytes.len() as u64 || table as u64 > bytes.len() as u64 - shoff {
        return false;
    }
    if bytes.len() > usize::MAX - 0x38 {
        return false;
    }
    let shoff_us = shoff as usize;
    let n = shnum as usize;
    let blen = bytes.len();
    assert(shoff_us + n * 0x40 <= blen);

    let mut i: usize = 0;
    let mut strtab: u64 = 0;
    let mut found: Option<(usize, usize)> = None;
    let ghost b0 = bytes@;
    while i < n
        invariant
            i <= n,
            bytes@ == b0,
            b0.len() == blen,
            b0.len() >= 0x40,
            shoff_us as int == spec_shoff(b0),
            n as int == spec_shnum(b0),
            shoff_us + n * 0x40 <= b0.len(),
            match found {
                Some((h, np)) => {
                    &&& h + 0x40 <= b0.len()
                    &&& name_is_text_all(b0, np as int)
                },
                None => true,
            },
            scan_sections(
                b0,
                shoff_us as int,
                n as int,
                i as int,
                strtab as int,
                match found {
                    Some((h, np)) => Some((h as int, np as int)),
                    None => None,
                },
            ) == spec_scan(b0),
        decreases n - i,
    {
        let off = shoff_us + i * 0x40;
        assert(off + 0x40 <= b0.len());
        let ty = read_u32(bytes, off + 4);
        if ty == 3 {
            strtab = read_u64(bytes, off + 0x18);
        } else if ty == 1 {
            let noff = read_u32(bytes, off);
            let npos_ok =
                strtab <= bytes.len() as u64 && noff as u64 <= bytes.len() as u64 - strtab;
            if npos_ok {
                let npos = (strtab + noff as u64) as usize;
                if check_text_all_name(bytes, npos) {
                    if found.is_some() {
                        // Two sections carry the synthetic text name: the
                        // layout assumption is broken.
                        assert(spec_scan(b0) is None);
                        return false;
                    }
                    found = Some((off, npos));
                } else {
                    assert(!name_is_text_all(b0, strtab as int + le32(b0, off as int)));
                }
            } else {
                // The name position lies past the buffer, so it cannot be
                // the NUL-terminated text-section name.
                assert(strtab as int + le32(b0, off as int) + 10 > b0.len());
                assert(!name_is_text_all(b0, strtab as int + le32(b0, off as int)));
            }
        }
        i = i + 1;
    }
    let (hoff, npos) = match found {
        Some(f) => f,
        None => {
            // No combined text section: the scan yields nothing to patch.
            assert(spec_scan(b0) == Some(None::<(int, int)>));
            return false;
        },
    };
    assert(spec_scan(b0) == Some(Some((hoff as int, npos as int))));
    assert(image_precondition(b0));

    let sh_offset = read_u64(bytes, hoff + 0x18);
    let sh_size = read_u64(bytes, hoff + 0x20);
    write_u64(bytes, hoff + 0x10, code_ptr);
    bytes.set(npos + 5, 0u8);
    let ph_off = bytes.len();
    let mut k: usize = 0;
    let ghost b2 = bytes@;
    while k < 0x38
        invariant
            k <= 0x38,
            bytes@ == b2 + Seq::new(k as nat, |j: int| 0u8),
        decreases 0x38 - k,
    {
        bytes.push(0u8);
        proof {
            assert(bytes@ =~= b2 + Seq::new((k + 1) as nat, |j: int| 0u8));
        }
        k = k + 1;
    }
    write_u32(bytes, ph_off, 1);
    write_u64(bytes, ph_off + 0x8, sh_offset);
    write_u64(bytes, ph_off + 0x10, code_ptr);
    write_u64(bytes, ph_off + 0x18, code_ptr);
    write_u64(bytes, ph_off + 0x20, sh_size);
    write_u64(bytes, ph_off + 0x28, sh_size);
    write_u16(bytes, 0x10, 3);
    write_u64(bytes, 0x20, ph_off as u64);
    write_u16(bytes, 0x38, 1);
    assert(bytes@ == patched_image(b0, code_ptr));
    true
}

/// Image synthesis is deterministic: the patched image is a function of the
/// input buffer and the code address alone, so identical inputs always give
/// a bit-identical output.
pub proof fn lemma_image_synthesis_deterministic(b1: Seq<u8>, b2: Seq<u8>, p1: u64, p2: u64)
    requires
        b1 == b2,
        p1 == p2,
    ensures
        patched_image(b1, p1) == patched_image(b2, p2),
{
}

} // verus!
