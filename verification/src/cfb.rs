//! Compound File Binary (CFB/OLE2) container reader.
//!
//! The reader parses the sector-based container format used by legacy
//! Outlook `.msg` files and older Office documents: header, FAT (with the
//! DIFAT indirection for large files), MiniFAT, directory tree and streams.
//! Parsing is bounds-checked everywhere; a `Lenient` mode additionally
//! recovers files whose trailing FAT sectors were truncated by the producer,
//! padding the missing entries with the end-of-chain marker.

use vstd::prelude::*;

use crate::reader::{le_u16_at, le_u32_at, le_u64_at, spec_le_u16, spec_le_u32, spec_le_u64,
    starts_with, spec_starts_with};

verus! {

/// End-of-chain marker in a FAT or MiniFAT chain.
pub const END_OF_CHAIN: u32 = 0xFFFF_FFFE;

/// Marks an unallocated FAT entry or an unused DIFAT slot.
pub const FREE_SECT: u32 = 0xFFFF_FFFF;

/// Largest sector number that refers to an actual sector.
pub const MAX_REG_SECT: u32 = 0xFFFF_FFFA;

/// "No node" marker in the directory tree's sibling/child links.
pub const NO_STREAM: u32 = 0xFFFF_FFFF;

/// How strictly the reader treats a sector table that runs past the end of
/// the buffer.
#[derive(Clone, Copy, Debug, PartialEq, Eq, Structural)]
pub enum CfbMode {
    /// Any FAT sector outside the buffer is a structural error.
    Strict,
    /// FAT sectors outside the buffer are replaced by end-of-chain entries,
    /// recovering truncated-but-otherwise-valid files.
    Lenient,
}

/// Structural failures of the container.
#[derive(Clone, Copy, Debug, PartialEq, Eq, Structural)]
pub enum CfbError {
    /// The buffer does not begin with the compound-file magic bytes.
    InvalidSignature,
    /// A sector chain has a cycle, leaves the valid sector range, or the
    /// directory tree is malformed.
    CorruptChain,
    /// A declared size reaches past the bytes that are actually present.
    TruncatedData,
    /// The sector-size exponents are outside the supported range.
    UnsupportedSectorSize,
}

/// The fixed-size header fields the reader uses.
#[derive(Clone, Copy, Debug, PartialEq, Eq, Structural)]
pub struct CfbHeader {
    /// Sector size is `1 << sector_shift` bytes.
    pub sector_shift: u16,
    /// Mini-sector size is `1 << mini_shift` bytes.
    pub mini_shift: u16,
    /// Number of FAT sectors the file declares.
    pub num_fat_sectors: u32,
    /// First sector of the directory chain.
    pub first_dir_sector: u32,
    /// Streams smaller than this live in the mini stream.
    pub mini_cutoff: u32,
    /// First sector of the MiniFAT chain.
    pub first_minifat_sector: u32,
    /// First DIFAT sector, for files with more than 109 FAT sectors.
    pub first_difat_sector: u32,
    /// Number of DIFAT sectors the file declares.
    pub num_difat_sectors: u32,
}

/// The magic bytes every compound file starts with.
pub open spec fn spec_magic() -> Seq<u8> {
    seq![0xD0u8, 0xCFu8, 0x11u8, 0xE0u8, 0xA1u8, 0xB1u8, 0x1Au8, 0xE1u8]
}

/// Byte size of a sector under the given shift.
pub open spec fn spec_sector_size(shift: u16) -> int {
    (1u64 << (shift as u64)) as int
}

/// Byte offset where sector `s` starts: sector 0 follows the 512-byte header.
pub open spec fn spec_sector_off(s: u32, shift: u16) -> int {
    512 + (s as int) * spec_sector_size(shift)
}

/// What header parsing yields on the given bytes: the signature must match,
/// the whole 512-byte header must be present, and the two sector-size
/// exponents must be in the supported range.
pub open spec fn spec_parse_header(b: Seq<u8>) -> Result<CfbHeader, CfbError> {
    if b.len() < 16 || !spec_starts_with(b, spec_magic()) {
        Err(CfbError::InvalidSignature)
    } else if b.len() < 512 {
        Err(CfbError::TruncatedData)
    } else {
        let sector_shift = spec_le_u16(b, 30);
        let mini_shift = spec_le_u16(b, 32);
        if !(9 <= sector_shift <= 12 && 4 <= mini_shift && mini_shift < sector_shift) {
            Err(CfbError::UnsupportedSectorSize)
        } else {
            Ok(CfbHeader {
                sector_shift,
                mini_shift,
                num_fat_sectors: spec_le_u32(b, 44),
                first_dir_sector: spec_le_u32(b, 48),
                mini_cutoff: spec_le_u32(b, 56),
                first_minifat_sector: spec_le_u32(b, 60),
                first_difat_sector: spec_le_u32(b, 68),
                num_difat_sectors: spec_le_u32(b, 72),
            })
        }
    }
}

/// Parses and validates the container header.
pub fn parse_header(b: &[u8]) -> (r: Result<CfbHeader, CfbError>)
    ensures
        r == spec_parse_header(b@),
{
    let magic: [u8; 8] = [0xD0, 0xCF, 0x11, 0xE0, 0xA1, 0xB1, 0x1A, 0xE1];
    if b.len() < 16 || !starts_with(b, magic.as_slice()) {
        proof {
            assert(magic@ =~= spec_magic());
        }
        return Err(CfbError::InvalidSignature);
    }
    proof {
        assert(magic@ =~= spec_magic());
    }
    if b.len() < 512 {
        return Err(CfbError::TruncatedData);
    }
    let sector_shift = le_u16_at(b, 30);
    let mini_shift = le_u16_at(b, 32);
    if !(9 <= sector_shift && sector_shift <= 12 && 4 <= mini_shift && mini_shift < sector_shift) {
        return Err(CfbError::UnsupportedSectorSize);
    }
    Ok(CfbHeader {
        sector_shift,
        mini_shift,
        num_fat_sectors: le_u32_at(b, 44),
        first_dir_sector: le_u32_at(b, 48),
        mini_cutoff: le_u32_at(b, 56),
        first_minifat_sector: le_u32_at(b, 60),
        first_difat_sector: le_u32_at(b, 68),
        num_difat_sectors: le_u32_at(b, 72),
    })
}

/// The `n` little-endian `u32` values starting at byte `off`.
pub open spec fn spec_u32s_at(b: Seq<u8>, off: int, n: int) -> Seq<u32> {
    Seq::new(n as nat, |i: int| spec_le_u32(b, off + 4 * i))
}

/// Reads `n` little-endian `u32` values starting at byte `off`.
pub fn read_u32s_at(b: &[u8], off: usize, n: usize) -> (r: Vec<u32>)
    requires
        off + 4 * n <= b@.len(),
    ensures
        r@ == spec_u32s_at(b@, off as int, n as int),
{
    let len = b.len();
    let mut out: Vec<u32> = Vec::new();
    let mut i: usize = 0;
    while i < n
        invariant
            off + 4 * n <= len == b@.len(),
            i <= n,
            out@.len() == i,
            forall|j: int| 0 <= j < i ==> out@[j] == spec_le_u32(b@, off + 4 * j),
        decreases n - i,
    {
        out.push(le_u32_at(b, off + 4 * i));
        i = i + 1;
    }
    assert(out@ =~= spec_u32s_at(b@, off as int, n as int));
    out
}

} // verus!

verus! {

/// Keeps only the entries that name a real sector, dropping free-slot and
/// other special markers.
pub open spec fn spec_reg_only(s: Seq<u32>) -> Seq<u32>
    decreases s.len(),
{
    if s.len() == 0 {
        Seq::empty()
    } else {
        (if s[0] <= MAX_REG_SECT {
            seq![s[0]]
        } else {
            Seq::<u32>::empty()
        }) + spec_reg_only(s.drop_first())
    }
}

/// Filters a `u32` list down to real sector numbers.
pub fn reg_only(s: &Vec<u32>) -> (r: Vec<u32>)
    ensures
        r@ == spec_reg_only(s@),
{
    let n = s.len();
    let mut out: Vec<u32> = Vec::new();
    let mut i: usize = 0;
    assert(s@.skip(0) =~= s@);
    assert(Seq::<u32>::empty() + spec_reg_only(s@) =~= spec_reg_only(s@));
    while i < n
        invariant
            n == s@.len(),
            i <= n,
            spec_reg_only(s@) == out@ + spec_reg_only(s@.skip(i as int)),
        decreases n - i,
    {
        proof {
            assert(s@.skip(i as int)[0] == s@[i as int]);
            assert(s@.skip(i as int).drop_first() =~= s@.skip(i + 1));
        }
        if s[i] <= MAX_REG_SECT {
            out.push(s[i]);
        }
        i = i + 1;
    }
    assert(s@.skip(n as int) =~= Seq::<u32>::empty());
    assert(out@ =~= out@ + spec_reg_only(s@.skip(n as int)));
    out
}

/// Sector size in bytes for a supported shift.
pub fn sector_size_of(shift: u16) -> (r: usize)
    requires
        9 <= shift <= 12,
    ensures
        r as int == spec_sector_size(shift),
        512 <= r <= 4096,
{
    proof {
        assert(9 <= shift <= 12 ==> (1u64 << (shift as u64)) == if shift == 9 {
            512u64
        } else if shift == 10 {
            1024u64
        } else if shift == 11 {
            2048u64
        } else {
            4096u64
        }) by (bit_vector);
    }
    if shift == 9 {
        512
    } else if shift == 10 {
        1024
    } else if shift == 11 {
        2048
    } else {
        4096
    }
}

/// The byte offset of sector `s`, computed without overflow.
pub fn sector_off_of(s: u32, ss: usize) -> (r: u64)
    requires
        512 <= ss <= 4096,
    ensures
        r as int == 512 + (s as int) * (ss as int),
        r <= 512 + 0xFFFF_FFFF * 4096,
{
    proof {
        vstd::arithmetic::mul::lemma_mul_upper_bound(
            s as int,
            0xFFFF_FFFFint,
            ss as int,
            4096int,
        );
    }
    512u64 + (s as u64) * (ss as u64)
}

/// One step of the DIFAT walk: the location entries held by DIFAT sector at
/// byte offset `off`, excluding the trailing next-sector pointer.
pub open spec fn spec_difat_entries(b: Seq<u8>, off: int, ss: int) -> Seq<u32> {
    spec_u32s_at(b, off, ss / 4 - 1)
}

/// The FAT-sector locations contributed by the DIFAT chain starting at
/// `first`, walking at most `fuel` sectors.  In `Lenient` mode a DIFAT
/// sector outside the buffer ends the walk; in `Strict` mode it is an
/// error.  A walk that exceeds `fuel` is a cycle.
pub open spec fn spec_difat_chain(
    b: Seq<u8>,
    shift: u16,
    first: u32,
    fuel: nat,
    mode: CfbMode,
) -> Result<Seq<u32>, CfbError>
    decreases fuel,
{
    let ss = spec_sector_size(shift);
    if first > MAX_REG_SECT {
        Ok(Seq::empty())
    } else if spec_sector_off(first, shift) + ss > b.len() {
        if mode == CfbMode::Lenient {
            Ok(Seq::empty())
        } else {
            Err(CfbError::TruncatedData)
        }
    } else if fuel == 0 {
        Err(CfbError::CorruptChain)
    } else {
        let off = spec_sector_off(first, shift);
        let next = spec_le_u32(b, off + 4 * (ss / 4 - 1));
        match spec_difat_chain(b, shift, next, (fuel - 1) as nat, mode) {
            Ok(rest) => Ok(spec_difat_entries(b, off, ss) + rest),
            Err(e) => Err(e),
        }
    }
}

/// Prepends already-gathered items to the rest of a walk's outcome.
pub open spec fn spec_compose<T>(pre: Seq<T>, r: Result<Seq<T>, CfbError>) -> Result<
    Seq<T>,
    CfbError,
> {
    match r {
        Ok(rest) => Ok(pre + rest),
        Err(e) => Err(e),
    }
}

/// Walks the DIFAT chain and collects FAT-sector locations.
pub fn difat_chain(b: &[u8], shift: u16, first: u32, fuel: usize, mode: CfbMode) -> (r: Result<
    Vec<u32>,
    CfbError,
>)
    requires
        9 <= shift <= 12,
    ensures
        r matches Ok(v) ==> spec_difat_chain(b@, shift, first, fuel as nat, mode) == Ok::<_, CfbError>(v@),
        r matches Err(e) ==> spec_difat_chain(b@, shift, first, fuel as nat, mode) == Err::<Seq<u32>, _>(e),
{
    let blen = b.len();
    let ss = sector_size_of(shift);
    let mut out: Vec<u32> = Vec::new();
    let mut cur: u32 = first;
    let mut left: usize = fuel;
    loop
        invariant
            blen == b@.len(),
            9 <= shift <= 12,
            ss as int == spec_sector_size(shift),
            512 <= ss <= 4096,
            left <= fuel,
            spec_difat_chain(b@, shift, first, fuel as nat, mode) == spec_compose(
                out@,
                spec_difat_chain(b@, shift, cur, left as nat, mode),
            ),
        decreases left,
    {
        if cur > MAX_REG_SECT {
            assert(out@ =~= out@ + Seq::<u32>::empty());
            return Ok(out);
        }
        let off64 = sector_off_of(cur, ss);
        if off64 + (ss as u64) > blen as u64 {
            if mode == CfbMode::Lenient {
                assert(out@ =~= out@ + Seq::<u32>::empty());
                return Ok(out);
            } else {
                return Err(CfbError::TruncatedData);
            }
        }
        if left == 0 {
            return Err(CfbError::CorruptChain);
        }
        let off = off64 as usize;
        let n_entries = ss / 4 - 1;
        let entries = read_u32s_at(b, off, n_entries);
        let next = le_u32_at(b, off + 4 * n_entries);
        let ghost old_out = out@;
        let mut i: usize = 0;
        let n_e = entries.len();
        while i < n_e
            invariant
                n_e == entries@.len(),
                i <= n_e,
                out@ == old_out + entries@.take(i as int),
            decreases n_e - i,
        {
            out.push(entries[i]);
            assert(out@ =~= old_out + entries@.take(i + 1));
            i = i + 1;
        }
        assert(entries@.take(n_e as int) =~= entries@);
        proof {
            assert(forall|x: Seq<u32>| (old_out + entries@) + x =~= old_out + (entries@ + x));
        }
        cur = next;
        left = left - 1;
    }
}

} // verus!

verus! {

/// The FAT entries contributed by the FAT sector at location `s`: its
/// entries when the sector is inside the buffer, a block of end-of-chain
/// padding in `Lenient` mode when it is not, and an error in `Strict` mode.
pub open spec fn spec_fat_block(b: Seq<u8>, shift: u16, s: u32, mode: CfbMode) -> Result<
    Seq<u32>,
    CfbError,
> {
    let ss = spec_sector_size(shift);
    if spec_sector_off(s, shift) + ss <= b.len() {
        Ok(spec_u32s_at(b, spec_sector_off(s, shift), ss / 4))
    } else if mode == CfbMode::Lenient {
        Ok(Seq::new((ss / 4) as nat, |i: int| END_OF_CHAIN))
    } else {
        Err(CfbError::TruncatedData)
    }
}

/// The whole FAT assembled from the given FAT-sector locations.
pub open spec fn spec_fat_from_locs(
    b: Seq<u8>,
    shift: u16,
    locs: Seq<u32>,
    mode: CfbMode,
) -> Result<Seq<u32>, CfbError>
    decreases locs.len(),
{
    if locs.len() == 0 {
        Ok(Seq::empty())
    } else {
        match spec_fat_block(b, shift, locs[0], mode) {
            Ok(head) => spec_compose(head, spec_fat_from_locs(b, shift, locs.drop_first(), mode)),
            Err(e) => Err(e),
        }
    }
}

/// Assembles the FAT from its sector locations, padding truncated trailing
/// sectors in `Lenient` mode.
pub fn fat_from_locs(b: &[u8], shift: u16, locs: &Vec<u32>, mode: CfbMode) -> (r: Result<
    Vec<u32>,
    CfbError,
>)
    requires
        9 <= shift <= 12,
    ensures
        r matches Ok(v) ==> spec_fat_from_locs(b@, shift, locs@, mode) == Ok::<_, CfbError>(v@),
        r matches Err(e) ==> spec_fat_from_locs(b@, shift, locs@, mode) == Err::<Seq<u32>, _>(e),
{
    let blen = b.len();
    let ss = sector_size_of(shift);
    let n = locs.len();
    let mut out: Vec<u32> = Vec::new();
    let mut i: usize = 0;
    assert(locs@.skip(0) =~= locs@);
    while i < n
        invariant
            blen == b@.len(),
            9 <= shift <= 12,
            ss as int == spec_sector_size(shift),
            512 <= ss <= 4096,
            n == locs@.len(),
            i <= n,
            spec_fat_from_locs(b@, shift, locs@, mode) == spec_compose(
                out@,
                spec_fat_from_locs(b@, shift, locs@.skip(i as int), mode),
            ),
        decreases n - i,
    {
        proof {
            assert(locs@.skip(i as int)[0] == locs@[i as int]);
            assert(locs@.skip(i as int).drop_first() =~= locs@.skip(i + 1));
        }
        let s = locs[i];
        let off64 = sector_off_of(s, ss);
        let ghost old_out = out@;
        if off64 + (ss as u64) <= blen as u64 {
            let off = off64 as usize;
            let mut entries = read_u32s_at(b, off, ss / 4);
            let ghost e = entries@;
            out.append(&mut entries);
            assert(out@ == old_out + e);
        } else if mode == CfbMode::Lenient {
            let mut j: usize = 0;
            let n_pad = ss / 4;
            while j < n_pad
                invariant
                    j <= n_pad,
                    out@ == old_out + Seq::new(j as nat, |k: int| END_OF_CHAIN),
                decreases n_pad - j,
            {
                out.push(END_OF_CHAIN);
                assert(out@ =~= old_out + Seq::new((j + 1) as nat, |k: int| END_OF_CHAIN));
                j = j + 1;
            }
        } else {
            return Err(CfbError::TruncatedData);
        }
        proof {
            let head = spec_fat_block(b@, shift, s, mode)->Ok_0;
            assert(out@ =~= old_out + head);
            assert(forall|x: Seq<u32>| (old_out + head) + x =~= old_out + (head + x));
        }
        i = i + 1;
    }
    assert(locs@.skip(n as int) =~= Seq::<u32>::empty());
    assert(out@ =~= out@ + Seq::<u32>::empty());
    Ok(out)
}

/// The sector chain threaded through `fat` starting at `start`: ends at the
/// end-of-chain marker, and fails when an index leaves the valid range or
/// the walk exceeds `fuel` steps (a cycle).
pub open spec fn spec_chain(fat: Seq<u32>, start: u32, fuel: nat) -> Result<Seq<u32>, CfbError>
    decreases fuel,
{
    if start == END_OF_CHAIN {
        Ok(Seq::empty())
    } else if start > MAX_REG_SECT || start >= fat.len() {
        Err(CfbError::CorruptChain)
    } else if fuel == 0 {
        Err(CfbError::CorruptChain)
    } else {
        match spec_chain(fat, fat[start as int], (fuel - 1) as nat) {
            Ok(rest) => Ok(seq![start] + rest),
            Err(e) => Err(e),
        }
    }
}

/// Walks a FAT (or MiniFAT) chain from `start`, with a step budget of one
/// more than the table's size, so a cycle is always detected.
pub fn walk_chain(fat: &Vec<u32>, start: u32) -> (r: Result<Vec<u32>, CfbError>)
    ensures
        r matches Ok(v) ==> spec_chain(fat@, start, fat@.len()) == Ok::<_, CfbError>(v@),
        r matches Err(e) ==> spec_chain(fat@, start, fat@.len()) == Err::<Seq<u32>, _>(e),
{
    let n = fat.len();
    let ghost fuel0 = fat@.len();
    let mut out: Vec<u32> = Vec::new();
    let mut cur: u32 = start;
    let mut left: usize = n;
    assert(Seq::<u32>::empty() + spec_chain(fat@, start, fuel0)->Ok_0 =~= spec_chain(
        fat@,
        start,
        fuel0,
    )->Ok_0);
    loop
        invariant
            n == fat@.len(),
            fuel0 == fat@.len(),
            left <= n,
            spec_chain(fat@, start, fuel0) == spec_compose(
                out@,
                spec_chain(fat@, cur, left as nat),
            ),
        decreases left,
    {
        if cur == END_OF_CHAIN {
            proof {
                assert(spec_chain(fat@, cur, left as nat) == Ok::<Seq<u32>, CfbError>(
                    Seq::empty(),
                ));
                assert(out@ + Seq::<u32>::empty() =~= out@);
            }
            return Ok(out);
        }
        if cur > MAX_REG_SECT || cur as usize >= n {
            proof {
                assert(spec_chain(fat@, cur, left as nat) == Err::<Seq<u32>, CfbError>(
                    CfbError::CorruptChain,
                ));
            }
            return Err(CfbError::CorruptChain);
        }
        if left == 0 {
            proof {
                assert(spec_chain(fat@, cur, left as nat) == Err::<Seq<u32>, CfbError>(
                    CfbError::CorruptChain,
                ));
            }
            return Err(CfbError::CorruptChain);
        }
        let ghost old_out = out@;
        let next = fat[cur as usize];
        out.push(cur);
        proof {
            assert(out@ =~= old_out + seq![cur]);
            assert(forall|x: Seq<u32>| (old_out + seq![cur]) + x =~= old_out + (seq![cur] + x));
        }
        cur = next;
        left = left - 1;
    }
}

} // verus!

verus! {

/// Byte offset of chunk `s` in a chunked source: sectors in the main buffer
/// use `base == 512`, mini sectors in the mini stream use `base == 0`.
pub open spec fn spec_chunk_off(s: u32, base: int, ss: int) -> int {
    base + (s as int) * ss
}

/// How many chunks a stream of `size` bytes occupies.
pub open spec fn spec_needed(size: int, ss: int) -> int
    recommends
        ss > 0,
{
    if size == 0 {
        0
    } else {
        (size - 1) / ss + 1
    }
}

/// Every chunk of the chain lies fully inside the source.
pub open spec fn spec_chunks_in_bounds(src: Seq<u8>, base: int, ss: int, chain: Seq<u32>) -> bool {
    forall|i: int|
        0 <= i < chain.len() ==> spec_chunk_off(#[trigger] chain[i], base, ss) + ss <= src.len()
}

/// The stream's bytes: chunk after chunk, the last one truncated to `size`.
pub open spec fn spec_stream_data(
    src: Seq<u8>,
    base: int,
    ss: int,
    chain: Seq<u32>,
    size: int,
) -> Seq<u8> {
    Seq::new(size as nat, |i: int| src[spec_chunk_off(chain[i / ss], base, ss) + (i % ss)])
}

/// Materializing a stream from an already-walked chain: the chain must hold
/// exactly the chunks the declared size needs, and each chunk must lie
/// inside the source.
pub open spec fn spec_assemble(
    src: Seq<u8>,
    base: int,
    ss: int,
    chain: Seq<u32>,
    size: int,
) -> Result<Seq<u8>, CfbError>
    recommends
        ss > 0,
{
    if chain.len() < spec_needed(size, ss) {
        Err(CfbError::TruncatedData)
    } else if chain.len() > spec_needed(size, ss) {
        Err(CfbError::CorruptChain)
    } else if !spec_chunks_in_bounds(src, base, ss, chain) {
        Err(CfbError::TruncatedData)
    } else {
        Ok(spec_stream_data(src, base, ss, chain, size))
    }
}

/// Copies a stream's bytes out of the source, chunk by chunk.
pub fn assemble_stream(src: &[u8], base: usize, ss: usize, chain: &Vec<u32>, size: usize) -> (r:
    Result<Vec<u8>, CfbError>)
    requires
        base <= 512,
        16 <= ss <= 4096,
    ensures
        r matches Ok(v) ==> spec_assemble(src@, base as int, ss as int, chain@, size as int)
            == Ok::<_, CfbError>(v@),
        r matches Err(e) ==> spec_assemble(src@, base as int, ss as int, chain@, size as int)
            == Err::<Seq<u8>, _>(e),
{
    let srclen = src.len();
    let n = chain.len();
    let needed: usize = if size == 0 {
        0
    } else {
        (size - 1) / ss + 1
    };
    if n < needed {
        return Err(CfbError::TruncatedData);
    }
    if n > needed {
        return Err(CfbError::CorruptChain);
    }
    assert(needed == spec_needed(size as int, ss as int));
    let mut i: usize = 0;
    while i < n
        invariant
            srclen == src@.len(),
            base <= 512,
            16 <= ss <= 4096,
            n == chain@.len(),
            n == spec_needed(size as int, ss as int),
            i <= n,
            forall|k: int|
                0 <= k < i ==> spec_chunk_off(#[trigger] chain@[k], base as int, ss as int) + ss
                    <= srclen,
        decreases n - i,
    {
        proof {
            vstd::arithmetic::mul::lemma_mul_upper_bound(
                chain@[i as int] as int,
                0xFFFF_FFFFint,
                ss as int,
                4096int,
            );
        }
        let off64 = (base as u64) + (chain[i] as u64) * (ss as u64);
        if off64 + (ss as u64) > srclen as u64 {
            proof {
                assert(spec_chunk_off(chain@[i as int], base as int, ss as int) + ss > srclen);
                assert(!spec_chunks_in_bounds(src@, base as int, ss as int, chain@));
            }
            return Err(CfbError::TruncatedData);
        }
        i = i + 1;
    }
    // All chunks are in bounds; copy them.
    let ghost data = spec_stream_data(src@, base as int, ss as int, chain@, size as int);
    let mut out: Vec<u8> = Vec::new();
    let mut i: usize = 0;
    let mut pos: usize = 0;
    proof {
        if size > 0 {
            vstd::arithmetic::div_mod::lemma_fundamental_div_mod((size - 1) as int, ss as int);
        }
    }
    assert(n * ss >= size) by (nonlinear_arith)
        requires
            n == needed,
            16 <= ss,
            needed == spec_needed(size as int, ss as int),
            size == 0 || (size - 1) == ss * ((size - 1) as int / ss as int) + (size - 1) as int % (
            ss as int),
            size == 0 || (size - 1) as int % (ss as int) < ss,
    ;
    while i < n
        invariant
            srclen == src@.len(),
            base <= 512,
            16 <= ss <= 4096,
            n == chain@.len(),
            n == spec_needed(size as int, ss as int),
            n * ss >= size,
            i <= n,
            pos == if i * ss <= size {
                i * ss
            } else {
                size as int
            },
            pos <= size,
            spec_chunks_in_bounds(src@, base as int, ss as int, chain@),
            data == spec_stream_data(src@, base as int, ss as int, chain@, size as int),
            out@.len() == pos,
            forall|j: int| 0 <= j < pos ==> out@[j] == data[j],
        decreases n - i,
    {
        proof {
            vstd::arithmetic::mul::lemma_mul_upper_bound(
                chain@[i as int] as int,
                0xFFFF_FFFFint,
                ss as int,
                4096int,
            );
        }
        let off64 = (base as u64) + (chain[i] as u64) * (ss as u64);
        proof {
            assert(spec_chunk_off(chain@[i as int], base as int, ss as int) + ss <= srclen);
        }
        let off = off64 as usize;
        let take: usize = if size - pos >= ss {
            ss
        } else {
            size - pos
        };
        proof {
            if size > 0 {
                vstd::arithmetic::div_mod::lemma_fundamental_div_mod((size - 1) as int, ss as int);
            }
            assert(i * ss <= size) by (nonlinear_arith)
                requires
                    i < n,
                    16 <= ss,
                    n == spec_needed(size as int, ss as int),
                    size == 0 || (size - 1) == ss * ((size - 1) as int / ss as int) + (size
                        - 1) as int % (ss as int),
                    size == 0 || (size - 1) as int % (ss as int) >= 0,
            ;
            assert((i + 1) * ss == i * ss + ss) by (nonlinear_arith);
            if i + 1 < n {
                if size > 0 {
                    vstd::arithmetic::div_mod::lemma_fundamental_div_mod(
                        (size - 1) as int,
                        ss as int,
                    );
                }
                assert((i + 1) * ss <= size) by (nonlinear_arith)
                    requires
                        i + 1 < n,
                        n * ss >= size,
                        16 <= ss,
                        (i + 1) * ss == i * ss + ss,
                        n == spec_needed(size as int, ss as int),
                        size == 0 || (size - 1) == ss * ((size - 1) as int / ss as int) + (size
                            - 1) as int % (ss as int),
                        size == 0 || (size - 1) as int % (ss as int) < ss,
                ;
            }
        }
        let mut j: usize = 0;
        while j < take
            invariant
                srclen == src@.len(),
                off + ss <= srclen,
                off == spec_chunk_off(chain@[i as int], base as int, ss as int),
                i < n == chain@.len(),
                j <= take <= ss,
                pos == i * ss,
                pos + take <= size,
                data == spec_stream_data(src@, base as int, ss as int, chain@, size as int),
                out@.len() == pos + j,
                forall|k: int| 0 <= k < pos + j ==> out@[k] == data[k],
            decreases take - j,
        {
            out.push(src[off + j]);
            proof {
                vstd::arithmetic::div_mod::lemma_fundamental_div_mod_converse(
                    (pos + j) as int,
                    ss as int,
                    i as int,
                    j as int,
                );
            }
            j = j + 1;
        }
        pos = pos + take;
        i = i + 1;
        proof {
            assert(i * ss == (i - 1) * ss + ss) by (nonlinear_arith);
        }
    }
    proof {
        assert(pos == size) by (nonlinear_arith)
            requires
                i == n,
                pos == if n * ss <= size {
                    n * ss
                } else {
                    size as int
                },
                n * ss >= size,
        ;
        assert(out@ =~= data);
    }
    Ok(out)
}

} // verus!

verus! {

/// A directory entry as recorded on disk: a UTF-16 name, an object type
/// (stream, storage or root), red-black tree links forming the per-storage
/// sibling tree, and the stream location.
pub struct DirEntry {
    /// Name as UTF-16 code units, without the terminating null.
    pub name: Vec<u16>,
    /// 0 unused, 1 storage, 2 stream, 5 root.
    pub obj_type: u8,
    /// Red-black color bit, kept only for traversal fidelity.
    pub color: u8,
    /// Left sibling in this entry's tree, or `NO_STREAM`.
    pub left: u32,
    /// Right sibling in this entry's tree, or `NO_STREAM`.
    pub right: u32,
    /// Root of the child tree for storages, or `NO_STREAM`.
    pub child: u32,
    /// First sector (or mini sector) of the entry's stream.
    pub start_sector: u32,
    /// Declared stream length in bytes.
    pub size: u64,
}

/// Mathematical image of a directory entry.
pub ghost struct DirEntryV {
    pub name: Seq<u16>,
    pub obj_type: u8,
    pub color: u8,
    pub left: u32,
    pub right: u32,
    pub child: u32,
    pub start_sector: u32,
    pub size: u64,
}

impl View for DirEntry {
    type V = DirEntryV;

    open spec fn view(&self) -> DirEntryV {
        DirEntryV {
            name: self.name@,
            obj_type: self.obj_type,
            color: self.color,
            left: self.left,
            right: self.right,
            child: self.child,
            start_sector: self.start_sector,
            size: self.size,
        }
    }
}

/// The name units stored in the 128-byte record at `off`: `name_len` is in
/// bytes and includes the terminator; a length that is out of range is
/// clamped so that a corrupt record never aborts parsing.
pub open spec fn spec_name_units(b: Seq<u8>, off: int) -> Seq<u16> {
    let nl = spec_le_u16(b, off + 64) as int;
    let clamped = if nl > 64 {
        64int
    } else {
        nl
    };
    let units = if clamped >= 2 {
        (clamped - 2) / 2
    } else {
        0int
    };
    Seq::new(units as nat, |i: int| spec_le_u16(b, off + 2 * i))
}

/// The directory entry recorded in the 128 bytes at `off`.
pub open spec fn spec_dir_entry(b: Seq<u8>, off: int) -> DirEntryV {
    DirEntryV {
        name: spec_name_units(b, off),
        obj_type: b[off + 66],
        color: b[off + 67],
        left: spec_le_u32(b, off + 68),
        right: spec_le_u32(b, off + 72),
        child: spec_le_u32(b, off + 76),
        start_sector: spec_le_u32(b, off + 116),
        size: spec_le_u64(b, off + 120),
    }
}

/// Parses the 128-byte directory record at `off`.
pub fn parse_dir_entry(b: &[u8], off: usize) -> (r: DirEntry)
    requires
        off + 128 <= b@.len(),
    ensures
        r@ == spec_dir_entry(b@, off as int),
{
    let blen = b.len();
    let nl = le_u16_at(b, off + 64);
    let clamped: usize = if nl > 64 {
        64
    } else {
        nl as usize
    };
    let units: usize = if clamped >= 2 {
        (clamped - 2) / 2
    } else {
        0
    };
    let mut name: Vec<u16> = Vec::new();
    let mut i: usize = 0;
    while i < units
        invariant
            off + 128 <= blen == b@.len(),
            units <= 31,
            i <= units,
            name@.len() == i,
            forall|j: int| 0 <= j < i ==> name@[j] == spec_le_u16(b@, off + 2 * j),
        decreases units - i,
    {
        name.push(le_u16_at(b, off + 2 * i));
        i = i + 1;
    }
    assert(name@ =~= spec_name_units(b@, off as int));
    DirEntry {
        name,
        obj_type: b[off + 66],
        color: b[off + 67],
        left: le_u32_at(b, off + 68),
        right: le_u32_at(b, off + 72),
        child: le_u32_at(b, off + 76),
        start_sector: le_u32_at(b, off + 116),
        size: le_u64_at(b, off + 120),
    }
}

/// The views of a list of directory entries.
pub open spec fn spec_views(es: Seq<DirEntry>) -> Seq<DirEntryV> {
    es.map_values(|e: DirEntry| e@)
}

/// All directory entries recorded in the directory stream.
pub open spec fn spec_dir_entries(dir: Seq<u8>) -> Seq<DirEntryV> {
    Seq::new((dir.len() / 128) as nat, |k: int| spec_dir_entry(dir, 128 * k))
}

/// Parses every 128-byte record of the directory stream.
pub fn parse_dir_entries(dir: &[u8]) -> (r: Vec<DirEntry>)
    ensures
        spec_views(r@) == spec_dir_entries(dir@),
{
    let dlen = dir.len();
    let n = dlen / 128;
    let mut out: Vec<DirEntry> = Vec::new();
    let mut k: usize = 0;
    while k < n
        invariant
            dlen == dir@.len(),
            n == dlen / 128,
            k <= n,
            out@.len() == k,
            forall|j: int| 0 <= j < k ==> (#[trigger] out@[j])@ == spec_dir_entry(dir@, 128 * j),
        decreases n - k,
    {
        proof {
            assert(128 * (k + 1) <= dlen) by (nonlinear_arith)
                requires
                    k < n,
                    n == dlen / 128,
                    dlen == dlen / 128 * 128 + dlen % 128,
                    0 <= dlen % 128 < 128,
            ;
        }
        let e = parse_dir_entry(dir, 128 * k);
        out.push(e);
        k = k + 1;
    }
    assert(spec_views(out@) =~= spec_dir_entries(dir@));
    out
}

/// In-order traversal of the sibling tree rooted at `node`: left subtree,
/// then the node, then the right subtree.  `None` marks a malformed tree
/// (an index out of range, or a walk deeper than `fuel`, which on a tree
/// with at most `fuel` nodes can only be a cycle).
pub open spec fn spec_inorder(es: Seq<DirEntryV>, node: u32, fuel: nat) -> Option<Seq<u32>>
    decreases fuel,
{
    if node == NO_STREAM {
        Some(Seq::empty())
    } else if node >= es.len() {
        None
    } else if fuel == 0 {
        None
    } else {
        let e = es[node as int];
        match (spec_inorder(es, e.left, (fuel - 1) as nat), spec_inorder(
            es,
            e.right,
            (fuel - 1) as nat,
        )) {
            (Some(l), Some(r)) => Some(l + seq![node] + r),
            _ => None,
        }
    }
}

/// Collects the sibling tree rooted at `node` in in-order.
pub fn inorder(es: &Vec<DirEntry>, node: u32, fuel: usize) -> (r: Result<Vec<u32>, CfbError>)
    ensures
        r matches Ok(v) ==> spec_inorder(spec_views(es@), node, fuel as nat) == Some(v@),
        r is Err ==> spec_inorder(spec_views(es@), node, fuel as nat) is None && r == Err::<
            Vec<u32>,
            _,
        >(CfbError::CorruptChain),
    decreases fuel,
{
    if node == NO_STREAM {
        let empty: Vec<u32> = Vec::new();
        return Ok(empty);
    }
    if (node as usize) >= es.len() {
        return Err(CfbError::CorruptChain);
    }
    if fuel == 0 {
        return Err(CfbError::CorruptChain);
    }
    let left = es[node as usize].left;
    let right = es[node as usize].right;
    proof {
        assert(spec_views(es@)[node as int] == es@[node as int]@);
    }
    let mut l = match inorder(es, left, fuel - 1) {
        Ok(v) => v,
        Err(e) => {
            return Err(e);
        },
    };
    let mut r = match inorder(es, right, fuel - 1) {
        Ok(v) => v,
        Err(e) => {
            return Err(e);
        },
    };
    let ghost lv = l@;
    let ghost rv = r@;
    l.push(node);
    l.append(&mut r);
    assert(l@ =~= lv + seq![node] + rv);
    Ok(l)
}

} // verus!

verus! {

/// Mathematical image of a parsed container.
pub ghost struct CfbContainerV {
    pub header: CfbHeader,
    pub fat: Seq<u32>,
    pub minifat: Seq<u32>,
    pub entries: Seq<DirEntryV>,
    pub mini_stream: Seq<u8>,
}

/// A parsed container: the sector tables, the directory tree, and the
/// materialized mini stream.  Streams themselves stay in the input buffer
/// until a caller materializes them with [`read_stream`](Self::read_stream).
pub struct CfbContainer<'a> {
    /// The input bytes the container was parsed from.
    pub buf: &'a [u8],
    /// The validated header.
    pub header: CfbHeader,
    /// The file allocation table, one entry per sector.
    pub fat: Vec<u32>,
    /// The mini allocation table, one entry per mini sector.
    pub minifat: Vec<u32>,
    /// Every directory record, in on-disk order.
    pub entries: Vec<DirEntry>,
    /// The root entry's stream, which holds all mini-stream data.
    pub mini_stream: Vec<u8>,
}

impl<'a> View for CfbContainer<'a> {
    type V = CfbContainerV;

    open spec fn view(&self) -> CfbContainerV {
        CfbContainerV {
            header: self.header,
            fat: self.fat@,
            minifat: self.minifat@,
            entries: spec_views(self.entries@),
            mini_stream: self.mini_stream@,
        }
    }
}

impl CfbContainerV {
    /// Shape facts every successfully parsed container satisfies.
    pub open spec fn wf(self) -> bool {
        &&& 9 <= self.header.sector_shift <= 12
        &&& 4 <= self.header.mini_shift < self.header.sector_shift
        &&& self.entries.len() > 0
        &&& self.entries[0].obj_type == 5
    }
}

/// Step budget for the DIFAT walk: the declared DIFAT sector count, capped
/// by how many sectors the buffer can hold at all.
pub open spec fn spec_difat_fuel(blen: int, num: u32) -> nat {
    if num as int <= blen / 512 {
        num as nat
    } else {
        (blen / 512) as nat
    }
}

/// The container that parsing yields on the given bytes, step by step:
/// header, DIFAT walk, FAT assembly, directory chain and entries, MiniFAT,
/// and the root's mini stream.
pub open spec fn spec_parse(b: Seq<u8>, mode: CfbMode) -> Result<CfbContainerV, CfbError> {
    match spec_parse_header(b) {
        Err(e) => Err(e),
        Ok(h) => {
            let shift = h.sector_shift;
            let ss = spec_sector_size(shift);
            match spec_difat_chain(
                b,
                shift,
                h.first_difat_sector,
                spec_difat_fuel(b.len() as int, h.num_difat_sectors),
                mode,
            ) {
                Err(e) => Err(e),
                Ok(extra) => {
                    let locs = spec_reg_only(spec_u32s_at(b, 76, 109) + extra);
                    match spec_fat_from_locs(b, shift, locs, mode) {
                        Err(e) => Err(e),
                        Ok(fat) => match spec_chain(fat, h.first_dir_sector, fat.len()) {
                            Err(e) => Err(e),
                            Ok(dch) => {
                                if dch.len() * ss > usize::MAX {
                                    Err(CfbError::TruncatedData)
                                } else {
                                    match spec_assemble(b, 512, ss, dch, dch.len() * ss) {
                                        Err(e) => Err(e),
                                        Ok(dir_bytes) => {
                                            let entries = spec_dir_entries(dir_bytes);
                                            if entries.len() == 0 || entries[0].obj_type != 5 {
                                                Err(CfbError::CorruptChain)
                                            } else {
                                                spec_parse_tables(b, mode, h, fat, entries)
                                            }
                                        },
                                    }
                                }
                            },
                        },
                    }
                },
            }
        },
    }
}

/// Second half of parsing: the MiniFAT and the root's mini stream.
pub open spec fn spec_parse_tables(
    b: Seq<u8>,
    mode: CfbMode,
    h: CfbHeader,
    fat: Seq<u32>,
    entries: Seq<DirEntryV>,
) -> Result<CfbContainerV, CfbError> {
    let ss = spec_sector_size(h.sector_shift);
    match spec_chain(fat, h.first_minifat_sector, fat.len()) {
        Err(e) => Err(e),
        Ok(mfch) => {
            if mfch.len() * ss > usize::MAX {
                Err(CfbError::TruncatedData)
            } else {
                match spec_assemble(b, 512, ss, mfch, mfch.len() * ss) {
                    Err(e) => Err(e),
                    Ok(mf_bytes) => {
                        let minifat = spec_u32s_at(mf_bytes, 0, mf_bytes.len() as int / 4);
                        let root = entries[0];
                        if root.size > usize::MAX {
                            Err(CfbError::TruncatedData)
                        } else {
                            match spec_chain(fat, root.start_sector, fat.len()) {
                                Err(e) => Err(e),
                                Ok(rch) => match spec_assemble(
                                    b,
                                    512,
                                    ss,
                                    rch,
                                    root.size as int,
                                ) {
                                    Err(e) => Err(e),
                                    Ok(mini) => Ok(CfbContainerV {
                                        header: h,
                                        fat,
                                        minifat,
                                        entries,
                                        mini_stream: mini,
                                    }),
                                },
                            }
                        }
                    },
                }
            }
        },
    }
}

/// Parses a compound-file container.
///
/// In `Strict` mode any sector table that reaches past the end of the
/// buffer is an error; in `Lenient` mode missing trailing FAT sectors are
/// padded with end-of-chain entries, so a file whose tail was cut off by
/// the producing client still yields its surviving streams.
#[verifier::rlimit(60)]
pub fn parse(b: &[u8], mode: CfbMode) -> (r: Result<CfbContainer<'_>, CfbError>)
    ensures
        r matches Ok(c) ==> spec_parse(b@, mode) == Ok::<_, CfbError>(c@) && c@.wf() && c.buf@
            == b@,
        r matches Err(e) ==> spec_parse(b@, mode) == Err::<CfbContainerV, _>(e),
{
    let blen = b.len();
    let h = match parse_header(b) {
        Ok(h) => h,
        Err(e) => {
            return Err(e);
        },
    };
    let ss = sector_size_of(h.sector_shift);
    // DIFAT walk.
    let cap = blen / 512;
    let fuel: usize = if (h.num_difat_sectors as u64) <= (cap as u64) {
        h.num_difat_sectors as usize
    } else {
        cap
    };
    assert(fuel as nat == spec_difat_fuel(b@.len() as int, h.num_difat_sectors));
    let extra = match difat_chain(b, h.sector_shift, h.first_difat_sector, fuel, mode) {
        Ok(v) => v,
        Err(e) => {
            return Err(e);
        },
    };
    // FAT assembly.
    let mut loc_list = read_u32s_at(b, 76, 109);
    let ghost head109 = loc_list@;
    let ghost extrav = extra@;
    let mut extra_mut = extra;
    loc_list.append(&mut extra_mut);
    assert(loc_list@ == head109 + extrav);
    let locs = reg_only(&loc_list);
    let fat = match fat_from_locs(b, h.sector_shift, &locs, mode) {
        Ok(v) => v,
        Err(e) => {
            return Err(e);
        },
    };
    // Directory.
    let dch = match walk_chain(&fat, h.first_dir_sector) {
        Ok(v) => v,
        Err(e) => {
            return Err(e);
        },
    };
    let dir_size = match dch.len().checked_mul(ss) {
        Some(v) => v,
        None => {
            return Err(CfbError::TruncatedData);
        },
    };
    let dir_bytes = match assemble_stream(b, 512, ss, &dch, dir_size) {
        Ok(v) => v,
        Err(e) => {
            return Err(e);
        },
    };
    let entries = parse_dir_entries(dir_bytes.as_slice());
    if entries.len() == 0 || entries[0].obj_type != 5 {
        proof {
            assert(spec_views(entries@).len() == 0 || spec_views(entries@)[0].obj_type != 5);
        }
        return Err(CfbError::CorruptChain);
    }
    // MiniFAT.
    let mfch = match walk_chain(&fat, h.first_minifat_sector) {
        Ok(v) => v,
        Err(e) => {
            return Err(e);
        },
    };
    let mf_size = match mfch.len().checked_mul(ss) {
        Some(v) => v,
        None => {
            return Err(CfbError::TruncatedData);
        },
    };
    let mf_bytes = match assemble_stream(b, 512, ss, &mfch, mf_size) {
        Ok(v) => v,
        Err(e) => {
            return Err(e);
        },
    };
    let minifat = read_u32s_at(mf_bytes.as_slice(), 0, mf_bytes.len() / 4);
    // Mini stream.
    let root_start = entries[0].start_sector;
    let root_size64 = entries[0].size;
    if root_size64 > usize::MAX as u64 {
        return Err(CfbError::TruncatedData);
    }
    let rch = match walk_chain(&fat, root_start) {
        Ok(v) => v,
        Err(e) => {
            return Err(e);
        },
    };
    let mini_stream = match assemble_stream(b, 512, ss, &rch, root_size64 as usize) {
        Ok(v) => v,
        Err(e) => {
            return Err(e);
        },
    };
    let c = CfbContainer { buf: b, header: h, fat, minifat, entries, mini_stream };
    Ok(c)
}

} // verus!

verus! {

/// What materializing the stream of entry `idx` yields: large streams (and
/// the root) follow the FAT through the input buffer, small streams follow
/// the MiniFAT through the root's mini stream.
pub open spec fn spec_read_stream(bv: Seq<u8>, c: CfbContainerV, idx: int) -> Result<
    Seq<u8>,
    CfbError,
> {
    let e = c.entries[idx];
    let ss = spec_sector_size(c.header.sector_shift);
    let ms = spec_sector_size(c.header.mini_shift);
    if e.size > usize::MAX {
        Err(CfbError::TruncatedData)
    } else if e.obj_type == 5 || e.size >= c.header.mini_cutoff {
        match spec_chain(c.fat, e.start_sector, c.fat.len()) {
            Err(err) => Err(err),
            Ok(ch) => spec_assemble(bv, 512, ss, ch, e.size as int),
        }
    } else {
        match spec_chain(c.minifat, e.start_sector, c.minifat.len()) {
            Err(err) => Err(err),
            Ok(ch) => spec_assemble(c.mini_stream, 0, ms, ch, e.size as int),
        }
    }
}

impl<'a> CfbContainer<'a> {
    /// Materializes the stream of directory entry `idx` as owned bytes.
    /// Exactly the declared number of bytes is returned; a chain that is
    /// too short, too long, cyclic or out of range is an error.
    pub fn read_stream(&self, idx: usize) -> (r: Result<Vec<u8>, CfbError>)
        requires
            idx < self@.entries.len(),
            self@.wf(),
        ensures
            r matches Ok(v) ==> spec_read_stream(self.buf@, self@, idx as int) == Ok::<
                _,
                CfbError,
            >(v@),
            r matches Err(e) ==> spec_read_stream(self.buf@, self@, idx as int) == Err::<
                Seq<u8>,
                _,
            >(e),
    {
        let e_size = self.entries[idx].size;
        let e_type = self.entries[idx].obj_type;
        let e_start = self.entries[idx].start_sector;
        proof {
            assert(spec_views(self.entries@)[idx as int] == self.entries@[idx as int]@);
        }
        if e_size > usize::MAX as u64 {
            return Err(CfbError::TruncatedData);
        }
        let size = e_size as usize;
        if e_type == 5 || e_size >= self.header.mini_cutoff as u64 {
            let ss = sector_size_of(self.header.sector_shift);
            let ch = match walk_chain(&self.fat, e_start) {
                Ok(v) => v,
                Err(err) => {
                    return Err(err);
                },
            };
            assemble_stream(self.buf, 512, ss, &ch, size)
        } else {
            let ms = mini_size_of(self.header.mini_shift);
            let ch = match walk_chain(&self.minifat, e_start) {
                Ok(v) => v,
                Err(err) => {
                    return Err(err);
                },
            };
            assemble_stream(self.mini_stream.as_slice(), 0, ms, &ch, size)
        }
    }

    /// Lists the children of storage entry `idx` in in-order traversal
    /// order of its sibling tree, which is the on-disk name order.
    pub fn children_of(&self, idx: usize) -> (r: Result<Vec<u32>, CfbError>)
        requires
            idx < self@.entries.len(),
        ensures
            r matches Ok(v) ==> spec_inorder(
                self@.entries,
                self@.entries[idx as int].child,
                self@.entries.len(),
            ) == Some(v@),
            r is Err ==> spec_inorder(
                self@.entries,
                self@.entries[idx as int].child,
                self@.entries.len(),
            ) is None && r == Err::<Vec<u32>, _>(CfbError::CorruptChain),
    {
        let child = self.entries[idx].child;
        proof {
            assert(spec_views(self.entries@)[idx as int] == self.entries@[idx as int]@);
        }
        inorder(&self.entries, child, self.entries.len())
    }
}

/// Mini-sector size in bytes for a supported mini shift.
pub fn mini_size_of(shift: u16) -> (r: usize)
    requires
        4 <= shift <= 11,
    ensures
        r as int == spec_sector_size(shift),
        16 <= r <= 2048,
{
    proof {
        assert(4 <= shift <= 11 ==> (1u64 << (shift as u64)) == if shift == 4 {
            16u64
        } else if shift == 5 {
            32u64
        } else if shift == 6 {
            64u64
        } else if shift == 7 {
            128u64
        } else if shift == 8 {
            256u64
        } else if shift == 9 {
            512u64
        } else if shift == 10 {
            1024u64
        } else {
            2048u64
        }) by (bit_vector);
    }
    if shift == 4 {
        16
    } else if shift == 5 {
        32
    } else if shift == 6 {
        64
    } else if shift == 7 {
        128
    } else if shift == 8 {
        256
    } else if shift == 9 {
        512
    } else if shift == 10 {
        1024
    } else {
        2048
    }
}

} // verus!

verus! {

/// Cycle guard: a FAT entry that points back at its own sector never
/// terminates, so walking a chain from it fails with `CorruptChain` for
/// every step budget.  The walk's verdict does not depend on the parse
/// mode, so this holds in `Strict` and `Lenient` parsing alike.
pub proof fn lemma_chain_self_loop(fat: Seq<u32>, start: u32, fuel: nat)
    requires
        start <= MAX_REG_SECT,
        (start as int) < fat.len(),
        fat[start as int] == start,
    ensures
        spec_chain(fat, start, fuel) == Err::<Seq<u32>, CfbError>(CfbError::CorruptChain),
    decreases fuel,
{
    if fuel > 0 {
        lemma_chain_self_loop(fat, start, (fuel - 1) as nat);
    }
}

/// The block of end-of-chain entries that `Lenient` mode substitutes for a
/// missing FAT sector.
pub open spec fn spec_pad_block(shift: u16) -> Seq<u32> {
    Seq::new((spec_sector_size(shift) / 4) as nat, |i: int| END_OF_CHAIN)
}

/// Lenient recovery: when every FAT sector but the last lies inside the
/// buffer and the last one does not, `Strict` assembly fails with
/// `TruncatedData`, while `Lenient` assembly keeps the intact prefix and
/// pads the missing sector's entries with end-of-chain markers.
pub proof fn lemma_lenient_fat_padding(b: Seq<u8>, shift: u16, locs: Seq<u32>)
    requires
        9 <= shift <= 12,
        locs.len() > 0,
        forall|i: int|
            0 <= i < locs.len() - 1 ==> spec_sector_off(#[trigger] locs[i], shift)
                + spec_sector_size(shift) <= b.len(),
        spec_sector_off(locs[locs.len() - 1], shift) + spec_sector_size(shift) > b.len(),
    ensures
        spec_fat_from_locs(b, shift, locs, CfbMode::Strict) == Err::<Seq<u32>, CfbError>(
            CfbError::TruncatedData,
        ),
        spec_fat_from_locs(b, shift, locs, CfbMode::Lenient) == spec_compose(
            spec_fat_from_locs(b, shift, locs.drop_last(), CfbMode::Lenient)->Ok_0,
            Ok(spec_pad_block(shift)),
        ),
        spec_fat_from_locs(b, shift, locs.drop_last(), CfbMode::Lenient) is Ok,
        spec_fat_from_locs(b, shift, locs.drop_last(), CfbMode::Lenient) == spec_fat_from_locs(
            b,
            shift,
            locs.drop_last(),
            CfbMode::Strict,
        ),
    decreases locs.len(),
{
    let ss = spec_sector_size(shift);
    if locs.len() == 1 {
        assert(locs.drop_last() =~= Seq::<u32>::empty());
        assert(locs.drop_first() =~= Seq::<u32>::empty());
        assert(spec_pad_block(shift) + Seq::<u32>::empty() =~= spec_pad_block(shift));
        assert(Seq::<u32>::empty() + spec_pad_block(shift) =~= spec_pad_block(shift));
    } else {
        let rest = locs.drop_first();
        assert(rest[rest.len() - 1] == locs[locs.len() - 1]);
        assert(forall|i: int|
            0 <= i < rest.len() - 1 ==> #[trigger] rest[i] == locs[i + 1] && spec_sector_off(
                rest[i],
                shift,
            ) + spec_sector_size(shift) <= b.len());
        lemma_lenient_fat_padding(b, shift, rest);
        assert(locs[0] == locs.drop_last()[0]);
        assert(locs.drop_last().drop_first() =~= rest.drop_last());
        let head = spec_fat_block(b, shift, locs[0], CfbMode::Lenient)->Ok_0;
        let pre_rest = spec_fat_from_locs(b, shift, rest.drop_last(), CfbMode::Lenient)->Ok_0;
        assert((head + pre_rest) + spec_pad_block(shift) =~= head + (pre_rest + spec_pad_block(
            shift,
        )));
    }
}

/// Round trip, stream layer: when a chain's chunks hold `content` laid out
/// chunk by chunk inside `src`, materializing the stream returns exactly
/// `content` — parsing inverts the layout a synthesizer writes.
pub proof fn lemma_stream_round_trip(
    src: Seq<u8>,
    base: int,
    ss: int,
    chain: Seq<u32>,
    content: Seq<u8>,
)
    requires
        16 <= ss <= 4096,
        chain.len() == spec_needed(content.len() as int, ss),
        spec_chunks_in_bounds(src, base, ss, chain),
        forall|i: int|
            0 <= i < content.len() ==> src[spec_chunk_off(
                chain[i / ss],
                base,
                ss,
            ) + (i % ss)] == #[trigger] content[i],
    ensures
        spec_assemble(src, base, ss, chain, content.len() as int) == Ok::<Seq<u8>, CfbError>(
            content,
        ),
{
    assert forall|i: int| 0 <= i < content.len() implies 0 <= #[trigger] (i / ss) < chain.len() by {
        vstd::arithmetic::div_mod::lemma_fundamental_div_mod(i, ss);
        if content.len() > 0 {
            vstd::arithmetic::div_mod::lemma_fundamental_div_mod((content.len() - 1) as int, ss);
        }
        assert(0 <= i / ss < chain.len()) by (nonlinear_arith)
            requires
                0 <= i < content.len(),
                16 <= ss,
                chain.len() == spec_needed(content.len() as int, ss),
                i == ss * (i / ss) + i % ss,
                0 <= i % ss < ss,
                content.len() == 0 || (content.len() - 1) == ss * ((content.len() - 1) as int
                    / ss) + (content.len() - 1) as int % ss,
                content.len() == 0 || 0 <= (content.len() - 1) as int % ss < ss,
        ;
    }
    assert(spec_stream_data(src, base, ss, chain, content.len() as int) =~= content);
}

/// A FAT that links each sector of a consecutive run to the next, ending
/// the run with the end-of-chain marker, yields exactly that run — the
/// chain shape a synthesizer writes when it lays a stream out contiguously.
pub proof fn lemma_consecutive_chain(fat: Seq<u32>, first: int, n: int, fuel: nat)
    requires
        0 < n,
        0 <= first,
        first + n <= fat.len(),
        fat.len() <= MAX_REG_SECT,
        fuel >= n,
        forall|s: int| first <= s < first + n - 1 ==> #[trigger] fat[s] == s + 1,
        fat[first + n - 1] == END_OF_CHAIN,
    ensures
        spec_chain(fat, first as u32, fuel) == Ok::<Seq<u32>, CfbError>(
            Seq::new(n as nat, |i: int| (first + i) as u32),
        ),
    decreases n,
{
    if n == 1 {
        assert(fat[first] == END_OF_CHAIN);
        assert(spec_chain(fat, fat[first], (fuel - 1) as nat) == Ok::<Seq<u32>, CfbError>(
            Seq::empty(),
        ));
        assert(seq![first as u32] + Seq::<u32>::empty() =~= Seq::new(
            n as nat,
            |i: int| (first + i) as u32,
        ));
    } else {
        assert(fat[first] == first + 1);
        lemma_consecutive_chain(fat, first + 1, n - 1, (fuel - 1) as nat);
        assert(seq![first as u32] + Seq::new((n - 1) as nat, |i: int| (first + 1 + i) as u32)
            =~= Seq::new(n as nat, |i: int| (first + i) as u32));
    }
}

} // verus!

verus! {

/// Round trip, container layer: a synthesizer that lays a stream out over
/// a consecutive run of sectors — linking each FAT entry to the next and
/// closing the run with the end-of-chain marker — gets exactly its bytes
/// back when the chain is walked and the stream materialized.
pub proof fn lemma_cfb_round_trip(
    src: Seq<u8>,
    ss: int,
    fat: Seq<u32>,
    first: int,
    content: Seq<u8>,
)
    requires
        16 <= ss <= 4096,
        content.len() > 0,
        0 <= first,
        first + spec_needed(content.len() as int, ss) <= fat.len(),
        fat.len() <= MAX_REG_SECT,
        forall|s: int|
            first <= s < first + spec_needed(content.len() as int, ss) - 1 ==> #[trigger] fat[s]
                == s + 1,
        fat[first + spec_needed(content.len() as int, ss) - 1] == END_OF_CHAIN,
        forall|s: int|
            first <= s < first + spec_needed(content.len() as int, ss) ==> #[trigger] spec_chunk_off(
                s as u32,
                512,
                ss,
            ) + ss <= src.len(),
        forall|i: int|
            0 <= i < content.len() ==> src[512 + (first + i / ss) * ss + (i
                % ss)] == #[trigger] content[i],
    ensures
        spec_chain(fat, first as u32, fat.len()) matches Ok(ch) && spec_assemble(
            src,
            512,
            ss,
            ch,
            content.len() as int,
        ) == Ok::<Seq<u8>, CfbError>(content),
{
    let n = spec_needed(content.len() as int, ss);
    assert(n > 0) by {
        assert(content.len() > 0);
    }
    lemma_consecutive_chain(fat, first, n, fat.len());
    let ch = Seq::new(n as nat, |i: int| (first + i) as u32);
    assert forall|k: int| 0 <= k < ch.len() implies spec_chunk_off(#[trigger] ch[k], 512, ss)
        + ss <= src.len() by {
        assert(ch[k] == (first + k) as u32);
        assert(spec_chunk_off((first + k) as u32, 512, ss) + ss <= src.len());
    }
    assert forall|i: int|
        0 <= i < content.len() implies src[spec_chunk_off(ch[i / ss], 512, ss) + (i % ss)]
        == #[trigger] content[i] by {
        vstd::arithmetic::div_mod::lemma_fundamental_div_mod(i, ss);
        vstd::arithmetic::div_mod::lemma_fundamental_div_mod((content.len() - 1) as int, ss);
        assert(0 <= i / ss < n) by (nonlinear_arith)
            requires
                0 <= i < content.len(),
                16 <= ss,
                n == spec_needed(content.len() as int, ss),
                i == ss * (i / ss) + i % ss,
                0 <= i % ss < ss,
                (content.len() - 1) == ss * ((content.len() - 1) as int / ss) + (content.len()
                    - 1) as int % ss,
                0 <= (content.len() - 1) as int % ss < ss,
        ;
        assert(ch[i / ss] == (first + i / ss) as u32);
    }
    lemma_stream_round_trip(src, 512, ss, ch, content);
}

} // verus!

verus! {

/// Exactness: a materialized stream holds exactly its entry's declared
/// number of bytes — never an over- or under-read.
pub proof fn lemma_stream_exact_size(bv: Seq<u8>, cv: CfbContainerV, idx: int)
    requires
        0 <= idx < cv.entries.len(),
        spec_read_stream(bv, cv, idx) is Ok,
    ensures
        spec_read_stream(bv, cv, idx)->Ok_0.len() == cv.entries[idx].size,
{
}

} // verus!
