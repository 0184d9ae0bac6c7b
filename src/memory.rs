//! Memory regions, the decisions of a scan over them, and the results it
//! produces. Reading another process's memory is left to the caller, which
//! hands each region's bytes to the functions here.
use vstd::prelude::*;

use crate::pattern::{PatternError, PatternMatch};
use crate::text::{ascii_string, decimal_string, decimal_text, hex_bytes, hex_digit, is_ascii_bytes, zero_padded};
use crate::vtable::VTable;

verus! {

/// Page protection of a region.
#[derive(Debug, Clone, Copy, PartialEq, Eq, Structural)]
pub enum MemoryProtection {
    NoAccess,
    ReadOnly,
    ReadWrite,
    WriteCopy,
    Execute,
    ExecuteRead,
    ExecuteReadWrite,
    ExecuteWriteCopy,
}

/// Windows page-protection constants.
pub const PAGE_NOACCESS: u32 = 0x01;
pub const PAGE_READONLY: u32 = 0x02;
pub const PAGE_READWRITE: u32 = 0x04;
pub const PAGE_WRITECOPY: u32 = 0x08;
pub const PAGE_EXECUTE: u32 = 0x10;
pub const PAGE_EXECUTE_READ: u32 = 0x20;
pub const PAGE_EXECUTE_READWRITE: u32 = 0x40;
pub const PAGE_EXECUTE_WRITECOPY: u32 = 0x80;

/// Windows region-state constants.
pub const MEM_COMMIT: u32 = 0x1000;
pub const MEM_RESERVE: u32 = 0x2000;
pub const MEM_FREE: u32 = 0x10000;

/// The protection that a raw protection value stands for; any other value,
/// modifier bits included, reads as no access.
pub open spec fn protection_of(raw: u32) -> MemoryProtection {
    if raw == PAGE_NOACCESS {
        MemoryProtection::NoAccess
    } else if raw == PAGE_READONLY {
        MemoryProtection::ReadOnly
    } else if raw == PAGE_READWRITE {
        MemoryProtection::ReadWrite
    } else if raw == PAGE_WRITECOPY {
        MemoryProtection::WriteCopy
    } else if raw == PAGE_EXECUTE {
        MemoryProtection::Execute
    } else if raw == PAGE_EXECUTE_READ {
        MemoryProtection::ExecuteRead
    } else if raw == PAGE_EXECUTE_READWRITE {
        MemoryProtection::ExecuteReadWrite
    } else if raw == PAGE_EXECUTE_WRITECOPY {
        MemoryProtection::ExecuteWriteCopy
    } else {
        MemoryProtection::NoAccess
    }
}

impl From<u32> for MemoryProtection {
    fn from(protection: u32) -> (r: Self) {
        if protection == PAGE_NOACCESS {
            MemoryProtection::NoAccess
        } else if protection == PAGE_READONLY {
            MemoryProtection::ReadOnly
        } else if protection == PAGE_READWRITE {
            MemoryProtection::ReadWrite
        } else if protection == PAGE_WRITECOPY {
            MemoryProtection::WriteCopy
        } else if protection == PAGE_EXECUTE {
            MemoryProtection::Execute
        } else if protection == PAGE_EXECUTE_READ {
            MemoryProtection::ExecuteRead
        } else if protection == PAGE_EXECUTE_READWRITE {
            MemoryProtection::ExecuteReadWrite
        } else if protection == PAGE_EXECUTE_WRITECOPY {
            MemoryProtection::ExecuteWriteCopy
        } else {
            MemoryProtection::NoAccess
        }
    }
}

impl vstd::std_specs::convert::FromSpecImpl<u32> for MemoryProtection {
    open spec fn obeys_from_spec() -> bool {
        true
    }

    open spec fn from_spec(v: u32) -> MemoryProtection {
        protection_of(v)
    }
}

/// The three-letter form of a protection: read, write (or copy-on-write),
/// execute.
pub open spec fn protection_label(p: MemoryProtection) -> Seq<char> {
    match p {
        MemoryProtection::NoAccess => "---"@,
        MemoryProtection::ReadOnly => "R--"@,
        MemoryProtection::ReadWrite => "RW-"@,
        MemoryProtection::WriteCopy => "RC-"@,
        MemoryProtection::Execute => "--X"@,
        MemoryProtection::ExecuteRead => "R-X"@,
        MemoryProtection::ExecuteReadWrite => "RWX"@,
        MemoryProtection::ExecuteWriteCopy => "RCX"@,
    }
}

impl MemoryProtection {
    /// The three-letter form, such as `R-X`.
    pub fn to_string(&self) -> (r: String)
        ensures
            r@ == protection_label(*self),
    {
        let s = match self {
            MemoryProtection::NoAccess => "---",
            MemoryProtection::ReadOnly => "R--",
            MemoryProtection::ReadWrite => "RW-",
            MemoryProtection::WriteCopy => "RC-",
            MemoryProtection::Execute => "--X",
            MemoryProtection::ExecuteRead => "R-X",
            MemoryProtection::ExecuteReadWrite => "RWX",
            MemoryProtection::ExecuteWriteCopy => "RCX",
        };
        String::from_str(s)
    }
}

/// Allocation state of a region.
#[derive(Debug, Clone, Copy, PartialEq, Eq, Structural)]
pub enum MemoryState {
    Commit,
    Free,
    Reserve,
}

/// The state that a raw state value stands for; any other value reads as free.
pub open spec fn state_of(raw: u32) -> MemoryState {
    if raw == MEM_COMMIT {
        MemoryState::Commit
    } else if raw == MEM_FREE {
        MemoryState::Free
    } else if raw == MEM_RESERVE {
        MemoryState::Reserve
    } else {
        MemoryState::Free
    }
}

impl From<u32> for MemoryState {
    fn from(state: u32) -> (r: Self) {
        if state == MEM_COMMIT {
            MemoryState::Commit
        } else if state == MEM_FREE {
            MemoryState::Free
        } else if state == MEM_RESERVE {
            MemoryState::Reserve
        } else {
            MemoryState::Free
        }
    }
}

impl vstd::std_specs::convert::FromSpecImpl<u32> for MemoryState {
    open spec fn obeys_from_spec() -> bool {
        true
    }

    open spec fn from_spec(v: u32) -> MemoryState {
        state_of(v)
    }
}

/// Coarse kind of a region's backing.
#[derive(Debug, Clone, Copy, PartialEq, Eq, Structural)]
pub enum MemoryType {
    Image,
    Mapped,
    Private,
}

/// A contiguous range of address space with one protection and state.
#[derive(Debug, Clone, Copy, PartialEq, Eq, Structural)]
pub struct MemoryRegion {
    pub base_address: usize,
    pub size: usize,
    pub protection: MemoryProtection,
    pub state: MemoryState,
    pub region_type: MemoryType,
}

pub open spec fn protection_readable(p: MemoryProtection) -> bool {
    matches!(p, MemoryProtection::ReadOnly | MemoryProtection::ReadWrite | MemoryProtection::ExecuteRead
        | MemoryProtection::ExecuteReadWrite | MemoryProtection::WriteCopy | MemoryProtection::ExecuteWriteCopy)
}

pub open spec fn protection_executable(p: MemoryProtection) -> bool {
    matches!(p, MemoryProtection::Execute | MemoryProtection::ExecuteRead | MemoryProtection::ExecuteReadWrite
        | MemoryProtection::ExecuteWriteCopy)
}

pub open spec fn protection_writable(p: MemoryProtection) -> bool {
    matches!(p, MemoryProtection::ReadWrite | MemoryProtection::ExecuteReadWrite | MemoryProtection::WriteCopy
        | MemoryProtection::ExecuteWriteCopy)
}

impl MemoryRegion {
    pub fn is_readable(&self) -> (r: bool)
        ensures
            r == protection_readable(self.protection),
    {
        match self.protection {
            MemoryProtection::ReadOnly | MemoryProtection::ReadWrite | MemoryProtection::ExecuteRead
            | MemoryProtection::ExecuteReadWrite | MemoryProtection::WriteCopy
            | MemoryProtection::ExecuteWriteCopy => true,
            _ => false,
        }
    }

    pub fn is_executable(&self) -> (r: bool)
        ensures
            r == protection_executable(self.protection),
    {
        match self.protection {
            MemoryProtection::Execute | MemoryProtection::ExecuteRead | MemoryProtection::ExecuteReadWrite
            | MemoryProtection::ExecuteWriteCopy => true,
            _ => false,
        }
    }

    pub fn is_writable(&self) -> (r: bool)
        ensures
            r == protection_writable(self.protection),
    {
        match self.protection {
            MemoryProtection::ReadWrite | MemoryProtection::ExecuteReadWrite | MemoryProtection::WriteCopy
            | MemoryProtection::ExecuteWriteCopy => true,
            _ => false,
        }
    }

    /// The first address past the region.
    pub fn end_address(&self) -> (r: usize)
        requires
            self.base_address + self.size <= usize::MAX,
        ensures
            r == self.base_address + self.size,
    {
        self.base_address + self.size
    }

    /// Whether `address` lies in `[base, base + size)`.
    pub fn contains_address(&self, address: usize) -> (r: bool)
        ensures
            r == (self.base_address <= address < self.base_address + self.size),
    {
        address >= self.base_address && address - self.base_address < self.size
    }
}

/// Errors of the memory layer.
#[derive(Debug, Clone, PartialEq, Eq)]
pub enum MemoryError {
    /// The target handle is invalid.
    ProcessAccessFailed,
    /// A read was denied or came back short.
    ReadFailed { address: usize, reason: String },
    /// A write was denied or went through only in part.
    WriteFailed { address: usize, reason: String },
    /// The region query failed.
    QueryFailed { reason: String },
    /// The address cannot be used.
    InvalidAddress { address: usize },
    /// A signature did not compile.
    PatternError(PatternError),
}

/// The outcome of a read of `requested` bytes at `address`: an error unless the
/// read succeeded and returned every byte; a short read is never accepted.
pub fn read_outcome(address: usize, requested: usize, succeeded: bool, transferred: usize) -> (r: Result<(), MemoryError>)
    ensures
        r is Ok <==> succeeded && transferred == requested,
        r is Err ==> (r->Err_0 matches MemoryError::ReadFailed { address: a, .. } && a == address),
{
    if !succeeded || transferred != requested {
        return Err(MemoryError::ReadFailed { address, reason: String::from_str("ReadProcessMemory failed") });
    }
    Ok(())
}

/// The outcome of a write of `requested` bytes at `address`: an error unless the
/// write succeeded and took every byte.
pub fn write_outcome(address: usize, requested: usize, succeeded: bool, transferred: usize) -> (r: Result<(), MemoryError>)
    ensures
        r is Ok <==> succeeded && transferred == requested,
        r is Err ==> (r->Err_0 matches MemoryError::WriteFailed { address: a, .. } && a == address),
{
    if !succeeded || transferred != requested {
        return Err(MemoryError::WriteFailed { address, reason: String::from_str("WriteProcessMemory failed") });
    }
    Ok(())
}

/// Which regions a memory scan reads.
#[derive(Debug, Clone, Copy, PartialEq, Eq, Structural)]
pub struct MemoryScanConfig {
    /// Scan executable regions.
    pub scan_executable: bool,
    /// Scan readable regions.
    pub scan_readable: bool,
    /// Scan writable regions.
    pub scan_writable: bool,
    /// Largest single read, in bytes.
    pub max_read_size: usize,
    /// Smallest region scanned, in bytes.
    pub min_region_size: usize,
    /// Step between scanned offsets.
    pub scan_alignment: usize,
}

impl Default for MemoryScanConfig {
    fn default() -> (r: Self)
        ensures
            r.scan_executable,
            r.scan_readable,
            !r.scan_writable,
            r.max_read_size == 1024 * 1024,
            r.min_region_size == 4096,
            r.scan_alignment == 1,
    {
        MemoryScanConfig {
            scan_executable: true,
            scan_readable: true,
            scan_writable: false,
            max_read_size: 1024 * 1024,
            min_region_size: 4096,
            scan_alignment: 1,
        }
    }
}

/// A region is scanned when it is committed, large enough, and has one of
/// the permissions the configuration asks for.
pub open spec fn scan_eligible(cfg: MemoryScanConfig, r: MemoryRegion) -> bool {
    &&& r.size >= cfg.min_region_size
    &&& r.state == MemoryState::Commit
    &&& {
        ||| cfg.scan_executable && protection_executable(r.protection)
        ||| cfg.scan_readable && protection_readable(r.protection)
        ||| cfg.scan_writable && protection_writable(r.protection)
    }
}

impl MemoryScanConfig {
    /// Whether a scan with this configuration reads `region`.
    pub fn should_scan_region(&self, region: &MemoryRegion) -> (r: bool)
        ensures
            r == scan_eligible(*self, *region),
    {
        if region.size < self.min_region_size {
            return false;
        }
        let has_permission = (self.scan_executable && region.is_executable()) || (self.scan_readable
            && region.is_readable()) || (self.scan_writable && region.is_writable());
        has_permission && region.state == MemoryState::Commit
    }
}

/// What a region query reported about the region at or after the queried
/// address, as raw values.
#[derive(Debug, Clone, Copy, PartialEq, Eq, Structural)]
pub struct RegionQuery {
    pub base_address: usize,
    pub size: usize,
    pub state: u32,
    pub protect: u32,
}

/// The region that a query result describes.
pub open spec fn region_of(q: RegionQuery) -> MemoryRegion {
    MemoryRegion {
        base_address: q.base_address,
        size: q.size,
        protection: protection_of(q.protect),
        state: state_of(q.state),
        region_type: MemoryType::Private,
    }
}

/// The answer is a non-empty region that ends past `cursor`.
pub open spec fn advances(q: RegionQuery, cursor: usize) -> bool {
    q.size > 0 && q.base_address + q.size > cursor
}

/// The walk of an address space from 0 upward, one region query at a time.
/// The caller queries `next_address()`, hands the answer to `record`, and
/// repeats until `is_done()`; `into_regions` then gives the committed regions.
pub struct RegionWalk {
    next: usize,
    done: bool,
    regions: Vec<MemoryRegion>,
}

impl RegionWalk {
    pub closed spec fn cursor(&self) -> usize {
        self.next
    }

    pub closed spec fn finished(&self) -> bool {
        self.done
    }

    pub closed spec fn found(&self) -> Seq<MemoryRegion> {
        self.regions@
    }

    /// A walk that starts at address 0.
    pub fn new() -> (r: Self)
        ensures
            r.cursor() == 0,
            !r.finished(),
            r.found() == Seq::<MemoryRegion>::empty(),
    {
        RegionWalk { next: 0, done: false, regions: Vec::new() }
    }

    /// The address to query next.
    pub fn next_address(&self) -> (r: usize)
        ensures
            r == self.cursor(),
    {
        self.next
    }

    /// Whether the walk has ended.
    pub fn is_done(&self) -> (r: bool)
        ensures
            r == self.finished(),
    {
        self.done
    }

    /// Takes one query answer. No answer (the end of the address space), a
    /// zero-sized region, or a region that does not end past the cursor ends
    /// the walk, and such a region is not kept; otherwise a committed region is
    /// kept and the cursor moves to the region's end, or the walk ends when
    /// that end is past the top of the address space. The cursor of an
    /// unfinished walk strictly increases, so the walk ends. A finished walk
    /// ignores further answers.
    pub fn record(&mut self, query: Option<RegionQuery>)
        ensures
            old(self).finished() ==> final(self).finished() && final(self).found() == old(self).found(),
            !old(self).finished() ==> match query {
                None => final(self).finished() && final(self).found() == old(self).found(),
                Some(q) => {
                    &&& final(self).found() == if advances(q, old(self).cursor()) && state_of(q.state)
                        == MemoryState::Commit {
                        old(self).found().push(region_of(q))
                    } else {
                        old(self).found()
                    }
                    &&& final(self).finished() == (!advances(q, old(self).cursor()) || q.base_address
                        + q.size > usize::MAX)
                    &&& !final(self).finished() ==> final(self).cursor() == q.base_address + q.size
                },
            },
            !final(self).finished() ==> final(self).cursor() > old(self).cursor(),
    {
        if self.done {
            return;
        }
        match query {
            None => {
                self.done = true;
            },
            Some(q) => {
                if q.size == 0 || (q.base_address <= usize::MAX - q.size && q.base_address + q.size
                    <= self.next) {
                    self.done = true;
                    return;
                }
                let state = MemoryState::from(q.state);
                if state == MemoryState::Commit {
                    self.regions.push(
                        MemoryRegion {
                            base_address: q.base_address,
                            size: q.size,
                            protection: MemoryProtection::from(q.protect),
                            state,
                            region_type: MemoryType::Private,
                        },
                    );
                }
                if q.base_address > usize::MAX - q.size {
                    self.done = true;
                } else {
                    self.next = q.base_address + q.size;
                }
            },
        }
    }

    /// The committed regions found, in address order.
    pub fn into_regions(self) -> (r: Vec<MemoryRegion>)
        ensures
            r@ == self.found(),
    {
        self.regions
    }
}

/// The offsets at which `pattern` occurs in `data`, for a non-empty `pattern`.
pub open spec fn byte_offsets_below(data: Seq<u8>, pattern: Seq<u8>, k: int) -> Seq<usize>
    decreases k,
{
    if k <= 0 {
        seq![]
    } else {
        let prev = byte_offsets_below(data, pattern, k - 1);
        if k - 1 + pattern.len() <= data.len() && data.subrange(k - 1, k - 1 + pattern.len()) == pattern {
            prev.push((k - 1) as usize)
        } else {
            prev
        }
    }
}

/// Every offset at which a non-empty `pattern` occurs in `data`, in order.
pub open spec fn byte_offsets(data: Seq<u8>, pattern: Seq<u8>) -> Seq<usize> {
    if pattern.len() == 0 || data.len() < pattern.len() {
        seq![]
    } else {
        byte_offsets_below(data, pattern, data.len() - pattern.len() + 1)
    }
}

/// The offsets at which the exact byte sequence `pattern` occurs in `data`.
pub fn find_byte_sequences(data: &[u8], pattern: &[u8]) -> (r: Vec<usize>)
    ensures
        r@ == byte_offsets(data@, pattern@),
{
    let mut matches: Vec<usize> = Vec::new();
    let m = pattern.len();
    if m == 0 || data.len() < m {
        return matches;
    }
    let last = data.len() - m;
    let mut i: usize = 0;
    while i <= last
        invariant
            m == pattern@.len(),
            m > 0,
            last + m == data.len(),
            i <= last + 1,
            matches@ == byte_offsets_below(data@, pattern@, i as int),
        decreases last + 1 - i,
    {
        let mut j: usize = 0;
        let mut same = true;
        while j < m && same
            invariant
                m == pattern@.len(),
                i + m <= data.len(),
                j <= m,
                same <==> forall|k: int| 0 <= k < j ==> data@[i + k] == #[trigger] pattern@[k],
            decreases m - j,
        {
            if data[i + j] != pattern[j] {
                same = false;
            }
            j = j + 1;
        }
        proof {
            if same {
                assert(data@.subrange(i as int, i + m) =~= pattern@);
            } else {
                if data@.subrange(i as int, i + m) == pattern@ {
                    assert forall|k: int| 0 <= k < j implies data@[i + k] == #[trigger] pattern@[k] by {
                        assert(data@.subrange(i as int, i + m)[k] == data@[i + k]);
                    }
                }
            }
        }
        if same {
            matches.push(i);
        }
        i = i + 1;
    }
    matches
}

/// What a scan result came from.
#[derive(Debug, Clone, Copy, PartialEq, Eq, Structural)]
pub enum ScanResultType {
    Pattern,
    Bytes,
    VTable,
}

/// One hit of a memory scan: its absolute address, its length, the region it
/// lies in, what found it, and the bytes found.
#[derive(Debug, Clone)]
pub struct ScanResult {
    pub address: usize,
    pub size: usize,
    pub region: MemoryRegion,
    pub result_type: ScanResultType,
    pub data: Vec<u8>,
}

/// `r` is the hit for match `m` in the bytes `d` of `region`.
pub open spec fn is_hit(r: ScanResult, region: MemoryRegion, d: Seq<u8>, m: PatternMatch, kind: ScanResultType) -> bool {
    &&& r.address == region.base_address + m.offset
    &&& r.size == m.size
    &&& r.region == region
    &&& r.result_type == kind
    &&& r.data@ == d.subrange(m.offset as int, m.offset + m.size)
}

/// The matches of a byte search, each `len` bytes long.
pub open spec fn offsets_as_matches(offsets: Seq<usize>, len: usize) -> Seq<PatternMatch> {
    offsets.map_values(|o: usize| PatternMatch { offset: o, size: len })
}

/// The occurrences of the exact bytes `bytes` in `data`, as matches.
pub fn byte_sequence_matches(data: &[u8], bytes: &[u8]) -> (r: Vec<PatternMatch>)
    ensures
        r@ == offsets_as_matches(byte_offsets(data@, bytes@), bytes@.len() as usize),
        forall|i: int| 0 <= i < r@.len() ==> (#[trigger] r@[i]).offset + r@[i].size <= data@.len(),
{
    let offsets = find_byte_sequences(data, bytes);
    let data_len = data.len();
    proof {
        assert(data_len == data@.len());
        lemma_byte_offsets_in_bounds(data@, bytes@);
    }
    let mut matches: Vec<PatternMatch> = Vec::new();
    let mut i: usize = 0;
    while i < offsets.len()
        invariant
            offsets@ == byte_offsets(data@, bytes@),
            i <= offsets@.len(),
            forall|k: int| 0 <= k < offsets@.len() ==> #[trigger] offsets@[k] + bytes@.len() <= data@.len(),
            matches@ == offsets_as_matches(offsets@.subrange(0, i as int), bytes@.len() as usize),
        decreases offsets@.len() - i,
    {
        matches.push(PatternMatch { offset: offsets[i], size: bytes.len() });
        i = i + 1;
        assert(matches@ =~= offsets_as_matches(offsets@.subrange(0, i as int), bytes@.len() as usize));
    }
    assert(offsets@.subrange(0, i as int) =~= offsets@);
    matches
}

proof fn lemma_byte_offsets_in_bounds(data: Seq<u8>, pattern: Seq<u8>)
    requires
        data.len() <= usize::MAX,
    ensures
        forall|k: int| 0 <= k < byte_offsets(data, pattern).len()
            ==> #[trigger] byte_offsets(data, pattern)[k] + pattern.len() <= data.len(),
{
    if pattern.len() > 0 && data.len() >= pattern.len() {
        lemma_byte_offsets_below_in_bounds(data, pattern, data.len() - pattern.len() + 1);
    }
}

proof fn lemma_byte_offsets_below_in_bounds(data: Seq<u8>, pattern: Seq<u8>, k: int)
    requires
        data.len() <= usize::MAX,
    ensures
        forall|i: int| 0 <= i < byte_offsets_below(data, pattern, k).len()
            ==> #[trigger] byte_offsets_below(data, pattern, k)[i] + pattern.len() <= data.len(),
    decreases k,
{
    if k > 0 {
        lemma_byte_offsets_below_in_bounds(data, pattern, k - 1);
        let prev = byte_offsets_below(data, pattern, k - 1);
        let cur = byte_offsets_below(data, pattern, k);
        assert forall|i: int| 0 <= i < cur.len() implies #[trigger] cur[i] + pattern.len() <= data.len() by {
            if i < prev.len() {
                assert(cur[i] == prev[i]);
            }
        }
    }
}

/// Two upper-case hex digits for a byte.
pub open spec fn byte_hex(b: u8) -> Seq<u8> {
    seq![hex_digit((b / 16) as nat), hex_digit((b % 16) as nat)]
}

/// The bytes of `c` in hex, separated by single spaces.
pub open spec fn hex_pairs(c: Seq<u8>) -> Seq<u8>
    decreases c.len(),
{
    if c.len() == 0 {
        seq![]
    } else if c.len() == 1 {
        byte_hex(c[0])
    } else {
        hex_pairs(c.drop_last()) + seq![0x20u8] + byte_hex(c.last())
    }
}

/// `s` padded on the right with spaces to at least `width` bytes.
pub open spec fn space_padded(s: Seq<u8>, width: nat) -> Seq<u8> {
    if s.len() >= width {
        s
    } else {
        s + Seq::new((width - s.len()) as nat, |i: int| 0x20u8)
    }
}

/// Graphic ASCII bytes as themselves, every other byte as `.`.
pub open spec fn ascii_column(c: Seq<u8>) -> Seq<u8> {
    c.map_values(|b: u8| if 0x21 <= b <= 0x7E { b } else { 0x2Eu8 })
}

/// One line of a hex dump: the address in at least eight hex digits, two
/// spaces, the bytes in hex padded to 47 columns, then ` |`, the ASCII column
/// and `|`.
pub open spec fn dump_line(address: nat, c: Seq<u8>) -> Seq<u8> {
    zero_padded(hex_bytes(address), 8) + seq![0x20u8, 0x20u8] + space_padded(hex_pairs(c), 47) + seq![
        0x20u8,
        0x7Cu8,
    ] + ascii_column(c) + seq![0x7Cu8]
}

/// The 16-byte chunk `k` of `d` (the last one may be shorter).
pub open spec fn chunk(d: Seq<u8>, k: int) -> Seq<u8> {
    d.subrange(16 * k, if 16 * k + 16 <= d.len() {
        16 * k + 16
    } else {
        d.len() as int
    })
}

/// The dump lines of the first `k` chunks, separated by newlines.
pub open spec fn dump_lines(address: nat, d: Seq<u8>, k: int) -> Seq<u8>
    decreases k,
{
    if k <= 0 {
        seq![]
    } else if k == 1 {
        dump_line(address, chunk(d, 0))
    } else {
        dump_lines(address, d, k - 1) + seq![0x0Au8] + dump_line((address + 16 * (k - 1)) as nat, chunk(d, k - 1))
    }
}

/// The number of 16-byte chunks of `d`.
pub open spec fn chunk_count(d: Seq<u8>) -> int {
    (d.len() + 15) as int / 16
}

proof fn lemma_dump_ascii(address: nat, d: Seq<u8>, k: int)
    ensures
        is_ascii_bytes(dump_lines(address, d, k)),
    decreases k,
{
    if k > 0 {
        if k > 1 {
            lemma_dump_ascii(address, d, k - 1);
        }
        lemma_line_ascii((address + 16 * (k - 1)) as nat, chunk(d, k - 1));
        lemma_line_ascii(address, chunk(d, 0));
    }
}

proof fn lemma_hex_pairs_ascii(c: Seq<u8>)
    ensures
        is_ascii_bytes(hex_pairs(c)),
    decreases c.len(),
{
    if c.len() > 1 {
        lemma_hex_pairs_ascii(c.drop_last());
    }
}

proof fn lemma_hex_ascii(n: nat)
    ensures
        is_ascii_bytes(hex_bytes(n)),
    decreases n,
{
    if n >= 16 {
        lemma_hex_ascii(n / 16);
    }
}

proof fn lemma_line_ascii(address: nat, c: Seq<u8>)
    ensures
        is_ascii_bytes(dump_line(address, c)),
{
    lemma_hex_pairs_ascii(c);
    lemma_hex_ascii(address);
    let a = zero_padded(hex_bytes(address), 8);
    assert(is_ascii_bytes(a));
    let h = space_padded(hex_pairs(c), 47);
    assert(is_ascii_bytes(h));
    assert(is_ascii_bytes(ascii_column(c)));
}

fn push_byte_hex(b: u8, out: &mut Vec<u8>)
    ensures
        final(out)@ == old(out)@ + byte_hex(b),
{
    let hi = b / 16;
    let lo = b % 16;
    out.push(if hi < 10 {
        48 + hi
    } else {
        55 + hi
    });
    out.push(if lo < 10 {
        48 + lo
    } else {
        55 + lo
    });
    assert(out@ =~= old(out)@ + byte_hex(b));
}

fn push_dump_line(address: usize, data: &[u8], start: usize, end: usize, out: &mut Vec<u8>)
    requires
        start <= end <= data@.len(),
    ensures
        final(out)@ == old(out)@ + dump_line(address as nat, data@.subrange(start as int, end as int)),
{
    let ghost c = data@.subrange(start as int, end as int);
    let addr = crate::text::hex_string_padded_bytes(address, 8);
    out.append(&mut addr.clone());
    out.push(0x20);
    out.push(0x20);
    let ghost before_hex = out@;
    let hex_start = out.len();
    let mut i: usize = start;
    while i < end
        invariant
            start <= i <= end,
            end <= data@.len(),
            c == data@.subrange(start as int, end as int),
            out@ == before_hex + hex_pairs(c.subrange(0, i - start)),
            hex_start == before_hex.len(),
        decreases end - i,
    {
        if i > start {
            out.push(0x20);
        }
        push_byte_hex(data[i], out);
        proof {
            let p = c.subrange(0, i + 1 - start);
            assert(p.drop_last() =~= c.subrange(0, i - start));
            assert(p.last() == data@[i as int]);
            if i == start {
                assert(c.subrange(0, 0) =~= Seq::<u8>::empty());
            }
        }
        i = i + 1;
    }
    assert(c.subrange(0, end - start) =~= c);
    let ghost hex_len = (out@.len() - before_hex.len()) as int;
    let mut pad = out.len() - hex_start;
    let ghost before_pad = out@;
    while pad < 47
        invariant
            out@.len() >= before_pad.len(),
            out@ == before_pad + Seq::new((out@.len() - before_pad.len()) as nat, |j: int| 0x20u8),
            pad == hex_len + (out@.len() - before_pad.len()),
            before_pad == before_hex + hex_pairs(c),
            hex_len == hex_pairs(c).len(),
            out@.len() == before_pad.len() || pad <= 47,
        decreases 47 - pad,
    {
        out.push(0x20);
        pad = pad + 1;
        assert(out@ =~= before_pad + Seq::new((out@.len() - before_pad.len()) as nat, |j: int| 0x20u8));
    }
    assert(out@ =~= before_hex + space_padded(hex_pairs(c), 47));
    out.push(0x20);
    out.push(0x7C);
    let ghost before_ascii = out@;
    let mut k: usize = start;
    while k < end
        invariant
            start <= k <= end,
            end <= data@.len(),
            c == data@.subrange(start as int, end as int),
            out@ == before_ascii + ascii_column(c.subrange(0, k - start)),
        decreases end - k,
    {
        let b = data[k];
        out.push(if 0x21 <= b && b <= 0x7E {
            b
        } else {
            0x2E
        });
        k = k + 1;
        assert(out@ =~= before_ascii + ascii_column(c.subrange(0, k - start)));
    }
    assert(c.subrange(0, end - start) =~= c);
    out.push(0x7C);
    assert(out@ =~= old(out)@ + dump_line(address as nat, c));
}

impl ScanResult {
    /// The found bytes as a hex dump: one line per 16 bytes, each with its
    /// absolute address, the bytes in hex and an ASCII column.
    pub fn hexdump(&self) -> (r: String)
        requires
            self.address + self.data@.len() <= usize::MAX,
        ensures
            r@ == crate::text::ascii_text(dump_lines(self.address as nat, self.data@, chunk_count(self.data@))),
    {
        let data = self.data.as_slice();
        let n = data.len();
        let chunks = n / 16 + if n % 16 == 0 {
            0
        } else {
            1
        };
        let mut out: Vec<u8> = Vec::new();
        let mut k: usize = 0;
        while k < chunks
            invariant
                n == data@.len(),
                data@ == self.data@,
                chunks == chunk_count(data@),
                self.address + n <= usize::MAX,
                k <= chunks,
                out@ == dump_lines(self.address as nat, data@, k as int),
            decreases chunks - k,
        {
            let start = 16 * k;
            let end = if n - start >= 16 {
                start + 16
            } else {
                n
            };
            if k > 0 {
                out.push(0x0A);
            }
            let ghost before = out@;
            push_dump_line(self.address + start, data, start, end, &mut out);
            proof {
                assert(chunk(data@, k as int) == data@.subrange(start as int, end as int));
                if k == 0 {
                    assert(before =~= Seq::<u8>::empty());
                    assert(out@ =~= dump_line(self.address as nat, chunk(data@, 0)));
                }
            }
            k = k + 1;
        }
        proof {
            lemma_dump_ascii(self.address as nat, data@, chunks as int);
        }
        ascii_string(out)
    }

    /// The hits for `matches` in the bytes `data` of `region`, in order.
    pub fn from_matches(
        region: &MemoryRegion,
        data: &[u8],
        matches: &[PatternMatch],
        result_type: ScanResultType,
    ) -> (r: Vec<ScanResult>)
        requires
            region.base_address + data@.len() <= usize::MAX,
            forall|i: int| 0 <= i < matches@.len() ==> (#[trigger] matches@[i]).offset + matches@[i].size
                <= data@.len(),
        ensures
            r@.len() == matches@.len(),
            forall|i: int| 0 <= i < r@.len() ==> is_hit(#[trigger] r@[i], *region, data@, matches@[i], result_type),
    {
        let mut results: Vec<ScanResult> = Vec::new();
        let mut i: usize = 0;
        while i < matches.len()
            invariant
                i <= matches@.len(),
                region.base_address + data@.len() <= usize::MAX,
                forall|k: int| 0 <= k < matches@.len() ==> (#[trigger] matches@[k]).offset + matches@[k].size
                    <= data@.len(),
                results@.len() == i,
                forall|k: int| 0 <= k < i ==> is_hit(#[trigger] results@[k], *region, data@, matches@[k], result_type),
            decreases matches@.len() - i,
        {
            let m = matches[i];
            let mut bytes: Vec<u8> = Vec::new();
            let mut j: usize = m.offset;
            let end = m.offset + m.size;
            while j < end
                invariant
                    m.offset <= j <= end,
                    end == m.offset + m.size,
                    end <= data@.len(),
                    bytes@ == data@.subrange(m.offset as int, j as int),
                decreases end - j,
            {
                bytes.push(data[j]);
                j = j + 1;
                assert(bytes@ =~= data@.subrange(m.offset as int, j as int));
            }
            results.push(
                ScanResult {
                    address: region.base_address + m.offset,
                    size: m.size,
                    region: *region,
                    result_type,
                    data: bytes,
                },
            );
            i = i + 1;
        }
        results
    }
}

/// A test on a region, one of those a `RegionFilter` combines.
#[derive(Debug, Clone, Copy, PartialEq, Eq, Structural)]
pub enum RegionCriterion {
    Executable,
    Readable,
    Writable,
    /// The region is at least this many bytes.
    MinSize(usize),
    /// The region lies within `[start, end]`.
    AddressRange(usize, usize),
}

pub open spec fn criterion_holds(c: RegionCriterion, r: MemoryRegion) -> bool {
    match c {
        RegionCriterion::Executable => protection_executable(r.protection),
        RegionCriterion::Readable => protection_readable(r.protection),
        RegionCriterion::Writable => protection_writable(r.protection),
        RegionCriterion::MinSize(n) => r.size >= n,
        RegionCriterion::AddressRange(start, end) => r.base_address >= start && r.base_address + r.size <= end,
    }
}

/// Every criterion of `cs` holds of `r`.
pub open spec fn all_hold(cs: Seq<RegionCriterion>, r: MemoryRegion) -> bool {
    forall|i: int| 0 <= i < cs.len() ==> criterion_holds(#[trigger] cs[i], r)
}

/// Adding a criterion to a filter narrows it by exactly that criterion: a
/// region passes the longer list if and only if it passes the shorter one and
/// the new criterion.
pub proof fn lemma_filter_and(cs: Seq<RegionCriterion>, c: RegionCriterion, r: MemoryRegion)
    ensures
        all_hold(cs.push(c), r) == (all_hold(cs, r) && criterion_holds(c, r)),
{
    if all_hold(cs.push(c), r) {
        assert(cs.push(c)[cs.len() as int] == c);
        assert forall|i: int| 0 <= i < cs.len() implies criterion_holds(#[trigger] cs[i], r) by {
            assert(cs.push(c)[i] == cs[i]);
        }
    }
    if all_hold(cs, r) && criterion_holds(c, r) {
        assert forall|i: int| 0 <= i < cs.len() + 1 implies criterion_holds(#[trigger] cs.push(c)[i], r) by {
            if i < cs.len() {
                assert(cs.push(c)[i] == cs[i]);
            }
        }
    }
}

/// The regions among the first `k` of `regions` that pass every criterion.
pub open spec fn regions_passing(cs: Seq<RegionCriterion>, regions: Seq<MemoryRegion>, k: int) -> Seq<MemoryRegion>
    decreases k,
{
    if k <= 0 {
        seq![]
    } else {
        let prev = regions_passing(cs, regions, k - 1);
        if all_hold(cs, regions[k - 1]) {
            prev.push(regions[k - 1])
        } else {
            prev
        }
    }
}

/// A conjunction of region tests, built up one test at a time.
pub struct RegionFilter {
    criteria: Vec<RegionCriterion>,
}

impl Default for RegionFilter {
    fn default() -> (r: Self)
        ensures
            r.criteria_view() == Seq::<RegionCriterion>::empty(),
    {
        Self::new()
    }
}

impl RegionFilter {
    /// The tests, in the order they were added.
    pub closed spec fn criteria_view(&self) -> Seq<RegionCriterion> {
        self.criteria@
    }

    /// A filter with no test, which every region passes.
    pub fn new() -> (r: Self)
        ensures
            r.criteria_view() == Seq::<RegionCriterion>::empty(),
    {
        RegionFilter { criteria: Vec::new() }
    }

    /// Adds a test.
    pub fn with_criterion(self, criterion: RegionCriterion) -> (r: Self)
        ensures
            r.criteria_view() == self.criteria_view().push(criterion),
    {
        let mut criteria = self.criteria;
        criteria.push(criterion);
        RegionFilter { criteria }
    }

    /// Adds: the region is executable.
    pub fn executable(self) -> (r: Self)
        ensures
            r.criteria_view() == self.criteria_view().push(RegionCriterion::Executable),
    {
        self.with_criterion(RegionCriterion::Executable)
    }

    /// Adds: the region is readable.
    pub fn readable(self) -> (r: Self)
        ensures
            r.criteria_view() == self.criteria_view().push(RegionCriterion::Readable),
    {
        self.with_criterion(RegionCriterion::Readable)
    }

    /// Adds: the region is writable.
    pub fn writable(self) -> (r: Self)
        ensures
            r.criteria_view() == self.criteria_view().push(RegionCriterion::Writable),
    {
        self.with_criterion(RegionCriterion::Writable)
    }

    /// Adds: the region is at least `size` bytes.
    pub fn min_size(self, size: usize) -> (r: Self)
        ensures
            r.criteria_view() == self.criteria_view().push(RegionCriterion::MinSize(size)),
    {
        self.with_criterion(RegionCriterion::MinSize(size))
    }

    /// Adds: the region lies within `[start, end]`.
    pub fn address_range(self, start: usize, end: usize) -> (r: Self)
        ensures
            r.criteria_view() == self.criteria_view().push(RegionCriterion::AddressRange(start, end)),
    {
        self.with_criterion(RegionCriterion::AddressRange(start, end))
    }

    /// Whether `region` passes every test.
    pub fn matches(&self, region: &MemoryRegion) -> (r: bool)
        ensures
            r == all_hold(self.criteria_view(), *region),
    {
        let mut i: usize = 0;
        while i < self.criteria.len()
            invariant
                i <= self.criteria@.len(),
                forall|k: int| 0 <= k < i ==> criterion_holds(#[trigger] self.criteria@[k], *region),
            decreases self.criteria@.len() - i,
        {
            let holds = match self.criteria[i] {
                RegionCriterion::Executable => region.is_executable(),
                RegionCriterion::Readable => region.is_readable(),
                RegionCriterion::Writable => region.is_writable(),
                RegionCriterion::MinSize(size) => region.size >= size,
                RegionCriterion::AddressRange(start, end) => region.base_address >= start && end
                    >= region.base_address && region.size <= end - region.base_address,
            };
            if !holds {
                assert(!criterion_holds(self.criteria@[i as int], *region));
                return false;
            }
            i = i + 1;
        }
        true
    }

    /// The regions that pass every test, in order.
    pub fn filter_regions<'a>(&self, regions: &'a [MemoryRegion]) -> (r: Vec<&'a MemoryRegion>)
        ensures
            r@.map_values(|x: &MemoryRegion| *x) == regions_passing(self.criteria_view(), regions@, regions@.len() as int),
    {
        let mut passing: Vec<&'a MemoryRegion> = Vec::new();
        let mut i: usize = 0;
        while i < regions.len()
            invariant
                i <= regions@.len(),
                passing@.map_values(|x: &MemoryRegion| *x) == regions_passing(self.criteria_view(), regions@, i as int),
            decreases regions@.len() - i,
        {
            let region = &regions[i];
            let ghost before = passing@;
            if self.matches(region) {
                passing.push(region);
                assert(passing@.map_values(|x: &MemoryRegion| *x) =~= before.map_values(|x: &MemoryRegion| *x).push(*region));
            }
            i = i + 1;
        }
        passing
    }
}

/// The number of regions among the first `k` that meet `c`.
pub open spec fn count_regions(regions: Seq<MemoryRegion>, c: RegionCriterion, k: int) -> nat
    decreases k,
{
    if k <= 0 {
        0
    } else {
        count_regions(regions, c, k - 1) + if criterion_holds(c, regions[k - 1]) {
            1nat
        } else {
            0nat
        }
    }
}

/// The total number of entries of the first `k` tables.
pub open spec fn total_entries(vtables: Seq<VTable>, k: int) -> nat
    decreases k,
{
    if k <= 0 {
        0
    } else {
        total_entries(vtables, k - 1) + vtables[k - 1].functions@.len()
    }
}

proof fn lemma_count_bound(regions: Seq<MemoryRegion>, c: RegionCriterion, k: int)
    requires
        0 <= k,
    ensures
        count_regions(regions, c, k) <= k,
    decreases k,
{
    if k > 0 {
        lemma_count_bound(regions, c, k - 1);
    }
}

proof fn lemma_total_entries_mono(vtables: Seq<VTable>, j: int, k: int)
    requires
        0 <= j <= k,
    ensures
        total_entries(vtables, j) <= total_entries(vtables, k),
    decreases k - j,
{
    if j < k {
        lemma_total_entries_mono(vtables, j, k - 1);
    }
}

/// Everything a full scan found: the pattern hits, the tables, and the
/// regions walked.
#[derive(Debug)]
pub struct ComprehensiveScanResult {
    pub pattern_matches: Vec<ScanResult>,
    pub vtables: Vec<VTable>,
    pub memory_regions: Vec<MemoryRegion>,
}

/// Counts over a full scan.
#[derive(Debug, Clone, Copy, PartialEq, Eq, Structural)]
pub struct ScanStatistics {
    pub total_regions: usize,
    pub executable_regions: usize,
    pub readable_regions: usize,
    pub writable_regions: usize,
    pub pattern_matches: usize,
    pub vtables_found: usize,
    pub total_virtual_functions: usize,
}

impl ComprehensiveScanResult {
    /// Region counts by permission, the number of hits and tables, and the
    /// total number of table entries.
    pub fn statistics(&self) -> (r: ScanStatistics)
        requires
            total_entries(self.vtables@, self.vtables@.len() as int) <= usize::MAX,
        ensures
            r.total_regions == self.memory_regions@.len(),
            r.executable_regions == count_regions(self.memory_regions@, RegionCriterion::Executable, self.memory_regions@.len() as int),
            r.readable_regions == count_regions(self.memory_regions@, RegionCriterion::Readable, self.memory_regions@.len() as int),
            r.writable_regions == count_regions(self.memory_regions@, RegionCriterion::Writable, self.memory_regions@.len() as int),
            r.pattern_matches == self.pattern_matches@.len(),
            r.vtables_found == self.vtables@.len(),
            r.total_virtual_functions == total_entries(self.vtables@, self.vtables@.len() as int),
    {
        let ghost regions = self.memory_regions@;
        let n = self.memory_regions.len();
        let mut executable: usize = 0;
        let mut readable: usize = 0;
        let mut writable: usize = 0;
        let mut i: usize = 0;
        while i < n
            invariant
                n == regions.len(),
                regions == self.memory_regions@,
                i <= n,
                executable == count_regions(regions, RegionCriterion::Executable, i as int),
                readable == count_regions(regions, RegionCriterion::Readable, i as int),
                writable == count_regions(regions, RegionCriterion::Writable, i as int),
            decreases n - i,
        {
            proof {
                lemma_count_bound(regions, RegionCriterion::Executable, i as int);
                lemma_count_bound(regions, RegionCriterion::Readable, i as int);
                lemma_count_bound(regions, RegionCriterion::Writable, i as int);
            }
            let region = &self.memory_regions[i];
            if region.is_executable() {
                executable = executable + 1;
            }
            if region.is_readable() {
                readable = readable + 1;
            }
            if region.is_writable() {
                writable = writable + 1;
            }
            i = i + 1;
        }
        let mut total: usize = 0;
        let mut k: usize = 0;
        while k < self.vtables.len()
            invariant
                k <= self.vtables@.len(),
                total == total_entries(self.vtables@, k as int),
                total_entries(self.vtables@, self.vtables@.len() as int) <= usize::MAX,
            decreases self.vtables@.len() - k,
        {
            proof {
                lemma_total_entries_mono(self.vtables@, k + 1, self.vtables@.len() as int);
            }
            total = total + self.vtables[k].function_count();
            k = k + 1;
        }
        ScanStatistics {
            total_regions: n,
            executable_regions: executable,
            readable_regions: readable,
            writable_regions: writable,
            pattern_matches: self.pattern_matches.len(),
            vtables_found: self.vtables.len(),
            total_virtual_functions: total,
        }
    }
}

/// The report of scan counts, one line each.
pub open spec fn scan_statistics_text(s: ScanStatistics) -> Seq<char> {
    "Scan Statistics:\n  Memory Regions: "@ + decimal_text(s.total_regions as nat) + "\n    Executable: "@
        + decimal_text(s.executable_regions as nat) + "\n    Readable: "@ + decimal_text(
        s.readable_regions as nat,
    ) + "\n    Writable: "@ + decimal_text(s.writable_regions as nat) + "\n  Pattern Matches: "@
        + decimal_text(s.pattern_matches as nat) + "\n  VTables Found: "@ + decimal_text(
        s.vtables_found as nat,
    ) + "\n  Virtual Functions: "@ + decimal_text(s.total_virtual_functions as nat) + "\n"@
}

impl ScanStatistics {
    /// The report of the counts (see `scan_statistics_text`).
    pub fn to_string(&self) -> (r: String)
        ensures
            r@ == scan_statistics_text(*self),
    {
        let mut out = String::from_str("Scan Statistics:\n  Memory Regions: ");
        out.append(decimal_string(self.total_regions as u64).as_str());
        out.append("\n    Executable: ");
        out.append(decimal_string(self.executable_regions as u64).as_str());
        out.append("\n    Readable: ");
        out.append(decimal_string(self.readable_regions as u64).as_str());
        out.append("\n    Writable: ");
        out.append(decimal_string(self.writable_regions as u64).as_str());
        out.append("\n  Pattern Matches: ");
        out.append(decimal_string(self.pattern_matches as u64).as_str());
        out.append("\n  VTables Found: ");
        out.append(decimal_string(self.vtables_found as u64).as_str());
        out.append("\n  Virtual Functions: ");
        out.append(decimal_string(self.total_virtual_functions as u64).as_str());
        out.append("\n");
        assert(out@ =~= scan_statistics_text(*self));
        out
    }
}

} // verus!
