//! Locating virtual-function tables in a byte buffer, and reconstructing
//! single inheritance from them.
use std::collections::HashMap;
use vstd::prelude::*;

use crate::pattern::{HybridMatcher, Pattern, PatternError, PatternMatch, PatternMatcher, PatternScanner};
use crate::text::{decimal_string, decimal_text, hex_string, hex_text};

verus! {

/// The width of a pointer slot, in bytes.
pub const POINTER_SIZE: usize = 8;

/// 256 to the power `n`.
pub open spec fn pow256(n: nat) -> nat
    decreases n,
{
    if n == 0 {
        1
    } else {
        256 * pow256((n - 1) as nat)
    }
}

proof fn lemma_pow256_mono(a: nat, b: nat)
    requires
        a <= b,
    ensures
        pow256(a) <= pow256(b),
    decreases b,
{
    if a < b {
        lemma_pow256_mono(a, (b - 1) as nat);
    }
}

/// The little-endian value of a byte sequence.
pub open spec fn le_value(b: Seq<u8>) -> nat
    decreases b.len(),
{
    if b.len() == 0 {
        0
    } else {
        b[0] as nat + 256 * le_value(b.drop_first())
    }
}

/// The little-endian 8-byte word at `off`.
pub open spec fn word_at(d: Seq<u8>, off: int) -> nat {
    le_value(d.subrange(off, off + 8))
}

/// The pointer stored in the slot at `off`: null when the slot runs past the
/// end of the data, or holds a value wider than an address.
pub open spec fn pointer_at(d: Seq<u8>, off: int) -> int {
    if 0 <= off && off + 8 <= d.len() && word_at(d, off) <= usize::MAX {
        word_at(d, off) as int
    } else {
        0
    }
}

/// `addr` lies in `[base, base + len]`, the bounds used for pointers into a
/// region of `len` bytes at `base`.
pub open spec fn within_bounds(addr: int, d: Seq<u8>, base: int) -> bool {
    base <= addr <= base + d.len()
}

/// Recognised x86-64 function prologues over four bytes: `push rbp; mov rbp,
/// rsp` (two encodings), `sub rsp, imm8`, `sub rsp, imm32`, `push rbx`,
/// `mov [rsp+8], rcx`, and an `int3` breakpoint.
pub open spec fn is_x64_prologue(b0: u8, b1: u8, b2: u8, b3: u8) -> bool {
    ||| (b0 == 0x55 && b1 == 0x48 && b2 == 0x89 && b3 == 0xE5)
    ||| (b0 == 0x55 && b1 == 0x48 && b2 == 0x8B && b3 == 0xEC)
    ||| (b0 == 0x48 && b1 == 0x83 && b2 == 0xEC)
    ||| (b0 == 0x48 && b1 == 0x81 && b2 == 0xEC)
    ||| b0 == 0x53
    ||| (b0 == 0x48 && b1 == 0x89 && b2 == 0x4C && b3 == 0x24)
    ||| b0 == 0xCC
}

/// The four bytes at `off` exist and form a recognised prologue.
pub open spec fn prologue_at(d: Seq<u8>, off: int) -> bool {
    &&& 0 <= off
    &&& off + 4 <= d.len()
    &&& is_x64_prologue(d[off], d[off + 1], d[off + 2], d[off + 3])
}

/// `addr` is non-null, points into the region, and the code there starts
/// with a recognised prologue.
pub open spec fn valid_function_pointer(addr: int, d: Seq<u8>, base: int) -> bool {
    &&& addr != 0
    &&& within_bounds(addr, d, base)
    &&& addr - base < d.len()
    &&& prologue_at(d, addr - base)
}

/// `addr` is non-null and points into the region with at least 16 bytes after
/// it, and the word there is a non-null pointer into the region.
pub open spec fn looks_like_type_info(addr: int, d: Seq<u8>, base: int) -> bool {
    &&& addr != 0
    &&& within_bounds(addr, d, base)
    &&& addr - base + 16 <= d.len()
    &&& word_at(d, addr - base) != 0
    &&& within_bounds(word_at(d, addr - base) as int, d, base)
}

/// One entry of a virtual table: the function's address and its position.
#[derive(Debug, Clone, Copy, PartialEq, Eq, Hash, Structural)]
pub struct VirtualFunction {
    pub address: usize,
    pub index: usize,
}

/// A virtual table: where it starts, its entries in order, the type-info
/// pointer before it if one was found, and its size in bytes (one pointer per
/// entry, plus one for the type-info pointer).
#[derive(Debug, Clone)]
pub struct VTable {
    pub base_address: usize,
    pub functions: Vec<VirtualFunction>,
    pub type_info_ptr: Option<usize>,
    pub size: usize,
}

/// The value of a `VTable`.
pub struct VTableView {
    pub base_address: usize,
    pub functions: Seq<VirtualFunction>,
    pub type_info_ptr: Option<usize>,
    pub size: usize,
}

impl View for VTable {
    type V = VTableView;

    open spec fn view(&self) -> VTableView {
        VTableView {
            base_address: self.base_address,
            functions: self.functions@,
            type_info_ptr: self.type_info_ptr,
            size: self.size,
        }
    }
}

/// The size of a table with `count` entries, with or without a type-info
/// pointer.
pub open spec fn table_size(count: int, has_type_info: bool) -> int {
    count * 8 + if has_type_info {
        8int
    } else {
        0int
    }
}

/// The class name given to the table at `base`: `Class_` and the address in
/// upper-case hex.
pub open spec fn class_name_of(base: usize) -> Seq<char> {
    seq!['C', 'l', 'a', 's', 's', '_'] + hex_text(base as nat)
}

impl VTable {
    /// An empty table at `base_address`.
    pub fn new(base_address: usize) -> (r: Self)
        ensures
            r@.base_address == base_address,
            r@.functions == Seq::<VirtualFunction>::empty(),
            r@.type_info_ptr is None,
            r@.size == 0,
    {
        VTable { base_address, functions: Vec::new(), type_info_ptr: None, size: 0 }
    }

    /// Appends an entry and updates the size.
    pub fn add_function(&mut self, address: usize, index: usize)
        requires
            table_size(old(self).functions@.len() + 1int, old(self).type_info_ptr is Some) <= usize::MAX,
        ensures
            final(self).functions@ == old(self).functions@.push(VirtualFunction { address, index }),
            final(self).base_address == old(self).base_address,
            final(self).type_info_ptr == old(self).type_info_ptr,
            final(self).size == table_size(final(self).functions@.len() as int, final(self).type_info_ptr is Some),
    {
        self.functions.push(VirtualFunction { address, index });
        let extra: usize = if self.type_info_ptr.is_some() {
            POINTER_SIZE
        } else {
            0
        };
        self.size = self.functions.len() * POINTER_SIZE + extra;
    }

    /// The number of entries.
    pub fn function_count(&self) -> (r: usize)
        ensures
            r == self.functions@.len(),
    {
        self.functions.len()
    }

    /// The entry at `index`, if there is one.
    pub fn get_function(&self, index: usize) -> (r: Option<VirtualFunction>)
        ensures
            r == (if index < self.functions@.len() {
                Some(self.functions@[index as int])
            } else {
                None
            }),
    {
        if index < self.functions.len() {
            Some(self.functions[index])
        } else {
            None
        }
    }

    /// Whether some entry points at `address`.
    pub fn contains_function(&self, address: usize) -> (r: bool)
        ensures
            r == exists|i: int| 0 <= i < self.functions@.len() && (#[trigger] self.functions@[i]).address == address,
    {
        let mut i: usize = 0;
        while i < self.functions.len()
            invariant
                i <= self.functions@.len(),
                forall|k: int| 0 <= k < i ==> (#[trigger] self.functions@[k]).address != address,
            decreases self.functions@.len() - i,
        {
            if self.functions[i].address == address {
                return true;
            }
            i = i + 1;
        }
        false
    }

    /// A placeholder class name derived from the table's address (no type
    /// information is decoded).
    pub fn estimated_class_name(&self) -> (r: Option<String>)
        ensures
            r is Some,
            r->0@ == class_name_of(self.base_address),
    {
        let mut name = String::from_str("Class_");
        let hex = hex_string(self.base_address);
        name.append(hex.as_str());
        proof {
            reveal_strlit("Class_");
            assert(name@ =~= class_name_of(self.base_address));
        }
        Some(name)
    }
}

/// The listing lines of the first `k` entries: index and address.
pub open spec fn entry_lines(fs: Seq<VirtualFunction>, k: int) -> Seq<char>
    decreases k,
{
    if k <= 0 {
        seq![]
    } else {
        entry_lines(fs, k - 1) + "    ["@ + decimal_text(fs[k - 1].index as nat) + "]: 0x"@ + hex_text(
            fs[k - 1].address as nat,
        ) + "\n"@
    }
}

/// A table's listing: its address, its type-info pointer if any, and its
/// entries, one line each.
pub open spec fn vtable_text(v: VTableView) -> Seq<char> {
    "VTable @ 0x"@ + hex_text(v.base_address as nat) + ":\n"@ + match v.type_info_ptr {
        Some(t) => "  Type Info: 0x"@ + hex_text(t as nat) + "\n"@,
        None => seq![],
    } + "  Functions ("@ + decimal_text(v.functions.len()) + "):\n"@ + entry_lines(
        v.functions,
        v.functions.len() as int,
    )
}

impl VTable {
    /// The table's listing (see `vtable_text`).
    pub fn to_string(&self) -> (r: String)
        ensures
            r@ == vtable_text(self@),
    {
        let mut out = String::from_str("VTable @ 0x");
        out.append(hex_string(self.base_address).as_str());
        out.append(":\n");
        let ghost head = out@;
        if let Some(type_info) = self.type_info_ptr {
            out.append("  Type Info: 0x");
            out.append(hex_string(type_info).as_str());
            out.append("\n");
        }
        out.append("  Functions (");
        out.append(decimal_string(self.functions.len() as u64).as_str());
        out.append("):\n");
        let ghost fixed = out@;
        let mut i: usize = 0;
        while i < self.functions.len()
            invariant
                i <= self.functions@.len(),
                out@ == fixed + entry_lines(self.functions@, i as int),
            decreases self.functions@.len() - i,
        {
            let func = self.functions[i];
            out.append("    [");
            out.append(decimal_string(func.index as u64).as_str());
            out.append("]: 0x");
            out.append(hex_string(func.address).as_str());
            out.append("\n");
            i = i + 1;
            assert(out@ =~= fixed + entry_lines(self.functions@, i as int));
        }
        assert(out@ =~= vtable_text(self@));
        out
    }
}

/// Pointer and code heuristics over a region's bytes.
pub struct CodeHeuristics;

/// Reads the little-endian word at `offset`.
pub(crate) fn read_word(data: &[u8], offset: usize) -> (r: u64)
    requires
        offset + 8 <= data@.len(),
    ensures
        r == word_at(data@, offset as int),
{
    let ghost d = data@;
    let mut acc: u64 = 0;
    let mut k: usize = 8;
    proof {
        assert(d.subrange(offset + 8, offset + 8) =~= Seq::<u8>::empty());
        reveal_with_fuel(pow256, 9);
        assert(pow256(8) == 0x1_0000_0000_0000_0000);
    }
    while k > 0
        invariant
            d == data@,
            offset + 8 <= data.len(),
            k <= 8,
            acc == le_value(d.subrange(offset + k, offset + 8)),
            acc < pow256((8 - k) as nat),
            pow256(8) == 0x1_0000_0000_0000_0000,
        decreases k,
    {
        let ghost prev = d.subrange(offset + k, offset + 8);
        k = k - 1;
        proof {
            lemma_pow256_mono((8 - k - 1) as nat, 7);
            assert(pow256(8) == 256 * pow256(7));
            let cur = d.subrange(offset + k, offset + 8);
            assert(cur.drop_first() =~= prev);
            assert(cur[0] == d[offset + k]);
        }
        acc = acc * 256 + data[offset + k] as u64;
    }
    proof {
        assert(d.subrange(offset as int, offset + 8) == d.subrange(offset + 0, offset + 8));
    }
    acc
}

impl CodeHeuristics {
    /// Whether `address` looks like a function pointer into the region of
    /// `data` at `base_addr`: non-null, in bounds, and pointing at a
    /// recognised prologue.
    pub fn is_valid_function_ptr(address: usize, data: &[u8], base_addr: usize) -> (r: bool)
        ensures
            r == valid_function_pointer(address as int, data@, base_addr as int),
    {
        if address == 0 {
            return false;
        }
        if address < base_addr || address - base_addr > data.len() {
            return false;
        }
        let offset = address - base_addr;
        if offset >= data.len() {
            return false;
        }
        Self::has_function_prologue(data, offset)
    }

    /// Whether the four bytes at `offset` exist and form a recognised
    /// prologue.
    pub fn has_function_prologue(data: &[u8], offset: usize) -> (r: bool)
        ensures
            r == prologue_at(data@, offset as int),
    {
        if offset > data.len() || data.len() - offset < 4 {
            return false;
        }
        let b0 = data[offset];
        let b1 = data[offset + 1];
        let b2 = data[offset + 2];
        let b3 = data[offset + 3];
        (b0 == 0x55 && b1 == 0x48 && b2 == 0x89 && b3 == 0xE5) || (b0 == 0x55 && b1 == 0x48 && b2
            == 0x8B && b3 == 0xEC) || (b0 == 0x48 && b1 == 0x83 && b2 == 0xEC) || (b0 == 0x48 && b1
            == 0x81 && b2 == 0xEC) || b0 == 0x53 || (b0 == 0x48 && b1 == 0x89 && b2 == 0x4C && b3
            == 0x24) || b0 == 0xCC
    }

    /// Whether `address` could be a type-info record: it is non-null, points
    /// into the region with 16 bytes after it, and the word there is a
    /// non-null pointer into the region. A deliberately weak test.
    pub fn is_rtti_type_info(address: usize, data: &[u8], base_addr: usize) -> (r: bool)
        ensures
            r == looks_like_type_info(address as int, data@, base_addr as int),
    {
        if address == 0 || address < base_addr || address - base_addr > data.len() {
            return false;
        }
        let offset = address - base_addr;
        if data.len() - offset < 16 {
            return false;
        }
        let ptr_val = read_word(data, offset);
        ptr_val != 0 && ptr_val >= base_addr as u64 && ptr_val - (base_addr as u64) <= data.len() as u64
    }
}

/// Reads the pointer in the slot at `offset`; null when the slot runs past the
/// end of the data.
fn read_pointer(data: &[u8], offset: usize) -> (r: usize)
    ensures
        r == pointer_at(data@, offset as int),
{
    if offset > data.len() || data.len() - offset < POINTER_SIZE {
        return 0;
    }
    let word = read_word(data, offset);
    if word <= usize::MAX as u64 {
        word as usize
    } else {
        0
    }
}

/// Settings of a table scan.
#[derive(Debug, Clone)]
pub struct VTableScanConfig {
    /// Minimum number of consecutive function pointers for a table.
    pub min_functions: usize,
    /// Maximum number of entries read for one table.
    pub max_functions: usize,
    /// Whether a type-info pointer may precede the entries.
    pub include_rtti: bool,
    /// Step between candidate table starts, in bytes.
    pub alignment: usize,
    /// Address intervals, bounds included, where no table starts.
    pub excluded_ranges: Vec<(usize, usize)>,
}

impl Default for VTableScanConfig {
    fn default() -> (r: Self)
        ensures
            r.min_functions == 2,
            r.max_functions == 256,
            r.include_rtti,
            r.alignment == POINTER_SIZE,
            r.excluded_ranges@.len() == 0,
    {
        VTableScanConfig {
            min_functions: 2,
            max_functions: 256,
            include_rtti: true,
            alignment: POINTER_SIZE,
            excluded_ranges: Vec::new(),
        }
    }
}

/// Some range of `ranges` holds `a`, bounds included.
pub open spec fn is_excluded(ranges: Seq<(usize, usize)>, a: int) -> bool {
    exists|i: int| 0 <= i < ranges.len() && (#[trigger] ranges[i]).0 <= a <= ranges[i].1
}

/// The number of consecutive slots from `start`, at most `max`, that hold
/// valid function pointers.
pub open spec fn run_length(d: Seq<u8>, base: int, start: int, max: nat) -> nat
    decreases max,
{
    if max == 0 || start < 0 || start + 8 > d.len() || !valid_function_pointer(pointer_at(d, start), d, base) {
        0
    } else {
        1 + run_length(d, base, start + 8, (max - 1) as nat)
    }
}

/// A type-info pointer is looked for, the slot at `off` exists, and it holds one.
pub open spec fn type_info_at(rtti: bool, d: Seq<u8>, base: int, off: int) -> bool {
    &&& rtti
    &&& off + 8 <= d.len()
    &&& looks_like_type_info(pointer_at(d, off), d, base)
}

/// The entries of a table whose first slot is at `start`.
pub open spec fn table_entries(d: Seq<u8>, start: int, count: nat) -> Seq<VirtualFunction> {
    Seq::new(count, |k: int| VirtualFunction { address: pointer_at(d, start + 8 * k) as usize, index: k as usize })
}

/// The table read at offset `off` of the region, whether or not it has enough
/// entries to be reported.
pub open spec fn candidate_at(cfg: VTableScanConfig, d: Seq<u8>, base: int, off: int) -> VTableView {
    let ti = type_info_at(cfg.include_rtti, d, base, off);
    let start = if ti {
        off + 8
    } else {
        off
    };
    let count = run_length(d, base, start, cfg.max_functions as nat);
    VTableView {
        base_address: (base + off) as usize,
        functions: table_entries(d, start, count),
        type_info_ptr: if ti {
            Some(pointer_at(d, off) as usize)
        } else {
            None
        },
        size: table_size(count as int, ti) as usize,
    }
}

/// The table at `off` has at least `min_functions` entries.
pub open spec fn qualifies(cfg: VTableScanConfig, d: Seq<u8>, base: int, off: int) -> bool {
    candidate_at(cfg, d, base, off).functions.len() >= cfg.min_functions
}

/// The tables reported at the aligned offsets from `i` on, in order.
pub open spec fn tables_from(cfg: VTableScanConfig, d: Seq<u8>, base: int, i: int) -> Seq<VTableView>
    decreases d.len() + cfg.alignment - i,
{
    if cfg.alignment == 0 || i < 0 || i + 8 > d.len() {
        seq![]
    } else {
        let rest = tables_from(cfg, d, base, i + cfg.alignment);
        if !is_excluded(cfg.excluded_ranges@, base + i) && qualifies(cfg, d, base, i) {
            seq![candidate_at(cfg, d, base, i)] + rest
        } else {
            rest
        }
    }
}

/// The views of a list of tables.
pub open spec fn table_views(v: Seq<VTable>) -> Seq<VTableView> {
    v.map_values(|t: VTable| t@)
}

/// The three signatures that the pattern-based table finder searches: sixteen
/// wildcards, `push rbp; mov rbp, rsp`, and `sub rsp, imm8`.
pub open spec fn table_signature(k: int) -> Seq<Option<u8>> {
    if k == 0 {
        Seq::new(16, |i: int| None)
    } else if k == 1 {
        seq![Some(0x55u8), Some(0x48u8), Some(0x89u8), Some(0xE5u8)]
    } else {
        seq![Some(0x48u8), Some(0x83u8), Some(0xECu8), None]
    }
}

/// Finds virtual tables in a region's bytes, by pointer and prologue
/// heuristics.
pub struct VTableScanner {
    pub config: VTableScanConfig,
    pattern_scanner: PatternScanner<HybridMatcher>,
}

impl Default for VTableScanner {
    fn default() -> (r: Self)
        ensures
            r.settings().min_functions == 2,
            r.settings().max_functions == 256,
            r.settings().include_rtti,
            r.settings().alignment == POINTER_SIZE,
            r.settings().excluded_ranges@.len() == 0,
    {
        Self::new()
    }
}

impl VTableScanner {
    /// The scanner's settings.
    pub closed spec fn settings(&self) -> VTableScanConfig {
        self.config
    }

    /// A scanner with the default settings.
    pub fn new() -> (r: Self)
        ensures
            r.settings().min_functions == 2,
            r.settings().max_functions == 256,
            r.settings().include_rtti,
            r.settings().alignment == POINTER_SIZE,
            r.settings().excluded_ranges@.len() == 0,
    {
        VTableScanner { config: VTableScanConfig::default(), pattern_scanner: PatternScanner::new() }
    }

    /// A scanner with the given settings.
    pub fn with_config(config: VTableScanConfig) -> (r: Self)
        ensures
            r.settings() == config,
    {
        VTableScanner { config, pattern_scanner: PatternScanner::new() }
    }

    /// The tables in `data`, the bytes of a region at `base_address`: at each
    /// aligned offset outside the excluded ranges, the table read there if it
    /// has at least `min_functions` entries.
    pub fn scan_vtables(&self, data: &[u8], base_address: usize) -> (r: Vec<VTable>)
        requires
            self.settings().alignment > 0,
            base_address + data@.len() <= usize::MAX,
        ensures
            table_views(r@) == tables_from(self.settings(), data@, base_address as int, 0),
    {
        let ghost cfg = self.config;
        assert(cfg == self.settings());
        let ghost d = data@;
        let ghost base = base_address as int;
        let mut vtables: Vec<VTable> = Vec::new();
        let align = self.config.alignment;
        let mut i: usize = 0;
        while i < data.len()
            invariant_except_break
                cfg == self.config,
                cfg == self.settings(),
                d == data@,
                base == base_address as int,
                align == cfg.alignment,
                align > 0,
                base_address + data@.len() <= usize::MAX,
                table_views(vtables@) + tables_from(cfg, d, base, i as int) == tables_from(cfg, d, base, 0),
            ensures
                table_views(vtables@) == tables_from(cfg, d, base, 0),
            decreases data@.len() - i,
        {
            if data.len() - i < POINTER_SIZE {
                assert(table_views(vtables@) =~= table_views(vtables@) + tables_from(cfg, d, base, i as int));
                break;
            }
            let ghost before = vtables@;
            let current_addr = base_address + i;
            if !self.is_address_excluded(current_addr) {
                let found = self.analyze_potential_vtable(data, base_address, i);
                if let Some(vtable) = found {
                    assert(vtable@ == candidate_at(cfg, d, base, i as int));
                    vtables.push(vtable);
                    assert(vtables@ == before.push(vtable));
                    assert(table_views(vtables@) =~= table_views(before).push(candidate_at(cfg, d, base, i as int)));
                }
            }
            assert(table_views(vtables@) + tables_from(cfg, d, base, i + align) =~= tables_from(cfg, d, base, 0));
            if align > data.len() - i {
                proof {
                    assert(tables_from(cfg, d, base, i + align) == Seq::<VTableView>::empty());
                    assert(table_views(vtables@) =~= table_views(vtables@) + tables_from(cfg, d, base, i + align));
                }
                break;
            }
            i = i + align;
        }
        vtables
    }

    /// The table read at `offset`, if it has at least `min_functions` entries.
    fn analyze_potential_vtable(&self, data: &[u8], base_addr: usize, offset: usize) -> (r: Option<VTable>)
        requires
            offset <= data@.len(),
            base_addr + data@.len() <= usize::MAX,
        ensures
            r is Some <==> qualifies(self.settings(), data@, base_addr as int, offset as int),
            r is Some ==> r->0@ == candidate_at(self.settings(), data@, base_addr as int, offset as int),
    {
        let ghost d = data@;
        let ghost base = base_addr as int;
        let ghost cand = candidate_at(self.config, d, base, offset as int);
        let mut vtable = VTable::new(base_addr + offset);
        let mut current = offset;
        if self.config.include_rtti && data.len() - current >= POINTER_SIZE {
            let rtti_ptr = read_pointer(data, current);
            if CodeHeuristics::is_rtti_type_info(rtti_ptr, data, base_addr) {
                vtable.type_info_ptr = Some(rtti_ptr);
                vtable.size = POINTER_SIZE;
                current = current + POINTER_SIZE;
            }
        }
        let ghost ti = type_info_at(self.config.include_rtti, d, base, offset as int);
        assert(vtable.type_info_ptr is Some <==> ti);
        let start = current;
        let max = self.config.max_functions;
        let mut function_index: usize = 0;
        let mut stopped = false;
        while !stopped && function_index < max && data.len() - current >= POINTER_SIZE
            invariant
                d == data@,
                base == base_addr as int,
                base_addr + data@.len() <= usize::MAX,
                start <= current <= data@.len(),
                start as int == offset + if ti { 8int } else { 0int },
                current == start + 8 * function_index,
                function_index <= max,
                max == self.config.max_functions,
                vtable.base_address == base_addr + offset,
                vtable.type_info_ptr is Some <==> ti,
                ti ==> vtable.type_info_ptr == Some(pointer_at(d, offset as int) as usize),
                vtable.functions@ == table_entries(d, start as int, function_index as nat),
                vtable.size == table_size(function_index as int, ti),
                run_length(d, base, start as int, max as nat) == function_index + run_length(
                    d,
                    base,
                    current as int,
                    (max - function_index) as nat,
                ),
                stopped ==> run_length(d, base, current as int, (max - function_index) as nat) == 0,
            decreases 2 * (max - function_index) + if stopped {
                0int
            } else {
                1int
            },
        {
            let func_ptr = read_pointer(data, current);
            if !CodeHeuristics::is_valid_function_ptr(func_ptr, data, base_addr) {
                stopped = true;
            } else {
                vtable.add_function(func_ptr, function_index);
                proof {
                    assert(vtable.functions@ =~= table_entries(d, start as int, (function_index + 1) as nat));
                }
                function_index = function_index + 1;
                current = current + POINTER_SIZE;
            }
        }
        proof {
            assert(run_length(d, base, current as int, (max - function_index) as nat) == 0);
            assert(vtable@ == cand);
        }
        if vtable.function_count() >= self.config.min_functions {
            Some(vtable)
        } else {
            None
        }
    }

    /// Whether some excluded range holds `address`.
    fn is_address_excluded(&self, address: usize) -> (r: bool)
        ensures
            r == is_excluded(self.settings().excluded_ranges@, address as int),
    {
        let ranges = &self.config.excluded_ranges;
        assert(self.settings().excluded_ranges@ == ranges@);
        let mut i: usize = 0;
        while i < ranges.len()
            invariant
                i <= ranges@.len(),
                self.settings().excluded_ranges@ == ranges@,
                forall|k: int| 0 <= k < i ==> !((#[trigger] ranges@[k]).0 <= address <= ranges@[k].1),
            decreases ranges@.len() - i,
        {
            let (start, end) = ranges[i];
            if address >= start && address <= end {
                assert(ranges@[i as int].0 <= address <= ranges@[i as int].1);
                assert(is_excluded(ranges@, address as int));
                return true;
            }
            i = i + 1;
        }
        false
    }

    /// Searches `data` for three signatures often found near tables: sixteen
    /// arbitrary bytes, `push rbp; mov rbp, rsp`, and `sub rsp, imm8`; the
    /// matches of each, one signature after the other.
    pub fn find_vtables_by_patterns(&self, data: &[u8]) -> (r: Result<Vec<PatternMatch>, PatternError>)
        ensures
            r is Ok,
            exists|a: Seq<PatternMatch>, b: Seq<PatternMatch>, c: Seq<PatternMatch>| {
                &&& r->Ok_0@ == a + b + c
                &&& HybridMatcher.finds_all(table_signature(0), data@, a)
                &&& HybridMatcher.finds_all(table_signature(1), data@, b)
                &&& HybridMatcher.finds_all(table_signature(2), data@, c)
            },
    {
        let mut any: Vec<Option<u8>> = Vec::new();
        let mut k: usize = 0;
        while k < 16
            invariant
                k <= 16,
                any@ == Seq::new(k as nat, |i: int| None::<u8>),
            decreases 16 - k,
        {
            any.push(None);
            k = k + 1;
            assert(any@ =~= Seq::new(k as nat, |i: int| None::<u8>));
        }
        let patterns = vec![
            Pattern::from_positions(any),
            Pattern::from_positions(vec![Some(0x55u8), Some(0x48u8), Some(0x89u8), Some(0xE5u8)]),
            Pattern::from_positions(vec![Some(0x48u8), Some(0x83u8), Some(0xECu8), None]),
        ];
        assert(patterns@[0]@ =~= table_signature(0));
        assert(patterns@[1]@ =~= table_signature(1));
        assert(patterns@[2]@ =~= table_signature(2));
        let mut a = self.pattern_scanner.scan_pattern(&patterns[0], data);
        let mut b = self.pattern_scanner.scan_pattern(&patterns[1], data);
        let mut c = self.pattern_scanner.scan_pattern(&patterns[2], data);
        let ghost (ga, gb, gc) = (a@, b@, c@);
        let mut all_matches: Vec<PatternMatch> = Vec::new();
        all_matches.append(&mut a);
        all_matches.append(&mut b);
        all_matches.append(&mut c);
        assert(all_matches@ =~= ga + gb + gc);
        Ok(all_matches)
    }
}

/// `derived` begins with the entries of `base`, address for address.
pub open spec fn is_derived(base: VTableView, derived: VTableView) -> bool {
    &&& derived.functions.len() >= base.functions.len()
    &&& forall|i: int| 0 <= i < base.functions.len()
        ==> (#[trigger] base.functions[i]).address == derived.functions[i].address
}

/// The addresses of the tables among the first `k` of `vts` that derive from
/// `b`, in order; tables at `b`'s own address are skipped.
pub open spec fn derived_addresses(vts: Seq<VTableView>, b: VTableView, k: int) -> Seq<usize>
    decreases k,
{
    if k <= 0 {
        seq![]
    } else {
        let prev = derived_addresses(vts, b, k - 1);
        let c = vts[k - 1];
        if c.base_address != b.base_address && is_derived(b, c) {
            prev.push(c.base_address)
        } else {
            prev
        }
    }
}

/// For the first `k` tables taken as bases, each one that has derived tables
/// mapped to their addresses; a later table at the same address overrides.
pub open spec fn inheritance_map(vts: Seq<VTableView>, k: int) -> Map<usize, Seq<usize>>
    decreases k,
{
    if k <= 0 {
        Map::empty()
    } else {
        let prev = inheritance_map(vts, k - 1);
        let b = vts[k - 1];
        let ds = derived_addresses(vts, b, vts.len() as int);
        if ds.len() > 0 {
            prev.insert(b.base_address, ds)
        } else {
            prev
        }
    }
}

/// The values of a map of address lists.
pub open spec fn list_map_view(m: Map<usize, Vec<usize>>) -> Map<usize, Seq<usize>> {
    m.map_values(|v: Vec<usize>| v@)
}

impl VTableScanner {
    /// Whether `derived` extends `base`: at least as many entries, and the
    /// first ones the same functions in the same order.
    pub fn is_derived_vtable(&self, base: &VTable, derived: &VTable) -> (r: bool)
        ensures
            r == is_derived(base@, derived@),
    {
        if derived.function_count() < base.function_count() {
            return false;
        }
        let n = base.functions.len();
        let mut i: usize = 0;
        while i < n
            invariant
                n == base.functions@.len(),
                n <= derived.functions@.len(),
                i <= n,
                forall|k: int| 0 <= k < i
                    ==> (#[trigger] base.functions@[k]).address == derived.functions@[k].address,
            decreases n - i,
        {
            match (base.get_function(i), derived.get_function(i)) {
                (Some(base_func), Some(derived_func)) => {
                    if base_func.address != derived_func.address {
                        return false;
                    }
                },
                _ => {},
            }
            i = i + 1;
        }
        true
    }

    /// For each table, the addresses of the other tables that derive from it
    /// (see `is_derived_vtable`); tables with none are left out.
    pub fn analyze_inheritance(&self, vtables: &[VTable]) -> (r: HashMap<usize, Vec<usize>>)
        ensures
            list_map_view(r@) == inheritance_map(table_views(vtables@), vtables@.len() as int),
    {
        broadcast use vstd::std_specs::hash::group_hash_axioms;

        let ghost vts = table_views(vtables@);
        let mut inheritance: HashMap<usize, Vec<usize>> = HashMap::new();
        let n = vtables.len();
        let mut i: usize = 0;
        assert(list_map_view(inheritance@) =~= inheritance_map(vts, 0));
        while i < n
            invariant
                n == vtables@.len(),
                vts == table_views(vtables@),
                i <= n,
                list_map_view(inheritance@) == inheritance_map(vts, i as int),
            decreases n - i,
        {
            let base_vtable = &vtables[i];
            let mut derived: Vec<usize> = Vec::new();
            let mut j: usize = 0;
            while j < n
                invariant
                    n == vtables@.len(),
                    vts == table_views(vtables@),
                    i < n,
                    j <= n,
                    base_vtable == &vtables@[i as int],
                    derived@ == derived_addresses(vts, vts[i as int], j as int),
                decreases n - j,
            {
                let derived_vtable = &vtables[j];
                if base_vtable.base_address != derived_vtable.base_address && self.is_derived_vtable(
                    base_vtable,
                    derived_vtable,
                ) {
                    derived.push(derived_vtable.base_address);
                }
                j = j + 1;
            }
            if derived.len() > 0 {
                let ghost before = inheritance@;
                inheritance.insert(base_vtable.base_address, derived);
                assert(list_map_view(inheritance@) =~= list_map_view(before).insert(
                    vts[i as int].base_address,
                    derived_addresses(vts, vts[i as int], n as int),
                ));
            }
            i = i + 1;
        }
        inheritance
    }
}

/// A class reconstructed from its table: the table's address, a name, the
/// table's entries, and the tables of its bases and of its derived classes.
#[derive(Debug, Clone)]
pub struct ClassInfo {
    pub vtable_address: usize,
    pub name: String,
    pub functions: Vec<VirtualFunction>,
    pub base_classes: Vec<usize>,
    pub derived_classes: Vec<usize>,
}

/// The value of a `ClassInfo`.
pub struct ClassInfoView {
    pub vtable_address: usize,
    pub name: Seq<char>,
    pub functions: Seq<VirtualFunction>,
    pub base_classes: Seq<usize>,
    pub derived_classes: Seq<usize>,
}

impl View for ClassInfo {
    type V = ClassInfoView;

    open spec fn view(&self) -> ClassInfoView {
        ClassInfoView {
            vtable_address: self.vtable_address,
            name: self.name@,
            functions: self.functions@,
            base_classes: self.base_classes@,
            derived_classes: self.derived_classes@,
        }
    }
}

/// The first position below `k` of a class with table address `addr`, or -1.
pub open spec fn class_index(s: Seq<ClassInfoView>, addr: usize, k: int) -> int
    decreases k,
{
    if k <= 0 {
        -1
    } else if class_index(s, addr, k - 1) >= 0 {
        class_index(s, addr, k - 1)
    } else if s[k - 1].vtable_address == addr {
        k - 1
    } else {
        -1
    }
}

proof fn lemma_class_index(s: Seq<ClassInfoView>, addr: usize, k: int)
    requires
        0 <= k <= s.len(),
    ensures
        -1 <= class_index(s, addr, k) < k,
        class_index(s, addr, k) >= 0 ==> s[class_index(s, addr, k)].vtable_address == addr,
        class_index(s, addr, k) < 0 ==> forall|i: int| 0 <= i < k ==> s[i].vtable_address != addr,
        class_index(s, addr, k) >= 0 ==> forall|i: int|
            0 <= i < class_index(s, addr, k) ==> s[i].vtable_address != addr,
    decreases k,
{
    if k > 0 {
        lemma_class_index(s, addr, k - 1);
    }
}

/// The classes after adding `c`: it replaces the class with the same table
/// address, or goes last.
pub open spec fn with_class(s: Seq<ClassInfoView>, c: ClassInfoView) -> Seq<ClassInfoView> {
    let i = class_index(s, c.vtable_address, s.len() as int);
    if i >= 0 {
        s.update(i, c)
    } else {
        s.push(c)
    }
}

/// The classes of `s` whose list selected by `roots` (bases when true,
/// derived classes when false) is empty, in order.
pub open spec fn classes_without(s: Seq<ClassInfoView>, roots: bool, k: int) -> Seq<ClassInfoView>
    decreases k,
{
    if k <= 0 {
        seq![]
    } else {
        let prev = classes_without(s, roots, k - 1);
        let c = s[k - 1];
        let empty = if roots {
            c.base_classes.len() == 0
        } else {
            c.derived_classes.len() == 0
        };
        if empty {
            prev.push(c)
        } else {
            prev
        }
    }
}

/// The views of a list of class references.
pub open spec fn class_ref_views(r: Seq<&ClassInfo>) -> Seq<ClassInfoView> {
    r.map_values(|c: &ClassInfo| c@)
}

/// The classes known from their tables, one per table address, in the order
/// they were first added.
#[derive(Debug, Default)]
pub struct ClassHierarchy {
    classes: Vec<ClassInfo>,
}

impl ClassHierarchy {
    /// The classes, in order.
    pub closed spec fn classes_view(&self) -> Seq<ClassInfoView> {
        self.classes@.map_values(|c: ClassInfo| c@)
    }

    /// An empty hierarchy.
    pub fn new() -> (r: Self)
        ensures
            r.classes_view() == Seq::<ClassInfoView>::empty(),
    {
        let r = ClassHierarchy { classes: Vec::new() };
        assert(r.classes_view() =~= Seq::<ClassInfoView>::empty());
        r
    }

    /// Adds a class, replacing the one with the same table address.
    pub fn add_class(&mut self, class_info: ClassInfo)
        ensures
            final(self).classes_view() == with_class(old(self).classes_view(), class_info@),
    {
        let ghost s = self.classes_view();
        let n = self.classes.len();
        let mut i: usize = 0;
        while i < n
            invariant
                n == self.classes@.len(),
                s == self.classes_view(),
                s == old(self).classes_view(),
                i <= n,
                forall|k: int| 0 <= k < i ==> (#[trigger] self.classes@[k]).vtable_address
                    != class_info.vtable_address,
            decreases n - i,
        {
            if self.classes[i].vtable_address == class_info.vtable_address {
                proof {
                    lemma_class_index(s, class_info.vtable_address, n as int);
                    assert(s[i as int].vtable_address == class_info.vtable_address);
                    assert(class_index(s, class_info.vtable_address, n as int) == i) by {
                        let ci = class_index(s, class_info.vtable_address, n as int);
                        if ci < 0 {
                            assert(s[i as int].vtable_address != class_info.vtable_address);
                        } else if ci < i {
                            assert(self.classes@[ci].vtable_address != class_info.vtable_address);
                            assert(s[ci].vtable_address == class_info.vtable_address);
                        } else if ci > i {
                            assert(s[i as int].vtable_address != class_info.vtable_address);
                        }
                    }
                }
                let ghost info = class_info@;
                self.classes.set(i, class_info);
                assert(self.classes_view() =~= s.update(i as int, info));
                return;
            }
            i = i + 1;
        }
        proof {
            lemma_class_index(s, class_info.vtable_address, n as int);
            if class_index(s, class_info.vtable_address, n as int) >= 0 {
                let ci = class_index(s, class_info.vtable_address, n as int);
                assert(self.classes@[ci].vtable_address != class_info.vtable_address);
            }
        }
        let ghost info = class_info@;
        self.classes.push(class_info);
        assert(self.classes_view() =~= s.push(info));
    }

    /// The class whose table is at `vtable_address`, if any.
    pub fn get_class(&self, vtable_address: usize) -> (r: Option<&ClassInfo>)
        ensures
            r is Some <==> class_index(self.classes_view(), vtable_address, self.classes_view().len() as int) >= 0,
            r is Some ==> r->0@ == self.classes_view()[class_index(
                self.classes_view(),
                vtable_address,
                self.classes_view().len() as int,
            )],
    {
        let ghost s = self.classes_view();
        let n = self.classes.len();
        proof {
            lemma_class_index(s, vtable_address, n as int);
        }
        let mut i: usize = 0;
        while i < n
            invariant
                n == self.classes@.len(),
                s == self.classes_view(),
                i <= n,
                -1 <= class_index(s, vtable_address, n as int) < n,
                class_index(s, vtable_address, n as int) >= 0 ==> s[class_index(s, vtable_address, n as int)].vtable_address == vtable_address,
                class_index(s, vtable_address, n as int) >= 0 ==> forall|k: int|
                    0 <= k < class_index(s, vtable_address, n as int) ==> s[k].vtable_address != vtable_address,
                class_index(s, vtable_address, n as int) < 0 ==> forall|k: int|
                    0 <= k < n ==> s[k].vtable_address != vtable_address,
                forall|k: int| 0 <= k < i ==> (#[trigger] self.classes@[k]).vtable_address != vtable_address,
            decreases n - i,
        {
            if self.classes[i].vtable_address == vtable_address {
                proof {
                    let ci = class_index(s, vtable_address, n as int);
                    if ci < 0 {
                        assert(s[i as int].vtable_address != vtable_address);
                    } else if ci < i {
                        assert(self.classes@[ci].vtable_address != vtable_address);
                    } else if ci > i {
                        assert(s[i as int].vtable_address != vtable_address);
                    }
                }
                return Some(&self.classes[i]);
            }
            i = i + 1;
        }
        proof {
            let ci = class_index(s, vtable_address, n as int);
            if ci >= 0 {
                assert(self.classes@[ci].vtable_address != vtable_address);
            }
        }
        None
    }

    /// Every class, in order.
    pub fn get_all_classes(&self) -> (r: Vec<&ClassInfo>)
        ensures
            class_ref_views(r@) == self.classes_view(),
    {
        let mut all: Vec<&ClassInfo> = Vec::new();
        let mut i: usize = 0;
        while i < self.classes.len()
            invariant
                i <= self.classes@.len(),
                class_ref_views(all@) == self.classes_view().subrange(0, i as int),
            decreases self.classes@.len() - i,
        {
            let ghost before = all@;
            let class = &self.classes[i];
            assert(self.classes_view()[i as int] == class@);
            all.push(class);
            assert(class_ref_views(all@) =~= class_ref_views(before).push(class@));
            i = i + 1;
            assert(class_ref_views(all@) =~= self.classes_view().subrange(0, i as int));
        }
        assert(self.classes_view().subrange(0, i as int) =~= self.classes_view());
        all
    }

    fn classes_with_empty(&self, roots: bool) -> (r: Vec<&ClassInfo>)
        ensures
            class_ref_views(r@) == classes_without(self.classes_view(), roots, self.classes_view().len() as int),
    {
        let mut found: Vec<&ClassInfo> = Vec::new();
        let mut i: usize = 0;
        while i < self.classes.len()
            invariant
                i <= self.classes@.len(),
                class_ref_views(found@) == classes_without(self.classes_view(), roots, i as int),
            decreases self.classes@.len() - i,
        {
            let class = &self.classes[i];
            let empty = if roots {
                class.base_classes.len() == 0
            } else {
                class.derived_classes.len() == 0
            };
            let ghost before = found@;
            if empty {
                found.push(class);
                assert(class_ref_views(found@) =~= class_ref_views(before).push(class@));
            }
            assert(self.classes_view()[i as int] == class@);
            i = i + 1;
        }
        found
    }

    /// The classes with no recorded base class, in order.
    pub fn find_root_classes(&self) -> (r: Vec<&ClassInfo>)
        ensures
            class_ref_views(r@) == classes_without(self.classes_view(), true, self.classes_view().len() as int),
    {
        self.classes_with_empty(true)
    }

    /// The classes with no recorded derived class, in order.
    pub fn find_leaf_classes(&self) -> (r: Vec<&ClassInfo>)
        ensures
            class_ref_views(r@) == classes_without(self.classes_view(), false, self.classes_view().len() as int),
    {
        self.classes_with_empty(false)
    }
}

/// The class reconstructed from table `v`, with the derived tables that `m`
/// records for it.
pub open spec fn class_of(v: VTableView, m: Map<usize, Seq<usize>>) -> ClassInfoView {
    ClassInfoView {
        vtable_address: v.base_address,
        name: class_name_of(v.base_address),
        functions: v.functions,
        base_classes: seq![],
        derived_classes: if m.contains_key(v.base_address) {
            m[v.base_address]
        } else {
            seq![]
        },
    }
}

/// The hierarchy after adding the classes of the first `k` tables in order.
pub open spec fn hierarchy_of(vts: Seq<VTableView>, m: Map<usize, Seq<usize>>, k: int) -> Seq<ClassInfoView>
    decreases k,
{
    if k <= 0 {
        seq![]
    } else {
        with_class(hierarchy_of(vts, m, k - 1), class_of(vts[k - 1], m))
    }
}

/// Whole-set analyses over discovered tables.
pub struct VTableAnalyzer;

fn copy_addresses(v: &Vec<usize>) -> (r: Vec<usize>)
    ensures
        r@ == v@,
{
    let mut out: Vec<usize> = Vec::new();
    let mut i: usize = 0;
    while i < v.len()
        invariant
            i <= v@.len(),
            out@ == v@.subrange(0, i as int),
        decreases v@.len() - i,
    {
        out.push(v[i]);
        i = i + 1;
        assert(out@ =~= v@.subrange(0, i as int));
    }
    assert(v@.subrange(0, i as int) =~= v@);
    out
}

fn copy_functions(v: &Vec<VirtualFunction>) -> (r: Vec<VirtualFunction>)
    ensures
        r@ == v@,
{
    let mut out: Vec<VirtualFunction> = Vec::new();
    let mut i: usize = 0;
    while i < v.len()
        invariant
            i <= v@.len(),
            out@ == v@.subrange(0, i as int),
        decreases v@.len() - i,
    {
        out.push(v[i]);
        i = i + 1;
        assert(out@ =~= v@.subrange(0, i as int));
    }
    assert(v@.subrange(0, i as int) =~= v@);
    out
}

impl VTableAnalyzer {
    /// One class per table, named from its address, with the derived tables
    /// that `analyze_inheritance` finds for it. Base-class lists stay empty:
    /// inheritance is recorded from the base's side only.
    pub fn reconstruct_hierarchy(vtables: &[VTable]) -> (r: ClassHierarchy)
        ensures
            r.classes_view() == hierarchy_of(
                table_views(vtables@),
                inheritance_map(table_views(vtables@), vtables@.len() as int),
                vtables@.len() as int,
            ),
    {
        broadcast use vstd::std_specs::hash::group_hash_axioms;

        let ghost vts = table_views(vtables@);
        let scanner = VTableScanner::new();
        let inheritance_map = scanner.analyze_inheritance(vtables);
        let ghost m = list_map_view(inheritance_map@);
        let mut hierarchy = ClassHierarchy::new();
        let n = vtables.len();
        let mut i: usize = 0;
        while i < n
            invariant
                n == vtables@.len(),
                vts == table_views(vtables@),
                m == list_map_view(inheritance_map@),
                i <= n,
                hierarchy.classes_view() == hierarchy_of(vts, m, i as int),
            decreases n - i,
        {
            let vtable = &vtables[i];
            let name = match vtable.estimated_class_name() {
                Some(name) => name,
                None => String::new(),
            };
            let derived_classes = match inheritance_map.get(&vtable.base_address) {
                Some(list) => copy_addresses(list),
                None => Vec::new(),
            };
            let class_info = ClassInfo {
                vtable_address: vtable.base_address,
                name,
                functions: copy_functions(&vtable.functions),
                base_classes: Vec::new(),
                derived_classes,
            };
            proof {
                assert(vts[i as int] == vtable@);
                assert(class_info@.base_classes =~= Seq::<usize>::empty());
                if m.contains_key(vtable.base_address) {
                    assert(m[vtable.base_address] == inheritance_map@[vtable.base_address]@);
                } else {
                    assert(class_info@.derived_classes =~= Seq::<usize>::empty());
                }
                assert(class_info@ == class_of(vts[i as int], m));
            }
            hierarchy.add_class(class_info);
            i = i + 1;
        }
        hierarchy
    }
}

/// The base address of table `base` once for each entry of `fs` among the
/// first `j` that points at `a`.
pub open spec fn entry_occurrences(fs: Seq<VirtualFunction>, a: usize, base: usize, j: int) -> Seq<usize>
    decreases j,
{
    if j <= 0 {
        seq![]
    } else {
        let prev = entry_occurrences(fs, a, base, j - 1);
        if fs[j - 1].address == a {
            prev.push(base)
        } else {
            prev
        }
    }
}

/// The base address of a table once for each of its entries that points at
/// `a`, over the first `k` tables in order.
pub open spec fn occurrences(vts: Seq<VTableView>, a: usize, k: int) -> Seq<usize>
    decreases k,
{
    if k <= 0 {
        seq![]
    } else {
        occurrences(vts, a, k - 1) + entry_occurrences(
            vts[k - 1].functions,
            a,
            vts[k - 1].base_address,
            vts[k - 1].functions.len() as int,
        )
    }
}

/// The occurrences within the first `k` tables and the first `j` entries of
/// table `k`.
pub open spec fn occurrences_upto(vts: Seq<VTableView>, a: usize, k: int, j: int) -> Seq<usize> {
    occurrences(vts, a, k) + entry_occurrences(vts[k].functions, a, vts[k].base_address, j)
}

/// Each function address that occurs more than once over all tables, with
/// the table of each occurrence.
pub open spec fn shared_functions(vts: Seq<VTableView>) -> Map<usize, Seq<usize>> {
    Map::new(
        |a: usize| occurrences(vts, a, vts.len() as int).len() > 1,
        |a: usize| occurrences(vts, a, vts.len() as int),
    )
}

/// Each table's estimated object size: one pointer plus eight bytes per
/// entry; a later table at the same address overrides.
pub open spec fn object_sizes(vts: Seq<VTableView>, k: int) -> Map<usize, usize>
    decreases k,
{
    if k <= 0 {
        Map::empty()
    } else {
        object_sizes(vts, k - 1).insert(
            vts[k - 1].base_address,
            (8 + 8 * vts[k - 1].functions.len()) as usize,
        )
    }
}

impl VTableAnalyzer {
    /// For each function address that appears more than once, the address of
    /// the table of each appearance, in table order.
    pub fn find_shared_functions(vtables: &[VTable]) -> (r: HashMap<usize, Vec<usize>>)
        ensures
            list_map_view(r@) == shared_functions(table_views(vtables@)),
    {
        broadcast use vstd::std_specs::hash::group_hash_axioms;

        let ghost vts = table_views(vtables@);
        let n = vtables.len();
        let mut all: HashMap<usize, Vec<usize>> = HashMap::new();
        let mut k: usize = 0;
        while k < n
            invariant
                n == vtables@.len(),
                vts == table_views(vtables@),
                k <= n,
                forall|a: usize| #[trigger] all@.contains_key(a) <==> occurrences(vts, a, k as int).len() > 0,
                forall|a: usize| #[trigger] all@.contains_key(a) ==> all@[a]@ == occurrences(vts, a, k as int),
            decreases n - k,
        {
            let vtable = &vtables[k];
            let m = vtable.functions.len();
            let mut j: usize = 0;
            assert(vts[k as int] == vtable@);
            assert forall|a: usize| #[trigger] occurrences_upto(vts, a, k as int, 0) == occurrences(vts, a, k as int) by {
                lemma_upto_start(vts, a, k as int);
            }
            while j < m
                invariant
                    n == vtables@.len(),
                    vts == table_views(vtables@),
                    k < n,
                    vtable == &vtables@[k as int],
                    vts[k as int] == vtable@,
                    m == vtable.functions@.len(),
                    j <= m,
                    forall|a: usize| #[trigger] all@.contains_key(a) <==> occurrences_upto(vts, a, k as int, j as int).len() > 0,
                    forall|a: usize| #[trigger] all@.contains_key(a) ==> all@[a]@ == occurrences_upto(vts, a, k as int, j as int),
                decreases m - j,
            {
                let address = vtable.functions[j].address;
                let ghost prev = occurrences_upto(vts, address, k as int, j as int);
                let removed = all.remove(&address);
                let mut list = match removed {
                    Some(list) => list,
                    None => Vec::new(),
                };
                assert(list@ == prev);
                list.push(vtable.base_address);
                all.insert(address, list);
                assert forall|a: usize| #[trigger] occurrences_upto(vts, a, k as int, j + 1) == if a == address {
                    occurrences_upto(vts, a, k as int, j as int).push(vtable.base_address)
                } else {
                    occurrences_upto(vts, a, k as int, j as int)
                } by {
                    lemma_upto_step(vts, a, k as int, j as int);
                }
                j = j + 1;
            }
            assert forall|a: usize| #[trigger] occurrences(vts, a, k + 1) == occurrences_upto(vts, a, k as int, m as int) by {
                lemma_upto_end(vts, a, k as int);
            }
            k = k + 1;
        }
        let mut shared: HashMap<usize, Vec<usize>> = HashMap::new();
        let mut k: usize = 0;
        while k < n
            invariant
                n == vtables@.len(),
                vts == table_views(vtables@),
                k <= n,
                forall|a: usize| #[trigger] all@.contains_key(a) <==> occurrences(vts, a, n as int).len() > 0,
                forall|a: usize| #[trigger] all@.contains_key(a) ==> all@[a]@ == occurrences(vts, a, n as int),
                forall|a: usize| #[trigger] shared@.contains_key(a) <==> occurrences(vts, a, k as int).len() > 0
                    && occurrences(vts, a, n as int).len() > 1,
                forall|a: usize| #[trigger] shared@.contains_key(a) ==> shared@[a]@ == occurrences(vts, a, n as int),
            decreases n - k,
        {
            let vtable = &vtables[k];
            let m = vtable.functions.len();
            let mut j: usize = 0;
            assert(vts[k as int] == vtable@);
            assert forall|a: usize| #[trigger] occurrences_upto(vts, a, k as int, 0) == occurrences(vts, a, k as int) by {
                lemma_upto_start(vts, a, k as int);
            }
            while j < m
                invariant
                    n == vtables@.len(),
                    vts == table_views(vtables@),
                    k < n,
                    vtable == &vtables@[k as int],
                    vts[k as int] == vtable@,
                    m == vtable.functions@.len(),
                    j <= m,
                    forall|a: usize| #[trigger] all@.contains_key(a) <==> occurrences(vts, a, n as int).len() > 0,
                    forall|a: usize| #[trigger] all@.contains_key(a) ==> all@[a]@ == occurrences(vts, a, n as int),
                    forall|a: usize| #[trigger] shared@.contains_key(a) <==> occurrences_upto(vts, a, k as int, j as int).len() > 0
                        && occurrences(vts, a, n as int).len() > 1,
                    forall|a: usize| #[trigger] shared@.contains_key(a) ==> shared@[a]@ == occurrences(vts, a, n as int),
                decreases m - j,
            {
                let address = vtable.functions[j].address;
                assert forall|a: usize| #[trigger] occurrences_upto(vts, a, k as int, j + 1) == if a == address {
                    occurrences_upto(vts, a, k as int, j as int).push(vtable.base_address)
                } else {
                    occurrences_upto(vts, a, k as int, j as int)
                } by {
                    lemma_upto_step(vts, a, k as int, j as int);
                }
                proof {
                    lemma_occurrences_prefix(vts, address, k as int, j + 1);
                }
                match all.get(&address) {
                    Some(list) => {
                        if list.len() > 1 {
                            let copy = copy_addresses(list);
                            shared.insert(address, copy);
                        }
                    },
                    None => {},
                }
                j = j + 1;
            }
            assert forall|a: usize| #[trigger] occurrences(vts, a, k + 1) == occurrences_upto(vts, a, k as int, m as int) by {
                lemma_upto_end(vts, a, k as int);
            }
            k = k + 1;
        }
        assert(list_map_view(shared@) =~= shared_functions(vts));
        shared
    }

    /// For each table, one pointer plus eight bytes per entry; a later table
    /// at the same address overrides.
    pub fn estimate_object_sizes(vtables: &[VTable]) -> (r: HashMap<usize, usize>)
        requires
            forall|i: int| 0 <= i < vtables@.len() ==> 8 + 8 * (#[trigger] vtables@[i]).functions@.len() <= usize::MAX,
        ensures
            r@ == object_sizes(table_views(vtables@), vtables@.len() as int),
    {
        broadcast use vstd::std_specs::hash::group_hash_axioms;

        let ghost vts = table_views(vtables@);
        let mut sizes: HashMap<usize, usize> = HashMap::new();
        let mut i: usize = 0;
        assert(sizes@ =~= object_sizes(vts, 0));
        while i < vtables.len()
            invariant
                i <= vtables@.len(),
                vts == table_views(vtables@),
                forall|q: int| 0 <= q < vtables@.len() ==> 8 + 8 * (#[trigger] vtables@[q]).functions@.len() <= usize::MAX,
                sizes@ == object_sizes(vts, i as int),
            decreases vtables@.len() - i,
        {
            let vtable = &vtables[i];
            assert(8 + 8 * vtables@[i as int].functions@.len() <= usize::MAX);
            let estimated_size = POINTER_SIZE + vtable.function_count() * 8;
            sizes.insert(vtable.base_address, estimated_size);
            assert(vts[i as int] == vtable@);
            i = i + 1;
        }
        sizes
    }
}

proof fn lemma_upto_start(vts: Seq<VTableView>, a: usize, k: int)
    ensures
        occurrences_upto(vts, a, k, 0) == occurrences(vts, a, k),
{
    assert(occurrences_upto(vts, a, k, 0) =~= occurrences(vts, a, k));
}

proof fn lemma_upto_step(vts: Seq<VTableView>, a: usize, k: int, j: int)
    requires
        0 <= j,
    ensures
        occurrences_upto(vts, a, k, j + 1) == if vts[k].functions[j].address == a {
            occurrences_upto(vts, a, k, j).push(vts[k].base_address)
        } else {
            occurrences_upto(vts, a, k, j)
        },
{
    let x = occurrences(vts, a, k);
    let y = entry_occurrences(vts[k].functions, a, vts[k].base_address, j);
    assert((x + y).push(vts[k].base_address) =~= x + y.push(vts[k].base_address));
}

proof fn lemma_upto_end(vts: Seq<VTableView>, a: usize, k: int)
    requires
        0 <= k,
    ensures
        occurrences(vts, a, k + 1) == occurrences_upto(vts, a, k, vts[k].functions.len() as int),
{
}

/// Occurrences seen up to entry `j` of table `k` are seen overall.
proof fn lemma_occurrences_prefix(vts: Seq<VTableView>, a: usize, k: int, j: int)
    requires
        0 <= k < vts.len(),
        0 <= j <= vts[k].functions.len(),
    ensures
        occurrences_upto(vts, a, k, j).len() <= occurrences(vts, a, vts.len() as int).len(),
{
    lemma_entry_occurrences_mono(vts[k].functions, a, vts[k].base_address, j, vts[k].functions.len() as int);
    lemma_occurrences_mono(vts, a, k + 1, vts.len() as int);
}

proof fn lemma_entry_occurrences_mono(fs: Seq<VirtualFunction>, a: usize, base: usize, j: int, k: int)
    requires
        0 <= j <= k,
    ensures
        entry_occurrences(fs, a, base, j).len() <= entry_occurrences(fs, a, base, k).len(),
    decreases k - j,
{
    if j < k {
        lemma_entry_occurrences_mono(fs, a, base, j, k - 1);
    }
}

proof fn lemma_occurrences_mono(vts: Seq<VTableView>, a: usize, j: int, k: int)
    requires
        0 <= j <= k,
    ensures
        occurrences(vts, a, j).len() <= occurrences(vts, a, k).len(),
    decreases k - j,
{
    if j < k {
        lemma_occurrences_mono(vts, a, j, k - 1);
    }
}

/// Two spaces per level.
pub open spec fn indent(depth: nat) -> Seq<char>
    decreases depth,
{
    if depth == 0 {
        seq![]
    } else {
        indent((depth - 1) as nat) + "  "@
    }
}

/// A class's line in the hierarchy listing: indented name and table address.
pub open spec fn class_line(c: ClassInfoView, depth: nat) -> Seq<char> {
    indent(depth) + c.name + " (0x"@ + hex_text(c.vtable_address as nat) + ")\n"@
}

/// A class and, while `fuel` lasts, the known classes derived from it, one
/// level deeper each.
pub open spec fn tree_text(s: Seq<ClassInfoView>, c: ClassInfoView, depth: nat, fuel: nat) -> Seq<char>
    decreases fuel, 0nat, 0int,
{
    class_line(c, depth) + if fuel == 0 {
        seq![]
    } else {
        children_text(s, c.derived_classes, depth + 1, (fuel - 1) as nat, c.derived_classes.len() as int)
    }
}

/// The trees of the known classes among the first `k` addresses of `ds`.
pub open spec fn children_text(s: Seq<ClassInfoView>, ds: Seq<usize>, depth: nat, fuel: nat, k: int) -> Seq<char>
    decreases fuel, 1nat, k,
{
    if k <= 0 {
        seq![]
    } else {
        let i = class_index(s, ds[k - 1], s.len() as int);
        children_text(s, ds, depth, fuel, k - 1) + if i >= 0 {
            tree_text(s, s[i], depth, fuel)
        } else {
            seq![]
        }
    }
}

/// The trees of the first `k` classes of `roots`, each allowed as many
/// levels as there are classes.
pub open spec fn forest_text(s: Seq<ClassInfoView>, roots: Seq<ClassInfoView>, k: int) -> Seq<char>
    decreases k,
{
    if k <= 0 {
        seq![]
    } else {
        forest_text(s, roots, k - 1) + tree_text(s, roots[k - 1], 0, s.len())
    }
}

/// The hierarchy listing: a header, then the tree under each root class.
/// A class is listed below each class that records it as derived; descent
/// stops after as many levels as there are classes, which only a cycle of
/// derivations reaches.
pub open spec fn hierarchy_text(s: Seq<ClassInfoView>) -> Seq<char> {
    let roots = classes_without(s, true, s.len() as int);
    "Class Hierarchy:\n"@ + forest_text(s, roots, roots.len() as int)
}

impl ClassHierarchy {
    fn write_class_tree(&self, out: &mut String, class: &ClassInfo, depth: usize, fuel: usize)
        requires
            depth + fuel <= usize::MAX,
        ensures
            final(out)@ == old(out)@ + tree_text(self.classes_view(), class@, depth as nat, fuel as nat),
        decreases fuel, 0nat, 0int,
    {
        let ghost s = self.classes_view();
        let mut level: usize = 0;
        let ghost start = out@;
        while level < depth
            invariant
                level <= depth,
                out@ == start + indent(level as nat),
            decreases depth - level,
        {
            out.append("  ");
            level = level + 1;
            assert(out@ =~= start + indent(level as nat));
        }
        out.append(class.name.as_str());
        out.append(" (0x");
        out.append(hex_string(class.vtable_address).as_str());
        out.append(")\n");
        assert(out@ =~= start + class_line(class@, depth as nat));
        if fuel > 0 {
            let ghost line_end = out@;
            let ds = &class.derived_classes;
            let mut k: usize = 0;
            while k < ds.len()
                invariant
                    s == self.classes_view(),
                    fuel > 0,
                    depth + fuel <= usize::MAX,
                    ds == &class.derived_classes,
                    k <= ds@.len(),
                    out@ == line_end + children_text(s, ds@, (depth + 1) as nat, (fuel - 1) as nat, k as int),
                decreases ds@.len() - k,
            {
                let ghost before = out@;
                match self.get_class(ds[k]) {
                    Some(child) => {
                        self.write_class_tree(out, child, depth + 1, fuel - 1);
                    },
                    None => {},
                }
                k = k + 1;
                assert(out@ =~= line_end + children_text(s, ds@, (depth + 1) as nat, (fuel - 1) as nat, k as int));
            }
        }
        assert(out@ =~= start + tree_text(s, class@, depth as nat, fuel as nat));
    }

    /// The hierarchy listing (see `hierarchy_text`).
    pub fn to_string(&self) -> (r: String)
        ensures
            r@ == hierarchy_text(self.classes_view()),
    {
        let ghost s = self.classes_view();
        let mut out = String::from_str("Class Hierarchy:\n");
        let ghost head = out@;
        let roots = self.find_root_classes();
        let ghost rv = class_ref_views(roots@);
        let n = self.classes.len();
        let mut k: usize = 0;
        while k < roots.len()
            invariant
                s == self.classes_view(),
                n == s.len(),
                rv == class_ref_views(roots@),
                k <= roots@.len(),
                out@ == head + forest_text(s, rv, k as int),
            decreases roots@.len() - k,
        {
            let root = roots[k];
            assert(rv[k as int] == root@);
            self.write_class_tree(&mut out, root, 0, n);
            k = k + 1;
            assert(out@ =~= head + forest_text(s, rv, k as int));
        }
        proof {
            reveal_strlit("Class Hierarchy:\n");
        }
        assert(out@ =~= hierarchy_text(s));
        out
    }
}

} // verus!
