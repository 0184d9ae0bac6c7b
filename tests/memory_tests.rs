use memory_analysis::memory::{
    byte_sequence_matches, find_byte_sequences, read_outcome, write_outcome, ComprehensiveScanResult,
    MemoryError, MemoryProtection, MemoryRegion, MemoryScanConfig, MemoryState, MemoryType, RegionFilter,
    RegionQuery, RegionWalk, ScanResult, ScanResultType, MEM_COMMIT, MEM_FREE, PAGE_EXECUTE_READ,
    PAGE_READWRITE,
};
use memory_analysis::pattern::{Pattern, PatternScanner};
use memory_analysis::vtable::VTable;

#[test]
fn test_memory_protection() {
    let protection = MemoryProtection::from(PAGE_EXECUTE_READ);
    assert_eq!(protection, MemoryProtection::ExecuteRead);
    assert_eq!(protection.to_string(), "R-X");
}

#[test]
fn test_memory_region() {
    let region = MemoryRegion {
        base_address: 0x1000,
        size: 0x1000,
        protection: MemoryProtection::ReadWrite,
        state: MemoryState::Commit,
        region_type: MemoryType::Private,
    };

    assert!(region.is_readable());
    assert!(region.is_writable());
    assert!(!region.is_executable());
    assert!(region.contains_address(0x1500));
    assert!(!region.contains_address(0x2000));
    assert_eq!(region.end_address(), 0x2000);
}

#[test]
fn test_region_filter() {
    let region = MemoryRegion {
        base_address: 0x1000,
        size: 0x1000,
        protection: MemoryProtection::ExecuteRead,
        state: MemoryState::Commit,
        region_type: MemoryType::Private,
    };

    let filter = RegionFilter::new().executable().readable().min_size(0x800);

    assert!(filter.matches(&region));

    let filter2 = RegionFilter::new().writable();

    assert!(!filter2.matches(&region));
}

fn region(base: usize, size: usize, protection: MemoryProtection) -> MemoryRegion {
    MemoryRegion { base_address: base, size, protection, state: MemoryState::Commit, region_type: MemoryType::Private }
}

#[test]
fn filter_is_a_conjunction() {
    let rx = region(0x1000, 0x1000, MemoryProtection::ExecuteRead);
    let small = region(0x1000, 0x100, MemoryProtection::ExecuteRead);
    let rw = region(0x1000, 0x1000, MemoryProtection::ReadWrite);
    let f = RegionFilter::new().executable().readable().min_size(0x800);
    assert!(f.matches(&rx));
    assert!(!f.matches(&small));
    assert!(!f.matches(&rw));
    assert!(RegionFilter::new().matches(&small));
    let ranged = RegionFilter::new().address_range(0x1000, 0x2000);
    assert!(ranged.matches(&rx));
    assert!(!ranged.matches(&region(0x1800, 0x1000, MemoryProtection::ReadOnly)));
    let all = [rx, small, rw];
    let picked = f.filter_regions(&all);
    assert_eq!(picked.len(), 1);
    assert_eq!(*picked[0], rx);
}

#[test]
fn protection_decoding() {
    assert_eq!(MemoryProtection::from(PAGE_READWRITE), MemoryProtection::ReadWrite);
    assert_eq!(MemoryProtection::from(0x104u32), MemoryProtection::NoAccess);
    assert_eq!(MemoryState::from(MEM_COMMIT), MemoryState::Commit);
    assert_eq!(MemoryState::from(0x2000u32), MemoryState::Reserve);
    assert_eq!(MemoryState::from(7u32), MemoryState::Free);
    assert_eq!(MemoryProtection::ExecuteWriteCopy.to_string(), "RCX");
    assert_eq!(MemoryProtection::NoAccess.to_string(), "---");
}

#[test]
fn region_walk_keeps_committed_and_stops() {
    let mut walk = RegionWalk::new();
    assert_eq!(walk.next_address(), 0);
    walk.record(Some(RegionQuery { base_address: 0, size: 0x1000, state: MEM_FREE, protect: 1 }));
    assert_eq!(walk.next_address(), 0x1000);
    walk.record(Some(RegionQuery { base_address: 0x1000, size: 0x2000, state: MEM_COMMIT, protect: PAGE_EXECUTE_READ }));
    assert!(!walk.is_done());
    assert_eq!(walk.next_address(), 0x3000);
    walk.record(Some(RegionQuery { base_address: 0x3000, size: 0, state: MEM_COMMIT, protect: 2 }));
    assert!(walk.is_done());
    let regions = walk.into_regions();
    assert_eq!(regions.len(), 1);
    assert_eq!(regions[0].base_address, 0x1000);
    assert_eq!(regions[0].protection, MemoryProtection::ExecuteRead);

    let mut top = RegionWalk::new();
    top.record(Some(RegionQuery { base_address: usize::MAX - 0xFFF, size: 0x1000, state: MEM_COMMIT, protect: 2 }));
    assert!(top.is_done());
    let mut end = RegionWalk::new();
    end.record(None);
    assert!(end.is_done());

    let mut stuck = RegionWalk::new();
    stuck.record(Some(RegionQuery { base_address: 0, size: 0x1000, state: MEM_COMMIT, protect: 2 }));
    stuck.record(Some(RegionQuery { base_address: 0x800, size: 0x800, state: MEM_COMMIT, protect: 2 }));
    assert!(stuck.is_done());
    stuck.record(Some(RegionQuery { base_address: 0x1000, size: 0x1000, state: MEM_COMMIT, protect: 2 }));
    assert_eq!(stuck.into_regions().len(), 1);
}

#[test]
fn transfer_outcomes() {
    assert!(read_outcome(0x10, 4, true, 4).is_ok());
    match read_outcome(0x10, 4, true, 3) {
        Err(MemoryError::ReadFailed { address, .. }) => assert_eq!(address, 0x10),
        other => panic!("unexpected {:?}", other),
    }
    assert!(read_outcome(0x10, 4, false, 4).is_err());
    assert!(write_outcome(0x20, 2, true, 2).is_ok());
    match write_outcome(0x20, 2, false, 0) {
        Err(MemoryError::WriteFailed { address, .. }) => assert_eq!(address, 0x20),
        other => panic!("unexpected {:?}", other),
    }
}

#[test]
fn scan_config_eligibility() {
    let cfg = MemoryScanConfig::default();
    assert!(cfg.should_scan_region(&region(0, 0x1000, MemoryProtection::ReadOnly)));
    assert!(!cfg.should_scan_region(&region(0, 0x800, MemoryProtection::ReadOnly)));
    assert!(!cfg.should_scan_region(&region(0, 0x1000, MemoryProtection::NoAccess)));
    let mut reserved = region(0, 0x1000, MemoryProtection::ReadOnly);
    reserved.state = MemoryState::Reserve;
    assert!(!cfg.should_scan_region(&reserved));
}

#[test]
fn byte_search_and_results() {
    let data = [1u8, 2, 3, 1, 2, 3, 1];
    assert_eq!(find_byte_sequences(&data, &[1, 2]), vec![0, 3]);
    assert_eq!(find_byte_sequences(&data, &[]), Vec::<usize>::new());
    assert_eq!(find_byte_sequences(&data, &[9; 9]), Vec::<usize>::new());
    let r = region(0x4000, 7, MemoryProtection::ReadOnly);
    let matches = byte_sequence_matches(&data, &[2, 3]);
    let hits = ScanResult::from_matches(&r, &data, &matches, ScanResultType::Bytes);
    assert_eq!(hits.len(), 2);
    assert_eq!(hits[0].address, 0x4001);
    assert_eq!(hits[1].address, 0x4004);
    assert_eq!(hits[1].data, vec![2, 3]);
    assert_eq!(hits[1].result_type, ScanResultType::Bytes);

    let pattern = Pattern::new("03 ?? 02").unwrap();
    let ms = PatternScanner::new().scan_pattern(&pattern, &data);
    let hits = ScanResult::from_matches(&r, &data, &ms, ScanResultType::Pattern);
    assert_eq!(hits.len(), 1);
    assert_eq!(hits[0].address, 0x4002);
    assert_eq!(hits[0].data, vec![3, 1, 2]);
}

#[test]
fn scan_statistics() {
    let mut v = VTable::new(0x10);
    v.add_function(1, 0);
    v.add_function(2, 1);
    let scan = ComprehensiveScanResult {
        pattern_matches: vec![],
        vtables: vec![v.clone(), v],
        memory_regions: vec![
            region(0, 1, MemoryProtection::ExecuteRead),
            region(0, 1, MemoryProtection::ReadWrite),
            region(0, 1, MemoryProtection::Execute),
        ],
    };
    let s = scan.statistics();
    assert_eq!(s.total_regions, 3);
    assert_eq!(s.executable_regions, 2);
    assert_eq!(s.readable_regions, 2);
    assert_eq!(s.writable_regions, 1);
    assert_eq!(s.pattern_matches, 0);
    assert_eq!(s.vtables_found, 2);
    assert_eq!(s.total_virtual_functions, 4);
}

#[test]
fn hexdump_lines() {
    let hit = ScanResult {
        address: 0x401000,
        size: 18,
        region: region(0x401000, 0x1000, MemoryProtection::ExecuteRead),
        result_type: ScanResultType::Pattern,
        data: b"Hello, World!\x00\x01 AB".to_vec(),
    };
    let expected = "00401000  48 65 6C 6C 6F 2C 20 57 6F 72 6C 64 21 00 01 20 |Hello,.World!...|\n\
                    00401010  41 42                                           |AB|";
    assert_eq!(hit.hexdump(), expected);
    let empty = ScanResult { data: vec![], ..hit.clone() };
    assert_eq!(empty.hexdump(), "");
}

#[test]
fn scan_statistics_listing() {
    let scan = ComprehensiveScanResult { pattern_matches: vec![], vtables: vec![], memory_regions: vec![] };
    assert_eq!(
        scan.statistics().to_string(),
        "Scan Statistics:\n  Memory Regions: 0\n    Executable: 0\n    Readable: 0\n    Writable: 0\n  Pattern Matches: 0\n  VTables Found: 0\n  Virtual Functions: 0\n"
    );
}
