use memory_analysis::vtable::{
    ClassHierarchy, ClassInfo, CodeHeuristics, VTable, VTableAnalyzer, VTableScanConfig, VTableScanner,
    VirtualFunction,
};

#[test]
fn test_vtable_creation() {
    let mut vtable = VTable::new(0x1000);
    vtable.add_function(0x2000, 0);
    vtable.add_function(0x2100, 1);

    assert_eq!(vtable.function_count(), 2);
    assert!(vtable.contains_function(0x2000));
    assert!(!vtable.contains_function(0x3000));
}

#[test]
fn test_code_heuristics() {
    let data = vec![
        0x55, 0x48, 0x89, 0xE5, // push rbp; mov rbp, rsp
        0x90, 0x90, 0x90, 0x90, // nops
    ];

    assert!(CodeHeuristics::has_function_prologue(&data, 0));
    assert!(!CodeHeuristics::has_function_prologue(&data, 4));
}

#[test]
fn test_vtable_scanner_config() {
    let config = VTableScanConfig {
        min_functions: 3,
        max_functions: 10,
        ..Default::default()
    };

    let scanner = VTableScanner::with_config(config);
    assert_eq!(scanner.config.min_functions, 3);
    assert_eq!(scanner.config.max_functions, 10);
}

const BASE: usize = 0x10000;

/// Four pointers to prologues, then a null slot; code follows at offset 64.
fn synthetic_region() -> Vec<u8> {
    let mut data = vec![0u8; 128];
    for k in 0..4 {
        let target = (BASE + 64 + 8 * k) as u64;
        data[8 * k..8 * k + 8].copy_from_slice(&target.to_le_bytes());
    }
    for k in 0..4 {
        data[64 + 8 * k..64 + 8 * k + 4].copy_from_slice(&[0x55, 0x48, 0x89, 0xE5]);
        data[64 + 8 * k + 4..64 + 8 * k + 8].copy_from_slice(&[0x90, 0x90, 0x90, 0x90]);
    }
    data
}

#[test]
fn scan_finds_four_entry_table() {
    let data = synthetic_region();
    let scanner = VTableScanner::with_config(VTableScanConfig { min_functions: 4, ..Default::default() });
    let tables = scanner.scan_vtables(&data, BASE);
    assert_eq!(tables.len(), 1);
    assert_eq!(tables[0].base_address, BASE);
    assert_eq!(tables[0].function_count(), 4);
    assert_eq!(tables[0].type_info_ptr, None);
    assert_eq!(tables[0].size, 32);
    for k in 0..4 {
        assert_eq!(tables[0].get_function(k), Some(VirtualFunction { address: BASE + 64 + 8 * k, index: k }));
    }

    let default_scanner = VTableScanner::new();
    let tables = default_scanner.scan_vtables(&data, BASE);
    assert_eq!(tables.iter().filter(|t| t.function_count() == 4).count(), 1);
    assert_eq!(tables[0].function_count(), 4);
    assert!(tables.iter().all(|t| t.function_count() >= 2));
}

#[test]
fn scan_respects_exclusions_and_max() {
    let data = synthetic_region();
    let scanner = VTableScanner::with_config(VTableScanConfig {
        min_functions: 2,
        max_functions: 3,
        excluded_ranges: vec![(BASE + 8, BASE + 16)],
        ..Default::default()
    });
    let tables = scanner.scan_vtables(&data, BASE);
    let starts: Vec<usize> = tables.iter().map(|t| t.base_address).collect();
    assert_eq!(starts, vec![BASE]);
    assert_eq!(tables[0].function_count(), 3);
}

#[test]
fn derived_tables() {
    let scanner = VTableScanner::new();
    let mut base = VTable::new(0x100);
    base.add_function(0xA, 0);
    base.add_function(0xB, 1);
    let mut derived = VTable::new(0x200);
    derived.add_function(0xA, 0);
    derived.add_function(0xB, 1);
    derived.add_function(0xC, 2);
    let mut other = VTable::new(0x300);
    other.add_function(0xA, 0);
    other.add_function(0xE, 1);
    other.add_function(0xC, 2);
    assert!(scanner.is_derived_vtable(&base, &derived));
    assert!(!scanner.is_derived_vtable(&base, &other));
    assert!(!scanner.is_derived_vtable(&derived, &base));

    let tables = vec![base.clone(), derived.clone(), other.clone()];
    let map = scanner.analyze_inheritance(&tables);
    assert_eq!(map.len(), 1);
    assert_eq!(map.get(&0x100), Some(&vec![0x200]));

    let hierarchy = VTableAnalyzer::reconstruct_hierarchy(&tables);
    let class = hierarchy.get_class(0x100).unwrap();
    assert_eq!(class.name, "Class_100");
    assert_eq!(class.derived_classes, vec![0x200]);
    assert!(class.base_classes.is_empty());
    assert_eq!(hierarchy.get_all_classes().len(), 3);
    assert_eq!(hierarchy.find_root_classes().len(), 3);
    let leaves: Vec<usize> = hierarchy.find_leaf_classes().iter().map(|c| c.vtable_address).collect();
    assert_eq!(leaves, vec![0x200, 0x300]);
}

#[test]
fn class_names_and_sizes() {
    let mut v = VTable::new(0xDEADBEEF);
    assert_eq!(v.estimated_class_name(), Some("Class_DEADBEEF".to_string()));
    v.type_info_ptr = Some(0x10);
    v.add_function(0x20, 0);
    assert_eq!(v.size, 16);
    assert_eq!(VTable::new(0).estimated_class_name(), Some("Class_0".to_string()));
}

#[test]
fn hierarchy_replaces_same_address() {
    let mut h = ClassHierarchy::new();
    let info = |name: &str| ClassInfo {
        vtable_address: 0x40,
        name: name.to_string(),
        functions: vec![],
        base_classes: vec![],
        derived_classes: vec![],
    };
    h.add_class(info("first"));
    h.add_class(info("second"));
    assert_eq!(h.get_all_classes().len(), 1);
    assert_eq!(h.get_class(0x40).unwrap().name, "second");
    assert!(h.get_class(0x41).is_none());
}

#[test]
fn pointer_heuristics() {
    let data = synthetic_region();
    assert!(CodeHeuristics::is_valid_function_ptr(BASE + 64, &data, BASE));
    assert!(!CodeHeuristics::is_valid_function_ptr(0, &data, 0));
    assert!(!CodeHeuristics::is_valid_function_ptr(BASE + 68, &data, BASE));
    assert!(!CodeHeuristics::is_valid_function_ptr(BASE + 128, &data, BASE));
    assert!(!CodeHeuristics::is_valid_function_ptr(usize::MAX, &data, BASE));
    assert!(CodeHeuristics::is_rtti_type_info(BASE, &data, BASE));
    assert!(!CodeHeuristics::is_rtti_type_info(BASE + 64, &data, BASE));
    assert!(!CodeHeuristics::is_rtti_type_info(BASE + 120, &data, BASE));
}

#[test]
fn pattern_based_table_search() {
    let data = [0x55, 0x48, 0x89, 0xE5, 0x48, 0x83, 0xEC, 0x20];
    let matches = VTableScanner::new().find_vtables_by_patterns(&data).unwrap();
    let offsets: Vec<usize> = matches.iter().map(|m| m.offset).collect();
    assert_eq!(offsets, vec![0, 4]);
}

#[test]
fn shared_functions_and_sizes() {
    let mut a = VTable::new(0x100);
    a.add_function(0xA, 0);
    a.add_function(0xB, 1);
    let mut b = VTable::new(0x200);
    b.add_function(0xA, 0);
    b.add_function(0xC, 1);
    b.add_function(0xC, 2);
    let tables = vec![a, b];
    let shared = VTableAnalyzer::find_shared_functions(&tables);
    assert_eq!(shared.len(), 2);
    assert_eq!(shared.get(&0xA), Some(&vec![0x100, 0x200]));
    assert_eq!(shared.get(&0xC), Some(&vec![0x200, 0x200]));
    assert!(shared.get(&0xB).is_none());
    let sizes = VTableAnalyzer::estimate_object_sizes(&tables);
    assert_eq!(sizes.get(&0x100), Some(&24));
    assert_eq!(sizes.get(&0x200), Some(&32));
}

#[test]
fn table_and_hierarchy_listings() {
    let mut v = VTable::new(0x1A0);
    v.type_info_ptr = Some(0x2B);
    v.add_function(0x3C, 0);
    v.add_function(0x4D, 1);
    assert_eq!(
        v.to_string(),
        "VTable @ 0x1A0:\n  Type Info: 0x2B\n  Functions (2):\n    [0]: 0x3C\n    [1]: 0x4D\n"
    );
    let mut base = VTable::new(0x10);
    base.add_function(0x1, 0);
    let mut derived = VTable::new(0x20);
    derived.add_function(0x1, 0);
    derived.add_function(0x2, 1);
    let h = VTableAnalyzer::reconstruct_hierarchy(&[base, derived]);
    assert_eq!(
        h.to_string(),
        "Class Hierarchy:\nClass_10 (0x10)\n  Class_20 (0x20)\nClass_20 (0x20)\n"
    );
}

#[test]
fn hierarchy_listing_terminates_on_cycles() {
    let mut a = VTable::new(0x10);
    a.add_function(0x1, 0);
    let mut b = VTable::new(0x20);
    b.add_function(0x1, 0);
    let h = VTableAnalyzer::reconstruct_hierarchy(&[a, b]);
    let text = h.to_string();
    assert!(text.starts_with("Class Hierarchy:\nClass_10 (0x10)\n  Class_20 (0x20)\n    Class_10 (0x10)\n"));
}

#[test]
fn null_is_never_type_info() {
    let mut data = vec![0u8; 32];
    data[0..8].copy_from_slice(&8u64.to_le_bytes());
    assert!(!CodeHeuristics::is_rtti_type_info(0, &data, 0));
    assert!(CodeHeuristics::is_rtti_type_info(8, &{
        let mut d = data.clone();
        d[8..16].copy_from_slice(&8u64.to_le_bytes());
        d
    }, 0));
}
