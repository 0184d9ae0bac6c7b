use memory_analysis::analysis::{
    AddressType, AnalysisConfig, AnalysisEngine, CallingConvention, PatternDatabase, PatternType,
    StringEncoding,
};
use memory_analysis::memory::{
    ComprehensiveScanResult, MemoryProtection, MemoryRegion, MemoryState, MemoryType, ScanResult, ScanResultType,
};
use memory_analysis::text::{decimal_string, hex_string, hex_string_padded};
use memory_analysis::vtable::VTable;

#[test]
fn test_calling_convention_detection() {
    let engine = AnalysisEngine::new();

    let prologue1 = [0x55, 0x48, 0x89, 0xE5]; // push rbp; mov rbp, rsp
    assert_eq!(engine.detect_calling_convention(&prologue1), CallingConvention::Cdecl);

    let prologue2 = [0x48, 0x89, 0x4C, 0x24]; // mov [rsp+8], rcx
    assert_eq!(engine.detect_calling_convention(&prologue2), CallingConvention::Fastcall);
}

#[test]
fn test_string_extraction() {
    let engine = AnalysisEngine::new();
    let data = b"Hello World\0Some other text\0\x00\x01\x02";

    let strings = engine.extract_strings(data, 0x1000);
    assert_eq!(strings.len(), 2);
    assert_eq!(strings[0].value, "Hello World");
    assert_eq!(strings[1].value, "Some other text");
}

#[test]
fn test_pattern_database() {
    let db = PatternDatabase::new();
    let patterns = db.get_common_patterns();
    assert!(!patterns.is_empty());

    let prologue_data = [0x55, 0x48, 0x89, 0xE5];
    assert!(db.is_function_prologue(&prologue_data));
}

#[test]
fn string_addresses_and_edges() {
    let engine = AnalysisEngine::new();
    let strings = engine.extract_strings(b"Hello World\0Some other text\0\x00\x01\x02", 0x1000);
    assert_eq!(strings[0].address, 0x1000);
    assert_eq!(strings[1].address, 0x100C);
    assert!(strings.iter().all(|s| s.encoding == StringEncoding::Ascii && s.references.is_empty()));
    assert!(engine.extract_strings(b"abc\0", 0).is_empty());
    assert_eq!(engine.extract_strings(b"abcd\x01", 0).len(), 1);
    let tail = engine.extract_strings(b"\x01abcdef", 0x20);
    assert_eq!(tail.len(), 1);
    assert_eq!(tail[0].address, 0x21);
    assert_eq!(tail[0].value, "abcdef");
    assert_eq!(engine.extract_strings(b"Test", 0)[0].value, "Test");
    assert!(engine.extract_strings(b"abc", 0).is_empty());
    assert!(engine.extract_strings(b"", 0).is_empty());
}

#[test]
fn common_patterns_listed_in_order() {
    let db = PatternDatabase::new();
    assert_eq!(
        db.get_common_patterns(),
        vec!["55 48 89 E5", "48 83 EC ??", "48 89 5C 24 ??", "48 83 C4 ?? 5D C3", "5D C3", "C3"]
    );
    assert!(db.is_function_prologue(&[0x48, 0x83, 0xEC, 0x28]));
    assert!(!db.is_function_prologue(&[0x48, 0x83, 0xEC]));
}

#[test]
fn function_analysis_scores() {
    let engine = AnalysisEngine::new();
    let fastcall = [0x48, 0x89, 0x4C, 0x24, 0x08, 0x90, 0x5D, 0xC3, 0x00];
    let f = engine.analyze_function_bytes(0x4000, &fastcall);
    assert_eq!(f.address, 0x4000);
    assert_eq!(f.calling_convention, CallingConvention::Fastcall);
    assert_eq!(f.size, Some(7));
    assert_eq!(f.parameters.len(), 1);
    assert_eq!(f.confidence, 80);
    let v = engine.as_virtual_function(f);
    assert_eq!(v.calling_convention, CallingConvention::Thiscall);
    assert_eq!(v.confidence, 90);

    let plain = [0x90, 0x90, 0x90];
    let g = engine.analyze_function_bytes(0x10, &plain);
    assert_eq!(g.size, None);
    assert_eq!(g.confidence, 50);
    assert_eq!(g.calling_convention, CallingConvention::Unknown);
    assert_eq!(engine.estimate_function_size(&[0x48, 0x83, 0xC4, 0x28]), Some(1));
    assert_eq!(engine.estimate_function_size(&[0x90, 0xC3]), None);
    assert!(engine.analyze_function_parameters(&[0x48, 0x89, 0x4C, 0x24]).is_empty());
}

#[test]
fn address_classification() {
    let engine = AnalysisEngine::new();
    let f = engine.analyze_address_bytes(0x10, &[0x55, 0x48, 0x89, 0xE5, 0, 0, 0, 0]);
    assert_eq!(f.analysis_type, AddressType::Function);
    assert_eq!(f.description, "Function entry point");
    let ptr = 0x7FF6_1234_0000u64.to_le_bytes();
    let p = engine.analyze_address_bytes(0x10, &ptr);
    assert_eq!(p.analysis_type, AddressType::DataPointer);
    assert_eq!(p.description, "Data pointer");
    let text = b"The quick brown fox jumps over the lazy dog";
    let s = engine.analyze_address_bytes(0x10, text);
    assert_eq!(s.analysis_type, AddressType::String);
    assert_eq!(s.description, "String data: \"The quick brown fox \"");
    assert_eq!(s.data.len(), 32);
    let u = engine.analyze_address_bytes(0x10, &[0, 1, 2]);
    assert_eq!(u.analysis_type, AddressType::Unknown);
    assert_eq!(u.description, "Unknown data");
    assert_eq!(engine.describe_address_content(&[0xFF, 0xFE, 0x41, 0x41], AddressType::String), "String data (binary)");
    assert!(!engine.is_string_data(b"ab\0\0\0\0\0\0\0\0"));
    assert!(engine.is_string_data(b"abcdefgh\0\0"));
}

#[test]
fn full_result_assembly() {
    let region = MemoryRegion {
        base_address: 0x1000,
        size: 0x100,
        protection: MemoryProtection::ExecuteRead,
        state: MemoryState::Commit,
        region_type: MemoryType::Private,
    };
    let mut v = VTable::new(0xABC0);
    v.add_function(0x1000, 0);
    v.add_function(0x1010, 1);
    let scan = ComprehensiveScanResult {
        pattern_matches: vec![
            ScanResult { address: 0x1000, size: 4, region, result_type: ScanResultType::Pattern, data: vec![0x55, 0x48, 0x89, 0xE5] },
            ScanResult { address: 0x1040, size: 1, region, result_type: ScanResultType::Pattern, data: vec![0xC3] },
        ],
        vtables: vec![v],
        memory_regions: vec![region],
    };
    let engine = AnalysisEngine::with_config(AnalysisConfig { confidence_threshold: 75, ..Default::default() });
    let f1 = engine.analyze_function_bytes(0x1000, &[0x55, 0x48, 0x89, 0xE5, 0x5D, 0xC3]);
    let f2 = engine.analyze_function_bytes(0x1040, &[0x90, 0x90, 0x90]);
    let result = engine.build_result(&scan, vec![f1, f2], vec![], 12);
    assert_eq!(result.statistics.total_functions, 2);
    assert_eq!(result.statistics.high_confidence_functions, 0);
    assert_eq!(result.statistics.total_structures, 1);
    assert_eq!(result.statistics.vtables_analyzed, 1);
    assert_eq!(result.statistics.code_patterns, 2);
    assert_eq!(result.statistics.analysis_time_ms, 12);
    assert_eq!(result.structures[0].name, "Class_ABC0");
    assert_eq!(result.structures[0].fields[0].name, "vtable");
    assert_eq!(result.code_patterns[0].pattern_type, PatternType::FunctionPrologue);
    assert_eq!(result.code_patterns[0].addresses, vec![0x1000]);
    assert_eq!(result.code_patterns[1].pattern_type, PatternType::VirtualCall);
    assert_eq!(result.code_patterns[1].description, "Virtual function table with 2 functions");
    assert_eq!(result.code_patterns[1].addresses, vec![0x1000, 0x1010]);
    assert!(result.import_table.is_empty() && result.export_table.is_empty());
    assert_eq!(result.class_hierarchy.get_all_classes().len(), 1);
}

#[test]
fn number_text() {
    assert_eq!(hex_string(0), "0");
    assert_eq!(hex_string(0x1A2B), "1A2B");
    assert_eq!(hex_string_padded(0xBEEF, 8), "0000BEEF");
    assert_eq!(hex_string_padded(0x123456789, 8), "123456789");
    assert_eq!(decimal_string(0), "0");
    assert_eq!(decimal_string(1907), "1907");
}

#[test]
fn analysis_statistics_listing() {
    let engine = AnalysisEngine::new();
    let scan = ComprehensiveScanResult { pattern_matches: vec![], vtables: vec![], memory_regions: vec![] };
    let f = engine.analyze_function_bytes(0x10, &[0x55, 0x48, 0x89, 0xE5, 0xC3, 0x90, 0x90]);
    assert_eq!(f.confidence, 70);
    let result = engine.build_result(&scan, vec![f], vec![], 7);
    assert_eq!(result.statistics.high_confidence_functions, 1);
    assert_eq!(
        result.statistics.to_string(),
        "Analysis Statistics:\n  Functions: 1 (1 high confidence)\n  Structures: 0\n  VTables: 0\n  String References: 0\n  Code Patterns: 0\n  Analysis Time: 7ms\n"
    );
}

#[test]
fn function_targets_and_collection() {
    let region = MemoryRegion {
        base_address: 0x1000,
        size: 0x100,
        protection: MemoryProtection::ExecuteRead,
        state: MemoryState::Commit,
        region_type: MemoryType::Private,
    };
    let mut v = VTable::new(0x2000);
    v.add_function(0x1100, 0);
    v.add_function(0x1200, 1);
    let scan = ComprehensiveScanResult {
        pattern_matches: vec![ScanResult {
            address: 0x1000,
            size: 4,
            region,
            result_type: ScanResultType::Pattern,
            data: vec![0x55, 0x48, 0x89, 0xE5],
        }],
        vtables: vec![v],
        memory_regions: vec![region],
    };
    let engine = AnalysisEngine::new();
    let targets = engine.function_targets(&scan);
    let listed: Vec<(usize, bool)> = targets.iter().map(|t| (t.address, t.from_vtable)).collect();
    assert_eq!(listed, vec![(0x1000, false), (0x1100, true), (0x1200, true)]);
    let windows = vec![
        Some(vec![0x55, 0x48, 0x89, 0xE5, 0x5D, 0xC3, 0x90]),
        None,
        Some(vec![0x48, 0x89, 0x4C, 0x24, 0x08, 0x90, 0x90, 0x90]),
    ];
    let functions = engine.collect_functions(&targets, &windows);
    assert_eq!(functions.len(), 2);
    assert_eq!(functions[0].address, 0x1000);
    assert_eq!(functions[0].calling_convention, CallingConvention::Cdecl);
    assert_eq!(functions[0].confidence, 70);
    assert_eq!(functions[1].address, 0x1200);
    assert_eq!(functions[1].calling_convention, CallingConvention::Thiscall);
    assert_eq!(functions[1].confidence, 70);
}
