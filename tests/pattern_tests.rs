use memory_analysis::pattern::{
    BoyerMooreMatcher, HybridMatcher, KmpMatcher, MatcherChoice, NaiveMatcher, Pattern, PatternError,
    PatternMatcher, PatternScanner,
};

#[test]
fn test_pattern_creation() {
    let pattern = Pattern::new("48 8B ?? 74 ??").unwrap();
    assert_eq!(pattern.len(), 5);
    assert_eq!(pattern.mask(), "xx?x?");

    let bytes = pattern.bytes();
    assert_eq!(bytes[0], Some(0x48));
    assert_eq!(bytes[1], Some(0x8B));
    assert_eq!(bytes[2], None);
    assert_eq!(bytes[3], Some(0x74));
    assert_eq!(bytes[4], None);
}

#[test]
fn test_pattern_matching() {
    let data = [0x48, 0x8B, 0x05, 0x74, 0x12, 0x90, 0x48, 0x8B, 0xFF, 0x74, 0x34];
    let pattern = Pattern::new("48 8B ?? 74").unwrap();

    let scanner = PatternScanner::new();
    let matches = scanner.scan_pattern(&pattern, &data);

    assert_eq!(matches.len(), 2);
    assert_eq!(matches[0].offset, 0);
    assert_eq!(matches[1].offset, 6);
}

#[test]
fn test_different_matchers() {
    let data = [0x12, 0x34, 0x56, 0x78, 0x9A, 0x34, 0x56, 0xBC];
    let pattern = Pattern::new("34 56").unwrap();

    let matchers: Vec<Box<dyn PatternMatcher>> = vec![
        Box::new(NaiveMatcher),
        Box::new(BoyerMooreMatcher),
        Box::new(KmpMatcher),
    ];

    for matcher in matchers {
        let matches = matcher.find_all(&pattern, &data);
        assert_eq!(matches.len(), 2);
        assert_eq!(matches[0].offset, 1);
        assert_eq!(matches[1].offset, 5);
    }
}

fn offsets(ms: &[memory_analysis::pattern::PatternMatch]) -> Vec<usize> {
    ms.iter().map(|m| m.offset).collect()
}

#[test]
fn matchers_agree_without_wildcards() {
    let data: Vec<u8> = vec![
        1, 2, 1, 2, 1, 2, 3, 1, 2, 1, 2, 1, 2, 3, 0, 1, 2, 1, 2, 3, 1, 2, 1, 2, 1, 2, 1, 2, 3,
    ];
    for sig in ["01 02 01 02 03", "01 02", "02 01 02", "01 02 01 02 01 02 03 01", "03", "09 09"] {
        let pattern = Pattern::new(sig).unwrap();
        let naive = NaiveMatcher.find_all(&pattern, &data);
        let bm = BoyerMooreMatcher.find_all(&pattern, &data);
        let kmp = KmpMatcher.find_all(&pattern, &data);
        let hybrid = HybridMatcher.find_all(&pattern, &data);
        assert_eq!(offsets(&naive), offsets(&bm), "{}", sig);
        assert_eq!(offsets(&naive), offsets(&kmp), "{}", sig);
        assert_eq!(offsets(&naive), offsets(&hybrid), "{}", sig);
        assert_eq!(
            NaiveMatcher.find_first(&pattern, &data).map(|m| m.offset),
            naive.first().map(|m| m.offset)
        );
        assert_eq!(
            BoyerMooreMatcher.find_first(&pattern, &data).map(|m| m.offset),
            naive.first().map(|m| m.offset)
        );
        assert_eq!(
            KmpMatcher.find_first(&pattern, &data).map(|m| m.offset),
            naive.first().map(|m| m.offset)
        );
    }
    let pattern = Pattern::new("01 02 01 02 03").unwrap();
    assert_eq!(offsets(&NaiveMatcher.find_all(&pattern, &data)), vec![2, 9, 15, 24]);
}

#[test]
fn matches_at_stays_in_bounds() {
    let pattern = Pattern::new("AA BB").unwrap();
    let data = [0x00, 0xAA, 0xBB];
    assert!(pattern.matches_at(&data, 1));
    assert!(!pattern.matches_at(&data, 2));
    assert!(!pattern.matches_at(&data, 3));
    assert!(!pattern.matches_at(&data, usize::MAX));
    assert!(!pattern.matches_at(&[], 0));
}

#[test]
fn signature_parsing_is_case_insensitive_and_whitespace_tolerant() {
    let pattern = Pattern::new("  ab\tCD\n?  ").unwrap();
    assert_eq!(pattern.bytes(), &[Some(0xAB), Some(0xCD), None]);
    assert_eq!(pattern.mask(), "xx?");
}

#[test]
fn signature_errors() {
    assert_eq!(Pattern::new("48 ZZ").unwrap_err(), PatternError::InvalidHex("ZZ".to_string()));
    assert_eq!(Pattern::new("+F").unwrap_err(), PatternError::InvalidHex("+F".to_string()));
    assert_eq!(Pattern::new("é").unwrap_err(), PatternError::InvalidHex("é".to_string()));
    assert_eq!(Pattern::new("48 8B0").unwrap_err(), PatternError::InvalidPatternFormat("8B0".to_string()));
    assert_eq!(Pattern::new("4").unwrap_err(), PatternError::InvalidPatternFormat("4".to_string()));
    assert_eq!(Pattern::new("???").unwrap_err(), PatternError::InvalidPatternFormat("???".to_string()));
    assert_eq!(Pattern::new("").unwrap_err(), PatternError::EmptyPattern);
    assert_eq!(Pattern::new(" \t ").unwrap_err(), PatternError::EmptyPattern);
    assert_eq!(Pattern::new("GG 4").unwrap_err(), PatternError::InvalidHex("GG".to_string()));
}

#[test]
fn pattern_from_bytes_and_mask() {
    let p = Pattern::from_bytes_and_mask(&[0x48, 0x8B, 0x00], "xX?").unwrap();
    assert_eq!(p.bytes(), &[Some(0x48), Some(0x8B), None]);
    assert_eq!(p.mask(), "xX?");
    assert_eq!(
        Pattern::from_bytes_and_mask(&[0x48, 0x8B], "x").unwrap_err(),
        PatternError::MaskLengthMismatch
    );
    assert_eq!(
        Pattern::from_bytes_and_mask(&[0x48, 0x8B], "xy").unwrap_err(),
        PatternError::InvalidMaskChar('y')
    );
    assert_eq!(Pattern::from_bytes_and_mask(&[], "").unwrap_err(), PatternError::EmptyPattern);
    assert_eq!(
        Pattern::from_bytes_and_mask(&[0x48, 0x8B], "é").unwrap_err(),
        PatternError::InvalidMaskChar('é')
    );
    assert_eq!(
        Pattern::from_bytes_and_mask(&[0x48], "é").unwrap_err(),
        PatternError::MaskLengthMismatch
    );
}

#[test]
fn hybrid_selection() {
    let short = Pattern::new("01 02 03").unwrap();
    assert_eq!(HybridMatcher::select_matcher(&short), MatcherChoice::Naive);
    let medium = Pattern::new("01 ?? 03 04").unwrap();
    assert_eq!(HybridMatcher::select_matcher(&medium), MatcherChoice::Kmp);
    let long = Pattern::new("01 02 03 04 05 06 07 ??").unwrap();
    assert_eq!(HybridMatcher::select_matcher(&long), MatcherChoice::BoyerMoore);
    let ratio = Pattern::new("01 02 03 04 05 06 07 ?? ?? ??").unwrap();
    assert_eq!(HybridMatcher::select_matcher(&ratio), MatcherChoice::Kmp);
}

#[test]
fn scanner_entry_points() {
    let data = [0x90, 0x55, 0x48, 0x89, 0xE5, 0x55, 0x48, 0x89, 0xE5];
    let scanner = PatternScanner::new();
    let all = scanner.scan("55 48 89 E5", &data).unwrap();
    assert_eq!(offsets(&all), vec![1, 5]);
    assert_eq!(all[0].size, 4);
    let first = scanner.scan_first("55 48 89 E5", &data).unwrap().unwrap();
    assert_eq!(first.offset, 1);
    assert!(scanner.scan_first("C3", &data).unwrap().is_none());
    assert_eq!(scanner.scan("X", &data).unwrap_err(), PatternError::InvalidPatternFormat("X".to_string()));
    let naive = PatternScanner::with_matcher(NaiveMatcher);
    let p = Pattern::new("48 ?? E5").unwrap();
    assert_eq!(offsets(&naive.scan_pattern(&p, &data)), vec![2, 6]);
    assert_eq!(naive.scan_pattern_first(&p, &data).unwrap().offset, 2);
}

#[test]
fn boyer_moore_with_wildcards_is_exact() {
    let p = Pattern::new("?? 01").unwrap();
    let data = [0x07, 0x07, 0x01];
    assert_eq!(offsets(&BoyerMooreMatcher.find_all(&p, &data)), vec![1]);
    assert_eq!(offsets(&NaiveMatcher.find_all(&p, &data)), vec![1]);

    let long = Pattern::new("?? 41 41 41 41 41 41 41").unwrap();
    let mut data = vec![0u8; 8];
    data.extend_from_slice(&[0x41; 7]);
    assert_eq!(BoyerMooreMatcher.find_first(&long, &data).map(|m| m.offset), Some(7));
    let first = PatternScanner::new().scan_first("?? 41 41 41 41 41 41 41", &data).unwrap().unwrap();
    assert_eq!((first.offset, first.size), (7, 8));
}

#[test]
fn hybrid_with_wildcards_matches_naive() {
    let p = Pattern::new("05 ?? 07").unwrap();
    let data = [0x05, 0x09, 0x07, 0x07];
    assert_eq!(offsets(&NaiveMatcher.find_all(&p, &data)), vec![0]);
    assert_eq!(offsets(&HybridMatcher.find_all(&p, &data)), vec![0]);
    for m in &KmpMatcher.find_all(&p, &data) {
        assert!(m.offset + m.size <= data.len());
    }

    let data = [0x48, 0x83, 0xEC, 0x00, 0x83, 0xEC, 0x11];
    assert_eq!(offsets(&PatternScanner::new().scan("48 83 EC ??", &data).unwrap()), vec![0]);

    let data = [0x48, 0x8B, 0x05, 0x74, 0x12, 0x90, 0x48, 0x8B, 0xFF, 0x74, 0x34];
    let found = PatternScanner::new().scan("48 8B ?? 74", &data).unwrap();
    assert_eq!(offsets(&found), vec![0, 6]);
    assert!(found.iter().all(|m| m.size == 4));
}
