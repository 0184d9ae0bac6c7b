//! Turning scan results and function bytes into discovered functions,
//! structures, strings and code patterns, with confidence scores.
//!
//! Confidence scores are whole hundredths (50 stands for 0.5). They are sums
//! of fixed increments and are not clamped: a score may exceed 100.
use vstd::prelude::*;

use crate::memory::ComprehensiveScanResult;
use crate::pattern::PatternError;
use crate::text::{ascii_string, ascii_text, decimal_string, decimal_text, is_ascii_bytes, string_from_utf8};
use crate::vtable::{
    class_name_of, hierarchy_of, inheritance_map, read_word, table_views, word_at, ClassHierarchy, VTable,
    VTableAnalyzer,
};

verus! {

/// Settings of an analysis.
#[derive(Debug, Clone)]
pub struct AnalysisConfig {
    /// Score from which a function counts as high-confidence, in hundredths.
    pub confidence_threshold: u32,
    /// Maximum depth of recursive analysis.
    pub max_analysis_depth: usize,
    /// Whether low-confidence results are kept.
    pub include_low_confidence: bool,
    /// Signatures to look for first.
    pub priority_patterns: Vec<String>,
    /// Whether cross references are analysed.
    pub enable_cross_reference: bool,
}

impl Default for AnalysisConfig {
    fn default() -> (r: Self)
        ensures
            r.confidence_threshold == 70,
            r.max_analysis_depth == 5,
            !r.include_low_confidence,
            r.priority_patterns@.len() == 0,
            r.enable_cross_reference,
    {
        AnalysisConfig {
            confidence_threshold: 70,
            max_analysis_depth: 5,
            include_low_confidence: false,
            priority_patterns: Vec::new(),
            enable_cross_reference: true,
        }
    }
}

/// Calling conventions.
#[derive(Debug, Clone, Copy, PartialEq, Eq, Structural)]
pub enum CallingConvention {
    Unknown,
    Cdecl,
    Stdcall,
    Fastcall,
    Thiscall,
    Vectorcall,
}

/// Types that analysis can assign.
#[derive(Debug, PartialEq, Eq)]
pub enum DataType {
    Unknown,
    Void,
    Bool,
    Int8,
    UInt8,
    Int16,
    UInt16,
    Int32,
    UInt32,
    Int64,
    UInt64,
    Float32,
    Float64,
    Pointer(Box<DataType>),
    Array(Box<DataType>, usize),
    Struct(String),
    Class(String),
}

impl Clone for DataType {
    fn clone(&self) -> (r: Self) {
        copy_data_type(self)
    }
}

fn copy_data_type(t: &DataType) -> (r: DataType)
    decreases t,
{
    match t {
        DataType::Unknown => DataType::Unknown,
        DataType::Void => DataType::Void,
        DataType::Bool => DataType::Bool,
        DataType::Int8 => DataType::Int8,
        DataType::UInt8 => DataType::UInt8,
        DataType::Int16 => DataType::Int16,
        DataType::UInt16 => DataType::UInt16,
        DataType::Int32 => DataType::Int32,
        DataType::UInt32 => DataType::UInt32,
        DataType::Int64 => DataType::Int64,
        DataType::UInt64 => DataType::UInt64,
        DataType::Float32 => DataType::Float32,
        DataType::Float64 => DataType::Float64,
        DataType::Pointer(inner) => DataType::Pointer(Box::new(copy_data_type(inner))),
        DataType::Array(inner, n) => DataType::Array(Box::new(copy_data_type(inner)), *n),
        DataType::Struct(name) => DataType::Struct(name.clone()),
        DataType::Class(name) => DataType::Class(name.clone()),
    }
}

/// Where a parameter is passed.
#[derive(Debug, Clone)]
pub enum ParameterLocation {
    Register(String),
    Stack(i32),
    Unknown,
}

/// A parameter of a discovered function.
#[derive(Debug, Clone)]
pub struct Parameter {
    pub index: usize,
    pub data_type: DataType,
    pub location: ParameterLocation,
}

/// A function found in the target, with what was inferred about it.
#[derive(Debug, Clone)]
pub struct DiscoveredFunction {
    pub address: usize,
    pub size: Option<usize>,
    pub name: Option<String>,
    pub calling_convention: CallingConvention,
    pub parameters: Vec<Parameter>,
    pub return_type: Option<DataType>,
    /// In hundredths; not clamped.
    pub confidence: u32,
    pub references: Vec<usize>,
    pub xrefs_to: Vec<usize>,
    pub xrefs_from: Vec<usize>,
}

/// A field of a discovered structure.
#[derive(Debug, Clone)]
pub struct StructField {
    pub name: String,
    pub offset: usize,
    pub data_type: DataType,
    pub size: usize,
}

/// A structure or class found in the target.
#[derive(Debug, Clone)]
pub struct DiscoveredStruct {
    pub name: String,
    pub size: usize,
    pub fields: Vec<StructField>,
    pub vtable_offset: Option<usize>,
    pub base_classes: Vec<String>,
    /// In hundredths.
    pub confidence: u32,
}

/// Text encodings of found strings.
#[derive(Debug, Clone, Copy, PartialEq, Eq, Structural)]
pub enum StringEncoding {
    Ascii,
    Unicode,
    Utf8,
}

/// A string found in the target.
#[derive(Debug, Clone)]
pub struct StringReference {
    pub address: usize,
    pub value: String,
    pub encoding: StringEncoding,
    pub references: Vec<usize>,
}

/// An entry of an import table.
#[derive(Debug, Clone)]
pub struct ImportEntry {
    pub module_name: String,
    pub function_name: String,
    pub address: usize,
    pub ordinal: Option<u16>,
}

/// An entry of an export table.
#[derive(Debug, Clone)]
pub struct ExportEntry {
    pub name: String,
    pub address: usize,
    pub ordinal: u16,
}

/// Kinds of code patterns.
#[derive(Debug, Clone, PartialEq, Eq, Hash)]
pub enum PatternType {
    FunctionPrologue,
    FunctionEpilogue,
    VirtualCall,
    SystemCall,
    StringReference,
    JumpTable,
    ExceptionHandler,
    Custom(String),
}

/// A code pattern seen at one or more addresses.
#[derive(Debug, Clone)]
pub struct CodePattern {
    pub pattern_type: PatternType,
    pub addresses: Vec<usize>,
    pub description: String,
    /// In hundredths.
    pub confidence: u32,
}

/// Counts over an analysis.
#[derive(Debug, Clone, Copy, PartialEq, Eq, Structural)]
pub struct AnalysisStatistics {
    pub total_functions: usize,
    pub high_confidence_functions: usize,
    pub total_structures: usize,
    pub vtables_analyzed: usize,
    pub string_references: usize,
    pub code_patterns: usize,
    pub analysis_time_ms: u64,
}

/// Everything an analysis found.
#[derive(Debug)]
pub struct AnalysisResult {
    pub functions: Vec<DiscoveredFunction>,
    pub structures: Vec<DiscoveredStruct>,
    pub class_hierarchy: ClassHierarchy,
    pub string_references: Vec<StringReference>,
    pub import_table: Vec<ImportEntry>,
    pub export_table: Vec<ExportEntry>,
    pub code_patterns: Vec<CodePattern>,
    pub statistics: AnalysisStatistics,
}

/// What the bytes at an address appear to be.
#[derive(Debug, Clone, Copy, PartialEq, Eq, Structural)]
pub enum AddressType {
    Function,
    DataPointer,
    String,
    Unknown,
}

/// The classification of the bytes at one address.
#[derive(Debug, Clone)]
pub struct AddressAnalysis {
    pub address: usize,
    pub analysis_type: AddressType,
    /// In hundredths.
    pub confidence: u32,
    pub description: String,
    pub data: Vec<u8>,
}

/// Errors of the analysis layer.
#[derive(Debug, Clone, PartialEq, Eq)]
pub enum AnalysisError {
    MemoryError(String),
    PatternError(PatternError),
    ScanError(String),
    AnalysisFailed(String),
}

/// `l` is the register named `name`.
pub open spec fn is_register(l: ParameterLocation, name: Seq<char>) -> bool {
    match l {
        ParameterLocation::Register(r) => r@ == name,
        _ => false,
    }
}

/// The four bytes at the start of `d` are `a b c d`.
pub open spec fn starts_with4(d: Seq<u8>, a: u8, b: u8, c: u8, e: u8) -> bool {
    d.len() >= 4 && d[0] == a && d[1] == b && d[2] == c && d[3] == e
}

/// `push rbp; mov rbp, rsp`, `sub rsp, imm8`, or `mov [rsp+..], rbx` at the
/// start of `d`.
pub open spec fn starts_with_prologue(d: Seq<u8>) -> bool {
    ||| starts_with4(d, 0x55, 0x48, 0x89, 0xE5)
    ||| (d.len() >= 4 && d[0] == 0x48 && d[1] == 0x83 && d[2] == 0xEC)
    ||| starts_with4(d, 0x48, 0x89, 0x5C, 0x24)
}

/// The calling convention read from the first four bytes: `push rbp; mov
/// rbp, rsp` is cdecl-like, `mov [rsp+8], rcx` fastcall-like, anything else
/// unknown.
pub open spec fn convention_of(d: Seq<u8>) -> CallingConvention {
    if starts_with4(d, 0x55, 0x48, 0x89, 0xE5) {
        CallingConvention::Cdecl
    } else if starts_with4(d, 0x48, 0x89, 0x4C, 0x24) {
        CallingConvention::Fastcall
    } else {
        CallingConvention::Unknown
    }
}

/// The three bytes at `i` exist and mark an epilogue: `add rsp, imm`, `pop
/// rbp; ret`, or a bare `ret`.
pub open spec fn epilogue_at(d: Seq<u8>, i: int) -> bool {
    &&& 0 <= i
    &&& i + 3 <= d.len()
    &&& {
        ||| (d[i] == 0x48 && d[i + 1] == 0x83 && d[i + 2] == 0xC4)
        ||| (d[i] == 0x5D && d[i + 1] == 0xC3)
        ||| d[i] == 0xC3
    }
}

/// The size estimate: one past the first epilogue window at or after `i`.
pub open spec fn size_estimate_from(d: Seq<u8>, i: int) -> Option<usize>
    decreases d.len() - i,
{
    if i < 0 || i + 3 > d.len() {
        None
    } else if epilogue_at(d, i) {
        Some((i + 1) as usize)
    } else {
        size_estimate_from(d, i + 1)
    }
}

/// The function's size estimate: one past the index of the first epilogue
/// window, if any.
pub open spec fn size_estimate(d: Seq<u8>) -> Option<usize> {
    size_estimate_from(d, 0)
}

/// A single fastcall parameter in `rcx` is taken to exist when the code starts with
/// `mov [rsp+8], rcx` and at least eight bytes were read.
pub open spec fn has_register_parameter(d: Seq<u8>) -> bool {
    d.len() >= 8 && starts_with4(d, 0x48, 0x89, 0x4C, 0x24)
}

/// The score of a function from its bytes: 50, plus 20 when a size was
/// estimated, plus 10 when a parameter was found.
pub open spec fn function_confidence(d: Seq<u8>) -> u32 {
    (50 + if size_estimate(d) is Some {
        20int
    } else {
        0int
    } + if has_register_parameter(d) {
        10int
    } else {
        0int
    }) as u32
}

/// The byte is printable ASCII: a graphic character or a space.
pub open spec fn is_printable(b: u8) -> bool {
    0x20 <= b <= 0x7E
}

/// After the first `k` bytes: the runs already ended by a non-printable byte
/// that have at least four bytes (start offset and bytes), the start of the
/// open run, and its bytes.
pub open spec fn string_scan(d: Seq<u8>, k: int) -> (Seq<(int, Seq<u8>)>, int, Seq<u8>)
    decreases k,
{
    if k <= 0 {
        (seq![], 0, seq![])
    } else {
        let prev = string_scan(d, k - 1);
        let b = d[k - 1];
        if is_printable(b) {
            if prev.2.len() == 0 {
                (prev.0, k - 1, seq![b])
            } else {
                (prev.0, prev.1, prev.2.push(b))
            }
        } else if prev.2.len() >= 4 {
            (prev.0.push((prev.1, prev.2)), prev.1, seq![])
        } else {
            (prev.0, prev.1, seq![])
        }
    }
}

/// The runs that string extraction reports for `d`: every maximal run of at
/// least four printable bytes, including one that reaches the end of `d`.
pub open spec fn string_runs(d: Seq<u8>) -> Seq<(int, Seq<u8>)> {
    let st = string_scan(d, d.len() as int);
    if st.2.len() >= 4 {
        st.0.push((st.1, st.2))
    } else {
        st.0
    }
}

proof fn lemma_string_scan(d: Seq<u8>, k: int)
    requires
        0 <= k <= d.len(),
    ensures
        string_scan(d, k).2.len() > 0 ==> 0 <= string_scan(d, k).1 && string_scan(d, k).1 + string_scan(d, k).2.len() == k,
        is_ascii_bytes(string_scan(d, k).2),
        forall|i: int| 0 <= i < string_scan(d, k).0.len() ==> 0 <= (#[trigger] string_scan(d, k).0[i]).0
            && string_scan(d, k).0[i].0 < k && is_ascii_bytes(string_scan(d, k).0[i].1),
    decreases k,
{
    if k > 0 {
        lemma_string_scan(d, k - 1);
        let prev = string_scan(d, k - 1);
        let cur = string_scan(d, k);
        assert forall|i: int| 0 <= i < cur.0.len() implies 0 <= (#[trigger] cur.0[i]).0 && cur.0[i].0 < k
            && is_ascii_bytes(cur.0[i].1) by {
            if i < prev.0.len() {
                assert(cur.0[i] == prev.0[i]);
            }
        }
    }
}

/// The data is at least eight bytes and its first word lies strictly
/// between 0x1000 and 0x7FFF_FFFF_FFFF.
pub open spec fn looks_like_data_pointer(d: Seq<u8>) -> bool {
    d.len() >= 8 && 0x1000 < word_at(d, 0) < 0x7FFF_FFFF_FFFF
}

/// The number of printable bytes among the first `k`.
pub open spec fn printable_count(d: Seq<u8>, k: int) -> int
    decreases k,
{
    if k <= 0 {
        0
    } else {
        printable_count(d, k - 1) + if is_printable(d[k - 1]) {
            1int
        } else {
            0int
        }
    }
}

/// The smaller of the data length and 32.
pub open spec fn window_len(d: Seq<u8>) -> int {
    if d.len() < 32 {
        d.len() as int
    } else {
        32
    }
}

/// At least four bytes, and over 70% of the first 32 (or all, if fewer) are
/// printable.
pub open spec fn looks_like_string(d: Seq<u8>) -> bool {
    d.len() >= 4 && 10 * printable_count(d, window_len(d)) > 7 * window_len(d)
}

/// Common code signatures, grouped by kind.
pub struct PatternDatabase {
    patterns: Vec<(PatternType, Vec<String>)>,
}

/// The common signatures, prologues first: `push rbp; mov rbp, rsp`, `sub
/// rsp, imm8`, `mov [rsp+..], rbx`, then `add rsp, imm8; pop rbp; ret`, `pop
/// rbp; ret`, `ret`.
pub open spec fn common_signatures() -> Seq<Seq<char>> {
    Seq::new(
        6,
        |i: int|
            if i == 0 {
                "55 48 89 E5"@
            } else if i == 1 {
                "48 83 EC ??"@
            } else if i == 2 {
                "48 89 5C 24 ??"@
            } else if i == 3 {
                "48 83 C4 ?? 5D C3"@
            } else if i == 4 {
                "5D C3"@
            } else {
                "C3"@
            },
    )
}

impl PatternDatabase {
    /// The signatures of the groups, in order.
    pub open spec fn signatures(&self) -> Seq<Seq<char>> {
        common_signatures()
    }

    /// The database holds the prologue group, then the epilogue group.
    pub closed spec fn wf(&self) -> bool {
        &&& self.patterns@.len() == 2
        &&& self.patterns@[0].1@.len() == 3
        &&& self.patterns@[1].1@.len() == 3
        &&& forall|i: int| 0 <= i < 3 ==> (#[trigger] self.patterns@[0].1@[i])@ == self.signatures()[i]
        &&& forall|i: int| 0 <= i < 3 ==> (#[trigger] self.patterns@[1].1@[i])@ == self.signatures()[i + 3]
    }

    /// Function prologues (`push rbp; mov rbp, rsp`, `sub rsp, imm8`, `mov
    /// [rsp+..], rbx`) and epilogues (`add rsp, imm8; pop rbp; ret`, `pop rbp;
    /// ret`, `ret`).
    pub fn new() -> (r: Self)
        ensures
            r.wf(),
    {
        let prologues = vec![
            String::from_str("55 48 89 E5"),
            String::from_str("48 83 EC ??"),
            String::from_str("48 89 5C 24 ??"),
        ];
        let epilogues = vec![
            String::from_str("48 83 C4 ?? 5D C3"),
            String::from_str("5D C3"),
            String::from_str("C3"),
        ];
        let r = PatternDatabase {
            patterns: vec![(PatternType::FunctionPrologue, prologues), (PatternType::FunctionEpilogue, epilogues)],
        };
        assert forall|i: int| 0 <= i < 3 implies (#[trigger] r.patterns@[0].1@[i])@ == r.signatures()[i] by {}
        assert forall|i: int| 0 <= i < 3 implies (#[trigger] r.patterns@[1].1@[i])@ == r.signatures()[i + 3] by {}
        r
    }

    /// Every signature, prologues first.
    pub fn get_common_patterns(&self) -> (r: Vec<&str>)
        requires
            self.wf(),
        ensures
            r@.len() == 6,
            forall|i: int| 0 <= i < 6 ==> (#[trigger] r@[i])@ == self.signatures()[i],
    {
        let mut all: Vec<&str> = Vec::new();
        let mut g: usize = 0;
        while g < self.patterns.len()
            invariant
                self.wf(),
                g <= 2,
                all@.len() == 3 * g,
                forall|i: int| 0 <= i < all@.len() ==> (#[trigger] all@[i])@ == self.signatures()[i],
            decreases 2 - g,
        {
            let group = &self.patterns[g].1;
            let mut k: usize = 0;
            while k < group.len()
                invariant
                    self.wf(),
                    g < 2,
                    group == &self.patterns@[g as int].1,
                    k <= 3,
                    all@.len() == 3 * g + k,
                    forall|i: int| 0 <= i < all@.len() ==> (#[trigger] all@[i])@ == self.signatures()[i],
                decreases 3 - k,
            {
                all.push(group[k].as_str());
                proof {
                    if g == 0 {
                        assert(group@[k as int]@ == self.signatures()[k as int]);
                    } else {
                        assert(group@[k as int]@ == self.signatures()[k + 3]);
                    }
                }
                k = k + 1;
            }
            g = g + 1;
        }
        all
    }

    /// Whether `data` starts with one of the prologue signatures.
    pub fn is_function_prologue(&self, data: &[u8]) -> (r: bool)
        ensures
            r == starts_with_prologue(data@),
    {
        if data.len() >= 4 {
            let (b0, b1, b2, b3) = (data[0], data[1], data[2], data[3]);
            (b0 == 0x55 && b1 == 0x48 && b2 == 0x89 && b3 == 0xE5) || (b0 == 0x48 && b1 == 0x83 && b2
                == 0xEC) || (b0 == 0x48 && b1 == 0x89 && b2 == 0x5C && b3 == 0x24)
        } else {
            false
        }
    }
}

/// Classifies functions, structures, strings and code patterns from scan
/// results and the bytes read at given addresses.
pub struct AnalysisEngine {
    config: AnalysisConfig,
    pattern_database: PatternDatabase,
}

impl AnalysisEngine {
    /// The engine's settings.
    pub closed spec fn settings(&self) -> AnalysisConfig {
        self.config
    }

    pub closed spec fn wf(&self) -> bool {
        self.pattern_database.wf()
    }

    /// An engine with the default settings.
    pub fn new() -> (r: Self)
        ensures
            r.wf(),
            r.settings().confidence_threshold == 70,
    {
        AnalysisEngine { config: AnalysisConfig::default(), pattern_database: PatternDatabase::new() }
    }

    /// An engine with the given settings.
    pub fn with_config(config: AnalysisConfig) -> (r: Self)
        ensures
            r.wf(),
            r.settings() == config,
    {
        AnalysisEngine { config, pattern_database: PatternDatabase::new() }
    }

    /// The signatures a full analysis searches for.
    pub fn common_patterns(&self) -> (r: Vec<&str>)
        requires
            self.wf(),
        ensures
            r@.len() == 6,
            forall|i: int| 0 <= i < 6 ==> (#[trigger] r@[i])@ == common_signatures()[i],
    {
        self.pattern_database.get_common_patterns()
    }

    /// The calling convention suggested by the first four bytes.
    pub fn detect_calling_convention(&self, data: &[u8]) -> (r: CallingConvention)
        ensures
            r == convention_of(data@),
    {
        if data.len() >= 4 {
            let (b0, b1, b2, b3) = (data[0], data[1], data[2], data[3]);
            if b0 == 0x55 && b1 == 0x48 && b2 == 0x89 && b3 == 0xE5 {
                CallingConvention::Cdecl
            } else if b0 == 0x48 && b1 == 0x89 && b2 == 0x4C && b3 == 0x24 {
                CallingConvention::Fastcall
            } else {
                CallingConvention::Unknown
            }
        } else {
            CallingConvention::Unknown
        }
    }

    /// One past the index of the first epilogue window, if any.
    pub fn estimate_function_size(&self, data: &[u8]) -> (r: Option<usize>)
        ensures
            r == size_estimate(data@),
    {
        let n = data.len();
        let mut i: usize = 0;
        while i < n && n - i >= 3
            invariant
                n == data@.len(),
                i <= n,
                size_estimate(data@) == size_estimate_from(data@, i as int),
            decreases n - i,
        {
            let (b0, b1, b2) = (data[i], data[i + 1], data[i + 2]);
            if (b0 == 0x48 && b1 == 0x83 && b2 == 0xC4) || (b0 == 0x5D && b1 == 0xC3) || b0 == 0xC3 {
                return Some(i + 1);
            }
            i = i + 1;
        }
        None
    }

    /// A single fastcall parameter in `rcx`, when the code starts by spilling
    /// it.
    pub fn analyze_function_parameters(&self, data: &[u8]) -> (r: Vec<Parameter>)
        ensures
            r@.len() == if has_register_parameter(data@) {
                1int
            } else {
                0int
            },
            has_register_parameter(data@) ==> {
                &&& r@[0].index == 0
                &&& r@[0].data_type == DataType::Unknown
                &&& is_register(r@[0].location, "RCX"@)
            },
    {
        let mut parameters: Vec<Parameter> = Vec::new();
        if data.len() >= 8 {
            if data[0] == 0x48 && data[1] == 0x89 && data[2] == 0x4C && data[3] == 0x24 {
                parameters.push(
                    Parameter {
                        index: 0,
                        data_type: DataType::Unknown,
                        location: ParameterLocation::Register(String::from_str("RCX")),
                    },
                );
            }
        }
        parameters
    }

    /// The function at `address`, from the bytes read there: its calling
    /// convention, size estimate and parameters, with a score of 50 plus 20
    /// for a size and 10 for a parameter.
    pub fn analyze_function_bytes(&self, address: usize, data: &[u8]) -> (r: DiscoveredFunction)
        ensures
            r.address == address,
            r.size == size_estimate(data@),
            r.name is None,
            r.calling_convention == convention_of(data@),
            r.parameters@.len() == if has_register_parameter(data@) {
                1int
            } else {
                0int
            },
            has_register_parameter(data@) ==> {
                &&& r.parameters@[0].index == 0
                &&& r.parameters@[0].data_type == DataType::Unknown
                &&& is_register(r.parameters@[0].location, "RCX"@)
            },
            r.return_type is None,
            r.confidence == function_confidence(data@),
            r.references@.len() == 0,
            r.xrefs_to@.len() == 0,
            r.xrefs_from@.len() == 0,
    {
        let mut function = DiscoveredFunction {
            address,
            size: None,
            name: None,
            calling_convention: self.detect_calling_convention(data),
            parameters: Vec::new(),
            return_type: None,
            confidence: 50,
            references: Vec::new(),
            xrefs_to: Vec::new(),
            xrefs_from: Vec::new(),
        };
        if let Some(size) = self.estimate_function_size(data) {
            function.size = Some(size);
            function.confidence = function.confidence + 20;
        }
        function.parameters = self.analyze_function_parameters(data);
        if function.parameters.len() > 0 {
            function.confidence = function.confidence + 10;
        }
        function
    }

    /// A function found through a virtual table: thiscall, and 10 more
    /// points of confidence.
    pub fn as_virtual_function(&self, function: DiscoveredFunction) -> (r: DiscoveredFunction)
        requires
            function.confidence + 10 <= u32::MAX,
        ensures
            r.calling_convention == CallingConvention::Thiscall,
            r.confidence == function.confidence + 10,
            r.address == function.address,
            r.size == function.size,
            r.name == function.name,
            r.parameters@ == function.parameters@,
            r.return_type == function.return_type,
            r.references@ == function.references@,
            r.xrefs_to@ == function.xrefs_to@,
            r.xrefs_from@ == function.xrefs_from@,
    {
        let mut function = function;
        function.calling_convention = CallingConvention::Thiscall;
        function.confidence = function.confidence + 10;
        function
    }

    /// The maximal runs of at least four printable ASCII bytes (graphic or
    /// space), each at `base_address` plus its offset; a run may end at the
    /// end of the data.
    pub fn extract_strings(&self, data: &[u8], base_address: usize) -> (r: Vec<StringReference>)
        requires
            base_address + data@.len() <= usize::MAX,
        ensures
            r@.len() == string_runs(data@).len(),
            forall|i: int| 0 <= i < r@.len() ==> {
                &&& (#[trigger] r@[i]).address == base_address + string_runs(data@)[i].0
                &&& r@[i].value@ == ascii_text(string_runs(data@)[i].1)
                &&& r@[i].encoding == StringEncoding::Ascii
                &&& r@[i].references@.len() == 0
            },
    {
        let ghost d = data@;
        let mut strings: Vec<StringReference> = Vec::new();
        let mut current: Vec<u8> = Vec::new();
        let mut start_offset: usize = 0;
        let n = data.len();
        let mut i: usize = 0;
        while i < n
            invariant
                d == data@,
                n == d.len(),
                i <= n,
                base_address + d.len() <= usize::MAX,
                current@ == string_scan(d, i as int).2,
                current@.len() > 0 ==> start_offset == string_scan(d, i as int).1,
                strings@.len() == string_scan(d, i as int).0.len(),
                forall|k: int| 0 <= k < strings@.len() ==> {
                    &&& (#[trigger] strings@[k]).address == base_address + string_scan(d, i as int).0[k].0
                    &&& strings@[k].value@ == ascii_text(string_scan(d, i as int).0[k].1)
                    &&& strings@[k].encoding == StringEncoding::Ascii
                    &&& strings@[k].references@.len() == 0
                },
            decreases n - i,
        {
            proof {
                lemma_string_scan(d, i as int);
            }
            let byte = data[i];
            if 0x20 <= byte && byte <= 0x7E {
                if current.len() == 0 {
                    start_offset = i;
                }
                current.push(byte);
                assert(current@ =~= string_scan(d, i + 1).2);
            } else {
                if current.len() >= 4 {
                    let ghost run = current@;
                    let mut taken: Vec<u8> = Vec::new();
                    std::mem::swap(&mut taken, &mut current);
                    let value = ascii_string(taken);
                    strings.push(
                        StringReference {
                            address: base_address + start_offset,
                            value,
                            encoding: StringEncoding::Ascii,
                            references: Vec::new(),
                        },
                    );
                    assert(string_scan(d, i + 1).0 == string_scan(d, i as int).0.push((start_offset as int, run)));
                } else {
                    current = Vec::new();
                }
                assert(current@ =~= string_scan(d, i + 1).2);
            }
            i = i + 1;
        }
        proof {
            lemma_string_scan(d, n as int);
        }
        if current.len() >= 4 {
            let ghost run = current@;
            let value = ascii_string(current);
            strings.push(
                StringReference {
                    address: base_address + start_offset,
                    value,
                    encoding: StringEncoding::Ascii,
                    references: Vec::new(),
                },
            );
            assert(string_runs(d) == string_scan(d, n as int).0.push((start_offset as int, run)));
        }
        strings
    }

    /// Whether the first word looks like a user-space data pointer.
    pub fn is_data_pointer(&self, data: &[u8]) -> (r: bool)
        ensures
            r == looks_like_data_pointer(data@),
    {
        if data.len() >= 8 {
            let ptr = read_word(data, 0);
            ptr > 0x1000 && ptr < 0x7FFF_FFFF_FFFF
        } else {
            false
        }
    }

    /// Whether the bytes look like text.
    pub fn is_string_data(&self, data: &[u8]) -> (r: bool)
        ensures
            r == looks_like_string(data@),
    {
        if data.len() < 4 {
            return false;
        }
        let window: usize = if data.len() < 32 {
            data.len()
        } else {
            32
        };
        let mut count: usize = 0;
        let mut i: usize = 0;
        while i < window
            invariant
                window == window_len(data@),
                window <= data@.len(),
                i <= window,
                count <= i,
                count == printable_count(data@, i as int),
            decreases window - i,
        {
            if 0x20 <= data[i] && data[i] <= 0x7E {
                count = count + 1;
            }
            i = i + 1;
        }
        10 * count > 7 * window
    }
}

/// `t` is a pointer to void.
pub open spec fn is_void_pointer(t: DataType) -> bool {
    match t {
        DataType::Pointer(inner) => *inner is Void,
        _ => false,
    }
}

/// `s` is the structure derived from table `v`: named like its class, one
/// pointer-sized field `vtable` at offset 0, the table at offset 0, score 60.
pub open spec fn is_struct_for(s: DiscoveredStruct, v: VTable) -> bool {
    &&& s.name@ == class_name_of(v.base_address)
    &&& s.size == 8
    &&& s.fields@.len() == 1
    &&& s.fields@[0].name@ == "vtable"@
    &&& s.fields@[0].offset == 0
    &&& s.fields@[0].size == 8
    &&& is_void_pointer(s.fields@[0].data_type)
    &&& s.vtable_offset == Some(0usize)
    &&& s.base_classes@.len() == 0
    &&& s.confidence == 60
}

/// The addresses of the first `k` scan hits whose bytes start with a
/// prologue signature.
pub open spec fn prologue_hits(hits: Seq<crate::memory::ScanResult>, k: int) -> Seq<usize>
    decreases k,
{
    if k <= 0 {
        seq![]
    } else {
        let prev = prologue_hits(hits, k - 1);
        if starts_with_prologue(hits[k - 1].data@) {
            prev.push(hits[k - 1].address)
        } else {
            prev
        }
    }
}

/// The description of a table's code pattern.
pub open spec fn table_description(count: nat) -> Seq<char> {
    "Virtual function table with "@ + decimal_text(count) + " functions"@
}

/// `c` reports a prologue at `a`.
pub open spec fn is_prologue_pattern(c: CodePattern, a: usize) -> bool {
    &&& c.pattern_type is FunctionPrologue
    &&& c.addresses@ == seq![a]
    &&& c.description@ == "Standard function prologue"@
    &&& c.confidence == 80
}

/// `c` reports the virtual calls of table `v`.
pub open spec fn is_table_pattern(c: CodePattern, v: VTable) -> bool {
    &&& c.pattern_type is VirtualCall
    &&& c.addresses@ == v.functions@.map_values(|f: crate::vtable::VirtualFunction| f.address)
    &&& c.description@ == table_description(v.functions@.len())
    &&& c.confidence == 90
}

/// `r` holds a prologue pattern for each hit that starts with a prologue,
/// then a virtual-call pattern for each table, in order.
pub open spec fn code_patterns_for(scan: ComprehensiveScanResult, r: Seq<CodePattern>) -> bool {
    let hits = prologue_hits(scan.pattern_matches@, scan.pattern_matches@.len() as int);
    &&& r.len() == hits.len() + scan.vtables@.len()
    &&& forall|i: int| 0 <= i < hits.len() ==> is_prologue_pattern(#[trigger] r[i], hits[i])
    &&& forall|j: int| 0 <= j < scan.vtables@.len() ==> is_table_pattern(
        #[trigger] r[hits.len() + j],
        scan.vtables@[j],
    )
}

/// What the bytes at an address are taken for: a function if they start with
/// a prologue, else a data pointer, else a string, else unknown.
pub open spec fn classify(d: Seq<u8>) -> AddressType {
    if starts_with_prologue(d) {
        AddressType::Function
    } else if looks_like_data_pointer(d) {
        AddressType::DataPointer
    } else if looks_like_string(d) {
        AddressType::String
    } else {
        AddressType::Unknown
    }
}

/// The first `n` elements of `s`, or all of them.
pub open spec fn prefix<A>(s: Seq<A>, n: int) -> Seq<A> {
    if s.len() <= n {
        s
    } else {
        s.subrange(0, n)
    }
}

/// The description of the bytes `d` taken for `t`. For a string, its first
/// 20 characters when the first 32 bytes are valid UTF-8.
pub open spec fn description_of(d: Seq<u8>, t: AddressType) -> Seq<char> {
    match t {
        AddressType::Function => "Function entry point"@,
        AddressType::DataPointer => "Data pointer"@,
        AddressType::String => {
            let w = prefix(d, 32);
            if vstd::utf8::valid_utf8(w) {
                "String data: \""@ + prefix(vstd::utf8::decode_utf8(w), 20) + "\""@
            } else {
                "String data (binary)"@
            }
        },
        AddressType::Unknown => "Unknown data"@,
    }
}

/// The number of the first `k` functions scoring at least `threshold`.
pub open spec fn high_confidence_count(fs: Seq<DiscoveredFunction>, threshold: u32, k: int) -> nat
    decreases k,
{
    if k <= 0 {
        0
    } else {
        high_confidence_count(fs, threshold, k - 1) + if fs[k - 1].confidence >= threshold {
            1nat
        } else {
            0nat
        }
    }
}

proof fn lemma_high_confidence_bound(fs: Seq<DiscoveredFunction>, threshold: u32, k: int)
    requires
        0 <= k,
    ensures
        high_confidence_count(fs, threshold, k) <= k,
    decreases k,
{
    if k > 0 {
        lemma_high_confidence_bound(fs, threshold, k - 1);
    }
}

fn copy_bytes_prefix(data: &[u8], n: usize) -> (r: Vec<u8>)
    ensures
        r@ == prefix(data@, n as int),
{
    let end = if data.len() < n {
        data.len()
    } else {
        n
    };
    let mut out: Vec<u8> = Vec::new();
    let mut i: usize = 0;
    while i < end
        invariant
            end <= data@.len(),
            i <= end,
            out@ == data@.subrange(0, i as int),
        decreases end - i,
    {
        out.push(data[i]);
        i = i + 1;
        assert(out@ =~= data@.subrange(0, i as int));
    }
    assert(prefix(data@, n as int) =~= data@.subrange(0, end as int));
    out
}

impl AnalysisEngine {
    /// One structure per table, in order (see `is_struct_for`).
    pub fn analyze_structures(&self, vtables: &[VTable]) -> (r: Vec<DiscoveredStruct>)
        ensures
            r@.len() == vtables@.len(),
            forall|i: int| 0 <= i < r@.len() ==> is_struct_for(#[trigger] r@[i], vtables@[i]),
    {
        let mut structures: Vec<DiscoveredStruct> = Vec::new();
        let mut i: usize = 0;
        while i < vtables.len()
            invariant
                i <= vtables@.len(),
                structures@.len() == i,
                forall|k: int| 0 <= k < i ==> is_struct_for(#[trigger] structures@[k], vtables@[k]),
            decreases vtables@.len() - i,
        {
            let vtable = &vtables[i];
            let name = match vtable.estimated_class_name() {
                Some(name) => name,
                None => String::new(),
            };
            let mut structure = DiscoveredStruct {
                name,
                size: 8,
                fields: Vec::new(),
                vtable_offset: Some(0),
                base_classes: Vec::new(),
                confidence: 60,
            };
            structure.fields.push(
                StructField {
                    name: String::from_str("vtable"),
                    offset: 0,
                    data_type: DataType::Pointer(Box::new(DataType::Void)),
                    size: 8,
                },
            );
            structures.push(structure);
            i = i + 1;
        }
        structures
    }

    /// A prologue pattern for each scan hit whose bytes start with a prologue
    /// signature, then a virtual-call pattern for each table.
    pub fn detect_code_patterns(&self, scan_result: &ComprehensiveScanResult) -> (r: Vec<CodePattern>)
        ensures
            code_patterns_for(*scan_result, r@),
    {
        let ghost hits_all = scan_result.pattern_matches@;
        let mut patterns: Vec<CodePattern> = Vec::new();
        let mut i: usize = 0;
        while i < scan_result.pattern_matches.len()
            invariant
                hits_all == scan_result.pattern_matches@,
                i <= hits_all.len(),
                patterns@.len() == prologue_hits(hits_all, i as int).len(),
                forall|k: int| 0 <= k < patterns@.len() ==> is_prologue_pattern(
                    #[trigger] patterns@[k],
                    prologue_hits(hits_all, i as int)[k],
                ),
            decreases hits_all.len() - i,
        {
            let result = &scan_result.pattern_matches[i];
            if self.pattern_database.is_function_prologue(result.data.as_slice()) {
                let mut addresses: Vec<usize> = Vec::new();
                addresses.push(result.address);
                assert(addresses@ =~= seq![result.address]);
                let pattern = CodePattern {
                    pattern_type: PatternType::FunctionPrologue,
                    addresses,
                    description: String::from_str("Standard function prologue"),
                    confidence: 80,
                };
                assert(prologue_hits(hits_all, i + 1) == prologue_hits(hits_all, i as int).push(result.address));
                assert(is_prologue_pattern(pattern, result.address));
                patterns.push(pattern);
                proof {
                    let next = prologue_hits(hits_all, i + 1);
                    assert forall|k: int| 0 <= k < patterns@.len() implies is_prologue_pattern(
                        #[trigger] patterns@[k],
                        next[k],
                    ) by {
                        if k < patterns@.len() - 1 {
                            assert(next[k] == prologue_hits(hits_all, i as int)[k]);
                        }
                    }
                }
            }
            i = i + 1;
        }
        let ghost p = patterns@.len();
        let mut j: usize = 0;
        while j < scan_result.vtables.len()
            invariant
                hits_all == scan_result.pattern_matches@,
                p == prologue_hits(hits_all, hits_all.len() as int).len(),
                j <= scan_result.vtables@.len(),
                patterns@.len() == p + j,
                forall|k: int| 0 <= k < p ==> is_prologue_pattern(
                    #[trigger] patterns@[k],
                    prologue_hits(hits_all, hits_all.len() as int)[k],
                ),
                forall|k: int| 0 <= k < j ==> is_table_pattern(#[trigger] patterns@[p + k], scan_result.vtables@[k]),
            decreases scan_result.vtables@.len() - j,
        {
            let vtable = &scan_result.vtables[j];
            let mut addresses: Vec<usize> = Vec::new();
            let mut k: usize = 0;
            while k < vtable.functions.len()
                invariant
                    k <= vtable.functions@.len(),
                    addresses@ == vtable.functions@.subrange(0, k as int).map_values(
                        |f: crate::vtable::VirtualFunction| f.address,
                    ),
                decreases vtable.functions@.len() - k,
            {
                addresses.push(vtable.functions[k].address);
                k = k + 1;
                assert(addresses@ =~= vtable.functions@.subrange(0, k as int).map_values(
                    |f: crate::vtable::VirtualFunction| f.address,
                ));
            }
            assert(vtable.functions@.subrange(0, k as int) =~= vtable.functions@);
            let mut description = String::from_str("Virtual function table with ");
            let count = decimal_string(vtable.function_count() as u64);
            description.append(count.as_str());
            description.append(" functions");
            let ghost before = patterns@;
            patterns.push(
                CodePattern {
                    pattern_type: PatternType::VirtualCall,
                    addresses,
                    description,
                    confidence: 90,
                },
            );
            proof {
                assert forall|k2: int| 0 <= k2 < p implies is_prologue_pattern(
                    #[trigger] patterns@[k2],
                    prologue_hits(hits_all, hits_all.len() as int)[k2],
                ) by {
                    assert(patterns@[k2] == before[k2]);
                }
                assert forall|k2: int| 0 <= k2 < j + 1 implies is_table_pattern(
                    #[trigger] patterns@[p + k2],
                    scan_result.vtables@[k2],
                ) by {
                    if k2 < j {
                        assert(patterns@[p + k2] == before[p + k2]);
                    }
                }
            }
            j = j + 1;
        }
        patterns
    }

    /// The text describing bytes taken for `addr_type`.
    pub fn describe_address_content(&self, data: &[u8], addr_type: AddressType) -> (r: String)
        ensures
            r@ == description_of(data@, addr_type),
    {
        match addr_type {
            AddressType::Function => String::from_str("Function entry point"),
            AddressType::DataPointer => String::from_str("Data pointer"),
            AddressType::String => {
                let window = copy_bytes_prefix(data, 32);
                match string_from_utf8(window) {
                    Some(text) => {
                        let n = text.as_str().unicode_len();
                        let take: usize = if n < 20 {
                            n
                        } else {
                            20
                        };
                        let shown = text.as_str().substring_char(0, take);
                        let mut out = String::from_str("String data: \"");
                        out.append(shown);
                        out.append("\"");
                        assert(shown@ =~= prefix(text@, 20));
                        out
                    },
                    None => String::from_str("String data (binary)"),
                }
            },
            AddressType::Unknown => String::from_str("Unknown data"),
        }
    }

    /// Classifies the bytes read at `address` (see `classify`), with score 50,
    /// a description, and the first 32 bytes.
    pub fn analyze_address_bytes(&self, address: usize, data: &[u8]) -> (r: AddressAnalysis)
        ensures
            r.address == address,
            r.analysis_type == classify(data@),
            r.confidence == 50,
            r.description@ == description_of(data@, classify(data@)),
            r.data@ == prefix(data@, 32),
    {
        let analysis_type = if self.pattern_database.is_function_prologue(data) {
            AddressType::Function
        } else if self.is_data_pointer(data) {
            AddressType::DataPointer
        } else if self.is_string_data(data) {
            AddressType::String
        } else {
            AddressType::Unknown
        };
        AddressAnalysis {
            address,
            analysis_type,
            confidence: 50,
            description: self.describe_address_content(data, analysis_type),
            data: copy_bytes_prefix(data, 32),
        }
    }

    /// The full result of an analysis, from the scan, the functions and
    /// strings found in the bytes read for it, and the time it took:
    /// structures and classes from the tables, code patterns from the hits,
    /// empty import and export tables, and the counts.
    pub fn build_result(
        &self,
        scan_result: &ComprehensiveScanResult,
        functions: Vec<DiscoveredFunction>,
        string_references: Vec<StringReference>,
        analysis_time_ms: u64,
    ) -> (r: AnalysisResult)
        ensures
            r.functions@ == functions@,
            r.structures@.len() == scan_result.vtables@.len(),
            forall|i: int| 0 <= i < r.structures@.len() ==> is_struct_for(
                #[trigger] r.structures@[i],
                scan_result.vtables@[i],
            ),
            r.class_hierarchy.classes_view() == hierarchy_of(
                table_views(scan_result.vtables@),
                inheritance_map(table_views(scan_result.vtables@), scan_result.vtables@.len() as int),
                scan_result.vtables@.len() as int,
            ),
            r.string_references@ == string_references@,
            r.import_table@.len() == 0,
            r.export_table@.len() == 0,
            code_patterns_for(*scan_result, r.code_patterns@),
            r.statistics.total_functions == functions@.len(),
            r.statistics.high_confidence_functions == high_confidence_count(
                functions@,
                self.settings().confidence_threshold,
                functions@.len() as int,
            ),
            r.statistics.total_structures == scan_result.vtables@.len(),
            r.statistics.vtables_analyzed == scan_result.vtables@.len(),
            r.statistics.string_references == string_references@.len(),
            r.statistics.code_patterns == r.code_patterns@.len(),
            r.statistics.analysis_time_ms == analysis_time_ms,
    {
        let structures = self.analyze_structures(scan_result.vtables.as_slice());
        let class_hierarchy = VTableAnalyzer::reconstruct_hierarchy(scan_result.vtables.as_slice());
        let code_patterns = self.detect_code_patterns(scan_result);
        let threshold = self.config.confidence_threshold;
        let mut high: usize = 0;
        let mut i: usize = 0;
        while i < functions.len()
            invariant
                i <= functions@.len(),
                threshold == self.settings().confidence_threshold,
                high == high_confidence_count(functions@, threshold, i as int),
            decreases functions@.len() - i,
        {
            proof {
                lemma_high_confidence_bound(functions@, threshold, i as int);
            }
            if functions[i].confidence >= threshold {
                high = high + 1;
            }
            i = i + 1;
        }
        let statistics = AnalysisStatistics {
            total_functions: functions.len(),
            high_confidence_functions: high,
            total_structures: structures.len(),
            vtables_analyzed: scan_result.vtables.len(),
            string_references: string_references.len(),
            code_patterns: code_patterns.len(),
            analysis_time_ms,
        };
        AnalysisResult {
            functions,
            structures,
            class_hierarchy,
            string_references,
            import_table: Vec::new(),
            export_table: Vec::new(),
            code_patterns,
            statistics,
        }
    }
}

/// The report of analysis counts, one line each.
pub open spec fn analysis_statistics_text(s: AnalysisStatistics) -> Seq<char> {
    "Analysis Statistics:\n  Functions: "@ + decimal_text(s.total_functions as nat) + " ("@ + decimal_text(
        s.high_confidence_functions as nat,
    ) + " high confidence)\n  Structures: "@ + decimal_text(s.total_structures as nat) + "\n  VTables: "@
        + decimal_text(s.vtables_analyzed as nat) + "\n  String References: "@ + decimal_text(
        s.string_references as nat,
    ) + "\n  Code Patterns: "@ + decimal_text(s.code_patterns as nat) + "\n  Analysis Time: "@
        + decimal_text(s.analysis_time_ms as nat) + "ms\n"@
}

impl AnalysisStatistics {
    /// The report of the counts (see `analysis_statistics_text`).
    pub fn to_string(&self) -> (r: String)
        ensures
            r@ == analysis_statistics_text(*self),
    {
        let mut out = String::from_str("Analysis Statistics:\n  Functions: ");
        out.append(decimal_string(self.total_functions as u64).as_str());
        out.append(" (");
        out.append(decimal_string(self.high_confidence_functions as u64).as_str());
        out.append(" high confidence)\n  Structures: ");
        out.append(decimal_string(self.total_structures as u64).as_str());
        out.append("\n  VTables: ");
        out.append(decimal_string(self.vtables_analyzed as u64).as_str());
        out.append("\n  String References: ");
        out.append(decimal_string(self.string_references as u64).as_str());
        out.append("\n  Code Patterns: ");
        out.append(decimal_string(self.code_patterns as u64).as_str());
        out.append("\n  Analysis Time: ");
        out.append(decimal_string(self.analysis_time_ms).as_str());
        out.append("ms\n");
        assert(out@ =~= analysis_statistics_text(*self));
        out
    }
}

/// An address whose function an analysis examines, and whether a virtual
/// table lists it.
#[derive(Debug, Clone, Copy, PartialEq, Eq, Structural)]
pub struct FunctionTarget {
    pub address: usize,
    pub from_vtable: bool,
}

/// The entries of the first `k` tables, as targets.
pub open spec fn table_targets(vtables: Seq<VTable>, k: int) -> Seq<FunctionTarget>
    decreases k,
{
    if k <= 0 {
        seq![]
    } else {
        table_targets(vtables, k - 1) + vtables[k - 1].functions@.map_values(
            |f: crate::vtable::VirtualFunction| FunctionTarget { address: f.address, from_vtable: true },
        )
    }
}

/// The functions an analysis examines: each scan hit, then each table entry.
pub open spec fn function_targets_of(scan: ComprehensiveScanResult) -> Seq<FunctionTarget> {
    scan.pattern_matches@.map_values(
        |h: crate::memory::ScanResult| FunctionTarget { address: h.address, from_vtable: false },
    ) + table_targets(scan.vtables@, scan.vtables@.len() as int)
}

/// The targets among the first `k` whose bytes could be read, with those bytes.
pub open spec fn readable_targets(targets: Seq<FunctionTarget>, windows: Seq<Option<Vec<u8>>>, k: int) -> Seq<(FunctionTarget, Seq<u8>)>
    decreases k,
{
    if k <= 0 {
        seq![]
    } else {
        let prev = readable_targets(targets, windows, k - 1);
        match windows[k - 1] {
            Some(bytes) => prev.push((targets[k - 1], bytes@)),
            None => prev,
        }
    }
}

/// `f` is the function found at target `t` from the bytes `d` read there:
/// as from `analyze_function_bytes`, and for a table entry thiscall with 10
/// more points.
pub open spec fn is_function_for(f: DiscoveredFunction, t: FunctionTarget, d: Seq<u8>) -> bool {
    &&& f.address == t.address
    &&& f.size == size_estimate(d)
    &&& f.calling_convention == if t.from_vtable {
        CallingConvention::Thiscall
    } else {
        convention_of(d)
    }
    &&& f.confidence == function_confidence(d) + if t.from_vtable {
        10int
    } else {
        0int
    }
    &&& f.parameters@.len() == if has_register_parameter(d) {
        1int
    } else {
        0int
    }
}

impl AnalysisEngine {
    /// The addresses a full analysis examines, in order: every scan hit, then
    /// every entry of every table.
    pub fn function_targets(&self, scan_result: &ComprehensiveScanResult) -> (r: Vec<FunctionTarget>)
        ensures
            r@ == function_targets_of(*scan_result),
    {
        let mut targets: Vec<FunctionTarget> = Vec::new();
        let hits = &scan_result.pattern_matches;
        let mut i: usize = 0;
        while i < hits.len()
            invariant
                i <= hits@.len(),
                hits == &scan_result.pattern_matches,
                targets@ == hits@.subrange(0, i as int).map_values(
                    |h: crate::memory::ScanResult| FunctionTarget { address: h.address, from_vtable: false },
                ),
            decreases hits@.len() - i,
        {
            targets.push(FunctionTarget { address: hits[i].address, from_vtable: false });
            i = i + 1;
            assert(targets@ =~= hits@.subrange(0, i as int).map_values(
                |h: crate::memory::ScanResult| FunctionTarget { address: h.address, from_vtable: false },
            ));
        }
        assert(hits@.subrange(0, i as int) =~= hits@);
        let ghost head = targets@;
        let tables = &scan_result.vtables;
        let mut k: usize = 0;
        while k < tables.len()
            invariant
                k <= tables@.len(),
                tables == &scan_result.vtables,
                targets@ == head + table_targets(tables@, k as int),
            decreases tables@.len() - k,
        {
            let functions = &tables[k].functions;
            let ghost before = targets@;
            let mut j: usize = 0;
            while j < functions.len()
                invariant
                    j <= functions@.len(),
                    functions == &tables@[k as int].functions,
                    targets@ == before + functions@.subrange(0, j as int).map_values(
                        |f: crate::vtable::VirtualFunction| FunctionTarget { address: f.address, from_vtable: true },
                    ),
                decreases functions@.len() - j,
            {
                targets.push(FunctionTarget { address: functions[j].address, from_vtable: true });
                j = j + 1;
                assert(targets@ =~= before + functions@.subrange(0, j as int).map_values(
                    |f: crate::vtable::VirtualFunction| FunctionTarget { address: f.address, from_vtable: true },
                ));
            }
            assert(functions@.subrange(0, j as int) =~= functions@);
            k = k + 1;
            assert(targets@ =~= head + table_targets(tables@, k as int));
        }
        targets
    }

    /// The functions found at the targets whose bytes could be read
    /// (`windows[i]` holds what was read at `targets[i]`, or `None`), in
    /// order; table entries are marked thiscall with 10 more points.
    pub fn collect_functions(&self, targets: &[FunctionTarget], windows: &[Option<Vec<u8>>]) -> (r: Vec<DiscoveredFunction>)
        requires
            targets@.len() == windows@.len(),
        ensures
            r@.len() == readable_targets(targets@, windows@, windows@.len() as int).len(),
            forall|i: int| 0 <= i < r@.len() ==> is_function_for(
                #[trigger] r@[i],
                readable_targets(targets@, windows@, windows@.len() as int)[i].0,
                readable_targets(targets@, windows@, windows@.len() as int)[i].1,
            ),
    {
        let mut functions: Vec<DiscoveredFunction> = Vec::new();
        let mut i: usize = 0;
        while i < windows.len()
            invariant
                targets@.len() == windows@.len(),
                i <= windows@.len(),
                functions@.len() == readable_targets(targets@, windows@, i as int).len(),
                forall|k: int| 0 <= k < functions@.len() ==> is_function_for(
                    #[trigger] functions@[k],
                    readable_targets(targets@, windows@, i as int)[k].0,
                    readable_targets(targets@, windows@, i as int)[k].1,
                ),
            decreases windows@.len() - i,
        {
            let ghost before = functions@;
            match &windows[i] {
                Some(bytes) => {
                    let target = targets[i];
                    let function = self.analyze_function_bytes(target.address, bytes.as_slice());
                    assert(function.confidence <= 80);
                    let function = if target.from_vtable {
                        self.as_virtual_function(function)
                    } else {
                        function
                    };
                    functions.push(function);
                    assert forall|k: int| 0 <= k < functions@.len() implies is_function_for(
                        #[trigger] functions@[k],
                        readable_targets(targets@, windows@, i + 1)[k].0,
                        readable_targets(targets@, windows@, i + 1)[k].1,
                    ) by {
                        if k < before.len() {
                            assert(functions@[k] == before[k]);
                        }
                    }
                },
                None => {},
            }
            i = i + 1;
        }
        functions
    }
}

} // verus!
