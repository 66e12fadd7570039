//! Stable generated-assembly protocols used at native ABI boundaries.

use vstd::prelude::*;

use crate::link::{LinkError, artifact_code, artifact_error, check_outcome};
use sha2::{Digest, Sha256};

use crate::text::{
    chars_of, concat3, concat5, has_prefix, le_bytes, lower_hex, push_bytes, push_le64, push_lower_hex,
    push_str, str_eq, string_from_chars,
};

verus! {

/// Magic identifying a generated call frame in diagnostic output.
pub const BRIDGE_FRAME_MAGIC: u32 = 0x4642_4343;

/// Magic identifying compiler-owned variadic state in diagnostic output.
pub const VA_STATE_MAGIC: u32 = 0x4156_4343;

/// The call target returns an x87 value which must be captured into the frame.
pub const BRIDGE_FLAG_X87_RESULT: u8 = 1;

/// The native ABI a generated unit targets.
#[derive(Clone, Copy, Debug, PartialEq, Eq, Structural)]
pub enum AbiIdentity {
    SysvAmd64Lp64,
    Aapcs64Lp64,
    RiscvLp64d,
    DarwinArm64,
}

/// The fixed portion of the call-helper protocol. The outgoing stack payload
/// follows it immediately; assembly helpers read only the live register
/// prefixes that the header counts.
#[derive(Clone)]
pub struct BridgeFrameV2 {
    pub magic: u32,
    pub version: u16,
    pub header_size: u16,
    pub target_address: u64,
    pub outgoing_stack_size: u32,
    pub total_size: u32,
    pub gp_used: u8,
    pub xmm_used: u8,
    pub variadic_sse_count: u8,
    pub gp_results: u8,
    pub xmm_results: u8,
    pub flags: u8,
    pub reserved: u16,
    pub gp_slots: [[u8; 8]; 6],
    pub xmm_slots: [[u8; 16]; 8],
    pub gp_result_slots: [[u8; 8]; 2],
    pub xmm_result_slots: [[u8; 16]; 2],
    pub x87_result_slot: [u8; 16],
}

pub open spec fn zero_bytes_8(a: [u8; 8]) -> bool {
    forall|i: int| 0 <= i < 8 ==> #[trigger] a@[i] == 0
}

pub open spec fn zero_bytes_16(a: [u8; 16]) -> bool {
    forall|i: int| 0 <= i < 16 ==> #[trigger] a@[i] == 0
}

impl BridgeFrameV2 {
    pub const VERSION: u16 = 2;
    pub const HEADER_SIZE: u16 = 32;
    pub const FIXED_SIZE: usize = 272;
    pub const ALIGNMENT: usize = 16;

    /// Creates a fully zeroed frame header for a call to `target_address`
    /// that passes `outgoing_stack_size` bytes on the stack.
    pub fn zeroed(target_address: u64, outgoing_stack_size: u32) -> (result: Self)
        requires
            outgoing_stack_size <= u32::MAX - 272,
        ensures
            result.magic == BRIDGE_FRAME_MAGIC,
            result.version == 2,
            result.header_size == 32,
            result.target_address == target_address,
            result.outgoing_stack_size == outgoing_stack_size,
            result.total_size == 272 + outgoing_stack_size,
            result.gp_used == 0,
            result.xmm_used == 0,
            result.variadic_sse_count == 0,
            result.gp_results == 0,
            result.xmm_results == 0,
            result.flags == 0,
            result.reserved == 0,
            forall|i: int| 0 <= i < 6 ==> zero_bytes_8(#[trigger] result.gp_slots@[i]),
            forall|i: int| 0 <= i < 8 ==> zero_bytes_16(#[trigger] result.xmm_slots@[i]),
            forall|i: int| 0 <= i < 2 ==> zero_bytes_8(#[trigger] result.gp_result_slots@[i]),
            forall|i: int| 0 <= i < 2 ==> zero_bytes_16(#[trigger] result.xmm_result_slots@[i]),
            zero_bytes_16(result.x87_result_slot),
    {
        let total_size = 272u32 + outgoing_stack_size;
        Self {
            magic: BRIDGE_FRAME_MAGIC,
            version: 2,
            header_size: 32,
            target_address,
            outgoing_stack_size,
            total_size,
            gp_used: 0,
            xmm_used: 0,
            variadic_sse_count: 0,
            gp_results: 0,
            xmm_results: 0,
            flags: 0,
            reserved: 0,
            gp_slots: [[0u8; 8]; 6],
            xmm_slots: [[0u8; 16]; 8],
            gp_result_slots: [[0u8; 8]; 2],
            xmm_result_slots: [[0u8; 16]; 2],
            x87_result_slot: [0u8; 16],
        }
    }

    /// Records how many SSE registers a variadic call passes, saturating at
    /// the eight argument registers.
    pub fn set_variadic_sse_count(&mut self, actual_sse_registers: u8)
        ensures
            final(self).variadic_sse_count == if actual_sse_registers < 8 {
                actual_sse_registers
            } else {
                8
            },
            *final(self) == (BridgeFrameV2 {
                variadic_sse_count: final(self).variadic_sse_count,
                ..*old(self)
            }),
    {
        self.variadic_sse_count = if actual_sse_registers < 8 {
            actual_sse_registers
        } else {
            8
        };
    }
}

/// Compiler-owned storage whose public `va_list` view starts at `gp_offset`.
#[derive(Clone)]
pub struct VaStateV1 {
    pub magic: u32,
    pub version: u16,
    pub size: u16,
    pub gp_offset: u32,
    pub fp_offset: u32,
    pub overflow_arg_area: u64,
    pub reg_save_area: u64,
    pub register_save_area: [u8; 176],
}

impl VaStateV1 {
    pub const VERSION: u16 = 1;
    pub const SIZE: usize = 208;
    pub const VA_LIST_OFFSET: usize = 8;
    pub const REGISTER_SAVE_AREA_OFFSET: usize = 32;

    /// A variadic state with every general register consumed from the start
    /// and the floating-point offset just past the general save area.
    pub fn zeroed() -> (result: Self)
        ensures
            result.magic == VA_STATE_MAGIC,
            result.version == 1,
            result.size == 208,
            result.gp_offset == 0,
            result.fp_offset == 48,
            result.overflow_arg_area == 0,
            result.reg_save_area == 0,
            forall|i: int| 0 <= i < 176 ==> #[trigger] result.register_save_area@[i] == 0,
    {
        Self {
            magic: VA_STATE_MAGIC,
            version: 1,
            size: 208,
            gp_offset: 0,
            fp_offset: 48,
            overflow_arg_area: 0,
            reg_save_area: 0,
            register_save_area: [0u8; 176],
        }
    }
}

/// Uniform frame passed by a public variadic assembly entry to its hidden
/// nonvariadic body.
#[derive(Clone)]
pub struct VariadicEntryFrameV2 {
    pub va_state: VaStateV1,
    pub gp_result_slots: [[u8; 8]; 2],
    pub xmm_result_slots: [[u8; 16]; 2],
    pub x87_result_slot: [u8; 16],
}

impl VariadicEntryFrameV2 {
    pub const SIZE: usize = 272;
    pub const GP_RESULTS_OFFSET: usize = 208;
    pub const XMM_RESULTS_OFFSET: usize = 224;
    pub const X87_RESULT_OFFSET: usize = 256;

    pub fn zeroed() -> (result: Self)
        ensures
            result.va_state.magic == VA_STATE_MAGIC,
            result.va_state.version == 1,
            result.va_state.size == 208,
            result.va_state.gp_offset == 0,
            result.va_state.fp_offset == 48,
            result.va_state.overflow_arg_area == 0,
            result.va_state.reg_save_area == 0,
            forall|i: int| 0 <= i < 176 ==> #[trigger] result.va_state.register_save_area@[i] == 0,
            forall|i: int| 0 <= i < 2 ==> zero_bytes_8(#[trigger] result.gp_result_slots@[i]),
            forall|i: int| 0 <= i < 2 ==> zero_bytes_16(#[trigger] result.xmm_result_slots@[i]),
            zero_bytes_16(result.x87_result_slot),
    {
        Self {
            va_state: VaStateV1::zeroed(),
            gp_result_slots: [[0u8; 8]; 2],
            xmm_result_slots: [[0u8; 16]; 2],
            x87_result_slot: [0u8; 16],
        }
    }
}

/// The role of a compiler-generated symbol.
#[derive(Clone, Copy, Debug, PartialEq, Eq, PartialOrd, Ord, Structural)]
pub enum GeneratedSymbolKind {
    CallHelper,
    CallStub,
    TlsAccessor,
    TlsObject,
    VariadicEntry,
    VariadicBody,
    Support,
    FixedEntry,
    FixedBody,
}

pub open spec fn kind_tag(kind: GeneratedSymbolKind) -> Seq<char> {
    match kind {
        GeneratedSymbolKind::CallHelper => "call-helper"@,
        GeneratedSymbolKind::CallStub => "call-stub"@,
        GeneratedSymbolKind::TlsAccessor => "tls-accessor"@,
        GeneratedSymbolKind::TlsObject => "tls-object"@,
        GeneratedSymbolKind::VariadicEntry => "variadic-entry"@,
        GeneratedSymbolKind::VariadicBody => "variadic-body"@,
        GeneratedSymbolKind::Support => "support"@,
        GeneratedSymbolKind::FixedEntry => "fixed-entry"@,
        GeneratedSymbolKind::FixedBody => "fixed-body"@,
    }
}

pub open spec fn kind_identifier_component(kind: GeneratedSymbolKind) -> Seq<char> {
    match kind {
        GeneratedSymbolKind::CallHelper => "call_helper"@,
        GeneratedSymbolKind::CallStub => "call_stub"@,
        GeneratedSymbolKind::TlsAccessor => "tls_accessor"@,
        GeneratedSymbolKind::TlsObject => "tls_object"@,
        GeneratedSymbolKind::VariadicEntry => "variadic_entry"@,
        GeneratedSymbolKind::VariadicBody => "variadic_body"@,
        GeneratedSymbolKind::Support => "support"@,
        GeneratedSymbolKind::FixedEntry => "fixed_entry"@,
        GeneratedSymbolKind::FixedBody => "fixed_body"@,
    }
}

impl GeneratedSymbolKind {
    /// The kind's spelling inside hashed symbol identities.
    pub fn tag(self) -> (result: &'static str)
        ensures
            result@ == kind_tag(self),
    {
        match self {
            GeneratedSymbolKind::CallHelper => "call-helper",
            GeneratedSymbolKind::CallStub => "call-stub",
            GeneratedSymbolKind::TlsAccessor => "tls-accessor",
            GeneratedSymbolKind::TlsObject => "tls-object",
            GeneratedSymbolKind::VariadicEntry => "variadic-entry",
            GeneratedSymbolKind::VariadicBody => "variadic-body",
            GeneratedSymbolKind::Support => "support",
            GeneratedSymbolKind::FixedEntry => "fixed-entry",
            GeneratedSymbolKind::FixedBody => "fixed-body",
        }
    }

    /// The kind's spelling inside generated symbol names.
    pub fn identifier_component(self) -> (result: &'static str)
        ensures
            result@ == kind_identifier_component(self),
    {
        match self {
            GeneratedSymbolKind::CallHelper => "call_helper",
            GeneratedSymbolKind::CallStub => "call_stub",
            GeneratedSymbolKind::TlsAccessor => "tls_accessor",
            GeneratedSymbolKind::TlsObject => "tls_object",
            GeneratedSymbolKind::VariadicEntry => "variadic_entry",
            GeneratedSymbolKind::VariadicBody => "variadic_body",
            GeneratedSymbolKind::Support => "support",
            GeneratedSymbolKind::FixedEntry => "fixed_entry",
            GeneratedSymbolKind::FixedBody => "fixed_body",
        }
    }
}

/// A source location attributed to generated assembly.
#[derive(Clone, Debug, PartialEq, Eq)]
pub struct LogicalDebugLocation {
    pub logical_file: String,
    pub line: u32,
}

impl LogicalDebugLocation {
    pub fn generated(line: u32) -> (result: Self)
        ensures
            result.logical_file@ == "<ccc-generated-bridge>"@,
            result.line == line,
    {
        Self { logical_file: "<ccc-generated-bridge>".to_owned(), line }
    }
}

/* Symbol and stem spellings */

pub open spec fn is_ascii_alpha(c: char) -> bool {
    (0x41 <= (c as u32) <= 0x5a) || (0x61 <= (c as u32) <= 0x7a)
}

pub open spec fn is_ascii_alnum(c: char) -> bool {
    is_ascii_alpha(c) || (0x30 <= (c as u32) <= 0x39)
}

pub open spec fn is_stem_char(c: char) -> bool {
    is_ascii_alnum(c) || c == '_' || c == '-'
}

/// A portable file stem: 1 to 96 ASCII letters, digits, `_` or `-`.
pub open spec fn safe_stem(stem: Seq<char>) -> bool {
    &&& stem.len() > 0
    &&& stem.len() <= 96
    &&& forall|i: int| 0 <= i < stem.len() ==> #[trigger] is_stem_char(stem[i])
}

pub open spec fn is_symbol_start(c: char) -> bool {
    is_ascii_alpha(c) || c == '_' || c == '.'
}

pub open spec fn is_symbol_continue(c: char) -> bool {
    is_ascii_alnum(c) || c == '_' || c == '.' || c == '$'
}

/// A symbol spelling that every supported object format accepts.
pub open spec fn valid_symbol(symbol: Seq<char>) -> bool {
    &&& symbol.len() > 0
    &&& is_symbol_start(symbol[0])
    &&& forall|i: int| 1 <= i < symbol.len() ==> #[trigger] is_symbol_continue(symbol[i])
}

/// The outcome of `validate_symbol` on `symbol`.
pub open spec fn symbol_check(symbol: Seq<char>) -> Result<(), Seq<char>> {
    if symbol.len() == 0 {
        Err("generated symbol name is empty"@)
    } else if !valid_symbol(symbol) {
        Err("`"@ + symbol + "` is not a supported ELF symbol spelling"@)
    } else {
        Ok(())
    }
}

fn is_ascii_alpha_exec(c: char) -> (result: bool)
    ensures
        result == is_ascii_alpha(c),
{
    let v = c as u32;
    (0x41 <= v && v <= 0x5a) || (0x61 <= v && v <= 0x7a)
}

pub(crate) fn is_ascii_alnum_exec(c: char) -> (result: bool)
    ensures
        result == is_ascii_alnum(c),
{
    let v = c as u32;
    is_ascii_alpha_exec(c) || (0x30 <= v && v <= 0x39)
}

pub fn is_safe_stem(stem: &str) -> (result: bool)
    ensures
        result == safe_stem(stem@),
{
    let chars = chars_of(stem);
    if chars.len() == 0 || chars.len() > 96 {
        return false;
    }
    let mut i: usize = 0;
    while i < chars.len()
        invariant
            i <= chars.len(),
            chars@ == stem@,
            forall|j: int| 0 <= j < i ==> #[trigger] is_stem_char(chars@[j]),
        decreases chars.len() - i,
    {
        let c = chars[i];
        if !(is_ascii_alnum_exec(c) || c == '_' || c == '-') {
            assert(!is_stem_char(stem@[i as int]));
            return false;
        }
        i = i + 1;
    }
    true
}

/// Checks that `symbol` is a supported object-file symbol spelling.
pub fn validate_symbol(symbol: &str) -> (result: Result<(), LinkError>)
    ensures
        check_outcome(result) == symbol_check(symbol@),
        result matches Err(error) ==> error.code@ == artifact_code(),
{
    let chars = chars_of(symbol);
    if chars.len() == 0 {
        return Err(artifact_error("generated symbol name is empty".to_owned()));
    }
    let first = chars[0];
    let mut valid = is_ascii_alpha_exec(first) || first == '_' || first == '.';
    let mut i: usize = 1;
    while valid && i < chars.len()
        invariant
            1 <= i <= chars.len(),
            chars@ == symbol@,
            valid ==> is_symbol_start(chars@[0]),
            valid ==> forall|j: int| 1 <= j < i ==> #[trigger] is_symbol_continue(chars@[j]),
            !valid ==> !valid_symbol(symbol@),
        decreases chars.len() - i,
    {
        let c = chars[i];
        if !(is_ascii_alnum_exec(c) || c == '_' || c == '.' || c == '$') {
            assert(!is_symbol_continue(symbol@[i as int]));
            valid = false;
        }
        i = i + 1;
    }
    if !valid {
        return Err(artifact_error(concat3("`", symbol, "` is not a supported ELF symbol spelling")));
    }
    Ok(())
}

/// The reserved prefixes of compiler-internal generated symbols.
pub open spec fn reserved_prefixes() -> Seq<Seq<char>> {
    seq![
        "__ccc_call_helper_"@,
        "__ccc_call_stub_"@,
        "__ccc_tls_accessor_"@,
        "__ccc_tls_object_"@,
        "__ccc_variadic_entry_"@,
        "__ccc_variadic_body_"@,
        "__ccc_fixed_entry_"@,
        "__ccc_fixed_body_"@,
        "__ccc_support_"@,
    ]
}


/// `symbol` lies in the compiler's reserved namespace.
pub open spec fn bridge_generated(symbol: Seq<char>) -> bool {
    exists|i: int| 0 <= i < reserved_prefixes().len() && has_prefix(symbol, #[trigger] reserved_prefixes()[i])
}

pub fn is_bridge_generated_symbol(symbol: &str) -> (result: bool)
    ensures
        result == bridge_generated(symbol@),
{
    let ghost p = reserved_prefixes();
    let prefixes: [&str; 9] = [
        "__ccc_call_helper_",
        "__ccc_call_stub_",
        "__ccc_tls_accessor_",
        "__ccc_tls_object_",
        "__ccc_variadic_entry_",
        "__ccc_variadic_body_",
        "__ccc_fixed_entry_",
        "__ccc_fixed_body_",
        "__ccc_support_",
    ];
    let mut i: usize = 0;
    while i < 9
        invariant
            i <= 9,
            p == reserved_prefixes(),
            forall|j: int| 0 <= j < 9 ==> (#[trigger] prefixes@[j])@ == p[j],
            forall|j: int| 0 <= j < i ==> !has_prefix(symbol@, #[trigger] p[j]),
        decreases 9 - i,
    {
        if crate::text::starts_with(symbol, prefixes[i]) {
            assert(has_prefix(symbol@, p[i as int]));
            return true;
        }
        i = i + 1;
    }
    false
}

/* Generated assembly units */

/// One deterministic assembly input owned by an artifact bundle.
#[derive(Clone, Debug, PartialEq, Eq)]
pub struct GeneratedAssembly {
    stem: String,
    source: String,
    defined_symbols: Vec<String>,
    debug_locations: Vec<LogicalDebugLocation>,
}

/// The views of a list of strings.
pub open spec fn string_views(strings: Seq<String>) -> Seq<Seq<char>> {
    strings.map_values(|s: String| s@)
}

/// The first problem among `symbols[k..]` of an assembly unit named `stem`:
/// an invalid spelling, or a symbol declared twice.
pub open spec fn assembly_symbols_problem(stem: Seq<char>, symbols: Seq<Seq<char>>, k: int) -> Option<
    Seq<char>,
>
    decreases symbols.len() - k,
{
    if k < 0 || k >= symbols.len() {
        None
    } else if symbol_check(symbols[k]) is Err {
        Some(symbol_check(symbols[k])->Err_0)
    } else if exists|j: int| 0 <= j < k && symbols[j] == symbols[k] {
        Some("generated assembly `"@ + stem + "` declares `"@ + symbols[k] + "` more than once"@)
    } else {
        assembly_symbols_problem(stem, symbols, k + 1)
    }
}

/// The outcome of `GeneratedAssembly::new`'s checks.
pub open spec fn assembly_check(stem: Seq<char>, source: Seq<char>, symbols: Seq<Seq<char>>) -> Result<
    (),
    Seq<char>,
> {
    if !safe_stem(stem) {
        Err("generated assembly stem `"@ + stem + "` is not a portable file stem"@)
    } else if source.contains('\0') {
        Err("generated assembly `"@ + stem + "` contains a NUL byte"@)
    } else {
        match assembly_symbols_problem(stem, symbols, 0) {
            Some(message) => Err(message),
            None => Ok(()),
        }
    }
}

impl GeneratedAssembly {
    pub closed spec fn stem_view(&self) -> Seq<char> {
        self.stem@
    }

    pub closed spec fn source_view(&self) -> Seq<char> {
        self.source@
    }

    pub closed spec fn symbols_view(&self) -> Seq<Seq<char>> {
        string_views(self.defined_symbols@)
    }

    pub closed spec fn locations_view(&self) -> Seq<LogicalDebugLocation> {
        self.debug_locations@
    }

    /// Checks and builds an assembly unit: the stem must be a portable file
    /// stem, the source free of NUL bytes, and the defined symbols valid and
    /// distinct.
    #[verifier::loop_isolation(false)]
    pub fn new(
        stem: &str,
        source: &str,
        defined_symbols: Vec<String>,
        debug_locations: Vec<LogicalDebugLocation>,
    ) -> (result: Result<Self, LinkError>)
        ensures
            match result {
                Ok(assembly) => assembly_check(stem@, source@, string_views(defined_symbols@)) is Ok
                    && assembly.stem_view() == stem@ && assembly.source_view() == source@
                    && assembly.symbols_view() == string_views(defined_symbols@)
                    && assembly.locations_view() == debug_locations@,
                Err(error) => assembly_check(stem@, source@, string_views(defined_symbols@))
                    == Err::<(), Seq<char>>(error.message@) && error.code@ == artifact_code(),
            },
    {
        let ghost symbols = string_views(defined_symbols@);
        if !is_safe_stem(stem) {
            return Err(artifact_error(concat3("generated assembly stem `", stem, "` is not a portable file stem")));
        }
        let text = chars_of(source);
        let mut i: usize = 0;
        while i < text.len()
            invariant
                i <= text.len(),
                text@ == source@,
                forall|j: int| 0 <= j < i ==> text@[j] != '\0',
            decreases text.len() - i,
        {
            if text[i] == '\0' {
                assert(source@.contains('\0')) by {
                    assert(source@[i as int] == '\0');
                }
                return Err(artifact_error(concat3("generated assembly `", stem, "` contains a NUL byte")));
            }
            i = i + 1;
        }
        assert(!source@.contains('\0'));
        let mut k: usize = 0;
        while k < defined_symbols.len()
            invariant
                k <= defined_symbols.len(),
                symbols == string_views(defined_symbols@),
                safe_stem(stem@),
                !source@.contains('\0'),
                assembly_symbols_problem(stem@, symbols, 0) == assembly_symbols_problem(
                    stem@,
                    symbols,
                    k as int,
                ),
            decreases defined_symbols.len() - k,
        {
            let symbol = &defined_symbols[k];
            assert(symbols[k as int] == symbol@);
            match validate_symbol(symbol.as_str()) {
                Ok(()) => {},
                Err(error) => {
                    return Err(error);
                },
            }
            let mut j: usize = 0;
            while j < k
                invariant
                    j <= k < defined_symbols.len(),
                    symbols == string_views(defined_symbols@),
                    symbol@ == symbols[k as int],
                    forall|m: int| 0 <= m < j ==> symbols[m] != symbols[k as int],
                decreases k - j,
            {
                assert(symbols[j as int] == defined_symbols@[j as int]@);
                if str_eq(defined_symbols[j].as_str(), symbol.as_str()) {
                    assert(symbols[j as int] == symbols[k as int]);
                    return Err(artifact_error(concat5(
                        "generated assembly `",
                        stem,
                        "` declares `",
                        symbol.as_str(),
                        "` more than once",
                    )));
                }
                j = j + 1;
            }
            k = k + 1;
        }
        Ok(Self {
            stem: stem.to_owned(),
            source: source.to_owned(),
            defined_symbols,
            debug_locations,
        })
    }

    pub fn stem(&self) -> (result: &str)
        ensures
            result@ == self.stem_view(),
    {
        self.stem.as_str()
    }

    pub fn source(&self) -> (result: &str)
        ensures
            result@ == self.source_view(),
    {
        self.source.as_str()
    }

    pub fn defined_symbols(&self) -> (result: &[String])
        ensures
            string_views(result@) == self.symbols_view(),
    {
        self.defined_symbols.as_slice()
    }

    pub fn debug_locations(&self) -> (result: &[LogicalDebugLocation])
        ensures
            result@ == self.locations_view(),
    {
        self.debug_locations.as_slice()
    }
}

/* Generated symbol names */

/// The SHA-256 digest of `data`.
pub uninterp spec fn sha256_digest(data: Seq<u8>) -> Seq<u8>;

/// sha2's `Sha256::digest`: the 32-byte SHA-256 digest of `data`.
#[verifier::external_body]
fn sha256(data: &[u8]) -> (digest: Vec<u8>)
    ensures
        digest@ == sha256_digest(data@),
        digest@.len() == 32,
{
    Sha256::digest(data).to_vec()
}

/// One length-prefixed field of a hashed identity.
pub open spec fn hashed_field(value: Seq<u8>) -> Seq<u8> {
    le_bytes(value.len(), 8) + value
}

/// The byte string whose digest identifies a generated symbol.
pub open spec fn symbol_identity(
    translation_unit_digest: Seq<u8>,
    kind: GeneratedSymbolKind,
    stable_identity: Seq<u8>,
    canonical_plan: Seq<u8>,
) -> Seq<u8> {
    hashed_field(vstd::utf8::encode_utf8("ccc-generated-symbol-v1"@)) + hashed_field(
        translation_unit_digest,
    ) + hashed_field(vstd::utf8::encode_utf8(kind_tag(kind))) + hashed_field(stable_identity)
        + hashed_field(canonical_plan)
}

/// The name of a generated symbol of `kind` whose identity hashes to `digest`.
pub open spec fn generated_name(kind: GeneratedSymbolKind, digest: Seq<u8>) -> Seq<char> {
    "__ccc_"@ + kind_identifier_component(kind) + "_"@ + lower_hex(digest)
}

fn push_hashed_field(output: &mut Vec<u8>, value: &[u8])
    ensures
        final(output)@ == old(output)@ + hashed_field(value@),
{
    push_le64(output, value.len() as u64);
    push_bytes(output, value);
    assert(final(output)@ =~= old(output)@ + hashed_field(value@));
}

/// Builds the length-prefixed identity of a generated symbol.
pub fn symbol_identity_message(
    translation_unit_digest: &[u8; 32],
    kind: GeneratedSymbolKind,
    stable_identity: &[u8],
    canonical_plan: &[u8],
) -> (result: Vec<u8>)
    ensures
        result@ == symbol_identity(
            translation_unit_digest@,
            kind,
            stable_identity@,
            canonical_plan@,
        ),
{
    let mut message: Vec<u8> = Vec::new();
    push_hashed_field(&mut message, "ccc-generated-symbol-v1".as_bytes());
    push_hashed_field(&mut message, translation_unit_digest.as_slice());
    push_hashed_field(&mut message, kind.tag().as_bytes());
    push_hashed_field(&mut message, stable_identity);
    push_hashed_field(&mut message, canonical_plan);
    message
}

/// Spells the generated symbol of `kind` whose identity digest is `digest`.
pub fn format_generated_symbol_name(kind: GeneratedSymbolKind, digest: &[u8]) -> (result: String)
    ensures
        result@ == generated_name(kind, digest@),
{
    let mut chars: Vec<char> = Vec::new();
    push_str(&mut chars, "__ccc_");
    push_str(&mut chars, kind.identifier_component());
    push_str(&mut chars, "_");
    push_lower_hex(&mut chars, digest);
    string_from_chars(chars.as_slice())
}

/// Derives a collision-resistant internal symbol from canonical inputs.
pub fn generated_symbol_name(
    translation_unit_digest: &[u8; 32],
    kind: GeneratedSymbolKind,
    stable_identity: &[u8],
    canonical_plan: &[u8],
) -> (result: String)
    ensures
        result@ == generated_name(
            kind,
            sha256_digest(
                symbol_identity(translation_unit_digest@, kind, stable_identity@, canonical_plan@),
            ),
        ),
{
    let message = symbol_identity_message(
        translation_unit_digest,
        kind,
        stable_identity,
        canonical_plan,
    );
    let digest = sha256(message.as_slice());
    format_generated_symbol_name(kind, digest.as_slice())
}

} // verus!
