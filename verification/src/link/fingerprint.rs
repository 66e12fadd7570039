//! The fingerprint of a resolved toolchain: a 64-bit FNV-1a hash over every
//! input that the resolution depends on, each field ended by a zero byte.

use vstd::prelude::*;
use vstd::utf8::encode_utf8;

use crate::link::ToolchainRequirements;
use crate::pp::search::{SystemInclude, SystemIncludeKind};
use crate::text::{decimal, hex_char, hex_char_exec, push_decimal, string_from_chars, strings_view};

verus! {

/// When a file was last modified, as seconds and nanoseconds before or after
/// the Unix epoch.
#[derive(Clone, Copy, Debug, PartialEq, Eq, Structural)]
pub struct FileTimestamp {
    pub before_epoch: bool,
    pub seconds: u64,
    pub nanoseconds: u32,
}

/// What identifies an executable on disk: its path, length, modification
/// time and further platform metadata.
#[derive(Clone, Debug)]
pub struct ExecutableIdentity {
    pub path: String,
    pub length: Option<u64>,
    pub modified: Option<FileTimestamp>,
    pub platform_metadata: Vec<i128>,
}

/// An environment variable that can change what a driver resolves to.
#[derive(Clone, Debug)]
pub struct EnvironmentEntry {
    pub name: String,
    pub value: Option<String>,
}

/// Everything a toolchain resolution depends on.
pub struct FingerprintInputs<'a> {
    pub executable: &'a ExecutableIdentity,
    pub driver_program: &'a str,
    pub version: &'a str,
    pub reported_target: &'a str,
    pub target_arguments: &'a [String],
    pub sysroot: Option<&'a str>,
    pub resource_dir: Option<&'a str>,
    pub system_includes: &'a [SystemInclude],
    pub requirements: ToolchainRequirements,
    pub environment: &'a [EnvironmentEntry],
    pub working_directory: Option<&'a str>,
}

pub const FNV_OFFSET: u64 = 0xcbf2_9ce4_8422_2325;

pub const FNV_PRIME: u64 = 0x0000_0100_0000_01b3;

/// One byte into an FNV-1a hash.
pub open spec fn fnv_byte(hash: u64, byte: u8) -> u64 {
    (hash ^ (byte as u64)).wrapping_mul(FNV_PRIME)
}

pub open spec fn fnv_bytes(hash: u64, bytes: Seq<u8>) -> u64
    decreases bytes.len(),
{
    if bytes.len() == 0 {
        hash
    } else {
        fnv_byte(fnv_bytes(hash, bytes.drop_last()), bytes.last())
    }
}

/// The fields' UTF-8 bytes into the hash, each field ended by a zero byte.
pub open spec fn fnv_fields(hash: u64, fields: Seq<Seq<char>>) -> u64
    decreases fields.len(),
{
    if fields.len() == 0 {
        hash
    } else {
        fnv_byte(fnv_bytes(fnv_fields(hash, fields.drop_last()), encode_utf8(fields.last())), 0)
    }
}

/// The decimal spelling of a signed number.
pub open spec fn signed_decimal(v: int) -> Seq<char> {
    if v < 0 {
        seq!['-'] + decimal((-v) as nat)
    } else {
        decimal(v as nat)
    }
}

pub open spec fn optional_field(value: Option<&str>) -> Seq<Seq<char>> {
    match value {
        Some(v) => seq![v@],
        None => seq![],
    }
}

pub open spec fn metadata_fields(metadata: Seq<i128>) -> Seq<Seq<char>>
    decreases metadata.len(),
{
    if metadata.len() == 0 {
        seq![]
    } else {
        metadata_fields(metadata.drop_last()) + seq![
            "platform-metadata"@,
            signed_decimal(metadata.last() as int),
        ]
    }
}

pub open spec fn include_kind_name(kind: SystemIncludeKind) -> Seq<char> {
    match kind {
        SystemIncludeKind::Quote => "quote"@,
        SystemIncludeKind::Builtin => "builtin"@,
        SystemIncludeKind::System => "system"@,
        SystemIncludeKind::Framework => "framework"@,
        SystemIncludeKind::After => "after"@,
    }
}

pub open spec fn include_fields(includes: Seq<SystemInclude>) -> Seq<Seq<char>>
    decreases includes.len(),
{
    if includes.len() == 0 {
        seq![]
    } else {
        include_fields(includes.drop_last()) + seq![
            includes.last().path@,
            include_kind_name(includes.last().kind),
        ]
    }
}

pub open spec fn switch_name(enabled: bool) -> Seq<char> {
    if enabled {
        "enabled"@
    } else {
        "disabled"@
    }
}

pub open spec fn requirement_fields(r: ToolchainRequirements) -> Seq<Seq<char>> {
    seq![
        "system-headers"@,
        switch_name(r.system_headers),
        "disable-system-headers"@,
        switch_name(r.disable_system_headers),
        "assembler"@,
        switch_name(r.assembler),
        "linker"@,
        switch_name(r.linker),
        "object-copier"@,
        switch_name(r.object_copier),
        "archiver"@,
        switch_name(r.archiver),
    ]
}

pub open spec fn presence_fields(value: Option<Seq<char>>) -> Seq<Seq<char>> {
    match value {
        Some(v) => seq!["present"@, v],
        None => seq!["absent"@],
    }
}

pub open spec fn environment_fields(environment: Seq<EnvironmentEntry>) -> Seq<Seq<char>>
    decreases environment.len(),
{
    if environment.len() == 0 {
        seq![]
    } else {
        let entry = environment.last();
        environment_fields(environment.drop_last()) + seq![entry.name@] + presence_fields(
            match entry.value {
                Some(v) => Some(v@),
                None => None,
            },
        )
    }
}

pub open spec fn identity_fields(e: ExecutableIdentity) -> Seq<Seq<char>> {
    (match e.length {
        Some(length) => seq!["length"@, decimal(length as nat)],
        None => seq![],
    }) + (match e.modified {
        Some(m) => seq![
            "modified"@,
            if m.before_epoch {
                "before-epoch"@
            } else {
                "after-epoch"@
            },
            decimal(m.seconds as nat),
            decimal(m.nanoseconds as nat),
        ],
        None => seq![],
    }) + metadata_fields(e.platform_metadata@)
}

/// The fields a fingerprint hashes, in order: the executable's path, the
/// driver program, the executable's identity, the version, the reported
/// target, the target arguments, sysroot and resource directory, the system
/// include directories with their kinds, the requirements, the environment
/// and the working directory.
pub open spec fn fingerprint_fields(inputs: FingerprintInputs) -> Seq<Seq<char>> {
    seq![inputs.executable.path@, inputs.driver_program@] + identity_fields(*inputs.executable)
        + seq![inputs.version@, inputs.reported_target@] + strings_view(inputs.target_arguments@)
        + optional_field(inputs.sysroot) + optional_field(inputs.resource_dir) + include_fields(
        inputs.system_includes@,
    ) + requirement_fields(inputs.requirements) + environment_fields(inputs.environment@)
        + seq!["working-directory"@] + presence_fields(
        match inputs.working_directory {
            Some(w) => Some(w@),
            None => None,
        },
    )
}

/// `count` lowercase hexadecimal digits of `n`, most significant first.
pub open spec fn hex_digits(n: nat, count: nat) -> Seq<char>
    decreases count,
{
    if count == 0 {
        seq![]
    } else {
        hex_digits(n / 16, (count - 1) as nat) + seq![hex_char((n % 16) as int)]
    }
}

/// The fingerprint's text: `fnv1a64:` and the hash in sixteen hexadecimal
/// digits.
pub open spec fn fingerprint_text(inputs: FingerprintInputs) -> Seq<char> {
    "fnv1a64:"@ + hex_digits(fnv_fields(FNV_OFFSET, fingerprint_fields(inputs)) as nat, 16)
}

fn hash_field(hash: u64, field: &str) -> (result: u64)
    ensures
        result == fnv_byte(fnv_bytes(hash, encode_utf8(field@)), 0),
{
    let bytes = field.as_bytes();
    let mut h = hash;
    let mut i: usize = 0;
    assert(bytes@.take(0) =~= Seq::<u8>::empty());
    while i < bytes.len()
        invariant
            i <= bytes@.len(),
            bytes@ == encode_utf8(field@),
            h == fnv_bytes(hash, bytes@.take(i as int)),
        decreases bytes.len() - i,
    {
        assert(bytes@.take(i + 1).drop_last() =~= bytes@.take(i as int));
        h = (h ^ (bytes[i] as u64)).wrapping_mul(FNV_PRIME);
        i = i + 1;
    }
    assert(bytes@.take(bytes@.len() as int) =~= bytes@);
    (h ^ 0u64).wrapping_mul(FNV_PRIME)
}

/// The FNV-1a hash of the fields, each ended by a zero byte.
pub fn hash_fields(fields: &Vec<String>) -> (result: u64)
    ensures
        result == fnv_fields(FNV_OFFSET, strings_view(fields@)),
{
    let ghost all = strings_view(fields@);
    let mut h = FNV_OFFSET;
    let mut i: usize = 0;
    assert(all.take(0) =~= Seq::<Seq<char>>::empty());
    while i < fields.len()
        invariant
            i <= fields@.len(),
            all == strings_view(fields@),
            h == fnv_fields(FNV_OFFSET, all.take(i as int)),
        decreases fields.len() - i,
    {
        assert(all.take(i + 1).drop_last() =~= all.take(i as int));
        assert(all.take(i + 1).last() == fields@[i as int]@);
        h = hash_field(h, fields[i].as_str());
        i = i + 1;
    }
    assert(all.take(fields@.len() as int) =~= all);
    h
}

fn push_field(fields: &mut Vec<String>, text: &str)
    ensures
        strings_view(final(fields)@) == strings_view(old(fields)@).push(text@),
{
    let ghost before = fields@;
    fields.push(text.to_string());
    assert(strings_view(fields@) =~= strings_view(before).push(text@));
}

fn decimal_text(n: u64) -> (result: String)
    ensures
        result@ == decimal(n as nat),
{
    let mut digits: Vec<char> = Vec::new();
    push_decimal(&mut digits, n);
    assert(digits@ =~= decimal(n as nat));
    string_from_chars(digits.as_slice())
}

/// Appends the decimal spelling of `n`.
fn push_decimal_wide(output: &mut Vec<char>, n: u128)
    ensures
        final(output)@ == old(output)@ + decimal(n as nat),
    decreases n,
{
    if n >= 10 {
        push_decimal_wide(output, n / 10);
    }
    output.push(hex_char_exec((n % 10) as u8));
    assert(output@ =~= old(output)@ + decimal(n as nat));
}

fn signed_decimal_text(v: i128) -> (result: String)
    ensures
        result@ == signed_decimal(v as int),
{
    let mut digits: Vec<char> = Vec::new();
    if v < 0 {
        digits.push('-');
        let magnitude: u128 = ((-(v + 1)) as u128) + 1;
        assert(magnitude == -(v as int));
        push_decimal_wide(&mut digits, magnitude);
    } else {
        push_decimal_wide(&mut digits, v as u128);
    }
    string_from_chars(digits.as_slice())
}

fn push_identity_fields(fields: &mut Vec<String>, e: &ExecutableIdentity)
    ensures
        strings_view(final(fields)@) == strings_view(old(fields)@) + identity_fields(*e),
{
    let ghost start = strings_view(fields@);
    match e.length {
        Some(length) => {
            push_field(fields, "length");
            let text = decimal_text(length);
            push_field(fields, text.as_str());
        },
        None => {},
    }
    match e.modified {
        Some(m) => {
            push_field(fields, "modified");
            push_field(
                fields,
                if m.before_epoch {
                    "before-epoch"
                } else {
                    "after-epoch"
                },
            );
            let seconds = decimal_text(m.seconds);
            push_field(fields, seconds.as_str());
            let nanoseconds = decimal_text(m.nanoseconds as u64);
            push_field(fields, nanoseconds.as_str());
        },
        None => {},
    }
    let ghost middle = strings_view(fields@);
    let mut i: usize = 0;
    assert(e.platform_metadata@.take(0) =~= Seq::<i128>::empty());
    assert(middle + metadata_fields(e.platform_metadata@.take(0)) =~= middle);
    while i < e.platform_metadata.len()
        invariant
            i <= e.platform_metadata@.len(),
            strings_view(fields@) == middle + metadata_fields(e.platform_metadata@.take(i as int)),
        decreases e.platform_metadata.len() - i,
    {
        assert(e.platform_metadata@.take(i + 1).drop_last() =~= e.platform_metadata@.take(i as int));
        push_field(fields, "platform-metadata");
        let text = signed_decimal_text(e.platform_metadata[i]);
        push_field(fields, text.as_str());
        assert(strings_view(fields@) =~= middle + metadata_fields(e.platform_metadata@.take(i + 1)));
        i = i + 1;
    }
    assert(e.platform_metadata@.take(e.platform_metadata@.len() as int) =~= e.platform_metadata@);
    assert(strings_view(fields@) =~= start + identity_fields(*e));
}

fn push_include_fields(fields: &mut Vec<String>, includes: &[SystemInclude])
    ensures
        strings_view(final(fields)@) == strings_view(old(fields)@) + include_fields(includes@),
{
    let ghost start = strings_view(fields@);
    let mut i: usize = 0;
    assert(includes@.take(0) =~= Seq::<SystemInclude>::empty());
    assert(start + include_fields(includes@.take(0)) =~= start);
    while i < includes.len()
        invariant
            i <= includes@.len(),
            strings_view(fields@) == start + include_fields(includes@.take(i as int)),
        decreases includes.len() - i,
    {
        assert(includes@.take(i + 1).drop_last() =~= includes@.take(i as int));
        assert(includes@.take(i + 1).last() == includes@[i as int]);
        push_field(fields, includes[i].path.as_str());
        let kind = match includes[i].kind {
            SystemIncludeKind::Quote => "quote",
            SystemIncludeKind::Builtin => "builtin",
            SystemIncludeKind::System => "system",
            SystemIncludeKind::Framework => "framework",
            SystemIncludeKind::After => "after",
        };
        push_field(fields, kind);
        assert(strings_view(fields@) =~= start + include_fields(includes@.take(i + 1)));
        i = i + 1;
    }
    assert(includes@.take(includes@.len() as int) =~= includes@);
}

fn push_switch(fields: &mut Vec<String>, name: &str, enabled: bool)
    ensures
        strings_view(final(fields)@) == strings_view(old(fields)@) + seq![name@, switch_name(enabled)],
{
    let ghost start = strings_view(fields@);
    push_field(fields, name);
    push_field(
        fields,
        if enabled {
            "enabled"
        } else {
            "disabled"
        },
    );
    assert(strings_view(fields@) =~= start + seq![name@, switch_name(enabled)]);
}

fn push_requirement_fields(fields: &mut Vec<String>, r: ToolchainRequirements)
    ensures
        strings_view(final(fields)@) == strings_view(old(fields)@) + requirement_fields(r),
{
    let ghost start = strings_view(fields@);
    push_switch(fields, "system-headers", r.system_headers);
    push_switch(fields, "disable-system-headers", r.disable_system_headers);
    push_switch(fields, "assembler", r.assembler);
    push_switch(fields, "linker", r.linker);
    push_switch(fields, "object-copier", r.object_copier);
    push_switch(fields, "archiver", r.archiver);
    assert(strings_view(fields@) =~= start + requirement_fields(r));
}

fn push_presence(fields: &mut Vec<String>, value: Option<&str>)
    ensures
        strings_view(final(fields)@) == strings_view(old(fields)@) + presence_fields(
            match value {
                Some(v) => Some(v@),
                None => None,
            },
        ),
{
    let ghost start = strings_view(fields@);
    match value {
        Some(v) => {
            push_field(fields, "present");
            push_field(fields, v);
        },
        None => push_field(fields, "absent"),
    }
    assert(strings_view(fields@) =~= start + presence_fields(
        match value {
            Some(v) => Some(v@),
            None => None,
        },
    ));
}

fn push_environment_fields(fields: &mut Vec<String>, environment: &[EnvironmentEntry])
    ensures
        strings_view(final(fields)@) == strings_view(old(fields)@) + environment_fields(environment@),
{
    let ghost start = strings_view(fields@);
    let mut i: usize = 0;
    assert(environment@.take(0) =~= Seq::<EnvironmentEntry>::empty());
    assert(start + environment_fields(environment@.take(0)) =~= start);
    while i < environment.len()
        invariant
            i <= environment@.len(),
            strings_view(fields@) == start + environment_fields(environment@.take(i as int)),
        decreases environment.len() - i,
    {
        assert(environment@.take(i + 1).drop_last() =~= environment@.take(i as int));
        assert(environment@.take(i + 1).last() == environment@[i as int]);
        push_field(fields, environment[i].name.as_str());
        let value = match &environment[i].value {
            Some(v) => Some(v.as_str()),
            None => None,
        };
        push_presence(fields, value);
        assert(strings_view(fields@) =~= start + environment_fields(environment@.take(i + 1)));
        i = i + 1;
    }
    assert(environment@.take(environment@.len() as int) =~= environment@);
}

/// The fields a fingerprint hashes.
pub fn fingerprint_field_list(inputs: &FingerprintInputs) -> (result: Vec<String>)
    ensures
        strings_view(result@) == fingerprint_fields(*inputs),
{
    let mut fields: Vec<String> = Vec::new();
    assert(strings_view(fields@) =~= seq![]);
    push_field(&mut fields, inputs.executable.path.as_str());
    push_field(&mut fields, inputs.driver_program);
    push_identity_fields(&mut fields, inputs.executable);
    push_field(&mut fields, inputs.version);
    push_field(&mut fields, inputs.reported_target);
    let ghost before_arguments = strings_view(fields@);
    let mut i: usize = 0;
    assert(before_arguments + strings_view(inputs.target_arguments@.take(0)) =~= before_arguments);
    while i < inputs.target_arguments.len()
        invariant
            i <= inputs.target_arguments@.len(),
            strings_view(fields@) == before_arguments + strings_view(inputs.target_arguments@.take(i as int)),
        decreases inputs.target_arguments.len() - i,
    {
        push_field(&mut fields, inputs.target_arguments[i].as_str());
        assert(strings_view(inputs.target_arguments@.take(i + 1)) =~= strings_view(
            inputs.target_arguments@.take(i as int),
        ).push(inputs.target_arguments@[i as int]@));
        i = i + 1;
    }
    assert(inputs.target_arguments@.take(inputs.target_arguments@.len() as int) =~= inputs.target_arguments@);
    match inputs.sysroot {
        Some(sysroot) => push_field(&mut fields, sysroot),
        None => {},
    }
    match inputs.resource_dir {
        Some(resource_dir) => push_field(&mut fields, resource_dir),
        None => {},
    }
    push_include_fields(&mut fields, inputs.system_includes);
    push_requirement_fields(&mut fields, inputs.requirements);
    push_environment_fields(&mut fields, inputs.environment);
    push_field(&mut fields, "working-directory");
    push_presence(&mut fields, inputs.working_directory);
    assert(strings_view(fields@) =~= fingerprint_fields(*inputs));
    fields
}

fn push_hex_digits(output: &mut Vec<char>, n: u64, count: u32)
    requires
        count <= 16,
    ensures
        final(output)@ == old(output)@ + hex_digits(n as nat, count as nat),
    decreases count,
{
    if count > 0 {
        push_hex_digits(output, n / 16, count - 1);
        output.push(hex_char_exec((n % 16) as u8));
        assert(output@ =~= old(output)@ + hex_digits(n as nat, count as nat));
    } else {
        assert(output@ =~= old(output)@ + hex_digits(n as nat, count as nat));
    }
}

/// The toolchain fingerprint: `fnv1a64:` and the FNV-1a hash of the inputs'
/// fields in sixteen lowercase hexadecimal digits.
pub fn fingerprint_digest(inputs: &FingerprintInputs) -> (result: String)
    ensures
        result@ == fingerprint_text(*inputs),
{
    let fields = fingerprint_field_list(inputs);
    let hash = hash_fields(&fields);
    let mut text: Vec<char> = vec!['f', 'n', 'v', '1', 'a', '6', '4', ':'];
    proof {
        reveal_strlit("fnv1a64:");
    }
    assert(text@ =~= "fnv1a64:"@);
    push_hex_digits(&mut text, hash, 16);
    string_from_chars(text.as_slice())
}

} // verus!
