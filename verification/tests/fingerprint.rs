use ccc::link::fingerprint::{
    fingerprint_digest, fingerprint_field_list, hash_fields, EnvironmentEntry,
    ExecutableIdentity, FileTimestamp, FingerprintInputs,
};
use ccc::link::ToolchainRequirements;
use ccc::pp::search::{SystemInclude, SystemIncludeKind};

fn reference_fnv(fields: &[&str]) -> u64 {
    let mut hash = 0xcbf2_9ce4_8422_2325_u64;
    for field in fields {
        for byte in field.as_bytes().iter().copied().chain([0]) {
            hash ^= u64::from(byte);
            hash = hash.wrapping_mul(0x0000_0100_0000_01b3);
        }
    }
    hash
}

fn fixture_identity() -> ExecutableIdentity {
    ExecutableIdentity {
        path: "/tools/fixture-cc".to_string(),
        length: Some(4_096),
        modified: Some(FileTimestamp {
            before_epoch: false,
            seconds: 1_700_000_000,
            nanoseconds: 123,
        }),
        platform_metadata: vec![7, 42, -5],
    }
}

fn fixture_environment() -> Vec<EnvironmentEntry> {
    vec![
        EnvironmentEntry {
            name: "PATH".to_string(),
            value: Some("/tools:/usr/bin".to_string()),
        },
        EnvironmentEntry {
            name: "SDKROOT".to_string(),
            value: Some("/sdk".to_string()),
        },
        EnvironmentEntry {
            name: "CPATH".to_string(),
            value: None,
        },
    ]
}

fn digest_of(identity: &ExecutableIdentity, environment: &[EnvironmentEntry]) -> String {
    let arguments = vec!["--driver-mode=gcc".to_string()];
    let includes = vec![SystemInclude {
        path: "/usr/include".to_string(),
        kind: SystemIncludeKind::System,
    }];
    fingerprint_digest(&FingerprintInputs {
        executable: identity,
        driver_program: "fixture-cc",
        version: "fixture cc 1.0",
        reported_target: "x86_64-unknown-linux-gnu",
        target_arguments: &arguments,
        sysroot: Some("/sdk"),
        resource_dir: Some("/tools/lib/clang/20"),
        system_includes: &includes,
        requirements: ToolchainRequirements::preprocess(false),
        environment,
        working_directory: Some("/work"),
    })
}

#[test]
fn fingerprint_fields_follow_the_documented_order() {
    let identity = fixture_identity();
    let environment = fixture_environment();
    let arguments = vec!["--driver-mode=gcc".to_string()];
    let includes = vec![SystemInclude {
        path: "/usr/include".to_string(),
        kind: SystemIncludeKind::System,
    }];
    let inputs = FingerprintInputs {
        executable: &identity,
        driver_program: "fixture-cc",
        version: "fixture cc 1.0",
        reported_target: "x86_64-unknown-linux-gnu",
        target_arguments: &arguments,
        sysroot: Some("/sdk"),
        resource_dir: None,
        system_includes: &includes,
        requirements: ToolchainRequirements::preprocess(false),
        environment: &environment,
        working_directory: Some("/work"),
    };
    let expected = [
        "/tools/fixture-cc",
        "fixture-cc",
        "length",
        "4096",
        "modified",
        "after-epoch",
        "1700000000",
        "123",
        "platform-metadata",
        "7",
        "platform-metadata",
        "42",
        "platform-metadata",
        "-5",
        "fixture cc 1.0",
        "x86_64-unknown-linux-gnu",
        "--driver-mode=gcc",
        "/sdk",
        "/usr/include",
        "system",
        "system-headers",
        "disabled",
        "disable-system-headers",
        "enabled",
        "assembler",
        "disabled",
        "linker",
        "disabled",
        "object-copier",
        "disabled",
        "archiver",
        "disabled",
        "PATH",
        "present",
        "/tools:/usr/bin",
        "SDKROOT",
        "present",
        "/sdk",
        "CPATH",
        "absent",
        "working-directory",
        "present",
        "/work",
    ];
    let fields = fingerprint_field_list(&inputs);
    assert_eq!(fields, expected);
    assert_eq!(hash_fields(&fields), reference_fnv(&expected));
    assert_eq!(
        fingerprint_digest(&inputs),
        format!("fnv1a64:{:016x}", reference_fnv(&expected))
    );
}

#[test]
fn empty_fields_hash_to_the_fnv_offset_basis() {
    assert_eq!(hash_fields(&Vec::new()), 0xcbf2_9ce4_8422_2325);
    assert_eq!(
        hash_fields(&vec!["".to_string()]),
        reference_fnv(&[""])
    );
}

#[test]
fn environment_and_executable_identity_change_fingerprints() {
    let identity = fixture_identity();
    let environment = fixture_environment();
    let digest = digest_of(&identity, &environment);
    assert!(digest.starts_with("fnv1a64:"));
    assert_eq!(digest.len(), "fnv1a64:".len() + 16);

    let mut changed_environment = fixture_environment();
    changed_environment[1].value = Some("/other-sdk".to_string());
    assert_ne!(digest, digest_of(&identity, &changed_environment));

    let mut changed_identity = fixture_identity();
    changed_identity.length = Some(4_097);
    assert_ne!(digest, digest_of(&changed_identity, &environment));

    assert_eq!(digest, digest_of(&fixture_identity(), &fixture_environment()));
}
