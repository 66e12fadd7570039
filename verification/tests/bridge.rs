use ccc::link::bridge::{BridgeFrameV2, GeneratedSymbolKind, generated_symbol_name};

#[test]
fn variadic_sse_count_saturates_at_eight() {
    for (actual, expected) in [(0, 0), (1, 1), (8, 8), (9, 8), (u8::MAX, 8)] {
        let mut frame = BridgeFrameV2::zeroed(0, 0);
        frame.set_variadic_sse_count(actual);
        assert_eq!(frame.variadic_sse_count, expected);
    }
}

#[test]
fn generated_names_include_a_full_sha256_digest() {
    let name = generated_symbol_name(
        &[0x42; 32],
        GeneratedSymbolKind::CallHelper,
        b"function:7/call:2",
        b"canonical-plan",
    );
    assert!(name.starts_with("__ccc_call_helper_"));
    assert_eq!(name.len(), "__ccc_call_helper_".len() + 64);
    assert_eq!(
        name,
        generated_symbol_name(
            &[0x42; 32],
            GeneratedSymbolKind::CallHelper,
            b"function:7/call:2",
            b"canonical-plan",
        )
    );
    assert_ne!(
        name,
        generated_symbol_name(
            &[0x42; 32],
            GeneratedSymbolKind::CallHelper,
            b"function:7/call:3",
            b"canonical-plan",
        )
    );
}

#[test]
fn bridge_frame_reserves_its_header_above_the_outgoing_area() {
    let frame = BridgeFrameV2::zeroed(0x1000, 32);
    assert_eq!(frame.header_size, 32);
    assert_eq!(frame.target_address, 0x1000);
    assert_eq!(frame.outgoing_stack_size, 32);
    assert_eq!(frame.variadic_sse_count, 0);
}
