use ccc::link::assembly::{
    AssemblyFunctionLinkage, BridgeEntryPlan, F80RuntimeHelperPlan, InlineAsmSupportPlan,
    TlsAccessModel, TlsAccessorPlan, TlsSymbolVisibility, render_f80_support,
    render_generic_call_helper, render_inline_asm_support, render_target_call_helper,
    render_target_fixed_entry, render_target_tls_accessor, render_target_variadic_entry,
    render_variadic_entry,
};
use ccc::link::bridge::AbiIdentity;

fn entry_plan(public_symbol: &str, hidden_body_symbol: &str) -> BridgeEntryPlan {
    BridgeEntryPlan {
        public_symbol: public_symbol.to_owned(),
        public_symbol_is_exact: false,
        hidden_body_symbol: hidden_body_symbol.to_owned(),
        linkage: AssemblyFunctionLinkage::ExternalDefault,
        weak: false,
        fixed_gp_used: 0,
        fixed_sse_used: 0,
        overflow_arg_offset: 0,
        gp_results: 0,
        xmm_results: 0,
        x87_result: false,
        hidden_return: false,
        logical_line: 1,
    }
}

#[test]
fn inline_assembly_support_is_exact_deterministic_and_abi_safe() {
    let plan = InlineAsmSupportPlan {
        cpuid_symbol: Some("__ccc_support_cpuid_test".to_owned()),
        rdtsc_symbol: Some("__ccc_support_rdtsc_test".to_owned()),
    };
    let assembly = render_inline_asm_support(&plan).unwrap();
    let source = assembly.source();

    assert_eq!(assembly.stem(), "inline-asm-support");
    assert_eq!(
        assembly.defined_symbols(),
        ["__ccc_support_cpuid_test", "__ccc_support_rdtsc_test"]
    );
    assert_eq!(assembly, render_inline_asm_support(&plan).unwrap());
    assert!(source.contains(".hidden __ccc_support_cpuid_test"));
    assert!(source.contains(".hidden __ccc_support_rdtsc_test"));
    assert!(source.contains("pushq %rbx\n.cfi_def_cfa_offset 16"));
    assert!(source.contains(".cfi_offset %rbx, -16"));
    assert!(source.contains("movq %rdx, %r10\nmovq %rcx, %r11"));
    assert!(source.contains("movl %edi, %eax\nmovl %esi, %ecx\ncpuid"));
    assert!(source.contains("rdtsc\nmovl %eax, (%rdi)\nmovl %edx, (%rsi)"));
    assert!(source.contains(".section .note.GNU-stack,\"\",@progbits"));
}

#[test]
fn inline_assembly_support_rejects_empty_or_foreign_plans() {
    let error = render_inline_asm_support(&InlineAsmSupportPlan {
        cpuid_symbol: None,
        rdtsc_symbol: None,
    })
    .unwrap_err();
    assert!(error.message.contains("at least one helper"));

    for plan in [
        InlineAsmSupportPlan {
            cpuid_symbol: Some("cpuid".to_owned()),
            rdtsc_symbol: None,
        },
        InlineAsmSupportPlan {
            cpuid_symbol: None,
            rdtsc_symbol: Some("rdtsc".to_owned()),
        },
    ] {
        let error = render_inline_asm_support(&plan).unwrap_err();
        assert!(error.message.contains("reserved compiler namespace"));
    }
}

#[test]
fn tls_accessors_render_canonical_elf_models_and_unwind_state() {
    let helper = "__ccc_tls_accessor_0123456789abcdef";
    for (model, required) in [
        (
            TlsAccessModel::GeneralDynamic,
            &[
                "data16 leaq tls_value@TLSGD(%rip), %rdi",
                ".value 0x6666\nrex64\ncall __tls_get_addr@PLT",
            ][..],
        ),
        (
            TlsAccessModel::LocalDynamic,
            &[
                "leaq tls_value@TLSLD(%rip), %rdi",
                "call __tls_get_addr@PLT",
                "leaq tls_value@DTPOFF(%rax), %rax",
            ][..],
        ),
        (
            TlsAccessModel::InitialExec,
            &["movq %fs:0, %rax", "addq tls_value@GOTTPOFF(%rip), %rax"][..],
        ),
        (
            TlsAccessModel::LocalExec,
            &["movq %fs:0, %rax", "leaq tls_value@TPOFF(%rax), %rax"][..],
        ),
    ] {
        let assembly = render_target_tls_accessor(&TlsAccessorPlan {
            abi: AbiIdentity::SysvAmd64Lp64,
            helper_symbol: helper.to_owned(),
            object_symbol: "tls_value".to_owned(),
            object_symbol_is_exact: false,
            model,
            object_visibility: TlsSymbolVisibility::Default,
            logical_line: 19,
        })
        .unwrap();
        for instruction in required {
            assert!(
                assembly.source().contains(instruction),
                "missing `{instruction}` in:\n{}",
                assembly.source()
            );
        }
        assert!(assembly.source().contains(".hidden __ccc_tls_accessor_"));
        assert!(assembly.source().contains(".cfi_startproc"));
        assert!(assembly.source().contains(".cfi_endproc"));
        assert!(assembly.source().contains(".note.GNU-stack"));
        assert_eq!(assembly.debug_locations()[0].line, 19);
    }
}

#[test]
fn dynamic_tls_accessors_align_calls_and_general_dynamic_is_relaxable() {
    let assembly = render_target_tls_accessor(&TlsAccessorPlan {
        abi: AbiIdentity::SysvAmd64Lp64,
        helper_symbol: "__ccc_tls_accessor_dynamic".to_owned(),
        object_symbol: "value".to_owned(),
        object_symbol_is_exact: false,
        model: TlsAccessModel::GeneralDynamic,
        object_visibility: TlsSymbolVisibility::Hidden,
        logical_line: 1,
    })
    .unwrap();
    let source = assembly.source();
    let subtract = source.find("subq $8, %rsp").unwrap();
    let call = source.find("call __tls_get_addr@PLT").unwrap();
    let add = source.find("addq $8, %rsp").unwrap();
    assert!(subtract < call && call < add, "{source}");
    assert!(source.contains(".cfi_def_cfa_offset 16"));
    assert!(source.contains(".cfi_def_cfa_offset 8"));
    assert!(source.contains(".hidden value"));
    assert!(source.contains("data16 leaq"));
    assert!(source.contains(".value 0x6666\nrex64\ncall"));
}

#[test]
fn linux_arm64_tls_accessors_use_target_relocation_families() {
    for (model, required) in [
        (
            TlsAccessModel::GeneralDynamic,
            &[":tlsdesc:value", ".tlsdesccall value", "mrs x8, TPIDR_EL0"][..],
        ),
        (
            TlsAccessModel::LocalDynamic,
            &[":tlsdesc:value", ".tlsdesccall value", "mrs x8, TPIDR_EL0"][..],
        ),
        (
            TlsAccessModel::InitialExec,
            &[":gottprel:value", ":gottprel_lo12:value"][..],
        ),
        (
            TlsAccessModel::LocalExec,
            &[":tprel_hi12:value", ":tprel_lo12_nc:value"][..],
        ),
    ] {
        let assembly = render_target_tls_accessor(&TlsAccessorPlan {
            abi: AbiIdentity::Aapcs64Lp64,
            helper_symbol: "__ccc_tls_accessor_arm64".to_owned(),
            object_symbol: "value".to_owned(),
            object_symbol_is_exact: false,
            model,
            object_visibility: TlsSymbolVisibility::Protected,
            logical_line: 1,
        })
        .unwrap();
        for fragment in required {
            assert!(assembly.source().contains(fragment), "{}", assembly.source());
        }
        assert!(assembly.source().contains(".protected value"));
        assert!(assembly.source().contains(".note.GNU-stack"));
    }
}

#[test]
fn linux_riscv64_tls_accessors_use_target_relocation_families() {
    for (model, required) in [
        (
            TlsAccessModel::GeneralDynamic,
            &["%tls_gd_pcrel_hi(value)", "call __tls_get_addr"][..],
        ),
        (
            TlsAccessModel::LocalDynamic,
            &["%tls_gd_pcrel_hi(value)", "call __tls_get_addr"][..],
        ),
        (
            TlsAccessModel::InitialExec,
            &["%tls_ie_pcrel_hi(value)", "add a0, a0, tp"][..],
        ),
        (
            TlsAccessModel::LocalExec,
            &["%tprel_hi(value)", "%tprel_add(value)", "%tprel_lo(value)"][..],
        ),
    ] {
        let assembly = render_target_tls_accessor(&TlsAccessorPlan {
            abi: AbiIdentity::RiscvLp64d,
            helper_symbol: "__ccc_tls_accessor_riscv64".to_owned(),
            object_symbol: "value".to_owned(),
            object_symbol_is_exact: false,
            model,
            object_visibility: TlsSymbolVisibility::Internal,
            logical_line: 1,
        })
        .unwrap();
        for fragment in required {
            assert!(assembly.source().contains(fragment), "{}", assembly.source());
        }
        assert!(assembly.source().contains(".internal value"));
        assert!(assembly.source().contains(".note.GNU-stack"));
    }
}

#[test]
fn darwin_arm64_tls_accessor_uses_tlv_and_respects_exact_symbols() {
    for (exact, reference) in [(false, "_value@TLVPPAGE"), (true, "value@TLVPPAGE")] {
        let assembly = render_target_tls_accessor(&TlsAccessorPlan {
            abi: AbiIdentity::DarwinArm64,
            helper_symbol: "__ccc_tls_accessor_darwin".to_owned(),
            object_symbol: "value".to_owned(),
            object_symbol_is_exact: exact,
            model: TlsAccessModel::InitialExec,
            object_visibility: TlsSymbolVisibility::Hidden,
            logical_line: 1,
        })
        .unwrap();
        assert!(assembly.source().contains(reference), "{}", assembly.source());
        assert!(assembly.source().contains("ldr x8, [x0]\nblr x8"));
        assert!(assembly.source().contains("___ccc_tls_accessor_darwin:"));
        assert!(
            assembly
                .source()
                .contains(".private_extern ___ccc_tls_accessor_darwin")
        );
        assert!(assembly.source().contains(".subsections_via_symbols"));
        assert!(!assembly.source().contains(".note.GNU-stack"));
    }
}

#[test]
fn x86_call_helper_guards_live_prefixes_and_writes_al_last() {
    let assembly = render_generic_call_helper("__ccc_call_helper_test").unwrap();
    let source = assembly.source();
    for index in 0..8 {
        assert!(
            source.contains(&format!("movdqu {}(%r12), %xmm{index}", 80 + index * 16)),
            "{source}"
        );
        assert!(source.contains(&format!("cmpb ${index}, %r10b")), "{source}");
    }
    for (index, register) in ["%rdi", "%rsi", "%rdx", "%rcx", "%r8", "%r9"]
        .into_iter()
        .enumerate()
    {
        assert!(
            source.contains(&format!("movq {}(%r12), {register}", 32 + index * 8)),
            "{source}"
        );
    }
    let al_instruction = "movzbl 26(%r12), %eax";
    let al = source.find(al_instruction).unwrap();
    let call = source.find("call *%r11").unwrap();
    assert!(al < call);
    assert_eq!(
        &source[al..call + "call *%r11".len()],
        "movzbl 26(%r12), %eax\ncall *%r11"
    );
    assert!(source.contains("movzbl 25(%r12), %r10d"));
    assert!(source.contains("jbe .Lccc_call_xmm_inputs_done"));
    assert!(source.contains("movzbl 24(%r12), %r10d"));
    assert!(source.contains("jbe .Lccc_call_gp_inputs_done"));
    assert!(source.contains(".cfi_startproc"));
    assert!(source.contains(".note.GNU-stack"));
    assert!(!source.contains(".file"));
    assert!(!source.contains(".loc"));
    assert!(!source.contains("ud2"));
    assert!(!source.contains("ldmxcsr"));
    assert!(!source.contains("fldcw"));
    assert!(!source.contains("cld"));
    assert!(source.contains("leaq 272(%r12), %rsi"));
    assert!(source.contains("testb $1, 29(%r12)"));
    assert!(source.contains("fstpt 256(%r12)"));
}

#[test]
fn arm64_call_helper_guards_live_prefixes_and_always_restores_x8() {
    for abi in [AbiIdentity::Aapcs64Lp64, AbiIdentity::DarwinArm64] {
        let assembly = render_target_call_helper("__ccc_call_helper_arm64_test", abi).unwrap();
        let source = assembly.source();
        assert!(source.contains("ldrb w17, [x19, #25]"), "{source}");
        assert!(source.contains("adr x9, 3f"));
        assert!(source.contains("ldrb w17, [x19, #24]"), "{source}");
        assert!(source.contains("adr x9, 4f"));
        assert_eq!(source.matches("sub x9, x9, x17, lsl #2").count(), 2);
        assert_eq!(source.matches("br x9").count(), 2);
        for index in 0..8 {
            assert!(
                source.contains(&format!("ldr q{index}, [x19, #{}]", 112 + index * 16)),
                "{source}"
            );
            assert!(
                source.contains(&format!("ldr x{index}, [x19, #{}]", 48 + index * 8)),
                "{source}"
            );
        }
        let x8 = source.find("ldr x8, [x19, #32]").unwrap();
        let call = source.find("blr x16").unwrap();
        assert!(x8 < call, "{source}");
    }
}

#[test]
fn f80_support_keeps_ordered_operations_and_control_word_changes_local() {
    let assembly =
        render_f80_support("__ccc_support_f80_test", F80RuntimeHelperPlan::default()).unwrap();
    let source = assembly.source();
    assert_eq!(assembly.defined_symbols(), ["__ccc_support_f80_test"]);
    assert!(source.contains("fsubrp %st, %st(1)"), "{source}");
    assert!(source.contains("fdivrp %st, %st(1)"), "{source}");
    assert!(!source.contains("fsubp %st, %st(1)"), "{source}");
    assert!(!source.contains("fdivp %st, %st(1)"), "{source}");
    assert!(source.contains("fucomip %st(1), %st"), "{source}");
    assert!(source.contains("fcomip %st(1), %st"), "{source}");
    assert!(source.contains("cmpl $21, %eax"), "{source}");
    assert!(source.contains("fnstcw 8(%rsp)"), "{source}");
    assert!(source.contains("fldcw 8(%rsp)"), "{source}");
    assert!(source.contains(".Lccc_f80_two63:"), "{source}");
    assert!(source.contains(".note.GNU-stack"), "{source}");
}

#[test]
fn f80_wide_conversions_select_only_the_requested_runtime_helpers() {
    let assembly = render_f80_support(
        "__ccc_support_f80_test",
        F80RuntimeHelperPlan {
            from_i128: true,
            from_u128: false,
            to_i128: false,
            to_u128: true,
        },
    )
    .unwrap();
    let source = assembly.source();
    assert!(source.contains("call __floattixf@PLT"), "{source}");
    assert!(source.contains("call __fixunsxfti@PLT"), "{source}");
    assert!(!source.contains("__floatuntixf"), "{source}");
    assert!(!source.contains("__fixxfti"), "{source}");
    assert!(source.contains(".cfi_offset %r12, -16"), "{source}");
    assert!(source.contains("movq %rdx, 8(%r12)"), "{source}");
}

#[test]
fn fixed_entry_restores_an_x87_result_immediately_before_return() {
    let mut plan = entry_plan("x87_identity", "__ccc_fixed_body_x87");
    plan.overflow_arg_offset = 16;
    plan.x87_result = true;
    let assembly = render_target_fixed_entry(&plan, AbiIdentity::SysvAmd64Lp64).unwrap();
    let source = assembly.source();
    let call = source.find("call __ccc_fixed_body_x87").unwrap();
    let load = source.find("fldt 256(%rsp)").unwrap();
    let leave = source.find("leave").unwrap();
    assert!(call < load && load < leave, "{source}");
}

#[test]
fn riscv_call_helper_uses_a_stable_cfa_across_dynamic_outgoing_storage() {
    let assembly =
        render_target_call_helper("__ccc_call_helper_riscv_test", AbiIdentity::RiscvLp64d)
            .unwrap();
    let source = assembly.source();
    let establish = source.find("addi s0, sp, 32").unwrap();
    let stable_cfa = source[establish..].find(".cfi_def_cfa s0, 0").unwrap() + establish;
    let dynamic = source.find("sub sp, sp, s2").unwrap();
    let restore_sp = source.find("addi sp, s0, -32").unwrap();
    let restore_cfa = source[restore_sp..].find(".cfi_def_cfa sp, 32").unwrap() + restore_sp;
    let call = source.find("jalr t0").unwrap();
    assert!(establish < stable_cfa && stable_cfa < dynamic && dynamic < call);
    assert!(call < restore_sp && restore_sp < restore_cfa);
    assert!(source.contains(".cfi_def_cfa sp, 0"));
    assert!(
        source.contains("lbu t1, 25(s1)\nbeqz t1, .Lccc_call_riscv_fp_inputs_done"),
        "{source}"
    );
    assert!(
        source.contains("lbu t1, 24(s1)\nbeqz t1, .Lccc_call_riscv_gp_inputs_done"),
        "{source}"
    );
    for index in 0..8 {
        assert!(
            source.contains(&format!("fld fa{index}, {}(s1)", 112 + index * 16)),
            "{source}"
        );
        assert!(
            source.contains(&format!("ld a{index}, {}(s1)", 48 + index * 8)),
            "{source}"
        );
    }
}

#[test]
fn variadic_entry_builds_the_public_va_list_view() {
    let mut plan = entry_plan("consume", "__ccc_variadic_body_test");
    plan.linkage = AssemblyFunctionLinkage::ExternalHidden;
    plan.fixed_gp_used = 2;
    plan.fixed_sse_used = 1;
    plan.overflow_arg_offset = 16;
    plan.gp_results = 1;
    plan.logical_line = 27;
    let assembly = render_variadic_entry(&plan).unwrap();
    let source = assembly.source();
    assert!(source.contains("subq $272, %rsp"));
    assert!(source.contains("movl $16, 8(%rsp)"));
    assert!(source.contains("movl $64, 12(%rsp)"));
    assert!(source.contains("leaq 32(%rsp), %r10"));
    assert!(source.contains("movq %rsp, %rdi"));
    assert!(source.contains("call __ccc_variadic_body_test"));
    assert!(source.contains("movzbl %al, %r11d"));
    assert!(source.contains("cmpb $8, %r11b\njbe 0f\nmovb $8, %r11b"));
    assert!(source.contains("movq 208(%rsp), %rax"));
    assert!(!source.contains(".file"));
    assert!(!source.contains(".loc"));
    assert!(source.contains(".hidden consume"));
}

#[test]
fn fixed_entry_saves_planned_sse_inputs_without_reading_variadic_metadata() {
    let mut plan = entry_plan("fixed_wide", "__ccc_fixed_body_test");
    plan.weak = true;
    plan.fixed_gp_used = 2;
    plan.fixed_sse_used = 2;
    plan.gp_results = 2;
    let assembly = render_target_fixed_entry(&plan, AbiIdentity::SysvAmd64Lp64).unwrap();
    let source = assembly.source();
    assert!(source.contains(".weak fixed_wide"), "{source}");
    assert!(!source.contains(".globl fixed_wide"), "{source}");
    assert!(!source.contains("%al"), "{source}");
    assert!(!source.contains("%r11b"), "{source}");
    assert!(source.contains("movdqu %xmm0, 80(%rsp)"), "{source}");
    assert!(source.contains("movdqu %xmm1, 96(%rsp)"), "{source}");
    assert!(!source.contains("movdqu %xmm2, 112(%rsp)"), "{source}");
}

#[test]
fn variadic_entry_rejects_conflicting_indirect_and_register_results() {
    let mut plan = entry_plan("consume", "hidden");
    plan.linkage = AssemblyFunctionLinkage::Internal;
    plan.fixed_gp_used = 2;
    plan.gp_results = 1;
    plan.hidden_return = true;
    let error = render_variadic_entry(&plan).unwrap_err();
    assert!(error.message.contains("cannot also request register results"));
}

#[test]
fn bridge_entries_reject_x87_results_outside_the_x86_scalar_contract() {
    let mut plan = entry_plan("consume", "hidden");
    plan.linkage = AssemblyFunctionLinkage::Internal;
    plan.x87_result = true;
    let error = render_target_variadic_entry(&plan, AbiIdentity::Aapcs64Lp64).unwrap_err();
    assert!(error.message.contains("sole System V AMD64 result"));

    let mut mixed = plan;
    mixed.gp_results = 1;
    let error = render_variadic_entry(&mixed).unwrap_err();
    assert!(error.message.contains("sole System V AMD64 result"));
}

#[test]
fn variadic_entry_retains_internal_source_linkage() {
    let mut plan = entry_plan("local_consume", "__ccc_variadic_body_local");
    plan.linkage = AssemblyFunctionLinkage::Internal;
    let assembly = render_variadic_entry(&plan).unwrap();
    assert!(assembly.source().contains(".globl local_consume"));
    assert!(assembly.source().contains(".hidden local_consume"));
}

#[test]
fn variadic_entry_emits_each_external_elf_visibility_directive() {
    for (linkage, directive) in [
        (AssemblyFunctionLinkage::ExternalDefault, None),
        (AssemblyFunctionLinkage::ExternalHidden, Some(".hidden consume")),
        (AssemblyFunctionLinkage::ExternalProtected, Some(".protected consume")),
        (AssemblyFunctionLinkage::ExternalInternal, Some(".internal consume")),
    ] {
        let mut plan = entry_plan("consume", "__ccc_variadic_body_visibility");
        plan.linkage = linkage;
        plan.gp_results = 1;
        let assembly = render_variadic_entry(&plan).unwrap();
        let source = assembly.source();
        assert!(source.contains(".globl consume"));
        for possible in [".hidden consume", ".protected consume", ".internal consume"] {
            assert_eq!(
                source.contains(possible),
                directive == Some(possible),
                "{linkage:?}:\n{source}"
            );
        }
    }
}

#[test]
fn darwin_variadic_entry_preserves_exact_assembly_label_spelling() {
    let render = |public_symbol: &str, public_symbol_is_exact: bool| {
        let mut plan = entry_plan(public_symbol, "__ccc_variadic_body_darwin_label");
        plan.public_symbol_is_exact = public_symbol_is_exact;
        plan.fixed_gp_used = 1;
        plan.gp_results = 1;
        render_target_variadic_entry(&plan, AbiIdentity::DarwinArm64).unwrap()
    };

    let exact = render("_physical_variadic", true);
    assert!(exact.source().contains(".globl _physical_variadic\n"));
    assert!(exact.source().contains("_physical_variadic:\n"));
    assert!(!exact.source().contains("__physical_variadic"));

    let exact_without_prefix = render("physical_variadic", true);
    assert!(exact_without_prefix.source().contains(".globl physical_variadic\n"));
    assert!(exact_without_prefix.source().contains("physical_variadic:\n"));
    assert!(!exact_without_prefix.source().contains("_physical_variadic"));

    let ordinary = render("_ordinary_variadic", false);
    assert!(ordinary.source().contains(".globl __ordinary_variadic\n"));
    assert!(ordinary.source().contains("__ordinary_variadic:\n"));
}

#[test]
fn variadic_entry_guards_each_xmm_save_with_the_incoming_al_bound() {
    let mut plan = entry_plan("consume", "__ccc_variadic_body_al_bound");
    plan.gp_results = 1;
    let assembly = render_variadic_entry(&plan).unwrap();
    let source = assembly.source();
    for index in 0..8 {
        let guarded_save = format!(
            "cmpb ${index}, %r11b\njbe 1f\nmovdqu %xmm{index}, {}(%rsp)",
            80 + index * 16
        );
        assert!(source.contains(&guarded_save), "{guarded_save}\n{source}");
    }

    let simulated_saves = |incoming_al: u8| {
        let bounded = incoming_al.min(8);
        (0_u8..8).filter(|index| bounded > *index).collect::<Vec<_>>()
    };
    assert_eq!(simulated_saves(0), Vec::<u8>::new());
    assert_eq!(simulated_saves(1), vec![0]);
    assert_eq!(simulated_saves(8), (0_u8..8).collect::<Vec<_>>());
    assert_eq!(simulated_saves(u8::MAX), (0_u8..8).collect::<Vec<_>>());
}

#[test]
fn riscv_variadic_entry_loads_its_floating_results() {
    let mut plan = entry_plan("consume", "__ccc_variadic_body_riscv");
    plan.fixed_gp_used = 3;
    plan.gp_results = 2;
    plan.xmm_results = 2;
    let assembly = render_target_variadic_entry(&plan, AbiIdentity::RiscvLp64d).unwrap();
    let source = assembly.source();
    assert!(source.contains("addi t0, sp, 472\n"), "{source}");
    assert!(source.contains("call __ccc_variadic_body_riscv\n"), "{source}");
    assert!(source.contains("ld a0, 240(sp)\nld a1, 248(sp)\nfld fa0, 256(sp)\nfld fa1, 272(sp)\n"), "{source}");
    assert!(source.contains(".size consume, .-consume\n"), "{source}");
}

#[test]
fn arm64_variadic_entry_publishes_its_register_offsets() {
    let mut plan = entry_plan("consume", "__ccc_variadic_body_arm64");
    plan.fixed_gp_used = 2;
    plan.fixed_sse_used = 1;
    plan.xmm_results = 1;
    let assembly = render_target_variadic_entry(&plan, AbiIdentity::Aapcs64Lp64).unwrap();
    let source = assembly.source();
    assert!(source.contains("mov w9, #-48\nstr w9, [sp, #32]\n"), "{source}");
    assert!(source.contains("mov w9, #-112\nstr w9, [sp, #36]\n"), "{source}");
    assert!(source.contains("bl __ccc_variadic_body_arm64\n"), "{source}");
    assert!(source.contains("ldr q0, [sp, #256]\n"), "{source}");
    assert!(!source.contains("ldr x0, [sp, #240]"), "{source}");
}
