//! Assembly text of the generated bridge units: the function framing of
//! each target, the call helpers, the x87 dispatcher and the inline-assembly
//! support unit.

use vstd::prelude::*;

use crate::link::bridge::{
    AbiIdentity, GeneratedAssembly, LogicalDebugLocation, assembly_check, string_views,
    symbol_check, validate_symbol,
};
use crate::link::{LinkError, artifact_code, artifact_error, check_outcome};
use crate::text::{decimal, push_decimal, push_str, string_from_chars};

verus! {

pub const CALL_HELPER_PROLOGUE: &'static str = "pushq %rbp\n\
         .cfi_def_cfa_offset 16\n\
         .cfi_offset %rbp, -16\n\
         movq %rsp, %rbp\n\
         .cfi_def_cfa_register %rbp\n\
         pushq %r12\n\
         .cfi_offset %r12, -24\n\
         pushq %r13\n\
         .cfi_offset %r13, -32\n\
         movq %rdi, %r12\n\
         movl 16(%r12), %r13d\n\
         addq $15, %r13\n\
         andq $-16, %r13\n\
         subq %r13, %rsp\n\
         movq %rsp, %rdi\n\
         leaq 272(%r12), %rsi\n\
         movl 16(%r12), %ecx\n\
         rep movsb\n\
         movq 8(%r12), %r11\n";

pub const CALL_HELPER_XMM_DONE: &'static str = ".Lccc_call_xmm_inputs_done:\nmovzbl 24(%r12), %r10d\n";

pub const CALL_HELPER_EPILOGUE: &'static str = ".Lccc_call_gp_inputs_done:\n\
         movzbl 26(%r12), %eax\n\
         call *%r11\n\
         movq %rax, 208(%r12)\n\
         movq %rdx, 216(%r12)\n\
         movdqu %xmm0, 224(%r12)\n\
         movdqu %xmm1, 240(%r12)\n\
         testb $1, 29(%r12)\n\
         jz .Lccc_call_no_x87_result\n\
         fstpt 256(%r12)\n\
         .Lccc_call_no_x87_result:\n\
         leaq -16(%rbp), %rsp\n\
         popq %r13\n\
         popq %r12\n\
         popq %rbp\n\
         .cfi_def_cfa %rsp, 8\n\
         ret\n";


pub const ARM64_CALL_PROLOGUE: &'static str = "stp x29, x30, [sp, #-32]!\n\
         .cfi_def_cfa_offset 32\n\
         .cfi_offset x29, -32\n\
         .cfi_offset x30, -24\n\
         stp x19, x20, [sp, #16]\n\
         .cfi_offset x19, -16\n\
         .cfi_offset x20, -8\n\
         mov x29, sp\n\
         .cfi_def_cfa_register x29\n\
         mov x19, x0\n\
         ldr w20, [x19, #16]\n\
         add x20, x20, #15\n\
         and x20, x20, #-16\n\
         sub sp, sp, x20\n\
         ldr w2, [x19, #16]\n\
         cbz x2, 2f\n\
         add x1, x19, #320\n\
         mov x0, sp\n\
         1:\n\
         ldrb w3, [x1], #1\n\
         strb w3, [x0], #1\n\
         subs x2, x2, #1\n\
         b.ne 1b\n\
         2:\n\
         ldr x16, [x19, #8]\n";

pub const ARM64_CALL_VECTOR_DISPATCH: &'static str = "ldrb w17, [x19, #25]\n\
         adr x9, 3f\n\
         sub x9, x9, x17, lsl #2\n\
         br x9\n";

pub const ARM64_CALL_GP_DISPATCH: &'static str = "3:\n\
         ldrb w17, [x19, #24]\n\
         adr x9, 4f\n\
         sub x9, x9, x17, lsl #2\n\
         br x9\n";

pub const ARM64_CALL_EPILOGUE: &'static str = "4:\n\
         ldr x8, [x19, #32]\n\
         blr x16\n\
         stp x0, x1, [x19, #240]\n\
         str q0, [x19, #256]\n\
         str q1, [x19, #272]\n\
         str q2, [x19, #288]\n\
         str q3, [x19, #304]\n\
         mov sp, x29\n\
         .cfi_def_cfa sp, 32\n\
         ldp x19, x20, [sp, #16]\n\
         .cfi_restore x19\n\
         .cfi_restore x20\n\
         ldp x29, x30, [sp], #32\n\
         .cfi_restore x29\n\
         .cfi_restore x30\n\
         .cfi_def_cfa sp, 0\n\
         ret\n";

pub const RISCV_CALL_PROLOGUE: &'static str = "addi sp, sp, -32\n\
         .cfi_def_cfa_offset 32\n\
         sd ra, 24(sp)\n\
         .cfi_offset ra, -8\n\
         sd s0, 16(sp)\n\
         .cfi_offset s0, -16\n\
         sd s1, 8(sp)\n\
         .cfi_offset s1, -24\n\
         sd s2, 0(sp)\n\
         .cfi_offset s2, -32\n\
         addi s0, sp, 32\n\
         .cfi_def_cfa s0, 0\n\
         mv s1, a0\n\
         lwu s2, 16(s1)\n\
         addi s2, s2, 15\n\
         andi s2, s2, -16\n\
         sub sp, sp, s2\n\
         lwu t2, 16(s1)\n\
         beqz t2, 2f\n\
         addi t0, s1, 320\n\
         mv t1, sp\n\
         1:\n\
         lbu t3, 0(t0)\n\
         sb t3, 0(t1)\n\
         addi t0, t0, 1\n\
         addi t1, t1, 1\n\
         addi t2, t2, -1\n\
         bnez t2, 1b\n\
         2:\n\
         ld t0, 8(s1)\n";

pub const RISCV_CALL_FP_START: &'static str = "lbu t1, 25(s1)\nbeqz t1, .Lccc_call_riscv_fp_inputs_done\n";

pub const RISCV_CALL_FP_NEXT: &'static str = "addi t1, t1, -1\n\
                 beqz t1, .Lccc_call_riscv_fp_inputs_done\n";

pub const RISCV_CALL_FP_DONE: &'static str = ".Lccc_call_riscv_fp_inputs_done:\n\
         lbu t1, 24(s1)\n\
         beqz t1, .Lccc_call_riscv_gp_inputs_done\n";

pub const RISCV_CALL_GP_NEXT: &'static str = "addi t1, t1, -1\n\
                 beqz t1, .Lccc_call_riscv_gp_inputs_done\n";

pub const RISCV_CALL_EPILOGUE: &'static str = ".Lccc_call_riscv_gp_inputs_done:\n\
         jalr t0\n\
         sd a0, 240(s1)\n\
         sd a1, 248(s1)\n\
         fsd fa0, 256(s1)\n\
         fsd fa1, 272(s1)\n\
         fsd fa2, 288(s1)\n\
         fsd fa3, 304(s1)\n\
         addi sp, s0, -32\n\
         .cfi_def_cfa sp, 32\n\
         ld s2, 0(sp)\n\
         .cfi_restore s2\n\
         ld s1, 8(sp)\n\
         .cfi_restore s1\n\
         ld s0, 16(sp)\n\
         .cfi_restore s0\n\
         ld ra, 24(sp)\n\
         .cfi_restore ra\n\
         addi sp, sp, 32\n\
         .cfi_def_cfa sp, 0\n\
         ret\n";

pub const F80_DISPATCH: &'static str = "movl 0(%rdi), %eax\n\
         movq 8(%rdi), %r8\n\
         movq 16(%rdi), %r9\n\
         movq 24(%rdi), %r10\n\
         cmpl $1, %eax\n\
         je .Lccc_f80_add\n\
         cmpl $2, %eax\n\
         je .Lccc_f80_sub\n\
         cmpl $3, %eax\n\
         je .Lccc_f80_mul\n\
         cmpl $4, %eax\n\
         je .Lccc_f80_div\n\
         cmpl $5, %eax\n\
         je .Lccc_f80_cmp\n\
         cmpl $6, %eax\n\
         je .Lccc_f80_neg\n\
         cmpl $7, %eax\n\
         je .Lccc_f80_from_i64\n\
         cmpl $8, %eax\n\
         je .Lccc_f80_from_u64\n\
         cmpl $9, %eax\n\
         je .Lccc_f80_from_f32\n\
         cmpl $10, %eax\n\
         je .Lccc_f80_from_f64\n\
         cmpl $11, %eax\n\
         je .Lccc_f80_to_i64\n\
         cmpl $12, %eax\n\
         je .Lccc_f80_to_u64\n\
         cmpl $13, %eax\n\
         je .Lccc_f80_to_f32\n\
         cmpl $14, %eax\n\
         je .Lccc_f80_to_f64\n\
         cmpl $15, %eax\n\
         je .Lccc_f80_copy_x87\n\
         cmpl $16, %eax\n\
         je .Lccc_f80_copy_x87\n\
         cmpl $21, %eax\n\
         je .Lccc_f80_cmp_signaling\n\
";

pub const F80_DISPATCH_FROM_I128: &'static str = "cmpl $17, %eax\nje .Lccc_f80_from_i128\n";

pub const F80_DISPATCH_FROM_U128: &'static str = "cmpl $18, %eax\nje .Lccc_f80_from_u128\n";

pub const F80_DISPATCH_TO_I128: &'static str = "cmpl $19, %eax\nje .Lccc_f80_to_i128\n";

pub const F80_DISPATCH_TO_U128: &'static str = "cmpl $20, %eax\nje .Lccc_f80_to_u128\n";

pub const F80_OPERATIONS: &'static str = "ud2\n\
         .Lccc_f80_add:\n\
         fldt (%r9)\n\
         fldt (%r10)\n\
         faddp %st, %st(1)\n\
         fstpt (%r8)\n\
         ret\n\
         .Lccc_f80_sub:\n\
         fldt (%r9)\n\
         fldt (%r10)\n\
         fsubrp %st, %st(1)\n\
         fstpt (%r8)\n\
         ret\n\
         .Lccc_f80_mul:\n\
         fldt (%r9)\n\
         fldt (%r10)\n\
         fmulp %st, %st(1)\n\
         fstpt (%r8)\n\
         ret\n\
         .Lccc_f80_div:\n\
         fldt (%r9)\n\
         fldt (%r10)\n\
         fdivrp %st, %st(1)\n\
         fstpt (%r8)\n\
         ret\n\
         .Lccc_f80_cmp:\n\
         fldt (%r10)\n\
         fldt (%r9)\n\
         fucomip %st(1), %st\n\
         fstp %st(0)\n\
         jmp .Lccc_f80_cmp_flags\n\
         .Lccc_f80_cmp_signaling:\n\
         fldt (%r10)\n\
         fldt (%r9)\n\
         fcomip %st(1), %st\n\
         fstp %st(0)\n\
         .Lccc_f80_cmp_flags:\n\
         jp .Lccc_f80_cmp_unordered\n\
         je .Lccc_f80_cmp_equal\n\
         jb .Lccc_f80_cmp_less\n\
         movl $1, (%r8)\n\
         ret\n\
         .Lccc_f80_cmp_less:\n\
         movl $-1, (%r8)\n\
         ret\n\
         .Lccc_f80_cmp_equal:\n\
         movl $0, (%r8)\n\
         ret\n\
         .Lccc_f80_cmp_unordered:\n\
         movl $2, (%r8)\n\
         ret\n\
         .Lccc_f80_neg:\n\
         movq 0(%r9), %rax\n\
         movq %rax, 0(%r8)\n\
         movzwl 8(%r9), %eax\n\
         xorl $32768, %eax\n\
         movw %ax, 8(%r8)\n\
         ret\n\
         .Lccc_f80_from_i64:\n\
         fildq (%r9)\n\
         fstpt (%r8)\n\
         ret\n\
         .Lccc_f80_from_u64:\n\
         movq (%r9), %rax\n\
         testq %rax, %rax\n\
         js .Lccc_f80_from_u64_high\n\
         fildq (%r9)\n\
         fstpt (%r8)\n\
         ret\n\
         .Lccc_f80_from_u64_high:\n\
         movq %rax, %rcx\n\
         andl $1, %ecx\n\
         shrq $1, %rax\n\
         movq %rax, -8(%rsp)\n\
         fildq -8(%rsp)\n\
         fildq -8(%rsp)\n\
         faddp %st, %st(1)\n\
         testl %ecx, %ecx\n\
         jz .Lccc_f80_from_u64_store\n\
         fld1\n\
         faddp %st, %st(1)\n\
         .Lccc_f80_from_u64_store:\n\
         fstpt (%r8)\n\
         ret\n\
         .Lccc_f80_from_f32:\n\
         flds (%r9)\n\
         fstpt (%r8)\n\
         ret\n\
         .Lccc_f80_from_f64:\n\
         fldl (%r9)\n\
         fstpt (%r8)\n\
         ret\n\
         .Lccc_f80_to_i64:\n\
         subq $16, %rsp\n\
         fnstcw 8(%rsp)\n\
         movzwl 8(%rsp), %eax\n\
         andl $62463, %eax\n\
         orl $3072, %eax\n\
         movw %ax, 10(%rsp)\n\
         fldcw 10(%rsp)\n\
         fldt (%r9)\n\
         fistpq (%r8)\n\
         fldcw 8(%rsp)\n\
         addq $16, %rsp\n\
         ret\n\
         .Lccc_f80_to_u64:\n\
         subq $16, %rsp\n\
         fnstcw 8(%rsp)\n\
         movzwl 8(%rsp), %eax\n\
         andl $62463, %eax\n\
         orl $3072, %eax\n\
         movw %ax, 10(%rsp)\n\
         fldcw 10(%rsp)\n\
         fldt (%r9)\n\
         fldt .Lccc_f80_two63(%rip)\n\
         fucomip %st(1), %st\n\
         jbe .Lccc_f80_to_u64_high\n\
         fistpq (%r8)\n\
         jmp .Lccc_f80_to_u64_done\n\
         .Lccc_f80_to_u64_high:\n\
         fldt .Lccc_f80_two63(%rip)\n\
         fsubrp %st, %st(1)\n\
         fistpq (%r8)\n\
         btcq $63, (%r8)\n\
         .Lccc_f80_to_u64_done:\n\
         fldcw 8(%rsp)\n\
         addq $16, %rsp\n\
         ret\n\
         .Lccc_f80_to_f32:\n\
         fldt (%r9)\n\
         fstps (%r8)\n\
         ret\n\
         .Lccc_f80_to_f64:\n\
         fldt (%r9)\n\
         fstpl (%r8)\n\
         ret\n\
         .Lccc_f80_copy_x87:\n\
         fldt (%r9)\n\
         fstpt (%r8)\n\
         ret\n\
";

pub const F80_FROM_I128: &'static str = ".Lccc_f80_from_i128:\n\
             pushq %r12\n\
             .cfi_def_cfa_offset 16\n\
             .cfi_offset %r12, -16\n\
             movq %r8, %r12\n\
             movq 0(%r9), %rdi\n\
             movq 8(%r9), %rsi\n\
             call __floattixf@PLT\n\
             fstpt (%r12)\n\
             popq %r12\n\
             .cfi_def_cfa_offset 8\n\
             .cfi_restore %r12\n\
             ret\n";

pub const F80_FROM_U128: &'static str = ".Lccc_f80_from_u128:\n\
             pushq %r12\n\
             .cfi_def_cfa_offset 16\n\
             .cfi_offset %r12, -16\n\
             movq %r8, %r12\n\
             movq 0(%r9), %rdi\n\
             movq 8(%r9), %rsi\n\
             call __floatuntixf@PLT\n\
             fstpt (%r12)\n\
             popq %r12\n\
             .cfi_def_cfa_offset 8\n\
             .cfi_restore %r12\n\
             ret\n";

pub const F80_CONSTANTS: &'static str = ".pushsection .rodata\n\
         .p2align 4\n\
         .Lccc_f80_two63:\n\
         .quad 0x8000000000000000\n\
         .word 0x403e\n\
         .zero 6\n\
         .popsection\n";

pub const CPUID_BODY: &'static str = "pushq %rbx\n\
             .cfi_def_cfa_offset 16\n\
             .cfi_offset %rbx, -16\n\
             movq %rdx, %r10\n\
             movq %rcx, %r11\n\
             movl %edi, %eax\n\
             movl %esi, %ecx\n\
             cpuid\n\
             testq %r10, %r10\n\
             je 1f\n\
             movl %eax, (%r10)\n\
             1:\n\
             testq %r11, %r11\n\
             je 2f\n\
             movl %ebx, (%r11)\n\
             2:\n\
             testq %r8, %r8\n\
             je 3f\n\
             movl %ecx, (%r8)\n\
             3:\n\
             testq %r9, %r9\n\
             je 4f\n\
             movl %edx, (%r9)\n\
             4:\n\
             popq %rbx\n\
             .cfi_def_cfa_offset 8\n\
             .cfi_restore %rbx\n\
             ret\n";

pub const RDTSC_BODY: &'static str = "rdtsc\nmovl %eax, (%rdi)\nmovl %edx, (%rsi)\nret\n";

pub const F80_TO_WIDE_START: &'static str = ":\n\
         pushq %r12\n\
         .cfi_def_cfa_offset 16\n\
         .cfi_offset %r12, -16\n\
         movq %r8, %r12\n\
         subq $16, %rsp\n\
         .cfi_def_cfa_offset 32\n\
         movq 0(%r9), %rax\n\
         movq 8(%r9), %rdx\n\
         movq %rax, 0(%rsp)\n\
         movq %rdx, 8(%rsp)\n\
         call ";

pub const F80_TO_WIDE_END: &'static str = "@PLT\n\
         addq $16, %rsp\n\
         .cfi_def_cfa_offset 16\n\
         movq %rax, 0(%r12)\n\
         movq %rdx, 8(%r12)\n\
         popq %r12\n\
         .cfi_def_cfa_offset 8\n\
         .cfi_restore %r12\n\
         ret\n";

pub const X86_TLS_FRAME_OPEN: &'static str = "subq $8, %rsp\n.cfi_def_cfa_offset 16\n";

pub const X86_TLS_GD_CALL: &'static str = ".value 0x6666\nrex64\ncall __tls_get_addr@PLT\n";

pub const X86_TLS_FRAME_CLOSE: &'static str = "addq $8, %rsp\n.cfi_def_cfa_offset 8\nret\n";

pub const X86_TLS_LD_CALL: &'static str = "call __tls_get_addr@PLT\n";

pub const X86_TLS_THREAD_POINTER: &'static str = "movq %fs:0, %rax\n";

pub const ARM64_TLS_FRAME_OPEN: &'static str = "stp x29, x30, [sp, #-16]!\n\
                 .cfi_def_cfa_offset 16\n\
                 mov x29, sp\n\
                 .cfi_def_cfa w29, 16\n\
                 .cfi_offset w30, -8\n\
                 .cfi_offset w29, -16\n";

pub const ARM64_TLS_DESCRIPTOR_CALL: &'static str = "blr x1\n\
                 mrs x8, TPIDR_EL0\n\
                 add x0, x8, x0\n\
                 .cfi_def_cfa wsp, 16\n\
                 ldp x29, x30, [sp], #16\n\
                 .cfi_def_cfa_offset 0\n\
                 .cfi_restore w30\n\
                 .cfi_restore w29\n\
                 ret\n";

pub const ARM64_TLS_IE_ADD: &'static str = "mrs x8, TPIDR_EL0\nadd x0, x8, x9\nret\n";

pub const ARM64_TLS_THREAD_POINTER: &'static str = "mrs x8, TPIDR_EL0\n";

pub const RISCV_TLS_FRAME_OPEN: &'static str = "addi sp, sp, -16\n\
                 .cfi_def_cfa_offset 16\n\
                 sd ra, 8(sp)\n\
                 .cfi_offset ra, -8\n\
                 .Lccc_tls_dynamic:\n";

pub const RISCV_TLS_GD_CALL: &'static str = "addi a0, a0, %pcrel_lo(.Lccc_tls_dynamic)\ncall __tls_get_addr\n";

pub const RISCV_TLS_FRAME_CLOSE: &'static str = "ld ra, 8(sp)\n\
                 .cfi_restore ra\n\
                 addi sp, sp, 16\n\
                 .cfi_def_cfa_offset 0\n\
                 ret\n";

pub const RISCV_TLS_IE_LABEL: &'static str = ".Lccc_tls_initial_exec:\n";

pub const RISCV_TLS_IE_LOAD: &'static str = "ld a0, %pcrel_lo(.Lccc_tls_initial_exec)(a0)\n\
                 add a0, a0, tp\n\
                 ret\n";

pub const DARWIN_TLS_FRAME_OPEN: &'static str = "stp x29, x30, [sp, #-16]!\n\
         .cfi_def_cfa_offset 16\n\
         mov x29, sp\n\
         .cfi_def_cfa w29, 16\n\
         .cfi_offset w30, -8\n\
         .cfi_offset w29, -16\n";

pub const DARWIN_TLS_CALL: &'static str = "ldr x8, [x0]\n\
         blr x8\n\
         .cfi_def_cfa wsp, 16\n\
         ldp x29, x30, [sp], #16\n\
         .cfi_def_cfa_offset 0\n\
         .cfi_restore w30\n\
         .cfi_restore w29\n\
         ret\n";

pub const X86_ENTRY_PROLOGUE: &'static str = "pushq %rbp\n\
         .cfi_def_cfa_offset 16\n\
         .cfi_offset %rbp, -16\n\
         movq %rsp, %rbp\n\
         .cfi_def_cfa_register %rbp\n";

pub const X86_ENTRY_CLAMP: &'static str = "cmpb $8, %r11b\njbe 0f\nmovb $8, %r11b\n0:\n";

pub const X86_ENTRY_HEADER_FIELDS: &'static str = "movw $1, 4(%rsp)\nmovw $208, 6(%rsp)\n";

pub const X86_ENTRY_AREA_POINTERS: &'static str = "movq %r10, 16(%rsp)\nleaq 32(%rsp), %r10\nmovq %r10, 24(%rsp)\n";

pub const X86_ENTRY_RESULT_CLEAR: &'static str = "xorq %r11, %r11\n\
         movq %r11, 208(%rsp)\n\
         movq %r11, 216(%rsp)\n\
         movq %r11, 224(%rsp)\n\
         movq %r11, 232(%rsp)\n\
         movq %r11, 240(%rsp)\n\
         movq %r11, 248(%rsp)\n\
         movq %r11, 256(%rsp)\n\
         movq %r11, 264(%rsp)\n\
         movq %rsp, %rdi\n";

pub const ARM64_ENTRY_PROLOGUE: &'static str = "stp x29, x30, [sp, #-16]!\n\
         .cfi_def_cfa_offset 16\n\
         .cfi_offset x29, -16\n\
         .cfi_offset x30, -8\n\
         mov x29, sp\n\
         .cfi_def_cfa_register x29\n\
         sub sp, sp, #320\n\
         stp x0, x1, [sp, #48]\n\
         stp x2, x3, [sp, #64]\n\
         stp x4, x5, [sp, #80]\n\
         stp x6, x7, [sp, #96]\n\
         str q0, [sp, #112]\n\
         str q1, [sp, #128]\n\
         str q2, [sp, #144]\n\
         str q3, [sp, #160]\n\
         str q4, [sp, #176]\n\
         str q5, [sp, #192]\n\
         str q6, [sp, #208]\n\
         str q7, [sp, #224]\n\
         str x8, [sp, #40]\n";

pub const ARM64_ENTRY_MAGIC: &'static str = "mov w9, #0x4343\n\
         movk w9, #0x4156, lsl #16\n\
         str w9, [sp]\n\
         mov w9, #2\n\
         strh w9, [sp, #4]\n";

pub const ARM64_ENTRY_AREA_POINTERS: &'static str = "str x9, [sp, #8]\nadd x9, sp, #112\nstr x9, [sp, #16]\nadd x9, sp, #240\nstr x9, [sp, #24]\n";

pub const ARM64_ENTRY_RESULT_CLEAR: &'static str = "stp xzr, xzr, [sp, #240]\n\
         movi v31.2d, #0\n\
         str q31, [sp, #256]\n\
         str q31, [sp, #272]\n\
         str q31, [sp, #288]\n\
         str q31, [sp, #304]\n\
         mov x0, sp\n";

pub const ARM64_ENTRY_EPILOGUE: &'static str = "mov sp, x29\n\
         .cfi_def_cfa sp, 16\n\
         ldp x29, x30, [sp], #16\n\
         .cfi_restore x29\n\
         .cfi_restore x30\n\
         .cfi_def_cfa sp, 0\n\
         ret\n";

pub const RISCV_ENTRY_PROLOGUE: &'static str = "addi sp, sp, -512\n\
         .cfi_def_cfa_offset 512\n\
         sd s0, 416(sp)\n\
         .cfi_offset s0, -96\n\
         sd ra, 424(sp)\n\
         .cfi_offset ra, -88\n\
         addi s0, sp, 512\n\
         sd a0, 448(sp)\n\
         sd a1, 456(sp)\n\
         sd a2, 464(sp)\n\
         sd a3, 472(sp)\n\
         sd a4, 480(sp)\n\
         sd a5, 488(sp)\n\
         sd a6, 496(sp)\n\
         sd a7, 504(sp)\n\
         fsd fa0, 112(sp)\n\
         fsd fa1, 128(sp)\n\
         fsd fa2, 144(sp)\n\
         fsd fa3, 160(sp)\n\
         fsd fa4, 176(sp)\n\
         fsd fa5, 192(sp)\n\
         fsd fa6, 208(sp)\n\
         fsd fa7, 224(sp)\n";

pub const RISCV_ENTRY_VERSION: &'static str = "li t0, 2\nsh t0, 4(sp)\n";

pub const RISCV_ENTRY_RESULT_CLEAR: &'static str = "sd t0, 8(sp)\n\
         sd zero, 240(sp)\n\
         sd zero, 248(sp)\n\
         sd zero, 256(sp)\n\
         sd zero, 264(sp)\n\
         sd zero, 272(sp)\n\
         sd zero, 280(sp)\n\
         sd zero, 288(sp)\n\
         sd zero, 296(sp)\n\
         sd zero, 304(sp)\n\
         sd zero, 312(sp)\n\
         li t0, -1\n\
         sw t0, 260(sp)\n\
         sw t0, 276(sp)\n\
         sw t0, 292(sp)\n\
         sw t0, 308(sp)\n\
         mv a0, sp\n";

pub const RISCV_ENTRY_EPILOGUE: &'static str = "ld s0, 416(sp)\n\
         ld ra, 424(sp)\n\
         addi sp, sp, 512\n\
         .cfi_def_cfa_offset 0\n\
         ret\n";

/* Assembly units as plain values */

/// The logical location of a line of generated assembly.
pub open spec fn location_view(location: LogicalDebugLocation) -> (Seq<char>, u32) {
    (location.logical_file@, location.line)
}

/// An assembly unit as plain values: stem, source, defined symbols and
/// logical locations; or the message of the failure that prevented it.
pub open spec fn assembly_outcome(result: Result<GeneratedAssembly, LinkError>) -> Result<
    (Seq<char>, Seq<char>, Seq<Seq<char>>, Seq<(Seq<char>, u32)>),
    Seq<char>,
> {
    match result {
        Ok(assembly) => Ok(
            (
                assembly.stem_view(),
                assembly.source_view(),
                assembly.symbols_view(),
                assembly.locations_view().map_values(
                    |location: LogicalDebugLocation| location_view(location),
                ),
            ),
        ),
        Err(error) => Err(error.message@),
    }
}

/// Generated-bridge locations at `lines`.
pub open spec fn generated_lines(lines: Seq<u32>) -> Seq<(Seq<char>, u32)> {
    lines.map_values(|line: u32| ("<ccc-generated-bridge>"@, line))
}

/// The unit that `GeneratedAssembly::new` builds from these parts.
pub open spec fn built_unit(
    stem: Seq<char>,
    source: Seq<char>,
    symbols: Seq<Seq<char>>,
    lines: Seq<u32>,
) -> Result<(Seq<char>, Seq<char>, Seq<Seq<char>>, Seq<(Seq<char>, u32)>), Seq<char>> {
    match assembly_check(stem, source, symbols) {
        Ok(()) => Ok((stem, source, symbols, generated_lines(lines))),
        Err(message) => Err(message),
    }
}

/// Builds a unit that defines `symbol` at generated line `line`.
fn single_symbol_unit(stem: &str, source: Vec<char>, symbol: &str, line: u32) -> (result: Result<
    GeneratedAssembly,
    LinkError,
>)
    ensures
        assembly_outcome(result) == built_unit(stem@, source@, seq![symbol@], seq![line]),
        result matches Err(error) ==> error.code@ == artifact_code(),
{
    let text = string_from_chars(source.as_slice());
    let symbols = vec![symbol.to_owned()];
    let locations = vec![LogicalDebugLocation::generated(line)];
    assert(string_views(symbols@) =~= seq![symbol@]);
    let result = GeneratedAssembly::new(stem, text.as_str(), symbols, locations);
    proof {
        if result is Ok {
            assert(result->Ok_0.locations_view().map_values(
                |location: LogicalDebugLocation| location_view(location),
            ) =~= generated_lines(seq![line]));
        }
    }
    result
}

/* Function framing */

/// How a generated function is bound.
#[derive(Clone, Copy, Debug, PartialEq, Eq, Structural)]
pub enum AssemblyFunctionLinkage {
    ExternalDefault,
    ExternalHidden,
    ExternalProtected,
    ExternalInternal,
    Internal,
}

/// The line that makes `symbol` global (or weak).
pub open spec fn binding_line(symbol: Seq<char>, weak: bool) -> Seq<char> {
    (if weak {
        ".weak "@
    } else {
        ".globl "@
    }) + symbol + "\n"@
}

/// The binding and visibility lines of an ELF function.
pub open spec fn elf_binding_text(symbol: Seq<char>, linkage: AssemblyFunctionLinkage, weak: bool) -> Seq<char> {
    match linkage {
        AssemblyFunctionLinkage::ExternalDefault => binding_line(symbol, weak),
        AssemblyFunctionLinkage::ExternalHidden => binding_line(symbol, weak) + ".hidden "@ + symbol
            + "\n"@,
        AssemblyFunctionLinkage::ExternalProtected => binding_line(symbol, weak) + ".protected "@
            + symbol + "\n"@,
        AssemblyFunctionLinkage::ExternalInternal => binding_line(symbol, weak) + ".internal "@
            + symbol + "\n"@,
        AssemblyFunctionLinkage::Internal => ".globl "@ + symbol + "\n"@ + ".hidden "@ + symbol
            + "\n"@,
    }
}

/// The start of an x86-64 ELF function.
pub open spec fn header_text(symbol: Seq<char>, linkage: AssemblyFunctionLinkage, weak: bool) -> Seq<char> {
    ".p2align 4\n"@ + elf_binding_text(symbol, linkage, weak) + ".type "@ + symbol
        + ", @function\n"@ + symbol + ":\n"@ + ".cfi_startproc\n"@
}

/// The end of an x86-64 ELF function.
pub open spec fn footer_text(symbol: Seq<char>) -> Seq<char> {
    ".cfi_endproc\n"@ + ".size "@ + symbol + ", .-"@ + symbol + "\n"@
        + ".section .note.GNU-stack,\"\",@progbits\n"@
}

fn push_binding(output: &mut Vec<char>, symbol: &str, weak: bool)
    ensures
        final(output)@ == old(output)@ + binding_line(symbol@, weak),
{
    if weak {
        push_str(output, ".weak ");
    } else {
        push_str(output, ".globl ");
    }
    push_str(output, symbol);
    push_str(output, "\n");
}

fn push_line(output: &mut Vec<char>, directive: &str, symbol: &str)
    ensures
        final(output)@ == old(output)@ + directive@ + symbol@ + "\n"@,
{
    push_str(output, directive);
    push_str(output, symbol);
    push_str(output, "\n");
}

fn push_elf_binding(output: &mut Vec<char>, symbol: &str, linkage: AssemblyFunctionLinkage, weak: bool)
    ensures
        final(output)@ == old(output)@ + elf_binding_text(symbol@, linkage, weak),
{
    match linkage {
        AssemblyFunctionLinkage::ExternalDefault => {
            push_binding(output, symbol, weak);
        },
        AssemblyFunctionLinkage::ExternalHidden => {
            push_binding(output, symbol, weak);
            push_line(output, ".hidden ", symbol);
        },
        AssemblyFunctionLinkage::ExternalProtected => {
            push_binding(output, symbol, weak);
            push_line(output, ".protected ", symbol);
        },
        AssemblyFunctionLinkage::ExternalInternal => {
            push_binding(output, symbol, weak);
            push_line(output, ".internal ", symbol);
        },
        AssemblyFunctionLinkage::Internal => {
            push_line(output, ".globl ", symbol);
            push_line(output, ".hidden ", symbol);
        },
    }
}

fn function_header(output: &mut Vec<char>, symbol: &str, linkage: AssemblyFunctionLinkage, weak: bool)
    ensures
        final(output)@ == old(output)@ + header_text(symbol@, linkage, weak),
{
    push_str(output, ".p2align 4\n");
    push_elf_binding(output, symbol, linkage, weak);
    push_str(output, ".type ");
    push_str(output, symbol);
    push_str(output, ", @function\n");
    push_str(output, symbol);
    push_str(output, ":\n");
    push_str(output, ".cfi_startproc\n");
}

fn function_footer(output: &mut Vec<char>, symbol: &str)
    ensures
        final(output)@ == old(output)@ + footer_text(symbol@),
{
    push_str(output, ".cfi_endproc\n");
    push_str(output, ".size ");
    push_str(output, symbol);
    push_str(output, ", .-");
    push_str(output, symbol);
    push_str(output, "\n");
    push_str(output, ".section .note.GNU-stack,\"\",@progbits\n");
}

/// The assembly spelling of a C symbol: Darwin prefixes `_` unless the name
/// is already exact.
pub open spec fn target_symbol_text(symbol: Seq<char>, abi: AbiIdentity, exact: bool) -> Seq<char> {
    if abi == AbiIdentity::DarwinArm64 && !exact {
        "_"@ + symbol
    } else {
        symbol
    }
}

pub fn target_symbol_with_exactness(symbol: &str, abi: AbiIdentity, exact: bool) -> (result: String)
    ensures
        result@ == target_symbol_text(symbol@, abi, exact),
{
    if abi == AbiIdentity::DarwinArm64 && !exact {
        crate::text::concat2("_", symbol)
    } else {
        symbol.to_owned()
    }
}

/// The binding, visibility and type lines of a function for the target
/// ABI, for its assembly spelling `a`.
/// The symbol binding lines of a Darwin function.
pub open spec fn darwin_binding_text(
    a: Seq<char>,
    linkage: AssemblyFunctionLinkage,
    weak: bool,
) -> Seq<char> {
    ".globl "@ + a + "\n"@ + (if weak {
        ".weak_definition "@ + a + "\n"@
    } else {
        Seq::empty()
    }) + (if linkage != AssemblyFunctionLinkage::ExternalDefault {
        ".private_extern "@ + a + "\n"@
    } else {
        Seq::empty()
    })
}

/// The symbol binding and visibility lines of an ELF function.
pub open spec fn elf_visibility_lines(
    a: Seq<char>,
    linkage: AssemblyFunctionLinkage,
    weak: bool,
) -> Seq<char> {
    match linkage {
        AssemblyFunctionLinkage::ExternalDefault => binding_line(a, weak),
        AssemblyFunctionLinkage::ExternalHidden | AssemblyFunctionLinkage::Internal =>
            binding_line(a, weak) + ".hidden "@ + a + "\n"@,
        AssemblyFunctionLinkage::ExternalProtected => binding_line(a, weak) + ".protected "@ + a
            + "\n"@,
        AssemblyFunctionLinkage::ExternalInternal => binding_line(a, weak) + ".internal "@ + a
            + "\n"@,
    }
}

/// The symbol binding lines of a function for the target ABI.
pub open spec fn target_binding_text(
    a: Seq<char>,
    linkage: AssemblyFunctionLinkage,
    weak: bool,
    abi: AbiIdentity,
) -> Seq<char> {
    if abi == AbiIdentity::DarwinArm64 {
        darwin_binding_text(a, linkage, weak)
    } else {
        elf_visibility_lines(a, linkage, weak) + ".type "@ + a + ", @function\n"@
    }
}

/// The start of a function for the target ABI.
pub open spec fn target_header_text(
    symbol: Seq<char>,
    exact: bool,
    linkage: AssemblyFunctionLinkage,
    weak: bool,
    abi: AbiIdentity,
) -> Seq<char> {
    let a = target_symbol_text(symbol, abi, exact);
    ".text\n.p2align 2\n"@ + target_binding_text(a, linkage, weak, abi) + a + ":\n"@
        + ".cfi_startproc\n"@
}

/// The end of a function for the target ABI.
pub open spec fn target_footer_text(symbol: Seq<char>, exact: bool, abi: AbiIdentity) -> Seq<char> {
    let a = target_symbol_text(symbol, abi, exact);
    ".cfi_endproc\n"@ + if abi == AbiIdentity::DarwinArm64 {
        ".subsections_via_symbols\n"@
    } else {
        ".size "@ + a + ", .-"@ + a + "\n"@ + ".section .note.GNU-stack,\"\",@progbits\n"@
    }
}

fn push_darwin_binding(
    output: &mut Vec<char>,
    a: &str,
    linkage: AssemblyFunctionLinkage,
    weak: bool,
)
    ensures
        final(output)@ == old(output)@ + darwin_binding_text(a@, linkage, weak),
{
    let ghost start = output@;
    push_line(output, ".globl ", a);
    let ghost mid = output@;
    if weak {
        push_line(output, ".weak_definition ", a);
    } else {
        assert(output@ =~= mid + Seq::<char>::empty());
    }
    let ghost mid2 = output@;
    if linkage != AssemblyFunctionLinkage::ExternalDefault {
        push_line(output, ".private_extern ", a);
    } else {
        assert(output@ =~= mid2 + Seq::<char>::empty());
    }
    assert(output@ =~= start + darwin_binding_text(a@, linkage, weak));
}

fn push_elf_visibility(
    output: &mut Vec<char>,
    a: &str,
    linkage: AssemblyFunctionLinkage,
    weak: bool,
)
    ensures
        final(output)@ == old(output)@ + elf_visibility_lines(a@, linkage, weak),
{
    let ghost start = output@;
    push_binding(output, a, weak);
    match linkage {
        AssemblyFunctionLinkage::ExternalDefault => {
            assert(output@ =~= start + elf_visibility_lines(a@, linkage, weak));
        },
        AssemblyFunctionLinkage::ExternalHidden | AssemblyFunctionLinkage::Internal => {
            push_line(output, ".hidden ", a);
            assert(output@ =~= start + elf_visibility_lines(a@, linkage, weak));
        },
        AssemblyFunctionLinkage::ExternalProtected => {
            push_line(output, ".protected ", a);
            assert(output@ =~= start + elf_visibility_lines(a@, linkage, weak));
        },
        AssemblyFunctionLinkage::ExternalInternal => {
            push_line(output, ".internal ", a);
            assert(output@ =~= start + elf_visibility_lines(a@, linkage, weak));
        },
    }
}

fn push_target_binding(
    output: &mut Vec<char>,
    a: &str,
    linkage: AssemblyFunctionLinkage,
    weak: bool,
    abi: AbiIdentity,
)
    ensures
        final(output)@ == old(output)@ + target_binding_text(a@, linkage, weak, abi),
{
    let ghost start = output@;
    if abi == AbiIdentity::DarwinArm64 {
        push_darwin_binding(output, a, linkage, weak);
    } else {
        push_elf_visibility(output, a, linkage, weak);
        push_str(output, ".type ");
        push_str(output, a);
        push_str(output, ", @function\n");
        assert(output@ =~= start + target_binding_text(a@, linkage, weak, abi));
    }
}

fn target_function_header(
    output: &mut Vec<char>,
    symbol: &str,
    exact: bool,
    linkage: AssemblyFunctionLinkage,
    weak: bool,
    abi: AbiIdentity,
)
    ensures
        final(output)@ == old(output)@ + target_header_text(symbol@, exact, linkage, weak, abi),
{
    let ghost start = output@;
    push_str(output, ".text\n.p2align 2\n");
    let assembly_symbol = target_symbol_with_exactness(symbol, abi, exact);
    let a = assembly_symbol.as_str();
    push_target_binding(output, a, linkage, weak, abi);
    push_str(output, a);
    push_str(output, ":\n");
    push_str(output, ".cfi_startproc\n");
    assert(output@ =~= start + target_header_text(symbol@, exact, linkage, weak, abi));
}

fn target_function_footer(output: &mut Vec<char>, symbol: &str, exact: bool, abi: AbiIdentity)
    ensures
        final(output)@ == old(output)@ + target_footer_text(symbol@, exact, abi),
{
    let ghost start = output@;
    push_str(output, ".cfi_endproc\n");
    let assembly_symbol = target_symbol_with_exactness(symbol, abi, exact);
    let a = assembly_symbol.as_str();
    if abi == AbiIdentity::DarwinArm64 {
        push_str(output, ".subsections_via_symbols\n");
    } else {
        push_str(output, ".size ");
        push_str(output, a);
        push_str(output, ", .-");
        push_str(output, a);
        push_str(output, "\n");
        push_str(output, ".section .note.GNU-stack,\"\",@progbits\n");
    }
    assert(output@ =~= start + target_footer_text(symbol@, exact, abi));
}

/* The x86-64 call helper */

/// The guarded loads of the first `n` SSE argument registers.
pub open spec fn x86_xmm_loads(n: nat) -> Seq<char>
    decreases n,
{
    if n == 0 {
        Seq::empty()
    } else {
        let i = (n - 1) as nat;
        x86_xmm_loads(i) + "cmpb $"@ + decimal(i) + ", %r10b\njbe .Lccc_call_xmm_inputs_done\nmovdqu "@
            + decimal(80 + i * 16) + "(%r12), %xmm"@ + decimal(i) + "\n"@
    }
}

/// The integer argument registers, in order.
pub open spec fn x86_argument_registers() -> Seq<Seq<char>> {
    seq!["%rdi"@, "%rsi"@, "%rdx"@, "%rcx"@, "%r8"@, "%r9"@]
}

/// The guarded loads of the first `n` integer argument registers.
pub open spec fn x86_gp_loads(n: nat) -> Seq<char>
    decreases n,
{
    if n == 0 {
        Seq::empty()
    } else {
        let i = (n - 1) as nat;
        x86_gp_loads(i) + "cmpb $"@ + decimal(i) + ", %r10b\njbe .Lccc_call_gp_inputs_done\nmovq "@
            + decimal(32 + i * 8) + "(%r12), "@ + x86_argument_registers()[i as int] + "\n"@
    }
}

/// The x86-64 call helper that replays a bridge frame.
pub open spec fn x86_call_helper_text(symbol: Seq<char>) -> Seq<char> {
    ".text\n"@ + header_text(symbol, AssemblyFunctionLinkage::ExternalHidden, false)
        + CALL_HELPER_PROLOGUE@ + "movzbl 25(%r12), %r10d\n"@ + x86_xmm_loads(8)
        + CALL_HELPER_XMM_DONE@ + x86_gp_loads(6) + CALL_HELPER_EPILOGUE@ + footer_text(symbol)
}

/// The unit a renderer makes for `symbol` when its text is `text`: the
/// symbol must be valid first.
pub open spec fn helper_unit(
    symbol: Seq<char>,
    stem: Seq<char>,
    text: Seq<char>,
    line: u32,
) -> Result<(Seq<char>, Seq<char>, Seq<Seq<char>>, Seq<(Seq<char>, u32)>), Seq<char>> {
    match symbol_check(symbol) {
        Err(message) => Err(message),
        Ok(()) => built_unit(stem, text, seq![symbol], seq![line]),
    }
}

/// Renders the translation-unit call helper used by ABI bridge frames.
pub fn render_generic_call_helper(symbol: &str) -> (result: Result<GeneratedAssembly, LinkError>)
    ensures
        assembly_outcome(result) == helper_unit(
            symbol@,
            "call-helper"@,
            x86_call_helper_text(symbol@),
            1,
        ),
        result matches Err(error) ==> error.code@ == artifact_code(),
{
    validate_symbol(symbol)?;
    let mut source: Vec<char> = Vec::new();
    push_str(&mut source, ".text\n");
    function_header(&mut source, symbol, AssemblyFunctionLinkage::ExternalHidden, false);
    push_str(&mut source, CALL_HELPER_PROLOGUE);
    push_str(&mut source, "movzbl 25(%r12), %r10d\n");
    let ghost before_xmm = source@;
    let mut index: u64 = 0;
    while index < 8
        invariant
            index <= 8,
            source@ == before_xmm + x86_xmm_loads(index as nat),
        decreases 8 - index,
    {
        let ghost step = source@;
        push_str(&mut source, "cmpb $");
        push_decimal(&mut source, index);
        push_str(&mut source, ", %r10b\njbe .Lccc_call_xmm_inputs_done\nmovdqu ");
        push_decimal(&mut source, 80 + index * 16);
        push_str(&mut source, "(%r12), %xmm");
        push_decimal(&mut source, index);
        push_str(&mut source, "\n");
        index = index + 1;
        assert(source@ =~= before_xmm + x86_xmm_loads(index as nat));
    }
    push_str(&mut source, CALL_HELPER_XMM_DONE);
    let registers: [&str; 6] = ["%rdi", "%rsi", "%rdx", "%rcx", "%r8", "%r9"];
    assert(registers@.map_values(|r: &str| r@) =~= x86_argument_registers());
    let ghost before_gp = source@;
    let mut index: usize = 0;
    while index < 6
        invariant
            index <= 6,
            registers@.map_values(|r: &str| r@) == x86_argument_registers(),
            source@ == before_gp + x86_gp_loads(index as nat),
        decreases 6 - index,
    {
        push_str(&mut source, "cmpb $");
        push_decimal(&mut source, index as u64);
        push_str(&mut source, ", %r10b\njbe .Lccc_call_gp_inputs_done\nmovq ");
        push_decimal(&mut source, 32 + (index as u64) * 8);
        push_str(&mut source, "(%r12), ");
        assert(x86_argument_registers()[index as int] == registers@[index as int]@);
        push_str(&mut source, registers[index]);
        push_str(&mut source, "\n");
        index = index + 1;
        assert(source@ =~= before_gp + x86_gp_loads(index as nat));
    }
    push_str(&mut source, CALL_HELPER_EPILOGUE);
    function_footer(&mut source, symbol);
    assert(source@ =~= x86_call_helper_text(symbol@));
    single_symbol_unit("call-helper", source, symbol, 1)
}

} // verus!

verus! {

/* The AArch64 and RISC-V call helpers */

/// The vector loads for argument registers `n - 1` down to 0, entered at
/// the count of live registers.
pub open spec fn arm64_vector_loads(n: nat) -> Seq<char>
    decreases n,
{
    if n == 0 {
        Seq::empty()
    } else {
        let i = (n - 1) as nat;
        "ldr q"@ + decimal(i) + ", [x19, #"@ + decimal(112 + i * 16) + "]\n"@ + arm64_vector_loads(i)
    }
}

/// The integer loads for argument registers `n - 1` down to 0.
pub open spec fn arm64_gp_loads(n: nat) -> Seq<char>
    decreases n,
{
    if n == 0 {
        Seq::empty()
    } else {
        let i = (n - 1) as nat;
        "ldr x"@ + decimal(i) + ", [x19, #"@ + decimal(48 + i * 8) + "]\n"@ + arm64_gp_loads(i)
    }
}

/// The AArch64 call helper.
pub open spec fn arm64_call_helper_text(symbol: Seq<char>, abi: AbiIdentity) -> Seq<char> {
    target_header_text(symbol, false, AssemblyFunctionLinkage::ExternalHidden, false, abi)
        + ARM64_CALL_PROLOGUE@ + ARM64_CALL_VECTOR_DISPATCH@ + arm64_vector_loads(8)
        + ARM64_CALL_GP_DISPATCH@ + arm64_gp_loads(8) + ARM64_CALL_EPILOGUE@ + target_footer_text(
        symbol,
        false,
        abi,
    )
}

fn push_arm64_loads(output: &mut Vec<char>, vector: bool)
    ensures
        final(output)@ == old(output)@ + if vector {
            arm64_vector_loads(8)
        } else {
            arm64_gp_loads(8)
        },
{
    let ghost start = output@;
    let mut n: u64 = 8;
    while n > 0
        invariant
            n <= 8,
            start + (if vector {
                arm64_vector_loads(8)
            } else {
                arm64_gp_loads(8)
            }) == output@ + (if vector {
                arm64_vector_loads(n as nat)
            } else {
                arm64_gp_loads(n as nat)
            }),
        decreases n,
    {
        let i = n - 1;
        let ghost before = output@;
        if vector {
            push_str(output, "ldr q");
            push_decimal(output, i);
            push_str(output, ", [x19, #");
            push_decimal(output, 112 + i * 16);
            push_str(output, "]\n");
        } else {
            push_str(output, "ldr x");
            push_decimal(output, i);
            push_str(output, ", [x19, #");
            push_decimal(output, 48 + i * 8);
            push_str(output, "]\n");
        }
        n = i;
        proof {
            if vector {
                assert(before + arm64_vector_loads((n + 1) as nat) =~= output@ + arm64_vector_loads(
                    n as nat,
                ));
            } else {
                assert(before + arm64_gp_loads((n + 1) as nat) =~= output@ + arm64_gp_loads(
                    n as nat,
                ));
            }
        }
    }
    assert(output@ + Seq::<char>::empty() =~= output@);
}

/// Renders the AArch64 call helper for `abi`.
fn render_arm64_call_helper(symbol: &str, abi: AbiIdentity) -> (result: Result<GeneratedAssembly, LinkError>)
    ensures
        assembly_outcome(result) == helper_unit(
            symbol@,
            "call-helper"@,
            arm64_call_helper_text(symbol@, abi),
            1,
        ),
        result matches Err(error) ==> error.code@ == artifact_code(),
{
    validate_symbol(symbol)?;
    let mut source: Vec<char> = Vec::new();
    target_function_header(&mut source, symbol, false, AssemblyFunctionLinkage::ExternalHidden, false, abi);
    push_str(&mut source, ARM64_CALL_PROLOGUE);
    push_str(&mut source, ARM64_CALL_VECTOR_DISPATCH);
    push_arm64_loads(&mut source, true);
    push_str(&mut source, ARM64_CALL_GP_DISPATCH);
    push_arm64_loads(&mut source, false);
    push_str(&mut source, ARM64_CALL_EPILOGUE);
    target_function_footer(&mut source, symbol, false, abi);
    assert(source@ =~= arm64_call_helper_text(symbol@, abi));
    single_symbol_unit("call-helper", source, symbol, 1)
}

/// The RISC-V loads of the first `n` floating-point argument registers,
/// each but the last followed by the countdown of live registers.
pub open spec fn riscv_fp_loads(n: nat) -> Seq<char>
    decreases n,
{
    if n == 0 {
        Seq::empty()
    } else {
        let i = (n - 1) as nat;
        riscv_fp_loads(i) + "fld fa"@ + decimal(i) + ", "@ + decimal(112 + i * 16) + "(s1)\n"@ + (if i
            != 7 {
            RISCV_CALL_FP_NEXT@
        } else {
            Seq::empty()
        })
    }
}

/// The RISC-V loads of the first `n` integer argument registers.
pub open spec fn riscv_gp_loads(n: nat) -> Seq<char>
    decreases n,
{
    if n == 0 {
        Seq::empty()
    } else {
        let i = (n - 1) as nat;
        riscv_gp_loads(i) + "ld a"@ + decimal(i) + ", "@ + decimal(48 + i * 8) + "(s1)\n"@ + (if i
            != 7 {
            RISCV_CALL_GP_NEXT@
        } else {
            Seq::empty()
        })
    }
}

/// The RISC-V call helper.
pub open spec fn riscv_call_helper_text(symbol: Seq<char>) -> Seq<char> {
    target_header_text(
        symbol,
        false,
        AssemblyFunctionLinkage::ExternalHidden,
        false,
        AbiIdentity::RiscvLp64d,
    ) + RISCV_CALL_PROLOGUE@ + RISCV_CALL_FP_START@ + riscv_fp_loads(8) + RISCV_CALL_FP_DONE@
        + riscv_gp_loads(8) + RISCV_CALL_EPILOGUE@ + target_footer_text(
        symbol,
        false,
        AbiIdentity::RiscvLp64d,
    )
}

fn push_riscv_loads(output: &mut Vec<char>, floating: bool)
    ensures
        final(output)@ == old(output)@ + if floating {
            riscv_fp_loads(8)
        } else {
            riscv_gp_loads(8)
        },
{
    let ghost start = output@;
    let mut i: u64 = 0;
    while i < 8
        invariant
            i <= 8,
            output@ == start + if floating {
                riscv_fp_loads(i as nat)
            } else {
                riscv_gp_loads(i as nat)
            },
        decreases 8 - i,
    {
        let ghost before = output@;
        if floating {
            push_str(output, "fld fa");
            push_decimal(output, i);
            push_str(output, ", ");
            push_decimal(output, 112 + i * 16);
            push_str(output, "(s1)\n");
            if i != 7 {
                push_str(output, RISCV_CALL_FP_NEXT);
            }
        } else {
            push_str(output, "ld a");
            push_decimal(output, i);
            push_str(output, ", ");
            push_decimal(output, 48 + i * 8);
            push_str(output, "(s1)\n");
            if i != 7 {
                push_str(output, RISCV_CALL_GP_NEXT);
            }
        }
        i = i + 1;
        proof {
            if floating {
                assert(output@ =~= start + riscv_fp_loads(i as nat));
            } else {
                assert(output@ =~= start + riscv_gp_loads(i as nat));
            }
        }
    }
}

fn render_riscv64_call_helper(symbol: &str) -> (result: Result<GeneratedAssembly, LinkError>)
    ensures
        assembly_outcome(result) == helper_unit(
            symbol@,
            "call-helper"@,
            riscv_call_helper_text(symbol@),
            1,
        ),
        result matches Err(error) ==> error.code@ == artifact_code(),
{
    validate_symbol(symbol)?;
    let mut source: Vec<char> = Vec::new();
    target_function_header(
        &mut source,
        symbol,
        false,
        AssemblyFunctionLinkage::ExternalHidden,
        false,
        AbiIdentity::RiscvLp64d,
    );
    push_str(&mut source, RISCV_CALL_PROLOGUE);
    push_str(&mut source, RISCV_CALL_FP_START);
    push_riscv_loads(&mut source, true);
    push_str(&mut source, RISCV_CALL_FP_DONE);
    push_riscv_loads(&mut source, false);
    push_str(&mut source, RISCV_CALL_EPILOGUE);
    target_function_footer(&mut source, symbol, false, AbiIdentity::RiscvLp64d);
    assert(source@ =~= riscv_call_helper_text(symbol@));
    single_symbol_unit("call-helper", source, symbol, 1)
}

/// The call helper text for a target ABI.
pub open spec fn target_call_helper_text(symbol: Seq<char>, abi: AbiIdentity) -> Seq<char> {
    match abi {
        AbiIdentity::SysvAmd64Lp64 => x86_call_helper_text(symbol),
        AbiIdentity::Aapcs64Lp64 | AbiIdentity::DarwinArm64 => arm64_call_helper_text(symbol, abi),
        AbiIdentity::RiscvLp64d => riscv_call_helper_text(symbol),
    }
}

/// Renders the call-frame helper for the selected ABI.
pub fn render_target_call_helper(symbol: &str, abi: AbiIdentity) -> (result: Result<
    GeneratedAssembly,
    LinkError,
>)
    ensures
        assembly_outcome(result) == helper_unit(
            symbol@,
            "call-helper"@,
            target_call_helper_text(symbol@, abi),
            1,
        ),
        result matches Err(error) ==> error.code@ == artifact_code(),
{
    match abi {
        AbiIdentity::SysvAmd64Lp64 => render_generic_call_helper(symbol),
        AbiIdentity::Aapcs64Lp64 | AbiIdentity::DarwinArm64 => render_arm64_call_helper(symbol, abi),
        AbiIdentity::RiscvLp64d => render_riscv64_call_helper(symbol),
    }
}

/* The x87 dispatcher */

/// Compiler-runtime conversions referenced by the x87 operation dispatcher:
/// each flag enables both the dispatcher opcode and the undefined runtime
/// symbol it calls.
#[derive(Clone, Copy, Debug, Default, PartialEq, Eq, Structural)]
pub struct F80RuntimeHelperPlan {
    pub from_i128: bool,
    pub from_u128: bool,
    pub to_i128: bool,
    pub to_u128: bool,
}

pub open spec fn when(flag: bool, text: Seq<char>) -> Seq<char> {
    if flag {
        text
    } else {
        Seq::empty()
    }
}

/// The conversion to a 128-bit integer through the runtime function
/// `runtime_symbol`, at `label`.
pub open spec fn f80_to_wide_text(label: Seq<char>, runtime_symbol: Seq<char>) -> Seq<char> {
    label + F80_TO_WIDE_START@ + runtime_symbol + F80_TO_WIDE_END@
}

/// The x87 dispatcher with the conversions `plan` enables.
pub open spec fn f80_support_text(symbol: Seq<char>, plan: F80RuntimeHelperPlan) -> Seq<char> {
    ".text\n"@ + header_text(symbol, AssemblyFunctionLinkage::ExternalHidden, false) + F80_DISPATCH@
        + when(plan.from_i128, F80_DISPATCH_FROM_I128@) + when(
        plan.from_u128,
        F80_DISPATCH_FROM_U128@,
    ) + when(plan.to_i128, F80_DISPATCH_TO_I128@) + when(plan.to_u128, F80_DISPATCH_TO_U128@)
        + F80_OPERATIONS@ + when(plan.from_i128, F80_FROM_I128@) + when(
        plan.from_u128,
        F80_FROM_U128@,
    ) + when(plan.to_i128, f80_to_wide_text(".Lccc_f80_to_i128"@, "__fixxfti"@)) + when(
        plan.to_u128,
        f80_to_wide_text(".Lccc_f80_to_u128"@, "__fixunsxfti"@),
    ) + F80_CONSTANTS@ + footer_text(symbol)
}

fn push_when(output: &mut Vec<char>, flag: bool, text: &str)
    ensures
        final(output)@ == old(output)@ + when(flag, text@),
{
    if flag {
        push_str(output, text);
    } else {
        assert(old(output)@ + Seq::<char>::empty() =~= old(output)@);
    }
}

fn push_f80_to_wide(output: &mut Vec<char>, flag: bool, label: &str, runtime_symbol: &str)
    ensures
        final(output)@ == old(output)@ + when(flag, f80_to_wide_text(label@, runtime_symbol@)),
{
    if flag {
        push_str(output, label);
        push_str(output, F80_TO_WIDE_START);
        push_str(output, runtime_symbol);
        push_str(output, F80_TO_WIDE_END);
        assert(output@ =~= old(output)@ + f80_to_wide_text(label@, runtime_symbol@));
    } else {
        assert(old(output)@ + Seq::<char>::empty() =~= old(output)@);
    }
}

/// Renders the translation-unit-local x87 operation dispatcher, which takes
/// one pointer to an opcode and output, left and right operand pointers.
pub fn render_f80_support(symbol: &str, runtime_helpers: F80RuntimeHelperPlan) -> (result: Result<
    GeneratedAssembly,
    LinkError,
>)
    ensures
        assembly_outcome(result) == helper_unit(
            symbol@,
            "f80-support"@,
            f80_support_text(symbol@, runtime_helpers),
            1,
        ),
        result matches Err(error) ==> error.code@ == artifact_code(),
{
    validate_symbol(symbol)?;
    let mut source: Vec<char> = Vec::new();
    push_str(&mut source, ".text\n");
    function_header(&mut source, symbol, AssemblyFunctionLinkage::ExternalHidden, false);
    push_str(&mut source, F80_DISPATCH);
    push_when(&mut source, runtime_helpers.from_i128, F80_DISPATCH_FROM_I128);
    push_when(&mut source, runtime_helpers.from_u128, F80_DISPATCH_FROM_U128);
    push_when(&mut source, runtime_helpers.to_i128, F80_DISPATCH_TO_I128);
    push_when(&mut source, runtime_helpers.to_u128, F80_DISPATCH_TO_U128);
    push_str(&mut source, F80_OPERATIONS);
    push_when(&mut source, runtime_helpers.from_i128, F80_FROM_I128);
    push_when(&mut source, runtime_helpers.from_u128, F80_FROM_U128);
    push_f80_to_wide(&mut source, runtime_helpers.to_i128, ".Lccc_f80_to_i128", "__fixxfti");
    push_f80_to_wide(&mut source, runtime_helpers.to_u128, ".Lccc_f80_to_u128", "__fixunsxfti");
    push_str(&mut source, F80_CONSTANTS);
    function_footer(&mut source, symbol);
    assert(source@ =~= f80_support_text(symbol@, runtime_helpers));
    single_symbol_unit("f80-support", source, symbol, 1)
}

} // verus!

verus! {

/* Inline-assembly support */

/// The helper symbols that retained x86 inline-assembly operations select.
#[derive(Clone, Debug)]
pub struct InlineAsmSupportPlan {
    pub cpuid_symbol: Option<String>,
    pub rdtsc_symbol: Option<String>,
}

pub open spec fn optional_text(value: Option<String>) -> Option<Seq<char>> {
    match value {
        Some(text) => Some(text@),
        None => None,
    }
}

/// The text of one inline-assembly helper with `body`.
pub open spec fn support_function_text(symbol: Seq<char>, body: Seq<char>) -> Seq<char> {
    ".text\n"@ + header_text(symbol, AssemblyFunctionLinkage::ExternalHidden, false) + body
        + footer_text(symbol)
}

/// The problem with an optional helper symbol: an invalid spelling, or one
/// outside its reserved `prefix`.
pub open spec fn support_symbol_problem(
    symbol: Option<Seq<char>>,
    prefix: Seq<char>,
    namespace_message: Seq<char>,
) -> Option<Seq<char>> {
    match symbol {
        None => None,
        Some(s) => match symbol_check(s) {
            Err(message) => Some(message),
            Ok(()) => if !crate::text::has_prefix(s, prefix) {
                Some(namespace_message)
            } else {
                None
            },
        },
    }
}

/// The inline-assembly support unit for the selected helpers.
pub open spec fn inline_asm_unit(cpuid: Option<Seq<char>>, rdtsc: Option<Seq<char>>) -> Result<
    (Seq<char>, Seq<char>, Seq<Seq<char>>, Seq<(Seq<char>, u32)>),
    Seq<char>,
> {
    let cpuid_problem = support_symbol_problem(
        cpuid,
        "__ccc_support_cpuid_"@,
        "a CPUID helper must use the reserved compiler namespace"@,
    );
    let rdtsc_problem = support_symbol_problem(
        rdtsc,
        "__ccc_support_rdtsc_"@,
        "an RDTSC helper must use the reserved compiler namespace"@,
    );
    if cpuid is None && rdtsc is None {
        Err("an inline assembly support unit must define at least one helper"@)
    } else if cpuid_problem is Some {
        Err(cpuid_problem->0)
    } else if rdtsc_problem is Some {
        Err(rdtsc_problem->0)
    } else {
        let text = match cpuid {
            Some(c) => support_function_text(c, CPUID_BODY@),
            None => Seq::empty(),
        } + match rdtsc {
            Some(r) => support_function_text(r, RDTSC_BODY@),
            None => Seq::empty(),
        };
        let symbols = match cpuid {
            Some(c) => seq![c],
            None => Seq::empty(),
        } + match rdtsc {
            Some(r) => seq![r],
            None => Seq::empty(),
        };
        let lines = match cpuid {
            Some(_) => seq![1u32],
            None => Seq::empty(),
        } + match rdtsc {
            Some(_) => seq![2u32],
            None => Seq::empty(),
        };
        built_unit("inline-asm-support"@, text, symbols, lines)
    }
}

fn check_support_symbol(symbol: &str, prefix: &str, namespace_message: &str) -> (result: Result<
    (),
    LinkError,
>)
    ensures
        match support_symbol_problem(Some(symbol@), prefix@, namespace_message@) {
            None => result is Ok,
            Some(message) => result matches Err(error) && error.message@ == message
                && error.code@ == artifact_code(),
        },
{
    validate_symbol(symbol)?;
    if !crate::text::starts_with(symbol, prefix) {
        return Err(artifact_error(namespace_message.to_owned()));
    }
    Ok(())
}

/// Renders the support unit for CPUID (leaf, subleaf and four optional
/// output pointers) and RDTSC (two output pointers), each executed once.
pub fn render_inline_asm_support(plan: &InlineAsmSupportPlan) -> (result: Result<
    GeneratedAssembly,
    LinkError,
>)
    ensures
        assembly_outcome(result) == inline_asm_unit(
            optional_text(plan.cpuid_symbol),
            optional_text(plan.rdtsc_symbol),
        ),
        result matches Err(error) ==> error.code@ == artifact_code(),
{
    if plan.cpuid_symbol.is_none() && plan.rdtsc_symbol.is_none() {
        return Err(
            artifact_error("an inline assembly support unit must define at least one helper".to_owned()),
        );
    }
    let mut source: Vec<char> = Vec::new();
    let mut symbols: Vec<String> = Vec::new();
    let mut locations: Vec<LogicalDebugLocation> = Vec::new();
    if let Some(symbol) = &plan.cpuid_symbol {
        check_support_symbol(
            symbol.as_str(),
            "__ccc_support_cpuid_",
            "a CPUID helper must use the reserved compiler namespace",
        )?;
        push_str(&mut source, ".text\n");
        function_header(&mut source, symbol.as_str(), AssemblyFunctionLinkage::ExternalHidden, false);
        push_str(&mut source, CPUID_BODY);
        function_footer(&mut source, symbol.as_str());
        symbols.push(symbol.clone());
        locations.push(LogicalDebugLocation::generated(1));
    }
    let ghost after_cpuid = source@;
    if let Some(symbol) = &plan.rdtsc_symbol {
        check_support_symbol(
            symbol.as_str(),
            "__ccc_support_rdtsc_",
            "an RDTSC helper must use the reserved compiler namespace",
        )?;
        push_str(&mut source, ".text\n");
        function_header(&mut source, symbol.as_str(), AssemblyFunctionLinkage::ExternalHidden, false);
        push_str(&mut source, RDTSC_BODY);
        function_footer(&mut source, symbol.as_str());
        symbols.push(symbol.clone());
        locations.push(LogicalDebugLocation::generated(2));
    }
    let ghost cpuid = optional_text(plan.cpuid_symbol);
    let ghost rdtsc = optional_text(plan.rdtsc_symbol);
    proof {
        let text = match cpuid {
            Some(c) => support_function_text(c, CPUID_BODY@),
            None => Seq::empty(),
        } + match rdtsc {
            Some(r) => support_function_text(r, RDTSC_BODY@),
            None => Seq::empty(),
        };
        assert(source@ =~= text);
        let expected_symbols = match cpuid {
            Some(c) => seq![c],
            None => Seq::empty(),
        } + match rdtsc {
            Some(r) => seq![r],
            None => Seq::empty(),
        };
        assert(string_views(symbols@) =~= expected_symbols);
    }
    let text = string_from_chars(source.as_slice());
    let ghost location_seq = locations@;
    let result = GeneratedAssembly::new("inline-asm-support", text.as_str(), symbols, locations);
    proof {
        let lines = match cpuid {
            Some(_) => seq![1u32],
            None => Seq::empty(),
        } + match rdtsc {
            Some(_) => seq![2u32],
            None => Seq::empty(),
        };
        assert(location_seq.map_values(|location: LogicalDebugLocation| location_view(location))
            =~= generated_lines(lines));
    }
    result
}

/* TLS accessors */

/// The TLS address sequence that the source-level TLS model selects.
#[derive(Clone, Copy, Debug, PartialEq, Eq, Structural)]
pub enum TlsAccessModel {
    GeneralDynamic,
    LocalDynamic,
    InitialExec,
    LocalExec,
}

/// The visibility the accessor attaches to its TLS reference.
#[derive(Clone, Copy, Debug, PartialEq, Eq, Structural)]
pub enum TlsSymbolVisibility {
    Default,
    Hidden,
    Protected,
    Internal,
}

/// The canonical inputs of one compiler-generated TLS address accessor.
#[derive(Clone, Debug)]
pub struct TlsAccessorPlan {
    pub abi: AbiIdentity,
    pub helper_symbol: String,
    pub object_symbol: String,
    /// Whether the object spelling is already the physical object-file name.
    pub object_symbol_is_exact: bool,
    pub model: TlsAccessModel,
    pub object_visibility: TlsSymbolVisibility,
    pub logical_line: u32,
}

/// The problem with a TLS accessor plan, if any.
pub open spec fn tls_plan_problem(helper: Seq<char>, object: Seq<char>) -> Option<Seq<char>> {
    if symbol_check(helper) is Err {
        Some(symbol_check(helper)->Err_0)
    } else if symbol_check(object) is Err {
        Some(symbol_check(object)->Err_0)
    } else if !crate::text::has_prefix(helper, "__ccc_tls_accessor_"@) {
        Some("a TLS accessor helper must use the reserved compiler namespace"@)
    } else if helper == object {
        Some("a TLS accessor and its source object must use distinct symbols"@)
    } else {
        None
    }
}

impl TlsAccessorPlan {
    fn validate(&self) -> (result: Result<(), LinkError>)
        ensures
            match tls_plan_problem(self.helper_symbol@, self.object_symbol@) {
                None => result is Ok,
                Some(message) => result matches Err(error) && error.message@ == message
                    && error.code@ == artifact_code(),
            },
    {
        validate_symbol(self.helper_symbol.as_str())?;
        validate_symbol(self.object_symbol.as_str())?;
        if !crate::text::starts_with(self.helper_symbol.as_str(), "__ccc_tls_accessor_") {
            return Err(
                artifact_error("a TLS accessor helper must use the reserved compiler namespace".to_owned()),
            );
        }
        if crate::text::str_eq(self.helper_symbol.as_str(), self.object_symbol.as_str()) {
            return Err(
                artifact_error(
                    "a TLS accessor and its source object must use distinct symbols".to_owned(),
                ),
            );
        }
        Ok(())
    }
}

/// The ELF visibility directive for the TLS object.
pub open spec fn tls_visibility_text(symbol: Seq<char>, visibility: TlsSymbolVisibility) -> Seq<char> {
    match visibility {
        TlsSymbolVisibility::Default => Seq::empty(),
        TlsSymbolVisibility::Hidden => ".hidden "@ + symbol + "\n"@,
        TlsSymbolVisibility::Protected => ".protected "@ + symbol + "\n"@,
        TlsSymbolVisibility::Internal => ".internal "@ + symbol + "\n"@,
    }
}

fn push_tls_visibility(output: &mut Vec<char>, symbol: &str, visibility: TlsSymbolVisibility)
    ensures
        final(output)@ == old(output)@ + tls_visibility_text(symbol@, visibility),
{
    match visibility {
        TlsSymbolVisibility::Default => {
            assert(old(output)@ + Seq::<char>::empty() =~= old(output)@);
        },
        TlsSymbolVisibility::Hidden => push_line(output, ".hidden ", symbol),
        TlsSymbolVisibility::Protected => push_line(output, ".protected ", symbol),
        TlsSymbolVisibility::Internal => push_line(output, ".internal ", symbol),
    }
}

/// A line made of `before`, the object symbol and `after`.
pub open spec fn object_line(before: Seq<char>, object: Seq<char>, after: Seq<char>) -> Seq<char> {
    before + object + after
}

fn push_object_line(output: &mut Vec<char>, before: &str, object: &str, after: &str)
    ensures
        final(output)@ == old(output)@ + object_line(before@, object@, after@),
{
    push_str(output, before);
    push_str(output, object);
    push_str(output, after);
    assert(output@ =~= old(output)@ + object_line(before@, object@, after@));
}

/// The x86-64 access sequence for each TLS model.
pub open spec fn x86_tls_sequence(model: TlsAccessModel, object: Seq<char>) -> Seq<char> {
    match model {
        TlsAccessModel::GeneralDynamic => X86_TLS_FRAME_OPEN@ + object_line(
            "data16 leaq "@,
            object,
            "@TLSGD(%rip), %rdi\n"@,
        ) + X86_TLS_GD_CALL@ + X86_TLS_FRAME_CLOSE@,
        TlsAccessModel::LocalDynamic => X86_TLS_FRAME_OPEN@ + object_line(
            "leaq "@,
            object,
            "@TLSLD(%rip), %rdi\n"@,
        ) + X86_TLS_LD_CALL@ + object_line("leaq "@, object, "@DTPOFF(%rax), %rax\n"@)
            + X86_TLS_FRAME_CLOSE@,
        TlsAccessModel::InitialExec => X86_TLS_THREAD_POINTER@ + object_line(
            "addq "@,
            object,
            "@GOTTPOFF(%rip), %rax\n"@,
        ) + "ret\n"@,
        TlsAccessModel::LocalExec => X86_TLS_THREAD_POINTER@ + object_line(
            "leaq "@,
            object,
            "@TPOFF(%rax), %rax\n"@,
        ) + "ret\n"@,
    }
}

/// The x86-64 TLS accessor.
pub open spec fn x86_tls_text(
    helper: Seq<char>,
    object: Seq<char>,
    model: TlsAccessModel,
    visibility: TlsSymbolVisibility,
) -> Seq<char> {
    ".text\n"@ + tls_visibility_text(object, visibility) + header_text(
        helper,
        AssemblyFunctionLinkage::ExternalHidden,
        false,
    ) + x86_tls_sequence(model, object) + footer_text(helper)
}

fn push_x86_tls_sequence(output: &mut Vec<char>, model: TlsAccessModel, object: &str)
    ensures
        final(output)@ == old(output)@ + x86_tls_sequence(model, object@),
{
    let ghost start = output@;
    match model {
        TlsAccessModel::GeneralDynamic => {
            push_str(output, X86_TLS_FRAME_OPEN);
            push_object_line(output, "data16 leaq ", object, "@TLSGD(%rip), %rdi\n");
            push_str(output, X86_TLS_GD_CALL);
            push_str(output, X86_TLS_FRAME_CLOSE);
        },
        TlsAccessModel::LocalDynamic => {
            push_str(output, X86_TLS_FRAME_OPEN);
            push_object_line(output, "leaq ", object, "@TLSLD(%rip), %rdi\n");
            push_str(output, X86_TLS_LD_CALL);
            push_object_line(output, "leaq ", object, "@DTPOFF(%rax), %rax\n");
            push_str(output, X86_TLS_FRAME_CLOSE);
        },
        TlsAccessModel::InitialExec => {
            push_str(output, X86_TLS_THREAD_POINTER);
            push_object_line(output, "addq ", object, "@GOTTPOFF(%rip), %rax\n");
            push_str(output, "ret\n");
        },
        TlsAccessModel::LocalExec => {
            push_str(output, X86_TLS_THREAD_POINTER);
            push_object_line(output, "leaq ", object, "@TPOFF(%rax), %rax\n");
            push_str(output, "ret\n");
        },
    }
    assert(output@ =~= start + x86_tls_sequence(model, object@));
}

/// The AArch64 Linux access sequence for each TLS model.
pub open spec fn arm64_tls_sequence(model: TlsAccessModel, object: Seq<char>) -> Seq<char> {
    match model {
        TlsAccessModel::GeneralDynamic | TlsAccessModel::LocalDynamic => ARM64_TLS_FRAME_OPEN@
            + object_line("adrp x0, :tlsdesc:"@, object, "\n"@) + object_line(
            "ldr x1, [x0, :tlsdesc_lo12:"@,
            object,
            "]\n"@,
        ) + object_line("add x0, x0, :tlsdesc_lo12:"@, object, "\n"@) + object_line(
            ".tlsdesccall "@,
            object,
            "\n"@,
        ) + ARM64_TLS_DESCRIPTOR_CALL@,
        TlsAccessModel::InitialExec => object_line("adrp x9, :gottprel:"@, object, "\n"@)
            + object_line("ldr x9, [x9, :gottprel_lo12:"@, object, "]\n"@) + ARM64_TLS_IE_ADD@,
        TlsAccessModel::LocalExec => ARM64_TLS_THREAD_POINTER@ + object_line(
            "add x8, x8, :tprel_hi12:"@,
            object,
            "\n"@,
        ) + object_line("add x0, x8, :tprel_lo12_nc:"@, object, "\n"@) + "ret\n"@,
    }
}

fn push_arm64_tls_sequence(output: &mut Vec<char>, model: TlsAccessModel, object: &str)
    ensures
        final(output)@ == old(output)@ + arm64_tls_sequence(model, object@),
{
    let ghost start = output@;
    match model {
        TlsAccessModel::GeneralDynamic | TlsAccessModel::LocalDynamic => {
            push_str(output, ARM64_TLS_FRAME_OPEN);
            push_object_line(output, "adrp x0, :tlsdesc:", object, "\n");
            push_object_line(output, "ldr x1, [x0, :tlsdesc_lo12:", object, "]\n");
            push_object_line(output, "add x0, x0, :tlsdesc_lo12:", object, "\n");
            push_object_line(output, ".tlsdesccall ", object, "\n");
            push_str(output, ARM64_TLS_DESCRIPTOR_CALL);
        },
        TlsAccessModel::InitialExec => {
            push_object_line(output, "adrp x9, :gottprel:", object, "\n");
            push_object_line(output, "ldr x9, [x9, :gottprel_lo12:", object, "]\n");
            push_str(output, ARM64_TLS_IE_ADD);
        },
        TlsAccessModel::LocalExec => {
            push_str(output, ARM64_TLS_THREAD_POINTER);
            push_object_line(output, "add x8, x8, :tprel_hi12:", object, "\n");
            push_object_line(output, "add x0, x8, :tprel_lo12_nc:", object, "\n");
            push_str(output, "ret\n");
        },
    }
    assert(output@ =~= start + arm64_tls_sequence(model, object@));
}

/// The RISC-V access sequence for each TLS model.
pub open spec fn riscv_tls_sequence(model: TlsAccessModel, object: Seq<char>) -> Seq<char> {
    match model {
        TlsAccessModel::GeneralDynamic | TlsAccessModel::LocalDynamic => RISCV_TLS_FRAME_OPEN@
            + object_line("auipc a0, %tls_gd_pcrel_hi("@, object, ")\n"@) + RISCV_TLS_GD_CALL@
            + RISCV_TLS_FRAME_CLOSE@,
        TlsAccessModel::InitialExec => RISCV_TLS_IE_LABEL@ + object_line(
            "auipc a0, %tls_ie_pcrel_hi("@,
            object,
            ")\n"@,
        ) + RISCV_TLS_IE_LOAD@,
        TlsAccessModel::LocalExec => object_line("lui a0, %tprel_hi("@, object, ")\n"@)
            + object_line("add a0, a0, tp, %tprel_add("@, object, ")\n"@) + object_line(
            "addi a0, a0, %tprel_lo("@,
            object,
            ")\n"@,
        ) + "ret\n"@,
    }
}

fn push_riscv_tls_sequence(output: &mut Vec<char>, model: TlsAccessModel, object: &str)
    ensures
        final(output)@ == old(output)@ + riscv_tls_sequence(model, object@),
{
    let ghost start = output@;
    match model {
        TlsAccessModel::GeneralDynamic | TlsAccessModel::LocalDynamic => {
            push_str(output, RISCV_TLS_FRAME_OPEN);
            push_object_line(output, "auipc a0, %tls_gd_pcrel_hi(", object, ")\n");
            push_str(output, RISCV_TLS_GD_CALL);
            push_str(output, RISCV_TLS_FRAME_CLOSE);
        },
        TlsAccessModel::InitialExec => {
            push_str(output, RISCV_TLS_IE_LABEL);
            push_object_line(output, "auipc a0, %tls_ie_pcrel_hi(", object, ")\n");
            push_str(output, RISCV_TLS_IE_LOAD);
        },
        TlsAccessModel::LocalExec => {
            push_object_line(output, "lui a0, %tprel_hi(", object, ")\n");
            push_object_line(output, "add a0, a0, tp, %tprel_add(", object, ")\n");
            push_object_line(output, "addi a0, a0, %tprel_lo(", object, ")\n");
            push_str(output, "ret\n");
        },
    }
    assert(output@ =~= start + riscv_tls_sequence(model, object@));
}

/// The TLS accessor text for the plan's target.
pub open spec fn tls_accessor_text(
    abi: AbiIdentity,
    helper: Seq<char>,
    object: Seq<char>,
    exact: bool,
    model: TlsAccessModel,
    visibility: TlsSymbolVisibility,
) -> Seq<char> {
    match abi {
        AbiIdentity::SysvAmd64Lp64 => x86_tls_text(helper, object, model, visibility),
        AbiIdentity::Aapcs64Lp64 => tls_visibility_text(object, visibility) + target_header_text(
            helper,
            false,
            AssemblyFunctionLinkage::ExternalHidden,
            false,
            abi,
        ) + arm64_tls_sequence(model, object) + target_footer_text(helper, false, abi),
        AbiIdentity::RiscvLp64d => tls_visibility_text(object, visibility) + target_header_text(
            helper,
            false,
            AssemblyFunctionLinkage::ExternalHidden,
            false,
            abi,
        ) + riscv_tls_sequence(model, object) + target_footer_text(helper, false, abi),
        AbiIdentity::DarwinArm64 => {
            let o = target_symbol_text(object, abi, exact);
            target_header_text(helper, false, AssemblyFunctionLinkage::ExternalHidden, false, abi)
                + DARWIN_TLS_FRAME_OPEN@ + object_line("adrp x0, "@, o, "@TLVPPAGE\n"@)
                + object_line("ldr x0, [x0, "@, o, "@TLVPPAGEOFF]\n"@) + DARWIN_TLS_CALL@
                + target_footer_text(helper, false, abi)
        },
    }
}

/// The accessor unit for a TLS plan.
pub open spec fn tls_accessor_unit(plan: TlsAccessorPlan) -> Result<
    (Seq<char>, Seq<char>, Seq<Seq<char>>, Seq<(Seq<char>, u32)>),
    Seq<char>,
> {
    match tls_plan_problem(plan.helper_symbol@, plan.object_symbol@) {
        Some(message) => Err(message),
        None => built_unit(
            "tls-accessor-"@ + plan.helper_symbol@,
            tls_accessor_text(
                plan.abi,
                plan.helper_symbol@,
                plan.object_symbol@,
                plan.object_symbol_is_exact,
                plan.model,
                plan.object_visibility,
            ),
            seq![plan.helper_symbol@],
            seq![if plan.logical_line > 1 { plan.logical_line } else { 1u32 }],
        ),
    }
}

/// Renders a hidden function that returns the calling thread's address of
/// one TLS object.
pub fn render_target_tls_accessor(plan: &TlsAccessorPlan) -> (result: Result<
    GeneratedAssembly,
    LinkError,
>)
    ensures
        assembly_outcome(result) == tls_accessor_unit(*plan),
        result matches Err(error) ==> error.code@ == artifact_code(),
{
    plan.validate()?;
    let helper = plan.helper_symbol.as_str();
    let object = plan.object_symbol.as_str();
    let mut source: Vec<char> = Vec::new();
    match plan.abi {
        AbiIdentity::SysvAmd64Lp64 => {
            push_str(&mut source, ".text\n");
            push_tls_visibility(&mut source, object, plan.object_visibility);
            function_header(&mut source, helper, AssemblyFunctionLinkage::ExternalHidden, false);
            push_x86_tls_sequence(&mut source, plan.model, object);
            function_footer(&mut source, helper);
        },
        AbiIdentity::Aapcs64Lp64 => {
            push_tls_visibility(&mut source, object, plan.object_visibility);
            target_function_header(
                &mut source,
                helper,
                false,
                AssemblyFunctionLinkage::ExternalHidden,
                false,
                plan.abi,
            );
            push_arm64_tls_sequence(&mut source, plan.model, object);
            target_function_footer(&mut source, helper, false, plan.abi);
        },
        AbiIdentity::RiscvLp64d => {
            push_tls_visibility(&mut source, object, plan.object_visibility);
            target_function_header(
                &mut source,
                helper,
                false,
                AssemblyFunctionLinkage::ExternalHidden,
                false,
                plan.abi,
            );
            push_riscv_tls_sequence(&mut source, plan.model, object);
            target_function_footer(&mut source, helper, false, plan.abi);
        },
        AbiIdentity::DarwinArm64 => {
            target_function_header(
                &mut source,
                helper,
                false,
                AssemblyFunctionLinkage::ExternalHidden,
                false,
                plan.abi,
            );
            let spelled = target_symbol_with_exactness(object, plan.abi, plan.object_symbol_is_exact);
            push_str(&mut source, DARWIN_TLS_FRAME_OPEN);
            push_object_line(&mut source, "adrp x0, ", spelled.as_str(), "@TLVPPAGE\n");
            push_object_line(&mut source, "ldr x0, [x0, ", spelled.as_str(), "@TLVPPAGEOFF]\n");
            push_str(&mut source, DARWIN_TLS_CALL);
            target_function_footer(&mut source, helper, false, plan.abi);
        },
    }
    assert(source@ =~= tls_accessor_text(
        plan.abi,
        helper@,
        object@,
        plan.object_symbol_is_exact,
        plan.model,
        plan.object_visibility,
    ));
    let stem = crate::text::concat2("tls-accessor-", helper);
    let line = if plan.logical_line > 1 {
        plan.logical_line
    } else {
        1
    };
    single_symbol_unit(stem.as_str(), source, helper, line)
}

} // verus!

verus! {

/* Public bridge entries */

/// What a public uniform-frame entry needs to know.
#[derive(Clone, Debug)]
pub struct BridgeEntryPlan {
    pub public_symbol: String,
    /// The public spelling is an explicit object-file symbol and bypasses
    /// the target's C-name mangling.
    pub public_symbol_is_exact: bool,
    pub hidden_body_symbol: String,
    pub linkage: AssemblyFunctionLinkage,
    pub weak: bool,
    pub fixed_gp_used: u8,
    pub fixed_sse_used: u8,
    /// Offset from the incoming stack argument area to the first variadic item.
    pub overflow_arg_offset: u32,
    /// Number of integer result registers populated by the hidden body.
    pub gp_results: u8,
    /// Number of SSE result registers populated by the hidden body.
    pub xmm_results: u8,
    /// Restore one x87 long-double result from the hidden body frame.
    pub x87_result: bool,
    /// Echo the saved incoming structure-return pointer in `%rax`.
    pub hidden_return: bool,
    pub logical_line: u32,
}

/// The problem with an entry plan for `abi`, if any.
pub open spec fn entry_plan_problem(plan: BridgeEntryPlan, abi: AbiIdentity) -> Option<Seq<char>> {
    let gp_limit: int = if abi == AbiIdentity::SysvAmd64Lp64 { 6 } else { 8 };
    let float_limit: int = if abi == AbiIdentity::Aapcs64Lp64 || abi == AbiIdentity::DarwinArm64 {
        4
    } else {
        2
    };
    if symbol_check(plan.public_symbol@) is Err {
        Some(symbol_check(plan.public_symbol@)->Err_0)
    } else if symbol_check(plan.hidden_body_symbol@) is Err {
        Some(symbol_check(plan.hidden_body_symbol@)->Err_0)
    } else if plan.public_symbol@ == plan.hidden_body_symbol@ {
        Some("a bridge entry and its hidden body must use distinct symbols"@)
    } else if plan.weak && plan.linkage == AssemblyFunctionLinkage::Internal {
        Some("an internal bridge entry cannot have weak binding"@)
    } else if plan.fixed_gp_used > gp_limit || plan.fixed_sse_used > 8 {
        Some("bridge-entry register counts exceed the target register areas"@)
    } else if plan.overflow_arg_offset % 8 != 0 {
        Some("the bridge-entry overflow argument offset must be eight-byte aligned"@)
    } else if plan.gp_results > 2 || plan.xmm_results > float_limit {
        Some("a bridge-entry result exceeds the target register banks"@)
    } else if plan.x87_result && (abi != AbiIdentity::SysvAmd64Lp64 || plan.gp_results != 0
        || plan.xmm_results != 0) {
        Some("an x87 bridge-entry result must be the sole System V AMD64 result"@)
    } else if plan.hidden_return && (plan.gp_results != 0 || plan.xmm_results != 0
        || plan.x87_result) {
        Some("an indirect bridge-entry result cannot also request register results"@)
    } else {
        None
    }
}

impl BridgeEntryPlan {
    fn validate(&self, abi: AbiIdentity) -> (result: Result<(), LinkError>)
        ensures
            match entry_plan_problem(*self, abi) {
                None => result is Ok,
                Some(message) => result matches Err(error) && error.message@ == message
                    && error.code@ == artifact_code(),
            },
    {
        validate_symbol(self.public_symbol.as_str())?;
        validate_symbol(self.hidden_body_symbol.as_str())?;
        if crate::text::str_eq(self.public_symbol.as_str(), self.hidden_body_symbol.as_str()) {
            return Err(
                artifact_error("a bridge entry and its hidden body must use distinct symbols".to_owned()),
            );
        }
        if self.weak && self.linkage == AssemblyFunctionLinkage::Internal {
            return Err(artifact_error("an internal bridge entry cannot have weak binding".to_owned()));
        }
        let gp_limit: u8 = if abi == AbiIdentity::SysvAmd64Lp64 {
            6
        } else {
            8
        };
        if self.fixed_gp_used > gp_limit || self.fixed_sse_used > 8 {
            return Err(
                artifact_error(
                    "bridge-entry register counts exceed the target register areas".to_owned(),
                ),
            );
        }
        if self.overflow_arg_offset % 8 != 0 {
            return Err(
                artifact_error(
                    "the bridge-entry overflow argument offset must be eight-byte aligned".to_owned(),
                ),
            );
        }
        let float_result_limit: u8 = if abi == AbiIdentity::Aapcs64Lp64 || abi
            == AbiIdentity::DarwinArm64 {
            4
        } else {
            2
        };
        if self.gp_results > 2 || self.xmm_results > float_result_limit {
            return Err(
                artifact_error("a bridge-entry result exceeds the target register banks".to_owned()),
            );
        }
        if self.x87_result && (abi != AbiIdentity::SysvAmd64Lp64 || self.gp_results != 0
            || self.xmm_results != 0) {
            return Err(
                artifact_error(
                    "an x87 bridge-entry result must be the sole System V AMD64 result".to_owned(),
                ),
            );
        }
        if self.hidden_return && (self.gp_results != 0 || self.xmm_results != 0
            || self.x87_result) {
            return Err(
                artifact_error(
                    "an indirect bridge-entry result cannot also request register results".to_owned(),
                ),
            );
        }
        Ok(())
    }
}

/// Whether `c` may appear in a file stem derived from a symbol.
pub open spec fn stem_char(c: char) -> bool {
    crate::link::bridge::is_ascii_alnum(c) || c == '_' || c == '-'
}

/// The stem derived from a symbol: its first 48 stem characters, or
/// `entry` when it has none.
pub open spec fn short_stem_text(symbol: Seq<char>) -> Seq<char> {
    let kept = symbol.filter(|c: char| stem_char(c));
    let stem = if kept.len() > 48 { kept.take(48) } else { kept };
    if stem.len() == 0 {
        "entry"@
    } else {
        stem
    }
}

fn short_stem(symbol: &str) -> (result: String)
    ensures
        result@ == short_stem_text(symbol@),
{
    let chars = crate::text::chars_of(symbol);
    let ghost pred = |c: char| stem_char(c);
    let mut kept: Vec<char> = Vec::new();
    let mut i: usize = 0;
    while i < chars.len()
        invariant
            i <= chars@.len(),
            chars@ == symbol@,
            pred == (|c: char| stem_char(c)),
            kept@ == (if chars@.take(i as int).filter(pred).len() > 48 {
                chars@.take(i as int).filter(pred).take(48)
            } else {
                chars@.take(i as int).filter(pred)
            }),
        decreases chars.len() - i,
    {
        let c = chars[i];
        proof {
            chars@.take(i as int).lemma_filter_push(c, pred);
            assert(chars@.take(i + 1) =~= chars@.take(i as int).push(c));
        }
        if (crate::link::bridge::is_ascii_alnum_exec(c) || c == '_' || c == '-') && kept.len() < 48 {
            kept.push(c);
        }
        proof {
            let before = chars@.take(i as int).filter(pred);
            let after = chars@.take(i + 1).filter(pred);
            if pred(c) && before.len() >= 48 {
                assert(after.take(48) =~= before.take(48));
            }
            if pred(c) && before.len() == 48 {
                assert(after.take(48) =~= before);
            }
            if pred(c) && before.len() < 48 {
                assert(kept@ =~= after);
            }
        }
        i = i + 1;
    }
    assert(chars@.take(i as int) =~= symbol@);
    if kept.len() == 0 {
        return "entry".to_owned();
    }
    string_from_chars(kept.as_slice())
}

/// `16 + offset`, saturating at `u32::MAX`.
pub open spec fn frame_offset(offset: u32) -> nat {
    if 16 + offset > u32::MAX {
        u32::MAX as nat
    } else {
        (16 + offset) as nat
    }
}

/// The decimal spelling of a signed number.
pub open spec fn signed_decimal(v: int) -> Seq<char> {
    if v < 0 {
        "-"@ + decimal((-v) as nat)
    } else {
        decimal(v as nat)
    }
}

fn push_signed_decimal(output: &mut Vec<char>, v: i64)
    requires
        v > i64::MIN,
    ensures
        final(output)@ == old(output)@ + signed_decimal(v as int),
{
    if v < 0 {
        push_str(output, "-");
        push_decimal(output, (-v) as u64);
    } else {
        push_decimal(output, v as u64);
    }
}

/// The x86-64 saves of the six integer argument registers.
pub open spec fn x86_register_saves(n: nat) -> Seq<char>
    decreases n,
{
    if n == 0 {
        Seq::empty()
    } else {
        let i = (n - 1) as nat;
        x86_register_saves(i) + "movq "@ + x86_argument_registers()[i as int] + ", "@ + decimal(
            32 + i * 8,
        ) + "(%rsp)\n"@
    }
}

/// The zeroing of the first `n` SSE save slots.
pub open spec fn x86_sse_zeroing(n: nat) -> Seq<char>
    decreases n,
{
    if n == 0 {
        Seq::empty()
    } else {
        let i = (n - 1) as nat;
        x86_sse_zeroing(i) + "movdqu %xmm15, "@ + decimal(80 + i * 16) + "(%rsp)\n"@
    }
}

/// The saves of the SSE registers a variadic caller counted in `%al`.
pub open spec fn x86_counted_sse_saves(n: nat) -> Seq<char>
    decreases n,
{
    if n == 0 {
        Seq::empty()
    } else {
        let i = (n - 1) as nat;
        x86_counted_sse_saves(i) + "cmpb $"@ + decimal(i) + ", %r11b\njbe 1f\nmovdqu %xmm"@
            + decimal(i) + ", "@ + decimal(80 + i * 16) + "(%rsp)\n"@
    }
}

/// The unconditional saves of the first `n` SSE registers.
pub open spec fn x86_fixed_sse_saves(n: nat) -> Seq<char>
    decreases n,
{
    if n == 0 {
        Seq::empty()
    } else {
        let i = (n - 1) as nat;
        x86_fixed_sse_saves(i) + "movdqu %xmm"@ + decimal(i) + ", "@ + decimal(80 + i * 16)
            + "(%rsp)\n"@
    }
}

/// The x86-64 result loads after the hidden body returns.
pub open spec fn x86_result_loads(plan: BridgeEntryPlan) -> Seq<char> {
    if plan.hidden_return {
        "movq 32(%rsp), %rax\n"@
    } else {
        when(plan.gp_results >= 1, "movq 208(%rsp), %rax\n"@) + when(
            plan.gp_results >= 2,
            "movq 216(%rsp), %rdx\n"@,
        ) + when(plan.xmm_results >= 1, "movdqu 224(%rsp), %xmm0\n"@) + when(
            plan.xmm_results >= 2,
            "movdqu 240(%rsp), %xmm1\n"@,
        ) + when(plan.x87_result, "fldt 256(%rsp)\n"@)
    }
}

/// The x86-64 System V entry, variadic or fixed.
pub open spec fn x86_entry_text(plan: BridgeEntryPlan, variadic: bool) -> Seq<char> {
    ".text\n"@ + header_text(plan.public_symbol@, plan.linkage, plan.weak) + x86_save_text(
        plan,
        variadic,
    ) + x86_state_text(plan) + x86_result_loads(plan) + "leave\n.cfi_def_cfa %rsp, 8\nret\n"@
        + footer_text(plan.public_symbol@)
}

/// The x86-64 entry's prologue and register saves.
pub open spec fn x86_save_text(plan: BridgeEntryPlan, variadic: bool) -> Seq<char> {
    X86_ENTRY_PROLOGUE@ + "subq $272, %rsp\n"@ + when(variadic, "movzbl %al, %r11d\n"@)
        + x86_register_saves(6) + "pxor %xmm15, %xmm15\n"@ + x86_sse_zeroing(8) + (if variadic {
        X86_ENTRY_CLAMP@ + x86_counted_sse_saves(8) + "1:\n"@
    } else {
        x86_fixed_sse_saves(plan.fixed_sse_used as nat)
    })
}

/// The x86-64 entry's variadic state block and the call of the hidden body.
pub open spec fn x86_state_text(plan: BridgeEntryPlan) -> Seq<char> {
    "movl $"@ + decimal(crate::link::bridge::VA_STATE_MAGIC as nat) + ", 0(%rsp)\n"@
        + X86_ENTRY_HEADER_FIELDS@ + "movl $"@ + decimal(plan.fixed_gp_used as nat * 8)
        + ", 8(%rsp)\n"@ + "movl $"@ + decimal(48 + plan.fixed_sse_used as nat * 16)
        + ", 12(%rsp)\n"@ + "leaq "@ + decimal(frame_offset(plan.overflow_arg_offset))
        + "(%rbp), %r10\n"@ + X86_ENTRY_AREA_POINTERS@ + X86_ENTRY_RESULT_CLEAR@ + "call "@
        + plan.hidden_body_symbol@ + "\n"@
}

/// The unit of an entry: its stem names its kind and public symbol.
pub open spec fn entry_unit(plan: BridgeEntryPlan, kind: Seq<char>, text: Seq<char>) -> Result<
    (Seq<char>, Seq<char>, Seq<Seq<char>>, Seq<(Seq<char>, u32)>),
    Seq<char>,
> {
    built_unit(
        kind + "-entry-"@ + short_stem_text(plan.public_symbol@),
        text,
        seq![plan.public_symbol@],
        seq![if plan.logical_line > 1 { plan.logical_line } else { 1u32 }],
    )
}

fn push_x86_loops(output: &mut Vec<char>, which: u8, count: u64)
    requires
        count <= 8,
        which == 0 ==> count <= 6,
    ensures
        final(output)@ == old(output)@ + if which == 0 {
            x86_register_saves(count as nat)
        } else if which == 1 {
            x86_sse_zeroing(count as nat)
        } else if which == 2 {
            x86_counted_sse_saves(count as nat)
        } else {
            x86_fixed_sse_saves(count as nat)
        },
{
    let ghost start = output@;
    let registers: [&str; 6] = ["%rdi", "%rsi", "%rdx", "%rcx", "%r8", "%r9"];
    assert(registers@.map_values(|r: &str| r@) =~= x86_argument_registers());
    let mut i: u64 = 0;
    while i < count
        invariant
            i <= count <= 8,
            which == 0 ==> count <= 6,
            registers@.map_values(|r: &str| r@) == x86_argument_registers(),
            output@ == start + if which == 0 {
                x86_register_saves(i as nat)
            } else if which == 1 {
                x86_sse_zeroing(i as nat)
            } else if which == 2 {
                x86_counted_sse_saves(i as nat)
            } else {
                x86_fixed_sse_saves(i as nat)
            },
        decreases count - i,
    {
        if which == 0 {
            push_str(output, "movq ");
            assert(x86_argument_registers()[i as int] == registers@[i as int]@);
            push_str(output, registers[i as usize]);
            push_str(output, ", ");
            push_decimal(output, 32 + i * 8);
            push_str(output, "(%rsp)\n");
        } else if which == 1 {
            push_str(output, "movdqu %xmm15, ");
            push_decimal(output, 80 + i * 16);
            push_str(output, "(%rsp)\n");
        } else if which == 2 {
            push_str(output, "cmpb $");
            push_decimal(output, i);
            push_str(output, ", %r11b\njbe 1f\nmovdqu %xmm");
            push_decimal(output, i);
            push_str(output, ", ");
            push_decimal(output, 80 + i * 16);
            push_str(output, "(%rsp)\n");
        } else {
            push_str(output, "movdqu %xmm");
            push_decimal(output, i);
            push_str(output, ", ");
            push_decimal(output, 80 + i * 16);
            push_str(output, "(%rsp)\n");
        }
        i = i + 1;
        assert(output@ =~= start + if which == 0 {
            x86_register_saves(i as nat)
        } else if which == 1 {
            x86_sse_zeroing(i as nat)
        } else if which == 2 {
            x86_counted_sse_saves(i as nat)
        } else {
            x86_fixed_sse_saves(i as nat)
        });
    }
}

} // verus!

verus! {

fn push_x86_results(output: &mut Vec<char>, plan: &BridgeEntryPlan)
    ensures
        final(output)@ == old(output)@ + x86_result_loads(*plan),
{
    if plan.hidden_return {
        push_str(output, "movq 32(%rsp), %rax\n");
    } else {
        push_when(output, plan.gp_results >= 1, "movq 208(%rsp), %rax\n");
        push_when(output, plan.gp_results >= 2, "movq 216(%rsp), %rdx\n");
        push_when(output, plan.xmm_results >= 1, "movdqu 224(%rsp), %xmm0\n");
        push_when(output, plan.xmm_results >= 2, "movdqu 240(%rsp), %xmm1\n");
        push_when(output, plan.x87_result, "fldt 256(%rsp)\n");
        assert(output@ =~= old(output)@ + x86_result_loads(*plan));
    }
}

fn saturating_frame_offset(offset: u32) -> (result: u64)
    ensures
        result == frame_offset(offset),
{
    if offset > u32::MAX - 16 {
        u32::MAX as u64
    } else {
        16 + offset as u64
    }
}

fn push_entry_unit(
    kind: &str,
    source: Vec<char>,
    plan: &BridgeEntryPlan,
) -> (result: Result<GeneratedAssembly, LinkError>)
    ensures
        assembly_outcome(result) == entry_unit(*plan, kind@, source@),
        result matches Err(error) ==> error.code@ == artifact_code(),
{
    let stem = short_stem(plan.public_symbol.as_str());
    let name = crate::text::concat3(kind, "-entry-", stem.as_str());
    let line = if plan.logical_line > 1 {
        plan.logical_line
    } else {
        1
    };
    single_symbol_unit(name.as_str(), source, plan.public_symbol.as_str(), line)
}

fn push_x86_saves(output: &mut Vec<char>, plan: &BridgeEntryPlan, variadic: bool)
    requires
        plan.fixed_sse_used <= 8,
    ensures
        final(output)@ == old(output)@ + x86_save_text(*plan, variadic),
{
    let ghost start = output@;
    push_str(output, X86_ENTRY_PROLOGUE);
    push_str(output, "subq $272, %rsp\n");
    push_when(output, variadic, "movzbl %al, %r11d\n");
    push_x86_loops(output, 0, 6);
    push_str(output, "pxor %xmm15, %xmm15\n");
    push_x86_loops(output, 1, 8);
    let ghost before_saves = output@;
    if variadic {
        push_str(output, X86_ENTRY_CLAMP);
        push_x86_loops(output, 2, 8);
        push_str(output, "1:\n");
    } else {
        push_x86_loops(output, 3, plan.fixed_sse_used as u64);
    }
    assert(output@ =~= start + x86_save_text(*plan, variadic));
}

fn push_x86_state(output: &mut Vec<char>, plan: &BridgeEntryPlan)
    ensures
        final(output)@ == old(output)@ + x86_state_text(*plan),
{
    let ghost start = output@;
    push_str(output, "movl $");
    push_decimal(output, crate::link::bridge::VA_STATE_MAGIC as u64);
    push_str(output, ", 0(%rsp)\n");
    push_str(output, X86_ENTRY_HEADER_FIELDS);
    push_str(output, "movl $");
    push_decimal(output, plan.fixed_gp_used as u64 * 8);
    push_str(output, ", 8(%rsp)\n");
    push_str(output, "movl $");
    push_decimal(output, 48 + plan.fixed_sse_used as u64 * 16);
    push_str(output, ", 12(%rsp)\n");
    push_str(output, "leaq ");
    push_decimal(output, saturating_frame_offset(plan.overflow_arg_offset));
    push_str(output, "(%rbp), %r10\n");
    push_str(output, X86_ENTRY_AREA_POINTERS);
    push_str(output, X86_ENTRY_RESULT_CLEAR);
    push_str(output, "call ");
    push_str(output, plan.hidden_body_symbol.as_str());
    push_str(output, "\n");
    assert(output@ =~= start + x86_state_text(*plan));
}

/// Renders the x86-64 System V entry: it saves the argument registers into
/// a uniform frame, calls the hidden body with it, and reloads the results.
fn render_sysv_amd64_entry(plan: &BridgeEntryPlan, variadic: bool) -> (result: Result<
    GeneratedAssembly,
    LinkError,
>)
    requires
        plan.fixed_sse_used <= 8,
    ensures
        assembly_outcome(result) == entry_unit(
            *plan,
            if variadic {
                "variadic"@
            } else {
                "fixed"@
            },
            x86_entry_text(*plan, variadic),
        ),
        result matches Err(error) ==> error.code@ == artifact_code(),
{
    let mut source: Vec<char> = Vec::new();
    push_str(&mut source, ".text\n");
    function_header(&mut source, plan.public_symbol.as_str(), plan.linkage, plan.weak);
    push_x86_saves(&mut source, plan, variadic);
    push_x86_state(&mut source, plan);
    push_x86_results(&mut source, plan);
    push_str(&mut source, "leave\n.cfi_def_cfa %rsp, 8\nret\n");
    function_footer(&mut source, plan.public_symbol.as_str());
    assert(source@ =~= x86_entry_text(*plan, variadic));
    let kind = if variadic {
        "variadic"
    } else {
        "fixed"
    };
    push_entry_unit(kind, source, plan)
}

/// The AArch64 vector result loads of the first `n` result registers.
pub open spec fn arm64_vector_results(n: nat) -> Seq<char>
    decreases n,
{
    if n == 0 {
        Seq::empty()
    } else {
        let i = (n - 1) as nat;
        arm64_vector_results(i) + "ldr q"@ + decimal(i) + ", [sp, #"@ + decimal(256 + i * 16)
            + "]\n"@
    }
}

/// The AArch64 lines that publish the register save areas.
pub open spec fn arm64_area_text(plan: BridgeEntryPlan, abi: AbiIdentity) -> Seq<char> {
    if abi == AbiIdentity::Aapcs64Lp64 {
        ARM64_ENTRY_AREA_POINTERS@ + "mov w9, #"@ + signed_decimal(plan.fixed_gp_used * 8 - 64)
            + "\nstr w9, [sp, #32]\n"@ + "mov w9, #"@ + signed_decimal(
            plan.fixed_sse_used * 16 - 128,
        ) + "\nstr w9, [sp, #36]\n"@
    } else {
        "str x9, [sp, #8]\n"@
    }
}

/// The AArch64 entry from its prologue through the call of the hidden body.
pub open spec fn arm64_call_text(plan: BridgeEntryPlan, abi: AbiIdentity) -> Seq<char> {
    ARM64_ENTRY_PROLOGUE@ + ARM64_ENTRY_MAGIC@ + "add x9, x29, #"@ + decimal(
        frame_offset(plan.overflow_arg_offset),
    ) + "\n"@ + arm64_area_text(plan, abi) + ARM64_ENTRY_RESULT_CLEAR@ + "bl "@
        + target_symbol_text(plan.hidden_body_symbol@, abi, false) + "\n"@
}

/// The AArch64 loads of the body's results.
pub open spec fn arm64_results_text(plan: BridgeEntryPlan) -> Seq<char> {
    if plan.hidden_return {
        Seq::empty()
    } else {
        when(plan.gp_results >= 1, "ldr x0, [sp, #240]\n"@) + when(
            plan.gp_results >= 2,
            "ldr x1, [sp, #248]\n"@,
        ) + arm64_vector_results(plan.xmm_results as nat)
    }
}

/// The AArch64 variadic entry, for Linux or Darwin.
pub open spec fn arm64_entry_text(plan: BridgeEntryPlan, abi: AbiIdentity) -> Seq<char> {
    target_header_text(
        plan.public_symbol@,
        plan.public_symbol_is_exact,
        plan.linkage,
        plan.weak,
        abi,
    ) + arm64_call_text(plan, abi) + arm64_results_text(plan) + ARM64_ENTRY_EPILOGUE@
        + target_footer_text(plan.public_symbol@, plan.public_symbol_is_exact, abi)
}

/// The RISC-V floating-point result loads of the first `n` result registers.
pub open spec fn riscv_float_results(n: nat) -> Seq<char>
    decreases n,
{
    if n == 0 {
        Seq::empty()
    } else {
        let i = (n - 1) as nat;
        riscv_float_results(i) + "fld fa"@ + decimal(i) + ", "@ + decimal(256 + i * 16) + "(sp)\n"@
    }
}

/// The RISC-V computation of the overflow area's address.
pub open spec fn riscv_overflow_text(plan: BridgeEntryPlan) -> Seq<char> {
    if plan.fixed_gp_used < 8 {
        "addi t0, sp, "@ + decimal(448 + plan.fixed_gp_used as nat * 8) + "\n"@
    } else if plan.overflow_arg_offset == 0 {
        "mv t0, s0\n"@
    } else {
        "li t0, "@ + decimal(plan.overflow_arg_offset as nat) + "\nadd t0, s0, t0\n"@
    }
}

/// The RISC-V entry from its prologue through the call of the hidden body.
pub open spec fn riscv_call_text(plan: BridgeEntryPlan) -> Seq<char> {
    RISCV_ENTRY_PROLOGUE@ + "li t0, "@ + decimal(crate::link::bridge::VA_STATE_MAGIC as nat)
        + "\nsw t0, 0(sp)\n"@ + RISCV_ENTRY_VERSION@ + riscv_overflow_text(plan)
        + RISCV_ENTRY_RESULT_CLEAR@ + "call "@ + plan.hidden_body_symbol@ + "\n"@
}

/// The RISC-V loads of the body's results.
pub open spec fn riscv_results_text(plan: BridgeEntryPlan) -> Seq<char> {
    if plan.hidden_return {
        Seq::empty()
    } else {
        when(plan.gp_results >= 1, "ld a0, 240(sp)\n"@) + when(
            plan.gp_results >= 2,
            "ld a1, 248(sp)\n"@,
        ) + riscv_float_results(plan.xmm_results as nat)
    }
}

/// The RISC-V variadic entry.
pub open spec fn riscv_entry_text(plan: BridgeEntryPlan) -> Seq<char> {
    target_header_text(
        plan.public_symbol@,
        plan.public_symbol_is_exact,
        plan.linkage,
        plan.weak,
        AbiIdentity::RiscvLp64d,
    ) + riscv_call_text(plan) + riscv_results_text(plan) + RISCV_ENTRY_EPILOGUE@
        + target_footer_text(plan.public_symbol@, plan.public_symbol_is_exact, AbiIdentity::RiscvLp64d)
}

fn push_float_results(output: &mut Vec<char>, count: u8, arm64: bool)
    ensures
        final(output)@ == old(output)@ + if arm64 {
            arm64_vector_results(count as nat)
        } else {
            riscv_float_results(count as nat)
        },
{
    let ghost start = output@;
    let mut i: u64 = 0;
    while i < count as u64
        invariant
            i <= count,
            output@ == start + if arm64 {
                arm64_vector_results(i as nat)
            } else {
                riscv_float_results(i as nat)
            },
        decreases count - i,
    {
        if arm64 {
            push_str(output, "ldr q");
            push_decimal(output, i);
            push_str(output, ", [sp, #");
            push_decimal(output, 256 + i * 16);
            push_str(output, "]\n");
        } else {
            push_str(output, "fld fa");
            push_decimal(output, i);
            push_str(output, ", ");
            push_decimal(output, 256 + i * 16);
            push_str(output, "(sp)\n");
        }
        i = i + 1;
        assert(output@ =~= start + if arm64 {
            arm64_vector_results(i as nat)
        } else {
            riscv_float_results(i as nat)
        });
    }
}

fn push_entry_results(output: &mut Vec<char>, plan: &BridgeEntryPlan, arm64: bool)
    ensures
        final(output)@ == old(output)@ + if arm64 {
            arm64_results_text(*plan)
        } else {
            riscv_results_text(*plan)
        },
{
    let ghost start = output@;
    if !plan.hidden_return {
        if arm64 {
            push_when(output, plan.gp_results >= 1, "ldr x0, [sp, #240]\n");
            push_when(output, plan.gp_results >= 2, "ldr x1, [sp, #248]\n");
        } else {
            push_when(output, plan.gp_results >= 1, "ld a0, 240(sp)\n");
            push_when(output, plan.gp_results >= 2, "ld a1, 248(sp)\n");
        }
        push_float_results(output, plan.xmm_results, arm64);
    }
    assert(output@ =~= start + if arm64 {
        arm64_results_text(*plan)
    } else {
        riscv_results_text(*plan)
    });
}

fn push_arm64_area(output: &mut Vec<char>, plan: &BridgeEntryPlan, abi: AbiIdentity)
    ensures
        final(output)@ == old(output)@ + arm64_area_text(*plan, abi),
{
    let ghost start = output@;
    if abi == AbiIdentity::Aapcs64Lp64 {
        push_str(output, ARM64_ENTRY_AREA_POINTERS);
        push_str(output, "mov w9, #");
        push_signed_decimal(output, plan.fixed_gp_used as i64 * 8 - 64);
        push_str(output, "\nstr w9, [sp, #32]\n");
        push_str(output, "mov w9, #");
        push_signed_decimal(output, plan.fixed_sse_used as i64 * 16 - 128);
        push_str(output, "\nstr w9, [sp, #36]\n");
    } else {
        push_str(output, "str x9, [sp, #8]\n");
    }
    assert(output@ =~= start + arm64_area_text(*plan, abi));
}

fn push_arm64_call(output: &mut Vec<char>, plan: &BridgeEntryPlan, abi: AbiIdentity)
    ensures
        final(output)@ == old(output)@ + arm64_call_text(*plan, abi),
{
    let ghost start = output@;
    push_str(output, ARM64_ENTRY_PROLOGUE);
    push_str(output, ARM64_ENTRY_MAGIC);
    push_str(output, "add x9, x29, #");
    push_decimal(output, saturating_frame_offset(plan.overflow_arg_offset));
    push_str(output, "\n");
    push_arm64_area(output, plan, abi);
    push_str(output, ARM64_ENTRY_RESULT_CLEAR);
    push_str(output, "bl ");
    let body = target_symbol_with_exactness(plan.hidden_body_symbol.as_str(), abi, false);
    push_str(output, body.as_str());
    push_str(output, "\n");
    assert(output@ =~= start + arm64_call_text(*plan, abi));
}

fn render_arm64_variadic_entry(plan: &BridgeEntryPlan, abi: AbiIdentity) -> (result: Result<
    GeneratedAssembly,
    LinkError,
>)
    ensures
        assembly_outcome(result) == entry_unit(*plan, "variadic"@, arm64_entry_text(*plan, abi)),
        result matches Err(error) ==> error.code@ == artifact_code(),
{
    let mut source: Vec<char> = Vec::new();
    target_function_header(
        &mut source,
        plan.public_symbol.as_str(),
        plan.public_symbol_is_exact,
        plan.linkage,
        plan.weak,
        abi,
    );
    push_arm64_call(&mut source, plan, abi);
    push_entry_results(&mut source, plan, true);
    push_str(&mut source, ARM64_ENTRY_EPILOGUE);
    target_function_footer(&mut source, plan.public_symbol.as_str(), plan.public_symbol_is_exact, abi);
    assert(source@ =~= arm64_entry_text(*plan, abi));
    push_entry_unit("variadic", source, plan)
}

fn push_riscv_overflow(output: &mut Vec<char>, plan: &BridgeEntryPlan)
    ensures
        final(output)@ == old(output)@ + riscv_overflow_text(*plan),
{
    let ghost start = output@;
    if plan.fixed_gp_used < 8 {
        push_str(output, "addi t0, sp, ");
        push_decimal(output, 448 + plan.fixed_gp_used as u64 * 8);
        push_str(output, "\n");
    } else if plan.overflow_arg_offset == 0 {
        push_str(output, "mv t0, s0\n");
    } else {
        push_str(output, "li t0, ");
        push_decimal(output, plan.overflow_arg_offset as u64);
        push_str(output, "\nadd t0, s0, t0\n");
    }
    assert(output@ =~= start + riscv_overflow_text(*plan));
}

fn push_riscv_call(output: &mut Vec<char>, plan: &BridgeEntryPlan)
    ensures
        final(output)@ == old(output)@ + riscv_call_text(*plan),
{
    let ghost start = output@;
    push_str(output, RISCV_ENTRY_PROLOGUE);
    push_str(output, "li t0, ");
    push_decimal(output, crate::link::bridge::VA_STATE_MAGIC as u64);
    push_str(output, "\nsw t0, 0(sp)\n");
    push_str(output, RISCV_ENTRY_VERSION);
    push_riscv_overflow(output, plan);
    push_str(output, RISCV_ENTRY_RESULT_CLEAR);
    push_str(output, "call ");
    push_str(output, plan.hidden_body_symbol.as_str());
    push_str(output, "\n");
    assert(output@ =~= start + riscv_call_text(*plan));
}

fn render_riscv64_variadic_entry(plan: &BridgeEntryPlan) -> (result: Result<
    GeneratedAssembly,
    LinkError,
>)
    ensures
        assembly_outcome(result) == entry_unit(*plan, "variadic"@, riscv_entry_text(*plan)),
        result matches Err(error) ==> error.code@ == artifact_code(),
{
    let abi = AbiIdentity::RiscvLp64d;
    let mut source: Vec<char> = Vec::new();
    target_function_header(
        &mut source,
        plan.public_symbol.as_str(),
        plan.public_symbol_is_exact,
        plan.linkage,
        plan.weak,
        abi,
    );
    push_riscv_call(&mut source, plan);
    push_entry_results(&mut source, plan, false);
    push_str(&mut source, RISCV_ENTRY_EPILOGUE);
    target_function_footer(&mut source, plan.public_symbol.as_str(), plan.public_symbol_is_exact, abi);
    assert(source@ =~= riscv_entry_text(*plan));
    push_entry_unit("variadic", source, plan)
}

/// The public variadic entry for `abi`.
pub open spec fn variadic_entry_unit(plan: BridgeEntryPlan, abi: AbiIdentity) -> Result<
    (Seq<char>, Seq<char>, Seq<Seq<char>>, Seq<(Seq<char>, u32)>),
    Seq<char>,
> {
    match entry_plan_problem(plan, abi) {
        Some(message) => Err(message),
        None => entry_unit(
            plan,
            "variadic"@,
            match abi {
                AbiIdentity::SysvAmd64Lp64 => x86_entry_text(plan, true),
                AbiIdentity::Aapcs64Lp64 | AbiIdentity::DarwinArm64 => arm64_entry_text(plan, abi),
                AbiIdentity::RiscvLp64d => riscv_entry_text(plan),
            },
        ),
    }
}

/// Renders a public variadic entry for the selected ABI.
pub fn render_target_variadic_entry(plan: &BridgeEntryPlan, abi: AbiIdentity) -> (result: Result<
    GeneratedAssembly,
    LinkError,
>)
    ensures
        assembly_outcome(result) == variadic_entry_unit(*plan, abi),
        result matches Err(error) ==> error.code@ == artifact_code(),
{
    plan.validate(abi)?;
    match abi {
        AbiIdentity::SysvAmd64Lp64 => render_sysv_amd64_entry(plan, true),
        AbiIdentity::Aapcs64Lp64 | AbiIdentity::DarwinArm64 => render_arm64_variadic_entry(plan, abi),
        AbiIdentity::RiscvLp64d => render_riscv64_variadic_entry(plan),
    }
}

/// Renders the public assembly entry of a variadic function for x86-64
/// System V.
pub fn render_variadic_entry(plan: &BridgeEntryPlan) -> (result: Result<GeneratedAssembly, LinkError>)
    ensures
        assembly_outcome(result) == variadic_entry_unit(*plan, AbiIdentity::SysvAmd64Lp64),
        result matches Err(error) ==> error.code@ == artifact_code(),
{
    render_target_variadic_entry(plan, AbiIdentity::SysvAmd64Lp64)
}

/// The public fixed-signature entry for `abi`: x86-64 System V only.
pub open spec fn fixed_entry_unit(plan: BridgeEntryPlan, abi: AbiIdentity) -> Result<
    (Seq<char>, Seq<char>, Seq<Seq<char>>, Seq<(Seq<char>, u32)>),
    Seq<char>,
> {
    match entry_plan_problem(plan, abi) {
        Some(message) => Err(message),
        None => if abi != AbiIdentity::SysvAmd64Lp64 {
            Err("fixed uniform-frame entries are enabled only for x86-64 System V"@)
        } else {
            entry_unit(plan, "fixed"@, x86_entry_text(plan, false))
        },
    }
}

/// Renders a public fixed-signature wide-integer entry; an ordinary call
/// does not define `%al`, so every planned SSE input is saved.
pub fn render_target_fixed_entry(plan: &BridgeEntryPlan, abi: AbiIdentity) -> (result: Result<
    GeneratedAssembly,
    LinkError,
>)
    ensures
        assembly_outcome(result) == fixed_entry_unit(*plan, abi),
        result matches Err(error) ==> error.code@ == artifact_code(),
{
    plan.validate(abi)?;
    if abi != AbiIdentity::SysvAmd64Lp64 {
        return Err(
            artifact_error(
                "fixed uniform-frame entries are enabled only for x86-64 System V".to_owned(),
            ),
        );
    }
    render_sysv_amd64_entry(plan, false)
}

} // verus!
