use bfck::Error;
use bfck::compiler::assemble_text;

#[test]
fn compiling_twice_is_byte_identical() {
    let source = "+++[>++<-]>>.";
    let first = assemble_text(source).unwrap();
    let second = assemble_text(source).unwrap();
    assert_eq!(first, second);
}

#[test]
fn output_starts_with_the_preamble() {
    let out = assemble_text("+").unwrap();
    assert!(out.starts_with("format ELF64 executable 3\nentry _s\n"));
    assert!(out.contains("segment executable\n"));
}

#[test]
fn single_operations_emit_direct_instructions() {
    let out = assemble_text("+").unwrap();
    assert!(out.contains("    inc byte [ebx]\n"));
    assert!(!out.contains("_u:"));
    let out = assemble_text("-").unwrap();
    assert!(out.contains("    dec byte [ebx]\n"));
    assert!(!out.contains("_d:"));
    let out = assemble_text(">").unwrap();
    assert!(out.contains("    inc ebx\n"));
    assert!(!out.contains("_r:"));
    let out = assemble_text("<").unwrap();
    assert!(out.contains("    dec ebx\n"));
    assert!(!out.contains("_l:"));
}

#[test]
fn repeated_operations_call_their_helper() {
    let out = assemble_text("+++").unwrap();
    assert!(out.contains("    mov ecx, 3\n    call _u\n"));
    assert!(out.contains("_u:\n    inc byte [ebx]\n    loop _u\n    ret\n"));
    let out = assemble_text("--").unwrap();
    assert!(out.contains("    mov ecx, 2\n    call _d\n"));
    assert!(out.contains("_d:\n"));
    let out = assemble_text(">>>>").unwrap();
    assert!(out.contains("    mov ecx, 4\n    call _r\n"));
    assert!(out.contains("_r:\n"));
    let out = assemble_text("<<<<<").unwrap();
    assert!(out.contains("    mov ecx, 5\n    call _l\n"));
    assert!(out.contains("_l:\n"));
}

#[test]
fn a_helper_appears_only_when_its_flag_was_set() {
    let out = assemble_text("+++").unwrap();
    assert!(out.contains("_u:"));
    assert!(!out.contains("_d:"));
    assert!(!out.contains("_l:"));
    assert!(!out.contains("_r:"));
    assert!(!out.contains("_w:"));
    assert!(!out.contains("_b:"));
}

#[test]
fn writes_call_the_output_helper_once_per_unit() {
    let out = assemble_text("..").unwrap();
    assert!(out.contains("    call _w\n    call _w\n"));
    assert!(out.contains("_w:\n"));
}

#[test]
fn loops_get_numbered_label_pairs() {
    let out = assemble_text("[-][+]").unwrap();
    assert!(out.contains("    call _j0z\n"));
    assert!(out.contains("    call _j1z\n"));
    assert!(out.contains("_j0z:\n    cmp byte [ebx], 0\n    je _b\n    jne _j0b\n"));
    assert!(out.contains("_j0b:\n    dec byte [ebx]\n    cmp byte [ebx], 0\n    jne _j0b\n    je _b\n"));
    assert!(out.contains("_j1b:\n    inc byte [ebx]\n"));
    assert!(out.contains("_b:\n    ret\n"));
}

#[test]
fn nested_loops_render_inner_loops_first() {
    let out = assemble_text("[a[b]c]".replace(['a', 'b', 'c'], "+").as_str()).unwrap();
    // the inner pair takes the next number and its blocks come first in the
    // deferred list
    assert!(out.contains("    call _j0z\n"));
    assert!(out.contains("    call _j1z\n"));
    let inner = out.find("_j1z:").unwrap();
    let outer = out.find("_j0z:").unwrap();
    assert!(inner < outer);
}

#[test]
fn read_emits_nothing() {
    let with_read = assemble_text("+,+").unwrap();
    let without_read = assemble_text("++").unwrap();
    assert_ne!(with_read, without_read);
    assert!(with_read.contains("    inc byte [ebx]\n    inc byte [ebx]\n"));
}

#[test]
fn close_at_the_outer_level_is_unreachable() {
    assert_eq!(assemble_text("]"), Err(Error::UnreachableJump));
    assert_eq!(assemble_text("+]"), Err(Error::UnreachableJump));
}

#[test]
fn unmatched_open_fails_the_compile() {
    assert_eq!(assemble_text("["), Err(Error::UnmatchedOpenBracket(0)));
    assert_eq!(assemble_text("+[+"), Err(Error::UnmatchedOpenBracket(1)));
}

#[test]
fn finish_jumps_to_termination_before_the_blocks() {
    let out = assemble_text("+").unwrap();
    assert!(out.contains("    jmp _e\n"));
}
