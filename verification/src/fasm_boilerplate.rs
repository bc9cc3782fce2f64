use vstd::prelude::*;

verus! {

/// The fixed preamble of every generated program: the executable format
/// header, a writeable tape region, the zero-fill routine `_i`, the process
/// exit routine `_e`, and the entry point `_s` that sets the cell pointer
/// register and zeroes the tape.
pub open spec fn fasm_boilerplate_text() -> Seq<char> {
    "format ELF64 executable 3\nentry _s\nSe equ 60\nSw equ 1\nC equ 30000\nsegment writeable\n    tape rb C\nsegment executable\n_i:\n    mov byte [ebx], 0\n    inc ebx\n    loop _i\n    ret\n_e:\n    mov eax, Se\n    xor edi, edi\n    syscall\n_s:\n    mov ebx, tape\n    mov ecx, C\n    call _i\n"@
}

/// The shared helper that increments the current cell `ecx` times.
pub open spec fn multi_inc_text() -> Seq<char> {
    "_u:\n    inc byte [ebx]\n    loop _u\n    ret"@
}

/// The shared helper that decrements the current cell `ecx` times.
pub open spec fn multi_dec_text() -> Seq<char> {
    "_d:\n    dec byte [ebx]\n    loop _d\n    ret"@
}

/// The shared helper that moves the cell pointer right `ecx` times.
pub open spec fn multi_right_text() -> Seq<char> {
    "_r:\n    inc ebx\n    loop _r\n    ret"@
}

/// The shared helper that moves the cell pointer left `ecx` times.
pub open spec fn multi_left_text() -> Seq<char> {
    "_l:\n    dec ebx\n    loop _l\n    ret"@
}

/// The shared helper that writes the current cell to standard output.
pub open spec fn write_text() -> Seq<char> {
    "_w:\n    mov eax, Sw\n    mov edi, 1\n    mov esi, ebx\n    mov edx, 1\n    syscall\n    ret"@
}

/// The shared label every loop exit jumps through.
pub open spec fn break_text() -> Seq<char> {
    "_b:\n    ret"@
}

pub fn fasm_boilerplate() -> (r: &'static str)
    ensures
        r@ == fasm_boilerplate_text(),
{
    "format ELF64 executable 3\nentry _s\nSe equ 60\nSw equ 1\nC equ 30000\nsegment writeable\n    tape rb C\nsegment executable\n_i:\n    mov byte [ebx], 0\n    inc ebx\n    loop _i\n    ret\n_e:\n    mov eax, Se\n    xor edi, edi\n    syscall\n_s:\n    mov ebx, tape\n    mov ecx, C\n    call _i\n"
}

pub fn multi_inc() -> (r: &'static str)
    ensures
        r@ == multi_inc_text(),
{
    "_u:\n    inc byte [ebx]\n    loop _u\n    ret"
}

pub fn multi_dec() -> (r: &'static str)
    ensures
        r@ == multi_dec_text(),
{
    "_d:\n    dec byte [ebx]\n    loop _d\n    ret"
}

pub fn multi_right() -> (r: &'static str)
    ensures
        r@ == multi_right_text(),
{
    "_r:\n    inc ebx\n    loop _r\n    ret"
}

pub fn multi_left() -> (r: &'static str)
    ensures
        r@ == multi_left_text(),
{
    "_l:\n    dec ebx\n    loop _l\n    ret"
}

pub fn write_helper() -> (r: &'static str)
    ensures
        r@ == write_text(),
{
    "_w:\n    mov eax, Sw\n    mov edi, 1\n    mov esi, ebx\n    mov edx, 1\n    syscall\n    ret"
}

pub fn break_helper() -> (r: &'static str)
    ensures
        r@ == break_text(),
{
    "_b:\n    ret"
}

} // verus!
