use bfjit::compiler::Compilation;

const HEADER: &str = "global    _main\nextern    _printf\ndefault    rel\n\n\nsection   .text\n_main:  \n    sub    rsp, 8 ; Align the stack pointer \n    mov    r8, cell ; r8 will be our data pointer\n    mov    r9, output ; r9 will be our output pointer\n";

const FOOTER: &str = "    mov rax, 0\n    mov rdi, output\n    call _printf\n    add rsp, 8 ; Undo stack alignment\nret\n    mov    rax, 0x2000001 ; Exit\n    mov    rdi, 0\n    syscall\n\nsection   .bss\n\n";

fn expected(body: &str, output_bytes: usize, cells: usize) -> String {
    format!(
        "{}{}{}output: resb {} \ncell:   resb {} \n",
        HEADER, body, FOOTER, output_bytes, cells
    )
}

#[test]
fn assembly_for_empty_program() {
    let rendered = Compilation::new(String::new()).generate_assembly();
    assert_eq!(rendered, expected("", 0, 1));
}

#[test]
fn assembly_translates_each_symbol() {
    let rendered = Compilation::new(String::from("+>-<.,")).generate_assembly();
    let body = "    inc    byte [r8]\n    inc    r8\n    dec    byte [r8]\n    dec    r8\n    mov    r10b, byte [r8]\n    mov    byte [r9], r10b\n    inc    r9\n\n";
    assert_eq!(rendered, expected(body, 1, 2));
}

#[test]
fn assembly_numbers_nested_loops() {
    let rendered = Compilation::new(String::from("[[]]")).generate_assembly();
    let body = "\n.loop1:\n\n.loop2:\n    cmp     byte [r8], 0\n    jnz    .loop2\n    cmp     byte [r8], 0\n    jnz    .loop1\n";
    assert_eq!(rendered, expected(body, 0, 1));
}

#[test]
fn assembly_numbers_sequential_loops() {
    let rendered = Compilation::new(String::from("[][]")).generate_assembly();
    let body = "\n.loop1:\n    cmp     byte [r8], 0\n    jnz    .loop1\n\n.loop2:\n    cmp     byte [r8], 0\n    jnz    .loop2\n";
    assert_eq!(rendered, expected(body, 0, 1));
}

#[test]
fn assembly_skips_unrecognized_characters() {
    let with_comments = Compilation::new(String::from("say + hello >")).generate_assembly();
    let bare = Compilation::new(String::from("+>")).generate_assembly();
    assert_eq!(with_comments, bare);
}

#[test]
fn assembly_reserves_space_from_counts() {
    // Ten emits and two pointer moves: the reserved output space counts
    // every `.`, the cell space every `>` plus the starting cell.
    let rendered = Compilation::new(String::from(".>.>........")).generate_assembly();
    assert!(rendered.ends_with("output: resb 10 \ncell:   resb 3 \n"));
}
