use bfjit::jit::{jit_compile_to_bytes, Context, JITBuffer, PAGESIZE};
use bfjit::parser::parse;

const PROLOGUE: [u8; 17] = [
    0x55, // push rbp
    0x48, 0x89, 0xec, // frame setup
    0x48, 0x31, 0xc0, // xor rax, rax
    0x50, 0x50, 0x50, 0x50, // four pushes: the zeroed 32-byte scratch
    0x4d, 0x31, 0xc0, // xor r8, r8
    0x4c, 0x8b, 0x0e, // mov r9, [rsi]
];

const EPILOGUE_RET: [u8; 9] = [
    0x48, 0x83, 0xc4, 0x20, // add rsp, 32
    0x48, 0x89, 0xe5, // frame restore
    0x5d, // pop rbp
    0xc3, // ret
];

fn expected_page(body: &[u8]) -> Vec<u8> {
    let mut v = Vec::new();
    v.extend_from_slice(&PROLOGUE);
    v.extend_from_slice(body);
    v.extend_from_slice(&EPILOGUE_RET);
    assert!(v.len() <= PAGESIZE);
    v.resize(PAGESIZE, 0);
    v
}

fn compile(src: &str) -> Vec<u8> {
    jit_compile_to_bytes(&parse(src).unwrap())
}

#[test]
fn empty_program_is_prologue_epilogue_only() {
    assert_eq!(compile(""), expected_page(&[]));
}

#[test]
fn jit_page_is_page_sized() {
    assert_eq!(compile("").len(), PAGESIZE);
}

#[test]
fn simple_operations_encode_in_order() {
    let body = [
        0x42, 0xfe, 0x04, 0x04, // inc byte [rsp + r8]
        0x42, 0xfe, 0x04, 0x04, 0x42, 0xfe, 0x04, 0x04, // inc, inc
        0x42, 0x8a, 0x04, 0x04, // mov al, [rsp + r8]
        0x41, 0x88, 0x01, // mov [r9], al
        0x49, 0xff, 0xc1, // inc r9
    ];
    assert_eq!(compile("+++."), expected_page(&body));
}

#[test]
fn pointer_moves_encode() {
    let body = [
        0x49, 0xff, 0xc0, // inc r8
        0x49, 0xff, 0xc8, // dec r8
    ];
    assert_eq!(compile("><"), expected_page(&body));
}

#[test]
fn read_byte_emits_no_instructions() {
    assert_eq!(compile(","), expected_page(&[]));
}

#[test]
fn loop_close_jumps_back_to_its_open() {
    // The open records position 17 (right after the prologue); the close
    // tests the cell and jumps back 15 bytes from the end of its
    // displacement field.
    let body = [
        0x42, 0xfe, 0x0c, 0x04, // dec byte [rsp + r8]
        0x42, 0x80, 0x3c, 0x04, 0x00, // cmp byte [rsp + r8], 0
        0x0f, 0x85, 0xf1, 0xff, 0xff, 0xff, // jnz -15
    ];
    assert_eq!(compile("[-]"), expected_page(&body));
}

#[test]
fn nested_loops_jump_to_matching_opens() {
    let body = [
        0x42, 0xfe, 0x0c, 0x04, // dec
        0x42, 0x80, 0x3c, 0x04, 0x00, 0x0f, 0x85, 0xf1, 0xff, 0xff, 0xff, // inner: jnz -15
        0x42, 0x80, 0x3c, 0x04, 0x00, 0x0f, 0x85, 0xe6, 0xff, 0xff, 0xff, // outer: jnz -26
    ];
    assert_eq!(compile("[[-]]"), expected_page(&body));
}

#[test]
fn compiling_twice_gives_identical_pages() {
    assert_eq!(compile("+[->+.<]"), compile("+[->+.<]"));
}

#[test]
fn fresh_buffer_is_a_zero_page() {
    let buffer = JITBuffer::new(1);
    let bytes = buffer.bytes();
    assert_eq!(bytes.len(), PAGESIZE);
    assert!(bytes.iter().all(|&b| b == 0));
}

#[test]
fn finalized_buffer_keeps_its_bytes() {
    let mut buffer = JITBuffer::new(1);
    buffer.map_executable();
    assert_eq!(buffer.bytes().len(), PAGESIZE);
    assert!(buffer.bytes().iter().all(|&b| b == 0));
}

#[test]
fn context_starts_zeroed_and_sized() {
    let ctx = Context::new(3);
    assert_eq!(ctx.output(), &vec![0u8, 0, 0]);
    assert_eq!(ctx.to_string(), "\0\0\0");
}

#[test]
fn empty_context_renders_empty() {
    let ctx = Context::new(0);
    assert_eq!(ctx.output().len(), 0);
    assert_eq!(ctx.to_string(), "");
}
