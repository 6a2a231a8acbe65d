use bedrockc::codegen::{CodegenError, Codegen};
use bedrockc::codegen_asm::AsmGenerator;
use bedrockc::codegen_bin::BinGenerator;
use bedrockc::lexer::{Lexer, Token, TokenKind};
use bedrockc::parser::{Expected, ParseError, Parser};
use bedrockc::{compile, Backend, CompileError, Output};

const HEADER: &str = "bits 64\nsection .text\nglobal kernel_main\n\n";

fn assembly(source: &str) -> String {
    match compile(source, Backend::Assembly) {
        Ok(Output::Assembly(text)) => text,
        other => panic!("unexpected {:?}", other),
    }
}

fn pattern(source: &str) -> Vec<u8> {
    match compile(source, Backend::PatternMatched) {
        Ok(Output::MachineCode(bytes)) => bytes,
        other => panic!("unexpected {:?}", other),
    }
}

fn table(source: &str) -> Result<Vec<u8>, CompileError> {
    match compile(source, Backend::TableDriven) {
        Ok(Output::MachineCode(bytes)) => Ok(bytes),
        Ok(other) => panic!("unexpected {:?}", other),
        Err(e) => Err(e),
    }
}

#[test]
fn empty_entry_function_assembly() {
    let text = assembly("fn kernel_main() -> void {}");
    assert_eq!(
        text,
        format!(
            "{}kernel_main:\n    push rbp\n    mov rbp, rsp\n    mov rsp, rbp\n    pop rbp\n    ret\n\n",
            HEADER
        )
    );
    assert!(!text.is_empty());
}

#[test]
fn kernel_example_assembly() {
    let text = assembly(
        "#[address(0xB8000)] volatile let VIDEO_MEM: *u16;
         fn kernel_main() -> void { unsafe { *VIDEO_MEM = cast<u16>(66) | 0x0F00; } loop { asm(\"hlt\"); } }",
    );
    let expected = format!(
        "{}VIDEO_MEM equ 753664\nkernel_main:\n    push rbp\n    mov rbp, rsp\n\
         \x20   mov rax, 66\n    push rax\n    mov rax, 3840\n    mov rbx, rax\n    pop rax\n    or rax, rbx\n\
         \x20   push rax\n    mov rax, VIDEO_MEM\n    pop rbx\n    mov [rax], bx\n\
         .L_loop_0:\n    hlt\n    jmp .L_loop_0\n\
         \x20   mov rsp, rbp\n    pop rbp\n    ret\n\n",
        HEADER
    );
    assert_eq!(text, expected);
}

#[test]
fn globals_with_and_without_address() {
    let text = assembly("#[address(1)] #[address(0x10)] let a: u8; let b: u32;");
    assert_eq!(
        text,
        format!("{}a equ 16\n; global b has no address; no storage is allocated\n", HEADER)
    );
}

#[test]
fn locals_get_frame_slots() {
    let text = assembly("fn f() -> void { let x: u64 = 5; let y: u64 = x; let x: u64 = y; x; z; }");
    let expected = format!(
        "{}f:\n    push rbp\n    mov rbp, rsp\n\
         \x20   mov rax, 5\n    push rax\n    ; variable x at [rbp-8]\n\
         \x20   mov rax, [rbp-8]\n    push rax\n    ; variable y at [rbp-16]\n\
         \x20   mov rax, [rbp-16]\n    push rax\n    ; variable x at [rbp-24]\n\
         \x20   mov rax, [rbp-24]\n\
         \x20   mov rax, z\n\
         \x20   mov rsp, rbp\n    pop rbp\n    ret\n\n",
        HEADER
    );
    assert_eq!(text, expected);
}

#[test]
fn locals_reset_between_functions() {
    let text = assembly("fn f() -> void { let x: u8 = 1; } fn g() -> void { x; }");
    assert!(text.contains("g:\n    push rbp\n    mov rbp, rsp\n    mov rax, x\n"));
}

#[test]
fn loop_labels_are_distinct() {
    let text = assembly("fn f() -> void { loop { loop { } } } fn g() -> void { loop { } }");
    assert!(text.contains(".L_loop_0:\n.L_loop_1:\n    jmp .L_loop_1\n    jmp .L_loop_0\n"));
    assert!(text.contains("g:\n    push rbp\n    mov rbp, rsp\n.L_loop_2:\n    jmp .L_loop_2\n"));
}

#[test]
fn calls_port_read_and_dereference() {
    let text = assembly("fn f() -> void { let k: u8 = inb(0x60); handler(); *p; inb(); }");
    let expected = format!(
        "{}f:\n    push rbp\n    mov rbp, rsp\n\
         \x20   mov rax, 96\n    mov dx, ax\n    in al, dx\n    and rax, 0xFF\n    push rax\n    ; variable k at [rbp-8]\n\
         \x20   call handler\n\
         \x20   mov rax, p\n    mov rax, [rax]\n\
         \x20   mov rsp, rbp\n    pop rbp\n    ret\n\n",
        HEADER
    );
    assert_eq!(text, expected);
}

#[test]
fn unsupported_assignment_target_in_assembly() {
    let text = assembly("fn f() -> void { x = 1; }");
    assert!(text.contains("    mov rax, 1\n    push rax\n    ; unsupported assignment target\n    add rsp, 8\n"));
}

#[test]
fn generator_can_be_used_directly() {
    let program = Parser::new(Lexer::new("fn kernel_main() -> void {}")).parse_program().unwrap();
    let mut generator = AsmGenerator::new();
    let first = generator.generate(&program);
    let second = generator.generate(&program);
    assert_eq!(first, second);
}

#[test]
fn halt_loop_pattern_backend() {
    let bytes = pattern("fn kernel_main() -> void { loop { asm(\"hlt\"); } }");
    assert_eq!(bytes, vec![0xF4, 0xEB, 0xFD]);
}

#[test]
fn halt_loop_end_to_end() {
    let bytes = pattern("fn kernel_main() -> void { loop { asm(\"hlt\"); } }");
    let halt = bytes.iter().position(|&b| b == 0xF4).unwrap();
    assert_eq!(bytes[halt + 1], 0xEB);
    let after_jump = (halt + 3) as i64;
    let displacement = bytes[halt + 2] as i8 as i64;
    assert_eq!(after_jump + displacement, halt as i64);
}

#[test]
fn pattern_backend_video_store_and_two_halts() {
    let bytes = pattern(
        "fn kernel_main() -> void { unsafe { *VIDEO = 1; x; } loop { asm(\"hlt\"); asm(\"cli\"); asm(\"hlt\"); } }",
    );
    assert_eq!(
        bytes,
        vec![0x48, 0xC7, 0xC0, 0x00, 0x80, 0x0B, 0x00, 0x66, 0xC7, 0x00, 0x42, 0x0F, 0xF4, 0xF4, 0xEB, 0xFC]
    );
}

#[test]
fn pattern_backend_skips_other_functions_and_shapes() {
    assert_eq!(pattern("fn other() -> void { loop { asm(\"hlt\"); } }"), Vec::<u8>::new());
    assert_eq!(pattern("fn kernel_main() -> void { let x: u8 = 1; f(); }"), Vec::<u8>::new());
    assert_eq!(pattern("fn kernel_main() -> void { loop { } }"), vec![0xEB, 0xFE]);
}

#[test]
fn pattern_generator_directly() {
    let program = Parser::new(Lexer::new("fn kernel_main() -> void { loop { asm(\"hlt\"); } }"))
        .parse_program()
        .unwrap();
    let mut generator = BinGenerator::new();
    assert_eq!(generator.generate(&program), vec![0xF4, 0xEB, 0xFD]);
}

#[test]
fn table_backend_entry_jump() {
    let bytes = table("fn a() -> void {} fn b() -> void {} fn kernel_main() -> void {}").unwrap();
    let frame = [0x55u8, 0x89, 0xE5, 0x89, 0xEC, 0x5D, 0xC3];
    let mut expected = vec![0xE9, 0x0E, 0x00];
    for _ in 0..3 {
        expected.extend_from_slice(&frame);
    }
    assert_eq!(bytes, expected);
    let entry = 3 + 2 * frame.len();
    let displacement = u16::from_le_bytes([bytes[1], bytes[2]]) as usize;
    assert_eq!(displacement, entry - 3);
    assert_eq!(&bytes[entry..entry + 3], &[0x55, 0x89, 0xE5]);
}

#[test]
fn table_backend_entry_first() {
    let bytes = table("fn kernel_main() -> void {} let g: u8; fn b() -> void {}").unwrap();
    assert_eq!(&bytes[..3], &[0xE9, 0x00, 0x00]);
    assert_eq!(bytes.len(), 3 + 7 + 7);
}

#[test]
fn table_backend_halt_loop() {
    let bytes = table("fn kernel_main() -> void { loop { asm(\"cli; hlt\"); } }").unwrap();
    assert_eq!(
        bytes,
        vec![0xE9, 0x00, 0x00, 0x55, 0x89, 0xE5, 0xF4, 0xE9, 0xFC, 0xFF, 0x89, 0xEC, 0x5D, 0xC3]
    );
    // the jump at offset 7 ends at 10 and goes back 4 bytes, to the halt at 6
    assert_eq!(10 + i16::from_le_bytes([bytes[8], bytes[9]]) as i64, 6);
}

#[test]
fn table_backend_screen_builtins() {
    let bytes = table("fn kernel_main() -> void { clear(); newline(); unsafe { clear(); } }").unwrap();
    let mut expected = vec![0xE9, 0x00, 0x00, 0x55, 0x89, 0xE5];
    expected.extend_from_slice(&[0xB8, 0x03, 0x00, 0xCD, 0x10]);
    expected.extend_from_slice(&[0xB4, 0x0E, 0xB0, 0x0D, 0xCD, 0x10, 0xB4, 0x0E, 0xB0, 0x0A, 0xCD, 0x10]);
    expected.extend_from_slice(&[0xB8, 0x03, 0x00, 0xCD, 0x10]);
    expected.extend_from_slice(&[0x89, 0xEC, 0x5D, 0xC3]);
    assert_eq!(bytes, expected);
}

#[test]
fn table_backend_missing_entry() {
    assert_eq!(table("fn a() -> void {}"), Err(CompileError::Codegen(CodegenError::MissingEntry)));
}

#[test]
fn table_backend_unsupported_statement() {
    assert_eq!(
        table("fn kernel_main() -> void { let x: u8 = 1; }"),
        Err(CompileError::Codegen(CodegenError::UnsupportedStatement))
    );
    assert_eq!(
        table("fn kernel_main() -> void { asm(\"cli\"); }"),
        Err(CompileError::Codegen(CodegenError::UnsupportedStatement))
    );
    assert_eq!(
        table("fn kernel_main() -> void {} fn b() -> void { clear(1); }"),
        Err(CompileError::Codegen(CodegenError::UnsupportedStatement))
    );
}

#[test]
fn table_generator_directly() {
    let program = Parser::new(Lexer::new("fn kernel_main() -> void {}")).parse_program().unwrap();
    let mut generator = Codegen::new();
    assert_eq!(generator.compile(&program), Ok(vec![0xE9, 0x00, 0x00, 0x55, 0x89, 0xE5, 0x89, 0xEC, 0x5D, 0xC3]));
}

#[test]
fn malformed_input_gives_no_output() {
    for backend in [Backend::Assembly, Backend::PatternMatched, Backend::TableDriven] {
        assert_eq!(
            compile("fn () -> void {}", backend),
            Err(CompileError::Parse(ParseError::Unexpected {
                expected: Expected::Token(TokenKind::Identifier),
                found: Token::LParen,
            }))
        );
    }
}

#[test]
fn lexical_error_is_reported_as_such() {
    assert_eq!(
        compile("fn kernel_main() -> void { \"open }", Backend::Assembly),
        Err(CompileError::Lexical(bedrockc::lexer::LexError::UnterminatedString { pos: 27 }))
    );
}
