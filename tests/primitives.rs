use huff_codegen::ast::{AstSpan, Jump, JumpTable, Span, TokenKind};
use huff_codegen::error::{CodegenError, CodegenErrorKind, LexicalError, LexicalErrorKind};
use huff_codegen::opcodes::{encode_push, push2_placeholder, resolve_opcode, JUMPDEST, PUSH2};

fn lit(bytes: &[u8]) -> [u8; 32] {
    let mut b = [0u8; 32];
    b[32 - bytes.len()..].copy_from_slice(bytes);
    b
}

#[test]
fn push_of_zero_uses_one_byte() {
    assert_eq!(encode_push(&[0u8; 32]), vec![0x60, 0x00]);
}

#[test]
fn push_strips_leading_zeros() {
    assert_eq!(encode_push(&lit(&[0x2a])), vec![0x60, 0x2a]);
    assert_eq!(encode_push(&lit(&[0x01, 0x00])), vec![0x61, 0x01, 0x00]);
    assert_eq!(encode_push(&lit(&[0x00, 0xff, 0x00, 0x01])), vec![0x62, 0xff, 0x00, 0x01]);
}

#[test]
fn push_of_full_width_literal() {
    let full = [0xabu8; 32];
    let r = encode_push(&full);
    assert_eq!(r.len(), 33);
    assert_eq!(r[0], 0x7f);
    assert_eq!(&r[1..], &full[..]);
}

#[test]
fn push_length_matches_value_size() {
    for width in 1..=32usize {
        let mut b = [0u8; 32];
        b[32 - width] = 1;
        let r = encode_push(&b);
        assert_eq!(r.len(), 1 + width);
        assert_eq!(r[0] as usize, 0x5f + width);
    }
}

#[test]
fn placeholder_is_push2() {
    assert_eq!(push2_placeholder(), vec![PUSH2, 0, 0]);
    assert_eq!(PUSH2, 0x61);
    assert_eq!(JUMPDEST, 0x5b);
}

#[test]
fn opcode_names() {
    assert_eq!(resolve_opcode("ADD"), Some(0x01));
    assert_eq!(resolve_opcode("STOP"), Some(0x00));
    assert_eq!(resolve_opcode("JUMPDEST"), Some(0x5b));
    assert_eq!(resolve_opcode("PUSH2"), Some(0x61));
    assert_eq!(resolve_opcode("DUP16"), Some(0x8f));
    assert_eq!(resolve_opcode("SWAP1"), Some(0x90));
    assert_eq!(resolve_opcode("SELFDESTRUCT"), Some(0xff));
    assert_eq!(resolve_opcode("add"), None);
    assert_eq!(resolve_opcode("here"), None);
    assert_eq!(resolve_opcode(""), None);
}

#[test]
fn jump_table_insert_replaces() {
    let mut t = JumpTable::new();
    assert!(t.get(3).is_none());
    let j = |l: &str| Jump { label: l.to_string(), bytecode_index: 0, span: AstSpan(vec![]) };
    t.insert(3, vec![j("a")]);
    t.insert(3, vec![j("b")]);
    t.insert(5, vec![j("c")]);
    assert_eq!(t.get(3).unwrap()[0].label, "b");
    assert_eq!(t.get(5).unwrap()[0].label, "c");
    assert_eq!(t.entries().len(), 3);
}

#[test]
fn span_duplicate_is_equal() {
    let s = AstSpan(vec![Span { start: 1, end: 4, file: 2 }, Span { start: 9, end: 12, file: 0 }]);
    assert_eq!(s.duplicate(), s);
}

#[test]
fn error_constructors() {
    let e = CodegenError::new(
        CodegenErrorKind::UnmatchedJumpLabel,
        AstSpan(vec![Span { start: 0, end: 2, file: 1 }]),
        Some(TokenKind::Ident("x".to_string())),
    );
    assert_eq!(e.kind, CodegenErrorKind::UnmatchedJumpLabel);
    assert_eq!(e.span.0.len(), 1);
    assert_eq!(e.token, Some(TokenKind::Ident("x".to_string())));
    let l = LexicalError::new(LexicalErrorKind::InvalidCharacter('$'), Span { start: 3, end: 4, file: 0 });
    assert_eq!(l.kind, LexicalErrorKind::InvalidCharacter('$'));
    assert_eq!(l.span.start, 3);
}
