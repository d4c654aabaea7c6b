use huff_codegen::arg_calls::{bubble_arg_call, Resolved};
use huff_codegen::ast::{
    Argument, AstSpan, ConstVal, ConstantDefinition, Contract, JumpTable, MacroArg,
    MacroDefinition, MacroInvocation, Span, Statement, StatementType,
};
use huff_codegen::codegen::{expand, generate, link};
use huff_codegen::error::{CodegenErrorKind};

fn lit(v: u64) -> [u8; 32] {
    let mut b = [0u8; 32];
    let bytes = v.to_be_bytes();
    b[24..].copy_from_slice(&bytes);
    b
}

fn span() -> AstSpan {
    AstSpan(vec![Span { start: 0, end: 1, file: 0 }])
}

fn stmt(ty: StatementType) -> Statement {
    Statement { ty, span: span() }
}

fn def(name: &str, params: &[&str], body: Vec<StatementType>) -> MacroDefinition {
    MacroDefinition {
        name: name.to_string(),
        parameters: params
            .iter()
            .map(|p| Argument { name: Some(p.to_string()), span: span() })
            .collect(),
        statements: body.into_iter().map(stmt).collect(),
        span: span(),
    }
}

fn invoke(name: &str, args: Vec<MacroArg>) -> StatementType {
    StatementType::Invoke(MacroInvocation { macro_name: name.to_string(), args, span: span() })
}

fn constant(name: &str, value: ConstVal) -> ConstantDefinition {
    ConstantDefinition { name: name.to_string(), value, span: span() }
}

#[test]
fn constant_push() {
    let c = Contract {
        macros: vec![def("MAIN", &[], vec![StatementType::ConstRef("C".to_string())])],
        constants: vec![constant("C", ConstVal::Literal(lit(0x2a)))],
    };
    assert_eq!(generate(&c, "MAIN").unwrap(), vec![0x60, 0x2a]);
}

#[test]
fn constant_push_through_argument_reference() {
    let c = Contract {
        macros: vec![def("MAIN", &[], vec![StatementType::ArgRef("C".to_string())])],
        constants: vec![constant("C", ConstVal::Literal(lit(0x2a)))],
    };
    assert_eq!(generate(&c, "MAIN").unwrap(), vec![0x60, 0x2a]);
}

#[test]
fn opcode_statement() {
    let c = Contract {
        macros: vec![def("MAIN", &[], vec![StatementType::Opcode(0x01)])],
        constants: vec![],
    };
    assert_eq!(generate(&c, "MAIN").unwrap(), vec![0x01]);
}

#[test]
fn opcode_by_name() {
    let c = Contract {
        macros: vec![def("MAIN", &[], vec![StatementType::ArgRef("ADD".to_string())])],
        constants: vec![],
    };
    assert_eq!(generate(&c, "MAIN").unwrap(), vec![0x01]);
}

#[test]
fn literal_argument_substitution() {
    let c = Contract {
        macros: vec![
            def("MAIN", &[], vec![invoke("M", vec![MacroArg::Literal(lit(0x10))])]),
            def("M", &["x"], vec![StatementType::ArgRef("x".to_string())]),
        ],
        constants: vec![],
    };
    assert_eq!(generate(&c, "MAIN").unwrap(), vec![0x60, 0x10]);
}

#[test]
fn two_level_bubbling() {
    let c = Contract {
        macros: vec![
            def("MAIN", &[], vec![invoke("A", vec![MacroArg::Literal(lit(0xff))])]),
            def("A", &["x"], vec![invoke("B", vec![MacroArg::ArgCall("x".to_string())])]),
            def("B", &["y"], vec![StatementType::ArgRef("y".to_string())]),
        ],
        constants: vec![],
    };
    assert_eq!(generate(&c, "MAIN").unwrap(), vec![0x60, 0xff]);
}

#[test]
fn three_level_bubbling_reaches_constant() {
    let c = Contract {
        macros: vec![
            def("MAIN", &[], vec![invoke("A", vec![MacroArg::ArgCall("K".to_string())])]),
            def("A", &["x"], vec![invoke("B", vec![MacroArg::ArgCall("x".to_string())])]),
            def("B", &["y"], vec![StatementType::ArgRef("y".to_string())]),
        ],
        constants: vec![constant("K", ConstVal::Literal(lit(0x0102)))],
    };
    assert_eq!(generate(&c, "MAIN").unwrap(), vec![0x61, 0x01, 0x02]);
}

#[test]
fn label_reference() {
    let c = Contract {
        macros: vec![def(
            "MAIN",
            &[],
            vec![
                StatementType::LabelRef("here".to_string()),
                StatementType::LabelDef("here".to_string()),
            ],
        )],
        constants: vec![],
    };
    assert_eq!(generate(&c, "MAIN").unwrap(), vec![0x61, 0x00, 0x03, 0x5b]);
}

#[test]
fn unknown_name_is_a_label() {
    let c = Contract {
        macros: vec![def(
            "MAIN",
            &[],
            vec![
                StatementType::ArgRef("here".to_string()),
                StatementType::LabelDef("here".to_string()),
            ],
        )],
        constants: vec![],
    };
    assert_eq!(generate(&c, "MAIN").unwrap(), vec![0x61, 0x00, 0x03, 0x5b]);
}

#[test]
fn ident_argument_becomes_jump() {
    let c = Contract {
        macros: vec![
            def(
                "MAIN",
                &[],
                vec![
                    StatementType::Opcode(0x5b),
                    invoke("J", vec![MacroArg::Ident("dest".to_string())]),
                    StatementType::LabelDef("dest".to_string()),
                ],
            ),
            def("J", &["to"], vec![StatementType::ArgRef("to".to_string()), StatementType::Opcode(0x56)]),
        ],
        constants: vec![],
    };
    assert_eq!(generate(&c, "MAIN").unwrap(), vec![0x5b, 0x61, 0x00, 0x05, 0x56, 0x5b]);
}

#[test]
fn unresolved_storage_pointer() {
    let c = Contract {
        macros: vec![def(
            "MAIN",
            &[],
            vec![StatementType::Opcode(0x01), StatementType::ConstRef("P".to_string())],
        )],
        constants: vec![constant("P", ConstVal::FreeStoragePointer)],
    };
    let err = generate(&c, "MAIN").unwrap_err();
    assert_eq!(err.kind, CodegenErrorKind::StoragePointersNotDerived);
}

#[test]
fn storage_pointer_emits_nothing_past_site() {
    let c = Contract {
        macros: vec![def("MAIN", &[], vec![])],
        constants: vec![constant("P", ConstVal::FreeStoragePointer)],
    };
    let m = c.macros[0].clone();
    let mut bytes = vec![(0usize, vec![0x01u8])];
    let mut offset = 1usize;
    let mut scope = vec![m.clone()];
    let mut mis = vec![];
    let mut table = JumpTable::new();
    let r = bubble_arg_call("P", &mut bytes, &m, &c, &mut scope, &mut offset, &mut mis, &mut table);
    let err = r.unwrap_err();
    assert_eq!(err.kind, CodegenErrorKind::StoragePointersNotDerived);
    assert_eq!(err.span, AstSpan(vec![]));
    assert_eq!(err.token, None);
    assert_eq!(bytes, vec![(0usize, vec![0x01u8])]);
    assert_eq!(offset, 1);
}

#[test]
fn constant_wins_over_opcode() {
    // A constant named like an opcode shadows the opcode.
    let c = Contract {
        macros: vec![def("MAIN", &[], vec![StatementType::ArgRef("ADD".to_string())])],
        constants: vec![constant("ADD", ConstVal::Literal(lit(0x07)))],
    };
    assert_eq!(generate(&c, "MAIN").unwrap(), vec![0x60, 0x07]);
}

#[test]
fn missing_constant() {
    let c = Contract {
        macros: vec![def("MAIN", &[], vec![StatementType::ConstRef("NOPE".to_string())])],
        constants: vec![],
    };
    let err = generate(&c, "MAIN").unwrap_err();
    assert_eq!(err.kind, CodegenErrorKind::MissingConstantDefinition("NOPE".to_string()));
}

#[test]
fn missing_macro_invocation_target() {
    let c = Contract {
        macros: vec![def("MAIN", &[], vec![invoke("GONE", vec![])])],
        constants: vec![],
    };
    let err = generate(&c, "MAIN").unwrap_err();
    assert_eq!(err.kind, CodegenErrorKind::InvalidMacroInvocation("GONE".to_string()));
}

#[test]
fn missing_entry_macro() {
    let c = Contract { macros: vec![], constants: vec![] };
    let err = generate(&c, "MAIN").unwrap_err();
    assert_eq!(err.kind, CodegenErrorKind::MissingMacroDefinition("MAIN".to_string()));
}

#[test]
fn unmatched_label() {
    let c = Contract {
        macros: vec![def("MAIN", &[], vec![StatementType::LabelRef("nowhere".to_string())])],
        constants: vec![],
    };
    let err = generate(&c, "MAIN").unwrap_err();
    assert_eq!(err.kind, CodegenErrorKind::UnmatchedJumpLabel);
}

#[test]
fn recursive_macro_fails() {
    let c = Contract {
        macros: vec![
            def("MAIN", &[], vec![invoke("A", vec![])]),
            def("A", &[], vec![invoke("A", vec![])]),
        ],
        constants: vec![],
    };
    let err = generate(&c, "MAIN").unwrap_err();
    assert_eq!(err.kind, CodegenErrorKind::InvalidMacroStatement);
}

#[test]
fn missing_argument_emits_nothing() {
    let c = Contract {
        macros: vec![
            def("MAIN", &[], vec![invoke("M", vec![])]),
            def("M", &["x"], vec![StatementType::ArgRef("x".to_string()), StatementType::Opcode(0x00)]),
        ],
        constants: vec![],
    };
    assert_eq!(generate(&c, "MAIN").unwrap(), vec![0x00]);
    let exp = expand(&c, "MAIN").unwrap();
    assert_eq!(exp.missing_args, vec![span()]);
}

#[test]
fn missing_argument_is_reported() {
    let m = def("M", &["x"], vec![]);
    let (r, bytes, _) = bubble_with(&m, "M", vec![], "x");
    assert_eq!(r.unwrap(), Resolved::ArgumentMissing);
    assert!(bytes.is_empty());
}

#[test]
fn error_spans() {
    let c = Contract {
        macros: vec![def("MAIN", &[], vec![StatementType::ConstRef("P".to_string())])],
        constants: vec![constant("P", ConstVal::FreeStoragePointer)],
    };
    let err = generate(&c, "MAIN").unwrap_err();
    assert_eq!(err.span, span());
    assert_eq!(err.token, None);
    assert_eq!(err.first_span(), Some(Span { start: 0, end: 1, file: 0 }));
    let missing = generate(&c, "NONE").unwrap_err();
    assert_eq!(missing.span, AstSpan(vec![]));
    assert_eq!(missing.first_span(), None);
}

fn bubble_with(
    m: &MacroDefinition,
    target: &str,
    args: Vec<MacroArg>,
    name: &str,
) -> (Result<Resolved, huff_codegen::error::CodegenError>, Vec<(usize, Vec<u8>)>, JumpTable) {
    let c = Contract { macros: vec![m.clone()], constants: vec![] };
    let inv = MacroInvocation { macro_name: target.to_string(), args, span: span() };
    let mut bytes = vec![];
    let mut offset = 0usize;
    let mut scope = vec![m.clone()];
    let mut mis = vec![(1usize, inv)];
    let mut table = JumpTable::new();
    let r = bubble_arg_call(name, &mut bytes, m, &c, &mut scope, &mut offset, &mut mis, &mut table);
    assert_eq!(scope.len(), 1);
    assert_eq!(mis.len(), 1);
    (r, bytes, table)
}

#[test]
fn argument_call_with_single_scope_frame() {
    // The last scope frame stays the outer definition; the invocation of M
    // is popped, so `y` is resolved with no frame left: a label.
    let m = def("M", &["x"], vec![]);
    let (r, bytes, table) = bubble_with(&m, "M", vec![MacroArg::ArgCall("y".to_string())], "x");
    assert_eq!(r.unwrap(), Resolved::Emitted);
    assert_eq!(bytes, vec![(0usize, vec![0x61, 0x00, 0x00])]);
    assert_eq!(table.get(0).unwrap()[0].label, "y");
}

#[test]
fn argument_call_stuck_on_one_frame_reaches_value() {
    let m = def("X", &["a", "b"], vec![]);
    let (r, bytes, _) = bubble_with(
        &m,
        "OTHER",
        vec![MacroArg::ArgCall("b".to_string()), MacroArg::Literal(lit(5))],
        "a",
    );
    assert!(r.is_ok());
    assert_eq!(bytes, vec![(0usize, vec![0x60, 0x05])]);
}

#[test]
fn argument_call_cycle_fails() {
    let m = def("X", &["a", "b"], vec![]);
    let (r, bytes, _) = bubble_with(
        &m,
        "OTHER",
        vec![MacroArg::ArgCall("b".to_string()), MacroArg::ArgCall("a".to_string())],
        "a",
    );
    assert_eq!(r.unwrap_err().kind, CodegenErrorKind::MissingMacroInvocation("X".to_string()));
    assert!(bytes.is_empty());
}

#[test]
fn argument_call_with_shallow_scope_keeps_last_frame() {
    // Two scope frames under three invocations: X stays the outer
    // definition, and the invocation of X is popped.
    let x = def("X", &["p", "q"], vec![]);
    let main = def("MAIN", &[], vec![]);
    let c = Contract { macros: vec![main.clone(), x.clone()], constants: vec![] };
    let frame = |target: &str, args: Vec<MacroArg>| MacroInvocation {
        macro_name: target.to_string(),
        args,
        span: span(),
    };
    let mut bytes = vec![];
    let mut offset = 0usize;
    let mut scope = vec![main.clone(), x.clone()];
    let mut mis = vec![
        (1usize, frame("Y", vec![])),
        (2usize, frame("Y", vec![MacroArg::Literal(lit(8)), MacroArg::Literal(lit(9))])),
        (3usize, frame("X", vec![MacroArg::ArgCall("q".to_string())])),
    ];
    let mut table = JumpTable::new();
    let r = bubble_arg_call("p", &mut bytes, &x, &c, &mut scope, &mut offset, &mut mis, &mut table);
    assert_eq!(r.unwrap(), Resolved::Emitted);
    assert_eq!(bytes, vec![(0usize, vec![0x60, 0x09])]);
    assert_eq!(offset, 2);
}

#[test]
fn jump_target_beyond_two_bytes() {
    let mut body = vec![StatementType::LabelRef("far".to_string())];
    for _ in 0..0x10000 {
        body.push(StatementType::Opcode(0x5b));
    }
    body.push(StatementType::LabelDef("far".to_string()));
    let c = Contract { macros: vec![def("MAIN", &[], body)], constants: vec![] };
    let err = generate(&c, "MAIN").unwrap_err();
    assert_eq!(err.kind, CodegenErrorKind::UsizeConversion("far".to_string()));
}

#[test]
fn fragments_are_contiguous() {
    let c = Contract {
        macros: vec![
            def(
                "MAIN",
                &[],
                vec![
                    StatementType::LiteralPush(lit(0x1234)),
                    invoke("M", vec![MacroArg::Literal(lit(0))]),
                    StatementType::Opcode(0x01),
                    StatementType::LabelDef("end".to_string()),
                ],
            ),
            def("M", &["x"], vec![StatementType::ArgRef("x".to_string())]),
        ],
        constants: vec![],
    };
    let exp = expand(&c, "MAIN").unwrap();
    let mut next = 0usize;
    for (o, b) in &exp.bytes {
        assert_eq!(*o, next);
        next = o + b.len();
    }
    assert_eq!(next, exp.offset);
    let out = link(&exp).unwrap();
    assert_eq!(out.len(), exp.offset);
    assert_eq!(out, vec![0x61, 0x12, 0x34, 0x60, 0x00, 0x01, 0x5b]);
}

#[test]
fn label_reference_patched_at_its_placeholder() {
    // The jump is kept under the number of the innermost frame, 0 here, but
    // the placeholder after the push is what the linker patches.
    let c = Contract {
        macros: vec![def(
            "MAIN",
            &[],
            vec![
                StatementType::LiteralPush(lit(0x1234)),
                StatementType::LabelRef("end".to_string()),
                StatementType::LabelDef("end".to_string()),
            ],
        )],
        constants: vec![],
    };
    let exp = expand(&c, "MAIN").unwrap();
    assert_eq!(exp.jump_table.get(0).unwrap()[0].label, "end");
    assert_eq!(exp.sites, vec![3]);
    assert_eq!(link(&exp).unwrap(), vec![0x61, 0x12, 0x34, 0x61, 0x00, 0x06, 0x5b]);
}

#[test]
fn every_label_reference_in_a_frame_is_patched() {
    let c = Contract {
        macros: vec![def(
            "MAIN",
            &[],
            vec![
                StatementType::LabelRef("a".to_string()),
                StatementType::LabelRef("b".to_string()),
                StatementType::LabelDef("b".to_string()),
                StatementType::LabelDef("a".to_string()),
            ],
        )],
        constants: vec![],
    };
    assert_eq!(
        generate(&c, "MAIN").unwrap(),
        vec![0x61, 0x00, 0x07, 0x61, 0x00, 0x06, 0x5b, 0x5b]
    );
}

#[test]
fn labels_are_scoped_per_invocation() {
    let c = Contract {
        macros: vec![
            def("MAIN", &[], vec![invoke("L", vec![]), invoke("L", vec![])]),
            def(
                "L",
                &[],
                vec![
                    StatementType::LabelRef("top".to_string()),
                    StatementType::LabelDef("top".to_string()),
                ],
            ),
        ],
        constants: vec![],
    };
    let exp = expand(&c, "MAIN").unwrap();
    assert_eq!(exp.labels.len(), 2);
    assert_eq!(exp.labels[0].frame, 1);
    assert_eq!(exp.labels[1].frame, 2);
    assert_eq!(exp.labels[0].offset, 3);
    assert_eq!(exp.labels[1].offset, 7);
    assert_eq!(link(&exp).unwrap(), vec![0x61, 0x00, 0x03, 0x5b, 0x61, 0x00, 0x07, 0x5b]);
}

#[test]
fn same_input_same_output() {
    let c = Contract {
        macros: vec![
            def("MAIN", &[], vec![invoke("A", vec![MacroArg::Literal(lit(0xff))]), StatementType::LabelRef("x".to_string()), StatementType::LabelDef("x".to_string())]),
            def("A", &["x"], vec![invoke("B", vec![MacroArg::ArgCall("x".to_string())])]),
            def("B", &["y"], vec![StatementType::ArgRef("y".to_string())]),
        ],
        constants: vec![],
    };
    assert_eq!(generate(&c, "MAIN"), generate(&c, "MAIN"));
}
