use rivet::ast::{
    BinaryOp, Expr, ExternalDecl, FunctionDef, FunctionType, Initializer, IntLiteralBase, IntLiteralSuffix,
    LocalDecl, Param, Program, Statement, Type,
};
use rivet::codegen::{can_generate, generate, CodegenTarget, FrameLayout};
use rivet::driver::{compile, format_diagnostic, format_file_error, line_col, CompileStep};
use rivet::lexer::{lex, Token, TokenKind};
use rivet::preprocess::{
    preprocess, splice_escaped_newlines, FileStore, MacroDef, MacroTable, PreprocessFileError,
};
use rivet::sema::{check, push_type_name};
use rivet::source::{dummy_file_id, SourceMap, Span};

fn span() -> Span {
    Span {
        file_id: dummy_file_id(),
        start: 0,
        end: 0,
    }
}

fn int_literal(value: u64) -> Expr {
    Expr::IntLiteral {
        value,
        suffix: IntLiteralSuffix::Unsuffixed,
        base: IntLiteralBase::Decimal,
        span: span(),
    }
}

fn variable(name: &str) -> Expr {
    Expr::Variable {
        name: name.to_string(),
        span: span(),
    }
}

fn param(ty: Type, name: &str) -> Param {
    Param {
        ty,
        name: name.to_string(),
        name_span: span(),
    }
}

fn main_with(params: Vec<Param>, body: Vec<Statement>) -> Program {
    Program {
        declarations: vec![ExternalDecl::FunctionDef(FunctionDef {
            return_type: Type::Int,
            name: "main".to_string(),
            name_span: span(),
            params,
            body,
        })],
        eof_span: span(),
    }
}

fn compile_text(source: &str) -> Result<String, String> {
    let path = "program.c";
    let mut files = FileStore::new();
    files.insert(path.to_string(), Ok(source.to_string()));
    loop {
        match compile(path, &files) {
            CompileStep::NeedFile(missing) => {
                files.insert(missing, Err("No such file or directory (os error 2)".to_string()));
            }
            CompileStep::Done(result) => return result,
        }
    }
}

#[test]
fn frame_layout_aligns_each_local_below_the_saved_registers() {
    let program = main_with(
        vec![param(Type::Int, "a"), param(Type::Char, "b"), param(Type::Int, "c")],
        vec![Statement::Return(variable("a"))],
    );
    let typed = check(&program).expect("semantic check should succeed");
    let rivet::typed_ast::TypedExternalDecl::Function(function) = &typed.declarations[0] else {
        panic!("expected a function");
    };
    let frame = FrameLayout::for_function(function);
    let offsets: Vec<i32> = frame.locals.iter().map(|(_, slot)| slot.offset).collect();
    assert_eq!(offsets, vec![-12, -13, -20]);
    assert_eq!(frame.size, 32);
}

#[test]
fn frame_slots_of_distinct_locals_do_not_overlap() {
    let program = main_with(
        vec![param(Type::Char, "a")],
        vec![
            Statement::Decl(vec![LocalDecl {
                ty: Type::Array {
                    element: Box::new(Type::Int),
                    len: 3,
                },
                name: "xs".to_string(),
                name_span: span(),
                init: None,
            }]),
            Statement::Decl(vec![LocalDecl {
                ty: Type::Char,
                name: "c".to_string(),
                name_span: span(),
                init: None,
            }]),
            Statement::Return(int_literal(0)),
        ],
    );
    let typed = check(&program).expect("semantic check should succeed");
    let rivet::typed_ast::TypedExternalDecl::Function(function) = &typed.declarations[0] else {
        panic!("expected a function");
    };
    let frame = FrameLayout::for_function(function);
    let slots: Vec<(i32, i32)> = frame.locals.iter().map(|(_, slot)| (slot.offset, slot.size)).collect();
    assert_eq!(slots, vec![(-9, 1), (-24, 12), (-25, 1)]);
    for later in 1..slots.len() {
        for earlier in 0..later {
            assert!(slots[later].0 + slots[later].1 <= slots[earlier].0);
        }
    }
    for (offset, size) in &slots {
        assert!(-frame.size <= *offset);
        assert!(offset + size <= -8);
    }
    assert_eq!(frame.size % 16, 0);
}

#[test]
fn parameters_are_saved_with_their_width() {
    let program = main_with(
        vec![param(Type::Int, "a"), param(Type::Char, "b")],
        vec![Statement::Return(variable("b"))],
    );
    let typed = check(&program).expect("semantic check should succeed");
    assert!(can_generate(&typed));
    let assembly = generate(&typed, CodegenTarget::Rv32);
    assert_eq!(
        assembly,
        ".globl main\nmain:\n    addi sp, sp, -16\n    sw ra, 12(sp)\n    sw s0, 8(sp)\n    addi s0, sp, 16\n    sw a0, -12(s0)\n    andi a1, a1, 255\n    sb a1, -13(s0)\n    addi a0, s0, -13\n    lbu a0, 0(a0)\n    j main_end\nmain_end:\n    lw ra, 12(sp)\n    lw s0, 8(sp)\n    addi sp, sp, 16\n    ret\n"
    );
}

#[test]
fn labels_are_numbered_by_one_counter_across_the_program() {
    let assembly = compile_text(
        "int f(int x) { while (x) { x = x - 1; } return x; }\nint main() { if (1) { return 2; } return f(3); }\n",
    )
    .expect("compilation should succeed");
    assert!(assembly.contains("while_start_0:\n"));
    assert!(assembly.contains("    beqz a0, while_end_1\n"));
    assert!(assembly.contains("    beqz a0, if_end_2\n"));
    assert!(assembly.contains("if_end_2:\n"));
}

#[test]
fn readme_program_compiles_to_both_functions() {
    let assembly = compile_text(
        "int sum3(char *p) {\n    int sum = 0;\n\n    for (int i = 0; i < 3; i++) {\n        sum += *p;\n        p++;\n    }\n\n    return sum;\n}\n\nint main() {\n    char buf[3] = {'a', 'b', 'c'};\n    return sum3(buf);\n}\n",
    )
    .expect("compilation should succeed");
    assert!(assembly.starts_with(".globl sum3\nsum3:\n"));
    assert!(assembly.contains(".globl main\nmain:\n"));
    assert!(assembly.contains("    call sum3\n"));
    assert!(assembly.contains("    li a0, 97\n"));
    assert!(assembly.ends_with("main_end:\n    lw ra, 12(sp)\n    lw s0, 8(sp)\n    addi sp, sp, 16\n    ret\n"));
}

#[test]
fn array_values_that_the_generator_cannot_load_are_reported() {
    let result = compile_text("int main() { int a[2][3]; a[1]; return 0; }\n");
    assert_eq!(
        result,
        Err("error: the program uses a construct that code generation does not support".to_string())
    );
}

#[test]
fn checked_programs_without_main_report_at_end_of_input() {
    let program = Program {
        declarations: vec![ExternalDecl::FunctionDef(FunctionDef {
            return_type: Type::Int,
            name: "helper".to_string(),
            name_span: span(),
            params: vec![],
            body: vec![Statement::Return(int_literal(1))],
        })],
        eof_span: Span {
            file_id: dummy_file_id(),
            start: 7,
            end: 7,
        },
    };
    let err = check(&program).expect_err("semantic check should fail");
    assert_eq!(err.message, "no 'main' function found");
    assert_eq!(err.span.start, 7);
}

#[test]
fn checked_program_keeps_one_typed_function_per_definition() {
    let program = Program {
        declarations: vec![
            ExternalDecl::FunctionDef(FunctionDef {
                return_type: Type::Char,
                name: "helper".to_string(),
                name_span: span(),
                params: vec![param(Type::Int, "x")],
                body: vec![Statement::Return(variable("x"))],
            }),
            ExternalDecl::FunctionDef(FunctionDef {
                return_type: Type::Int,
                name: "main".to_string(),
                name_span: span(),
                params: vec![],
                body: vec![Statement::Return(int_literal(0))],
            }),
        ],
        eof_span: span(),
    };
    let typed = check(&program).expect("semantic check should succeed");
    assert_eq!(typed.declarations.len(), 2);
    let rivet::typed_ast::TypedExternalDecl::Function(helper) = &typed.declarations[0] else {
        panic!("expected a function");
    };
    assert_eq!(helper.name, "helper");
    assert_eq!(helper.return_type, Type::Char);
    assert_eq!(helper.params.len(), 1);
}

#[test]
fn return_value_must_fit_the_return_type() {
    let program = main_with(
        vec![param(Type::Pointer(Box::new(Type::Int)), "p")],
        vec![Statement::Return(variable("p"))],
    );
    let err = check(&program).expect_err("semantic check should fail");
    assert_eq!(err.message, "cannot return value of type 'int *' from function returning 'int'");
}

#[test]
fn binary_operator_errors_name_operator_and_types() {
    let program = main_with(
        vec![param(Type::Pointer(Box::new(Type::Char)), "p")],
        vec![Statement::Return(Expr::Binary {
            op: BinaryOp::Multiply,
            op_span: span(),
            left: Box::new(variable("p")),
            right: Box::new(int_literal(2)),
        })],
    );
    let err = check(&program).expect_err("semantic check should fail");
    assert_eq!(err.message, "cannot perform binary operation '*' on types 'char *' and 'int'");

    let program = main_with(
        vec![param(Type::Pointer(Box::new(Type::Char)), "p")],
        vec![Statement::Return(Expr::Binary {
            op: BinaryOp::Less,
            op_span: span(),
            left: Box::new(variable("p")),
            right: Box::new(variable("p")),
        })],
    );
    let err = check(&program).expect_err("semantic check should fail");
    assert_eq!(
        err.message,
        "invalid operands to binary operator '<'\nleft operand has type 'char *'\nright operand has type 'char *'"
    );
}

#[test]
fn type_names_use_c_spelling() {
    let mut s = String::new();
    push_type_name(
        &mut s,
        &Type::Pointer(Box::new(Type::Function(Box::new(FunctionType {
            return_type: Box::new(Type::Int),
            params: vec![Type::Int, Type::UnsignedChar],
        })))),
    );
    assert_eq!(s, "int(int, unsigned char) *");
    let mut s = String::new();
    push_type_name(
        &mut s,
        &Type::Pointer(Box::new(Type::Pointer(Box::new(Type::Array {
            element: Box::new(Type::Long),
            len: 4,
        })))),
    );
    assert_eq!(s, "long[4] **");
}

#[test]
fn initializer_list_longer_than_array_is_rejected() {
    let program = main_with(
        vec![],
        vec![
            Statement::Decl(vec![LocalDecl {
                ty: Type::Array {
                    element: Box::new(Type::Int),
                    len: 2,
                },
                name: "xs".to_string(),
                name_span: span(),
                init: Some(Initializer::List(vec![int_literal(1), int_literal(2), int_literal(3)])),
            }]),
            Statement::Return(int_literal(0)),
        ],
    );
    let err = check(&program).expect_err("semantic check should fail");
    assert_eq!(err.message, "array initializer list must have <= '2' elements, has '3' elements");
}

#[test]
fn short_initializer_lists_fill_the_rest_with_zeros() {
    let assembly = compile_text("int main() { int xs[3] = {5}; return xs[2]; }\n").expect("compilation should succeed");
    assert!(assembly.contains("    li a0, 5\n    sw a0, -20(s0)\n    li a0, 0\n    sw a0, -16(s0)\n    li a0, 0\n    sw a0, -12(s0)\n"));
}

#[test]
fn line_col_counts_characters_before_the_offset() {
    assert_eq!(line_col("ab\ncd", 0), (1, 1));
    assert_eq!(line_col("ab\ncd", 2), (1, 3));
    assert_eq!(line_col("ab\ncd", 4), (2, 2));
    assert_eq!(line_col("ab\ncd", 100), (2, 3));
}

#[test]
fn diagnostics_are_spelled_with_path_line_and_column() {
    assert_eq!(
        format_diagnostic("dir/file.c", 12, 3, "expected expression"),
        "dir/file.c:12:3: error: expected expression"
    );
}

#[test]
fn file_errors_are_spelled_per_variant() {
    let io = PreprocessFileError::Io {
        path: "missing.h".to_string(),
        message: "No such file or directory (os error 2)".to_string(),
    };
    assert_eq!(
        format_file_error(&io),
        "failed to read path 'missing.h': No such file or directory (os error 2)"
    );
    let lexing = PreprocessFileError::Lex {
        path: "a.c".to_string(),
        source: "int x;\n  @".to_string(),
        span: Span {
            file_id: dummy_file_id(),
            start: 9,
            end: 10,
        },
        message: "unexpected character '@'".to_string(),
    };
    assert_eq!(format_file_error(&lexing), "a.c:2:3: error: unexpected character '@'");
    let preprocessing = PreprocessFileError::Preprocess {
        path: "b.c".to_string(),
        source: "#else\n".to_string(),
        span: Span {
            file_id: dummy_file_id(),
            start: 1,
            end: 5,
        },
        message: "cannot use #else without opening conditional macro".to_string(),
    };
    assert_eq!(
        format_file_error(&preprocessing),
        "b.c:1:2: error: cannot use #else without opening conditional macro"
    );
}

#[test]
fn missing_included_file_is_reported_with_its_path() {
    let result = compile_text("#include \"nothere.h\"\nint main() { return 0; }\n");
    assert_eq!(
        result,
        Err("failed to read path 'nothere.h': No such file or directory (os error 2)".to_string())
    );
}

#[test]
fn source_map_locations_count_bytes_from_the_line_start() {
    let mut map = SourceMap::new();
    let first = map.add_file("a.c", "x\ny".to_string());
    let second = map.add_file("b.c", "\n\n  z".to_string());
    let location = map.location(Span {
        file_id: second,
        start: 4,
        end: 5,
    });
    assert_eq!(location.path, "b.c");
    assert_eq!((location.line, location.column), (3, 3));
    let location = map.location(Span {
        file_id: first,
        start: 2,
        end: 3,
    });
    assert_eq!((location.line, location.column), (2, 1));
}

#[test]
fn macro_table_reads_back_the_last_definition() {
    let mut table = MacroTable::new();
    let token = |kind: TokenKind| Token { kind, span: span() };
    table.insert("A".to_string(), MacroDef::ObjectLike(vec![token(TokenKind::Plus)]));
    table.insert("B".to_string(), MacroDef::ObjectLike(vec![]));
    table.insert("A".to_string(), MacroDef::ObjectLike(vec![token(TokenKind::Minus)]));
    assert_eq!(table.len(), 2);
    match table.get(&"A".to_string()) {
        Some((_, MacroDef::ObjectLike(tokens))) => assert_eq!(tokens[0].kind, TokenKind::Minus),
        _ => panic!("expected A to be defined"),
    }
    assert!(table.contains(&"B".to_string()));
    assert!(!table.contains(&"C".to_string()));
}

#[test]
fn nested_conditionals_keep_only_active_text() {
    let tokens = lex(
        "#define A\n#ifdef A\n#ifdef B\nint no;\n#else\nint yes;\n#endif\n#else\nint never;\n#endif\n",
        dummy_file_id(),
    )
    .expect("lexing should succeed");
    let kinds: Vec<TokenKind> = preprocess(tokens)
        .expect("preprocessing should succeed")
        .into_iter()
        .map(|t| t.kind)
        .collect();
    assert_eq!(
        kinds,
        vec![TokenKind::KwInt, TokenKind::Ident("yes".to_string()), TokenKind::Semicolon, TokenKind::Eof]
    );
}

#[test]
fn splicing_removes_every_escaped_newline() {
    assert_eq!(splice_escaped_newlines("a\\\nb\\\r\nc\\d"), "abc\\d");
}

#[test]
fn function_like_macro_arguments_replace_each_parameter_use() {
    let tokens = lex("#define ADD(x, y) ((x) + (y))\nint main() { return ADD(1, 2 * 3); }\n", dummy_file_id())
        .expect("lexing should succeed");
    let kinds: Vec<TokenKind> = preprocess(tokens)
        .expect("preprocessing should succeed")
        .into_iter()
        .map(|t| t.kind)
        .collect();
    let int = |value: u64| TokenKind::IntLiteral {
        value,
        suffix: IntLiteralSuffix::Unsuffixed,
        base: IntLiteralBase::Decimal,
    };
    assert_eq!(
        kinds[5..kinds.len() - 3].to_vec(),
        vec![
            TokenKind::KwReturn,
            TokenKind::LParen,
            TokenKind::LParen,
            int(1),
            TokenKind::RParen,
            TokenKind::Plus,
            TokenKind::LParen,
            int(2),
            TokenKind::Star,
            int(3),
            TokenKind::RParen,
            TokenKind::RParen,
        ]
    );
}

#[test]
fn lexed_token_spans_stay_inside_the_source_in_order() {
    let source = "int main() { return 'a' + 0x1fU; }\n";
    let tokens = lex(source, dummy_file_id()).expect("lexing should succeed");
    let mut previous_end = 0;
    for token in &tokens[..tokens.len() - 1] {
        assert!(previous_end <= token.span.start);
        assert!(token.span.start <= token.span.end);
        assert!(token.span.end <= source.len());
        previous_end = token.span.end;
    }
    let last = tokens.last().expect("the end marker");
    assert_eq!(last.kind, TokenKind::Eof);
    assert_eq!((last.span.start, last.span.end), (source.len(), source.len()));
}

fn lex_ok(source: &str) -> Vec<Token> {
    lex(source, dummy_file_id()).expect("lexing should succeed")
}

#[test]
fn shift_and_compare_operators_span_their_first_character() {
    let tokens = lex_ok("a <<= 1; b >= c");
    assert_eq!(tokens[1].kind, TokenKind::LessLessEqual);
    assert_eq!((tokens[1].span.start, tokens[1].span.end), (2, 3));
    assert_eq!(tokens[5].kind, TokenKind::GreaterEqual);
    assert_eq!((tokens[5].span.start, tokens[5].span.end), (11, 12));
}

#[test]
fn arrow_token_spans_its_greater_sign() {
    let tokens = lex_ok("->");
    assert_eq!(tokens.len(), 2);
    assert_eq!(tokens[0].kind, TokenKind::Arrow);
    assert_eq!((tokens[0].span.start, tokens[0].span.end), (1, 2));
}

#[test]
fn hex_literal_reads_value_base_and_both_suffixes() {
    let tokens = lex_ok("0x1fUL");
    assert_eq!(
        tokens[0].kind,
        TokenKind::IntLiteral {
            value: 31,
            suffix: IntLiteralSuffix::UnsignedLong,
            base: IntLiteralBase::Hex,
        }
    );
    assert_eq!((tokens[0].span.start, tokens[0].span.end), (0, 6));
}

#[test]
fn repeated_unsigned_suffix_is_rejected_at_the_literal() {
    let error = lex("1uu;", dummy_file_id()).expect_err("a repeated suffix is an error");
    assert_eq!(error.message, "duplicate 'U' integer suffix");
    assert_eq!((error.span.start, error.span.end), (0, 3));
}

#[test]
fn multi_character_constant_error_spans_to_the_closing_quote() {
    let error = lex("'ab' + 1", dummy_file_id()).expect_err("two characters in quotes are an error");
    assert_eq!(error.message, "multi-character constants are not supported");
    assert_eq!((error.span.start, error.span.end), (0, 4));
}

#[test]
fn text_without_directives_only_loses_its_line_breaks() {
    let tokens = lex_ok("int a;\nint b = a;\n");
    let expected: Vec<Token> = tokens
        .iter()
        .filter(|t| t.kind != TokenKind::Newline)
        .cloned()
        .collect();
    let out = preprocess(tokens).expect("preprocessing should succeed");
    assert_eq!(out, expected);
}

#[test]
fn call_arguments_may_follow_each_other_without_commas() {
    let tokens = lex_ok("int main() { return f(1 2); }");
    let program = rivet::parser::parse(tokens).expect("parsing should succeed");
    match &program.declarations[0] {
        ExternalDecl::FunctionDef(f) => match &f.body[0] {
            Statement::Return(Expr::Call { args, .. }) => assert_eq!(args.len(), 2),
            other => panic!("unexpected statement {:?}", other),
        },
        other => panic!("unexpected declaration {:?}", other),
    }
}

#[test]
fn checked_expressions_keep_the_spans_of_their_source() {
    let tokens = lex_ok("int main() { int x = 1; return x + 2; }");
    let program = rivet::parser::parse(tokens).expect("parsing should succeed");
    let source_span = match &program.declarations[0] {
        ExternalDecl::FunctionDef(f) => match &f.body[1] {
            Statement::Return(Expr::Binary { op_span, .. }) => *op_span,
            other => panic!("unexpected statement {:?}", other),
        },
        other => panic!("unexpected declaration {:?}", other),
    };
    let typed = check(&program).expect("checking should succeed");
    match &typed.declarations[0] {
        rivet::typed_ast::TypedExternalDecl::Function(f) => match &f.body[1] {
            rivet::typed_ast::TypedStatement::Return(e) => match &e.kind {
                rivet::typed_ast::TypedExprKind::Binary { op, op_span, .. } => {
                    assert_eq!(*op, BinaryOp::Add);
                    assert_eq!(*op_span, source_span);
                    assert_eq!((op_span.start, op_span.end), (33, 34));
                },
                other => panic!("unexpected expression {:?}", other),
            },
            other => panic!("unexpected statement {:?}", other),
        },
        other => panic!("unexpected declaration {:?}", other),
    }
}

#[test]
fn declarators_bind_array_and_pointer_suffixes_to_the_name() {
    let tokens = lex_ok("int main() { int *p, a[3]; return 0; }");
    let program = rivet::parser::parse(tokens).expect("parsing should succeed");
    match &program.declarations[0] {
        ExternalDecl::FunctionDef(f) => match &f.body[0] {
            Statement::Decl(locals) => {
                assert_eq!(locals.len(), 2);
                assert_eq!(locals[0].name, "p");
                assert_eq!(locals[0].ty, Type::Pointer(Box::new(Type::Int)));
                assert_eq!(locals[1].name, "a");
                assert_eq!(locals[1].ty, Type::Array { element: Box::new(Type::Int), len: 3 });
            },
            other => panic!("unexpected statement {:?}", other),
        },
        other => panic!("unexpected declaration {:?}", other),
    }
}

#[test]
fn object_like_definitions_expand_in_later_text_only() {
    let tokens = lex_ok("N\n#define N 1 + M\n#define M 2\nN M\n");
    let out = preprocess(tokens).expect("preprocessing should succeed");
    let kinds: Vec<TokenKind> = out.iter().map(|t| t.kind.clone()).collect();
    let one = lex_ok("1")[0].kind.clone();
    let two = lex_ok("2")[0].kind.clone();
    assert_eq!(
        kinds,
        vec![
            TokenKind::Ident("N".to_string()),
            one,
            TokenKind::Plus,
            two.clone(),
            two,
            TokenKind::Eof,
        ]
    );
}

#[test]
fn self_referencing_macro_is_not_expanded_again() {
    let tokens = lex_ok("#define X X + 1\nX\n");
    let out = preprocess(tokens).expect("preprocessing should succeed");
    let kinds: Vec<TokenKind> = out.iter().map(|t| t.kind.clone()).collect();
    assert_eq!(
        kinds,
        vec![TokenKind::Ident("X".to_string()), TokenKind::Plus, lex_ok("1")[0].kind.clone(), TokenKind::Eof]
    );
}

#[test]
fn typedef_names_enter_scope_after_their_declaration() {
    let tokens = lex_ok("typedef int word, *ptr; word f(ptr p) { return (word) 0; }");
    let program = rivet::parser::parse(tokens).expect("parsing should succeed");
    assert_eq!(program.declarations.len(), 3);
    match (&program.declarations[0], &program.declarations[1]) {
        (ExternalDecl::Typedef(a), ExternalDecl::Typedef(b)) => {
            assert_eq!(a.name, "word");
            assert_eq!(a.ty, Type::Int);
            assert_eq!(b.name, "ptr");
            assert_eq!(b.ty, Type::Pointer(Box::new(Type::Int)));
        },
        other => panic!("unexpected declarations {:?}", other),
    }
    match &program.declarations[2] {
        ExternalDecl::FunctionDef(f) => {
            assert_eq!(f.return_type, Type::Int);
            assert_eq!(f.params[0].ty, Type::Pointer(Box::new(Type::Int)));
            match &f.body[0] {
                Statement::Return(Expr::Cast { ty, .. }) => assert_eq!(*ty, Type::Int),
                other => panic!("unexpected statement {:?}", other),
            }
        },
        other => panic!("unexpected declaration {:?}", other),
    }
}

#[test]
fn declarations_come_out_in_source_order() {
    let tokens = lex_ok("int g; int f(int x); int main() { return 0; }");
    let program = rivet::parser::parse(tokens).expect("parsing should succeed");
    let names: Vec<String> = program
        .declarations
        .iter()
        .map(|d| match d {
            ExternalDecl::Global(g) => g.name.clone(),
            ExternalDecl::FunctionDecl(f) => f.name.clone(),
            ExternalDecl::FunctionDef(f) => f.name.clone(),
            ExternalDecl::Typedef(t) => t.name.clone(),
        })
        .collect();
    assert_eq!(names, vec!["g".to_string(), "f".to_string(), "main".to_string()]);
}

#[test]
fn inactive_branches_drop_text_and_definitions() {
    let tokens = lex_ok("#ifdef N\n#define M 1\nM\n#else\n#define M 2\n#endif\nM\n");
    let out = preprocess(tokens).expect("preprocessing should succeed");
    let kinds: Vec<TokenKind> = out.iter().map(|t| t.kind.clone()).collect();
    assert_eq!(kinds, vec![lex_ok("2")[0].kind.clone(), TokenKind::Eof]);
}
