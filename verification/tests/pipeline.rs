use sarch_asm::lex;
use sarch_asm::lexer::LexerTokenType;
use sarch_asm::linker::{Linker, LinkStructure, LinkStructureSection, LinkError};
use sarch_asm::objgen::{Constant, ConstantSize, GenError, ObjectFormat};
use sarch_asm::parser::{parse, NodeType};
use sarch_asm::preprocessor::IncludeMap;

fn chars(s: &str) -> Vec<char> {
    s.chars().collect()
}

fn assemble(code: &str) -> ObjectFormat {
    let tokens = lex(&chars(code), IncludeMap::new()).unwrap();
    let node = parse(&tokens).unwrap();
    let mut obj = ObjectFormat::new();
    obj.load_parser_node(&node).unwrap();
    obj
}

#[test]
fn label_defbyte() {
    let code = ".section \"text\"

    label1:
    nop
    nop
    label2:
    nop
    nop
    label3:
    nop
    nop

    .section \"data\"
    .db label1
    .dw label2
    .dd label3

    .section \"rodata\"
    ";

    let obj = assemble(code);
    let mut linker = Linker::new();
    linker.load_symbols(obj).unwrap();

    let binary = linker.generate_binary(None).unwrap();
    let mut bin_check: Vec<u8> = vec![
        0, 0, 0, 0, 0, 0, // nops
    ];
    while bin_check.len() < 256 {
        bin_check.push(0);
    }
    bin_check.append(&mut vec![0, 2, 0, 4, 0, 0, 0]);
    while bin_check.len() < 512 {
        bin_check.push(0);
    }

    assert_eq!(bin_check.len(), 512);
    assert_eq!(binary.len(), 512);
    assert_eq!(binary, bin_check);
}

#[test]
fn sublabel_test() {
    let code = ".section \"text\"

    label1:
    nop
    nop
    @sublabel:
    nop
    halt

    label2:
    nop
    nop
    @sublabel:
    loadid @sublabel, r0
    loadid label1@sublabel, r0
    halt

    .section \"data\"
    .section \"rodata\"
    ";

    let tokens = lex(&chars(code), IncludeMap::new()).unwrap();
    let node = parse(&tokens).unwrap();
    let mut obj = ObjectFormat::new();
    obj.load_parser_node(&node).unwrap();
}

#[test]
fn macro_test() {
    let code = "
    %macro some_macro {
        ; macro content
        loadid 0x00, r0
        ; comment 2
        loadid 0xBAD, ra ; ve
    }

    %macro argumented_macro(hello, world) {
        \\hello
        \\world
    }

    some_macro
    some_macro
    some_macro
    some_macro
    some_macro

    argumented_macro(nop, nop)
    ";

    let tokens = lex(&chars(code), IncludeMap::new()).unwrap();

    assert!(tokens
        .iter()
        .find(|t| {
            t.kind == LexerTokenType::PreprocessInstruction
                || t.kind == LexerTokenType::Comment
                || t.kind == LexerTokenType::LParen
                || t.kind == LexerTokenType::RParen
        })
        .is_none());

    parse(&tokens).unwrap();
}

#[test]
fn recursive_define() {
    let code = ".section \"text\"
    .define A 12
    .define B A

    start:
    loadid B, r0
    halt

    .section \"data\"
    .section \"rodata\"
    ";

    let obj = assemble(code);
    let text = obj.get_section(&chars("text")).unwrap();
    let instr = &text.instructions[0];

    assert_eq!(instr.constants.len(), 2);
    assert_eq!(instr.references.len(), 0);
    assert_eq!(
        instr.constants[0],
        Constant { argument_pos: 0, size: ConstantSize::DoubleWord, value: 12 }
    );
}

#[test]
fn infinite_define() {
    let code = ".section \"text\"
    .define A B
    .define B A

    start:
        loadid A, r0
    ; Basically, because B<->A, should detect 100+ loops and then return error
    ; That's why the test is like this

    .section \"data\"
    .section \"rodata\"
    ";

    let tokens = lex(&chars(code), IncludeMap::new()).unwrap();
    let node = parse(&tokens).unwrap();
    let mut obj = ObjectFormat::new();
    let res = obj.load_parser_node(&node);

    if let Err(_) = res {
        return;
    } else {
        panic!("Test failed! Defines should be infinite!");
    }
}

#[test]
fn expression_test() {
    let code = ".section \"text\"
    .define A 3
    .define B (5 + 2)
    .define C (10 * 5)
    .define D (C * 10)

    start:
        loadid C, r0
        loadid B, r1
        loadid (15 * 2900), r2
        loadid (91 + B), r3

        ; this won't work because expressions aren't yet implemented inside object files
        ; loadid (start + 2), r0
        halt
    .section \"data\"
    .section \"rodata\"
    ";

    let obj = assemble(code);

    assert!(matches!(obj.get_define(&chars("A")).unwrap().node_type, NodeType::ConstInteger(3)));
    assert!(matches!(obj.get_define(&chars("B")).unwrap().node_type, NodeType::ConstInteger(7)));
    assert!(matches!(obj.get_define(&chars("C")).unwrap().node_type, NodeType::ConstInteger(50)));
    assert!(matches!(obj.get_define(&chars("D")).unwrap().node_type, NodeType::ConstInteger(500)));
}

#[test]
fn include_test() {
    let code = "
    %include \"tests/test_file.s\"

    start: ; comment
        jmp start
    ";

    let mut included = IncludeMap::new();
    included.insert(
        chars("tests/test_file.s"),
        chars("helper: ; a helper routine\n    nop\n    ret\n"),
    );
    let tokens = lex(&chars(code), included).unwrap();

    assert!(tokens.iter().find(|t| t.kind == LexerTokenType::Comment).is_none());
    assert!(tokens.iter().any(|t| t.kind == LexerTokenType::EnterInclude));
    assert!(tokens.iter().any(|t| t.kind == LexerTokenType::ExitInclude));
}

#[test]
fn comma_test() {
    let code = "
    loadid A, C # correct
    loadid A C # incorrect
    ";

    let tokens = lex(&chars(code), IncludeMap::new()).unwrap();
    let result = parse(&tokens);

    assert!(result.is_err(), "No commas between arguments MUST give error.");
}

#[test]
fn lex_test() {
    let code = ".define ABC 0xFE
    start: ; hello world this is a comment
        loadid C, r0
        loadid (91 + B), r3 ;fgewt
        jmp start # no influence :)
    string: .db \"Hello, world!\"
    ";

    let tokens = lex(&chars(code), IncludeMap::new()).unwrap();

    assert_eq!(
        tokens.into_iter().map(|t| t.kind).collect::<Vec<_>>(),
        vec![
            LexerTokenType::CompilerInstruction,
            LexerTokenType::Identifier,
            LexerTokenType::Integer,
            LexerTokenType::Newline,
            LexerTokenType::Label,
            LexerTokenType::Newline,
            LexerTokenType::Identifier,
            LexerTokenType::Identifier,
            LexerTokenType::Comma,
            LexerTokenType::Identifier,
            LexerTokenType::Newline,
            LexerTokenType::Identifier,
            LexerTokenType::LParen,
            LexerTokenType::Integer,
            LexerTokenType::Plus,
            LexerTokenType::Identifier,
            LexerTokenType::RParen,
            LexerTokenType::Comma,
            LexerTokenType::Identifier,
            LexerTokenType::Newline,
            LexerTokenType::Identifier,
            LexerTokenType::Identifier,
            LexerTokenType::Newline,
            LexerTokenType::Label,
            LexerTokenType::CompilerInstruction,
            LexerTokenType::String,
            LexerTokenType::Newline,
        ]
    )
}

// ---------------------------------------------------------------------------
// Round trip through the on-disk object format.

#[test]
fn object_roundtrip() {
    let code = ".section \"text\"
    entry:
    loadid 77, r0
    jmp entry
    jpc entry, ZR
    loadib 0xFF, r00l
    halt
    .section \"data\"
    stuff:
    .db 1, 2, 300, \"hi\"
    .dw entry
    .dd -5
    .resb 3
    .section \"rodata\"
    ";

    let obj = assemble(code);
    let bytes = obj.generate_binary().unwrap();
    let back = ObjectFormat::from_bytes(bytes).unwrap();

    assert_eq!(back.header.sections_length, 3);
    assert_eq!(back.sections.len(), 3);
    for (a, b) in obj.sections.iter().zip(back.sections.iter()) {
        assert_eq!(a.name, b.name);
        assert_eq!(a.binary_section, b.binary_section);
        assert_eq!(a.instructions.len(), b.instructions.len());
        assert_eq!(a.binary_data.len(), b.binary_data.len());
        assert_eq!(a.labels.len(), b.labels.len());
        for (la, lb) in a.labels.iter().zip(b.labels.iter()) {
            assert_eq!(la.name, lb.name);
            assert_eq!(la.ptr, lb.ptr);
        }
        for (ia, ib) in a.instructions.iter().zip(b.instructions.iter()) {
            assert_eq!(ia.opcode, ib.opcode);
            assert_eq!(ia.constants, ib.constants);
            assert_eq!(ia.references.len(), ib.references.len());
            for (ra, rb) in ia.references.iter().zip(ib.references.iter()) {
                assert_eq!(ra.argument_pos, rb.argument_pos);
                assert_eq!(ra.rf, rb.rf);
            }
        }
        for (ua, ub) in a.binary_data.iter().zip(b.binary_data.iter()) {
            assert_eq!(ua.constant, ub.constant);
            match (&ua.reference, &ub.reference) {
                (None, None) => {}
                (Some(x), Some(y)) => {
                    assert_eq!(x.rf, y.rf);
                    assert_eq!(x.size, y.size);
                }
                _ => panic!("reference mismatch"),
            }
        }
    }
}

#[test]
fn object_read_rejects_bad_magic() {
    let obj = assemble("nop\n");
    let mut bytes = obj.generate_binary().unwrap();
    bytes[0] ^= 0xFF;
    assert!(ObjectFormat::from_bytes(bytes).is_err());
}

#[test]
fn object_read_rejects_truncation() {
    let obj = assemble("nop\n");
    let mut bytes = obj.generate_binary().unwrap();
    bytes.truncate(bytes.len() - 1);
    assert!(ObjectFormat::from_bytes(bytes).is_err());
}

// ---------------------------------------------------------------------------
// Layout and relative jumps.

#[test]
fn alignment_with_custom_script() {
    let code = ".section \"text\"
    nop
    nop
    nop
    .section \"data\"
    .db 1, 2
    ";

    let obj = assemble(code);
    let mut linker = Linker::new();
    linker.load_symbols(obj).unwrap();

    let script = LinkStructure::from_sections(vec![
        LinkStructureSection { name: chars("text"), alignment: 16 },
        LinkStructureSection { name: chars("data"), alignment: 16 },
    ]);
    let image = linker.generate_binary(Some(script)).unwrap();

    // text holds 3 bytes, padded to 16; data holds 2 bytes, padded to 32.
    assert_eq!(image.len(), 32);
    assert_eq!(&image[0..5], &[0, 0, 0, 0, 0]);
    assert_eq!(image[16], 1);
    assert_eq!(image[17], 2);
}

#[test]
fn relative_jump_encodes_delta() {
    // jpr is 5 bytes (opcode + 4-byte relative pointer); two nops follow,
    // then the target label at byte offset 7.
    let code = ".section \"text\"
    start:
    jpr target
    nop
    nop
    target:
    halt
    .section \"data\"
    .section \"rodata\"
    ";

    let obj = assemble(code);
    let mut linker = Linker::new();
    linker.load_symbols(obj).unwrap();
    let image = linker.generate_binary(None).unwrap();

    // Opcode of the relative jump, then 7 - 0 as four little-endian bytes.
    assert_eq!(image[0], 12);
    assert_eq!(&image[1..5], &[7, 0, 0, 0]);
}

#[test]
fn unresolved_reference_fails() {
    let obj = assemble("jmp nowhere\n");
    let mut linker = Linker::new();
    linker.load_symbols(obj).unwrap();
    assert!(matches!(linker.generate_binary(None), Err(LinkError::UndefinedReference { .. })));
}

#[test]
fn merge_rejects_label_collision() {
    let a = assemble("dup:\nnop\n");
    let b = assemble("dup:\nhalt\n");
    let mut linker = Linker::new();
    linker.load_symbols(a).unwrap();
    assert!(matches!(linker.load_symbols(b), Err(LinkError::BadMerge)));
}

#[test]
fn merge_appends_sections() {
    let a = assemble("first:\nnop\n");
    let b = assemble("second:\nhalt\nhalt\n");
    let mut linker = Linker::new();
    linker.load_symbols(a).unwrap();
    linker.load_symbols(b).unwrap();
    assert_eq!(linker.section_symbols.len(), 1);
    let text = &linker.section_symbols[0];
    assert_eq!(text.instructions.len(), 3);
    assert_eq!(text.labels.len(), 2);
    // The incoming label is shifted past the one instruction already there.
    assert_eq!(text.labels[1].ptr, 1);
}

// ---------------------------------------------------------------------------
// Generator rules.

#[test]
fn mixing_data_then_instructions_fails() {
    let code = ".section \"data\"
    .db 1
    nop
    ";
    let tokens = lex(&chars(code), IncludeMap::new()).unwrap();
    let node = parse(&tokens).unwrap();
    let mut obj = ObjectFormat::new();
    assert!(matches!(obj.load_parser_node(&node), Err(GenError::MixedContent { .. })));
}

#[test]
fn mixing_instructions_then_data_fails() {
    let code = "nop
    .db 1
    ";
    let tokens = lex(&chars(code), IncludeMap::new()).unwrap();
    let node = parse(&tokens).unwrap();
    let mut obj = ObjectFormat::new();
    assert!(matches!(obj.load_parser_node(&node), Err(GenError::MixedContent { .. })));
}

#[test]
fn define_chain_of_one_hundred_resolves() {
    let mut code = String::from(".define d000 42\n");
    for i in 1..=100 {
        code.push_str(&format!(".define d{:03} d{:03}\n", i, i - 1));
    }
    code.push_str("loadid d100, r0\nhalt\n");

    let obj = assemble(&code);
    let text = obj.get_section(&chars("text")).unwrap();
    assert_eq!(
        text.instructions[0].constants[0],
        Constant { argument_pos: 0, size: ConstantSize::DoubleWord, value: 42 }
    );
}

#[test]
fn label_redefinition_fails() {
    let code = "again:\nnop\nagain:\nhalt\n";
    let tokens = lex(&chars(code), IncludeMap::new()).unwrap();
    let node = parse(&tokens).unwrap();
    let mut obj = ObjectFormat::new();
    assert!(matches!(obj.load_parser_node(&node), Err(GenError::LabelRedefined { .. })));
}

#[test]
fn unknown_mnemonic_fails() {
    let code = "frobnicate\n";
    let tokens = lex(&chars(code), IncludeMap::new()).unwrap();
    let node = parse(&tokens).unwrap();
    let mut obj = ObjectFormat::new();
    assert!(matches!(obj.load_parser_node(&node), Err(GenError::UnknownInstruction { .. })));
}

#[test]
fn wrong_arity_fails() {
    let code = "nop r0\n";
    let tokens = lex(&chars(code), IncludeMap::new()).unwrap();
    let node = parse(&tokens).unwrap();
    let mut obj = ObjectFormat::new();
    assert!(matches!(obj.load_parser_node(&node), Err(GenError::ArgumentCount { .. })));
}

#[test]
fn condition_codes_are_encoded() {
    let obj = assemble("top:\njpc top, NZ\n");
    let text = obj.get_section(&chars("text")).unwrap();
    let instr = &text.instructions[0];
    assert_eq!(instr.references.len(), 1);
    assert_eq!(
        instr.constants[0],
        Constant { argument_pos: 1, size: ConstantSize::Byte, value: 35 }
    );
}

#[test]
fn register_widths_are_checked() {
    // movrw wants 16-bit registers; a 32-bit name is refused.
    let code = "movrw r0, r1\n";
    let tokens = lex(&chars(code), IncludeMap::new()).unwrap();
    let node = parse(&tokens).unwrap();
    let mut obj = ObjectFormat::new();
    assert!(matches!(obj.load_parser_node(&node), Err(GenError::BadRegister { .. })));

    let ok = assemble("movrw r00, rf1\n");
    let text = ok.get_section(&chars("text")).unwrap();
    assert_eq!(
        text.instructions[0].constants[0],
        Constant { argument_pos: 0, size: ConstantSize::Byte, value: 0 }
    );
    assert_eq!(
        text.instructions[0].constants[1],
        Constant { argument_pos: 1, size: ConstantSize::Byte, value: 31 }
    );
}

#[test]
fn resb_reserves_zero_bytes() {
    let obj = assemble(".section \"data\"\n.resb 5\n");
    let data = obj.get_section(&chars("data")).unwrap();
    assert_eq!(data.binary_data.len(), 5);
    for unit in data.binary_data.iter() {
        let c = unit.constant.unwrap();
        assert_eq!(c.size, ConstantSize::Byte);
        assert_eq!(c.value, 0);
    }
}

#[test]
fn data_directive_uses_supplied_bytes() {
    let code = ".section \"data\"
    .db 9
    .data \"blob.bin\"
    ";
    let tokens = lex(&chars(code), IncludeMap::new()).unwrap();
    let node = parse(&tokens).unwrap();
    let mut obj = ObjectFormat::new();
    obj.register_data_file(chars("blob.bin"), vec![10, 20, 30]);
    obj.load_parser_node(&node).unwrap();
    let data = obj.get_section(&chars("data")).unwrap();
    assert_eq!(data.binary_data.len(), 4);
    assert_eq!(data.binary_data[1].constant.unwrap().value, 10);
    assert_eq!(data.binary_data[3].constant.unwrap().value, 30);
}

// ---------------------------------------------------------------------------
// Parsing details.

#[test]
fn integer_bases_and_characters() {
    let obj = assemble(
        ".define H 0x10\n.define B 0b101\n.define D 0d9\n.define C 'A'\n\
         loadid H, r0\nloadid B, r1\nloadid D, r2\nloadid C, r3\n",
    );
    let text = obj.get_section(&chars("text")).unwrap();
    assert_eq!(text.instructions[0].constants[0].value, 16);
    assert_eq!(text.instructions[1].constants[0].value, 5);
    assert_eq!(text.instructions[2].constants[0].value, 9);
    assert_eq!(text.instructions[3].constants[0].value, 65);
}

#[test]
fn integer_overflow_is_a_parse_error() {
    let code = "loadid 0xFFFFFFFFFFFFFFFF, r0\n";
    let tokens = lex(&chars(code), IncludeMap::new()).unwrap();
    assert!(parse(&tokens).is_err());
}

#[test]
fn negative_literals_fold() {
    let obj = assemble("loadid -3, r0\nloadid (2 - 10), r1\n");
    let text = obj.get_section(&chars("text")).unwrap();
    assert_eq!(text.instructions[0].constants[0].value, -3);
    assert_eq!(text.instructions[1].constants[0].value, -8);
}

#[test]
fn division_by_zero_is_a_parse_error() {
    let code = "loadid (4 / 0), r0\n";
    let tokens = lex(&chars(code), IncludeMap::new()).unwrap();
    assert!(parse(&tokens).is_err());
}

#[test]
fn strings_are_refused_in_instruction_arguments() {
    let code = "loadid \"text\", r0\n";
    let tokens = lex(&chars(code), IncludeMap::new()).unwrap();
    assert!(parse(&tokens).is_err());
}

#[test]
fn registers_are_refused_in_directive_arguments() {
    let code = ".define X r0\n";
    let tokens = lex(&chars(code), IncludeMap::new()).unwrap();
    assert!(parse(&tokens).is_err());
}

// ---------------------------------------------------------------------------
// Preprocessor details.

#[test]
fn macro_redefinition_fails() {
    let code = "%macro twice { nop }\n%macro twice { halt }\nnop\n";
    assert!(lex(&chars(code), IncludeMap::new()).is_err());
}

#[test]
fn unknown_preprocessor_instruction_fails() {
    let code = "%frob on\nnop\n";
    assert!(lex(&chars(code), IncludeMap::new()).is_err());
}

#[test]
fn macro_argument_count_is_checked() {
    let code = "%macro pair(a, b) { \\a \\b }\npair(nop)\n";
    assert!(lex(&chars(code), IncludeMap::new()).is_err());
}

#[test]
fn missing_include_names_the_path() {
    let code = "%include \"lib.s\"\nnop\n";
    let err = lex(&chars(code), IncludeMap::new()).unwrap_err();
    match err {
        sarch_asm::preprocessor::PreprocessError::MissingInclude { path, .. } => {
            assert_eq!(path, chars("lib.s"));
        }
        other => panic!("unexpected error: {:?}", other),
    }
}

#[test]
fn unterminated_string_is_a_lexer_error() {
    let code = ".section \"text\nnop\n";
    assert!(lex(&chars(code), IncludeMap::new()).is_err());
}

#[test]
fn register_names_invert_codes() {
    let registers = sarch_asm::parser::Registers::new();
    assert_eq!(registers.get_name32(21).unwrap(), chars("tptr"));
    assert_eq!(registers.get_name16(31).unwrap(), chars("rf1"));
    assert_eq!(registers.get_name8(0).unwrap(), chars("r00l"));
    assert!(registers.get_name32(99).is_none());
}

#[test]
fn db_units_take_the_directive_size() {
    let obj = assemble(".section \"data\"\n.db 1, 300, 70000\n");
    let data = obj.get_section(&chars("data")).unwrap();
    assert_eq!(data.binary_data.len(), 3);
    for unit in data.binary_data.iter() {
        assert_eq!(unit.constant.unwrap().size, ConstantSize::Byte);
    }
    assert_eq!(data.binary_data[1].constant.unwrap().value, 300);
    assert_eq!(data.binary_data[2].constant.unwrap().value, 70000);
}

#[test]
fn semantic_errors_name_the_offender() {
    let tokens = lex(&chars("frobnicate\n"), IncludeMap::new()).unwrap();
    let node = parse(&tokens).unwrap();
    let mut obj = ObjectFormat::new();
    match obj.load_parser_node(&node) {
        Err(GenError::UnknownInstruction { name }) => assert_eq!(name, chars("frobnicate")),
        other => panic!("unexpected result: {:?}", other),
    }

    let tokens = lex(&chars("again:\nnop\nagain:\n"), IncludeMap::new()).unwrap();
    let node = parse(&tokens).unwrap();
    let mut obj = ObjectFormat::new();
    match obj.load_parser_node(&node) {
        Err(GenError::LabelRedefined { name }) => assert_eq!(name, chars("again")),
        other => panic!("unexpected result: {:?}", other),
    }

    let obj = assemble("jmp nowhere\n");
    let mut linker = Linker::new();
    linker.load_symbols(obj).unwrap();
    match linker.generate_binary(None) {
        Err(LinkError::UndefinedReference { symbol }) => {
            assert_eq!(symbol, chars("nowhere"));
        }
        other => panic!("unexpected result: {:?}", other),
    }
}

#[test]
fn dotted_tokens_take_the_longest_match() {
    let tokens = lex(&chars(".5 .x5 .5a\n"), IncludeMap::new()).unwrap();
    assert_eq!(
        tokens.iter().map(|t| t.kind).collect::<Vec<_>>(),
        vec![
            LexerTokenType::FloatingPoint,
            LexerTokenType::CompilerInstruction,
            LexerTokenType::CompilerInstruction,
            LexerTokenType::Newline,
        ]
    );
    assert_eq!(tokens[2].slice, chars(".5a"));
}

#[test]
fn writer_refuses_a_name_outside_the_wire_format() {
    let mut obj = assemble("nop\n");
    obj.sections[0].name = chars("t\u{00eb}xt");
    assert!(matches!(
        obj.generate_binary(),
        Err(sarch_asm::objgen::ObjectError::BadName)
    ));
}
