use gs_core::debug::DebugInfo;
use gs_core::program::function::GvmFunction;
use gs_core::program::program::GvmProgram;
use gs_core::streams::RandomAccessByteStream;
use gs_core::vm::gvm::{opcode_name, ADD, DEBUG, HALT, JMP, LDC_D, LDS, NEW};

fn sample_code() -> RandomAccessByteStream {
    let mut code = RandomAccessByteStream::new();
    code.write_byte(LDC_D); // 0
    code.write_int(0);
    code.write_string("String");
    code.write_byte(LDC_D); // 23
    code.write_int(5);
    code.write_string("Number");
    code.write_byte(LDC_D); // 46
    code.write_int(1);
    code.write_string("Boolean");
    code.write_byte(JMP); // 71
    code.write_int(0);
    code.write_byte(DEBUG); // 76
    code.write_int(3);
    code.write_int(9);
    code.write_byte(200); // 85
    code.write_byte(HALT); // 86
    code
}

#[test]
fn disassembly_lists_summary_strings_and_functions() {
    let mut p: GvmProgram<()> = GvmProgram::new("d".to_string());
    p.add_string("hi".to_string());
    let mut f = GvmFunction::new(sample_code(), vec!["a".to_string(), "b".to_string()]);
    f.register_local_variable("c".to_string());
    f.register_catch_block(0, 70, 86);
    f.set_debug_name("main".to_string());
    p.add_function(f);
    let mut g = RandomAccessByteStream::new();
    g.write_byte(NEW);
    g.write_string("Object");
    p.add_function(GvmFunction::new(g, Vec::new()));
    let lines = DebugInfo::disassemble(&p).unwrap();
    let expected: Vec<&str> = vec![
        "; program: d",
        "; strings: 1",
        "; functions: 2",
        "",
        ".strings",
        "     0  \"hi\"",
        "",
        ".function 0 ; main(a, b)",
        "  .locals c",
        "  .catch 0..70 -> 86",
        "      0  LDC          \"hi\" ; String",
        "     23  LDC          5 ; Number",
        "     46  LDC          true ; Boolean",
        "     71  JMP          @0",
        "     76  DEBUG        line 3 ; str#9",
        "     85  ??? opcode 200",
        "     86  HALT",
        "",
        ".function 1",
        "      0  NEW          Object",
        "",
    ];
    assert_eq!(lines, expected);
}

#[test]
fn quoted_constants_escape_like_debug_output() {
    let mut p: GvmProgram<()> = GvmProgram::new("q".to_string());
    p.add_string("a\"b\n".to_string());
    let lines = DebugInfo::disassemble(&p).unwrap();
    assert_eq!(lines[5], "     0  \"a\\\"b\\n\"");
}

#[test]
fn plain_listing_skips_unknown_opcodes() {
    let mut code = sample_code();
    let lines = DebugInfo::display_function(&mut code).unwrap();
    assert_eq!(
        lines,
        vec![
            "LDC_D 0 String",
            "LDC_D 5 Number",
            "LDC_D 1 Boolean",
            "JMP 0",
            "DEBUG 3 9",
            "HALT",
        ]
    );
}

#[test]
fn listing_of_a_cut_instruction_is_none() {
    // With blocks of 2 bytes the operand of LDS lies past the allocated
    // bytes.
    let mut code = RandomAccessByteStream::with_blocksize(2);
    code.write_byte(LDS);
    code.write_byte(1);
    assert!(DebugInfo::display_function(&mut code).is_none());
    let mut p: GvmProgram<()> = GvmProgram::new("c".to_string());
    p.add_function(GvmFunction::new(code, Vec::new()));
    assert!(DebugInfo::disassemble(&p).is_none());
}

#[test]
fn opcode_names() {
    assert_eq!(opcode_name(ADD), "ADD");
    assert_eq!(opcode_name(LDC_D), "LDC_D");
    assert_eq!(opcode_name(250), "???");
}

#[test]
fn plain_listing_leaves_the_stream_at_its_end() {
    let mut bc = RandomAccessByteStream::new();
    bc.write_byte(LDC_D);
    bc.write_int(5);
    bc.write_string("Boolean");
    bc.write_byte(9);
    let lines = DebugInfo::display_function(&mut bc).unwrap();
    assert_eq!(lines, vec!["LDC_D 5 Boolean", "RETURN"]);
    assert_eq!(bc.get_pointer_position(), 26);
    assert_eq!(bc.size(), 26);
}
