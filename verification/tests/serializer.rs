use gs_core::program::function::GvmFunction;
use gs_core::program::program::GvmProgram;
use gs_core::program::serializer::{GvmProgramSerializer, NativeMethodFactory, ReadError};
use gs_core::streams::RandomAccessByteStream;

struct Arity;

impl NativeMethodFactory for Arity {
    type Native = i32;
    fn create(&self, argument_count: i32) -> i32 {
        argument_count
    }
}

fn sample() -> GvmProgram<i32> {
    let mut p: GvmProgram<i32> = GvmProgram::new("demo".to_string());
    p.add_string("hello".to_string());
    p.add_string("x".to_string());
    p.add_native(2);
    p.add_native(0);
    let mut code = RandomAccessByteStream::new();
    code.write_bytes(&[1, 2, 3, 4, 5]);
    let mut f = GvmFunction::new(code, vec!["x".to_string(), "y".to_string()]);
    f.register_local_variable("z".to_string());
    f.register_catch_block(0, 4, 5);
    f.set_debug_name("main".to_string());
    f.set_index(3);
    p.add_function_with_id(4, f);
    let g = GvmFunction::new(RandomAccessByteStream::new(), Vec::new());
    p.add_function_with_id(1, g);
    p
}

#[test]
fn empty_program_bytes_are_exact() {
    let p: GvmProgram<i32> = GvmProgram::new("p".to_string());
    let bytes = GvmProgramSerializer::encode_program(&p, &[]);
    let expected: Vec<u8> = vec![
        b'G', b'S', b'V', b'M', 2, 0, 0, 0, // magic and version
        1, 0, 0, 0, // one table string
        4, 0, 0, 0, 0xFE, 0xFF, 0, b'p', // "p"
        0, 0, 0, 0, // name
        0, 0, 0, 0, // no string constants
        0, 0, 0, 0, // no natives
        0, 0, 0, 0, // no functions
    ];
    assert_eq!(bytes, expected);
}

#[test]
fn stored_program_loads_back() {
    let p = sample();
    let bytes = GvmProgramSerializer::encode_program(&p, &[2, 0]);
    assert_eq!(&bytes[0..4], b"GSVM");
    let q = GvmProgramSerializer::read_from(&bytes, &Arity).ok().unwrap();
    assert_eq!(q.name(), "demo");
    assert_eq!(q.string_constants(), &["hello".to_string(), "x".to_string()]);
    assert_eq!(q.native_wrappers(), &[2, 0]);
    assert_eq!(q.function_ids(), vec![1, 4]);
    let f = q.get_function(4).unwrap();
    assert_eq!(f.parameters(), &["x".to_string(), "y".to_string()]);
    assert_eq!(f.locals(), &["z".to_string()]);
    assert_eq!(f.get_exception_handlers(), vec![[0, 4, 5]]);
    assert_eq!(f.debug_name(), Some("main"));
    assert_eq!(f.index(), 3);
    assert_eq!(f.bytecode().contents(), vec![1, 2, 3, 4, 5]);
    assert_eq!(f.bytecode().get_pointer_position(), 0);
    let g = q.get_function(1).unwrap();
    assert!(g.parameters().is_empty());
    assert_eq!(g.debug_name(), None);
    // Loaded programs have the built-in types.
    assert!(q.find_type("Boolean").is_some());
    // Storing the loaded program again gives the same bytes.
    assert_eq!(GvmProgramSerializer::encode_program(&q, &[2, 0]), bytes);
}

#[test]
fn wrong_magic_is_refused() {
    let mut bytes = GvmProgramSerializer::encode_program(&sample(), &[2, 0]);
    bytes[0] = b'X';
    match GvmProgramSerializer::read_from(&bytes, &Arity) {
        Err(e) => {
            assert!(matches!(e, ReadError::InvalidMagic));
            assert_eq!(e.message(), "Invalid magic: expected GSVM");
        }
        Ok(_) => panic!("accepted a bad magic"),
    }
}

#[test]
fn other_version_is_refused() {
    let mut bytes = GvmProgramSerializer::encode_program(&sample(), &[2, 0]);
    bytes[4] = 3;
    match GvmProgramSerializer::read_from(&bytes, &Arity) {
        Err(e) => {
            assert!(matches!(e, ReadError::UnsupportedVersion(3)));
            assert_eq!(e.message(), "Unsupported version: 3 (expected 2)");
        }
        Ok(_) => panic!("accepted version 3"),
    }
}

fn expect_malformed(bytes: &[u8]) {
    match GvmProgramSerializer::read_from(bytes, &Arity) {
        Err(e) => {
            assert!(matches!(e, ReadError::Malformed));
            assert_eq!(e.message(), "Malformed program");
        }
        Ok(_) => panic!("accepted {:?}", bytes),
    }
}

fn header(table_size: i32) -> Vec<u8> {
    let mut s = RandomAccessByteStream::new();
    s.write_bytes(b"GSVM");
    s.write_int(2);
    s.write_int(table_size);
    s.contents()
}

#[test]
fn truncated_bytes_are_malformed() {
    // A negative count.
    expect_malformed(&header(-1));
    // More strings than the loaded block can hold.
    expect_malformed(&header(5000));
}

#[test]
fn short_magic_reads_against_zero_padding() {
    // Bytes are loaded into zero-filled blocks of 8000 bytes, so a cut
    // inside the first block reads zeros where bytes are missing.
    let bytes = GvmProgramSerializer::encode_program(&sample(), &[2, 0]);
    assert!(matches!(
        GvmProgramSerializer::read_from(&bytes[..4], &Arity),
        Err(ReadError::UnsupportedVersion(0))
    ));
    assert!(matches!(
        GvmProgramSerializer::read_from(&bytes[..3], &Arity),
        Err(ReadError::InvalidMagic)
    ));
    let q = GvmProgramSerializer::read_from(&bytes[..bytes.len() - 1], &Arity)
        .ok()
        .unwrap();
    assert_eq!(q.get_function(4).unwrap().bytecode().contents(), vec![1, 2, 3, 4, 0]);
}

#[test]
fn string_index_outside_the_table_is_malformed() {
    let p: GvmProgram<i32> = GvmProgram::new("p".to_string());
    let mut bytes = GvmProgramSerializer::encode_program(&p, &[]);
    // The name index is the 4 bytes after the table.
    bytes[20] = 5;
    assert!(matches!(
        GvmProgramSerializer::read_from(&bytes, &Arity),
        Err(ReadError::Malformed)
    ));
}
