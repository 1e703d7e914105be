use gs_core::streams::{string_body, RandomAccessByteStream};

#[test]
fn new_stream_is_empty() {
    let s = RandomAccessByteStream::new();
    assert_eq!(s.size(), 0);
    assert_eq!(s.get_pointer_position(), 0);
    assert_eq!(s.capacity(), 8000);
    assert_eq!(s.contents(), Vec::<u8>::new());
}

#[test]
fn int_round_trip_is_little_endian() {
    let mut s = RandomAccessByteStream::new();
    s.write_int(0x01020304);
    s.write_int(-2);
    assert_eq!(s.contents(), vec![4, 3, 2, 1, 0xFE, 0xFF, 0xFF, 0xFF]);
    s.seek(0);
    assert_eq!(s.read_int(), 0x01020304);
    assert_eq!(s.read_int(), -2);
    assert_eq!(s.get_pointer_position(), 8);
}

#[test]
fn int_extremes_round_trip() {
    let mut s = RandomAccessByteStream::new();
    s.write_int(i32::MIN);
    s.write_int(i32::MAX);
    s.write_int(0);
    s.seek(0);
    assert_eq!(s.read_int(), i32::MIN);
    assert_eq!(s.read_int(), i32::MAX);
    assert_eq!(s.read_int(), 0);
}

#[test]
fn bool_is_written_as_int_and_read_as_byte() {
    let mut s = RandomAccessByteStream::new();
    s.write_bool(true);
    s.write_bool(false);
    assert_eq!(s.contents(), vec![1, 0, 0, 0, 0, 0, 0, 0]);
    s.seek(0);
    assert!(s.read_bool());
    assert_eq!(s.get_pointer_position(), 1);
    assert!(!s.read_bool());
}

#[test]
fn string_has_length_bom_and_big_endian_units() {
    let mut s = RandomAccessByteStream::new();
    s.write_string("hi");
    assert_eq!(s.contents(), vec![6, 0, 0, 0, 0xFE, 0xFF, 0, b'h', 0, b'i']);
    s.seek(0);
    assert_eq!(s.read_string(), "hi");
    assert_eq!(s.get_pointer_position(), 10);
}

#[test]
fn non_ascii_string_round_trips() {
    let text = "Grüße, 世界 😀";
    let mut s = RandomAccessByteStream::new();
    s.write_string(text);
    s.write_string("");
    s.seek(0);
    assert_eq!(s.read_string(), text);
    assert_eq!(s.read_string(), "");
    // The emoji takes a surrogate pair: 2 bytes of BOM + 2 per unit.
    let body = string_body("😀");
    assert_eq!(body, vec![0xFE, 0xFF, 0xD8, 0x3D, 0xDE, 0x00]);
}

#[test]
fn unpaired_surrogate_reads_as_replacement() {
    let mut s = RandomAccessByteStream::new();
    s.write_int(4);
    s.write_bytes(&[0xD8, 0x00, 0, b'a']);
    s.seek(0);
    assert_eq!(s.read_string(), "\u{FFFD}a");
}

#[test]
fn string_without_bom_is_read_whole() {
    let mut s = RandomAccessByteStream::new();
    s.write_int(3);
    s.write_bytes(&[0, b'o', 0x41]);
    s.seek(0);
    // The odd last byte is ignored.
    assert_eq!(s.read_string(), "o");
    assert_eq!(s.get_pointer_position(), 7);
}

#[test]
fn char_round_trips_in_two_bytes() {
    let mut s = RandomAccessByteStream::new();
    s.write_char('A');
    s.write_char('é');
    assert_eq!(s.contents(), vec![0x41, 0, 0xE9, 0]);
    s.seek(0);
    assert_eq!(s.read_char(), 'A');
    assert_eq!(s.read_char(), 'é');
}

#[test]
fn surrogate_char_value_reads_as_nul() {
    let mut s = RandomAccessByteStream::new();
    s.write_bytes(&[0x00, 0xD8]);
    s.seek(0);
    assert_eq!(s.read_char(), '\0');
}

#[test]
fn writes_cross_block_boundaries() {
    let mut s = RandomAccessByteStream::with_blocksize(3);
    s.write_bytes(&[1, 2, 3, 4, 5, 6, 7]);
    assert_eq!(s.size(), 7);
    assert_eq!(s.capacity(), 9);
    s.seek(2);
    assert_eq!(s.read_bytes(4), vec![3, 4, 5, 6]);
    assert_eq!(s.get_bytes(), vec![1, 2, 3, 4, 5, 6, 7]);
    assert_eq!(s.get_pointer_position(), 6);
}

#[test]
fn with_blocks_allocates_zeroed_blocks() {
    let mut s = RandomAccessByteStream::with_blocksize_and_blocks(4, 3);
    assert_eq!(s.capacity(), 12);
    assert_eq!(s.size(), 0);
    s.seek(10);
    assert_eq!(s.read_byte(), 0);
}

#[test]
fn set_overwrites_in_place_and_keeps_position() {
    let mut s = RandomAccessByteStream::new();
    s.write_int(0);
    s.write_int(7);
    s.set(0, 258);
    assert_eq!(s.get_pointer_position(), 8);
    assert_eq!(s.contents(), vec![2, 1, 0, 0, 7, 0, 0, 0]);
    assert_eq!(s.size(), 8);
}

#[test]
fn overwriting_does_not_grow_size() {
    let mut s = RandomAccessByteStream::new();
    s.write_bytes(&[1, 2, 3, 4]);
    s.seek(1);
    s.write_byte(9);
    assert_eq!(s.size(), 4);
    assert_eq!(s.contents(), vec![1, 9, 3, 4]);
}

#[test]
fn peeks_do_not_move() {
    let mut s = RandomAccessByteStream::new();
    s.write_int(77);
    s.seek(0);
    assert_eq!(s.peek_byte(), 77);
    assert_eq!(s.peek_int(), 77);
    assert_eq!(s.get_pointer_position(), 0);
    // Reads may go up to the end of the allocated block.
    assert_eq!(s.readable(), 8000);
}

#[test]
fn clone_copies_contents_with_position_at_start() {
    let mut s = RandomAccessByteStream::new();
    s.write_int(5);
    let mut c = s.clone();
    assert_eq!(c.get_pointer_position(), 0);
    assert_eq!(c.size(), 4);
    assert_eq!(c.read_int(), 5);
    assert_eq!(s.get_pointer_position(), 4);
}

#[test]
fn load_replaces_contents() {
    let mut s = RandomAccessByteStream::with_blocksize(2);
    s.write_bytes(&[9, 9, 9, 9, 9]);
    s.load(&[1, 2, 3]);
    assert_eq!(s.size(), 3);
    assert_eq!(s.get_pointer_position(), 0);
    assert_eq!(s.contents(), vec![1, 2, 3]);
    assert_eq!(s.capacity(), 4);
}

#[test]
fn set_may_allocate_the_block_the_old_position_lies_in() {
    let mut s = RandomAccessByteStream::with_blocksize(4);
    s.write_bytes(&[1, 2, 3, 4]);
    assert_eq!(s.capacity(), 4);
    assert_eq!(s.get_pointer_position(), 4);
    s.set(2, 0x0A0B0C0D);
    assert_eq!(s.capacity(), 8);
    assert_eq!(s.get_pointer_position(), 4);
    assert_eq!(s.size(), 6);
    assert_eq!(s.contents(), vec![1, 2, 0x0D, 0x0C, 0x0B, 0x0A]);
}

#[test]
fn char_above_the_bmp_reads_back_its_low_sixteen_bits() {
    let mut s = RandomAccessByteStream::new();
    s.write_char('😀'); // U+1F600
    s.write_char('\u{1D800}'); // low bits are a surrogate
    s.seek(0);
    assert_eq!(s.read_char(), '\u{F600}');
    assert_eq!(s.read_char(), '\0');
    assert_eq!(s.get_pointer_position(), 4);
}

#[test]
fn size_is_the_furthest_write_end() {
    let mut s = RandomAccessByteStream::new();
    s.write_int(1);
    s.write_int(2);
    s.seek(2);
    s.write_byte(9);
    let _ = s.read_byte();
    assert_eq!(s.size(), 8);
    s.seek(7);
    s.write_int(3);
    assert_eq!(s.size(), 11);
}
