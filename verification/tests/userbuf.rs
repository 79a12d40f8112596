use kcore::error::OsError;
use kcore::mem::userbuf::{
    copy_from_user, copy_to_user, read_cstring, read_user_byte, read_user_bytes, read_usize,
    validate_writable, write_user_byte, Page, UserMemory,
};
use kcore::mem::PG_SIZE;

const KERNEL: usize = 0x8000_0000;

/// Page one can be written, page two can only be read, and nothing else is mapped.
fn memory() -> UserMemory {
    let mut mem = UserMemory::new(KERNEL);
    mem.map_page(1, Page { bytes: vec![7; PG_SIZE], writable: true });
    mem.map_page(2, Page { bytes: vec![9; PG_SIZE], writable: false });
    mem
}

fn put(mem: &mut UserMemory, addr: usize, bytes: &[u8]) {
    assert_eq!(copy_to_user(mem, addr, &bytes.to_vec()), Ok(()));
}

#[test]
fn bytes_are_read_and_written() {
    let mut mem = memory();
    assert_eq!(read_user_byte(&mem, PG_SIZE), Ok(7));
    assert_eq!(read_user_byte(&mem, 2 * PG_SIZE), Ok(9));
    assert_eq!(write_user_byte(&mut mem, PG_SIZE + 5, 42), Ok(()));
    assert_eq!(read_user_byte(&mem, PG_SIZE + 5), Ok(42));
    assert_eq!(read_user_byte(&mem, PG_SIZE + 4), Ok(7));
    assert_eq!(read_user_byte(&mem, PG_SIZE + 6), Ok(7));
}

#[test]
fn null_and_kernel_pointers_are_refused() {
    let mut mem = memory();
    mem.map_page(0, Page { bytes: vec![1; PG_SIZE], writable: true });
    mem.map_page(KERNEL / PG_SIZE, Page { bytes: vec![1; PG_SIZE], writable: true });
    assert_eq!(read_user_byte(&mem, 0), Err(OsError::BadPtr));
    assert_eq!(read_user_byte(&mem, 1), Ok(1));
    assert_eq!(read_user_byte(&mem, KERNEL), Err(OsError::BadPtr));
    assert_eq!(read_user_byte(&mem, usize::MAX), Err(OsError::BadPtr));
    assert_eq!(write_user_byte(&mut mem, 0, 3), Err(OsError::BadPtr));
    assert_eq!(write_user_byte(&mut mem, KERNEL, 3), Err(OsError::BadPtr));
    assert!(mem.in_kernel_space(KERNEL));
    assert!(!mem.in_kernel_space(KERNEL - 1));
}

#[test]
fn page_faults_are_refused() {
    let mut mem = memory();
    assert_eq!(read_user_byte(&mem, 3 * PG_SIZE), Err(OsError::BadPtr));
    assert_eq!(write_user_byte(&mut mem, 3 * PG_SIZE, 1), Err(OsError::BadPtr));
    assert_eq!(write_user_byte(&mut mem, 2 * PG_SIZE, 1), Err(OsError::BadPtr));
    assert_eq!(read_user_byte(&mem, 2 * PG_SIZE), Ok(9));
}

#[test]
fn what_is_copied_out_is_copied_back() {
    let mut mem = memory();
    let text = b"over the edge?".to_vec();
    assert_eq!(copy_to_user(&mut mem, PG_SIZE + 100, &text), Ok(()));
    let mut back = vec![0; text.len()];
    assert_eq!(copy_from_user(&mem, PG_SIZE + 100, &mut back), Ok(()));
    assert_eq!(back, text);
    assert_eq!(read_user_bytes(&mem, PG_SIZE + 100, text.len()), Ok(text));
    assert_eq!(read_user_byte(&mem, PG_SIZE + 99), Ok(7));
    assert_eq!(read_user_byte(&mem, PG_SIZE + 114), Ok(7));
}

#[test]
fn a_copy_stops_at_the_fault() {
    let mut mem = memory();
    let end = 2 * PG_SIZE - 2;
    assert_eq!(copy_to_user(&mut mem, end, &vec![1, 2, 3]), Err(OsError::BadPtr));
    assert_eq!(read_user_byte(&mem, end), Ok(1));
    assert_eq!(read_user_byte(&mem, end + 1), Ok(2));
    assert_eq!(read_user_byte(&mem, end + 2), Ok(9));

    let mut back = vec![0; 4];
    assert_eq!(copy_from_user(&mem, 3 * PG_SIZE - 2, &mut back), Err(OsError::BadPtr));
    assert_eq!(back, vec![9, 9, 0, 0]);
    assert_eq!(read_user_bytes(&mem, 3 * PG_SIZE - 2, 4), Err(OsError::BadPtr));
}

#[test]
fn a_copy_of_nothing_succeeds_anywhere() {
    let mut mem = memory();
    assert_eq!(copy_to_user(&mut mem, 0, &Vec::new()), Ok(()));
    assert_eq!(copy_from_user(&mem, KERNEL, &mut Vec::new()), Ok(()));
    assert_eq!(validate_writable(&mut mem, 0, 0), Ok(()));
}

#[test]
fn a_validated_buffer_can_be_written() {
    let mut mem = memory();
    assert_eq!(validate_writable(&mut mem, PG_SIZE, PG_SIZE), Ok(()));
    assert_eq!(copy_to_user(&mut mem, PG_SIZE, &vec![5; PG_SIZE]), Ok(()));
    assert_eq!(validate_writable(&mut mem, PG_SIZE, PG_SIZE + 1), Err(OsError::BadPtr));
    assert_eq!(validate_writable(&mut mem, 2 * PG_SIZE, 1), Err(OsError::BadPtr));
    assert_eq!(read_user_byte(&mem, 2 * PG_SIZE - 1), Ok(5));
}

#[test]
fn a_word_across_a_fault_is_refused() {
    let mem = memory();
    assert_eq!(read_usize(&mem, 3 * PG_SIZE - 1), Err(OsError::BadPtr));
    assert_eq!(read_usize(&mem, 0), Err(OsError::BadPtr));
}

#[test]
fn strings_end_at_the_terminator() {
    let mut mem = memory();
    put(&mut mem, PG_SIZE, b"hello\0world\0");
    assert_eq!(read_cstring(&mem, PG_SIZE, 64), Ok(String::from("hello")));
    assert_eq!(read_cstring(&mem, PG_SIZE + 6, 64), Ok(String::from("world")));
    assert_eq!(read_cstring(&mem, PG_SIZE + 5, 64), Ok(String::new()));
}

#[test]
fn strings_may_hold_any_text() {
    let mut mem = memory();
    put(&mut mem, PG_SIZE, "gr\u{fc}n \u{20ac}\u{1f600}\0".as_bytes());
    assert_eq!(read_cstring(&mem, PG_SIZE, 64), Ok(String::from("gr\u{fc}n \u{20ac}\u{1f600}")));
}

#[test]
fn strings_that_are_no_text_are_refused() {
    let mut mem = memory();
    put(&mut mem, PG_SIZE, &[b'a', 0xff, b'b', 0]);
    assert_eq!(read_cstring(&mem, PG_SIZE, 64), Err(OsError::CstrFormatErr));
}

#[test]
fn strings_need_room_for_the_terminator() {
    let mut mem = memory();
    put(&mut mem, PG_SIZE, b"hello\0");
    assert_eq!(read_cstring(&mem, PG_SIZE, 6), Ok(String::from("hello")));
    assert_eq!(read_cstring(&mem, PG_SIZE, 5), Err(OsError::ArgumentTooLong));
    assert_eq!(read_cstring(&mem, PG_SIZE, 0), Err(OsError::ArgumentTooLong));
    assert_eq!(read_cstring(&mem, 0, 0), Err(OsError::BadPtr));
}

#[test]
fn strings_that_run_into_a_fault_are_refused() {
    let mem = memory();
    assert_eq!(read_cstring(&mem, 3 * PG_SIZE - 4, 64), Err(OsError::BadPtr));
    assert_eq!(read_cstring(&mem, 5 * PG_SIZE, 64), Err(OsError::BadPtr));
}

#[test]
fn mapped_pages_are_found() {
    let mem = memory();
    assert!(mem.page(1).unwrap().writable);
    assert!(!mem.page(2).unwrap().writable);
    assert!(mem.page(3).is_none());
}
