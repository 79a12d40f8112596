use kcore::mem::userbuf::{read_usize, Page, UserMemory};
use kcore::mem::word::size_of_word;
use kcore::mem::PG_SIZE;

#[test]
fn a_word_is_as_wide_as_usize() {
    assert_eq!(size_of_word(), core::mem::size_of::<usize>());
}

#[test]
fn a_word_is_read_lowest_byte_first() {
    let mut bytes = vec![0u8; PG_SIZE];
    bytes[16] = 0x01;
    bytes[17] = 0x02;
    bytes[19] = 0x80;
    let mut mem = UserMemory::new(0x8000_0000);
    mem.map_page(1, Page { bytes, writable: false });
    assert_eq!(read_usize(&mem, PG_SIZE + 16), Ok(0x8000_0201));
}
