use kcore::error::OsError;
use kcore::mem::userbuf::{read_cstring, read_usize, Page, UserMemory};
use kcore::mem::word::size_of_word;
use kcore::mem::PG_SIZE;
use kcore::trap::argv::{read_exec_argv, read_path};
use kcore::trap::Frame;
use kcore::userproc::args::setup_arguments;

const INIT_SP: usize = 0x10000;
const KERNEL: usize = 0x8000_0000;

fn strings(args: &[&str]) -> Vec<String> {
    args.iter().map(|a| String::from(*a)).collect()
}

/// The memory of a program that has been started with some arguments.
fn started(args: &[&str]) -> (UserMemory, Frame) {
    let mut frame = Frame::zeroed();
    let page = setup_arguments(Some(vec![0xaa; PG_SIZE]), INIT_SP, &strings(args), &mut frame);
    let mut mem = UserMemory::new(KERNEL);
    mem.map_page(INIT_SP / PG_SIZE - 1, Page { bytes: page.unwrap(), writable: true });
    (mem, frame)
}

#[test]
fn arguments_stand_on_the_stack_as_laid_out() {
    let (mem, frame) = started(&["ab", "c"]);
    let word = size_of_word();
    // "ab\0" and "c\0" take five bytes, the vector three words.
    let first = INIT_SP - 5;
    let second = INIT_SP - 2;
    let argv = ((first & !7) - 3 * word) & !15;
    assert_eq!(frame.x[2], argv);
    assert_eq!(frame.x[10], 2);
    assert_eq!(frame.x[11], argv);
    assert_eq!(read_usize(&mem, argv), Ok(first));
    assert_eq!(read_usize(&mem, argv + word), Ok(second));
    assert_eq!(read_usize(&mem, argv + 2 * word), Ok(0));
    assert_eq!(read_cstring(&mem, first, 16), Ok(String::from("ab")));
    assert_eq!(read_cstring(&mem, second, 16), Ok(String::from("c")));
}

#[test]
fn a_program_finds_the_arguments_that_it_was_started_with() {
    for args in [&["prog"][..], &["a", "", "gr\u{fc}n", "-x"][..], &["x"; 100][..]] {
        let (mem, frame) = started(args);
        assert_eq!(frame.x[2] % 16, 0);
        assert_eq!(read_exec_argv(&mem, frame.x[11]), Some(strings(args)));
    }
}

#[test]
fn a_program_may_have_no_arguments() {
    let (mem, frame) = started(&[]);
    assert_eq!(frame.x[10], 0);
    assert_eq!(read_usize(&mem, frame.x[11]), Ok(0));
    assert_eq!(frame.x[11], INIT_SP - 16);
    assert_eq!(read_exec_argv(&mem, frame.x[11]), None);
}

#[test]
fn other_registers_stay() {
    let mut frame = Frame::zeroed();
    frame.x[5] = 77;
    frame.sepc = 88;
    setup_arguments(Some(vec![0; PG_SIZE]), INIT_SP, &strings(&["a"]), &mut frame).unwrap();
    assert_eq!(frame.x[5], 77);
    assert_eq!(frame.sepc, 88);
}

#[test]
fn arguments_have_to_fit_into_one_page() {
    let mut frame = Frame::zeroed();
    let page = || Some(vec![0; PG_SIZE]);
    let room = PG_SIZE - 2 * size_of_word() - 1;
    let fits = vec!["x".repeat(room)];
    assert!(setup_arguments(page(), INIT_SP, &fits, &mut frame).is_ok());
    let mut frame = Frame::zeroed();
    let long = vec!["x".repeat(room + 1)];
    assert_eq!(
        setup_arguments(page(), INIT_SP, &long, &mut frame),
        Err(OsError::ArgumentTooLong)
    );
    assert_eq!(
        setup_arguments(page(), INIT_SP, &vec!["x".repeat(PG_SIZE)], &mut frame),
        Err(OsError::ArgumentTooLong)
    );
    assert_eq!(
        setup_arguments(page(), INIT_SP, &vec![String::new(); PG_SIZE], &mut frame),
        Err(OsError::ArgumentTooLong)
    );
    assert_eq!(frame.x, [0; 32]);
}

#[test]
fn arguments_need_a_stack() {
    let mut frame = Frame::zeroed();
    assert_eq!(
        setup_arguments(None, INIT_SP, &strings(&["a"]), &mut frame),
        Err(OsError::BadPtr)
    );
}

/// Memory with words and bytes at chosen places of one page.
fn memory(words: &[(usize, usize)], texts: &[(usize, &str)]) -> UserMemory {
    let mut bytes = vec![0u8; PG_SIZE];
    for (at, value) in words {
        for (i, byte) in value.to_le_bytes().iter().enumerate() {
            bytes[at + i] = *byte;
        }
    }
    for (at, text) in texts {
        bytes[*at..*at + text.len()].copy_from_slice(text.as_bytes());
    }
    let mut mem = UserMemory::new(KERNEL);
    mem.map_page(1, Page { bytes, writable: true });
    mem
}

#[test]
fn argument_vectors_end_with_null() {
    let word = size_of_word();
    let mem = memory(
        &[(0, PG_SIZE + 512), (word, PG_SIZE + 600)],
        &[(512, "ls"), (600, "-l")],
    );
    assert_eq!(read_exec_argv(&mem, PG_SIZE), Some(strings(&["ls", "-l"])));
    assert_eq!(read_exec_argv(&mem, PG_SIZE + word), Some(strings(&["-l"])));
    assert_eq!(read_exec_argv(&mem, PG_SIZE + 2 * word), None);
}

#[test]
fn bad_argument_vectors_are_refused() {
    let mem = memory(&[(0, 3 * PG_SIZE)], &[]);
    assert_eq!(read_exec_argv(&mem, 0), None);
    assert_eq!(read_exec_argv(&mem, PG_SIZE), None);
    assert_eq!(read_exec_argv(&mem, 7 * PG_SIZE), None);
    assert_eq!(read_exec_argv(&mem, 2 * PG_SIZE - 1), None);
}

#[test]
fn argument_vectors_without_end_are_refused() {
    let word = size_of_word();
    let pointers: Vec<(usize, usize)> =
        (0..PG_SIZE / word).map(|i| (i * word, 2 * PG_SIZE)).collect();
    let mut mem = memory(&pointers, &[]);
    mem.map_page(2, Page { bytes: vec![0; PG_SIZE], writable: true });
    // Each argument is empty and takes one byte; the vector fills its page.
    assert_eq!(read_exec_argv(&mem, PG_SIZE), None);
    assert_eq!(
        read_exec_argv(&mem, PG_SIZE + word).map(|argv| argv.len()),
        Some(PG_SIZE / word - 1)
    );
}

#[test]
fn arguments_share_one_page_of_room() {
    let word = size_of_word();
    let mut bytes = vec![b'x'; PG_SIZE];
    bytes[PG_SIZE - 1] = 0;
    let mut mem = memory(&[(0, 2 * PG_SIZE)], &[]);
    mem.map_page(2, Page { bytes: bytes.clone(), writable: false });
    // One argument of a whole page, its terminator included, is as much as fits.
    assert_eq!(read_exec_argv(&mem, PG_SIZE).map(|argv| argv[0].len()), Some(PG_SIZE - 1));
    let mut mem = memory(&[(0, 2 * PG_SIZE), (word, 3 * PG_SIZE - 1)], &[]);
    mem.map_page(2, Page { bytes, writable: false });
    assert_eq!(read_exec_argv(&mem, PG_SIZE), None);
}

#[test]
fn paths_are_not_empty() {
    let mem = memory(&[], &[(100, "/bin/sh")]);
    assert_eq!(read_path(&mem, PG_SIZE + 100), Some(String::from("/bin/sh")));
    assert_eq!(read_path(&mem, PG_SIZE + 107), None);
    assert_eq!(read_path(&mem, 0), None);
    assert_eq!(read_path(&mem, 5 * PG_SIZE), None);
}
