use kcore::error::OsError;
use kcore::mem::userbuf::{copy_to_user, read_user_bytes, Page, UserMemory};
use kcore::mem::word::size_of_word;
use kcore::mem::{PageTable, PG_SIZE};
use kcore::thread::{Builder, Manager, Status, Switch, Tids};
use kcore::trap::step::{OpenPhase, Pending, Reply, Request, Step};
use kcore::trap::syscall::{
    access_mode, open_with_flags, resume, resume_allowed, syscall_handler, zeroed_vec, OpenAction,
    OpenProgress, O_CREATE, O_RDONLY, O_RDWR, O_TRUNC, O_WRONLY, SYS_CLOSE, SYS_EXEC, SYS_EXIT,
    SYS_FSTAT, SYS_HALT, SYS_OPEN, SYS_READ, SYS_REMOVE, SYS_SEEK, SYS_TELL, SYS_WAIT, SYS_WRITE,
};
use kcore::userproc::exec::{Image, Launch};
use kcore::userproc::{File, UserProc, WaitTable};

const KERNEL: usize = 0x8000_0000;
const BUFFER: usize = PG_SIZE + 1024;
const PATH: usize = PG_SIZE;

/// A kernel whose thread zero runs a process, with one page that can be written and one
/// that cannot.
struct Kernel {
    manager: Manager,
    waits: WaitTable,
    tids: Tids,
    mem: UserMemory,
}

impl Kernel {
    fn new() -> Kernel {
        let mut tids = Tids::new();
        let proc = UserProc::new(File { handle: 100 });
        let initial = Builder::new(0).userproc(proc).build(&mut tids, 0, 0x8000);
        let mut mem = UserMemory::new(KERNEL);
        mem.map_page(1, Page { bytes: vec![0; PG_SIZE], writable: true });
        mem.map_page(2, Page { bytes: vec![b'r'; PG_SIZE], writable: false });
        let mut kernel =
            Kernel { manager: Manager::new(initial), waits: WaitTable::new(), tids, mem };
        kernel.put(PATH, b"/file\0");
        kernel
    }

    fn put(&mut self, addr: usize, bytes: &[u8]) {
        assert_eq!(copy_to_user(&mut self.mem, addr, &bytes.to_vec()), Ok(()));
    }

    fn call(&mut self, id: usize, args: [usize; 3]) -> Step {
        syscall_handler(&mut self.manager, &mut self.waits, &mut self.mem, id, args)
    }

    fn answer(&mut self, pending: Pending, reply: Reply) -> Step {
        assert!(resume_allowed(&self.manager, &self.waits, &self.tids, &pending, &reply));
        resume(
            &mut self.manager,
            &mut self.waits,
            &mut self.tids,
            &mut self.mem,
            pending,
            reply,
        )
    }

    /// A call that asks something: the question, and what waits for the answer.
    fn ask(&mut self, id: usize, args: [usize; 3]) -> (Request, Pending) {
        match self.call(id, args) {
            Step::Ask { request, pending } => (request, pending),
            _ => panic!("the call does not ask"),
        }
    }

    /// Opens a file with some flags, which the file system knows by `handle`.
    fn open(&mut self, flags: usize, handle: usize) -> isize {
        let (_, pending) = self.ask(SYS_OPEN, [PATH, flags, 0]);
        returned(self.answer(pending, Reply::File(Ok(File { handle }))))
    }
}

fn returned(step: Step) -> isize {
    match step {
        Step::Return(value) => value,
        _ => panic!("the call does not return"),
    }
}

#[test]
fn halt_shuts_down() {
    assert!(matches!(Kernel::new().call(SYS_HALT, [0; 3]), Step::Shutdown));
}

#[test]
fn unknown_calls_fail() {
    let mut kernel = Kernel::new();
    assert_eq!(returned(kernel.call(0, [0; 3])), -1);
    assert_eq!(returned(kernel.call(13, [0; 3])), -1);
    assert_eq!(returned(kernel.call(usize::MAX, [0; 3])), -1);
}

#[test]
fn exit_ends_the_process() {
    let mut kernel = Kernel::new();
    kernel.open(O_RDONLY, 7);
    match kernel.call(SYS_EXIT, [3, 0, 0]) {
        Step::Exited(exit) => {
            assert_eq!(exit.files, vec![File { handle: 7 }, File { handle: 100 }]);
            assert_eq!(exit.switch, None);
        }
        _ => panic!("the process goes on"),
    }
    assert_eq!(kernel.manager.get(0).unwrap().status(), Status::Dying);
}

#[test]
fn open_returns_new_descriptors() {
    let mut kernel = Kernel::new();
    let (request, pending) = kernel.ask(SYS_OPEN, [PATH, O_RDWR, 0]);
    assert!(matches!(request, Request::OpenFile(path) if path == "/file"));
    assert_eq!(returned(kernel.answer(pending, Reply::File(Ok(File { handle: 7 })))), 3);
    assert_eq!(kernel.open(O_RDONLY, 8), 4);
}

#[test]
fn open_fails_without_a_path_or_with_bad_flags() {
    let mut kernel = Kernel::new();
    assert_eq!(returned(kernel.call(SYS_OPEN, [0, O_RDONLY, 0])), -1);
    assert_eq!(returned(kernel.call(SYS_OPEN, [PATH + 5, O_RDONLY, 0])), -1);
    assert_eq!(returned(kernel.call(SYS_OPEN, [PATH, 3, 0])), -1);
    assert_eq!(returned(kernel.call(SYS_OPEN, [PATH, O_RDONLY | O_TRUNC, 0])), -1);
    let (_, pending) = kernel.ask(SYS_OPEN, [PATH, O_RDONLY, 0]);
    assert_eq!(returned(kernel.answer(pending, Reply::File(Err(OsError::FileSystem)))), -1);
}

#[test]
fn open_flags_say_what_is_made() {
    let file = File { handle: 1 };
    let err = OsError::FileSystem;
    let plain = |p| open_with_flags(O_RDWR, p);
    assert!(matches!(plain(OpenProgress::Start), OpenAction::Open));
    assert!(matches!(plain(OpenProgress::Opened(Ok(file))), OpenAction::Done(Ok(f)) if f == file));
    assert!(matches!(plain(OpenProgress::Opened(Err(err))), OpenAction::Done(Err(_))));

    let create = |p| open_with_flags(O_RDWR | O_CREATE, p);
    assert!(matches!(create(OpenProgress::Start), OpenAction::Open));
    assert!(matches!(create(OpenProgress::Opened(Ok(file))), OpenAction::Done(Ok(_))));
    assert!(matches!(
        create(OpenProgress::Opened(Err(err))),
        OpenAction::Create { opened: None }
    ));

    let trunc = |p| open_with_flags(O_WRONLY | O_TRUNC, p);
    assert!(matches!(trunc(OpenProgress::Start), OpenAction::Open));
    assert!(matches!(
        trunc(OpenProgress::Opened(Ok(file))),
        OpenAction::Create { opened: Some(f) } if f == file
    ));
    assert!(matches!(trunc(OpenProgress::Opened(Err(err))), OpenAction::Done(Err(_))));

    let both = |p| open_with_flags(O_WRONLY | O_CREATE | O_TRUNC, p);
    assert!(matches!(both(OpenProgress::Start), OpenAction::Create { opened: None }));
    assert!(matches!(both(OpenProgress::Created(Ok(file))), OpenAction::Done(Ok(_))));
    assert!(matches!(both(OpenProgress::Created(Err(err))), OpenAction::Done(Err(_))));
}

#[test]
fn open_modes_say_what_is_allowed() {
    assert_eq!(access_mode(O_RDONLY), Some((true, false)));
    assert_eq!(access_mode(O_WRONLY), Some((false, true)));
    assert_eq!(access_mode(O_RDWR), Some((true, true)));
    assert_eq!(access_mode(3), None);
    assert_eq!(access_mode(O_RDONLY | O_CREATE), Some((true, false)));
    assert_eq!(access_mode(O_RDONLY | O_TRUNC), None);
    assert_eq!(access_mode(O_WRONLY | O_TRUNC), Some((false, true)));
}

#[test]
fn a_missing_file_is_made_on_demand() {
    let mut kernel = Kernel::new();
    let (_, pending) = kernel.ask(SYS_OPEN, [PATH, O_WRONLY | O_CREATE, 0]);
    match kernel.answer(pending, Reply::File(Err(OsError::FileSystem))) {
        Step::Ask { request: Request::CreateFile { path, opened }, pending } => {
            assert_eq!(path, "/file");
            assert_eq!(opened, None);
            assert!(matches!(
                pending,
                Pending::Open { phase: OpenPhase::Creating, flags: 0x201, .. }
            ));
            let step = kernel.answer(pending, Reply::File(Ok(File { handle: 9 })));
            assert_eq!(returned(step), 3);
        }
        _ => panic!("the file is not made"),
    }
}

#[test]
fn a_file_opened_by_a_thread_without_a_process_is_closed() {
    let mut kernel = Kernel::new();
    let mut tids = Tids::new();
    kernel.manager = Manager::new(Builder::new(0).build(&mut tids, 0, 0x8000));
    let (_, pending) = kernel.ask(SYS_OPEN, [PATH, O_RDONLY, 0]);
    let step = kernel.answer(pending, Reply::File(Ok(File { handle: 7 })));
    assert!(matches!(step, Step::Close { file: File { handle: 7 }, value: -1 }));
}

#[test]
fn transfers_of_nothing_succeed() {
    let mut kernel = Kernel::new();
    assert_eq!(returned(kernel.call(SYS_READ, [99, 0, 0])), 0);
    assert_eq!(returned(kernel.call(SYS_WRITE, [99, 0, 0])), 0);
}

#[test]
fn files_are_read_into_the_buffer() {
    let mut kernel = Kernel::new();
    let fd = kernel.open(O_RDONLY, 7) as usize;
    let (request, pending) = kernel.ask(SYS_READ, [fd, BUFFER, 8]);
    match request {
        Request::ReadFile { file, data } => {
            assert_eq!(file, File { handle: 7 });
            assert_eq!(data, vec![0; 8]);
        }
        _ => panic!("nothing is read"),
    }
    let reply = Reply::Read { data: b"hello...".to_vec(), count: Ok(5) };
    assert_eq!(returned(kernel.answer(pending, reply)), 5);
    assert_eq!(read_user_bytes(&kernel.mem, BUFFER, 6), Ok(b"hello\0".to_vec()));
}

#[test]
fn failed_reads_leave_the_buffer() {
    let mut kernel = Kernel::new();
    let fd = kernel.open(O_RDONLY, 7) as usize;
    let (_, pending) = kernel.ask(SYS_READ, [fd, BUFFER, 8]);
    let reply = Reply::Read { data: vec![1; 8], count: Err(OsError::FileSystem) };
    assert_eq!(returned(kernel.answer(pending, reply)), -1);
    assert_eq!(read_user_bytes(&kernel.mem, BUFFER, 8), Ok(vec![0; 8]));
    let (_, pending) = kernel.ask(SYS_READ, [fd, BUFFER, 8]);
    let reply = Reply::Read { data: vec![1; 8], count: Ok(9) };
    assert!(!resume_allowed(&kernel.manager, &kernel.waits, &kernel.tids, &pending, &reply));
    // No other buffer than the one that was handed out comes back.
    let reply = Reply::Read { data: vec![1; 9], count: Ok(9) };
    assert!(!resume_allowed(&kernel.manager, &kernel.waits, &kernel.tids, &pending, &reply));
    let reply = Reply::Read { data: vec![1; 7], count: Ok(7) };
    assert!(!resume_allowed(&kernel.manager, &kernel.waits, &kernel.tids, &pending, &reply));
    let reply = Reply::Read { data: vec![1; 8], count: Ok(8) };
    assert_eq!(returned(kernel.answer(pending, reply)), 8);
    assert_eq!(
        read_user_bytes(&kernel.mem, BUFFER - 1, 10),
        Ok(vec![0, 1, 1, 1, 1, 1, 1, 1, 1, 0])
    );
}

#[test]
fn reads_need_a_descriptor_that_can_be_read_and_a_buffer_that_can_be_written() {
    let mut kernel = Kernel::new();
    let write_only = kernel.open(O_WRONLY, 7) as usize;
    assert_eq!(returned(kernel.call(SYS_READ, [write_only, BUFFER, 8])), -1);
    assert_eq!(returned(kernel.call(SYS_READ, [50, BUFFER, 8])), -1);
    assert_eq!(returned(kernel.call(SYS_READ, [1, BUFFER, 8])), -1);
    assert_eq!(returned(kernel.call(SYS_READ, [2, BUFFER, 8])), -1);
    assert_eq!(returned(kernel.call(SYS_READ, [usize::MAX, BUFFER, 8])), -1);
    let fd = kernel.open(O_RDONLY, 8) as usize;
    assert_eq!(returned(kernel.call(SYS_READ, [fd, 2 * PG_SIZE, 8])), -1);
    assert_eq!(returned(kernel.call(SYS_READ, [fd, 2 * PG_SIZE - 4, 8])), -1);
    assert_eq!(returned(kernel.call(SYS_READ, [0, 0, 8])), -1);
}

#[test]
fn the_console_is_read_until_the_buffer_is_full() {
    let mut kernel = Kernel::new();
    kernel.manager.register(Builder::new(0).build(&mut kernel.tids, 0, 0x8000));
    let (request, pending) = kernel.ask(SYS_READ, [0, BUFFER, 2]);
    assert!(matches!(request, Request::GetChar));
    let pending = match kernel.answer(pending, Reply::Char(0x141)) {
        Step::Ask { request: Request::GetChar, pending } => pending,
        _ => panic!("one character is enough"),
    };
    let pending = match kernel.answer(pending, Reply::Char(usize::MAX)) {
        Step::Suspend { switch, pending } => {
            assert_eq!(switch, Some(Switch { previous: 0, next: 1 }));
            pending
        }
        _ => panic!("the processor is not handed on"),
    };
    kcore::thread::schedule(&mut kernel.manager);
    let pending = match kernel.answer(pending, Reply::Running) {
        Step::Ask { request: Request::GetChar, pending } => pending,
        _ => panic!("nothing is asked again"),
    };
    assert_eq!(read_user_bytes(&kernel.mem, BUFFER, 2), Ok(vec![0, 0]));
    assert_eq!(returned(kernel.answer(pending, Reply::Char(0x42))), 2);
    assert_eq!(read_user_bytes(&kernel.mem, BUFFER, 3), Ok(vec![0x41, 0x42, 0]));
}

#[test]
fn the_console_is_written() {
    let mut kernel = Kernel::new();
    kernel.put(BUFFER, b"hi");
    for fd in [1, 2] {
        let (request, pending) = kernel.ask(SYS_WRITE, [fd, BUFFER, 2]);
        assert!(matches!(request, Request::PutChars(data) if data == b"hi"));
        assert_eq!(returned(kernel.answer(pending, Reply::Done(Ok(())))), 2);
    }
    assert_eq!(returned(kernel.call(SYS_WRITE, [0, BUFFER, 2])), -1);
    assert_eq!(returned(kernel.call(SYS_WRITE, [usize::MAX, BUFFER, 2])), -1);
}

#[test]
fn files_are_written_from_the_buffer() {
    let mut kernel = Kernel::new();
    kernel.put(BUFFER, b"data");
    let fd = kernel.open(O_WRONLY, 7) as usize;
    let (request, pending) = kernel.ask(SYS_WRITE, [fd, BUFFER, 4]);
    match request {
        Request::WriteFile { file, data } => {
            assert_eq!(file, File { handle: 7 });
            assert_eq!(data, b"data");
        }
        _ => panic!("nothing is written"),
    }
    assert_eq!(returned(kernel.answer(pending, Reply::Count(Ok(3)))), 3);
    let (_, pending) = kernel.ask(SYS_WRITE, [fd, 2 * PG_SIZE, 4]);
    assert_eq!(returned(kernel.answer(pending, Reply::Count(Err(OsError::FileSystem)))), -1);
    assert_eq!(returned(kernel.call(SYS_WRITE, [fd, 3 * PG_SIZE - 2, 4])), -1);
    let read_only = kernel.open(O_RDONLY, 8) as usize;
    assert_eq!(returned(kernel.call(SYS_WRITE, [read_only, BUFFER, 4])), -1);
}

#[test]
fn positions_are_set_and_told() {
    let mut kernel = Kernel::new();
    let fd = kernel.open(O_RDONLY, 7) as usize;
    let (request, pending) = kernel.ask(SYS_SEEK, [fd, 40, 0]);
    assert!(matches!(
        request,
        Request::SeekFile { file: File { handle: 7 }, position: 40 }
    ));
    assert_eq!(returned(kernel.answer(pending, Reply::Done(Err(OsError::FileSystem)))), 0);
    let (request, pending) = kernel.ask(SYS_TELL, [fd, 0, 0]);
    assert!(matches!(request, Request::TellFile(File { handle: 7 })));
    assert_eq!(returned(kernel.answer(pending, Reply::Count(Ok(40)))), 40);
    for bad in [0, 1, 2, 77, usize::MAX] {
        assert_eq!(returned(kernel.call(SYS_SEEK, [bad, 1, 0])), 0);
        assert_eq!(returned(kernel.call(SYS_TELL, [bad, 0, 0])), -1);
    }
}

#[test]
fn closed_descriptors_are_dead() {
    let mut kernel = Kernel::new();
    let fd = kernel.open(O_RDWR, 7) as usize;
    let step = kernel.call(SYS_CLOSE, [fd, 0, 0]);
    assert!(matches!(step, Step::Close { file: File { handle: 7 }, value: 0 }));
    assert_eq!(returned(kernel.call(SYS_CLOSE, [fd, 0, 0])), -1);
    assert_eq!(returned(kernel.call(SYS_READ, [fd, BUFFER, 1])), -1);
    assert_eq!(returned(kernel.call(SYS_WRITE, [fd, BUFFER, 1])), -1);
    assert_eq!(returned(kernel.call(SYS_TELL, [fd, 0, 0])), -1);
    assert_eq!(returned(kernel.call(SYS_FSTAT, [fd, BUFFER, 0])), -1);
    for stream in [0, 1, 2] {
        assert_eq!(returned(kernel.call(SYS_CLOSE, [stream, 0, 0])), 0);
    }
    assert_eq!(returned(kernel.call(SYS_CLOSE, [usize::MAX, 0, 0])), -1);
    assert_eq!(kernel.open(O_RDONLY, 8), 4);
}

#[test]
fn files_tell_their_number_and_length() {
    let mut kernel = Kernel::new();
    let fd = kernel.open(O_RDONLY, 7) as usize;
    let (request, pending) = kernel.ask(SYS_FSTAT, [fd, BUFFER, 0]);
    assert!(matches!(request, Request::StatFile(File { handle: 7 })));
    let reply = Reply::Stat { inum: 0x0102, len: Ok(0x030405) };
    assert_eq!(returned(kernel.answer(pending, reply)), 0);
    assert_eq!(
        read_user_bytes(&kernel.mem, BUFFER, 16),
        Ok(vec![2, 1, 0, 0, 0, 0, 0, 0, 5, 4, 3, 0, 0, 0, 0, 0])
    );
    let (_, pending) = kernel.ask(SYS_FSTAT, [fd, 2 * PG_SIZE - 16, 0]);
    let reply = Reply::Stat { inum: usize::MAX, len: Err(OsError::FileSystem) };
    assert_eq!(returned(kernel.answer(pending, reply)), 0);
    assert_eq!(
        read_user_bytes(&kernel.mem, 2 * PG_SIZE - 16, 16),
        Ok(vec![255, 255, 255, 255, 0, 0, 0, 0, 0, 0, 0, 0, 0, 0, 0, 0])
    );
    let (_, pending) = kernel.ask(SYS_FSTAT, [fd, 2 * PG_SIZE - 8, 0]);
    let reply = Reply::Stat { inum: 1, len: Ok(1) };
    assert_eq!(returned(kernel.answer(pending, reply)), -1);
    assert_eq!(returned(kernel.call(SYS_FSTAT, [fd, 0, 0])), -1);
    assert_eq!(returned(kernel.call(SYS_FSTAT, [1, BUFFER, 0])), -1);
}

#[test]
fn files_are_removed() {
    let mut kernel = Kernel::new();
    let (request, pending) = kernel.ask(SYS_REMOVE, [PATH, 0, 0]);
    assert!(matches!(request, Request::RemoveFile(path) if path == "/file"));
    assert_eq!(returned(kernel.answer(pending, Reply::Done(Ok(())))), 0);
    let (_, pending) = kernel.ask(SYS_REMOVE, [PATH, 0, 0]);
    assert_eq!(returned(kernel.answer(pending, Reply::Done(Err(OsError::FileSystem)))), -1);
    assert_eq!(returned(kernel.call(SYS_REMOVE, [0, 0, 0])), -1);
}

/// Puts the argument vector `["/file"]` behind the path.
fn put_argv(kernel: &mut Kernel) -> usize {
    let argv = PG_SIZE + 256;
    let mut words = PATH.to_le_bytes().to_vec();
    words.extend_from_slice(&vec![0; size_of_word()]);
    kernel.put(argv, &words);
    argv
}

fn launch() -> Launch {
    Launch {
        pagetable: PageTable { root: 1 },
        function: 0x5000,
        thread_entry: 0x6000,
        stack: 0x9000,
    }
}

fn image() -> Image {
    Image { entry_point: 0x1234, init_sp: 0x10000, stack_page: Some(vec![0; PG_SIZE]) }
}

#[test]
fn exec_starts_a_child_that_can_be_waited_for() {
    let mut kernel = Kernel::new();
    let argv = put_argv(&mut kernel);
    let (request, pending) = kernel.ask(SYS_EXEC, [PATH, argv, 0]);
    assert!(matches!(request, Request::OpenFile(path) if path == "/file"));
    let pending = match kernel.answer(pending, Reply::File(Ok(File { handle: 7 }))) {
        Step::Ask { request: Request::LoadProgram(file), pending } => {
            assert_eq!(file, File { handle: 7 });
            pending
        }
        _ => panic!("nothing is loaded"),
    };
    let reply = Reply::Loaded { image: Ok(image()), launch: launch() };
    match kernel.answer(pending, reply) {
        Step::Spawned(started) => {
            assert_eq!(started.tid, 1);
            assert_eq!(started.frame.sepc, 0x1234);
            assert_eq!(started.frame.x[10], 1);
        }
        _ => panic!("no process is made"),
    }
    let pending = match kernel.call(SYS_WAIT, [1, 0, 0]) {
        Step::Suspend { switch, pending } => {
            assert_eq!(switch, Some(Switch { previous: 0, next: 1 }));
            pending
        }
        _ => panic!("nobody waits"),
    };
    assert!(matches!(kernel.call(SYS_EXIT, [usize::MAX, 0, 0]), Step::Exited(_)));
    assert_eq!(kernel.manager.current_id(), 0);
    assert_eq!(returned(kernel.answer(pending, Reply::Running)), -1);
    assert_eq!(returned(kernel.call(SYS_WAIT, [1, 0, 0])), -1);
}

#[test]
fn exec_fails_without_a_path_arguments_or_a_program() {
    let mut kernel = Kernel::new();
    let argv = put_argv(&mut kernel);
    assert_eq!(returned(kernel.call(SYS_EXEC, [0, argv, 0])), -1);
    assert_eq!(returned(kernel.call(SYS_EXEC, [PATH, 0, 0])), -1);
    let (_, pending) = kernel.ask(SYS_EXEC, [PATH, argv, 0]);
    assert_eq!(returned(kernel.answer(pending, Reply::File(Err(OsError::FileSystem)))), -1);
    let (_, pending) = kernel.ask(SYS_EXEC, [PATH, argv, 0]);
    let pending = match kernel.answer(pending, Reply::File(Ok(File { handle: 7 }))) {
        Step::Ask { pending, .. } => pending,
        _ => panic!("nothing is loaded"),
    };
    let reply = Reply::Loaded { image: Err(OsError::FileSystem), launch: launch() };
    let step = kernel.answer(pending, reply);
    assert!(matches!(step, Step::Close { file: File { handle: 7 }, value: -1 }));
    assert!(kernel.manager.get(1).is_none());
}

#[test]
fn waiting_for_a_stranger_fails() {
    let mut kernel = Kernel::new();
    assert_eq!(returned(kernel.call(SYS_WAIT, [5, 0, 0])), -1);
    assert_eq!(returned(kernel.call(SYS_WAIT, [usize::MAX, 0, 0])), -1);
}

#[test]
fn answers_to_another_question_are_not_accepted() {
    let mut kernel = Kernel::new();
    let (_, pending) = kernel.ask(SYS_OPEN, [PATH, O_RDONLY, 0]);
    let reply = Reply::Char(65);
    assert!(!resume_allowed(&kernel.manager, &kernel.waits, &kernel.tids, &pending, &reply));
    let pending = Pending::Wait { tid: 9 };
    assert!(!resume_allowed(
        &kernel.manager,
        &kernel.waits,
        &kernel.tids,
        &pending,
        &Reply::Running
    ));
    let pending = Pending::ExecLoad { file: File { handle: 1 }, argv: Vec::new() };
    let small = Image { entry_point: 0, init_sp: 16, stack_page: None };
    let reply = Reply::Loaded { image: Ok(small), launch: launch() };
    assert!(!resume_allowed(&kernel.manager, &kernel.waits, &kernel.tids, &pending, &reply));
    let reply = Reply::Loaded {
        image: Ok(image()),
        launch: Launch { stack: usize::MAX, ..launch() },
    };
    assert!(!resume_allowed(&kernel.manager, &kernel.waits, &kernel.tids, &pending, &reply));
}

#[test]
fn buffers_start_as_zeros() {
    assert_eq!(zeroed_vec(3), vec![0, 0, 0]);
    assert_eq!(zeroed_vec(0), Vec::<u8>::new());
}
