//! Syscall handlers

use vstd::prelude::*;

use crate::error::OsError;
use crate::mem::userbuf::{copy_to_user, read_user_bytes, validate_writable, MemState, UserMemory};
use crate::mem::word::{le_bytes, push_le_bytes};
use crate::mem::PG_SIZE;
use crate::thread;
use crate::thread::imp::{next_tid, Status, Tids, STACK_SIZE};
use crate::thread::manager::Manager;
use crate::thread::state::{lemma_with_thread_wf, ManagerState};
use crate::trap::argv::{argv_at, path_at, read_exec_argv, read_path};
use crate::trap::step::{
    answers, OpenPhase, Pending, PendingState, Reply, Request, RequestState, Step, StepState,
};
use crate::userproc::args::{arg_bytes, args_page};
use crate::userproc::children::{
    can_exit, closed_on_exit, exit, leaving, wait, Awaiting, TableState, Wait, WaitTable,
};
use crate::userproc::exec::{execute, process_builder, start_frame, startable, Image, Launch};
use crate::userproc::files::{all_files, FdEntry, File, UserProc};

verus! {

/* -------------------------------------------------------------------------- */
/*                               SYSCALL NUMBER                               */
/* -------------------------------------------------------------------------- */

pub const SYS_HALT: usize = 1;

pub const SYS_EXIT: usize = 2;

pub const SYS_EXEC: usize = 3;

pub const SYS_WAIT: usize = 4;

pub const SYS_REMOVE: usize = 5;

pub const SYS_OPEN: usize = 6;

pub const SYS_READ: usize = 7;

pub const SYS_WRITE: usize = 8;

pub const SYS_SEEK: usize = 9;

pub const SYS_TELL: usize = 10;

pub const SYS_CLOSE: usize = 11;

pub const SYS_FSTAT: usize = 12;

pub const STDIN_FD: isize = 0;

pub const STDOUT_FD: isize = 1;

pub const STDERR_FD: isize = 2;

pub const O_RDONLY: usize = 0x000;

pub const O_WRONLY: usize = 0x001;

pub const O_RDWR: usize = 0x002;

pub const O_CREATE: usize = 0x200;

pub const O_TRUNC: usize = 0x400;

pub const O_ACCMODE: usize = 0x003;

/// What a failed call returns.
pub open spec fn failed() -> StepState {
    StepState::Return(-1isize)
}

/// The user process of the running thread.
pub fn with_current_proc(manager: &Manager) -> (proc: Option<&UserProc>)
    requires
        manager@.wf(),
    ensures
        match proc {
            Some(proc) => manager@.running().userproc == Some(proc@),
            None => manager@.running().userproc is None,
        },
{
    manager.userproc(manager.current_id())
}

/// What stands behind a descriptor of the running process.
pub open spec fn current_fd(manager: ManagerState, fd: isize) -> Option<FdEntry> {
    match manager.running().userproc {
        Some(proc) if proc.fds.contains_key(fd) => Some(proc.fds[fd]),
        _ => None,
    }
}

/// What stands behind a descriptor of the running process.
pub fn with_current_fd(manager: &Manager, fd: isize) -> (entry: Option<FdEntry>)
    requires
        manager@.wf(),
    ensures
        entry == current_fd(manager@, fd),
{
    match with_current_proc(manager) {
        Some(proc) => proc.with_fd(fd),
        None => None,
    }
}

/// A buffer of zeros.
pub fn zeroed_vec(size: usize) -> (data: Vec<u8>)
    ensures
        data@ == Seq::new(size as nat, |i: int| 0u8),
{
    let mut data: Vec<u8> = Vec::new();
    data.resize(size, 0);
    assert(data@ =~= Seq::new(size as nat, |i: int| 0u8));
    data
}

/* ----------------------------------- Open ---------------------------------- */

/// How far an open has got.
pub enum OpenProgress {
    Start,
    /// The file system has been asked for the file.
    Opened(Result<File, OsError>),
    /// The file system has been asked to make the file.
    Created(Result<File, OsError>),
}

/// What an open does next.
pub enum OpenAction {
    /// Open the file.
    Open,
    /// Make the file, and close then what has been opened before.
    Create { opened: Option<File> },
    /// Nothing: this is what has come of it.
    Done(Result<File, OsError>),
}

/// What an open with some flags does next. With `O_CREATE` a file that is not there
/// is made; with `O_TRUNC` one that is there is made anew.
pub open spec fn open_action(flags: usize, progress: OpenProgress) -> OpenAction {
    let create = flags & O_CREATE != 0;
    let trunc = flags & O_TRUNC != 0;
    match progress {
        OpenProgress::Start => if create && trunc {
            OpenAction::Create { opened: None }
        } else {
            OpenAction::Open
        },
        OpenProgress::Opened(Ok(file)) => if trunc && !create {
            OpenAction::Create { opened: Some(file) }
        } else {
            OpenAction::Done(Ok(file))
        },
        OpenProgress::Opened(Err(err)) => if create {
            OpenAction::Create { opened: None }
        } else {
            OpenAction::Done(Err(err))
        },
        OpenProgress::Created(file) => OpenAction::Done(file),
    }
}

/// What an open with some flags does next.
pub fn open_with_flags(flags: usize, progress: OpenProgress) -> (action: OpenAction)
    ensures
        action == open_action(flags, progress),
{
    match progress {
        OpenProgress::Start => {
            if flags & O_CREATE != 0 && flags & O_TRUNC != 0 {
                OpenAction::Create { opened: None }
            } else {
                OpenAction::Open
            }
        },
        OpenProgress::Opened(opened) => {
            if flags & O_CREATE != 0 {
                match opened {
                    Ok(file) => OpenAction::Done(Ok(file)),
                    Err(_) => OpenAction::Create { opened: None },
                }
            } else if flags & O_TRUNC != 0 {
                match opened {
                    Ok(file) => OpenAction::Create { opened: Some(file) },
                    Err(err) => OpenAction::Done(Err(err)),
                }
            } else {
                OpenAction::Done(opened)
            }
        },
        OpenProgress::Created(file) => OpenAction::Done(file),
    }
}

/// Whether a file opened with some flags can be read and written, `None` where the
/// flags make no sense.
pub open spec fn access(flags: usize) -> Option<(bool, bool)> {
    let mode = flags & O_ACCMODE;
    let writable = mode == O_WRONLY || mode == O_RDWR;
    if mode != O_RDONLY && !writable {
        None
    } else if flags & O_TRUNC != 0 && !writable {
        None
    } else {
        Some((mode == O_RDONLY || mode == O_RDWR, writable))
    }
}

/// Whether a file opened with some flags can be read and written. Only what can be
/// written can be truncated.
pub fn access_mode(flags: usize) -> (mode: Option<(bool, bool)>)
    ensures
        mode == access(flags),
{
    let mode = flags & O_ACCMODE;
    let (readable, writable) = if mode == O_RDONLY {
        (true, false)
    } else if mode == O_WRONLY {
        (false, true)
    } else if mode == O_RDWR {
        (true, true)
    } else {
        return None;
    };
    if flags & O_TRUNC != 0 && !writable {
        return None;
    }
    Some((readable, writable))
}

/// An open that asks for the file.
pub open spec fn ask_open(path: Seq<char>, flags: usize) -> StepState {
    StepState::Ask {
        request: RequestState::OpenFile(path),
        pending: PendingState::Open { path, flags, phase: OpenPhase::Opening },
    }
}

/// An open that asks to make the file.
pub open spec fn ask_create(path: Seq<char>, flags: usize, opened: Option<File>) -> StepState {
    StepState::Ask {
        request: RequestState::CreateFile { path, opened },
        pending: PendingState::Open { path, flags, phase: OpenPhase::Creating },
    }
}

/// How an open goes on.
pub open spec fn open_step(
    manager: ManagerState,
    path: Seq<char>,
    flags: usize,
    action: OpenAction,
) -> StepState {
    match action {
        OpenAction::Open => ask_open(path, flags),
        OpenAction::Create { opened } => ask_create(path, flags, opened),
        OpenAction::Done(Ok(file)) => match manager.running().userproc {
            Some(proc) => StepState::Return(proc.next_fd),
            None => StepState::Close { file, value: -1isize },
        },
        OpenAction::Done(Err(_)) => failed(),
    }
}

/// The threads after a step of an open: a file that is open is one of the running
/// process.
pub open spec fn after_open(
    manager: ManagerState,
    flags: usize,
    action: OpenAction,
) -> ManagerState {
    match (action, manager.running().userproc, access(flags)) {
        (OpenAction::Done(Ok(file)), Some(proc), Some((readable, writable))) => manager.with_proc(
            manager.current,
            proc.opened((FdEntry { file, readable, writable })),
        ),
        _ => manager,
    }
}

/// The first step of `open`.
pub open spec fn open_first(mem: MemState, pathname: usize, flags: usize) -> StepState {
    match (path_at(mem, pathname), access(flags)) {
        (Some(path), Some(_)) => match open_action(flags, OpenProgress::Start) {
            OpenAction::Create { opened } => ask_create(path, flags, opened),
            _ => ask_open(path, flags),
        },
        _ => failed(),
    }
}

/// Whether the running process has a descriptor left.
pub open spec fn has_descriptor(manager: ManagerState) -> bool {
    manager.running().userproc matches Some(proc) ==> proc.next_fd < isize::MAX
}

/// Opens the file at a path, as a descriptor of the running process.
pub fn sys_open(mem: &UserMemory, pathname: usize, flags: usize) -> (step: Step)
    ensures
        step@ == open_first(mem@, pathname, flags),
{
    let path = match read_path(mem, pathname) {
        Some(path) => path,
        None => {
            return Step::Return(-1);
        },
    };
    if access_mode(flags).is_none() {
        return Step::Return(-1);
    }
    match open_with_flags(flags, OpenProgress::Start) {
        OpenAction::Create { opened } => Step::Ask {
            request: Request::CreateFile { path: path.clone(), opened },
            pending: Pending::Open { path, flags, phase: OpenPhase::Creating },
        },
        _ => Step::Ask {
            request: Request::OpenFile(path.clone()),
            pending: Pending::Open { path, flags, phase: OpenPhase::Opening },
        },
    }
}

/// What the answer of the file system makes of an open.
pub open spec fn open_progress(phase: OpenPhase, file: Result<File, OsError>) -> OpenProgress {
    match phase {
        OpenPhase::Opening => OpenProgress::Opened(file),
        OpenPhase::Creating => OpenProgress::Created(file),
    }
}

/// Goes on with `open` once the file system has answered.
pub fn resume_open(
    manager: &mut Manager,
    path: String,
    flags: usize,
    phase: OpenPhase,
    file: Result<File, OsError>,
) -> (step: Step)
    requires
        old(manager)@.wf(),
        has_descriptor(old(manager)@),
        access(flags) is Some,
    ensures
        ({
            let action = open_action(flags, open_progress(phase, file));
            &&& step@ == open_step(old(manager)@, path@, flags, action)
            &&& final(manager)@ == after_open(old(manager)@, flags, action)
        }),
        final(manager)@.wf(),
{
    let progress = match phase {
        OpenPhase::Opening => OpenProgress::Opened(file),
        OpenPhase::Creating => OpenProgress::Created(file),
    };
    match open_with_flags(flags, progress) {
        OpenAction::Open => Step::Ask {
            request: Request::OpenFile(path.clone()),
            pending: Pending::Open { path, flags, phase: OpenPhase::Opening },
        },
        OpenAction::Create { opened } => Step::Ask {
            request: Request::CreateFile { path: path.clone(), opened },
            pending: Pending::Open { path, flags, phase: OpenPhase::Creating },
        },
        OpenAction::Done(Err(_)) => Step::Return(-1),
        OpenAction::Done(Ok(file)) => {
            let (readable, writable) = access_mode(flags).unwrap();
            let current = manager.current_id();
            let ghost before = manager@;
            if with_current_proc(manager).is_none() {
                return Step::Close { file, value: -1 };
            }
            let mut proc = manager.take_userproc(current).unwrap();
            let fd = proc.add_file(file, readable, writable);
            manager.set_userproc(current, proc);
            proof {
                let entry = FdEntry { file, readable, writable };
                assert(manager@ =~= before.with_proc(
                    current,
                    before.running().userproc->0.opened(entry),
                ));
                lemma_with_thread_wf(before, current, manager@.threads[current]);
            }
            Step::Return(fd)
        },
    }
}

/* ------------------------------ Exec and remove ----------------------------- */

/// The first step of `exec`.
pub open spec fn exec_first(mem: MemState, pathname: usize, user_argv: usize) -> StepState {
    match (path_at(mem, pathname), argv_at(mem, user_argv as int)) {
        (Some(path), Some(argv)) => StepState::Ask {
            request: RequestState::OpenFile(path),
            pending: PendingState::ExecOpen { argv },
        },
        _ => failed(),
    }
}

/// Makes a process of the executable at a path.
pub fn sys_exec(mem: &UserMemory, pathname: usize, user_argv: usize) -> (step: Step)
    ensures
        step@ == exec_first(mem@, pathname, user_argv),
{
    let path = match read_path(mem, pathname) {
        Some(path) => path,
        None => {
            return Step::Return(-1);
        },
    };
    let argv = match read_exec_argv(mem, user_argv) {
        Some(argv) => argv,
        None => {
            return Step::Return(-1);
        },
    };
    Step::Ask { request: Request::OpenFile(path), pending: Pending::ExecOpen { argv } }
}

/// Goes on with `exec` once the executable has been opened.
pub fn resume_exec_opened(argv: Vec<String>, file: Result<File, OsError>) -> (step: Step)
    ensures
        step@ == match file {
            Ok(file) => StepState::Ask {
                request: RequestState::LoadProgram(file),
                pending: PendingState::ExecLoad { file, argv: arg_bytes(argv@) },
            },
            Err(_) => failed(),
        },
{
    match file {
        Ok(file) => Step::Ask {
            request: Request::LoadProgram(file),
            pending: Pending::ExecLoad { file, argv },
        },
        Err(_) => Step::Return(-1),
    }
}

/// Whether a process can be made of what has been loaded.
pub open spec fn can_launch(
    manager: ManagerState,
    tid: isize,
    image: Result<Image, OsError>,
    launch: Launch,
) -> bool {
    &&& !manager.threads.contains_key(tid)
    &&& launch.stack + STACK_SIZE <= usize::MAX
    &&& image matches Ok(image) ==> image.init_sp >= PG_SIZE && (image.stack_page is Some
        ==> image.stack_page->0@.len() == PG_SIZE)
}

/// Goes on with `exec` once the executable has been loaded. Where no process comes
/// of it, the executable is closed.
pub fn resume_exec_loaded(
    manager: &mut Manager,
    waits: &mut WaitTable,
    tids: &mut Tids,
    file: File,
    argv: Vec<String>,
    image: Result<Image, OsError>,
    launch: Launch,
) -> (step: Step)
    requires
        old(manager)@.wf(),
        can_launch(old(manager)@, old(tids)@, image, launch),
    ensures
        step@ == exec_last(old(tids)@, file, image, argv@),
        final(tids)@ == tids_after_exec(old(tids)@, image, argv@),
        final(waits)@ == waits_after_exec(
            old(waits)@,
            old(manager)@,
            old(tids)@,
            image,
            argv@,
        ),
        final(manager)@ == threads_after_exec(
            old(manager)@,
            old(tids)@,
            file,
            image,
            argv@,
            launch,
        ),
        final(manager)@.wf(),
        final(waits)@.wf(),
        old(waits)@.below(old(tids)@) && (old(tids)@ < isize::MAX || step !is Spawned)
            ==> final(waits)@.below(final(tids)@),
{
    match execute(manager, waits, tids, file, &argv, image, launch) {
        Some(started) => Step::Spawned(started),
        None => Step::Close { file, value: -1 },
    }
}

/// The last step of `exec`: it hands out the process if that can be started, or else the
/// executable, to be closed.
pub open spec fn exec_last(
    tid: isize,
    file: File,
    image: Result<Image, OsError>,
    argv: Seq<String>,
) -> StepState {
    if startable(image, argv) {
        StepState::Spawned {
            tid,
            frame: start_frame(image->Ok_0, argv),
            stack_page: args_page(
                image->Ok_0.stack_page->0@,
                arg_bytes(argv),
                image->Ok_0.init_sp as int,
            ),
        }
    } else {
        StepState::Close { file, value: -1isize }
    }
}

/// The next thread id after `exec`.
pub open spec fn tids_after_exec(
    tid: isize,
    image: Result<Image, OsError>,
    argv: Seq<String>,
) -> isize {
    if startable(image, argv) {
        next_tid(tid)
    } else {
        tid
    }
}

/// The children after `exec`.
pub open spec fn waits_after_exec(
    waits: TableState,
    manager: ManagerState,
    tid: isize,
    image: Result<Image, OsError>,
    argv: Seq<String>,
) -> TableState {
    if startable(image, argv) {
        waits.inserted(tid, manager.current)
    } else {
        waits
    }
}

/// The threads after `exec`.
pub open spec fn threads_after_exec(
    manager: ManagerState,
    tid: isize,
    file: File,
    image: Result<Image, OsError>,
    argv: Seq<String>,
    launch: Launch,
) -> ManagerState {
    if startable(image, argv) {
        manager.registered(
            process_builder(file, launch).built(tid, launch.thread_entry, launch.stack),
        )
    } else {
        manager
    }
}

/// The first step of `remove`.
pub open spec fn remove_first(mem: MemState, pathname: usize) -> StepState {
    match path_at(mem, pathname) {
        Some(path) => StepState::Ask {
            request: RequestState::RemoveFile(path),
            pending: PendingState::Remove,
        },
        None => failed(),
    }
}

/// Removes the file at a path.
pub fn sys_remove(mem: &UserMemory, pathname: usize) -> (step: Step)
    ensures
        step@ == remove_first(mem@, pathname),
{
    match read_path(mem, pathname) {
        Some(path) => Step::Ask {
            request: Request::RemoveFile(path),
            pending: Pending::Remove,
        },
        None => Step::Return(-1),
    }
}

/// Goes on with `remove` once the file system has answered.
pub fn resume_remove(done: Result<(), OsError>) -> (step: Step)
    ensures
        step@ == (if done is Ok {
            StepState::Return(0)
        } else {
            failed()
        }),
{
    if done.is_ok() {
        Step::Return(0)
    } else {
        Step::Return(-1)
    }
}

/* ----------------------------------- Wait ---------------------------------- */

/// How `wait` goes on.
pub open spec fn wait_step(tid: isize, answer: Wait) -> StepState {
    match answer {
        Wait::Return(Some(value)) => StepState::Return(value),
        Wait::Return(None) => failed(),
        Wait::Blocked(switch) => StepState::Suspend {
            switch,
            pending: PendingState::Wait { tid },
        },
    }
}

/// Waits for a child process.
pub fn sys_wait(
    manager: &mut Manager,
    waits: &mut WaitTable,
    pid: isize,
    stage: Awaiting,
) -> (step: Step)
    requires
        old(manager)@.wf(),
        old(manager)@.running().status != Status::Ready,
        stage == Awaiting::Blocked ==> old(waits)@.held.contains_key(pid)
            || old(waits)@.table.contains_key(pid),
    ensures
        step@ == wait_step(pid, old(waits)@.wait_answer(old(manager)@, pid, stage)),
        final(waits)@ == old(waits)@.after_wait(old(manager)@, pid, stage),
        final(manager)@ == old(waits)@.threads_after_wait(old(manager)@, pid, stage),
        final(manager)@.wf(),
        final(waits)@.wf(),
        final(waits)@.as_low_as(old(waits)@),
{
    match wait(manager, waits, pid, stage) {
        Wait::Return(Some(value)) => Step::Return(value),
        Wait::Return(None) => Step::Return(-1),
        Wait::Blocked(switch) => Step::Suspend { switch, pending: Pending::Wait { tid: pid } },
    }
}

/* ------------------------------ Read and write ------------------------------ */

/// A call that returns `value` once some bytes have reached a user buffer.
pub open spec fn delivery(mem: MemState, buffer: usize, data: Seq<u8>, value: isize) -> StepState {
    if mem.all_writable(buffer as int, data.len()) {
        StepState::Return(value)
    } else {
        failed()
    }
}

/// The memory after some bytes have been handed to a user buffer, as far as it can
/// be written.
pub open spec fn delivered(mem: MemState, buffer: usize, data: Seq<u8>) -> MemState {
    mem.stored_all(
        buffer as int,
        data.take(mem.writable_len(buffer as int, data.len()) as int),
    )
}

/// Hands some bytes to a user buffer, and returns `value` if they have all got there.
fn deliver(mem: &mut UserMemory, buffer: usize, data: &Vec<u8>, value: isize) -> (step: Step)
    ensures
        step@ == delivery(old(mem)@, buffer, data@, value),
        final(mem)@ == delivered(old(mem)@, buffer, data@),
{
    match copy_to_user(mem, buffer, data) {
        Ok(_) => Step::Return(value),
        Err(_) => Step::Return(-1),
    }
}

/// A read that asks the console for the next character.
pub open spec fn ask_char(buffer: usize, size: usize, data: Seq<u8>) -> StepState {
    StepState::Ask {
        request: RequestState::GetChar,
        pending: PendingState::ReadConsole { buffer, size, data },
    }
}

/// The first step of `read`.
pub open spec fn read_first(
    manager: ManagerState,
    mem: MemState,
    fd: isize,
    buffer: usize,
    size: usize,
) -> StepState {
    if size == 0 {
        StepState::Return(0)
    } else if !(mem.all_readable(buffer as int, size as nat) && mem.all_writable(
        buffer as int,
        size as nat,
    )) {
        failed()
    } else if fd == STDIN_FD {
        ask_char(buffer, size, Seq::empty())
    } else if fd > STDERR_FD {
        match current_fd(manager, fd) {
            Some(entry) if entry.readable => StepState::Ask {
                request: RequestState::ReadFile {
                    file: entry.file,
                    data: Seq::new(size as nat, |i: int| 0u8),
                },
                pending: PendingState::ReadFile { buffer, size },
            },
            _ => failed(),
        }
    } else {
        failed()
    }
}

/// Reads from a descriptor into a user buffer.
pub fn sys_read(
    manager: &Manager,
    mem: &mut UserMemory,
    fd: isize,
    buffer: usize,
    size: usize,
) -> (step: Step)
    requires
        manager@.wf(),
    ensures
        step@ == read_first(manager@, old(mem)@, fd, buffer, size),
        final(mem)@ == old(mem)@,
{
    if size == 0 {
        return Step::Return(0);
    }
    if validate_writable(mem, buffer, size).is_err() {
        return Step::Return(-1);
    }
    if fd == STDIN_FD {
        Step::Ask {
            request: Request::GetChar,
            pending: Pending::ReadConsole { buffer, size, data: Vec::new() },
        }
    } else if fd > STDERR_FD {
        match with_current_fd(manager, fd) {
            Some(entry) => if entry.readable {
                Step::Ask {
                    request: Request::ReadFile { file: entry.file, data: zeroed_vec(size) },
                    pending: Pending::ReadFile { buffer, size },
                }
            } else {
                Step::Return(-1)
            },
            None => Step::Return(-1),
        }
    } else {
        Step::Return(-1)
    }
}

/// How a read from the console goes on with a character.
pub open spec fn read_char(
    manager: ManagerState,
    mem: MemState,
    buffer: usize,
    size: usize,
    data: Seq<u8>,
    ch: usize,
) -> StepState {
    let data_after = data.push(ch as u8);
    if ch == usize::MAX {
        StepState::Suspend {
            switch: manager.switch(),
            pending: PendingState::ReadYielded { buffer, size, data },
        }
    } else if data_after.len() < size {
        ask_char(buffer, size, data_after)
    } else {
        delivery(mem, buffer, data_after, size as isize)
    }
}

/// Goes on with a read from the console once it has answered. Where there is no
/// character yet, the processor goes to another thread.
pub fn resume_read_console(
    manager: &mut Manager,
    mem: &mut UserMemory,
    buffer: usize,
    size: usize,
    data: Vec<u8>,
    ch: usize,
) -> (step: Step)
    requires
        old(manager)@.wf(),
        data@.len() < size,
    ensures
        step@ == read_char(old(manager)@, old(mem)@, buffer, size, data@, ch),
        final(manager)@ == (if ch == usize::MAX {
            old(manager)@.scheduled()
        } else {
            old(manager)@
        }),
        final(mem)@ == (if ch != usize::MAX && data@.len() + 1 == size {
            delivered(old(mem)@, buffer, data@.push(ch as u8))
        } else {
            old(mem)@
        }),
        final(manager)@.wf(),
{
    if ch == usize::MAX {
        let switch = thread::schedule(manager);
        return Step::Suspend { switch, pending: Pending::ReadYielded { buffer, size, data } };
    }
    let mut data = data;
    data.push(ch as u8);
    if data.len() < size {
        Step::Ask {
            request: Request::GetChar,
            pending: Pending::ReadConsole { buffer, size, data },
        }
    } else {
        deliver(mem, buffer, &data, size as isize)
    }
}

/// Goes on with a read from the console once its thread runs again.
pub fn resume_read_yielded(buffer: usize, size: usize, data: Vec<u8>) -> (step: Step)
    ensures
        step@ == ask_char(buffer, size, data@),
{
    Step::Ask {
        request: Request::GetChar,
        pending: Pending::ReadConsole { buffer, size, data },
    }
}

/// Goes on with a read of up to `size` bytes from a file once the file system has
/// answered.
pub fn resume_read_file(
    mem: &mut UserMemory,
    buffer: usize,
    size: usize,
    data: Vec<u8>,
    count: Result<usize, OsError>,
) -> (step: Step)
    requires
        data@.len() == size,
        count matches Ok(count) ==> count <= size,
    ensures
        match count {
            Ok(count) => {
                let filled = data@.take(count as int);
                &&& step@ == delivery(old(mem)@, buffer, filled, count as isize)
                &&& final(mem)@ == delivered(old(mem)@, buffer, filled)
            },
            Err(_) => step@ == failed() && final(mem)@ == old(mem)@,
        },
{
    match count {
        Ok(count) => {
            let mut data = data;
            data.truncate(count);
            deliver(mem, buffer, &data, count as isize)
        },
        Err(_) => Step::Return(-1),
    }
}

/// The first step of `write`.
pub open spec fn write_first(
    manager: ManagerState,
    mem: MemState,
    fd: isize,
    buffer: usize,
    size: usize,
) -> StepState {
    let data = mem.range(buffer as int, size as nat);
    if size == 0 {
        StepState::Return(0)
    } else if !mem.all_readable(buffer as int, size as nat) {
        failed()
    } else if fd == STDOUT_FD || fd == STDERR_FD {
        StepState::Ask {
            request: RequestState::PutChars(data),
            pending: PendingState::Value(size as isize),
        }
    } else if fd > STDERR_FD {
        match current_fd(manager, fd) {
            Some(entry) if entry.writable => StepState::Ask {
                request: RequestState::WriteFile { file: entry.file, data },
                pending: PendingState::Count,
            },
            _ => failed(),
        }
    } else {
        failed()
    }
}

/// Writes a user buffer to a descriptor.
pub fn sys_write(
    manager: &Manager,
    mem: &UserMemory,
    fd: isize,
    buffer: usize,
    size: usize,
) -> (step: Step)
    requires
        manager@.wf(),
    ensures
        step@ == write_first(manager@, mem@, fd, buffer, size),
{
    if size == 0 {
        return Step::Return(0);
    }
    let data = match read_user_bytes(mem, buffer, size) {
        Ok(data) => data,
        Err(_) => {
            return Step::Return(-1);
        },
    };
    if fd == STDOUT_FD || fd == STDERR_FD {
        Step::Ask { request: Request::PutChars(data), pending: Pending::Value(size as isize) }
    } else if fd > STDERR_FD {
        match with_current_fd(manager, fd) {
            Some(entry) => if entry.writable {
                Step::Ask {
                    request: Request::WriteFile { file: entry.file, data },
                    pending: Pending::Count,
                }
            } else {
                Step::Return(-1)
            },
            None => Step::Return(-1),
        }
    } else {
        Step::Return(-1)
    }
}

/// Goes on with a call that returns a count.
pub fn resume_count(count: Result<usize, OsError>) -> (step: Step)
    ensures
        step@ == match count {
            Ok(count) => StepState::Return(count as isize),
            Err(_) => failed(),
        },
{
    match count {
        Ok(count) => Step::Return(count as isize),
        Err(_) => Step::Return(-1),
    }
}

/* ------------------------- Positions, close, status ------------------------- */

/// The first step of `seek`.
pub open spec fn seek_first(manager: ManagerState, fd: isize, position: usize) -> StepState {
    match current_fd(manager, fd) {
        Some(entry) if fd > STDERR_FD => StepState::Ask {
            request: RequestState::SeekFile { file: entry.file, position },
            pending: PendingState::Value(0),
        },
        _ => StepState::Return(0),
    }
}

/// Moves the position of a descriptor.
pub fn sys_seek(manager: &Manager, fd: isize, position: usize) -> (step: Step)
    requires
        manager@.wf(),
    ensures
        step@ == seek_first(manager@, fd, position),
{
    if fd <= STDERR_FD {
        return Step::Return(0);
    }
    match with_current_fd(manager, fd) {
        Some(entry) => Step::Ask {
            request: Request::SeekFile { file: entry.file, position },
            pending: Pending::Value(0),
        },
        None => Step::Return(0),
    }
}

/// The first step of `tell`.
pub open spec fn tell_first(manager: ManagerState, fd: isize) -> StepState {
    match current_fd(manager, fd) {
        Some(entry) if fd > STDERR_FD => StepState::Ask {
            request: RequestState::TellFile(entry.file),
            pending: PendingState::Count,
        },
        _ => failed(),
    }
}

/// Returns the position of a descriptor.
pub fn sys_tell(manager: &Manager, fd: isize) -> (step: Step)
    requires
        manager@.wf(),
    ensures
        step@ == tell_first(manager@, fd),
{
    if fd <= STDERR_FD {
        return Step::Return(-1);
    }
    match with_current_fd(manager, fd) {
        Some(entry) => Step::Ask {
            request: Request::TellFile(entry.file),
            pending: Pending::Count,
        },
        None => Step::Return(-1),
    }
}

/// The only step of `close`.
pub open spec fn close_first(manager: ManagerState, fd: isize) -> StepState {
    if STDIN_FD <= fd <= STDERR_FD {
        StepState::Return(0)
    } else {
        match current_fd(manager, fd) {
            Some(entry) if fd > STDERR_FD => StepState::Close { file: entry.file, value: 0 },
            _ => failed(),
        }
    }
}

/// The threads after `close`.
pub open spec fn after_close(manager: ManagerState, fd: isize) -> ManagerState {
    match (current_fd(manager, fd), manager.running().userproc) {
        (Some(_), Some(proc)) if fd > STDERR_FD => manager.with_proc(
            manager.current,
            proc.closed(fd),
        ),
        _ => manager,
    }
}

/// Closes a descriptor. The standard streams stay open.
pub fn sys_close(manager: &mut Manager, fd: isize) -> (step: Step)
    requires
        old(manager)@.wf(),
    ensures
        step@ == close_first(old(manager)@, fd),
        final(manager)@ == after_close(old(manager)@, fd),
        final(manager)@.wf(),
{
    if fd == STDIN_FD || fd == STDOUT_FD || fd == STDERR_FD {
        return Step::Return(0);
    }
    if fd < STDIN_FD || with_current_fd(manager, fd).is_none() {
        return Step::Return(-1);
    }
    let current = manager.current_id();
    let ghost before = manager@;
    let mut proc = manager.take_userproc(current).unwrap();
    let closed = proc.close_fd(fd);
    manager.set_userproc(current, proc);
    proof {
        assert(manager@ =~= before.with_proc(
            current,
            before.running().userproc->0.closed(fd),
        ));
        lemma_with_thread_wf(before, current, manager@.threads[current]);
    }
    match closed {
        Some(file) => Step::Close { file, value: 0 },
        None => Step::Return(-1),
    }
}

/// What a user program finds of a file: its number, four bytes of padding, and its
/// length.
pub open spec fn stat_bytes(inum: usize, len: usize) -> Seq<u8> {
    le_bytes((inum as u32) as nat, 4) + le_bytes(0, 4) + le_bytes(len as nat, 8)
}

/// The first step of `fstat`.
pub open spec fn fstat_first(manager: ManagerState, fd: isize, user_buf: usize) -> StepState {
    match current_fd(manager, fd) {
        Some(entry) if fd > STDERR_FD && user_buf != 0 => StepState::Ask {
            request: RequestState::StatFile(entry.file),
            pending: PendingState::Stat { user_buf },
        },
        _ => failed(),
    }
}

/// Tells about the file behind a descriptor.
pub fn sys_fstat(manager: &Manager, fd: isize, user_buf: usize) -> (step: Step)
    requires
        manager@.wf(),
    ensures
        step@ == fstat_first(manager@, fd, user_buf),
{
    if user_buf == 0 || fd <= STDERR_FD {
        return Step::Return(-1);
    }
    match with_current_fd(manager, fd) {
        Some(entry) => Step::Ask {
            request: Request::StatFile(entry.file),
            pending: Pending::Stat { user_buf },
        },
        None => Step::Return(-1),
    }
}

/// The length that `fstat` tells: zero where the file system does not know.
pub open spec fn stat_len(len: Result<usize, OsError>) -> usize {
    match len {
        Ok(len) => len,
        Err(_) => 0,
    }
}

/// Goes on with `fstat` once the file system has answered.
pub fn resume_fstat(
    mem: &mut UserMemory,
    user_buf: usize,
    inum: usize,
    len: Result<usize, OsError>,
) -> (step: Step)
    ensures
        step@ == delivery(old(mem)@, user_buf, stat_bytes(inum, stat_len(len)), 0),
        final(mem)@ == delivered(old(mem)@, user_buf, stat_bytes(inum, stat_len(len))),
{
    let size = match len {
        Ok(len) => len,
        Err(_) => 0,
    };
    let mut bytes: Vec<u8> = Vec::new();
    push_le_bytes(&mut bytes, (inum as u32) as u64, 4);
    push_le_bytes(&mut bytes, 0, 4);
    push_le_bytes(&mut bytes, size as u64, 8);
    assert(bytes@ =~= stat_bytes(inum, stat_len(len)));
    deliver(mem, user_buf, &bytes, 0)
}

/* --------------------------------- Handler --------------------------------- */

/// The first step of a system call.
pub open spec fn first_step(
    manager: ManagerState,
    waits: TableState,
    mem: MemState,
    id: usize,
    args: Seq<usize>,
) -> StepState {
    let fd = args[0] as isize;
    if id == SYS_HALT {
        StepState::Shutdown
    } else if id == SYS_EXIT {
        StepState::Exited {
            files: all_files(manager.running().userproc->0),
            switch: leaving(manager, waits).switch(),
        }
    } else if id == SYS_EXEC {
        exec_first(mem, args[0], args[1])
    } else if id == SYS_WAIT {
        wait_step(fd, waits.wait_answer(manager, fd, Awaiting::Enter))
    } else if id == SYS_REMOVE {
        remove_first(mem, args[0])
    } else if id == SYS_OPEN {
        open_first(mem, args[0], args[1])
    } else if id == SYS_READ {
        read_first(manager, mem, fd, args[1], args[2])
    } else if id == SYS_WRITE {
        write_first(manager, mem, fd, args[1], args[2])
    } else if id == SYS_SEEK {
        seek_first(manager, fd, args[1])
    } else if id == SYS_TELL {
        tell_first(manager, fd)
    } else if id == SYS_CLOSE {
        close_first(manager, fd)
    } else if id == SYS_FSTAT {
        fstat_first(manager, fd, args[1])
    } else {
        failed()
    }
}

/// The threads after the first step of a system call.
pub open spec fn threads_after_first(
    manager: ManagerState,
    waits: TableState,
    id: usize,
    args: Seq<usize>,
) -> ManagerState {
    if id == SYS_EXIT {
        leaving(manager, waits).scheduled()
    } else if id == SYS_WAIT {
        waits.threads_after_wait(manager, args[0] as isize, Awaiting::Enter)
    } else if id == SYS_CLOSE {
        after_close(manager, args[0] as isize)
    } else {
        manager
    }
}

/// The children after the first step of a system call.
pub open spec fn waits_after_first(
    manager: ManagerState,
    waits: TableState,
    id: usize,
    args: Seq<usize>,
) -> TableState {
    if id == SYS_EXIT {
        waits.exited(manager.current, closed_on_exit(manager), args[0] as isize)
    } else if id == SYS_WAIT {
        waits.after_wait(manager, args[0] as isize, Awaiting::Enter)
    } else {
        waits
    }
}

/// Takes the first step of a system call of the running thread.
///
/// No first step writes to user memory.
pub fn syscall_handler(
    manager: &mut Manager,
    waits: &mut WaitTable,
    mem: &mut UserMemory,
    id: usize,
    args: [usize; 3],
) -> (step: Step)
    requires
        old(manager)@.wf(),
        old(manager)@.running().status == Status::Running,
        id == SYS_EXIT ==> can_exit(old(manager)@, old(waits)@),
    ensures
        step@ == first_step(old(manager)@, old(waits)@, old(mem)@, id, args@),
        final(manager)@ == threads_after_first(old(manager)@, old(waits)@, id, args@),
        final(waits)@ == waits_after_first(old(manager)@, old(waits)@, id, args@),
        final(mem)@ == old(mem)@,
        final(manager)@.wf(),
        final(waits)@.wf(),
        final(waits)@.as_low_as(old(waits)@),
{
    proof {
        use_type_invariant(&*waits);
    }
    if id == SYS_HALT {
        Step::Shutdown
    } else if id == SYS_EXIT {
        Step::Exited(exit(manager, waits, args[0] as isize))
    } else if id == SYS_EXEC {
        sys_exec(mem, args[0], args[1])
    } else if id == SYS_WAIT {
        sys_wait(manager, waits, args[0] as isize, Awaiting::Enter)
    } else if id == SYS_REMOVE {
        sys_remove(mem, args[0])
    } else if id == SYS_OPEN {
        sys_open(mem, args[0], args[1])
    } else if id == SYS_READ {
        sys_read(manager, mem, args[0] as isize, args[1], args[2])
    } else if id == SYS_WRITE {
        sys_write(manager, mem, args[0] as isize, args[1], args[2])
    } else if id == SYS_SEEK {
        sys_seek(manager, args[0] as isize, args[1])
    } else if id == SYS_TELL {
        sys_tell(manager, args[0] as isize)
    } else if id == SYS_CLOSE {
        sys_close(manager, args[0] as isize)
    } else if id == SYS_FSTAT {
        sys_fstat(manager, args[0] as isize, args[1])
    } else {
        Step::Return(-1)
    }
}

/// Whether a system call that waits can go on with an answer.
pub open spec fn can_resume(
    manager: ManagerState,
    waits: TableState,
    tid: isize,
    pending: Pending,
    reply: Reply,
) -> bool {
    &&& answers(reply, pending)
    &&& match pending {
        Pending::Open { flags, .. } => access(flags) is Some && has_descriptor(manager),
        Pending::ExecLoad { .. } => can_launch(manager, tid, reply->image, reply->launch),
        Pending::Wait { tid } => {
            &&& manager.running().status != Status::Ready
            &&& waits.held.contains_key(tid) || waits.table.contains_key(tid)
        },
        Pending::ReadConsole { size, data, .. } => data@.len() < size,
        _ => true,
    }
}

/// Whether a system call that waits can go on with an answer.
pub fn resume_allowed(
    manager: &Manager,
    waits: &WaitTable,
    tids: &Tids,
    pending: &Pending,
    reply: &Reply,
) -> (allowed: bool)
    requires
        manager@.wf(),
    ensures
        allowed == can_resume(manager@, waits@, tids@, *pending, *reply),
{
    match (pending, reply) {
        (Pending::Open { path: _, flags, phase: _ }, Reply::File(_)) => {
            let room = match with_current_proc(manager) {
                Some(proc) => proc.has_descriptor(),
                None => true,
            };
            access_mode(*flags).is_some() && room
        },
        (Pending::ExecLoad { file: _, argv: _ }, Reply::Loaded { image, launch }) => {
            let fits = match image {
                Ok(image) => image.init_sp >= PG_SIZE && match &image.stack_page {
                    Some(page) => page.len() == PG_SIZE,
                    None => true,
                },
                Err(_) => true,
            };
            fits && manager.get(tids.peek()).is_none() && launch.stack <= usize::MAX - STACK_SIZE
        },
        (Pending::Wait { tid }, Reply::Running) => waits.knows(*tid) && thread::current(
            manager,
        ).status() != Status::Ready,
        (Pending::ReadConsole { buffer: _, size, data }, Reply::Char(_)) => data.len() < *size,
        (Pending::ReadFile { buffer: _, size }, Reply::Read { data, count }) => data.len() == *size
            && match count {
            Ok(count) => *count <= *size,
            Err(_) => true,
        },
        (Pending::Remove, Reply::Done(_)) => true,
        (Pending::Value(_), Reply::Done(_)) => true,
        (Pending::ExecOpen { argv: _ }, Reply::File(_)) => true,
        (Pending::ReadYielded { buffer: _, size: _, data: _ }, Reply::Running) => true,
        (Pending::Count, Reply::Count(_)) => true,
        (Pending::Stat { user_buf: _ }, Reply::Stat { inum: _, len: _ }) => true,
        _ => false,
    }
}

/// The next step of a system call.
pub open spec fn next_step(
    manager: ManagerState,
    waits: TableState,
    mem: MemState,
    tid: isize,
    pending: Pending,
    reply: Reply,
) -> StepState {
    match pending {
        Pending::Open { path, flags, phase } => open_step(
            manager,
            path@,
            flags,
            open_action(flags, open_progress(phase, reply->File_0)),
        ),
        Pending::Remove => if reply->Done_0 is Ok {
            StepState::Return(0)
        } else {
            failed()
        },
        Pending::ExecOpen { argv } => match reply->File_0 {
            Ok(file) => StepState::Ask {
                request: RequestState::LoadProgram(file),
                pending: PendingState::ExecLoad { file, argv: arg_bytes(argv@) },
            },
            Err(_) => failed(),
        },
        Pending::ExecLoad { file, argv } => exec_last(tid, file, reply->image, argv@),
        Pending::Wait { tid } => wait_step(
            tid,
            waits.wait_answer(manager, tid, Awaiting::Blocked),
        ),
        Pending::ReadConsole { buffer, size, data } => read_char(
            manager,
            mem,
            buffer,
            size,
            data@,
            reply->Char_0,
        ),
        Pending::ReadYielded { buffer, size, data } => ask_char(buffer, size, data@),
        Pending::ReadFile { buffer, .. } => match reply->count {
            Ok(count) => delivery(
                mem,
                buffer,
                reply->data@.take(count as int),
                count as isize,
            ),
            Err(_) => failed(),
        },
        Pending::Count => match reply->Count_0 {
            Ok(count) => StepState::Return(count as isize),
            Err(_) => failed(),
        },
        Pending::Value(value) => StepState::Return(value),
        Pending::Stat { user_buf } => delivery(
            mem,
            user_buf,
            stat_bytes(reply->inum, stat_len(reply->len)),
            0,
        ),
    }
}

/// The threads after the next step of a system call.
pub open spec fn threads_after_next(
    manager: ManagerState,
    waits: TableState,
    tid: isize,
    pending: Pending,
    reply: Reply,
) -> ManagerState {
    match pending {
        Pending::Open { flags, phase, .. } => after_open(
            manager,
            flags,
            open_action(flags, open_progress(phase, reply->File_0)),
        ),
        Pending::ExecLoad { file, argv } => threads_after_exec(
            manager,
            tid,
            file,
            reply->image,
            argv@,
            reply->launch,
        ),
        Pending::Wait { tid } => waits.threads_after_wait(manager, tid, Awaiting::Blocked),
        Pending::ReadConsole { .. } if reply->Char_0 == usize::MAX => manager.scheduled(),
        _ => manager,
    }
}

/// The children after the next step of a system call.
pub open spec fn waits_after_next(
    manager: ManagerState,
    waits: TableState,
    tid: isize,
    pending: Pending,
    reply: Reply,
) -> TableState {
    match pending {
        Pending::ExecLoad { argv, .. } => waits_after_exec(
            waits,
            manager,
            tid,
            reply->image,
            argv@,
        ),
        Pending::Wait { tid } => waits.after_wait(manager, tid, Awaiting::Blocked),
        _ => waits,
    }
}

/// The user memory after the next step of a system call.
pub open spec fn mem_after_next(mem: MemState, pending: Pending, reply: Reply) -> MemState {
    match pending {
        Pending::ReadConsole { buffer, size, data } => if reply->Char_0 != usize::MAX && data@.len()
            + 1 == size {
            delivered(mem, buffer, data@.push(reply->Char_0 as u8))
        } else {
            mem
        },
        Pending::ReadFile { buffer, .. } => match reply->count {
            Ok(count) => delivered(mem, buffer, reply->data@.take(count as int)),
            Err(_) => mem,
        },
        Pending::Stat { user_buf } => delivered(
            mem,
            user_buf,
            stat_bytes(reply->inum, stat_len(reply->len)),
        ),
        _ => mem,
    }
}

/// Takes the next step of a system call of the running thread, with the answer that
/// it has been waiting for.
pub fn resume(
    manager: &mut Manager,
    waits: &mut WaitTable,
    tids: &mut Tids,
    mem: &mut UserMemory,
    pending: Pending,
    reply: Reply,
) -> (step: Step)
    requires
        old(manager)@.wf(),
        can_resume(old(manager)@, old(waits)@, old(tids)@, pending, reply),
    ensures
        step@ == next_step(old(manager)@, old(waits)@, old(mem)@, old(tids)@, pending, reply),
        final(manager)@ == threads_after_next(
            old(manager)@,
            old(waits)@,
            old(tids)@,
            pending,
            reply,
        ),
        final(waits)@ == waits_after_next(
            old(manager)@,
            old(waits)@,
            old(tids)@,
            pending,
            reply,
        ),
        final(tids)@ == match pending {
            Pending::ExecLoad { argv, .. } => tids_after_exec(old(tids)@, reply->image, argv@),
            _ => old(tids)@,
        },
        final(mem)@ == mem_after_next(old(mem)@, pending, reply),
        final(manager)@.wf(),
        final(waits)@.wf(),
        old(waits)@.below(old(tids)@) && (old(tids)@ < isize::MAX || step !is Spawned)
            ==> final(waits)@.below(final(tids)@),
{
    proof {
        use_type_invariant(&*waits);
    }
    match (pending, reply) {
        (Pending::Open { path, flags, phase }, Reply::File(file)) => resume_open(
            manager,
            path,
            flags,
            phase,
            file,
        ),
        (Pending::Remove, Reply::Done(done)) => resume_remove(done),
        (Pending::ExecOpen { argv }, Reply::File(file)) => resume_exec_opened(argv, file),
        (Pending::ExecLoad { file, argv }, Reply::Loaded { image, launch }) => resume_exec_loaded(
            manager,
            waits,
            tids,
            file,
            argv,
            image,
            launch,
        ),
        (Pending::Wait { tid }, _) => sys_wait(manager, waits, tid, Awaiting::Blocked),
        (Pending::ReadConsole { buffer, size, data }, Reply::Char(ch)) => resume_read_console(
            manager,
            mem,
            buffer,
            size,
            data,
            ch,
        ),
        (Pending::ReadYielded { buffer, size, data }, _) => resume_read_yielded(
            buffer,
            size,
            data,
        ),
        (Pending::ReadFile { buffer, size }, Reply::Read { data, count }) => resume_read_file(
            mem,
            buffer,
            size,
            data,
            count,
        ),
        (Pending::Count, Reply::Count(count)) => resume_count(count),
        (Pending::Value(value), _) => Step::Return(value),
        (Pending::Stat { user_buf }, Reply::Stat { inum, len }) => resume_fstat(
            mem,
            user_buf,
            inum,
            len,
        ),
        _ => {
            assert(false);
            Step::Return(-1)
        },
    }
}

} // verus!
