//! The steps of a system call: what it asks of the machine, and how it goes on.

use vstd::prelude::*;

use crate::error::OsError;
use crate::thread::state::Switch;
use crate::trap::FrameState;
use crate::userproc::args::arg_bytes;
use crate::userproc::children::Exit;
use crate::userproc::exec::{Image, Launch, Started};
use crate::userproc::files::File;

verus! {

/// What a system call asks of the file system or the console.
pub enum Request {
    /// Open a file.
    OpenFile(String),
    /// Make a file, or empty the one that is there; then close `opened`.
    CreateFile { path: String, opened: Option<File> },
    /// Remove a file.
    RemoveFile(String),
    /// Load an executable into a new page table, and find a kernel stack for it.
    LoadProgram(File),
    /// Fill `data` from a file.
    ReadFile { file: File, data: Vec<u8> },
    /// Write `data` to a file.
    WriteFile { file: File, data: Vec<u8> },
    /// Go on at a position, counted from the start of a file.
    SeekFile { file: File, position: usize },
    /// Say at which position of a file the next access happens.
    TellFile(File),
    /// Say what number and length a file has.
    StatFile(File),
    /// Read a character from the console.
    GetChar,
    /// Write characters to the console.
    PutChars(Vec<u8>),
}

/// What the file system or the console answers.
pub enum Reply {
    /// To `OpenFile` and `CreateFile`.
    File(Result<File, OsError>),
    /// To `RemoveFile`, `SeekFile` and `PutChars`.
    Done(Result<(), OsError>),
    /// To `LoadProgram`.
    Loaded { image: Result<Image, OsError>, launch: Launch },
    /// To `ReadFile`: the buffer, and how many bytes of it have been filled.
    Read { data: Vec<u8>, count: Result<usize, OsError> },
    /// To `WriteFile` and `TellFile`.
    Count(Result<usize, OsError>),
    /// To `StatFile`.
    Stat { inum: usize, len: Result<usize, OsError> },
    /// To `GetChar`: `usize::MAX` where there is none.
    Char(usize),
    /// The thread that has been suspended runs again.
    Running,
}

/// Which call to the file system an open file is to come from.
#[derive(Clone, Copy, Debug, PartialEq, Eq, Structural)]
pub enum OpenPhase {
    Opening,
    Creating,
}

/// A system call that waits for an answer.
pub enum Pending {
    /// `open`, on a file that is being opened or made.
    Open { path: String, flags: usize, phase: OpenPhase },
    /// `remove`.
    Remove,
    /// `exec`, on an executable that is being opened.
    ExecOpen { argv: Vec<String> },
    /// `exec`, on an executable that is being loaded.
    ExecLoad { file: File, argv: Vec<String> },
    /// `wait`, for a child that has not exited.
    Wait { tid: isize },
    /// `read`, from the console.
    ReadConsole { buffer: usize, size: usize, data: Vec<u8> },
    /// `read`, from the console, after the processor has been handed on.
    ReadYielded { buffer: usize, size: usize, data: Vec<u8> },
    /// `read`, of up to `size` bytes from a file.
    ReadFile { buffer: usize, size: usize },
    /// A call that returns the count that it is answered.
    Count,
    /// A call that returns a value whatever it is answered.
    Value(isize),
    /// `fstat`.
    Stat { user_buf: usize },
}

/// How a system call goes on.
pub enum Step {
    /// It returns a value to the user program.
    Return(isize),
    /// It closes a file and returns a value to the user program.
    Close { file: File, value: isize },
    /// It asks for something, and goes on with the answer.
    Ask { request: Request, pending: Pending },
    /// It hands the processor on, and goes on when its thread runs again.
    Suspend { switch: Option<Switch>, pending: Pending },
    /// It has made a process, whose thread id it returns to the user program.
    Spawned(Started),
    /// Its process has ended.
    Exited(Exit),
    /// The machine is to be shut down.
    Shutdown,
}

/// What a system call asks, by value.
#[verifier::ext_equal]
pub enum RequestState {
    OpenFile(Seq<char>),
    CreateFile { path: Seq<char>, opened: Option<File> },
    RemoveFile(Seq<char>),
    LoadProgram(File),
    ReadFile { file: File, data: Seq<u8> },
    WriteFile { file: File, data: Seq<u8> },
    SeekFile { file: File, position: usize },
    TellFile(File),
    StatFile(File),
    GetChar,
    PutChars(Seq<u8>),
}

impl View for Request {
    type V = RequestState;

    open spec fn view(&self) -> RequestState {
        match *self {
            Request::OpenFile(path) => RequestState::OpenFile(path@),
            Request::CreateFile { path, opened } => RequestState::CreateFile {
                path: path@,
                opened,
            },
            Request::RemoveFile(path) => RequestState::RemoveFile(path@),
            Request::LoadProgram(file) => RequestState::LoadProgram(file),
            Request::ReadFile { file, data } => RequestState::ReadFile { file, data: data@ },
            Request::WriteFile { file, data } => RequestState::WriteFile { file, data: data@ },
            Request::SeekFile { file, position } => RequestState::SeekFile { file, position },
            Request::TellFile(file) => RequestState::TellFile(file),
            Request::StatFile(file) => RequestState::StatFile(file),
            Request::GetChar => RequestState::GetChar,
            Request::PutChars(data) => RequestState::PutChars(data@),
        }
    }
}

/// A system call that waits for an answer, by value.
#[verifier::ext_equal]
pub enum PendingState {
    Open { path: Seq<char>, flags: usize, phase: OpenPhase },
    Remove,
    ExecOpen { argv: Seq<Seq<u8>> },
    ExecLoad { file: File, argv: Seq<Seq<u8>> },
    Wait { tid: isize },
    ReadConsole { buffer: usize, size: usize, data: Seq<u8> },
    ReadYielded { buffer: usize, size: usize, data: Seq<u8> },
    ReadFile { buffer: usize, size: usize },
    Count,
    Value(isize),
    Stat { user_buf: usize },
}

impl View for Pending {
    type V = PendingState;

    open spec fn view(&self) -> PendingState {
        match *self {
            Pending::Open { path, flags, phase } => PendingState::Open {
                path: path@,
                flags,
                phase,
            },
            Pending::Remove => PendingState::Remove,
            Pending::ExecOpen { argv } => PendingState::ExecOpen { argv: arg_bytes(argv@) },
            Pending::ExecLoad { file, argv } => PendingState::ExecLoad {
                file,
                argv: arg_bytes(argv@),
            },
            Pending::Wait { tid } => PendingState::Wait { tid },
            Pending::ReadConsole { buffer, size, data } => PendingState::ReadConsole {
                buffer,
                size,
                data: data@,
            },
            Pending::ReadYielded { buffer, size, data } => PendingState::ReadYielded {
                buffer,
                size,
                data: data@,
            },
            Pending::ReadFile { buffer, size } => PendingState::ReadFile { buffer, size },
            Pending::Count => PendingState::Count,
            Pending::Value(value) => PendingState::Value(value),
            Pending::Stat { user_buf } => PendingState::Stat { user_buf },
        }
    }
}

/// How a system call goes on, by value.
#[verifier::ext_equal]
pub enum StepState {
    Return(isize),
    Close { file: File, value: isize },
    Ask { request: RequestState, pending: PendingState },
    Suspend { switch: Option<Switch>, pending: PendingState },
    Spawned { tid: isize, frame: FrameState, stack_page: Seq<u8> },
    Exited { files: Seq<File>, switch: Option<Switch> },
    Shutdown,
}

impl View for Step {
    type V = StepState;

    open spec fn view(&self) -> StepState {
        match *self {
            Step::Return(value) => StepState::Return(value),
            Step::Close { file, value } => StepState::Close { file, value },
            Step::Ask { request, pending } => StepState::Ask {
                request: request@,
                pending: pending@,
            },
            Step::Suspend { switch, pending } => StepState::Suspend { switch, pending: pending@ },
            Step::Spawned(started) => StepState::Spawned {
                tid: started.tid,
                frame: started.frame@,
                stack_page: started.stack_page@,
            },
            Step::Exited(exit) => StepState::Exited { files: exit.files@, switch: exit.switch },
            Step::Shutdown => StepState::Shutdown,
        }
    }
}

/// Whether an answer is one to what a system call waits for. The buffer that a file has
/// been asked to fill comes back as long as it was, and no more of it is filled than
/// there is.
pub open spec fn answers(reply: Reply, pending: Pending) -> bool {
    match pending {
        Pending::Open { .. } | Pending::ExecOpen { .. } => reply is File,
        Pending::Remove => reply is Done,
        Pending::Value(_) => reply is Done,
        Pending::ExecLoad { .. } => reply is Loaded,
        Pending::Wait { .. } | Pending::ReadYielded { .. } => reply is Running,
        Pending::ReadConsole { .. } => reply is Char,
        Pending::ReadFile { size, .. } => {
            &&& reply is Read
            &&& reply->data@.len() == size
            &&& reply->count matches Ok(count) ==> count <= size
        },
        Pending::Count => reply is Count,
        Pending::Stat { .. } => reply is Stat,
    }
}

} // verus!
