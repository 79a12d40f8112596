//! What holds of system calls as a whole.

use vstd::arithmetic::power::pow;
use vstd::prelude::*;
use vstd::utf8::decode_utf8;

use crate::error::OsError;
use crate::mem::laws::{
    filled_with, has_all, has_byte, holds, holds_text, law_copy_reads_back, law_lowest_byte_first,
    law_range_is, law_read_range, law_string_is_there, law_writable_buffer_takes_all,
    law_write_range, may_change, may_change_all,
};
use crate::mem::userbuf::{
    lemma_text_len, lemma_writable_len, lemma_writable_len_is, MemState, UserMemory,
};
use crate::mem::word::{le_bytes, le_value, lemma_le_bytes, lemma_le_bytes_len, pow256};
use crate::mem::PG_SIZE;
use crate::sync::laws::lemma_stopped;
use crate::sync::sema::SemaState;
use crate::thread::imp::{Status, ThreadState};
use crate::thread::state::ManagerState;
use crate::trap::argv::{arg_at, argv_at, is_argv, path_at, MAX_ARG_BYTES};
use crate::trap::step::{
    answers, OpenPhase, Pending, PendingState, Reply, RequestState, StepState,
};
use crate::trap::syscall::{
    access, after_close, after_open, can_resume, close_first, current_fd, delivered, delivery,
    failed, first_step, fstat_first, has_descriptor, mem_after_next, next_step, open_action,
    open_step, read_char, read_first, seek_first, stat_bytes, stat_len, tell_first,
    threads_after_first, threads_after_next, tids_after_exec, waits_after_first,
    waits_after_next, write_first, OpenAction, OpenProgress, O_CREATE, O_TRUNC, STDERR_FD,
    STDIN_FD, STDOUT_FD, SYS_FSTAT, SYS_HALT,
};
use crate::userproc::args::{args_fit, args_page, argv_addr};
use crate::userproc::children::{closed_on_exit, leaving, Awaiting, TableState, WaitState};
use crate::userproc::exec::Image;
use crate::userproc::files::{all_files, FdEntry, File, ProcState};
use crate::userproc::laws::{
    holds_page, is_argument, law_arguments_need_a_page, law_arguments_read_back, law_argv_is_there,
    law_exit_closes_everything, law_exit_is_recorded, law_wait_answers, law_wait_before_exit,
    law_wait_goes_on,
    lemma_filled_page, lemma_room, pointers_lead_to, room, vector_leads_to, vector_start,
    waits_in_order,
};

verus! {

/// A call that does not exist fails and changes nothing.
pub proof fn law_unknown_call_fails(
    manager: ManagerState,
    waits: TableState,
    mem: MemState,
    id: usize,
    args: Seq<usize>,
)
    requires
        id < SYS_HALT || id > SYS_FSTAT,
    ensures
        first_step(manager, waits, mem, id, args) == failed(),
        threads_after_first(manager, waits, id, args) == manager,
        waits_after_first(manager, waits, id, args) == waits,
{
}

/* ------------------------------- Descriptors ------------------------------- */

/// A read or write of nothing succeeds, whatever the descriptor and the buffer.
pub proof fn law_nothing_is_always_transferred(
    manager: ManagerState,
    mem: MemState,
    fd: isize,
    buffer: usize,
)
    ensures
        read_first(manager, mem, fd, buffer, 0) == StepState::Return(0),
        write_first(manager, mem, fd, buffer, 0) == StepState::Return(0),
{
}

/// The input cannot be written, the outputs cannot be read, and a descriptor below zero
/// is good for nothing.
pub proof fn law_standard_streams(
    manager: ManagerState,
    mem: MemState,
    fd: isize,
    buffer: usize,
    size: usize,
)
    requires
        size > 0,
    ensures
        fd == STDOUT_FD || fd == STDERR_FD || fd < STDIN_FD ==> read_first(
            manager,
            mem,
            fd,
            buffer,
            size,
        ) == failed(),
        fd <= STDIN_FD ==> write_first(manager, mem, fd, buffer, size) == failed(),
        fd <= STDERR_FD ==> {
            &&& tell_first(manager, fd) == failed()
            &&& fstat_first(manager, fd, buffer) == failed()
            &&& seek_first(manager, fd, size) == StepState::Return(0)
            &&& after_close(manager, fd) == manager
        },
        fd < STDIN_FD ==> close_first(manager, fd) == failed(),
        STDIN_FD <= fd <= STDERR_FD ==> close_first(manager, fd) == StepState::Return(0),
{
}

/// A transfer from or to memory that the program does not have fails.
pub proof fn law_bad_buffer_fails(
    manager: ManagerState,
    mem: MemState,
    fd: isize,
    buffer: usize,
    size: usize,
)
    requires
        size > 0,
    ensures
        !mem.all_writable(buffer as int, size as nat) ==> read_first(
            manager,
            mem,
            fd,
            buffer,
            size,
        ) == failed(),
        !mem.all_readable(buffer as int, size as nat) ==> write_first(
            manager,
            mem,
            fd,
            buffer,
            size,
        ) == failed(),
{
}

/// A file that has been opened stands behind the descriptor that `open` returns, behind
/// the standard streams, with the access that the flags ask for.
pub proof fn law_open_gives_access(manager: ManagerState, path: Seq<char>, flags: usize, file: File)
    requires
        manager.wf(),
        has_descriptor(manager),
        manager.running().userproc is Some,
        access(flags) is Some,
    ensures
        ({
            let done = OpenAction::Done(Ok(file));
            let fd = manager.running().userproc->0.next_fd;
            let (readable, writable) = access(flags)->0;
            &&& open_step(manager, path, flags, done) == StepState::Return(fd)
            &&& fd > STDERR_FD
            &&& current_fd(manager, fd) is None
            &&& current_fd(after_open(manager, flags, done), fd) == Some(
                FdEntry { file, readable, writable },
            )
        }),
{
    assert(manager.threads.contains_key(manager.current));
}

/// What is not open for reading cannot be read, and what is not open for writing cannot
/// be written.
pub proof fn law_access_is_enforced(
    manager: ManagerState,
    mem: MemState,
    fd: isize,
    entry: FdEntry,
    buffer: usize,
    size: usize,
)
    requires
        size > 0,
        fd > STDERR_FD,
        current_fd(manager, fd) == Some(entry),
    ensures
        !entry.readable ==> read_first(manager, mem, fd, buffer, size) == failed(),
        !entry.writable ==> write_first(manager, mem, fd, buffer, size) == failed(),
        entry.readable && mem.all_readable(buffer as int, size as nat) && mem.all_writable(
            buffer as int,
            size as nat,
        ) ==> read_first(manager, mem, fd, buffer, size) is Ask,
        entry.writable && mem.all_readable(buffer as int, size as nat) ==> write_first(
            manager,
            mem,
            fd,
            buffer,
            size,
        ) is Ask,
{
}

/// A descriptor that has been closed is good for nothing any more.
pub proof fn law_closed_descriptor_is_dead(
    manager: ManagerState,
    mem: MemState,
    fd: isize,
    buffer: usize,
    size: usize,
)
    requires
        manager.wf(),
        fd > STDERR_FD,
        size > 0,
    ensures
        ({
            let after = after_close(manager, fd);
            &&& current_fd(after, fd) is None
            &&& read_first(after, mem, fd, buffer, size) == failed()
            &&& write_first(after, mem, fd, buffer, size) == failed()
            &&& tell_first(after, fd) == failed()
            &&& fstat_first(after, fd, buffer) == failed()
            &&& close_first(after, fd) == failed()
            &&& seek_first(after, fd, size) == StepState::Return(0)
        }),
{
}

/* ----------------------------------- Open ---------------------------------- */

/// With `O_CREATE` a file that cannot be opened is made.
pub proof fn law_create_makes_missing_file(flags: usize, err: OsError)
    requires
        flags & O_CREATE != 0,
    ensures
        open_action(flags, OpenProgress::Opened(Err(err))) == (OpenAction::Create { opened: None }),
{
}

/// With `O_TRUNC` only a file that has been made anew is handed out.
pub proof fn law_truncated_file_is_new(flags: usize, file: File)
    requires
        flags & O_TRUNC != 0,
    ensures
        flags & O_CREATE != 0 ==> open_action(flags, OpenProgress::Start) == (OpenAction::Create {
            opened: None,
        }),
        flags & O_CREATE == 0 ==> open_action(flags, OpenProgress::Opened(Ok(file))) == (
        OpenAction::Create { opened: Some(file) }),
{
}

/// Without `O_CREATE` a file that cannot be opened is not made, and without `O_TRUNC` one
/// that can be opened is not made anew.
pub proof fn law_open_makes_nothing_unasked(flags: usize, opened: Result<File, OsError>)
    requires
        opened is Err ==> flags & O_CREATE == 0,
        opened is Ok ==> flags & O_TRUNC == 0,
    ensures
        open_action(flags, OpenProgress::Opened(opened)) == OpenAction::Done(opened),
        flags & O_TRUNC == 0 ==> open_action(flags, OpenProgress::Start) == OpenAction::Open,
{
}

/// What cannot be written cannot be truncated.
pub proof fn law_truncation_needs_write_access(flags: usize)
    requires
        flags & O_TRUNC != 0,
    ensures
        access(flags) matches Some(mode) ==> mode.1,
{
}

/* ----------------------------------- Read ---------------------------------- */

/// A read that succeeds leaves in the buffer what has been read, and says how much.
pub proof fn law_read_fills_buffer(mem: MemState, buffer: usize, data: Seq<u8>, value: isize)
    requires
        mem.all_writable(buffer as int, data.len()),
    ensures
        delivery(mem, buffer, data, value) == StepState::Return(value),
        delivered(mem, buffer, data).range(buffer as int, data.len()) == data,
        delivered(mem, buffer, data).all_readable(buffer as int, data.len()),
{
    law_writable_buffer_takes_all(mem, buffer as int, data);
    law_copy_reads_back(mem, buffer as int, data);
}

/// A read from a file that has been accepted returns what the file system answers, and
/// leaves in the buffer what has been read.
pub proof fn law_accepted_buffer_is_filled(
    manager: ManagerState,
    waits: TableState,
    mem: MemState,
    tid: isize,
    fd: isize,
    buffer: usize,
    size: usize,
    pending: Pending,
    reply: Reply,
)
    requires
        read_first(manager, mem, fd, buffer, size) is Ask,
        pending is ReadFile,
        pending@ == read_first(manager, mem, fd, buffer, size)->Ask_pending,
        answers(reply, pending),
    ensures
        next_step(manager, waits, mem, tid, pending, reply) == match reply->count {
            Ok(count) => StepState::Return(count as isize),
            Err(_) => failed(),
        },
        reply->count matches Ok(count) ==> mem_after_next(mem, pending, reply).range(
            buffer as int,
            count as nat,
        ) == reply->data@.take(count as int),
{
    if let Ok(count) = reply->count {
        let filled = reply->data@.take(count as int);
        assert forall|i: int| 0 <= i < filled.len() implies #[trigger] mem.can_store(
            buffer + i,
        ) by {}
        law_read_fills_buffer(mem, buffer, filled, count as isize);
    }
}

/// A read never writes outside of the buffer that it has been given, whatever the file
/// system or the console answers.
pub proof fn law_read_stays_inside(
    mem: MemState,
    buffer: usize,
    size: usize,
    pending: Pending,
    reply: Reply,
    other: int,
)
    requires
        match pending {
            Pending::ReadFile { buffer: b, size: n } => b == buffer && n == size,
            Pending::ReadConsole { buffer: b, size: n, data } => b == buffer && n == size
                && data@.len() < n,
            _ => false,
        },
        answers(reply, pending),
        !(buffer <= other < buffer + size),
    ensures
        mem_after_next(mem, pending, reply).load(other) == mem.load(other),
{
    match pending {
        Pending::ReadFile { .. } => {
            if let Ok(count) = reply->count {
                lemma_delivered_inside(mem, buffer, reply->data@.take(count as int), other);
            }
        },
        Pending::ReadConsole { data, .. } => {
            lemma_delivered_inside(mem, buffer, data@.push(reply->Char_0 as u8), other);
        },
        _ => {},
    }
}

/// Bytes that are handed to a buffer change nothing outside of it.
proof fn lemma_delivered_inside(mem: MemState, buffer: usize, data: Seq<u8>, other: int)
    requires
        !(buffer <= other < buffer + data.len()),
    ensures
        delivered(mem, buffer, data).load(other) == mem.load(other),
{
    lemma_writable_len(mem, buffer as int, data.len());
    assert(mem.in_user_space(other) ==> (other as usize) as int == other);
}

/// A buffer that can be written can be read, so that a read asks for no more than a
/// descriptor that can be read and a buffer that can be written.
pub proof fn law_writable_buffer_is_accepted(
    manager: ManagerState,
    mem: UserMemory,
    fd: isize,
    entry: FdEntry,
    buffer: usize,
    size: usize,
)
    requires
        size > 0,
        fd > STDERR_FD,
        current_fd(manager, fd) == Some(entry),
        entry.readable,
    ensures
        read_first(manager, mem@, fd, buffer, size) is Ask <==> mem@.all_writable(
            buffer as int,
            size as nat,
        ),
{
    mem.lemma_writable_is_readable();
}

/// A read from the console is complete when as many characters have come as were asked
/// for, and not before.
pub proof fn law_console_read_gathers_all(
    manager: ManagerState,
    mem: MemState,
    buffer: usize,
    size: usize,
    data: Seq<u8>,
    ch: usize,
)
    requires
        data.len() < size,
        ch != usize::MAX,
        mem.all_writable(buffer as int, size as nat),
    ensures
        read_char(manager, mem, buffer, size, data, ch) is Return <==> data.len() + 1 == size,
        read_char(manager, mem, buffer, size, data, ch) is Return ==> read_char(
            manager,
            mem,
            buffer,
            size,
            data,
            ch,
        ) == StepState::Return(size as isize),
{
}

/* ---------------------------------- Fstat ---------------------------------- */

/// What `fstat` tells takes sixteen bytes: the number of the file in the first four, as
/// far as it fits, and its length in the last eight.
pub proof fn law_stat_layout(inum: usize, len: usize)
    ensures
        stat_bytes(inum, len).len() == 16,
        le_value(stat_bytes(inum, len).take(4)) == inum as nat % 0x1_0000_0000,
        stat_bytes(inum, len).subrange(4, 8) == seq![0u8, 0, 0, 0],
        le_value(stat_bytes(inum, len).skip(8)) == len,
{
    let number = (inum as u32) as nat;
    let bytes = stat_bytes(inum, len);
    reveal_with_fuel(pow256, 9);
    lemma_le_bytes(number, 4);
    lemma_le_bytes(0, 4);
    lemma_le_bytes(len as nat, 8);
    assert(bytes.take(4) =~= le_bytes(number, 4));
    assert(bytes.skip(8) =~= le_bytes(len as nat, 8));
    let wide = inum as u64;
    assert(inum as u32 == (inum as u64) as u32) by (bit_vector);
    assert(wide as u32 == wide % 0x1_0000_0000) by (bit_vector);
    reveal_with_fuel(le_bytes, 5);
    assert(bytes.subrange(4, 8) =~= le_bytes(0, 4));
    assert(le_bytes(0, 4) =~= seq![0u8, 0, 0, 0]);
}

/* ----------------------------------- Exec ---------------------------------- */

/// The arguments that a program is started with are the ones that its maker named: what
/// the new program reads from its stack is what the maker's argument vector leads to.
pub proof fn law_exec_passes_arguments(
    maker: MemState,
    user_argv: int,
    args: Seq<Seq<u8>>,
    page: Seq<u8>,
    init_sp: int,
    program: MemState,
)
    requires
        argv_at(maker, user_argv) == Some(args),
        page.len() == PG_SIZE,
        PG_SIZE <= init_sp <= usize::MAX,
        args_fit(args, init_sp),
        holds_page(program, init_sp - PG_SIZE, args_page(page, args, init_sp)),
    ensures
        argv_at(program, argv_addr(args, init_sp)) == Some(args),
{
    assert(is_argv(maker, user_argv, args));
    assert forall|i: int| 0 <= i < args.len() implies is_argument(#[trigger] args[i]) by {
        assert(arg_at(maker, user_argv, i) == Some(args[i]));
        let ptr = maker.word(user_argv + i * crate::mem::word::word_size())->0;
        lemma_text_len(maker, ptr as int, MAX_ARG_BYTES as nat);
    }
    law_arguments_read_back(program, page, args, init_sp);
}

/* ----------------------- Each call, from its registers ---------------------- */

/// Whether a file stands behind a descriptor of the running process.
pub open spec fn stands_behind(manager: ManagerState, fd: int, entry: FdEntry) -> bool {
    manager.threads[manager.current].userproc matches Some(proc) && exists|d: isize|
        d == fd && proc.fds.contains_key(d) && #[trigger] proc.fds[d] == entry
}

/// Whether no file stands behind a descriptor of the running process.
pub open spec fn nothing_behind(manager: ManagerState, fd: int) -> bool {
    manager.threads[manager.current].userproc matches Some(proc) ==> forall|d: isize|
        #[trigger] proc.fds.contains_key(d) ==> d != fd
}

/// What is looked up behind a descriptor is what stands there in the running process.
pub proof fn law_descriptors_are_looked_up(manager: ManagerState, fd: isize, entry: FdEntry)
    ensures
        current_fd(manager, fd) == Some(entry) <==> stands_behind(manager, fd as int, entry),
        current_fd(manager, fd) is None <==> nothing_behind(manager, fd as int),
{
    if current_fd(manager, fd) == Some(entry) {
        let proc = manager.threads[manager.current].userproc->0;
        assert(proc.fds.contains_key(fd) && proc.fds[fd] == entry);
    }
    if current_fd(manager, fd) is Some {
        let proc = manager.threads[manager.current].userproc->0;
        assert(proc.fds.contains_key(fd));
    }
}

/// Whether a call changes neither threads nor children with its first step.
pub open spec fn changes_nothing(
    manager: ManagerState,
    waits: TableState,
    id: usize,
    args: Seq<usize>,
) -> bool {
    &&& threads_after_first(manager, waits, id, args) == manager
    &&& waits_after_first(manager, waits, id, args) == waits
}

/// The flags of `open`: the two lowest bits alone say whether the file is for reading (0),
/// for writing (1) or for both (2), whatever else is asked for. The flags are refused if
/// and only if these bits make 3, or a file that is for reading only is to be truncated
/// (0x400).
pub proof fn law_access_goes_by_the_lowest_bits(flags: usize)
    ensures
        access(flags) is None <==> flags % 4 == 3 || (flags & 0x400 != 0 && flags % 4 == 0),
        access(flags) matches Some((readable, writable)) ==> {
            &&& readable <==> flags % 4 == 0 || flags % 4 == 2
            &&& writable <==> flags % 4 == 1 || flags % 4 == 2
        },
{
    assert(flags & 3 == flags % 4) by (bit_vector);
}

/// Two sets of flags with the same lowest bits give the same access, if both are accepted.
pub proof fn law_other_flags_do_not_concern_access(flags: usize, other: usize)
    requires
        flags % 4 == other % 4,
        access(flags) is Some,
        access(other) is Some,
    ensures
        access(flags) == access(other),
{
    law_access_goes_by_the_lowest_bits(flags);
    law_access_goes_by_the_lowest_bits(other);
}

/// A path is the text that a pointer leads to, if it has at least one byte and less than a
/// page of them.
pub proof fn law_path_is_there(mem: MemState, pathname: usize, text: Seq<u8>)
    ensures
        holds_text(mem, pathname as int, text) && 0 < text.len() < 4096 ==> path_at(mem, pathname)
            == Some(decode_utf8(text)),
        path_at(mem, pathname) is Some ==> exists|t: Seq<u8>|
            {
                &&& #[trigger] holds_text(mem, pathname as int, t)
                &&& 0 < t.len() < 4096
                &&& path_at(mem, pathname) == Some(decode_utf8(t))
            },
{
    law_string_is_there(mem, pathname as int, text, 4096);
    if path_at(mem, pathname) is Some {
        let t = mem.cstring(pathname as int, 4096)->Ok_0;
        law_string_is_there(mem, pathname as int, t, 4096);
        assert(holds_text(mem, pathname as int, t));
    }
}

/// `open` (call 6) asks the file system for the file at the path: to make it at once where
/// it is to be created (0x200) and truncated (0x400), to open it otherwise. It fails if and
/// only if there is no path or the flags are refused.
pub proof fn law_open_asks_for_the_file(
    manager: ManagerState,
    waits: TableState,
    mem: MemState,
    args: Seq<usize>,
)
    ensures
        ({
            let flags = args[1];
            let step = first_step(manager, waits, mem, 6, args);
            let refused = flags % 4 == 3 || (flags & 0x400 != 0 && flags % 4 == 0);
            let path = path_at(mem, args[0])->0;
            &&& path_at(mem, args[0]) is None || refused ==> step == StepState::Return(-1isize)
            &&& path_at(mem, args[0]) is Some && !refused && flags & 0x200 != 0 && flags & 0x400
                != 0 ==> step == (StepState::Ask {
                request: RequestState::CreateFile { path, opened: None },
                pending: PendingState::Open { path, flags, phase: OpenPhase::Creating },
            })
            &&& path_at(mem, args[0]) is Some && !refused && (flags & 0x200 == 0 || flags & 0x400
                == 0) ==> step == (StepState::Ask {
                request: RequestState::OpenFile(path),
                pending: PendingState::Open { path, flags, phase: OpenPhase::Opening },
            })
        }),
        changes_nothing(manager, waits, 6, args),
{
    law_access_goes_by_the_lowest_bits(args[1]);
}

/// What comes of `open` when the file system has answered. A file that cannot be opened is
/// made where it is to be created, and else the call fails. A file that is there is made
/// anew where it is to be truncated and not created, and the opened one is closed. Any
/// other file is the one that the call was for.
pub proof fn law_open_goes_on(
    manager: ManagerState,
    waits: TableState,
    mem: MemState,
    tid: isize,
    pending: Pending,
    reply: Reply,
    path: Seq<char>,
    flags: usize,
    phase: OpenPhase,
)
    requires
        pending@ == (PendingState::Open { path, flags, phase }),
        reply is File,
    ensures
        ({
            let step = next_step(manager, waits, mem, tid, pending, reply);
            let create = flags & 0x200 != 0;
            let truncate = flags & 0x400 != 0;
            &&& reply->File_0 is Err && (phase == OpenPhase::Creating || !create) ==> step
                == StepState::Return(-1isize)
            &&& reply->File_0 is Err && phase == OpenPhase::Opening && create ==> step == (
            StepState::Ask {
                request: RequestState::CreateFile { path, opened: None },
                pending: PendingState::Open { path, flags, phase: OpenPhase::Creating },
            })
            &&& reply->File_0 is Ok && phase == OpenPhase::Opening && truncate && !create ==> step
                == (StepState::Ask {
                request: RequestState::CreateFile { path, opened: Some(reply->File_0->Ok_0) },
                pending: PendingState::Open { path, flags, phase: OpenPhase::Creating },
            })
            &&& step is Ask || reply->File_0 is Err ==> threads_after_next(
                manager,
                waits,
                tid,
                pending,
                reply,
            ) == manager
        }),
        waits_after_next(manager, waits, tid, pending, reply) == waits,
        mem_after_next(mem, pending, reply) == mem,
{
}

/// What a program gets of `open`: the number of a descriptor that was not open, above the
/// standard streams, behind which the file stands from now on, for reading and writing as
/// the lowest bits of the flags say. Nothing else changes.
pub proof fn law_opened_file_is_there(
    manager: ManagerState,
    waits: TableState,
    mem: MemState,
    tid: isize,
    pending: Pending,
    reply: Reply,
    path: Seq<char>,
    flags: usize,
    phase: OpenPhase,
    file: File,
)
    requires
        manager.wf(),
        pending@ == (PendingState::Open { path, flags, phase }),
        reply == Reply::File(Ok(file)),
        phase == OpenPhase::Creating || flags & 0x400 == 0 || flags & 0x200 != 0,
        flags % 4 != 3,
        flags & 0x400 == 0 || flags % 4 != 0,
        has_descriptor(manager),
    ensures
        ({
            let step = next_step(manager, waits, mem, tid, pending, reply);
            let before = manager.threads[manager.current];
            let after = threads_after_next(manager, waits, tid, pending, reply);
            match before.userproc {
                Some(proc) => {
                    let fd = proc.next_fd;
                    let entry = FdEntry {
                        file,
                        readable: flags % 4 == 0 || flags % 4 == 2,
                        writable: flags % 4 == 1 || flags % 4 == 2,
                    };
                    let proc_after = ProcState {
                        bin: proc.bin,
                        fds: proc.fds.insert(fd, entry),
                        next_fd: (fd + 1) as isize,
                    };
                    &&& step == StepState::Return(fd)
                    &&& fd > 2
                    &&& !proc.fds.contains_key(fd)
                    &&& after == (ManagerState {
                        threads: manager.threads.insert(
                            manager.current,
                            ThreadState { userproc: Some(proc_after), ..before },
                        ),
                        ..manager
                    })
                },
                None => {
                    &&& step == (StepState::Close { file, value: -1isize })
                    &&& after == manager
                },
            }
        }),
{
    law_access_goes_by_the_lowest_bits(flags);
    assert(manager.threads.contains_key(manager.current));
}

/// `remove` (call 5) asks the file system to remove the file at the path, and says 0 if
/// that has been done and -1 if not, or if there is no path.
pub proof fn law_remove_removes_the_file(
    manager: ManagerState,
    waits: TableState,
    mem: MemState,
    args: Seq<usize>,
    tid: isize,
    pending: Pending,
    reply: Reply,
)
    ensures
        first_step(manager, waits, mem, 5, args) == (match path_at(mem, args[0]) {
            Some(path) => StepState::Ask {
                request: RequestState::RemoveFile(path),
                pending: PendingState::Remove,
            },
            None => StepState::Return(-1isize),
        }),
        pending@ == PendingState::Remove && reply is Done ==> next_step(
            manager,
            waits,
            mem,
            tid,
            pending,
            reply,
        ) == StepState::Return(
            if reply->Done_0 is Ok {
                0isize
            } else {
                -1isize
            },
        ),
        changes_nothing(manager, waits, 5, args),
{
}

/// `write` (call 8) hands on the whole buffer: each byte that stands there, in its order,
/// to the console behind descriptors 1 and 2, to the file behind any other one that is
/// open for writing. It fails behind any other descriptor.
pub proof fn law_write_sends_the_buffer(
    manager: ManagerState,
    waits: TableState,
    mem: MemState,
    args: Seq<usize>,
    data: Seq<u8>,
    entry: FdEntry,
)
    requires
        holds(mem, args[1] as int, data),
        args[2] == data.len(),
        data.len() > 0,
    ensures
        ({
            let fd = args[0] as isize;
            let step = first_step(manager, waits, mem, 8, args);
            &&& fd == 1 || fd == 2 ==> step == (StepState::Ask {
                request: RequestState::PutChars(data),
                pending: PendingState::Value(args[2] as isize),
            })
            &&& fd > 2 && stands_behind(manager, fd as int, entry) && entry.writable ==> step == (
            StepState::Ask {
                request: RequestState::WriteFile { file: entry.file, data },
                pending: PendingState::Count,
            })
            &&& fd > 2 && stands_behind(manager, fd as int, entry) && !entry.writable ==> step
                == StepState::Return(-1isize)
            &&& fd <= 0 || (fd > 2 && nothing_behind(manager, fd as int)) ==> step
                == StepState::Return(-1isize)
        }),
        changes_nothing(manager, waits, 8, args),
{
    law_range_is(mem, args[1] as int, data);
    law_read_range(mem, args[1] as int, data.len());
}

/// `write` (call 8) fails if the program does not have the whole buffer, and has nothing
/// to do if the buffer is empty.
pub proof fn law_write_needs_the_buffer(
    manager: ManagerState,
    waits: TableState,
    mem: MemState,
    args: Seq<usize>,
)
    ensures
        args[2] > 0 && !has_all(mem, args[1] as int, args[2] as nat) ==> first_step(
            manager,
            waits,
            mem,
            8,
            args,
        ) == StepState::Return(-1isize),
        args[2] == 0 ==> first_step(manager, waits, mem, 8, args) == StepState::Return(0),
{
    law_read_range(mem, args[1] as int, args[2] as nat);
}

/// What the program gets back: the value that a call has promised, whatever the answer,
/// or the count that the file system has answered, and -1 where that has failed. Nothing
/// else changes.
pub proof fn law_counts_are_returned(
    manager: ManagerState,
    waits: TableState,
    mem: MemState,
    tid: isize,
    pending: Pending,
    reply: Reply,
)
    requires
        pending is Value || (pending is Count && reply is Count),
    ensures
        pending@ matches PendingState::Value(value) ==> next_step(
            manager,
            waits,
            mem,
            tid,
            pending,
            reply,
        ) == StepState::Return(value),
        pending is Count ==> next_step(manager, waits, mem, tid, pending, reply) == (
        match reply->Count_0 {
            Ok(count) => StepState::Return(count as isize),
            Err(_) => StepState::Return(-1isize),
        }),
        threads_after_next(manager, waits, tid, pending, reply) == manager,
        waits_after_next(manager, waits, tid, pending, reply) == waits,
        mem_after_next(mem, pending, reply) == mem,
{
}

/// `read` (call 7) into a buffer that the program has and may change asks the console for a
/// character behind descriptor 0, and the file behind any other one that is open for
/// reading for as many bytes as fit. It fails behind any other descriptor.
pub proof fn law_read_asks_for_the_bytes(
    manager: ManagerState,
    waits: TableState,
    mem: MemState,
    args: Seq<usize>,
    entry: FdEntry,
)
    requires
        args[2] > 0,
        has_all(mem, args[1] as int, args[2] as nat),
        may_change_all(mem, args[1] as int, args[2] as nat),
    ensures
        ({
            let fd = args[0] as isize;
            let step = first_step(manager, waits, mem, 7, args);
            &&& fd == 0 ==> step == (StepState::Ask {
                request: RequestState::GetChar,
                pending: PendingState::ReadConsole {
                    buffer: args[1],
                    size: args[2],
                    data: Seq::empty(),
                },
            })
            &&& fd > 2 && stands_behind(manager, fd as int, entry) && entry.readable ==> {
                &&& step matches StepState::Ask {
                    request: RequestState::ReadFile { file, data },
                    pending: PendingState::ReadFile { buffer, size },
                }
                &&& file == entry.file
                &&& data.len() == args[2]
                &&& forall|i: int| 0 <= i < data.len() ==> #[trigger] data[i] == 0
                &&& buffer == args[1]
                &&& size == args[2]
            }
            &&& fd > 2 && stands_behind(manager, fd as int, entry) && !entry.readable ==> step
                == StepState::Return(-1isize)
            &&& fd < 0 || fd == 1 || fd == 2 || (fd > 2 && nothing_behind(manager, fd as int))
                ==> step == StepState::Return(-1isize)
        }),
        changes_nothing(manager, waits, 7, args),
{
    law_read_range(mem, args[1] as int, args[2] as nat);
    law_write_range(mem, args[1] as int, Seq::new(args[2] as nat, |i: int| 0u8));
}

/// `read` (call 7) fails if there is a byte in the buffer that the program does not have or
/// may not change, and has nothing to do if the buffer is empty.
pub proof fn law_read_needs_the_buffer(
    manager: ManagerState,
    waits: TableState,
    mem: MemState,
    args: Seq<usize>,
)
    ensures
        args[2] > 0 && !(has_all(mem, args[1] as int, args[2] as nat) && may_change_all(
            mem,
            args[1] as int,
            args[2] as nat,
        )) ==> first_step(manager, waits, mem, 7, args) == StepState::Return(-1isize),
        args[2] == 0 ==> first_step(manager, waits, mem, 7, args) == StepState::Return(0),
{
    law_read_range(mem, args[1] as int, args[2] as nat);
    law_write_range(mem, args[1] as int, Seq::new(args[2] as nat, |i: int| 0u8));
}

/// What is handed to a buffer stands there afterwards and nothing else changes; the call
/// fails where the program may not change all of it.
proof fn lemma_delivered(mem: MemState, buffer: usize, data: Seq<u8>, value: isize)
    ensures
        may_change_all(mem, buffer as int, data.len()) ==> {
            &&& delivery(mem, buffer, data, value) == StepState::Return(value)
            &&& filled_with(mem, delivered(mem, buffer, data), buffer as int, data)
        },
        !may_change_all(mem, buffer as int, data.len()) ==> delivery(mem, buffer, data, value)
            == StepState::Return(-1isize),
{
    law_write_range(mem, buffer as int, data);
    if may_change_all(mem, buffer as int, data.len()) {
        law_writable_buffer_takes_all(mem, buffer as int, data);
    }
}

/// A read from a file puts as many bytes into the buffer as the file system has filled,
/// changes nothing else, and says how many they are. Where the file system has failed, or
/// the program may not change that part of the buffer any more, the call fails.
pub proof fn law_read_takes_from_the_file(
    manager: ManagerState,
    waits: TableState,
    mem: MemState,
    tid: isize,
    pending: Pending,
    reply: Reply,
    buffer: usize,
    size: usize,
)
    requires
        pending@ == (PendingState::ReadFile { buffer, size }),
        answers(reply, pending),
    ensures
        ({
            let step = next_step(manager, waits, mem, tid, pending, reply);
            let after = mem_after_next(mem, pending, reply);
            match reply->count {
                Ok(count) => {
                    &&& may_change_all(mem, buffer as int, count as nat) ==> {
                        &&& step == StepState::Return(count as isize)
                        &&& filled_with(
                            mem,
                            after,
                            buffer as int,
                            reply->data@.subrange(0, count as int),
                        )
                    }
                    &&& !may_change_all(mem, buffer as int, count as nat) ==> step
                        == StepState::Return(-1isize)
                },
                Err(_) => step == StepState::Return(-1isize) && after == mem,
            }
        }),
        threads_after_next(manager, waits, tid, pending, reply) == manager,
        waits_after_next(manager, waits, tid, pending, reply) == waits,
{
    if let Ok(count) = reply->count {
        assert(reply->data@.take(count as int) == reply->data@.subrange(0, count as int));
        lemma_delivered(mem, buffer, reply->data@.take(count as int), count as isize);
    }
}

/// A read from the console gathers one character after the other, its lowest eight bits,
/// behind those that have come before. Where there is none yet it hands the processor on
/// and keeps what it has. When there are as many as were asked for, they go to the buffer,
/// nothing else changes, and the call says how many they are.
pub proof fn law_read_gathers_from_the_console(
    manager: ManagerState,
    waits: TableState,
    mem: MemState,
    tid: isize,
    pending: Pending,
    reply: Reply,
    buffer: usize,
    size: usize,
    data: Seq<u8>,
    ch: usize,
)
    requires
        pending@ == (PendingState::ReadConsole { buffer, size, data }),
        reply == Reply::Char(ch),
        data.len() < size,
    ensures
        ({
            let step = next_step(manager, waits, mem, tid, pending, reply);
            let after = mem_after_next(mem, pending, reply);
            let threads = threads_after_next(manager, waits, tid, pending, reply);
            let gathered = data.push((ch % 256) as u8);
            &&& ch == usize::MAX ==> {
                &&& step matches StepState::Suspend { switch, pending: waiting }
                &&& switch == manager.switch()
                &&& waiting == (PendingState::ReadYielded { buffer, size, data })
                &&& threads == manager.scheduled()
                &&& after == mem
            }
            &&& ch != usize::MAX ==> threads == manager
            &&& ch != usize::MAX && gathered.len() < size ==> {
                &&& step == (StepState::Ask {
                    request: RequestState::GetChar,
                    pending: PendingState::ReadConsole { buffer, size, data: gathered },
                })
                &&& after == mem
            }
            &&& ch != usize::MAX && gathered.len() == size ==> {
                &&& may_change_all(mem, buffer as int, size as nat) ==> step == StepState::Return(
                    size as isize,
                ) && filled_with(mem, after, buffer as int, gathered)
                &&& !may_change_all(mem, buffer as int, size as nat) ==> step
                    == StepState::Return(-1isize)
            }
        }),
        waits_after_next(manager, waits, tid, pending, reply) == waits,
{
    assert(ch as u8 == (ch % 256) as u8) by (bit_vector);
    lemma_delivered(mem, buffer, data.push(ch as u8), size as isize);
}

/// Where a buffer cannot be filled as a whole, the bytes in front of the first one that the
/// program may not change are there, and nothing else changes.
pub proof fn law_buffers_are_filled_up_to_the_fault(
    mem: MemState,
    pending: Pending,
    reply: Reply,
    buffer: usize,
    data: Seq<u8>,
    n: nat,
)
    requires
        match pending@ {
            PendingState::ReadFile { buffer: b, .. } => {
                &&& b == buffer
                &&& reply->count matches Ok(count) && count <= reply->data@.len() && data
                    == reply->data@.subrange(0, count as int)
            },
            PendingState::ReadConsole { buffer: b, size, data: gathered } => {
                &&& b == buffer
                &&& reply->Char_0 != usize::MAX
                &&& data == gathered.push((reply->Char_0 % 256) as u8)
                &&& data.len() == size
            },
            PendingState::Stat { user_buf } => {
                &&& user_buf == buffer
                &&& data == stat_bytes(
                    reply->inum,
                    match reply->len {
                        Ok(len) => len,
                        Err(_) => 0,
                    },
                )
            },
            _ => false,
        },
        n < data.len(),
        may_change_all(mem, buffer as int, n),
        !may_change(mem, buffer + n),
    ensures
        filled_with(
            mem,
            mem_after_next(mem, pending, reply),
            buffer as int,
            data.subrange(0, n as int),
        ),
{
    let ch = reply->Char_0;
    assert(ch as u8 == (ch % 256) as u8) by (bit_vector);
    let front = data.subrange(0, n as int);
    law_write_range(mem, buffer as int, front);
    assert(mem.writable_for(buffer as int, data.len(), n));
    lemma_writable_len_is(mem, buffer as int, data.len(), n);
    assert(data.take(n as int) =~= front);
    if pending is ReadFile {
        assert(reply->data@.take(reply->count->Ok_0 as int) =~= data);
    }
    assert(mem_after_next(mem, pending, reply) == delivered(mem, buffer, data));
}

/// A read from the console that has handed the processor on asks again, and has not lost
/// what it has gathered.
pub proof fn law_read_asks_again(
    manager: ManagerState,
    waits: TableState,
    mem: MemState,
    tid: isize,
    pending: Pending,
    reply: Reply,
    buffer: usize,
    size: usize,
    data: Seq<u8>,
)
    requires
        pending@ == (PendingState::ReadYielded { buffer, size, data }),
    ensures
        next_step(manager, waits, mem, tid, pending, reply) == (StepState::Ask {
            request: RequestState::GetChar,
            pending: PendingState::ReadConsole { buffer, size, data },
        }),
        threads_after_next(manager, waits, tid, pending, reply) == manager,
        waits_after_next(manager, waits, tid, pending, reply) == waits,
        mem_after_next(mem, pending, reply) == mem,
{
}

/// `seek` (call 9) and `tell` (call 10) ask the file behind a descriptor above the standard
/// streams to move to a position, or for the one where it is. Behind any other descriptor
/// there is nothing to move, and no position.
pub proof fn law_positions_are_those_of_the_file(
    manager: ManagerState,
    waits: TableState,
    mem: MemState,
    args: Seq<usize>,
    entry: FdEntry,
)
    ensures
        ({
            let fd = args[0] as isize;
            let seek = first_step(manager, waits, mem, 9, args);
            let tell = first_step(manager, waits, mem, 10, args);
            &&& fd > 2 && stands_behind(manager, fd as int, entry) ==> {
                &&& seek == (StepState::Ask {
                    request: RequestState::SeekFile { file: entry.file, position: args[1] },
                    pending: PendingState::Value(0),
                })
                &&& tell == (StepState::Ask {
                    request: RequestState::TellFile(entry.file),
                    pending: PendingState::Count,
                })
            }
            &&& fd <= 2 || nothing_behind(manager, fd as int) ==> {
                &&& seek == StepState::Return(0)
                &&& tell == StepState::Return(-1isize)
            }
        }),
        changes_nothing(manager, waits, 9, args),
        changes_nothing(manager, waits, 10, args),
{
}

/// `close` (call 11) takes a descriptor above the standard streams away from the running
/// process, and no other one, and has the file closed. The standard streams stay; any
/// other descriptor is refused, and nothing changes.
pub proof fn law_close_takes_the_descriptor(
    manager: ManagerState,
    waits: TableState,
    mem: MemState,
    args: Seq<usize>,
    entry: FdEntry,
)
    ensures
        ({
            let fd = args[0] as isize;
            let step = first_step(manager, waits, mem, 11, args);
            let before = manager.threads[manager.current];
            let after = threads_after_first(manager, waits, 11, args);
            &&& fd > 2 && stands_behind(manager, fd as int, entry) ==> {
                let proc = before.userproc->0;
                let proc_after = ProcState {
                    bin: proc.bin,
                    fds: proc.fds.remove(fd),
                    next_fd: proc.next_fd,
                };
                &&& step == (StepState::Close { file: entry.file, value: 0 })
                &&& after == (ManagerState {
                    threads: manager.threads.insert(
                        manager.current,
                        ThreadState { userproc: Some(proc_after), ..before },
                    ),
                    ..manager
                })
            }
            &&& 0 <= fd <= 2 ==> step == StepState::Return(0) && after == manager
            &&& fd < 0 || (fd > 2 && nothing_behind(manager, fd as int)) ==> step
                == StepState::Return(-1isize) && after == manager
        }),
        waits_after_first(manager, waits, 11, args) == waits,
{
}

/// `fstat` (call 12) asks about the file behind a descriptor above the standard streams, and
/// fails for any other descriptor and for the null pointer.
pub proof fn law_fstat_asks_about_the_file(
    manager: ManagerState,
    waits: TableState,
    mem: MemState,
    args: Seq<usize>,
    entry: FdEntry,
)
    ensures
        ({
            let fd = args[0] as isize;
            let step = first_step(manager, waits, mem, 12, args);
            &&& fd > 2 && stands_behind(manager, fd as int, entry) && args[1] != 0 ==> step == (
            StepState::Ask {
                request: RequestState::StatFile(entry.file),
                pending: PendingState::Stat { user_buf: args[1] },
            })
            &&& fd <= 2 || nothing_behind(manager, fd as int) || args[1] == 0 ==> step
                == StepState::Return(-1isize)
        }),
        changes_nothing(manager, waits, 12, args),
{
}

/// The lowest bytes of a number are those of its lowest four bytes.
proof fn lemma_low_bytes(value: usize, k: nat)
    requires
        k < 4,
    ensures
        (((value as u32) as int) / pow(256, k)) % 256 == (value as int / pow(256, k)) % 256,
{
    let low = (value as u32) as usize;
    reveal_with_fuel(pow, 4);
    assert(low % 256 == value % 256) by (bit_vector)
        requires
            low == (value as u32) as usize,
    ;
    assert((low / 0x100) % 256 == (value / 0x100) % 256) by (bit_vector)
        requires
            low == (value as u32) as usize,
    ;
    assert((low / 0x1_0000) % 256 == (value / 0x1_0000) % 256) by (bit_vector)
        requires
            low == (value as u32) as usize,
    ;
    assert((low / 0x100_0000) % 256 == (value / 0x100_0000) % 256) by (bit_vector)
        requires
            low == (value as u32) as usize,
    ;
}

/// What `fstat` puts into the buffer: sixteen bytes, the lowest four of the number of the
/// file, four zeros, and the length of the file, or zero where that is not known. Each
/// number has its lowest byte first, and nothing else changes.
pub proof fn law_fstat_tells_number_and_length(
    manager: ManagerState,
    waits: TableState,
    mem: MemState,
    tid: isize,
    pending: Pending,
    reply: Reply,
    user_buf: usize,
    k: int,
)
    requires
        pending@ == (PendingState::Stat { user_buf }),
        reply is Stat,
        0 <= k < 16,
    ensures
        ({
            let step = next_step(manager, waits, mem, tid, pending, reply);
            let after = mem_after_next(mem, pending, reply);
            let length = match reply->len {
                Ok(len) => len,
                Err(_) => 0,
            };
            &&& may_change_all(mem, user_buf as int, 16) ==> {
                let data = stat_bytes(reply->inum, length);
                &&& step == StepState::Return(0)
                &&& data.len() == 16
                &&& filled_with(mem, after, user_buf as int, data)
                &&& 0 <= k < 4 ==> data[k] == (reply->inum as int / pow(256, k as nat)) % 256
                &&& 4 <= k < 8 ==> data[k] == 0
                &&& 8 <= k < 16 ==> data[k] == (length as int / pow(256, (k - 8) as nat)) % 256
            }
            &&& !may_change_all(mem, user_buf as int, 16) ==> step == StepState::Return(-1isize)
        }),
        threads_after_next(manager, waits, tid, pending, reply) == manager,
        waits_after_next(manager, waits, tid, pending, reply) == waits,
{
    let length = stat_len(reply->len);
    let inum = reply->inum;
    let data = stat_bytes(inum, length);
    law_stat_layout(inum, length);
    lemma_delivered(mem, user_buf, data, 0);
    lemma_le_bytes_len((inum as u32) as nat, 4);
    lemma_le_bytes_len(0, 4);
    lemma_le_bytes_len(length as nat, 8);
    if k < 4 {
        law_lowest_byte_first((inum as u32) as nat, 4, k);
        lemma_low_bytes(inum, k as nat);
    } else if k < 8 {
        assert(data[k] == data.subrange(4, 8)[k - 4]);
    } else {
        law_lowest_byte_first(length as nat, 8, k - 8);
        assert(data[k] == data.skip(8)[k - 8]);
    }
}

/// `exec` (call 3) asks for the file at the path, and keeps all arguments that the vector
/// leads to, in their order. It fails if and only if there is no path or no vector.
pub proof fn law_exec_reads_all_arguments(
    manager: ManagerState,
    waits: TableState,
    mem: MemState,
    args: Seq<usize>,
    list: Seq<Seq<u8>>,
)
    ensures
        path_at(mem, args[0]) is Some && vector_leads_to(mem, args[1] as int, list) ==> first_step(
            manager,
            waits,
            mem,
            3,
            args,
        ) == (StepState::Ask {
            request: RequestState::OpenFile(path_at(mem, args[0])->0),
            pending: PendingState::ExecOpen { argv: list },
        }),
        path_at(mem, args[0]) is None || (forall|l: Seq<Seq<u8>>|
            !#[trigger] vector_leads_to(mem, args[1] as int, l)) ==> first_step(
            manager,
            waits,
            mem,
            3,
            args,
        ) == StepState::Return(-1isize),
        changes_nothing(manager, waits, 3, args),
{
    law_argv_is_there(mem, args[1] as int, list);
    if argv_at(mem, args[1] as int) is Some {
        law_argv_is_there(mem, args[1] as int, argv_at(mem, args[1] as int)->0);
    }
}

/// `exec` loads the file that has been opened, and keeps all arguments meanwhile. It fails
/// where the file cannot be opened. Nothing changes.
pub proof fn law_exec_loads_the_file(
    manager: ManagerState,
    waits: TableState,
    mem: MemState,
    tid: isize,
    pending: Pending,
    reply: Reply,
    list: Seq<Seq<u8>>,
)
    requires
        pending@ == (PendingState::ExecOpen { argv: list }),
        reply is File,
    ensures
        next_step(manager, waits, mem, tid, pending, reply) == (match reply->File_0 {
            Ok(file) => StepState::Ask {
                request: RequestState::LoadProgram(file),
                pending: PendingState::ExecLoad { file, argv: list },
            },
            Err(_) => StepState::Return(-1isize),
        }),
        threads_after_next(manager, waits, tid, pending, reply) == manager,
        waits_after_next(manager, waits, tid, pending, reply) == waits,
        mem_after_next(mem, pending, reply) == mem,
{
}

/// What a program finds that `exec` has started: the number of its arguments in one
/// register, and in another one, as in the stack pointer, where the vector of them stands.
/// A memory that holds the stack page leads from there to exactly the arguments that
/// `exec` has kept. All other registers are zero, and it goes on at the entry point.
pub proof fn law_exec_starts_with_all_arguments(
    manager: ManagerState,
    waits: TableState,
    mem: MemState,
    tid: isize,
    pending: Pending,
    reply: Reply,
    file: File,
    list: Seq<Seq<u8>>,
    image: Image,
    program: MemState,
)
    requires
        pending@ == (PendingState::ExecLoad { file, argv: list }),
        reply is Loaded,
        reply->image == Ok::<Image, OsError>(image),
        image.stack_page is Some,
        image.stack_page->0@.len() == 4096,
        image.init_sp >= 4096,
        room(list) <= 4096,
        vector_start(list, image.init_sp as int) >= image.init_sp - 4096,
    ensures
        next_step(manager, waits, mem, tid, pending, reply) matches StepState::Spawned {
            tid: child,
            frame,
            stack_page,
        } && {
            &&& child == tid
            &&& stack_page.len() == 4096
            &&& frame.sepc == image.entry_point
            &&& frame.x.len() == 32
            &&& frame.x[10] == list.len()
            &&& frame.x[11] == vector_start(list, image.init_sp as int)
            &&& frame.x[2] == frame.x[11]
            &&& forall|r: int|
                0 <= r < 32 && r != 2 && r != 10 && r != 11 ==> #[trigger] frame.x[r] == 0
            &&& list.len() > 0 && (forall|i: int|
                0 <= i < list.len() ==> is_argument(#[trigger] list[i])) && holds(
                program,
                image.init_sp - 4096,
                stack_page,
            ) ==> vector_leads_to(program, frame.x[11] as int, list)
        },
{
    let sp = image.init_sp as int;
    let page = image.stack_page->0@;
    law_arguments_need_a_page(list, sp);
    lemma_room(list);
    let filled = args_page(page, list, sp);
    lemma_filled_page(page, list, sp);
    if list.len() > 0 && (forall|i: int|
        0 <= i < list.len() ==> is_argument(#[trigger] list[i])) && holds(
        program,
        sp - 4096,
        filled,
    ) {
        assert forall|i: int| 0 <= i < filled.len() implies (#[trigger] program.load(
            sp - 4096 + i,
        )) == Some(filled[i]) by {
            assert(has_byte(program, sp - 4096 + i));
        }
        law_arguments_read_back(program, page, list, sp);
        law_argv_is_there(program, argv_addr(list, sp), list);
    }
}

/// What `exec` makes: a thread that is ready, of the default priority, and nobody has lent
/// it anything; it starts at the launch's entry on an empty stack, in the page table of the
/// program, and its process runs the file and has opened nothing. It joins the end of its
/// level, and is a child of the running thread, alive and not asked for. Nothing else
/// changes, and the next thread gets the next id.
pub proof fn law_exec_makes_a_child(
    manager: ManagerState,
    waits: TableState,
    mem: MemState,
    tid: isize,
    pending: Pending,
    reply: Reply,
    file: File,
    list: Seq<Seq<u8>>,
    image: Image,
)
    requires
        pending@ == (PendingState::ExecLoad { file, argv: list }),
        reply is Loaded,
        reply->image == Ok::<Image, OsError>(image),
        image.stack_page is Some,
        room(list) <= 4096,
        vector_start(list, image.init_sp as int) >= image.init_sp - 4096,
        reply->launch.stack + 16384 <= usize::MAX,
        manager.wf(),
    ensures
        ({
            let launch = reply->launch;
            let after = threads_after_next(manager, waits, tid, pending, reply);
            let thread = after.threads[tid];
            &&& thread.tid == tid
            &&& thread.name == "Default"@
            &&& thread.status == Status::Ready
            &&& thread.priority == 31
            &&& thread.base_priority == 31
            &&& thread.donations.len() == 0
            &&& thread.waiting_lock is None
            &&& thread.stack == launch.stack
            &&& thread.pagetable == Some(launch.pagetable)
            &&& thread.userproc == Some(
                ProcState { bin: Some(file), fds: Map::empty(), next_fd: 3 },
            )
            &&& thread.context.ra == launch.thread_entry
            &&& thread.context.sp == launch.stack + 16384
            &&& thread.context.s.len() == 12
            &&& thread.context.s[0] == launch.function
            &&& forall|r: int| 0 < r < 12 ==> #[trigger] thread.context.s[r] == 0
            &&& after == (ManagerState {
                threads: manager.threads.insert(tid, thread),
                ready: manager.ready.update(31, manager.ready[31].push(tid)),
                ..manager
            })
        }),
        waits_after_next(manager, waits, tid, pending, reply) == (TableState {
            table: waits.table.insert(
                tid,
                WaitState {
                    parent_tid: manager.current,
                    exit_status: None,
                    child_alive: true,
                    parent_alive: true,
                    waited: false,
                    exited: SemaState { value: 0, waiters: Seq::empty() },
                },
            ),
            held: waits.held,
        }),
        pending matches Pending::ExecLoad { argv, .. } && (tid < isize::MAX ==> tids_after_exec(
            tid,
            reply->image,
            argv@,
        ) == tid + 1),
{
    law_arguments_need_a_page(list, image.init_sp as int);
}

/// `exec` closes the file and makes nothing where it has not been loaded, where its stack is
/// not there, or where the arguments have no room on it.
pub proof fn law_exec_fails_without_a_trace(
    manager: ManagerState,
    waits: TableState,
    mem: MemState,
    tid: isize,
    pending: Pending,
    reply: Reply,
    file: File,
    list: Seq<Seq<u8>>,
)
    requires
        pending@ == (PendingState::ExecLoad { file, argv: list }),
        reply is Loaded,
        reply->image matches Ok(image) ==> image.stack_page is None || room(list) > 4096
            || vector_start(list, image.init_sp as int) < image.init_sp - 4096,
    ensures
        next_step(manager, waits, mem, tid, pending, reply) == (StepState::Close {
            file,
            value: -1isize,
        }),
        threads_after_next(manager, waits, tid, pending, reply) == manager,
        waits_after_next(manager, waits, tid, pending, reply) == waits,
        mem_after_next(mem, pending, reply) == mem,
        pending matches Pending::ExecLoad { argv, .. } && tids_after_exec(
            tid,
            reply->image,
            argv@,
        ) == tid,
{
    if let Ok(image) = reply->image {
        law_arguments_need_a_page(list, image.init_sp as int);
    }
}

/// The arguments of a program, from the registers of the one who calls `exec` to those of
/// the new one: what the vector of the caller leads to is what the vector of the program
/// leads to, whatever happens between the steps.
pub proof fn law_exec_hands_arguments_over(
    caller: MemState,
    args: Seq<usize>,
    list: Seq<Seq<u8>>,
    first: (ManagerState, TableState),
    second: (ManagerState, TableState, MemState, isize),
    third: (ManagerState, TableState, MemState, isize),
    opening: Pending,
    opened: Reply,
    loading: Pending,
    loaded: Reply,
    image: Image,
    program: MemState,
)
    requires
        path_at(caller, args[0]) is Some,
        vector_leads_to(caller, args[1] as int, list),
        first_step(first.0, first.1, caller, 3, args) matches StepState::Ask { pending, .. }
            && opening@ == pending,
        opened is File,
        opened->File_0 is Ok,
        next_step(second.0, second.1, second.2, second.3, opening, opened) matches StepState::Ask {
            pending,
            ..
        } && loading@ == pending,
        loaded is Loaded,
        loaded->image == Ok::<Image, OsError>(image),
        image.stack_page is Some,
        image.stack_page->0@.len() == 4096,
        image.init_sp >= 4096,
        vector_start(list, image.init_sp as int) >= image.init_sp - 4096,
    ensures
        next_step(third.0, third.1, third.2, third.3, loading, loaded) matches StepState::Spawned {
            frame,
            stack_page,
            ..
        } && {
            &&& frame.x[10] == list.len()
            &&& holds(program, image.init_sp - 4096, stack_page) ==> vector_leads_to(
                program,
                frame.x[11] as int,
                list,
            )
        },
{
    law_exec_reads_all_arguments(first.0, first.1, caller, args, list);
    law_exec_loads_the_file(second.0, second.1, second.2, second.3, opening, opened, list);
    let pointers = choose|pointers: Seq<usize>| #[trigger]
        pointers_lead_to(caller, args[1] as int, pointers, list);
    assert forall|i: int| 0 <= i < list.len() implies is_argument(#[trigger] list[i]) by {
        assert(holds_text(caller, pointers[i] as int, list[i]));
    }
    law_exec_starts_with_all_arguments(
        third.0,
        third.1,
        third.2,
        third.3,
        loading,
        loaded,
        opened->File_0->Ok_0,
        list,
        image,
        program,
    );
}

/// `wait` (call 4) returns the exit value of a child that has exited, whatever the value is,
/// to its parent, for the first time that this one asks. It returns -1 to anybody else, for
/// a number below zero and for a second time, and changes nothing then.
pub proof fn law_wait_returns_the_value(
    manager: ManagerState,
    waits: TableState,
    mem: MemState,
    args: Seq<usize>,
)
    requires
        waits.wf(),
    ensures
        ({
            let child = args[0] as isize;
            let record = waits.table[child];
            let may_ask = child >= 0 && waits.table.contains_key(child) && record.parent_tid
                == manager.current && !record.waited;
            let step = first_step(manager, waits, mem, 4, args);
            let after = waits_after_first(manager, waits, 4, args);
            &&& !may_ask ==> step == StepState::Return(-1isize) && changes_nothing(
                manager,
                waits,
                4,
                args,
            )
            &&& may_ask && !record.child_alive ==> {
                &&& record.exit_status is Some
                &&& step == StepState::Return(record.exit_status->0)
                &&& after == (TableState { table: waits.table.remove(child), held: waits.held })
                &&& threads_after_first(manager, waits, 4, args) == manager
            }
            &&& may_ask && record.child_alive ==> {
                let blocked = ManagerState {
                    threads: manager.threads.insert(
                        manager.current,
                        ThreadState {
                            status: Status::Blocked,
                            ..manager.threads[manager.current]
                        },
                    ),
                    ..manager
                };
                &&& step == (StepState::Suspend {
                    switch: blocked.switch(),
                    pending: PendingState::Wait { tid: child },
                })
                &&& threads_after_first(manager, waits, 4, args) == blocked.scheduled()
                &&& after.table.contains_key(child)
                &&& after.table[child].waited
                &&& after.table[child].exited.waiters.contains(manager.current)
            }
            &&& after == waits.after_wait(manager, child, Awaiting::Enter)
        }),
{
    let waiters = waits.table[args[0] as isize].exited.waiters;
    if !waiters.contains(manager.current) {
        assert(waiters.push(manager.current)[waiters.len() as int] == manager.current);
    }
    law_wait_answers(manager, waits, args[0] as isize);
}

/// A parent that goes on with `wait` gets the exit value, whatever it is, from the record
/// that it has in hand, or that is still in the table. Where the child has not exited yet it
/// is suspended again.
pub proof fn law_wait_goes_on_with_the_value(
    manager: ManagerState,
    waits: TableState,
    mem: MemState,
    tid: isize,
    pending: Pending,
    reply: Reply,
    child: isize,
)
    requires
        waits.wf(),
        pending@ == (PendingState::Wait { tid: child }),
        waits.held.contains_key(child) || waits.table.contains_key(child),
        waits.held.contains_key(child) ==> waits.held[child].exited.value > 0,
    ensures
        ({
            let step = next_step(manager, waits, mem, tid, pending, reply);
            let threads = threads_after_next(manager, waits, tid, pending, reply);
            let after = waits_after_next(manager, waits, tid, pending, reply);
            let blocked = ManagerState {
                threads: manager.threads.insert(
                    manager.current,
                    ThreadState { status: Status::Blocked, ..manager.threads[manager.current] },
                ),
                ..manager
            };
            let in_table = !waits.held.contains_key(child);
            let record = waits.table[child];
            &&& waits.held.contains_key(child) ==> {
                &&& step == StepState::Return(waits.held[child].exit_status->0)
                &&& after.held == waits.held.remove(child)
                &&& threads == manager
            }
            &&& in_table && !record.child_alive && record.exited.value > 0 ==> {
                &&& step == StepState::Return(record.exit_status->0)
                &&& threads == manager
            }
            &&& in_table && record.child_alive ==> {
                &&& step == (StepState::Suspend {
                    switch: blocked.switch(),
                    pending: PendingState::Wait { tid: child },
                })
                &&& threads == blocked.scheduled()
            }
            &&& after == waits.after_wait(manager, child, Awaiting::Blocked)
        }),
        mem_after_next(mem, pending, reply) == mem,
{
    law_wait_goes_on(manager, waits, child);
}

/// A parent that asks after the child has exited gets the value that the child has called
/// `exit` (call 2) with, and -1 when it asks again.
pub proof fn law_exit_value_is_kept(
    exiting: ManagerState,
    waits: TableState,
    exit_args: Seq<usize>,
    asking: ManagerState,
    mem: MemState,
    wait_args: Seq<usize>,
    later: ManagerState,
)
    requires
        waits.wf(),
        waits.table.contains_key(exiting.current),
        !waits.table[exiting.current].waited,
        waits.table[exiting.current].parent_alive,
        waits.table[exiting.current].parent_tid == asking.current,
        wait_args[0] as isize == exiting.current,
        exiting.current >= 0,
    ensures
        ({
            let exited = waits_after_first(exiting, waits, 2, exit_args);
            let asked = waits_after_first(asking, exited, 4, wait_args);
            &&& first_step(asking, exited, mem, 4, wait_args) == StepState::Return(
                exit_args[0] as isize,
            )
            &&& first_step(later, asked, mem, 4, wait_args) == StepState::Return(-1isize)
        }),
{
    let child = exiting.current;
    let value = exit_args[0] as isize;
    law_exit_is_recorded(closed_on_exit(exiting), waits, child, value);
    let exited = waits_after_first(exiting, waits, 2, exit_args);
    assert(exited.wf());
    law_wait_returns_the_value(asking, exited, mem, wait_args);
    let asked = waits_after_first(asking, exited, 4, wait_args);
    assert(asked.wf());
    law_wait_returns_the_value(later, asked, mem, wait_args);
}

/// A parent that asks while the child lives is suspended, is ready when the child calls
/// `exit` (call 2), and gets the value of that call when it runs again; and -1 when it asks
/// again.
pub proof fn law_exit_value_is_awaited(
    asking: ManagerState,
    waits: TableState,
    mem: MemState,
    wait_args: Seq<usize>,
    exiting: ManagerState,
    exit_args: Seq<usize>,
    later: ManagerState,
    tid: isize,
    pending: Pending,
    reply: Reply,
)
    requires
        asking.wf(),
        waits_in_order(waits, asking),
        wait_args[0] as isize == exiting.current,
        exiting.current >= 0,
        waits.table.contains_key(exiting.current),
        waits.table[exiting.current].parent_tid == asking.current,
        !waits.table[exiting.current].waited,
        waits.table[exiting.current].child_alive,
        asking.threads[asking.current].status == Status::Running,
        exiting.current != asking.current,
        exiting.threads.contains_key(asking.current),
        exiting.threads[asking.current].status == Status::Blocked,
        later.current == asking.current,
        first_step(asking, waits, mem, 4, wait_args) matches StepState::Suspend { pending: p, .. }
            ==> pending@ == p,
    ensures
        ({
            let waiting = waits_after_first(asking, waits, 4, wait_args);
            let exited = waits_after_first(exiting, waiting, 2, exit_args);
            let collected = waits_after_next(later, exited, tid, pending, reply);
            &&& first_step(asking, waits, mem, 4, wait_args) is Suspend
            &&& threads_after_first(asking, waits, 4, wait_args).threads[asking.current].status
                == Status::Blocked
            &&& leaving(exiting, waiting).threads[asking.current].status == Status::Ready
            &&& next_step(later, exited, mem, tid, pending, reply) == StepState::Return(
                exit_args[0] as isize,
            )
            &&& threads_after_next(later, exited, tid, pending, reply) == later
            &&& first_step(later, collected, mem, 4, wait_args) == StepState::Return(-1isize)
        }),
{
    let child = exiting.current;
    let parent = asking.current;
    let closed = closed_on_exit(exiting);
    law_wait_before_exit(asking, waits, child, exit_args[0] as isize, closed, later);
    law_wait_answers(asking, waits, child);
    let waiting = waits_after_first(asking, waits, 4, wait_args);
    assert(pending@ == (PendingState::Wait { tid: child }));
    lemma_stopped(asking, Status::Blocked);
}

/// `halt` (call 1) shuts the machine down.
pub proof fn law_halt_shuts_down(
    manager: ManagerState,
    waits: TableState,
    mem: MemState,
    args: Seq<usize>,
)
    ensures
        first_step(manager, waits, mem, 1, args) == StepState::Shutdown,
        changes_nothing(manager, waits, 1, args),
{
}

/// `exit` (call 2) has every file closed that the process holds, by ascending descriptor,
/// and then the one that it runs, and hands the processor on after the thread has been
/// ended and its parent told.
pub proof fn law_exit_closes_and_leaves(
    manager: ManagerState,
    waits: TableState,
    mem: MemState,
    args: Seq<usize>,
    fd: isize,
)
    requires
        manager.wf(),
        manager.threads[manager.current].userproc is Some,
    ensures
        ({
            let proc = manager.threads[manager.current].userproc->0;
            let left = leaving(manager, waits);
            &&& first_step(manager, waits, mem, 2, args) matches StepState::Exited { files, switch }
            &&& proc.fds.contains_key(fd) ==> files.contains(proc.fds[fd].file)
            &&& proc.bin matches Some(bin) ==> files.len() > 0 && files.last() == bin
            &&& files == all_files(proc)
            &&& switch == left.switch()
            &&& threads_after_first(manager, waits, 2, args) == left.scheduled()
        }),
        waits_after_first(manager, waits, 2, args) == waits.exited(
            manager.current,
            closed_on_exit(manager),
            args[0] as isize,
        ),
{
    assert(manager.threads.contains_key(manager.current));
    law_exit_closes_everything(manager.threads[manager.current].userproc->0, fd);
}

/// There are twelve calls, from 1 to 12. Any other one fails and changes nothing.
pub proof fn law_there_are_twelve_calls(
    manager: ManagerState,
    waits: TableState,
    mem: MemState,
    id: usize,
    args: Seq<usize>,
)
    requires
        id == 0 || id > 12,
    ensures
        first_step(manager, waits, mem, id, args) == StepState::Return(-1isize),
        changes_nothing(manager, waits, id, args),
{
}

/// A call that waits goes on with an answer to what it has asked. Besides, a file needs
/// flags that are accepted and a descriptor that is left for it; a program a thread id that
/// is not in use, and a stack that is a page below its top; a parent a record of the child;
/// a read from the console a character that is missing; and a read from a file an answer
/// that fits into what it has asked to be filled.
pub proof fn law_calls_go_on_with_answers(
    manager: ManagerState,
    waits: TableState,
    tid: isize,
    pending: Pending,
    reply: Reply,
)
    ensures
        can_resume(manager, waits, tid, pending, reply) <==> match pending {
            Pending::Open { flags, .. } => {
                &&& reply is File
                &&& flags % 4 != 3
                &&& flags & 0x400 == 0 || flags % 4 != 0
                &&& manager.threads[manager.current].userproc matches Some(proc) ==> proc.next_fd
                    < isize::MAX
            },
            Pending::Remove => reply is Done,
            Pending::ExecOpen { .. } => reply is File,
            Pending::ExecLoad { .. } => {
                &&& reply is Loaded
                &&& !manager.threads.contains_key(tid)
                &&& reply->launch.stack + 16384 <= usize::MAX
                &&& reply->image matches Ok(image) ==> image.init_sp >= 4096 && (
                image.stack_page matches Some(page) ==> page@.len() == 4096)
            },
            Pending::Wait { tid: child } => {
                &&& reply is Running
                &&& manager.threads[manager.current].status != Status::Ready
                &&& waits.held.contains_key(child) || waits.table.contains_key(child)
            },
            Pending::ReadConsole { size, data, .. } => reply is Char && data@.len() < size,
            Pending::ReadYielded { .. } => reply is Running,
            Pending::ReadFile { size, .. } => {
                &&& reply is Read
                &&& reply->data@.len() == size
                &&& reply->count matches Ok(count) ==> count <= size
            },
            Pending::Count => reply is Count,
            Pending::Value(_) => reply is Done,
            Pending::Stat { .. } => reply is Stat,
        },
{
    if let Pending::Open { flags, .. } = pending {
        law_access_goes_by_the_lowest_bits(flags);
    }
}

} // verus!
