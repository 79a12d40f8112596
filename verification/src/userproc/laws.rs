//! What holds of user processes as a whole.

use vstd::prelude::*;
use vstd::utf8::valid_utf8;

use crate::keys::{keys_of, lemma_keys_exist};
use crate::mem::laws::{
    holds_text, holds_word, law_cstring_reads_back, law_string_is_there, law_word_is_there,
    law_word_reads_back,
};
use crate::mem::userbuf::MemState;
use crate::mem::word::{le_bytes, lemma_le_bytes_len, lemma_word_size, word_size};
use crate::mem::PG_SIZE;
use crate::sync::laws::{law_waiters_stay_in_order, lemma_stopped};
use crate::sync::sema::{lemma_foremost, SemaState};
use crate::thread::imp::{next_tid, Status, ThreadState};
use crate::thread::scheduler::priority::lemma_without;
use crate::thread::state::{lemma_with_thread_wf, lemma_woken_wf, ManagerState};
use crate::trap::argv::{arg_at, argv_at, is_argv, lemma_argv_is, MAX_ARG_BYTES};
use crate::trap::FrameState;
use crate::userproc::args::{
    arg_addr, arg_words, args_fit, args_frame, args_page, argv_addr, lemma_strings_shrink,
    lemma_strings_skip, lemma_strings_split, lemma_word_bytes_len, overwritten, strings, word_bytes,
};
use crate::userproc::children::{
    can_exit, closed_on_exit, has_exited, leaving, Awaiting, TableState, Wait, WaitState,
};
use crate::userproc::files::{all_files, open_files, FdEntry, File, ProcState, FIRST_FD};

verus! {

/* --------------------------------- Arguments -------------------------------- */

/// Whether a page stands in user memory from an address on.
pub open spec fn holds_page(mem: MemState, addr: int, page: Seq<u8>) -> bool {
    forall|i: int| 0 <= i < page.len() ==> (#[trigger] mem.load(addr + i)) == Some(page[i])
}

/// Whether some bytes can be an argument: they are text, without a zero.
pub open spec fn is_argument(arg: Seq<u8>) -> bool {
    valid_utf8(arg) && !arg.contains(0)
}

/// A part of a page is in memory where the page is.
proof fn lemma_holds_part(mem: MemState, addr: int, page: Seq<u8>, at: int, part: Seq<u8>)
    requires
        holds_page(mem, addr, page),
        0 <= at,
        at + part.len() <= page.len(),
        page.subrange(at, at + part.len()) == part,
    ensures
        mem.all_readable(addr + at, part.len()),
        mem.range(addr + at, part.len()) == part,
{
    assert forall|i: int| 0 <= i < part.len() implies (#[trigger] mem.load(addr + at + i)) == Some(
        part[i],
    ) by {
        assert(mem.load(addr + (at + i)) == Some(page[at + i]));
        assert(page.subrange(at, at + part.len())[i] == page[at + i]);
    }
    assert(mem.range(addr + at, part.len()) =~= part);
}

/// Each word of a list stands in its place among the bytes.
proof fn lemma_word_at(words: Seq<int>, k: int)
    requires
        0 <= k < words.len(),
    ensures
        0 <= k * word_size(),
        k * word_size() + word_size() <= word_bytes(words).len(),
        word_bytes(words).subrange(k * word_size(), k * word_size() + word_size()) == le_bytes(
            words[k] as nat,
            word_size(),
        ),
    decreases words.len(),
{
    let rest = words.drop_last();
    let w = word_size();
    let last = le_bytes(words.last() as nat, w);
    lemma_word_bytes_len(words);
    lemma_word_bytes_len(rest);
    lemma_le_bytes_len(words.last() as nat, w);
    assert(0 <= k * w && k * w + w <= words.len() * w) by (nonlinear_arith)
        requires
            0 <= k < words.len(),
            w >= 0,
    ;
    if k < rest.len() {
        lemma_word_at(rest, k);
        assert(word_bytes(words).subrange(k * w, k * w + w) =~= word_bytes(rest).subrange(
            k * w,
            k * w + w,
        ));
    } else {
        assert(word_bytes(words).subrange(k * w, k * w + w) =~= last);
    }
}

/// Where strings and vector lie: the vector below the strings, both within the page.
proof fn lemma_args_layout(args: Seq<Seq<u8>>, init_sp: int)
    requires
        args_fit(args, init_sp),
    ensures
        ({
            let vector = (args.len() + 1) * word_size();
            &&& init_sp - PG_SIZE <= argv_addr(args, init_sp)
            &&& argv_addr(args, init_sp) + vector <= arg_addr(args, init_sp, 0)
            &&& arg_addr(args, init_sp, 0) + strings(args).len() == init_sp
        }),
{
    assert(args.skip(0) =~= args);
}

/// Each string stands in its place on the page.
proof fn lemma_string_on_page(page: Seq<u8>, args: Seq<Seq<u8>>, init_sp: int, i: int)
    requires
        page.len() == PG_SIZE,
        args_fit(args, init_sp),
        0 <= i < args.len(),
    ensures
        ({
            let at = arg_addr(args, init_sp, i) - (init_sp - PG_SIZE);
            let filled = args_page(page, args, init_sp);
            let text = args[i].push(0);
            &&& filled.len() == PG_SIZE
            &&& 0 < at
            &&& at + text.len() <= PG_SIZE
            &&& filled.subrange(at, at + text.len()) == text
        }),
{
    let bottom = init_sp - PG_SIZE;
    let all = strings(args);
    let words = word_bytes(arg_words(args, init_sp));
    let at = arg_addr(args, init_sp, i) - bottom;
    let text = args[i].push(0);
    lemma_args_layout(args, init_sp);
    lemma_word_bytes_len(arg_words(args, init_sp));
    lemma_strings_split(args, i);
    lemma_strings_skip(args, i);
    lemma_strings_shrink(args, i);
    lemma_word_size();
    let start = arg_addr(args, init_sp, 0) - bottom;
    let with_strings = overwritten(page, start, all);
    let filled = args_page(page, args, init_sp);
    let before = strings(args.take(i)).len();
    assert(at == start + before);
    assert((args.len() + 1) * word_size() > 0) by (nonlinear_arith)
        requires
            word_size() > 0,
    ;
    assert forall|k: int| 0 <= k < text.len() implies #[trigger] filled.subrange(
        at,
        at + text.len(),
    )[k] == text[k] by {
        assert(filled[at + k] == with_strings[at + k]);
        assert(with_strings[at + k] == all[before + k]);
        assert(all[before + k] == strings(args.skip(i))[k]);
        assert(strings(args.skip(i))[k] == text[k]);
    }
    assert(filled.subrange(at, at + text.len()) =~= text);
}

/// Each word of the vector stands in its place on the page.
proof fn lemma_word_on_page(page: Seq<u8>, args: Seq<Seq<u8>>, init_sp: int, k: int)
    requires
        page.len() == PG_SIZE,
        args_fit(args, init_sp),
        0 <= k <= args.len(),
    ensures
        ({
            let at = argv_addr(args, init_sp) - (init_sp - PG_SIZE) + k * word_size();
            let filled = args_page(page, args, init_sp);
            &&& filled.len() == PG_SIZE
            &&& 0 <= at
            &&& at + word_size() <= PG_SIZE
            &&& filled.subrange(at, at + word_size()) == le_bytes(
                arg_words(args, init_sp)[k] as nat,
                word_size(),
            )
        }),
{
    let bottom = init_sp - PG_SIZE;
    let words = word_bytes(arg_words(args, init_sp));
    let start = argv_addr(args, init_sp) - bottom;
    let at = start + k * word_size();
    lemma_args_layout(args, init_sp);
    lemma_word_bytes_len(arg_words(args, init_sp));
    lemma_word_at(arg_words(args, init_sp), k);
    let filled = args_page(page, args, init_sp);
    assert(filled.subrange(at, at + word_size()) =~= words.subrange(
        k * word_size(),
        k * word_size() + word_size(),
    ));
}

/// A program finds its arguments: the vector that its registers point to leads to the
/// arguments that it was started with, all of them and in their order.
pub proof fn law_arguments_read_back(
    mem: MemState,
    page: Seq<u8>,
    args: Seq<Seq<u8>>,
    init_sp: int,
)
    requires
        page.len() == PG_SIZE,
        PG_SIZE <= init_sp <= usize::MAX,
        args.len() > 0,
        args_fit(args, init_sp),
        forall|i: int| 0 <= i < args.len() ==> is_argument(#[trigger] args[i]),
        holds_page(mem, init_sp - PG_SIZE, args_page(page, args, init_sp)),
    ensures
        argv_at(mem, argv_addr(args, init_sp)) == Some(args),
{
    let bottom = init_sp - PG_SIZE;
    let addr = argv_addr(args, init_sp);
    let filled = args_page(page, args, init_sp);
    let words = arg_words(args, init_sp);
    let w = word_size();
    lemma_word_size();
    lemma_args_layout(args, init_sp);
    assert forall|k: int| 0 <= k <= args.len() implies mem.word(addr + k * w) == Some(
        (#[trigger] words[k]) as usize,
    ) && 0 <= words[k] <= usize::MAX by {
        lemma_word_on_page(page, args, init_sp, k);
        if k < args.len() {
            lemma_string_on_page(page, args, init_sp, k);
        }
        let value = words[k] as usize;
        let at = addr - bottom + k * w;
        lemma_le_bytes_len(value as nat, w);
        lemma_holds_part(mem, bottom, filled, at, le_bytes(value as nat, w));
        assert(bottom + at == addr + k * w);
        law_word_reads_back(mem, addr + k * w, value);
    }
    assert forall|i: int| 0 <= i < args.len() implies arg_at(mem, addr, i) == Some(
        #[trigger] args[i],
    ) by {
        lemma_string_on_page(page, args, init_sp, i);
        lemma_strings_skip(args, i);
        lemma_strings_shrink(args, i);
        let at = arg_addr(args, init_sp, i) - bottom;
        lemma_holds_part(mem, bottom, filled, at, args[i].push(0));
        assert(words[i] == bottom + at);
        assert(is_argument(args[i]));
        law_cstring_reads_back(mem, words[i], args[i], MAX_ARG_BYTES as nat);
    }
    assert(words[args.len() as int] == 0);
    lemma_word_on_page(page, args, init_sp, 0);
    assert(filled.len() == PG_SIZE);
    assert(mem.load(bottom + 0) == Some(filled[0]));
    assert(args.len() < MAX_ARG_BYTES as nat / w) by {
        assert((args.len() + 1) * w <= PG_SIZE);
    }
    assert(is_argv(mem, addr, args));
    lemma_argv_is(mem, addr, args);
}

/// The bytes that some arguments take, each with a zero at its end.
pub open spec fn room(args: Seq<Seq<u8>>) -> nat
    decreases args.len(),
{
    if args.len() == 0 {
        0
    } else {
        args[0].len() + 1 + room(args.drop_first())
    }
}

/// The strings of some arguments take the room that they take, and each argument less.
pub proof fn lemma_room(args: Seq<Seq<u8>>)
    ensures
        strings(args).len() == room(args),
        forall|i: int| 0 <= i < args.len() ==> (#[trigger] args[i]).len() < room(args),
    decreases args.len(),
{
    if args.len() > 0 {
        let rest = args.drop_first();
        lemma_room(rest);
        assert forall|i: int| 0 <= i < args.len() implies (#[trigger] args[i]).len() < room(
            args,
        ) by {
            if i > 0 {
                assert(rest[i - 1] == args[i]);
            }
        }
    }
}

/// Whether each pointer of a vector leads to its argument, and null stands behind the last
/// one.
pub open spec fn pointers_lead_to(
    mem: MemState,
    addr: int,
    pointers: Seq<usize>,
    args: Seq<Seq<u8>>,
) -> bool {
    &&& pointers.len() == args.len()
    &&& holds_word(mem, addr + args.len() * word_size(), 0)
    &&& forall|i: int|
        #![trigger pointers[i]]
        #![trigger args[i]]
        0 <= i < args.len() ==> {
            &&& holds_word(mem, addr + i * word_size(), pointers[i])
            &&& holds_text(mem, pointers[i] as int, args[i])
        }
}

/// Whether some arguments, with a vector of pointers to them at `addr`, stand in user
/// memory: at least one, and no more than a page holds, of the pointers or of the bytes.
pub open spec fn vector_leads_to(mem: MemState, addr: int, args: Seq<Seq<u8>>) -> bool {
    &&& addr != 0
    &&& 0 < args.len() < 4096nat / word_size()
    &&& room(args) <= 4096
    &&& exists|pointers: Seq<usize>| #[trigger] pointers_lead_to(mem, addr, pointers, args)
}

/// The arguments that are read from user memory are those that the pointers lead to: all
/// of them, in their order, and byte by byte.
pub proof fn law_argv_is_there(mem: MemState, addr: int, args: Seq<Seq<u8>>)
    ensures
        argv_at(mem, addr) == Some(args) <==> vector_leads_to(mem, addr, args),
{
    lemma_room(args);
    let w = word_size();
    if argv_at(mem, addr) == Some(args) {
        assert(is_argv(mem, addr, args));
        let pointers = Seq::new(args.len(), |i: int| mem.word(addr + i * w)->0);
        law_word_is_there(mem, addr + args.len() * w, 0);
        assert forall|i: int|
            #![trigger pointers[i]]
            #![trigger args[i]]
            0 <= i < args.len() implies {
            &&& holds_word(mem, addr + i * w, pointers[i])
            &&& holds_text(mem, pointers[i] as int, args[i])
        } by {
            assert(arg_at(mem, addr, i) == Some(args[i]));
            law_word_is_there(mem, addr + i * w, pointers[i]);
            law_string_is_there(mem, pointers[i] as int, args[i], 4096);
        }
        assert(pointers_lead_to(mem, addr, pointers, args));
    }
    if vector_leads_to(mem, addr, args) {
        let pointers = choose|pointers: Seq<usize>| #[trigger]
            pointers_lead_to(mem, addr, pointers, args);
        law_word_is_there(mem, addr + args.len() * w, 0);
        assert forall|i: int| 0 <= i < args.len() implies arg_at(mem, addr, i) == Some(
            #[trigger] args[i],
        ) by {
            law_word_is_there(mem, addr + i * w, pointers[i]);
            law_string_is_there(mem, pointers[i] as int, args[i], 4096);
        }
        assert(is_argv(mem, addr, args));
        lemma_argv_is(mem, addr, args);
    }
}

/// Where the vector of some arguments begins on a stack that ends at `init_sp`: the strings
/// take the topmost bytes, and below them is room for the pointers and null, from the next
/// multiple of eight downwards to a multiple of sixteen.
pub open spec fn vector_start(args: Seq<Seq<u8>>, init_sp: int) -> int {
    let strings = init_sp - room(args);
    let end = strings - strings % 8;
    let start = end - (args.len() + 1) * word_size();
    start - start % 16
}

/// Arguments are accepted if and only if strings and vector have room on one page, and the
/// vector stands where it is said to.
pub proof fn law_arguments_need_a_page(args: Seq<Seq<u8>>, init_sp: int)
    ensures
        argv_addr(args, init_sp) == vector_start(args, init_sp),
        args_fit(args, init_sp) <==> room(args) <= 4096 && vector_start(args, init_sp) >= init_sp
            - 4096,
{
    lemma_room(args);
    assert(args.skip(0) =~= args);
}

/// A page with arguments on it is as long as any page.
pub proof fn lemma_filled_page(page: Seq<u8>, args: Seq<Seq<u8>>, init_sp: int)
    requires
        page.len() == PG_SIZE,
        args_fit(args, init_sp),
    ensures
        args_page(page, args, init_sp).len() == PG_SIZE,
{
    lemma_word_on_page(page, args, init_sp, 0);
}

/// Arguments on the stack of a program leave all bytes below the vector, and those between
/// the vector and the strings, as they were.
pub proof fn law_arguments_leave_the_rest(
    page: Seq<u8>,
    args: Seq<Seq<u8>>,
    init_sp: int,
    i: int,
)
    requires
        page.len() == PG_SIZE,
        args_fit(args, init_sp),
        0 <= i < PG_SIZE,
        ({
            let at = init_sp - PG_SIZE + i;
            let start = vector_start(args, init_sp);
            at < start || start + (args.len() + 1) * word_size() <= at < init_sp - room(args)
        }),
    ensures
        args_page(page, args, init_sp).len() == PG_SIZE,
        args_page(page, args, init_sp)[i] == page[i],
{
    law_arguments_need_a_page(args, init_sp);
    lemma_room(args);
    lemma_args_layout(args, init_sp);
    lemma_word_bytes_len(arg_words(args, init_sp));
    assert(args.skip(0) =~= args);
}

/// Where the arguments stand on the page: one behind the other up to its end, each with a
/// zero behind it, and in the vector the address of each, and null behind the last one.
pub proof fn law_arguments_fill_the_top(
    page: Seq<u8>,
    args: Seq<Seq<u8>>,
    init_sp: int,
    i: int,
)
    requires
        page.len() == PG_SIZE,
        PG_SIZE <= init_sp <= usize::MAX,
        args_fit(args, init_sp),
        0 <= i <= args.len(),
    ensures
        ({
            let filled = args_page(page, args, init_sp);
            let bottom = init_sp - PG_SIZE;
            let addr = init_sp - room(args.skip(i));
            let slot = vector_start(args, init_sp) + i * word_size() - bottom;
            let pointer = if i < args.len() {
                addr as nat
            } else {
                0
            };
            &&& filled.len() == PG_SIZE
            &&& 0 <= slot
            &&& slot + word_size() <= PG_SIZE
            &&& filled.subrange(slot, slot + word_size()) == le_bytes(pointer, word_size())
            &&& i < args.len() ==> {
                &&& bottom < addr
                &&& addr + args[i].len() < init_sp
                &&& filled.subrange(addr - bottom, addr - bottom + args[i].len() + 1)
                    == args[i].push(0)
            }
        }),
{
    law_arguments_need_a_page(args, init_sp);
    lemma_room(args.skip(i));
    lemma_word_on_page(page, args, init_sp, i);
    if i < args.len() {
        lemma_string_on_page(page, args, init_sp, i);
    }
}

/// The registers of a program with arguments: the stack pointer and the second argument
/// register lead to the vector, and the first one holds their number. No other changes.
pub proof fn law_argument_registers(frame: FrameState, argc: usize, argv: usize, r: int)
    requires
        frame.x.len() == 32,
        0 <= r < 32,
    ensures
        ({
            let after = args_frame(frame, argc as int, argv as int);
            &&& after.sepc == frame.sepc
            &&& after.x.len() == 32
            &&& after.x[r] == (if r == 2 || r == 11 {
                argv
            } else if r == 10 {
                argc
            } else {
                frame.x[r]
            })
        }),
{
}

/// The stack pointer that a program starts with is a multiple of sixteen.
pub proof fn law_stack_is_aligned(args: Seq<Seq<u8>>, init_sp: int)
    ensures
        argv_addr(args, init_sp) % 16 == 0,
{
}

/* -------------------------------- Descriptors ------------------------------- */

/// An opened file stands behind a descriptor that no other file has had, none of the
/// standard streams, and every other descriptor stays as it is.
pub proof fn law_open_gives_new_descriptor(proc: ProcState, entry: FdEntry)
    requires
        proc.wf(),
        proc.next_fd < isize::MAX,
    ensures
        proc.next_fd >= FIRST_FD,
        !proc.fds.contains_key(proc.next_fd),
        proc.opened(entry).fds.contains_key(proc.next_fd),
        proc.opened(entry).fds[proc.next_fd] == entry,
        proc.opened(entry).next_fd > proc.next_fd,
        proc.opened(entry).wf(),
        forall|fd: isize|
            fd != proc.next_fd ==> (#[trigger] proc.opened(entry).fds.contains_key(fd)
                <==> proc.fds.contains_key(fd)),
        forall|fd: isize|
            fd != proc.next_fd && proc.fds.contains_key(fd) ==> #[trigger] proc.opened(
                entry,
            ).fds[fd] == proc.fds[fd],
{
}

/// A closed descriptor is gone, is not handed out again, and every other descriptor
/// stays as it is.
pub proof fn law_close_ends_descriptor(proc: ProcState, fd: isize)
    requires
        proc.wf(),
        proc.fds.contains_key(fd),
    ensures
        !proc.closed(fd).fds.contains_key(fd),
        proc.closed(fd).next_fd == proc.next_fd,
        fd < proc.closed(fd).next_fd,
        proc.closed(fd).wf(),
        forall|other: isize|
            other != fd ==> (#[trigger] proc.closed(fd).fds.contains_key(other)
                <==> proc.fds.contains_key(other)),
{
}

/// Closing the descriptor of a file that has just been opened leaves the open files as
/// they were.
pub proof fn law_close_undoes_open(proc: ProcState, entry: FdEntry)
    requires
        proc.wf(),
        proc.next_fd < isize::MAX,
    ensures
        proc.opened(entry).closed(proc.next_fd).fds == proc.fds,
{
    assert(proc.opened(entry).closed(proc.next_fd).fds =~= proc.fds);
}

/// A process that ends has nothing open, and what it held is what is closed: the file of
/// each descriptor, and the executable.
pub proof fn law_exit_closes_everything(proc: ProcState, fd: isize)
    requires
        proc.wf(),
    ensures
        !proc.all_closed().fds.contains_key(fd),
        proc.all_closed().bin is None,
        proc.fds.contains_key(fd) ==> all_files(proc).contains(proc.fds[fd].file),
        proc.bin matches Some(bin) ==> all_files(proc).contains(bin),
{
    lemma_keys_exist(proc.fds, FIRST_FD as int, proc.next_fd as int);
    let keys = keys_of(proc.fds);
    let files = open_files(proc.fds);
    let all = all_files(proc);
    if proc.fds.contains_key(fd) {
        assert(keys.contains(fd));
        let i = choose|i: int| 0 <= i < keys.len() && keys[i] == fd;
        assert(files[i] == proc.fds[fd].file);
        assert(all[i] == proc.fds[fd].file);
    }
    if proc.bin is Some {
        assert(all[files.len() as int] == proc.bin->0);
    }
}

/// Nothing is closed on exit that the process did not hold, and each file once for each
/// descriptor.
pub proof fn law_exit_closes_nothing_else(proc: ProcState, i: int)
    requires
        proc.wf(),
        0 <= i < all_files(proc).len(),
    ensures
        ({
            let keys = keys_of(proc.fds);
            if i < keys.len() {
                &&& proc.fds.contains_key(keys[i])
                &&& all_files(proc)[i] == proc.fds[keys[i]].file
                &&& forall|j: int| 0 <= j < i ==> #[trigger] keys[j] < keys[i]
            } else {
                &&& i == keys.len()
                &&& proc.bin == Some(all_files(proc)[i])
            }
        }),
{
    lemma_keys_exist(proc.fds, FIRST_FD as int, proc.next_fd as int);
    let keys = keys_of(proc.fds);
    if i < keys.len() {
        assert(keys.contains(keys[i]));
    }
}

/* --------------------------------- Children -------------------------------- */

/// Whether a record fits the threads: somebody may still ask for it, whoever waits for
/// the child is blocked, once, and nobody waits for a child that has exited or that has
/// not been asked for.
pub open spec fn record_in_order(record: WaitState, manager: ManagerState) -> bool {
    &&& !record.should_reap()
    &&& record.exited.in_order(manager)
    &&& record.exited.waiters.len() > 0 ==> record.child_alive && record.waited
}

/// Whether the table fits the threads: each record does, a child has one record, and no
/// thread waits for two children at once.
pub open spec fn waits_in_order(waits: TableState, manager: ManagerState) -> bool {
    &&& waits.wf()
    &&& waits.disjoint()
    &&& forall|c: isize| #[trigger]
        waits.table.contains_key(c) ==> record_in_order(waits.table[c], manager)
    &&& forall|c: isize, d: isize, t: isize|
        waits.table.contains_key(c) && waits.table.contains_key(d)
            && #[trigger] waits.table[c].exited.waiters.contains(t)
            && #[trigger] waits.table[d].exited.waiters.contains(t) ==> c == d
}

/// A process can always exit, as long as the table fits the threads.
pub proof fn law_process_can_exit(manager: ManagerState, waits: TableState)
    requires
        waits_in_order(waits, manager),
        manager.running().status == Status::Running,
        manager.running().userproc is Some,
        waits.table.contains_key(manager.current) ==> waits.table[manager.current].child_alive,
    ensures
        can_exit(manager, waits),
{
    if waits.table.contains_key(manager.current) {
        let sema = waits.table[manager.current].exited;
        if sema.waiters.len() > 0 {
            lemma_foremost(sema.priorities(manager));
        }
    }
}

/// A thread that runs waits for no child.
proof fn lemma_running_waits_for_none(manager: ManagerState, waits: TableState, c: isize)
    requires
        waits_in_order(waits, manager),
        manager.running().status == Status::Running,
        waits.table.contains_key(c),
    ensures
        !waits.table[c].exited.waiters.contains(manager.current),
{
    let waiters = waits.table[c].exited.waiters;
    assert(record_in_order(waits.table[c], manager));
    if waiters.contains(manager.current) {
        let i = choose|i: int| 0 <= i < waiters.len() && waiters[i] == manager.current;
        assert(manager.threads[waiters[i]].status == Status::Blocked);
    }
}

/// Records fit the threads as long as those that wait stay blocked.
proof fn lemma_still_in_order(record: WaitState, before: ManagerState, after: ManagerState)
    requires
        record_in_order(record, before),
        forall|t: isize| #[trigger]
            record.exited.waiters.contains(t) ==> after.threads.contains_key(t)
                && after.threads[t].status == Status::Blocked,
    ensures
        record_in_order(record, after),
{
    let waiters = record.exited.waiters;
    assert forall|i: int| 0 <= i < waiters.len() implies after.threads.contains_key(
        #[trigger] waiters[i],
    ) && after.threads[waiters[i]].status == Status::Blocked by {
        assert(waiters.contains(waiters[i]));
    }
}

/// The threads that wait for a child are known and blocked.
proof fn lemma_waiters_blocked(record: WaitState, manager: ManagerState, t: isize)
    requires
        record_in_order(record, manager),
        record.exited.waiters.contains(t),
    ensures
        manager.threads.contains_key(t),
        manager.threads[t].status == Status::Blocked,
{
    let waiters = record.exited.waiters;
    let i = choose|i: int| 0 <= i < waiters.len() && waiters[i] == t;
    assert(manager.threads.contains_key(waiters[i]));
}

/// The id of a new child is new to the table, and all children are below the id after
/// it. After the highest id comes the lowest, so that child is left out.
pub proof fn law_child_ids_are_new(waits: TableState, next: isize, parent: isize)
    requires
        waits.below(next),
    ensures
        !waits.table.contains_key(next),
        !waits.held.contains_key(next),
        next < isize::MAX ==> waits.inserted(next, parent).below(next_tid(next)),
{
}

/// Nothing that happens to the children gives one an id that is not below the next one.
pub proof fn law_children_stay_below(
    manager: ManagerState,
    waits: TableState,
    next: isize,
    child: isize,
    value: isize,
    stage: Awaiting,
)
    requires
        waits.below(next),
        stage == Awaiting::Blocked ==> waits.held.contains_key(child)
            || waits.table.contains_key(child),
    ensures
        waits.exited(child, manager, value).below(next),
        waits.after_wait(manager, child, stage).below(next),
        waits.orphaned(child).below(next),
        waits.reaped(child).below(next),
{
}

/// Making a child keeps the table fitting the threads.
pub proof fn law_new_child_keeps_order(
    manager: ManagerState,
    waits: TableState,
    child: isize,
    thread: ThreadState,
)
    requires
        manager.wf(),
        waits_in_order(waits, manager),
        waits.below(child),
        thread.tid == child,
        !manager.threads.contains_key(child),
    ensures
        waits_in_order(
            waits.inserted(child, manager.current),
            manager.registered(thread),
        ),
{
    let after = waits.inserted(child, manager.current);
    let threads = manager.registered(thread);
    assert forall|c: isize| #[trigger] after.table.contains_key(c) implies record_in_order(
        after.table[c],
        threads,
    ) by {
        if c != child {
            assert(record_in_order(waits.table[c], manager));
            assert forall|t: isize| #[trigger]
                waits.table[c].exited.waiters.contains(t) implies threads.threads.contains_key(t)
                && threads.threads[t].status == Status::Blocked by {
                lemma_waiters_blocked(waits.table[c], manager, t);
            }
            lemma_still_in_order(waits.table[c], manager, threads);
        }
    }
    assert forall|c: isize, d: isize, t: isize|
        after.table.contains_key(c) && after.table.contains_key(d)
            && #[trigger] after.table[c].exited.waiters.contains(t)
            && #[trigger] after.table[d].exited.waiters.contains(t) implies c == d by {
        assert(waits.table[c].exited.waiters.contains(t));
        assert(waits.table[d].exited.waiters.contains(t));
    }
}

/// Waiting for a child keeps the table fitting the threads.
pub proof fn law_wait_keeps_order(
    manager: ManagerState,
    waits: TableState,
    child: isize,
    stage: Awaiting,
)
    requires
        manager.wf(),
        waits_in_order(waits, manager),
        manager.running().status == Status::Running,
        stage == Awaiting::Blocked ==> waits.held.contains_key(child) || (
        waits.table.contains_key(child) && waits.table[child].waited),
    ensures
        waits_in_order(
            waits.after_wait(manager, child, stage),
            waits.threads_after_wait(manager, child, stage),
        ),
{
    let current = manager.current;
    let after = waits.after_wait(manager, child, stage);
    let threads = waits.threads_after_wait(manager, child, stage);
    lemma_stopped(manager, Status::Blocked);
    assert forall|c: isize| #[trigger] after.table.contains_key(c) implies record_in_order(
        after.table[c],
        threads,
    ) && waits.table.contains_key(c) && forall|t: isize| #[trigger]
        after.table[c].exited.waiters.contains(t) ==> waits.table[c].exited.waiters.contains(t) || (
        c == child && t == current) by {
        let before = waits.table[c];
        let record = after.table[c];
        assert(waits.table.contains_key(c));
        assert(record_in_order(before, manager));
        lemma_running_waits_for_none(manager, waits, c);
        lemma_without(before.exited.waiters, current);
        assert forall|t: isize| #[trigger]
            before.exited.waiters.contains(t) implies threads.threads.contains_key(t)
            && threads.threads[t].status == Status::Blocked by {
            lemma_waiters_blocked(before, manager, t);
        }
        lemma_still_in_order(before, manager, threads);
        if record.exited != before.exited {
            assert(c == child);
            assert(record.exited == before.exited.downed(current));
            law_waiters_stay_in_order(before.exited, manager);
            if before.exited.value == 0 {
                assert(threads == before.exited.after_down(manager));
                assert(record.exited.waiters == before.exited.waiters.push(current));
                assert(record.waited && record.child_alive);
            } else {
                assert(record.exited.waiters == before.exited.waiters);
            }
            assert forall|t: isize| #[trigger]
                record.exited.waiters.contains(t) implies before.exited.waiters.contains(t) || t
                == current by {
                let i = choose|i: int|
                    0 <= i < record.exited.waiters.len() && record.exited.waiters[i] == t;
                if i < before.exited.waiters.len() {
                    assert(before.exited.waiters[i] == record.exited.waiters[i]);
                }
            }
        }
        assert(record_in_order(record, threads));
    }
    assert forall|c: isize, d: isize, t: isize|
        after.table.contains_key(c) && after.table.contains_key(d)
            && #[trigger] after.table[c].exited.waiters.contains(t)
            && #[trigger] after.table[d].exited.waiters.contains(t) implies c == d by {
        if t == current {
            lemma_running_waits_for_none(manager, waits, c);
            lemma_running_waits_for_none(manager, waits, d);
        }
    }
}

/// The end of a parent keeps the table fitting the threads.
pub proof fn law_parent_exit_keeps_order(manager: ManagerState, waits: TableState, parent: isize)
    requires
        waits_in_order(waits, manager),
    ensures
        waits_in_order(waits.orphaned(parent), manager),
{
    let after = waits.orphaned(parent);
    assert forall|c: isize| #[trigger] after.table.contains_key(c) implies record_in_order(
        after.table[c],
        manager,
    ) by {
        assert(record_in_order(waits.table[c], manager));
    }
    assert forall|c: isize, d: isize, t: isize|
        after.table.contains_key(c) && after.table.contains_key(d)
            && #[trigger] after.table[c].exited.waiters.contains(t)
            && #[trigger] after.table[d].exited.waiters.contains(t) implies c == d by {
        assert(waits.table[c].exited.waiters.contains(t));
        assert(waits.table[d].exited.waiters.contains(t));
    }
}

/// The exit of a process keeps the table fitting the threads.
pub proof fn law_exit_keeps_order(manager: ManagerState, waits: TableState, value: isize)
    requires
        manager.wf(),
        waits_in_order(waits, manager),
        can_exit(manager, waits),
        waits.table.contains_key(manager.current) ==> waits.table[manager.current].child_alive,
    ensures
        waits_in_order(
            waits.exited(manager.current, closed_on_exit(manager), value),
            leaving(manager, waits).scheduled(),
        ),
{
    let current = manager.current;
    let closed = closed_on_exit(manager);
    let signaled = waits.after_exit(current, closed);
    let after = waits.exited(current, closed, value);
    let threads = leaving(manager, waits).scheduled();
    lemma_with_thread_wf(manager, current, closed.threads[current]);
    if waits.table.contains_key(current) {
        let record = waits.table[current];
        assert(record_in_order(record, manager));
        assert(record.exited.priorities(closed) =~= record.exited.priorities(manager));
        assert forall|t: isize| #[trigger]
            record.exited.waiters.contains(t) implies closed.threads.contains_key(t)
            && closed.threads[t].status == Status::Blocked by {
            lemma_waiters_blocked(record, manager, t);
        }
        lemma_still_in_order(record, manager, closed);
        if record.exited.waiters.len() > 0 {
            lemma_foremost(record.exited.priorities(closed));
            let woken = record.exited.next_waiter(closed)->0;
            let i = record.exited.highest(closed)->0;
            assert(record.exited.waiters[i] == woken);
            assert(record.exited.waiters.contains(woken));
            lemma_waiters_blocked(record, manager, woken);
            lemma_woken_wf(closed, woken);
        }
    }
    assert(signaled.wf());
    assert(signaled.current == current);
    assert(signaled.running().status == Status::Running);
    lemma_stopped(signaled, Status::Dying);
    assert forall|c: isize| #[trigger] after.table.contains_key(c) implies record_in_order(
        after.table[c],
        threads,
    ) && waits.table.contains_key(c) && (c != current ==> after.table[c] == waits.table[c]) && (c
        == current ==> after.table[c].exited.waiters.len() == 0) by {
        let record = waits.table[c];
        assert(record_in_order(record, manager));
        if c != current {
            assert forall|t: isize| #[trigger]
                record.exited.waiters.contains(t) implies threads.threads.contains_key(t)
                && threads.threads[t].status == Status::Blocked by {
                lemma_waiters_blocked(record, manager, t);
                assert(closed.threads[t].status == Status::Blocked);
                // The parent that is woken up waits for the child that exits, and so
                // for no other.
                if waits.table.contains_key(current) && waits.table[current].exited.waiters.len()
                    > 0 {
                    let own = waits.table[current].exited;
                    lemma_foremost(own.priorities(closed));
                    let i = own.highest(closed)->0;
                    assert(own.waiters.contains(own.waiters[i]));
                    assert(t != own.waiters[i]);
                }
                assert(signaled.threads[t].status == Status::Blocked);
            }
            lemma_still_in_order(record, manager, threads);
        }
    }
    assert forall|c: isize, d: isize, t: isize|
        after.table.contains_key(c) && after.table.contains_key(d)
            && #[trigger] after.table[c].exited.waiters.contains(t)
            && #[trigger] after.table[d].exited.waiters.contains(t) implies c == d by {
        if c != current && d != current {
            assert(waits.table[c].exited.waiters.contains(t));
            assert(waits.table[d].exited.waiters.contains(t));
        }
    }
}

/// A parent that waits after the child has exited gets the exit value at once.
pub proof fn law_wait_after_exit(
    manager: ManagerState,
    waits: TableState,
    child: isize,
    value: isize,
    later: ManagerState,
)
    requires
        child >= 0,
        waits.table.contains_key(child),
        !waits.table[child].waited,
        waits.table[child].parent_alive,
        later.current == waits.table[child].parent_tid,
    ensures
        waits.exited(child, manager, value).wait_answer(later, child, Awaiting::Enter)
            == Wait::Return(Some(value)),
        !waits.exited(child, manager, value).after_wait(
            later,
            child,
            Awaiting::Enter,
        ).table.contains_key(child),
{
}

/// A parent that waits for a child that lives is blocked; when the child exits it becomes
/// ready, and gets the exit value once it runs.
pub proof fn law_wait_before_exit(
    manager: ManagerState,
    waits: TableState,
    child: isize,
    value: isize,
    exiting: ManagerState,
    later: ManagerState,
)
    requires
        manager.wf(),
        waits_in_order(waits, manager),
        child >= 0,
        waits.table.contains_key(child),
        waits.table[child].parent_tid == manager.current,
        !waits.table[child].waited,
        waits.table[child].child_alive,
        exiting.threads.contains_key(manager.current),
        exiting.threads[manager.current].status == Status::Blocked,
        later.current == manager.current,
    ensures
        waits.wait_answer(manager, child, Awaiting::Enter) is Blocked,
        ({
            let waiting = waits.after_wait(manager, child, Awaiting::Enter);
            let done = waiting.exited(child, exiting, value);
            &&& waiting.table[child].exited.can_up(exiting)
            &&& waiting.after_exit(child, exiting).threads[manager.current].status == Status::Ready
            &&& done.wait_answer(later, child, Awaiting::Blocked) == Wait::Return(Some(value))
            &&& !done.after_wait(later, child, Awaiting::Blocked).table.contains_key(child)
            &&& !done.after_wait(later, child, Awaiting::Blocked).held.contains_key(child)
        }),
{
    let waiting = waits.after_wait(manager, child, Awaiting::Enter);
    let sema = waiting.table[child].exited;
    let parent = manager.current;
    assert(record_in_order(waits.table[child], manager));
    assert(sema.waiters =~= seq![parent]);
    assert(sema.priorities(exiting).len() == 1);
    lemma_foremost(sema.priorities(exiting));
    assert(sema.next_waiter(exiting) == Some(parent));
}

/// Nobody can wait twice for a child.
pub proof fn law_second_wait_is_refused(
    manager: ManagerState,
    waits: TableState,
    child: isize,
    later: ManagerState,
)
    requires
        waits.wf(),
        !waits.refused(child, manager.current),
    ensures
        waits.after_wait(manager, child, Awaiting::Enter).wait_answer(
            later,
            child,
            Awaiting::Enter,
        ) == Wait::Return(None),
{
}

/// Nobody but its parent can wait for a process, and there are no processes below zero.
pub proof fn law_only_parents_wait(manager: ManagerState, waits: TableState, child: isize)
    requires
        child < 0 || !waits.table.contains_key(child) || waits.table[child].parent_tid
            != manager.current,
    ensures
        waits.wait_answer(manager, child, Awaiting::Enter) == Wait::Return(None),
        waits.after_wait(manager, child, Awaiting::Enter) == waits,
        waits.threads_after_wait(manager, child, Awaiting::Enter) == manager,
{
}

/// Whether `parent` is inside `wait` for a child: the record, with the mark that it has
/// asked, is in the table as long as the child lives, and in its hands from then on.
pub open spec fn owed(waits: TableState, child: isize, parent: isize) -> bool {
    if waits.held.contains_key(child) {
        waits.held[child].parent_tid == parent && waits.held[child].waited
    } else {
        &&& waits.table.contains_key(child)
        &&& waits.table[child].parent_tid == parent
        &&& waits.table[child].waited
        &&& waits.table[child].child_alive
    }
}

/// A parent that is blocked over a child is owed an answer.
pub proof fn law_blocked_parent_is_owed(manager: ManagerState, waits: TableState, child: isize)
    requires
        waits.disjoint(),
        waits.wait_answer(manager, child, Awaiting::Enter) is Blocked,
    ensures
        owed(waits.after_wait(manager, child, Awaiting::Enter), child, manager.current),
{
}

/// What is owed to a parent stays owed until it collects it: whatever other threads do,
/// the record is in the table or in its hands, so that the parent may always go on with
/// `wait`. Others may wait for children of their own, exit, make children, and end as
/// parents; the child itself may exit.
pub proof fn law_answer_stays_owed(
    manager: ManagerState,
    waits: TableState,
    child: isize,
    parent: isize,
    other: isize,
    value: isize,
    stage: Awaiting,
    maker: isize,
    next: isize,
)
    requires
        waits.disjoint(),
        owed(waits, child, parent),
        stage == Awaiting::Blocked ==> other != child,
    ensures
        waits.held.contains_key(child) || waits.table.contains_key(child),
        owed(waits.after_wait(manager, other, stage), child, parent),
        owed(waits.exited(other, manager, value), child, parent),
        waits.below(next) ==> owed(waits.inserted(next, maker), child, parent),
        owed(waits.orphaned(other), child, parent),
        owed(waits.reaped(other), child, parent),
{
}

/// A parent that goes on with `wait` has its answer, or is blocked again and is still
/// owed it.
pub proof fn law_owed_answer_is_collected(
    manager: ManagerState,
    waits: TableState,
    child: isize,
)
    requires
        waits.wf(),
        waits.disjoint(),
        owed(waits, child, manager.current),
    ensures
        match waits.wait_answer(manager, child, Awaiting::Blocked) {
            Wait::Return(value) => value == Some(waits.in_hand(child).exit_value())
                && !waits.in_hand(child).child_alive,
            Wait::Blocked(_) => owed(
                waits.after_wait(manager, child, Awaiting::Blocked),
                child,
                manager.current,
            ),
        },
{
}

/// A new child has its maker as the parent, and can be waited for.
pub proof fn law_new_child_can_be_waited_for(manager: ManagerState, waits: TableState, child: isize)
    requires
        child >= 0,
    ensures
        !waits.inserted(child, manager.current).refused(child, manager.current),
        waits.inserted(child, manager.current).table[child].child_alive,
{
}

/// No record outlives its use: when a child has exited and its parent has gone, in
/// whatever order, the table holds nothing of the child any more.
pub proof fn law_orphans_leave_no_record(
    manager: ManagerState,
    waits: TableState,
    child: isize,
    value: isize,
)
    requires
        waits.table.contains_key(child),
    ensures
        ({
            let parent = waits.table[child].parent_tid;
            &&& !waits.orphaned(parent).exited(child, manager, value).table.contains_key(child)
            &&& !waits.exited(child, manager, value).orphaned(parent).table.contains_key(child)
        }),
{
}

/// The end of a parent concerns its own children only.
pub proof fn law_other_children_stay(waits: TableState, parent: isize, child: isize)
    requires
        waits.table.contains_key(child),
        waits.table[child].parent_tid != parent,
    ensures
        waits.orphaned(parent).table.contains_key(child),
        waits.orphaned(parent).table[child] == waits.table[child],
{
}

/* ------------------------------ Record by record --------------------------- */

/// What an exit leaves of the record of the child: the value, for a parent that may still
/// ask in the table, for one that has asked in its hands, and nothing where the parent has
/// gone without asking. No other record changes, and one more may pass the semaphore.
pub proof fn law_exit_is_recorded(
    manager: ManagerState,
    waits: TableState,
    child: isize,
    value: isize,
)
    ensures
        ({
            let after = waits.exited(child, manager, value);
            let before = waits.table[child];
            let done = |record: WaitState|
                {
                    &&& record.exit_status == Some(value)
                    &&& !record.child_alive
                    &&& record.parent_tid == before.parent_tid
                    &&& record.parent_alive == before.parent_alive
                    &&& record.waited == before.waited
                    &&& record.exited == before.exited.upped(manager)
                    &&& record.exited.value == (before.exited.value + 1) as usize
                };
            &&& !waits.table.contains_key(child) ==> after == waits
            &&& waits.table.contains_key(child) ==> {
                &&& after.table.contains_key(child) <==> before.parent_alive && !before.waited
                &&& after.table.contains_key(child) ==> done(after.table[child])
                &&& before.waited ==> after.held.contains_key(child) && done(after.held[child])
                &&& !before.waited ==> after.held == waits.held
            }
            &&& after.table.remove(child) == waits.table.remove(child)
            &&& after.held.remove(child) == waits.held.remove(child)
        }),
{
    let after = waits.exited(child, manager, value);
    assert(after.table.remove(child) =~= waits.table.remove(child));
    assert(after.held.remove(child) =~= waits.held.remove(child));
}

/// What a first wait answers: nothing to one who is not the parent, for a child below zero
/// and for a second time; the exit value, or -1 where there is none, for a child that has
/// exited; and it blocks for one that lives. No other record changes.
pub proof fn law_wait_answers(manager: ManagerState, waits: TableState, child: isize)
    requires
        waits.wf(),
    ensures
        ({
            let record = waits.table[child];
            let caller = manager.current;
            let answer = waits.wait_answer(manager, child, Awaiting::Enter);
            let after = waits.after_wait(manager, child, Awaiting::Enter);
            let threads = waits.threads_after_wait(manager, child, Awaiting::Enter);
            let may_ask = child >= 0 && waits.table.contains_key(child) && record.parent_tid
                == caller && !record.waited;
            &&& !may_ask ==> answer == Wait::Return(None) && after == waits && threads == manager
            &&& may_ask && !record.child_alive ==> {
                &&& record.exit_status is Some
                &&& answer == Wait::Return(record.exit_status)
                &&& after == (TableState { table: waits.table.remove(child), held: waits.held })
                &&& threads == manager
            }
            &&& may_ask && record.child_alive ==> {
                let blocked = ManagerState {
                    threads: manager.threads.insert(
                        caller,
                        ThreadState { status: Status::Blocked, ..manager.threads[caller] },
                    ),
                    ..manager
                };
                let waiters = if record.exited.waiters.contains(caller) {
                    record.exited.waiters
                } else {
                    record.exited.waiters.push(caller)
                };
                let asked = WaitState {
                    parent_tid: record.parent_tid,
                    exit_status: None,
                    child_alive: true,
                    parent_alive: record.parent_alive,
                    waited: true,
                    exited: SemaState { value: 0, waiters },
                };
                &&& answer == Wait::Blocked(blocked.switch())
                &&& after == (TableState {
                    table: waits.table.insert(child, asked),
                    held: waits.held,
                })
                &&& threads == blocked.scheduled()
            }
        }),
{
    let after = waits.after_wait(manager, child, Awaiting::Enter);
    if !waits.table[child].child_alive {
        assert(waits.asked(child).table.remove(child) =~= waits.table.remove(child));
    }
}

/// What a parent that goes on with a wait gets: the exit value from the record that it has
/// in hand, or that is still in the table, and the record is gone. Where the child has not
/// exited yet it blocks again. No other record changes.
pub proof fn law_wait_goes_on(manager: ManagerState, waits: TableState, child: isize)
    requires
        waits.wf(),
        waits.held.contains_key(child) || waits.table.contains_key(child),
        waits.held.contains_key(child) ==> waits.held[child].exited.value > 0,
    ensures
        ({
            let answer = waits.wait_answer(manager, child, Awaiting::Blocked);
            let after = waits.after_wait(manager, child, Awaiting::Blocked);
            let threads = waits.threads_after_wait(manager, child, Awaiting::Blocked);
            &&& waits.held.contains_key(child) ==> {
                &&& waits.held[child].exit_status is Some
                &&& answer == Wait::Return(waits.held[child].exit_status)
                &&& after.held == waits.held.remove(child)
                &&& threads == manager
            }
            &&& !waits.held.contains_key(child) && !waits.table[child].child_alive
                && waits.table[child].exited.value > 0 ==> {
                &&& waits.table[child].exit_status is Some
                &&& answer == Wait::Return(waits.table[child].exit_status)
                &&& after.table.contains_key(child) <==> waits.table[child].parent_alive
                    && !waits.table[child].waited
                &&& threads == manager
            }
            &&& !waits.held.contains_key(child) && waits.table[child].child_alive ==> {
                let blocked = ManagerState {
                    threads: manager.threads.insert(
                        manager.current,
                        ThreadState {
                            status: Status::Blocked,
                            ..manager.threads[manager.current]
                        },
                    ),
                    ..manager
                };
                &&& answer == Wait::Blocked(blocked.switch())
                &&& threads == blocked.scheduled()
                &&& after.table.contains_key(child)
                &&& after.table[child] == (WaitState {
                    exited: after.table[child].exited,
                    ..waits.table[child]
                })
                &&& after.table[child].exited.value == 0
                &&& after.table[child].exited.waiters == (
                if waits.table[child].exited.waiters.contains(manager.current) {
                    waits.table[child].exited.waiters
                } else {
                    waits.table[child].exited.waiters.push(manager.current)
                })
            }
            &&& after.table.remove(child) == waits.table.remove(child)
            &&& after.held.remove(child) == waits.held.remove(child)
        }),
{
    let after = waits.after_wait(manager, child, Awaiting::Blocked);
    assert(after.table.remove(child) =~= waits.table.remove(child));
    assert(after.held.remove(child) =~= waits.held.remove(child));
    if waits.held.contains_key(child) {
        assert(after.held =~= waits.held.remove(child));
    }
}

/// What the end of a parent leaves of the records: its living children learn that it has
/// gone, the records of the dead ones go with it, and no other record changes.
pub proof fn law_parents_leave(waits: TableState, parent: isize, child: isize)
    ensures
        ({
            let after = waits.orphaned(parent);
            let mine = waits.table.contains_key(child) && waits.table[child].parent_tid == parent;
            &&& mine && !waits.table[child].child_alive ==> !after.table.contains_key(child)
            &&& mine && waits.table[child].child_alive ==> {
                &&& after.table.contains_key(child)
                &&& after.table[child] == (WaitState {
                    parent_alive: false,
                    ..waits.table[child]
                })
            }
            &&& !mine ==> (after.table.contains_key(child) <==> waits.table.contains_key(child))
            &&& !mine && waits.table.contains_key(child) ==> after.table[child]
                == waits.table[child]
            &&& after.held == waits.held
        }),
{
}

/// A record is dropped if and only if the child has exited, and the parent has gone or has
/// asked; and no other record is.
pub proof fn law_records_are_dropped(waits: TableState, child: isize)
    ensures
        ({
            let record = waits.table[child];
            let useless = waits.table.contains_key(child) && !record.child_alive && (
            !record.parent_alive || record.waited);
            waits.reaped(child) == (TableState {
                table: if useless {
                    waits.table.remove(child)
                } else {
                    waits.table
                },
                held: waits.held,
            })
        }),
{
}

/// What a process that exits does to the threads: it has nothing open any more and does
/// not run again, the parent that waits for it is ready, and the processor is handed on.
pub proof fn law_exit_ends_the_thread(manager: ManagerState, waits: TableState, parent: isize)
    requires
        manager.wf(),
        can_exit(manager, waits),
        waits.table.contains_key(manager.current),
        waits.table[manager.current].exited.waiters == seq![parent],
        parent != manager.current,
    ensures
        ({
            let me = manager.threads[manager.current];
            let after = leaving(manager, waits);
            &&& after.threads[manager.current] == (ThreadState {
                status: Status::Dying,
                userproc: Some(
                    ProcState {
                        bin: None,
                        fds: Map::empty(),
                        next_fd: me.userproc->0.next_fd,
                    },
                ),
                ..me
            })
            &&& after.threads[parent] == (ThreadState {
                status: Status::Ready,
                ..manager.threads[parent]
            })
            &&& forall|t: isize|
                t != manager.current && t != parent ==> (#[trigger] after.threads.contains_key(t)
                    <==> manager.threads.contains_key(t)) && after.threads[t]
                    == manager.threads[t]
            &&& after.current == manager.current
            &&& after.ready == manager.ready.update(
                manager.threads[parent].priority as int,
                manager.ready[manager.threads[parent].priority as int].push(parent),
            )
            &&& after.holders == manager.holders
        }),
{
    let sema = waits.table[manager.current].exited;
    let closed = closed_on_exit(manager);
    assert(sema.waiters[0] == parent);
    assert(sema.priorities(closed).len() == 1);
    lemma_foremost(sema.priorities(closed));
    assert(sema.next_waiter(closed) == Some(parent));
}

/// A process for which nobody waits ends without a change to any other thread.
pub proof fn law_exit_concerns_nobody_else(manager: ManagerState, waits: TableState)
    requires
        manager.wf(),
        can_exit(manager, waits),
        !waits.table.contains_key(manager.current)
            || waits.table[manager.current].exited.waiters.len() == 0,
    ensures
        ({
            let me = manager.threads[manager.current];
            let gone = ThreadState {
                status: Status::Dying,
                userproc: Some(
                    ProcState {
                        bin: None,
                        fds: Map::empty(),
                        next_fd: me.userproc->0.next_fd,
                    },
                ),
                ..me
            };
            leaving(manager, waits) == (ManagerState {
                threads: manager.threads.insert(manager.current, gone),
                ..manager
            })
        }),
{
    let me = manager.threads[manager.current];
    let gone = leaving(manager, waits).threads[manager.current];
    assert(leaving(manager, waits).threads =~= manager.threads.insert(manager.current, gone));
}

/// A process can exit if and only if the running thread has one and runs, and whoever is to
/// be woken up with the exit can be. A thread is to be buried if and only if it has exited
/// and the processor has left it.
pub proof fn law_who_can_leave(manager: ManagerState, waits: TableState, tid: isize)
    ensures
        can_exit(manager, waits) <==> {
            &&& manager.threads[manager.current].userproc is Some
            &&& manager.threads[manager.current].status == Status::Running
            &&& waits.table.contains_key(manager.current)
                ==> waits.table[manager.current].exited.can_up(manager)
        },
        has_exited(manager, tid) <==> {
            &&& manager.threads.contains_key(tid)
            &&& manager.threads[tid].status == Status::Dying
            &&& tid != manager.current
        },
{
}

/// The record of a new child: its parent is the one who has made it, both live, and nobody
/// has asked or waits. It comes to those that are there.
pub proof fn law_new_record(waits: TableState, child: isize, parent: isize)
    ensures
        waits.inserted(child, parent) == (TableState {
            table: waits.table.insert(
                child,
                WaitState {
                    parent_tid: parent,
                    exit_status: None,
                    child_alive: true,
                    parent_alive: true,
                    waited: false,
                    exited: SemaState { value: 0, waiters: Seq::empty() },
                },
            ),
            held: waits.held,
        }),
{
}

/// What a process holds after each change: a new one runs its file and has opened nothing;
/// an opened file comes under the next descriptor; a closed one goes; and at the end there
/// is nothing left.
pub proof fn law_what_a_process_holds(
    proc: ProcState,
    file: File,
    entry: FdEntry,
    fd: isize,
)
    ensures
        ProcState::fresh(file) == (ProcState { bin: Some(file), fds: Map::empty(), next_fd: 3 }),
        proc.next_fd < isize::MAX ==> proc.opened(entry) == (ProcState {
            bin: proc.bin,
            fds: proc.fds.insert(proc.next_fd, entry),
            next_fd: (proc.next_fd + 1) as isize,
        }),
        proc.closed(fd) == (ProcState {
            bin: proc.bin,
            fds: proc.fds.remove(fd),
            next_fd: proc.next_fd,
        }),
        proc.all_closed() == (ProcState {
            bin: None,
            fds: Map::empty(),
            next_fd: proc.next_fd,
        }),
{
}

} // verus!
