//! The arguments of a user program, on its stack.

use vstd::prelude::*;
use vstd::utf8::encode_utf8;

use crate::error::OsError;
use crate::mem::word::{
    le_bytes, lemma_le_bytes_len, lemma_word_size, push_le_bytes, size_of_word, word_size,
};
use crate::mem::PG_SIZE;
use crate::trap::{Frame, FrameState};

verus! {

/// The bytes of each argument.
pub open spec fn arg_bytes(argv: Seq<String>) -> Seq<Seq<u8>> {
    argv.map_values(|arg: String| encode_utf8(arg@))
}

/// The arguments one behind the other, each with a zero byte at its end.
pub open spec fn strings(args: Seq<Seq<u8>>) -> Seq<u8>
    decreases args.len(),
{
    if args.len() == 0 {
        Seq::empty()
    } else {
        args[0].push(0) + strings(args.drop_first())
    }
}

/// Where argument `i` stands: the strings end at the top of the stack.
pub open spec fn arg_addr(args: Seq<Seq<u8>>, init_sp: int, i: int) -> int {
    init_sp - strings(args.skip(i)).len()
}

/// The words of the argument vector: the address of each argument, then null.
pub open spec fn arg_words(args: Seq<Seq<u8>>, init_sp: int) -> Seq<int> {
    Seq::new(
        args.len() + 1,
        |i: int|
            if i < args.len() {
                arg_addr(args, init_sp, i)
            } else {
                0
            },
    )
}

/// Some words as bytes, one behind the other.
pub open spec fn word_bytes(words: Seq<int>) -> Seq<u8>
    decreases words.len(),
{
    if words.len() == 0 {
        Seq::empty()
    } else {
        word_bytes(words.drop_last()) + le_bytes(words.last() as nat, word_size())
    }
}

/// An address rounded down to a multiple of `align`.
pub open spec fn round_down(addr: int, align: int) -> int {
    addr - addr % align
}

/// Where the argument vector stands: below the strings, aligned to 16 bytes.
pub open spec fn argv_addr(args: Seq<Seq<u8>>, init_sp: int) -> int {
    round_down(
        round_down(arg_addr(args, init_sp, 0), 8) - (args.len() + 1) * word_size(),
        16,
    )
}

/// Whether strings and argument vector fit into the topmost page of the stack.
pub open spec fn args_fit(args: Seq<Seq<u8>>, init_sp: int) -> bool {
    &&& strings(args).len() <= PG_SIZE
    &&& argv_addr(args, init_sp) >= init_sp - PG_SIZE
}

/// A page after some bytes have been written from offset `at` on.
pub open spec fn overwritten(page: Seq<u8>, at: int, bytes: Seq<u8>) -> Seq<u8> {
    page.take(at) + bytes + page.skip(at + bytes.len())
}

/// The topmost page of the stack with strings and argument vector in it.
pub open spec fn args_page(page: Seq<u8>, args: Seq<Seq<u8>>, init_sp: int) -> Seq<u8> {
    let bottom = init_sp - PG_SIZE;
    overwritten(
        overwritten(page, arg_addr(args, init_sp, 0) - bottom, strings(args)),
        argv_addr(args, init_sp) - bottom,
        word_bytes(arg_words(args, init_sp)),
    )
}

/// The registers of a program that finds its arguments at `argv`.
pub open spec fn args_frame(frame: FrameState, argc: int, argv: int) -> FrameState {
    FrameState {
        x: frame.x.update(2, argv as usize).update(10, argc as usize).update(11, argv as usize),
        ..frame
    }
}

/// Strings of one argument more.
pub proof fn lemma_strings_skip(args: Seq<Seq<u8>>, i: int)
    requires
        0 <= i < args.len(),
    ensures
        strings(args.skip(i)) == args[i].push(0) + strings(args.skip(i + 1)),
        strings(args.skip(i)).len() == args[i].len() + 1 + strings(args.skip(i + 1)).len(),
{
    assert(args.skip(i).drop_first() =~= args.skip(i + 1));
    assert(args.skip(i)[0] == args[i]);
}

/// The strings of a list are those of its front and those of its rest.
pub proof fn lemma_strings_split(args: Seq<Seq<u8>>, i: int)
    requires
        0 <= i <= args.len(),
    ensures
        strings(args) == strings(args.take(i)) + strings(args.skip(i)),
    decreases args.len(),
{
    if i == 0 {
        assert(args.skip(0) =~= args);
        assert(args.take(0) =~= Seq::<Seq<u8>>::empty());
        assert(strings(args) =~= strings(args.take(0)) + strings(args));
    } else {
        let rest = args.drop_first();
        lemma_strings_split(rest, i - 1);
        assert(args.take(i).drop_first() =~= rest.take(i - 1));
        assert(args.skip(i) =~= rest.skip(i - 1));
        assert(args.take(i)[0] == args[0]);
        assert(strings(args) =~= strings(args.take(i)) + strings(args.skip(i)));
    }
}

/// The strings of later arguments are no longer than all of them, and no shorter
/// than there are arguments.
pub proof fn lemma_strings_shrink(args: Seq<Seq<u8>>, i: int)
    requires
        0 <= i <= args.len(),
    ensures
        args.len() - i <= strings(args.skip(i)).len() <= strings(args).len(),
    decreases args.len(), i,
{
    if i > 0 {
        lemma_strings_skip(args, i - 1);
        lemma_strings_shrink(args, i - 1);
        lemma_strings_len(args.skip(i));
    } else {
        assert(args.skip(0) =~= args);
        lemma_strings_len(args);
    }
}

/// Every argument takes a byte at least.
proof fn lemma_strings_len(args: Seq<Seq<u8>>)
    ensures
        args.len() <= strings(args).len(),
    decreases args.len(),
{
    if args.len() > 0 {
        lemma_strings_len(args.drop_first());
    }
}

/// A word takes as many bytes as it has.
pub proof fn lemma_word_bytes_len(words: Seq<int>)
    ensures
        word_bytes(words).len() == words.len() * word_size(),
    decreases words.len(),
{
    if words.len() > 0 {
        lemma_word_bytes_len(words.drop_last());
        lemma_le_bytes_len(words.last() as nat, word_size());
        assert((words.len() - 1) * word_size() + word_size() == words.len() * word_size())
            by (nonlinear_arith)
            requires
                words.len() > 0,
        ;
    } else {
        assert(0 * word_size() == 0) by (nonlinear_arith);
    }
}

/// Writes some bytes into a page from offset `at` on.
fn put_bytes(page: &mut Vec<u8>, at: usize, bytes: &[u8])
    requires
        at + bytes@.len() <= old(page)@.len(),
    ensures
        final(page)@ == overwritten(old(page)@, at as int, bytes@),
        final(page)@.len() == old(page)@.len(),
{
    let size = page.len();
    let mut i: usize = 0;
    while i < bytes.len()
        invariant
            i <= bytes@.len(),
            page@.len() == old(page)@.len() == size,
            at + bytes@.len() <= size,
            forall|k: int|
                0 <= k < page@.len() ==> #[trigger] page@[k] == (if at <= k < at + i {
                    bytes@[k - at]
                } else {
                    old(page)@[k]
                }),
        decreases bytes@.len() - i,
    {
        page[at + i] = bytes[i];
        i = i + 1;
    }
    assert(page@ =~= overwritten(old(page)@, at as int, bytes@));
}

/// Puts the arguments of a program on its stack and the registers in place.
///
/// `page` is the topmost page of the stack, which ends at `init_sp`, or `None`
/// where none is mapped there. The filled page comes back.
pub fn setup_arguments(
    page: Option<Vec<u8>>,
    init_sp: usize,
    argv: &Vec<String>,
    frame: &mut Frame,
) -> (filled: Result<Vec<u8>, OsError>)
    requires
        init_sp >= PG_SIZE,
        page is Some ==> page->0@.len() == PG_SIZE,
    ensures
        ({
            let args = arg_bytes(argv@);
            match filled {
                Ok(filled) => {
                    &&& page is Some
                    &&& args_fit(args, init_sp as int)
                    &&& filled@ == args_page(page->0@, args, init_sp as int)
                    &&& filled@.len() == PG_SIZE
                    &&& final(frame)@ == args_frame(
                        old(frame)@,
                        args.len() as int,
                        argv_addr(args, init_sp as int),
                    )
                },
                Err(err) => {
                    &&& err == (if page is None {
                        OsError::BadPtr
                    } else {
                        OsError::ArgumentTooLong
                    })
                    &&& page is Some ==> !args_fit(args, init_sp as int)
                    &&& final(frame)@ == old(frame)@
                },
            }
        }),
{
    let ghost args = arg_bytes(argv@);
    let stack_bottom = init_sp - PG_SIZE;
    let mut stack = match page {
        Some(page) => page,
        None => {
            return Err(OsError::BadPtr);
        },
    };
    let ghost before = stack@;
    let mut sp = init_sp;
    let mut arg_ptrs: Vec<usize> = Vec::new();
    let mut left: usize = argv.len();
    proof {
        assert(args.skip(left as int) =~= Seq::<Seq<u8>>::empty());
        assert(stack@ =~= overwritten(before, PG_SIZE as int, Seq::<u8>::empty()));
    }
    while left > 0
        invariant
            left <= argv@.len(),
            args == arg_bytes(argv@),
            stack_bottom + PG_SIZE == init_sp,
            stack_bottom <= sp <= init_sp,
            before.len() == PG_SIZE,
            stack@.len() == PG_SIZE,
            page is Some,
            page->0@ == before,
            frame@ == old(frame)@,
            sp == arg_addr(args, init_sp as int, left as int),
            stack@ == overwritten(before, sp - stack_bottom, strings(args.skip(left as int))),
            arg_ptrs@.len() == argv@.len() - left,
            forall|k: int|
                0 <= k < arg_ptrs@.len() ==> #[trigger] arg_ptrs@[k] == arg_addr(
                    args,
                    init_sp as int,
                    argv@.len() - 1 - k,
                ),
        decreases left,
    {
        left = left - 1;
        let bytes = argv[left].as_str().as_bytes();
        proof {
            assert(bytes@ == args[left as int]);
            lemma_strings_skip(args, left as int);
            lemma_strings_shrink(args, left as int);
        }
        if bytes.len() >= PG_SIZE || sp < stack_bottom + (bytes.len() + 1) {
            return Err(OsError::ArgumentTooLong);
        }
        let need = bytes.len() + 1;
        let ghost filled = stack@;
        let ghost top = sp - stack_bottom;
        sp = sp - need;
        let off = sp - stack_bottom;
        put_bytes(&mut stack, off, bytes);
        stack[off + bytes.len()] = 0;
        arg_ptrs.push(sp);
        assert(stack@ =~= overwritten(
            before,
            off as int,
            args[left as int].push(0) + strings(args.skip(left as int + 1)),
        ));
    }
    let ghost strings_end = sp;
    proof {
        assert(args.skip(0) =~= args);
        lemma_strings_shrink(args, 0);
        lemma_word_size();
        assert(sp & !0x7 == sp - sp % 8) by (bit_vector);
    }
    sp = sp & !0x7;
    let size = size_of_word();
    assert((argv@.len() + 1) * size <= (PG_SIZE + 1) * 8) by (nonlinear_arith)
        requires
            argv@.len() <= PG_SIZE,
            size <= 8,
    ;
    let argv_bytes = (argv.len() + 1) * size;
    assert(argv_bytes == (args.len() + 1) * word_size());
    if argv_bytes > PG_SIZE || sp < stack_bottom + argv_bytes {
        return Err(OsError::ArgumentTooLong);
    }
    let below = sp - argv_bytes;
    assert(below & !0xf == below - below % 16) by (bit_vector);
    sp = below & !0xf;
    if sp < stack_bottom {
        return Err(OsError::ArgumentTooLong);
    }
    let argv_user = sp;
    let ghost words = arg_words(args, init_sp as int);
    let mut vector: Vec<u8> = Vec::new();
    let mut i: usize = 0;
    assert(words.take(0) =~= Seq::<int>::empty());
    while i < argv.len()
        invariant
            i <= argv@.len() == args.len() == arg_ptrs@.len(),
            size == word_size(),
            words == arg_words(args, init_sp as int),
            vector@ == word_bytes(words.take(i as int)),
            forall|k: int|
                0 <= k < arg_ptrs@.len() ==> #[trigger] arg_ptrs@[k] == arg_addr(
                    args,
                    init_sp as int,
                    argv@.len() - 1 - k,
                ),
        decreases argv@.len() - i,
    {
        let ptr = arg_ptrs[argv.len() - 1 - i];
        proof {
            assert(words.take(i as int + 1).drop_last() =~= words.take(i as int));
            assert(words.take(i as int + 1).last() == ptr);
        }
        push_le_bytes(&mut vector, ptr as u64, size);
        i = i + 1;
    }
    proof {
        assert(words.drop_last() =~= words.take(i as int));
        lemma_word_bytes_len(words);
    }
    push_le_bytes(&mut vector, 0, size);
    assert(vector@ == word_bytes(words));
    put_bytes(&mut stack, argv_user - stack_bottom, vector.as_slice());
    frame.x[2] = sp;
    frame.x[10] = argv.len();
    frame.x[11] = argv_user;
    assert(frame@ =~= args_frame(
        old(frame)@,
        args.len() as int,
        argv_addr(args, init_sp as int),
    ));
    Ok(stack)
}

} // verus!
