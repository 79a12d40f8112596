//! Paths and argument vectors that user programs hand to the kernel.

use vstd::prelude::*;
use vstd::utf8::{decode_utf8, encode_utf8, encode_utf8_decode_utf8};

use crate::mem::userbuf::{
    lemma_text_len, lemma_text_len_is, read_cstring, read_usize, MemState, UserMemory,
};
use crate::mem::word::{size_of_word, word_size};
use crate::mem::PG_SIZE;
use crate::userproc::args::{arg_bytes, lemma_strings_split, strings};

verus! {

/// How many bytes a path or the arguments of a program may take.
pub const MAX_ARG_BYTES: usize = PG_SIZE;

/// The path that a user pointer leads to, `None` where that is no path.
pub open spec fn path_at(mem: MemState, pathname: usize) -> Option<Seq<char>> {
    match mem.cstring(pathname as int, MAX_ARG_BYTES as nat) {
        Ok(bytes) if bytes.len() > 0 => Some(decode_utf8(bytes)),
        _ => None,
    }
}

/// Reads a path from user space. There is no empty path.
pub fn read_path(mem: &UserMemory, pathname: usize) -> (path: Option<String>)
    ensures
        match path {
            Some(path) => path_at(mem@, pathname) == Some(path@),
            None => path_at(mem@, pathname) is None,
        },
{
    match read_cstring(mem, pathname, MAX_ARG_BYTES) {
        Ok(path) => {
            proof {
                encode_utf8_decode_utf8(path@);
                assert(decode_utf8(Seq::<u8>::empty()) =~= Seq::<char>::empty());
                assert(encode_utf8(Seq::<char>::empty()) =~= Seq::<u8>::empty());
                if path@.len() == 0 {
                    assert(path@ =~= Seq::<char>::empty());
                }
                if encode_utf8(path@).len() == 0 {
                    assert(encode_utf8(path@) =~= Seq::<u8>::empty());
                }
            }
            if path.as_str().is_empty() {
                None
            } else {
                Some(path)
            }
        },
        Err(_) => None,
    }
}

/// Whether the argument vector at `addr` leads to `args`: a pointer to each of
/// them, then null, with room for all of them.
pub open spec fn is_argv(mem: MemState, addr: int, args: Seq<Seq<u8>>) -> bool {
    &&& addr != 0
    &&& 0 < args.len() < MAX_ARG_BYTES as nat / word_size()
    &&& strings(args).len() <= MAX_ARG_BYTES
    &&& mem.word(addr + args.len() * word_size()) == Some(0usize)
    &&& forall|i: int| 0 <= i < args.len() ==> arg_at(mem, addr, i) == Some(#[trigger] args[i])
}

/// What pointer `i` of the argument vector at `addr` leads to.
pub open spec fn arg_at(mem: MemState, addr: int, i: int) -> Option<Seq<u8>> {
    match mem.word(addr + i * word_size()) {
        Some(ptr) => match mem.cstring(ptr as int, MAX_ARG_BYTES as nat) {
            Ok(bytes) => Some(bytes),
            Err(_) => None,
        },
        None => None,
    }
}

/// What the argument vector at `addr` leads to, `None` where that is none.
pub open spec fn argv_at(mem: MemState, addr: int) -> Option<Seq<Seq<u8>>> {
    if exists|args: Seq<Seq<u8>>| is_argv(mem, addr, args) {
        Some(choose|args: Seq<Seq<u8>>| is_argv(mem, addr, args))
    } else {
        None
    }
}

/// An argument vector leads to one list of arguments.
pub proof fn lemma_argv_is(mem: MemState, addr: int, args: Seq<Seq<u8>>)
    requires
        is_argv(mem, addr, args),
    ensures
        argv_at(mem, addr) == Some(args),
{
    let other = choose|other: Seq<Seq<u8>>| is_argv(mem, addr, other);
    assert(is_argv(mem, addr, other));
    lemma_null_ends(mem, addr, args, other);
    lemma_null_ends(mem, addr, other, args);
    assert forall|i: int| 0 <= i < args.len() implies args[i] == other[i] by {
        assert(arg_at(mem, addr, i) == Some(args[i]));
        assert(arg_at(mem, addr, i) == Some(other[i]));
    }
    assert(args =~= other);
}

/// The null pointer of one list of arguments is not within another one.
proof fn lemma_null_ends(mem: MemState, addr: int, args: Seq<Seq<u8>>, other: Seq<Seq<u8>>)
    requires
        is_argv(mem, addr, args),
        is_argv(mem, addr, other),
    ensures
        args.len() >= other.len(),
{
    if args.len() < other.len() {
        let i = args.len() as int;
        assert(arg_at(mem, addr, i) == Some(other[i]));
        assert(mem.cstring(0, MAX_ARG_BYTES as nat) is Err);
    }
}

/// A string that ends within some length ends within a greater one as well, and is
/// the same.
proof fn lemma_cstring_longer(mem: MemState, addr: int, short: nat, long: nat)
    requires
        short <= long,
    ensures
        mem.cstring(addr, short) is Ok ==> {
            &&& mem.cstring(addr, long) == mem.cstring(addr, short)
            &&& mem.cstring(addr, short)->Ok_0.len() < short
        },
        mem.cstring(addr, long) is Ok && mem.cstring(addr, long)->Ok_0.len() < short
            ==> mem.cstring(addr, short) == mem.cstring(addr, long),
{
    lemma_text_len(mem, addr, short);
    lemma_text_len(mem, addr, long);
    let a = mem.text_len(addr, short);
    let b = mem.text_len(addr, long);
    if mem.cstring(addr, short) is Ok {
        assert(mem.text_for(addr, long, a));
        lemma_text_len_is(mem, addr, long, a);
    }
    if mem.cstring(addr, long) is Ok && mem.cstring(addr, long)->Ok_0.len() < short {
        assert(mem.text_for(addr, short, b));
        lemma_text_len_is(mem, addr, short, b);
    }
}

/// A list with one more argument takes that argument and its terminator more.
proof fn lemma_strings_push(args: Seq<Seq<u8>>, arg: Seq<u8>)
    ensures
        strings(args.push(arg)).len() == strings(args).len() + arg.len() + 1,
{
    let all = args.push(arg);
    lemma_strings_split(all, args.len() as int);
    assert(all.take(args.len() as int) =~= args);
    let last = all.skip(args.len() as int);
    assert(last.drop_first() =~= Seq::<Seq<u8>>::empty());
    assert(last[0] == arg);
    assert(strings(last) =~= arg.push(0) + strings(last.drop_first()));
}

/// Whether `args` are the first arguments that a vector leads to.
spec fn leads_with(mem: MemState, addr: int, args: Seq<Seq<u8>>) -> bool {
    forall|i: int|
        0 <= i < args.len() ==> {
            &&& arg_at(mem, addr, i) == Some(#[trigger] args[i])
            &&& mem.word(addr + i * word_size()) != Some(0usize)
        }
}

/// Any list that a vector leads to begins with what has been found so far.
proof fn lemma_begins(mem: MemState, addr: int, args: Seq<Seq<u8>>, whole: Seq<Seq<u8>>)
    requires
        leads_with(mem, addr, args),
        is_argv(mem, addr, whole),
    ensures
        whole.len() >= args.len(),
        whole.take(args.len() as int) == args,
        strings(whole).len() == strings(args).len() + strings(
            whole.skip(args.len() as int),
        ).len(),
{
    if whole.len() < args.len() {
        let i = whole.len() as int;
        assert(arg_at(mem, addr, i) == Some(args[i]));
    }
    let n = args.len() as int;
    assert forall|i: int| 0 <= i < n implies #[trigger] whole.take(n)[i] == args[i] by {
        assert(arg_at(mem, addr, i) == Some(args[i]));
        assert(arg_at(mem, addr, i) == Some(whole[i]));
    }
    assert(whole.take(n) =~= args);
    lemma_strings_split(whole, n);
}

/// A list that goes on takes at least the next argument and its terminator.
proof fn lemma_takes_next(mem: MemState, addr: int, args: Seq<Seq<u8>>, whole: Seq<Seq<u8>>)
    requires
        leads_with(mem, addr, args),
        is_argv(mem, addr, whole),
        mem.word(addr + args.len() * word_size()) != Some(0usize),
    ensures
        whole.len() > args.len(),
        arg_at(mem, addr, args.len() as int) == Some(whole[args.len() as int]),
        strings(args).len() + whole[args.len() as int].len() + 1 <= MAX_ARG_BYTES,
{
    lemma_begins(mem, addr, args, whole);
    let n = args.len() as int;
    assert(arg_at(mem, addr, n) == Some(whole[n]));
    let rest = whole.skip(n);
    assert(rest[0] == whole[n]);
    assert(strings(rest).len() == whole[n].len() + 1 + strings(rest.drop_first()).len());
}

/// Reads the argument vector of a program from user space.
pub fn read_exec_argv(mem: &UserMemory, user_argv: usize) -> (argv: Option<Vec<String>>)
    ensures
        match argv {
            Some(argv) => argv_at(mem@, user_argv as int) == Some(arg_bytes(argv@)),
            None => argv_at(mem@, user_argv as int) is None,
        },
{
    if user_argv == 0 {
        return None;
    }
    let size = size_of_word();
    let count = MAX_ARG_BYTES / size;
    let mut argv: Vec<String> = Vec::new();
    let mut total_len: usize = 0;
    let mut i: usize = 0;
    assert(arg_bytes(argv@) =~= Seq::<Seq<u8>>::empty());
    while i < count
        invariant
            user_argv != 0,
            size == word_size(),
            size == 4 || size == 8,
            count == MAX_ARG_BYTES as nat / word_size(),
            i <= count,
            argv@.len() == i,
            leads_with(mem@, user_argv as int, arg_bytes(argv@)),
            total_len == strings(arg_bytes(argv@)).len(),
            total_len <= MAX_ARG_BYTES,
        decreases count - i,
    {
        let ghost args = arg_bytes(argv@);
        proof {
            assert(i * size <= 8 * count) by (nonlinear_arith)
                requires
                    i <= count,
                    size <= 8,
            ;
            if i > 0 {
                let last = i - 1;
                assert(arg_at(mem@, user_argv as int, last as int) == Some(args[last as int]));
                let prev = user_argv + last * word_size();
                assert(mem@.word(prev) is Some);
                assert(mem@.load(prev + (word_size() - 1)) is Some);
                assert(prev + (word_size() - 1) + 1 == user_argv + i * size)
                    by (nonlinear_arith)
                    requires
                        prev == user_argv + last * word_size(),
                        last == i - 1,
                        size == word_size(),
                ;
            }
        }
        let ptr = match read_usize(mem, user_argv + i * size) {
            Ok(ptr) => ptr,
            Err(_) => {
                proof {
                    assert forall|whole: Seq<Seq<u8>>| !is_argv(
                        mem@,
                        user_argv as int,
                        whole,
                    ) by {
                        if is_argv(mem@, user_argv as int, whole) {
                            lemma_takes_next(mem@, user_argv as int, args, whole);
                        }
                    }
                }
                return None;
            },
        };
        if ptr == 0 {
            proof {
                if argv@.len() > 0 {
                    assert(is_argv(mem@, user_argv as int, args)) by {
                        assert(mem@.word(user_argv + args.len() * word_size()) == Some(0usize));
                    }
                    lemma_argv_is(mem@, user_argv as int, args);
                } else {
                    assert forall|whole: Seq<Seq<u8>>| !is_argv(
                        mem@,
                        user_argv as int,
                        whole,
                    ) by {
                        if is_argv(mem@, user_argv as int, whole) {
                            assert(arg_at(mem@, user_argv as int, 0) == Some(whole[0]));
                        }
                    }
                }
            }
            return if argv.len() > 0 {
                Some(argv)
            } else {
                None
            };
        }
        let remain = MAX_ARG_BYTES - total_len;
        if remain == 0 {
            proof {
                assert forall|whole: Seq<Seq<u8>>| !is_argv(mem@, user_argv as int, whole) by {
                    if is_argv(mem@, user_argv as int, whole) {
                        lemma_takes_next(mem@, user_argv as int, args, whole);
                    }
                }
            }
            return None;
        }
        let arg = match read_cstring(mem, ptr, remain) {
            Ok(arg) => arg,
            Err(_) => {
                proof {
                    assert forall|whole: Seq<Seq<u8>>| !is_argv(
                        mem@,
                        user_argv as int,
                        whole,
                    ) by {
                        if is_argv(mem@, user_argv as int, whole) {
                            lemma_takes_next(mem@, user_argv as int, args, whole);
                            lemma_cstring_longer(
                                mem@,
                                ptr as int,
                                remain as nat,
                                MAX_ARG_BYTES as nat,
                            );
                        }
                    }
                }
                return None;
            },
        };
        proof {
            lemma_cstring_longer(mem@, ptr as int, remain as nat, MAX_ARG_BYTES as nat);
            lemma_strings_push(args, encode_utf8(arg@));
            assert(arg_bytes(argv@.push(arg)) =~= args.push(encode_utf8(arg@)));
            assert forall|k: int| 0 <= k < args.len() + 1 implies {
                &&& arg_at(mem@, user_argv as int, k) == Some(
                    #[trigger] args.push(encode_utf8(arg@))[k],
                )
                &&& mem@.word(user_argv + k * word_size()) != Some(0usize)
            } by {
                if k < args.len() {
                    assert(arg_at(mem@, user_argv as int, k) == Some(args[k]));
                }
            }
        }
        total_len = total_len + (arg.as_str().len() + 1);
        argv.push(arg);
        i = i + 1;
    }
    proof {
        assert forall|whole: Seq<Seq<u8>>| !is_argv(mem@, user_argv as int, whole) by {
            if is_argv(mem@, user_argv as int, whole) {
                lemma_begins(mem@, user_argv as int, arg_bytes(argv@), whole);
            }
        }
    }
    None
}

} // verus!
