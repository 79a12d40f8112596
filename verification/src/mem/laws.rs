//! What holds of user memory as a whole.

use vstd::arithmetic::div_mod::lemma_div_denominator;
use vstd::arithmetic::power::{lemma_pow_positive, pow};
use vstd::prelude::*;
use vstd::utf8::valid_utf8;

use crate::error::OsError;
use crate::mem::userbuf::{
    lemma_readable_len, lemma_readable_len_is, lemma_text_len, lemma_text_len_is,
    lemma_writable_len, lemma_writable_len_is, MemState,
};
use crate::mem::word::{
    le_bytes, le_value, lemma_le_bytes, lemma_le_bytes_len, lemma_le_value_bound, lemma_word_size,
    word_size,
};

verus! {

/// The kernel and the null page are out of the reach of user pointers: nothing there is
/// read or written.
pub proof fn law_kernel_is_out_of_reach(mem: MemState, addr: int)
    requires
        addr == 0 || addr >= mem.kernel_base,
    ensures
        mem.load(addr) is None,
        !mem.can_store(addr),
{
}

/// What has been copied to a user buffer is what is copied back from it.
pub proof fn law_copy_reads_back(mem: MemState, addr: int, data: Seq<u8>)
    requires
        mem.all_writable(addr, data.len()),
    ensures
        mem.stored_all(addr, data).all_readable(addr, data.len()),
        mem.stored_all(addr, data).range(addr, data.len()) == data,
{
    let after = mem.stored_all(addr, data);
    assert forall|i: int| 0 <= i < data.len() implies (#[trigger] after.load(addr + i)) == Some(
        data[i],
    ) by {
        assert(mem.can_store(addr + i));
    }
    assert(after.range(addr, data.len()) =~= data);
}

/// Copying to a user buffer changes nothing outside of it, and where user memory can be
/// written.
pub proof fn law_copy_stays_inside(mem: MemState, addr: int, data: Seq<u8>, other: int)
    requires
        mem.all_writable(addr, data.len()),
        !(addr <= other < addr + data.len()),
    ensures
        mem.stored_all(addr, data).load(other) == mem.load(other),
        mem.stored_all(addr, data).can_store(other) == mem.can_store(other),
{
    assert(mem.in_user_space(other) ==> (other as usize) as int == other);
}

/// A buffer that can be written as a whole takes every byte that is copied to it.
pub proof fn law_writable_buffer_takes_all(mem: MemState, addr: int, data: Seq<u8>)
    requires
        mem.all_writable(addr, data.len()),
    ensures
        mem.writable_len(addr, data.len()) == data.len(),
        mem.stored_all(addr, data.take(mem.writable_len(addr, data.len()) as int))
            == mem.stored_all(addr, data),
{
    assert(mem.writable_for(addr, data.len(), data.len()));
    lemma_writable_len_is(mem, addr, data.len(), data.len());
    assert(data.take(data.len() as int) =~= data);
}

/// A copy goes on up to the first byte that cannot be reached, and to the end if there is
/// none.
pub proof fn law_copy_stops_at_the_fault(mem: MemState, addr: int, len: nat)
    ensures
        ({
            let n = mem.readable_len(addr, len);
            &&& n <= len
            &&& mem.all_readable(addr, n)
            &&& n < len ==> mem.load(addr + n) is None
            &&& mem.all_readable(addr, len) <==> n == len
        }),
        ({
            let n = mem.writable_len(addr, len);
            &&& n <= len
            &&& mem.all_writable(addr, n)
            &&& n < len ==> !mem.can_store(addr + n)
            &&& mem.all_writable(addr, len) <==> n == len
        }),
{
    lemma_readable_len(mem, addr, len);
    lemma_readable_len_is(mem, addr, len, mem.readable_len(addr, len));
    lemma_writable_len(mem, addr, len);
    lemma_writable_len_is(mem, addr, len, mem.writable_len(addr, len));
}

/// A string in user memory, with its terminator behind it, is read as it is.
pub proof fn law_cstring_reads_back(mem: MemState, addr: int, text: Seq<u8>, max_len: nat)
    requires
        addr != 0,
        mem.all_readable(addr, text.len() + 1),
        mem.range(addr, text.len() + 1) == text.push(0),
        !text.contains(0),
        valid_utf8(text),
    ensures
        text.len() < max_len ==> mem.cstring(addr, max_len) == Ok::<
            Seq<u8>,
            crate::error::OsError,
        >(text),
        text.len() >= max_len ==> mem.cstring(addr, max_len) == Err::<
            Seq<u8>,
            crate::error::OsError,
        >(crate::error::OsError::ArgumentTooLong),
{
    let n = text.len();
    let all = mem.range(addr, n + 1);
    assert forall|i: int| 0 <= i < n implies #[trigger] mem.range(addr, n)[i] == text[i] by {
        assert(all[i] == text.push(0)[i]);
    }
    assert(mem.range(addr, n) =~= text);
    assert(all[n as int] == 0);
    assert(mem.load(addr + n) is Some);
    if n < max_len {
        assert(mem.text_for(addr, max_len, n));
        lemma_text_len_is(mem, addr, max_len, n);
    } else {
        assert forall|i: int| 0 <= i < max_len implies #[trigger] mem.range(addr, max_len)[i]
            != 0 by {
            assert(mem.range(addr, n)[i] == text[i]);
            assert(text.contains(text[i]));
        }
        assert(mem.text_for(addr, max_len, max_len));
        lemma_text_len_is(mem, addr, max_len, max_len);
    }
}

/// A word in user memory, its lowest byte first, is read as it is.
pub proof fn law_word_reads_back(mem: MemState, addr: int, value: usize)
    requires
        mem.all_readable(addr, word_size()),
        mem.range(addr, word_size()) == le_bytes(value as nat, word_size()),
    ensures
        mem.word(addr) == Some(value),
{
    lemma_word_size();
    lemma_le_bytes(value as nat, word_size());
}

/* ------------------------------- Byte by byte ------------------------------ */

/// Whether a user program has a byte at an address: neither at null nor in the kernel.
pub open spec fn has_byte(mem: MemState, addr: int) -> bool {
    0 < addr < mem.kernel_base && mem.bytes.contains_key(addr as usize)
}

/// Whether a user program may change the byte at an address.
pub open spec fn may_change(mem: MemState, addr: int) -> bool {
    0 < addr < mem.kernel_base && mem.writable.contains(addr as usize)
}

/// Whether a user program has all bytes of a range.
pub open spec fn has_all(mem: MemState, addr: int, len: nat) -> bool {
    forall|i: int| 0 <= i < len ==> #[trigger] has_byte(mem, addr + i)
}

/// Whether a user program may change all bytes of a range.
pub open spec fn may_change_all(mem: MemState, addr: int, len: nat) -> bool {
    forall|i: int| 0 <= i < len ==> #[trigger] may_change(mem, addr + i)
}

/// Whether some bytes stand in user memory from an address on.
pub open spec fn holds(mem: MemState, addr: int, data: Seq<u8>) -> bool {
    forall|i: int|
        0 <= i < data.len() ==> #[trigger] has_byte(mem, addr + i) && mem.bytes[(addr + i) as usize]
            == data[i]
}

/// Whether a text stands at an address: bytes of UTF-8 without a zero, and a zero behind.
pub open spec fn holds_text(mem: MemState, addr: int, text: Seq<u8>) -> bool {
    &&& addr != 0
    &&& holds(mem, addr, text.push(0))
    &&& !text.contains(0)
    &&& valid_utf8(text)
}

/// Whether a machine word stands at an address.
pub open spec fn holds_word(mem: MemState, addr: int, value: usize) -> bool {
    holds(mem, addr, le_bytes(value as nat, word_size()))
}

/// Whether memory differs from what it was at most in that some bytes stand at an address.
pub open spec fn filled_with(
    before: MemState,
    after: MemState,
    addr: int,
    data: Seq<u8>,
) -> bool {
    &&& after.kernel_base == before.kernel_base
    &&& after.writable == before.writable
    &&& holds(after, addr, data)
    &&& forall|a: usize|
        #![trigger after.bytes.contains_key(a)]
        #![trigger after.bytes[a]]
        !(addr <= a < addr + data.len()) ==> {
            &&& after.bytes.contains_key(a) <==> before.bytes.contains_key(a)
            &&& before.bytes.contains_key(a) ==> after.bytes[a] == before.bytes[a]
        }
}

/// A byte is read where the program has one, and as it is.
pub proof fn law_read_byte(mem: MemState, addr: int)
    ensures
        mem.load(addr) == (if has_byte(mem, addr) {
            Some(mem.bytes[addr as usize])
        } else {
            None
        }),
        mem.can_store(addr) == may_change(mem, addr),
{
}

/// A byte that is written is the only one that changes.
pub proof fn law_write_byte(mem: MemState, addr: int, value: u8)
    requires
        may_change(mem, addr),
    ensures
        filled_with(mem, mem.stored(addr, value), addr, seq![value]),
{
}

/// A range can be read if and only if the program has all of it, and what is read is what
/// stands there, byte by byte.
pub proof fn law_read_range(mem: MemState, addr: int, len: nat)
    ensures
        mem.all_readable(addr, len) <==> has_all(mem, addr, len),
        has_all(mem, addr, len) ==> mem.range(addr, len).len() == len && holds(
            mem,
            addr,
            mem.range(addr, len),
        ),
{
    if has_all(mem, addr, len) {
        assert forall|i: int| 0 <= i < len implies (#[trigger] mem.load(addr + i)) is Some by {
            assert(has_byte(mem, addr + i));
        }
    }
    if mem.all_readable(addr, len) {
        assert forall|i: int| 0 <= i < len implies #[trigger] has_byte(mem, addr + i) by {
            assert(mem.load(addr + i) is Some);
        }
        assert forall|i: int| 0 <= i < len implies #[trigger] has_byte(mem, addr + i)
            && mem.bytes[(addr + i) as usize] == mem.range(addr, len)[i] by {
            assert(mem.load(addr + i) is Some);
        }
    }
}

/// There is one answer to what stands in a range.
pub proof fn law_range_is(mem: MemState, addr: int, data: Seq<u8>)
    requires
        holds(mem, addr, data),
    ensures
        has_all(mem, addr, data.len()),
        mem.range(addr, data.len()) == data,
{
    assert forall|i: int| 0 <= i < data.len() implies #[trigger] mem.range(addr, data.len())[i]
        == data[i] by {
        assert(has_byte(mem, addr + i));
    }
    assert(mem.range(addr, data.len()) =~= data);
}

/// A range can be written if and only if the program may change all of it, and then takes
/// the bytes one behind the other, and nothing else changes.
pub proof fn law_write_range(mem: MemState, addr: int, data: Seq<u8>)
    ensures
        mem.all_writable(addr, data.len()) <==> may_change_all(mem, addr, data.len()),
        may_change_all(mem, addr, data.len()) ==> filled_with(
            mem,
            mem.stored_all(addr, data),
            addr,
            data,
        ),
{
    if mem.all_writable(addr, data.len()) {
        assert forall|i: int| 0 <= i < data.len() implies #[trigger] may_change(
            mem,
            addr + i,
        ) by {
            assert(mem.can_store(addr + i));
        }
    }
    if may_change_all(mem, addr, data.len()) {
        assert forall|i: int| 0 <= i < data.len() implies #[trigger] mem.can_store(addr + i) by {
            assert(may_change(mem, addr + i));
        }
        let after = mem.stored_all(addr, data);
        assert forall|i: int| 0 <= i < data.len() implies #[trigger] has_byte(after, addr + i)
            && after.bytes[(addr + i) as usize] == data[i] by {
            assert(may_change(mem, addr + i));
        }
    }
}

/// What comes of reading a string: the bytes up to the first zero, if they are text and
/// the zero is among the first `max_len` bytes; otherwise the reason why not.
pub proof fn law_read_string(mem: MemState, addr: int, text: Seq<u8>, max_len: nat)
    requires
        holds(mem, addr, text),
        !text.contains(0),
        text.len() <= max_len,
    ensures
        ({
            let end = addr + text.len();
            let string = mem.cstring(addr, max_len);
            &&& addr == 0 ==> string == Err::<Seq<u8>, OsError>(OsError::BadPtr)
            &&& addr != 0 && text.len() == max_len ==> string == Err::<Seq<u8>, OsError>(
                OsError::ArgumentTooLong,
            )
            &&& addr != 0 && text.len() < max_len && !has_byte(mem, end) ==> string == Err::<
                Seq<u8>,
                OsError,
            >(OsError::BadPtr)
            &&& addr != 0 && text.len() < max_len && has_byte(mem, end) && mem.bytes[end as usize]
                == 0 ==> string == (if valid_utf8(text) {
                Ok::<Seq<u8>, OsError>(text)
            } else {
                Err(OsError::CstrFormatErr)
            })
        }),
{
    law_range_is(mem, addr, text);
    law_read_range(mem, addr, text.len());
    let end = addr + text.len();
    if text.len() == max_len || !has_byte(mem, end) || mem.bytes[end as usize] == 0 {
        assert(mem.text_for(addr, max_len, text.len()));
        lemma_text_len_is(mem, addr, max_len, text.len());
    }
}

/// A string has been read if and only if it stands there as a text that is short enough.
pub proof fn law_string_is_there(mem: MemState, addr: int, text: Seq<u8>, max_len: nat)
    ensures
        mem.cstring(addr, max_len) == Ok::<Seq<u8>, OsError>(text) <==> {
            &&& holds_text(mem, addr, text)
            &&& text.len() < max_len
        },
{
    if holds_text(mem, addr, text) && text.len() < max_len {
        let whole = text.push(0);
        assert forall|i: int| 0 <= i < text.len() implies #[trigger] has_byte(mem, addr + i)
            && mem.bytes[(addr + i) as usize] == text[i] by {
            assert(whole[i] == text[i]);
        }
        assert(whole[text.len() as int] == 0);
        assert(has_byte(mem, addr + text.len()));
        law_read_string(mem, addr, text, max_len);
    }
    if mem.cstring(addr, max_len) == Ok::<Seq<u8>, OsError>(text) {
        lemma_text_len(mem, addr, max_len);
        let n = mem.text_len(addr, max_len);
        law_read_range(mem, addr, n);
        assert(mem.range(addr, n) == text);
        assert forall|i: int| 0 <= i < text.push(0).len() implies #[trigger] has_byte(
            mem,
            addr + i,
        ) && mem.bytes[(addr + i) as usize] == text.push(0)[i] by {
            if i == text.len() {
                assert(mem.load(addr + n) == Some(0u8));
            }
        }
    }
}

/// Numbers stand in memory with the lowest byte first: byte `k` counts 256 to the `k`.
pub proof fn law_lowest_byte_first(value: nat, n: nat, k: int)
    requires
        0 <= k < n,
    ensures
        le_bytes(value, n).len() == n,
        le_bytes(value, n)[k] == (value as int / pow(256, k as nat)) % 256,
    decreases n,
{
    lemma_le_bytes_len(value, n);
    reveal(pow);
    if k > 0 {
        law_lowest_byte_first(value / 256, (n - 1) as nat, k - 1);
        lemma_pow_positive(256, (k - 1) as nat);
        lemma_div_denominator(value as int, 256, pow(256, (k - 1) as nat));
        assert(pow(256, k as nat) == 256 * pow(256, (k - 1) as nat));
        assert(le_bytes(value, n)[k] == le_bytes(value / 256, (n - 1) as nat)[k - 1]);
    } else {
        assert(pow(256, 0) == 1);
    }
}

/// A word has been read if and only if its bytes stand there, the lowest first.
pub proof fn law_word_is_there(mem: MemState, addr: int, value: usize)
    ensures
        mem.word(addr) == Some(value) <==> holds_word(mem, addr, value),
        word_size() == usize::BITS as nat / 8,
{
    lemma_word_size();
    let n = word_size();
    law_read_range(mem, addr, n);
    lemma_le_bytes(value as nat, n);
    if holds_word(mem, addr, value) {
        law_range_is(mem, addr, le_bytes(value as nat, n));
    }
    if mem.word(addr) == Some(value) {
        let bytes = mem.range(addr, n);
        lemma_le_value_bound(bytes);
        lemma_bytes_are(bytes);
    }
}

/// Bytes are those of the number that they stand for.
proof fn lemma_bytes_are(bytes: Seq<u8>)
    ensures
        le_bytes(le_value(bytes), bytes.len()) == bytes,
    decreases bytes.len(),
{
    if bytes.len() > 0 {
        let rest = bytes.drop_first();
        lemma_bytes_are(rest);
        let value = le_value(bytes);
        assert(value == bytes[0] as nat + 256 * le_value(rest));
        assert(value % 256 == bytes[0] as nat);
        assert(value / 256 == le_value(rest));
        assert(le_bytes(value, bytes.len()) =~= seq![bytes[0]] + rest);
        assert(seq![bytes[0]] + rest =~= bytes);
    } else {
        assert(le_bytes(0, 0) =~= bytes);
    }
}

} // verus!
