//! Access to the memory of user processes.

use std::collections::BTreeMap;

use vstd::prelude::*;
use vstd::utf8::{encode_utf8, valid_utf8};

use crate::error::OsError;
use crate::mem::word::{
    from_le_bytes, le_value, lemma_le_value_bound, lemma_word_size, size_of_word, word_size,
};
use crate::mem::PG_SIZE;

verus! {

/// A page of user memory.
pub struct Page {
    pub bytes: Vec<u8>,
    pub writable: bool,
}

/// The pages of a user process that are mapped, by page number, and where the
/// kernel begins.
pub struct UserMemory {
    kernel_base: usize,
    pages: BTreeMap<usize, Page>,
}

/// The user bytes that are there, and those of them that can be written.
#[verifier::ext_equal]
pub struct MemState {
    /// The lowest address of the kernel.
    pub kernel_base: usize,
    pub bytes: Map<usize, u8>,
    pub writable: Set<usize>,
}

/// Whether a byte stands at an address.
spec fn mapped(pages: Map<usize, Page>, addr: usize) -> bool {
    &&& pages.contains_key(addr / PG_SIZE)
    &&& addr % PG_SIZE < pages[addr / PG_SIZE].bytes@.len()
}

impl View for UserMemory {
    type V = MemState;

    closed spec fn view(&self) -> MemState {
        MemState {
            kernel_base: self.kernel_base,
            bytes: Map::new(
                |addr: usize| mapped(self.pages@, addr),
                |addr: usize| self.pages@[addr / PG_SIZE].bytes@[(addr % PG_SIZE) as int],
            ),
            writable: Set::new(
                |addr: usize|
                    mapped(self.pages@, addr) && self.pages@[addr / PG_SIZE].writable,
            ),
        }
    }
}

impl MemState {
    /// Whether a user pointer may be followed: it is not null and points below the
    /// kernel.
    pub open spec fn in_user_space(self, addr: int) -> bool {
        0 < addr < self.kernel_base
    }

    /// The byte that is read at a user address, `None` where that faults.
    pub open spec fn load(self, addr: int) -> Option<u8> {
        if self.in_user_space(addr) && self.bytes.contains_key(addr as usize) {
            Some(self.bytes[addr as usize])
        } else {
            None
        }
    }

    /// Whether a byte can be written at a user address.
    pub open spec fn can_store(self, addr: int) -> bool {
        self.in_user_space(addr) && self.writable.contains(addr as usize)
    }

    /// The memory after a byte has been written.
    pub open spec fn stored(self, addr: int, value: u8) -> MemState {
        MemState { bytes: self.bytes.insert(addr as usize, value), ..self }
    }

    /// The memory after some bytes have been written, one behind the other.
    pub open spec fn stored_all(self, addr: int, values: Seq<u8>) -> MemState {
        MemState {
            bytes: Map::new(
                |a: usize| self.bytes.contains_key(a) || addr <= a < addr + values.len(),
                |a: usize|
                    if addr <= a < addr + values.len() {
                        values[a - addr]
                    } else {
                        self.bytes[a]
                    },
            ),
            ..self
        }
    }

    /// Whether all bytes of a range can be read.
    pub open spec fn all_readable(self, addr: int, len: nat) -> bool {
        forall|i: int| 0 <= i < len ==> (#[trigger] self.load(addr + i)) is Some
    }

    /// Whether all bytes of a range can be written.
    pub open spec fn all_writable(self, addr: int, len: nat) -> bool {
        forall|i: int| 0 <= i < len ==> #[trigger] self.can_store(addr + i)
    }

    /// The bytes of a range that can be read.
    pub open spec fn range(self, addr: int, len: nat) -> Seq<u8> {
        Seq::new(len, |i: int| self.load(addr + i)->0)
    }

    /// Whether `n` is how many bytes of a range can be read from its start on.
    pub open spec fn readable_for(self, addr: int, len: nat, n: nat) -> bool {
        &&& n <= len
        &&& self.all_readable(addr, n)
        &&& n < len ==> self.load(addr + n) is None
    }

    /// How many bytes of a range can be read, from its start on.
    pub open spec fn readable_len(self, addr: int, len: nat) -> nat {
        choose|n: nat| self.readable_for(addr, len, n)
    }

    /// Whether `n` is how many bytes of a range can be written from its start on.
    pub open spec fn writable_for(self, addr: int, len: nat, n: nat) -> bool {
        &&& n <= len
        &&& self.all_writable(addr, n)
        &&& n < len ==> !self.can_store(addr + n)
    }

    /// How many bytes of a range can be written, from its start on.
    pub open spec fn writable_len(self, addr: int, len: nat) -> nat {
        choose|n: nat| self.writable_for(addr, len, n)
    }

    /// The word that is read at a user address, `None` where that faults.
    pub open spec fn word(self, addr: int) -> Option<usize> {
        if self.all_readable(addr, word_size()) {
            Some(le_value(self.range(addr, word_size())) as usize)
        } else {
            None
        }
    }

    /// Whether `n` is how many bytes of a range can be read and are not zero, from
    /// its start on.
    pub open spec fn text_for(self, addr: int, len: nat, n: nat) -> bool {
        &&& n <= len
        &&& self.all_readable(addr, n)
        &&& !self.range(addr, n).contains(0)
        &&& n < len ==> (self.load(addr + n) is None || self.load(addr + n) == Some(0u8))
    }

    /// How many bytes of a range can be read and are not zero, from its start on.
    pub open spec fn text_len(self, addr: int, len: nat) -> nat {
        choose|n: nat| self.text_for(addr, len, n)
    }

    /// What is read of a C string that ends within `max_len` bytes: its bytes
    /// without the terminator, or why there is none.
    pub open spec fn cstring(self, addr: int, max_len: nat) -> Result<Seq<u8>, OsError> {
        let n = self.text_len(addr, max_len);
        if addr == 0 {
            Err(OsError::BadPtr)
        } else if n == max_len {
            Err(OsError::ArgumentTooLong)
        } else if self.load(addr + n) is None {
            Err(OsError::BadPtr)
        } else if !valid_utf8(self.range(addr, n)) {
            Err(OsError::CstrFormatErr)
        } else {
            Ok(self.range(addr, n))
        }
    }
}

/// There is one answer to how much of a range can be read.
pub proof fn lemma_readable_len_is(mem: MemState, addr: int, len: nat, n: nat)
    requires
        mem.readable_for(addr, len, n),
    ensures
        mem.readable_len(addr, len) == n,
        mem.all_readable(addr, len) <==> n == len,
{
    let k = mem.readable_len(addr, len);
    assert(mem.readable_for(addr, len, k));
    if k < n {
        assert(mem.load(addr + k) is Some);
    } else if n < k {
        assert(mem.load(addr + n) is Some);
    }
    if n < len && mem.all_readable(addr, len) {
        assert(mem.load(addr + n) is Some);
    }
}

/// There is one answer to how much of a range can be written.
pub proof fn lemma_writable_len_is(mem: MemState, addr: int, len: nat, n: nat)
    requires
        mem.writable_for(addr, len, n),
    ensures
        mem.writable_len(addr, len) == n,
        mem.all_writable(addr, len) <==> n == len,
{
    let k = mem.writable_len(addr, len);
    assert(mem.writable_for(addr, len, k));
    if k < n {
        assert(mem.can_store(addr + k));
    } else if n < k {
        assert(mem.can_store(addr + n));
    }
    if n < len && mem.all_writable(addr, len) {
        assert(mem.can_store(addr + n));
    }
}

/// What can be read is followed to its end, whatever the memory.
pub proof fn lemma_readable_len(mem: MemState, addr: int, len: nat)
    ensures
        mem.readable_for(addr, len, mem.readable_len(addr, len)),
    decreases len,
{
    if len == 0 {
        assert(mem.readable_for(addr, len, 0));
    } else {
        let shorter = (len - 1) as nat;
        lemma_readable_len(mem, addr, shorter);
        let n = mem.readable_len(addr, shorter);
        if n < shorter || mem.load(addr + n) is None {
            assert(mem.readable_for(addr, len, n));
        } else {
            assert forall|i: int| 0 <= i < len implies (#[trigger] mem.load(addr + i)) is Some by {}
            assert(mem.readable_for(addr, len, len));
        }
    }
}

/// What can be written is followed to its end, whatever the memory.
pub proof fn lemma_writable_len(mem: MemState, addr: int, len: nat)
    ensures
        mem.writable_for(addr, len, mem.writable_len(addr, len)),
    decreases len,
{
    if len == 0 {
        assert(mem.writable_for(addr, len, 0));
    } else {
        let shorter = (len - 1) as nat;
        lemma_writable_len(mem, addr, shorter);
        let n = mem.writable_len(addr, shorter);
        if n < shorter || !mem.can_store(addr + n) {
            assert(mem.writable_for(addr, len, n));
        } else {
            assert forall|i: int| 0 <= i < len implies #[trigger] mem.can_store(addr + i) by {}
            assert(mem.writable_for(addr, len, len));
        }
    }
}

/// There is one answer to how long a text is.
pub proof fn lemma_text_len_is(mem: MemState, addr: int, len: nat, n: nat)
    requires
        mem.text_for(addr, len, n),
    ensures
        mem.text_len(addr, len) == n,
{
    let k = mem.text_len(addr, len);
    assert(mem.text_for(addr, len, k));
    if k < n {
        assert(mem.load(addr + k) is Some);
        assert(mem.range(addr, n)[k as int] == 0);
    } else if n < k {
        assert(mem.load(addr + n) is Some);
        assert(mem.range(addr, k)[n as int] == 0);
    }
}

/// Text is followed to its end, whatever the memory.
pub proof fn lemma_text_len(mem: MemState, addr: int, len: nat)
    ensures
        mem.text_for(addr, len, mem.text_len(addr, len)),
    decreases len,
{
    if len == 0 {
        assert(mem.text_for(addr, len, 0));
    } else {
        let shorter = (len - 1) as nat;
        lemma_text_len(mem, addr, shorter);
        let n = mem.text_len(addr, shorter);
        if n < shorter {
            assert(mem.text_for(addr, len, n));
        } else if mem.load(addr + n) is None || mem.load(addr + n) == Some(0u8) {
            assert(mem.text_for(addr, len, n));
        } else {
            assert forall|i: int| 0 <= i < len implies (#[trigger] mem.load(addr + i)) is Some by {}
            assert forall|i: int| 0 <= i < len implies #[trigger] mem.range(addr, len)[i] != 0 by {
                if i < n {
                    assert(mem.range(addr, n)[i] == mem.range(addr, len)[i]);
                }
            }
            assert(mem.text_for(addr, len, len));
        }
    }
}

/// The string that some bytes encode. This is `String::from_utf8` of the standard
/// library: it takes the bytes as they are if they are valid UTF-8 and refuses
/// them otherwise.
#[verifier::external_body]
fn string_from_utf8(bytes: Vec<u8>) -> (string: Option<String>)
    ensures
        match string {
            Some(s) => valid_utf8(bytes@) && encode_utf8(s@) == bytes@,
            None => !valid_utf8(bytes@),
        },
{
    String::from_utf8(bytes).ok()
}

impl UserMemory {
    /// What can be written can be read: a byte that can be written is there.
    pub proof fn lemma_writable_is_readable(self)
        ensures
            forall|addr: usize| #[trigger]
                self@.writable.contains(addr) ==> self@.bytes.contains_key(addr),
            forall|addr: int, len: nat| #[trigger]
                self@.all_writable(addr, len) ==> self@.all_readable(addr, len),
    {
        assert forall|addr: int, len: nat| #[trigger]
            self@.all_writable(addr, len) implies self@.all_readable(addr, len) by {
            assert forall|i: int| 0 <= i < len implies (#[trigger] self@.load(
                addr + i,
            )) is Some by {
                assert(self@.can_store(addr + i));
            }
        }
    }

    /// Nothing is mapped yet.
    pub fn new(kernel_base: usize) -> (mem: Self)
        ensures
            mem@ == (MemState { kernel_base, bytes: Map::empty(), writable: Set::empty() }),
    {
        let mem = UserMemory { kernel_base, pages: BTreeMap::new() };
        assert(mem@.bytes =~= Map::empty());
        assert(mem@.writable =~= Set::empty());
        mem
    }

    /// Maps a page, in place of what was mapped there before.
    pub fn map_page(&mut self, number: usize, page: Page)
        ensures
            final(self)@.kernel_base == old(self)@.kernel_base,
            forall|addr: usize|
                #![trigger final(self)@.bytes.contains_key(addr)]
                if addr / PG_SIZE == number {
                    &&& final(self)@.bytes.contains_key(addr) <==> addr % PG_SIZE
                        < page.bytes@.len()
                    &&& final(self)@.bytes.contains_key(addr) ==> final(self)@.bytes[addr]
                        == page.bytes@[(addr % PG_SIZE) as int]
                    &&& final(self)@.writable.contains(addr) <==> page.writable && addr % PG_SIZE
                        < page.bytes@.len()
                } else {
                    &&& final(self)@.bytes.contains_key(addr) <==> old(self)@.bytes.contains_key(
                        addr,
                    )
                    &&& final(self)@.bytes.contains_key(addr) ==> final(self)@.bytes[addr]
                        == old(self)@.bytes[addr]
                    &&& final(self)@.writable.contains(addr) <==> old(self)@.writable.contains(addr)
                },
    {
        self.pages.insert(number, page);
    }

    /// A page that is mapped.
    pub fn page(&self, number: usize) -> (page: Option<&Page>)
        ensures
            forall|addr: usize|
                #![trigger self@.bytes.contains_key(addr)]
                addr / PG_SIZE == number ==> match page {
                    Some(page) => {
                        &&& self@.bytes.contains_key(addr) <==> addr % PG_SIZE
                            < page.bytes@.len()
                        &&& self@.bytes.contains_key(addr) ==> self@.bytes[addr]
                            == page.bytes@[(addr % PG_SIZE) as int]
                        &&& self@.writable.contains(addr) <==> page.writable && addr % PG_SIZE
                            < page.bytes@.len()
                    },
                    None => !self@.bytes.contains_key(addr),
                },
    {
        self.pages.get(&number)
    }

    /// Whether an address belongs to the kernel.
    pub fn in_kernel_space(&self, addr: usize) -> (kernel: bool)
        ensures
            kernel == (addr >= self@.kernel_base),
    {
        addr >= self.kernel_base
    }
}

/// Read a single byte from user space.
///
/// ## Return
/// - `Ok(byte)`
/// - `Err`: The pointer is null or points into the kernel, or a page fault
///   happened.
pub fn read_user_byte(mem: &UserMemory, user_src: usize) -> (byte: Result<u8, OsError>)
    ensures
        match mem@.load(user_src as int) {
            Some(value) => byte == Ok::<u8, OsError>(value),
            None => byte == Err::<u8, OsError>(OsError::BadPtr),
        },
{
    if user_src == 0 || mem.in_kernel_space(user_src) {
        return Err(OsError::BadPtr);
    }
    match mem.pages.get(&(user_src / PG_SIZE)) {
        Some(page) => {
            let offset = user_src % PG_SIZE;
            if offset < page.bytes.len() {
                Ok(page.bytes[offset])
            } else {
                Err(OsError::BadPtr)
            }
        },
        None => Err(OsError::BadPtr),
    }
}

/// Write a single byte to user space.
///
/// ## Return
/// - `Ok(())`
/// - `Err`: The pointer is null or points into the kernel, or a page fault
///   happened.
pub fn write_user_byte(mem: &mut UserMemory, user_dst: usize, value: u8) -> (done: Result<
    (),
    OsError,
>)
    ensures
        if old(mem)@.can_store(user_dst as int) {
            &&& done == Ok::<(), OsError>(())
            &&& final(mem)@ == old(mem)@.stored(user_dst as int, value)
        } else {
            &&& done == Err::<(), OsError>(OsError::BadPtr)
            &&& final(mem)@ == old(mem)@
        },
{
    if user_dst == 0 || mem.in_kernel_space(user_dst) {
        return Err(OsError::BadPtr);
    }
    let number = user_dst / PG_SIZE;
    let offset = user_dst % PG_SIZE;
    let writable = match mem.pages.get(&number) {
        Some(page) => page.writable && offset < page.bytes.len(),
        None => false,
    };
    if !writable {
        return Err(OsError::BadPtr);
    }
    let mut page = mem.pages.remove(&number).unwrap();
    page.bytes[offset] = value;
    mem.pages.insert(number, page);
    proof {
        let after = old(mem)@.stored(user_dst as int, value);
        assert forall|addr: usize| mem@.bytes.contains_key(addr) implies #[trigger] mem@.bytes[addr]
            == after.bytes[addr] by {
            if addr / PG_SIZE == number && addr % PG_SIZE == offset {
                assert(addr == user_dst);
            }
        }
        assert(mem@.bytes.dom() =~= after.bytes.dom());
        assert(mem@.bytes =~= after.bytes);
        assert(mem@.writable =~= after.writable);
    }
    Ok(())
}

/// Copies a user buffer into a kernel buffer. Where that fails, the bytes in front
/// of the fault have been copied.
pub fn copy_from_user(mem: &UserMemory, user_src: usize, dst: &mut Vec<u8>) -> (done: Result<
    (),
    OsError,
>)
    ensures
        done == (if mem@.all_readable(user_src as int, old(dst)@.len()) {
            Ok::<(), OsError>(())
        } else {
            Err(OsError::BadPtr)
        }),
        ({
            let n = mem@.readable_len(user_src as int, old(dst)@.len());
            &&& n <= old(dst)@.len()
            &&& final(dst)@ == mem@.range(user_src as int, n) + old(dst)@.skip(n as int)
        }),
{
    let ghost before = dst@;
    let mut i: usize = 0;
    while i < dst.len()
        invariant
            i <= dst@.len() == before.len(),
            before == old(dst)@,
            mem@.all_readable(user_src as int, i as nat),
            forall|j: int| 0 <= j < i ==> #[trigger] dst@[j] == mem@.load(user_src + j)->0,
            forall|j: int| i <= j < before.len() ==> #[trigger] dst@[j] == before[j],
        decreases dst@.len() - i,
    {
        proof {
            if i > 0 {
                assert(mem@.load(user_src + (i - 1)) is Some);
            }
        }
        match read_user_byte(mem, user_src + i) {
            Ok(byte) => {
                dst[i] = byte;
            },
            Err(err) => {
                proof {
                    assert(mem@.readable_for(user_src as int, before.len(), i as nat));
                    lemma_readable_len_is(mem@, user_src as int, before.len(), i as nat);
                    assert(dst@ =~= mem@.range(user_src as int, i as nat) + before.skip(i as int));
                }
                return Err(err);
            },
        }
        i = i + 1;
    }
    proof {
        assert(mem@.readable_for(user_src as int, before.len(), i as nat));
        lemma_readable_len_is(mem@, user_src as int, before.len(), i as nat);
        assert(dst@ =~= mem@.range(user_src as int, i as nat) + before.skip(i as int));
    }
    Ok(())
}

/// The bytes of a user buffer.
pub fn read_user_bytes(mem: &UserMemory, user_src: usize, len: usize) -> (bytes: Result<
    Vec<u8>,
    OsError,
>)
    ensures
        match bytes {
            Ok(bytes) => {
                &&& mem@.all_readable(user_src as int, len as nat)
                &&& bytes@ == mem@.range(user_src as int, len as nat)
            },
            Err(err) => {
                &&& !mem@.all_readable(user_src as int, len as nat)
                &&& err == OsError::BadPtr
            },
        },
{
    let mut bytes: Vec<u8> = Vec::new();
    let mut i: usize = 0;
    while i < len
        invariant
            i <= len,
            mem@.all_readable(user_src as int, i as nat),
            bytes@ == mem@.range(user_src as int, i as nat),
        decreases len - i,
    {
        proof {
            if i > 0 {
                assert(mem@.load(user_src + (i - 1)) is Some);
            }
        }
        match read_user_byte(mem, user_src + i) {
            Ok(byte) => {
                bytes.push(byte);
                assert(bytes@ =~= mem@.range(user_src as int, i as nat + 1));
            },
            Err(err) => {
                assert(mem@.load(user_src + i) is None);
                return Err(err);
            },
        }
        i = i + 1;
    }
    Ok(bytes)
}

/// Copies a kernel buffer into a user buffer. Where that fails, the bytes in front
/// of the fault have been copied.
pub fn copy_to_user(mem: &mut UserMemory, user_dst: usize, src: &Vec<u8>) -> (done: Result<
    (),
    OsError,
>)
    ensures
        done == (if old(mem)@.all_writable(user_dst as int, src@.len()) {
            Ok::<(), OsError>(())
        } else {
            Err(OsError::BadPtr)
        }),
        ({
            let n = old(mem)@.writable_len(user_dst as int, src@.len());
            &&& n <= src@.len()
            &&& final(mem)@ == old(mem)@.stored_all(user_dst as int, src@.take(n as int))
        }),
{
    let mut i: usize = 0;
    assert(mem@ =~= old(mem)@.stored_all(user_dst as int, src@.take(0)));
    while i < src.len()
        invariant
            i <= src@.len(),
            old(mem)@.all_writable(user_dst as int, i as nat),
            mem@ == old(mem)@.stored_all(user_dst as int, src@.take(i as int)),
        decreases src@.len() - i,
    {
        proof {
            if i > 0 {
                assert(old(mem)@.can_store(user_dst + (i - 1)));
            }
            assert(mem@.can_store(user_dst + i) == old(mem)@.can_store(user_dst + i));
        }
        let ghost before = mem@;
        match write_user_byte(mem, user_dst + i, src[i]) {
            Ok(_) => {
                assert(before.stored(user_dst + i, src@[i as int]) =~= old(mem)@.stored_all(
                    user_dst as int,
                    src@.take(i as int + 1),
                ));
            },
            Err(err) => {
                proof {
                    assert(old(mem)@.writable_for(user_dst as int, src@.len(), i as nat));
                    lemma_writable_len_is(old(mem)@, user_dst as int, src@.len(), i as nat);
                }
                return Err(err);
            },
        }
        i = i + 1;
    }
    proof {
        assert(old(mem)@.writable_for(user_dst as int, src@.len(), i as nat));
        lemma_writable_len_is(old(mem)@, user_dst as int, src@.len(), i as nat);
    }
    Ok(())
}

/// Ensures a user buffer is writable across the whole range, by writing to each
/// byte what stands there.
pub fn validate_writable(mem: &mut UserMemory, user_dst: usize, len: usize) -> (done: Result<
    (),
    OsError,
>)
    ensures
        done == (if old(mem)@.all_readable(user_dst as int, len as nat)
            && old(mem)@.all_writable(user_dst as int, len as nat) {
            Ok::<(), OsError>(())
        } else {
            Err(OsError::BadPtr)
        }),
        final(mem)@ == old(mem)@,
{
    let mut i: usize = 0;
    while i < len
        invariant
            i <= len,
            mem@ == old(mem)@,
            mem@.all_readable(user_dst as int, i as nat),
            mem@.all_writable(user_dst as int, i as nat),
        decreases len - i,
    {
        proof {
            if i > 0 {
                assert(mem@.load(user_dst + (i - 1)) is Some);
            }
        }
        let ptr = user_dst + i;
        let byte = match read_user_byte(mem, ptr) {
            Ok(byte) => byte,
            Err(err) => {
                assert(mem@.load(user_dst + i) is None);
                return Err(err);
            },
        };
        match write_user_byte(mem, ptr, byte) {
            Ok(_) => {
                assert(mem@ =~= old(mem)@);
            },
            Err(err) => {
                assert(!mem@.can_store(user_dst + i));
                return Err(err);
            },
        }
        i = i + 1;
    }
    Ok(())
}

/// Reads a machine word from user space.
pub fn read_usize(mem: &UserMemory, user_src: usize) -> (word: Result<usize, OsError>)
    ensures
        match mem@.word(user_src as int) {
            Some(value) => word == Ok::<usize, OsError>(value),
            None => word == Err::<usize, OsError>(OsError::BadPtr),
        },
{
    let size = size_of_word();
    let mut buf: Vec<u8> = Vec::new();
    buf.resize(size, 0);
    match copy_from_user(mem, user_src, &mut buf) {
        Ok(_) => {
            proof {
                assert(mem@.readable_for(user_src as int, size as nat, size as nat));
                lemma_readable_len_is(mem@, user_src as int, size as nat, size as nat);
                assert(buf@ =~= mem@.range(user_src as int, size as nat));
                lemma_le_value_bound(buf@);
                lemma_word_size();
            }
            Ok(from_le_bytes(&buf) as usize)
        },
        Err(err) => Err(err),
    }
}

/// Reads a `\0`-terminated C string from user space.
pub fn read_cstring(mem: &UserMemory, user_src: usize, max_len: usize) -> (string: Result<
    String,
    OsError,
>)
    ensures
        match mem@.cstring(user_src as int, max_len as nat) {
            Ok(bytes) => string is Ok && encode_utf8(string->Ok_0@) == bytes,
            Err(err) => string == Err::<String, OsError>(err),
        },
{
    if user_src == 0 {
        return Err(OsError::BadPtr);
    }
    let mut buf: Vec<u8> = Vec::new();
    let mut i: usize = 0;
    while i < max_len
        invariant
            user_src != 0,
            i <= max_len,
            mem@.all_readable(user_src as int, i as nat),
            buf@ == mem@.range(user_src as int, i as nat),
            !buf@.contains(0),
        decreases max_len - i,
    {
        proof {
            if i > 0 {
                assert(mem@.load(user_src + (i - 1)) is Some);
            }
        }
        let ch = match read_user_byte(mem, user_src + i) {
            Ok(ch) => ch,
            Err(err) => {
                proof {
                    lemma_text_len_is(mem@, user_src as int, max_len as nat, i as nat);
                }
                return Err(err);
            },
        };
        if ch == 0 {
            proof {
                lemma_text_len_is(mem@, user_src as int, max_len as nat, i as nat);
            }
            return match string_from_utf8(buf) {
                Some(string) => Ok(string),
                None => Err(OsError::CstrFormatErr),
            };
        }
        let ghost before = buf@;
        buf.push(ch);
        proof {
            assert(buf@ =~= mem@.range(user_src as int, i as nat + 1));
            assert forall|k: int| 0 <= k < buf@.len() implies #[trigger] buf@[k] != 0 by {
                if k < before.len() {
                    assert(before[k] == buf@[k]);
                    assert(before.contains(before[k]));
                }
            }
        }
        i = i + 1;
    }
    proof {
        lemma_text_len_is(mem@, user_src as int, max_len as nat, i as nat);
    }
    Err(OsError::ArgumentTooLong)
}

} // verus!
