//! Host-readable ring buffer with its discovery block.
//!
//! A debugger finds the block by its identifier tag and reads the bytes of
//! the single "up" channel out of the backing storage. The producer never
//! looks at the host's read offset: unread bytes are overwritten.

use vstd::prelude::*;
use vstd::string::StringSliceAdditionalSpecFns;
use crate::transport::Transport;

verus! {

/// Bytes of backing storage that [`ControlBlock::new`] allocates.
pub const BUFFER_SIZE: u32 = 1024;

/// Length of the identifier tag.
pub const ID_LEN: usize = 16;

/// Length of the discovery block in memory without its two pointers.
pub const BLOCK_LEN: usize = 40;

/// The identifier tag: "SEGGER RTT", zero-padded to sixteen bytes.
pub open spec fn id_tag() -> Seq<u8> {
    seq![
        0x53u8, 0x45u8, 0x47u8, 0x47u8, 0x45u8, 0x52u8, 0x20u8, 0x52u8,
        0x54u8, 0x54u8, 0u8, 0u8, 0u8, 0u8, 0u8, 0u8,
    ]
}

/// The channel name with its terminating zero: "Terminal".
pub open spec fn channel_name() -> Seq<u8> {
    seq![0x54u8, 0x65u8, 0x72u8, 0x6du8, 0x69u8, 0x6eu8, 0x61u8, 0x6cu8, 0u8]
}

/// The offset that follows `offset` in a buffer of `capacity` bytes.
pub open spec fn next_offset(offset: int, capacity: int) -> int {
    if offset + 1 >= capacity {
        0
    } else {
        offset + 1
    }
}

/// The storage after the producer has put `data` into it byte by byte,
/// starting at `offset` and wrapping to the start at the end.
pub open spec fn ring_put(storage: Seq<u8>, offset: int, data: Seq<u8>) -> Seq<u8>
    decreases data.len(),
{
    if data.len() == 0 {
        storage
    } else {
        ring_put(
            storage.update(offset, data[0]),
            next_offset(offset, storage.len() as int),
            data.drop_first(),
        )
    }
}

/// The write offset after `count` bytes have gone in from `offset`.
pub open spec fn ring_offset(offset: int, capacity: int, count: int) -> int {
    (offset + count) % capacity
}

/// How many bytes one call of the channel's write takes: what fits before
/// the end of the storage, and no more than is offered.
pub open spec fn write_count(capacity: int, offset: int, len: int) -> int {
    if len < capacity - offset {
        len
    } else {
        capacity - offset
    }
}

/// How many writes of the channel it takes until a payload of `len` bytes
/// has gone in, where each is offered what the last one left: one where the
/// payload fits before the end of the storage, else one to the end and then
/// those for the rest, from the start.
pub open spec fn ring_writes(capacity: int, offset: int, len: int) -> nat
    decreases len,
{
    if len <= capacity - offset || capacity - offset <= 0 {
        1
    } else {
        1 + ring_writes(capacity, 0, len - (capacity - offset))
    }
}

/// The storage after one call of the channel's write: the first
/// `write_count` bytes of `data` lie at `offset`, the rest is as before.
pub open spec fn write_once(storage: Seq<u8>, offset: int, data: Seq<u8>) -> Seq<u8> {
    let count = write_count(storage.len() as int, offset, data.len() as int);
    storage.subrange(0, offset) + data.subrange(0, count) + storage.subrange(
        offset + count,
        storage.len() as int,
    )
}

/// The little-endian bytes of a 32-bit word.
pub open spec fn le_bytes(word: u32) -> Seq<u8> {
    seq![
        (word % 256) as u8,
        ((word / 256) % 256) as u8,
        ((word / 65536) % 256) as u8,
        ((word / 16777216) % 256) as u8,
    ]
}

/// The little-endian bytes of a 64-bit word.
pub open spec fn le_bytes_wide(word: u64) -> Seq<u8> {
    le_bytes((word % 0x1_0000_0000) as u32) + le_bytes((word / 0x1_0000_0000) as u32)
}

/// The addresses at which the channel's name and its storage lie, in the
/// pointer width of the target.
#[allow(inconsistent_fields)]
#[derive(Clone, Copy, Debug, PartialEq, Eq, Structural)]
pub enum Pointers {
    /// 32-bit pointers.
    Narrow { name: u32, buffer: u32 },
    /// 64-bit pointers.
    Wide { name: u64, buffer: u64 },
}

impl Pointers {
    /// The two pointers as they lie in memory, the name's first.
    pub open spec fn bytes(&self) -> Seq<u8> {
        match *self {
            Pointers::Narrow { name, buffer } => le_bytes(name) + le_bytes(buffer),
            Pointers::Wide { name, buffer } => le_bytes_wide(name) + le_bytes_wide(buffer),
        }
    }

    /// Bytes per pointer.
    pub open spec fn width(&self) -> int {
        match *self {
            Pointers::Narrow { .. } => 4,
            Pointers::Wide { .. } => 8,
        }
    }
}

/// The "up" channel: backing storage and the offsets into it.
pub struct Buffer {
    storage: Vec<u8>,
    size_of_buffer: u32,
    write_offset: u32,
    read_offset: u32,
    flags: u32,
}

/// What a channel holds: the bytes of its storage and the two offsets.
/// The capacity is the length of the storage.
pub struct ChannelView {
    pub storage: Seq<u8>,
    pub write_offset: int,
    pub read_offset: int,
}

/// The discovery block with its single "up" channel.
pub struct ControlBlock {
    id: [u8; 16],
    up_buffers: i32,
    down_buffers: i32,
    up: Buffer,
}

/// The discovery block as it lies in memory on a little-endian target:
/// tag, the two channel counts, then the channel's name pointer, storage
/// pointer, capacity, write offset, read offset and flags.
pub open spec fn block_bytes(channel: ChannelView, pointers: Pointers) -> Seq<u8> {
    id_tag() + le_bytes(1u32) + le_bytes(0u32) + pointers.bytes() + le_bytes(
        channel.storage.len() as u32,
    ) + le_bytes(channel.write_offset as u32) + le_bytes(channel.read_offset as u32) + le_bytes(
        0u32,
    )
}

impl View for ControlBlock {
    type V = ChannelView;

    closed spec fn view(&self) -> ChannelView {
        ChannelView {
            storage: self.up.storage@,
            write_offset: self.up.write_offset as int,
            read_offset: self.up.read_offset as int,
        }
    }
}

impl ControlBlock {
    /// The fixed part of the block is in place: the tag, one "up" channel,
    /// no "down" channel, no flags, and the capacity field is the length of
    /// the storage.
    pub closed spec fn tagged(&self) -> bool {
        &&& self.id@ == id_tag()
        &&& self.up_buffers == 1
        &&& self.down_buffers == 0
        &&& self.up.flags == 0
        &&& self.up.size_of_buffer == self.up.storage@.len()
    }

    /// The block is well formed: its fixed part is in place and the write
    /// offset lies inside the storage.
    pub open spec fn wf(&self) -> bool {
        &&& self.tagged()
        &&& 0 <= self@.write_offset < self@.storage.len() <= u32::MAX
        &&& 0 <= self@.read_offset <= u32::MAX
    }

    /// A block over `BUFFER_SIZE` zero bytes, with both offsets at the start.
    pub fn new() -> (block: Self)
        ensures
            block.wf(),
            block@.storage == Seq::new(BUFFER_SIZE as nat, |i: int| 0u8),
            block@.write_offset == 0,
            block@.read_offset == 0,
    {
        Self::with_capacity(BUFFER_SIZE)
    }

    /// A block over `capacity` zero bytes, with both offsets at the start.
    pub fn with_capacity(capacity: u32) -> (block: Self)
        requires
            capacity > 0,
        ensures
            block.wf(),
            block@.storage == Seq::new(capacity as nat, |i: int| 0u8),
            block@.write_offset == 0,
            block@.read_offset == 0,
    {
        let mut storage: Vec<u8> = Vec::new();
        let mut i: u32 = 0;
        while i < capacity
            invariant
                i <= capacity,
                storage@ == Seq::new(i as nat, |k: int| 0u8),
            decreases capacity - i,
        {
            storage.push(0u8);
            i = i + 1;
            assert(storage@ =~= Seq::new(i as nat, |k: int| 0u8));
        }
        let id: [u8; 16] = [
            0x53u8, 0x45u8, 0x47u8, 0x47u8, 0x45u8, 0x52u8, 0x20u8, 0x52u8,
            0x54u8, 0x54u8, 0u8, 0u8, 0u8, 0u8, 0u8, 0u8,
        ];
        assert(id@ =~= id_tag());
        ControlBlock {
            id,
            up_buffers: 1,
            down_buffers: 0,
            up: Buffer { storage, size_of_buffer: capacity, write_offset: 0, read_offset: 0, flags: 0 },
        }
    }

    /// The capacity of the storage in bytes.
    pub fn capacity(&self) -> (capacity: u32)
        requires
            self.wf(),
        ensures
            capacity == self@.storage.len(),
    {
        self.up.size_of_buffer
    }

    /// Where the producer puts the next byte.
    pub fn write_offset(&self) -> (offset: u32)
        ensures
            offset == self@.write_offset,
    {
        self.up.write_offset
    }

    /// Where the host says it reads the next byte.
    pub fn read_offset(&self) -> (offset: u32)
        ensures
            offset == self@.read_offset,
    {
        self.up.read_offset
    }

    /// The bytes of the storage, from its start.
    pub fn storage(&self) -> (bytes: &[u8])
        ensures
            bytes@ == self@.storage,
    {
        self.up.storage.as_slice()
    }

    /// Records how far the host has read. Only the host's side calls this;
    /// the storage and the write offset stay as they are.
    pub fn set_read_offset(&mut self, offset: u32)
        requires
            old(self).wf(),
        ensures
            final(self).wf(),
            final(self)@ == (ChannelView { read_offset: offset as int, ..old(self)@ }),
    {
        self.up.read_offset = offset;
    }

    /// One write of the channel: takes what fits before the end of the
    /// storage, at most one wrap of the offset, and says how many bytes it
    /// took. The caller offers the rest again. The host's read offset is
    /// neither read nor changed, so unread bytes may be overwritten.
    pub fn write_bytes_internal(&mut self, bytes: &[u8]) -> (count: usize)
        requires
            old(self).wf(),
        ensures
            final(self).wf(),
            count == write_count(
                old(self)@.storage.len() as int,
                old(self)@.write_offset,
                bytes@.len() as int,
            ),
            final(self)@.storage == write_once(old(self)@.storage, old(self)@.write_offset, bytes@),
            final(self)@.write_offset == ring_offset(
                old(self)@.write_offset,
                old(self)@.storage.len() as int,
                count as int,
            ),
            final(self)@.read_offset == old(self)@.read_offset,
    {
        let capacity: usize = self.up.size_of_buffer as usize;
        let offset: usize = self.up.write_offset as usize;
        let room: usize = capacity - offset;
        let count: usize = if bytes.len() < room { bytes.len() } else { room };
        let mut i: usize = 0;
        while i < count
            invariant
                i <= count,
                count <= bytes@.len(),
                offset + count <= capacity,
                capacity == old(self)@.storage.len(),
                self.id == old(self).id,
                self.up_buffers == old(self).up_buffers,
                self.down_buffers == old(self).down_buffers,
                self.up.size_of_buffer == old(self).up.size_of_buffer,
                self.up.write_offset == old(self).up.write_offset,
                self.up.read_offset == old(self).up.read_offset,
                self.up.flags == old(self).up.flags,
                self.up.storage@ == old(self)@.storage.subrange(0, offset as int)
                    + bytes@.subrange(0, i as int) + old(self)@.storage.subrange(
                    offset + i,
                    capacity as int,
                ),
            decreases count - i,
        {
            self.up.storage.set(offset + i, bytes[i]);
            i = i + 1;
            assert(self.up.storage@ =~= old(self)@.storage.subrange(0, offset as int)
                + bytes@.subrange(0, i as int) + old(self)@.storage.subrange(
                offset + i,
                capacity as int,
            ));
        }
        let end: usize = offset + count;
        if end >= capacity {
            self.up.write_offset = 0;
        } else {
            self.up.write_offset = end as u32;
        }
        proof {
            if end >= capacity {
                assert((offset + count) % (capacity as int) == 0) by {
                    vstd::arithmetic::div_mod::lemma_mod_self_0(capacity as int);
                }
            } else {
                vstd::arithmetic::div_mod::lemma_small_mod(end as nat, capacity as nat);
            }
        }
        count
    }

    /// One write of the channel, of the bytes of a string.
    pub fn write_str_internal(&mut self, s: &str) -> (count: usize)
        requires
            old(self).wf(),
        ensures
            final(self).wf(),
            count == write_count(
                old(self)@.storage.len() as int,
                old(self)@.write_offset,
                s.spec_bytes().len() as int,
            ),
            final(self)@.storage == write_once(
                old(self)@.storage,
                old(self)@.write_offset,
                s.spec_bytes(),
            ),
            final(self)@.write_offset == ring_offset(
                old(self)@.write_offset,
                old(self)@.storage.len() as int,
                count as int,
            ),
            final(self)@.read_offset == old(self)@.read_offset,
    {
        self.write_bytes_internal(s.as_bytes())
    }

    /// The discovery block as a host finds it in memory, given the addresses
    /// at which the channel's name and its storage lie.
    pub fn to_bytes(&self, pointers: Pointers) -> (bytes: Vec<u8>)
        requires
            self.wf(),
        ensures
            bytes@ == block_bytes(self@, pointers),
            bytes@.len() == BLOCK_LEN + 2 * pointers.width(),
    {
        proof {
            lemma_block_layout(self@, pointers);
        }
        let mut bytes: Vec<u8> = Vec::new();
        let mut i: usize = 0;
        while i < ID_LEN
            invariant
                i <= ID_LEN,
                self.id@ == id_tag(),
                bytes@ == id_tag().subrange(0, i as int),
            decreases ID_LEN - i,
        {
            bytes.push(self.id[i]);
            i = i + 1;
            assert(bytes@ =~= id_tag().subrange(0, i as int));
        }
        assert(bytes@ =~= id_tag());
        push_le(&mut bytes, self.up_buffers as u32);
        push_le(&mut bytes, self.down_buffers as u32);
        let ghost head = bytes@;
        match pointers {
            Pointers::Narrow { name, buffer } => {
                push_le(&mut bytes, name);
                push_le(&mut bytes, buffer);
            },
            Pointers::Wide { name, buffer } => {
                push_le(&mut bytes, (name % 0x1_0000_0000) as u32);
                push_le(&mut bytes, (name / 0x1_0000_0000) as u32);
                push_le(&mut bytes, (buffer % 0x1_0000_0000) as u32);
                push_le(&mut bytes, (buffer / 0x1_0000_0000) as u32);
            },
        }
        assert(bytes@ =~= head + pointers.bytes());
        push_le(&mut bytes, self.up.size_of_buffer);
        push_le(&mut bytes, self.up.write_offset);
        push_le(&mut bytes, self.up.read_offset);
        push_le(&mut bytes, self.up.flags);
        bytes
    }
}

impl Transport for ControlBlock {
    open spec fn wf(&self) -> bool {
        ControlBlock::wf(self)
    }

    /// The storage holds the bytes as the stream put them, the write offset
    /// has advanced by their number modulo the capacity, and the read offset
    /// is untouched.
    open spec fn consumed(&self, bytes: Seq<u8>, after: Self) -> bool {
        &&& after@.storage == ring_put(self@.storage, self@.write_offset, bytes)
        &&& after@.write_offset == ring_offset(
            self@.write_offset,
            self@.storage.len() as int,
            bytes.len() as int,
        )
        &&& after@.read_offset == self@.read_offset
    }

    open spec fn takes(&self, len: nat) -> nat {
        write_count(self@.storage.len() as int, self@.write_offset, len as int) as nat
    }

    open spec fn writes_for(&self, len: nat) -> nat {
        ring_writes(self@.storage.len() as int, self@.write_offset, len as int)
    }

    proof fn lemma_writes_for(&self, len: nat, taken: Seq<u8>, after: Self) {
        let capacity = self@.storage.len() as int;
        let offset = self@.write_offset;
        lemma_ring_put_len(self@.storage, offset, taken);
        if len > capacity - offset {
            vstd::arithmetic::div_mod::lemma_mod_self_0(capacity);
        }
    }

    proof fn lemma_consumed_nothing(&self) {
        vstd::arithmetic::div_mod::lemma_small_mod(
            self@.write_offset as nat,
            self@.storage.len() as nat,
        );
    }

    proof fn lemma_consumed_concat(&self, first: Seq<u8>, mid: Self, second: Seq<u8>, after: Self) {
        let capacity = self@.storage.len() as int;
        lemma_ring_put_concat(self@.storage, self@.write_offset, first, second);
        lemma_ring_put_len(self@.storage, self@.write_offset, first);
        vstd::arithmetic::div_mod::lemma_add_mod_noop_right(
            second.len() as int,
            self@.write_offset + first.len(),
            capacity,
        );
    }

    /// One write of the channel: takes what fits before the end of the
    /// storage.
    fn write(&mut self, bytes: &[u8]) -> (count: usize)
        ensures
            count == write_count(
                old(self)@.storage.len() as int,
                old(self)@.write_offset,
                bytes@.len() as int,
            ),
            final(self)@.storage == write_once(old(self)@.storage, old(self)@.write_offset, bytes@),
    {
        let ghost before = self@;
        let count = self.write_bytes_internal(bytes);
        proof {
            lemma_write_once_is_ring_put(before.storage, before.write_offset, bytes@);
        }
        count
    }
}

/// Appends the little-endian bytes of `word`.
fn push_le(out: &mut Vec<u8>, word: u32)
    ensures
        final(out)@ == old(out)@ + le_bytes(word),
{
    out.push((word % 256) as u8);
    out.push(((word / 256) % 256) as u8);
    out.push(((word / 65536) % 256) as u8);
    out.push(((word / 16777216) % 256) as u8);
    assert(out@ =~= old(out)@ + le_bytes(word));
}

/// The channel's name as the name pointer of the block finds it: "Terminal"
/// and a terminating zero.
pub fn channel_name_bytes() -> (name: Vec<u8>)
    ensures
        name@ == channel_name(),
{
    let name: Vec<u8> = vec![0x54u8, 0x65u8, 0x72u8, 0x6du8, 0x69u8, 0x6eu8, 0x61u8, 0x6cu8, 0u8];
    assert(name@ =~= channel_name());
    name
}

/// Putting bytes in never changes the length of the storage.
pub proof fn lemma_ring_put_len(storage: Seq<u8>, offset: int, data: Seq<u8>)
    requires
        0 <= offset < storage.len(),
    ensures
        ring_put(storage, offset, data).len() == storage.len(),
    decreases data.len(),
{
    if data.len() > 0 {
        lemma_ring_put_len(
            storage.update(offset, data[0]),
            next_offset(offset, storage.len() as int),
            data.drop_first(),
        );
    }
}

/// Stepping the offset once and then `count - 1` times more is stepping it
/// `count` times.
proof fn lemma_offset_step(offset: int, capacity: int, count: int)
    requires
        0 <= offset < capacity,
    ensures
        ring_offset(next_offset(offset, capacity), capacity, count - 1) == ring_offset(
            offset,
            capacity,
            count,
        ),
{
    if offset + 1 >= capacity {
        vstd::arithmetic::div_mod::lemma_mod_add_multiples_vanish(count - 1, capacity);
    }
}

/// Bytes that fit before the end of the storage land in one piece at the
/// offset, and nothing else changes.
pub proof fn lemma_ring_put_no_wrap(storage: Seq<u8>, offset: int, data: Seq<u8>)
    requires
        0 <= offset < storage.len(),
        data.len() <= storage.len() - offset,
    ensures
        ring_put(storage, offset, data) == storage.subrange(0, offset) + data + storage.subrange(
            offset + data.len(),
            storage.len() as int,
        ),
    decreases data.len(),
{
    let expected = storage.subrange(0, offset) + data + storage.subrange(
        offset + data.len(),
        storage.len() as int,
    );
    if data.len() == 0 {
        assert(expected =~= storage);
    } else {
        let put = storage.update(offset, data[0]);
        let rest = data.drop_first();
        if offset + 1 >= storage.len() {
            assert(rest.len() == 0);
            assert(ring_put(put, 0, rest) == put);
            assert(expected =~= put);
        } else {
            lemma_ring_put_no_wrap(put, offset + 1, rest);
            assert(expected =~= put.subrange(0, offset + 1) + rest + put.subrange(
                offset + 1 + rest.len(),
                put.len() as int,
            ));
        }
    }
}

/// Putting `first` and then `second` is putting the two as one stream: the
/// storage depends on the bytes and their order, not on how they were cut
/// into calls.
pub proof fn lemma_ring_put_concat(storage: Seq<u8>, offset: int, first: Seq<u8>, second: Seq<u8>)
    requires
        0 <= offset < storage.len(),
    ensures
        ring_put(storage, offset, first + second) == ring_put(
            ring_put(storage, offset, first),
            ring_offset(offset, storage.len() as int, first.len() as int),
            second,
        ),
    decreases first.len(),
{
    let capacity = storage.len() as int;
    if first.len() == 0 {
        assert(first + second =~= second);
        vstd::arithmetic::div_mod::lemma_small_mod(offset as nat, capacity as nat);
    } else {
        let put = storage.update(offset, first[0]);
        let next = next_offset(offset, capacity);
        assert((first + second).drop_first() =~= first.drop_first() + second);
        assert((first + second)[0] == first[0]);
        lemma_ring_put_concat(put, next, first.drop_first(), second);
        lemma_offset_step(offset, capacity, first.len() as int);
    }
}

/// One write of the channel puts the bytes it takes as the stream does.
pub proof fn lemma_write_once_is_ring_put(storage: Seq<u8>, offset: int, data: Seq<u8>)
    requires
        0 <= offset < storage.len(),
    ensures
        write_once(storage, offset, data) == ring_put(
            storage,
            offset,
            data.subrange(0, write_count(storage.len() as int, offset, data.len() as int)),
        ),
{
    let count = write_count(storage.len() as int, offset, data.len() as int);
    lemma_ring_put_no_wrap(storage, offset, data.subrange(0, count));
}

/// A payload that fits before the end of the storage is taken whole by one
/// write: it then lies at the old write offset, every other byte is as
/// before, and the write offset has advanced by its length (to the start,
/// where that reaches the end).
pub proof fn lemma_write_without_wrap(storage: Seq<u8>, offset: int, data: Seq<u8>)
    requires
        0 <= offset < storage.len(),
        data.len() <= storage.len() - offset,
    ensures
        write_count(storage.len() as int, offset, data.len() as int) == data.len(),
        write_once(storage, offset, data).len() == storage.len(),
        write_once(storage, offset, data).subrange(offset, offset + data.len()) == data,
        forall|i: int|
            0 <= i < storage.len() && !(offset <= i < offset + data.len()) ==> write_once(
                storage,
                offset,
                data,
            )[i] == storage[i],
        ring_offset(offset, storage.len() as int, data.len() as int) == if offset + data.len()
            == storage.len() {
            0
        } else {
            offset + data.len()
        },
{
    let capacity = storage.len() as int;
    assert(data.subrange(0, data.len() as int) =~= data);
    assert(write_once(storage, offset, data).subrange(offset, offset + data.len()) =~= data);
    if offset + data.len() == capacity {
        vstd::arithmetic::div_mod::lemma_mod_self_0(capacity);
    } else {
        vstd::arithmetic::div_mod::lemma_small_mod((offset + data.len()) as nat, capacity as nat);
    }
}

/// The discovery block begins with the tag, "SEGGER RTT" and six zero bytes,
/// then the count of "up" channels, one, and the count of "down" channels,
/// zero, each as four little-endian bytes. The two pointers follow, and
/// after them the capacity, the two offsets and the flags, four bytes each.
pub proof fn lemma_block_layout(channel: ChannelView, pointers: Pointers)
    ensures
        ({
            let bytes = block_bytes(channel, pointers);
            let fields = 24 + 2 * pointers.width();
            &&& bytes.len() == BLOCK_LEN + 2 * pointers.width()
            &&& bytes.subrange(0, 10) == seq![
                0x53u8, 0x45u8, 0x47u8, 0x47u8, 0x45u8, 0x52u8, 0x20u8, 0x52u8, 0x54u8, 0x54u8,
            ]
            &&& bytes.subrange(10, 16) == seq![0u8, 0u8, 0u8, 0u8, 0u8, 0u8]
            &&& bytes.subrange(16, 20) == seq![1u8, 0u8, 0u8, 0u8]
            &&& bytes.subrange(20, 24) == seq![0u8, 0u8, 0u8, 0u8]
            &&& bytes.subrange(24, fields) == pointers.bytes()
            &&& bytes.subrange(fields, fields + 4) == le_bytes(channel.storage.len() as u32)
            &&& bytes.subrange(fields + 4, fields + 8) == le_bytes(channel.write_offset as u32)
            &&& bytes.subrange(fields + 8, fields + 12) == le_bytes(channel.read_offset as u32)
            &&& bytes.subrange(fields + 12, fields + 16) == seq![0u8, 0u8, 0u8, 0u8]
        }),
{
    let bytes = block_bytes(channel, pointers);
    let fields = 24 + 2 * pointers.width();
    assert(pointers.bytes().len() == 2 * pointers.width());
    assert(bytes.subrange(0, 10) =~= seq![
        0x53u8, 0x45u8, 0x47u8, 0x47u8, 0x45u8, 0x52u8, 0x20u8, 0x52u8, 0x54u8, 0x54u8,
    ]);
    assert(bytes.subrange(10, 16) =~= seq![0u8, 0u8, 0u8, 0u8, 0u8, 0u8]);
    assert(bytes.subrange(16, 20) =~= seq![1u8, 0u8, 0u8, 0u8]);
    assert(bytes.subrange(20, 24) =~= seq![0u8, 0u8, 0u8, 0u8]);
    assert(bytes.subrange(24, fields) =~= pointers.bytes());
    assert(bytes.subrange(fields, fields + 4) =~= le_bytes(channel.storage.len() as u32));
    assert(bytes.subrange(fields + 4, fields + 8) =~= le_bytes(channel.write_offset as u32));
    assert(bytes.subrange(fields + 8, fields + 12) =~= le_bytes(channel.read_offset as u32));
    assert(bytes.subrange(fields + 12, fields + 16) =~= seq![0u8, 0u8, 0u8, 0u8]);
}

/// A payload of `capacity + k` bytes, offered from offset zero until it has
/// gone in whole, makes exactly two writes of the channel.
pub proof fn lemma_wrap_makes_two_writes(capacity: int, k: int)
    requires
        0 < k < capacity,
    ensures
        ring_writes(capacity, 0, capacity + k) == 2,
{
    assert(ring_writes(capacity, 0, k) == 1);
}

/// A payload of `capacity + k` bytes, written from offset zero, takes two
/// writes: the first takes `capacity` bytes and leaves the offset at the
/// start, the second takes the last `k`, and the storage then holds the last
/// `capacity` bytes of the payload, its tail wrapped to the head.
pub proof fn lemma_wrap_takes_two_writes(storage: Seq<u8>, data: Seq<u8>, k: int)
    requires
        storage.len() > 0,
        0 < k < storage.len(),
        data.len() == storage.len() + k,
    ensures
        ({
            let capacity = storage.len() as int;
            let first = write_count(capacity, 0, data.len() as int);
            let after_first = write_once(storage, 0, data);
            let rest = data.subrange(first, data.len() as int);
            let second = write_count(capacity, ring_offset(0, capacity, first), rest.len() as int);
            let after_second = write_once(after_first, ring_offset(0, capacity, first), rest);
            &&& first == capacity
            &&& ring_offset(0, capacity, first) == 0
            &&& second == k
            &&& ring_offset(0, capacity, second) == k
            &&& after_first == data.subrange(0, capacity)
            &&& after_second == data.subrange(capacity, capacity + k) + data.subrange(k, capacity)
            &&& after_second == ring_put(storage, 0, data)
        }),
{
    let capacity = storage.len() as int;
    vstd::arithmetic::div_mod::lemma_mod_self_0(capacity);
    vstd::arithmetic::div_mod::lemma_small_mod(k as nat, capacity as nat);
    let after_first = write_once(storage, 0, data);
    let rest = data.subrange(capacity, data.len() as int);
    let after_second = write_once(after_first, 0, rest);
    assert(after_first =~= data.subrange(0, capacity));
    assert(after_second =~= data.subrange(capacity, capacity + k) + data.subrange(k, capacity));
    lemma_write_once_is_ring_put(storage, 0, data);
    lemma_write_once_is_ring_put(after_first, 0, rest);
    assert(rest.subrange(0, k) =~= rest);
    lemma_ring_put_concat(storage, 0, data.subrange(0, capacity), rest);
    assert(data.subrange(0, capacity) + rest =~= data);
}

/// Once at least `capacity` bytes have gone in, the storage holds the most
/// recent `capacity` of them and nothing else: the oldest of these lies at
/// the write offset, and what the storage held before plays no part.
pub proof fn lemma_overwrite_keeps_latest(storage: Seq<u8>, offset: int, data: Seq<u8>)
    requires
        0 <= offset < storage.len(),
        data.len() >= storage.len(),
    ensures
        ({
            let capacity = storage.len() as int;
            let latest = data.subrange(data.len() - capacity, data.len() as int);
            let start = ring_offset(offset, capacity, data.len() - capacity);
            &&& 0 <= start < capacity
            &&& start == ring_offset(offset, capacity, data.len() as int)
            &&& ring_put(storage, offset, data) == latest.subrange(capacity - start, capacity)
                + latest.subrange(0, capacity - start)
        }),
{
    let capacity = storage.len() as int;
    let older = data.subrange(0, data.len() - capacity);
    let latest = data.subrange(data.len() - capacity, data.len() as int);
    let start = ring_offset(offset, capacity, data.len() - capacity);
    let before = ring_put(storage, offset, older);
    assert(0 <= start < capacity) by {
        vstd::arithmetic::div_mod::lemma_mod_bound(offset + data.len() - capacity, capacity);
    }
    assert(start == ring_offset(offset, capacity, data.len() as int)) by {
        vstd::arithmetic::div_mod::lemma_mod_add_multiples_vanish(
            offset + data.len() - capacity,
            capacity,
        );
    }
    assert(older + latest =~= data);
    lemma_ring_put_concat(storage, offset, older, latest);
    lemma_ring_put_len(storage, offset, older);
    let head = latest.subrange(0, capacity - start);
    let tail = latest.subrange(capacity - start, capacity);
    assert(head + tail =~= latest);
    lemma_ring_put_concat(before, start, head, tail);
    lemma_ring_put_no_wrap(before, start, head);
    let middle = ring_put(before, start, head);
    assert(ring_offset(start, capacity, capacity - start) == 0) by {
        vstd::arithmetic::div_mod::lemma_mod_self_0(capacity);
    }
    lemma_ring_put_no_wrap(middle, 0, tail);
    assert(ring_put(middle, 0, tail) =~= tail + head);
}

/// However the bytes were cut into writes: once a channel has taken at
/// least as many bytes as it holds, its storage is the most recent
/// `capacity` of them, the oldest at the write offset, and the host's read
/// offset is as it was.
pub proof fn lemma_channel_keeps_latest(before: ControlBlock, bytes: Seq<u8>, after: ControlBlock)
    requires
        before.wf(),
        before.consumed(bytes, after),
        bytes.len() >= before@.storage.len(),
    ensures
        ({
            let capacity = before@.storage.len() as int;
            let latest = bytes.subrange(bytes.len() - capacity, bytes.len() as int);
            let start = after@.write_offset;
            &&& 0 <= start < capacity
            &&& after@.storage == latest.subrange(capacity - start, capacity) + latest.subrange(
                0,
                capacity - start,
            )
            &&& after@.read_offset == before@.read_offset
        }),
{
    lemma_overwrite_keeps_latest(before@.storage, before@.write_offset, bytes);
}

} // verus!
