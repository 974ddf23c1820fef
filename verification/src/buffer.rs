//! The message buffer: a fixed number of bytes that holds one read from a
//! connection, with zeros after the bytes that were read.
use vstd::prelude::*;

verus! {

/// The number of bytes that a message buffer holds. A message that does not
/// fit is not supported: only its first `BUFFER_CAPACITY` bytes are kept.
pub const BUFFER_CAPACITY: usize = 4096;

/// A message buffer: always `BUFFER_CAPACITY` bytes. How many of them were
/// read is not stored in it; whoever filled it keeps that number.
pub type MessageBuffer = [u8; 4096];

/// A buffer's worth of bytes: the first `len` bytes of `data`, as far as
/// there are that many and they fit, and zeros after them.
pub open spec fn zero_padded(data: Seq<u8>, len: nat) -> Seq<u8> {
    Seq::new(
        BUFFER_CAPACITY as nat,
        |i: int|
            if i < len && i < data.len() {
                data[i]
            } else {
                0u8
            },
    )
}

/// The bytes of `buffer` from position `len` on are all zero.
pub open spec fn is_zero_padded(buffer: Seq<u8>, len: nat) -> bool {
    &&& buffer.len() == BUFFER_CAPACITY
    &&& forall|i: int| len <= i < buffer.len() ==> buffer[i] == 0
}

/// Padding gives a buffer that is padded, and changes nothing in one that
/// already is.
pub proof fn lemma_zero_padded(data: Seq<u8>, len: nat)
    ensures
        is_zero_padded(zero_padded(data, len), len),
        is_zero_padded(data, len) ==> zero_padded(data, len) == data,
{
    if is_zero_padded(data, len) {
        assert(zero_padded(data, len) =~= data);
    }
}

/// The number of bytes that count as read in a buffer for which nobody kept
/// that number: all up to the last byte that is not zero.
pub open spec fn content_length(buffer: Seq<u8>) -> nat
    decreases buffer.len(),
{
    if buffer.len() > 0 && buffer.last() == 0 {
        content_length(buffer.drop_last())
    } else {
        buffer.len()
    }
}

/// `len` is where the zeros at the end of `buffer` begin.
pub open spec fn is_content_length(buffer: Seq<u8>, len: int) -> bool {
    &&& 0 <= len <= buffer.len()
    &&& forall|i: int| len <= i < buffer.len() ==> buffer[i] == 0
    &&& len > 0 ==> buffer[len - 1] != 0
}

/// The content of a buffer of which `len` bytes were read: those bytes, and
/// none of what follows them. The padding is no content.
pub open spec fn content(buffer: Seq<u8>, len: nat) -> Seq<u8> {
    if len <= buffer.len() {
        buffer.take(len as int)
    } else {
        buffer
    }
}

/// The number of bytes that are taken for read where `len` is given as
/// their number: no more than a buffer holds.
pub open spec fn bounded_length(len: nat) -> nat {
    if len <= BUFFER_CAPACITY {
        len
    } else {
        BUFFER_CAPACITY as nat
    }
}

/// `content_length` is the one length that `is_content_length` accepts.
pub proof fn lemma_content_length(buffer: Seq<u8>)
    ensures
        is_content_length(buffer, content_length(buffer) as int),
        forall|len: int| is_content_length(buffer, len) ==> len == content_length(buffer),
    decreases buffer.len(),
{
    if buffer.len() > 0 && buffer.last() == 0 {
        let front = buffer.drop_last();
        lemma_content_length(front);
        let found = content_length(front) as int;
        assert forall|i: int| found <= i < buffer.len() implies buffer[i] == 0 by {
            if i < buffer.len() - 1 {
                assert(buffer[i] == front[i]);
            }
        }
        if found > 0 {
            assert(buffer[found - 1] == front[found - 1]);
        }
    }
    let found = content_length(buffer) as int;
    assert forall|len: int| is_content_length(buffer, len) implies len == found by {
        if len < found {
            assert(buffer[found - 1] == 0);
        } else if found < len {
            assert(buffer[len - 1] == 0);
        }
    }
}

/// The padding is never content. Of bytes that fit in a buffer and do not
/// end in a zero, the padded buffer has exactly those bytes as its content,
/// whether their number was kept or is taken from the buffer.
pub proof fn lemma_padding_is_no_content(data: Seq<u8>)
    requires
        data.len() <= BUFFER_CAPACITY,
    ensures
        content(zero_padded(data, data.len()), data.len()) == data,
        data.len() > 0 && data.last() != 0 ==> content_length(zero_padded(data, data.len()))
            == data.len(),
        data.len() == 0 ==> content_length(zero_padded(data, data.len())) == 0,
{
    let buffer = zero_padded(data, data.len());
    assert(content(buffer, data.len()) =~= data);
    lemma_content_length(buffer);
    if data.len() == 0 || data.last() != 0 {
        assert(is_content_length(buffer, data.len() as int));
    }
}

/// Finds the number of bytes that count as read in `buffer`: all up to its
/// last byte that is not zero.
pub fn measure_content(buffer: &MessageBuffer) -> (len: usize)
    ensures
        len == content_length(buffer@),
        len <= BUFFER_CAPACITY,
{
    let mut len: usize = BUFFER_CAPACITY;
    while len > 0 && buffer[len - 1] == 0
        invariant
            len <= BUFFER_CAPACITY,
            forall|i: int| len <= i < BUFFER_CAPACITY ==> buffer@[i] == 0,
        decreases len,
    {
        len -= 1;
    }
    proof {
        lemma_content_length(buffer@);
        assert(is_content_length(buffer@, len as int));
    }
    len
}

/// Makes a message buffer of `data`: its bytes, then zeros.
pub fn fill_buffer(data: &[u8]) -> (buffer: MessageBuffer)
    ensures
        buffer@ == zero_padded(data@, data@.len()),
{
    let mut buffer: MessageBuffer = [0u8; 4096];
    let mut i: usize = 0;
    while i < data.len() && i < BUFFER_CAPACITY
        invariant
            i <= BUFFER_CAPACITY,
            i <= data@.len(),
            forall|j: int| 0 <= j < i ==> buffer@[j] == data@[j],
            forall|j: int| i <= j < BUFFER_CAPACITY ==> buffer@[j] == 0,
        decreases BUFFER_CAPACITY - i,
    {
        buffer[i] = data[i];
        i += 1;
    }
    proof {
        assert(buffer@ =~= zero_padded(data@, data@.len()));
    }
    buffer
}

/// Sets every byte of `buffer` from position `len` on to zero, so that
/// nothing but the `len` bytes that were read can be taken for content.
pub fn clear_beyond(buffer: &mut MessageBuffer, len: usize)
    ensures
        final(buffer)@ == zero_padded(old(buffer)@, len as nat),
{
    let mut i: usize = len;
    while i < BUFFER_CAPACITY
        invariant
            len <= i,
            forall|j: int| 0 <= j < BUFFER_CAPACITY && (j < len || i <= j) ==> buffer@[j] == old(
                buffer,
            )@[j],
            forall|j: int| len <= j < i && j < BUFFER_CAPACITY ==> buffer@[j] == 0,
        decreases BUFFER_CAPACITY - i,
    {
        buffer[i] = 0;
        i += 1;
    }
    proof {
        assert(buffer@ =~= zero_padded(old(buffer)@, len as nat));
    }
}

} // verus!
