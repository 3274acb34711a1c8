//! The messages of the mempool and their wire format.
//!
//! A message travels as a 4-byte variant tag followed by the fields of the
//! variant. Every integer is little-endian and of fixed width; a list is its
//! length in 8 bytes followed by its items; a byte string is a list of bytes;
//! a digest or a public key is its 32 bytes. Bytes that follow a complete
//! message are ignored by the decoder.

use crate::crypto::{Digest, PublicKey};
use crate::endian::{
    get_uint, le_bytes, le_value, lemma_le_bytes_len, lemma_le_bytes_of_value, lemma_le_value_bound,
    lemma_le_value_of_bytes, lemma_radix_values, put_uint, radix,
};
use vstd::prelude::*;

verus! {

/// A client transaction: bytes that the mempool never looks into.
pub type Transaction = Vec<u8>;

/// Transactions in the order in which they arrived.
pub type Batch = Vec<Transaction>;

/// The wire form of a batch message.
pub type SerializedBatchMessage = Vec<u8>;

/// The consensus round number.
pub type Round = u64;

/// The message exchanged between the mempools of two nodes.
#[derive(Debug)]
pub enum MempoolMessage {
    /// A batch of transactions.
    Batch(Batch),
    /// A request for the batches with these digests, and who asks.
    BatchRequest(Vec<Digest>, PublicKey),
}

/// The messages that consensus sends to the mempool.
#[derive(Debug)]
pub enum ConsensusMempoolMessage {
    /// These batches are missing here; the named authority has them.
    Synchronize(Vec<Digest>, PublicKey),
    /// Consensus has reached this round.
    Cleanup(Round),
}

/// Why a frame is no message.
#[derive(Clone, Copy, Debug, PartialEq, Eq, Structural)]
pub enum DecodeError {
    /// The frame ends before the message does.
    UnexpectedEnd,
    /// The variant tag is none that the format knows.
    UnknownVariant,
}

/// A mempool message as plain values: byte strings in place of vectors,
/// digests and keys.
pub enum MessageView {
    Batch(Seq<Seq<u8>>),
    BatchRequest(Seq<Seq<u8>>, Seq<u8>),
}

/// The transactions of a batch as byte strings.
pub open spec fn transactions_view(batch: Seq<Vec<u8>>) -> Seq<Seq<u8>> {
    Seq::new(batch.len(), |i: int| batch[i]@)
}

/// The digests of a list as byte strings.
pub open spec fn digests_view(digests: Seq<Digest>) -> Seq<Seq<u8>> {
    Seq::new(digests.len(), |i: int| digests[i]@)
}

impl View for MempoolMessage {
    type V = MessageView;

    open spec fn view(&self) -> MessageView {
        match self {
            MempoolMessage::Batch(batch) => MessageView::Batch(transactions_view(batch@)),
            MempoolMessage::BatchRequest(digests, origin) => MessageView::BatchRequest(
                digests_view(digests@),
                origin@,
            ),
        }
    }
}

impl MessageView {
    /// Every length fits in 8 bytes, and digests and keys have 32 bytes. This
    /// holds of the view of every `MempoolMessage`.
    pub open spec fn wf(self) -> bool {
        match self {
            MessageView::Batch(transactions) => {
                &&& transactions.len() <= u64::MAX
                &&& forall|i: int|
                    0 <= i < transactions.len() ==> (#[trigger] transactions[i]).len() <= u64::MAX
            },
            MessageView::BatchRequest(digests, origin) => {
                &&& digests.len() <= u64::MAX
                &&& forall|i: int| 0 <= i < digests.len() ==> (#[trigger] digests[i]).len() == 32
                &&& origin.len() == 32
            },
        }
    }
}

/// A byte string on the wire: its length, then its bytes.
pub open spec fn encode_blob(blob: Seq<u8>) -> Seq<u8> {
    le_bytes(blob.len(), 8) + blob
}

/// Byte strings on the wire, one after the other.
pub open spec fn encode_blobs(blobs: Seq<Seq<u8>>) -> Seq<u8>
    decreases blobs.len(),
{
    if blobs.len() == 0 {
        Seq::empty()
    } else {
        encode_blob(blobs[0]) + encode_blobs(blobs.skip(1))
    }
}

/// Fixed-size items on the wire, one after the other, with nothing between them.
pub open spec fn encode_chunks(chunks: Seq<Seq<u8>>) -> Seq<u8>
    decreases chunks.len(),
{
    if chunks.len() == 0 {
        Seq::empty()
    } else {
        chunks[0] + encode_chunks(chunks.skip(1))
    }
}

/// The wire form of a message.
pub open spec fn encode_message(message: MessageView) -> Seq<u8> {
    match message {
        MessageView::Batch(transactions) => le_bytes(0, 4) + le_bytes(transactions.len(), 8)
            + encode_blobs(transactions),
        MessageView::BatchRequest(digests, origin) => le_bytes(1, 4) + le_bytes(digests.len(), 8)
            + encode_chunks(digests) + origin,
    }
}

/// Reads an integer of `width` bytes from the front of `input`; gives the
/// integer and what follows it.
pub open spec fn decode_uint(input: Seq<u8>, width: nat) -> Option<(nat, Seq<u8>)> {
    if input.len() < width {
        None
    } else {
        Some((le_value(input.take(width as int)), input.skip(width as int)))
    }
}

/// Reads a byte string from the front of `input`.
pub open spec fn decode_blob(input: Seq<u8>) -> Option<(Seq<u8>, Seq<u8>)> {
    match decode_uint(input, 8) {
        None => None,
        Some((len, rest)) => if rest.len() < len {
            None
        } else {
            Some((rest.take(len as int), rest.skip(len as int)))
        },
    }
}

/// Reads `count` byte strings from the front of `input`.
pub open spec fn decode_blobs(input: Seq<u8>, count: nat) -> Option<(Seq<Seq<u8>>, Seq<u8>)>
    decreases count,
{
    if count == 0 {
        Some((Seq::empty(), input))
    } else {
        match decode_blob(input) {
            None => None,
            Some((blob, rest)) => match decode_blobs(rest, (count - 1) as nat) {
                None => None,
                Some((blobs, end)) => Some((seq![blob] + blobs, end)),
            },
        }
    }
}

/// Reads `count` items of `width` bytes each from the front of `input`.
pub open spec fn decode_chunks(input: Seq<u8>, count: nat, width: nat) -> Option<
    (Seq<Seq<u8>>, Seq<u8>),
>
    decreases count,
{
    if count == 0 {
        Some((Seq::empty(), input))
    } else if input.len() < width {
        None
    } else {
        match decode_chunks(input.skip(width as int), (count - 1) as nat, width) {
            None => None,
            Some((chunks, end)) => Some((seq![input.take(width as int)] + chunks, end)),
        }
    }
}

/// The message at the front of a frame.
pub open spec fn decode_message(frame: Seq<u8>) -> Result<MessageView, DecodeError> {
    match decode_uint(frame, 4) {
        None => Err(DecodeError::UnexpectedEnd),
        Some((tag, fields)) => if tag == 0 {
            match decode_uint(fields, 8) {
                None => Err(DecodeError::UnexpectedEnd),
                Some((count, items)) => match decode_blobs(items, count) {
                    None => Err(DecodeError::UnexpectedEnd),
                    Some((transactions, _)) => Ok(MessageView::Batch(transactions)),
                },
            }
        } else if tag == 1 {
            match decode_uint(fields, 8) {
                None => Err(DecodeError::UnexpectedEnd),
                Some((count, items)) => match decode_chunks(items, count, 32) {
                    None => Err(DecodeError::UnexpectedEnd),
                    Some((digests, key)) => if key.len() < 32 {
                        Err(DecodeError::UnexpectedEnd)
                    } else {
                        Ok(MessageView::BatchRequest(digests, key.take(32)))
                    },
                },
            }
        } else {
            Err(DecodeError::UnknownVariant)
        },
    }
}

/// An integer that fits in its width is read back, and the rest is untouched.
pub proof fn lemma_decode_uint(value: nat, width: nat, tail: Seq<u8>)
    requires
        value < radix(width),
    ensures
        decode_uint(le_bytes(value, width) + tail, width) == Some((value, tail)),
{
    let head = le_bytes(value, width);
    lemma_le_bytes_len(value, width);
    lemma_le_value_of_bytes(value, width);
    assert((head + tail).take(width as int) =~= head);
    assert((head + tail).skip(width as int) =~= tail);
}

/// A byte string is read back, and the rest is untouched.
pub proof fn lemma_decode_blob(blob: Seq<u8>, tail: Seq<u8>)
    requires
        blob.len() <= u64::MAX,
    ensures
        decode_blob(encode_blob(blob) + tail) == Some((blob, tail)),
{
    lemma_radix_values();
    lemma_decode_uint(blob.len(), 8, blob + tail);
    assert(encode_blob(blob) + tail =~= le_bytes(blob.len(), 8) + (blob + tail));
    assert((blob + tail).take(blob.len() as int) =~= blob);
    assert((blob + tail).skip(blob.len() as int) =~= tail);
}

/// Byte strings are read back in order, and the rest is untouched.
pub proof fn lemma_decode_blobs(blobs: Seq<Seq<u8>>, tail: Seq<u8>)
    requires
        forall|i: int| 0 <= i < blobs.len() ==> (#[trigger] blobs[i]).len() <= u64::MAX,
    ensures
        decode_blobs(encode_blobs(blobs) + tail, blobs.len()) == Some((blobs, tail)),
    decreases blobs.len(),
{
    if blobs.len() == 0 {
        assert(encode_blobs(blobs) + tail =~= tail);
        assert(blobs =~= Seq::<Seq<u8>>::empty());
    } else {
        let rest = blobs.skip(1);
        let after = encode_blobs(rest) + tail;
        lemma_decode_blob(blobs[0], after);
        assert forall|i: int| 0 <= i < rest.len() implies (#[trigger] rest[i]).len()
            <= u64::MAX by {
            assert(rest[i] == blobs[i + 1]);
        }
        lemma_decode_blobs(rest, tail);
        assert(encode_blobs(blobs) + tail =~= encode_blob(blobs[0]) + after);
        assert(seq![blobs[0]] + rest =~= blobs);
    }
}

/// Fixed-size items are read back in order, and the rest is untouched.
pub proof fn lemma_decode_chunks(chunks: Seq<Seq<u8>>, width: nat, tail: Seq<u8>)
    requires
        forall|i: int| 0 <= i < chunks.len() ==> (#[trigger] chunks[i]).len() == width,
    ensures
        decode_chunks(encode_chunks(chunks) + tail, chunks.len(), width) == Some((chunks, tail)),
    decreases chunks.len(),
{
    if chunks.len() == 0 {
        assert(encode_chunks(chunks) + tail =~= tail);
        assert(chunks =~= Seq::<Seq<u8>>::empty());
    } else {
        let rest = chunks.skip(1);
        let after = encode_chunks(rest) + tail;
        let input = encode_chunks(chunks) + tail;
        assert forall|i: int| 0 <= i < rest.len() implies (#[trigger] rest[i]).len() == width by {
            assert(rest[i] == chunks[i + 1]);
        }
        lemma_decode_chunks(rest, width, tail);
        assert(input =~= chunks[0] + after);
        assert(input.take(width as int) =~= chunks[0]);
        assert(input.skip(width as int) =~= after);
        assert(seq![chunks[0]] + rest =~= chunks);
    }
}

/// Decoding undoes encoding, whatever follows the message in the frame.
pub proof fn lemma_decode_encoded(message: MessageView, tail: Seq<u8>)
    requires
        message.wf(),
    ensures
        decode_message(encode_message(message) + tail) == Ok::<MessageView, DecodeError>(message),
{
    lemma_radix_values();
    match message {
        MessageView::Batch(transactions) => {
            let items = encode_blobs(transactions) + tail;
            let fields = le_bytes(transactions.len(), 8) + items;
            lemma_decode_uint(0, 4, fields);
            lemma_decode_uint(transactions.len(), 8, items);
            lemma_decode_blobs(transactions, tail);
            assert(encode_message(message) + tail =~= le_bytes(0, 4) + fields);
        },
        MessageView::BatchRequest(digests, origin) => {
            let key = origin + tail;
            let items = encode_chunks(digests) + key;
            let fields = le_bytes(digests.len(), 8) + items;
            lemma_decode_uint(1, 4, fields);
            lemma_decode_uint(digests.len(), 8, items);
            lemma_decode_chunks(digests, 32, key);
            assert(encode_message(message) + tail =~= le_bytes(1, 4) + fields);
            assert(key.take(32) =~= origin);
        },
    }
}

/// What `decode_uint` reads stands at the front of the input in exactly the
/// form that `le_bytes` gives it.
pub proof fn lemma_encode_decoded_uint(input: Seq<u8>, width: nat)
    requires
        decode_uint(input, width) is Some,
    ensures
        ({
            let (value, rest) = decode_uint(input, width).unwrap();
            &&& value < radix(width)
            &&& input == le_bytes(value, width) + rest
        }),
{
    let head = input.take(width as int);
    lemma_le_value_bound(head);
    lemma_le_bytes_of_value(head);
    assert(input =~= head + input.skip(width as int));
}

/// What `decode_blobs` reads stands at the front of the input in exactly the
/// form that `encode_blobs` gives it.
pub proof fn lemma_encode_decoded_blobs(input: Seq<u8>, count: nat)
    requires
        decode_blobs(input, count) is Some,
    ensures
        ({
            let (blobs, end) = decode_blobs(input, count).unwrap();
            &&& blobs.len() == count
            &&& forall|i: int| 0 <= i < blobs.len() ==> (#[trigger] blobs[i]).len() <= u64::MAX
            &&& input == encode_blobs(blobs) + end
        }),
    decreases count,
{
    let (blobs, end) = decode_blobs(input, count).unwrap();
    if count == 0 {
        assert(input =~= encode_blobs(blobs) + end);
    } else {
        lemma_radix_values();
        lemma_encode_decoded_uint(input, 8);
        let (len, body) = decode_uint(input, 8).unwrap();
        let (blob, rest) = decode_blob(input).unwrap();
        lemma_encode_decoded_blobs(rest, (count - 1) as nat);
        let (others, _) = decode_blobs(rest, (count - 1) as nat).unwrap();
        assert(blobs == seq![blob] + others);
        assert(blobs.skip(1) =~= others);
        assert(body =~= blob + rest);
        assert(input =~= encode_blob(blob) + (encode_blobs(others) + end));
        assert(input =~= encode_blobs(blobs) + end);
        assert forall|i: int| 0 <= i < blobs.len() implies (#[trigger] blobs[i]).len()
            <= u64::MAX by {
            if i > 0 {
                assert(blobs[i] == others[i - 1]);
            }
        }
    }
}

/// What `decode_chunks` reads stands at the front of the input in exactly the
/// form that `encode_chunks` gives it.
pub proof fn lemma_encode_decoded_chunks(input: Seq<u8>, count: nat, width: nat)
    requires
        decode_chunks(input, count, width) is Some,
    ensures
        ({
            let (chunks, end) = decode_chunks(input, count, width).unwrap();
            &&& chunks.len() == count
            &&& forall|i: int| 0 <= i < chunks.len() ==> (#[trigger] chunks[i]).len() == width
            &&& input == encode_chunks(chunks) + end
        }),
    decreases count,
{
    let (chunks, end) = decode_chunks(input, count, width).unwrap();
    if count == 0 {
        assert(input =~= encode_chunks(chunks) + end);
    } else {
        let first = input.take(width as int);
        let rest = input.skip(width as int);
        lemma_encode_decoded_chunks(rest, (count - 1) as nat, width);
        let (others, _) = decode_chunks(rest, (count - 1) as nat, width).unwrap();
        assert(chunks == seq![first] + others);
        assert(chunks.skip(1) =~= others);
        assert(input =~= first + (encode_chunks(others) + end));
        assert(input =~= encode_chunks(chunks) + end);
        assert forall|i: int| 0 <= i < chunks.len() implies (#[trigger] chunks[i]).len()
            == width by {
            if i > 0 {
                assert(chunks[i] == others[i - 1]);
            }
        }
    }
}

/// Every frame that decodes begins with the wire form of its message: the
/// format has one encoding per message, and the decoder accepts no other.
pub proof fn lemma_encode_decoded(frame: Seq<u8>)
    requires
        decode_message(frame) is Ok,
    ensures
        ({
            let message = decode_message(frame).unwrap();
            let wire = encode_message(message);
            &&& message.wf()
            &&& wire.len() <= frame.len()
            &&& frame.take(wire.len() as int) == wire
        }),
{
    lemma_radix_values();
    let message = decode_message(frame).unwrap();
    let wire = encode_message(message);
    lemma_encode_decoded_uint(frame, 4);
    let (tag, fields) = decode_uint(frame, 4).unwrap();
    lemma_encode_decoded_uint(fields, 8);
    let (count, items) = decode_uint(fields, 8).unwrap();
    if tag == 0 {
        lemma_encode_decoded_blobs(items, count);
        let (transactions, end) = decode_blobs(items, count).unwrap();
        assert(frame =~= wire + end);
        assert((wire + end).take(wire.len() as int) =~= wire);
    } else {
        lemma_encode_decoded_chunks(items, count, 32);
        let (digests, key) = decode_chunks(items, count, 32).unwrap();
        let end = key.skip(32);
        assert(key =~= key.take(32) + end);
        assert(frame =~= wire + end);
        assert((wire + end).take(wire.len() as int) =~= wire);
    }
}

/// Serializing, deserializing and serializing again gives the bytes of the
/// first serialization.
pub proof fn lemma_serialization_round_trip(message: MessageView)
    requires
        message.wf(),
    ensures
        decode_message(encode_message(message)) == Ok::<MessageView, DecodeError>(message),
        encode_message(decode_message(encode_message(message)).unwrap()) == encode_message(message),
{
    lemma_decode_encoded(message, Seq::empty());
    assert(encode_message(message) + Seq::<u8>::empty() =~= encode_message(message));
}

/// Encoding a list with one more byte string appends the encoding of that string.
pub proof fn lemma_encode_blobs_push(blobs: Seq<Seq<u8>>, blob: Seq<u8>)
    ensures
        encode_blobs(blobs.push(blob)) == encode_blobs(blobs) + encode_blob(blob),
    decreases blobs.len(),
{
    let longer = blobs.push(blob);
    if blobs.len() == 0 {
        assert(longer.skip(1) =~= blobs);
        assert(encode_blobs(longer) == encode_blob(blob) + encode_blobs(blobs));
        assert(encode_blobs(longer) =~= encode_blobs(blobs) + encode_blob(blob));
    } else {
        lemma_encode_blobs_push(blobs.skip(1), blob);
        assert(longer.skip(1) =~= blobs.skip(1).push(blob));
        assert(longer[0] == blobs[0]);
        assert(encode_blobs(longer) == encode_blob(blobs[0]) + encode_blobs(longer.skip(1)));
        assert(encode_blobs(blobs) == encode_blob(blobs[0]) + encode_blobs(blobs.skip(1)));
        assert(encode_blobs(longer) =~= encode_blobs(blobs) + encode_blob(blob));
    }
}

/// Encoding a list with one more item appends that item.
pub proof fn lemma_encode_chunks_push(chunks: Seq<Seq<u8>>, chunk: Seq<u8>)
    ensures
        encode_chunks(chunks.push(chunk)) == encode_chunks(chunks) + chunk,
    decreases chunks.len(),
{
    let longer = chunks.push(chunk);
    if chunks.len() == 0 {
        assert(longer.skip(1) =~= chunks);
        assert(encode_chunks(longer) == chunk + encode_chunks(chunks));
        assert(encode_chunks(longer) =~= encode_chunks(chunks) + chunk);
    } else {
        lemma_encode_chunks_push(chunks.skip(1), chunk);
        assert(longer.skip(1) =~= chunks.skip(1).push(chunk));
        assert(longer[0] == chunks[0]);
        assert(encode_chunks(longer) == chunks[0] + encode_chunks(longer.skip(1)));
        assert(encode_chunks(chunks) == chunks[0] + encode_chunks(chunks.skip(1)));
        assert(encode_chunks(longer) =~= encode_chunks(chunks) + chunk);
    }
}

/// Appends `bytes` to `out`.
fn append_bytes(out: &mut Vec<u8>, bytes: &[u8])
    ensures
        final(out)@ == old(out)@ + bytes@,
{
    let n = bytes.len();
    let mut i: usize = 0;
    assert(out@ =~= old(out)@ + bytes@.take(0));
    while i < n
        invariant
            i <= n == bytes@.len(),
            out@ == old(out)@ + bytes@.take(i as int),
        decreases n - i,
    {
        out.push(bytes[i]);
        assert(old(out)@ + bytes@.take(i + 1) =~= (old(out)@ + bytes@.take(i as int)).push(
            bytes@[i as int],
        ));
        i += 1;
    }
    assert(bytes@.take(n as int) =~= bytes@);
}

/// The bytes of `frame` from `from` up to `to`, as a vector of their own.
fn copy_range(frame: &[u8], from: usize, to: usize) -> (copy: Vec<u8>)
    requires
        from <= to <= frame@.len(),
    ensures
        copy@ == frame@.subrange(from as int, to as int),
{
    let mut copy: Vec<u8> = Vec::new();
    let mut i: usize = from;
    while i < to
        invariant
            from <= i <= to <= frame@.len(),
            copy@ == frame@.subrange(from as int, i as int),
        decreases to - i,
    {
        copy.push(frame[i]);
        assert(frame@.subrange(from as int, i + 1) =~= frame@.subrange(from as int, i as int).push(
            frame@[i as int],
        ));
        i += 1;
    }
    copy
}

/// Reads an integer of `width` bytes at `at`; gives it and the place after it.
fn read_uint(frame: &[u8], at: usize, width: usize) -> (read: Option<(u64, usize)>)
    requires
        at <= frame@.len(),
        width <= 8,
    ensures
        match read {
            Some((value, next)) => at <= next <= frame@.len() && decode_uint(
                frame@.skip(at as int),
                width as nat,
            ) == Some((value as nat, frame@.skip(next as int))),
            None => decode_uint(frame@.skip(at as int), width as nat) is None,
        },
{
    if frame.len() - at < width {
        return None;
    }
    let value = get_uint(frame, at, width);
    proof {
        let input = frame@.skip(at as int);
        assert(input.take(width as int) =~= frame@.subrange(at as int, at + width));
        assert(input.skip(width as int) =~= frame@.skip(at + width));
    }
    Some((value, at + width))
}

/// Reads a byte string at `at`; gives it and the place after it.
fn read_blob(frame: &[u8], at: usize) -> (read: Option<(Vec<u8>, usize)>)
    requires
        at <= frame@.len(),
    ensures
        match read {
            Some((blob, next)) => at <= next <= frame@.len() && decode_blob(frame@.skip(at as int))
                == Some((blob@, frame@.skip(next as int))),
            None => decode_blob(frame@.skip(at as int)) is None,
        },
{
    let (len, start) = match read_uint(frame, at, 8) {
        Some(read) => read,
        None => {
            return None;
        },
    };
    if len > (frame.len() - start) as u64 {
        return None;
    }
    let end: usize = start + len as usize;
    let blob = copy_range(frame, start, end);
    proof {
        let body = frame@.skip(start as int);
        assert(body.take(len as int) =~= frame@.subrange(start as int, end as int));
        assert(body.skip(len as int) =~= frame@.skip(end as int));
    }
    Some((blob, end))
}

/// Reads 32 bytes at `at`; gives them and the place after them.
fn read_chunk(frame: &[u8], at: usize) -> (read: Option<([u8; 32], usize)>)
    requires
        at <= frame@.len(),
    ensures
        match read {
            Some((chunk, next)) => next == at + 32 && next <= frame@.len() && chunk@
                == frame@.skip(at as int).take(32),
            None => frame@.skip(at as int).len() < 32,
        },
{
    let n = frame.len();
    if n - at < 32 {
        return None;
    }
    let mut chunk: [u8; 32] = [0u8; 32];
    let mut i: usize = 0;
    while i < 32
        invariant
            i <= 32,
            at + 32 <= n == frame@.len(),
            forall|j: int| 0 <= j < i ==> chunk@[j] == frame@[at + j],
        decreases 32 - i,
    {
        chunk[i] = frame[at + i];
        i += 1;
    }
    assert(chunk@ =~= frame@.skip(at as int).take(32));
    Some((chunk, at + 32))
}

/// The wire form of a batch message that holds `batch`.
pub fn serialize_batch(batch: &Batch) -> (bytes: SerializedBatchMessage)
    ensures
        bytes@ == encode_message(MessageView::Batch(transactions_view(batch@))),
{
    let n = batch.len();
    let mut out: Vec<u8> = Vec::new();
    put_uint(&mut out, 0, 4);
    put_uint(&mut out, n as u64, 8);
    let ghost header = out@;
    let ghost transactions = transactions_view(batch@);
    let mut i: usize = 0;
    assert(transactions.take(0) =~= Seq::<Seq<u8>>::empty());
    assert(out@ =~= header + encode_blobs(transactions.take(0)));
    while i < n
        invariant
            i <= n == batch@.len(),
            transactions == transactions_view(batch@),
            out@ == header + encode_blobs(transactions.take(i as int)),
        decreases n - i,
    {
        let ghost before = out@;
        let transaction = &batch[i];
        put_uint(&mut out, transaction.len() as u64, 8);
        append_bytes(&mut out, transaction.as_slice());
        proof {
            let done = transactions.take(i as int);
            lemma_encode_blobs_push(done, transactions[i as int]);
            assert(transactions.take(i + 1) =~= done.push(transactions[i as int]));
            assert(out@ =~= header + (encode_blobs(done) + encode_blob(transactions[i as int])));
        }
        i += 1;
    }
    assert(transactions.take(n as int) =~= transactions);
    assert(header =~= le_bytes(0, 4) + le_bytes(transactions.len(), 8));
    out
}

/// The wire form of a request for `digests` made by `origin`.
pub fn serialize_batch_request(digests: &Vec<Digest>, origin: &PublicKey) -> (bytes: Vec<u8>)
    ensures
        bytes@ == encode_message(MessageView::BatchRequest(digests_view(digests@), origin@)),
{
    let n = digests.len();
    let mut out: Vec<u8> = Vec::new();
    put_uint(&mut out, 1, 4);
    put_uint(&mut out, n as u64, 8);
    let ghost header = out@;
    let ghost chunks = digests_view(digests@);
    let mut i: usize = 0;
    assert(chunks.take(0) =~= Seq::<Seq<u8>>::empty());
    assert(out@ =~= header + encode_chunks(chunks.take(0)));
    while i < n
        invariant
            i <= n == digests@.len(),
            chunks == digests_view(digests@),
            out@ == header + encode_chunks(chunks.take(i as int)),
        decreases n - i,
    {
        append_bytes(&mut out, digests[i].0.as_slice());
        proof {
            let done = chunks.take(i as int);
            lemma_encode_chunks_push(done, chunks[i as int]);
            assert(chunks.take(i + 1) =~= done.push(chunks[i as int]));
            assert(out@ =~= header + (encode_chunks(done) + chunks[i as int]));
        }
        i += 1;
    }
    assert(chunks.take(n as int) =~= chunks);
    assert(header =~= le_bytes(1, 4) + le_bytes(chunks.len(), 8));
    append_bytes(&mut out, origin.0.as_slice());
    out
}

impl MempoolMessage {
    /// The wire form of the message.
    pub fn serialize(&self) -> (bytes: Vec<u8>)
        ensures
            bytes@ == encode_message(self@),
    {
        match self {
            MempoolMessage::Batch(batch) => serialize_batch(batch),
            MempoolMessage::BatchRequest(digests, origin) => serialize_batch_request(
                digests,
                origin,
            ),
        }
    }

    /// The message at the front of `frame`, or why there is none.
    pub fn deserialize(frame: &[u8]) -> (decoded: Result<MempoolMessage, DecodeError>)
        ensures
            match decoded {
                Ok(message) => decode_message(frame@) == Ok::<MessageView, DecodeError>(message@),
                Err(error) => decode_message(frame@) == Err::<MessageView, DecodeError>(error),
            },
    {
        assert(frame@.skip(0) =~= frame@);
        let (tag, fields) = match read_uint(frame, 0, 4) {
            Some(read) => read,
            None => {
                return Err(DecodeError::UnexpectedEnd);
            },
        };
        if tag > 1 {
            return Err(DecodeError::UnknownVariant);
        }
        let (count, items) = match read_uint(frame, fields, 8) {
            Some(read) => read,
            None => {
                return Err(DecodeError::UnexpectedEnd);
            },
        };
        if tag == 0 {
            match read_blobs(frame, items, count) {
                Some((batch, _)) => Ok(MempoolMessage::Batch(batch)),
                None => Err(DecodeError::UnexpectedEnd),
            }
        } else {
            let (digests, at) = match read_digests(frame, items, count) {
                Some(read) => read,
                None => {
                    return Err(DecodeError::UnexpectedEnd);
                },
            };
            match read_chunk(frame, at) {
                Some((key, _)) => Ok(MempoolMessage::BatchRequest(digests, PublicKey(key))),
                None => Err(DecodeError::UnexpectedEnd),
            }
        }
    }
}

/// Reads `count` byte strings from `start` on; gives them and the place after them.
fn read_blobs(frame: &[u8], start: usize, count: u64) -> (read: Option<(Batch, usize)>)
    requires
        start <= frame@.len(),
    ensures
        match read {
            Some((batch, next)) => next <= frame@.len() && decode_blobs(
                frame@.skip(start as int),
                count as nat,
            ) == Some((transactions_view(batch@), frame@.skip(next as int))),
            None => decode_blobs(frame@.skip(start as int), count as nat) is None,
        },
{
    let mut batch: Batch = Vec::new();
    let mut at: usize = start;
    let mut done: u64 = 0;
    assert(transactions_view(batch@) =~= Seq::<Seq<u8>>::empty());
    proof {
        match decode_blobs(frame@.skip(at as int), count as nat) {
            Some((blobs, end)) => {
                assert(transactions_view(batch@) + blobs =~= blobs);
            },
            None => {},
        }
    }
    while done < count
        invariant
            done <= count,
            at <= frame@.len(),
            match decode_blobs(frame@.skip(at as int), (count - done) as nat) {
                Some((blobs, end)) => decode_blobs(frame@.skip(start as int), count as nat)
                    == Some((transactions_view(batch@) + blobs, end)),
                None => decode_blobs(frame@.skip(start as int), count as nat) is None,
            },
        decreases count - done,
    {
        let ghost seen = transactions_view(batch@);
        match read_blob(frame, at) {
            None => {
                return None;
            },
            Some((blob, next)) => {
                proof {
                    let longer = transactions_view(batch@.push(blob));
                    assert(longer =~= seen.push(blob@));
                    match decode_blobs(frame@.skip(next as int), (count - done - 1) as nat) {
                        Some((blobs, end)) => {
                            assert(seen + (seq![blob@] + blobs) =~= longer + blobs);
                        },
                        None => {},
                    }
                }
                batch.push(blob);
                at = next;
                done += 1;
            },
        }
    }
    assert(transactions_view(batch@) + Seq::<Seq<u8>>::empty() =~= transactions_view(batch@));
    Some((batch, at))
}

/// Reads `count` digests from `start` on; gives them and the place after them.
fn read_digests(frame: &[u8], start: usize, count: u64) -> (read: Option<(Vec<Digest>, usize)>)
    requires
        start <= frame@.len(),
    ensures
        match read {
            Some((digests, next)) => next <= frame@.len() && decode_chunks(
                frame@.skip(start as int),
                count as nat,
                32,
            ) == Some((digests_view(digests@), frame@.skip(next as int))),
            None => decode_chunks(frame@.skip(start as int), count as nat, 32) is None,
        },
{
    let mut digests: Vec<Digest> = Vec::new();
    let mut at: usize = start;
    let mut done: u64 = 0;
    assert(digests_view(digests@) =~= Seq::<Seq<u8>>::empty());
    proof {
        match decode_chunks(frame@.skip(at as int), count as nat, 32) {
            Some((chunks, end)) => {
                assert(digests_view(digests@) + chunks =~= chunks);
            },
            None => {},
        }
    }
    while done < count
        invariant
            done <= count,
            at <= frame@.len(),
            match decode_chunks(frame@.skip(at as int), (count - done) as nat, 32) {
                Some((chunks, end)) => decode_chunks(frame@.skip(start as int), count as nat, 32)
                    == Some((digests_view(digests@) + chunks, end)),
                None => decode_chunks(frame@.skip(start as int), count as nat, 32) is None,
            },
        decreases count - done,
    {
        let ghost seen = digests_view(digests@);
        match read_chunk(frame, at) {
            None => {
                return None;
            },
            Some((chunk, next)) => {
                proof {
                    let longer = digests_view(digests@.push(Digest(chunk)));
                    assert(longer =~= seen.push(chunk@));
                    assert(frame@.skip(at as int).skip(32) =~= frame@.skip(next as int));
                    match decode_chunks(frame@.skip(next as int), (count - done - 1) as nat, 32) {
                        Some((chunks, end)) => {
                            assert(seen + (seq![chunk@] + chunks) =~= longer + chunks);
                        },
                        None => {},
                    }
                }
                digests.push(Digest(chunk));
                at = next;
                done += 1;
            },
        }
    }
    assert(digests_view(digests@) + Seq::<Seq<u8>>::empty() =~= digests_view(digests@));
    Some((digests, at))
}

} // verus!
