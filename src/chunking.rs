use vstd::prelude::*;
use vstd::slice::{slice_subrange, slice_to_vec};

use crate::error::TransferError;

verus! {

/// Largest number of bytes a single chunk message carries (1 MiB).
pub const CHUNK_SIZE: usize = 1048576;

/// Number of chunks a producer may run ahead of its consumer.
pub const QUEUE_CAPACITY: usize = 10;

/// The chunks a byte sequence is sent as: full chunks of `CHUNK_SIZE` bytes,
/// then one shorter chunk holding the rest, if any is left.
pub open spec fn chunks_of(data: Seq<u8>) -> Seq<Seq<u8>>
    decreases data.len(),
{
    if data.len() == 0 {
        Seq::empty()
    } else if data.len() < CHUNK_SIZE {
        seq![data]
    } else {
        seq![data.take(CHUNK_SIZE as int)] + chunks_of(data.skip(CHUNK_SIZE as int))
    }
}

/// Joining the chunks of a byte sequence in order gives the sequence back;
/// no chunk is empty or longer than `CHUNK_SIZE`, and every chunk but the
/// last is exactly `CHUNK_SIZE` long.
pub proof fn lemma_chunks_flatten(data: Seq<u8>)
    ensures
        chunks_of(data).flatten() == data,
        forall|i: int|
            0 <= i < chunks_of(data).len() ==> 0 < #[trigger] chunks_of(data)[i].len()
                <= CHUNK_SIZE,
        forall|i: int|
            0 <= i < chunks_of(data).len() - 1 ==> #[trigger] chunks_of(data)[i].len()
                == CHUNK_SIZE,
    decreases data.len(),
{
    if data.len() == 0 {
    } else if data.len() < CHUNK_SIZE {
        seq![data].lemma_flatten_one_element();
    } else {
        let head = data.take(CHUNK_SIZE as int);
        let rest = data.skip(CHUNK_SIZE as int);
        lemma_chunks_flatten(rest);
        let cs = seq![head] + chunks_of(rest);
        assert(cs.drop_first() =~= chunks_of(rest));
        assert(head + rest =~= data);
        assert forall|i: int| 0 < i < cs.len() implies #[trigger] cs[i] == chunks_of(rest)[i
            - 1] by {}
    }
}

/// What a producer is told by the file it streams.
pub enum ReadEvent {
    /// The file could not be opened.
    OpenFailed,
    /// A read of at most `CHUNK_SIZE` bytes returned these bytes.
    Read(Vec<u8>),
    /// A read failed.
    ReadFailed,
}

/// What a producer does next.
pub enum ProducerAction {
    /// Push this chunk onto the queue; read again only when `more` holds.
    Send { chunk: Vec<u8>, more: bool },
    /// The file is done: end the stream without sending anything.
    Stop,
    /// End the stream with this error in place of further chunks.
    Fail(TransferError),
}

/// The producer's decision after each step on the file it streams: an empty
/// read ends the stream, a short read is the last chunk, a full read is
/// followed by another read. A file that cannot be opened is reported as not
/// found, a failed read as an I/O error.
pub fn producer_step(event: ReadEvent) -> (r: ProducerAction)
    requires
        event matches ReadEvent::Read(b) ==> b@.len() <= CHUNK_SIZE,
    ensures
        match event {
            ReadEvent::OpenFailed => r == ProducerAction::Fail(TransferError::NotFound),
            ReadEvent::ReadFailed => r == ProducerAction::Fail(TransferError::Io),
            ReadEvent::Read(b) => if b@.len() == 0 {
                r == ProducerAction::Stop
            } else {
                r == (ProducerAction::Send { chunk: b, more: b@.len() == CHUNK_SIZE })
            },
        },
{
    match event {
        ReadEvent::OpenFailed => ProducerAction::Fail(TransferError::NotFound),
        ReadEvent::ReadFailed => ProducerAction::Fail(TransferError::Io),
        ReadEvent::Read(b) => {
            if b.len() == 0 {
                ProducerAction::Stop
            } else {
                let more = b.len() == CHUNK_SIZE;
                ProducerAction::Send { chunk: b, more }
            }
        },
    }
}

/// Streams an in-memory file through `producer_step`, reading at most
/// `CHUNK_SIZE` bytes at a time, and returns the chunks that were sent.
pub fn split_into_chunks(data: &Vec<u8>) -> (r: Vec<Vec<u8>>)
    ensures
        r.deep_view() == chunks_of(data@),
{
    let mut out: Vec<Vec<u8>> = Vec::new();
    let mut pos: usize = 0;
    let mut more = true;
    assert(data@.skip(0) =~= data@);
    assert(out.deep_view() + chunks_of(data@) =~= chunks_of(data@));
    while more
        invariant
            pos <= data@.len(),
            more ==> out.deep_view() + chunks_of(data@.skip(pos as int)) == chunks_of(data@),
            !more ==> out.deep_view() == chunks_of(data@),
        decreases data@.len() - pos + (if more { 1int } else { 0int }),
    {
        let ghost rest = data@.skip(pos as int);
        let end: usize = if data.len() - pos < CHUNK_SIZE {
            data.len()
        } else {
            pos + CHUNK_SIZE
        };
        let read = slice_to_vec(slice_subrange(data.as_slice(), pos, end));
        assert(read@ == rest.take((end - pos) as int));
        let ghost before = out.deep_view();
        match producer_step(ReadEvent::Read(read)) {
            ProducerAction::Send { chunk, more: m } => {
                proof {
                    if m {
                        assert(rest.take(CHUNK_SIZE as int) == chunk@);
                        assert(rest.skip(CHUNK_SIZE as int) =~= data@.skip(end as int));
                    } else {
                        assert(rest =~= chunk@);
                    }
                }
                assert(chunk.deep_view() =~= chunk@);
                out.push(chunk);
                assert(out.deep_view() =~= before.push(chunk@));
                pos = end;
                more = m;
                proof {
                    if m {
                        assert(out.deep_view() + chunks_of(data@.skip(pos as int)) =~= before
                            + chunks_of(rest));
                    } else {
                        assert(out.deep_view() =~= before + chunks_of(rest));
                    }
                }
            },
            _ => {
                assert(rest.len() == 0);
                assert(before + chunks_of(rest) =~= before);
                more = false;
            },
        }
    }
    out
}

} // verus!
