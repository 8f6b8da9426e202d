use vstd::prelude::*;

use crate::chunking::{chunks_of, lemma_chunks_flatten, producer_step, split_into_chunks, ProducerAction, ReadEvent};
use crate::consume::reversed;
use crate::error::TransferError;
use crate::upload::{upload_outcome, upload_sequence, lemma_upload_round_trip};
use crate::paths::is_plain_name;

verus! {

/// One item of a server-streamed download: a chunk, or the error that ends it.
pub type DownloadItem = Result<Vec<u8>, TransferError>;

/// The content of each item of a download stream.
pub open spec fn items_view(items: Seq<DownloadItem>) -> Seq<Result<Seq<u8>, TransferError>> {
    items.map_values(
        |it: DownloadItem|
            match it {
                Ok(c) => Ok(c@),
                Err(e) => Err(e),
            },
    )
}

/// What the server streams for a download: the file's chunks in order, or,
/// where there is no such file, a single not-found error.
pub open spec fn served_items(file: Option<Seq<u8>>) -> Seq<Result<Seq<u8>, TransferError>> {
    match file {
        None => seq![Err(TransferError::NotFound)],
        Some(d) => chunks_of(d).map_values(|c: Seq<u8>| Ok::<Seq<u8>, TransferError>(c)),
    }
}

/// What a client makes of a download stream: the bytes of all its chunks in
/// order where it ends without an error, else the first error.
pub open spec fn download_outcome(items: Seq<Result<Seq<u8>, TransferError>>) -> Result<
    Seq<u8>,
    TransferError,
>
    decreases items.len(),
{
    if items.len() == 0 {
        Ok(Seq::empty())
    } else {
        match download_outcome(items.drop_last()) {
            Err(e) => Err(e),
            Ok(d) => match items.last() {
                Ok(c) => Ok(d + c),
                Err(e) => Err(e),
            },
        }
    }
}

/// Streams a file held in memory, or a missing one, through the producer:
/// the items a client receives for it.
pub fn serve_download(file: Option<&Vec<u8>>) -> (r: Vec<DownloadItem>)
    ensures
        items_view(r@) == served_items(
            match file {
                Some(d) => Some(d@),
                None => None,
            },
        ),
{
    match file {
        None => {
            let mut out: Vec<DownloadItem> = Vec::new();
            match producer_step(ReadEvent::OpenFailed) {
                ProducerAction::Fail(e) => out.push(Err(e)),
                _ => {},
            }
            assert(items_view(out@) =~= seq![Err(TransferError::NotFound)]);
            out
        },
        Some(d) => {
            let chunks = split_into_chunks(d);
            let ghost cs = chunks.deep_view();
            let ghost parts = chunks@;
            let ghost want = served_items(Some(d@));
            let n = chunks.len();
            let mut rest = reversed(chunks);
            let mut out: Vec<DownloadItem> = Vec::new();
            assert forall|j: int| 0 <= j < n implies #[trigger] cs[j] == parts[j]@ by {
                assert(parts[j].deep_view() =~= parts[j]@);
            }
            let mut i: usize = 0;
            while i < n
                invariant
                    cs == chunks_of(d@),
                    want == served_items(Some(d@)),
                    i <= n,
                    n == parts.len(),
                    cs.len() == n,
                    forall|j: int| 0 <= j < n ==> #[trigger] cs[j] == parts[j]@,
                    rest@.len() == n - i,
                    forall|j: int| 0 <= j < rest@.len() ==> #[trigger] rest@[j] == parts[n - 1 - j],
                    items_view(out@) == want.take(i as int),
                decreases n - i,
            {
                let c = rest.pop().unwrap();
                assert(c@ == cs[i as int]);
                let ghost before = items_view(out@);
                out.push(Ok(c));
                assert(items_view(out@) =~= before.push(Ok(cs[i as int])));
                i += 1;
                assert(items_view(out@) =~= want.take(i as int));
            }
            assert(want.take(i as int) =~= want);
            out
        },
    }
}

proof fn lemma_outcome_prefix(items: Seq<Result<Seq<u8>, TransferError>>, k: int, e: TransferError)
    requires
        0 <= k <= items.len(),
        download_outcome(items.take(k)) == Err::<Seq<u8>, _>(e),
    ensures
        download_outcome(items) == Err::<Seq<u8>, _>(e),
    decreases items.len() - k,
{
    if k == items.len() {
        assert(items.take(k) =~= items);
    } else {
        assert(items.take(k + 1).drop_last() =~= items.take(k));
        lemma_outcome_prefix(items, k + 1, e);
    }
}

/// The client side of a download: appends each chunk in arrival order and
/// fails with the first error the stream carries.
pub fn receive_download(items: Vec<DownloadItem>) -> (r: Result<Vec<u8>, TransferError>)
    ensures
        match download_outcome(items_view(items@)) {
            Ok(d) => r matches Ok(b) && b@ == d,
            Err(e) => r == Err::<Vec<u8>, _>(e),
        },
{
    let ghost its = items_view(items@);
    let n = items.len();
    let mut rest = reversed(items);
    let mut content: Vec<u8> = Vec::new();
    let mut i: usize = 0;
    assert(its.take(0) =~= Seq::<Result<Seq<u8>, TransferError>>::empty());
    while i < n
        invariant
            i <= n,
            n == items@.len(),
            its == items_view(items@),
            rest@.len() == n - i,
            forall|j: int| 0 <= j < rest@.len() ==> #[trigger] rest@[j] == items@[n - 1 - j],
            download_outcome(its.take(i as int)) == Ok::<_, TransferError>(content@),
        decreases n - i,
    {
        let item = rest.pop().unwrap();
        assert(its.take(i + 1).drop_last() =~= its.take(i as int));
        assert(its.take(i + 1).last() == its[i as int]);
        match item {
            Ok(mut c) => {
                content.append(&mut c);
            },
            Err(e) => {
                proof {
                    lemma_outcome_prefix(its, i + 1, e);
                }
                return Err(e);
            },
        }
        i += 1;
    }
    assert(its.take(i as int) =~= its);
    Ok(content)
}

proof fn lemma_outcome_of_chunks(cs: Seq<Seq<u8>>)
    ensures
        download_outcome(cs.map_values(|c: Seq<u8>| Ok::<Seq<u8>, TransferError>(c)))
            == Ok::<_, TransferError>(cs.flatten()),
    decreases cs.len(),
{
    let items = cs.map_values(|c: Seq<u8>| Ok::<Seq<u8>, TransferError>(c));
    if cs.len() == 0 {
        assert(cs.flatten() =~= Seq::<u8>::empty());
    } else {
        let init = cs.drop_last();
        lemma_outcome_of_chunks(init);
        assert(items.drop_last() =~= init.map_values(
            |c: Seq<u8>| Ok::<Seq<u8>, TransferError>(c),
        ));
        assert(init.push(cs.last()) =~= cs);
        init.lemma_flatten_push(cs.last());
    }
}

/// Downloading a file yields exactly its bytes, whatever its length.
pub proof fn lemma_download_round_trip(data: Seq<u8>)
    ensures
        download_outcome(served_items(Some(data))) == Ok::<_, TransferError>(data),
{
    lemma_outcome_of_chunks(chunks_of(data));
    lemma_chunks_flatten(data);
}

/// Uploading a file under a plain name and then downloading what was stored
/// gives back the original bytes.
pub proof fn lemma_transfer_round_trip(name: Seq<char>, data: Seq<u8>)
    requires
        is_plain_name(name),
    ensures
        upload_outcome(upload_sequence(name, data)) matches Ok((n, stored)) && n == name
            && download_outcome(served_items(Some(stored))) == Ok::<_, TransferError>(data),
{
    lemma_upload_round_trip(name, data);
    lemma_download_round_trip(data);
}

/// A download of a missing file streams no bytes and fails as not found.
pub proof fn lemma_missing_download()
    ensures
        served_items(None) == seq![Err::<Seq<u8>, TransferError>(TransferError::NotFound)],
        forall|i: int|
            0 <= i < served_items(None).len() ==> #[trigger] served_items(None)[i] is Err,
        download_outcome(served_items(None)) == Err::<Seq<u8>, _>(TransferError::NotFound),
{
    let items = served_items(None);
    assert(items.drop_last() =~= Seq::<Result<Seq<u8>, TransferError>>::empty());
    assert(download_outcome(items.drop_last()) == Ok::<_, TransferError>(Seq::<u8>::empty()));
    assert(items.last() == Err::<Seq<u8>, TransferError>(TransferError::NotFound));
}

/// Two downloads share nothing: each yields its own file's bytes, in full
/// and unmixed with the other's.
pub proof fn lemma_independent_downloads(first: Seq<u8>, second: Seq<u8>)
    ensures
        download_outcome(served_items(Some(first))) == Ok::<_, TransferError>(first),
        download_outcome(served_items(Some(second))) == Ok::<_, TransferError>(second),
{
    lemma_download_round_trip(first);
    lemma_download_round_trip(second);
}

} // verus!
