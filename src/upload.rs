use vstd::prelude::*;

use crate::chunking::{chunks_of, split_into_chunks};
use crate::consume::reversed;
use crate::error::TransferError;
use crate::paths::{is_plain_name, joined, resolve_under};

verus! {

/// One message of an upload: the destination's name, then the file's chunks.
pub enum UploadMessage {
    Name(String),
    Chunk(Vec<u8>),
}

/// The content of an upload message.
pub enum MessageView {
    Name(Seq<char>),
    Chunk(Seq<u8>),
}

impl View for UploadMessage {
    type V = MessageView;

    open spec fn view(&self) -> MessageView {
        match self {
            UploadMessage::Name(n) => MessageView::Name(n@),
            UploadMessage::Chunk(b) => MessageView::Chunk(b@),
        }
    }
}

/// The content of each message of a sequence.
pub open spec fn messages_view(ms: Seq<UploadMessage>) -> Seq<MessageView> {
    ms.map_values(|m: UploadMessage| m@)
}

/// Where the server stands after receiving `msgs`: waiting for the name
/// (`Ok(None)`), writing the named file with the bytes received so far
/// (`Ok(Some((name, bytes)))`), or failed.
pub open spec fn receive_prefix(msgs: Seq<MessageView>) -> Result<
    Option<(Seq<char>, Seq<u8>)>,
    TransferError,
>
    decreases msgs.len(),
{
    if msgs.len() == 0 {
        Ok(None)
    } else {
        match receive_prefix(msgs.drop_last()) {
            Err(e) => Err(e),
            Ok(None) => match msgs.last() {
                MessageView::Name(n) => if is_plain_name(n) {
                    Ok(Some((n, Seq::empty())))
                } else {
                    Err(TransferError::ProtocolViolation)
                },
                MessageView::Chunk(_) => Err(TransferError::ProtocolViolation),
            },
            Ok(Some((n, c))) => match msgs.last() {
                MessageView::Chunk(b) => Ok(Some((n, c + b))),
                MessageView::Name(_) => Err(TransferError::ProtocolViolation),
            },
        }
    }
}

/// What a complete upload stores: the destination's name and its bytes.
pub open spec fn upload_outcome(msgs: Seq<MessageView>) -> Result<(Seq<char>, Seq<u8>), TransferError> {
    match receive_prefix(msgs) {
        Err(e) => Err(e),
        Ok(None) => Err(TransferError::ProtocolViolation),
        Ok(Some(p)) => Ok(p),
    }
}

/// Whether the server creates the destination file at some point while it
/// receives `msgs`.
pub open spec fn creates_destination(msgs: Seq<MessageView>) -> bool {
    exists|k: int| 0 <= k <= msgs.len() && #[trigger] receive_prefix(msgs.take(k)) is Ok
        && receive_prefix(msgs.take(k))->Ok_0 is Some
}

/// The messages a client sends to upload `data` as `name`.
pub open spec fn upload_sequence(name: Seq<char>, data: Seq<u8>) -> Seq<MessageView> {
    seq![MessageView::Name(name)] + chunks_of(data).map_values(|c: Seq<u8>| MessageView::Chunk(c))
}

/// What the server does with one received message.
pub enum UploadStep {
    /// Create (truncating) the destination file at this path.
    Create(String),
    /// Append these bytes to the destination file.
    Write(Vec<u8>),
    /// The stream ended well: force the file to stable storage, then acknowledge.
    Commit,
}

/// The server side of one upload.
pub struct UploadReceiver {
    /// The served directory.
    pub root: String,
    /// The destination's name, once it has been received.
    pub name: Option<String>,
}

impl UploadReceiver {
    /// The destination's name received so far.
    pub open spec fn name_view(&self) -> Option<Seq<char>> {
        match self.name {
            Some(n) => Some(n@),
            None => None,
        }
    }

    /// A receiver for an upload into the directory `root`.
    pub fn new(root: &str) -> (r: UploadReceiver)
        ensures
            r.root@ == root@,
            r.name is None,
    {
        UploadReceiver { root: String::from_str(root), name: None }
    }

    /// Takes the next message: the first must name a plain destination, and
    /// each later one must be a chunk.
    pub fn on_message(&mut self, msg: UploadMessage) -> (r: Result<UploadStep, TransferError>)
        ensures
            final(self).root == old(self).root,
            match (old(self).name_view(), msg@) {
                (None, MessageView::Name(n)) => if is_plain_name(n) {
                    &&& r matches Ok(UploadStep::Create(p))
                    &&& p@ == joined(old(self).root@, n)
                    &&& final(self).name_view() == Some(n)
                } else {
                    r == Err::<UploadStep, _>(TransferError::ProtocolViolation)
                        && final(self).name_view() == old(self).name_view()
                },
                (Some(_), MessageView::Chunk(b)) => {
                    &&& r matches Ok(UploadStep::Write(w))
                    &&& w@ == b
                    &&& final(self).name_view() == old(self).name_view()
                },
                _ => r == Err::<UploadStep, _>(TransferError::ProtocolViolation)
                    && final(self).name_view() == old(self).name_view(),
            },
    {
        match msg {
            UploadMessage::Name(n) => {
                if self.name.is_some() {
                    return Err(TransferError::ProtocolViolation);
                }
                match resolve_under(self.root.as_str(), n.as_str()) {
                    Some(p) => {
                        self.name = Some(n);
                        Ok(UploadStep::Create(p))
                    },
                    None => Err(TransferError::ProtocolViolation),
                }
            },
            UploadMessage::Chunk(b) => {
                if self.name.is_none() {
                    return Err(TransferError::ProtocolViolation);
                }
                Ok(UploadStep::Write(b))
            },
        }
    }

    /// The stream ended: the upload succeeds only where a name came first.
    pub fn on_end(&self) -> (r: Result<UploadStep, TransferError>)
        ensures
            self.name is None ==> r == Err::<UploadStep, _>(TransferError::ProtocolViolation),
            self.name is Some ==> r matches Ok(UploadStep::Commit),
    {
        if self.name.is_some() {
            Ok(UploadStep::Commit)
        } else {
            Err(TransferError::ProtocolViolation)
        }
    }
}

proof fn lemma_error_sticks(msgs: Seq<MessageView>, k: int, e: TransferError)
    requires
        0 <= k <= msgs.len(),
        receive_prefix(msgs.take(k)) == Err::<Option<(Seq<char>, Seq<u8>)>, _>(e),
    ensures
        receive_prefix(msgs) == Err::<Option<(Seq<char>, Seq<u8>)>, _>(e),
    decreases msgs.len() - k,
{
    if k == msgs.len() {
        assert(msgs.take(k) =~= msgs);
    } else {
        assert(msgs.take(k + 1).drop_last() =~= msgs.take(k));
        lemma_error_sticks(msgs, k + 1, e);
    }
}

/// Runs the server side of an upload over a whole message sequence: the
/// path the file is stored at and its bytes, or the error that ends the call.
pub fn receive_upload(root: &str, msgs: Vec<UploadMessage>) -> (r: Result<
    (String, Vec<u8>),
    TransferError,
>)
    ensures
        match upload_outcome(messages_view(msgs@)) {
            Ok((n, c)) => r matches Ok((p, d)) && p@ == joined(root@, n) && d@ == c,
            Err(e) => r == Err::<(String, Vec<u8>), _>(e),
        },
{
    let ghost ms = messages_view(msgs@);
    let n = msgs.len();
    let mut rest = reversed(msgs);
    let mut receiver = UploadReceiver::new(root);
    let mut path: Option<String> = None;
    let mut content: Vec<u8> = Vec::new();
    let mut i: usize = 0;
    assert(ms.take(0) =~= Seq::<MessageView>::empty());
    while i < n
        invariant
            i <= n,
            n == msgs@.len(),
            ms == messages_view(msgs@),
            rest@.len() == n - i,
            forall|j: int| 0 <= j < rest@.len() ==> #[trigger] rest@[j] == msgs@[n - 1 - j],
            receiver.root@ == root@,
            match receive_prefix(ms.take(i as int)) {
                Ok(None) => receiver.name is None && content@.len() == 0,
                Ok(Some((n, c))) => {
                    &&& receiver.name_view() == Some(n)
                    &&& content@ == c
                    &&& path matches Some(p)
                    &&& p@ == joined(root@, n)
                },
                Err(_) => false,
            },
        decreases n - i,
    {
        let msg = rest.pop().unwrap();
        assert(msg@ == ms[i as int]);
        assert(ms.take(i + 1).drop_last() =~= ms.take(i as int));
        assert(ms.take(i + 1).last() == ms[i as int]);
        match receiver.on_message(msg) {
            Ok(UploadStep::Create(p)) => {
                path = Some(p);
            },
            Ok(UploadStep::Write(mut b)) => {
                content.append(&mut b);
            },
            Ok(UploadStep::Commit) => {},
            Err(e) => {
                proof {
                    lemma_error_sticks(ms, i + 1, e);
                }
                return Err(e);
            },
        }
        i += 1;
    }
    assert(ms.take(i as int) =~= ms);
    match receiver.on_end() {
        Ok(_) => match path {
            Some(p) => Ok((p, content)),
            None => Err(TransferError::ProtocolViolation),
        },
        Err(e) => Err(e),
    }
}

/// The messages a client sends to upload `data` as `name`: the name first,
/// then each chunk in order.
pub fn upload_messages(name: &str, data: &Vec<u8>) -> (r: Vec<UploadMessage>)
    ensures
        messages_view(r@) == upload_sequence(name@, data@),
{
    let chunks = split_into_chunks(data);
    let ghost cs = chunks.deep_view();
    let ghost items = chunks@;
    let n = chunks.len();
    let mut rest = reversed(chunks);
    let mut out: Vec<UploadMessage> = Vec::new();
    out.push(UploadMessage::Name(String::from_str(name)));
    let ghost want = upload_sequence(name@, data@);
    assert forall|j: int| 0 <= j < n implies #[trigger] cs[j] == items[j]@ by {
        assert(items[j].deep_view() =~= items[j]@);
    }
    let mut i: usize = 0;
    while i < n
        invariant
            cs == chunks_of(data@),
            want == upload_sequence(name@, data@),
            i <= n,
            n == items.len(),
            cs.len() == n,
            forall|j: int| 0 <= j < n ==> #[trigger] cs[j] == items[j]@,
            rest@.len() == n - i,
            forall|j: int| 0 <= j < rest@.len() ==> #[trigger] rest@[j] == items[n - 1 - j],
            messages_view(out@) == want.take(i + 1),
        decreases n - i,
    {
        let c = rest.pop().unwrap();
        assert(c@ =~= cs[i as int]);
        let ghost before = messages_view(out@);
        out.push(UploadMessage::Chunk(c));
        assert(messages_view(out@) =~= before.push(MessageView::Chunk(cs[i as int])));
        assert(want[i + 1] == MessageView::Chunk(cs[i as int]));
        i += 1;
        assert(messages_view(out@) =~= want.take(i + 1));
    }
    assert(want.take(i + 1) =~= want);
    out
}

proof fn lemma_receive_chunks(name: Seq<char>, cs: Seq<Seq<u8>>)
    requires
        is_plain_name(name),
    ensures
        receive_prefix(
            seq![MessageView::Name(name)] + cs.map_values(|c: Seq<u8>| MessageView::Chunk(c)),
        ) == Ok::<_, TransferError>(Some((name, cs.flatten()))),
    decreases cs.len(),
{
    let ms = seq![MessageView::Name(name)] + cs.map_values(|c: Seq<u8>| MessageView::Chunk(c));
    if cs.len() == 0 {
        assert(ms.drop_last() =~= Seq::<MessageView>::empty());
        assert(ms.last() == MessageView::Name(name));
        assert(cs.flatten() =~= Seq::<u8>::empty());
    } else {
        assert(ms.last() == MessageView::Chunk(cs.last()));
        let init = cs.drop_last();
        lemma_receive_chunks(name, init);
        assert(ms.drop_last() =~= seq![MessageView::Name(name)] + init.map_values(
            |c: Seq<u8>| MessageView::Chunk(c),
        ));
        assert(init.push(cs.last()) =~= cs);
        init.lemma_flatten_push(cs.last());
        assert(receive_prefix(ms.drop_last()) == Ok::<_, TransferError>(Some((name, init.flatten()))));
        assert(receive_prefix(ms) == Ok::<_, TransferError>(Some((name, init.flatten() + cs.last()))));
    }
}

/// Uploading `data` under a plain name stores exactly that name and those
/// bytes, whatever the length of `data`.
pub proof fn lemma_upload_round_trip(name: Seq<char>, data: Seq<u8>)
    requires
        is_plain_name(name),
    ensures
        upload_outcome(upload_sequence(name, data)) == Ok::<_, TransferError>((name, data)),
{
    lemma_receive_chunks(name, chunks_of(data));
    crate::chunking::lemma_chunks_flatten(data);
}

/// An upload that does not begin with a name (an empty one included) fails
/// as a protocol violation, and no destination file is ever created for it.
pub proof fn lemma_upload_needs_name_first(msgs: Seq<MessageView>)
    requires
        msgs.len() == 0 || msgs[0] is Chunk,
    ensures
        upload_outcome(msgs) == Err::<(Seq<char>, Seq<u8>), _>(TransferError::ProtocolViolation),
        !creates_destination(msgs),
{
    assert forall|k: int| 1 <= k <= msgs.len() implies #[trigger] receive_prefix(msgs.take(k))
        == Err::<Option<(Seq<char>, Seq<u8>)>, _>(TransferError::ProtocolViolation) by {
        lemma_first_chunk_fails(msgs, k);
    }
    if msgs.len() > 0 {
        assert(msgs.take(msgs.len() as int) =~= msgs);
    }
    assert(msgs.take(0) =~= Seq::<MessageView>::empty());
}

proof fn lemma_first_chunk_fails(msgs: Seq<MessageView>, k: int)
    requires
        1 <= k <= msgs.len(),
        msgs[0] is Chunk,
    ensures
        receive_prefix(msgs.take(k)) == Err::<Option<(Seq<char>, Seq<u8>)>, _>(
            TransferError::ProtocolViolation,
        ),
    decreases k,
{
    assert(msgs.take(k).drop_last() =~= msgs.take(k - 1));
    if k == 1 {
        assert(msgs.take(0) =~= Seq::<MessageView>::empty());
    } else {
        lemma_first_chunk_fails(msgs, k - 1);
    }
}

} // verus!
