use vstd::prelude::*;
use vstd::string::*;

use crate::paste::{classified, content_permitted, sniff_window, sniffed_of, Paste};
use crate::{DEFAULT_MIME_TYPE, HOST_PLACEHOLDER, LANDING_PAGE};

verus! {

/// The client-visible outcome of a request.
#[derive(Clone, Copy, Debug, PartialEq, Eq, Structural)]
pub enum Status {
    Success,
    Created,
    BadRequest,
    NotFound,
    PayloadTooLarge,
    InternalError,
}

pub open spec fn status_code(s: Status) -> u16 {
    match s {
        Status::Success => 200,
        Status::Created => 201,
        Status::BadRequest => 400,
        Status::NotFound => 404,
        Status::PayloadTooLarge => 413,
        Status::InternalError => 500,
    }
}

impl Status {
    /// The HTTP status code.
    pub fn code(self) -> (r: u16)
        ensures
            r == status_code(self),
    {
        match self {
            Status::Success => 200,
            Status::Created => 201,
            Status::BadRequest => 400,
            Status::NotFound => 404,
            Status::PayloadTooLarge => 413,
            Status::InternalError => 500,
        }
    }
}

/// A response body: text, or the raw bytes of a paste.
pub enum Body {
    Text(String),
    Bytes(Vec<u8>),
}

/// A response as the transport layer is to send it.
pub struct Response {
    pub status: Status,
    pub content_type: &'static str,
    /// the `Location` header, when there is one
    pub location: Option<String>,
    pub body: Body,
}

/// Why a storage operation failed.
#[derive(Clone, Copy, Debug, PartialEq, Eq, Structural)]
pub enum StoreError {
    NotFound,
    Io,
}

/// The phase of one upload.
#[derive(Clone, Copy, Debug, PartialEq, Eq, Structural)]
pub enum Phase {
    Streaming,
    TooLarge,
    BadType,
}

/// What the transport is to do after an upload event.
pub enum Action {
    /// write the chunk to the end of the paste's file
    Append,
    /// send the response
    Respond(Response),
    /// remove whatever was written of the paste, then send the response
    Discard(Response),
}

/// A plain-text response with the given status and message.
pub open spec fn is_message(r: Response, status: Status, msg: Seq<char>) -> bool {
    &&& r.status == status
    &&& r.content_type@ == DEFAULT_MIME_TYPE@
    &&& r.location is None
    &&& r.body matches Body::Text(t) && t@ == msg
}

pub open spec fn location_of(host: Seq<char>, id: Seq<char>) -> Seq<char> {
    host + "/"@ + id
}

/// The phase after a chunk arrives: a finished upload stays as it is; a
/// chunk that takes the total past `max` ends it as too large, and one that
/// the content policy refuses ends it as of a refused type.
pub open spec fn next_phase(phase: Phase, received: nat, max: nat, chunk: Seq<u8>) -> Phase {
    if phase != Phase::Streaming {
        phase
    } else if received + chunk.len() > max {
        Phase::TooLarge
    } else if !content_permitted(chunk) {
        Phase::BadType
    } else {
        Phase::Streaming
    }
}

/// The status an upload ends with, given its phase and how many bytes it
/// stored.
pub open spec fn end_status(phase: Phase, stored: nat) -> Status {
    match phase {
        Phase::TooLarge => Status::PayloadTooLarge,
        Phase::BadType => Status::BadRequest,
        Phase::Streaming => if stored == 0 {
            Status::BadRequest
        } else {
            Status::Created
        },
    }
}

pub open spec fn end_message(phase: Phase) -> Seq<char> {
    match phase {
        Phase::TooLarge => "upload limit exceed"@,
        Phase::BadType => "file type not permitted"@,
        Phase::Streaming => "empty file not allowed"@,
    }
}

/// All chunks, one after the other.
pub open spec fn concat_all(chunks: Seq<Seq<u8>>) -> Seq<u8>
    decreases chunks.len(),
{
    if chunks.len() == 0 {
        Seq::empty()
    } else {
        concat_all(chunks.drop_last()) + chunks.last()
    }
}

/// Phase and stored bytes after feeding `chunks` to an upload in the given
/// state.
pub open spec fn run(phase: Phase, stored: Seq<u8>, max: nat, chunks: Seq<Seq<u8>>) -> (
    Phase,
    Seq<u8>,
)
    decreases chunks.len(),
{
    if chunks.len() == 0 {
        (phase, stored)
    } else {
        let before = run(phase, stored, max, chunks.drop_last());
        let p = next_phase(before.0, before.1.len(), max, chunks.last());
        (p, if p == Phase::Streaming {
            before.1 + chunks.last()
        } else {
            before.1
        })
    }
}

/// The in-flight state of one upload: the chunks it has stored so far,
/// against its limit.
pub struct Upload {
    max: usize,
    received: usize,
    phase: Phase,
    stored: Ghost<Seq<u8>>,
    id: String,
}

impl Upload {
    pub closed spec fn max(&self) -> nat {
        self.max as nat
    }

    pub closed spec fn phase(&self) -> Phase {
        self.phase
    }

    /// The bytes handed to storage so far, in order.
    pub closed spec fn stored(&self) -> Seq<u8> {
        self.stored@
    }

    pub closed spec fn id(&self) -> Seq<char> {
        self.id@
    }

    pub closed spec fn wf(&self) -> bool {
        &&& self.received == self.stored@.len()
        &&& self.received <= self.max
    }

    /// A new upload to the paste named `id`, with at most `max` bytes.
    pub fn new(max: usize, id: String) -> (r: Upload)
        ensures
            r.wf(),
            r.max() == max,
            r.phase() == Phase::Streaming,
            r.stored() == Seq::<u8>::empty(),
            r.id() == id@,
    {
        Upload { max, received: 0, phase: Phase::Streaming, stored: Ghost(Seq::empty()), id }
    }

    /// The identifier of the paste being written.
    pub fn id_str(&self) -> (r: &str)
        ensures
            r@ == self.id(),
    {
        self.id.as_str()
    }

    fn message(status: Status, msg: &str) -> (r: Response)
        ensures
            is_message(r, status, msg@),
    {
        Response {
            status,
            content_type: DEFAULT_MIME_TYPE,
            location: None,
            body: Body::Text(String::from_str(msg)),
        }
    }

    fn rejection(phase: Phase) -> (r: Response)
        requires
            phase != Phase::Streaming,
        ensures
            is_message(r, end_status(phase, 0), end_message(phase)),
    {
        match phase {
            Phase::TooLarge => Upload::message(Status::PayloadTooLarge, "upload limit exceed"),
            _ => Upload::message(Status::BadRequest, "file type not permitted"),
        }
    }

    /// One chunk of the request body arrived.
    pub fn on_chunk(&mut self, chunk: &[u8]) -> (a: Action)
        requires
            old(self).wf(),
        ensures
            final(self).wf(),
            final(self).max() == old(self).max(),
            final(self).id() == old(self).id(),
            final(self).phase() == next_phase(
                old(self).phase(),
                old(self).stored().len(),
                old(self).max(),
                chunk@,
            ),
            final(self).stored() == if final(self).phase() == Phase::Streaming {
                old(self).stored() + chunk@
            } else {
                old(self).stored()
            },
            final(self).phase() == Phase::Streaming ==> a is Append,
            final(self).phase() != Phase::Streaming ==> (a matches Action::Discard(r) && is_message(
                r,
                end_status(final(self).phase(), 0),
                end_message(final(self).phase()),
            )),
    {
        if self.phase != Phase::Streaming {
            return Action::Discard(Upload::rejection(self.phase));
        }
        if chunk.len() > self.max - self.received {
            self.phase = Phase::TooLarge;
            return Action::Discard(Upload::rejection(self.phase));
        }
        if !Paste::permits(chunk) {
            self.phase = Phase::BadType;
            return Action::Discard(Upload::rejection(self.phase));
        }
        self.received = self.received + chunk.len();
        self.stored = Ghost(self.stored@ + chunk@);
        Action::Append
    }

    /// The request body ended; `host` is the externally observed
    /// `scheme://host` of the server.
    pub fn on_end(&self, host: &str) -> (a: Action)
        requires
            self.wf(),
        ensures
            end_status(self.phase(), self.stored().len()) == Status::Created ==> (a matches Action::Respond(r) && {
                &&& r.status == Status::Created
                &&& r.content_type@ == DEFAULT_MIME_TYPE@
                &&& r.location matches Some(l) && l@ == location_of(host@, self.id())
                &&& r.body matches Body::Text(t) && t@ == location_of(host@, self.id()) + "\n"@
            }),
            end_status(self.phase(), self.stored().len()) != Status::Created ==> (a matches Action::Discard(r) && is_message(
                r,
                end_status(self.phase(), self.stored().len()),
                end_message(self.phase()),
            )),
    {
        if self.phase != Phase::Streaming {
            return Action::Discard(Upload::rejection(self.phase));
        }
        if self.received == 0 {
            return Action::Discard(Upload::message(Status::BadRequest, "empty file not allowed"));
        }
        let mut location = String::from_str(host);
        location.append("/");
        location.append(self.id.as_str());
        let mut body = location.clone();
        body.append("\n");
        Action::Respond(
            Response {
                status: Status::Created,
                content_type: DEFAULT_MIME_TYPE,
                location: Some(location),
                body: Body::Text(body),
            },
        )
    }
}

/// The response to a read of a paste: its bytes, typed by the classifier,
/// or the failure.
pub fn serve_response(read: Result<Vec<u8>, StoreError>) -> (r: Response)
    ensures
        read matches Ok(d) ==> {
            &&& r.status == Status::Success
            &&& r.content_type@ == classified(sniffed_of(sniff_window(d@))).0
            &&& r.location is None
            &&& r.body matches Body::Bytes(b) && b@ == d@
        },
        read == Err::<Vec<u8>, StoreError>(StoreError::NotFound) ==> is_message(
            r,
            Status::NotFound,
            "file not found"@,
        ),
        read == Err::<Vec<u8>, StoreError>(StoreError::Io) ==> is_message(
            r,
            Status::InternalError,
            "paste fail"@,
        ),
{
    match read {
        Ok(data) => {
            let (mime, _) = Paste::mime_type(data.as_slice());
            Response { status: Status::Success, content_type: mime, location: None, body: Body::Bytes(data) }
        },
        Err(StoreError::NotFound) => Upload::message(Status::NotFound, "file not found"),
        Err(StoreError::Io) => Upload::message(Status::InternalError, "paste fail"),
    }
}

/// The response to a delete of a paste, given what the removal did.
pub fn delete_response(removed: Result<(), StoreError>) -> (r: Response)
    ensures
        removed is Ok ==> is_message(r, Status::Success, "OK\n"@),
        removed == Err::<(), StoreError>(StoreError::NotFound) ==> is_message(
            r,
            Status::NotFound,
            "file not found"@,
        ),
        removed == Err::<(), StoreError>(StoreError::Io) ==> is_message(
            r,
            Status::InternalError,
            "paste fail"@,
        ),
{
    match removed {
        Ok(()) => Upload::message(Status::Success, "OK\n"),
        Err(StoreError::NotFound) => Upload::message(Status::NotFound, "file not found"),
        Err(StoreError::Io) => Upload::message(Status::InternalError, "paste fail"),
    }
}

/// While an upload is streaming, what it handed to storage is exactly the
/// body received so far, in order, and within the limit.
pub proof fn lemma_streaming_upload_stores_body(max: nat, chunks: Seq<Seq<u8>>)
    ensures
        run(Phase::Streaming, Seq::empty(), max, chunks).0 == Phase::Streaming ==> {
            &&& run(Phase::Streaming, Seq::empty(), max, chunks).1 == concat_all(chunks)
            &&& concat_all(chunks).len() <= max
        },
    decreases chunks.len(),
{
    if chunks.len() > 0 {
        lemma_streaming_upload_stores_body(max, chunks.drop_last());
    }
}

/// An upload whose chunks all pass the content policy and whose total size
/// exceeds the limit ends rejected as too large, and so its partial file is
/// discarded: it never ends as created.
pub proof fn lemma_oversize_upload_rejected(max: nat, chunks: Seq<Seq<u8>>)
    requires
        forall|i: int| 0 <= i < chunks.len() ==> content_permitted(#[trigger] chunks[i]),
        concat_all(chunks).len() > max,
    ensures
        run(Phase::Streaming, Seq::empty(), max, chunks).0 == Phase::TooLarge,
        end_status(
            run(Phase::Streaming, Seq::empty(), max, chunks).0,
            run(Phase::Streaming, Seq::empty(), max, chunks).1.len(),
        ) == Status::PayloadTooLarge,
{
    lemma_streaming_upload_stores_body(max, chunks);
    lemma_never_bad_type(max, chunks);
}

proof fn lemma_never_bad_type(max: nat, chunks: Seq<Seq<u8>>)
    requires
        forall|i: int| 0 <= i < chunks.len() ==> content_permitted(#[trigger] chunks[i]),
    ensures
        run(Phase::Streaming, Seq::empty(), max, chunks).0 != Phase::BadType,
    decreases chunks.len(),
{
    if chunks.len() > 0 {
        let init = chunks.drop_last();
        assert forall|i: int| 0 <= i < init.len() implies content_permitted(#[trigger] init[i]) by {
            assert(init[i] == chunks[i]);
        }
        lemma_never_bad_type(max, init);
        assert(content_permitted(chunks[chunks.len() - 1]));
    }
}

/// An upload whose chunks pass the content policy and stay within the limit
/// is still streaming, and has stored exactly those chunks.
proof fn lemma_within_limit_streams(max: nat, chunks: Seq<Seq<u8>>)
    requires
        forall|i: int| 0 <= i < chunks.len() ==> content_permitted(#[trigger] chunks[i]),
        concat_all(chunks).len() <= max,
    ensures
        run(Phase::Streaming, Seq::empty(), max, chunks) == (Phase::Streaming, concat_all(chunks)),
    decreases chunks.len(),
{
    if chunks.len() > 0 {
        let init = chunks.drop_last();
        assert forall|i: int| 0 <= i < init.len() implies content_permitted(#[trigger] init[i]) by {
            assert(init[i] == chunks[i]);
        }
        lemma_within_limit_streams(max, init);
        assert(content_permitted(chunks[chunks.len() - 1]));
    }
}

/// Once an upload has left the streaming phase it keeps that phase.
proof fn lemma_finished_upload_stays(max: nat, chunks: Seq<Seq<u8>>, k: int)
    requires
        0 <= k <= chunks.len(),
        run(Phase::Streaming, Seq::empty(), max, chunks.take(k)).0 != Phase::Streaming,
    ensures
        run(Phase::Streaming, Seq::empty(), max, chunks).0 == run(
            Phase::Streaming,
            Seq::empty(),
            max,
            chunks.take(k),
        ).0,
    decreases chunks.len() - k,
{
    if k < chunks.len() {
        assert(chunks.take(k + 1).drop_last() =~= chunks.take(k));
        lemma_finished_upload_stays(max, chunks, k + 1);
    } else {
        assert(chunks.take(k) =~= chunks);
    }
}

/// Sizes are checked before content: an upload whose first `k` chunks pass
/// the content policy and fit the limit, and whose chunk `k` takes the total
/// past it, ends rejected as too large, whatever chunk `k` and the chunks
/// after it hold; so its partial file is discarded.
pub proof fn lemma_breaching_upload_rejected(max: nat, chunks: Seq<Seq<u8>>, k: int)
    requires
        0 <= k < chunks.len(),
        forall|i: int| 0 <= i < k ==> content_permitted(#[trigger] chunks[i]),
        concat_all(chunks.take(k)).len() <= max,
        concat_all(chunks.take(k + 1)).len() > max,
    ensures
        run(Phase::Streaming, Seq::empty(), max, chunks).0 == Phase::TooLarge,
        end_status(
            run(Phase::Streaming, Seq::empty(), max, chunks).0,
            run(Phase::Streaming, Seq::empty(), max, chunks).1.len(),
        ) == Status::PayloadTooLarge,
{
    let pre = chunks.take(k);
    assert forall|i: int| 0 <= i < pre.len() implies content_permitted(#[trigger] pre[i]) by {
        assert(pre[i] == chunks[i]);
    }
    lemma_within_limit_streams(max, pre);
    let upto = chunks.take(k + 1);
    assert(upto.drop_last() =~= pre);
    assert(upto.last() == chunks[k]);
    lemma_finished_upload_stays(max, chunks, k + 1);
}

/// `t` with every occurrence of `p`, taken from left to right without
/// overlap, replaced by `h`; an empty `p` replaces nothing.
pub open spec fn substitute(t: Seq<char>, p: Seq<char>, h: Seq<char>) -> Seq<char>
    decreases t.len(),
{
    if t.len() == 0 {
        Seq::empty()
    } else if p.len() > 0 && p.len() <= t.len() && t.take(p.len() as int) == p {
        h + substitute(t.skip(p.len() as int), p, h)
    } else {
        seq![t[0]] + substitute(t.skip(1), p, h)
    }
}

/// Whether `p` occurs in `t` at position `i`.
fn occurs_at(t: &str, p: &str, i: usize) -> (r: bool)
    requires
        i <= t@.len(),
    ensures
        r == (i + p@.len() <= t@.len() && t@.subrange(i as int, i + p@.len()) == p@),
{
    let n = t.unicode_len();
    let m = p.unicode_len();
    if m > n - i {
        return false;
    }
    let mut k: usize = 0;
    while k < m
        invariant
            n == t@.len(),
            m == p@.len(),
            i + m <= n,
            0 <= k <= m,
            forall|j: int| 0 <= j < k ==> t@[i + j] == p@[j],
        decreases m - k,
    {
        if t.get_char(i + k) != p.get_char(k) {
            assert(t@.subrange(i as int, i + m)[k as int] != p@[k as int]);
            return false;
        }
        k = k + 1;
    }
    assert(t@.subrange(i as int, i + m) =~= p@);
    true
}

/// `t` with every occurrence of `p` replaced by `h`.
pub fn fill_template(t: &str, p: &str, h: &str) -> (r: String)
    ensures
        r@ == substitute(t@, p@, h@),
{
    let n = t.unicode_len();
    let m = p.unicode_len();
    let mut out = String::new();
    let mut start: usize = 0;
    let mut i: usize = 0;
    assert(t@.skip(0) =~= t@);
    while i < n
        invariant
            n == t@.len(),
            m == p@.len(),
            start <= i <= n,
            substitute(t@, p@, h@) == out@ + t@.subrange(start as int, i as int) + substitute(
                t@.skip(i as int),
                p@,
                h@,
            ),
        decreases n - i,
    {
        let ghost rest = t@.skip(i as int);
        if m > 0 && occurs_at(t, p, i) {
            proof {
                assert(rest.take(m as int) =~= p@);
                assert(rest.skip(m as int) =~= t@.skip(i + m));
            }
            out.append(t.substring_char(start, i));
            out.append(h);
            i = i + m;
            start = i;
            proof {
                assert(t@.subrange(start as int, i as int) =~= Seq::<char>::empty());
            }
        } else {
            proof {
                if m > 0 && m <= rest.len() {
                    assert(rest.take(m as int) =~= t@.subrange(i as int, i + m));
                }
                assert(rest.skip(1) =~= t@.skip(i + 1));
                assert(rest[0] == t@[i as int]);
                assert(t@.subrange(start as int, i as int) + seq![t@[i as int]] =~= t@.subrange(
                    start as int,
                    i + 1,
                ));
            }
            i = i + 1;
        }
    }
    proof {
        assert(t@.skip(n as int) =~= Seq::<char>::empty());
    }
    out.append(t.substring_char(start, n));
    proof {
        assert(substitute(t@.skip(n as int), p@, h@) =~= Seq::<char>::empty());
    }
    out
}

/// The landing page, with the server's address `host` in place of every
/// placeholder.
pub fn landing_page(host: &str) -> (r: String)
    ensures
        r@ == substitute(LANDING_PAGE@, HOST_PLACEHOLDER@, host@),
{
    fill_template(LANDING_PAGE, HOST_PLACEHOLDER, host)
}

} // verus!
