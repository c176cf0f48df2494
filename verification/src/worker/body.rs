//! Reading a request off its lane.

use bytes::{Bytes, BytesMut};
use vstd::prelude::*;

use crate::protocol::RequestError;
use crate::text;

verus! {

/// `bytes::Bytes`, a frozen run of bytes.
#[verifier::external_type_specification]
#[verifier::external_body]
pub struct ExBytes(Bytes);

/// `bytes::BytesMut`, a growing run of bytes.
#[verifier::external_type_specification]
#[verifier::external_body]
pub struct ExBytesMut(BytesMut);

/// The bytes that a `Bytes` holds.
pub uninterp spec fn bytes_contents(bytes: Bytes) -> Seq<u8>;

/// The bytes that a `BytesMut` holds.
pub uninterp spec fn buffer_contents(buffer: BytesMut) -> Seq<u8>;

/// `BytesMut::new`. Taken on trust: a new buffer is empty.
#[verifier::external_body]
fn new_buffer() -> (buffer: BytesMut)
    ensures
        buffer_contents(buffer) == Seq::<u8>::empty(),
{
    BytesMut::new()
}

/// `BytesMut::extend_from_slice`. Taken on trust: the chunk's bytes are
/// appended and those before are kept.
#[verifier::external_body]
fn extend(buffer: &mut BytesMut, chunk: &Bytes)
    ensures
        buffer_contents(*final(buffer)) == buffer_contents(*old(buffer)) + bytes_contents(*chunk),
{
    buffer.extend_from_slice(chunk)
}

/// `BytesMut::freeze`. Taken on trust: the bytes stay the same.
#[verifier::external_body]
fn freeze(buffer: BytesMut) -> (bytes: Bytes)
    ensures
        bytes_contents(bytes) == buffer_contents(buffer),
{
    buffer.freeze()
}

/// One frame of a request lane.
#[derive(Debug)]
pub enum SourceFrame {
    Body(Bytes),
    End,
    /// Headers and whatever else a lane carries.
    Other,
}

/// What a run of frames holds up to its end: the bodies before the first
/// `End`, one after the other.
pub open spec fn body_of(frames: Seq<SourceFrame>) -> Seq<u8>
    decreases frames.len(),
{
    if frames.len() == 0 {
        Seq::empty()
    } else {
        match frames[0] {
            SourceFrame::Body(chunk) => bytes_contents(chunk) + body_of(frames.drop_first()),
            SourceFrame::End => Seq::empty(),
            SourceFrame::Other => body_of(frames.drop_first()),
        }
    }
}

/// What has been read once one more frame has come in.
pub open spec fn after_frame(read: Seq<u8>, frame: SourceFrame) -> Seq<u8> {
    match frame {
        SourceFrame::Body(chunk) => read + bytes_contents(chunk),
        _ => read,
    }
}

/// What has been read once `frames` have come in, stopping at the first `End`.
pub open spec fn after_frames(read: Seq<u8>, frames: Seq<SourceFrame>) -> Seq<u8>
    decreases frames.len(),
{
    if frames.len() == 0 || frames[0] is End {
        read
    } else {
        after_frames(after_frame(read, frames[0]), frames.drop_first())
    }
}

/// A body is read whole and in order: taking a lane frame by frame gives the
/// bodies before its end, joined, and nothing of what comes after.
pub proof fn bodies_are_read_whole(read: Seq<u8>, frames: Seq<SourceFrame>)
    ensures
        after_frames(read, frames) == read + body_of(frames),
    decreases frames.len(),
{
    if frames.len() > 0 && !(frames[0] is End) {
        bodies_are_read_whole(after_frame(read, frames[0]), frames.drop_first());
    }
    assert(after_frames(read, frames) =~= read + body_of(frames));
}

/// A request body on its way in. Prompts are small and the engine needs all of
/// it before it can start, so there is nothing to gain from streaming.
pub struct RequestBody {
    buffer: BytesMut,
}

impl View for RequestBody {
    type V = Seq<u8>;

    closed spec fn view(&self) -> Seq<u8> {
        buffer_contents(self.buffer)
    }
}

impl RequestBody {
    pub fn new() -> (body: RequestBody)
        ensures
            body@ == Seq::<u8>::empty(),
    {
        RequestBody { buffer: new_buffer() }
    }

    /// Take in one frame. Returns whether to read on.
    pub fn push(&mut self, frame: &SourceFrame) -> (more: bool)
        ensures
            more == !(frame is End),
            final(self)@ == after_frame(old(self)@, *frame),
            frame matches SourceFrame::Body(chunk) ==> final(self)@ == old(self)@ + bytes_contents(
                *chunk,
            ),
            !(frame is Body) ==> final(self)@ == old(self)@,
    {
        match frame {
            SourceFrame::Body(chunk) => {
                extend(&mut self.buffer, chunk);
                true
            },
            SourceFrame::End => false,
            SourceFrame::Other => true,
        }
    }

    /// The whole body.
    pub fn finish(self) -> (bytes: Bytes)
        ensures
            bytes_contents(bytes) == self@,
    {
        freeze(self.buffer)
    }
}

/// What became of reading a body.
#[derive(Debug)]
pub enum BodyRead {
    Complete(Bytes),
    TimedOut,
    Failed(String),
}

/// Why a request could not be read.
#[derive(Debug)]
pub enum ReadError {
    /// The lane itself failed.
    Lane(String),
    HeadersMissing,
    TimedOut { timeout_ms: u64 },
    Request(RequestError),
}

impl ReadError {
    /// The text of [`ReadError::message`].
    pub open spec fn spec_message(&self) -> Seq<char> {
        match self {
            ReadError::Lane(error) => error@,
            ReadError::HeadersMissing => "request headers were missing"@,
            ReadError::TimedOut { timeout_ms } => "request body did not finish within "@
                + text::decimal(*timeout_ms as nat) + "ms"@,
            ReadError::Request(error) => error.spec_message(),
        }
    }

    /// What the client is told.
    pub fn message(&self) -> (message: String)
        ensures
            message@ == self.spec_message(),
            self matches ReadError::Lane(error) ==> message@ == error@,
            *self is HeadersMissing ==> message@ == "request headers were missing"@,
            self matches ReadError::TimedOut { timeout_ms } ==> message@
                == "request body did not finish within "@ + text::decimal(*timeout_ms as nat)
                + "ms"@,
    {
        match self {
            ReadError::Lane(error) => error.clone(),
            ReadError::HeadersMissing => "request headers were missing".to_owned(),
            ReadError::TimedOut { timeout_ms } => {
                let mut message = "request body did not finish within ".to_owned();
                text::push_decimal(&mut message, *timeout_ms);
                message.append("ms");
                message
            },
            ReadError::Request(error) => error.message(),
        }
    }
}

/// A job whose headers cannot be had is not read any further.
pub fn claim_head(found: Result<bool, String>) -> (claimed: Result<(), ReadError>)
    ensures
        claimed == match found {
            Ok(found) => if found {
                Ok(())
            } else {
                Err(ReadError::HeadersMissing)
            },
            Err(error) => Err::<(), ReadError>(ReadError::Lane(error)),
        },
{
    match found {
        Ok(found) => if found {
            Ok(())
        } else {
            Err(ReadError::HeadersMissing)
        },
        Err(error) => Err(ReadError::Lane(error)),
    }
}

/// A job whose body does not arrive in time is given up.
pub fn claim_body(read: BodyRead, timeout_ms: u64) -> (claimed: Result<Bytes, ReadError>)
    ensures
        claimed == match read {
            BodyRead::Complete(body) => Ok(body),
            BodyRead::TimedOut => Err(ReadError::TimedOut { timeout_ms }),
            BodyRead::Failed(error) => Err::<Bytes, ReadError>(ReadError::Lane(error)),
        },
{
    match read {
        BodyRead::Complete(body) => Ok(body),
        BodyRead::TimedOut => Err(ReadError::TimedOut { timeout_ms }),
        BodyRead::Failed(error) => Err(ReadError::Lane(error)),
    }
}

/// A lane reads as the chunks on it, one after the other, up to its end:
/// whatever else it carries adds nothing, and what comes behind the end is not
/// read.
pub proof fn a_lane_reads_as_its_chunks(
    frames: Seq<SourceFrame>,
    chunk: Bytes,
    behind: Seq<SourceFrame>,
)
    ensures
        body_of(Seq::empty()).len() == 0,
        body_of(seq![SourceFrame::Body(chunk)] + behind) == bytes_contents(chunk) + body_of(behind),
        body_of(seq![SourceFrame::Other] + behind) == body_of(behind),
        body_of(seq![SourceFrame::End] + behind).len() == 0,
        (forall|i: int| 0 <= i < frames.len() ==> !(#[trigger] frames[i] is End)) ==> body_of(
            frames + behind,
        ) == body_of(frames) + body_of(behind),
    decreases frames.len(),
{
    assert((seq![SourceFrame::Body(chunk)] + behind).drop_first() =~= behind);
    assert((seq![SourceFrame::Other] + behind).drop_first() =~= behind);
    if forall|i: int| 0 <= i < frames.len() ==> !(#[trigger] frames[i] is End) {
        if frames.len() == 0 {
            assert(frames + behind =~= behind);
            assert(body_of(frames) + body_of(behind) =~= body_of(behind));
        } else {
            let rest = frames.drop_first();
            assert forall|i: int| 0 <= i < rest.len() implies !(#[trigger] rest[i] is End) by {
                assert(!(frames[i + 1] is End));
            }
            assert(!(frames[0] is End));
            a_lane_reads_as_its_chunks(rest, chunk, behind);
            assert((frames + behind).drop_first() =~= rest + behind);
            assert(body_of(frames + behind) =~= body_of(frames) + body_of(behind));
        }
    }
}

/// Whoever sent a request that could not be read is told why: what the lane said,
/// that there were no headers, how long the body was waited for, or what is wrong
/// with the request.
pub proof fn a_reader_says_why(error: String, timeout_ms: u64, fault: RequestError)
    ensures
        ReadError::Lane(error).spec_message() == error@,
        ReadError::HeadersMissing.spec_message() == "request headers were missing"@,
        (ReadError::TimedOut { timeout_ms }).spec_message()
            == "request body did not finish within "@ + text::decimal(timeout_ms as nat) + "ms"@,
        ReadError::Request(fault).spec_message() == fault.spec_message(),
        RequestError::Malformed(error).spec_message() == error@,
        RequestError::NoMessages.spec_message() == "messages must not be empty"@,
{
}

} // verus!
