//! The decisions of the bounded stdio transport: how input bytes become frames, and what
//! happens to each frame (answer now, start a tool call, cancel one, or hand it to the
//! protocol). The caller owns the byte streams, the tasks and the queues.
use vstd::prelude::*;
use crate::json::{decode_document, json_of, opt_json, parsed_document, Json, JsonValue};
use crate::mcp::{
    error_response, error_response_json, invalid_request_error, message_reply, plain_error,
    request_key_of, string_member, ReplyView, RequestKey, RequestKeyView, RpcError,
};

verus! {

/// The largest input frame, in bytes: one mebibyte.
pub const MAX_FRAME_BYTES: usize = 1048576;

/// The most tool calls that run at once.
pub const MAX_IN_FLIGHT_REQUESTS: usize = 32;

/// The most input messages held back while output is blocked.
pub const INPUT_BACKLOG_CAPACITY: usize = 4096;

/// The most input bytes held back while output is blocked: eight mebibytes.
pub const INPUT_BACKLOG_BYTES: usize = 8388608;

// ---------------------------------------------------------------------------------------------
// Frames
// ---------------------------------------------------------------------------------------------

/// One input frame: a message's bytes, a message that was too large, or the end of input.
#[derive(Debug)]
pub enum FrameRead {
    Message(Vec<u8>),
    Oversized,
    EndOfFile,
}

pub enum FrameView {
    Message(Seq<u8>),
    Oversized,
    EndOfFile,
}

impl View for FrameRead {
    type V = FrameView;

    open spec fn view(&self) -> FrameView {
        match self {
            FrameRead::Message(bytes) => FrameView::Message(bytes@),
            FrameRead::Oversized => FrameView::Oversized,
            FrameRead::EndOfFile => FrameView::EndOfFile,
        }
    }
}

impl FrameRead {
    /// The bytes the frame keeps.
    pub fn stored_bytes(&self) -> (n: usize)
        ensures
            n == match self@ {
                FrameView::Message(bytes) => bytes.len() as int,
                _ => 0,
            },
    {
        match self {
            FrameRead::Message(frame) => frame.len(),
            FrameRead::Oversized | FrameRead::EndOfFile => 0,
        }
    }

    /// The bytes the frame takes from the input backlog: what it keeps, and at least one.
    pub fn backlog_bytes(&self) -> (n: u32)
        requires
            self.stored_bytes_spec() <= MAX_FRAME_BYTES,
        ensures
            n == if self.stored_bytes_spec() == 0 {
                1
            } else {
                self.stored_bytes_spec()
            },
    {
        let stored = self.stored_bytes();
        if stored == 0 {
            1
        } else {
            stored as u32
        }
    }

    pub open spec fn stored_bytes_spec(&self) -> nat {
        match self@ {
            FrameView::Message(bytes) => bytes.len(),
            _ => 0,
        }
    }
}

/// The index of the first newline in `chunk`.
pub open spec fn first_newline(chunk: Seq<u8>) -> Option<int> {
    if exists|i: int| 0 <= i < chunk.len() && chunk[i] == 10u8 {
        Some(choose|i: int| 0 <= i < chunk.len() && chunk[i] == 10u8 && forall|j: int| 0 <= j < i ==> chunk[j] != 10u8)
    } else {
        None
    }
}

/// The bytes of `chunk` that belong to the current frame: up to the first newline.
pub open spec fn frame_part(chunk: Seq<u8>) -> Seq<u8> {
    match first_newline(chunk) {
        Some(i) => chunk.take(i),
        None => chunk,
    }
}

/// The bytes of `chunk` that are used up: the frame part and its newline.
pub open spec fn consumed_part(chunk: Seq<u8>) -> nat {
    match first_newline(chunk) {
        Some(i) => (i + 1) as nat,
        None => chunk.len(),
    }
}

/// Splits input into newline-terminated frames of at most `MAX_FRAME_BYTES` bytes; the bytes
/// of a longer line are dropped and the line is reported as oversized.
pub struct FrameReader {
    buffer: Vec<u8>,
    discarding: bool,
}

impl FrameReader {
    #[verifier::type_invariant]
    spec fn bounded(self) -> bool {
        &&& self.buffer@.len() <= MAX_FRAME_BYTES
        &&& self.discarding ==> self.buffer@.len() == 0
        &&& !self.buffer@.contains(10u8)
    }

    /// The bytes of the current frame read so far.
    pub closed spec fn pending(self) -> Seq<u8> {
        self.buffer@
    }

    /// Whether the current line is too long and is being dropped.
    pub closed spec fn is_discarding(self) -> bool {
        self.discarding
    }

    /// The state after adding `part` to the current frame.
    pub open spec fn after_part(pending: Seq<u8>, discarding: bool, part: Seq<u8>) -> (Seq<u8>, bool) {
        if discarding {
            (pending, true)
        } else if pending.len() + part.len() > MAX_FRAME_BYTES {
            (Seq::empty(), true)
        } else {
            (pending + part, false)
        }
    }

    pub open spec fn frame_of(pending: Seq<u8>, discarding: bool) -> FrameView {
        if discarding {
            FrameView::Oversized
        } else {
            FrameView::Message(pending)
        }
    }

    /// A reader at the start of input.
    pub fn new() -> (reader: FrameReader)
        ensures
            reader.pending() == Seq::<u8>::empty(),
            !reader.is_discarding(),
    {
        FrameReader { buffer: Vec::new(), discarding: false }
    }

    fn take_frame(&mut self) -> (frame: FrameRead)
        ensures
            frame@ == FrameReader::frame_of(old(self).pending(), old(self).is_discarding()),
            final(self).pending() == Seq::<u8>::empty(),
            !final(self).is_discarding(),
    {
        proof {
            use_type_invariant(&*self);
        }
        if self.discarding {
            self.discarding = false;
            FrameRead::Oversized
        } else {
            let mut frame: Vec<u8> = Vec::new();
            std::mem::swap(&mut frame, &mut self.buffer);
            FrameRead::Message(frame)
        }
    }

    /// Takes in the next bytes of input. Returns how many bytes were used up and, when they
    /// completed a line, its frame.
    #[verifier::loop_isolation(false)]
    pub fn accept(&mut self, available: &[u8]) -> (result: (usize, Option<FrameRead>))
        requires
            available@.len() > 0,
        ensures
            result.0 == consumed_part(available@),
            ({
                let (pending, discarding) = FrameReader::after_part(
                    old(self).pending(),
                    old(self).is_discarding(),
                    frame_part(available@),
                );
                if first_newline(available@) is Some {
                    &&& result.1 matches Some(f) && f@ == FrameReader::frame_of(pending, discarding)
                    &&& final(self).pending() == Seq::<u8>::empty()
                    &&& !final(self).is_discarding()
                } else {
                    &&& result.1 is None
                    &&& final(self).pending() == pending
                    &&& final(self).is_discarding() == discarding
                }
            }),
            // A message frame holds at most `MAX_FRAME_BYTES` bytes and no newline.
            result.1 matches Some(f) ==> (f@ matches FrameView::Message(bytes) ==> bytes.len()
                <= MAX_FRAME_BYTES && !bytes.contains(10u8)),
            final(self).pending().len() <= MAX_FRAME_BYTES,
    {
        proof {
            use_type_invariant(&*self);
        }
        let mut newline: Option<usize> = None;
        let mut i: usize = 0;
        while i < available.len() && newline.is_none()
            invariant
                i <= available@.len(),
                forall|j: int| 0 <= j < i ==> available@[j] != 10u8,
                newline matches Some(n) ==> n == i && i < available@.len() && available@[n as int]
                    == 10u8,
            decreases available.len() - i + (if newline is None { 1int } else { 0int }),
        {
            if available[i] == 10u8 {
                newline = Some(i);
            } else {
                i = i + 1;
            }
        }
        proof {
            match newline {
                Some(n) => {
                    assert(available@[n as int] == 10u8);
                    let k = choose|k: int|
                        0 <= k < available@.len() && available@[k] == 10u8 && forall|j: int|
                            0 <= j < k ==> available@[j] != 10u8;
                    if k < n {
                    } else if k > n {
                        assert(available@[n as int] != 10u8);
                    }
                    assert(first_newline(available@) == Some(n as int));
                },
                None => {
                    assert(first_newline(available@) is None);
                },
            }
        }
        let (consumed, content_length) = match newline {
            Some(n) => (n + 1, n),
            None => (available.len(), available.len()),
        };
        let mut buffer: Vec<u8> = Vec::new();
        std::mem::swap(&mut buffer, &mut self.buffer);
        let mut discarding = self.discarding;
        if !discarding {
            if content_length > MAX_FRAME_BYTES - buffer.len() {
                buffer = Vec::new();
                discarding = true;
            } else {
                let ghost before = buffer@;
                let mut k: usize = 0;
                while k < content_length
                    invariant
                        k <= content_length <= available@.len(),
                        buffer@ == before + available@.take(k as int),
                        before.len() + content_length <= MAX_FRAME_BYTES,
                        !before.contains(10u8),
                        forall|j: int| 0 <= j < content_length ==> available@[j] != 10u8,
                    decreases content_length - k,
                {
                    buffer.push(available[k]);
                    assert(available@.take(k as int + 1) =~= available@.take(k as int).push(available@[k as int]));
                    k = k + 1;
                }
                assert(!buffer@.contains(10u8)) by {
                    if buffer@.contains(10u8) {
                        let j = choose|j: int| 0 <= j < buffer@.len() && buffer@[j] == 10u8;
                        if j < before.len() {
                            assert(before[j] == 10u8);
                        } else {
                            assert(available@[j - before.len()] == 10u8);
                        }
                    }
                }
            }
        }
        proof {
            assert(frame_part(available@) =~= available@.take(content_length as int));
        }
        match newline {
            Some(_) => {
                self.discarding = false;
                if discarding {
                    (consumed, Some(FrameRead::Oversized))
                } else {
                    (consumed, Some(FrameRead::Message(buffer)))
                }
            },
            None => {
                self.discarding = false;
                if discarding {
                    self.discarding = true;
                } else {
                    self.buffer = buffer;
                }
                (consumed, None)
            },
        }
    }

    /// Ends the input: a frame for the bytes of an unterminated last line, or the end of
    /// input when there are none.
    pub fn finish(&mut self) -> (frame: FrameRead)
        ensures
            frame@ == if old(self).pending().len() == 0 && !old(self).is_discarding() {
                FrameView::EndOfFile
            } else {
                FrameReader::frame_of(old(self).pending(), old(self).is_discarding())
            },
            final(self).pending() == Seq::<u8>::empty(),
            !final(self).is_discarding(),
    {
        if self.buffer.len() == 0 && !self.discarding {
            FrameRead::EndOfFile
        } else {
            self.take_frame()
        }
    }
}

// ---------------------------------------------------------------------------------------------
// The frames of a whole input
// ---------------------------------------------------------------------------------------------

/// The frame of one input line: its bytes, or oversized when it is longer than
/// `MAX_FRAME_BYTES`.
pub open spec fn line_frame(line: Seq<u8>) -> FrameView {
    if line.len() <= MAX_FRAME_BYTES {
        FrameView::Message(line)
    } else {
        FrameView::Oversized
    }
}

/// The first newline of a chunk is a newline with none before it; without one, no byte is a
/// newline.
pub proof fn lemma_first_newline_facts(x: Seq<u8>)
    ensures
        match first_newline(x) {
            Some(i) => {
                &&& 0 <= i < x.len()
                &&& x[i] == 10u8
                &&& forall|j: int| 0 <= j < i ==> x[j] != 10u8
            },
            None => forall|j: int| 0 <= j < x.len() ==> x[j] != 10u8,
        },
{
    if exists|i: int| 0 <= i < x.len() && x[i] == 10u8 {
        let k = choose|i: int| 0 <= i < x.len() && x[i] == 10u8;
        lemma_least_newline(x, k);
    }
}

proof fn lemma_least_newline(x: Seq<u8>, k: int)
    requires
        0 <= k < x.len(),
        x[k] == 10u8,
    ensures
        exists|i: int| 0 <= i < x.len() && x[i] == 10u8 && forall|j: int| 0 <= j < i ==> x[j] != 10u8,
    decreases k,
{
    if exists|j: int| 0 <= j < k && x[j] == 10u8 {
        let j = choose|j: int| 0 <= j < k && x[j] == 10u8;
        lemma_least_newline(x, j);
    } else {
        assert(forall|j: int| 0 <= j < k ==> x[j] != 10u8);
    }
}

proof fn lemma_first_newline_at(x: Seq<u8>, i: int)
    requires
        0 <= i < x.len(),
        x[i] == 10u8,
        forall|j: int| 0 <= j < i ==> x[j] != 10u8,
    ensures
        first_newline(x) == Some(i),
{
    lemma_first_newline_facts(x);
    let k = first_newline(x)->0;
    if k < i {
    } else if k > i {
    }
}

proof fn lemma_no_newline(x: Seq<u8>)
    requires
        forall|j: int| 0 <= j < x.len() ==> x[j] != 10u8,
    ensures
        first_newline(x) is None,
{
    lemma_first_newline_facts(x);
}

/// The frames an input yields, in order: one for each line, split at newlines (a last line
/// without a newline counts when it is not empty), then the end of input.
pub open spec fn lines_of(content: Seq<u8>) -> Seq<FrameView>
    decreases content.len(),
{
    match first_newline(content) {
        Some(i) => {
            proof {
                lemma_first_newline_facts(content);
            }
            seq![line_frame(content.take(i))] + lines_of(content.skip(i + 1))
        },
        None => if content.len() == 0 {
            seq![FrameView::EndOfFile]
        } else {
            seq![line_frame(content), FrameView::EndOfFile]
        },
    }
}

/// The frames still to come from a reader that holds `pending` (or is dropping an oversized
/// line) when the rest of the input is `rest`.
pub open spec fn remaining_frames(pending: Seq<u8>, discarding: bool, rest: Seq<u8>) -> Seq<
    FrameView,
> {
    match first_newline(rest) {
        Some(i) => {
            let (p, d) = FrameReader::after_part(pending, discarding, rest.take(i));
            seq![FrameReader::frame_of(p, d)] + lines_of(rest.skip(i + 1))
        },
        None => if pending.len() == 0 && !discarding && rest.len() == 0 {
            seq![FrameView::EndOfFile]
        } else {
            let (p, d) = FrameReader::after_part(pending, discarding, rest);
            seq![FrameReader::frame_of(p, d), FrameView::EndOfFile]
        },
    }
}

proof fn lemma_after_parts_join(pending: Seq<u8>, discarding: bool, a: Seq<u8>, b: Seq<u8>)
    ensures
        ({
            let (p, d) = FrameReader::after_part(pending, discarding, a);
            FrameReader::after_part(p, d, b)
        }) == FrameReader::after_part(pending, discarding, a + b),
{
    if !discarding && pending.len() + a.len() <= MAX_FRAME_BYTES {
        assert(pending + a + b =~= pending + (a + b));
    }
}

/// A fresh reader is to yield exactly the lines of its whole input.
pub proof fn lemma_reading_starts_at_the_lines(content: Seq<u8>)
    ensures
        remaining_frames(Seq::empty(), false, content) == lines_of(content),
{
    lemma_first_newline_facts(content);
    match first_newline(content) {
        Some(i) => {
            assert(Seq::<u8>::empty() + content.take(i) =~= content.take(i));
        },
        None => {
            assert(Seq::<u8>::empty() + content =~= content);
        },
    }
}

/// Each read keeps the reader on its input's lines: whatever part of the rest of the input a
/// read is given (`FrameReader::accept` with the first `n` bytes), the frame it completes,
/// followed by the frames still to come after the bytes it used, are the frames that were
/// still to come before it. With `lemma_reading_starts_at_the_lines` and
/// `lemma_finishing_follows_the_lines`, a reader fed an input `c` in any pieces yields
/// `lines_of(c)`: the lines in order, an oversized line reported and its bytes dropped, then
/// the end of input.
pub proof fn lemma_accepting_follows_the_lines(
    pending: Seq<u8>,
    discarding: bool,
    rest: Seq<u8>,
    n: int,
)
    requires
        0 < n <= rest.len(),
    ensures
        ({
            let available = rest.take(n);
            let (p, d) = FrameReader::after_part(pending, discarding, frame_part(available));
            let after = rest.skip(consumed_part(available) as int);
            if first_newline(available) is Some {
                remaining_frames(pending, discarding, rest) == seq![FrameReader::frame_of(p, d)]
                    + remaining_frames(Seq::empty(), false, after)
            } else {
                remaining_frames(pending, discarding, rest) == remaining_frames(p, d, after)
            }
        }),
{
    let available = rest.take(n);
    lemma_first_newline_facts(available);
    match first_newline(available) {
        Some(i) => {
            assert(rest[i] == available[i]);
            assert forall|j: int| 0 <= j < i implies rest[j] != 10u8 by {
                assert(rest[j] == available[j]);
            }
            lemma_first_newline_at(rest, i);
            assert(available.take(i) =~= rest.take(i));
            lemma_reading_starts_at_the_lines(rest.skip(i + 1));
        },
        None => {
            assert(available.take(n) =~= available);
            assert forall|k: int| 0 <= k < n implies rest[k] != 10u8 by {
                assert(rest[k] == available[k]);
            }
            lemma_reading_without_newline(pending, discarding, rest, n);
        },
    }
}

proof fn lemma_reading_without_newline(pending: Seq<u8>, discarding: bool, rest: Seq<u8>, n: int)
    requires
        0 < n <= rest.len(),
        forall|k: int| 0 <= k < n ==> rest[k] != 10u8,
    ensures
        ({
            let (p, d) = FrameReader::after_part(pending, discarding, rest.take(n));
            remaining_frames(pending, discarding, rest) == remaining_frames(p, d, rest.skip(n))
        }),
{
    let available = rest.take(n);
    let after = rest.skip(n);
    lemma_first_newline_facts(after);
    match first_newline(after) {
        Some(j) => {
            assert forall|k: int| 0 <= k < n + j implies rest[k] != 10u8 by {
                if k >= n {
                    assert(rest[k] == after[k - n]);
                }
            }
            assert(rest[n + j] == after[j]);
            lemma_first_newline_at(rest, n + j);
            assert(rest.take(n + j) =~= available + after.take(j));
            lemma_after_parts_join(pending, discarding, available, after.take(j));
            assert(rest.skip(n + j + 1) =~= after.skip(j + 1));
        },
        None => {
            assert forall|k: int| 0 <= k < rest.len() implies rest[k] != 10u8 by {
                if k >= n {
                    assert(rest[k] == after[k - n]);
                }
            }
            lemma_no_newline(rest);
            assert(rest =~= available + after);
            lemma_after_parts_join(pending, discarding, available, after);
            if !discarding && pending.len() + available.len() <= MAX_FRAME_BYTES {
                assert((pending + available).len() > 0);
            }
        },
    }
}

/// At the end of input the reader yields what `FrameReader::finish` gives: the frame of an
/// unterminated last line when there is one, then the end of input.
pub proof fn lemma_finishing_follows_the_lines(pending: Seq<u8>, discarding: bool)
    requires
        pending.len() <= MAX_FRAME_BYTES,
    ensures
        remaining_frames(pending, discarding, Seq::empty()) == if pending.len() == 0
            && !discarding {
            seq![FrameView::EndOfFile]
        } else {
            seq![FrameReader::frame_of(pending, discarding), FrameView::EndOfFile]
        },
{
    lemma_no_newline(Seq::<u8>::empty());
    assert(pending + Seq::<u8>::empty() =~= pending);
}


// ---------------------------------------------------------------------------------------------
// Dispatching frames
// ---------------------------------------------------------------------------------------------

/// The request a well-formed `notifications/cancelled` notification cancels.
pub open spec fn cancelled_request_key(message: Json) -> Option<RequestKeyView> {
    if !message.is_object() || string_member(message, "jsonrpc"@) != Some("2.0"@) || message.get(
        "id"@,
    ) is Some || string_member(message, "method"@) != Some("notifications/cancelled"@) {
        None
    } else {
        match message.get("params"@) {
            Some(p) => if p.is_object() {
                match p.get("requestId"@) {
                    Some(r) => request_key_of(r),
                    None => None,
                }
            } else {
                None
            },
            None => None,
        }
    }
}

/// The key of a `tools/call` request, which runs concurrently with other messages.
pub open spec fn asynchronous_request_key(message: Json) -> Option<RequestKeyView> {
    if !message.is_object() || string_member(message, "method"@) != Some("tools/call"@) {
        None
    } else {
        match message.get("id"@) {
            Some(id) => request_key_of(id),
            None => None,
        }
    }
}

pub open spec fn has_key(in_flight: Seq<(RequestKeyView, u64)>, key: RequestKeyView) -> bool {
    exists|i: int| 0 <= i < in_flight.len() && #[trigger] in_flight[i].0 == key
}

/// The position of `key` among the in-flight requests.
pub open spec fn key_position(in_flight: Seq<(RequestKeyView, u64)>, key: RequestKeyView) -> int {
    choose|i: int| 0 <= i < in_flight.len() && #[trigger] in_flight[i].0 == key
}

pub open spec fn keys_unique(in_flight: Seq<(RequestKeyView, u64)>) -> bool {
    forall|i: int, j: int| 0 <= i < j < in_flight.len() ==> in_flight[i].0 != in_flight[j].0
}

/// The token after `token`, wrapping around.
pub open spec fn following_token(token: u64) -> u64 {
    if token == u64::MAX {
        0
    } else {
        (token + 1) as u64
    }
}

/// What to do with a frame.
#[derive(Debug)]
pub enum Action {
    /// Send this response now.
    Respond(JsonValue),
    /// Abort the running tool call with this key; its response is never sent.
    Abort(RequestKey),
    /// Nothing to do.
    Ignore,
    /// Run the message as a tool call under this key and token; `replaces` says that a call
    /// with the same key was running and is to be aborted.
    Spawn { key: RequestKey, token: u64, replaces: bool },
    /// Hand the message to the protocol now.
    Inline,
}

pub enum ActionView {
    Respond(Json),
    Abort(RequestKeyView),
    Ignore,
    Spawn(RequestKeyView, u64, bool),
    Inline,
}

impl View for Action {
    type V = ActionView;

    open spec fn view(&self) -> ActionView {
        match self {
            Action::Respond(r) => ActionView::Respond(json_of(*r)),
            Action::Abort(k) => ActionView::Abort(k@),
            Action::Ignore => ActionView::Ignore,
            Action::Spawn { key, token, replaces } => ActionView::Spawn(key@, *token, *replaces),
            Action::Inline => ActionView::Inline,
        }
    }
}

/// What to do with a frame that arrives while a response waits for output room.
#[derive(Debug)]
pub enum BlockedAction {
    /// Abort the running tool call with this key.
    Abort(RequestKey),
    /// Drop held-back tool calls with this key.
    DropDeferred(RequestKey),
    /// Hold the frame back until the response is queued.
    Defer,
}

pub enum BlockedActionView {
    Abort(RequestKeyView),
    DropDeferred(RequestKeyView),
    Defer,
}

impl View for BlockedAction {
    type V = BlockedActionView;

    open spec fn view(&self) -> BlockedActionView {
        match self {
            BlockedAction::Abort(k) => BlockedActionView::Abort(k@),
            BlockedAction::DropDeferred(k) => BlockedActionView::DropDeferred(k@),
            BlockedAction::Defer => BlockedActionView::Defer,
        }
    }
}

/// The next in-flight requests, token counter and action for a frame: a frame that is no
/// JSON is answered with a parse error; a cancellation removes its request; a tool call starts
/// under a fresh token unless the limit is reached; anything else goes to the protocol.
pub open spec fn dispatch(
    in_flight: Seq<(RequestKeyView, u64)>,
    next_token: u64,
    message: Option<Json>,
) -> (Seq<(RequestKeyView, u64)>, u64, ActionView) {
    match message {
        None => (
            in_flight,
            next_token,
            ActionView::Respond(error_response_json(Json::Null, plain_error(-32700, "Parse error."@))),
        ),
        Some(m) => match cancelled_request_key(m) {
            Some(k) => if has_key(in_flight, k) {
                (in_flight.remove(key_position(in_flight, k)), next_token, ActionView::Abort(k))
            } else {
                (in_flight, next_token, ActionView::Ignore)
            },
            None => match asynchronous_request_key(m) {
                Some(k) => if in_flight.len() >= MAX_IN_FLIGHT_REQUESTS && !has_key(in_flight, k) {
                    (
                        in_flight,
                        next_token,
                        ActionView::Respond(
                            error_response_json(
                                m.get("id"@)->0,
                                plain_error(-32000, "Too many tool requests are already in flight."@),
                            ),
                        ),
                    )
                } else {
                    let t = following_token(next_token);
                    if has_key(in_flight, k) {
                        (
                            in_flight.update(key_position(in_flight, k), (k, t)),
                            t,
                            ActionView::Spawn(k, t, true),
                        )
                    } else {
                        (in_flight.push((k, t)), t, ActionView::Spawn(k, t, false))
                    }
                },
                None => (in_flight, next_token, ActionView::Inline),
            },
        },
    }
}

/// The bookkeeping of running tool calls: each key at most once, with the token of the task
/// that runs it, and never more than `MAX_IN_FLIGHT_REQUESTS` of them.
pub struct Dispatcher {
    in_flight: Vec<(RequestKey, u64)>,
    next_task_token: u64,
}

pub open spec fn key_views(in_flight: Seq<(RequestKey, u64)>) -> Seq<(RequestKeyView, u64)> {
    in_flight.map_values(|e: (RequestKey, u64)| (e.0@, e.1))
}

impl Dispatcher {
    #[verifier::type_invariant]
    spec fn bounded(self) -> bool {
        &&& self.in_flight@.len() <= MAX_IN_FLIGHT_REQUESTS
        &&& keys_unique(key_views(self.in_flight@))
    }

    pub closed spec fn in_flight(self) -> Seq<(RequestKeyView, u64)> {
        key_views(self.in_flight@)
    }

    pub closed spec fn next_token(self) -> u64 {
        self.next_task_token
    }

    /// No request is running.
    pub fn new() -> (dispatcher: Dispatcher)
        ensures
            dispatcher.in_flight() == Seq::<(RequestKeyView, u64)>::empty(),
            dispatcher.next_token() == 0,
            keys_unique(dispatcher.in_flight()),
    {
        let in_flight: Vec<(RequestKey, u64)> = Vec::new();
        assert(key_views(in_flight@) =~= Seq::<(RequestKeyView, u64)>::empty());
        Dispatcher { in_flight, next_task_token: 0 }
    }

    /// The position of `key` among the running requests.
    fn find(&self, key: &RequestKey) -> (position: Option<usize>)
        ensures
            match position {
                Some(i) => i < self.in_flight().len() && self.in_flight()[i as int].0 == key@,
                None => !has_key(self.in_flight(), key@),
            },
    {
        let mut i: usize = 0;
        while i < self.in_flight.len()
            invariant
                i <= self.in_flight@.len(),
                forall|j: int| 0 <= j < i ==> key_views(self.in_flight@)[j].0 != key@,
            decreases self.in_flight.len() - i,
        {
            if self.in_flight[i].0.same(key) {
                return Some(i);
            }
            i = i + 1;
        }
        None
    }

    /// Decides a frame (see `dispatch`); `message` is `None` for a frame that is no JSON.
    pub fn on_message(&mut self, message: Option<&JsonValue>) -> (action: Action)
        ensures
            (final(self).in_flight(), final(self).next_token(), action@) == dispatch(
                old(self).in_flight(),
                old(self).next_token(),
                opt_json(message),
            ),
            final(self).in_flight().len() <= MAX_IN_FLIGHT_REQUESTS,
            keys_unique(final(self).in_flight()),
    {
        proof {
            use_type_invariant(&*self);
            lemma_dispatch_stays_bounded(self.in_flight(), self.next_token(), opt_json(message));
        }
        let m = match message {
            None => {
                return Action::Respond(error_response(JsonValue::Null, RpcError::parse_error()));
            },
            Some(m) => m,
        };
        match cancelled_key(m) {
            Some(key) => {
                match self.find(&key) {
                    Some(i) => {
                        proof {
                            lemma_position_of_unique_key(self.in_flight(), i as int);
                        }
                        let ghost before = self.in_flight@;
                        let mut in_flight: Vec<(RequestKey, u64)> = Vec::new();
                        std::mem::swap(&mut in_flight, &mut self.in_flight);
                        in_flight.remove(i);
                        proof {
                            assert(key_views(in_flight@) =~= key_views(before).remove(i as int));
                            assert(keys_unique(key_views(in_flight@))) by {
                                assert forall|a: int, b: int|
                                    0 <= a < b < key_views(in_flight@).len() implies key_views(
                                    in_flight@,
                                )[a].0 != key_views(in_flight@)[b].0 by {
                                    let aa = if a < i { a } else { a + 1 };
                                    let bb = if b < i { b } else { b + 1 };
                                    assert(key_views(in_flight@)[a] == key_views(before)[aa]);
                                    assert(key_views(in_flight@)[b] == key_views(before)[bb]);
                                }
                            }
                        }
                        self.in_flight = in_flight;
                        Action::Abort(key)
                    },
                    None => Action::Ignore,
                }
            },
            None => match asynchronous_key(m) {
                Some(key) => {
                    let position = self.find(&key);
                    if self.in_flight.len() >= MAX_IN_FLIGHT_REQUESTS && position.is_none() {
                        let id = match m.get("id") {
                            Some(i) => i.duplicate(),
                            None => JsonValue::Null,
                        };
                        return Action::Respond(error_response(id, RpcError::too_many_requests()));
                    }
                    let token = self.next_task_token.wrapping_add(1);
                    self.next_task_token = token;
                    let ghost before = self.in_flight@;
                    let mut in_flight: Vec<(RequestKey, u64)> = Vec::new();
                    std::mem::swap(&mut in_flight, &mut self.in_flight);
                    match position {
                        Some(i) => {
                            proof {
                                assert(key_views(before)[i as int].0 == key@);
                                assert(has_key(key_views(before), key@));
                                let p = key_position(key_views(before), key@);
                                if p != i as int {
                                    assert(key_views(before)[p].0 == key@);
                                }
                            }
                            in_flight.set(i, (key.duplicate(), token));
                            proof {
                                assert(key_views(in_flight@) =~= key_views(before).update(
                                    i as int,
                                    (key@, token),
                                ));
                                assert(keys_unique(key_views(in_flight@))) by {
                                    assert forall|a: int, b: int|
                                        0 <= a < b < key_views(in_flight@).len() implies key_views(
                                        in_flight@,
                                    )[a].0 != key_views(in_flight@)[b].0 by {
                                        assert(key_views(before)[a].0 == key_views(in_flight@)[a].0);
                                        assert(key_views(before)[b].0 == key_views(in_flight@)[b].0);
                                    }
                                }
                            }
                            self.in_flight = in_flight;
                            Action::Spawn { key, token, replaces: true }
                        },
                        None => {
                            in_flight.push((key.duplicate(), token));
                            proof {
                                assert(key_views(in_flight@) =~= key_views(before).push(
                                    (key@, token),
                                ));
                                assert(keys_unique(key_views(in_flight@))) by {
                                    assert forall|a: int, b: int|
                                        0 <= a < b < key_views(in_flight@).len() implies key_views(
                                        in_flight@,
                                    )[a].0 != key_views(in_flight@)[b].0 by {
                                        if b == before.len() {
                                            assert(key_views(before)[a].0 == key_views(in_flight@)[a].0);
                                        }
                                    }
                                }
                            }
                            self.in_flight = in_flight;
                            Action::Spawn { key, token, replaces: false }
                        },
                    }
                },
                None => Action::Inline,
            },
        }
    }

    /// Takes in the end of a tool call: it counts only when the call is still the one running
    /// under its key, and then the key stops running.
    pub fn complete(&mut self, key: &RequestKey, token: u64) -> (current: bool)
        ensures
            current == (has_key(old(self).in_flight(), key@) && old(self).in_flight()[key_position(
                old(self).in_flight(),
                key@,
            )].1 == token),
            final(self).next_token() == old(self).next_token(),
            final(self).in_flight() == if current {
                old(self).in_flight().remove(key_position(old(self).in_flight(), key@))
            } else {
                old(self).in_flight()
            },
            final(self).in_flight().len() <= MAX_IN_FLIGHT_REQUESTS,
            keys_unique(final(self).in_flight()),
    {
        proof {
            use_type_invariant(&*self);
            if has_key(self.in_flight(), key@) {
                lemma_remove_keeps_keys_unique(
                    self.in_flight(),
                    key_position(self.in_flight(), key@),
                );
            }
        }
        match self.find(key) {
            Some(i) => {
                proof {
                    lemma_position_of_unique_key(self.in_flight(), i as int);
                }
                if self.in_flight[i].1 != token {
                    return false;
                }
                let ghost before = self.in_flight@;
                let mut in_flight: Vec<(RequestKey, u64)> = Vec::new();
                std::mem::swap(&mut in_flight, &mut self.in_flight);
                in_flight.remove(i);
                proof {
                    assert(key_views(in_flight@) =~= key_views(before).remove(i as int));
                    assert(keys_unique(key_views(in_flight@))) by {
                        assert forall|a: int, b: int|
                            0 <= a < b < key_views(in_flight@).len() implies key_views(
                            in_flight@,
                        )[a].0 != key_views(in_flight@)[b].0 by {
                            let aa = if a < i { a } else { a + 1 };
                            let bb = if b < i { b } else { b + 1 };
                            assert(key_views(in_flight@)[a] == key_views(before)[aa]);
                            assert(key_views(in_flight@)[b] == key_views(before)[bb]);
                        }
                    }
                }
                self.in_flight = in_flight;
                true
            },
            None => false,
        }
    }

    /// Decides a frame that arrives while a response waits for output room (see
    /// `blocked_dispatch`).
    pub fn on_blocked_input(&mut self, message: Option<&JsonValue>) -> (action: BlockedAction)
        ensures
            final(self).next_token() == old(self).next_token(),
            (final(self).in_flight(), action@) == blocked_dispatch(
                old(self).in_flight(),
                opt_json(message),
            ),
    {
        let m = match message {
            None => {
                return BlockedAction::Defer;
            },
            Some(m) => m,
        };
        match cancelled_key(m) {
            Some(key) => {
                let ghost k = key@;
                match self.on_message(Some(m)) {
                    Action::Abort(k) => BlockedAction::Abort(k),
                    _ => BlockedAction::DropDeferred(key),
                }
            },
            None => BlockedAction::Defer,
        }
    }

    /// Decides the bytes of a message frame: they are decoded as JSON, and a frame that is no
    /// JSON is answered with a parse error (see `dispatch`). The decoded message comes back
    /// too, for the protocol or for the tool call to run.
    pub fn on_frame(&mut self, frame: &[u8]) -> (decided: (Action, Option<JsonValue>))
        ensures
            (final(self).in_flight(), final(self).next_token(), decided.0@) == dispatch(
                old(self).in_flight(),
                old(self).next_token(),
                parsed_document(frame@),
            ),
            match decided.1 {
                Some(m) => parsed_document(frame@) == Some(m@),
                None => parsed_document(frame@) is None,
            },
            final(self).in_flight().len() <= MAX_IN_FLIGHT_REQUESTS,
            keys_unique(final(self).in_flight()),
    {
        let message = decode_document(frame);
        let action = self.on_message(message.as_ref());
        (action, message)
    }

    /// Decides a frame that arrives while a response waits for output room, decoding the
    /// bytes of a message frame (see `blocked_dispatch` and `frame_message`).
    pub fn on_blocked_frame(&mut self, frame: &FrameRead) -> (action: BlockedAction)
        ensures
            final(self).next_token() == old(self).next_token(),
            (final(self).in_flight(), action@) == blocked_dispatch(
                old(self).in_flight(),
                frame_message(frame@),
            ),
    {
        let message = decoded_frame(frame);
        self.on_blocked_input(message.as_ref())
    }
}

/// The message a frame holds: the JSON document of a message frame's bytes.
pub open spec fn frame_message(frame: FrameView) -> Option<Json> {
    match frame {
        FrameView::Message(bytes) => parsed_document(bytes),
        _ => None,
    }
}

fn decoded_frame(frame: &FrameRead) -> (message: Option<JsonValue>)
    ensures
        match message {
            Some(m) => frame_message(frame@) == Some(m@),
            None => frame_message(frame@) is None,
        },
{
    match frame {
        FrameRead::Message(bytes) => decode_document(bytes.as_slice()),
        _ => None,
    }
}

/// The running calls and the action for a frame that arrives while output is blocked: a
/// cancellation aborts its running call, or else drops its held-back request; anything else
/// is held back.
pub open spec fn blocked_dispatch(in_flight: Seq<(RequestKeyView, u64)>, message: Option<Json>) -> (
    Seq<(RequestKeyView, u64)>,
    BlockedActionView,
) {
    match message {
        Some(m) => match cancelled_request_key(m) {
            Some(k) => if has_key(in_flight, k) {
                (in_flight.remove(key_position(in_flight, k)), BlockedActionView::Abort(k))
            } else {
                (in_flight, BlockedActionView::DropDeferred(k))
            },
            None => (in_flight, BlockedActionView::Defer),
        },
        None => (in_flight, BlockedActionView::Defer),
    }
}

/// The request a cancellation notification cancels (see `cancelled_request_key`).
pub fn cancelled_key(message: &JsonValue) -> (key: Option<RequestKey>)
    ensures
        match key {
            Some(k) => cancelled_request_key(message@) == Some(k@),
            None => cancelled_request_key(message@) is None,
        },
{
    if !message.is_object() {
        return None;
    }
    let jsonrpc_ok = match message.get("jsonrpc") {
        Some(v) => match v.as_str() {
            Some(t) => crate::text::str_equal(t, "2.0"),
            None => false,
        },
        None => false,
    };
    if !jsonrpc_ok || message.get("id").is_some() {
        return None;
    }
    let method_ok = match message.get("method") {
        Some(v) => match v.as_str() {
            Some(t) => crate::text::str_equal(t, "notifications/cancelled"),
            None => false,
        },
        None => false,
    };
    if !method_ok {
        return None;
    }
    match message.get("params") {
        Some(p) => {
            if !p.is_object() {
                return None;
            }
            match p.get("requestId") {
                Some(r) => RequestKey::from_value(r),
                None => None,
            }
        },
        None => None,
    }
}

/// The key of a tool-call request (see `asynchronous_request_key`).
pub fn asynchronous_key(message: &JsonValue) -> (key: Option<RequestKey>)
    ensures
        match key {
            Some(k) => asynchronous_request_key(message@) == Some(k@),
            None => asynchronous_request_key(message@) is None,
        },
{
    if !message.is_object() {
        return None;
    }
    let is_tool_call = match message.get("method") {
        Some(v) => match v.as_str() {
            Some(t) => crate::text::str_equal(t, "tools/call"),
            None => false,
        },
        None => false,
    };
    if !is_tool_call {
        return None;
    }
    match message.get("id") {
        Some(id) => RequestKey::from_value(id),
        None => None,
    }
}

/// Whether a held-back frame is a tool call with `key`, and so is dropped when that key is
/// cancelled.
pub fn is_request_for(message: Option<&JsonValue>, key: &RequestKey) -> (matches: bool)
    ensures
        matches == match message {
            Some(m) => asynchronous_request_key(m@) == Some(key@),
            None => false,
        },
{
    match message {
        Some(m) => match asynchronous_key(m) {
            Some(k) => k.same(key),
            None => false,
        },
        None => false,
    }
}

/// Whether a held-back frame is a tool call with `key` (see `is_request_for`).
pub fn is_request_frame_for(frame: &FrameRead, key: &RequestKey) -> (matches: bool)
    ensures
        matches == match frame_message(frame@) {
            Some(m) => asynchronous_request_key(m) == Some(key@),
            None => false,
        },
{
    let message = decoded_frame(frame);
    is_request_for(message.as_ref(), key)
}

/// The answer to an oversized frame.
pub fn oversized_response() -> (response: JsonValue)
    ensures
        response@ == error_response_json(
            Json::Null,
            invalid_request_error("The MCP message exceeds the one mebibyte frame limit."@),
        ),
{
    error_response(
        JsonValue::Null,
        RpcError::invalid_request("The MCP message exceeds the one mebibyte frame limit."),
    )
}

/// A message the transport hands to the protocol at once never turns into a tool call: only
/// a `tools/call` request with a string or number ID can, and those run as their own tasks.
pub proof fn lemma_inline_messages_need_no_tool_call(legacy_initialized: bool, message: Json)
    requires
        asynchronous_request_key(message) is None,
    ensures
        !(message_reply(legacy_initialized, message).1 is CallTool),
{
}

proof fn lemma_remove_keeps_keys_unique(in_flight: Seq<(RequestKeyView, u64)>, p: int)
    requires
        keys_unique(in_flight),
        0 <= p < in_flight.len(),
    ensures
        keys_unique(in_flight.remove(p)),
{
    let after = in_flight.remove(p);
    assert forall|a: int, b: int| 0 <= a < b < after.len() implies after[a].0 != after[b].0 by {
        let aa = if a < p { a } else { a + 1 };
        let bb = if b < p { b } else { b + 1 };
        assert(after[a] == in_flight[aa]);
        assert(after[b] == in_flight[bb]);
    }
}

proof fn lemma_position_of_unique_key(in_flight: Seq<(RequestKeyView, u64)>, i: int)
    requires
        keys_unique(in_flight),
        0 <= i < in_flight.len(),
    ensures
        has_key(in_flight, in_flight[i].0),
        key_position(in_flight, in_flight[i].0) == i,
{
    let p = key_position(in_flight, in_flight[i].0);
    if p != i {
        if p < i {
        } else {
        }
    }
}

/// However frames arrive, the running tool calls stay within `MAX_IN_FLIGHT_REQUESTS`, each
/// key at most once.
pub proof fn lemma_dispatch_stays_bounded(
    in_flight: Seq<(RequestKeyView, u64)>,
    next_token: u64,
    message: Option<Json>,
)
    requires
        in_flight.len() <= MAX_IN_FLIGHT_REQUESTS,
        keys_unique(in_flight),
    ensures
        dispatch(in_flight, next_token, message).0.len() <= MAX_IN_FLIGHT_REQUESTS,
        keys_unique(dispatch(in_flight, next_token, message).0),
{
    let after = dispatch(in_flight, next_token, message).0;
    if let Some(m) = message {
        if let Some(k) = cancelled_request_key(m) {
            if has_key(in_flight, k) {
                lemma_remove_keeps_keys_unique(in_flight, key_position(in_flight, k));
            }
        } else if let Some(k) = asynchronous_request_key(m) {
            if !(in_flight.len() >= MAX_IN_FLIGHT_REQUESTS && !has_key(in_flight, k)) {
                if has_key(in_flight, k) {
                    let p = key_position(in_flight, k);
                    assert forall|a: int, b: int| 0 <= a < b < after.len() implies after[a].0
                        != after[b].0 by {
                        assert(after[a].0 == in_flight[a].0);
                        assert(after[b].0 == in_flight[b].0);
                    }
                } else {
                    assert forall|a: int, b: int| 0 <= a < b < after.len() implies after[a].0
                        != after[b].0 by {
                        if b == in_flight.len() {
                            assert(after[a] == in_flight[a]);
                        } else {
                            assert(after[a] == in_flight[a]);
                            assert(after[b] == in_flight[b]);
                        }
                    }
                }
            }
        }
    }
}

/// A cancelled tool call stops running: its key leaves the running calls, so its completion
/// is never taken in (`Dispatcher::complete` answers `false`) and its response is never sent.
pub proof fn lemma_cancelled_calls_are_forgotten(
    in_flight: Seq<(RequestKeyView, u64)>,
    next_token: u64,
    message: Option<Json>,
    key: RequestKeyView,
)
    requires
        keys_unique(in_flight),
        dispatch(in_flight, next_token, message).2 == ActionView::Abort(key),
    ensures
        !has_key(dispatch(in_flight, next_token, message).0, key),
{
    let after = dispatch(in_flight, next_token, message).0;
    let p = key_position(in_flight, key);
    if has_key(after, key) {
        let a = choose|a: int| 0 <= a < after.len() && #[trigger] after[a].0 == key;
        let aa = if a < p { a } else { a + 1 };
        assert(after[a] == in_flight[aa]);
    }
}

/// A started tool call runs under a fresh token, the one after the last, which replaces the
/// token of an earlier call with the same key; so only the newest call's completion is taken
/// in (`Dispatcher::complete`), and a stale one is ignored.
pub proof fn lemma_spawned_calls_run_under_their_token(
    in_flight: Seq<(RequestKeyView, u64)>,
    next_token: u64,
    message: Option<Json>,
    key: RequestKeyView,
    token: u64,
    replaces: bool,
)
    requires
        in_flight.len() <= MAX_IN_FLIGHT_REQUESTS,
        keys_unique(in_flight),
        dispatch(in_flight, next_token, message).2 == ActionView::Spawn(key, token, replaces),
    ensures
        token == following_token(next_token),
        dispatch(in_flight, next_token, message).1 == token,
        replaces == has_key(in_flight, key),
        has_key(dispatch(in_flight, next_token, message).0, key),
        dispatch(in_flight, next_token, message).0[key_position(
            dispatch(in_flight, next_token, message).0,
            key,
        )].1 == token,
{
    let after = dispatch(in_flight, next_token, message).0;
    lemma_dispatch_stays_bounded(in_flight, next_token, message);
    if has_key(in_flight, key) {
        let p = key_position(in_flight, key);
        lemma_position_of_unique_key(after, p);
    } else {
        lemma_position_of_unique_key(after, in_flight.len() as int);
    }
}

/// A well-formed cancellation names the request whose ID it carries, string or number alike:
/// after a tool call with ID `id` has started, a `notifications/cancelled` whose `requestId`
/// is that same `id` aborts that call and removes it from the running calls, leaving the
/// others and the token counter as they were.
pub proof fn lemma_cancellation_aborts_the_named_call(
    in_flight: Seq<(RequestKeyView, u64)>,
    next_token: u64,
    id: Json,
    call: Json,
    cancellation: Json,
    params: Json,
)
    requires
        in_flight.len() <= MAX_IN_FLIGHT_REQUESTS,
        keys_unique(in_flight),
        id is Str || id is Number,
        call.is_object(),
        call.get("method"@) == Some(Json::Str("tools/call"@)),
        call.get("id"@) == Some(id),
        cancellation.is_object(),
        cancellation.get("jsonrpc"@) == Some(Json::Str("2.0"@)),
        cancellation.get("id"@) is None,
        cancellation.get("method"@) == Some(Json::Str("notifications/cancelled"@)),
        cancellation.get("params"@) == Some(params),
        params.is_object(),
        params.get("requestId"@) == Some(id),
        dispatch(in_flight, next_token, Some(call)).2 is Spawn,
    ensures
        ({
            let (running, token, started) = dispatch(in_flight, next_token, Some(call));
            let key = started->Spawn_0;
            let (after, token_after, action) = dispatch(running, token, Some(cancellation));
            &&& action == ActionView::Abort(key)
            &&& !has_key(after, key)
            &&& after == running.remove(key_position(running, key))
            &&& token_after == token
            &&& after.len() + 1 == running.len()
        }),
{
    let (running, token, started) = dispatch(in_flight, next_token, Some(call));
    let key = started->Spawn_0;
    assert(asynchronous_request_key(call) == request_key_of(id));
    assert(cancelled_request_key(cancellation) == request_key_of(id));
    lemma_spawned_calls_run_under_their_token(
        in_flight,
        next_token,
        Some(call),
        key,
        started->Spawn_1,
        started->Spawn_2,
    );
    lemma_dispatch_stays_bounded(in_flight, next_token, Some(call));
    lemma_cancelled_calls_are_forgotten(running, token, Some(cancellation), key);
}

} // verus!
