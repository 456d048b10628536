//! Reading the socket stream as JSON lines: one line at a time, retaining at
//! most `MAX_PAYLOAD_SIZE` bytes of it, discarding oversized or non-UTF-8
//! lines through their newline so the stream stays synchronized; and the
//! byte-count-only context logged when a line cannot be parsed.
use vstd::prelude::*;
use vstd::string::StringSliceAdditionalSpecFns;
use vstd::utf8::{decode_utf8, valid_utf8};

use crate::lifecycle::OverlayCommand;
use crate::protocol::{
    accepted_message, deserialize_client_message, ClientMessage, Snapshot, SnapshotV1,
    MAX_PAYLOAD_SIZE,
};
use crate::text::{decimal, push_char, push_decimal, string_from_utf8, trim, trimmed, utf8_of};

verus! {

/// The outcome of reading one line.
#[derive(Debug)]
pub enum BoundedLine {
    /// The stream ended before any byte of a new line.
    Eof,
    /// A complete line within the limit, without its newline.
    Line(String),
    /// The line exceeded the limit; it was consumed and discarded.
    TooLarge,
    /// The line was not UTF-8; it was consumed and discarded.
    InvalidUtf8,
}

/// A read outcome as plain values.
pub enum BoundedLineView {
    Eof,
    Line(Seq<char>),
    TooLarge,
    InvalidUtf8,
}

impl View for BoundedLine {
    type V = BoundedLineView;

    open spec fn view(&self) -> BoundedLineView {
        match self {
            BoundedLine::Eof => BoundedLineView::Eof,
            BoundedLine::Line(s) => BoundedLineView::Line(s@),
            BoundedLine::TooLarge => BoundedLineView::TooLarge,
            BoundedLine::InvalidUtf8 => BoundedLineView::InvalidUtf8,
        }
    }
}

/// The outcome for a complete line (without its newline).
pub open spec fn classify(line: Seq<u8>) -> BoundedLineView {
    if line.len() > MAX_PAYLOAD_SIZE {
        BoundedLineView::TooLarge
    } else if valid_utf8(line) {
        BoundedLineView::Line(decode_utf8(line))
    } else {
        BoundedLineView::InvalidUtf8
    }
}

/// Law: a complete line longer than 64 KiB is too large whatever its bytes;
/// a shorter one is its UTF-8 text when it is valid UTF-8, and invalid
/// otherwise.
pub proof fn lemma_classify_meaning(line: Seq<u8>)
    ensures
        line.len() > 65536 ==> classify(line) is TooLarge,
        line.len() <= 65536 && valid_utf8(line) ==> classify(line) == BoundedLineView::Line(
            decode_utf8(line),
        ),
        line.len() <= 65536 && !valid_utf8(line) ==> classify(line) is InvalidUtf8,
{
}

/// Index of the first newline byte, if any.
pub open spec fn first_newline(bytes: Seq<u8>) -> Option<int> {
    if exists|i: int| 0 <= i < bytes.len() && bytes[i] == 10u8 {
        Some(choose|i: int| 0 <= i < bytes.len() && bytes[i] == 10u8 && forall|k: int| 0 <= k < i ==> bytes[k] != 10u8)
    } else {
        None
    }
}

/// What one call of `LineFramer::feed` does with a chunk of input.
pub struct FeedOutcome {
    /// How many bytes of the chunk were used and may be dropped from the input.
    pub consumed: usize,
    /// The line's outcome, once its end (a newline or the end of input) was seen.
    pub line: Option<BoundedLine>,
}

/// Splits a byte stream into lines, one chunk at a time. It keeps at most
/// `MAX_PAYLOAD_SIZE` bytes of the line being read, however long the line is.
pub struct LineFramer {
    bytes: Vec<u8>,
    payload_len: usize,
    too_large: bool,
    seen: Ghost<Seq<u8>>,
}

impl LineFramer {
    #[verifier::type_invariant]
    closed spec fn inv(self) -> bool {
        &&& self.payload_len == (if self.seen@.len() > usize::MAX {
            usize::MAX as nat
        } else {
            self.seen@.len()
        })
        &&& self.too_large == (self.seen@.len() > MAX_PAYLOAD_SIZE)
        &&& !self.too_large ==> self.bytes@ == self.seen@
        &&& self.bytes@.len() <= MAX_PAYLOAD_SIZE
        &&& forall|k: int| 0 <= k < self.seen@.len() ==> self.seen@[k] != 10u8
    }

    /// How many bytes of the current line the framer holds.
    pub closed spec fn retained(self) -> nat {
        self.bytes@.len()
    }

    /// The bytes of the current line consumed so far.
    pub closed spec fn pending(self) -> Seq<u8> {
        self.seen@
    }

    /// A framer at the start of a line.
    pub fn new() -> (res: LineFramer)
        ensures
            res.pending() == Seq::<u8>::empty(),
            res.retained() == 0,
    {
        LineFramer { bytes: Vec::new(), payload_len: 0, too_large: false, seen: Ghost(Seq::empty()) }
    }

    /// The framer after adding the first `n` bytes of `chunk` (none of them
    /// a newline) to the line.
    fn appended(self, chunk: &[u8], n: usize) -> (res: LineFramer)
        requires
            n <= chunk@.len(),
            forall|k: int| 0 <= k < n ==> chunk@[k] != 10u8,
        ensures
            res.pending() == self.pending() + chunk@.take(n as int),
    {
        proof {
            use_type_invariant(&self);
        }
        let ghost old_seen = self.seen@;
        let new_len = self.payload_len.saturating_add(n);
        let keep = !self.too_large && new_len <= MAX_PAYLOAD_SIZE;
        let LineFramer { bytes, payload_len: _, too_large: _, seen: _ } = self;
        let mut bytes = bytes;
        if keep {
            let mut k: usize = 0;
            while k < n
                invariant
                    k <= n,
                    n <= chunk@.len(),
                    bytes@ == old_seen + chunk@.take(k as int),
                decreases n - k,
            {
                bytes.push(chunk[k]);
                assert(chunk@.take(k + 1) =~= chunk@.take(k as int).push(chunk@[k as int]));
                k += 1;
            }
        }
        let ghost new_seen = old_seen + chunk@.take(n as int);
        assert forall|k: int| 0 <= k < new_seen.len() implies new_seen[k] != 10u8 by {
            if k >= old_seen.len() {
                assert(new_seen[k] == chunk@[k - old_seen.len()]);
            }
        }
        LineFramer { bytes, payload_len: new_len, too_large: !keep, seen: Ghost(new_seen) }
    }

    /// The outcome of the line read so far.
    fn outcome(self) -> (res: BoundedLine)
        ensures
            res@ == classify(self.pending()),
    {
        proof {
            use_type_invariant(&self);
        }
        let too_large = self.too_large;
        let LineFramer { bytes, payload_len: _, too_large: _, seen: _ } = self;
        if too_large {
            return BoundedLine::TooLarge;
        }
        match string_from_utf8(bytes) {
            Some(line) => BoundedLine::Line(line),
            None => BoundedLine::InvalidUtf8,
        }
    }
}

/// Reads from the next chunk of input (an empty chunk means the input
/// ended) into the line being framed; the caller drops `consumed` bytes from
/// its input.
/// The line's outcome depends only on its bytes, however they were
/// chunked; after an outcome the framer starts over at the next line.
pub fn read_bounded_line(framer: &mut LineFramer, available: &[u8]) -> (res: FeedOutcome)
    ensures
        final(framer).retained() <= MAX_PAYLOAD_SIZE,
        available@.len() == 0 ==> {
            &&& res.consumed == 0
            &&& res.line matches Some(l) && l@ == (if old(framer).pending().len() == 0 {
                BoundedLineView::Eof
            } else {
                classify(old(framer).pending())
            })
            &&& final(framer).pending() == Seq::<u8>::empty()
        },
        available@.len() > 0 ==> match first_newline(available@) {
            Some(i) => {
                &&& res.consumed == i + 1
                &&& res.line matches Some(l) && l@ == classify(
                    old(framer).pending() + available@.take(i),
                )
                &&& final(framer).pending() == Seq::<u8>::empty()
            },
            None => {
                &&& res.consumed == available@.len()
                &&& res.line is None
                &&& final(framer).pending() == old(framer).pending() + available@
            },
        },
{
    proof {
        use_type_invariant(&*framer);
    }
    let mut current = LineFramer::new();
    std::mem::swap(&mut current, framer);
    if available.len() == 0 {
        if current.payload_len == 0 {
            return FeedOutcome { consumed: 0, line: Some(BoundedLine::Eof) };
        }
        let line = current.outcome();
        return FeedOutcome { consumed: 0, line: Some(line) };
    }
    let mut n: usize = 0;
    while n < available.len() && available[n] != 10u8
        invariant
            n <= available.len(),
            forall|k: int| 0 <= k < n ==> available@[k] != 10u8,
        decreases available.len() - n,
    {
        n += 1;
    }
    let found = n < available.len();
    proof {
        if found {
            assert(exists|i: int| 0 <= i < available@.len() && available@[i] == 10u8);
            let c = choose|i: int| 0 <= i < available@.len() && available@[i] == 10u8 && forall|k: int| 0 <= k < i ==> available@[k] != 10u8;
            if c < n {
            } else if c > n {
                assert(available@[n as int] == 10u8);
            }
            assert(c == n);
        } else {
            assert(!exists|i: int| 0 <= i < available@.len() && available@[i] == 10u8);
        }
    }
    let next = current.appended(available, n);
    if found {
        let line = next.outcome();
        FeedOutcome { consumed: n + 1, line: Some(line) }
    } else {
        proof {
            use_type_invariant(&next);
        }
        *framer = next;
        FeedOutcome { consumed: n, line: None }
    }
}


/// The first newline is the one at index `i`: no earlier byte is one.
proof fn lemma_first_newline_at(bytes: Seq<u8>, i: int)
    requires
        0 <= i < bytes.len(),
        bytes[i] == 10u8,
        forall|k: int| 0 <= k < i ==> bytes[k] != 10u8,
    ensures
        first_newline(bytes) == Some(i),
{
    let c = choose|j: int|
        0 <= j < bytes.len() && bytes[j] == 10u8 && forall|k: int| 0 <= k < j ==> bytes[k] != 10u8;
    assert(0 <= c < bytes.len() && bytes[c] == 10u8 && forall|k: int| 0 <= k < c ==> bytes[k] != 10u8);
    if c < i {
        assert(bytes[c] != 10u8);
    } else if c > i {
        assert(bytes[i] != 10u8);
    }
}

/// What `first_newline` says of a byte sequence.
proof fn lemma_first_newline(bytes: Seq<u8>)
    ensures
        match first_newline(bytes) {
            Some(i) => 0 <= i < bytes.len() && bytes[i] == 10u8 && forall|k: int|
                0 <= k < i ==> bytes[k] != 10u8,
            None => forall|k: int| 0 <= k < bytes.len() ==> bytes[k] != 10u8,
        },
{
    if exists|i: int| 0 <= i < bytes.len() && bytes[i] == 10u8 {
        let w = choose|i: int| 0 <= i < bytes.len() && bytes[i] == 10u8;
        lemma_least_newline(bytes, w);
    }
}

/// Below a newline at `w` there is a first one.
proof fn lemma_least_newline(bytes: Seq<u8>, w: int)
    requires
        0 <= w < bytes.len(),
        bytes[w] == 10u8,
    ensures
        exists|i: int|
            0 <= i < bytes.len() && bytes[i] == 10u8 && forall|k: int| 0 <= k < i ==> bytes[k] != 10u8,
    decreases w,
{
    if exists|k: int| 0 <= k < w && bytes[k] == 10u8 {
        let k = choose|k: int| 0 <= k < w && bytes[k] == 10u8;
        lemma_least_newline(bytes, k);
    } else {
        assert(forall|k: int| 0 <= k < w ==> bytes[k] != 10u8);
    }
}

/// Law: how a line is cut into chunks does not matter. Feeding a chunk `a`
/// that holds no newline and then a chunk `b` leaves the framer where feeding
/// `a + b` at once does: the same pending bytes, or, once `b` ends the line,
/// the same line bytes and the same count of input bytes used in all.
pub proof fn lemma_chunking_irrelevant(pending: Seq<u8>, a: Seq<u8>, b: Seq<u8>)
    requires
        forall|k: int| 0 <= k < a.len() ==> a[k] != 10u8,
    ensures
        match first_newline(b) {
            Some(i) => {
                &&& first_newline(a + b) == Some(a.len() + i)
                &&& (pending + a) + b.take(i) == pending + (a + b).take(a.len() + i)
            },
            None => {
                &&& first_newline(a + b) is None
                &&& (pending + a) + b == pending + (a + b)
            },
        },
{
    let ab = a + b;
    lemma_first_newline(b);
    lemma_first_newline(ab);
    match first_newline(b) {
        Some(i) => {
            assert(ab[a.len() + i] == b[i]);
            assert forall|k: int| 0 <= k < a.len() + i implies ab[k] != 10u8 by {
                if k >= a.len() {
                    assert(ab[k] == b[k - a.len()]);
                }
            }
            lemma_first_newline_at(ab, a.len() + i);
            assert((pending + a) + b.take(i) =~= pending + ab.take(a.len() + i));
        },
        None => {
            if first_newline(ab) is Some {
                let j = first_newline(ab)->0;
                if j >= a.len() {
                    assert(b[j - a.len()] == ab[j]);
                }
            }
            assert((pending + a) + b =~= pending + ab);
        },
    }
}

/// The diagnostic context for a line that could not be parsed: its length in
/// bytes, `len=<n>`, and nothing of its content.
pub open spec fn parse_context(line: Seq<char>) -> Seq<char> {
    seq!['l', 'e', 'n', '='] + decimal(utf8_of(line).len())
}

/// Builds the diagnostic context for an unparsable line.
pub fn safe_parse_context(line: &str) -> (res: String)
    ensures
        res@ == parse_context(line@),
{
    let mut s = String::new();
    push_char(&mut s, 'l');
    push_char(&mut s, 'e');
    push_char(&mut s, 'n');
    push_char(&mut s, '=');
    let n = line.as_bytes().len();
    push_decimal(&mut s, n);
    assert(s@ =~= parse_context(line@));
    s
}

/// The payload of a received line: the line without surrounding whitespace.
pub fn line_payload(line: &str) -> (res: &str)
    ensures
        res@ == trimmed(line@),
{
    trim(line)
}

/// What to do with one received line.
#[derive(Debug)]
pub enum LineAction {
    /// Blank line: nothing to do.
    Skip,
    /// A valid message: forward the command to the UI.
    Command(OverlayCommand),
    /// Unparsable or invalid: log the given context, which holds no payload.
    Reject(String),
}

/// The action for a line whose surrounding whitespace was removed, given what
/// decoding it as a snapshot and as a client message produced. A snapshot
/// wins over a client message; invalid settings are rejected.
pub open spec fn spec_dispatch(
    payload: Seq<char>,
    snapshot: Option<Snapshot>,
    message: Option<ClientMessage>,
    action: LineAction,
) -> bool {
    if payload.len() == 0 {
        action is Skip
    } else {
        match SnapshotV1::accepted(payload, snapshot) {
            Some(s) => action == LineAction::Command(OverlayCommand::UpdateSnapshot(s)),
            None => match accepted_message(payload, message) {
                Some(ClientMessage::Settings { settings }) => action == LineAction::Command(
                    OverlayCommand::UpdateSettings(settings),
                ),
                Some(ClientMessage::Clear) => action == LineAction::Command(OverlayCommand::Clear),
                None => action matches LineAction::Reject(context) && context@ == parse_context(payload),
            },
        }
    }
}

/// Decides what a received line means.
pub fn dispatch_line(
    payload: &str,
    snapshot: Option<Snapshot>,
    message: Option<ClientMessage>,
) -> (action: LineAction)
    ensures
        spec_dispatch(payload@, snapshot, message, action),
{
    if payload.is_empty() {
        return LineAction::Skip;
    }
    match SnapshotV1::deserialize(payload, snapshot) {
        Some(s) => LineAction::Command(OverlayCommand::UpdateSnapshot(s)),
        None => match deserialize_client_message(payload, message) {
            Some(ClientMessage::Settings { settings }) => LineAction::Command(
                OverlayCommand::UpdateSettings(settings),
            ),
            Some(ClientMessage::Clear) => LineAction::Command(OverlayCommand::Clear),
            None => LineAction::Reject(safe_parse_context(payload)),
        },
    }
}

/// Law: what a received line means, given its decodings. A blank line is
/// skipped. A version-1 snapshot within the size limit is forwarded as a
/// snapshot. Otherwise valid settings are forwarded as a settings update and
/// a clear as a clear. Only a non-blank line with none of these is rejected,
/// and then the logged context is `len=` and its byte count.
pub proof fn lemma_dispatch_meaning(
    payload: Seq<char>,
    snapshot: Option<Snapshot>,
    message: Option<ClientMessage>,
    action: LineAction,
)
    requires
        spec_dispatch(payload, snapshot, message, action),
    ensures
        payload.len() == 0 ==> action is Skip,
        payload.len() > 0 && utf8_of(payload).len() <= MAX_PAYLOAD_SIZE && snapshot is Some
            && snapshot->0.version == 1 ==> action == LineAction::Command(
            OverlayCommand::UpdateSnapshot(snapshot->0),
        ),
        payload.len() > 0 && utf8_of(payload).len() <= MAX_PAYLOAD_SIZE && !(snapshot is Some
            && snapshot->0.version == 1) && message is Some && message->0 is Settings
            && message->0->settings.valid() ==> action == LineAction::Command(
            OverlayCommand::UpdateSettings(message->0->settings),
        ),
        payload.len() > 0 && utf8_of(payload).len() <= MAX_PAYLOAD_SIZE && !(snapshot is Some
            && snapshot->0.version == 1) && message is Some && message->0 is Clear ==> action
            == LineAction::Command(OverlayCommand::Clear),
        action is Reject ==> payload.len() > 0 && (utf8_of(payload).len() > MAX_PAYLOAD_SIZE || (
        !(snapshot is Some && snapshot->0.version == 1) && !(message is Some && message->0 is Settings
            && message->0->settings.valid()) && !(message is Some && message->0 is Clear))),
        action is Reject ==> action->Reject_0@ == seq!['l', 'e', 'n', '='] + decimal(
            utf8_of(payload).len(),
        ),
{
}

/// How many clients may be connected at once.
pub const MAX_CONNECTIONS: usize = 1;

/// Admission of a new connection given how many are active: the new count,
/// or nothing when the limit is reached.
pub fn admit_connection(active: usize) -> (res: Option<usize>)
    ensures
        active < MAX_CONNECTIONS ==> res == Some((active + 1) as usize),
        active >= MAX_CONNECTIONS ==> res is None,
{
    if active < MAX_CONNECTIONS {
        Some(active + 1)
    } else {
        None
    }
}

} // verus!
