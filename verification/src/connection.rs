//! Reading a request off a connection: the decisions of when to read more,
//! when the request is complete, and when to give up. The caller does the
//! reading and hands each outcome to an `Intake`, which says what comes next.
use vstd::prelude::*;

use vstd::utf8::{decode_utf8, valid_utf8};

use crate::request::{content_length, declared_length, head_readable, read_headers, text_headers};
use crate::text::{chars_of, find, find_in, lemma_find_is, lemma_find_none, matches_at, no_match_before};

verus! {

broadcast use vstd::string::group_string_axioms;

/// What one read from the connection gave.
pub enum ReadOutcome {
    /// Some bytes arrived.
    Data(Vec<u8>),
    /// The peer closed the connection: the read gave no byte.
    Closed,
    /// The read failed.
    Failed,
}

/// A read outcome as plain values.
pub enum ReadEvent {
    Data(Seq<u8>),
    Closed,
    Failed,
}

impl View for ReadOutcome {
    type V = ReadEvent;

    open spec fn view(&self) -> ReadEvent {
        match self {
            ReadOutcome::Data(d) => ReadEvent::Data(d@),
            ReadOutcome::Closed => ReadEvent::Closed,
            ReadOutcome::Failed => ReadEvent::Failed,
        }
    }
}

/// How far the reading of a request has come.
#[derive(PartialEq, Eq, Structural, Clone, Copy, Debug)]
pub enum Stage {
    /// Nothing was read yet.
    Start,
    /// Reading until the end of the header section.
    Head,
    /// Reading the body until the buffer holds this many bytes.
    Body(usize),
    /// Done: no more reads.
    Finished,
}

/// What the caller does next.
pub enum Step {
    /// Read from the connection and hand the outcome back.
    ReadMore,
    /// The peer closed the connection before sending anything: answer
    /// nothing.
    ClosedEmpty,
    /// The last read failed: answer nothing.
    Failed,
    /// The bytes are not UTF-8, or the header section cannot be read.
    Malformed,
    /// The request is complete: this is its text.
    Ready(String),
}

/// A step as plain values.
pub enum StepView {
    ReadMore,
    ClosedEmpty,
    Failed,
    Malformed,
    Ready(Seq<char>),
}

impl View for Step {
    type V = StepView;

    open spec fn view(&self) -> StepView {
        match self {
            Step::ReadMore => StepView::ReadMore,
            Step::ClosedEmpty => StepView::ClosedEmpty,
            Step::Failed => StepView::Failed,
            Step::Malformed => StepView::Malformed,
            Step::Ready(s) => StepView::Ready(s@),
        }
    }
}

/// The state of an intake as plain values: the bytes read so far, the stage,
/// and whether the last read failed.
pub struct IntakeView {
    pub buf: Seq<u8>,
    pub stage: Stage,
    pub last_failed: bool,
}

/// The end of a header section: an empty line.
pub open spec fn head_end() -> Seq<char> {
    seq!['\r', '\n', '\r', '\n']
}

/// The bytes are UTF-8 text that holds the end of a header section.
pub open spec fn holds_head_end(buf: Seq<u8>) -> bool {
    valid_utf8(buf) && find(decode_utf8(buf), head_end()) >= 0
}

/// The end of reading: nothing to answer when the last read failed, else the
/// request text (when the bytes are UTF-8).
pub open spec fn finish(buf: Seq<u8>, last_failed: bool) -> (IntakeView, StepView) {
    let v = IntakeView { buf, stage: Stage::Finished, last_failed };
    if last_failed {
        (v, StepView::Failed)
    } else if !valid_utf8(buf) {
        (v, StepView::Malformed)
    } else {
        (v, StepView::Ready(decode_utf8(buf)))
    }
}

/// The end of a header section as bytes.
pub open spec fn head_end_bytes() -> Seq<u8> {
    seq![13u8, 10u8, 13u8, 10u8]
}

/// Where the body begins: just past the first `\r\n\r\n` of the bytes, or at
/// their end when they hold none.
pub open spec fn body_start(buf: Seq<u8>) -> int {
    let i = find(buf, head_end_bytes());
    if i < 0 {
        buf.len() as int
    } else {
        i + 4
    }
}

/// After the header section: read the body when `Content-Length` declares
/// more bytes after the header section than the buffer holds, else finish.
pub open spec fn after_head(buf: Seq<u8>, last_failed: bool) -> (IntakeView, StepView) {
    let stop = IntakeView { buf, stage: Stage::Finished, last_failed };
    if !valid_utf8(buf) || !head_readable(decode_utf8(buf)) {
        (stop, StepView::Malformed)
    } else {
        match declared_length(text_headers(decode_utf8(buf))) {
            None => (stop, StepView::Malformed),
            Some(None) => finish(buf, last_failed),
            Some(Some(n)) => if body_start(buf) + n > usize::MAX {
                (stop, StepView::Malformed)
            } else if body_start(buf) + n > buf.len() {
                (
                    IntakeView {
                        buf,
                        stage: Stage::Body((body_start(buf) + n) as usize),
                        last_failed,
                    },
                    StepView::ReadMore,
                )
            } else {
                finish(buf, last_failed)
            },
        }
    }
}

/// While reading the header section: go on until the bytes hold its end.
pub open spec fn check_head(buf: Seq<u8>, last_failed: bool) -> (IntakeView, StepView) {
    if !valid_utf8(buf) {
        (IntakeView { buf, stage: Stage::Finished, last_failed }, StepView::Malformed)
    } else if holds_head_end(buf) {
        after_head(buf, last_failed)
    } else {
        (IntakeView { buf, stage: Stage::Head, last_failed }, StepView::ReadMore)
    }
}

/// The next state and step of an intake in state `s` after a read that gave
/// `e`.
pub open spec fn intake_next(s: IntakeView, e: ReadEvent) -> (IntakeView, StepView) {
    match s.stage {
        Stage::Start => match e {
            ReadEvent::Closed => (
                IntakeView { buf: s.buf, stage: Stage::Finished, last_failed: false },
                StepView::ClosedEmpty,
            ),
            ReadEvent::Data(d) => check_head(s.buf + d, false),
            ReadEvent::Failed => check_head(s.buf, true),
        },
        Stage::Head => match e {
            ReadEvent::Closed => after_head(s.buf, false),
            ReadEvent::Data(d) => check_head(s.buf + d, false),
            ReadEvent::Failed => check_head(s.buf, true),
        },
        Stage::Body(target) => match e {
            ReadEvent::Closed => finish(s.buf, false),
            ReadEvent::Data(d) => if target > s.buf.len() + d.len() {
                (
                    IntakeView { buf: s.buf + d, stage: Stage::Body(target), last_failed: false },
                    StepView::ReadMore,
                )
            } else {
                finish(s.buf + d, false)
            },
            ReadEvent::Failed => if target > s.buf.len() {
                (
                    IntakeView { buf: s.buf, stage: Stage::Body(target), last_failed: true },
                    StepView::ReadMore,
                )
            } else {
                finish(s.buf, true)
            },
        },
        Stage::Finished => (s, StepView::Failed),
    }
}

/// Every read keeps what was read before: the buffer grows by the bytes that
/// arrived, and by nothing else. The intake asks for another read exactly
/// when it is not finished, and a complete request is the text of all the
/// bytes read, after a read that did not fail.
pub proof fn law_intake_step(s: IntakeView, e: ReadEvent)
    requires
        s.stage != Stage::Finished,
    ensures
        ({
            let (n, step) = intake_next(s, e);
            &&& n.buf == match e {
                ReadEvent::Data(d) => s.buf + d,
                _ => s.buf,
            }
            &&& (step is ReadMore <==> n.stage != Stage::Finished)
            &&& step matches StepView::Ready(t) ==> valid_utf8(n.buf) && t == decode_utf8(n.buf)
                && !n.last_failed
        }),
{
}

/// The bytes hold a complete request: UTF-8 text that holds the end of a
/// header section, whose header section can be read, and which holds, when
/// `Content-Length` declares `n`, at least `n` bytes after the end of the
/// header section.
pub open spec fn holds_complete_request(buf: Seq<u8>) -> bool {
    &&& holds_head_end(buf)
    &&& head_readable(decode_utf8(buf))
    &&& match declared_length(text_headers(decode_utf8(buf))) {
        None => false,
        Some(None) => true,
        Some(Some(n)) => body_start(buf) + n <= buf.len(),
    }
}

/// While the header section is being read, a read that brings bytes makes
/// the request complete exactly when the bytes then hold a complete request,
/// and the request is then the text of all the bytes. When the header section
/// is complete but declared body bytes are missing, the intake goes on
/// reading until the buffer reaches the end of the declared body.
pub proof fn law_request_complete(s: IntakeView, d: Seq<u8>)
    requires
        s.stage == Stage::Start || s.stage == Stage::Head,
        s.buf.len() + d.len() <= usize::MAX,
    ensures
        ({
            let (n, step) = intake_next(s, ReadEvent::Data(d));
            let b = s.buf + d;
            &&& (step is Ready <==> holds_complete_request(b))
            &&& step matches StepView::Ready(t) ==> t == decode_utf8(b)
            &&& n.stage matches Stage::Body(target) ==> {
                &&& holds_head_end(b)
                &&& declared_length(text_headers(decode_utf8(b))) matches Some(Some(k))
                &&& target == body_start(b) + k
                &&& target > b.len()
            }
        }),
{
    let b = s.buf + d;
    crate::text::lemma_find(b, head_end_bytes());
}

/// While the body is being read, a read that brings bytes makes the request
/// complete exactly when the buffer then reaches the end of the declared body
/// (and is UTF-8 text), and the request is then the text of all the bytes.
pub proof fn law_body_complete(s: IntakeView, d: Seq<u8>)
    requires
        s.stage is Body,
    ensures
        ({
            let (n, step) = intake_next(s, ReadEvent::Data(d));
            let b = s.buf + d;
            &&& (step is Ready <==> (s.stage->0 <= b.len() && valid_utf8(b)))
            &&& step matches StepView::Ready(t) ==> t == decode_utf8(b)
        }),
{
}

/// The steps that an intake in state `s` takes for the reads `events`, one
/// step per read, stopping once it is finished.
pub open spec fn run_steps(s: IntakeView, events: Seq<ReadEvent>) -> Seq<StepView>
    decreases events.len(),
{
    if events.len() == 0 || s.stage == Stage::Finished {
        Seq::empty()
    } else {
        let (n, step) = intake_next(s, events[0]);
        seq![step] + run_steps(n, events.drop_first())
    }
}

/// A connection carries at most one request: whatever the reads give, every
/// step but the last asks for another read, so at most one step ends the
/// reading (with a request, or with nothing to answer).
pub proof fn law_one_request_per_connection(s: IntakeView, events: Seq<ReadEvent>)
    ensures
        forall|i: int|
            0 <= i < run_steps(s, events).len() - 1 ==> #[trigger] run_steps(s, events)[i]
                is ReadMore,
    decreases events.len(),
{
    if events.len() > 0 && s.stage != Stage::Finished {
        let (n, step) = intake_next(s, events[0]);
        law_intake_step(s, events[0]);
        law_one_request_per_connection(n, events.drop_first());
        let steps = run_steps(s, events);
        let rest = run_steps(n, events.drop_first());
        assert(steps == seq![step] + rest);
        if !(step is ReadMore) {
            assert(rest =~= Seq::<StepView>::empty());
        }
        assert forall|i: int| 0 <= i < steps.len() - 1 implies #[trigger] steps[i] is ReadMore by {
            if i > 0 {
                assert(steps[i] == rest[i - 1]);
            }
        }
    }
}

/// `std::str::from_utf8`: the text that the bytes encode, or `None` when they
/// are not valid UTF-8. Claimed: the result is present exactly when vstd's
/// `valid_utf8` holds of the bytes, and is then vstd's `decode_utf8` of them.
#[verifier::external_body]
fn utf8_text(bytes: &[u8]) -> (r: Option<&str>)
    ensures
        r is Some <==> valid_utf8(bytes@),
        r matches Some(s) ==> s@ == decode_utf8(bytes@),
{
    match std::str::from_utf8(bytes) {
        Ok(s) => Some(s),
        Err(_) => None,
    }
}

/// Whether `pat` occurs in `buf` at index `i`.
fn bytes_match_here(buf: &Vec<u8>, i: usize, pat: &Vec<u8>) -> (b: bool)
    requires
        i <= buf@.len(),
    ensures
        b == matches_at(buf@, pat@, i as int),
{
    if pat.len() > buf.len() - i {
        return false;
    }
    let mut k: usize = 0;
    while k < pat.len()
        invariant
            k <= pat@.len(),
            i + pat@.len() <= buf@.len(),
            buf@.len() <= usize::MAX,
            forall|t: int| 0 <= t < k ==> buf@[i + t] == pat@[t],
        decreases pat@.len() - k,
    {
        if buf[i + k] != pat[k] {
            assert(buf@.subrange(i as int, i + pat@.len())[k as int] != pat@[k as int]);
            return false;
        }
        k += 1;
    }
    assert(buf@.subrange(i as int, i + pat@.len()) =~= pat@);
    true
}

/// Where the body begins in `buf`: just past its first `\r\n\r\n`, or at its
/// end.
fn body_start_of(buf: &Vec<u8>) -> (r: usize)
    ensures
        r == body_start(buf@),
        r <= buf@.len(),
{
    let pat: Vec<u8> = vec![13, 10, 13, 10];
    assert(pat@ =~= head_end_bytes());
    let n = buf.len();
    let mut i: usize = 0;
    while i < n
        invariant
            i <= n,
            n == buf@.len(),
            pat@ == head_end_bytes(),
            no_match_before(buf@, pat@, i as int),
        decreases n - i,
    {
        if bytes_match_here(buf, i, &pat) {
            proof {
                lemma_find_is(buf@, pat@, i as int);
            }
            return i + 4;
        }
        i += 1;
    }
    assert(no_match_before(buf@, pat@, n + 1)) by {
        assert(!matches_at(buf@, pat@, n as int));
    }
    proof {
        lemma_find_none(buf@, pat@);
    }
    n
}

/// The reading of one request off a connection.
pub struct Intake {
    buf: Vec<u8>,
    stage: Stage,
    last_failed: bool,
}

impl View for Intake {
    type V = IntakeView;

    closed spec fn view(&self) -> IntakeView {
        IntakeView { buf: self.buf@, stage: self.stage, last_failed: self.last_failed }
    }
}

impl Intake {
    /// An intake before the first read.
    pub fn new() -> (r: Self)
        ensures
            r@ == (IntakeView { buf: Seq::empty(), stage: Stage::Start, last_failed: false }),
    {
        Intake { buf: Vec::new(), stage: Stage::Start, last_failed: false }
    }

    /// The bytes read so far.
    pub fn bytes(&self) -> (b: &Vec<u8>)
        ensures
            b@ == self@.buf,
    {
        &self.buf
    }

    /// Whether reading is over.
    pub fn is_finished(&self) -> (b: bool)
        ensures
            b == (self@.stage == Stage::Finished),
    {
        self.stage == Stage::Finished
    }

    fn finish(&mut self, last_failed: bool) -> (r: Step)
        ensures
            (final(self)@, r@) == finish(old(self)@.buf, last_failed),
    {
        self.stage = Stage::Finished;
        self.last_failed = last_failed;
        if last_failed {
            return Step::Failed;
        }
        match utf8_text(self.buf.as_slice()) {
            None => Step::Malformed,
            Some(t) => Step::Ready(t.to_owned()),
        }
    }

    fn after_head(&mut self, last_failed: bool) -> (r: Step)
        ensures
            (final(self)@, r@) == after_head(old(self)@.buf, last_failed),
    {
        let text = match utf8_text(self.buf.as_slice()) {
            None => {
                self.stage = Stage::Finished;
                self.last_failed = last_failed;
                return Step::Malformed;
            },
            Some(t) => t,
        };
        let headers = match read_headers(text) {
            None => {
                self.stage = Stage::Finished;
                self.last_failed = last_failed;
                return Step::Malformed;
            },
            Some(h) => h,
        };
        match content_length(&headers) {
            None => {
                self.stage = Stage::Finished;
                self.last_failed = last_failed;
                Step::Malformed
            },
            Some(None) => self.finish(last_failed),
            Some(Some(n)) => {
                let start = body_start_of(&self.buf);
                if n > usize::MAX - start {
                    self.stage = Stage::Finished;
                    self.last_failed = last_failed;
                    Step::Malformed
                } else if start + n > self.buf.len() {
                    self.stage = Stage::Body(start + n);
                    self.last_failed = last_failed;
                    Step::ReadMore
                } else {
                    self.finish(last_failed)
                }
            },
        }
    }

    fn check_head(&mut self, last_failed: bool) -> (r: Step)
        ensures
            (final(self)@, r@) == check_head(old(self)@.buf, last_failed),
    {
        let text = match utf8_text(self.buf.as_slice()) {
            None => {
                self.stage = Stage::Finished;
                self.last_failed = last_failed;
                return Step::Malformed;
            },
            Some(t) => t,
        };
        let cs = chars_of(text);
        let end = vec!['\r', '\n', '\r', '\n'];
        assert(end@ =~= head_end());
        assert(cs@.subrange(0, cs@.len() as int) =~= cs@);
        match find_in(&cs, 0, cs.len(), &end) {
            Some(_) => self.after_head(last_failed),
            None => {
                self.stage = Stage::Head;
                self.last_failed = last_failed;
                Step::ReadMore
            },
        }
    }

    /// Takes the outcome of a read and says what to do next.
    pub fn on_read(&mut self, outcome: ReadOutcome) -> (r: Step)
        requires
            old(self)@.stage != Stage::Finished,
        ensures
            (final(self)@, r@) == intake_next(old(self)@, outcome@),
    {
        match self.stage {
            Stage::Start | Stage::Head => {
                let start = self.stage == Stage::Start;
                match outcome {
                    ReadOutcome::Closed => {
                        if start {
                            self.stage = Stage::Finished;
                            self.last_failed = false;
                            Step::ClosedEmpty
                        } else {
                            self.after_head(false)
                        }
                    },
                    ReadOutcome::Data(d) => {
                        let mut d = d;
                        self.buf.append(&mut d);
                        self.check_head(false)
                    },
                    ReadOutcome::Failed => self.check_head(true),
                }
            },
            Stage::Body(target) => match outcome {
                ReadOutcome::Closed => self.finish(false),
                ReadOutcome::Data(d) => {
                    let mut d = d;
                    self.buf.append(&mut d);
                    if target > self.buf.len() {
                        self.last_failed = false;
                        Step::ReadMore
                    } else {
                        self.finish(false)
                    }
                },
                ReadOutcome::Failed => {
                    if target > self.buf.len() {
                        self.last_failed = true;
                        Step::ReadMore
                    } else {
                        self.finish(true)
                    }
                },
            },
            Stage::Finished => Step::Failed,
        }
    }
}

} // verus!
