//! The decisions behind `URLSessionDataTask`: its lifecycle (`resume`,
//! `cancel`) and the transfer driver that turns the transport's event
//! stream (`Response`, `Chunk`*, then `Done` or `Failed`) into a response or
//! a `URLError`.
//!
//! The transport, the delegate callbacks and the completion handler are
//! outside work: whoever runs a transfer performs the [`DriverStep`] that
//! each decision returns and feeds the next event back in.
use vstd::prelude::*;
use crate::foundation::{ascii_digit, digit_prefix, digits_value};
use crate::text::chars_of;

verus! {

/// `URLSessionTask.State`.
#[derive(Clone, Copy, Debug, PartialEq, Eq, Structural)]
pub enum TaskState {
    Running,
    Suspended,
    Canceling,
    Completed,
}

/// A data task's lifecycle: its state and whether `cancel()` reached it.
#[derive(Clone, Copy, Debug, PartialEq, Eq, Structural)]
pub struct TaskLifecycle {
    pub state: TaskState,
    pub cancelled: bool,
}

/// What `resume()` does.
#[derive(Clone, Copy, Debug, PartialEq, Eq, Structural)]
pub enum ResumeStep {
    /// The task is running or completed: nothing happens.
    Ignore,
    /// The task was cancelled before it ran: its handler receives
    /// `URLError(.cancelled)` and the transport is never started.
    DeliverCancelled,
    /// The transfer runs; the task completes when it ends.
    Drive,
}

/// The raw value of each `URLSessionTask.State` case.
pub open spec fn task_state_raw(s: TaskState) -> int {
    match s {
        TaskState::Running => 0,
        TaskState::Suspended => 1,
        TaskState::Canceling => 2,
        TaskState::Completed => 3,
    }
}

impl TaskState {
    /// The case's raw value (`running` 0, `suspended` 1, `canceling` 2,
    /// `completed` 3).
    pub fn raw_value(self) -> (r: i64)
        ensures
            r == task_state_raw(self),
    {
        match self {
            TaskState::Running => 0,
            TaskState::Suspended => 1,
            TaskState::Canceling => 2,
            TaskState::Completed => 3,
        }
    }

    /// The case's name, as Swift spells it.
    pub fn name(self) -> (r: &'static str)
        ensures
            r@ == match self {
                TaskState::Running => "running"@,
                TaskState::Suspended => "suspended"@,
                TaskState::Canceling => "canceling"@,
                TaskState::Completed => "completed"@,
            },
    {
        match self {
            TaskState::Running => "running",
            TaskState::Suspended => "suspended",
            TaskState::Canceling => "canceling",
            TaskState::Completed => "completed",
        }
    }
}

/// The lifecycle after `cancel()`: a task already canceling or completed is
/// left as it is; any other is marked cancelled and canceling.
pub open spec fn cancelled_lifecycle(t: TaskLifecycle) -> TaskLifecycle {
    if t.state == TaskState::Canceling || t.state == TaskState::Completed {
        t
    } else {
        TaskLifecycle { state: TaskState::Canceling, cancelled: true }
    }
}

/// What `resume()` decides for `t`, and the lifecycle after it: only a
/// suspended or canceling task proceeds; a cancelled one completes at once,
/// any other starts running.
pub open spec fn resumed_lifecycle(t: TaskLifecycle) -> (ResumeStep, TaskLifecycle) {
    if !(t.state == TaskState::Suspended || t.state == TaskState::Canceling) {
        (ResumeStep::Ignore, t)
    } else if t.cancelled {
        (ResumeStep::DeliverCancelled, TaskLifecycle { state: TaskState::Completed, ..t })
    } else {
        (ResumeStep::Drive, TaskLifecycle { state: TaskState::Running, ..t })
    }
}

impl TaskLifecycle {
    /// A fresh task: suspended, not cancelled.
    pub fn new() -> (r: TaskLifecycle)
        ensures
            r == (TaskLifecycle { state: TaskState::Suspended, cancelled: false }),
    {
        TaskLifecycle { state: TaskState::Suspended, cancelled: false }
    }

    /// `cancel()` (see [`cancelled_lifecycle`]).
    pub fn cancel(&mut self)
        ensures
            *final(self) == cancelled_lifecycle(*old(self)),
    {
        if self.state == TaskState::Canceling || self.state == TaskState::Completed {
            return;
        }
        self.cancelled = true;
        self.state = TaskState::Canceling;
    }

    /// `resume()` (see [`resumed_lifecycle`]).
    pub fn resume(&mut self) -> (r: ResumeStep)
        ensures
            (r, *final(self)) == resumed_lifecycle(*old(self)),
    {
        if !(self.state == TaskState::Suspended || self.state == TaskState::Canceling) {
            return ResumeStep::Ignore;
        }
        if self.cancelled {
            self.state = TaskState::Completed;
            ResumeStep::DeliverCancelled
        } else {
            self.state = TaskState::Running;
            ResumeStep::Drive
        }
    }

    /// The transfer ended, with a response or with an error: the task is
    /// completed.
    pub fn complete(&mut self)
        ensures
            *final(self) == (TaskLifecycle { state: TaskState::Completed, ..*old(self) }),
    {
        self.state = TaskState::Completed;
    }
}

/// Cancelling twice is cancelling once.
pub proof fn lemma_cancel_is_idempotent(t: TaskLifecycle)
    ensures
        cancelled_lifecycle(cancelled_lifecycle(t)) == cancelled_lifecycle(t),
{
}

/// A task cancelled before it ran never starts its transfer: resuming it
/// delivers the cancellation and completes it.
pub proof fn lemma_cancel_before_resume_delivers_cancelled()
    ensures
        resumed_lifecycle(cancelled_lifecycle(TaskLifecycle { state: TaskState::Suspended, cancelled: false }))
            == (ResumeStep::DeliverCancelled, TaskLifecycle { state: TaskState::Completed, cancelled: true }),
{
}

/// Resuming is a no-op once a task runs or has completed, and cancelling a
/// completed task changes nothing.
pub proof fn lemma_finished_task_ignores_resume_and_cancel(t: TaskLifecycle)
    requires
        t.state == TaskState::Running || t.state == TaskState::Completed,
    ensures
        resumed_lifecycle(t) == (ResumeStep::Ignore, t),
        t.state == TaskState::Completed ==> cancelled_lifecycle(t) == t,
{
}

/// `c` lower-cased when it is an ASCII capital letter.
pub open spec fn ascii_lower(c: char) -> u32 {
    if 'A' <= c <= 'Z' {
        (c as u32 + 32) as u32
    } else {
        c as u32
    }
}

/// `str::eq_ignore_ascii_case`: the same length, and the same characters
/// once ASCII capitals are lower-cased.
pub open spec fn eq_ignore_ascii_case(a: Seq<char>, b: Seq<char>) -> bool {
    a.len() == b.len() && forall|i: int| 0 <= i < a.len() ==> ascii_lower(#[trigger] a[i]) == ascii_lower(b[i])
}

/// `c` lower-cased when it is an ASCII capital letter.
fn lower_ascii(c: char) -> (r: u32)
    ensures
        r == ascii_lower(c),
{
    if 'A' <= c && c <= 'Z' {
        c as u32 + 32
    } else {
        c as u32
    }
}

/// Whether `a` and `b` are equal up to ASCII case (see
/// [`eq_ignore_ascii_case`]).
pub fn same_ignoring_ascii_case(a: &str, b: &str) -> (r: bool)
    ensures
        r == eq_ignore_ascii_case(a@, b@),
{
    let va = chars_of(a);
    let vb = chars_of(b);
    if va.len() != vb.len() {
        return false;
    }
    let mut i: usize = 0;
    while i < va.len()
        invariant
            va@ == a@,
            vb@ == b@,
            va@.len() == vb@.len(),
            i <= va@.len(),
            forall|j: int| 0 <= j < i ==> ascii_lower(#[trigger] va@[j]) == ascii_lower(vb@[j]),
        decreases va@.len() - i,
    {
        if lower_ascii(va[i]) != lower_ascii(vb[i]) {
            return false;
        }
        i += 1;
    }
    true
}

/// `str::parse::<i64>`: an optional `+` or `-`, then one or more ASCII
/// digits and nothing else, whose value fits in an `i64`.
pub open spec fn i64_text(s: Seq<char>) -> Option<int> {
    let signed = s.len() > 0 && (s[0] == '+' || s[0] == '-');
    let body = if signed {
        s.drop_first()
    } else {
        s
    };
    let v = digits_value(body);
    let val = if signed && s[0] == '-' {
        -v
    } else {
        v
    };
    if body.len() > 0 && digit_prefix(body) == body.len() && i64::MIN <= val <= i64::MAX {
        Some(val)
    } else {
        None
    }
}

/// The largest magnitude an `i64` can hold (that of `i64::MIN`).
const MAGNITUDE: u128 = 9223372036854775808;

/// Every character of `s` from `k` on is an ASCII digit exactly when the
/// digit run from `k` reaches the end.
proof fn lemma_digit_prefix_all(s: Seq<char>)
    requires
        forall|i: int| 0 <= i < s.len() ==> ascii_digit(#[trigger] s[i]),
    ensures
        digit_prefix(s) == s.len(),
    decreases s.len(),
{
    if s.len() > 0 {
        assert forall|i: int| 0 <= i < s.drop_first().len() implies ascii_digit(#[trigger] s.drop_first()[i]) by {
            assert(s.drop_first()[i] == s[i + 1]);
        }
        lemma_digit_prefix_all(s.drop_first());
    }
}

/// A run of digits that stops early is not all digits.
proof fn lemma_digit_prefix_short(s: Seq<char>, k: int)
    requires
        0 <= k < s.len(),
        !ascii_digit(s[k]),
    ensures
        digit_prefix(s) < s.len(),
    decreases s.len(),
{
    if k > 0 && ascii_digit(s[0]) {
        assert(s.drop_first()[k - 1] == s[k]);
        lemma_digit_prefix_short(s.drop_first(), k - 1);
    }
}

/// The value of a run of digits is never negative.
proof fn lemma_digits_nonneg(d: Seq<char>)
    requires
        forall|i: int| 0 <= i < d.len() ==> ascii_digit(#[trigger] d[i]),
    ensures
        digits_value(d) >= 0,
    decreases d.len(),
{
    if d.len() > 0 {
        assert forall|i: int| 0 <= i < d.drop_last().len() implies ascii_digit(#[trigger] d.drop_last()[i]) by {
            assert(d.drop_last()[i] == d[i]);
        }
        lemma_digits_nonneg(d.drop_last());
        assert(ascii_digit(d[d.len() - 1]));
    }
}

/// `s.parse::<i64>().ok()` (see [`i64_text`]).
#[verifier::loop_isolation(false)]
pub fn parse_i64(s: &str) -> (r: Option<i64>)
    ensures
        r matches Some(n) ==> i64_text(s@) == Some(n as int),
        r is None ==> i64_text(s@) is None,
{
    let v = chars_of(s);
    let signed = v.len() > 0 && (v[0] == '+' || v[0] == '-');
    let negative = signed && v[0] == '-';
    let start: usize = if signed {
        1
    } else {
        0
    };
    let ghost body = if signed {
        s@.drop_first()
    } else {
        s@
    };
    assert(body =~= v@.skip(start as int));
    if start == v.len() {
        return None;
    }
    let mut i = start;
    let mut acc: u128 = 0;
    let mut big = false;
    assert(body.take(0) =~= Seq::<char>::empty());
    while i < v.len()
        invariant
            start <= i <= v@.len(),
            v@ == s@,
            body == v@.skip(start as int),
            forall|j: int| start <= j < i ==> ascii_digit(#[trigger] v@[j]),
            big ==> digits_value(body.take(i - start)) > MAGNITUDE,
            !big ==> acc == digits_value(body.take(i - start)),
            acc <= MAGNITUDE,
        decreases v@.len() - i,
    {
        let c = v[i];
        if !('0' <= c && c <= '9') {
            proof {
                assert(body[i - start] == v@[i as int]);
                lemma_digit_prefix_short(body, i - start);
            }
            return None;
        }
        let d = (c as u32 - '0' as u32) as u128;
        let ghost prev = body.take(i - start);
        assert(body.take(i - start + 1).drop_last() =~= prev);
        assert(body.take(i - start + 1).last() == v@[i as int]);
        proof {
            assert forall|j: int| 0 <= j < prev.len() implies ascii_digit(#[trigger] prev[j]) by {
                assert(prev[j] == v@[start + j]);
            }
            lemma_digits_nonneg(prev);
        }
        if !big {
            let next = acc * 10 + d;
            if next > MAGNITUDE {
                big = true;
            } else {
                acc = next;
            }
        }
        i += 1;
    }
    proof {
        assert forall|j: int| 0 <= j < body.len() implies ascii_digit(#[trigger] body[j]) by {
            assert(body[j] == v@[start + j]);
        }
        lemma_digit_prefix_all(body);
        assert(body.take(body.len() as int) =~= body);
    }
    if big {
        return None;
    }
    if negative {
        if acc == MAGNITUDE {
            Some(i64::MIN)
        } else {
            Some(-(acc as i64))
        }
    } else if acc > 9223372036854775807 {
        None
    } else {
        Some(acc as i64)
    }
}

/// One event of the transport's stream.
pub enum TransportEvent {
    /// The response head: its status and headers.
    Response { status: i64, headers: Vec<(String, String)> },
    /// A piece of the body.
    Chunk(Vec<u8>),
    /// The stream ended normally.
    Done,
    /// The transport failed, with a `URLError` code.
    Failed { code: String },
}

/// The plain values of a [`TransportEvent`].
pub enum EventView {
    Response { status: i64, headers: Seq<(Seq<char>, Seq<char>)> },
    Chunk(Seq<u8>),
    Done,
    Failed(Seq<char>),
}

/// The plain values of a header list.
pub open spec fn headers_view(v: Seq<(String, String)>) -> Seq<(Seq<char>, Seq<char>)> {
    v.map_values(|p: (String, String)| (p.0@, p.1@))
}

impl View for TransportEvent {
    type V = EventView;

    open spec fn view(&self) -> EventView {
        match self {
            TransportEvent::Response { status, headers } => EventView::Response {
                status: *status,
                headers: headers_view(headers@),
            },
            TransportEvent::Chunk(b) => EventView::Chunk(b@),
            TransportEvent::Done => EventView::Done,
            TransportEvent::Failed { code } => EventView::Failed(code@),
        }
    }
}

/// What the driver does next; whoever runs the transfer performs it.
#[derive(Debug, PartialEq, Eq)]
pub enum DriverStep {
    /// Poll the task's cancellation (see [`on_cancel_poll`]), then read the
    /// next event.
    Continue,
    /// Ask the delegate what to do with the response and feed its answer to
    /// [`on_disposition`].
    AskDisposition,
    /// Hand the chunk just received to the delegate, then continue.
    ReportData,
    /// Cancel the transport, drain it to its end, and throw `URLError(code)`.
    Abort(String),
    /// Tell the delegate the task completed with `URLError(.cancelled)`, then
    /// cancel and drain the transport and throw that error.
    NotifyThenAbort,
    /// Cancel and drain the transport, tell the delegate (if any) the task
    /// completed with `URLError(.cancelled)`, and throw that error.
    AbortThenNotify,
    /// Throw `URLError(code)`; the transport needs no cancelling.
    Fail(String),
    /// Tell the delegate (if any) the task completed with `URLError(code)`,
    /// then throw that error.
    NotifyThenFail(String),
    /// Tell the delegate (if any) the task completed without error, and
    /// return the transfer's outcome.
    Finish,
}

/// The plain values of a [`DriverStep`].
pub enum StepView {
    Continue,
    AskDisposition,
    ReportData,
    Abort(Seq<char>),
    NotifyThenAbort,
    AbortThenNotify,
    Fail(Seq<char>),
    NotifyThenFail(Seq<char>),
    Finish,
}

impl View for DriverStep {
    type V = StepView;

    open spec fn view(&self) -> StepView {
        match self {
            DriverStep::Continue => StepView::Continue,
            DriverStep::AskDisposition => StepView::AskDisposition,
            DriverStep::ReportData => StepView::ReportData,
            DriverStep::Abort(c) => StepView::Abort(c@),
            DriverStep::NotifyThenAbort => StepView::NotifyThenAbort,
            DriverStep::AbortThenNotify => StepView::AbortThenNotify,
            DriverStep::Fail(c) => StepView::Fail(c@),
            DriverStep::NotifyThenFail(c) => StepView::NotifyThenFail(c@),
            DriverStep::Finish => StepView::Finish,
        }
    }
}

/// What a transfer has gathered so far.
pub struct Transfer {
    pub got_response: bool,
    pub status: i64,
    pub headers: Vec<(String, String)>,
    pub body: Vec<u8>,
    /// The `Content-Length` the response announced, or -1.
    pub bytes_expected: i64,
}

/// The plain values of a [`Transfer`].
pub struct TransferView {
    pub got_response: bool,
    pub status: i64,
    pub headers: Seq<(Seq<char>, Seq<char>)>,
    pub body: Seq<u8>,
    pub bytes_expected: int,
}

impl View for Transfer {
    type V = TransferView;

    open spec fn view(&self) -> TransferView {
        TransferView {
            got_response: self.got_response,
            status: self.status,
            headers: headers_view(self.headers@),
            body: self.body@,
            bytes_expected: self.bytes_expected as int,
        }
    }
}

/// The `Content-Length` announced by `hs`: the value of the last header
/// named `content-length` in any ASCII case whose value parses as an `i64`,
/// else `prev`.
pub open spec fn content_length(hs: Seq<(Seq<char>, Seq<char>)>, prev: int) -> int
    decreases hs.len(),
{
    if hs.len() == 0 {
        prev
    } else {
        let before = content_length(hs.drop_last(), prev);
        if eq_ignore_ascii_case(hs.last().0, "content-length"@) {
            match i64_text(hs.last().1) {
                Some(n) => n,
                None => before,
            }
        } else {
            before
        }
    }
}

/// The code a malformed event stream is reported with.
pub open spec fn bad_response() -> Seq<char> {
    "badServerResponse"@
}

/// The transfer after event `ev`, and the step to take: a second response,
/// or a chunk before the response, aborts with `badServerResponse`; the
/// response records its status, headers and announced length; a chunk
/// extends the body; the end of the stream finishes the transfer (or fails
/// it with `badServerResponse` when no response came); a transport failure
/// is reported with its code. The delegate, when `delegate` holds, is asked
/// about the response and told of each chunk.
pub open spec fn transfer_step(st: TransferView, ev: EventView, delegate: bool) -> (TransferView, StepView) {
    match ev {
        EventView::Response { status, headers } => if st.got_response {
            (st, StepView::Abort(bad_response()))
        } else {
            (
                TransferView {
                    got_response: true,
                    status,
                    headers,
                    body: st.body,
                    bytes_expected: content_length(headers, st.bytes_expected),
                },
                if delegate {
                    StepView::AskDisposition
                } else {
                    StepView::Continue
                },
            )
        },
        EventView::Chunk(b) => if !st.got_response {
            (st, StepView::Abort(bad_response()))
        } else {
            (
                TransferView { body: st.body + b, ..st },
                if delegate {
                    StepView::ReportData
                } else {
                    StepView::Continue
                },
            )
        },
        EventView::Done => if !st.got_response {
            (st, StepView::Fail(bad_response()))
        } else {
            (st, StepView::Finish)
        },
        EventView::Failed(code) => (st, StepView::NotifyThenFail(code)),
    }
}

/// The `Content-Length` among `headers` (see [`content_length`]).
fn content_length_of(headers: &Vec<(String, String)>, prev: i64) -> (r: i64)
    ensures
        r == content_length(headers_view(headers@), prev as int),
{
    let ghost hv = headers_view(headers@);
    let mut r = prev;
    let mut i: usize = 0;
    assert(hv.take(0) =~= Seq::<(Seq<char>, Seq<char>)>::empty());
    while i < headers.len()
        invariant
            i <= headers@.len(),
            hv == headers_view(headers@),
            r == content_length(hv.take(i as int), prev as int),
        decreases headers@.len() - i,
    {
        let name = headers[i].0.as_str();
        let value = headers[i].1.as_str();
        assert(hv.take(i + 1).drop_last() =~= hv.take(i as int));
        assert(hv.take(i + 1).last() == (name@, value@));
        if same_ignoring_ascii_case(name, "content-length") {
            proof {
                reveal_strlit("content-length");
            }
            if let Some(n) = parse_i64(value) {
                r = n;
            }
        }
        i += 1;
    }
    assert(hv.take(headers@.len() as int) =~= hv);
    r
}

impl Transfer {
    /// A transfer that has seen no event yet.
    pub fn new() -> (r: Transfer)
        ensures
            r@ == (TransferView {
                got_response: false,
                status: 0,
                headers: Seq::empty(),
                body: Seq::empty(),
                bytes_expected: -1,
            }),
    {
        let r = Transfer { got_response: false, status: 0, headers: Vec::new(), body: Vec::new(), bytes_expected: -1 };
        assert(r@.headers =~= Seq::<(Seq<char>, Seq<char>)>::empty());
        r
    }

    /// Take in one transport event (see [`transfer_step`]).
    pub fn on_event(&mut self, ev: TransportEvent, delegate: bool) -> (r: DriverStep)
        requires
            ev matches TransportEvent::Chunk(b) ==> old(self).body@.len() + b@.len() <= usize::MAX,
        ensures
            (final(self)@, r@) == transfer_step(old(self)@, ev@, delegate),
    {
        match ev {
            TransportEvent::Response { status, headers } => {
                if self.got_response {
                    return DriverStep::Abort(String::from_str("badServerResponse"));
                }
                let expected = content_length_of(&headers, self.bytes_expected);
                self.status = status;
                self.headers = headers;
                self.bytes_expected = expected;
                self.got_response = true;
                if delegate {
                    DriverStep::AskDisposition
                } else {
                    DriverStep::Continue
                }
            },
            TransportEvent::Chunk(bytes) => {
                if !self.got_response {
                    return DriverStep::Abort(String::from_str("badServerResponse"));
                }
                let mut bytes = bytes;
                self.body.append(&mut bytes);
                if delegate {
                    DriverStep::ReportData
                } else {
                    DriverStep::Continue
                }
            },
            TransportEvent::Done => {
                if !self.got_response {
                    DriverStep::Fail(String::from_str("badServerResponse"))
                } else {
                    DriverStep::Finish
                }
            },
            TransportEvent::Failed { code } => DriverStep::NotifyThenFail(code),
        }
    }
}

/// The step after the delegate answers about the response: an allowing
/// delegate lets the transfer go on; one that cancels ends it with
/// `URLError(.cancelled)`, told to the delegate first.
pub fn on_disposition(allow: bool) -> (r: DriverStep)
    ensures
        allow ==> r@ == StepView::Continue,
        !allow ==> r@ == StepView::NotifyThenAbort,
{
    if allow {
        DriverStep::Continue
    } else {
        DriverStep::NotifyThenAbort
    }
}

/// The step after polling the task between events: a cancelled task ends
/// the transfer with `URLError(.cancelled)`.
pub fn on_cancel_poll(cancelled: bool) -> (r: DriverStep)
    ensures
        cancelled ==> r@ == StepView::AbortThenNotify,
        !cancelled ==> r@ == StepView::Continue,
{
    if cancelled {
        DriverStep::AbortThenNotify
    } else {
        DriverStep::Continue
    }
}

/// The step before the transport is started: a task already cancelled
/// throws `URLError(.cancelled)` without touching the transport.
pub fn on_start(cancelled: bool) -> (r: DriverStep)
    ensures
        cancelled ==> r@ == StepView::Fail("cancelled"@),
        !cancelled ==> r@ == StepView::Continue,
{
    if cancelled {
        DriverStep::Fail(String::from_str("cancelled"))
    } else {
        DriverStep::Continue
    }
}

/// What a finished transfer hands back.
pub struct TransferOutcome {
    pub body: Vec<u8>,
    pub status: i64,
    pub headers: Vec<(String, String)>,
    /// The number of body bytes received.
    pub bytes_received: i64,
    /// The `Content-Length` the response announced, or -1.
    pub bytes_expected: i64,
}

impl Transfer {
    /// The outcome of the transfer: what it gathered, with the count of
    /// body bytes received.
    pub fn outcome(self) -> (r: TransferOutcome)
        requires
            self.body@.len() <= i64::MAX,
        ensures
            r.body@ == self.body@,
            r.status == self.status,
            headers_view(r.headers@) == headers_view(self.headers@),
            r.bytes_received == self.body@.len(),
            r.bytes_expected == self.bytes_expected,
    {
        let n = self.body.len() as i64;
        TransferOutcome {
            body: self.body,
            status: self.status,
            headers: self.headers,
            bytes_received: n,
            bytes_expected: self.bytes_expected,
        }
    }
}

/// Whether the driver reads another event after `step`.
pub open spec fn goes_on(step: StepView) -> bool {
    step is Continue || step is AskDisposition || step is ReportData
}

/// The transfer after feeding it `evs` in order, stopping at the first
/// step that ends it (the delegate allowing every response).
pub open spec fn feed(st: TransferView, evs: Seq<EventView>, delegate: bool) -> TransferView
    decreases evs.len(),
{
    if evs.len() == 0 {
        st
    } else {
        let (s1, step) = transfer_step(st, evs[0], delegate);
        if goes_on(step) {
            feed(s1, evs.drop_first(), delegate)
        } else {
            s1
        }
    }
}

/// The payloads of the chunk events among `evs`, run together in order.
pub open spec fn chunk_bytes(evs: Seq<EventView>) -> Seq<u8>
    decreases evs.len(),
{
    if evs.len() == 0 {
        Seq::empty()
    } else {
        let rest = chunk_bytes(evs.drop_first());
        match evs[0] {
            EventView::Chunk(b) => b + rest,
            _ => rest,
        }
    }
}

/// Once the response has arrived, a run of chunks extends the body by
/// exactly their payloads, in order, and changes nothing else.
pub proof fn lemma_chunks_extend_the_body(st: TransferView, evs: Seq<EventView>, delegate: bool)
    requires
        st.got_response,
        forall|i: int| 0 <= i < evs.len() ==> #[trigger] evs[i] is Chunk,
    ensures
        feed(st, evs, delegate) == (TransferView { body: st.body + chunk_bytes(evs), ..st }),
    decreases evs.len(),
{
    if evs.len() == 0 {
        assert(st.body + chunk_bytes(evs) =~= st.body);
    } else {
        assert(evs[0] is Chunk);
        let b = evs[0]->Chunk_0;
        let s1 = TransferView { body: st.body + b, ..st };
        assert forall|i: int| 0 <= i < evs.drop_first().len() implies #[trigger] evs.drop_first()[i] is Chunk by {
            assert(evs.drop_first()[i] == evs[i + 1]);
        }
        lemma_chunks_extend_the_body(s1, evs.drop_first(), delegate);
        assert(st.body + b + chunk_bytes(evs.drop_first()) =~= st.body + chunk_bytes(evs));
    }
}

/// A stream carries one response: once it has arrived, another one aborts
/// the transfer with `badServerResponse` and leaves what was gathered.
pub proof fn lemma_second_response_aborts(st: TransferView, status: i64, headers: Seq<(Seq<char>, Seq<char>)>, delegate: bool)
    requires
        st.got_response,
    ensures
        transfer_step(st, EventView::Response { status, headers }, delegate) == (st, StepView::Abort(bad_response())),
{
}

/// A body chunk is only accepted after the response: before it, any chunk
/// aborts the transfer and the stream's end fails it, both with
/// `badServerResponse`.
pub proof fn lemma_body_needs_a_response(st: TransferView, b: Seq<u8>, delegate: bool)
    requires
        !st.got_response,
    ensures
        transfer_step(st, EventView::Chunk(b), delegate) == (st, StepView::Abort(bad_response())),
        transfer_step(st, EventView::Done, delegate) == (st, StepView::Fail(bad_response())),
{
}

/// A well-formed stream (one response, its chunks, then the end) finishes
/// with the response's status and headers and a body made of the chunks.
pub proof fn lemma_well_formed_stream_finishes(
    st: TransferView,
    status: i64,
    headers: Seq<(Seq<char>, Seq<char>)>,
    chunks: Seq<EventView>,
    delegate: bool,
)
    requires
        !st.got_response,
        forall|i: int| 0 <= i < chunks.len() ==> #[trigger] chunks[i] is Chunk,
    ensures
        ({
            let evs = seq![EventView::Response { status, headers }] + chunks + seq![EventView::Done];
            let end = feed(st, evs, delegate);
            &&& end.got_response
            &&& end.status == status
            &&& end.headers == headers
            &&& end.body == st.body + chunk_bytes(chunks)
            &&& end.bytes_expected == content_length(headers, st.bytes_expected)
        }),
{
    let evs = seq![EventView::Response { status, headers }] + chunks + seq![EventView::Done];
    let s1 = transfer_step(st, EventView::Response { status, headers }, delegate).0;
    assert(evs[0] == EventView::Response { status, headers });
    assert(evs.drop_first() =~= chunks + seq![EventView::Done]);
    lemma_feed_chunks_then_done(s1, chunks, delegate);
}

/// Feeding chunks and then the end of the stream to a transfer that has its
/// response finishes it with the chunks appended.
proof fn lemma_feed_chunks_then_done(st: TransferView, chunks: Seq<EventView>, delegate: bool)
    requires
        st.got_response,
        forall|i: int| 0 <= i < chunks.len() ==> #[trigger] chunks[i] is Chunk,
    ensures
        feed(st, chunks + seq![EventView::Done], delegate) == (TransferView {
            body: st.body + chunk_bytes(chunks),
            ..st
        }),
    decreases chunks.len(),
{
    let evs = chunks + seq![EventView::Done];
    if chunks.len() == 0 {
        assert(evs =~= seq![EventView::Done]);
        assert(evs.drop_first() =~= Seq::<EventView>::empty());
        assert(st.body + chunk_bytes(chunks) =~= st.body);
    } else {
        assert(evs[0] == chunks[0]);
        assert(chunks[0] is Chunk);
        let b = chunks[0]->Chunk_0;
        let s1 = TransferView { body: st.body + b, ..st };
        assert(evs.drop_first() =~= chunks.drop_first() + seq![EventView::Done]);
        assert forall|i: int| 0 <= i < chunks.drop_first().len() implies #[trigger] chunks.drop_first()[i] is Chunk by {
            assert(chunks.drop_first()[i] == chunks[i + 1]);
        }
        lemma_feed_chunks_then_done(s1, chunks.drop_first(), delegate);
        assert(st.body + b + chunk_bytes(chunks.drop_first()) =~= st.body + chunk_bytes(chunks));
    }
}

} // verus!
