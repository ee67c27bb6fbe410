//! The retry policy of a System One call.
//!
//! A call is a small state machine: the transport reports each outcome as an
//! [`Event`], and [`SystemOneCall::step`] answers with the [`Action`] to take
//! next: decode the answer, read a failed response, wait and send again, or
//! stop with an error.

use vstd::prelude::*;

use crate::error::{
    body_detail, is_retryable_status, spec_is_retryable_status, spec_status_error, status_error, Error,
    ErrorView, MAX_BODY_CHARS,
};
use crate::text::{concat2, decimal, digit_char, trim, trim_end, trim_range, trim_start, truncated};

verus! {

/// Retries after the first attempt, at most.
pub const MAX_RETRIES: u32 = 3;

/// Delay before the first retry when the server gives none, in seconds.
pub const BASE_DELAY_SECS: u64 = 1;

/// Longest delay between two attempts, in seconds.
pub const MAX_DELAY_SECS: u64 = 30;

/// Timeout of one request, in seconds.
pub const REQUEST_TIMEOUT_SECS: u64 = 60;

/// Largest exponent of the doubling delay.
pub const MAX_BACKOFF_EXPONENT: u32 = 16;

/// `2^e`.
pub open spec fn pow2(e: nat) -> nat
    decreases e,
{
    if e == 0 {
        1
    } else {
        2 * pow2((e - 1) as nat)
    }
}

/// The smaller of `a` and `b`.
pub open spec fn min_nat(a: nat, b: nat) -> nat {
    if a <= b {
        a
    } else {
        b
    }
}

/// The delay before retry number `attempt + 1`, in seconds: a delay sent by
/// the server wins; otherwise `BASE_DELAY_SECS * 2^attempt` (the exponent
/// capped at `MAX_BACKOFF_EXPONENT`); either is capped at `MAX_DELAY_SECS`.
pub open spec fn spec_backoff_delay(attempt: u32, retry_after: Option<u64>) -> u64 {
    let d: nat = match retry_after {
        Some(r) => r as nat,
        None => (BASE_DELAY_SECS as nat) * pow2(min_nat(attempt as nat, MAX_BACKOFF_EXPONENT as nat)),
    };
    min_nat(d, MAX_DELAY_SECS as nat) as u64
}

proof fn lemma_pow2_mono(a: nat, b: nat)
    requires
        a <= b,
    ensures
        pow2(a) <= pow2(b),
    decreases b,
{
    if a < b {
        lemma_pow2_mono(a, (b - 1) as nat);
    }
}

/// The delay before the next attempt, in seconds (see `spec_backoff_delay`).
pub fn backoff_delay(attempt: u32, retry_after: Option<u64>) -> (d: u64)
    ensures
        d == spec_backoff_delay(attempt, retry_after),
{
    let delay: u64 = match retry_after {
        Some(r) => r,
        None => {
            let e: u32 = if attempt < MAX_BACKOFF_EXPONENT {
                attempt
            } else {
                MAX_BACKOFF_EXPONENT
            };
            let mut p: u64 = 1;
            let mut k: u32 = 0;
            while k < e
                invariant
                    k <= e <= MAX_BACKOFF_EXPONENT,
                    p == pow2(k as nat),
                decreases e - k,
            {
                proof {
                    lemma_pow2_mono(k as nat, 15);
                    assert(pow2(15) == 32768) by {
                        reveal_with_fuel(pow2, 16);
                    }
                }
                p = p * 2;
                k = k + 1;
            }
            BASE_DELAY_SECS * p
        },
    };
    if delay < MAX_DELAY_SECS {
        delay
    } else {
        MAX_DELAY_SECS
    }
}

/// A byte that `http::HeaderValue::to_str` accepts: visible ASCII or a tab.
pub open spec fn visible_ascii(b: u8) -> bool {
    (32 <= b && b < 127) || b == 9
}

/// The characters of an ASCII byte string.
pub open spec fn ascii_chars(v: Seq<u8>) -> Seq<char> {
    v.map_values(|b: u8| b as char)
}

/// A decimal digit.
pub open spec fn is_digit(c: char) -> bool {
    '0' <= c && c <= '9'
}

/// The number that a string of decimal digits denotes.
pub open spec fn digits_value(d: Seq<char>) -> nat
    decreases d.len(),
{
    if d.len() == 0 {
        0
    } else {
        digits_value(d.drop_last()) * 10 + ((d.last() as int) - 48) as nat
    }
}

/// The digits of an unsigned number: `s` without a leading `+`.
pub open spec fn unsigned_digits(s: Seq<char>) -> Seq<char> {
    if s.len() > 0 && s[0] == '+' {
        s.drop_first()
    } else {
        s
    }
}

/// Every character of `d` is a decimal digit.
pub open spec fn all_digits(d: Seq<char>) -> bool {
    forall|i: int| 0 <= i < d.len() ==> is_digit(#[trigger] d[i])
}

/// `u64::from_str`: an optional `+`, then one or more decimal digits whose
/// value fits in 64 bits.
pub open spec fn parse_u64(s: Seq<char>) -> Option<u64> {
    let d = unsigned_digits(s);
    if d.len() > 0 && all_digits(d) && digits_value(d) <= u64::MAX {
        Some(digits_value(d) as u64)
    } else {
        None
    }
}

/// The delay that a `Retry-After` header asks for, in seconds: present,
/// visible ASCII throughout, and once trimmed a `u64`.
pub open spec fn spec_retry_after(header: Option<Seq<u8>>) -> Option<u64> {
    match header {
        None => None,
        Some(v) => if forall|i: int| 0 <= i < v.len() ==> visible_ascii(#[trigger] v[i]) {
            parse_u64(trim(ascii_chars(v)))
        } else {
            None
        },
    }
}

proof fn lemma_digits_value_prefix(d: Seq<char>, k: int)
    requires
        0 <= k <= d.len(),
    ensures
        digits_value(d.take(k)) <= digits_value(d),
    decreases d.len() - k,
{
    if k < d.len() {
        lemma_digits_value_prefix(d, k + 1);
        let t = d.take(k + 1);
        assert(t.drop_last() =~= d.take(k));
    } else {
        assert(d.take(k) =~= d);
    }
}

/// `s[from..to]` read as a `u64` (see `parse_u64`).
fn parse_u64_range(s: &Vec<char>, from: usize, to: usize) -> (r: Option<u64>)
    requires
        from <= to <= s.len(),
    ensures
        r == parse_u64(s@.subrange(from as int, to as int)),
{
    let ghost whole = s@.subrange(from as int, to as int);
    let mut start = from;
    if start < to && s[start] == '+' {
        start = start + 1;
    }
    let ghost d = s@.subrange(start as int, to as int);
    assert(d =~= unsigned_digits(whole));
    if start == to {
        return None;
    }
    let mut v: u64 = 0;
    let mut k = start;
    while k < to
        invariant
            start <= k <= to <= s.len(),
            whole == s@.subrange(from as int, to as int),
            d == s@.subrange(start as int, to as int),
            d == unsigned_digits(whole),
            d.len() > 0,
            v as nat == digits_value(d.take(k - start)),
            forall|i: int| 0 <= i < k - start ==> is_digit(#[trigger] d[i]),
        decreases to - k,
    {
        let c = s[k];
        if !('0' <= c && c <= '9') {
            proof {
                assert(d[k - start] == c);
                assert(!is_digit(d[k - start]));
                assert(!all_digits(d));
            }
            return None;
        }
        let ghost j = k - start;
        proof {
            assert(d.take(j + 1).drop_last() =~= d.take(j));
            assert(d.take(j + 1).last() == c);
        }
        let digit = (c as u32 - 48) as u64;
        match v.checked_mul(10) {
            Some(t) => match t.checked_add(digit) {
                Some(n) => {
                    v = n;
                },
                None => {
                    proof {
                        lemma_digits_value_prefix(d, j + 1);
                    }
                    return None;
                },
            },
            None => {
                proof {
                    lemma_digits_value_prefix(d, j + 1);
                }
                return None;
            },
        }
        k = k + 1;
    }
    assert(d.take(d.len() as int) =~= d);
    Some(v)
}

/// The delay in seconds that a `Retry-After` header value asks for, if it is
/// visible ASCII holding a whole number of seconds.
pub fn parse_retry_after(value: Option<&[u8]>) -> (r: Option<u64>)
    ensures
        r == spec_retry_after(match value {
            Some(v) => Some(v@),
            None => None,
        }),
{
    match value {
        None => None,
        Some(bytes) => {
            let mut cs: Vec<char> = Vec::new();
            let n = bytes.len();
            let mut i: usize = 0;
            while i < n
                invariant
                    i <= n,
                    n == bytes@.len(),
                    value == Some(bytes),
                    cs@ == ascii_chars(bytes@).take(i as int),
                    forall|j: int| 0 <= j < i ==> visible_ascii(#[trigger] bytes@[j]),
                decreases n - i,
            {
                let b = bytes[i];
                if !((32 <= b && b < 127) || b == 9) {
                    assert(!visible_ascii(bytes@[i as int]));
                    return None;
                }
                cs.push(b as char);
                proof {
                    assert(cs@ =~= ascii_chars(bytes@).take(i + 1));
                }
                i = i + 1;
            }
            assert(cs@ =~= ascii_chars(bytes@));
            let (lo, hi) = trim_range(&cs);
            parse_u64_range(&cs, lo, hi)
        },
    }
}

/// What the transport reports to a call.
#[derive(Debug)]
pub enum Event {
    /// A response arrived with status `status`.
    Responded { status: u16 },
    /// A response that was no success was read: its status, the value of its
    /// `Retry-After` header if it has one, and its body (empty if unreadable).
    FailureRead { status: u16, retry_after: Option<Vec<u8>>, body: String },
    /// Connecting failed or the request timed out, as `detail` describes.
    Unreachable { detail: String },
    /// The request failed in another way, as `detail` describes.
    RequestFailed { detail: String },
}

/// The model of an [`Event`].
pub enum EventView {
    Responded { status: u16 },
    FailureRead { status: u16, retry_after: Option<Seq<u8>>, body: Seq<char> },
    Unreachable { detail: Seq<char> },
    RequestFailed { detail: Seq<char> },
}

impl View for Event {
    type V = EventView;

    open spec fn view(&self) -> EventView {
        match self {
            Event::Responded { status } => EventView::Responded { status: *status },
            Event::FailureRead { status, retry_after, body } => EventView::FailureRead {
                status: *status,
                retry_after: match retry_after {
                    Some(v) => Some(v@),
                    None => None,
                },
                body: body@,
            },
            Event::Unreachable { detail } => EventView::Unreachable { detail: detail@ },
            Event::RequestFailed { detail } => EventView::RequestFailed { detail: detail@ },
        }
    }
}

/// What the transport is to do next.
#[derive(Debug)]
pub enum Action {
    /// The response is a success: decode its body as the answer.
    DecodeBody,
    /// The response is no success: read its `Retry-After` header and its
    /// body, and report them as `Event::FailureRead`.
    ReadFailure,
    /// Wait `delay_secs` seconds, then send the request again.
    Retry { delay_secs: u64 },
    /// Give up with this error.
    Fail(Error),
}

/// The model of an [`Action`].
pub enum ActionView {
    DecodeBody,
    ReadFailure,
    Retry { delay_secs: u64 },
    Fail(ErrorView),
}

impl View for Action {
    type V = ActionView;

    open spec fn view(&self) -> ActionView {
        match self {
            Action::DecodeBody => ActionView::DecodeBody,
            Action::ReadFailure => ActionView::ReadFailure,
            Action::Retry { delay_secs } => ActionView::Retry { delay_secs: *delay_secs },
            Action::Fail(e) => ActionView::Fail(e@),
        }
    }
}

/// The model of a call: the retries made so far and the endpoint URL.
pub struct CallView {
    pub attempt: nat,
    pub url: Seq<char>,
}

/// A 2xx status.
pub open spec fn is_success_status(status: u16) -> bool {
    200 <= status <= 299
}

/// Retry after `err` if retries are left, else give up with it.
pub open spec fn retry_or_fail(call: CallView, err: ErrorView, retry_after: Option<u64>) -> (
    CallView,
    ActionView,
) {
    if call.attempt >= MAX_RETRIES {
        (call, ActionView::Fail(err))
    } else {
        (
            CallView { attempt: call.attempt + 1, url: call.url },
            ActionView::Retry {
                delay_secs: spec_backoff_delay(call.attempt as u32, retry_after),
            },
        )
    }
}

/// The error of an unreachable endpoint.
pub open spec fn unreachable_error(url: Seq<char>, detail: Seq<char>) -> ErrorView {
    ErrorView::IoError("System One is not reachable at "@ + url + ": "@ + detail)
}

/// The error of a request that failed otherwise.
pub open spec fn request_error(detail: Seq<char>) -> ErrorView {
    ErrorView::IoError("System One request error: "@ + detail)
}

/// The next state and action of a call in state `call` on `event`: a success
/// is decoded; a failed response is read, then retried when its status is
/// 429 or 529, honouring its `Retry-After` header; an unreachable endpoint is
/// retried; retries stop after `MAX_RETRIES`, with the last error; anything
/// else stops the call at once with its error.
pub open spec fn spec_step(call: CallView, event: EventView) -> (CallView, ActionView) {
    match event {
        EventView::Responded { status } => (
            call,
            if is_success_status(status) {
                ActionView::DecodeBody
            } else {
                ActionView::ReadFailure
            },
        ),
        EventView::FailureRead { status, retry_after, body } => {
            let err = spec_status_error(status, body);
            if spec_is_retryable_status(status) {
                retry_or_fail(call, err, spec_retry_after(retry_after))
            } else {
                (call, ActionView::Fail(err))
            }
        },
        EventView::Unreachable { detail } => retry_or_fail(
            call,
            unreachable_error(call.url, detail),
            None,
        ),
        EventView::RequestFailed { detail } => (call, ActionView::Fail(request_error(detail))),
    }
}

/// An event that the transport can report: statuses are valid HTTP codes.
pub open spec fn valid_event(event: EventView) -> bool {
    match event {
        EventView::Responded { status } => 100 <= status <= 999,
        EventView::FailureRead { status, .. } => 100 <= status <= 999,
        _ => true,
    }
}

/// One call of `POST /v1/systemone`, with its retries.
pub struct SystemOneCall {
    attempt: u32,
    url: String,
}

impl SystemOneCall {
    #[verifier::type_invariant]
    closed spec fn attempts_bounded(&self) -> bool {
        self.attempt <= MAX_RETRIES
    }

    /// The retries made so far and the endpoint URL.
    pub closed spec fn view(&self) -> CallView {
        CallView { attempt: self.attempt as nat, url: self.url@ }
    }

    /// A call to `url` that has not been retried yet.
    pub fn new(url: String) -> (c: SystemOneCall)
        ensures
            c.view() == (CallView { attempt: 0, url: url@ }),
    {
        SystemOneCall { attempt: 0, url }
    }

    /// The endpoint URL.
    pub fn url(&self) -> (r: &str)
        ensures
            r@ == self.view().url,
    {
        self.url.as_str()
    }

    /// The retries made so far.
    pub fn attempt(&self) -> (r: u32)
        ensures
            r == self.view().attempt,
            r <= MAX_RETRIES,
    {
        proof {
            use_type_invariant(self);
        }
        self.attempt
    }

    /// Takes in what the transport reports, and says what to do next.
    pub fn step(&mut self, event: Event) -> (a: Action)
        requires
            valid_event(event@),
        ensures
            (final(self).view(), a@) == spec_step(old(self).view(), event@),
            final(self).view().attempt <= MAX_RETRIES,
    {
        proof {
            use_type_invariant(&*self);
        }
        match event {
            Event::Responded { status } => {
                if 200 <= status && status <= 299 {
                    Action::DecodeBody
                } else {
                    Action::ReadFailure
                }
            },
            Event::FailureRead { status, retry_after, body } => {
                let err = status_error(status, body.as_str());
                if is_retryable_status(status) {
                    let delay = match &retry_after {
                        Some(v) => parse_retry_after(Some(v.as_slice())),
                        None => parse_retry_after(None),
                    };
                    self.retry_or_fail(err, delay)
                } else {
                    Action::Fail(err)
                }
            },
            Event::Unreachable { detail } => {
                let mut m = concat2("System One is not reachable at ", self.url.as_str());
                m.append(": ");
                m.append(detail.as_str());
                proof {
                    assert(m@ =~= "System One is not reachable at "@ + self.url@ + ": "@
                        + detail@);
                }
                self.retry_or_fail(Error::IoError(m), None)
            },
            Event::RequestFailed { detail } => {
                Action::Fail(Error::IoError(concat2("System One request error: ", detail.as_str())))
            },
        }
    }

    fn retry_or_fail(&mut self, err: Error, retry_after: Option<u64>) -> (a: Action)
        ensures
            (final(self).view(), a@) == retry_or_fail(old(self).view(), err@, retry_after),
            final(self).view().attempt <= MAX_RETRIES,
    {
        proof {
            use_type_invariant(&*self);
        }
        if self.attempt >= MAX_RETRIES {
            Action::Fail(err)
        } else {
            let delay = backoff_delay(self.attempt, retry_after);
            self.attempt = self.attempt + 1;
            Action::Retry { delay_secs: delay }
        }
    }
}

/// The error for a success response whose body does not decode.
pub fn decode_error(detail: &str) -> (e: Error)
    ensures
        e@ == ErrorView::IoError("System One response parse error: "@ + detail@),
{
    Error::IoError(concat2("System One response parse error: ", detail))
}

/// The state a call reaches through `events`, and how many retries it makes
/// on the way.
pub open spec fn run_events(call: CallView, events: Seq<EventView>) -> (CallView, nat)
    decreases events.len(),
{
    if events.len() == 0 {
        (call, 0)
    } else {
        let (next, action) = spec_step(call, events[0]);
        let (last, n) = run_events(next, events.drop_first());
        (last, n + if action is Retry {
            1nat
        } else {
            0nat
        })
    }
}

/// No delay between attempts exceeds `MAX_DELAY_SECS`.
pub proof fn lemma_backoff_capped(attempt: u32, retry_after: Option<u64>)
    ensures
        spec_backoff_delay(attempt, retry_after) <= MAX_DELAY_SECS,
{
}

/// Without a server-given delay, later retries never wait less than earlier ones.
pub proof fn lemma_backoff_monotone(a: u32, b: u32)
    requires
        a <= b,
    ensures
        spec_backoff_delay(a, None) <= spec_backoff_delay(b, None),
{
    lemma_pow2_mono(
        min_nat(a as nat, MAX_BACKOFF_EXPONENT as nat),
        min_nat(b as nat, MAX_BACKOFF_EXPONENT as nat),
    );
}

/// Without a server-given delay, each retry waits twice as long as the one
/// before, until the delay reaches `MAX_DELAY_SECS`.
pub proof fn lemma_backoff_doubles(attempt: u32)
    requires
        attempt < MAX_BACKOFF_EXPONENT,
        2 * spec_backoff_delay(attempt, None) <= MAX_DELAY_SECS,
    ensures
        spec_backoff_delay((attempt + 1) as u32, None) == 2 * spec_backoff_delay(attempt, None),
{
}

/// A step retries only while retries are left, and then counts the retry;
/// any other step leaves the call as it was.
pub proof fn lemma_step_attempts(call: CallView, event: EventView)
    requires
        call.attempt <= MAX_RETRIES,
    ensures
        ({
            let (next, action) = spec_step(call, event);
            &&& next.url == call.url
            &&& next.attempt <= MAX_RETRIES
            &&& action is Retry ==> call.attempt < MAX_RETRIES && next.attempt == call.attempt + 1
            &&& !(action is Retry) ==> next == call
        }),
{
}

/// Whatever the transport reports, a call retries at most `MAX_RETRIES`
/// times, so it sends at most `MAX_RETRIES + 1` requests.
pub proof fn lemma_retries_bounded(call: CallView, events: Seq<EventView>)
    requires
        call.attempt <= MAX_RETRIES,
    ensures
        run_events(call, events).1 <= MAX_RETRIES - call.attempt,
        run_events(call, events).0.attempt == call.attempt + run_events(call, events).1,
    decreases events.len(),
{
    if events.len() > 0 {
        lemma_step_attempts(call, events[0]);
        lemma_retries_bounded(spec_step(call, events[0]).0, events.drop_first());
    }
}

/// A success response is decoded, and the call goes on as it was.
pub proof fn lemma_success_is_decoded(call: CallView, status: u16)
    requires
        200 <= status <= 299,
    ensures
        spec_step(call, EventView::Responded { status }) == (call, ActionView::DecodeBody),
{
}

/// Only a 2xx response is decoded: any other response is read as a failure
/// first, and the call goes on as it was.
pub proof fn lemma_failure_is_read(call: CallView, status: u16)
    requires
        !(200 <= status <= 299),
    ensures
        spec_step(call, EventView::Responded { status }) == (call, ActionView::ReadFailure),
{
}

/// `n` zero digits.
pub open spec fn zeros(n: nat) -> Seq<char> {
    Seq::new(n, |i: int| '0')
}

proof fn lemma_decimal_digits(n: nat)
    ensures
        decimal(n).len() > 0,
        all_digits(decimal(n)),
        digits_value(decimal(n)) == n,
    decreases n,
{
    if n >= 10 {
        lemma_decimal_digits(n / 10);
        let d = decimal(n);
        assert(d.drop_last() =~= decimal(n / 10));
        assert(d.last() == digit_char(n % 10));
        assert((digit_char(n % 10) as int) == 48 + n % 10);
        assert(n == (n / 10) * 10 + n % 10);
        assert(digits_value(d) == digits_value(d.drop_last()) * 10 + ((d.last() as int) - 48) as nat);
        assert(digits_value(d) == n);
        assert forall|i: int| 0 <= i < d.len() implies is_digit(#[trigger] d[i]) by {
            if i < d.len() - 1 {
                assert(d[i] == decimal(n / 10)[i]);
            }
        }
    } else {
        assert(decimal(n)[0] == digit_char(n));
        assert((digit_char(n) as int) == 48 + n);
        let d = decimal(n);
        assert(d.drop_last() =~= Seq::<char>::empty());
        assert(digits_value(d.drop_last()) == 0);
        assert(digits_value(d) == digits_value(d.drop_last()) * 10 + ((d.last() as int) - 48) as nat);
        assert(is_digit(d[0]));
        assert(all_digits(d));
    }
}

proof fn lemma_zeros_value(z: nat, d: Seq<char>)
    ensures
        digits_value(zeros(z) + d) == digits_value(d),
    decreases d.len() + z,
{
    if d.len() > 0 {
        lemma_zeros_value(z, d.drop_last());
        assert((zeros(z) + d).drop_last() =~= zeros(z) + d.drop_last());
        assert((zeros(z) + d).last() == d.last());
    } else if z > 0 {
        lemma_zeros_value((z - 1) as nat, d);
        assert((zeros(z) + d).drop_last() =~= zeros((z - 1) as nat) + d);
        assert((zeros(z) + d).last() == '0');
    } else {
        assert(zeros(z) + d =~= Seq::<char>::empty());
    }
}

proof fn lemma_zeros_decimal(z: nat, n: nat)
    ensures
        (zeros(z) + decimal(n)).len() > 0,
        all_digits(zeros(z) + decimal(n)),
        digits_value(zeros(z) + decimal(n)) == n,
        (zeros(z) + decimal(n))[0] != '+',
{
    lemma_decimal_digits(n);
    lemma_zeros_value(z, decimal(n));
    let s = zeros(z) + decimal(n);
    assert forall|i: int| 0 <= i < s.len() implies is_digit(#[trigger] s[i]) by {
        if i >= z {
            assert(s[i] == decimal(n)[i - z]);
        }
    }
    assert(is_digit(s[0]));
}

/// A number written in decimal, after any number of leading zeros and an
/// optional `+`, reads back as itself when it fits in 64 bits, and as nothing
/// when it does not (as `u64::from_str` reads it).
pub proof fn lemma_parse_u64_reads_decimal(z: nat, n: nat)
    ensures
        n <= u64::MAX ==> parse_u64(zeros(z) + decimal(n)) == Some(n as u64),
        n <= u64::MAX ==> parse_u64(seq!['+'] + zeros(z) + decimal(n)) == Some(n as u64),
        n > u64::MAX ==> parse_u64(zeros(z) + decimal(n)) is None,
        n > u64::MAX ==> parse_u64(seq!['+'] + zeros(z) + decimal(n)) is None,
{
    lemma_zeros_decimal(z, n);
    let s = zeros(z) + decimal(n);
    assert(unsigned_digits(s) == s);
    assert((seq!['+'] + s)[0] == '+');
    assert(unsigned_digits(seq!['+'] + s) =~= s);
    assert(seq!['+'] + zeros(z) + decimal(n) =~= seq!['+'] + s);
}

/// A `Retry-After` value that is a number of seconds, written in decimal with
/// optional spaces around it, is the delay asked for.
pub proof fn lemma_retry_after_reads_seconds(v: Seq<u8>, spaces_before: nat, spaces_after: nat, n: u64)
    requires
        ascii_chars(v) == Seq::new(spaces_before, |i: int| ' ') + decimal(n as nat) + Seq::new(
            spaces_after,
            |i: int| ' ',
        ),
    ensures
        spec_retry_after(Some(v)) == Some(n),
{
    lemma_decimal_digits(n as nat);
    let d = decimal(n as nat);
    let pre = Seq::new(spaces_before, |i: int| ' ');
    let post = Seq::new(spaces_after, |i: int| ' ');
    let c = ascii_chars(v);
    assert(c.len() == v.len());
    assert forall|i: int| 0 <= i < v.len() implies visible_ascii(#[trigger] v[i]) by {
        assert(c[i] == v[i] as char);
        if i < spaces_before {
            assert(c[i] == ' ');
        } else if i < spaces_before + d.len() {
            assert(c[i] == d[i - spaces_before]);
            assert(is_digit(d[i - spaces_before]));
        } else {
            assert(c[i] == post[i - spaces_before - d.len()]);
        }
    }
    lemma_trim_spaces(pre, d, post);
    assert(pre + d + post == c);
    assert(zeros(0) + d =~= d);
    lemma_parse_u64_reads_decimal(0, n as nat);
}

proof fn lemma_trim_spaces(pre: Seq<char>, d: Seq<char>, post: Seq<char>)
    requires
        forall|i: int| 0 <= i < pre.len() ==> #[trigger] pre[i] == ' ',
        forall|i: int| 0 <= i < post.len() ==> #[trigger] post[i] == ' ',
        d.len() > 0,
        all_digits(d),
    ensures
        trim(pre + d + post) == d,
    decreases pre.len() + post.len(),
{
    if pre.len() > 0 {
        let s = pre + d + post;
        assert(s[0] == ' ');
        assert(s.drop_first() =~= pre.drop_first() + d + post);
        lemma_trim_spaces(pre.drop_first(), d, post);
    } else if post.len() > 0 {
        let s = pre + d + post;
        assert(s[0] == d[0]);
        assert(is_digit(d[0]));
        assert(trim_start(s) == s);
        assert(s.last() == ' ');
        assert(s.drop_last() =~= pre + d + post.drop_last());
        lemma_trim_spaces(pre, d, post.drop_last());
        let t = pre + d + post.drop_last();
        assert(t[0] == d[0]);
        assert(trim_start(t) == t);
    } else {
        let s = pre + d + post;
        assert(s =~= d);
        assert(is_digit(d[0]));
        assert(is_digit(d[d.len() - 1]));
        assert(trim_start(d) == d);
        assert(trim_end(d) == d);
    }
}

/// A rate limit or overload with retries left is retried after the delay the
/// server asks for (capped at `MAX_DELAY_SECS`), or after the exponential
/// delay when it asks for none.
pub proof fn lemma_overload_is_retried(
    call: CallView,
    status: u16,
    retry_after: Option<Seq<u8>>,
    body: Seq<char>,
)
    requires
        status == 429 || status == 529,
        call.attempt < MAX_RETRIES,
    ensures
        spec_step(call, EventView::FailureRead { status, retry_after, body }) == (
            CallView { attempt: call.attempt + 1, url: call.url },
            ActionView::Retry {
                delay_secs: match spec_retry_after(retry_after) {
                    Some(s) => min_nat(s as nat, MAX_DELAY_SECS as nat) as u64,
                    None => spec_backoff_delay(call.attempt as u32, None),
                },
            },
        ),
{
}

/// When the retries are used up, the last error is reported.
pub proof fn lemma_exhausted_fails(call: CallView, event: EventView)
    requires
        call.attempt == MAX_RETRIES,
    ensures
        !(spec_step(call, event).1 is Retry),
{
}

/// A rejected API key (401) is a configuration error, at once.
pub proof fn lemma_rejected_key_is_config_error(
    call: CallView,
    retry_after: Option<Seq<u8>>,
    body: Seq<char>,
)
    ensures
        spec_step(call, EventView::FailureRead { status: 401, retry_after, body }) == (
            call,
            ActionView::Fail(
                ErrorView::InvalidConfig(
                    "TypeSafe API key was rejected (401 Unauthorized)"@ + body_detail(body),
                ),
            ),
        ),
{
}

/// An invalid request (422) is a value error, at once, carrying the API's
/// message: the trimmed body, cut to `MAX_BODY_CHARS` characters.
pub proof fn lemma_invalid_request_is_value_error(
    call: CallView,
    retry_after: Option<Seq<u8>>,
    body: Seq<char>,
)
    requires
        trim(body).len() > 0,
    ensures
        spec_step(call, EventView::FailureRead { status: 422, retry_after, body }) == (
            call,
            ActionView::Fail(
                ErrorView::InvalidValue(
                    "System One rejected the request (422 Unprocessable Entity)"@ + seq![':', ' ']
                        + truncated(trim(body), MAX_BODY_CHARS as nat),
                ),
            ),
        ),
{
    let p = "System One rejected the request (422 Unprocessable Entity)"@;
    let t = truncated(trim(body), MAX_BODY_CHARS as nat);
    assert(p + body_detail(body) =~= p + seq![':', ' '] + t);
}

/// Any status other than 429 and 529 ends the call at once with its error.
pub proof fn lemma_other_failures_are_final(
    call: CallView,
    status: u16,
    retry_after: Option<Seq<u8>>,
    body: Seq<char>,
)
    requires
        !spec_is_retryable_status(status),
    ensures
        spec_step(call, EventView::FailureRead { status, retry_after, body }) == (
            call,
            ActionView::Fail(spec_status_error(status, body)),
        ),
{
}

/// Connection failures and timeouts are retried like overloads, with the
/// exponential delay.
pub proof fn lemma_unreachable_is_retried(call: CallView, detail: Seq<char>)
    requires
        call.attempt < MAX_RETRIES,
    ensures
        spec_step(call, EventView::Unreachable { detail }) == (
            CallView { attempt: call.attempt + 1, url: call.url },
            ActionView::Retry { delay_secs: spec_backoff_delay(call.attempt as u32, None) },
        ),
{
}

} // verus!
