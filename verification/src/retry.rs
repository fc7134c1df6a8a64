//! Repeating calls of the model that failed for a passing reason.
use crate::text::{
    self, contains_str, find_chars, leading_whitespace, sub_chars, to_chars, to_lower,
};
use vstd::prelude::*;

verus! {

/// How often a call is repeated, unless something else is said.
pub const DEFAULT_MAX_RETRIES: u32 = 3;

/// Number of digits at the beginning of a text.
pub open spec fn digit_run(s: Seq<char>) -> int
    decreases s.len(),
{
    if s.len() == 0 || !text::is_digit(s[0]) {
        0
    } else {
        1 + digit_run(s.skip(1))
    }
}

/// The digits that follow the first word `status` of a message, after the
/// whitespace between them.
pub open spec fn status_digits(msg: Seq<char>) -> Option<Seq<char>> {
    match text::find_from(msg, "status"@, 0) {
        None => None,
        Some(i) => {
            let after = text::trim_start(msg.skip(i + 6));
            Some(after.take(digit_run(after)))
        },
    }
}

/// The status code in a message: three digits after the first word `status`.
pub open spec fn status_code(msg: Seq<char>) -> Option<nat> {
    match status_digits(msg) {
        Some(d) => if d.len() == 3 {
            Some(text::digits_value(d))
        } else {
            None
        },
        None => None,
    }
}

/// The value of three digits.
proof fn lemma_three_digits(d: Seq<char>)
    requires
        d.len() == 3,
        forall|i: int| 0 <= i < 3 ==> text::is_digit(#[trigger] d[i]),
    ensures
        text::digits_value(d) == (d[0] as nat - 48) * 100 + (d[1] as nat - 48) * 10 + (d[2] as nat
            - 48),
{
    let d2 = d.drop_last();
    let d1 = d2.drop_last();
    let d0 = d1.drop_last();
    assert(text::is_digit(d[0]) && text::is_digit(d[1]) && text::is_digit(d[2]));
    assert(d2.last() == d[1] && d1.last() == d[0]);
    assert(text::digits_value(d0) == 0);
    assert(text::digits_value(d1) == text::digits_value(d0) * 10 + (d[0] as nat - 48));
    assert(text::digits_value(d2) == text::digits_value(d1) * 10 + (d[1] as nat - 48));
    assert(text::digits_value(d) == text::digits_value(d2) * 10 + (d[2] as nat - 48));
}

/// The status code in a message.
pub fn extract_status_code(msg: &str) -> (r: Option<u16>)
    ensures
        match r {
            Some(c) => status_code(msg@) == Some(c as nat),
            None => status_code(msg@) is None,
        },
{
    let v = to_chars(msg);
    let word = to_chars("status");
    proof {
        reveal_strlit("status");
    }
    let at = match find_chars(&v, &word, 0) {
        None => {
            return None;
        },
        Some(i) => i,
    };
    let len: usize = v.len();
    let tail = sub_chars(&v, at + 6, len);
    assert(tail@ =~= msg@.skip(at + 6));
    let n = leading_whitespace(&tail);
    let ghost after = text::trim_start(tail@);
    let mut k: usize = n;
    assert(after.skip(0) =~= after);
    while k < tail.len() && tail[k] >= '0' && tail[k] <= '9'
        invariant
            n <= k <= tail@.len(),
            after == tail@.skip(n as int),
            digit_run(after) == (k - n) + digit_run(after.skip(k - n)),
            forall|i: int| 0 <= i < k - n ==> text::is_digit(#[trigger] after[i]),
        decreases tail@.len() - k,
    {
        assert(after.skip(k - n)[0] == tail@[k as int]);
        assert(after.skip(k - n).skip(1) =~= after.skip(k - n + 1));
        assert(after[k - n] == tail@[k as int]);
        k += 1;
    }
    assert(k < tail@.len() ==> after.skip(k - n)[0] == tail@[k as int]);
    assert(digit_run(after.skip(k - n)) == 0);
    assert(status_digits(msg@) == Some(after.take(k - n)));
    if k - n != 3 {
        return None;
    }
    proof {
        let d = after.take(3);
        assert(d[0] == tail@[n as int] && d[1] == tail@[n + 1] && d[2] == tail@[n + 2]);
        assert forall|i: int| 0 <= i < 3 implies text::is_digit(#[trigger] d[i]) by {
            assert(d[i] == after[i]);
        }
        lemma_three_digits(d);
        assert(text::is_digit(d[0]) && text::is_digit(d[1]) && text::is_digit(d[2]));
    }
    let a: u16 = (tail[n] as u32 - 48) as u16;
    let b: u16 = (tail[n + 1] as u32 - 48) as u16;
    let c: u16 = (tail[n + 2] as u32 - 48) as u16;
    Some(a * 100 + b * 10 + c)
}

/// Whether a message in lower case speaks of the network.
pub open spec fn of_network(lower: Seq<char>) -> bool {
    ||| text::contains(lower, "http request failed"@)
    ||| text::contains(lower, "timeout"@)
    ||| text::contains(lower, "connection"@)
    ||| text::contains(lower, "dns"@)
}

/// Whether a status code says that the service refused a request for what it
/// holds.
pub open spec fn refused(code: nat) -> bool {
    400 <= code < 500 && code != 429
}

/// Whether a failure may pass, given its message in lower case. A request that
/// was refused for what it holds stays refused, whatever else the message says.
/// Too many requests, what went wrong in the service, and a failure of the
/// network may pass.
pub open spec fn transient(lower: Seq<char>) -> bool {
    match status_code(lower) {
        Some(c) => !refused(c) && (c == 429 || 500 <= c < 600 || of_network(lower)),
        None => of_network(lower),
    }
}

/// Whether a failure may pass, given its message in lower case.
pub fn is_transient(lower: &str) -> (r: bool)
    ensures
        r == transient(lower@),
{
    if let Some(c) = extract_status_code(lower) {
        if c == 429 || (c >= 500 && c < 600) {
            return true;
        }
        if c >= 400 && c < 500 {
            return false;
        }
    }
    contains_str(lower, "http request failed") || contains_str(lower, "timeout") || contains_str(
        lower,
        "connection",
    ) || contains_str(lower, "dns")
}

/// A request that the service refuses for what it holds is never repeated,
/// whatever words the message holds.
pub proof fn law_refused_requests_are_not_repeated(lower: Seq<char>, made: nat, limit: nat)
    requires
        status_code(lower) matches Some(c) && refused(c),
    ensures
        !repeated(transient(lower), made, limit),
{
}

/// Whether a failure may pass, given its message.
pub fn is_retryable(err: &str) -> (r: bool)
    ensures
        r == transient(text::lowercase(err@)),
{
    let lower = to_lower(err);
    is_transient(&lower)
}

/// Whether a call that failed is repeated, given whether the failure may pass,
/// how often the call has been repeated, and how often it is at most.
pub open spec fn repeated(retryable: bool, made: nat, limit: nat) -> bool {
    retryable && made < limit
}

/// How often calls are repeated.
#[derive(Debug, Clone, Copy)]
pub struct RetryMiddleware {
    max_retries: u32,
}

/// The repetitions of one call.
#[derive(Debug, Clone, Copy)]
pub struct RetryRun {
    attempt: u32,
    max_retries: u32,
}

impl RetryMiddleware {
    /// How often a call is repeated at most, not counting the first time.
    pub closed spec fn limit(&self) -> nat {
        self.max_retries as nat
    }

    /// Repeats a call at most so many times.
    pub fn new(max_retries: u32) -> (r: Self)
        ensures
            r.limit() == max_retries,
    {
        RetryMiddleware { max_retries }
    }

    /// Repeats a call at most three times.
    pub fn with_default_retries() -> (r: Self)
        ensures
            r.limit() == 3,
    {
        Self::new(DEFAULT_MAX_RETRIES)
    }

    /// The beginning of a call.
    pub fn begin(&self) -> (r: RetryRun)
        ensures
            r.made() == 0,
            r.limit() == self.limit(),
    {
        RetryRun { attempt: 0, max_retries: self.max_retries }
    }
}

impl RetryRun {
    /// How often the call has been repeated.
    pub closed spec fn made(&self) -> nat {
        self.attempt as nat
    }

    /// How often the call is repeated at most.
    pub closed spec fn limit(&self) -> nat {
        self.max_retries as nat
    }

    /// How often the call has been repeated.
    pub fn attempts(&self) -> (r: u32)
        ensures
            r == self.made(),
    {
        self.attempt
    }

    /// Whether the call is repeated after a failure, given whether the failure
    /// may pass.
    pub fn retry_if(&mut self, retryable: bool) -> (again: bool)
        requires
            old(self).made() <= old(self).limit(),
        ensures
            again == repeated(retryable, old(self).made(), old(self).limit()),
            final(self).made() == old(self).made() + (if again {
                1nat
            } else {
                0nat
            }),
            final(self).limit() == old(self).limit(),
            final(self).made() <= final(self).limit(),
    {
        if !retryable || self.attempt >= self.max_retries {
            return false;
        }
        self.attempt = self.attempt + 1;
        true
    }

    /// Whether the call is repeated after a failure: if the failure may pass, and
    /// as long as there are repetitions left.
    pub fn on_failure(&mut self, err: &str) -> (again: bool)
        requires
            old(self).made() <= old(self).limit(),
        ensures
            again == repeated(
                transient(text::lowercase(err@)),
                old(self).made(),
                old(self).limit(),
            ),
            final(self).made() == old(self).made() + (if again {
                1nat
            } else {
                0nat
            }),
            final(self).limit() == old(self).limit(),
            final(self).made() <= final(self).limit(),
    {
        let retryable = is_retryable(err);
        self.retry_if(retryable)
    }
}

/// How often a call is made from here on, after it has been repeated `made`
/// times, given whether each of the failures to come may pass, in order; after
/// these failures the call succeeds.
pub open spec fn calls_made(failures: Seq<bool>, made: nat, limit: nat) -> nat
    decreases failures.len(),
{
    if failures.len() == 0 || !repeated(failures[0], made, limit) {
        1
    } else {
        1 + calls_made(failures.skip(1), made + 1, limit)
    }
}

/// A call is made at most once more than the limit of repetitions, and only
/// once where its first failure does not pass. Where every failure may pass, it
/// is made until it succeeds or the limit is reached.
pub proof fn law_calls_are_bounded(failures: Seq<bool>, limit: nat)
    ensures
        1 <= calls_made(failures, 0, limit) <= limit + 1,
        failures.len() > 0 && !failures[0] ==> calls_made(failures, 0, limit) == 1,
        (forall|i: int| 0 <= i < failures.len() ==> #[trigger] failures[i]) ==> calls_made(
            failures,
            0,
            limit,
        ) == 1 + (if failures.len() <= limit {
            failures.len()
        } else {
            limit
        }),
{
    lemma_calls_made(failures, 0, limit);
}

proof fn lemma_calls_made(failures: Seq<bool>, made: nat, limit: nat)
    requires
        made <= limit,
    ensures
        1 <= calls_made(failures, made, limit) <= limit - made + 1,
        (forall|i: int| 0 <= i < failures.len() ==> #[trigger] failures[i]) ==> calls_made(
            failures,
            made,
            limit,
        ) == 1 + (if failures.len() <= limit - made {
            failures.len() as int
        } else {
            limit - made
        }),
    decreases failures.len(),
{
    if failures.len() > 0 && repeated(failures[0], made, limit) {
        let rest = failures.skip(1);
        lemma_calls_made(rest, made + 1, limit);
        if forall|i: int| 0 <= i < failures.len() ==> #[trigger] failures[i] {
            assert forall|i: int| 0 <= i < rest.len() implies #[trigger] rest[i] by {
                assert(failures[i + 1]);
            }
        }
    }
}

/// What is done with an item of a stream.
#[derive(Debug, Clone, Copy, PartialEq, Eq)]
pub enum StreamStep {
    /// It is passed on.
    Forward,
    /// The stream is opened anew.
    Reopen,
    /// It is passed on, and the stream ends.
    ForwardAndEnd,
    /// The stream ends.
    End,
}

/// The repetitions of a streamed call: only before its first item came through
/// is it repeated.
#[derive(Debug, Clone, Copy)]
pub struct StreamRetry {
    run: RetryRun,
    started: bool,
}

impl StreamRetry {
    /// The repetitions so far.
    pub closed spec fn run(&self) -> RetryRun {
        self.run
    }

    /// Whether an item came through.
    pub closed spec fn started(&self) -> bool {
        self.started
    }

    /// The beginning of a streamed call.
    pub fn new(mw: &RetryMiddleware) -> (r: Self)
        ensures
            r.run().made() == 0,
            r.run().limit() == mw.limit(),
            !r.started(),
    {
        StreamRetry { run: mw.begin(), started: false }
    }

    /// What is done with the next item of the stream: a text, a failure, given
    /// whether it may pass, or the end.
    pub fn next_if(&mut self, item: Option<Result<(), bool>>) -> (r: StreamStep)
        requires
            old(self).run().made() <= old(self).run().limit(),
        ensures
            r == (match item {
                None => StreamStep::End,
                Some(Ok(_)) => StreamStep::Forward,
                Some(Err(retryable)) => if old(self).started() {
                    StreamStep::Forward
                } else if repeated(
                    retryable,
                    old(self).run().made(),
                    old(self).run().limit(),
                ) {
                    StreamStep::Reopen
                } else {
                    StreamStep::ForwardAndEnd
                },
            }),
            final(self).started() == (old(self).started() || item matches Some(Ok(_))),
            final(self).run().made() == old(self).run().made() + (if r == StreamStep::Reopen {
                1nat
            } else {
                0nat
            }),
            final(self).run().limit() == old(self).run().limit(),
            final(self).run().made() <= final(self).run().limit(),
    {
        match item {
            None => StreamStep::End,
            Some(Ok(_)) => {
                self.started = true;
                StreamStep::Forward
            },
            Some(Err(retryable)) => {
                if self.started {
                    StreamStep::Forward
                } else if self.run.retry_if(retryable) {
                    StreamStep::Reopen
                } else {
                    StreamStep::ForwardAndEnd
                }
            },
        }
    }
}

/// Whether a text begins with a digit.
pub open spec fn digit_first(s: Seq<char>) -> bool {
    s.len() > 0 && '0' <= s[0] <= '9'
}

proof fn lemma_digit_run(d: Seq<char>, rest: Seq<char>)
    requires
        forall|i: int| 0 <= i < d.len() ==> '0' <= #[trigger] d[i] <= '9',
        !digit_first(rest),
    ensures
        digit_run(d + rest) == d.len(),
    decreases d.len(),
{
    if d.len() == 0 {
        assert(d + rest =~= rest);
    } else {
        let u = d.skip(1);
        assert forall|i: int| 0 <= i < u.len() implies '0' <= #[trigger] u[i] <= '9' by {
            assert(u[i] == d[i + 1]);
        }
        lemma_digit_run(u, rest);
        assert((d + rest).skip(1) =~= u + rest);
        assert('0' <= d[0] <= '9');
    }
}

/// The status code of a message is the number of three digits after the word
/// `status` and a space, where that word stands for the first time.
pub proof fn law_status_codes_are_read(
    s: Seq<char>,
    before: Seq<char>,
    d: Seq<char>,
    after: Seq<char>,
)
    requires
        s == before + "status "@ + d + after,
        d.len() == 3,
        forall|i: int| 0 <= i < 3 ==> '0' <= #[trigger] d[i] <= '9',
        !digit_first(after),
        forall|i: int| 0 <= i < before.len() ==> !#[trigger] text::matches_at(s, "status"@, i),
    ensures
        status_code(s) == Some(
            (100 * (d[0] as nat - '0' as nat) + 10 * (d[1] as nat - '0' as nat) + (d[2] as nat
                - '0' as nat)) as nat,
        ),
{
    reveal_strlit("status ");
    reveal_strlit("status");
    let n = before.len() as int;
    assert(s.subrange(n, n + 6) =~= "status"@);
    assert(text::matches_at(s, "status"@, n));
    text::lemma_find_from(s, "status"@, 0);
    assert(text::find_from(s, "status"@, 0) == Some(n));
    let tail = s.skip(n + 6);
    assert(tail[0] == ' ');
    let rest = d + after;
    assert(tail.skip(1) =~= rest);
    assert(rest[0] == d[0]);
    assert(!text::is_whitespace(rest[0]));
    assert(text::trim_start(rest) == rest);
    assert(text::trim_start(tail) == rest);
    lemma_digit_run(d, after);
    assert(rest.take(3) =~= d);
    assert forall|i: int| 0 <= i < 3 implies text::is_digit(#[trigger] d[i]) by {}
    lemma_three_digits(d);
}

/// Which failures are met with another try: too many requests and what went wrong
/// in the service always; what was refused for what it holds never; and anything
/// else where its message speaks of the network.
pub proof fn law_passing_failures_are_repeated(lower: Seq<char>, made: nat, limit: nat)
    ensures
        ({
            let again = repeated(transient(lower), made, limit);
            let network = (exists|i: int| text::matches_at(lower, "http request failed"@, i)) || (exists|i: int|
                text::matches_at(lower, "timeout"@, i)) || (exists|i: int|
                text::matches_at(lower, "connection"@, i)) || (exists|i: int|
                text::matches_at(lower, "dns"@, i));
            &&& made >= limit ==> !again
            &&& made < limit ==> match status_code(lower) {
                Some(code) => {
                    &&& code == 429 || 500 <= code <= 599 ==> again
                    &&& 400 <= code <= 499 && code != 429 ==> !again
                    &&& code < 400 || code > 599 ==> again == network
                },
                None => again == network,
            }
        }),
{
}

} // verus!
