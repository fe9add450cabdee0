//! Retry decisions of the rate-limited provider client.
//!
//! The provider signals throttling with a marker string in the response
//! body, sometimes under HTTP 200, so the client inspects the full body
//! text.  A throttled request is retried with an exponentially doubling
//! backoff up to a fixed attempt count; any other body goes to the parser,
//! and a parse failure is never retried.  The I/O loop around these
//! decisions (send, sleep, re-acquire a permit) lives outside the crate and
//! feeds each response body back in.

use vstd::prelude::*;
use vstd::string::StringSliceAdditionalSpecFns;

verus! {

/// How one acquisition can fail.
#[derive(Debug)]
pub enum FetchError {
    /// Network or connection failure; not retried by the client.
    Transport(String),
    /// Retries exhausted against a provider that kept throttling.
    RateLimitExhausted { attempts: u32 },
    /// The body did not match the expected shape; carries the raw body.
    /// Never retried: a schema mismatch does not heal.
    Parse(String),
    /// A well-formed but empty result set: a definitive "not found".
    MissingData,
}

/// `needle` occurs in `hay` starting at position `i`.
pub open spec fn bytes_match_at(hay: Seq<u8>, needle: Seq<u8>, i: int) -> bool {
    0 <= i && i + needle.len() <= hay.len() && hay.subrange(i, i + needle.len()) == needle
}

/// `needle` occurs somewhere in `hay`.
pub open spec fn contains_bytes(hay: Seq<u8>, needle: Seq<u8>) -> bool {
    exists|i: int| bytes_match_at(hay, needle, i)
}

/// Whether `needle` occurs as a contiguous run inside `hay`.
fn contains_subslice(hay: &[u8], needle: &[u8]) -> (r: bool)
    ensures
        r == contains_bytes(hay@, needle@),
{
    let nh = hay.len();
    let nn = needle.len();
    if nn > nh {
        proof {
            assert forall|i: int| !bytes_match_at(hay@, needle@, i) by {}
        }
        return false;
    }
    if nn == 0 {
        proof {
            assert(hay@.subrange(0, 0) =~= needle@);
            assert(bytes_match_at(hay@, needle@, 0));
        }
        return true;
    }
    let mut i: usize = 0;
    while i <= nh - nn
        invariant
            1 <= nn <= nh,
            nh == hay@.len(),
            nn == needle@.len(),
            0 <= i <= nh - nn + 1,
            forall|k: int| 0 <= k < i ==> !bytes_match_at(hay@, needle@, k),
        decreases nh - nn + 1 - i,
    {
        let mut j: usize = 0;
        let mut mismatch = false;
        while j < nn
            invariant
                1 <= nn <= nh,
                nh == hay@.len(),
                nn == needle@.len(),
                0 <= i <= nh - nn,
                0 <= j <= nn,
                !mismatch ==> forall|k: int| 0 <= k < j ==> hay@[i + k] == needle@[k],
                mismatch ==> !bytes_match_at(hay@, needle@, i as int),
            decreases nn - j,
        {
            if hay[i + j] != needle[j] {
                proof {
                    if bytes_match_at(hay@, needle@, i as int) {
                        assert(hay@.subrange(i as int, i + nn as int)[j as int] == needle@[
                        j as int]);
                    }
                }
                mismatch = true;
                j = nn;
            } else {
                j += 1;
            }
        }
        if !mismatch {
            proof {
                assert(hay@.subrange(i as int, i + nn as int) =~= needle@);
                assert(bytes_match_at(hay@, needle@, i as int));
            }
            return true;
        }
        i += 1;
    }
    proof {
        assert forall|k: int| !bytes_match_at(hay@, needle@, k) by {
            if 0 <= k <= nh - nn {
            }
        }
    }
    false
}

/// The marker the provider puts in a throttled response body.
pub fn rate_limit_marker() -> (m: &'static str)
    ensures
        m@ == "Limit Reach"@,
{
    "Limit Reach"
}

/// Whether a response body signals rate limiting: the provider's marker
/// occurs in the body text (compared byte for byte).
pub fn body_signals_rate_limit(body: &str, marker: &str) -> (r: bool)
    ensures
        r == contains_bytes(body.spec_bytes(), marker.spec_bytes()),
{
    contains_subslice(body.as_bytes(), marker.as_bytes())
}

/// `2 ^ n`.
pub open spec fn pow2(n: nat) -> nat
    decreases n,
{
    if n == 0 {
        1nat
    } else {
        2 * pow2((n - 1) as nat)
    }
}

proof fn lemma_pow2_monotone(a: nat, b: nat)
    requires
        a <= b,
    ensures
        pow2(a) <= pow2(b),
    decreases b,
{
    if a < b {
        lemma_pow2_monotone(a, (b - 1) as nat);
    }
}

proof fn lemma_pow2_30()
    ensures
        pow2(30) == 0x4000_0000,
{
    reveal_with_fuel(pow2, 32);
}

/// Retry tuning: how many attempts a request gets and the first backoff.
#[derive(Clone, Copy, PartialEq, Eq, Structural, Debug)]
pub struct RetryPolicy {
    pub max_attempts: u32,
    pub initial_delay_ms: u64,
}

/// Bounds under which the doubling backoff cannot overflow.
pub open spec fn policy_wf(p: RetryPolicy) -> bool {
    1 <= p.max_attempts <= 30 && 1 <= p.initial_delay_ms <= 1_000_000_000
}

impl RetryPolicy {
    /// A policy with the given bounds.
    pub fn new(max_attempts: u32, initial_delay_ms: u64) -> (p: RetryPolicy)
        requires
            1 <= max_attempts <= 30,
            1 <= initial_delay_ms <= 1_000_000_000,
        ensures
            p.max_attempts == max_attempts,
            p.initial_delay_ms == initial_delay_ms,
            policy_wf(p),
    {
        RetryPolicy { max_attempts, initial_delay_ms }
    }

    /// The provider defaults: three attempts, first backoff five seconds.
    pub fn provider_default() -> (p: RetryPolicy)
        ensures
            p.max_attempts == 3,
            p.initial_delay_ms == 5000,
            policy_wf(p),
    {
        RetryPolicy { max_attempts: 3, initial_delay_ms: 5000 }
    }
}

/// Per-request transient state: requests completed so far and the backoff
/// that the next throttled response would incur.  Discarded once the
/// request resolves or exhausts its attempts.
#[derive(Clone, Copy, PartialEq, Eq, Structural, Debug)]
pub struct RetryState {
    pub attempts_made: u32,
    pub delay_ms: u64,
}

/// The state a run under `p` can actually reach: the backoff has doubled
/// once per completed attempt.
pub open spec fn state_wf(st: RetryState, p: RetryPolicy) -> bool {
    st.attempts_made <= p.max_attempts && st.delay_ms == p.initial_delay_ms * pow2(
        st.attempts_made as nat,
    )
}

/// The state before the first attempt.
pub fn fresh_state(policy: &RetryPolicy) -> (st: RetryState)
    requires
        policy_wf(*policy),
    ensures
        st.attempts_made == 0,
        st.delay_ms == policy.initial_delay_ms,
        state_wf(st, *policy),
{
    proof {
        assert(pow2(0) == 1);
    }
    RetryState { attempts_made: 0, delay_ms: policy.initial_delay_ms }
}

/// What to do with a response body.
#[derive(Debug)]
pub enum BodyDecision {
    /// Throttled: sleep this long, then reissue the request (acquiring a
    /// fresh permit).
    RetryAfter { delay_ms: u64 },
    /// Throttled and out of attempts.
    Fail { error: FetchError },
    /// Not throttled: hand the body to the parser.
    Deserialize,
}

/// Decision after a throttled response in state `st`: retry with the
/// current backoff while attempts remain, otherwise give up.
pub open spec fn limited_decision(p: RetryPolicy, st: RetryState) -> BodyDecision {
    if st.attempts_made + 1 < p.max_attempts {
        BodyDecision::RetryAfter { delay_ms: st.delay_ms }
    } else {
        BodyDecision::Fail {
            error: FetchError::RateLimitExhausted { attempts: p.max_attempts },
        }
    }
}

/// Decide what to do with the body of a completed request, updating the
/// retry state.  A body without the marker is handed to the parser and the
/// state is untouched; a throttled body either schedules a retry after the
/// current backoff (doubling it for next time) or, when this attempt was
/// the last one allowed, fails with `RateLimitExhausted`.
pub fn on_body_received(
    policy: &RetryPolicy,
    state: &mut RetryState,
    body: &str,
    marker: &str,
) -> (d: BodyDecision)
    requires
        policy_wf(*policy),
        state_wf(*old(state), *policy),
    ensures
        state_wf(*final(state), *policy),
        !contains_bytes(body.spec_bytes(), marker.spec_bytes()) ==> d == BodyDecision::Deserialize
            && *final(state) == *old(state),
        contains_bytes(body.spec_bytes(), marker.spec_bytes()) ==> d == limited_decision(
            *policy,
            *old(state),
        ),
        contains_bytes(body.spec_bytes(), marker.spec_bytes()) && old(state).attempts_made + 1
            < policy.max_attempts ==> final(state).attempts_made == old(state).attempts_made + 1
            && final(state).delay_ms == old(state).delay_ms * 2,
        contains_bytes(body.spec_bytes(), marker.spec_bytes()) && old(state).attempts_made + 1
            >= policy.max_attempts ==> *final(state) == *old(state),
{
    if !body_signals_rate_limit(body, marker) {
        return BodyDecision::Deserialize;
    }
    if state.attempts_made + 1 < policy.max_attempts {
        let wait = state.delay_ms;
        proof {
            lemma_pow2_monotone((state.attempts_made + 1) as nat, 29);
            lemma_pow2_30();
            lemma_pow2_monotone(29, 30);
            assert(policy.initial_delay_ms * pow2((state.attempts_made + 1) as nat)
                <= 1_000_000_000 * pow2(30)) by (nonlinear_arith)
                requires
                    policy.initial_delay_ms <= 1_000_000_000,
                    pow2((state.attempts_made + 1) as nat) <= pow2(30),
            ;
            assert(state.delay_ms * 2 == policy.initial_delay_ms * pow2(
                (state.attempts_made + 1) as nat,
            )) by (nonlinear_arith)
                requires
                    state.delay_ms == policy.initial_delay_ms * pow2(state.attempts_made as nat),
                    pow2((state.attempts_made + 1) as nat) == 2 * pow2(state.attempts_made as nat),
            ;
        }
        state.delay_ms = state.delay_ms * 2;
        state.attempts_made = state.attempts_made + 1;
        BodyDecision::RetryAfter { delay_ms: wait }
    } else {
        BodyDecision::Fail {
            error: FetchError::RateLimitExhausted { attempts: policy.max_attempts },
        }
    }
}

/// The retry state after `k` throttled responses, starting fresh.
pub open spec fn limited_run(p: RetryPolicy, k: nat) -> RetryState
    decreases k,
{
    if k == 0 {
        RetryState { attempts_made: 0, delay_ms: p.initial_delay_ms }
    } else {
        let prev = limited_run(p, (k - 1) as nat);
        RetryState {
            attempts_made: (prev.attempts_made + 1) as u32,
            delay_ms: (prev.delay_ms * 2) as u64,
        }
    }
}

/// Closed form of the always-throttled run: after `k` throttled
/// responses, `k` attempts are recorded and the backoff is `initial * 2^k`.
proof fn lemma_limited_run_closed(p: RetryPolicy, k: nat)
    requires
        policy_wf(p),
        k <= 30,
    ensures
        limited_run(p, k).attempts_made == k,
        limited_run(p, k).delay_ms == p.initial_delay_ms * pow2(k),
        p.initial_delay_ms * pow2(k) <= 1_000_000_000 * 0x4000_0000,
    decreases k,
{
    lemma_pow2_monotone(k, 30);
    lemma_pow2_30();
    assert(p.initial_delay_ms * pow2(k) <= 1_000_000_000 * 0x4000_0000) by (nonlinear_arith)
        requires
            p.initial_delay_ms <= 1_000_000_000,
            pow2(k) <= 0x4000_0000,
    ;
    if k == 0 {
        assert(pow2(0) == 1);
        assert(p.initial_delay_ms * pow2(k) == p.initial_delay_ms) by (nonlinear_arith)
            requires
                k == 0,
                pow2(k) == 1,
        ;
        assert(limited_run(p, 0).delay_ms == p.initial_delay_ms);
    } else {
        lemma_limited_run_closed(p, (k - 1) as nat);
        let prev = limited_run(p, (k - 1) as nat);
        assert(pow2(k) == 2 * pow2((k - 1) as nat));
        assert(p.initial_delay_ms * pow2((k - 1) as nat) * 2 == p.initial_delay_ms * pow2(k))
            by (nonlinear_arith)
            requires
                pow2(k) == 2 * pow2((k - 1) as nat),
        ;
        assert(prev.delay_ms * 2 <= 2_000_000_000 * 0x4000_0000);
        assert((prev.delay_ms * 2) as u64 == prev.delay_ms * 2);
        assert(limited_run(p, k).delay_ms == (prev.delay_ms * 2) as u64);
        assert(limited_run(p, k).delay_ms == p.initial_delay_ms * pow2(k));
        assert(limited_run(p, k).attempts_made == (prev.attempts_made + 1) as u32);
    }
}

/// A provider that always signals rate limiting causes exactly
/// `max_attempts` attempts, each retried after a strictly doubled backoff,
/// and then fails with `RateLimitExhausted`: after `k` throttled responses
/// the state holds `k` attempts and a backoff of `initial * 2^k`; response
/// `k` schedules a retry after `initial * 2^(k-1)` while `k < max_attempts`,
/// and response `max_attempts` gives up.
pub proof fn lemma_retry_exhaustion(p: RetryPolicy, k: nat)
    requires
        policy_wf(p),
        1 <= k <= p.max_attempts,
    ensures
        state_wf(limited_run(p, (k - 1) as nat), p),
        k < p.max_attempts ==> state_wf(limited_run(p, k), p) && limited_run(p, k).attempts_made
            == k && limited_run(p, k).delay_ms == p.initial_delay_ms * pow2(k),
        k < p.max_attempts ==> limited_decision(p, limited_run(p, (k - 1) as nat))
            == (BodyDecision::RetryAfter {
            delay_ms: (p.initial_delay_ms * pow2((k - 1) as nat)) as u64,
        }),
        k == p.max_attempts ==> limited_decision(p, limited_run(p, (k - 1) as nat))
            == (BodyDecision::Fail {
            error: FetchError::RateLimitExhausted { attempts: p.max_attempts },
        }),
{
    lemma_limited_run_closed(p, (k - 1) as nat);
    lemma_limited_run_closed(p, k);
}

} // verus!
