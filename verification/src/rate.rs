use crate::FetchError;
use vstd::prelude::*;
use vstd::string::*;

verus! {

/// A decimal digit character.
pub open spec fn is_digit(c: char) -> bool {
    48 <= c as u32 <= 57
}

/// The numeric value of a digit character.
pub open spec fn digit_value(c: char) -> int {
    c as u32 - 48
}

fn is_digit_exec(c: char) -> (r: bool)
    ensures
        r == is_digit(c),
{
    let u: u32 = c as u32;
    48 <= u && u <= 57
}

/// How many digit characters `s` begins with.
pub open spec fn digits_prefix_len(s: Seq<char>) -> int
    decreases s.len(),
{
    if s.len() == 0 || !is_digit(s[0]) {
        0
    } else {
        1 + digits_prefix_len(s.drop_first())
    }
}

proof fn lemma_digits_prefix_len(s: Seq<char>)
    ensures
        0 <= digits_prefix_len(s) <= s.len(),
        forall|j: int| 0 <= j < digits_prefix_len(s) ==> is_digit(s[j]),
        digits_prefix_len(s) < s.len() ==> !is_digit(s[digits_prefix_len(s)]),
    decreases s.len(),
{
    if s.len() > 0 && is_digit(s[0]) {
        lemma_digits_prefix_len(s.drop_first());
        assert forall|j: int| 0 <= j < digits_prefix_len(s) implies is_digit(s[j]) by {
            if j > 0 {
                assert(s.drop_first()[j - 1] == s[j]);
            }
        }
        if digits_prefix_len(s) < s.len() {
            assert(s.drop_first()[digits_prefix_len(s) - 1] == s[digits_prefix_len(s)]);
        }
    }
}

/// The number the digit string `s` denotes, most significant digit first.
pub open spec fn decimal_value(s: Seq<char>) -> int
    decreases s.len(),
{
    if s.len() == 0 {
        0
    } else {
        decimal_value(s.drop_last()) * 10 + digit_value(s[s.len() - 1])
    }
}

proof fn lemma_decimal_value_nonneg(s: Seq<char>)
    requires
        forall|j: int| 0 <= j < s.len() ==> is_digit(s[j]),
    ensures
        decimal_value(s) >= 0,
    decreases s.len(),
{
    if s.len() > 0 {
        assert(forall|j: int| 0 <= j < s.drop_last().len() ==> s.drop_last()[j] == s[j]);
        lemma_decimal_value_nonneg(s.drop_last());
    }
}

proof fn lemma_decimal_value_extend(s: Seq<char>, k: int)
    requires
        0 <= k <= s.len(),
        forall|j: int| 0 <= j < s.len() ==> is_digit(s[j]),
    ensures
        decimal_value(s) >= decimal_value(s.subrange(0, k)),
    decreases s.len() - k,
{
    if k < s.len() {
        let t = s.subrange(0, k + 1);
        assert(t.drop_last() =~= s.subrange(0, k));
        lemma_decimal_value_nonneg(s.subrange(0, k));
        assert(decimal_value(t) == decimal_value(s.subrange(0, k)) * 10 + digit_value(t[k]));
        assert(decimal_value(t) >= decimal_value(s.subrange(0, k))) by (nonlinear_arith)
            requires
                decimal_value(t) == decimal_value(s.subrange(0, k)) * 10 + digit_value(t[k]),
                decimal_value(s.subrange(0, k)) >= 0,
                digit_value(t[k]) >= 0,
        ;
        lemma_decimal_value_extend(s, k + 1);
        assert(s.subrange(0, s.len() as int) =~= s);
    } else {
        assert(s.subrange(0, s.len() as int) =~= s);
    }
}

proof fn lemma_singleton_ne(a: char, b: char)
    requires
        a != b,
    ensures
        !(seq![a] =~= seq![b]),
{
    if seq![a] =~= seq![b] {
        assert(seq![a][0] == seq![b][0]);
    }
}

/// What a rate-limit string means: a run of digits followed by a unit,
/// `k`/`K` for thousands or `m`/`M` for millions of bytes per second.
/// `None` stands for every malformed case: no digits, a number too large
/// for 64 bits, or an unknown unit.
pub open spec fn spec_parse_rate_limit(s: Seq<char>) -> Option<u64> {
    let k = digits_prefix_len(s);
    let unit = s.subrange(k, s.len() as int);
    let n = decimal_value(s.subrange(0, k));
    if k == 0 || n > u64::MAX {
        None
    } else if unit =~= seq!['k'] || unit =~= seq!['K'] {
        if n * 1000 <= u64::MAX {
            Some((n * 1000) as u64)
        } else {
            None
        }
    } else if unit =~= seq!['m'] || unit =~= seq!['M'] {
        if n * 1000000 <= u64::MAX {
            Some((n * 1000000) as u64)
        } else {
            None
        }
    } else {
        None
    }
}

/// Parses the optional rate-limit option into bytes per second.  An absent
/// option means no throttling; a present one must be well formed or the
/// whole operation fails with a parse error.
pub fn parse_rate_limit(limit: &Option<String>) -> (r: Result<Option<u64>, FetchError>)
    ensures
        match limit {
            None => r == Ok::<Option<u64>, FetchError>(None),
            Some(l) => match spec_parse_rate_limit(l@) {
                Some(b) => r == Ok::<Option<u64>, FetchError>(Some(b)),
                None => r == Err::<Option<u64>, FetchError>(FetchError::Parse),
            },
        },
{
    let l = match limit {
        None => {
            return Ok(None);
        },
        Some(l) => l,
    };
    let s = l.as_str();
    let n: usize = s.unicode_len();
    proof {
        lemma_digits_prefix_len(s@);
    }
    // scan the digit prefix, accumulating its value and watching for overflow
    let mut i: usize = 0;
    let mut value: u64 = 0;
    while i < n && is_digit_exec(s.get_char(i))
        invariant
            i <= n,
            n == s@.len(),
            s@ == l@,
            *limit == Some(*l),
            forall|j: int| 0 <= j < i ==> is_digit(s@[j]),
            value == decimal_value(s@.subrange(0, i as int)),
        decreases n - i,
    {
        let c = s.get_char(i);
        let d: u64 = (c as u32 - 48) as u64;
        let ghost pre = s@.subrange(0, i as int);
        let ghost cur = s@.subrange(0, i + 1);
        proof {
            assert(cur.drop_last() =~= pre);
            assert(cur[cur.len() - 1] == s@[i as int]);
        }
        if value > (u64::MAX - d) / 10 {
            // the digit prefix alone no longer fits in 64 bits
            proof {
                assert(decimal_value(cur) == value * 10 + d);
                assert(decimal_value(cur) > u64::MAX) by (nonlinear_arith)
                    requires
                        decimal_value(cur) == value * 10 + d,
                        value > (u64::MAX - d) / 10,
                        0 <= d <= 9,
                ;
                lemma_digits_prefix_len(s@);
                let k = digits_prefix_len(s@);
                if k < i + 1 {
                    assert(is_digit(s@[k]));
                    assert(false);
                }
                let digits = s@.subrange(0, k);
                assert forall|j: int| 0 <= j < digits.len() implies is_digit(digits[j]) by {
                    assert(digits[j] == s@[j]);
                }
                lemma_decimal_value_extend(digits, i + 1);
                assert(digits.subrange(0, i + 1) =~= cur);
                assert(decimal_value(digits) > u64::MAX);
            }
            return Err(FetchError::Parse);
        }
        value = value * 10 + d;
        i = i + 1;
    }
    proof {
        assert(i as int == digits_prefix_len(s@));
    }
    if i == 0 {
        return Err(FetchError::Parse);
    }
    // the rest of the string is the unit
    if n - i == 1 {
        let u = s.get_char(i);
        proof {
            assert(s@.subrange(i as int, n as int) =~= seq![s@[i as int]]);
            if u != 'k' {
                lemma_singleton_ne(u, 'k');
            }
            if u != 'K' {
                lemma_singleton_ne(u, 'K');
            }
            if u != 'm' {
                lemma_singleton_ne(u, 'm');
            }
            if u != 'M' {
                lemma_singleton_ne(u, 'M');
            }
        }
        if u == 'k' || u == 'K' {
            if value <= u64::MAX / 1000 {
                return Ok(Some(value * 1000));
            } else {
                proof {
                    vstd::arithmetic::div_mod::lemma_fundamental_div_mod(u64::MAX as int, 1000);
                }
                return Err(FetchError::Parse);
            }
        }
        if u == 'm' || u == 'M' {
            if value <= u64::MAX / 1000000 {
                return Ok(Some(value * 1000000));
            } else {
                proof {
                    vstd::arithmetic::div_mod::lemma_fundamental_div_mod(u64::MAX as int, 1000000);
                }
                return Err(FetchError::Parse);
            }
        }
        return Err(FetchError::Parse);
    }
    proof {
        let unit = s@.subrange(i as int, n as int);
        assert(unit.len() != 1);
        assert(!(unit =~= seq!['k']) && !(unit =~= seq!['K']));
        assert(!(unit =~= seq!['m']) && !(unit =~= seq!['M']));
    }
    Err(FetchError::Parse)
}

/// The byte counters one download session keeps while it streams a body.
/// `total` is the declared content length, `0` when unknown; `window_bytes`
/// counts what arrived since the current measurement window opened, and
/// `speed` is the byte count of the last closed window, kept for display.
pub struct TransferState {
    pub downloaded: u64,
    pub total: u64,
    pub window_bytes: u64,
    pub speed: u64,
}

/// How long a measurement window lasts, in milliseconds.
pub const WINDOW_MS: u64 = 300;

/// What the rate limiter asks the caller to do after a chunk arrives:
/// sleep for some milliseconds before going on, close the window (restart
/// the wall clock), or simply continue.
#[derive(Clone, Copy, Debug, PartialEq, Eq, Structural)]
pub enum ThrottleDecision {
    Sleep(u64),
    CloseWindow,
    Proceed,
}

impl TransferState {
    /// A fresh state for a body with the given declared length.
    pub fn new(total: u64) -> (r: TransferState)
        ensures
            r.downloaded == 0,
            r.total == total,
            r.window_bytes == 0,
            r.speed == 0,
    {
        TransferState { downloaded: 0, total, window_bytes: 0, speed: 0 }
    }
}

/// The throttling rule, on the counters as they stand after the chunk has
/// been added.  With a budget, once the window holds at least
/// `budget - 2 * chunk` bytes (the two-chunk headroom that avoids a
/// livelock on oversized chunks), the transfer must sleep until the window
/// is `WINDOW_MS` old, at which point the window closes.  Without a budget
/// the window merely rotates on the same schedule, for display.
pub open spec fn spec_throttle(
    rate_limit: Option<u64>,
    window_bytes: u64,
    chunk_size: u64,
    elapsed_ms: u64,
) -> ThrottleDecision {
    match rate_limit {
        Some(budget) => {
            let threshold = if budget >= 2 * chunk_size {
                budget - 2 * chunk_size
            } else {
                0
            };
            if window_bytes >= threshold {
                if elapsed_ms >= WINDOW_MS {
                    ThrottleDecision::CloseWindow
                } else {
                    ThrottleDecision::Sleep((WINDOW_MS - elapsed_ms) as u64)
                }
            } else {
                ThrottleDecision::Proceed
            }
        },
        None => {
            if elapsed_ms >= WINDOW_MS {
                ThrottleDecision::CloseWindow
            } else {
                ThrottleDecision::Proceed
            }
        },
    }
}

/// Accounts for one received chunk and decides whether the session must
/// sleep.  The downloaded and window counters grow by the chunk size
/// (saturating at the 64-bit limit); when the decision is to close the
/// window, the window counter is published as the displayed speed and
/// cleared, and the caller restarts its wall clock.
pub fn record_chunk(
    st: &mut TransferState,
    chunk_size: u64,
    rate_limit: Option<u64>,
    elapsed_ms: u64,
) -> (r: ThrottleDecision)
    ensures
        final(st).total == old(st).total,
        final(st).downloaded == if old(st).downloaded + chunk_size <= u64::MAX {
            (old(st).downloaded + chunk_size) as u64
        } else {
            u64::MAX
        },
        ({
            let wb = if old(st).window_bytes + chunk_size <= u64::MAX {
                (old(st).window_bytes + chunk_size) as u64
            } else {
                u64::MAX
            };
            &&& r == spec_throttle(rate_limit, wb, chunk_size, elapsed_ms)
            &&& (r is CloseWindow ==> final(st).window_bytes == 0 && final(st).speed == wb)
            &&& (!(r is CloseWindow) ==> final(st).window_bytes == wb && final(st).speed == old(
                st,
            ).speed)
        }),
        rate_limit is None ==> !(r is Sleep),
        r matches ThrottleDecision::Sleep(ms) ==> elapsed_ms < WINDOW_MS && ms == WINDOW_MS
            - elapsed_ms,
{
    st.downloaded = if st.downloaded <= u64::MAX - chunk_size {
        st.downloaded + chunk_size
    } else {
        u64::MAX
    };
    st.window_bytes = if st.window_bytes <= u64::MAX - chunk_size {
        st.window_bytes + chunk_size
    } else {
        u64::MAX
    };
    match rate_limit {
        Some(budget) => {
            let threshold: u64 = if chunk_size <= budget / 2 {
                proof {
                    assert(2 * (budget / 2) <= budget);
                }
                budget - 2 * chunk_size
            } else {
                0
            };
            proof {
                assert(threshold == if budget >= 2 * chunk_size {
                    budget - 2 * chunk_size
                } else {
                    0int
                });
            }
            if st.window_bytes >= threshold {
                if elapsed_ms >= WINDOW_MS {
                    st.speed = st.window_bytes;
                    st.window_bytes = 0;
                    ThrottleDecision::CloseWindow
                } else {
                    ThrottleDecision::Sleep(WINDOW_MS - elapsed_ms)
                }
            } else {
                ThrottleDecision::Proceed
            }
        },
        None => {
            if elapsed_ms >= WINDOW_MS {
                st.speed = st.window_bytes;
                st.window_bytes = 0;
                ThrottleDecision::CloseWindow
            } else {
                ThrottleDecision::Proceed
            }
        },
    }
}

/// Without a configured budget the limiter never asks for a sleep: the
/// transfer runs at full speed and windows rotate only for rate display.
pub proof fn lemma_no_budget_never_sleeps(window_bytes: u64, chunk_size: u64, elapsed_ms: u64)
    ensures
        !(spec_throttle(None, window_bytes, chunk_size, elapsed_ms) is Sleep),
{
}

/// With a budget, a chunk is accepted without any sleep or window close
/// only while the window holds fewer bytes than the budget: each
/// measurement window admits less than the budget plus one chunk, which is
/// what bounds the average transfer rate.
pub proof fn lemma_budget_bounds_window(
    budget: u64,
    window_bytes: u64,
    chunk_size: u64,
    elapsed_ms: u64,
)
    ensures
        spec_throttle(Some(budget), window_bytes, chunk_size, elapsed_ms) is Proceed
            ==> window_bytes < budget,
{
}

} // verus!
