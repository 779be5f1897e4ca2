//! What every connection to a stream shares: the request headers, and how long
//! and how often a lost connection is tried again.

use vstd::prelude::*;
use vstd::string::*;

use crate::text::push_decimal;

verus! {

pub const USER_AGENT: &'static str = "Mozilla/5.0 (Macintosh; Intel Mac OS X 10_15_7) AppleWebKit/605.1.15 (KHTML, like Gecko) Version/18.5 Safari/605.1.15";

/// The content network answers no request without it.
pub const REFERER: &'static str = "https://www.bilibili.com/";

/// How many times a lost connection is replaced by a new one.
pub const MAX_RECONNECTS: u32 = 20;

/// Seconds between two attempts to get hold of a stream that is live.
pub const RETRY_SECS: u64 = 3;

/// Seconds between two looks at the live status.
pub const POLL_SECS: u64 = 5;

/// The longest pause before a reconnection, in seconds.
pub const MAX_PAUSE_SECS: u64 = 30;

/// The pause before reconnection number `attempt`, counted from one: it starts
/// at a second and doubles, up to the longest one.
pub open spec fn pause_secs(attempt: nat) -> nat
    decreases attempt,
{
    if attempt <= 1 {
        1
    } else {
        let twice = 2 * pause_secs((attempt - 1) as nat);
        if twice < MAX_PAUSE_SECS {
            twice
        } else {
            MAX_PAUSE_SECS as nat
        }
    }
}

/// The pause before a reconnection, in seconds.
pub fn backoff(attempt: u32) -> (secs: u64)
    ensures
        secs == pause_secs(attempt as nat),
{
    let mut secs: u64 = 1;
    let mut done: u32 = 1;
    while done < attempt && secs < MAX_PAUSE_SECS
        invariant
            1 <= secs <= MAX_PAUSE_SECS,
            done == 1 || done <= attempt,
            done >= 1,
            secs == pause_secs(done as nat),
        decreases attempt - done,
    {
        done += 1;
        secs = if secs * 2 < MAX_PAUSE_SECS {
            secs * 2
        } else {
            MAX_PAUSE_SECS
        };
    }
    proof {
        if done < attempt {
            law_pause_stays_at_its_longest(done as nat, attempt as nat);
        }
    }
    secs
}

/// A pause lasts between one second and the longest pause.
pub proof fn law_pause_is_bounded(attempt: nat)
    ensures
        1 <= pause_secs(attempt) <= MAX_PAUSE_SECS,
    decreases attempt,
{
    if attempt > 1 {
        law_pause_is_bounded((attempt - 1) as nat);
    }
}

/// No pause is shorter than the one before it.
pub proof fn law_pauses_never_shrink(attempt: nat)
    ensures
        pause_secs(attempt) <= pause_secs(attempt + 1),
{
    law_pause_is_bounded(attempt);
}

/// Once a pause is the longest one, all later ones are.
pub proof fn law_pause_stays_at_its_longest(attempt: nat, later: nat)
    requires
        attempt <= later,
        pause_secs(attempt) == MAX_PAUSE_SECS,
    ensures
        pause_secs(later) == MAX_PAUSE_SECS,
    decreases later,
{
    if attempt < later {
        law_pause_stays_at_its_longest(attempt, (later - 1) as nat);
    }
}

/// What the user is told when the connection is lost more often than it is
/// replaced.
pub fn too_many_reconnects() -> (text: String)
    ensures
        text@ == "Too many reconnects ("@ + crate::text::decimal(MAX_RECONNECTS as nat) + ")"@,
{
    let mut text = String::new();
    text.append("Too many reconnects (");
    push_decimal(&mut text, MAX_RECONNECTS as u64);
    text.append(")");
    assert(text@ =~= "Too many reconnects ("@ + crate::text::decimal(MAX_RECONNECTS as nat)
        + ")"@);
    text
}

/// Whether a stream can still be read: it is live or looping. A status that
/// could not be learnt counts as offline.
pub open spec fn on_air(status: Option<i32>) -> bool {
    status == Some(1i32) || status == Some(2i32)
}

/// Whether a stream can still be read.
pub fn still_live(status: Option<i32>) -> (r: bool)
    ensures
        r == on_air(status),
{
    match status {
        Some(s) => s == 1 || s == 2,
        None => false,
    }
}

/// Whether an HTTP status code stands for success.
pub open spec fn is_success(code: u16) -> bool {
    200 <= code <= 299
}

/// The request headers of a connection, as they stand in the request.
pub fn http_headers() -> (headers: String)
    ensures
        headers@ == "Referer: "@ + REFERER@ + "\r\nUser-Agent: "@ + USER_AGENT@ + "\r\n"@,
{
    let mut headers = String::new();
    headers.append("Referer: ");
    headers.append(REFERER);
    headers.append("\r\nUser-Agent: ");
    headers.append(USER_AGENT);
    headers.append("\r\n");
    assert(headers@ =~= "Referer: "@ + REFERER@ + "\r\nUser-Agent: "@ + USER_AGENT@ + "\r\n"@);
    headers
}

/// The pauses double from one second on, reconnection by reconnection, until they
/// would be longer than the longest one: before reconnection number `attempt` it is
/// two to the power of one less, or the longest pause if that is shorter.
pub proof fn law_pauses_double(attempt: nat)
    requires
        attempt >= 1,
    ensures
        pause_secs(attempt) == (if vstd::arithmetic::power2::pow2((attempt - 1) as nat)
            < MAX_PAUSE_SECS {
            vstd::arithmetic::power2::pow2((attempt - 1) as nat)
        } else {
            MAX_PAUSE_SECS as nat
        }),
    decreases attempt,
{
    if attempt == 1 {
        vstd::arithmetic::power2::lemma2_to64();
    } else {
        law_pauses_double((attempt - 1) as nat);
        vstd::arithmetic::power2::lemma_pow2_unfold((attempt - 1) as nat);
    }
}

/// A stream can be read at status 1, where it is live, and 2, where it is looping, and at
/// no other, nor where the status could not be learnt.
pub proof fn law_on_air_is_live_or_looping(status: i32)
    ensures
        on_air(Some(status)) <==> status == 1 || status == 2,
        !on_air(None),
{
}

/// Success is a status code whose first of three digits is a two.
pub proof fn law_success_codes_begin_with_two(code: u16)
    ensures
        is_success(code) <==> code / 100 == 2,
{
}

} // verus!
