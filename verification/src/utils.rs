//! Durations in words.

use vstd::prelude::*;

use crate::text;
use crate::text::{cat, number};

verus! {

/// A number of seconds in words: seconds alone below a minute, minutes and
/// seconds below an hour, hours, minutes and seconds from there on.
pub open spec fn duration_text(secs: nat) -> Seq<char> {
    if secs < 60 {
        text::dec(secs) + "s"@
    } else if secs < 3600 {
        text::dec(secs / 60) + "m "@ + (text::dec(secs % 60) + "s"@)
    } else {
        text::dec(secs / 3600) + "h "@ + (text::dec(secs % 3600 / 60) + "m "@) + (text::dec(
            secs % 60,
        ) + "s"@)
    }
}

/// Elapsed seconds in words, such as `45s`, `3m 27s` or `2h 15m 30s`.
pub fn format_duration(secs: u64) -> (r: String)
    ensures
        r@ == duration_text(secs as nat),
{
    let seconds = cat(number(secs % 60).as_str(), "s");
    if secs < 60 {
        seconds
    } else if secs < 3600 {
        let mut s = cat(number(secs / 60).as_str(), "m ");
        s.append(seconds.as_str());
        s
    } else {
        let mut s = cat(number(secs / 3600).as_str(), "h ");
        let minutes = cat(number(secs % 3600 / 60).as_str(), "m ");
        s.append(minutes.as_str());
        s.append(seconds.as_str());
        s
    }
}

/// A duration is written in hours, minutes and seconds, the larger units
/// left out where there are none.
pub proof fn law_duration_is_written_out(h: nat, m: nat, s: nat)
    requires
        m < 60,
        s < 60,
    ensures
        duration_text(s) == text::dec(s) + "s"@,
        m > 0 ==> duration_text(60 * m + s) == text::dec(m) + "m "@ + text::dec(s) + "s"@,
        h > 0 ==> duration_text(3600 * h + 60 * m + s) == text::dec(h) + "h "@ + text::dec(m)
            + "m "@ + text::dec(s) + "s"@,
{
    if m > 0 {
        let t = 60 * m + s;
        assert(t / 60 == m && t % 60 == s);
        assert(duration_text(t) =~= text::dec(m) + "m "@ + text::dec(s) + "s"@);
    }
    if h > 0 {
        let t = 3600 * h + 60 * m + s;
        assert(t / 3600 == h && t % 3600 == 60 * m + s);
        assert((60 * m + s) / 60 == m);
        assert(t % 60 == s);
        assert(duration_text(t) =~= text::dec(h) + "h "@ + text::dec(m) + "m "@ + text::dec(s)
            + "s"@);
    }
}

} // verus!
