use std::time::Duration;
use vstd::prelude::*;
use vstd::string::*;

use crate::text::{chars_of, parse_unsigned, parse_unsigned_in, string_of, trim, trim_bounds};

verus! {

/// The options of `gbrs plot`.
pub struct PlotArgs {
    /// Path to the results directory.
    pub data: String,
    /// Percentile for plots (mean, p50, p90, p99).
    pub percentile: String,
    /// Plot type (all, ttft, ois, latency).
    pub plot_type: String,
}

/// The duration that `Duration::from_secs` makes of a number of seconds.
pub uninterp spec fn duration_of_secs(secs: u64) -> Duration;

/// Calls `Duration::from_secs`; the contract claims only that the result is a function of
/// `secs` alone.
#[verifier::external_body]
fn duration_from_secs(secs: u64) -> (d: Duration)
    ensures
        d == duration_of_secs(secs),
{
    Duration::from_secs(secs)
}

/// Seconds per unit of a duration suffix: `s`, `m` or `h`.
pub open spec fn unit_seconds(c: char) -> Option<nat> {
    if c == 's' {
        Some(1)
    } else if c == 'm' {
        Some(60)
    } else if c == 'h' {
        Some(3600)
    } else {
        None
    }
}

/// The outcome of reading `s` as a duration such as `60s`, `5m` or `1h`:
/// the number and the seconds per unit, or the error message.
pub open spec fn duration_parts_outcome(s: Seq<char>) -> Result<(nat, nat), Seq<char>> {
    let t = trim(s);
    if t.len() == 0 {
        Err("duration cannot be empty"@)
    } else {
        match unit_seconds(t.last()) {
            None => Err("invalid duration '"@ + t + "': must end with s, m, or h"@),
            Some(unit) => {
                let num = t.drop_last();
                match parse_unsigned(num, u64::MAX as nat) {
                    None => Err("invalid number in duration: '"@ + num + "'"@),
                    Some(n) => Ok((n, unit)),
                }
            },
        }
    }
}

/// Whether the seconds that `s` spells fit in a `u64` (or `s` is not a duration at all).
pub open spec fn duration_fits(s: Seq<char>) -> bool {
    match duration_parts_outcome(s) {
        Ok((n, unit)) => n * unit <= u64::MAX,
        Err(_) => true,
    }
}

/// Reads a duration such as `60s`, `5m` or `1h` as its number and the seconds per unit.
pub fn parse_duration_parts(s: &str) -> (res: Result<(u64, u64), String>)
    ensures
        match duration_parts_outcome(s@) {
            Ok((n, unit)) => res is Ok && res->Ok_0.0 as nat == n && res->Ok_0.1 as nat == unit,
            Err(m) => res is Err && res->Err_0@ == m,
        },
{
    let cs = chars_of(s);
    let (a, b) = trim_bounds(&cs, 0, cs.len());
    assert(cs@.subrange(0, cs@.len() as int) == cs@);
    if a == b {
        return Err(String::from_str("duration cannot be empty"));
    }
    let unit_char = cs[b - 1];
    let unit: u64 = if unit_char == 's' {
        1
    } else if unit_char == 'm' {
        60
    } else if unit_char == 'h' {
        3600
    } else {
        let mut m = String::from_str("invalid duration '");
        let t = string_of(&cs, a, b);
        m.append(t.as_str());
        m.append("': must end with s, m, or h");
        return Err(m);
    };
    assert(cs@.subrange(a as int, b as int).drop_last() == cs@.subrange(a as int, b - 1));
    match parse_unsigned_in(&cs, a, b - 1, u64::MAX) {
        None => {
            let mut m = String::from_str("invalid number in duration: '");
            let num = string_of(&cs, a, b - 1);
            m.append(num.as_str());
            m.append("'");
            Err(m)
        },
        Some(n) => Ok((n, unit)),
    }
}

/// Parses duration strings like "60s", "5m", "1h".
pub fn parse_duration(s: &str) -> (res: Result<Duration, String>)
    requires
        duration_fits(s@),
    ensures
        match duration_parts_outcome(s@) {
            Ok((n, unit)) => res is Ok && res->Ok_0 == duration_of_secs((n * unit) as u64),
            Err(m) => res is Err && res->Err_0@ == m,
        },
{
    match parse_duration_parts(s) {
        Ok((n, unit)) => {
            assert(n * unit <= u64::MAX);
            Ok(duration_from_secs(n * unit))
        },
        Err(m) => Err(m),
    }
}

/// Refuses a run shorter than a minute, which gives no reliable metrics.
pub fn validate_duration_secs(secs: u64) -> (res: Result<(), String>)
    ensures
        res is Ok <==> secs >= 60,
        res is Err ==> res->Err_0@ == "duration must be at least 1m for reliable metrics"@,
{
    if secs < 60 {
        Err(String::from_str("duration must be at least 1m for reliable metrics"))
    } else {
        Ok(())
    }
}

/// `s` with every `/` replaced by `-`.
pub open spec fn slashes_to_dashes(s: Seq<char>) -> Seq<char> {
    Seq::new(s.len(), |i: int| if s[i] == '/' { '-' } else { s[i] })
}

/// The default output directory for a model and a timestamp: `./results/<model>_<timestamp>`,
/// where every `/` of the model name becomes `-`.
pub fn default_output_dir(model: &str, timestamp: &str) -> (res: String)
    ensures
        res@ == "./results/"@ + slashes_to_dashes(model@) + "_"@ + timestamp@,
{
    let cs = chars_of(model);
    let mut res = String::from_str("./results/");
    let ghost base = res@;
    let mut i: usize = 0;
    while i < cs.len()
        invariant
            i <= cs.len(),
            cs@ == model@,
            base == "./results/"@,
            res@ == base + slashes_to_dashes(cs@.subrange(0, i as int)),
        decreases cs.len() - i,
    {
        let c = cs[i];
        crate::text::push_char(&mut res, if c == '/' { '-' } else { c });
        assert(slashes_to_dashes(cs@.subrange(0, i + 1)) == slashes_to_dashes(
            cs@.subrange(0, i as int),
        ).push(if c == '/' { '-' } else { c }));
        i = i + 1;
    }
    assert(cs@.subrange(0, cs@.len() as int) == cs@);
    res.append("_");
    res.append(timestamp);
    res
}

} // verus!
