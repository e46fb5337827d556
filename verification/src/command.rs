use vstd::prelude::*;
use vstd::string::*;

use crate::text::{
    chars_of, decimal, is_digit, lemma_decimal, lemma_parse_decimal, lemma_trim_digits, parse_unsigned,
    parse_unsigned_in, push_decimal, trim, trim_bounds, trim_end, trim_start,
};

verus! {

/// The largest of the concurrency levels, or 1 where there are none.
pub open spec fn max_level(levels: Seq<u32>) -> u32
    decreases levels.len(),
{
    if levels.len() == 0 {
        1
    } else if levels.len() == 1 {
        levels[0]
    } else {
        let m = max_level(levels.drop_last());
        if levels.last() > m {
            levels.last()
        } else {
            m
        }
    }
}

/// The highest concurrency level of a benchmark, 1 where none is given.
pub fn max_concurrency(levels: &Vec<u32>) -> (res: u32)
    ensures
        res == max_level(levels@),
        levels@.len() > 0 ==> (forall|i: int| 0 <= i < levels@.len() ==> levels@[i] <= res)
            && levels@.contains(res),
{
    if levels.len() == 0 {
        return 1;
    }
    let mut m = levels[0];
    let mut i: usize = 1;
    assert(levels@.subrange(0, 1) == seq![levels@[0]]);
    while i < levels.len()
        invariant
            1 <= i <= levels.len(),
            m == max_level(levels@.subrange(0, i as int)),
            forall|k: int| 0 <= k < i ==> levels@[k] <= m,
            exists|k: int| 0 <= k < i && levels@[k] == m,
        decreases levels.len() - i,
    {
        assert(levels@.subrange(0, i + 1).drop_last() == levels@.subrange(0, i as int));
        if levels[i] > m {
            m = levels[i];
        }
        i = i + 1;
    }
    assert(levels@.subrange(0, levels@.len() as int) == levels@);
    m
}

/// The open-file limit that `ulimit -n` printed, 256 where it printed no number.
pub open spec fn fd_limit_of(output: Seq<char>) -> u32 {
    match parse_unsigned(trim(output), u32::MAX as nat) {
        Some(n) => n as u32,
        None => 256,
    }
}

/// What `ulimit -n` prints, a number and a newline, gives that number for every limit that
/// fits in a `u32`: 256 stands only for output that is not such a number.
pub proof fn lemma_fd_limit_reads_ulimit(n: nat)
    requires
        n <= u32::MAX,
    ensures
        fd_limit_of(decimal(n) + "\n"@) == n,
        fd_limit_of(decimal(n)) == n,
{
    reveal_strlit("\n");
    lemma_decimal(n);
    lemma_parse_decimal(n, u32::MAX as nat);
    lemma_trim_digits(decimal(n));
    let d = decimal(n);
    let s = d + "\n"@;
    assert(is_digit(d[0]));
    assert(s[0] == d[0]);
    assert(trim_start(s) == s);
    assert(s.last() == '\n');
    assert(s.drop_last() == d);
    assert(is_digit(d.last()));
    assert(trim_end(d) == d);
    assert(trim_end(s) == trim_end(d));
}

/// Reads the output of `ulimit -n`.
pub fn parse_fd_limit(output: &str) -> (res: u32)
    ensures
        res == fd_limit_of(output@),
{
    let cs = chars_of(output);
    let (a, b) = trim_bounds(&cs, 0, cs.len());
    assert(cs@.subrange(0, cs@.len() as int) == cs@);
    match parse_unsigned_in(&cs, a, b, u32::MAX as u64) {
        Some(n) => n as u32,
        None => 256,
    }
}

/// The warning for an open-file limit below the highest concurrency plus 50.
pub open spec fn fd_warning_text(limit: u32, max_concurrency: u32) -> Option<Seq<char>> {
    if limit < max_concurrency + 50 {
        Some(
            "[WARN] File descriptor limit ("@ + decimal(limit as nat)
                + ") may be too low for concurrency "@ + decimal(max_concurrency as nat)
                + ". Run `ulimit -n "@ + decimal(2 * max_concurrency as nat) + "` to increase."@,
        )
    } else {
        None
    }
}

/// Warns where the open-file limit may be too low for the highest concurrency level.
pub fn fd_limit_warning(limit: u32, max_concurrency: u32) -> (res: Option<String>)
    requires
        max_concurrency + 50 <= u32::MAX,
        limit < max_concurrency + 50 ==> 2 * max_concurrency <= u32::MAX,
    ensures
        match fd_warning_text(limit, max_concurrency) {
            Some(t) => res is Some && res->Some_0@ == t,
            None => res is None,
        },
{
    if limit < max_concurrency + 50 {
        let mut s = String::from_str("[WARN] File descriptor limit (");
        push_decimal(&mut s, limit as u64);
        s.append(") may be too low for concurrency ");
        push_decimal(&mut s, max_concurrency as u64);
        s.append(". Run `ulimit -n ");
        push_decimal(&mut s, (max_concurrency * 2) as u64);
        s.append("` to increase.");
        Some(s)
    } else {
        None
    }
}

} // verus!
