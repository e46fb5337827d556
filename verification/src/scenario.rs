use vstd::prelude::*;
use vstd::string::*;

use crate::text::{
    lemma_count_char_concat, lemma_count_char_digits, lemma_first_index_after_digits, all_digits, count_char, first_in, first_index, lemma_count_char_exists, lemma_first_index, lemma_first_index_at_most, chars_of, decimal, is_digit, lemma_decimal, lemma_parse_decimal, lemma_trim_digits,
    lemma_trim_unchanged, parse_unsigned, parse_unsigned_in, push_char, push_decimal, string_from, string_of,
    trim, trim_bounds, trimmed_chars,
};

verus! {

/// A distribution of input and output token counts for benchmark requests.
pub trait Scenario: Send + Sync {
    /// The (input tokens, output tokens) to use for the next request.
    fn sample(&self) -> (usize, usize);

    /// The scenario as it is written on the command line, e.g. `D(100,100)`.
    fn name(&self) -> String;

    /// The name of the directory that holds this scenario's results, e.g. `D_100_100`.
    fn dir_name(&self) -> String;
}

/// `D(N,M)`: every request targets exactly N input tokens and M output tokens.
pub struct DeterministicScenario {
    input_tokens: usize,
    output_tokens: usize,
}

impl View for DeterministicScenario {
    type V = (usize, usize);

    closed spec fn view(&self) -> (usize, usize) {
        (self.input_tokens, self.output_tokens)
    }
}

/// `D(N,M)` written out.
pub open spec fn scenario_name(input: nat, output: nat) -> Seq<char> {
    "D("@ + decimal(input) + ","@ + decimal(output) + ")"@
}

/// `D_N_M` written out.
pub open spec fn scenario_dir_name(input: nat, output: nat) -> Seq<char> {
    "D_"@ + decimal(input) + "_"@ + decimal(output)
}

impl DeterministicScenario {
    pub fn new(input_tokens: usize, output_tokens: usize) -> (res: Self)
        ensures
            res@ == (input_tokens, output_tokens),
    {
        Self { input_tokens, output_tokens }
    }
}

impl Scenario for DeterministicScenario {
    fn sample(&self) -> (res: (usize, usize))
        ensures
            res == self@,
    {
        (self.input_tokens, self.output_tokens)
    }

    fn name(&self) -> (res: String)
        ensures
            res@ == scenario_name(self@.0 as nat, self@.1 as nat),
    {
        let mut s = String::from_str("D(");
        push_decimal(&mut s, self.input_tokens as u64);
        s.append(",");
        push_decimal(&mut s, self.output_tokens as u64);
        s.append(")");
        s
    }

    fn dir_name(&self) -> (res: String)
        ensures
            res@ == scenario_dir_name(self@.0 as nat, self@.1 as nat),
    {
        let mut s = String::from_str("D_");
        push_decimal(&mut s, self.input_tokens as u64);
        s.append("_");
        push_decimal(&mut s, self.output_tokens as u64);
        s
    }
}

// ---------------------------------------------------------------------------
// Parsing
// ---------------------------------------------------------------------------

/// A scenario's directory name is one safe path component: it holds only `D`, `_` and
/// ASCII digits.
pub proof fn lemma_dir_name_chars(input: nat, output: nat)
    ensures
        forall|i: int|
            0 <= i < scenario_dir_name(input, output).len() ==> {
                let c = #[trigger] scenario_dir_name(input, output)[i];
                c == 'D' || c == '_' || is_digit(c)
            },
{
    reveal_strlit("D_");
    reveal_strlit("_");
    lemma_decimal(input);
    lemma_decimal(output);
    let a = decimal(input);
    let b = decimal(output);
    let t = scenario_dir_name(input, output);
    assert forall|i: int| 0 <= i < t.len() implies {
        let c = #[trigger] t[i];
        c == 'D' || c == '_' || is_digit(c)
    } by {
        if i < 2 {
        } else if i < 2 + a.len() {
            assert(t[i] == a[i - 2]);
        } else if i == 2 + a.len() {
        } else {
            assert(t[i] == b[i - 3 - a.len()]);
        }
    }
}

/// Two scenarios with different counts never share a results directory.
pub proof fn lemma_dir_names_distinct(n1: nat, m1: nat, n2: nat, m2: nat)
    requires
        (n1, m1) != (n2, m2),
    ensures
        scenario_dir_name(n1, m1) != scenario_dir_name(n2, m2),
{
    reveal_strlit("D_");
    reveal_strlit("_");
    lemma_decimal(n1);
    lemma_decimal(m1);
    lemma_decimal(n2);
    lemma_decimal(m2);
    let a1 = decimal(n1);
    let b1 = decimal(m1);
    let a2 = decimal(n2);
    let b2 = decimal(m2);
    let t1 = scenario_dir_name(n1, m1);
    let t2 = scenario_dir_name(n2, m2);
    if t1 == t2 {
        assert(t1[2 + a1.len() as int] == '_');
        assert(t2[2 + a2.len() as int] == '_');
        if a1.len() < a2.len() {
            assert(t2[2 + a1.len() as int] == a2[a1.len() as int]);
            assert(is_digit(a2[a1.len() as int]));
        }
        if a2.len() < a1.len() {
            assert(t1[2 + a2.len() as int] == a1[a2.len() as int]);
            assert(is_digit(a1[a2.len() as int]));
        }
        assert(a1.len() == a2.len());
        assert(a1 == t1.subrange(2, 2 + a1.len() as int));
        assert(a2 == t2.subrange(2, 2 + a2.len() as int));
        assert(b1 == t1.subrange(3 + a1.len() as int, t1.len() as int));
        assert(b2 == t2.subrange(3 + a2.len() as int, t2.len() as int));
        assert(n1 == n2 && m1 == m2);
    }
}

/// Reading the name of a scenario gives the scenario back: `parse_scenario(x.name())`
/// returns `x` for every scenario whose counts are both positive.
pub proof fn lemma_scenario_name_round_trip(input: nat, output: nat)
    requires
        0 < input <= usize::MAX,
        0 < output <= usize::MAX,
    ensures
        scenario_outcome(scenario_name(input, output)) == Ok::<(nat, nat), Seq<char>>((input, output)),
{
    reveal_strlit("D(");
    reveal_strlit(",");
    reveal_strlit(")");
    let da = decimal(input);
    let db = decimal(output);
    lemma_decimal(input);
    lemma_decimal(output);
    let t = scenario_name(input, output);
    let inner = da + ","@ + db;
    assert(t == "D("@ + inner + ")"@);
    assert(t[0] == 'D');
    assert(t[1] == '(');
    assert(t.last() == ')');
    lemma_trim_unchanged(t);
    assert(t.subrange(2, t.len() - 1) == inner);
    assert(deterministic_inner(t) == Some(inner));
    lemma_count_char_digits(da);
    lemma_count_char_digits(db);
    lemma_count_char_concat(da + ","@, db, ',');
    lemma_count_char_concat(da, ","@, ',');
    assert(","@.drop_last() == Seq::<char>::empty());
    assert(count_char(Seq::<char>::empty(), ',') == 0);
    assert(","@.last() == ',');
    assert(count_char(","@, ',') == 1);
    assert(count_char(inner, ',') == 1);
    assert(inner == da + (","@ + db));
    lemma_first_index_after_digits(da, ","@ + db);
    assert((","@ + db)[0] == ',');
    assert(first_index(inner, ',') == da.len());
    assert(inner.subrange(0, da.len() as int) == da);
    assert(inner.subrange(da.len() as int + 1, inner.len() as int) == db);
    lemma_trim_digits(da);
    lemma_trim_digits(db);
    lemma_parse_decimal(input, usize::MAX as nat);
    lemma_parse_decimal(output, usize::MAX as nat);
}

/// `t` is written `D(a,b)`: `a` and `b` hold no comma, and trimmed, each reads as a
/// positive count that fits in `usize`.
pub open spec fn written_as(t: Seq<char>, a: Seq<char>, b: Seq<char>) -> bool {
    &&& t == "D("@ + a + ","@ + b + ")"@
    &&& count_char(a, ',') == 0
    &&& count_char(b, ',') == 0
    &&& parse_unsigned(trim(a), usize::MAX as nat) matches Some(n) && n > 0
    &&& parse_unsigned(trim(b), usize::MAX as nat) matches Some(m) && m > 0
}

proof fn lemma_no_char_count(s: Seq<char>, c: char)
    requires
        forall|j: int| 0 <= j < s.len() ==> s[j] != c,
    ensures
        count_char(s, c) == 0,
    decreases s.len(),
{
    if s.len() > 0 {
        assert(s.last() == s[s.len() - 1]);
        lemma_no_char_count(s.drop_last(), c);
    }
}

/// A scenario string is read as `D(N,M)` exactly where, once trimmed, it is written
/// `D(a,b)` with `a` and `b` free of commas and, trimmed, positive counts that fit in
/// `usize`; the scenario then has the counts that `a` and `b` read as.
pub proof fn lemma_scenario_wording(s: Seq<char>)
    ensures
        scenario_outcome(s) is Ok <==> exists|a: Seq<char>, b: Seq<char>| #[trigger] written_as(trim(s), a, b),
        forall|a: Seq<char>, b: Seq<char>| #[trigger] written_as(trim(s), a, b) ==> scenario_outcome(s) == Ok::<(nat, nat), Seq<char>>(
            (
                parse_unsigned(trim(a), usize::MAX as nat)->Some_0,
                parse_unsigned(trim(b), usize::MAX as nat)->Some_0,
            ),
        ),
{
    reveal_strlit("D(");
    reveal_strlit(",");
    reveal_strlit(")");
    let t = trim(s);
    assert forall|a: Seq<char>, b: Seq<char>| #[trigger] written_as(t, a, b) implies scenario_outcome(s) == Ok::<(nat, nat), Seq<char>>(
        (
            parse_unsigned(trim(a), usize::MAX as nat)->Some_0,
            parse_unsigned(trim(b), usize::MAX as nat)->Some_0,
        ),
    ) by {
        let inner = a + ","@ + b;
        assert(t == "D("@ + inner + ")"@);
        assert(t[0] == 'D' && t[1] == '(' && t.last() == ')');
        assert(t.subrange(2, t.len() - 1) == inner);
        assert(count_char(","@, ',') == 1) by {
            assert(","@.drop_last() == Seq::<char>::empty());
            assert(count_char(Seq::<char>::empty(), ',') == 0);
            assert(","@.last() == ',');
        }
        lemma_count_char_concat(a + ","@, b, ',');
        lemma_count_char_concat(a, ","@, ',');
        assert(count_char(inner, ',') == 1);
        if exists|j: int| 0 <= j < a.len() && a[j] == ',' {
            let j = choose|j: int| 0 <= j < a.len() && a[j] == ',';
            lemma_count_char_concat(a.subrange(0, j + 1), a.subrange(j + 1, a.len() as int), ',');
            assert(a.subrange(0, j + 1) + a.subrange(j + 1, a.len() as int) == a);
            assert(a.subrange(0, j + 1).last() == ',');
        }
        lemma_first_index_at_most(inner, ',', a.len() as int);
        let k = first_index(inner, ',');
        if k < a.len() {
            assert(inner[k] == a[k]);
        }
        assert(k == a.len());
        assert(inner.subrange(0, k) == a);
        assert(inner.subrange(k + 1, inner.len() as int) == b);
    }
    if scenario_outcome(s) is Ok {
        let inner = t.subrange(2, t.len() - 1);
        lemma_count_char_exists(inner, ',');
        let j = choose|j: int| 0 <= j < inner.len() && inner[j] == ',';
        lemma_first_index_at_most(inner, ',', j);
        lemma_first_index(inner, ',');
        let k = first_index(inner, ',');
        let a = inner.subrange(0, k);
        let b = inner.subrange(k + 1, inner.len() as int);
        assert(inner == a + ","@ + b);
        assert(t == "D("@ + inner + ")"@);
        lemma_no_char_count(a, ',');
        lemma_count_char_concat(a + ","@, b, ',');
        lemma_count_char_concat(a, ","@, ',');
        assert(count_char(","@, ',') == 1) by {
            assert(","@.drop_last() == Seq::<char>::empty());
            assert(count_char(Seq::<char>::empty(), ',') == 0);
            assert(","@.last() == ',');
        }
        assert(count_char(a, ',') == 0);
        assert(count_char(b, ',') == 0);
        assert(t == "D("@ + a + ","@ + b + ")"@);
        assert(written_as(t, a, b));
    }
}

/// What lies between `D(` and the final `)` of `t`, where `t` has that shape.
pub open spec fn deterministic_inner(t: Seq<char>) -> Option<Seq<char>> {
    if t.len() >= 3 && t[0] == 'D' && t[1] == '(' && t.last() == ')' {
        Some(t.subrange(2, t.len() - 1))
    } else {
        None
    }
}

/// The outcome of reading `t` as `D(N,M)`: the two counts, or the error message.
pub open spec fn deterministic_outcome(t: Seq<char>) -> Result<(nat, nat), Seq<char>> {
    match deterministic_inner(t) {
        None => Err(
            "invalid deterministic scenario format: '"@ + t + "'. Expected D(N,M)"@,
        ),
        Some(inner) => {
            let n = count_char(inner, ',');
            if n != 1 {
                Err("D() requires exactly 2 arguments, got "@ + decimal(n + 1))
            } else {
                let k = first_index(inner, ',');
                let a = trim(inner.subrange(0, k));
                let b = trim(inner.subrange(k + 1, inner.len() as int));
                match parse_unsigned(a, usize::MAX as nat) {
                    None => Err("invalid input token count: '"@ + a + "'"@),
                    Some(x) => match parse_unsigned(b, usize::MAX as nat) {
                        None => Err("invalid output token count: '"@ + b + "'"@),
                        Some(y) => if x == 0 {
                            Err("input token count must be > 0"@)
                        } else if y == 0 {
                            Err("output token count must be > 0"@)
                        } else {
                            Ok((x, y))
                        },
                    },
                }
            }
        },
    }
}

/// The outcome of `parse_scenario` on `s`.
pub open spec fn scenario_outcome(s: Seq<char>) -> Result<(nat, nat), Seq<char>> {
    let t = trim(s);
    if t.len() == 0 {
        Err("scenario string is empty"@)
    } else if t[0] != 'D' {
        Err("unknown scenario type '"@ + seq![t[0]] + "'. Supported: D(N,M)"@)
    } else {
        deterministic_outcome(t)
    }
}

/// Whether `r` is the result that `outcome` describes.
pub open spec fn scenario_result_is(
    r: Result<DeterministicScenario, String>,
    outcome: Result<(nat, nat), Seq<char>>,
) -> bool {
    match outcome {
        Ok((x, y)) => r is Ok && r->Ok_0@.0 as nat == x && r->Ok_0@.1 as nat == y,
        Err(m) => r is Err && r->Err_0@ == m,
    }
}

/// Counts the `c` in `cs[lo..hi]`.
fn count_in(cs: &Vec<char>, lo: usize, hi: usize, c: char) -> (n: usize)
    requires
        lo <= hi <= cs.len(),
    ensures
        n as nat == count_char(cs@.subrange(lo as int, hi as int), c),
        n <= hi - lo,
{
    let mut n: usize = 0;
    let mut i: usize = lo;
    while i < hi
        invariant
            lo <= i <= hi <= cs.len(),
            n as nat == count_char(cs@.subrange(lo as int, i as int), c),
            n <= i - lo,
        decreases hi - i,
    {
        assert(cs@.subrange(lo as int, i + 1).drop_last() == cs@.subrange(lo as int, i as int));
        if cs[i] == c {
            n = n + 1;
        }
        i = i + 1;
    }
    n
}

/// Reads `s` as a deterministic scenario `D(N,M)`.
pub fn parse_deterministic(s: &str) -> (res: Result<DeterministicScenario, String>)
    ensures
        scenario_result_is(res, deterministic_outcome(s@)),
{
    let t = chars_of(s);
    if !(t.len() >= 3 && t[0] == 'D' && t[1] == '(' && t[t.len() - 1] == ')') {
        let mut m = String::from_str("invalid deterministic scenario format: '");
        m.append(s);
        m.append("'. Expected D(N,M)");
        return Err(m);
    }
    let lo: usize = 2;
    let hi: usize = t.len() - 1;
    let ghost inner = t@.subrange(2, t@.len() - 1);
    let commas = count_in(&t, lo, hi, ',');
    if commas != 1 {
        let mut m = String::from_str("D() requires exactly 2 arguments, got ");
        push_decimal(&mut m, commas as u64 + 1);
        return Err(m);
    }
    let k = first_in(&t, lo, hi, ',');
    proof {
        lemma_count_char_exists(inner, ',');
        let j = choose|j: int| 0 <= j < inner.len() && inner[j] == ',';
        lemma_first_index_at_most(inner, ',', j);
        assert(inner.subrange(0, k as int) == t@.subrange(lo as int, lo + k));
        assert(inner.subrange(k + 1, inner.len() as int) == t@.subrange(lo + k + 1, hi as int));
    }
    let (a0, a1) = trim_bounds(&t, lo, lo + k);
    let (b0, b1) = trim_bounds(&t, lo + k + 1, hi);
    let input = parse_unsigned_in(&t, a0, a1, usize::MAX as u64);
    let input: usize = match input {
        None => {
            let mut m = String::from_str("invalid input token count: '");
            let piece = string_of(&t, a0, a1);
            m.append(piece.as_str());
            m.append("'");
            return Err(m);
        },
        Some(v) => v as usize,
    };
    let output = parse_unsigned_in(&t, b0, b1, usize::MAX as u64);
    let output: usize = match output {
        None => {
            let mut m = String::from_str("invalid output token count: '");
            let piece = string_of(&t, b0, b1);
            m.append(piece.as_str());
            m.append("'");
            return Err(m);
        },
        Some(v) => v as usize,
    };
    if input == 0 {
        return Err(String::from_str("input token count must be > 0"));
    }
    if output == 0 {
        return Err(String::from_str("output token count must be > 0"));
    }
    Ok(DeterministicScenario::new(input, output))
}

/// Reads a scenario spec such as `D(100,100)`.
pub fn parse_scenario(s: &str) -> (res: Result<DeterministicScenario, String>)
    ensures
        scenario_result_is(res, scenario_outcome(s@)),
{
    let t = trimmed_chars(s);
    if t.len() == 0 {
        return Err(String::from_str("scenario string is empty"));
    }
    let type_char = t[0];
    if type_char != 'D' {
        let mut m = String::from_str("unknown scenario type '");
        push_char(&mut m, type_char);
        m.append("'. Supported: D(N,M)");
        assert(t@ == trim(s@));
        assert(m@ == "unknown scenario type '"@ + seq![t@[0]] + "'. Supported: D(N,M)"@);
        return Err(m);
    }
    let ts = string_from(&t);
    parse_deterministic(ts.as_str())
}

} // verus!
