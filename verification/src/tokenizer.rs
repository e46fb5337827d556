use rand::rngs::ThreadRng;
use rand::seq::SliceRandom;
use tokenizers::Tokenizer;
use vstd::prelude::*;
use vstd::string::*;

use crate::text::{
    chars_of, first_in, first_index, lemma_first_index, push_char, string_of, trim, trim_bounds,
};

verus! {

#[verifier::external_type_specification]
#[verifier::external_body]
pub struct ExTokenizer(Tokenizer);

#[verifier::external_type_specification]
#[verifier::external_body]
pub struct ExThreadRng(ThreadRng);

/// Calls `rand::rng()`, the handle on the thread-local random generator. Nothing is
/// claimed of it.
#[verifier::external_body]
fn thread_rng() -> ThreadRng {
    rand::rng()
}

/// Calls `SliceRandom::shuffle`, which rand documents as shuffling the slice in place:
/// the claim is that the result is a permutation of the input (which one is left open).
#[verifier::external_body]
fn shuffle_lines(lines: &mut Vec<String>, rng: &mut ThreadRng)
    ensures
        final(lines)@.to_multiset() == old(lines)@.to_multiset(),
{
    lines.shuffle(rng);
}

/// Calls `Tokenizer::encode` without special tokens and hands back the token ids
/// (`Encoding::get_ids`); the error becomes its message. Nothing is claimed of the ids.
#[verifier::external_body]
fn encode_ids(tokenizer: &Tokenizer, text: &str) -> Result<Vec<u32>, String> {
    match tokenizer.encode(text, false) {
        Ok(encoding) => Ok(encoding.get_ids().to_vec()),
        Err(e) => Err(e.to_string()),
    }
}

/// Calls `Tokenizer::decode`, skipping special tokens, on the first `count` ids; the
/// error becomes its message. Nothing is claimed of the text.
#[verifier::external_body]
fn decode_prefix(tokenizer: &Tokenizer, ids: &Vec<u32>, count: usize) -> Result<String, String>
    requires
        count <= ids.len(),
{
    match tokenizer.decode(&ids[..count], true) {
        Ok(text) => Ok(text),
        Err(e) => Err(e.to_string()),
    }
}

/// The token count of an encoding: the number of ids, or the tokenizer's error message
/// after `Tokenization error: `.
pub fn token_count(encoded: Result<Vec<u32>, String>) -> (res: Result<usize, String>)
    ensures
        match encoded {
            Ok(ids) => res == Ok::<usize, String>(ids@.len() as usize),
            Err(e) => res is Err && res->Err_0@ == "Tokenization error: "@ + e@,
        },
        res matches Err(m) ==> "Tokenization error: "@.is_prefix_of(m@),
{
    match encoded {
        Ok(ids) => Ok(ids.len()),
        Err(e) => Err(labelled_error("Tokenization error: ", e)),
    }
}

proof fn lemma_error_kinds_differ()
    ensures
        !"Tokenization error: "@.is_prefix_of(
            "Corpus lines hold no tokens: no prompt of that size can be built"@,
        ),
        !"Decode error: "@.is_prefix_of(
            "Corpus lines hold no tokens: no prompt of that size can be built"@,
        ),
{
    reveal_strlit("Tokenization error: ");
    reveal_strlit("Decode error: ");
    reveal_strlit("Corpus lines hold no tokens: no prompt of that size can be built");
    let m = "Corpus lines hold no tokens: no prompt of that size can be built"@;
    assert(m.subrange(0, 20)[0] == 'C');
    assert(m.subrange(0, 14)[0] == 'C');
}

/// `label` followed by the message `e`.
fn labelled_error(label: &str, e: String) -> (res: String)
    ensures
        res@ == label@ + e@,
        label@.is_prefix_of(res@),
{
    let mut m = String::from_str(label);
    m.append(e.as_str());
    assert((label@ + e@).subrange(0, label@.len() as int) =~= label@);
    m
}

// ---------------------------------------------------------------------------
// The corpus
// ---------------------------------------------------------------------------

/// A line without the `\r` of a `\r\n` ending.
pub open spec fn strip_cr(line: Seq<char>) -> Seq<char> {
    if line.len() > 0 && line.last() == '\r' {
        line.drop_last()
    } else {
        line
    }
}

/// `line` as a one-element list, or nothing where it is blank.
pub open spec fn unless_blank(line: Seq<char>) -> Seq<Seq<char>> {
    if trim(line).len() == 0 {
        Seq::empty()
    } else {
        seq![line]
    }
}

/// The non-blank lines of a text, as `str::lines` splits it (at `\n`, dropping the `\r`
/// of a `\r\n`).
pub open spec fn corpus_lines_of(s: Seq<char>) -> Seq<Seq<char>>
    decreases s.len(),
{
    if s.len() == 0 {
        Seq::empty()
    } else {
        let k = first_index(s, '\n');
        if k >= s.len() {
            unless_blank(s)
        } else {
            proof {
                lemma_first_index(s, '\n');
            }
            unless_blank(strip_cr(s.subrange(0, k))) + corpus_lines_of(
                s.subrange(k + 1, s.len() as int),
            )
        }
    }
}

/// No line of a corpus is blank.
pub proof fn lemma_corpus_lines_not_blank(s: Seq<char>)
    ensures
        forall|i: int| 0 <= i < corpus_lines_of(s).len() ==> trim(#[trigger] corpus_lines_of(s)[i]).len() > 0,
    decreases s.len(),
{
    if s.len() > 0 {
        let k = first_index(s, '\n');
        lemma_first_index(s, '\n');
        if k < s.len() {
            let rest = s.subrange(k + 1, s.len() as int);
            lemma_corpus_lines_not_blank(rest);
            let head = unless_blank(strip_cr(s.subrange(0, k)));
            assert forall|i: int| 0 <= i < corpus_lines_of(s).len() implies trim(
                #[trigger] corpus_lines_of(s)[i],
            ).len() > 0 by {
                if i >= head.len() {
                    assert(corpus_lines_of(s)[i] == corpus_lines_of(rest)[i - head.len()]);
                }
            }
        }
    }
}

pub open spec fn strings_view(v: Seq<String>) -> Seq<Seq<char>> {
    v.map_values(|s: String| s@)
}

/// Adds `cs[lo..hi]` to `acc` unless it is blank.
fn keep_unless_blank(acc: &mut Vec<String>, cs: &Vec<char>, lo: usize, hi: usize)
    requires
        lo <= hi <= cs.len(),
    ensures
        strings_view(final(acc)@) == strings_view(old(acc)@) + unless_blank(
            cs@.subrange(lo as int, hi as int),
        ),
{
    let (a, b) = trim_bounds(cs, lo, hi);
    if a == b {
        assert(strings_view(old(acc)@) + Seq::<Seq<char>>::empty() == strings_view(old(acc)@));
    } else {
        let line = string_of(cs, lo, hi);
        acc.push(line);
        assert(strings_view(acc@) == strings_view(old(acc)@).push(line@));
    }
}

/// The non-blank lines of a corpus.
pub fn corpus_lines(corpus: &str) -> (res: Vec<String>)
    ensures
        strings_view(res@) == corpus_lines_of(corpus@),
{
    let cs = chars_of(corpus);
    let n = cs.len();
    let mut acc: Vec<String> = Vec::new();
    let mut p: usize = 0;
    assert(cs@.subrange(0, n as int) == cs@);
    while p < n
        invariant
            p <= n == cs.len(),
            cs@ == corpus@,
            strings_view(acc@) + corpus_lines_of(cs@.subrange(p as int, n as int))
                == corpus_lines_of(corpus@),
        decreases n - p,
    {
        let ghost rest = cs@.subrange(p as int, n as int);
        let k = first_in(&cs, p, n, '\n');
        if p + k == n {
            keep_unless_blank(&mut acc, &cs, p, n);
            assert(cs@.subrange(n as int, n as int) == Seq::<char>::empty());
            p = n;
        } else {
            proof {
                lemma_first_index(rest, '\n');
            }
            let mut e = p + k;
            if e > p && cs[e - 1] == '\r' {
                assert(rest.subrange(0, k as int).drop_last() == cs@.subrange(p as int, e - 1));
                e = e - 1;
            }
            assert(rest.subrange(0, k as int) == cs@.subrange(p as int, (p + k) as int));
            assert(strip_cr(rest.subrange(0, k as int)) == cs@.subrange(p as int, e as int));
            assert(rest.subrange(k + 1, rest.len() as int) == cs@.subrange(p + k + 1, n as int));
            let ghost before = strings_view(acc@);
            keep_unless_blank(&mut acc, &cs, p, e);
            assert(before + corpus_lines_of(rest) == corpus_lines_of(corpus@));
            assert(before + (unless_blank(cs@.subrange(p as int, e as int)) + corpus_lines_of(
                cs@.subrange(p + k + 1, n as int),
            )) == strings_view(acc@) + corpus_lines_of(cs@.subrange(p + k + 1, n as int)));
            p = p + k + 1;
        }
    }
    assert(corpus_lines_of(cs@.subrange(n as int, n as int)) == Seq::<Seq<char>>::empty());
    acc
}

// ---------------------------------------------------------------------------
// Prompts
// ---------------------------------------------------------------------------

/// `p` followed by `x`, with a space between them where `p` is not empty.
pub open spec fn append_piece(p: Seq<char>, x: Seq<char>) -> Seq<char> {
    if p.len() == 0 {
        x
    } else {
        p + " "@ + x
    }
}

/// The pieces put together one after another.
pub open spec fn assemble(pieces: Seq<Seq<char>>) -> Seq<char>
    decreases pieces.len(),
{
    if pieces.len() == 0 {
        Seq::empty()
    } else {
        append_piece(assemble(pieces.drop_last()), pieces.last())
    }
}

fn push_piece(prompt: &mut String, piece: &str)
    ensures
        final(prompt)@ == append_piece(old(prompt)@, piece@),
{
    if !prompt.as_str().is_empty() {
        push_char(prompt, ' ');
        assert(" "@ == seq![' ']) by {
            reveal_strlit(" ");
        }
    }
    prompt.append(piece);
}

/// A prompt under construction: the text so far and the number of tokens still to add.
pub struct PromptFill {
    prompt: String,
    remaining: usize,
}

/// Spec form of a `PromptFill`.
pub struct PromptFillView {
    pub prompt: Seq<char>,
    pub remaining: usize,
}

impl View for PromptFill {
    type V = PromptFillView;

    closed spec fn view(&self) -> PromptFillView {
        PromptFillView { prompt: self.prompt@, remaining: self.remaining }
    }
}

/// What became of a line offered to a prompt.
#[derive(Debug, PartialEq, Eq, Structural)]
pub enum LineStep {
    /// The prompt already had all its tokens; the line was not used.
    Full,
    /// The whole line was added.
    Taken,
    /// The line has more tokens than the prompt still needs: only that many (given here)
    /// of its first tokens belong in the prompt.
    Truncate(usize),
}

impl PromptFill {
    /// An empty prompt that needs `target_tokens` tokens.
    pub fn new(target_tokens: usize) -> (res: Self)
        ensures
            res@.prompt == Seq::<char>::empty(),
            res@.remaining == target_tokens,
    {
        PromptFill { prompt: String::new(), remaining: target_tokens }
    }

    /// Whether the prompt has all its tokens.
    pub fn is_full(&self) -> (res: bool)
        ensures
            res == (self@.remaining == 0),
    {
        self.remaining == 0
    }

    /// Offers a line of `line_tokens` tokens: it is added whole where it fits, with a space
    /// before it unless the prompt is empty.
    pub fn offer(&mut self, line: &str, line_tokens: usize) -> (step: LineStep)
        ensures
            old(self)@.remaining == 0 ==> step == LineStep::Full && final(self)@ == old(self)@,
            old(self)@.remaining > 0 && line_tokens <= old(self)@.remaining ==> {
                &&& step == LineStep::Taken
                &&& final(self)@.prompt == append_piece(old(self)@.prompt, line@)
                &&& final(self)@.remaining == old(self)@.remaining - line_tokens
            },
            old(self)@.remaining > 0 && line_tokens > old(self)@.remaining ==> step
                == LineStep::Truncate(old(self)@.remaining) && final(self)@ == old(self)@,
    {
        if self.remaining == 0 {
            return LineStep::Full;
        }
        if line_tokens <= self.remaining {
            push_piece(&mut self.prompt, line);
            self.remaining = self.remaining - line_tokens;
            LineStep::Taken
        } else {
            LineStep::Truncate(self.remaining)
        }
    }

    /// Adds the text of the last, truncated line; the prompt is then full.
    pub fn finish_with(&mut self, piece: &str)
        ensures
            final(self)@.prompt == append_piece(old(self)@.prompt, piece@),
            final(self)@.remaining == 0,
    {
        push_piece(&mut self.prompt, piece);
        self.remaining = 0;
    }

    /// The number of tokens still to add.
    pub fn remaining(&self) -> (res: usize)
        ensures
            res == self@.remaining,
    {
        self.remaining
    }

    /// The prompt text.
    pub fn into_prompt(self) -> (res: String)
        ensures
            res@ == self@.prompt,
    {
        self.prompt
    }
}

/// `p` with the lines `xs` appended one after another.
pub open spec fn extend(p: Seq<char>, xs: Seq<Seq<char>>) -> Seq<char>
    decreases xs.len(),
{
    if xs.len() == 0 {
        p
    } else {
        append_piece(extend(p, xs.drop_last()), xs.last())
    }
}

/// Appending lines to assembled pieces assembles the pieces and the lines.
pub proof fn lemma_extend_assemble(a: Seq<Seq<char>>, b: Seq<Seq<char>>)
    ensures
        extend(assemble(a), b) == assemble(a + b),
    decreases b.len(),
{
    if b.len() == 0 {
        assert(a + b == a);
    } else {
        lemma_extend_assemble(a, b.drop_last());
        assert((a + b).drop_last() == a + b.drop_last());
        assert((a + b).last() == b.last());
    }
}

/// The sum of token counts.
pub open spec fn total(counts: Seq<usize>) -> nat
    decreases counts.len(),
{
    if counts.len() == 0 {
        0
    } else {
        total(counts.drop_last()) + counts.last() as nat
    }
}

/// Where a pass over the corpus stopped, as far as its counts go.
pub enum PassStop {
    /// No line has stopped it yet.
    Open,
    /// A line came when the prompt had all its tokens.
    Full,
    /// A line had more tokens than the prompt still needed: this many of them are kept.
    Cut(nat),
}

/// A pass over token counts: the tokens still needed, how many lines were taken whole,
/// and where it stopped.
pub struct PassFold {
    pub remaining: nat,
    pub taken: nat,
    pub stop: PassStop,
}

/// Goes through the token counts of the lines of a pass, in order, starting with
/// `start` tokens to add: a line is taken whole while it fits; the pass stops at the first
/// line that comes once nothing is left to add, or that has more tokens than are left.
pub open spec fn pass_fold(start: nat, counts: Seq<usize>) -> PassFold
    decreases counts.len(),
{
    if counts.len() == 0 {
        PassFold { remaining: start, taken: 0, stop: PassStop::Open }
    } else {
        let f = pass_fold(start, counts.drop_last());
        if !(f.stop is Open) {
            f
        } else if f.remaining == 0 {
            PassFold { stop: PassStop::Full, ..f }
        } else if counts.last() <= f.remaining {
            PassFold {
                remaining: (f.remaining - counts.last()) as nat,
                taken: f.taken + 1,
                stop: PassStop::Open,
            }
        } else {
            PassFold { stop: PassStop::Cut(f.remaining), ..f }
        }
    }
}

/// Where a pass over `n` lines stands once the token counts `counts` of its first lines
/// are known, starting with `start` tokens to add.
#[derive(Debug, PartialEq, Eq, Structural)]
pub enum PassStep {
    /// The token count of the line at this position is needed next.
    NeedCount(usize),
    /// The prompt has all its tokens.
    Full,
    /// The line at this position has more tokens than are left: only this many of its
    /// first tokens go into the prompt, which is then full.
    Truncate(usize, usize),
    /// Every line was taken whole and tokens are still missing: another pass is needed.
    Ended,
    /// Every line was taken whole and not one token was added: no pass ever fills the prompt.
    NoProgress,
}

/// The step a pass is at.
pub open spec fn pass_status(start: nat, counts: Seq<usize>, n: nat) -> PassStep {
    let f = pass_fold(start, counts);
    match f.stop {
        PassStop::Cut(c) => PassStep::Truncate(f.taken as usize, c as usize),
        PassStop::Full => PassStep::Full,
        PassStop::Open => if counts.len() >= n {
            if f.remaining == start {
                PassStep::NoProgress
            } else {
                PassStep::Ended
            }
        } else if f.remaining == 0 {
            PassStep::Full
        } else {
            PassStep::NeedCount(counts.len() as usize)
        },
    }
}

/// The tokens of a pass are accounted for: the lines taken whole and the tokens still
/// needed add up to the tokens the pass started with. An open pass has taken every line
/// it has a count for; a cut keeps fewer tokens than the line has, and at least one.
pub proof fn lemma_pass_tokens(start: nat, counts: Seq<usize>)
    ensures
        ({
            let f = pass_fold(start, counts);
            &&& f.taken <= counts.len()
            &&& f.remaining <= start
            &&& f.remaining + total(counts.take(f.taken as int)) == start
            &&& f.stop is Open ==> f.taken == counts.len()
            &&& f.stop is Full ==> f.remaining == 0
            &&& f.stop matches PassStop::Cut(c) ==> {
                &&& f.taken < counts.len()
                &&& c == f.remaining
                &&& 0 < c < counts[f.taken as int]
            }
        }),
    decreases counts.len(),
{
    if counts.len() > 0 {
        let d = counts.drop_last();
        lemma_pass_tokens(start, d);
        let f = pass_fold(start, d);
        assert(d.take(f.taken as int) == counts.take(f.taken as int));
        if f.stop is Open && f.remaining > 0 && counts.last() <= f.remaining {
            assert(counts.take(f.taken + 1int) == counts);
            assert(counts.drop_last() == d.take(f.taken as int));
        }
    }
}

/// The state of a pass over the lines of a corpus that adds them to a prompt: the lines,
/// in the order of the pass, and the token counts of those seen so far.
pub struct PromptPass {
    fill: PromptFill,
    lines: Vec<String>,
    counts: Vec<usize>,
    start: usize,
    taken: usize,
    cut: Option<usize>,
    start_prompt: Ghost<Seq<char>>,
}

/// Spec form of a `PromptPass`.
pub struct PromptPassView {
    /// The prompt when the pass began.
    pub start_prompt: Seq<char>,
    /// The tokens still to add when the pass began.
    pub start: nat,
    /// The lines, in the order of the pass.
    pub lines: Seq<Seq<char>>,
    /// The token counts of the first lines.
    pub counts: Seq<usize>,
}

impl View for PromptPass {
    type V = PromptPassView;

    closed spec fn view(&self) -> PromptPassView {
        PromptPassView {
            start_prompt: self.start_prompt@,
            start: self.start as nat,
            lines: strings_view(self.lines@),
            counts: self.counts@,
        }
    }
}

impl PromptPassView {
    /// The step the pass is at.
    pub open spec fn status(self) -> PassStep {
        pass_status(self.start, self.counts, self.lines.len())
    }

    /// The tokens still to add.
    pub open spec fn remaining(self) -> nat {
        pass_fold(self.start, self.counts).remaining
    }

    /// The prompt with the lines taken whole so far.
    pub open spec fn prompt(self) -> Seq<char> {
        extend(self.start_prompt, self.lines.take(pass_fold(self.start, self.counts).taken as int))
    }
}

impl PromptPass {
    /// The pass keeps its prompt, its count of tokens still needed and where it stopped
    /// in step with its token counts; it is never given a count once the prompt is full.
    pub closed spec fn wf(&self) -> bool {
        let f = pass_fold(self.start as nat, self.counts@);
        &&& self.counts@.len() <= self.lines@.len()
        &&& self.fill@.remaining == f.remaining
        &&& self.fill@.prompt == self@.prompt()
        &&& self.taken == f.taken
        &&& match self.cut {
            None => f.stop is Open,
            Some(c) => f.stop == PassStop::Cut(c as nat),
        }
    }

    /// A pass over `lines` that adds to `fill`.
    pub fn new(fill: PromptFill, lines: Vec<String>) -> (res: Self)
        ensures
            res.wf(),
            res@.start_prompt == fill@.prompt,
            res@.start == fill@.remaining,
            res@.lines == strings_view(lines@),
            res@.counts == Seq::<usize>::empty(),
    {
        let start = fill.remaining();
        let ghost sp = fill@.prompt;
        let res = PromptPass {
            fill,
            lines,
            counts: Vec::new(),
            start,
            taken: 0,
            cut: None,
            start_prompt: Ghost(sp),
        };
        assert(res@.lines.take(0) == Seq::<Seq<char>>::empty());
        res
    }

    /// The step the pass is at.
    pub fn status(&self) -> (res: PassStep)
        requires
            self.wf(),
        ensures
            res == self@.status(),
    {
        match self.cut {
            Some(c) => PassStep::Truncate(self.taken, c),
            None => {
                let k = self.counts.len();
                let rem = self.fill.remaining();
                if k >= self.lines.len() {
                    if rem == self.start {
                        PassStep::NoProgress
                    } else {
                        PassStep::Ended
                    }
                } else if rem == 0 {
                    PassStep::Full
                } else {
                    PassStep::NeedCount(k)
                }
            },
        }
    }

    /// The line at position `i` of the pass.
    pub fn line(&self, i: usize) -> (res: &str)
        requires
            i < self@.lines.len(),
        ensures
            res@ == self@.lines[i as int],
    {
        self.lines[i].as_str()
    }

    /// Gives the token count of the line the pass needs next.
    pub fn give(&mut self, count: usize)
        requires
            old(self).wf(),
            old(self)@.status() is NeedCount,
        ensures
            final(self).wf(),
            final(self)@ == (PromptPassView { counts: old(self)@.counts.push(count), ..old(self)@ }),
    {
        let ghost f = pass_fold(self.start as nat, self.counts@);
        proof {
            lemma_pass_tokens(self.start as nat, self.counts@);
        }
        let k = self.counts.len();
        assert(self.taken == k && k < self.lines.len());
        let ghost lines = self@.lines;
        let step = self.fill.offer(self.lines[k].as_str(), count);
        self.counts.push(count);
        proof {
            assert(self.counts@.drop_last() == old(self).counts@);
        }
        match step {
            LineStep::Taken => {
                self.taken = self.taken + 1;
                proof {
                    assert(lines.take(k + 1).drop_last() == lines.take(k as int));
                    assert(lines.take(k + 1).last() == lines[k as int]);
                }
            },
            LineStep::Truncate(c) => {
                self.cut = Some(c);
            },
            LineStep::Full => {},
        }
    }

    /// The prompt as it stands.
    pub fn into_prompt(self) -> (res: String)
        requires
            self.wf(),
        ensures
            res@ == self@.prompt(),
    {
        self.fill.into_prompt()
    }

    /// The prompt with `piece` added, the text of the first tokens of the line that did not
    /// fit whole.
    pub fn finish(self, piece: &str) -> (res: String)
        requires
            self.wf(),
            self@.status() is Truncate,
        ensures
            res@ == append_piece(self@.prompt(), piece@),
    {
        let mut fill = self.fill;
        fill.finish_with(piece);
        fill.into_prompt()
    }

    /// The prompt under construction and the lines, for another pass.
    pub fn into_parts(self) -> (res: (PromptFill, Vec<String>))
        requires
            self.wf(),
        ensures
            res.0@.prompt == self@.prompt(),
            res.0@.remaining == self@.remaining(),
            strings_view(res.1@) == self@.lines,
    {
        (self.fill, self.lines)
    }
}

/// One pass over the corpus as it went: its lines in the order of the pass, and the token
/// counts of those that were encoded.
pub struct PassRecord {
    pub lines: Seq<Seq<char>>,
    pub counts: Seq<usize>,
}

/// Where passes that each ended with every line taken leave a prompt begun as `start_prompt`
/// with `start` tokens to add: the prompt, the tokens still to add, and the tokens taken.
pub open spec fn run_ended(start_prompt: Seq<char>, start: nat, passes: Seq<PassRecord>) -> Option<
    (Seq<char>, nat, nat),
>
    decreases passes.len(),
{
    if passes.len() == 0 {
        Some((start_prompt, start, 0))
    } else {
        match run_ended(start_prompt, start, passes.drop_last()) {
            Some((p, r, t)) => {
                let q = passes.last();
                let f = pass_fold(r, q.counts);
                if pass_status(r, q.counts, q.lines.len()) is Ended {
                    Some((extend(p, q.lines), f.remaining, t + total(q.counts.take(f.taken as int))))
                } else {
                    None
                }
            },
            None => None,
        }
    }
}

/// The prompt that a run of passes makes for `target` tokens: every pass but `last` ended
/// with every line taken; `last` found the prompt full, or cut a line, whose first tokens
/// decode to `piece`. `None` where the passes do not run that way.
pub open spec fn run_prompt(target: nat, passes: Seq<PassRecord>, last: PassRecord, piece: Seq<char>) -> Option<
    Seq<char>,
> {
    match run_ended(Seq::empty(), target, passes) {
        Some((p, r, _)) => match pass_status(r, last.counts, last.lines.len()) {
            PassStep::Full => Some(extend(p, last.lines.take(pass_fold(r, last.counts).taken as int))),
            PassStep::Truncate(i, _) => Some(append_piece(extend(p, last.lines.take(i as int)), piece)),
            _ => None,
        },
        None => None,
    }
}

/// Whether a run of passes for `target` tokens ends with a pass that took every line and
/// added no token: every pass before `last` ended with every line taken, and `last` made
/// no progress.
pub open spec fn run_no_progress(target: nat, passes: Seq<PassRecord>, last: PassRecord) -> bool {
    run_ended(Seq::empty(), target, passes) matches Some((_, r, _)) && pass_status(
        r,
        last.counts,
        last.lines.len(),
    ) is NoProgress
}

proof fn lemma_total_zero(counts: Seq<usize>)
    ensures
        total(counts) == 0 <==> forall|i: int| 0 <= i < counts.len() ==> counts[i] == 0,
    decreases counts.len(),
{
    if counts.len() > 0 {
        lemma_total_zero(counts.drop_last());
        assert forall|i: int| 0 <= i < counts.len() - 1 implies counts.drop_last()[i] == counts[i] by {}
        if total(counts) == 0 {
            assert forall|i: int| 0 <= i < counts.len() implies counts[i] == 0 by {
                if i < counts.len() - 1 {
                    assert(counts.drop_last()[i] == counts[i]);
                }
            }
        }
        if forall|i: int| 0 <= i < counts.len() ==> counts[i] == 0 {
            assert(counts.last() == counts[counts.len() - 1]);
            assert forall|i: int| 0 <= i < counts.drop_last().len() implies counts.drop_last()[i] == 0 by {
                assert(counts.drop_last()[i] == counts[i]);
            }
        }
    }
}

proof fn lemma_zero_counts_fold(start: nat, counts: Seq<usize>)
    requires
        start > 0,
        forall|i: int| 0 <= i < counts.len() ==> counts[i] == 0,
    ensures
        pass_fold(start, counts) == (PassFold { remaining: start, taken: counts.len(), stop: PassStop::Open }),
    decreases counts.len(),
{
    if counts.len() > 0 {
        assert forall|i: int| 0 <= i < counts.drop_last().len() implies counts.drop_last()[i] == 0 by {
            assert(counts.drop_last()[i] == counts[i]);
        }
        lemma_zero_counts_fold(start, counts.drop_last());
        assert(counts.last() == counts[counts.len() - 1]);
    }
}

/// A pass over `n` lines makes no progress exactly where the prompt still needed tokens,
/// every one of the `n` lines was encoded, and every line's count was zero.
pub proof fn lemma_no_progress(start: nat, counts: Seq<usize>, n: nat)
    requires
        n > 0,
        counts.len() == n,
    ensures
        pass_status(start, counts, n) is NoProgress <==> start > 0 && forall|i: int|
            0 <= i < counts.len() ==> counts[i] == 0,
{
    lemma_pass_tokens(start, counts);
    lemma_total_zero(counts);
    if start > 0 && forall|i: int| 0 <= i < counts.len() ==> counts[i] == 0 {
        lemma_zero_counts_fold(start, counts);
    }
    if start == 0 {
        let d = counts.drop_last();
        lemma_pass_tokens(start, d);
    }
    assert(counts.take(counts.len() as int) == counts);
}

/// The tokens that a run of passes puts in the prompt: those of every line taken whole,
/// and those kept of the line cut.
pub open spec fn run_tokens(target: nat, passes: Seq<PassRecord>, last: PassRecord) -> nat {
    match run_ended(Seq::empty(), target, passes) {
        Some((_, r, t)) => {
            let f = pass_fold(r, last.counts);
            t + total(last.counts.take(f.taken as int)) + match f.stop {
                PassStop::Cut(c) => c,
                _ => 0,
            }
        },
        None => 0,
    }
}

proof fn lemma_run_ended_tokens(start_prompt: Seq<char>, start: nat, passes: Seq<PassRecord>)
    ensures
        run_ended(start_prompt, start, passes) matches Some((_, r, t)) ==> r + t == start,
    decreases passes.len(),
{
    if passes.len() > 0 {
        lemma_run_ended_tokens(start_prompt, start, passes.drop_last());
        if let Some((_, r, _)) = run_ended(start_prompt, start, passes.drop_last()) {
            lemma_pass_tokens(r, passes.last().counts);
        }
    }
}

/// A prompt that a run of passes makes holds exactly the target number of tokens, as the
/// tokenizer counted them: the lines taken whole and the tokens kept of the line cut add up
/// to `target`.
pub proof fn lemma_run_tokens(target: nat, passes: Seq<PassRecord>, last: PassRecord, piece: Seq<char>)
    requires
        run_prompt(target, passes, last, piece) is Some,
    ensures
        run_tokens(target, passes, last) == target,
{
    lemma_run_ended_tokens(Seq::empty(), target, passes);
    if let Some((_, r, _)) = run_ended(Seq::empty(), target, passes) {
        lemma_pass_tokens(r, last.counts);
    }
}

/// Builds prompts of a given token count from the lines of a corpus.
pub struct PromptGenerator {
    tokenizer: Tokenizer,
    lines: Vec<String>,
}

impl PromptGenerator {
    #[verifier::type_invariant]
    spec fn has_lines(self) -> bool {
        self.lines@.len() > 0
    }

    /// The corpus lines that prompts are built from.
    pub closed spec fn lines(&self) -> Seq<Seq<char>> {
        strings_view(self.lines@)
    }

    /// Whether `lines` are as many as the corpus lines and each is one of them.
    pub open spec fn from_corpus(&self, lines: Seq<Seq<char>>) -> bool {
        &&& lines.len() == self.lines().len()
        &&& forall|j: int| 0 <= j < lines.len() ==> self.has_line(#[trigger] lines[j])
    }

    /// Whether `x` is one of the corpus lines.
    pub open spec fn has_line(&self, x: Seq<char>) -> bool {
        exists|j: int| 0 <= j < self.lines().len() && #[trigger] self.lines()[j] == x
    }

    /// A generator over the non-blank lines of `corpus`, counting tokens with `tokenizer`.
    /// Fails where the corpus has no such line.
    pub fn new(tokenizer: Tokenizer, corpus: &str) -> (res: Result<Self, String>)
        ensures
            corpus_lines_of(corpus@).len() == 0 ==> res is Err && res->Err_0@
                == "Corpus is empty"@,
            corpus_lines_of(corpus@).len() > 0 ==> res is Ok && res->Ok_0.lines()
                == corpus_lines_of(corpus@),
    {
        let lines = corpus_lines(corpus);
        if lines.len() == 0 {
            return Err(String::from_str("Corpus is empty"));
        }
        Ok(PromptGenerator { tokenizer, lines })
    }

    /// A prompt of `target_tokens` tokens: whole corpus lines in random order, joined by
    /// spaces, and where the next line would go over the target, its first tokens decoded.
    /// Each pass over the shuffled lines is a `PromptPass`: a line is encoded only when the
    /// pass asks for its count, the first tokens of the line that does not fit are decoded
    /// when the pass says how many, and the lines are shuffled again for the next pass.
    /// Where a whole pass adds no token, no prompt of that size can be built and the result
    /// is an error. What the tokenizer counts, the text it decodes and the order of the
    /// lines come from outside calls, so the contract states what holds whatever they are:
    /// a prompt is what `run_prompt` makes of some run of passes over the corpus lines, and
    /// by `lemma_run_tokens` such a prompt holds exactly `target_tokens` tokens as counted.
    pub fn generate_prompt(&self, target_tokens: usize) -> (res: Result<String, String>)
        ensures
            target_tokens == 0 ==> res is Ok && res->Ok_0@ == Seq::<char>::empty(),
            res is Ok ==> exists|pieces: Seq<Seq<char>>|
                #[trigger] assemble(pieces) == res->Ok_0@ && forall|i: int|
                    0 <= i < pieces.len() - 1 ==> self.has_line(#[trigger] pieces[i]),
            res is Ok ==> exists|passes: Seq<PassRecord>, last: PassRecord, piece: Seq<char>|
                #[trigger] run_prompt(target_tokens as nat, passes, last, piece) == Some(res->Ok_0@)
                    && (forall|k: int| 0 <= k < passes.len() ==> self.from_corpus(#[trigger] passes[k].lines))
                    && self.from_corpus(last.lines),
            res matches Err(m) && m@ == "Corpus lines hold no tokens: no prompt of that size can be built"@
                ==> exists|passes: Seq<PassRecord>, last: PassRecord|
                #[trigger] run_no_progress(target_tokens as nat, passes, last) && (forall|k: int|
                    0 <= k < passes.len() ==> self.from_corpus(#[trigger] passes[k].lines))
                    && self.from_corpus(last.lines) && last.counts.len() == last.lines.len(),
            res matches Err(m) ==> {
                ||| "Tokenization error: "@.is_prefix_of(m@)
                ||| "Decode error: "@.is_prefix_of(m@)
                ||| m@ == "Corpus lines hold no tokens: no prompt of that size can be built"@
            },
    {
        proof {
            use_type_invariant(self);
        }
        let mut rng = thread_rng();
        let mut shuffled: Vec<String> = Vec::new();
        let mut c: usize = 0;
        while c < self.lines.len()
            invariant
                c <= self.lines.len(),
                shuffled@ == self.lines@.subrange(0, c as int),
            decreases self.lines.len() - c,
        {
            shuffled.push(self.lines[c].clone());
            c = c + 1;
        }
        assert(shuffled@ == self.lines@);
        shuffle_lines(&mut shuffled, &mut rng);
        proof {
            broadcast use vstd::seq_lib::to_multiset_len;
            broadcast use vstd::seq_lib::to_multiset_contains;

            assert(shuffled@.to_multiset().len() == self.lines@.to_multiset().len());
            assert forall|k: int| 0 <= k < shuffled@.len() implies self.has_line(
                #[trigger] shuffled@[k]@,
            ) by {
                assert(shuffled@.contains(shuffled@[k]));
                assert(shuffled@.to_multiset().count(shuffled@[k]) > 0);
                assert(self.lines@.contains(shuffled@[k]));
                let j = choose|j: int| 0 <= j < self.lines@.len() && self.lines@[j] == shuffled@[k];
                assert(self.lines()[j] == shuffled@[k]@);
            }
        }
        let mut fill = PromptFill::new(target_tokens);
        let ghost mut pieces: Seq<Seq<char>> = Seq::empty();
        let ghost mut passes: Seq<PassRecord> = Seq::empty();
        assert(assemble(pieces) == Seq::<char>::empty());
        loop
            invariant
                run_ended(Seq::empty(), target_tokens as nat, passes) matches Some((p, r, _)) && p
                    == assemble(pieces) && r == fill@.remaining,
                forall|k: int| 0 <= k < passes.len() ==> self.from_corpus(#[trigger] passes[k].lines),
                shuffled@.len() == self.lines@.len() > 0,
                forall|k: int| 0 <= k < shuffled@.len() ==> self.has_line(#[trigger] shuffled@[k]@),
                fill@.prompt == assemble(pieces),
                forall|k: int| 0 <= k < pieces.len() ==> self.has_line(#[trigger] pieces[k]),
                fill@.remaining <= target_tokens,
                target_tokens == 0 ==> pieces.len() == 0,
            decreases fill@.remaining,
        {
            let n = shuffled.len();
            let ghost start: nat = fill@.remaining as nat;
            let mut pass = PromptPass::new(fill, shuffled);
            proof {
                assert forall|k: int| 0 <= k < pass@.lines.len() implies self.has_line(
                    #[trigger] pass@.lines[k],
                ) by {
                    assert(pass@.lines[k] == shuffled@[k]@);
                }
            }
            let mut ids: Vec<u32> = Vec::new();
            loop
                invariant_except_break
                    pass@.start_prompt == assemble(pieces),
                    run_ended(Seq::empty(), target_tokens as nat, passes) matches Some((p, r, _)) && p
                        == assemble(pieces) && r == start,
                    pass@.status() matches PassStep::Truncate(_, c) ==> c < ids.len(),
                invariant
                    pass.wf(),
                    pass@.start == start,
                    start <= target_tokens,
                    target_tokens == 0 ==> pieces.len() == 0,
                    pass@.lines.len() == n == self.lines@.len() > 0,
                    pass@.counts.len() <= n,
                    forall|k: int| 0 <= k < pass@.lines.len() ==> self.has_line(#[trigger] pass@.lines[k]),
                    forall|k: int| 0 <= k < pieces.len() ==> self.has_line(#[trigger] pieces[k]),
                    forall|k: int| 0 <= k < passes.len() ==> self.from_corpus(#[trigger] passes[k].lines),
                    self.lines().len() == self.lines@.len(),
                ensures
                    run_ended(Seq::empty(), target_tokens as nat, passes) matches Some((p, r, _)) && p
                        == assemble(pieces) && r == pass@.remaining(),
                    pass@.prompt() == assemble(pieces),
                    pass@.remaining() < start,
                decreases n - pass@.counts.len(),
            {
                proof {
                    lemma_pass_tokens(pass@.start, pass@.counts);
                }
                match pass.status() {
                    PassStep::NeedCount(i) => {
                        ids = match encode_ids(&self.tokenizer, pass.line(i)) {
                            Ok(ids) => ids,
                            Err(e) => {
                                proof {
                                    lemma_error_kinds_differ();
                                }
                                return Err(labelled_error("Tokenization error: ", e));
                            },
                        };
                        let ghost before = pass@.counts;
                        pass.give(ids.len());
                        proof {
                            lemma_pass_tokens(pass@.start, pass@.counts);
                            assert(pass@.counts.drop_last() == before);
                            assert(pass@.counts.last() == ids.len());
                        }
                    },
                    PassStep::Truncate(i, c) => {
                        let truncated = match decode_prefix(&self.tokenizer, &ids, c) {
                            Ok(t) => t,
                            Err(e) => {
                                proof {
                                    lemma_error_kinds_differ();
                                }
                                return Err(labelled_error("Decode error: ", e));
                            },
                        };
                        let ghost taken = pass@.lines.take(i as int);
                        let prompt = pass.finish(truncated.as_str());
                        proof {
                            lemma_extend_assemble(pieces, taken);
                            let all = (pieces + taken).push(truncated@);
                            assert(all.drop_last() == pieces + taken);
                            assert forall|k: int| 0 <= k < all.len() - 1 implies self.has_line(
                                #[trigger] all[k],
                            ) by {
                                if k < pieces.len() {
                                    assert(all[k] == pieces[k]);
                                } else {
                                    assert(all[k] == pass@.lines[k - pieces.len()]);
                                }
                            }
                            assert(assemble(all) == prompt@);
                            let last = PassRecord { lines: pass@.lines, counts: pass@.counts };
                            assert(self.from_corpus(last.lines));
                            assert(run_prompt(target_tokens as nat, passes, last, truncated@) == Some(prompt@));
                        }
                        return Ok(prompt);
                    },
                    PassStep::Full => {
                        let ghost taken = pass@.lines.take(pass_fold(start, pass@.counts).taken as int);
                        let prompt = pass.into_prompt();
                        proof {
                            lemma_extend_assemble(pieces, taken);
                            let all = pieces + taken;
                            assert forall|k: int| 0 <= k < all.len() - 1 implies self.has_line(
                                #[trigger] all[k],
                            ) by {
                                if k < pieces.len() {
                                    assert(all[k] == pieces[k]);
                                } else {
                                    assert(all[k] == pass@.lines[k - pieces.len()]);
                                }
                            }
                            let last = PassRecord { lines: pass@.lines, counts: pass@.counts };
                            assert(self.from_corpus(last.lines));
                            assert(run_prompt(target_tokens as nat, passes, last, Seq::empty()) == Some(prompt@));
                        }
                        return Ok(prompt);
                    },
                    PassStep::NoProgress => {
                        proof {
                            let last = PassRecord { lines: pass@.lines, counts: pass@.counts };
                            assert(self.from_corpus(last.lines));
                            assert(run_no_progress(target_tokens as nat, passes, last));
                        }
                        return Err(
                            String::from_str(
                                "Corpus lines hold no tokens: no prompt of that size can be built",
                            ),
                        );
                    },
                    PassStep::Ended => {
                        let ghost taken = pass@.lines;
                        proof {
                            assert(pass@.lines.take(n as int) == taken);
                            lemma_extend_assemble(pieces, taken);
                            let all = pieces + taken;
                            assert forall|k: int| 0 <= k < all.len() implies self.has_line(
                                #[trigger] all[k],
                            ) by {
                                if k < pieces.len() {
                                    assert(all[k] == pieces[k]);
                                } else {
                                    assert(all[k] == pass@.lines[k - pieces.len()]);
                                }
                            }
                            let old_passes = passes;
                            let rec = PassRecord { lines: pass@.lines, counts: pass@.counts };
                            passes = passes.push(rec);
                            assert(passes.drop_last() == old_passes);
                            assert(passes.last() == rec);
                            assert(self.from_corpus(rec.lines));
                            assert forall|k: int| 0 <= k < passes.len() implies self.from_corpus(
                                #[trigger] passes[k].lines,
                            ) by {
                                if k < old_passes.len() {
                                    assert(passes[k] == old_passes[k]);
                                }
                            }
                            pieces = all;
                        }
                        break;
                    },
                }
            }
            let (next_fill, next_lines) = pass.into_parts();
            fill = next_fill;
            shuffled = next_lines;
            proof {
                assert forall|k: int| 0 <= k < shuffled@.len() implies self.has_line(
                    #[trigger] shuffled@[k]@,
                ) by {
                    assert(strings_view(shuffled@)[k] == shuffled@[k]@);
                }
            }
            let ghost before = shuffled@;
            shuffle_lines(&mut shuffled, &mut rng);
            proof {
                broadcast use vstd::seq_lib::to_multiset_len;
                broadcast use vstd::seq_lib::to_multiset_contains;

                assert(shuffled@.to_multiset().len() == before.to_multiset().len());
                assert forall|k: int| 0 <= k < shuffled@.len() implies self.has_line(
                    #[trigger] shuffled@[k]@,
                ) by {
                    assert(shuffled@.contains(shuffled@[k]));
                    assert(shuffled@.to_multiset().count(shuffled@[k]) > 0);
                    assert(before.contains(shuffled@[k]));
                    let j = choose|j: int| 0 <= j < before.len() && before[j] == shuffled@[k];
                    assert(self.has_line(before[j]@));
                }
            }
        }
    }

    /// The number of tokens in `text`, as the tokenizer encodes it without special tokens.
    /// Both the count and whether encoding succeeds come from `Tokenizer::encode`, which is
    /// not a function of the text alone (a BPE model with dropout draws random numbers), so
    /// nothing is stated of them; an error carries the tokenizer's message after
    /// `Tokenization error: `.
    pub fn count_tokens(&self, text: &str) -> (res: Result<usize, String>)
        ensures
            res matches Err(m) ==> "Tokenization error: "@.is_prefix_of(m@),
    {
        token_count(encode_ids(&self.tokenizer, text))
    }
}

} // verus!
