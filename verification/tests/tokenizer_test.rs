use std::str::FromStr;

use genai_bench_rs::tokenizer::{
    corpus_lines, token_count, LineStep, PassStep, PromptFill, PromptGenerator, PromptPass,
};
use tokenizers::Tokenizer;

fn word_tokenizer() -> Tokenizer {
    let json = r#"{
        "version": "1.0",
        "truncation": null,
        "padding": null,
        "added_tokens": [],
        "normalizer": null,
        "pre_tokenizer": {"type": "Whitespace"},
        "post_processor": null,
        "decoder": null,
        "model": {
            "type": "WordLevel",
            "vocab": {"[UNK]": 0, "to": 1, "be": 2, "or": 3, "not": 4, "that": 5, "is": 6,
                      "the": 7, "question": 8, "a": 9, "b": 10, "c": 11},
            "unk_token": "[UNK]"
        }
    }"#;
    Tokenizer::from_str(json).unwrap()
}

#[test]
fn corpus_lines_drop_blank_lines_and_crlf() {
    assert_eq!(
        corpus_lines("to be\r\n\n   \nor not\r\nlast\r"),
        vec!["to be".to_string(), "or not".to_string(), "last\r".to_string()]
    );
    assert!(corpus_lines("").is_empty());
    assert!(corpus_lines(" \n\t\n").is_empty());
}

#[test]
fn empty_corpus_is_refused() {
    match PromptGenerator::new(word_tokenizer(), "\n  \n") {
        Ok(_) => panic!("an empty corpus must be refused"),
        Err(e) => assert_eq!(e, "Corpus is empty"),
    }
}

#[test]
fn prompts_have_the_target_token_count() {
    let g = PromptGenerator::new(word_tokenizer(), "to be or not to be\nthat is the question").unwrap();
    assert_eq!(g.generate_prompt(0).unwrap(), "");
    let p = g.generate_prompt(3).unwrap();
    assert!(p == "to be or" || p == "that is the", "{}", p);
    let p = g.generate_prompt(6).unwrap();
    assert!(p == "to be or not to be" || p == "that is the question to be", "{}", p);
    let p = g.generate_prompt(10).unwrap();
    assert!(
        p == "to be or not to be that is the question" || p == "that is the question to be or not to be",
        "{}",
        p
    );
    for target in [1usize, 4, 7, 10, 23] {
        let p = g.generate_prompt(target).unwrap();
        assert_eq!(g.count_tokens(&p).unwrap(), target);
    }
}

#[test]
fn prompts_repeat_the_corpus_when_needed() {
    let g = PromptGenerator::new(word_tokenizer(), "a b c").unwrap();
    assert_eq!(g.generate_prompt(7).unwrap(), "a b c a b c a");
    assert_eq!(g.count_tokens("a b c a").unwrap(), 4);
}

#[test]
fn prompt_fill_steps() {
    let mut f = PromptFill::new(5);
    assert!(!f.is_full());
    assert_eq!(f.offer("to be", 2), LineStep::Taken);
    assert_eq!(f.remaining(), 3);
    assert_eq!(f.offer("or not to be", 4), LineStep::Truncate(3));
    assert_eq!(f.remaining(), 3);
    assert_eq!(f.offer("or not", 2), LineStep::Taken);
    assert_eq!(f.offer("x", 1), LineStep::Taken);
    assert!(f.is_full());
    assert_eq!(f.offer("y", 0), LineStep::Full);
    assert_eq!(f.into_prompt(), "to be or not x");

    let mut f = PromptFill::new(3);
    assert_eq!(f.offer("a b c d", 4), LineStep::Truncate(3));
    f.finish_with("a b c");
    assert!(f.is_full());
    assert_eq!(f.into_prompt(), "a b c");

    let mut f = PromptFill::new(0);
    assert!(f.is_full());
    assert_eq!(f.offer("a", 1), LineStep::Full);
    assert_eq!(f.into_prompt(), "");
}

#[test]
fn lines_without_tokens_cannot_fill_a_prompt() {
    let json = r#"{
        "version": "1.0",
        "truncation": null,
        "padding": null,
        "added_tokens": [],
        "normalizer": null,
        "pre_tokenizer": {"type": "Split", "pattern": {"Regex": "."}, "behavior": "Removed", "invert": false},
        "post_processor": null,
        "decoder": null,
        "model": {"type": "WordLevel", "vocab": {"[UNK]": 0}, "unk_token": "[UNK]"}
    }"#;
    let t = Tokenizer::from_str(json).unwrap();
    let g = PromptGenerator::new(t, "abc").unwrap();
    assert_eq!(g.count_tokens("abc").unwrap(), 0);
    assert_eq!(g.generate_prompt(0).unwrap(), "");
    assert!(g.generate_prompt(5).is_err());
}

#[test]
fn prompts_use_lines_in_random_order() {
    let g = PromptGenerator::new(word_tokenizer(), "to\nbe\nor\nnot\nthat\nis\nthe\nquestion").unwrap();
    let mut seen = std::collections::HashSet::new();
    for _ in 0..30 {
        let p = g.generate_prompt(8).unwrap();
        let mut words: Vec<&str> = p.split(' ').collect();
        words.sort();
        assert_eq!(words, vec!["be", "is", "not", "or", "question", "that", "the", "to"]);
        seen.insert(p);
    }
    assert!(seen.len() > 1);
}

fn lines(xs: &[&str]) -> Vec<String> {
    xs.iter().map(|x| x.to_string()).collect()
}

#[test]
fn pass_truncates_the_line_that_does_not_fit() {
    let mut p = PromptPass::new(PromptFill::new(5), lines(&["to be", "or not to be", "x"]));
    assert_eq!(p.status(), PassStep::NeedCount(0));
    assert_eq!(p.line(0), "to be");
    p.give(2);
    assert_eq!(p.status(), PassStep::NeedCount(1));
    p.give(4);
    // 3 of the 4 tokens of the second line are still needed
    assert_eq!(p.status(), PassStep::Truncate(1, 3));
    assert_eq!(p.finish("or not to"), "to be or not to");
}

#[test]
fn pass_ends_and_carries_over() {
    let mut p = PromptPass::new(PromptFill::new(5), lines(&["a", "b"]));
    p.give(1);
    p.give(1);
    assert_eq!(p.status(), PassStep::Ended);
    let (fill, rest) = p.into_parts();
    assert_eq!(fill.remaining(), 3);
    assert_eq!(rest, lines(&["a", "b"]));
    let mut q = PromptPass::new(fill, rest);
    q.give(1);
    q.give(1);
    assert_eq!(q.status(), PassStep::Ended);
    let (fill, rest) = q.into_parts();
    assert_eq!(fill.remaining(), 1);
    let mut r = PromptPass::new(fill, rest);
    r.give(1);
    assert_eq!(r.status(), PassStep::Full);
    assert_eq!(r.into_prompt(), "a b a b a");
}

#[test]
fn pass_exactly_full_after_last_line_ends() {
    let mut p = PromptPass::new(PromptFill::new(2), lines(&["a", "b"]));
    p.give(1);
    p.give(1);
    // every line was taken; the next pass finds the prompt full at once
    assert_eq!(p.status(), PassStep::Ended);
    let (fill, rest) = p.into_parts();
    assert_eq!(fill.remaining(), 0);
    let q = PromptPass::new(fill, rest);
    assert_eq!(q.status(), PassStep::Full);
    assert_eq!(q.into_prompt(), "a b");
}

#[test]
fn pass_of_empty_lines_makes_no_progress() {
    let mut p = PromptPass::new(PromptFill::new(2), lines(&["a", "b"]));
    p.give(0);
    p.give(0);
    assert_eq!(p.status(), PassStep::NoProgress);
}

#[test]
fn pass_with_nothing_to_add_is_full() {
    let p = PromptPass::new(PromptFill::new(0), lines(&["a"]));
    assert_eq!(p.status(), PassStep::Full);
    assert_eq!(p.into_prompt(), "");
}

#[test]
fn token_counts_of_encodings() {
    assert_eq!(token_count(Ok(vec![4, 8, 15])), Ok(3));
    assert_eq!(token_count(Ok(vec![])), Ok(0));
    assert_eq!(token_count(Err("bad input".to_string())), Err("Tokenization error: bad input".to_string()));
    let g = PromptGenerator::new(word_tokenizer(), "to be").unwrap();
    assert_eq!(g.count_tokens("to be or not"), Ok(4));
}
