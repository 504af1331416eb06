//! Tokenizers registered by name.

use quickwit_extensions::{register_tokenizer, registered_tokenizers, Tokenizers};
use tantivy::tokenizer::{
    LowerCaser, RawTokenizer, SimpleTokenizer, TextAnalyzer, Token, TokenStream, Tokenizer,
};

/// Gives each word, then its lower-case form at the word's own position.
#[derive(Clone)]
struct WordAndLower;

struct Listed {
    tokens: Vec<Token>,
    /// One more than the index of the current token.
    next: usize,
}

impl Tokenizer for WordAndLower {
    type TokenStream<'a> = Listed;

    fn token_stream<'a>(&'a mut self, text: &'a str) -> Listed {
        let mut tokens = Vec::new();
        for (position, word) in text.split(' ').enumerate() {
            for text in [word.to_string(), word.to_lowercase()] {
                tokens.push(Token {
                    position,
                    text,
                    ..Token::default()
                });
            }
        }
        Listed { tokens, next: 0 }
    }
}

impl TokenStream for Listed {
    fn advance(&mut self) -> bool {
        self.next += 1;
        self.next <= self.tokens.len()
    }
    fn token(&self) -> &Token {
        &self.tokens[self.next - 1]
    }
    fn token_mut(&mut self) -> &mut Token {
        &mut self.tokens[self.next - 1]
    }
}

fn tokens(analyzer: &TextAnalyzer, text: &str) -> Vec<String> {
    let mut analyzer = analyzer.clone();
    let mut stream = analyzer.token_stream(text);
    let mut tokens = Vec::new();
    while stream.advance() {
        tokens.push(stream.token().text.clone());
    }
    tokens
}

fn raw() -> TextAnalyzer {
    TextAnalyzer::builder(RawTokenizer::default()).build()
}

fn lower_words() -> TextAnalyzer {
    TextAnalyzer::builder(SimpleTokenizer::default())
        .filter(LowerCaser)
        .build()
}

/// Names and what each analyzer makes of one text, by name.
fn listed(tokenizers: &Tokenizers) -> Vec<(String, Vec<String>)> {
    let mut listed: Vec<(String, Vec<String>)> = registered_tokenizers(tokenizers)
        .iter()
        .map(|(name, analyzer)| (name.clone(), tokens(analyzer, "Big Cat")))
        .collect();
    listed.sort();
    listed
}

fn entry(name: &str, tokens: &[&str]) -> (String, Vec<String>) {
    (
        name.to_string(),
        tokens.iter().map(|token| token.to_string()).collect(),
    )
}

#[test]
fn nothing_registered_lists_nothing() {
    assert!(registered_tokenizers(&Tokenizers::new()).is_empty());
}

#[test]
fn every_registered_tokenizer_is_listed() {
    let mut tokenizers = Tokenizers::new();
    register_tokenizer(&mut tokenizers, "words", lower_words());
    register_tokenizer(&mut tokenizers, "whole", raw());
    assert_eq!(
        listed(&tokenizers),
        [entry("whole", &["Big Cat"]), entry("words", &["big", "cat"])]
    );
    // Listing takes nothing out.
    assert_eq!(listed(&tokenizers).len(), 2);
}

#[test]
fn a_second_tokenizer_with_the_same_name_replaces_the_first() {
    let mut tokenizers = Tokenizers::new();
    register_tokenizer(&mut tokenizers, "t", lower_words());
    register_tokenizer(&mut tokenizers, "u", raw());
    register_tokenizer(&mut tokenizers, "t", raw());
    assert_eq!(
        listed(&tokenizers),
        [entry("t", &["Big Cat"]), entry("u", &["Big Cat"])]
    );
}

#[test]
fn a_registered_tokenizer_keeps_its_own_positions() {
    let mut tokenizers = Tokenizers::new();
    register_tokenizer(
        &mut tokenizers,
        "both",
        TextAnalyzer::builder(WordAndLower).build(),
    );
    let (name, mut analyzer) = registered_tokenizers(&tokenizers).remove(0);
    assert_eq!(name, "both");
    let mut stream = analyzer.token_stream("Big Cat");
    let mut seen = Vec::new();
    while stream.advance() {
        seen.push((stream.token().position, stream.token().text.clone()));
    }
    let expected = [(0, "Big"), (0, "big"), (1, "Cat"), (1, "cat")];
    assert_eq!(
        seen,
        expected.map(|(position, text)| (position, text.to_string()))
    );
}

#[test]
fn tokenizers_with_different_names_can_come_in_any_order() {
    let mut first = Tokenizers::new();
    register_tokenizer(&mut first, "words", lower_words());
    register_tokenizer(&mut first, "whole", raw());
    let mut second = Tokenizers::new();
    register_tokenizer(&mut second, "whole", raw());
    register_tokenizer(&mut second, "words", lower_words());
    assert_eq!(listed(&first), listed(&second));
}
