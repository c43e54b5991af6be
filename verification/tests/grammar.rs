use chumsky::error::Rich;
use chumsky::extra;
use chumsky::primitive::{choice, empty, end, just, none_of};
use chumsky::text::{self, ident};
use chumsky::{IterParser, Parser};
use sqlm::parser::{parse, Argument, Token};

fn argument_parser<'a>() -> impl Parser<'a, &'a str, Argument<'a>, extra::Err<Rich<'a, char>>> {
    choice((
        text::int(10)
            .from_str()
            .unwrapped()
            .map(Argument::Positional),
        ident().map(Argument::Named),
        empty().map(|_| Argument::Next),
    ))
}

fn token_parser<'a>() -> impl Parser<'a, &'a str, Token<'a>, extra::Err<Rich<'a, char>>> {
    choice((
        just("{{").map(|_| Token::EscapedCurlyStart),
        just("}}").map(|_| Token::EscapedCurlyEnd),
        just("$").validate(|text: &str, e, emitter| {
            emitter.emit(Rich::custom(
                e.span(),
                "use {} instead of $x for positional parameters",
            ));
            Token::Text(text)
        }),
        none_of("{}$")
            .repeated()
            .at_least(1)
            .to_slice()
            .map(Token::Text),
        just("{")
            .ignore_then(argument_parser())
            .then_ignore(just("}"))
            .map(Token::Argument),
    ))
}

fn combinators(input: &str) -> Option<Vec<Token<'_>>> {
    token_parser()
        .repeated()
        .collect()
        .then_ignore(end())
        .parse(input)
        .into_result()
        .ok()
}

fn strings(alphabet: &[char], length: usize) -> Vec<String> {
    let mut all = vec![String::new()];
    let mut last = vec![String::new()];
    for _ in 0..length {
        let mut next = Vec::new();
        for s in &last {
            for c in alphabet {
                let mut t = s.clone();
                t.push(*c);
                next.push(t);
            }
        }
        all.extend(next.iter().cloned());
        last = next;
    }
    all
}

#[test]
fn the_parser_reads_the_grammar_of_the_combinators() {
    let alphabet = ['{', '}', '$', 'a', '_', '0', '7', ' ', 'é'];
    let mut accepted = 0;
    for input in strings(&alphabet, 5) {
        let ours = parse(&input).ok();
        let theirs = combinators(&input);
        assert_eq!(ours, theirs, "template {input:?}");
        if ours.is_some() {
            accepted += 1;
        }
    }
    assert!(accepted > 1000);
}

#[test]
fn the_parser_agrees_on_longer_templates() {
    let templates = [
        "SELECT * FROM posts WHERE id > {after} AND id < {after} + 42",
        "SELECT '{{1,2,3}}'",
        "{0}{1}{10}{007}",
        "{a1_b2}{_}{__x}{x y}",
        "{改善}{пример}{1é}{é1}",
        "{{{}}}",
        "{{{{}}}}",
        "}}{{",
        "{ }",
        "{a}}",
        "price in $",
        "{18446744073709551615}",
        "x{}y{}z",
        "{\u{200d}}",
        "{a\u{200d}b}",
        "{٣}",
        "{a٣}",
    ];
    for template in templates {
        assert_eq!(parse(template).ok(), combinators(template), "template {template:?}");
    }
}
