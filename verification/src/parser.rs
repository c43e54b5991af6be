//! The template language: text with `{}`, `{0}` and `{name}` references,
//! `{{` and `}}` for literal braces, and no bare `$`.

use vstd::prelude::*;

use crate::text::{byte_offset, byte_offset_of, chars_of};

verus! {

/// A reference to an argument, as written between `{` and `}`.
#[derive(Debug, PartialEq, Eq)]
pub enum Argument<'a> {
    /// `{N}`: the unnamed argument number `N`, counted from zero.
    Positional(usize),
    /// `{}`: the next unnamed argument.
    Next,
    /// `{name}`: the named argument or the variable of that name.
    Named(&'a str),
}

/// One piece of a template.
#[derive(Debug, PartialEq, Eq)]
pub enum Token<'a> {
    /// `{{`, which stands for `{`.
    EscapedCurlyStart,
    /// `}}`, which stands for `}`.
    EscapedCurlyEnd,
    /// A longest run of characters other than `{`, `}` and `$`.
    Text(&'a str),
    /// `{`, a reference, `}`.
    Argument(Argument<'a>),
}

/// What an [`Argument`] stands for in contracts.
pub enum ArgumentView {
    Positional(nat),
    Next,
    Named(Seq<char>),
}

/// What a [`Token`] stands for in contracts.
pub enum TokenView {
    EscapedCurlyStart,
    EscapedCurlyEnd,
    Text(Seq<char>),
    Argument(ArgumentView),
}

impl<'a> View for Argument<'a> {
    type V = ArgumentView;

    open spec fn view(&self) -> ArgumentView {
        match self {
            Argument::Positional(n) => ArgumentView::Positional(*n as nat),
            Argument::Next => ArgumentView::Next,
            Argument::Named(name) => ArgumentView::Named(name@),
        }
    }
}

impl<'a> View for Token<'a> {
    type V = TokenView;

    open spec fn view(&self) -> TokenView {
        match self {
            Token::EscapedCurlyStart => TokenView::EscapedCurlyStart,
            Token::EscapedCurlyEnd => TokenView::EscapedCurlyEnd,
            Token::Text(text) => TokenView::Text(text@),
            Token::Argument(argument) => TokenView::Argument(argument@),
        }
    }
}

/// The views of a sequence of tokens.
pub open spec fn token_views(tokens: Seq<Token<'_>>) -> Seq<TokenView> {
    tokens.map_values(|t: Token| t@)
}

/// Why a template is refused.
#[derive(Debug, Clone, Copy, PartialEq, Eq, Structural)]
pub enum ParseErrorKind {
    /// A `$` stands in the template.
    NativePlaceholder,
    /// A `}` that closes nothing and is not doubled.
    UnmatchedClose,
    /// The template ends inside `{...`.
    UnclosedArgument,
    /// What follows `{` is neither empty, a number nor a name, up to `}`.
    MalformedArgument,
    /// The number in `{N}` does not fit the machine's index type.
    IndexTooLarge,
}

/// A refused template: the reason, and the bytes `start..end` of the
/// template that it is about.
#[derive(Debug, Clone, Copy, PartialEq, Eq)]
pub struct ParseError {
    pub kind: ParseErrorKind,
    pub start: usize,
    pub end: usize,
}

/// What a [`ParseError`] stands for in contracts.
pub struct ParseErrorView {
    pub kind: ParseErrorKind,
    pub start: nat,
    pub end: nat,
}

impl View for ParseError {
    type V = ParseErrorView;

    open spec fn view(&self) -> ParseErrorView {
        ParseErrorView { kind: self.kind, start: self.start as nat, end: self.end as nat }
    }
}

/// The message of each kind of error.
pub open spec fn kind_message(kind: ParseErrorKind) -> Seq<char> {
    match kind {
        ParseErrorKind::NativePlaceholder => "use {} instead of $x for positional parameters"@,
        ParseErrorKind::UnmatchedClose => "unmatched `}`: write `}}` for a literal brace"@,
        ParseErrorKind::UnclosedArgument => "`{` is never closed"@,
        ParseErrorKind::MalformedArgument => "expected `}`, a number or a name after `{`"@,
        ParseErrorKind::IndexTooLarge => "argument index is too large"@,
    }
}

impl ParseError {
    /// The message for the author of the template.
    pub fn message(&self) -> (r: &'static str)
        ensures
            r@ == kind_message(self.kind),
    {
        match self.kind {
            ParseErrorKind::NativePlaceholder => "use {} instead of $x for positional parameters",
            ParseErrorKind::UnmatchedClose => "unmatched `}`: write `}}` for a literal brace",
            ParseErrorKind::UnclosedArgument => "`{` is never closed",
            ParseErrorKind::MalformedArgument => "expected `}`, a number or a name after `{`",
            ParseErrorKind::IndexTooLarge => "argument index is too large",
        }
    }
}

/// Whether `chumsky::text::Char::is_ident_start` accepts `c`.
pub uninterp spec fn ident_start_class(c: char) -> bool;

/// Whether `chumsky::text::Char::is_ident_continue` accepts `c`.
pub uninterp spec fn ident_continue_class(c: char) -> bool;

/// Calls `chumsky::text::Char::is_ident_start` on a `char`: whether the
/// character may start an identifier. The contract only names the answer.
#[verifier::external_body]
fn ident_start(c: char) -> (r: bool)
    ensures
        r == ident_start_class(c),
{
    chumsky::text::Char::is_ident_start(&c)
}

/// Calls `chumsky::text::Char::is_ident_continue` on a `char`: whether the
/// character may stand inside an identifier. The contract only names the
/// answer.
#[verifier::external_body]
fn ident_continue(c: char) -> (r: bool)
    ensures
        r == ident_continue_class(c),
{
    chumsky::text::Char::is_ident_continue(&c)
}

/// A character that text runs and names may hold.
pub open spec fn is_plain(c: char) -> bool {
    c != '{' && c != '}' && c != '$'
}

/// A decimal digit.
pub open spec fn is_digit(c: char) -> bool {
    '0' <= c && c <= '9'
}

/// The value of a decimal digit.
pub open spec fn digit_value(c: char) -> nat {
    (c as u32 - '0' as u32) as nat
}

/// A character that may start a name.
pub open spec fn is_ident_start(c: char) -> bool {
    is_plain(c) && ident_start_class(c)
}

/// A character that may continue a name.
pub open spec fn is_ident_continue(c: char) -> bool {
    is_plain(c) && ident_continue_class(c)
}

/// The classes of characters that the grammar reads in runs.
#[derive(Debug, Clone, Copy, PartialEq, Eq, Structural)]
pub enum CharClass {
    Plain,
    Digit,
    IdentContinue,
}

/// Whether `c` belongs to `class`.
pub open spec fn in_class(c: char, class: CharClass) -> bool {
    match class {
        CharClass::Plain => is_plain(c),
        CharClass::Digit => is_digit(c),
        CharClass::IdentContinue => is_ident_continue(c),
    }
}

/// The end of the longest run of characters of `class` that starts at `i`.
pub open spec fn run_end(s: Seq<char>, i: int, class: CharClass) -> int
    decreases s.len() - i,
{
    if 0 <= i < s.len() && in_class(s[i], class) {
        run_end(s, i + 1, class)
    } else {
        i
    }
}

/// The number that a run of digits writes.
pub open spec fn decimal_value(digits: Seq<char>) -> nat
    decreases digits.len(),
{
    if digits.len() == 0 {
        0
    } else {
        10 * decimal_value(digits.drop_last()) + digit_value(digits.last())
    }
}

/// Where the reference that starts at `b`, just after `{`, ends: a number
/// if a digit stands there, else a name if a name may start there, else
/// nothing.
pub open spec fn body_end(s: Seq<char>, b: int) -> int {
    if b < s.len() && is_digit(s[b]) {
        if s[b] == '0' {
            b + 1
        } else {
            run_end(s, b + 1, CharClass::Digit)
        }
    } else if b < s.len() && is_ident_start(s[b]) {
        run_end(s, b + 1, CharClass::IdentContinue)
    } else {
        b
    }
}

/// The reference written in `s` from `b` to `e`.
pub open spec fn body(s: Seq<char>, b: int, e: int) -> ArgumentView {
    if e == b {
        ArgumentView::Next
    } else if is_digit(s[b]) {
        ArgumentView::Positional(decimal_value(s.subrange(b, e)))
    } else {
        ArgumentView::Named(s.subrange(b, e))
    }
}

/// What stands at a position of a template: a token and where it ends, or
/// an error and where the text it is about ends.
pub enum Step {
    Token(TokenView, int),
    Fail(ParseErrorKind, int),
}

/// The token that starts at `i`.
pub open spec fn step(s: Seq<char>, i: int) -> Step
    recommends
        0 <= i < s.len(),
{
    if s[i] == '{' {
        if i + 1 < s.len() && s[i + 1] == '{' {
            Step::Token(TokenView::EscapedCurlyStart, i + 2)
        } else {
            let e = body_end(s, i + 1);
            if e >= s.len() {
                Step::Fail(ParseErrorKind::UnclosedArgument, s.len() as int)
            } else if s[e] != '}' {
                Step::Fail(ParseErrorKind::MalformedArgument, e + 1)
            } else {
                match body(s, i + 1, e) {
                    ArgumentView::Positional(n) if n > usize::MAX => Step::Fail(
                        ParseErrorKind::IndexTooLarge,
                        e + 1,
                    ),
                    argument => Step::Token(TokenView::Argument(argument), e + 1),
                }
            }
        }
    } else if s[i] == '}' {
        if i + 1 < s.len() && s[i + 1] == '}' {
            Step::Token(TokenView::EscapedCurlyEnd, i + 2)
        } else {
            Step::Fail(ParseErrorKind::UnmatchedClose, i + 1)
        }
    } else if s[i] == '$' {
        Step::Fail(ParseErrorKind::NativePlaceholder, i + 1)
    } else {
        let j = run_end(s, i, CharClass::Plain);
        Step::Token(TokenView::Text(s.subrange(i, j)), j)
    }
}

/// The tokens of `s` from `i` on, after `done`; or the first error.
pub open spec fn tokens_from(s: Seq<char>, i: int, done: Seq<TokenView>) -> Result<
    Seq<TokenView>,
    ParseErrorView,
>
    decreases s.len() - i,
{
    if 0 <= i < s.len() {
        match step(s, i) {
            Step::Token(token, j) => {
                if i < j <= s.len() {
                    tokens_from(s, j, done.push(token))
                } else {
                    Ok(done)
                }
            },
            Step::Fail(kind, j) => Err(
                ParseErrorView { kind, start: byte_offset(s, i), end: byte_offset(s, j) },
            ),
        }
    } else {
        Ok(done)
    }
}

/// The tokens of the template `s`, or why it is refused.
pub open spec fn template(s: Seq<char>) -> Result<Seq<TokenView>, ParseErrorView> {
    tokens_from(s, 0, Seq::empty())
}

/// A run ends at or after its start, inside the string, and holds only
/// characters of its class.
pub proof fn lemma_run(s: Seq<char>, i: int, class: CharClass)
    requires
        0 <= i <= s.len(),
    ensures
        i <= run_end(s, i, class) <= s.len(),
        forall|k: int| i <= k < run_end(s, i, class) ==> in_class(#[trigger] s[k], class),
        run_end(s, i, class) < s.len() ==> !in_class(s[run_end(s, i, class)], class),
    decreases s.len() - i,
{
    if i < s.len() && in_class(s[i], class) {
        lemma_run(s, i + 1, class);
    }
}

/// Every token takes at least one character, and ends inside the string.
pub proof fn lemma_step_advances(s: Seq<char>, i: int)
    requires
        0 <= i < s.len(),
    ensures
        match step(s, i) {
            Step::Token(_, j) => i < j <= s.len(),
            Step::Fail(_, j) => i < j <= s.len(),
        },
{
    lemma_run(s, i, CharClass::Plain);
    lemma_run(s, i + 1, CharClass::Plain);
    if i + 1 < s.len() {
        lemma_run(s, i + 2, CharClass::Digit);
        lemma_run(s, i + 2, CharClass::IdentContinue);
    }
}

/// The value of a run of digits does not shrink when digits follow.
pub proof fn lemma_decimal_value_grows(s: Seq<char>, b: int, k: int, e: int)
    requires
        0 <= b <= k <= e <= s.len(),
        forall|j: int| b <= j < e ==> is_digit(#[trigger] s[j]),
    ensures
        decimal_value(s.subrange(b, k)) <= decimal_value(s.subrange(b, e)),
    decreases e - k,
{
    if k < e {
        lemma_decimal_value_grows(s, b, k, e - 1);
        assert(s.subrange(b, e).drop_last() =~= s.subrange(b, e - 1));
    }
}

/// Where the tokens from `i` on are accepted, no `$` stands from `i` on.
pub proof fn lemma_no_sigil_from(s: Seq<char>, i: int, done: Seq<TokenView>)
    requires
        0 <= i,
        tokens_from(s, i, done) is Ok,
    ensures
        forall|k: int| i <= k < s.len() ==> s[k] != '$',
    decreases s.len() - i,
{
    if i < s.len() {
        lemma_step_advances(s, i);
        match step(s, i) {
            Step::Token(token, j) => {
                lemma_no_sigil_from(s, j, done.push(token));
                lemma_run(s, i, CharClass::Plain);
                if s[i] == '{' && !(i + 1 < s.len() && s[i + 1] == '{') {
                    lemma_run(s, i + 2, CharClass::Digit);
                    lemma_run(s, i + 2, CharClass::IdentContinue);
                    let e = body_end(s, i + 1);
                    assert forall|k: int| i <= k < j implies s[k] != '$' by {
                        if i + 1 < k < e {
                            assert(in_class(s[k], CharClass::Digit) || in_class(
                                s[k],
                                CharClass::IdentContinue,
                            ));
                        }
                    }
                } else {
                    assert forall|k: int| i <= k < j implies s[k] != '$' by {
                        if s[i] != '{' && s[i] != '}' {
                            assert(in_class(s[k], CharClass::Plain));
                        }
                    }
                }
            },
            Step::Fail(_, _) => {},
        }
    }
}

/// An accepted template holds no `$`, inside a reference or outside.
pub proof fn lemma_no_sigil(s: Seq<char>)
    requires
        template(s) is Ok,
    ensures
        !s.contains('$'),
{
    lemma_no_sigil_from(s, 0, Seq::empty());
}

/// A run of plain characters reaches the end of a string that holds
/// nothing else.
pub proof fn lemma_plain_run(s: Seq<char>, i: int)
    requires
        0 <= i <= s.len(),
        forall|k: int| 0 <= k < s.len() ==> is_plain(#[trigger] s[k]),
    ensures
        run_end(s, i, CharClass::Plain) == s.len(),
    decreases s.len() - i,
{
    if i < s.len() {
        lemma_plain_run(s, i + 1);
    }
}

/// A template without `{`, `}` and `$` is one run of text, which is the
/// template itself.
pub proof fn lemma_plain_text_is_one_token(s: Seq<char>)
    requires
        s.len() > 0,
        forall|k: int| 0 <= k < s.len() ==> is_plain(#[trigger] s[k]),
    ensures
        template(s) == Ok::<Seq<TokenView>, ParseErrorView>(seq![TokenView::Text(s)]),
{
    lemma_plain_run(s, 0);
    let n = s.len() as int;
    let one = Seq::<TokenView>::empty().push(TokenView::Text(s));
    assert(is_plain(s[0]));
    assert(s.subrange(0, n) =~= s);
    assert(step(s, 0) == Step::Token(TokenView::Text(s), n));
    assert(tokens_from(s, n, one) == Ok::<Seq<TokenView>, ParseErrorView>(one));
    assert(one =~= seq![TokenView::Text(s)]);
}

fn member(c: char, class: CharClass) -> (r: bool)
    ensures
        r == in_class(c, class),
{
    match class {
        CharClass::Plain => c != '{' && c != '}' && c != '$',
        CharClass::Digit => c >= '0' && c <= '9',
        CharClass::IdentContinue => c != '{' && c != '}' && c != '$' && ident_continue(c),
    }
}

fn scan(chars: &Vec<char>, i: usize, class: CharClass) -> (j: usize)
    requires
        i <= chars@.len(),
    ensures
        j == run_end(chars@, i as int, class),
        i <= j <= chars@.len(),
{
    let n: usize = chars.len();
    let mut j: usize = i;
    loop
        invariant_except_break
            i <= j <= n,
            n == chars@.len(),
            run_end(chars@, i as int, class) == run_end(chars@, j as int, class),
        ensures
            i <= j <= n,
            n == chars@.len(),
            j == run_end(chars@, i as int, class),
        decreases n - j,
    {
        if j >= n {
            break ;
        }
        if !member(chars[j], class) {
            break ;
        }
        j += 1;
    }
    j
}

fn index_value(chars: &Vec<char>, b: usize, e: usize) -> (r: Option<usize>)
    requires
        b <= e <= chars@.len(),
        forall|j: int| b <= j < e ==> is_digit(#[trigger] chars@[j]),
    ensures
        match r {
            Some(v) => v == decimal_value(chars@.subrange(b as int, e as int)),
            None => decimal_value(chars@.subrange(b as int, e as int)) > usize::MAX,
        },
{
    let mut k: usize = b;
    let mut value: usize = 0;
    proof {
        assert(chars@.subrange(b as int, b as int) =~= Seq::<char>::empty());
    }
    while k < e
        invariant
            b <= k <= e <= chars@.len(),
            forall|j: int| b <= j < e ==> is_digit(#[trigger] chars@[j]),
            value == decimal_value(chars@.subrange(b as int, k as int)),
        decreases e - k,
    {
        let c: char = chars[k];
        let d: usize = (c as u32 - '0' as u32) as usize;
        proof {
            assert(is_digit(chars@[k as int]));
            assert(chars@.subrange(b as int, k + 1).drop_last() =~= chars@.subrange(
                b as int,
                k as int,
            ));
            lemma_decimal_value_grows(chars@, b as int, k + 1, e as int);
        }
        let next: Option<usize> = match value.checked_mul(10) {
            Some(tenfold) => tenfold.checked_add(d),
            None => None,
        };
        match next {
            Some(v) => {
                value = v;
            },
            None => {
                return None;
            },
        }
        k += 1;
    }
    Some(value)
}

fn error_at(input: &str, chars: &Vec<char>, kind: ParseErrorKind, i: usize, j: usize) -> (e:
    ParseError)
    requires
        chars@ == input@,
        i <= j <= chars@.len(),
    ensures
        e@ == (ParseErrorView {
            kind,
            start: byte_offset(input@, i as int),
            end: byte_offset(input@, j as int),
        }),
{
    ParseError { kind, start: byte_offset_of(input, chars, i), end: byte_offset_of(input, chars, j) }
}

/// Splits a template into its tokens, or says where and why it is refused.
pub fn parse(input: &str) -> (r: Result<Vec<Token<'_>>, ParseError>)
    ensures
        match r {
            Ok(tokens) => template(input@) == Ok::<Seq<TokenView>, ParseErrorView>(
                token_views(tokens@),
            ),
            Err(e) => template(input@) == Err::<Seq<TokenView>, ParseErrorView>(e@),
        },
{
    let chars = chars_of(input);
    let n: usize = chars.len();
    let mut tokens: Vec<Token<'_>> = Vec::new();
    let mut i: usize = 0;
    proof {
        assert(token_views(tokens@) =~= Seq::<TokenView>::empty());
    }
    while i < n
        invariant
            i <= n,
            n == chars@.len(),
            chars@ == input@,
            template(input@) == tokens_from(input@, i as int, token_views(tokens@)),
        decreases n - i,
    {
        let ghost before = token_views(tokens@);
        proof {
            lemma_step_advances(input@, i as int);
        }
        let c: char = chars[i];
        if c == '{' {
            if i + 1 < n && chars[i + 1] == '{' {
                tokens.push(Token::EscapedCurlyStart);
                assert(token_views(tokens@) =~= before.push(TokenView::EscapedCurlyStart));
                i += 2;
            } else {
                let b: usize = i + 1;
                let e: usize = if b < n && member(chars[b], CharClass::Digit) {
                    if chars[b] == '0' {
                        b + 1
                    } else {
                        scan(&chars, b + 1, CharClass::Digit)
                    }
                } else if b < n && member(chars[b], CharClass::Plain) && ident_start(chars[b]) {
                    scan(&chars, b + 1, CharClass::IdentContinue)
                } else {
                    b
                };
                assert(e == body_end(input@, b as int));
                if e >= n {
                    return Err(error_at(input, &chars, ParseErrorKind::UnclosedArgument, i, n));
                }
                if chars[e] != '}' {
                    return Err(
                        error_at(input, &chars, ParseErrorKind::MalformedArgument, i, e + 1),
                    );
                }
                let argument = if e == b {
                    Argument::Next
                } else if member(chars[b], CharClass::Digit) {
                    proof {
                        lemma_run(input@, b + 1, CharClass::Digit);
                    }
                    match index_value(&chars, b, e) {
                        Some(v) => Argument::Positional(v),
                        None => {
                            return Err(
                                error_at(input, &chars, ParseErrorKind::IndexTooLarge, i, e + 1),
                            );
                        },
                    }
                } else {
                    Argument::Named(input.substring_char(b, e))
                };
                assert(argument@ == body(input@, b as int, e as int));
                tokens.push(Token::Argument(argument));
                assert(token_views(tokens@) =~= before.push(TokenView::Argument(argument@)));
                i = e + 1;
            }
        } else if c == '}' {
            if i + 1 < n && chars[i + 1] == '}' {
                tokens.push(Token::EscapedCurlyEnd);
                assert(token_views(tokens@) =~= before.push(TokenView::EscapedCurlyEnd));
                i += 2;
            } else {
                return Err(error_at(input, &chars, ParseErrorKind::UnmatchedClose, i, i + 1));
            }
        } else if c == '$' {
            return Err(error_at(input, &chars, ParseErrorKind::NativePlaceholder, i, i + 1));
        } else {
            let j: usize = scan(&chars, i, CharClass::Plain);
            let text = input.substring_char(i, j);
            tokens.push(Token::Text(text));
            assert(token_views(tokens@) =~= before.push(TokenView::Text(text@)));
            i = j;
        }
    }
    Ok(tokens)
}

} // verus!
