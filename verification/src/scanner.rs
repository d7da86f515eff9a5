//! The scanner: source text to tokens and lexical errors.
//!
//! `scan` states what the tokens and errors of a text are. The `Scanner`
//! computes them one token at a time.

use vstd::prelude::*;
use crate::keywords::keyword;
use crate::text::{append, chars_of, string_of};
use crate::token::{option_text, Error, ErrorView, Token, TokenType, TokenView};

verus! {

/// Whether a character is alphabetic, as the standard library has it.
pub uninterp spec fn alphabetic(c: char) -> bool;

/// Whether a character is alphabetic or numeric, as the standard library
/// has it.
pub uninterp spec fn alphanumeric(c: char) -> bool;

/// `char::is_alphabetic` of the standard library: whether the character has
/// the Unicode property Alphabetic. The result depends on the character
/// alone and goes by the name `alphabetic`.
pub assume_specification[ char::is_alphabetic ](c: char) -> (r: bool)
    ensures
        r == alphabetic(c),
;

/// `char::is_alphanumeric` of the standard library: whether the character
/// is alphabetic or numeric in Unicode. The result depends on the character
/// alone and goes by the name `alphanumeric`.
pub assume_specification[ char::is_alphanumeric ](c: char) -> (r: bool)
    ensures
        r == alphanumeric(c),
;

/// The classes of characters of which the scanner reads runs.
#[derive(Clone, Copy, Debug, PartialEq, Eq, Structural)]
pub enum Class {
    /// A decimal digit.
    Digit,
    /// A character that may continue an identifier.
    Word,
    /// Anything but a double quote.
    Quoted,
    /// Anything but a newline.
    Comment,
}

/// Whether a character starts an identifier, where `letter` says whether it
/// is alphabetic.
pub open spec fn starts_word(c: char, letter: bool) -> bool {
    letter || c == '_'
}

/// Whether a character goes on with an identifier, where `letter_or_digit`
/// says whether it is alphabetic or numeric.
pub open spec fn continues_word(c: char, letter_or_digit: bool) -> bool {
    letter_or_digit || c == '_'
}

pub open spec fn is_digit(c: char) -> bool {
    '0' <= c && c <= '9'
}

/// Whether the character belongs to the class.
pub open spec fn in_class(class: Class, c: char) -> bool {
    match class {
        Class::Digit => is_digit(c),
        Class::Word => continues_word(c, alphanumeric(c)),
        Class::Quoted => c != '"',
        Class::Comment => c != '\n',
    }
}

/// Where the longest run of characters of the class that starts at `from`
/// ends.
pub open spec fn run_end(src: Seq<char>, from: int, class: Class) -> int
    decreases src.len() - from,
{
    if 0 <= from < src.len() && in_class(class, src[from]) {
        run_end(src, from + 1, class)
    } else {
        from
    }
}

/// The line after `line`. The count stops at the largest number.
pub open spec fn line_after(line: usize) -> usize {
    if line < usize::MAX {
        (line + 1) as usize
    } else {
        line
    }
}

/// The line reached from `line` by passing over `src[from..to]`.
pub open spec fn line_at(src: Seq<char>, from: int, to: int, line: usize) -> usize
    decreases to - from,
{
    if 0 <= from < to && from < src.len() {
        line_at(
            src,
            from + 1,
            to,
            if src[from] == '\n' {
                line_after(line)
            } else {
                line
            },
        )
    } else {
        line
    }
}

/// The digits without the zeros at their start, but for the last digit.
pub open spec fn trim_start(digits: Seq<char>) -> Seq<char>
    decreases digits.len(),
{
    if digits.len() > 1 && digits[0] == '0' {
        trim_start(digits.drop_first())
    } else {
        digits
    }
}

/// The digits without the zeros at their end, but for the first digit.
pub open spec fn trim_end(digits: Seq<char>) -> Seq<char>
    decreases digits.len(),
{
    if digits.len() > 1 && digits.last() == '0' {
        trim_end(digits.drop_last())
    } else {
        digits
    }
}

/// The literal of a number: its whole part without leading zeros, a point,
/// and its fraction without trailing zeros; a number without a fraction
/// has the fraction `0`.
pub open spec fn number_literal(whole: Seq<char>, fraction: Seq<char>) -> Seq<char> {
    trim_start(whole) + seq!['.'] + if fraction.len() == 0 {
        seq!['0']
    } else {
        trim_end(fraction)
    }
}

/// What reading one token comes to.
pub struct Lexed {
    /// Where the next token starts.
    pub next: int,
    /// The line there.
    pub line: usize,
    /// The token that was read, if one was.
    pub token: Option<TokenView>,
    /// The error that was found, if one was.
    pub error: Option<ErrorView>,
}

/// The token of the kind that `src[start..end]` stands for.
pub open spec fn plain(src: Seq<char>, start: int, end: int, line: usize, kind: TokenType)
    -> Lexed {
    Lexed {
        next: end,
        line,
        token: Some(
            TokenView {
                token_type: kind,
                lexeme: src.subrange(start, end),
                literal: None,
                line,
            },
        ),
        error: None,
    }
}

/// Nothing was read but the characters up to `end`.
pub open spec fn skipped(end: int, line: usize) -> Lexed {
    Lexed { next: end, line, token: None, error: None }
}

/// The character at `at`, or a newline past the end.
pub open spec fn peek_at(src: Seq<char>, at: int) -> char {
    if 0 <= at < src.len() {
        src[at]
    } else {
        '\n'
    }
}

/// An operator of one character, or of two where `=` follows.
pub open spec fn operator(
    src: Seq<char>,
    start: int,
    line: usize,
    single: TokenType,
    double: TokenType,
) -> Lexed {
    if start + 1 < src.len() && src[start + 1] == '=' {
        plain(src, start, start + 2, line, double)
    } else {
        plain(src, start, start + 1, line, single)
    }
}

/// A string literal that opens at `start`. It ends at the next double
/// quote, may span lines, and stands on the line of its end. Without a
/// closing quote it is an error and no token.
pub open spec fn string_lexed(src: Seq<char>, start: int, line: usize) -> Lexed {
    let close = run_end(src, start + 1, Class::Quoted);
    let last = line_at(src, start + 1, close, line);
    if close >= src.len() {
        Lexed {
            next: close,
            line: last,
            token: None,
            error: Some(ErrorView { message: "Unterminated string."@, line: last }),
        }
    } else {
        Lexed {
            next: close + 1,
            line: last,
            token: Some(
                TokenView {
                    token_type: TokenType::String,
                    lexeme: src.subrange(start, close + 1),
                    literal: Some(src.subrange(start + 1, close)),
                    line: last,
                },
            ),
            error: None,
        }
    }
}

/// A number that starts at `start`: digits, and a point with digits after
/// it where at least one digit follows the point.
pub open spec fn number_lexed(src: Seq<char>, start: int, line: usize) -> Lexed {
    let point = run_end(src, start, Class::Digit);
    let fraction = point + 1 < src.len() && src[point] == '.' && is_digit(src[point + 1]);
    let end = if fraction {
        run_end(src, point + 1, Class::Digit)
    } else {
        point
    };
    Lexed {
        next: end,
        line,
        token: Some(
            TokenView {
                token_type: TokenType::Number,
                lexeme: src.subrange(start, end),
                literal: Some(
                    number_literal(
                        src.subrange(start, point),
                        if fraction {
                            src.subrange(point + 1, end)
                        } else {
                            Seq::empty()
                        },
                    ),
                ),
                line,
            },
        ),
        error: None,
    }
}

/// An identifier or a reserved word that starts at `start`.
pub open spec fn identifier_lexed(src: Seq<char>, start: int, line: usize) -> Lexed {
    let end = run_end(src, start + 1, Class::Word);
    plain(
        src,
        start,
        end,
        line,
        match keyword(src.subrange(start, end)) {
            Some(kind) => kind,
            None => TokenType::Identifier,
        },
    )
}

/// The message for a character that starts no token.
pub open spec fn unexpected(c: char) -> Seq<char> {
    "Unexpected character: "@.push(c)
}

/// Reads one token, a comment, or a character of white space at `start`,
/// which is inside the text.
pub open spec fn lex(src: Seq<char>, start: int, line: usize) -> Lexed {
    lex_given(src, start, line, alphabetic(src[start]))
}

/// Reads one token, a comment, or a character of white space at `start`,
/// where `letter` says whether the character there is alphabetic.
pub open spec fn lex_given(src: Seq<char>, start: int, line: usize, letter: bool) -> Lexed {
    let c = src[start];
    if c == '(' {
        plain(src, start, start + 1, line, TokenType::LeftParen)
    } else if c == ')' {
        plain(src, start, start + 1, line, TokenType::RightParen)
    } else if c == '{' {
        plain(src, start, start + 1, line, TokenType::LeftBrace)
    } else if c == '}' {
        plain(src, start, start + 1, line, TokenType::RightBrace)
    } else if c == ',' {
        plain(src, start, start + 1, line, TokenType::Comma)
    } else if c == '.' {
        plain(src, start, start + 1, line, TokenType::Dot)
    } else if c == '-' {
        plain(src, start, start + 1, line, TokenType::Minus)
    } else if c == '+' {
        plain(src, start, start + 1, line, TokenType::Plus)
    } else if c == ';' {
        plain(src, start, start + 1, line, TokenType::Semicolon)
    } else if c == '*' {
        plain(src, start, start + 1, line, TokenType::Star)
    } else if c == ' ' || c == '\r' || c == '\t' {
        skipped(start + 1, line)
    } else if c == '\n' {
        skipped(start + 1, line_after(line))
    } else if c == '/' {
        if start + 1 < src.len() && src[start + 1] == '/' {
            skipped(run_end(src, start + 2, Class::Comment), line)
        } else {
            plain(src, start, start + 1, line, TokenType::Slash)
        }
    } else if c == '!' {
        operator(src, start, line, TokenType::Bang, TokenType::BangEqual)
    } else if c == '=' {
        operator(src, start, line, TokenType::Equal, TokenType::EqualEqual)
    } else if c == '<' {
        operator(src, start, line, TokenType::Less, TokenType::LessEqual)
    } else if c == '>' {
        operator(src, start, line, TokenType::Greater, TokenType::GreaterEqual)
    } else if c == '"' {
        string_lexed(src, start, line)
    } else if is_digit(c) {
        number_lexed(src, start, line)
    } else if starts_word(c, letter) {
        identifier_lexed(src, start, line)
    } else {
        Lexed {
            next: start + 1,
            line,
            token: None,
            error: Some(ErrorView { message: unexpected(c), line }),
        }
    }
}

/// A run ends at or after its start, and inside the text where it starts
/// there.
pub proof fn lemma_run_end(src: Seq<char>, from: int, class: Class)
    ensures
        from <= run_end(src, from, class),
        0 <= from <= src.len() ==> run_end(src, from, class) <= src.len(),
        forall|k: int| from <= k < run_end(src, from, class) ==> in_class(class, #[trigger] src[k]),
        0 <= run_end(src, from, class) < src.len() ==> !in_class(
            class,
            src[run_end(src, from, class)],
        ),
    decreases src.len() - from,
{
    if 0 <= from < src.len() && in_class(class, src[from]) {
        lemma_run_end(src, from + 1, class);
    }
}

/// Reading at a place inside the text ends further on, and inside the text
/// or at its end.
pub proof fn lemma_lex_given_advances(src: Seq<char>, start: int, line: usize, letter: bool)
    requires
        0 <= start < src.len(),
    ensures
        start < lex_given(src, start, line, letter).next <= src.len(),
{
    lemma_run_end(src, start + 1, Class::Quoted);
    lemma_run_end(src, start + 1, Class::Word);
    lemma_run_end(src, start + 2, Class::Comment);
    lemma_run_end(src, start, Class::Digit);
    let point = run_end(src, start, Class::Digit);
    lemma_run_end(src, point + 1, Class::Digit);
    if is_digit(src[start]) {
        assert(run_end(src, start, Class::Digit) == run_end(src, start + 1, Class::Digit));
        lemma_run_end(src, start + 1, Class::Digit);
    }
}

/// Reading at a place inside the text ends further on, and inside the text
/// or at its end.
pub proof fn lemma_lex_advances(src: Seq<char>, start: int, line: usize)
    requires
        0 <= start < src.len(),
    ensures
        start < lex(src, start, line).next <= src.len(),
{
    lemma_lex_given_advances(src, start, line, alphabetic(src[start]));
}

/// `items` with `item` before them, where there is one.
pub open spec fn with_first<T>(item: Option<T>, items: Seq<T>) -> Seq<T> {
    match item {
        Some(x) => seq![x] + items,
        None => items,
    }
}

/// The token that ends every scan.
pub open spec fn end_of_file(line: usize) -> TokenView {
    TokenView { token_type: TokenType::Eof, lexeme: Seq::empty(), literal: None, line }
}

/// The tokens and the errors of the text from `start` on, where `line` is
/// the line at `start`.
pub open spec fn scan_from(src: Seq<char>, start: int, line: usize) -> (
    Seq<TokenView>,
    Seq<ErrorView>,
)
    decreases src.len() - start,
{
    if 0 <= start < src.len() {
        let one = lex(src, start, line);
        proof {
            lemma_lex_advances(src, start, line);
        }
        let rest = scan_from(src, one.next, one.line);
        (with_first(one.token, rest.0), with_first(one.error, rest.1))
    } else {
        (seq![end_of_file(line)], Seq::empty())
    }
}

/// The tokens and the lexical errors of a text. The first line is line 1.
pub open spec fn scan(src: Seq<char>) -> (Seq<TokenView>, Seq<ErrorView>) {
    scan_from(src, 0, 1)
}

/// No reserved word is a number, a string or the end of the file.
proof fn lemma_keyword_kinds(text: Seq<char>)
    ensures
        keyword(text) != Some(TokenType::Number),
        keyword(text) != Some(TokenType::String),
        keyword(text) != Some(TokenType::Eof),
{
}

/// The literal of a number holds a point.
pub proof fn lemma_number_literal_holds_point(whole: Seq<char>, fraction: Seq<char>)
    ensures
        number_literal(whole, fraction).contains('.'),
{
    let l = number_literal(whole, fraction);
    let at = trim_start(whole).len() as int;
    assert(l[at] == '.');
}

/// Reading one token never gives the end of the file, gives a number only
/// with a literal that holds a point, and gives a token or an error but
/// not both.
pub proof fn lemma_lex_token(src: Seq<char>, start: int, line: usize)
    requires
        0 <= start < src.len(),
    ensures
        match lex(src, start, line).token {
            Some(t) => {
                &&& t.token_type != TokenType::Eof
                &&& t.token_type == TokenType::Number ==> (t.literal matches Some(l)
                    && l.contains('.'))
                &&& lex(src, start, line).error is None
            },
            None => true,
        },
{
    lemma_keyword_kinds(src.subrange(start, run_end(src, start + 1, Class::Word)));
    if is_digit(src[start]) {
        let point = run_end(src, start, Class::Digit);
        let fraction = point + 1 < src.len() && src[point] == '.' && is_digit(src[point + 1]);
        lemma_number_literal_holds_point(
            src.subrange(start, point),
            if fraction {
                src.subrange(point + 1, run_end(src, point + 1, Class::Digit))
            } else {
                Seq::empty()
            },
        );
    }
}

/// Every scan ends with the end of the file, and only there.
pub proof fn lemma_scan_ends_with_eof(src: Seq<char>, start: int, line: usize)
    ensures
        scan_from(src, start, line).0.len() > 0,
        scan_from(src, start, line).0.last().token_type == TokenType::Eof,
        forall|i: int|
            0 <= i < scan_from(src, start, line).0.len() - 1 ==> (#[trigger] scan_from(
                src,
                start,
                line,
            ).0[i]).token_type != TokenType::Eof,
    decreases src.len() - start,
{
    if 0 <= start < src.len() {
        let one = lex(src, start, line);
        lemma_lex_advances(src, start, line);
        lemma_lex_token(src, start, line);
        lemma_scan_ends_with_eof(src, one.next, one.line);
    }
}

/// Every number token of a scan has a literal, and the literal holds a
/// point.
pub proof fn lemma_scan_numbers_hold_point(src: Seq<char>, start: int, line: usize, i: int)
    requires
        0 <= i < scan_from(src, start, line).0.len(),
        scan_from(src, start, line).0[i].token_type == TokenType::Number,
    ensures
        scan_from(src, start, line).0[i].literal matches Some(l) && l.contains('.'),
    decreases src.len() - start,
{
    if 0 <= start < src.len() {
        let one = lex(src, start, line);
        lemma_lex_advances(src, start, line);
        lemma_lex_token(src, start, line);
        match one.token {
            Some(t) => {
                if i > 0 {
                    lemma_scan_numbers_hold_point(src, one.next, one.line, i - 1);
                }
            },
            None => {
                lemma_scan_numbers_hold_point(src, one.next, one.line, i);
            },
        }
    }
}

/// Passing over text never leads to an earlier line.
pub proof fn lemma_line_at(src: Seq<char>, from: int, to: int, line: usize)
    ensures
        line <= line_at(src, from, to, line),
    decreases to - from,
{
    if 0 <= from < to && from < src.len() {
        lemma_line_at(
            src,
            from + 1,
            to,
            if src[from] == '\n' {
                line_after(line)
            } else {
                line
            },
        );
    }
}

/// Whether `lexeme` is the text between two places.
pub open spec fn is_piece(src: Seq<char>, lexeme: Seq<char>) -> bool {
    exists|a: int, b: int| 0 <= a <= b <= src.len() && lexeme == #[trigger] src.subrange(a, b)
}

/// A token that is read stands on the line on which the reading ends,
/// which is not before the line on which it began, and its lexeme is the
/// text from where the reading began to where it ends.
pub proof fn lemma_lex_place(src: Seq<char>, start: int, line: usize)
    requires
        0 <= start < src.len(),
    ensures
        line <= lex(src, start, line).line,
        match lex(src, start, line).token {
            Some(t) => t.line == lex(src, start, line).line && t.lexeme == src.subrange(
                start,
                lex(src, start, line).next,
            ),
            None => true,
        },
{
    lemma_line_at(src, start + 1, run_end(src, start + 1, Class::Quoted), line);
}

/// The tokens of a scan stand on lines that never go back, and the lexeme
/// of each is a piece of the text.
pub proof fn lemma_scan_places(src: Seq<char>, start: int, line: usize)
    requires
        0 <= start,
    ensures
        forall|i: int|
            0 <= i < scan_from(src, start, line).0.len() ==> line <= (#[trigger] scan_from(
                src,
                start,
                line,
            ).0[i]).line,
        forall|i: int, j: int|
            0 <= i <= j < scan_from(src, start, line).0.len() ==> (#[trigger] scan_from(
                src,
                start,
                line,
            ).0[i]).line <= (#[trigger] scan_from(src, start, line).0[j]).line,
        forall|i: int|
            0 <= i < scan_from(src, start, line).0.len() ==> is_piece(
                src,
                (#[trigger] scan_from(src, start, line).0[i]).lexeme,
            ),
    decreases src.len() - start,
{
    let all = scan_from(src, start, line).0;
    if start < src.len() {
        let one = lex(src, start, line);
        lemma_lex_advances(src, start, line);
        lemma_lex_place(src, start, line);
        lemma_scan_places(src, one.next, one.line);
        let rest = scan_from(src, one.next, one.line).0;
        match one.token {
            Some(t) => {
                assert(all =~= seq![t] + rest);
                assert(0 <= start <= one.next <= src.len() && t.lexeme == src.subrange(
                    start,
                    one.next,
                ));
                assert forall|i: int| 0 <= i < all.len() implies line <= (#[trigger] all[i]).line
                    && is_piece(src, all[i].lexeme) by {
                    if i > 0 {
                        assert(all[i] == rest[i - 1]);
                    }
                }
                assert forall|i: int, j: int| 0 <= i <= j < all.len() implies (#[trigger] all[i]).line
                    <= (#[trigger] all[j]).line by {
                    if i > 0 {
                        assert(all[i] == rest[i - 1]);
                        assert(all[j] == rest[j - 1]);
                    } else if j > 0 {
                        assert(all[j] == rest[j - 1]);
                    }
                }
            },
            None => {
                assert(all =~= rest);
            },
        }
    } else {
        assert(all[0].lexeme =~= src.subrange(0, 0));
    }
}

/// Whether the character starts no token and is no white space.
pub open spec fn is_unknown(c: char) -> bool {
    &&& c != '(' && c != ')' && c != '{' && c != '}' && c != ',' && c != '.' && c != '-' && c
        != '+' && c != ';' && c != '*' && c != '/'
    &&& c != '!' && c != '=' && c != '<' && c != '>' && c != '"'
    &&& c != ' ' && c != '\r' && c != '\t' && c != '\n'
    &&& !is_digit(c) && !alphabetic(c) && c != '_'
}

/// A character that starts no token is one error on its line, and the
/// scan goes on after it.
pub proof fn lemma_unknown_character(src: Seq<char>, start: int, line: usize)
    requires
        0 <= start < src.len(),
        is_unknown(src[start]),
    ensures
        scan_from(src, start, line).0 == scan_from(src, start + 1, line).0,
        scan_from(src, start, line).1 == seq![
            ErrorView { message: unexpected(src[start]), line },
        ] + scan_from(src, start + 1, line).1,
{
}

/// A run goes to the end of the text where all characters from its start
/// on are of the class.
proof fn lemma_run_to_end(src: Seq<char>, from: int, class: Class)
    requires
        0 <= from <= src.len(),
        forall|k: int| from <= k < src.len() ==> in_class(class, #[trigger] src[k]),
    ensures
        run_end(src, from, class) == src.len(),
    decreases src.len() - from,
{
    if from < src.len() {
        lemma_run_to_end(src, from + 1, class);
    }
}

/// A string that is opened and never closed is one error, on the line on
/// which the text ends, and no token: after it nothing follows but the end
/// of the file.
pub proof fn lemma_unterminated_string(src: Seq<char>, start: int, line: usize)
    requires
        0 <= start < src.len(),
        src[start] == '"',
        forall|k: int| start < k < src.len() ==> #[trigger] src[k] != '"',
    ensures
        scan_from(src, start, line).0 == seq![
            end_of_file(line_at(src, start + 1, src.len() as int, line)),
        ],
        scan_from(src, start, line).1 == seq![
            ErrorView {
                message: "Unterminated string."@,
                line: line_at(src, start + 1, src.len() as int, line),
            },
        ],
{
    lemma_run_to_end(src, start + 1, Class::Quoted);
    let one = lex(src, start, line);
    assert(one == string_lexed(src, start, line));
    assert(one.next == src.len());
    let rest = scan_from(src, one.next, one.line);
    assert(rest.0 == seq![end_of_file(one.line)]);
    assert(scan_from(src, start, line).0 =~= rest.0);
    assert(scan_from(src, start, line).1 =~= seq![one.error->0]);
}

/// The scanner: the text, how far it has been read, and what was found.
#[derive(Debug)]
pub struct Scanner {
    source: Vec<char>,
    tokens: Vec<Token>,
    start: usize,
    current: usize,
    line: usize,
    errors: Vec<Error>,
}

/// The model of a `Scanner`.
pub struct ScannerView {
    /// The text.
    pub source: Seq<char>,
    /// The tokens read so far.
    pub tokens: Seq<TokenView>,
    /// The errors found so far.
    pub errors: Seq<ErrorView>,
    /// Where the token that is being read starts.
    pub start: int,
    /// Where the next character stands.
    pub current: int,
    /// The line there.
    pub line: usize,
}

/// `items` with `item` after them, where there is one.
pub open spec fn with_last<T>(items: Seq<T>, item: Option<T>) -> Seq<T> {
    match item {
        Some(x) => items.push(x),
        None => items,
    }
}

/// The scanner after it has read what `one` describes.
pub open spec fn after(s: ScannerView, one: Lexed) -> ScannerView {
    ScannerView {
        tokens: with_last(s.tokens, one.token),
        errors: with_last(s.errors, one.error),
        current: one.next,
        line: one.line,
        ..s
    }
}

impl View for Scanner {
    type V = ScannerView;

    closed spec fn view(&self) -> ScannerView {
        ScannerView {
            source: self.source@,
            tokens: self.tokens.deep_view(),
            errors: self.errors.deep_view(),
            start: self.start as int,
            current: self.current as int,
            line: self.line,
        }
    }
}

/// Whether the character starts an identifier, where `letter` says whether
/// it is alphabetic.
pub fn word_start(c: char, letter: bool) -> (r: bool)
    ensures
        r == starts_word(c, letter),
{
    letter || c == '_'
}

/// Whether the character goes on with an identifier, where
/// `letter_or_digit` says whether it is alphabetic or numeric.
pub fn word_part(c: char, letter_or_digit: bool) -> (r: bool)
    ensures
        r == continues_word(c, letter_or_digit),
{
    letter_or_digit || c == '_'
}

fn digit(c: char) -> (r: bool)
    ensures
        r == is_digit(c),
{
    '0' <= c && c <= '9'
}

impl Scanner {
    /// The token that is being read starts at or before the next
    /// character, which stands inside the text or at its end.
    pub open spec fn wf(&self) -> bool {
        0 <= self@.start <= self@.current <= self@.source.len()
    }

    /// A scanner at the start of the text, on line 1.
    pub fn new(source: &str) -> (r: Scanner)
        ensures
            r.wf(),
            r@ == (ScannerView {
                source: source@,
                tokens: Seq::empty(),
                errors: Seq::empty(),
                start: 0,
                current: 0,
                line: 1,
            }),
    {
        let r = Scanner {
            source: chars_of(source),
            tokens: Vec::new(),
            start: 0,
            current: 0,
            line: 1,
            errors: Vec::new(),
        };
        assert(r.tokens.deep_view() =~= Seq::empty());
        assert(r.errors.deep_view() =~= Seq::empty());
        r
    }

    /// Reads the rest of the text and gives all tokens and all errors. The
    /// last token is the end of the file.
    pub fn scan_tokens(self) -> (r: (Vec<Token>, Vec<Error>))
        requires
            self.wf(),
        ensures
            r.0.deep_view() == self@.tokens + scan_from(
                self@.source,
                self@.current,
                self@.line,
            ).0,
            r.1.deep_view() == self@.errors + scan_from(
                self@.source,
                self@.current,
                self@.line,
            ).1,
            r.0.len() > 0,
            r.0[r.0.len() - 1].token_type == TokenType::Eof,
    {
        let mut scanner = self;
        let ghost src = self@.source;
        while !scanner.is_at_end()
            invariant
                scanner.wf(),
                scanner@.source == src,
                self@.source == src,
                scanner@.tokens + scan_from(src, scanner@.current, scanner@.line).0
                    == self@.tokens + scan_from(src, self@.current, self@.line).0,
                scanner@.errors + scan_from(src, scanner@.current, scanner@.line).1
                    == self@.errors + scan_from(src, self@.current, self@.line).1,
            decreases src.len() - scanner@.current,
        {
            let ghost before = scanner@;
            let ghost one = lex(src, before.current, before.line);
            scanner.start = scanner.current;
            scanner.scan_token();
            proof {
                lemma_lex_advances(src, before.current, before.line);
                let rest = scan_from(src, one.next, one.line);
                assert(scanner@.tokens + rest.0 =~= before.tokens + with_first(one.token, rest.0));
                assert(scanner@.errors + rest.1 =~= before.errors + with_first(one.error, rest.1));
            }
        }
        let ghost tokens = scanner@.tokens;
        let last = Token::new(TokenType::Eof, String::new(), None, scanner.line);
        assert(last@ == end_of_file(scanner.line));
        scanner.tokens.push(last);
        assert(scanner.tokens.deep_view() =~= tokens + seq![end_of_file(scanner.line)]);
        assert(scanner@.errors + Seq::<ErrorView>::empty() =~= scanner@.errors);
        assert(scanner.tokens@.last()@ == scanner.tokens.deep_view().last());
        (scanner.tokens, scanner.errors)
    }

    /// Whether the whole text has been read.
    pub fn is_at_end(&self) -> (r: bool)
        ensures
            r == (self@.current >= self@.source.len()),
    {
        self.current >= self.source.len()
    }

    /// Reads one token, a comment, or a character of white space. At the
    /// end of the text nothing is read.
    pub fn scan_token(&mut self)
        requires
            old(self).wf(),
            old(self)@.start == old(self)@.current,
        ensures
            final(self).wf(),
            final(self)@ == if old(self)@.current < old(self)@.source.len() {
                after(old(self)@, lex(old(self)@.source, old(self)@.current, old(self)@.line))
            } else {
                old(self)@
            },
    {
        match self.advance() {
            Some(c) => {
                let letter = c.is_alphabetic();
                self.scan_character(c, letter);
            },
            None => {},
        }
    }

    /// Reads the token that the character just taken starts, or passes
    /// over it. `letter` says whether the character is alphabetic.
    pub fn scan_character(&mut self, c: char, letter: bool)
        requires
            old(self).wf(),
            old(self)@.start + 1 == old(self)@.current,
            old(self)@.source[old(self)@.start] == c,
        ensures
            final(self).wf(),
            final(self)@ == after(
                old(self)@,
                lex_given(old(self)@.source, old(self)@.start, old(self)@.line, letter),
            ),
    {
        proof {
            lemma_lex_given_advances(self@.source, self@.start, self@.line, letter);
        }
        if c == '(' {
            self.add_token(TokenType::LeftParen, None);
        } else if c == ')' {
            self.add_token(TokenType::RightParen, None);
        } else if c == '{' {
            self.add_token(TokenType::LeftBrace, None);
        } else if c == '}' {
            self.add_token(TokenType::RightBrace, None);
        } else if c == ',' {
            self.add_token(TokenType::Comma, None);
        } else if c == '.' {
            self.add_token(TokenType::Dot, None);
        } else if c == '-' {
            self.add_token(TokenType::Minus, None);
        } else if c == '+' {
            self.add_token(TokenType::Plus, None);
        } else if c == ';' {
            self.add_token(TokenType::Semicolon, None);
        } else if c == '*' {
            self.add_token(TokenType::Star, None);
        } else if c == ' ' || c == '\r' || c == '\t' {
        } else if c == '\n' {
            self.next_line();
        } else if c == '/' {
            if self.next_char_match('/') {
                self.comment();
            } else {
                self.add_token(TokenType::Slash, None);
            }
        } else if c == '!' {
            self.operator(TokenType::Bang, TokenType::BangEqual);
        } else if c == '=' {
            self.operator(TokenType::Equal, TokenType::EqualEqual);
        } else if c == '<' {
            self.operator(TokenType::Less, TokenType::LessEqual);
        } else if c == '>' {
            self.operator(TokenType::Greater, TokenType::GreaterEqual);
        } else if c == '"' {
            self.string();
        } else if digit(c) {
            self.number();
        } else if word_start(c, letter) {
            self.identifier();
        } else {
            let mut message = String::from_str("Unexpected character: ");
            message.push(c);
            self.add_error(message);
        }
    }

    /// Moves on to the next line.
    fn next_line(&mut self)
        ensures
            final(self)@ == (ScannerView { line: line_after(old(self)@.line), ..old(self)@ }),
    {
        if self.line < usize::MAX {
            self.line += 1;
        }
    }

    /// Records an error on the current line.
    fn add_error(&mut self, message: String)
        ensures
            final(self)@ == (ScannerView {
                errors: old(self)@.errors.push(
                    ErrorView { message: message@, line: old(self)@.line },
                ),
                ..old(self)@
            }),
    {
        let e = Error { message, line: self.line };
        self.errors.push(e);
        assert(self.errors.deep_view() =~= old(self).errors.deep_view().push(e@));
    }

    /// Reads the rest of a comment, up to the end of the line.
    fn comment(&mut self)
        requires
            old(self).wf(),
        ensures
            final(self).wf(),
            final(self)@ == (ScannerView {
                current: run_end(old(self)@.source, old(self)@.current, Class::Comment),
                ..old(self)@
            }),
    {
        while !self.is_at_end() && self.peek() != '\n'
            invariant
                self.wf(),
                self@ == (ScannerView { current: self@.current, ..old(self)@ }),
                run_end(self@.source, self@.current, Class::Comment) == run_end(
                    old(self)@.source,
                    old(self)@.current,
                    Class::Comment,
                ),
            decreases self@.source.len() - self@.current,
        {
            self.advance();
        }
    }

    /// Adds an operator of one character, or of two where `=` follows.
    fn operator(&mut self, single: TokenType, double: TokenType)
        requires
            old(self).wf(),
            old(self)@.start + 1 == old(self)@.current,
        ensures
            final(self).wf(),
            final(self)@ == after(
                old(self)@,
                operator(old(self)@.source, old(self)@.start, old(self)@.line, single, double),
            ),
    {
        if self.next_char_match('=') {
            self.add_token(double, None);
        } else {
            self.add_token(single, None);
        }
    }

    /// Takes the next character, if there is one.
    pub fn advance(&mut self) -> (r: Option<char>)
        requires
            old(self).wf(),
        ensures
            final(self).wf(),
            old(self)@.current < old(self)@.source.len() ==> r == Some(
                old(self)@.source[old(self)@.current],
            ) && final(self)@ == (ScannerView {
                current: old(self)@.current + 1,
                ..old(self)@
            }),
            old(self)@.current >= old(self)@.source.len() ==> r is None && final(self)@ == old(
                self,
            )@,
    {
        if self.current < self.source.len() {
            let c = self.source[self.current];
            self.current += 1;
            Some(c)
        } else {
            None
        }
    }

    /// Adds a token of the kind whose lexeme is the text from the start of
    /// the token to the next character.
    pub fn add_token(&mut self, token_type: TokenType, literal: Option<String>)
        requires
            old(self).wf(),
        ensures
            final(self).wf(),
            final(self)@ == (ScannerView {
                tokens: old(self)@.tokens.push(
                    TokenView {
                        token_type,
                        lexeme: old(self)@.source.subrange(old(self)@.start, old(self)@.current),
                        literal: option_text(literal),
                        line: old(self)@.line,
                    },
                ),
                ..old(self)@
            }),
    {
        let text = string_of(&self.source, self.start, self.current);
        let t = Token::new(token_type, text, literal, self.line);
        self.tokens.push(t);
        assert(self.tokens.deep_view() =~= old(self).tokens.deep_view().push(t@));
    }

    /// Reads the rest of an identifier or a reserved word.
    pub fn identifier(&mut self)
        requires
            old(self).wf(),
            old(self)@.start + 1 == old(self)@.current,
        ensures
            final(self).wf(),
            final(self)@ == after(
                old(self)@,
                identifier_lexed(old(self)@.source, old(self)@.start, old(self)@.line),
            ),
    {
        loop
            invariant
                self.wf(),
                self@ == (ScannerView { current: self@.current, ..old(self)@ }),
                run_end(self@.source, self@.current, Class::Word) == run_end(
                    old(self)@.source,
                    old(self)@.current,
                    Class::Word,
                ),
            ensures
                self@.current == run_end(old(self)@.source, old(self)@.current, Class::Word),
            decreases self@.source.len() - self@.current,
        {
            if self.is_at_end() {
                break ;
            }
            let c = self.peek();
            if word_part(c, c.is_alphanumeric()) {
                self.advance();
            } else {
                break ;
            }
        }
        let text = string_of(&self.source, self.start, self.current);
        match crate::keywords::map(text.as_str()) {
            Some(kind) => self.add_token(kind, None),
            None => self.add_token(TokenType::Identifier, None),
        }
    }

    /// Takes the next character where it is the expected one.
    pub fn next_char_match(&mut self, expected: char) -> (r: bool)
        requires
            old(self).wf(),
        ensures
            final(self).wf(),
            r == (old(self)@.current < old(self)@.source.len() && old(self)@.source[old(
                self,
            )@.current] == expected),
            final(self)@ == (ScannerView {
                current: if r {
                    old(self)@.current + 1
                } else {
                    old(self)@.current
                },
                ..old(self)@
            }),
    {
        if self.current >= self.source.len() {
            return false;
        }
        if self.source[self.current] != expected {
            return false;
        }
        self.current += 1;
        true
    }

    /// The next character, or a newline at the end of the text.
    pub fn peek(&self) -> (c: char)
        ensures
            c == peek_at(self@.source, self@.current),
    {
        if self.current < self.source.len() {
            self.source[self.current]
        } else {
            '\n'
        }
    }

    /// The character after the next, or a newline where there is none.
    pub fn peek_next(&self) -> (c: char)
        ensures
            c == peek_at(self@.source, self@.current + 1),
    {
        if self.current < self.source.len() && self.current + 1 < self.source.len() {
            self.source[self.current + 1]
        } else {
            '\n'
        }
    }

    /// Reads the rest of a string literal, whose opening quote has been
    /// taken.
    pub fn string(&mut self)
        requires
            old(self).wf(),
            old(self)@.start + 1 == old(self)@.current,
        ensures
            final(self).wf(),
            final(self)@ == after(
                old(self)@,
                string_lexed(old(self)@.source, old(self)@.start, old(self)@.line),
            ),
    {
        let ghost src = self@.source;
        let ghost close = run_end(src, self@.current, Class::Quoted);
        proof {
            lemma_run_end(src, self@.current, Class::Quoted);
        }
        while self.peek() != '"' && !self.is_at_end()
            invariant
                self.wf(),
                self@ == (ScannerView { current: self@.current, line: self@.line, ..old(self)@ }),
                src == self@.source,
                self@.current <= close <= src.len(),
                run_end(src, self@.current, Class::Quoted) == close,
                line_at(src, self@.current, close, self@.line) == line_at(
                    src,
                    old(self)@.current,
                    close,
                    old(self)@.line,
                ),
            decreases src.len() - self@.current,
        {
            proof {
                lemma_run_end(src, self@.current + 1, Class::Quoted);
            }
            if self.peek() == '\n' {
                self.next_line();
            }
            self.advance();
        }
        if self.is_at_end() {
            self.add_error(String::from_str("Unterminated string."));
            return ;
        }
        self.advance();
        let literal = string_of(&self.source, self.start + 1, self.current - 1);
        self.add_token(TokenType::String, Some(literal));
    }

    /// Reads the rest of a number, whose first digit has been taken.
    pub fn number(&mut self)
        requires
            old(self).wf(),
            old(self)@.start + 1 == old(self)@.current,
            is_digit(old(self)@.source[old(self)@.start]),
        ensures
            final(self).wf(),
            final(self)@ == after(
                old(self)@,
                number_lexed(old(self)@.source, old(self)@.start, old(self)@.line),
            ),
    {
        let ghost src = self@.source;
        proof {
            lemma_run_end(src, self@.current, Class::Digit);
        }
        self.digits();
        let point: usize = self.current;
        let mut fraction: bool = false;
        if self.peek() == '.' && digit(self.peek_next()) {
            fraction = true;
            proof {
                lemma_run_end(src, point + 2, Class::Digit);
            }
            self.advance();
            self.digits();
        }
        let whole = self.whole_part(point);
        let mut literal = whole;
        literal.push('.');
        if fraction {
            let rest = self.fraction_part(point + 1);
            append(&mut literal, rest.as_str());
        } else {
            literal.push('0');
        }
        assert(literal@ =~= number_literal(
            src.subrange(self@.start, point as int),
            if fraction {
                src.subrange(point + 1, self@.current)
            } else {
                Seq::empty()
            },
        ));
        self.add_token(TokenType::Number, Some(literal));
    }

    /// Takes the digits that follow.
    fn digits(&mut self)
        requires
            old(self).wf(),
        ensures
            final(self).wf(),
            final(self)@ == (ScannerView {
                current: run_end(old(self)@.source, old(self)@.current, Class::Digit),
                ..old(self)@
            }),
    {
        while digit(self.peek())
            invariant
                self.wf(),
                self@ == (ScannerView { current: self@.current, ..old(self)@ }),
                run_end(self@.source, self@.current, Class::Digit) == run_end(
                    old(self)@.source,
                    old(self)@.current,
                    Class::Digit,
                ),
            decreases self@.source.len() - self@.current,
        {
            self.advance();
        }
    }

    /// The digits from the start of the token to `end`, without leading
    /// zeros.
    fn whole_part(&self, end: usize) -> (r: String)
        requires
            self.wf(),
            self@.start < end <= self@.source.len(),
        ensures
            r@ == trim_start(self@.source.subrange(self@.start, end as int)),
    {
        let mut from: usize = self.start;
        while from + 1 < end && self.source[from] == '0'
            invariant
                self@.start <= from < end <= self@.source.len(),
                trim_start(self@.source.subrange(from as int, end as int)) == trim_start(
                    self@.source.subrange(self@.start, end as int),
                ),
            decreases end - from,
        {
            assert(self@.source.subrange(from as int, end as int).drop_first()
                =~= self@.source.subrange(from + 1, end as int));
            from += 1;
        }
        string_of(&self.source, from, end)
    }

    /// The digits from `from` to the next character, without trailing
    /// zeros.
    fn fraction_part(&self, from: usize) -> (r: String)
        requires
            self.wf(),
            from < self@.current,
        ensures
            r@ == trim_end(self@.source.subrange(from as int, self@.current)),
    {
        let mut end: usize = self.current;
        while from + 1 < end && self.source[end - 1] == '0'
            invariant
                from < end <= self@.current <= self@.source.len(),
                trim_end(self@.source.subrange(from as int, end as int)) == trim_end(
                    self@.source.subrange(from as int, self@.current),
                ),
            decreases end - from,
        {
            assert(self@.source.subrange(from as int, end as int).drop_last()
                =~= self@.source.subrange(from as int, end - 1));
            end -= 1;
        }
        string_of(&self.source, from, end)
    }
}

/// The tokens and the lexical errors of the text.
pub fn tokenize(source: &str) -> (r: (Vec<Token>, Vec<Error>))
    ensures
        r.0.deep_view() == scan(source@).0,
        r.1.deep_view() == scan(source@).1,
        r.0.len() > 0,
        r.0[r.0.len() - 1].token_type == TokenType::Eof,
{
    let scanner = Scanner::new(source);
    let r = scanner.scan_tokens();
    assert(Seq::<TokenView>::empty() + scan(source@).0 =~= scan(source@).0);
    assert(Seq::<ErrorView>::empty() + scan(source@).1 =~= scan(source@).1);
    r
}

} // verus!
