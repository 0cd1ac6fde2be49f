//! From text to tokens.
//!
//! The tokens of the language are numbers, names, a handful of reserved
//! words and punctuation; blanks separate them and mean nothing else. All of
//! them are made of ASCII characters, so a text that holds any other
//! character has no tokens.

use vstd::prelude::*;
use vstd::string::*;
use vstd::utf8::is_ascii_chars;
use crate::ast::Decimal;

verus! {

/// Why a text could not be parsed.
#[derive(Debug, Clone, Copy, PartialEq, Eq, Structural)]
pub enum ParseError {
    /// The text holds characters that form no token.
    InvalidToken,
    /// The tokens do not form the phrase that was asked for.
    UnrecognizedToken,
}

/// A reserved word or a piece of punctuation.
#[derive(Debug, Clone, Copy, PartialEq, Eq, Structural)]
pub enum Symbol {
    If,
    Then,
    Else,
    While,
    Do,
    Push,
    Pull,
    Return,
    True,
    False,
    And,
    Or,
    FinishedPipe,
    LParen,
    RParen,
    LBrace,
    RBrace,
    Comma,
    Semicolon,
    Bar,
    Plus,
    Minus,
    Star,
    Slash,
    Percent,
    Greater,
    Less,
    Equal,
    Assign,
    Arrow,
    FatArrow,
}

/// A token.
#[derive(Debug, PartialEq)]
pub enum Token {
    Number(Decimal),
    Name(String),
    Symbol(Symbol),
}

/// A token as a mathematical value.
pub enum Lexeme {
    Number(Decimal),
    Name(Seq<char>),
    Symbol(Symbol),
}

impl View for Token {
    type V = Lexeme;

    open spec fn view(&self) -> Lexeme {
        match self {
            Token::Number(d) => Lexeme::Number(*d),
            Token::Name(s) => Lexeme::Name(s@),
            Token::Symbol(s) => Lexeme::Symbol(*s),
        }
    }
}

/// The tokens in `tokens` as mathematical values.
pub open spec fn tokens_view(tokens: Seq<Token>) -> Seq<Lexeme> {
    Seq::new(tokens.len(), |i: int| tokens[i]@)
}

/// The kinds of characters that come in runs.
#[derive(Debug, Clone, Copy, PartialEq, Eq, Structural)]
pub enum Class {
    /// Blank, tab, line feed, carriage return.
    Space,
    /// `0` to `9`.
    Digit,
    /// Letters, digits and the underscore: what a name is made of.
    Word,
}

pub open spec fn is_space(c: char) -> bool {
    c == ' ' || c == '\t' || c == '\n' || c == '\r'
}

pub open spec fn is_digit(c: char) -> bool {
    '0' <= c && c <= '9'
}

/// What a name may begin with.
pub open spec fn is_letter(c: char) -> bool {
    ('a' <= c && c <= 'z') || ('A' <= c && c <= 'Z') || c == '_'
}

pub open spec fn in_class(c: char, class: Class) -> bool {
    match class {
        Class::Space => is_space(c),
        Class::Digit => is_digit(c),
        Class::Word => is_letter(c) || is_digit(c),
    }
}

/// Where the run of characters of one class that begins at `pos` ends.
pub open spec fn run_end(s: Seq<char>, pos: int, class: Class) -> int
    decreases s.len() - pos,
{
    if 0 <= pos < s.len() && in_class(s[pos], class) {
        run_end(s, pos + 1, class)
    } else {
        pos
    }
}

/// The number that a digit stands for.
pub open spec fn digit_value(c: char) -> nat {
    (c as int - '0' as int) as nat
}

/// The number that results from writing the digits `s` behind the number
/// `start`.
pub open spec fn digits_append(start: nat, s: Seq<char>) -> nat
    decreases s.len(),
{
    if s.len() == 0 {
        start
    } else {
        digits_append(start, s.drop_last()) * 10 + digit_value(s.last())
    }
}

/// The digits `s` without the zeros at their end.
pub open spec fn trim_zeros(s: Seq<char>) -> Seq<char>
    decreases s.len(),
{
    if s.len() > 0 && s.last() == '0' {
        trim_zeros(s.drop_last())
    } else {
        s
    }
}

/// The value of the literal with the digits `whole` before the point and
/// `fraction` behind it; none where it is too large to be kept.
pub open spec fn decimal_of(whole: Seq<char>, fraction: Seq<char>) -> Option<Decimal> {
    let kept = trim_zeros(fraction);
    let mantissa = digits_append(digits_append(0, whole), kept);
    if mantissa <= u64::MAX && kept.len() <= u8::MAX {
        Some(Decimal { mantissa: mantissa as u64, scale: kept.len() as u8 })
    } else {
        None
    }
}

/// The reserved word that `word` is, if it is one.
pub open spec fn keyword(word: Seq<char>) -> Option<Symbol> {
    if word == "if"@ {
        Some(Symbol::If)
    } else if word == "then"@ {
        Some(Symbol::Then)
    } else if word == "else"@ {
        Some(Symbol::Else)
    } else if word == "while"@ {
        Some(Symbol::While)
    } else if word == "do"@ {
        Some(Symbol::Do)
    } else if word == "push"@ {
        Some(Symbol::Push)
    } else if word == "pull"@ {
        Some(Symbol::Pull)
    } else if word == "return"@ {
        Some(Symbol::Return)
    } else if word == "true"@ {
        Some(Symbol::True)
    } else if word == "false"@ {
        Some(Symbol::False)
    } else if word == "and"@ {
        Some(Symbol::And)
    } else if word == "or"@ {
        Some(Symbol::Or)
    } else if word == "FinishedPipe"@ {
        Some(Symbol::FinishedPipe)
    } else {
        None
    }
}

/// The punctuation that is written with the two characters `a` and `b`.
pub open spec fn symbol_of_two(a: char, b: char) -> Option<Symbol> {
    if a == ':' && b == '=' {
        Some(Symbol::Assign)
    } else if a == '-' && b == '>' {
        Some(Symbol::Arrow)
    } else if a == '=' && b == '>' {
        Some(Symbol::FatArrow)
    } else {
        None
    }
}

/// The punctuation that is written with the one character `c`.
pub open spec fn symbol_of_one(c: char) -> Option<Symbol> {
    if c == '(' {
        Some(Symbol::LParen)
    } else if c == ')' {
        Some(Symbol::RParen)
    } else if c == '{' {
        Some(Symbol::LBrace)
    } else if c == '}' {
        Some(Symbol::RBrace)
    } else if c == ',' {
        Some(Symbol::Comma)
    } else if c == ';' {
        Some(Symbol::Semicolon)
    } else if c == '|' {
        Some(Symbol::Bar)
    } else if c == '+' {
        Some(Symbol::Plus)
    } else if c == '-' {
        Some(Symbol::Minus)
    } else if c == '*' {
        Some(Symbol::Star)
    } else if c == '/' {
        Some(Symbol::Slash)
    } else if c == '%' {
        Some(Symbol::Percent)
    } else if c == '>' {
        Some(Symbol::Greater)
    } else if c == '<' {
        Some(Symbol::Less)
    } else if c == '=' {
        Some(Symbol::Equal)
    } else {
        None
    }
}

/// The token that begins at `pos`, where a character stands that is not a
/// blank, and the position behind it.
///
/// A number is a run of digits, followed or not by a point and another run
/// of digits. A word is a run of letters, digits and underscores that does
/// not begin with a digit; it is a reserved word or a name. Punctuation of
/// two characters is preferred to that of one.
pub open spec fn scan(s: Seq<char>, pos: int) -> Option<(Lexeme, int)> {
    let c = s[pos];
    if is_digit(c) {
        let whole_end = run_end(s, pos, Class::Digit);
        if whole_end + 1 < s.len() && s[whole_end] == '.' && is_digit(s[whole_end + 1]) {
            let end = run_end(s, whole_end + 1, Class::Digit);
            match decimal_of(s.subrange(pos, whole_end), s.subrange(whole_end + 1, end)) {
                Some(d) => Some((Lexeme::Number(d), end)),
                None => None,
            }
        } else {
            match decimal_of(s.subrange(pos, whole_end), Seq::empty()) {
                Some(d) => Some((Lexeme::Number(d), whole_end)),
                None => None,
            }
        }
    } else if is_letter(c) {
        let end = run_end(s, pos, Class::Word);
        let word = s.subrange(pos, end);
        match keyword(word) {
            Some(symbol) => Some((Lexeme::Symbol(symbol), end)),
            None => Some((Lexeme::Name(word), end)),
        }
    } else if pos + 1 < s.len() && symbol_of_two(c, s[pos + 1]) is Some {
        Some((Lexeme::Symbol(symbol_of_two(c, s[pos + 1])->0), pos + 2))
    } else {
        match symbol_of_one(c) {
            Some(symbol) => Some((Lexeme::Symbol(symbol), pos + 1)),
            None => None,
        }
    }
}

/// `first` followed by `rest`, where there is a rest.
pub open spec fn followed_by<T>(first: Seq<T>, rest: Option<Seq<T>>) -> Option<Seq<T>> {
    match rest {
        Some(r) => Some(first + r),
        None => None,
    }
}

/// The tokens of the text from `pos` on; none where some characters form no
/// token.
pub open spec fn lex_from(s: Seq<char>, pos: int) -> Option<Seq<Lexeme>>
    decreases s.len() - pos,
{
    let start = run_end(s, pos, Class::Space);
    if start >= s.len() || start < pos || pos < 0 {
        Some(Seq::empty())
    } else {
        match scan(s, start) {
            Some((lexeme, next)) => {
                if start < next <= s.len() {
                    followed_by(seq![lexeme], lex_from(s, next))
                } else {
                    None
                }
            },
            None => None,
        }
    }
}

/// The tokens of a text; none where it holds a character outside ASCII or
/// characters that form no token.
pub open spec fn lexemes(s: Seq<char>) -> Option<Seq<Lexeme>> {
    if is_ascii_chars(s) {
        lex_from(s, 0)
    } else {
        None
    }
}

/// A run ends at or behind its start and within the text.
pub proof fn lemma_run_end_bounds(s: Seq<char>, pos: int, class: Class)
    requires
        0 <= pos <= s.len(),
    ensures
        pos <= run_end(s, pos, class) <= s.len(),
        forall|i: int| pos <= i < run_end(s, pos, class) ==> in_class(#[trigger] s[i], class),
        run_end(s, pos, class) < s.len() ==> !in_class(s[run_end(s, pos, class)], class),
    decreases s.len() - pos,
{
    if pos < s.len() && in_class(s[pos], class) {
        lemma_run_end_bounds(s, pos + 1, class);
    }
}

/// Digits written behind a number never make it smaller.
pub proof fn lemma_digits_append_grows(start: nat, s: Seq<char>, k: int)
    requires
        0 <= k <= s.len(),
        forall|i: int| 0 <= i < s.len() ==> is_digit(#[trigger] s[i]),
    ensures
        digits_append(start, s.subrange(0, k)) <= digits_append(start, s),
        start <= digits_append(start, s),
    decreases s.len(),
{
    if s.len() == 0 {
        assert(s.subrange(0, k) =~= s);
    } else if k == s.len() {
        assert(s.subrange(0, k) =~= s);
        lemma_digits_append_grows(start, s.drop_last(), 0);
    } else {
        assert(s.drop_last().subrange(0, k) =~= s.subrange(0, k));
        lemma_digits_append_grows(start, s.drop_last(), k);
    }
}

/// The character at position `i` of an ASCII text.
fn char_at(src: &str, i: usize) -> (c: char)
    requires
        src.is_ascii(),
        i < src@.len(),
    ensures
        c == src@[i as int],
{
    src.get_ascii(i) as char
}

/// Whether the character belongs to the class.
fn class_holds(c: char, class: Class) -> (r: bool)
    ensures
        r == in_class(c, class),
{
    match class {
        Class::Space => c == ' ' || c == '\t' || c == '\n' || c == '\r',
        Class::Digit => c >= '0' && c <= '9',
        Class::Word => (c >= 'a' && c <= 'z') || (c >= 'A' && c <= 'Z') || c == '_' || (c >= '0'
            && c <= '9'),
    }
}

/// Finds the end of the run of one class that begins at `pos`.
fn skip_run(src: &str, n: usize, pos: usize, class: Class) -> (end: usize)
    requires
        src.is_ascii(),
        n == src@.len(),
        pos <= n,
    ensures
        end == run_end(src@, pos as int, class),
        pos <= end <= src@.len(),
{
    let mut i: usize = pos;
    while i < n
        invariant
            src.is_ascii(),
            n == src@.len(),
            pos <= i <= n,
            run_end(src@, pos as int, class) == run_end(src@, i as int, class),
        decreases n - i,
    {
        if !class_holds(char_at(src, i), class) {
            return i;
        }
        i = i + 1;
    }
    i
}

/// Writes the digits from `from` up to `to` behind the number `start`; none
/// where the result does not fit.
fn append_digits(src: &str, from: usize, to: usize, start: u64) -> (r: Option<u64>)
    requires
        src.is_ascii(),
        from <= to <= src@.len(),
        forall|i: int| from <= i < to ==> is_digit(#[trigger] src@[i]),
    ensures
        match r {
            Some(v) => v == digits_append(start as nat, src@.subrange(from as int, to as int)),
            None => digits_append(start as nat, src@.subrange(from as int, to as int)) > u64::MAX,
        },
{
    let ghost digits = src@.subrange(from as int, to as int);
    let mut acc: u64 = start;
    let mut i: usize = from;
    proof {
        assert(digits.subrange(0, 0) =~= Seq::<char>::empty());
    }
    while i < to
        invariant
            src.is_ascii(),
            from <= i <= to <= src@.len(),
            digits == src@.subrange(from as int, to as int),
            forall|j: int| 0 <= j < digits.len() ==> is_digit(#[trigger] digits[j]),
            acc == digits_append(start as nat, digits.subrange(0, i - from)),
        decreases to - i,
    {
        let c = char_at(src, i);
        proof {
            assert(digits[i - from] == c);
            assert(is_digit(digits[i - from]));
        }
        let d: u64 = (c as u8 - '0' as u8) as u64;
        proof {
            let k = i - from;
            assert(digits.subrange(0, k + 1).drop_last() =~= digits.subrange(0, k));
            assert(digits.subrange(0, k + 1).last() == c);
            assert(d == digit_value(c));
            assert(digits_append(start as nat, digits.subrange(0, k + 1)) == acc * 10 + d);
            lemma_digits_append_grows(start as nat, digits, k + 1);
        }
        if acc > (u64::MAX - d) / 10 {
            return None;
        }
        acc = acc * 10 + d;
        i = i + 1;
    }
    proof {
        assert(digits.subrange(0, to - from) =~= digits);
    }
    Some(acc)
}

/// Reads the number that begins at `pos`; none where it is too large.
fn scan_number(src: &str, n: usize, pos: usize) -> (r: Option<(Token, usize)>)
    requires
        src.is_ascii(),
        n == src@.len(),
        pos < n,
        is_digit(src@[pos as int]),
    ensures
        match scan(src@, pos as int) {
            Some((lexeme, next)) => r matches Some((token, end)) && token@ == lexeme && end == next
                && pos < next <= n,
            None => r is None,
        },
{
    let whole_end = skip_run(src, n, pos, Class::Digit);
    proof {
        lemma_run_end_bounds(src@, pos as int, Class::Digit);
    }
    let mut fraction_start = whole_end;
    let mut end = whole_end;
    if whole_end < n && n - whole_end > 1 {
        if char_at(src, whole_end) == '.' && class_holds(char_at(src, whole_end + 1), Class::Digit) {
            fraction_start = whole_end + 1;
            end = skip_run(src, n, fraction_start, Class::Digit);
            proof {
                lemma_run_end_bounds(src@, fraction_start as int, Class::Digit);
            }
        }
    }
    let ghost whole = src@.subrange(pos as int, whole_end as int);
    let ghost fraction = src@.subrange(fraction_start as int, end as int);
    proof {
        if fraction_start == whole_end {
            assert(fraction =~= Seq::<char>::empty());
        }
    }
    let mut kept_end = end;
    while kept_end > fraction_start && char_at(src, kept_end - 1) == '0'
        invariant
            src.is_ascii(),
            fraction_start <= kept_end <= end <= n,
            n == src@.len(),
            trim_zeros(fraction) == trim_zeros(src@.subrange(fraction_start as int, kept_end as int)),
        decreases kept_end,
    {
        proof {
            assert(src@.subrange(fraction_start as int, kept_end as int).drop_last()
                =~= src@.subrange(fraction_start as int, kept_end - 1));
        }
        kept_end = kept_end - 1;
    }
    let ghost kept = src@.subrange(fraction_start as int, kept_end as int);
    proof {
        assert(trim_zeros(fraction) == kept);
        assert forall|i: int| 0 <= i < kept.len() implies is_digit(#[trigger] kept[i]) by {
            assert(kept[i] == src@[fraction_start + i]);
        }
    }
    match append_digits(src, pos, whole_end, 0) {
        None => {
            proof {
                lemma_digits_append_grows(digits_append(0, whole), kept, 0);
            }
            None
        },
        Some(w) => {
            match append_digits(src, fraction_start, kept_end, w) {
                None => None,
                Some(m) => {
                    if kept_end - fraction_start > 255 {
                        None
                    } else {
                        let scale = (kept_end - fraction_start) as u8;
                        Some((Token::Number(Decimal { mantissa: m, scale: scale }), end))
                    }
                },
            }
        },
    }
}

/// Whether two ASCII texts are the same.
fn same_text(a: &str, b: &str) -> (r: bool)
    requires
        a.is_ascii(),
        b.is_ascii(),
    ensures
        r == (a@ == b@),
{
    let n = a.unicode_len();
    if b.unicode_len() != n {
        return false;
    }
    let mut i: usize = 0;
    while i < n
        invariant
            a.is_ascii(),
            b.is_ascii(),
            n == a@.len(),
            n == b@.len(),
            i <= n,
            forall|j: int| 0 <= j < i ==> a@[j] == b@[j],
        decreases n - i,
    {
        if char_at(a, i) != char_at(b, i) {
            return false;
        }
        i = i + 1;
    }
    proof {
        assert(a@ =~= b@);
    }
    true
}

/// The reserved word that `word` is, if it is one.
fn keyword_of(word: &str) -> (r: Option<Symbol>)
    requires
        word.is_ascii(),
    ensures
        r == keyword(word@),
{
    proof {
        reveal_strlit("if");
        reveal_strlit("then");
        reveal_strlit("else");
        reveal_strlit("while");
        reveal_strlit("do");
        reveal_strlit("push");
        reveal_strlit("pull");
        reveal_strlit("return");
        reveal_strlit("true");
        reveal_strlit("false");
        reveal_strlit("and");
        reveal_strlit("or");
        reveal_strlit("FinishedPipe");
    }
    if same_text(word, "if") {
        Some(Symbol::If)
    } else if same_text(word, "then") {
        Some(Symbol::Then)
    } else if same_text(word, "else") {
        Some(Symbol::Else)
    } else if same_text(word, "while") {
        Some(Symbol::While)
    } else if same_text(word, "do") {
        Some(Symbol::Do)
    } else if same_text(word, "push") {
        Some(Symbol::Push)
    } else if same_text(word, "pull") {
        Some(Symbol::Pull)
    } else if same_text(word, "return") {
        Some(Symbol::Return)
    } else if same_text(word, "true") {
        Some(Symbol::True)
    } else if same_text(word, "false") {
        Some(Symbol::False)
    } else if same_text(word, "and") {
        Some(Symbol::And)
    } else if same_text(word, "or") {
        Some(Symbol::Or)
    } else if same_text(word, "FinishedPipe") {
        Some(Symbol::FinishedPipe)
    } else {
        None
    }
}

/// The punctuation that is written with the two characters `a` and `b`.
fn two_char_symbol(a: char, b: char) -> (r: Option<Symbol>)
    ensures
        r == symbol_of_two(a, b),
{
    if a == ':' && b == '=' {
        Some(Symbol::Assign)
    } else if a == '-' && b == '>' {
        Some(Symbol::Arrow)
    } else if a == '=' && b == '>' {
        Some(Symbol::FatArrow)
    } else {
        None
    }
}

/// The punctuation that is written with the one character `c`.
fn one_char_symbol(c: char) -> (r: Option<Symbol>)
    ensures
        r == symbol_of_one(c),
{
    if c == '(' {
        Some(Symbol::LParen)
    } else if c == ')' {
        Some(Symbol::RParen)
    } else if c == '{' {
        Some(Symbol::LBrace)
    } else if c == '}' {
        Some(Symbol::RBrace)
    } else if c == ',' {
        Some(Symbol::Comma)
    } else if c == ';' {
        Some(Symbol::Semicolon)
    } else if c == '|' {
        Some(Symbol::Bar)
    } else if c == '+' {
        Some(Symbol::Plus)
    } else if c == '-' {
        Some(Symbol::Minus)
    } else if c == '*' {
        Some(Symbol::Star)
    } else if c == '/' {
        Some(Symbol::Slash)
    } else if c == '%' {
        Some(Symbol::Percent)
    } else if c == '>' {
        Some(Symbol::Greater)
    } else if c == '<' {
        Some(Symbol::Less)
    } else if c == '=' {
        Some(Symbol::Equal)
    } else {
        None
    }
}

/// Reads the token that begins at `pos`.
fn scan_token(src: &str, n: usize, pos: usize) -> (r: Option<(Token, usize)>)
    requires
        src.is_ascii(),
        n == src@.len(),
        pos < n,
    ensures
        match scan(src@, pos as int) {
            Some((lexeme, next)) => r matches Some((token, end)) && token@ == lexeme && end == next
                && pos < next <= n,
            None => r is None,
        },
{
    let c = char_at(src, pos);
    if class_holds(c, Class::Digit) {
        scan_number(src, n, pos)
    } else if (c >= 'a' && c <= 'z') || (c >= 'A' && c <= 'Z') || c == '_' {
        let end = skip_run(src, n, pos, Class::Word);
        proof {
            lemma_run_end_bounds(src@, pos as int, Class::Word);
            lemma_run_end_bounds(src@, pos + 1, Class::Word);
        }
        let word = src.substring_ascii(pos, end);
        match keyword_of(word) {
            Some(symbol) => Some((Token::Symbol(symbol), end)),
            None => Some((Token::Name(String::from_str(word)), end)),
        }
    } else {
        if n - pos > 1 {
            match two_char_symbol(c, char_at(src, pos + 1)) {
                Some(symbol) => {
                    return Some((Token::Symbol(symbol), pos + 2));
                },
                None => {},
            }
        }
        match one_char_symbol(c) {
            Some(symbol) => Some((Token::Symbol(symbol), pos + 1)),
            None => None,
        }
    }
}

/// Splits a text into its tokens.
///
/// The result is the sequence of tokens that [`lexemes`] gives for the
/// text, and the error `InvalidToken` exactly where it gives none.
pub fn tokenize(src: &str) -> (r: Result<Vec<Token>, ParseError>)
    ensures
        match lexemes(src@) {
            Some(all) => r is Ok && tokens_view(r->Ok_0@) == all,
            None => r == Err::<Vec<Token>, ParseError>(ParseError::InvalidToken),
        },
{
    if !src.is_ascii() {
        return Err(ParseError::InvalidToken);
    }
    let n = src.unicode_len();
    let mut tokens: Vec<Token> = Vec::new();
    let mut pos: usize = 0;
    proof {
        assert(tokens_view(tokens@) =~= Seq::<Lexeme>::empty());
        match lex_from(src@, 0) {
            Some(all) => {
                assert(Seq::<Lexeme>::empty() + all =~= all);
            },
            None => {},
        }
    }
    loop
        invariant
            src.is_ascii(),
            n == src@.len(),
            pos <= n,
            lexemes(src@) == followed_by(tokens_view(tokens@), lex_from(src@, pos as int)),
        decreases n - pos,
    {
        let start = skip_run(src, n, pos, Class::Space);
        if start >= n {
            proof {
                assert(tokens_view(tokens@) + Seq::<Lexeme>::empty() =~= tokens_view(tokens@));
            }
            return Ok(tokens);
        }
        match scan_token(src, n, start) {
            None => {
                return Err(ParseError::InvalidToken);
            },
            Some((token, next)) => {
                let ghost before = tokens_view(tokens@);
                let ghost lexeme = token@;
                tokens.push(token);
                proof {
                    assert(tokens_view(tokens@) =~= before.push(lexeme));
                    match lex_from(src@, next as int) {
                        Some(rest) => {
                            assert(before + (seq![lexeme] + rest) =~= before.push(lexeme) + rest);
                        },
                        None => {},
                    }
                }
                pos = next;
            },
        }
    }
}

} // verus!
