//! What a source text is scanned to, and the scanner.

use vstd::prelude::*;

use crate::report;
use crate::report_text;
use crate::text::{characters, push_range, slice_text, spells, texts};
use crate::token::{token_views, LiteralKind, LiteralValue, Token, TokenKind, TokenView};

verus! {

/// Whether `c` is a decimal digit.
pub open spec fn is_digit(c: char) -> bool {
    '0' <= c && c <= '9'
}

/// Whether `c` may begin an identifier: a letter or an underscore.
pub open spec fn is_letter(c: char) -> bool {
    ('a' <= c && c <= 'z') || ('A' <= c && c <= 'Z') || c == '_'
}

/// The classes of characters of which the scanner consumes whole runs.
#[derive(Clone, Copy, PartialEq, Eq, Structural)]
pub enum CharClass {
    /// A decimal digit.
    Digit,
    /// A character of an identifier: a letter, a digit or an underscore.
    Word,
    /// A character of a line comment: anything but a line feed.
    Comment,
}

impl CharClass {
    /// Whether `c` is of the class.
    pub open spec fn holds(self, c: char) -> bool {
        match self {
            CharClass::Digit => is_digit(c),
            CharClass::Word => is_letter(c) || is_digit(c),
            CharClass::Comment => c != '\n',
        }
    }

    /// Whether `c` is of the class.
    fn has(&self, c: char) -> (r: bool)
        ensures
            r == self.holds(c),
    {
        match self {
            CharClass::Digit => c >= '0' && c <= '9',
            CharClass::Word => (c >= 'a' && c <= 'z') || (c >= 'A' && c <= 'Z') || c == '_' || (c
                >= '0' && c <= '9'),
            CharClass::Comment => c != '\n',
        }
    }
}

/// Where the run of characters of `class` that starts at `pos` ends.
pub open spec fn run_end(source: Seq<char>, pos: int, class: CharClass) -> int
    decreases source.len() - pos,
{
    if 0 <= pos < source.len() && class.holds(source[pos]) {
        run_end(source, pos + 1, class)
    } else {
        pos
    }
}

/// The position of the first double quote at or after `pos`, or the length of
/// the source where there is none.
pub open spec fn quote_position(source: Seq<char>, pos: int) -> int
    decreases source.len() - pos,
{
    if 0 <= pos < source.len() && source[pos] != '"' {
        quote_position(source, pos + 1)
    } else {
        pos
    }
}

/// The line after `line`. A count that has reached the largest number stays there.
pub open spec fn next_line(line: usize) -> usize {
    if line < usize::MAX {
        (line + 1) as usize
    } else {
        line
    }
}

/// The line reached from `line` after the characters `source[from..to]`.
pub open spec fn line_after(source: Seq<char>, from: int, to: int, line: usize) -> usize
    decreases to - from,
{
    if 0 <= from < to && from < source.len() {
        line_after(
            source,
            from + 1,
            to,
            if source[from] == '\n' {
                next_line(line)
            } else {
                line
            },
        )
    } else {
        line
    }
}

/// Whether the character at `pos` is `expected`.
pub open spec fn follows(source: Seq<char>, pos: int, expected: char) -> bool {
    0 <= pos < source.len() && source[pos] == expected
}

/// Where the number literal ends whose first digit stands just before `pos`:
/// after the digits that follow, and after a fraction where a dot and a digit
/// come next.
pub open spec fn number_end(source: Seq<char>, pos: int) -> int {
    let whole = run_end(source, pos, CharClass::Digit);
    if follows(source, whole, '.') && whole + 1 < source.len() && is_digit(source[whole + 1]) {
        run_end(source, whole + 1, CharClass::Digit)
    } else {
        whole
    }
}

/// `digits` without its leading zeros; the last digit always stays.
pub open spec fn trim_leading_zeros(digits: Seq<char>) -> Seq<char>
    decreases digits.len(),
{
    if digits.len() > 1 && digits[0] == '0' {
        trim_leading_zeros(digits.subrange(1, digits.len() as int))
    } else {
        digits
    }
}

/// `digits` without its trailing zeros; the first digit always stays.
pub open spec fn trim_trailing_zeros(digits: Seq<char>) -> Seq<char>
    decreases digits.len(),
{
    if digits.len() > 1 && digits.last() == '0' {
        trim_trailing_zeros(digits.drop_last())
    } else {
        digits
    }
}

/// The numeral that a number literal stands for, from the digits before and
/// after its dot. It always holds a dot: without a fraction, or with one of
/// zeros only, a single zero follows the dot.
pub open spec fn numeral(whole: Seq<char>, fraction: Seq<char>) -> Seq<char> {
    trim_leading_zeros(whole).push('.') + if fraction.len() == 0 {
        seq!['0']
    } else {
        trim_trailing_zeros(fraction)
    }
}

/// The numeral of the number literal `source[start..end]`.
pub open spec fn number_literal(source: Seq<char>, start: int, end: int) -> Seq<char> {
    let whole = run_end(source, start, CharClass::Digit);
    if whole < end {
        numeral(source.subrange(start, whole), source.subrange(whole + 1, end))
    } else {
        numeral(source.subrange(start, end), Seq::empty())
    }
}

/// The keyword that `lexeme` spells, if any.
pub open spec fn keyword(lexeme: Seq<char>) -> Option<TokenKind> {
    if lexeme == "and"@ {
        Some(TokenKind::And)
    } else if lexeme == "class"@ {
        Some(TokenKind::Class)
    } else if lexeme == "else"@ {
        Some(TokenKind::Else)
    } else if lexeme == "false"@ {
        Some(TokenKind::False)
    } else if lexeme == "for"@ {
        Some(TokenKind::For)
    } else if lexeme == "fun"@ {
        Some(TokenKind::Fun)
    } else if lexeme == "if"@ {
        Some(TokenKind::If)
    } else if lexeme == "nil"@ {
        Some(TokenKind::Nil)
    } else if lexeme == "or"@ {
        Some(TokenKind::Or)
    } else if lexeme == "print"@ {
        Some(TokenKind::Print)
    } else if lexeme == "return"@ {
        Some(TokenKind::Return)
    } else if lexeme == "super"@ {
        Some(TokenKind::Super)
    } else if lexeme == "this"@ {
        Some(TokenKind::This)
    } else if lexeme == "true"@ {
        Some(TokenKind::True)
    } else if lexeme == "var"@ {
        Some(TokenKind::Var)
    } else if lexeme == "while"@ {
        Some(TokenKind::While)
    } else {
        None
    }
}

/// What scanning one lexeme does.
pub ghost struct Step {
    /// Where the next lexeme starts.
    pub next: int,
    /// The line on which the next lexeme starts.
    pub line: usize,
    /// The token that the lexeme gave, if any.
    pub token: Option<TokenView>,
    /// The diagnostic that the lexeme gave, if any.
    pub fault: Option<Seq<char>>,
}

/// A token of `kind` with the lexeme `source[start..end]` and no literal.
pub open spec fn plain(source: Seq<char>, start: int, end: int, line: usize, kind: TokenKind) -> Step {
    Step {
        next: end,
        line,
        token: Some(
            TokenView { kind, lexeme: source.subrange(start, end), literal: LiteralValue::Nil, line },
        ),
        fault: None,
    }
}

/// The operator that starts at `start` and is `double` where an equals sign
/// follows its first character, `single` where none does.
pub open spec fn operator(
    source: Seq<char>,
    start: int,
    line: usize,
    double: TokenKind,
    single: TokenKind,
) -> Step {
    if follows(source, start + 1, '=') {
        plain(source, start, start + 2, line, double)
    } else {
        plain(source, start, start + 1, line, single)
    }
}

/// A step that gives neither a token nor a diagnostic.
pub open spec fn silent(next: int, line: usize) -> Step {
    Step { next, line, token: None, fault: None }
}

/// What scanning does with the lexeme that starts at `start`, on `line`.
pub open spec fn scan_step(source: Seq<char>, start: int, line: usize) -> Step
    recommends
        0 <= start < source.len(),
{
    let c = source[start];
    let after = start + 1;
    if c == '(' {
        plain(source, start, after, line, TokenKind::LeftParenthesis)
    } else if c == ')' {
        plain(source, start, after, line, TokenKind::RightParenthesis)
    } else if c == '{' {
        plain(source, start, after, line, TokenKind::LeftBrace)
    } else if c == '}' {
        plain(source, start, after, line, TokenKind::RightBrace)
    } else if c == ',' {
        plain(source, start, after, line, TokenKind::Comma)
    } else if c == '.' {
        plain(source, start, after, line, TokenKind::Dot)
    } else if c == '-' {
        plain(source, start, after, line, TokenKind::Minus)
    } else if c == '+' {
        plain(source, start, after, line, TokenKind::Plus)
    } else if c == ';' {
        plain(source, start, after, line, TokenKind::Semicolon)
    } else if c == '*' {
        plain(source, start, after, line, TokenKind::Star)
    } else if c == '!' {
        operator(source, start, line, TokenKind::BangEqual, TokenKind::Bang)
    } else if c == '=' {
        operator(source, start, line, TokenKind::EqualEqual, TokenKind::Equal)
    } else if c == '<' {
        operator(source, start, line, TokenKind::LessEqual, TokenKind::Less)
    } else if c == '>' {
        operator(source, start, line, TokenKind::GreaterEqual, TokenKind::Greater)
    } else if c == '/' {
        if follows(source, after, '/') {
            silent(run_end(source, after + 1, CharClass::Comment), line)
        } else {
            plain(source, start, after, line, TokenKind::Slash)
        }
    } else if c == ' ' || c == '\r' || c == '\t' {
        silent(after, line)
    } else if c == '\n' {
        silent(after, next_line(line))
    } else if c == '"' {
        let quote = quote_position(source, after);
        let last = line_after(source, after, quote, line);
        if quote >= source.len() {
            Step {
                next: quote,
                line: last,
                token: None,
                fault: Some(report_text(last, "Unterminated string."@)),
            }
        } else {
            Step {
                next: quote + 1,
                line: last,
                token: Some(
                    TokenView {
                        kind: TokenKind::String,
                        lexeme: source.subrange(start, quote + 1),
                        literal: LiteralValue::String(source.subrange(after, quote)),
                        line: last,
                    },
                ),
                fault: None,
            }
        }
    } else if is_digit(c) {
        let end = number_end(source, after);
        Step {
            next: end,
            line,
            token: Some(
                TokenView {
                    kind: TokenKind::Number,
                    lexeme: source.subrange(start, end),
                    literal: LiteralValue::Number(number_literal(source, start, end)),
                    line,
                },
            ),
            fault: None,
        }
    } else if is_letter(c) {
        let end = run_end(source, after, CharClass::Word);
        let kind = match keyword(source.subrange(start, end)) {
            Some(kind) => kind,
            None => TokenKind::Identifier,
        };
        plain(source, start, end, line, kind)
    } else {
        Step {
            next: after,
            line,
            token: None,
            fault: Some(report_text(line, "Unexpected character: "@.push(c))),
        }
    }
}

/// The token that ends every token sequence.
pub open spec fn end_of_input(line: usize) -> TokenView {
    TokenView { kind: TokenKind::EOF, lexeme: Seq::empty(), literal: LiteralValue::Nil, line }
}

/// The sequence of one item, or of none.
pub open spec fn optional<T>(item: Option<T>) -> Seq<T> {
    match item {
        Some(item) => seq![item],
        None => Seq::empty(),
    }
}

/// What scanning a source gives.
pub ghost struct Scan {
    /// The tokens, in the order of the source.
    pub tokens: Seq<TokenView>,
    /// The diagnostics, in the order of the source.
    pub faults: Seq<Seq<char>>,
}

/// A run cannot end before it starts, nor after the source does.
pub proof fn run_end_bounds(source: Seq<char>, pos: int, class: CharClass)
    requires
        0 <= pos <= source.len(),
    ensures
        pos <= run_end(source, pos, class) <= source.len(),
    decreases source.len() - pos,
{
    if pos < source.len() && class.holds(source[pos]) {
        run_end_bounds(source, pos + 1, class);
    }
}

/// The first quote is found at or after the place where the search begins.
pub proof fn quote_position_bounds(source: Seq<char>, pos: int)
    requires
        0 <= pos <= source.len(),
    ensures
        pos <= quote_position(source, pos) <= source.len(),
    decreases source.len() - pos,
{
    if pos < source.len() && source[pos] != '"' {
        quote_position_bounds(source, pos + 1);
    }
}

/// Every step consumes at least one character, and none beyond the source.
pub proof fn scan_step_advances(source: Seq<char>, start: int, line: usize)
    requires
        0 <= start < source.len(),
    ensures
        start < scan_step(source, start, line).next <= source.len(),
{
    let after = start + 1;
    run_end_bounds(source, after, CharClass::Digit);
    run_end_bounds(source, after, CharClass::Word);
    quote_position_bounds(source, after);
    if after + 1 <= source.len() {
        run_end_bounds(source, after + 1, CharClass::Comment);
    }
    let whole = run_end(source, after, CharClass::Digit);
    if whole + 1 <= source.len() {
        run_end_bounds(source, whole + 1, CharClass::Digit);
    }
}

/// What scanning gives from the position `pos` on, which lies on `line`: the
/// tokens of the lexemes from there to the end of the source, and the
/// end-of-input token after them.
pub open spec fn scan_from(source: Seq<char>, pos: int, line: usize) -> Scan
    decreases source.len() - pos,
{
    if 0 <= pos < source.len() {
        let step = scan_step(source, pos, line);
        proof {
            scan_step_advances(source, pos, line);
        }
        let rest = scan_from(source, step.next, step.line);
        Scan {
            tokens: optional(step.token) + rest.tokens,
            faults: optional(step.fault) + rest.faults,
        }
    } else {
        Scan { tokens: seq![end_of_input(line)], faults: Seq::empty() }
    }
}

/// What scanning a whole source gives.
pub open spec fn scan(source: Seq<char>) -> Scan {
    scan_from(source, 0, 1)
}

/// Whether `tokens` ends with an end-of-input token and holds no other.
pub open spec fn ends_with_single_eof(tokens: Seq<TokenView>) -> bool {
    &&& tokens.len() > 0
    &&& tokens.last().kind == TokenKind::EOF
    &&& forall|i: int| 0 <= i < tokens.len() - 1 ==> (#[trigger] tokens[i]).kind != TokenKind::EOF
}

/// No step gives an end-of-input token.
pub proof fn scan_step_token_kind(source: Seq<char>, start: int, line: usize)
    requires
        0 <= start < source.len(),
    ensures
        scan_step(source, start, line).token matches Some(token) ==> token.kind != TokenKind::EOF,
{
}

/// The tokens of any source end with exactly one end-of-input token, from
/// whatever position and line scanning begins.
pub proof fn scan_from_ends_with_single_eof(source: Seq<char>, pos: int, line: usize)
    ensures
        ends_with_single_eof(scan_from(source, pos, line).tokens),
    decreases source.len() - pos,
{
    if 0 <= pos < source.len() {
        let step = scan_step(source, pos, line);
        scan_step_advances(source, pos, line);
        scan_step_token_kind(source, pos, line);
        scan_from_ends_with_single_eof(source, step.next, step.line);
        let rest = scan_from(source, step.next, step.line).tokens;
        let all = optional(step.token) + rest;
        assert(scan_from(source, pos, line).tokens == all);
        assert(all.last() == rest.last());
        assert forall|i: int| 0 <= i < all.len() - 1 implies (#[trigger] all[i]).kind
            != TokenKind::EOF by {
            if i >= optional(step.token).len() {
                assert(all[i] == rest[i - optional(step.token).len()]);
            }
        }
    }
}

/// The tokens of any source end with exactly one end-of-input token.
pub proof fn scan_ends_with_single_eof(source: Seq<char>)
    ensures
        ends_with_single_eof(scan(source).tokens),
{
    scan_from_ends_with_single_eof(source, 0, 1);
}


/// Turns a source text into tokens.
pub struct Scanner {
    source: Vec<char>,
    tokens: Vec<Token>,
    diagnostics: Vec<String>,
    start: usize,
    current: usize,
    line: usize,
}

impl Scanner {
    /// The characters of the source.
    pub closed spec fn source(&self) -> Seq<char> {
        self.source@
    }

    /// The position up to which the source has been scanned.
    pub closed spec fn position(&self) -> int {
        self.current as int
    }

    /// The line on which that position lies.
    pub closed spec fn line(&self) -> usize {
        self.line
    }

    /// The tokens found so far.
    pub closed spec fn emitted(&self) -> Seq<TokenView> {
        token_views(self.tokens@)
    }

    /// The diagnostics given so far.
    pub closed spec fn faults(&self) -> Seq<Seq<char>> {
        texts(self.diagnostics@)
    }

    /// The invariant of a scanner.
    pub closed spec fn wf(&self) -> bool {
        self.start <= self.current <= self.source.len()
    }

    /// A scanner at the start of `source`.
    pub fn new(source: String) -> (r: Self)
        ensures
            r.wf(),
            r.source() == source@,
            r.position() == 0,
            r.line() == 1,
            r.emitted() == Seq::<TokenView>::empty(),
            r.faults() == Seq::<Seq<char>>::empty(),
    {
        let r = Scanner {
            source: characters(source.as_str()),
            tokens: Vec::new(),
            diagnostics: Vec::new(),
            start: 0,
            current: 0,
            line: 1,
        };
        assert(r.emitted() =~= Seq::<TokenView>::empty());
        assert(r.faults() =~= Seq::<Seq<char>>::empty());
        r
    }

    /// Scans the rest of the source and returns all tokens found, the last
    /// of which is the end-of-input token.
    pub fn scan_tokens(&mut self) -> (r: &Vec<Token>)
        requires
            old(self).wf(),
        ensures
            final(self).wf(),
            final(self).source() == old(self).source(),
            final(self).position() == old(self).source().len(),
            final(self).emitted() == old(self).emitted() + scan_from(
                old(self).source(),
                old(self).position(),
                old(self).line(),
            ).tokens,
            final(self).faults() == old(self).faults() + scan_from(
                old(self).source(),
                old(self).position(),
                old(self).line(),
            ).faults,
            token_views(r@) == final(self).emitted(),
            old(self).emitted().len() == 0 ==> ends_with_single_eof(token_views(r@)),
    {
        let ghost whole = scan_from(self.source@, self.current as int, self.line);
        while !self.is_at_end()
            invariant
                self.wf(),
                self.source == old(self).source,
                self.emitted() + scan_from(self.source@, self.current as int, self.line).tokens
                    == old(self).emitted() + whole.tokens,
                self.faults() + scan_from(self.source@, self.current as int, self.line).faults
                    == old(self).faults() + whole.faults,
            decreases self.source.len() - self.current,
        {
            let ghost before = *self;
            self.start = self.current;
            proof {
                scan_step_advances(self.source@, self.current as int, self.line);
            }
            self.scan_token();
            proof {
                let step = scan_step(before.source@, before.current as int, before.line);
                let rest = scan_from(self.source@, self.current as int, self.line);
                assert(self.emitted() + rest.tokens =~= before.emitted() + (optional(step.token)
                    + rest.tokens));
                assert(self.faults() + rest.faults =~= before.faults() + (optional(step.fault)
                    + rest.faults));
            }
        }
        let end = Token::new(TokenKind::EOF, String::new(), LiteralKind::Nil, self.line);
        assert(end@ == end_of_input(self.line));
        let ghost before = *self;
        self.tokens.push(end);
        proof {
            assert(self.emitted() =~= before.emitted() + seq![end_of_input(self.line)]);
            assert(self.faults() == before.faults());
            scan_from_ends_with_single_eof(
                old(self).source(),
                old(self).position(),
                old(self).line(),
            );
            if old(self).emitted().len() == 0 {
                assert(self.emitted() =~= whole.tokens);
            }
        }
        &self.tokens
    }

    /// Scans the lexeme that starts at the current position.
    fn scan_token(&mut self)
        requires
            old(self).wf(),
            old(self).start == old(self).current,
            old(self).current < old(self).source.len(),
        ensures
            final(self).wf(),
            final(self).source == old(self).source,
            ({
                let step = scan_step(
                    old(self).source@,
                    old(self).current as int,
                    old(self).line,
                );
                &&& final(self).current == step.next
                &&& final(self).line == step.line
                &&& final(self).emitted() == old(self).emitted() + optional(step.token)
                &&& final(self).faults() == old(self).faults() + optional(step.fault)
            }),
    {
        let ghost source = self.source@;
        let ghost start = self.start as int;
        let c = self.advance();
        match c {
            '(' => self.add_token(TokenKind::LeftParenthesis, LiteralKind::Nil),
            ')' => self.add_token(TokenKind::RightParenthesis, LiteralKind::Nil),
            '{' => self.add_token(TokenKind::LeftBrace, LiteralKind::Nil),
            '}' => self.add_token(TokenKind::RightBrace, LiteralKind::Nil),
            ',' => self.add_token(TokenKind::Comma, LiteralKind::Nil),
            '.' => self.add_token(TokenKind::Dot, LiteralKind::Nil),
            '-' => self.add_token(TokenKind::Minus, LiteralKind::Nil),
            '+' => self.add_token(TokenKind::Plus, LiteralKind::Nil),
            ';' => self.add_token(TokenKind::Semicolon, LiteralKind::Nil),
            '*' => self.add_token(TokenKind::Star, LiteralKind::Nil),
            '!' => {
                let kind = if self.is_next_expected('=') {
                    TokenKind::BangEqual
                } else {
                    TokenKind::Bang
                };
                self.add_token(kind, LiteralKind::Nil);
            },
            '=' => {
                let kind = if self.is_next_expected('=') {
                    TokenKind::EqualEqual
                } else {
                    TokenKind::Equal
                };
                self.add_token(kind, LiteralKind::Nil);
            },
            '<' => {
                let kind = if self.is_next_expected('=') {
                    TokenKind::LessEqual
                } else {
                    TokenKind::Less
                };
                self.add_token(kind, LiteralKind::Nil);
            },
            '>' => {
                let kind = if self.is_next_expected('=') {
                    TokenKind::GreaterEqual
                } else {
                    TokenKind::Greater
                };
                self.add_token(kind, LiteralKind::Nil);
            },
            '/' => {
                if self.is_next_expected('/') {
                    self.advance_while(CharClass::Comment);
                    proof {
                        self.unchanged_output(*old(self));
                    }
                } else {
                    self.add_token(TokenKind::Slash, LiteralKind::Nil);
                }
            },
            ' ' | '\r' | '\t' => {
                proof {
                    self.unchanged_output(*old(self));
                }
            },
            '\n' => {
                self.bump_line();
                proof {
                    self.unchanged_output(*old(self));
                }
            },
            '"' => {
                self.string();
            },
            _ => {
                if CharClass::Digit.has(c) {
                    self.number();
                } else if CharClass::Word.has(c) {
                    self.identifier();
                } else {
                    let mut message = String::from_str("Unexpected character: ");
                    message.push(c);
                    self.fail(message.as_str());
                    proof {
                        assert(self.emitted() =~= old(self).emitted() + optional::<TokenView>(None));
                    }
                }
            },
        }
    }

    /// A step that left tokens and diagnostics as `before` had them added
    /// nothing to either.
    proof fn unchanged_output(&self, before: Self)
        requires
            self.tokens == before.tokens,
            self.diagnostics == before.diagnostics,
        ensures
            self.emitted() == before.emitted() + optional::<TokenView>(None),
            self.faults() == before.faults() + optional::<Seq<char>>(None),
    {
        assert(self.emitted() =~= before.emitted() + optional::<TokenView>(None));
        assert(self.faults() =~= before.faults() + optional::<Seq<char>>(None));
    }

    /// Scans the rest of a string literal, whose opening quote has been consumed.
    fn string(&mut self)
        requires
            old(self).wf(),
            old(self).current == old(self).start + 1,
        ensures
            final(self).wf(),
            final(self).source == old(self).source,
            ({
                let source = old(self).source@;
                let start = old(self).start as int;
                let quote = quote_position(source, start + 1);
                let last = line_after(source, start + 1, quote, old(self).line);
                &&& final(self).line == last
                &&& if quote >= source.len() {
                    &&& final(self).current == quote
                    &&& final(self).emitted() == old(self).emitted() + optional::<TokenView>(None)
                    &&& final(self).faults() == old(self).faults() + seq![
                        report_text(last, "Unterminated string."@),
                    ]
                } else {
                    &&& final(self).current == quote + 1
                    &&& final(self).faults() == old(self).faults() + optional::<Seq<char>>(None)
                    &&& final(self).emitted() == old(self).emitted() + seq![
                        TokenView {
                            kind: TokenKind::String,
                            lexeme: source.subrange(start, quote + 1),
                            literal: LiteralValue::String(source.subrange(start + 1, quote)),
                            line: last,
                        },
                    ]
                }
            }),
    {
        let ghost source = self.source@;
        let ghost quote = quote_position(source, self.current as int);
        let ghost last = line_after(source, self.current as int, quote, self.line);
        proof {
            quote_position_bounds(source, self.current as int);
        }
        while self.current < self.source.len() && self.source[self.current] != '"'
            invariant
                self.wf(),
                self.source == old(self).source,
                self.source@ == source,
                self.start == old(self).start,
                self.tokens == old(self).tokens,
                self.diagnostics == old(self).diagnostics,
                self.start < self.current <= quote <= source.len(),
                quote_position(source, self.current as int) == quote,
                line_after(source, self.current as int, quote, self.line) == last,
            decreases self.source.len() - self.current,
        {
            if self.source[self.current] == '\n' {
                self.bump_line();
            }
            self.current += 1;
            proof {
                quote_position_bounds(source, self.current as int);
            }
        }
        if self.is_at_end() {
            self.fail("Unterminated string.");
            proof {
                assert(self.emitted() =~= old(self).emitted() + optional::<TokenView>(None));
            }
            return ;
        }
        self.current += 1;
        let literal = slice_text(&self.source, self.start + 1, self.current - 1);
        self.add_token(TokenKind::String, LiteralKind::String(literal));
    }

    /// Scans the rest of a number literal, whose first digit has been consumed.
    fn number(&mut self)
        requires
            old(self).wf(),
            old(self).current == old(self).start + 1,
            is_digit(old(self).source@[old(self).start as int]),
        ensures
            final(self).wf(),
            final(self).source == old(self).source,
            final(self).line == old(self).line,
            ({
                let source = old(self).source@;
                let start = old(self).start as int;
                let end = number_end(source, start + 1);
                &&& final(self).current == end
                &&& final(self).faults() == old(self).faults() + optional::<Seq<char>>(None)
                &&& final(self).emitted() == old(self).emitted() + seq![
                    TokenView {
                        kind: TokenKind::Number,
                        lexeme: source.subrange(start, end),
                        literal: LiteralValue::Number(number_literal(source, start, end)),
                        line: old(self).line,
                    },
                ]
            }),
    {
        let ghost source = self.source@;
        self.advance_while(CharClass::Digit);
        let whole = self.current;
        let mut fraction = false;
        if self.peek() == '.' && CharClass::Digit.has(self.peek_next()) {
            self.current += 1;
            self.advance_while(CharClass::Digit);
            fraction = true;
            proof {
                run_end_bounds(source, whole + 2, CharClass::Digit);
                assert(run_end(source, whole + 1, CharClass::Digit) == run_end(
                    source,
                    whole + 2,
                    CharClass::Digit,
                ));
            }
        }
        proof {
            assert(run_end(source, self.start as int, CharClass::Digit) == whole);
            assert(self.current == number_end(source, self.start + 1));
        }
        let mut text = String::new();
        if fraction {
            push_leading_trimmed(&mut text, &self.source, self.start, whole);
            text.push('.');
            push_trailing_trimmed(&mut text, &self.source, whole + 1, self.current);
        } else {
            push_leading_trimmed(&mut text, &self.source, self.start, whole);
            text.push('.');
            text.push('0');
        }
        proof {
            assert(text@ =~= number_literal(source, self.start as int, self.current as int));
        }
        self.add_token(TokenKind::Number, LiteralKind::Number(text));
    }

    /// Scans the rest of an identifier or keyword, whose first character has
    /// been consumed.
    fn identifier(&mut self)
        requires
            old(self).wf(),
            old(self).current == old(self).start + 1,
        ensures
            final(self).wf(),
            final(self).source == old(self).source,
            final(self).line == old(self).line,
            ({
                let source = old(self).source@;
                let start = old(self).start as int;
                let end = run_end(source, start + 1, CharClass::Word);
                let kind = match keyword(source.subrange(start, end)) {
                    Some(kind) => kind,
                    None => TokenKind::Identifier,
                };
                &&& final(self).current == end
                &&& final(self).faults() == old(self).faults() + optional::<Seq<char>>(None)
                &&& final(self).emitted() == old(self).emitted() + optional(
                    plain(source, start, end, old(self).line, kind).token,
                )
            }),
    {
        self.advance_while(CharClass::Word);
        let kind = match keyword_kind(&self.source, self.start, self.current) {
            Some(kind) => kind,
            None => TokenKind::Identifier,
        };
        self.add_token(kind, LiteralKind::Nil);
    }

    /// Consumes the run of characters of `class` at the current position.
    fn advance_while(&mut self, class: CharClass)
        requires
            old(self).wf(),
        ensures
            final(self).wf(),
            final(self).current == run_end(old(self).source@, old(self).current as int, class),
            old(self).current <= final(self).current <= old(self).source.len(),
            *final(self) == (Scanner { current: final(self).current, ..*old(self) }),
    {
        let ghost end = run_end(self.source@, self.current as int, class);
        proof {
            run_end_bounds(self.source@, self.current as int, class);
        }
        while self.current < self.source.len() && class.has(self.source[self.current])
            invariant
                self.wf(),
                *self == (Scanner { current: self.current, ..*old(self) }),
                self.current <= end <= self.source.len(),
                run_end(self.source@, self.current as int, class) == end,
            decreases self.source.len() - self.current,
        {
            self.current += 1;
            proof {
                run_end_bounds(self.source@, self.current as int, class);
            }
        }
    }

    /// Moves on to the next line.
    fn bump_line(&mut self)
        ensures
            *final(self) == (Scanner { line: next_line(old(self).line), ..*old(self) }),
    {
        if self.line < usize::MAX {
            self.line += 1;
        }
    }

    /// Records the diagnostic for `message` on the current line.
    fn fail(&mut self, message: &str)
        requires
            old(self).wf(),
        ensures
            final(self).wf(),
            final(self).faults() == old(self).faults() + seq![
                report_text(old(self).line, message@),
            ],
            final(self).source == old(self).source,
            final(self).tokens == old(self).tokens,
            final(self).start == old(self).start,
            final(self).current == old(self).current,
            final(self).line == old(self).line,
    {
        let text = report(self.line, message);
        self.diagnostics.push(text);
        proof {
            assert(self.faults() =~= old(self).faults() + seq![
                report_text(old(self).line, message@),
            ]);
        }
    }

    /// Consumes the character at the current position.
    fn advance(&mut self) -> (c: char)
        requires
            old(self).wf(),
            old(self).current < old(self).source.len(),
        ensures
            final(self).wf(),
            c == old(self).source@[old(self).current as int],
            *final(self) == (Scanner { current: (old(self).current + 1) as usize, ..*old(self) }),
    {
        let c = self.source[self.current];
        self.current += 1;
        c
    }

    /// Adds the token of `kind` whose lexeme runs from the start of the
    /// lexeme to the current position.
    fn add_token(&mut self, kind: TokenKind, literal: LiteralKind)
        requires
            old(self).wf(),
        ensures
            final(self).wf(),
            final(self).emitted() == old(self).emitted() + seq![
                TokenView {
                    kind,
                    lexeme: old(self).source@.subrange(
                        old(self).start as int,
                        old(self).current as int,
                    ),
                    literal: literal@,
                    line: old(self).line,
                },
            ],
            final(self).faults() == old(self).faults() + optional::<Seq<char>>(None),
            final(self).source == old(self).source,
            final(self).diagnostics == old(self).diagnostics,
            final(self).start == old(self).start,
            final(self).current == old(self).current,
            final(self).line == old(self).line,
    {
        let lexeme = slice_text(&self.source, self.start, self.current);
        let token = Token::new(kind, lexeme, literal, self.line);
        self.tokens.push(token);
        proof {
            assert(self.emitted() =~= old(self).emitted() + seq![token@]);
            assert(self.faults() =~= old(self).faults() + optional::<Seq<char>>(None));
        }
    }

    /// Consumes the character at the current position where it is `expected`.
    fn is_next_expected(&mut self, expected: char) -> (r: bool)
        requires
            old(self).wf(),
        ensures
            final(self).wf(),
            r == follows(old(self).source@, old(self).current as int, expected),
            *final(self) == (Scanner {
                current: if r {
                    (old(self).current + 1) as usize
                } else {
                    old(self).current
                },
                ..*old(self)
            }),
    {
        if self.is_at_end() {
            return false;
        }
        if self.source[self.current] != expected {
            return false;
        }
        self.current += 1;
        true
    }

    /// The character at the current position, or a null character at the end.
    fn peek(&self) -> (c: char)
        requires
            self.wf(),
        ensures
            c == if self.current < self.source.len() {
                self.source@[self.current as int]
            } else {
                '\0'
            },
    {
        if self.is_at_end() {
            return '\0';
        }
        self.source[self.current]
    }

    /// The character after the current position, or a null character where
    /// the source ends before it.
    fn peek_next(&self) -> (c: char)
        requires
            self.wf(),
        ensures
            c == if self.current + 1 < self.source.len() {
                self.source@[self.current + 1]
            } else {
                '\0'
            },
    {
        if self.current >= self.source.len() || self.current + 1 >= self.source.len() {
            return '\0';
        }
        self.source[self.current + 1]
    }

    fn is_at_end(&self) -> (r: bool)
        ensures
            r == (self.current >= self.source.len()),
    {
        self.current >= self.source.len()
    }

    /// Whether scanning has given a diagnostic.
    pub fn errors(&self) -> (r: bool)
        ensures
            r == (self.faults().len() > 0),
    {
        self.diagnostics.len() > 0
    }

    /// Whether scanning has given a diagnostic.
    pub fn has_errors(&self) -> (r: bool)
        ensures
            r == (self.faults().len() > 0),
    {
        self.errors()
    }

    /// The diagnostics given so far, one line each.
    pub fn diagnostics(&self) -> (r: &Vec<String>)
        ensures
            texts(r@) == self.faults(),
    {
        &self.diagnostics
    }
}

/// Appends `source[from..to]` without its leading zeros to `out`.
fn push_leading_trimmed(out: &mut String, source: &Vec<char>, from: usize, to: usize)
    requires
        from < to <= source.len(),
    ensures
        final(out)@ == old(out)@ + trim_leading_zeros(source@.subrange(from as int, to as int)),
{
    let mut i: usize = from;
    while i + 1 < to && source[i] == '0'
        invariant
            from <= i < to <= source.len(),
            trim_leading_zeros(source@.subrange(i as int, to as int)) == trim_leading_zeros(
                source@.subrange(from as int, to as int),
            ),
        decreases to - i,
    {
        proof {
            let digits = source@.subrange(i as int, to as int);
            assert(digits.subrange(1, digits.len() as int) =~= source@.subrange(i + 1, to as int));
        }
        i += 1;
    }
    push_range(out, source, i, to);
}

/// Appends `source[from..to]` without its trailing zeros to `out`.
fn push_trailing_trimmed(out: &mut String, source: &Vec<char>, from: usize, to: usize)
    requires
        from < to <= source.len(),
    ensures
        final(out)@ == old(out)@ + trim_trailing_zeros(source@.subrange(from as int, to as int)),
{
    let mut j: usize = to;
    while j - 1 > from && source[j - 1] == '0'
        invariant
            from < j <= to <= source.len(),
            trim_trailing_zeros(source@.subrange(from as int, j as int)) == trim_trailing_zeros(
                source@.subrange(from as int, to as int),
            ),
        decreases j - from,
    {
        proof {
            let digits = source@.subrange(from as int, j as int);
            assert(digits.drop_last() =~= source@.subrange(from as int, j - 1));
        }
        j -= 1;
    }
    push_range(out, source, from, j);
}

/// The keyword that `source[from..to]` spells, if any.
fn keyword_kind(source: &Vec<char>, from: usize, to: usize) -> (r: Option<TokenKind>)
    requires
        from <= to <= source.len(),
    ensures
        r == keyword(source@.subrange(from as int, to as int)),
{
    if spells(source, from, to, "and") {
        Some(TokenKind::And)
    } else if spells(source, from, to, "class") {
        Some(TokenKind::Class)
    } else if spells(source, from, to, "else") {
        Some(TokenKind::Else)
    } else if spells(source, from, to, "false") {
        Some(TokenKind::False)
    } else if spells(source, from, to, "for") {
        Some(TokenKind::For)
    } else if spells(source, from, to, "fun") {
        Some(TokenKind::Fun)
    } else if spells(source, from, to, "if") {
        Some(TokenKind::If)
    } else if spells(source, from, to, "nil") {
        Some(TokenKind::Nil)
    } else if spells(source, from, to, "or") {
        Some(TokenKind::Or)
    } else if spells(source, from, to, "print") {
        Some(TokenKind::Print)
    } else if spells(source, from, to, "return") {
        Some(TokenKind::Return)
    } else if spells(source, from, to, "super") {
        Some(TokenKind::Super)
    } else if spells(source, from, to, "this") {
        Some(TokenKind::This)
    } else if spells(source, from, to, "true") {
        Some(TokenKind::True)
    } else if spells(source, from, to, "var") {
        Some(TokenKind::Var)
    } else if spells(source, from, to, "while") {
        Some(TokenKind::While)
    } else {
        None
    }
}

} // verus!
