//! Printing and parsing again: what is printed for a literal reads as that literal.

use vstd::prelude::*;

use crate::ast_printer::printed;
use crate::expr::ExprView;
use crate::parser::{
    assignment, binary, binary_rest, join, level_operator, levels, literal, primary, unary, within,
};
use crate::progress::primary_alone;
use crate::scanner::{
    end_of_input, follows, is_digit, is_letter, keyword, number_end, number_literal, numeral, optional, plain, run_end, run_end_bounds, scan, scan_ends_with_single_eof, scan_from, scan_step, scan_step_advances, trim_leading_zeros, trim_trailing_zeros, CharClass,
};
use crate::token::{LiteralValue, TokenKind, TokenView};

verus! {

/// The expression that a source text stands for, if it begins with one: the
/// text is scanned and one expression is parsed from its tokens.
pub open spec fn parsed_expression(source: Seq<char>) -> Option<ExprView> {
    assignment(scan(source).tokens, 0, Seq::empty()).value
}

/// Whether `kind` is the kind of a token that is an expression by itself
/// and whose literal is its value.
pub open spec fn literal_kind(kind: TokenKind) -> bool {
    kind == TokenKind::Number || kind == TokenKind::String
}

/// Letters that run from `start` to the end of a source are scanned as one
/// token, which is followed by the end-of-input token.
pub proof fn scan_of_word(source: Seq<char>, start: int, line: usize)
    requires
        0 <= start < source.len(),
        forall|i: int| start <= i < source.len() ==> is_letter(#[trigger] source[i]),
    ensures
        scan_from(source, start, line).tokens == seq![
            plain(
                source,
                start,
                source.len() as int,
                line,
                match keyword(source.subrange(start, source.len() as int)) {
                    Some(kind) => kind,
                    None => TokenKind::Identifier,
                },
            ).token->0,
            end_of_input(line),
        ],
{
    word_run(source, start + 1, start);
    let c = source[start];
    assert(is_letter(c));
    let step = scan_step(source, start, line);
    assert(step.next == source.len());
    assert(step.line == line);
    reveal_with_fuel(scan_from, 3);
    assert(scan_from(source, source.len() as int, line).tokens =~= seq![end_of_input(line)]);
    assert(scan_from(source, start, line).tokens =~= optional(step.token) + seq![
        end_of_input(line),
    ]);
}

/// In a source that ends with letters from `start` on, the run of word
/// characters from any position among them reaches the end.
proof fn word_run(source: Seq<char>, pos: int, start: int)
    requires
        0 <= start <= pos <= source.len(),
        forall|i: int| start <= i < source.len() ==> is_letter(#[trigger] source[i]),
    ensures
        run_end(source, pos, CharClass::Word) == source.len(),
    decreases source.len() - pos,
{
    if pos < source.len() {
        assert(is_letter(source[pos]));
        word_run(source, pos + 1, start);
    }
}

/// The kind of the token that is the literal `value`, which is none or a boolean.
pub open spec fn word_kind(value: LiteralValue) -> TokenKind {
    match value {
        LiteralValue::Bool(b) => if b {
            TokenKind::True
        } else {
            TokenKind::False
        },
        _ => TokenKind::Nil,
    }
}

/// The literal that is none and the booleans print as words of letters,
/// which are the keywords of their kinds.
pub proof fn printed_words(value: LiteralValue)
    requires
        value is Nil || value is Bool,
    ensures
        printed(literal(value)).len() > 0,
        forall|i: int|
            0 <= i < printed(literal(value)).len() ==> is_letter(
                #[trigger] printed(literal(value))[i],
            ),
        keyword(printed(literal(value))) == Some(word_kind(value)),
{
    reveal_strlit("nil");
    reveal_strlit("and");
    reveal_strlit("class");
    reveal_strlit("else");
    reveal_strlit("false");
    reveal_strlit("for");
    reveal_strlit("fun");
    reveal_strlit("if");
    reveal_strlit("or");
    reveal_strlit("print");
    reveal_strlit("return");
    reveal_strlit("super");
    reveal_strlit("this");
    reveal_strlit("true");
    let word = printed(literal(value));
    assert(word[0] != "and"@[0]);
    assert(word[0] != "class"@[0]);
    assert(word[0] != "else"@[0]);
    match value {
        LiteralValue::Bool(b) => {
            if b {
                assert(word == "true"@);
                assert(word[0] != "false"@[0]);
                assert(word[0] != "for"@[0]);
                assert(word[0] != "fun"@[0]);
                assert(word[0] != "if"@[0]);
                assert(word[0] != "nil"@[0]);
                assert(word[0] != "or"@[0]);
                assert(word[0] != "print"@[0]);
                assert(word[0] != "return"@[0]);
                assert(word[0] != "super"@[0]);
                assert(word[1] != "this"@[1]);
            } else {
                assert(word == "false"@);
            }
        },
        _ => {
            assert(word == "nil"@);
            assert(word.len() != "false"@.len());
            assert(word[0] != "for"@[0]);
            assert(word[0] != "fun"@[0]);
            assert(word.len() != "if"@.len());
        },
    }
}

/// The literal that is none and the booleans, printed and parsed again, are
/// themselves.
pub proof fn word_reads_as_printed(value: LiteralValue)
    requires
        value is Nil || value is Bool,
    ensures
        parsed_expression(printed(literal(value))) == Some(literal(value)),
{
    let word = printed(literal(value));
    printed_words(value);
    scan_of_word(word, 0, 1);
    assert(word.subrange(0, word.len() as int) =~= word);
    let tokens = scan(word).tokens;
    reveal_with_fuel(primary, 1);
    primary_alone(tokens, 0, Seq::empty());
}

/// Whether `text` is a numeral with its dot at the position `dot`: digits
/// with one dot among them, no zero before the first digit, no zero after
/// the last digit of the fraction.
pub open spec fn numeral_at(text: Seq<char>, dot: int) -> bool {
    &&& 0 < dot < text.len() - 1
    &&& text[dot] == '.'
    &&& forall|i: int| 0 <= i < text.len() && i != dot ==> is_digit(#[trigger] text[i])
    &&& dot == 1 || text[0] != '0'
    &&& dot == text.len() - 2 || text.last() != '0'
}

/// Whether `text` is a numeral as the scanner gives it for a number literal.
pub open spec fn is_numeral(text: Seq<char>) -> bool {
    exists|dot: int| #[trigger] numeral_at(text, dot)
}

/// Whether `text` is made of digits only, and of one at least.
pub open spec fn digits(text: Seq<char>) -> bool {
    text.len() > 0 && forall|i: int| 0 <= i < text.len() ==> is_digit(#[trigger] text[i])
}

/// Without its leading zeros a digit string is still one, and begins with
/// a zero only if it is a single zero.
proof fn leading_trimmed(text: Seq<char>)
    requires
        digits(text),
    ensures
        digits(trim_leading_zeros(text)),
        trim_leading_zeros(text).len() == 1 || trim_leading_zeros(text)[0] != '0',
    decreases text.len(),
{
    if text.len() > 1 && text[0] == '0' {
        let rest = text.subrange(1, text.len() as int);
        assert forall|i: int| 0 <= i < rest.len() implies is_digit(#[trigger] rest[i]) by {
            assert(rest[i] == text[i + 1]);
        }
        leading_trimmed(rest);
    }
}

/// Without its trailing zeros a digit string is still one, and ends with a
/// zero only if it is a single zero.
proof fn trailing_trimmed(text: Seq<char>)
    requires
        digits(text),
    ensures
        digits(trim_trailing_zeros(text)),
        trim_trailing_zeros(text).len() == 1 || trim_trailing_zeros(text).last() != '0',
    decreases text.len(),
{
    if text.len() > 1 && text.last() == '0' {
        let rest = text.drop_last();
        assert forall|i: int| 0 <= i < rest.len() implies is_digit(#[trigger] rest[i]) by {
            assert(rest[i] == text[i]);
        }
        trailing_trimmed(rest);
    }
}

/// The numeral of two digit strings is a numeral.
proof fn numeral_is_numeral(whole: Seq<char>, fraction: Seq<char>)
    requires
        digits(whole),
        fraction.len() == 0 || digits(fraction),
    ensures
        is_numeral(numeral(whole, fraction)),
{
    leading_trimmed(whole);
    let before = trim_leading_zeros(whole);
    let after = if fraction.len() == 0 {
        seq!['0']
    } else {
        trim_trailing_zeros(fraction)
    };
    if fraction.len() > 0 {
        trailing_trimmed(fraction);
    }
    let text = numeral(whole, fraction);
    assert(text == before.push('.') + after);
    let dot = before.len() as int;
    assert(text[dot] == '.');
    assert forall|i: int| 0 <= i < text.len() && i != dot implies is_digit(#[trigger] text[i]) by {
        if i < dot {
            assert(text[i] == before[i]);
        } else {
            assert(text[i] == after[i - dot - 1]);
        }
    }
    assert(text[0] == before[0]);
    assert(text.last() == after.last());
    assert(numeral_at(text, dot));
}

/// The characters of a run of digits are digits.
proof fn run_of_digits(source: Seq<char>, pos: int, i: int)
    requires
        0 <= pos <= i < run_end(source, pos, CharClass::Digit),
    ensures
        i < source.len(),
        is_digit(source[i]),
    decreases source.len() - pos,
{
    if 0 <= pos < source.len() && is_digit(source[pos]) {
        if i > pos {
            run_of_digits(source, pos + 1, i);
        }
    }
}

/// The literal of a number token is a numeral.
proof fn number_literal_is_numeral(source: Seq<char>, start: int)
    requires
        0 <= start < source.len(),
        is_digit(source[start]),
    ensures
        is_numeral(number_literal(source, start, number_end(source, start + 1))),
{
    let end = number_end(source, start + 1);
    let whole = run_end(source, start, CharClass::Digit);
    assert(whole == run_end(source, start + 1, CharClass::Digit));
    run_end_bounds(source, start + 1, CharClass::Digit);
    let before = source.subrange(start, whole);
    assert forall|i: int| 0 <= i < before.len() implies is_digit(#[trigger] before[i]) by {
        run_of_digits(source, start, start + i);
    }
    if whole + 1 <= source.len() {
        run_end_bounds(source, whole + 1, CharClass::Digit);
    }
    if whole < end {
        let after = source.subrange(whole + 1, end);
        assert(is_digit(source[whole + 1]));
        assert(run_end(source, whole + 1, CharClass::Digit) == run_end(
            source,
            whole + 2,
            CharClass::Digit,
        ));
        run_end_bounds(source, whole + 2, CharClass::Digit);
        assert forall|i: int| 0 <= i < after.len() implies is_digit(#[trigger] after[i]) by {
            run_of_digits(source, whole + 1, whole + 1 + i);
        }
        numeral_is_numeral(before, after);
    } else {
        assert(end == whole);
        numeral_is_numeral(before, Seq::empty());
    }
}

/// Every number token that scanning gives carries a numeral as its literal.
pub proof fn scanned_numbers_are_numerals(source: Seq<char>, pos: int, line: usize, i: int)
    requires
        0 <= i < scan_from(source, pos, line).tokens.len(),
        scan_from(source, pos, line).tokens[i].kind == TokenKind::Number,
    ensures
        scan_from(source, pos, line).tokens[i].literal matches LiteralValue::Number(n) && is_numeral(
            n,
        ),
    decreases source.len() - pos,
{
    if 0 <= pos < source.len() {
        let step = scan_step(source, pos, line);
        scan_step_advances(source, pos, line);
        let first = optional(step.token);
        let rest = scan_from(source, step.next, step.line).tokens;
        assert(scan_from(source, pos, line).tokens == first + rest);
        if i < first.len() {
            assert((first + rest)[i] == step.token->0);
            if is_digit(source[pos]) {
                number_literal_is_numeral(source, pos);
            } else if is_letter(source[pos]) {
                let end = run_end(source, pos + 1, CharClass::Word);
                keyword_is_no_number(source.subrange(pos, end));
            }
        } else {
            assert((first + rest)[i] == rest[i - first.len()]);
            scanned_numbers_are_numerals(source, step.next, step.line, i - first.len());
        }
    }
}

/// No keyword is of the kind of a number.
proof fn keyword_is_no_number(lexeme: Seq<char>)
    ensures
        keyword(lexeme) != Some(TokenKind::Number),
{
}

/// In a text whose characters from `pos` up to `stop` are digits, and whose
/// character at `stop`, if there is one, is none, the run of digits from
/// `pos` ends at `stop`.
proof fn digits_run(text: Seq<char>, pos: int, stop: int)
    requires
        0 <= pos <= stop <= text.len(),
        forall|i: int| pos <= i < stop ==> is_digit(#[trigger] text[i]),
        stop == text.len() || !is_digit(text[stop]),
    ensures
        run_end(text, pos, CharClass::Digit) == stop,
    decreases stop - pos,
{
    if pos < stop {
        assert(is_digit(text[pos]));
        digits_run(text, pos + 1, stop);
    }
}

/// A numeral is scanned as one number token that carries the numeral as
/// its literal, and is followed by the end-of-input token.
proof fn scan_of_numeral(text: Seq<char>)
    requires
        is_numeral(text),
    ensures
        scan(text).tokens == seq![
            TokenView {
                kind: TokenKind::Number,
                lexeme: text,
                literal: LiteralValue::Number(text),
                line: 1,
            },
            end_of_input(1),
        ],
{
    let dot = choose|dot: int| #[trigger] numeral_at(text, dot);
    let len = text.len() as int;
    assert(is_digit(text[0]));
    digits_run(text, 0, dot);
    digits_run(text, 1, dot);
    assert(is_digit(text[dot + 1]));
    digits_run(text, dot + 1, len);
    assert(follows(text, dot, '.'));
    assert(number_end(text, 1) == len);
    let whole = text.subrange(0, dot);
    let fraction = text.subrange(dot + 1, len);
    assert(trim_leading_zeros(whole) == whole);
    assert(fraction.last() == text.last());
    assert(trim_trailing_zeros(fraction) == fraction);
    assert(numeral(whole, fraction) =~= text);
    assert(number_literal(text, 0, len) == text);
    assert(text.subrange(0, len) =~= text);
    let step = scan_step(text, 0, 1);
    assert(step.next == len);
    assert(step.line == 1);
    reveal_with_fuel(scan_from, 3);
    assert(scan_from(text, len, 1).tokens =~= seq![end_of_input(1)]);
    assert(scan(text).tokens =~= optional(step.token) + seq![end_of_input(1)]);
}

/// A number literal, printed and parsed again, is itself.
pub proof fn number_reads_as_printed(text: Seq<char>)
    requires
        is_numeral(text),
    ensures
        parsed_expression(printed(literal(LiteralValue::Number(text)))) == Some(
            literal(LiteralValue::Number(text)),
        ),
{
    scan_of_numeral(text);
    let tokens = scan(text).tokens;
    reveal_with_fuel(primary, 1);
    primary_alone(tokens, 0, Seq::empty());
}

/// Printing is idempotent on the literals that are no strings: such a
/// literal, printed and parsed again, is itself, and so prints the same
/// again. A number is held as the scanner gives it, as a numeral.
pub proof fn literal_reads_as_printed(value: LiteralValue)
    requires
        !(value is String),
        value matches LiteralValue::Number(n) ==> is_numeral(n),
    ensures
        parsed_expression(printed(literal(value))) == Some(literal(value)),
{
    match value {
        LiteralValue::Number(n) => number_reads_as_printed(n),
        _ => word_reads_as_printed(value),
    }
}

/// The rest of an expression is a literal only if there is no rest: the
/// operand before it was that literal.
proof fn rest_gives_no_literal(
    tokens: Seq<TokenView>,
    pos: int,
    faults: Seq<Seq<char>>,
    level: nat,
    left: Option<ExprView>,
)
    requires
        binary_rest(tokens, pos, faults, level, left).value matches Some(e) && e is Literal,
    ensures
        binary_rest(tokens, pos, faults, level, left).value == left,
    decreases tokens.len() - pos,
{
    reveal_with_fuel(binary_rest, 1);
    reveal_with_fuel(binary, 1);
    if within(tokens, pos, pos) && level < levels() && level_operator(level, tokens[pos].kind) {
        let right = binary(tokens, pos + 1, faults, level + 1);
        if left is Some && right.value is Some && within(tokens, pos + 1, right.next) {
            let joined = join(level, left->0, tokens[pos], right.value->0);
            rest_gives_no_literal(tokens, right.next, right.faults, level, Some(joined));
        }
    }
}

/// An expression of any level is a literal only if it is one literal token.
proof fn literal_comes_from_primary(
    tokens: Seq<TokenView>,
    pos: int,
    faults: Seq<Seq<char>>,
    level: nat,
)
    requires
        level <= levels(),
        binary(tokens, pos, faults, level).value matches Some(e) && e is Literal,
    ensures
        primary(tokens, pos, faults).value == binary(tokens, pos, faults, level).value,
    decreases levels() - level,
{
    reveal_with_fuel(binary, 1);
    reveal_with_fuel(binary_rest, 1);
    reveal_with_fuel(unary, 1);
    reveal_with_fuel(primary, 1);
    if level < levels() {
        let left = binary(tokens, pos, faults, level + 1);
        if (level <= 1 && left.value is None) || !within(tokens, pos, left.next) {
            literal_comes_from_primary(tokens, pos, faults, level + 1);
        } else {
            rest_gives_no_literal(tokens, left.next, left.faults, level, left.value);
            literal_comes_from_primary(tokens, pos, faults, level + 1);
        }
    } else {
        assert(binary(tokens, pos, faults, level) == unary(tokens, pos, faults));
    }
}

/// No token but a number token carries a number as its literal.
pub proof fn scanned_number_literals(source: Seq<char>, pos: int, line: usize, i: int)
    requires
        0 <= i < scan_from(source, pos, line).tokens.len(),
        scan_from(source, pos, line).tokens[i].literal is Number,
    ensures
        scan_from(source, pos, line).tokens[i].kind == TokenKind::Number,
    decreases source.len() - pos,
{
    if 0 <= pos < source.len() {
        let step = scan_step(source, pos, line);
        scan_step_advances(source, pos, line);
        let first = optional(step.token);
        let rest = scan_from(source, step.next, step.line).tokens;
        assert(scan_from(source, pos, line).tokens == first + rest);
        if i < first.len() {
            assert((first + rest)[i] == step.token->0);
        } else {
            assert((first + rest)[i] == rest[i - first.len()]);
            scanned_number_literals(source, step.next, step.line, i - first.len());
        }
    }
}

/// Printing is idempotent on every source that stands for a literal that
/// is no string: what is printed for it is parsed as the same literal, and
/// so printed the same again.
///
/// Of the other sources this does not hold in general. A string prints as
/// its contents, which mostly read as something else, and the prefix form
/// of an operator or a grouping is no expression of the language.
pub proof fn printing_is_idempotent_on_literals(source: Seq<char>)
    requires
        parsed_expression(source) matches Some(ExprView::Literal { value }) && !(value is String),
    ensures
        ({
            let once = printed(parsed_expression(source)->0);
            parsed_expression(once) matches Some(again) && printed(again) == once
        }),
{
    let tokens = scan(source).tokens;
    let value = parsed_expression(source)->0->Literal_value;
    if value is Number {
        reveal_with_fuel(assignment, 1);
        reveal_with_fuel(binary, 1);
        reveal_with_fuel(primary, 1);
        let target = binary(tokens, 0, Seq::empty(), 0);
        assert(assignment(tokens, 0, Seq::empty()).value == target.value);
        literal_comes_from_primary(tokens, 0, Seq::empty(), 0);
        scan_ends_with_single_eof(source);
        assert(tokens[0].literal == value);
        scanned_number_literals(source, 0, 1, 0);
        scanned_numbers_are_numerals(source, 0, 1, 0);
    }
    literal_reads_as_printed(value);
}

/// Printing is idempotent on every source of one literal token that is a
/// number, `true`, `false` or `nil`: the source stands for a literal, and
/// what is printed for it stands for an expression that prints the same.
pub proof fn printing_is_idempotent_on_literal_tokens(source: Seq<char>)
    requires
        scan(source).tokens.len() == 2,
        ({
            let kind = scan(source).tokens[0].kind;
            kind == TokenKind::Number || kind == TokenKind::True || kind == TokenKind::False
                || kind == TokenKind::Nil
        }),
    ensures
        parsed_expression(source) is Some,
        ({
            let once = printed(parsed_expression(source)->0);
            parsed_expression(once) matches Some(again) && printed(again) == once
        }),
{
    let tokens = scan(source).tokens;
    scan_ends_with_single_eof(source);
    assert(tokens[1].kind == TokenKind::EOF);
    if tokens[0].kind == TokenKind::Number {
        scanned_numbers_are_numerals(source, 0, 1, 0);
    }
    reveal_with_fuel(primary, 1);
    primary_alone(tokens, 0, Seq::empty());
    printing_is_idempotent_on_literals(source);
}

} // verus!
