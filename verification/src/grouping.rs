//! Parentheses around an expression: the tokens of an expression, put
//! between a pair of parentheses, stand for the grouping of that expression.

use vstd::prelude::*;

use crate::environment::Scope;
use crate::evaluation::{evaluated, Host};
use crate::expr::ExprView;
use crate::parser::{
    assignment, binary, binary_rest, check, expression, join, level_operator, levels, primary,
    unary, well_formed, Parsed,
};
use crate::progress::{
    binary_advances, binary_rest_gives_nothing, expression_advances, primary_alone,
};
use crate::scanner::{
    end_of_input, follows, is_digit, is_letter, line_after, next_line, number_end, number_literal,
    optional, quote_position, quote_position_bounds, run_end, run_end_bounds, scan, scan_from,
    scan_step, scan_step_advances, CharClass, Step,
};
use crate::token::{TokenKind, TokenView};

verus! {

/// Whether the tokens of `first` before its position `to`, where the input
/// of `first` ends, stand in `second` too, `by` places further on, and are
/// followed there by a closing parenthesis.
pub open spec fn enclosed(first: Seq<TokenView>, second: Seq<TokenView>, to: int, by: int) -> bool {
    &&& well_formed(first)
    &&& well_formed(second)
    &&& 0 <= to < first.len()
    &&& 0 <= by
    &&& to + by < second.len() - 1
    &&& first[to].kind == TokenKind::EOF
    &&& second[to + by].kind == TokenKind::RightParenthesis
    &&& forall|i: int| 0 <= i < to ==> #[trigger] second[i + by] == first[i]
}

/// Whether what parsing gave in `second` is what it gave in `first`, `by`
/// places further on and after other diagnostics.
pub open spec fn same_parse<T>(
    one: Parsed<T>,
    other: Parsed<T>,
    by: int,
    faults: Seq<Seq<char>>,
    others: Seq<Seq<char>>,
) -> bool {
    &&& one.value is Some
    &&& other.value == one.value
    &&& other.next == one.next + by
    &&& one.faults == faults
    &&& other.faults == others
}

/// A primary expression that is parsed in `first` is parsed in `second` as well.
proof fn primary_enclosed(
    first: Seq<TokenView>,
    second: Seq<TokenView>,
    to: int,
    by: int,
    pos: int,
    faults: Seq<Seq<char>>,
    others: Seq<Seq<char>>,
)
    requires
        enclosed(first, second, to, by),
        0 <= pos <= to,
        primary(first, pos, faults).value is Some,
    ensures
        same_parse(
            primary(first, pos, faults),
            primary(second, pos + by, others),
            by,
            faults,
            others,
        ),
        primary(first, pos, faults).next <= to,
    decreases first.len() - pos, 0nat,
{
    reveal_with_fuel(primary, 1);
    reveal_with_fuel(expression, 1);
    assert(pos < to);
    assert(second[pos + by] == first[pos]);
    let kind = first[pos].kind;
    if kind == TokenKind::Super {
        assert(pos + 1 < to);
        assert(second[pos + 1 + by] == first[pos + 1]);
        assert(pos + 2 < to);
        assert(second[pos + 2 + by] == first[pos + 2]);
    } else if kind == TokenKind::LeftParenthesis {
        expression_enclosed(first, second, to, by, pos + 1, faults, others);
        expression_advances(first, pos + 1, faults);
        let inner = expression(first, pos + 1, faults);
        assert(inner.next < to);
        assert(second[inner.next + by] == first[inner.next]);
    }
}

/// A unary expression that is parsed in `first` is parsed in `second` as well.
proof fn unary_enclosed(
    first: Seq<TokenView>,
    second: Seq<TokenView>,
    to: int,
    by: int,
    pos: int,
    faults: Seq<Seq<char>>,
    others: Seq<Seq<char>>,
)
    requires
        enclosed(first, second, to, by),
        0 <= pos <= to,
        unary(first, pos, faults).value is Some,
    ensures
        same_parse(unary(first, pos, faults), unary(second, pos + by, others), by, faults, others),
        unary(first, pos, faults).next <= to,
    decreases first.len() - pos, 1nat,
{
    reveal_with_fuel(unary, 1);
    reveal_with_fuel(primary, 1);
    if pos < to {
        assert(second[pos + by] == first[pos]);
    }
    if first[pos].kind == TokenKind::Bang || first[pos].kind == TokenKind::Minus {
        unary_enclosed(first, second, to, by, pos + 1, faults, others);
    } else {
        primary_enclosed(first, second, to, by, pos, faults, others);
    }
}

/// The rest of an expression that is parsed in `first` is parsed in
/// `second` as well.
proof fn binary_rest_enclosed(
    first: Seq<TokenView>,
    second: Seq<TokenView>,
    to: int,
    by: int,
    pos: int,
    faults: Seq<Seq<char>>,
    others: Seq<Seq<char>>,
    level: nat,
    left: Option<ExprView>,
)
    requires
        enclosed(first, second, to, by),
        0 <= pos <= to,
        binary_rest(first, pos, faults, level, left).value is Some,
    ensures
        same_parse(
            binary_rest(first, pos, faults, level, left),
            binary_rest(second, pos + by, others, level, left),
            by,
            faults,
            others,
        ),
        binary_rest(first, pos, faults, level, left).next <= to,
    decreases first.len() - pos, 0nat,
{
    reveal_with_fuel(binary_rest, 1);
    reveal_with_fuel(binary, 1);
    if pos < to {
        assert(second[pos + by] == first[pos]);
    }
    if level < levels() && level_operator(level, first[pos].kind) {
        let right = binary(first, pos + 1, faults, level + 1);
        binary_advances(first, pos + 1, faults, level + 1);
        binary_advances(second, pos + 1 + by, others, level + 1);
        binary_enclosed(first, second, to, by, pos + 1, faults, others, level + 1);
        binary_rest_enclosed(
            first,
            second,
            to,
            by,
            right.next,
            faults,
            others,
            level,
            Some(join(level, left->0, first[pos], right.value->0)),
        );
    }
}

/// An expression of any level that is parsed in `first` is parsed in
/// `second` as well.
proof fn binary_enclosed(
    first: Seq<TokenView>,
    second: Seq<TokenView>,
    to: int,
    by: int,
    pos: int,
    faults: Seq<Seq<char>>,
    others: Seq<Seq<char>>,
    level: nat,
)
    requires
        enclosed(first, second, to, by),
        0 <= pos <= to,
        binary(first, pos, faults, level).value is Some,
    ensures
        same_parse(
            binary(first, pos, faults, level),
            binary(second, pos + by, others, level),
            by,
            faults,
            others,
        ),
        binary(first, pos, faults, level).next <= to,
    decreases first.len() - pos, (if level < levels() {
        8 - level
    } else {
        2
    }),
{
    reveal_with_fuel(binary, 1);
    reveal_with_fuel(binary_rest, 1);
    reveal_with_fuel(unary, 1);
    if level >= levels() {
        unary_enclosed(first, second, to, by, pos, faults, others);
    } else {
        let left = binary(first, pos, faults, level + 1);
        binary_advances(first, pos, faults, level + 1);
        binary_advances(second, pos + by, others, level + 1);
        if left.value is None {
            binary_rest_gives_nothing(first, left.next, left.faults, level);
        }
        binary_enclosed(first, second, to, by, pos, faults, others, level + 1);
        binary_rest_enclosed(first, second, to, by, left.next, faults, others, level, left.value);
    }
}

/// An assignment that is parsed in `first` is parsed in `second` as well.
proof fn assignment_enclosed(
    first: Seq<TokenView>,
    second: Seq<TokenView>,
    to: int,
    by: int,
    pos: int,
    faults: Seq<Seq<char>>,
    others: Seq<Seq<char>>,
)
    requires
        enclosed(first, second, to, by),
        0 <= pos <= to,
        assignment(first, pos, faults).value is Some,
    ensures
        same_parse(
            assignment(first, pos, faults),
            assignment(second, pos + by, others),
            by,
            faults,
            others,
        ),
        assignment(first, pos, faults).next <= to,
    decreases first.len() - pos, 9nat,
{
    reveal_with_fuel(assignment, 1);
    reveal_with_fuel(binary, 1);
    let target = binary(first, pos, faults, 0);
    binary_advances(first, pos, faults, 0);
    binary_advances(second, pos + by, others, 0);
    binary_enclosed(first, second, to, by, pos, faults, others, 0);
    if target.next < to {
        assert(second[target.next + by] == first[target.next]);
    }
    if check(first, target.next, TokenKind::Equal) {
        assignment_enclosed(first, second, to, by, target.next + 1, faults, others);
    }
}

/// An expression that is parsed in `first` is parsed in `second` as well.
proof fn expression_enclosed(
    first: Seq<TokenView>,
    second: Seq<TokenView>,
    to: int,
    by: int,
    pos: int,
    faults: Seq<Seq<char>>,
    others: Seq<Seq<char>>,
)
    requires
        enclosed(first, second, to, by),
        0 <= pos <= to,
        expression(first, pos, faults).value is Some,
    ensures
        same_parse(
            expression(first, pos, faults),
            expression(second, pos + by, others),
            by,
            faults,
            others,
        ),
        expression(first, pos, faults).next <= to,
    decreases first.len() - pos, 10nat,
{
    reveal_with_fuel(expression, 1);
    reveal_with_fuel(assignment, 1);
    assignment_enclosed(first, second, to, by, pos, faults, others);
}

/// Whether `wrapped` holds the tokens of `tokens` between a pair of
/// parentheses, and its own end of the input after them.
pub open spec fn wraps(wrapped: Seq<TokenView>, tokens: Seq<TokenView>) -> bool {
    &&& well_formed(tokens)
    &&& well_formed(wrapped)
    &&& wrapped.len() == tokens.len() + 2
    &&& wrapped[0].kind == TokenKind::LeftParenthesis
    &&& wrapped[tokens.len() as int].kind == TokenKind::RightParenthesis
    &&& forall|i: int| 0 <= i < tokens.len() - 1 ==> #[trigger] wrapped[i + 1] == tokens[i]
}

/// The expression that `tokens` stand for as a whole, if they do.
pub open spec fn whole_expression(tokens: Seq<TokenView>) -> Option<ExprView> {
    let parsed = assignment(tokens, 0, Seq::empty());
    if parsed.next == tokens.len() - 1 {
        parsed.value
    } else {
        None
    }
}

/// Tokens that stand for an expression stand, between a pair of
/// parentheses, for the grouping of that expression.
pub proof fn parentheses_give_a_grouping(wrapped: Seq<TokenView>, tokens: Seq<TokenView>)
    requires
        wraps(wrapped, tokens),
        whole_expression(tokens) is Some,
    ensures
        whole_expression(wrapped) == Some(
            ExprView::Grouping { expr: Box::new(whole_expression(tokens)->0) },
        ),
{
    let to = tokens.len() - 1;
    let none = Seq::<Seq<char>>::empty();
    reveal_with_fuel(expression, 1);
    reveal_with_fuel(assignment, 1);
    reveal_with_fuel(primary, 1);
    reveal_with_fuel(binary, 1);
    assert(enclosed(tokens, wrapped, to, 1));
    assert(expression(tokens, 0, none) == assignment(tokens, 0, none));
    expression_enclosed(tokens, wrapped, to, 1, 0, none, none);
    let inner = expression(wrapped, 1, none);
    assert(inner.next == to + 1);
    let group = primary(wrapped, 0, none);
    assert(group.value == Some(
        ExprView::Grouping { expr: Box::new(whole_expression(tokens)->0) },
    ));
    assert(group.next == to + 2);
    primary_alone(wrapped, 0, none);
}

/// Parentheses do not change what an expression evaluates to: the tokens of
/// an expression evaluate, between a pair of parentheses, to what they
/// evaluate to without.
pub proof fn parentheses_keep_the_value(
    host: Host,
    scopes: Seq<Scope>,
    wrapped: Seq<TokenView>,
    tokens: Seq<TokenView>,
)
    requires
        wraps(wrapped, tokens),
        whole_expression(tokens) is Some,
    ensures
        whole_expression(wrapped) matches Some(grouping) && evaluated(host, scopes, grouping)
            == evaluated(host, scopes, whole_expression(tokens)->0),
{
    parentheses_give_a_grouping(wrapped, tokens);
}

/// `source` between a pair of parentheses.
pub open spec fn in_parentheses(source: Seq<char>) -> Seq<char> {
    (seq!['('] + source).push(')')
}

/// Whether the lexeme of `source` at `pos` ends before the source does, if
/// it is a comment or a string: a comment that runs to the end of the
/// source, or a string that is not terminated, would take in what follows.
pub open spec fn lexeme_closed(source: Seq<char>, pos: int) -> bool {
    if source[pos] == '/' && follows(source, pos + 1, '/') {
        run_end(source, pos + 2, CharClass::Comment) < source.len()
    } else if source[pos] == '"' {
        quote_position(source, pos + 1) < source.len()
    } else {
        true
    }
}

/// Whether every lexeme of `source` from `pos` on is closed.
pub open spec fn closed_from(source: Seq<char>, pos: int, line: usize) -> bool
    decreases source.len() - pos,
{
    if 0 <= pos < source.len() {
        let step = scan_step(source, pos, line);
        proof {
            scan_step_advances(source, pos, line);
        }
        lexeme_closed(source, pos) && closed_from(source, step.next, step.line)
    } else {
        true
    }
}

/// A run in `source` that ends before the source does is the same run in
/// parentheses, and so is a run of digits or of letters that ends with the
/// source.
proof fn run_in_parentheses(source: Seq<char>, pos: int, class: CharClass)
    requires
        0 <= pos <= source.len(),
        class is Comment ==> run_end(source, pos, class) < source.len(),
    ensures
        run_end(in_parentheses(source), pos + 1, class) == run_end(source, pos, class) + 1,
    decreases source.len() - pos,
{
    let wrapped = in_parentheses(source);
    if pos < source.len() {
        assert(wrapped[pos + 1] == source[pos]);
        if class.holds(source[pos]) {
            run_in_parentheses(source, pos + 1, class);
        }
    } else {
        assert(wrapped[pos + 1] == ')');
    }
}

/// A quote that is found in `source` is found in parentheses at the same place.
proof fn quote_in_parentheses(source: Seq<char>, pos: int)
    requires
        0 <= pos <= source.len(),
        quote_position(source, pos) < source.len(),
    ensures
        quote_position(in_parentheses(source), pos + 1) == quote_position(source, pos) + 1,
    decreases source.len() - pos,
{
    let wrapped = in_parentheses(source);
    if pos < source.len() {
        assert(wrapped[pos + 1] == source[pos]);
        if source[pos] != '"' {
            quote_in_parentheses(source, pos + 1);
        }
    }
}

/// The lines of `source` are counted the same in parentheses.
proof fn lines_in_parentheses(source: Seq<char>, from: int, to: int, line: usize)
    requires
        0 <= from <= to <= source.len(),
    ensures
        line_after(in_parentheses(source), from + 1, to + 1, line) == line_after(
            source,
            from,
            to,
            line,
        ),
    decreases to - from,
{
    let wrapped = in_parentheses(source);
    if from < to {
        assert(wrapped[from + 1] == source[from]);
        lines_in_parentheses(
            source,
            from + 1,
            to,
            if source[from] == '\n' {
                next_line(line)
            } else {
                line
            },
        );
    }
}

/// A part of `source` is the same part in parentheses.
proof fn part_in_parentheses(source: Seq<char>, from: int, to: int)
    requires
        0 <= from <= to <= source.len(),
    ensures
        in_parentheses(source).subrange(from + 1, to + 1) == source.subrange(from, to),
{
    assert(in_parentheses(source).subrange(from + 1, to + 1) =~= source.subrange(from, to));
}

/// What is asked of the character that follows is the same in parentheses,
/// where the closing parenthesis is none of the characters that are asked for.
proof fn follows_in_parentheses(source: Seq<char>, pos: int, expected: char)
    requires
        0 <= pos <= source.len(),
        expected != ')',
    ensures
        follows(in_parentheses(source), pos + 1, expected) == follows(source, pos, expected),
{
    let wrapped = in_parentheses(source);
    if pos < source.len() {
        assert(wrapped[pos + 1] == source[pos]);
    } else {
        assert(wrapped[pos + 1] == ')');
    }
}

/// A closed lexeme of `source` is scanned the same in parentheses.
proof fn step_in_parentheses(source: Seq<char>, pos: int, line: usize)
    requires
        0 <= pos < source.len(),
        lexeme_closed(source, pos),
    ensures
        scan_step(in_parentheses(source), pos + 1, line) == (Step {
            next: scan_step(source, pos, line).next + 1,
            ..scan_step(source, pos, line)
        }),
{
    let wrapped = in_parentheses(source);
    let c = source[pos];
    let after = pos + 1;
    assert(wrapped[pos + 1] == c);
    scan_step_advances(source, pos, line);
    follows_in_parentheses(source, after, '=');
    follows_in_parentheses(source, after, '/');
    part_in_parentheses(source, pos, after);
    if after + 1 <= source.len() {
        part_in_parentheses(source, pos, after + 1);
    }
    if c == '/' && follows(source, after, '/') {
        run_in_parentheses(source, after + 1, CharClass::Comment);
    } else if c == '"' {
        let quote = quote_position(source, after);
        quote_position_bounds(source, after);
        quote_in_parentheses(source, after);
        lines_in_parentheses(source, after, quote, line);
        part_in_parentheses(source, pos, quote + 1);
        part_in_parentheses(source, after, quote);
    } else if is_digit(c) {
        let whole = run_end(source, after, CharClass::Digit);
        run_end_bounds(source, after, CharClass::Digit);
        run_in_parentheses(source, after, CharClass::Digit);
        run_in_parentheses(source, pos, CharClass::Digit);
        follows_in_parentheses(source, whole, '.');
        if whole + 1 <= source.len() {
            run_end_bounds(source, whole + 1, CharClass::Digit);
            run_in_parentheses(source, whole + 1, CharClass::Digit);
            if whole + 1 < source.len() {
                assert(wrapped[whole + 2] == source[whole + 1]);
            } else {
                assert(wrapped[whole + 2] == ')');
            }
        }
        let end = number_end(source, after);
        assert(number_end(wrapped, after + 1) == end + 1);
        part_in_parentheses(source, pos, end);
        let first = run_end(source, pos, CharClass::Digit);
        assert(first == whole);
        part_in_parentheses(source, pos, whole);
        if whole < end {
            part_in_parentheses(source, whole + 1, end);
        }
        assert(number_literal(wrapped, pos + 1, end + 1) == number_literal(source, pos, end));
    } else if is_letter(c) {
        let end = run_end(source, after, CharClass::Word);
        run_end_bounds(source, after, CharClass::Word);
        run_in_parentheses(source, after, CharClass::Word);
        part_in_parentheses(source, pos, end);
    }
}

/// The tokens of a closed source are scanned the same in parentheses, and
/// the closing parenthesis after them.
proof fn scan_in_parentheses(source: Seq<char>, pos: int, line: usize)
    requires
        0 <= pos <= source.len(),
        closed_from(source, pos, line),
    ensures
        ({
            let inner = scan_from(source, pos, line).tokens;
            let outer = scan_from(in_parentheses(source), pos + 1, line).tokens;
            &&& inner.len() >= 1
            &&& outer.len() == inner.len() + 1
            &&& forall|i: int| 0 <= i < inner.len() - 1 ==> #[trigger] outer[i] == inner[i]
            &&& outer[inner.len() - 1].kind == TokenKind::RightParenthesis
            &&& outer[inner.len() as int].kind == TokenKind::EOF
            &&& inner[inner.len() - 1].kind == TokenKind::EOF
        }),
    decreases source.len() - pos,
{
    let wrapped = in_parentheses(source);
    let inner = scan_from(source, pos, line).tokens;
    let outer = scan_from(wrapped, pos + 1, line).tokens;
    if pos < source.len() {
        let step = scan_step(source, pos, line);
        scan_step_advances(source, pos, line);
        step_in_parentheses(source, pos, line);
        scan_in_parentheses(source, step.next, step.line);
        let rest = scan_from(source, step.next, step.line).tokens;
        let more = scan_from(wrapped, step.next + 1, step.line).tokens;
        let first = optional(step.token);
        assert(inner == first + rest);
        assert(outer == first + more);
        assert forall|i: int| 0 <= i < inner.len() - 1 implies #[trigger] outer[i] == inner[i] by {
            if i >= first.len() {
                assert(outer[i] == more[i - first.len()]);
                assert(inner[i] == rest[i - first.len()]);
            }
        }
        assert(outer[inner.len() - 1] == more[rest.len() - 1]);
        assert(outer[inner.len() as int] == more[rest.len() as int]);
        assert(inner[inner.len() - 1] == rest[rest.len() - 1]);
    } else {
        assert(wrapped[pos + 1] == ')');
        reveal_with_fuel(scan_from, 3);
        let close = scan_step(wrapped, pos + 1, line);
        assert(close.next == pos + 2);
        assert(scan_from(wrapped, pos + 2, line).tokens =~= seq![end_of_input(line)]);
        assert(outer =~= optional(close.token) + seq![end_of_input(line)]);
    }
}

/// Whether every comment and every string of `source` ends before the
/// source does.
pub open spec fn closed(source: Seq<char>) -> bool {
    closed_from(source, 0, 1)
}

/// A source that stands for an expression stands, between a pair of
/// parentheses, for the grouping of that expression, and so evaluates to
/// the same: parentheses do not change what an expression evaluates to.
///
/// The source must be closed: a comment that runs to its end, or a string
/// that is not terminated, would take in the closing parenthesis.
pub proof fn parentheses_keep_the_value_of_a_source(
    host: Host,
    scopes: Seq<Scope>,
    source: Seq<char>,
)
    requires
        closed(source),
        whole_expression(scan(source).tokens) is Some,
    ensures
        ({
            let inner = whole_expression(scan(source).tokens)->0;
            let outer = whole_expression(scan(in_parentheses(source)).tokens);
            &&& outer == Some(ExprView::Grouping { expr: Box::new(inner) })
            &&& evaluated(host, scopes, outer->0) == evaluated(host, scopes, inner)
        }),
{
    let wrapped = in_parentheses(source);
    let tokens = scan(source).tokens;
    scan_in_parentheses(source, 0, 1);
    assert(wrapped[0] == '(');
    let open = scan_step(wrapped, 0, 1);
    reveal_with_fuel(scan_from, 2);
    let rest = scan_from(wrapped, 1, 1).tokens;
    let all = scan(wrapped).tokens;
    assert(all == optional(open.token) + rest);
    assert(all[0].kind == TokenKind::LeftParenthesis);
    assert forall|i: int| 0 <= i < tokens.len() - 1 implies #[trigger] all[i + 1] == tokens[i] by {
        assert(all[i + 1] == rest[i]);
    }
    assert(all[tokens.len() as int] == rest[tokens.len() - 1]);
    assert(all.last() == rest[tokens.len() as int]);
    assert(wraps(all, tokens));
    parentheses_give_a_grouping(all, tokens);
}

} // verus!
