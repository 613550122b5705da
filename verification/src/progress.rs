//! The grammar never goes back in the tokens, and never beyond them.

use vstd::prelude::*;

use crate::parser::{
    assignment, at_end, binary, binary_rest, block, check, consume, declaration, expression, expression_statement, for_clauses, for_condition, for_increment, for_initializer, for_statement, if_statement, join, level_operator, levels, parenthesized, primary, print_statement, resume_position, starts_statement, statement, synchronize, terminated_expression, unary, var_declaration, well_formed, while_statement, within, Parsed,
};
use crate::expr::ExprView;
use crate::stmt::StmtView;
use crate::text::decimal_text;
use crate::token::{TokenKind, TokenView};

verus! {

/// Whether parsing that began at `pos` and gave `parsed` has stayed within
/// the tokens and has not gone back.
pub open spec fn stays<T>(tokens: Seq<TokenView>, pos: int, parsed: Parsed<T>) -> bool {
    within(tokens, pos, parsed.next)
}

/// Whether parsing that began at `pos` and gave `parsed` has stayed within
/// the tokens and has consumed a token, as it must after a success, and
/// after a failure unless it began at the end of the input.
pub open spec fn advances<T>(tokens: Seq<TokenView>, pos: int, parsed: Parsed<T>) -> bool {
    &&& within(tokens, pos, parsed.next)
    &&& parsed.value is Some || !at_end(tokens, pos) ==> pos < parsed.next
}

/// A token that is missing at the end of the input is reported there: the
/// diagnostic is the line of the end-of-input token, the words `Error at
/// end` and the message, and nothing is consumed.
pub proof fn missing_at_end_is_reported_at_end(
    tokens: Seq<TokenView>,
    pos: int,
    faults: Seq<Seq<char>>,
    kind: TokenKind,
    message: Seq<char>,
)
    requires
        at_end(tokens, pos),
    ensures
        consume(tokens, pos, faults, kind, message) == (Parsed::<TokenView> {
            value: None,
            next: pos,
            faults: faults.push(
                "[line "@ + decimal_text(tokens[pos].line as nat) + "] Error at end "@ + message,
            ),
        }),
{
}

/// The rest of an expression never ends before it begins.
proof fn binary_rest_stays(
    tokens: Seq<TokenView>,
    pos: int,
    faults: Seq<Seq<char>>,
    level: nat,
    left: Option<ExprView>,
)
    requires
        well_formed(tokens),
        within(tokens, pos, pos),
    ensures
        stays(tokens, pos, binary_rest(tokens, pos, faults, level, left)),
        binary_rest(tokens, pos, faults, level, left).value is Some ==> left is Some,
    decreases tokens.len() - pos, 0nat,
{
    reveal_with_fuel(binary_rest, 1);
    reveal_with_fuel(binary, 1);
    if level < levels() && level_operator(level, tokens[pos].kind) {
        binary_advances(tokens, pos + 1, faults, level + 1);
        let right = binary(tokens, pos + 1, faults, level + 1);
        if left is Some && right.value is Some {
            binary_rest_stays(
                tokens,
                right.next,
                right.faults,
                level,
                Some(join(level, left->0, tokens[pos], right.value->0)),
            );
        }
    }
}

/// Without a left operand, the rest of an expression is nothing.
pub proof fn binary_rest_gives_nothing(
    tokens: Seq<TokenView>,
    pos: int,
    faults: Seq<Seq<char>>,
    level: nat,
)
    requires
        well_formed(tokens),
        within(tokens, pos, pos),
    ensures
        binary_rest(tokens, pos, faults, level, None).value is None,
{
    binary_rest_stays(tokens, pos, faults, level, None);
}

/// An expression of any level consumes a token.
pub proof fn binary_advances(tokens: Seq<TokenView>, pos: int, faults: Seq<Seq<char>>, level: nat)
    requires
        well_formed(tokens),
        within(tokens, pos, pos),
    ensures
        advances(tokens, pos, binary(tokens, pos, faults, level)),
    decreases tokens.len() - pos, (if level < levels() {
        8 - level
    } else {
        2
    }),
{
    reveal_with_fuel(binary, 1);
    reveal_with_fuel(binary_rest, 1);
    reveal_with_fuel(unary, 1);
    if level >= levels() {
        unary_advances(tokens, pos, faults);
    } else {
        binary_advances(tokens, pos, faults, level + 1);
        let left = binary(tokens, pos, faults, level + 1);
        binary_rest_stays(tokens, left.next, left.faults, level, left.value);
    }
}

/// A unary expression consumes a token.
pub proof fn unary_advances(tokens: Seq<TokenView>, pos: int, faults: Seq<Seq<char>>)
    requires
        well_formed(tokens),
        within(tokens, pos, pos),
    ensures
        advances(tokens, pos, unary(tokens, pos, faults)),
    decreases tokens.len() - pos, 1nat,
{
    reveal_with_fuel(unary, 1);
    reveal_with_fuel(primary, 1);
    if tokens[pos].kind == TokenKind::Bang || tokens[pos].kind == TokenKind::Minus {
        unary_advances(tokens, pos + 1, faults);
    } else {
        primary_advances(tokens, pos, faults);
    }
}

/// A primary expression consumes a token.
pub proof fn primary_advances(tokens: Seq<TokenView>, pos: int, faults: Seq<Seq<char>>)
    requires
        well_formed(tokens),
        within(tokens, pos, pos),
    ensures
        advances(tokens, pos, primary(tokens, pos, faults)),
    decreases tokens.len() - pos, 0nat,
{
    reveal_with_fuel(primary, 1);
    reveal_with_fuel(expression, 1);
    let kind = tokens[pos].kind;
    if kind == TokenKind::LeftParenthesis {
        expression_advances(tokens, pos + 1, faults);
    }
}

/// An assignment consumes a token.
pub proof fn assignment_advances(tokens: Seq<TokenView>, pos: int, faults: Seq<Seq<char>>)
    requires
        well_formed(tokens),
        within(tokens, pos, pos),
    ensures
        advances(tokens, pos, assignment(tokens, pos, faults)),
    decreases tokens.len() - pos, 9nat,
{
    reveal_with_fuel(assignment, 1);
    reveal_with_fuel(binary, 1);
    binary_advances(tokens, pos, faults, 0);
    let target = binary(tokens, pos, faults, 0);
    if target.value is Some && check(tokens, target.next, TokenKind::Equal) {
        assignment_advances(tokens, target.next + 1, target.faults);
    }
}

/// An expression consumes a token.
pub proof fn expression_advances(tokens: Seq<TokenView>, pos: int, faults: Seq<Seq<char>>)
    requires
        well_formed(tokens),
        within(tokens, pos, pos),
    ensures
        advances(tokens, pos, expression(tokens, pos, faults)),
    decreases tokens.len() - pos, 10nat,
{
    reveal_with_fuel(expression, 1);
    reveal_with_fuel(assignment, 1);
    assignment_advances(tokens, pos, faults);
}

/// Parsing resumes at or after the place where it is to resume from.
proof fn resume_position_stays(tokens: Seq<TokenView>, pos: int)
    requires
        well_formed(tokens),
        within(tokens, pos, pos),
    ensures
        within(tokens, pos, resume_position(tokens, pos)),
    decreases tokens.len() - pos,
{
    if !(!within(tokens, 1, pos) || at_end(tokens, pos) || tokens[pos - 1].kind
        == TokenKind::Semicolon || starts_statement(tokens[pos].kind)) {
        resume_position_stays(tokens, pos + 1);
    }
}

/// Synchronizing skips a token, unless it begins at the end of the input.
pub proof fn synchronize_advances(tokens: Seq<TokenView>, pos: int)
    requires
        well_formed(tokens),
        within(tokens, pos, pos),
    ensures
        within(tokens, pos, synchronize(tokens, pos)),
        !at_end(tokens, pos) ==> pos < synchronize(tokens, pos),
{
    if !at_end(tokens, pos) {
        resume_position_stays(tokens, pos + 1);
    }
}

/// An expression with its semicolon consumes a token.
proof fn terminated_expression_advances(
    tokens: Seq<TokenView>,
    pos: int,
    faults: Seq<Seq<char>>,
    message: Seq<char>,
)
    requires
        well_formed(tokens),
        within(tokens, pos, pos),
    ensures
        advances(tokens, pos, terminated_expression(tokens, pos, faults, message)),
{
    reveal_with_fuel(terminated_expression, 1);
    expression_advances(tokens, pos, faults);
}

/// A variable declaration does not go back.
proof fn var_declaration_stays(tokens: Seq<TokenView>, pos: int, faults: Seq<Seq<char>>)
    requires
        well_formed(tokens),
        within(tokens, pos, pos),
    ensures
        stays(tokens, pos, var_declaration(tokens, pos, faults)),
{
    reveal_with_fuel(var_declaration, 1);
    let name = consume(tokens, pos, faults, TokenKind::Identifier, "Expect variable name."@);
    if name.value is Some {
        if check(tokens, name.next, TokenKind::Equal) {
            expression_advances(tokens, name.next + 1, name.faults);
        }
    }
}

/// An expression in parentheses does not go back, and consumes a token
/// where it is parsed.
proof fn parenthesized_stays(
    tokens: Seq<TokenView>,
    pos: int,
    faults: Seq<Seq<char>>,
    opening: Seq<char>,
    closing: Seq<char>,
)
    requires
        well_formed(tokens),
        within(tokens, pos, pos),
    ensures
        stays(tokens, pos, parenthesized(tokens, pos, faults, opening, closing)),
{
    reveal_with_fuel(parenthesized, 1);
    let open = consume(tokens, pos, faults, TokenKind::LeftParenthesis, opening);
    if open.value is Some {
        expression_advances(tokens, open.next, open.faults);
    }
}

/// The clauses of a `for` statement do not go back.
proof fn for_clauses_stays(tokens: Seq<TokenView>, pos: int, faults: Seq<Seq<char>>)
    requires
        well_formed(tokens),
        within(tokens, pos, pos),
    ensures
        stays(tokens, pos, for_clauses(tokens, pos, faults)),
{
    reveal_with_fuel(for_clauses, 1);
    reveal_with_fuel(for_initializer, 1);
    reveal_with_fuel(for_condition, 1);
    reveal_with_fuel(for_increment, 1);
    reveal_with_fuel(expression_statement, 1);
    let open = consume(
        tokens,
        pos,
        faults,
        TokenKind::LeftParenthesis,
        "Expect '(' after 'for'."@,
    );
    if open.value is Some {
        let first = open.next;
        if !check(tokens, first, TokenKind::Semicolon) {
            if check(tokens, first, TokenKind::Var) {
                var_declaration_stays(tokens, first + 1, open.faults);
            } else {
                terminated_expression_advances(
                    tokens,
                    first,
                    open.faults,
                    "Expect ';' after expression."@,
                );
            }
        }
        let initializer = for_initializer(tokens, first, open.faults);
        if initializer.value is Some {
            let second = initializer.next;
            if !check(tokens, second, TokenKind::Semicolon) {
                expression_advances(tokens, second, initializer.faults);
            }
            let condition = for_condition(tokens, second, initializer.faults);
            if condition.value is Some {
                let third = condition.next;
                if !check(tokens, third, TokenKind::RightParenthesis) {
                    expression_advances(tokens, third, condition.faults);
                }
            }
        }
    }
}

/// A statement consumes a token.
pub proof fn statement_advances(tokens: Seq<TokenView>, pos: int, faults: Seq<Seq<char>>)
    requires
        well_formed(tokens),
        within(tokens, pos, pos),
    ensures
        advances(tokens, pos, statement(tokens, pos, faults)),
    decreases tokens.len() - pos, 1nat,
{
    reveal_with_fuel(statement, 1);
    reveal_with_fuel(for_statement, 1);
    reveal_with_fuel(if_statement, 1);
    reveal_with_fuel(while_statement, 1);
    reveal_with_fuel(block, 1);
    reveal_with_fuel(print_statement, 1);
    reveal_with_fuel(expression_statement, 1);
    if check(tokens, pos, TokenKind::For) {
        for_statement_stays(tokens, pos + 1, faults);
    } else if check(tokens, pos, TokenKind::If) {
        if_statement_stays(tokens, pos + 1, faults);
    } else if check(tokens, pos, TokenKind::Print) {
        terminated_expression_advances(tokens, pos + 1, faults, "Expect ';' after value."@);
    } else if check(tokens, pos, TokenKind::While) {
        while_statement_stays(tokens, pos + 1, faults);
    } else if check(tokens, pos, TokenKind::LeftBrace) {
        block_stays(tokens, pos + 1, faults, Seq::empty());
    } else {
        terminated_expression_advances(tokens, pos, faults, "Expect ';' after expression."@);
    }
}

/// A `for` statement does not go back.
proof fn for_statement_stays(tokens: Seq<TokenView>, pos: int, faults: Seq<Seq<char>>)
    requires
        well_formed(tokens),
        within(tokens, pos, pos),
    ensures
        stays(tokens, pos, for_statement(tokens, pos, faults)),
    decreases tokens.len() - pos, 2nat,
{
    reveal_with_fuel(for_statement, 1);
    reveal_with_fuel(statement, 1);
    for_clauses_stays(tokens, pos, faults);
    let clauses = for_clauses(tokens, pos, faults);
    if clauses.value is Some {
        statement_advances(tokens, clauses.next, clauses.faults);
    }
}

/// An `if` statement does not go back.
proof fn if_statement_stays(tokens: Seq<TokenView>, pos: int, faults: Seq<Seq<char>>)
    requires
        well_formed(tokens),
        within(tokens, pos, pos),
    ensures
        stays(tokens, pos, if_statement(tokens, pos, faults)),
    decreases tokens.len() - pos, 2nat,
{
    reveal_with_fuel(if_statement, 1);
    reveal_with_fuel(statement, 1);
    parenthesized_stays(
        tokens,
        pos,
        faults,
        "Expect '(' after 'if'."@,
        "Expect ')' after if condition."@,
    );
    let head = parenthesized(
        tokens,
        pos,
        faults,
        "Expect '(' after 'if'."@,
        "Expect ')' after if condition."@,
    );
    if head.value is Some {
        statement_advances(tokens, head.next, head.faults);
        let then_branch = statement(tokens, head.next, head.faults);
        if then_branch.value is Some && check(tokens, then_branch.next, TokenKind::Else) {
            statement_advances(tokens, then_branch.next + 1, then_branch.faults);
        }
    }
}

/// A `while` statement does not go back.
proof fn while_statement_stays(tokens: Seq<TokenView>, pos: int, faults: Seq<Seq<char>>)
    requires
        well_formed(tokens),
        within(tokens, pos, pos),
    ensures
        stays(tokens, pos, while_statement(tokens, pos, faults)),
    decreases tokens.len() - pos, 2nat,
{
    reveal_with_fuel(while_statement, 1);
    reveal_with_fuel(statement, 1);
    parenthesized_stays(
        tokens,
        pos,
        faults,
        "Expect '(' after 'while'."@,
        "Expect ')' after condition."@,
    );
    let head = parenthesized(
        tokens,
        pos,
        faults,
        "Expect '(' after 'while'."@,
        "Expect ')' after condition."@,
    );
    if head.value is Some {
        statement_advances(tokens, head.next, head.faults);
    }
}

/// A declaration consumes a token.
pub proof fn declaration_advances(tokens: Seq<TokenView>, pos: int, faults: Seq<Seq<char>>)
    requires
        well_formed(tokens),
        within(tokens, pos, pos),
    ensures
        advances(tokens, pos, declaration(tokens, pos, faults)),
    decreases tokens.len() - pos, 3nat,
{
    reveal_with_fuel(declaration, 1);
    reveal_with_fuel(statement, 1);
    if check(tokens, pos, TokenKind::Var) {
        var_declaration_stays(tokens, pos + 1, faults);
        let parsed = var_declaration(tokens, pos + 1, faults);
        if parsed.value is None {
            synchronize_advances(tokens, parsed.next);
        }
    } else {
        statement_advances(tokens, pos, faults);
        let parsed = statement(tokens, pos, faults);
        if parsed.value is None {
            synchronize_advances(tokens, parsed.next);
        }
    }
}

/// The rest of a block does not go back.
proof fn block_stays(
    tokens: Seq<TokenView>,
    pos: int,
    faults: Seq<Seq<char>>,
    statements: Seq<StmtView>,
)
    requires
        well_formed(tokens),
        within(tokens, pos, pos),
    ensures
        stays(tokens, pos, block(tokens, pos, faults, statements)),
    decreases tokens.len() - pos, 4nat,
{
    reveal_with_fuel(block, 1);
    reveal_with_fuel(declaration, 1);
    if !check(tokens, pos, TokenKind::RightBrace) && !at_end(tokens, pos) {
        declaration_advances(tokens, pos, faults);
        let next = declaration(tokens, pos, faults);
        if next.value is Some {
            block_stays(tokens, next.next, next.faults, statements.push(next.value->0));
        }
    }
}

/// The rest of an expression that the end of the input follows is nothing.
proof fn rest_at_end(
    tokens: Seq<TokenView>,
    pos: int,
    faults: Seq<Seq<char>>,
    level: nat,
    left: Option<ExprView>,
)
    requires
        within(tokens, pos, pos),
        at_end(tokens, pos),
    ensures
        binary_rest(tokens, pos, faults, level, left) == (Parsed { value: left, next: pos, faults }),
{
    reveal_with_fuel(binary_rest, 1);
}

/// A unary expression that the end of the input follows is the whole
/// expression, at any level.
proof fn unary_at_level(tokens: Seq<TokenView>, pos: int, faults: Seq<Seq<char>>, level: nat)
    requires
        within(tokens, pos, pos),
        unary(tokens, pos, faults).value is Some,
        within(tokens, pos, unary(tokens, pos, faults).next),
        at_end(tokens, unary(tokens, pos, faults).next),
        level <= levels(),
    ensures
        binary(tokens, pos, faults, level) == unary(tokens, pos, faults),
    decreases levels() - level,
{
    reveal_with_fuel(binary, 1);
    reveal_with_fuel(binary_rest, 1);
    reveal_with_fuel(unary, 1);
    let whole = unary(tokens, pos, faults);
    if level < levels() {
        unary_at_level(tokens, pos, faults, level + 1);
        rest_at_end(tokens, whole.next, whole.faults, level, whole.value);
        let operand = binary(tokens, pos, faults, level + 1);
        assert(operand == whole);
        assert(binary(tokens, pos, faults, level) == binary_rest(
            tokens,
            whole.next,
            whole.faults,
            level,
            whole.value,
        ));
    } else {
        assert(binary(tokens, pos, faults, level) == unary(tokens, pos, faults));
    }
}

/// A unary expression that the end of the input follows is the whole expression.
pub proof fn unary_alone(tokens: Seq<TokenView>, pos: int, faults: Seq<Seq<char>>)
    requires
        within(tokens, pos, pos),
        unary(tokens, pos, faults).value is Some,
        within(tokens, pos, unary(tokens, pos, faults).next),
        at_end(tokens, unary(tokens, pos, faults).next),
    ensures
        assignment(tokens, pos, faults) == unary(tokens, pos, faults),
{
    reveal_with_fuel(assignment, 1);
    reveal_with_fuel(binary, 1);
    unary_at_level(tokens, pos, faults, 0);
}

/// A primary expression that the end of the input follows is the whole expression.
pub proof fn primary_alone(tokens: Seq<TokenView>, pos: int, faults: Seq<Seq<char>>)
    requires
        within(tokens, pos, pos),
        primary(tokens, pos, faults).value is Some,
        within(tokens, pos, primary(tokens, pos, faults).next),
        at_end(tokens, primary(tokens, pos, faults).next),
        tokens[pos].kind != TokenKind::Bang,
        tokens[pos].kind != TokenKind::Minus,
    ensures
        assignment(tokens, pos, faults) == primary(tokens, pos, faults),
{
    reveal_with_fuel(unary, 1);
    reveal_with_fuel(primary, 1);
    assert(unary(tokens, pos, faults) == primary(tokens, pos, faults));
    unary_alone(tokens, pos, faults);
}

} // verus!
