//! The grammar of the language, and the recursive-descent parser for it.

use vstd::prelude::*;

use crate::error_text;
use crate::expr::{
    Assignment, Binary, Expr, ExprView, Grouping, Literal, Logical, Super, This, Unary, Variable,
};
use crate::stmt::{block_view, stmt_views, Block, Expression, If, Print, Stmt, StmtView, Var, While};
use crate::text::texts;
use crate::token::{token_views, LiteralKind, LiteralValue, Token, TokenKind, TokenView};

verus! {

/// What parsing one construct gives.
pub ghost struct Parsed<T> {
    /// The construct, or nothing where parsing failed.
    pub value: Option<T>,
    /// The position of the first token that was not consumed.
    pub next: int,
    /// All diagnostics given so far, in order.
    pub faults: Seq<Seq<char>>,
}

/// The failure of a construct whose part `part` could not be parsed.
pub open spec fn abandoned<T, U>(part: Parsed<U>) -> Parsed<T> {
    Parsed { value: None, next: part.next, faults: part.faults }
}

/// A token sequence that a parser accepts: its last token marks the end of
/// the input.
pub open spec fn well_formed(tokens: Seq<TokenView>) -> bool {
    tokens.len() > 0 && tokens.last().kind == TokenKind::EOF
}

/// Whether `next` is a position in `tokens` at or after `from`.
pub open spec fn within(tokens: Seq<TokenView>, from: int, next: int) -> bool {
    0 <= from <= next < tokens.len()
}

/// Whether the token at `pos` ends the input.
pub open spec fn at_end(tokens: Seq<TokenView>, pos: int) -> bool {
    tokens[pos].kind == TokenKind::EOF
}

/// Whether the token at `pos` is of `kind` and does not end the input.
pub open spec fn check(tokens: Seq<TokenView>, pos: int, kind: TokenKind) -> bool {
    !at_end(tokens, pos) && tokens[pos].kind == kind
}

/// The position after `pos`; the end of the input is never passed.
pub open spec fn advance(tokens: Seq<TokenView>, pos: int) -> int {
    if at_end(tokens, pos) {
        pos
    } else {
        pos + 1
    }
}

/// The token that the diagnostic for a token missing at `pos` names: at the
/// end of the input the end-of-input token, so that the diagnostic says that
/// the input has ended, and anywhere else the token before `pos`. Where no
/// token stands before `pos`, it is the token at `pos`.
pub open spec fn blamed(tokens: Seq<TokenView>, pos: int) -> TokenView {
    if at_end(tokens, pos) || pos <= 0 {
        tokens[pos]
    } else {
        tokens[pos - 1]
    }
}

/// The token of `kind` that is required at `pos`. Where it is missing, the
/// diagnostic `message` is given and nothing is consumed: at the end of the
/// input the diagnostic says so, and anywhere else it names the token before
/// `pos`, or the token at `pos` where none stands before it.
pub open spec fn consume(
    tokens: Seq<TokenView>,
    pos: int,
    faults: Seq<Seq<char>>,
    kind: TokenKind,
    message: Seq<char>,
) -> Parsed<TokenView> {
    if check(tokens, pos, kind) {
        Parsed { value: Some(tokens[pos]), next: pos + 1, faults }
    } else {
        Parsed { value: None, next: pos, faults: faults.push(error_text(blamed(tokens, pos), message)) }
    }
}

/// The number of precedence levels of operators with two operands.
pub open spec fn levels() -> nat {
    6
}

/// Whether `kind` is an operator of the precedence level `level`. The levels
/// run from the loosest to the tightest: `or`, `and`, equality, comparison,
/// terms, factors.
pub open spec fn level_operator(level: nat, kind: TokenKind) -> bool {
    if level == 0 {
        kind == TokenKind::Or
    } else if level == 1 {
        kind == TokenKind::And
    } else if level == 2 {
        kind == TokenKind::BangEqual || kind == TokenKind::EqualEqual
    } else if level == 3 {
        kind == TokenKind::Greater || kind == TokenKind::GreaterEqual || kind == TokenKind::Less
            || kind == TokenKind::LessEqual
    } else if level == 4 {
        kind == TokenKind::Minus || kind == TokenKind::Plus
    } else {
        kind == TokenKind::Slash || kind == TokenKind::Star
    }
}

/// The expression that an operator of `level` makes of its operands.
pub open spec fn join(level: nat, left: ExprView, operator: TokenView, right: ExprView) -> ExprView {
    if level <= 1 {
        ExprView::Logical { left: Box::new(left), operator, right: Box::new(right) }
    } else {
        ExprView::Binary { left: Box::new(left), operator, right: Box::new(right) }
    }
}

/// The literal expression for `value`.
pub open spec fn literal(value: LiteralValue) -> ExprView {
    ExprView::Literal { value }
}

/// `expression := assignment`
#[verifier::opaque]
pub open spec fn expression(tokens: Seq<TokenView>, pos: int, faults: Seq<Seq<char>>) -> Parsed<
    ExprView,
>
    decreases tokens.len() - pos, 10nat,
{
    if within(tokens, pos, pos) {
        assignment(tokens, pos, faults)
    } else {
        Parsed { value: None, next: pos, faults }
    }
}

/// `assignment := IDENT "=" assignment | logic_or`
///
/// The target is parsed as an expression of the next level. Where an equals
/// sign follows, the value is parsed, and then the target must be a variable.
#[verifier::opaque]
pub open spec fn assignment(tokens: Seq<TokenView>, pos: int, faults: Seq<Seq<char>>) -> Parsed<
    ExprView,
>
    decreases tokens.len() - pos, 9nat,
{
    let target = binary(tokens, pos, faults, 0);
    if target.value is Some && within(tokens, pos, target.next) && check(
        tokens,
        target.next,
        TokenKind::Equal,
    ) {
        let equals = tokens[target.next];
        let value = assignment(tokens, target.next + 1, target.faults);
        match (target.value, value.value) {
            (Some(ExprView::Variable { name }), Some(v)) => Parsed {
                value: Some(ExprView::Assignment { name, value: Box::new(v) }),
                next: value.next,
                faults: value.faults,
            },
            (_, Some(_)) => Parsed {
                value: None,
                next: value.next,
                faults: value.faults.push(error_text(equals, "Invalid assignment target."@)),
            },
            (_, None) => value,
        }
    } else {
        target
    }
}

/// An expression of the precedence level `level`: operands of the next
/// level, joined from the left by operators of this level.
///
/// After a first operand that failed, the levels of `or` and `and` stop. The
/// other levels still consume one operator and its operand, if they follow,
/// before they fail.
#[verifier::opaque]
pub open spec fn binary(
    tokens: Seq<TokenView>,
    pos: int,
    faults: Seq<Seq<char>>,
    level: nat,
) -> Parsed<ExprView>
    decreases tokens.len() - pos, (if level < levels() {
        8 - level
    } else {
        2
    }),
{
    if level >= levels() {
        unary(tokens, pos, faults)
    } else {
        let left = binary(tokens, pos, faults, level + 1);
        if (level <= 1 && left.value is None) || !within(tokens, pos, left.next) {
            left
        } else {
            binary_rest(tokens, left.next, left.faults, level, left.value)
        }
    }
}

/// The rest of an expression of `level` whose operands up to `pos` gave `left`.
#[verifier::opaque]
pub open spec fn binary_rest(
    tokens: Seq<TokenView>,
    pos: int,
    faults: Seq<Seq<char>>,
    level: nat,
    left: Option<ExprView>,
) -> Parsed<ExprView>
    decreases tokens.len() - pos, 0nat,
{
    if within(tokens, pos, pos) && level < levels() && level_operator(level, tokens[pos].kind) {
        let operator = tokens[pos];
        let right = binary(tokens, pos + 1, faults, level + 1);
        match (left, right.value) {
            (Some(l), Some(r)) => if within(tokens, pos + 1, right.next) {
                binary_rest(
                    tokens,
                    right.next,
                    right.faults,
                    level,
                    Some(join(level, l, operator, r)),
                )
            } else {
                abandoned(right)
            },
            _ => abandoned(right),
        }
    } else {
        Parsed { value: left, next: pos, faults }
    }
}

/// `unary := ("!"|"-") unary | primary`
#[verifier::opaque]
pub open spec fn unary(tokens: Seq<TokenView>, pos: int, faults: Seq<Seq<char>>) -> Parsed<ExprView>
    decreases tokens.len() - pos, 1nat,
{
    if within(tokens, pos, pos) && (tokens[pos].kind == TokenKind::Bang || tokens[pos].kind
        == TokenKind::Minus) {
        let right = unary(tokens, pos + 1, faults);
        match right.value {
            Some(r) => Parsed {
                value: Some(ExprView::Unary { operator: tokens[pos], right: Box::new(r) }),
                next: right.next,
                faults: right.faults,
            },
            None => right,
        }
    } else {
        primary(tokens, pos, faults)
    }
}

/// ```text
/// primary := "false" | "true" | "nil" | NUMBER | STRING
///          | "super" "." IDENT | "this" | IDENT | "(" expression ")"
/// ```
///
/// Any other token gives a diagnostic and is skipped, unless it ends the input.
#[verifier::opaque]
pub open spec fn primary(tokens: Seq<TokenView>, pos: int, faults: Seq<Seq<char>>) -> Parsed<
    ExprView,
>
    decreases tokens.len() - pos, 0nat,
{
    let token = tokens[pos];
    if !within(tokens, pos, pos) {
        Parsed { value: None, next: pos, faults }
    } else if token.kind == TokenKind::False {
        Parsed { value: Some(literal(LiteralValue::Bool(false))), next: pos + 1, faults }
    } else if token.kind == TokenKind::True {
        Parsed { value: Some(literal(LiteralValue::Bool(true))), next: pos + 1, faults }
    } else if token.kind == TokenKind::Nil {
        Parsed { value: Some(literal(LiteralValue::Nil)), next: pos + 1, faults }
    } else if token.kind == TokenKind::String || token.kind == TokenKind::Number {
        Parsed { value: Some(literal(token.literal)), next: pos + 1, faults }
    } else if token.kind == TokenKind::Super {
        let dot = consume(tokens, pos + 1, faults, TokenKind::Dot, "Expect '.' after 'super'."@);
        if dot.value is None {
            abandoned(dot)
        } else {
            let method = consume(
                tokens,
                dot.next,
                dot.faults,
                TokenKind::Identifier,
                "Expect superclass method name."@,
            );
            match method.value {
                Some(m) => Parsed {
                    value: Some(ExprView::Super { keyword: token, method: m }),
                    next: method.next,
                    faults: method.faults,
                },
                None => abandoned(method),
            }
        }
    } else if token.kind == TokenKind::This {
        Parsed { value: Some(ExprView::This { keyword: token }), next: pos + 1, faults }
    } else if token.kind == TokenKind::Identifier {
        Parsed { value: Some(ExprView::Variable { name: token }), next: pos + 1, faults }
    } else if token.kind == TokenKind::LeftParenthesis {
        let inner = expression(tokens, pos + 1, faults);
        match inner.value {
            Some(e) => {
                let close = consume(
                    tokens,
                    inner.next,
                    inner.faults,
                    TokenKind::RightParenthesis,
                    "Expect ')' after expression."@,
                );
                match close.value {
                    Some(_) => Parsed {
                        value: Some(ExprView::Grouping { expr: Box::new(e) }),
                        next: close.next,
                        faults: close.faults,
                    },
                    None => abandoned(close),
                }
            },
            None => inner,
        }
    } else {
        Parsed {
            value: None,
            next: advance(tokens, pos),
            faults: faults.push(error_text(token, "Expect expression."@)),
        }
    }
}

/// Whether a statement may begin with a token of `kind`.
pub open spec fn starts_statement(kind: TokenKind) -> bool {
    kind == TokenKind::Class || kind == TokenKind::Fun || kind == TokenKind::Var || kind
        == TokenKind::For || kind == TokenKind::If || kind == TokenKind::While || kind
        == TokenKind::Print || kind == TokenKind::Return
}

/// The first position at or after `pos` at which parsing may resume: the end
/// of the input, a position just after a semicolon, or one where a statement
/// may begin.
pub open spec fn resume_position(tokens: Seq<TokenView>, pos: int) -> int
    decreases tokens.len() - pos,
{
    if !within(tokens, 1, pos) || at_end(tokens, pos) || tokens[pos - 1].kind
        == TokenKind::Semicolon || starts_statement(tokens[pos].kind) {
        pos
    } else {
        resume_position(tokens, pos + 1)
    }
}

/// Where parsing resumes after an error at `pos`: one token is skipped, then
/// all up to the next position at which parsing may resume.
pub open spec fn synchronize(tokens: Seq<TokenView>, pos: int) -> int {
    if at_end(tokens, pos) {
        pos
    } else {
        resume_position(tokens, pos + 1)
    }
}

/// An expression with the semicolon that ends it: `message` is the
/// diagnostic for a missing semicolon.
#[verifier::opaque]
pub open spec fn terminated_expression(
    tokens: Seq<TokenView>,
    pos: int,
    faults: Seq<Seq<char>>,
    message: Seq<char>,
) -> Parsed<ExprView> {
    let value = expression(tokens, pos, faults);
    match value.value {
        Some(e) => {
            let end = consume(tokens, value.next, value.faults, TokenKind::Semicolon, message);
            match end.value {
                Some(_) => Parsed { value: Some(e), next: end.next, faults: end.faults },
                None => abandoned(end),
            }
        },
        None => value,
    }
}

/// `exprStmt := expression ";"`
#[verifier::opaque]
pub open spec fn expression_statement(
    tokens: Seq<TokenView>,
    pos: int,
    faults: Seq<Seq<char>>,
) -> Parsed<StmtView> {
    let value = terminated_expression(tokens, pos, faults, "Expect ';' after expression."@);
    match value.value {
        Some(e) => Parsed {
            value: Some(StmtView::Expression { expression: e }),
            next: value.next,
            faults: value.faults,
        },
        None => abandoned(value),
    }
}

/// `printStmt := "print" expression ";"`, from the position after `print`.
#[verifier::opaque]
pub open spec fn print_statement(tokens: Seq<TokenView>, pos: int, faults: Seq<Seq<char>>) -> Parsed<
    StmtView,
> {
    let value = terminated_expression(tokens, pos, faults, "Expect ';' after value."@);
    match value.value {
        Some(e) => Parsed {
            value: Some(StmtView::Print { expression: e }),
            next: value.next,
            faults: value.faults,
        },
        None => abandoned(value),
    }
}

/// `varDecl := "var" IDENT ( "=" expression )? ";"`, from the position after
/// `var`. Without an initializer the variable is declared with the literal
/// that is none.
#[verifier::opaque]
pub open spec fn var_declaration(tokens: Seq<TokenView>, pos: int, faults: Seq<Seq<char>>) -> Parsed<
    StmtView,
> {
    let name = consume(tokens, pos, faults, TokenKind::Identifier, "Expect variable name."@);
    match name.value {
        Some(n) => {
            let initializer = if check(tokens, name.next, TokenKind::Equal) {
                expression(tokens, name.next + 1, name.faults)
            } else {
                Parsed {
                    value: Some(literal(LiteralValue::Nil)),
                    next: name.next,
                    faults: name.faults,
                }
            };
            match initializer.value {
                Some(i) => {
                    let end = consume(
                        tokens,
                        initializer.next,
                        initializer.faults,
                        TokenKind::Semicolon,
                        "Expect ';' after variable declaration."@,
                    );
                    match end.value {
                        Some(_) => Parsed {
                            value: Some(StmtView::Var { name: n, initializer: i }),
                            next: end.next,
                            faults: end.faults,
                        },
                        None => abandoned(end),
                    }
                },
                None => abandoned(initializer),
            }
        },
        None => abandoned(name),
    }
}

/// An expression in parentheses at the head of a statement: `opening` and
/// `closing` are the diagnostics for a parenthesis that is missing.
#[verifier::opaque]
pub open spec fn parenthesized(
    tokens: Seq<TokenView>,
    pos: int,
    faults: Seq<Seq<char>>,
    opening: Seq<char>,
    closing: Seq<char>,
) -> Parsed<ExprView> {
    let open = consume(tokens, pos, faults, TokenKind::LeftParenthesis, opening);
    if open.value is None {
        abandoned(open)
    } else {
        let value = expression(tokens, open.next, open.faults);
        match value.value {
            Some(e) => {
                let close = consume(
                    tokens,
                    value.next,
                    value.faults,
                    TokenKind::RightParenthesis,
                    closing,
                );
                match close.value {
                    Some(_) => Parsed { value: Some(e), next: close.next, faults: close.faults },
                    None => abandoned(close),
                }
            },
            None => value,
        }
    }
}

/// The first clause of a `for` statement, from the position after the
/// opening parenthesis: a semicolon alone, a variable declaration or an
/// expression statement.
#[verifier::opaque]
pub open spec fn for_initializer(tokens: Seq<TokenView>, pos: int, faults: Seq<Seq<char>>) -> Parsed<
    Option<StmtView>,
> {
    if check(tokens, pos, TokenKind::Semicolon) {
        Parsed { value: Some(None), next: pos + 1, faults }
    } else {
        let statement = if check(tokens, pos, TokenKind::Var) {
            var_declaration(tokens, pos + 1, faults)
        } else {
            expression_statement(tokens, pos, faults)
        };
        match statement.value {
            Some(s) => Parsed { value: Some(Some(s)), next: statement.next, faults: statement.faults },
            None => abandoned(statement),
        }
    }
}

/// The second clause of a `for` statement with its semicolon. An absent
/// condition stands for the literal `true`.
#[verifier::opaque]
pub open spec fn for_condition(tokens: Seq<TokenView>, pos: int, faults: Seq<Seq<char>>) -> Parsed<
    ExprView,
> {
    let value = if !check(tokens, pos, TokenKind::Semicolon) {
        expression(tokens, pos, faults)
    } else {
        Parsed { value: Some(literal(LiteralValue::Bool(true))), next: pos, faults }
    };
    match value.value {
        Some(e) => {
            let end = consume(
                tokens,
                value.next,
                value.faults,
                TokenKind::Semicolon,
                "Expect ';' after loop condition."@,
            );
            match end.value {
                Some(_) => Parsed { value: Some(e), next: end.next, faults: end.faults },
                None => abandoned(end),
            }
        },
        None => value,
    }
}

/// The third clause of a `for` statement with the closing parenthesis.
#[verifier::opaque]
pub open spec fn for_increment(tokens: Seq<TokenView>, pos: int, faults: Seq<Seq<char>>) -> Parsed<
    Option<ExprView>,
> {
    let value: Parsed<Option<ExprView>> = if !check(tokens, pos, TokenKind::RightParenthesis) {
        let e = expression(tokens, pos, faults);
        match e.value {
            Some(v) => Parsed { value: Some(Some(v)), next: e.next, faults: e.faults },
            None => abandoned(e),
        }
    } else {
        Parsed { value: Some(None), next: pos, faults }
    };
    match value.value {
        Some(e) => {
            let close = consume(
                tokens,
                value.next,
                value.faults,
                TokenKind::RightParenthesis,
                "Expect ')' after for clauses."@,
            );
            match close.value {
                Some(_) => Parsed { value: Some(e), next: close.next, faults: close.faults },
                None => abandoned(close),
            }
        },
        None => value,
    }
}

/// The clauses of a `for` statement.
pub ghost struct ForClauses {
    pub initializer: Option<StmtView>,
    pub condition: ExprView,
    pub increment: Option<ExprView>,
}

/// The three clauses of a `for` statement in their parentheses, from the
/// position after `for`.
#[verifier::opaque]
pub open spec fn for_clauses(tokens: Seq<TokenView>, pos: int, faults: Seq<Seq<char>>) -> Parsed<
    ForClauses,
> {
    let open = consume(
        tokens,
        pos,
        faults,
        TokenKind::LeftParenthesis,
        "Expect '(' after 'for'."@,
    );
    if open.value is None {
        abandoned(open)
    } else {
        let initializer = for_initializer(tokens, open.next, open.faults);
        match initializer.value {
            None => abandoned(initializer),
            Some(i) => {
                let condition = for_condition(tokens, initializer.next, initializer.faults);
                match condition.value {
                    None => abandoned(condition),
                    Some(c) => {
                        let increment = for_increment(tokens, condition.next, condition.faults);
                        match increment.value {
                            None => abandoned(increment),
                            Some(n) => Parsed {
                                value: Some(
                                    ForClauses { initializer: i, condition: c, increment: n },
                                ),
                                next: increment.next,
                                faults: increment.faults,
                            },
                        }
                    },
                }
            },
        }
    }
}

/// The statements that a `for` statement stands for: the body, followed by
/// the increment where there is one, as the body of a loop on the condition;
/// and the initializer, where there is one, before that loop in one block.
pub open spec fn desugared_for(clauses: ForClauses, body: StmtView) -> StmtView {
    let stepped = match clauses.increment {
        Some(i) => StmtView::Block {
            statements: seq![body, StmtView::Expression { expression: i }],
        },
        None => body,
    };
    let repeated = StmtView::While { condition: clauses.condition, body: Box::new(stepped) };
    match clauses.initializer {
        Some(i) => StmtView::Block { statements: seq![i, repeated] },
        None => repeated,
    }
}

/// `declaration := varDecl | statement`
///
/// After a failure, parsing resumes at the next statement boundary.
#[verifier::opaque]
pub open spec fn declaration(tokens: Seq<TokenView>, pos: int, faults: Seq<Seq<char>>) -> Parsed<
    StmtView,
>
    decreases tokens.len() - pos, 3nat,
{
    let parsed = if check(tokens, pos, TokenKind::Var) {
        var_declaration(tokens, pos + 1, faults)
    } else {
        statement(tokens, pos, faults)
    };
    match parsed.value {
        Some(_) => parsed,
        None => Parsed {
            value: None,
            next: synchronize(tokens, parsed.next),
            faults: parsed.faults,
        },
    }
}

/// `statement := forStmt | ifStmt | printStmt | whileStmt | block | exprStmt`
#[verifier::opaque]
pub open spec fn statement(tokens: Seq<TokenView>, pos: int, faults: Seq<Seq<char>>) -> Parsed<
    StmtView,
>
    decreases tokens.len() - pos, 1nat,
{
    if !within(tokens, pos, pos) {
        Parsed { value: None, next: pos, faults }
    } else if check(tokens, pos, TokenKind::For) {
        for_statement(tokens, pos + 1, faults)
    } else if check(tokens, pos, TokenKind::If) {
        if_statement(tokens, pos + 1, faults)
    } else if check(tokens, pos, TokenKind::Print) {
        print_statement(tokens, pos + 1, faults)
    } else if check(tokens, pos, TokenKind::While) {
        while_statement(tokens, pos + 1, faults)
    } else if check(tokens, pos, TokenKind::LeftBrace) {
        let body = block(tokens, pos + 1, faults, Seq::empty());
        match body.value {
            Some(statements) => Parsed {
                value: Some(StmtView::Block { statements }),
                next: body.next,
                faults: body.faults,
            },
            None => abandoned(body),
        }
    } else {
        expression_statement(tokens, pos, faults)
    }
}

/// ```text
/// forStmt := "for" "(" ( varDecl | exprStmt | ";" ) expression? ";" expression? ")" statement
/// ```
/// from the position after `for`.
#[verifier::opaque]
pub open spec fn for_statement(tokens: Seq<TokenView>, pos: int, faults: Seq<Seq<char>>) -> Parsed<
    StmtView,
>
    decreases tokens.len() - pos, 2nat,
{
    let clauses = for_clauses(tokens, pos, faults);
    match clauses.value {
        Some(c) if within(tokens, pos, clauses.next) => {
            let body = statement(tokens, clauses.next, clauses.faults);
            match body.value {
                Some(b) => Parsed {
                    value: Some(desugared_for(c, b)),
                    next: body.next,
                    faults: body.faults,
                },
                None => body,
            }
        },
        _ => abandoned(clauses),
    }
}

/// `ifStmt := "if" "(" expression ")" statement ( "else" statement )?`, from
/// the position after `if`.
#[verifier::opaque]
pub open spec fn if_statement(tokens: Seq<TokenView>, pos: int, faults: Seq<Seq<char>>) -> Parsed<
    StmtView,
>
    decreases tokens.len() - pos, 2nat,
{
    let head = parenthesized(
        tokens,
        pos,
        faults,
        "Expect '(' after 'if'."@,
        "Expect ')' after if condition."@,
    );
    match head.value {
        Some(c) if within(tokens, pos, head.next) => {
            let then_branch = statement(tokens, head.next, head.faults);
            match then_branch.value {
                Some(t) if within(tokens, pos, then_branch.next) => {
                    if check(tokens, then_branch.next, TokenKind::Else) {
                        let else_branch = statement(
                            tokens,
                            then_branch.next + 1,
                            then_branch.faults,
                        );
                        match else_branch.value {
                            Some(e) => Parsed {
                                value: Some(
                                    StmtView::If {
                                        condition: c,
                                        then_branch: Box::new(t),
                                        else_branch: Some(Box::new(e)),
                                    },
                                ),
                                next: else_branch.next,
                                faults: else_branch.faults,
                            },
                            None => else_branch,
                        }
                    } else {
                        Parsed {
                            value: Some(
                                StmtView::If {
                                    condition: c,
                                    then_branch: Box::new(t),
                                    else_branch: None,
                                },
                            ),
                            next: then_branch.next,
                            faults: then_branch.faults,
                        }
                    }
                },
                _ => abandoned(then_branch),
            }
        },
        _ => abandoned(head),
    }
}

/// `whileStmt := "while" "(" expression ")" statement`, from the position
/// after `while`.
#[verifier::opaque]
pub open spec fn while_statement(tokens: Seq<TokenView>, pos: int, faults: Seq<Seq<char>>) -> Parsed<
    StmtView,
>
    decreases tokens.len() - pos, 2nat,
{
    let head = parenthesized(
        tokens,
        pos,
        faults,
        "Expect '(' after 'while'."@,
        "Expect ')' after condition."@,
    );
    match head.value {
        Some(c) if within(tokens, pos, head.next) => {
            let body = statement(tokens, head.next, head.faults);
            match body.value {
                Some(b) => Parsed {
                    value: Some(StmtView::While { condition: c, body: Box::new(b) }),
                    next: body.next,
                    faults: body.faults,
                },
                None => body,
            }
        },
        _ => abandoned(head),
    }
}

/// `block := "{" declaration* "}"`, from a position after the opening brace
/// up to which the declarations gave `statements`. The first declaration
/// that fails ends the block.
#[verifier::opaque]
pub open spec fn block(
    tokens: Seq<TokenView>,
    pos: int,
    faults: Seq<Seq<char>>,
    statements: Seq<StmtView>,
) -> Parsed<Seq<StmtView>>
    decreases tokens.len() - pos, 4nat,
{
    if within(tokens, pos, pos) && !check(tokens, pos, TokenKind::RightBrace) && !at_end(
        tokens,
        pos,
    ) {
        let next = declaration(tokens, pos, faults);
        match next.value {
            Some(s) if within(tokens, pos + 1, next.next) => block(
                tokens,
                next.next,
                next.faults,
                statements.push(s),
            ),
            _ => abandoned(next),
        }
    } else {
        let close = consume(
            tokens,
            pos,
            faults,
            TokenKind::RightBrace,
            "Expect '}' after block."@,
        );
        match close.value {
            Some(_) => Parsed { value: Some(statements), next: close.next, faults: close.faults },
            None => abandoned(close),
        }
    }
}

/// What parsing a program gives.
pub ghost struct Program {
    /// The statements that were parsed, in order.
    pub statements: Seq<StmtView>,
    /// Whether a declaration failed.
    pub failed: bool,
    /// All diagnostics given so far, in order.
    pub faults: Seq<Seq<char>>,
}

/// `program := declaration* EOF`, from the position `pos` up to which the
/// declarations gave `so_far`. A declaration that fails gives no statement,
/// and parsing goes on where it resumes.
#[verifier::opaque]
pub open spec fn program(tokens: Seq<TokenView>, pos: int, so_far: Program) -> Program
    decreases tokens.len() - pos,
{
    if within(tokens, pos, pos) && !at_end(tokens, pos) {
        let first = declaration(tokens, pos, so_far.faults);
        let then = Program {
            statements: match first.value {
                Some(s) => so_far.statements.push(s),
                None => so_far.statements,
            },
            failed: so_far.failed || first.value is None,
            faults: first.faults,
        };
        if within(tokens, pos + 1, first.next) {
            program(tokens, first.next, then)
        } else {
            then
        }
    } else {
        so_far
    }
}

/// The failure of a parse. The diagnostics are kept by the parser.
#[derive(Debug)]
pub struct ParserError;

/// Whether the result `r` of a parsing function is the value `value` of the grammar.
pub open spec fn yields<T: View>(r: Result<T, ParserError>, value: Option<T::V>) -> bool {
    match r {
        Ok(v) => value == Some(v@),
        Err(_) => value is None,
    }
}

/// A recursive-descent parser over a token sequence.
#[derive(Debug)]
pub struct Parser {
    tokens: Vec<Token>,
    current: usize,
    diagnostics: Vec<String>,
}

impl Parser {
    /// The tokens that the parser reads.
    pub closed spec fn tokens(&self) -> Seq<TokenView> {
        token_views(self.tokens@)
    }

    /// The position of the next token to read.
    pub closed spec fn position(&self) -> int {
        self.current as int
    }

    /// The diagnostics given so far.
    pub closed spec fn faults(&self) -> Seq<Seq<char>> {
        texts(self.diagnostics@)
    }

    /// The invariant of a parser: its tokens end with the end-of-input
    /// token, and its position is one of theirs.
    pub open spec fn wf(&self) -> bool {
        &&& well_formed(self.tokens())
        &&& 0 <= self.position() < self.tokens().len()
    }

    /// Whether this parser is what `before` becomes by parsing `parsed`.
    pub open spec fn continues<T>(&self, before: Parser, parsed: Parsed<T>) -> bool {
        &&& self.wf()
        &&& self.tokens() == before.tokens()
        &&& self.position() == parsed.next
        &&& before.position() <= self.position()
        &&& self.faults() == parsed.faults
    }

    /// Whether this parser is past the position of `before`, as it is
    /// after a success, and after a failure unless `before` stood at the end
    /// of the input.
    pub open spec fn moved<T>(&self, before: Parser, r: Result<T, ParserError>) -> bool {
        r is Ok || !at_end(before.tokens(), before.position()) ==> before.position()
            < self.position()
    }

    /// A parser at the start of `tokens`.
    pub fn new(tokens: Vec<Token>) -> (r: Self)
        requires
            well_formed(token_views(tokens@)),
        ensures
            r.wf(),
            r.tokens() == token_views(tokens@),
            r.position() == 0,
            r.faults() == Seq::<Seq<char>>::empty(),
    {
        let r = Parser { tokens, current: 0, diagnostics: Vec::new() };
        assert(r.faults() =~= Seq::<Seq<char>>::empty());
        r
    }

    /// Whether `tokens` can be handed to [`Parser::new`].
    pub fn accepts(tokens: &Vec<Token>) -> (r: bool)
        ensures
            r == well_formed(token_views(tokens@)),
    {
        tokens.len() > 0 && tokens[tokens.len() - 1].kind == TokenKind::EOF
    }

    /// The diagnostics given so far, one line each.
    pub fn diagnostics(&self) -> (r: &Vec<String>)
        ensures
            texts(r@) == self.faults(),
    {
        &self.diagnostics
    }

    /// Parses a program: declarations up to the end of the input. The
    /// result is the list of statements if every declaration was parsed,
    /// and a failure if any was not.
    pub fn parse(&mut self) -> (r: Result<Vec<Stmt>, ParserError>)
        requires
            old(self).wf(),
        ensures
            final(self).wf(),
            final(self).tokens() == old(self).tokens(),
            at_end(final(self).tokens(), final(self).position()),
            ({
                let whole = program(
                    old(self).tokens(),
                    old(self).position(),
                    Program {
                        statements: Seq::empty(),
                        failed: false,
                        faults: old(self).faults(),
                    },
                );
                &&& final(self).faults() == whole.faults
                &&& match r {
                    Ok(statements) => !whole.failed && stmt_views(statements@) == whole.statements,
                    Err(_) => whole.failed,
                }
            }),
    {
        proof {
            reveal_with_fuel(program, 1);
        }
        let mut statements: Vec<Stmt> = Vec::new();
        let mut has_error = false;
        let ghost whole = program(
            self.tokens(),
            self.position(),
            Program { statements: Seq::empty(), failed: false, faults: self.faults() },
        );
        assert(stmt_views(statements@) =~= Seq::<StmtView>::empty());
        while !self.is_at_end()
            invariant
                self.wf(),
                self.tokens() == old(self).tokens(),
                whole == program(
                    self.tokens(),
                    self.position(),
                    Program {
                        statements: stmt_views(statements@),
                        failed: has_error,
                        faults: self.faults(),
                    },
                ),
            decreases self.tokens.len() - self.current,
        {
            proof {
                reveal_with_fuel(program, 1);
            }
            let ghost parsed = stmt_views(statements@);
            match self.declaration() {
                Ok(statement) => {
                    statements.push(statement);
                    proof {
                        assert(stmt_views(statements@) =~= parsed.push(statement@));
                    }
                },
                Err(_) => {
                    has_error = true;
                },
            }
        }
        proof {
            reveal_with_fuel(program, 1);
        }
        if has_error {
            Err(ParserError)
        } else {
            Ok(statements)
        }
    }

    /// Parses one expression from the current position on. What follows the
    /// expression is left unread.
    pub fn parse_expression(&mut self) -> (r: Result<Expr, ParserError>)
        requires
            old(self).wf(),
        ensures
            final(self).continues(
                *old(self),
                assignment(old(self).tokens(), old(self).position(), old(self).faults()),
            ),
            yields(r, assignment(old(self).tokens(), old(self).position(), old(self).faults()).value),
    {
        match self.assignment() {
            Ok(expr) => Ok(expr),
            Err(_) => Err(ParserError),
        }
    }

    fn expression(&mut self) -> (r: Result<Expr, ParserError>)
        requires
            old(self).wf(),
        ensures
            final(self).continues(
                *old(self),
                expression(old(self).tokens(), old(self).position(), old(self).faults()),
            ),
            final(self).moved(*old(self), r),
            yields(r, expression(old(self).tokens(), old(self).position(), old(self).faults()).value),
        decreases old(self).tokens().len() - old(self).position(), 40nat,
    {
        proof {
            reveal_with_fuel(expression, 1);
            reveal_with_fuel(assignment, 1);
        }
        self.assignment()
    }

    fn declaration(&mut self) -> (r: Result<Stmt, ParserError>)
        requires
            old(self).wf(),
        ensures
            final(self).continues(
                *old(self),
                declaration(old(self).tokens(), old(self).position(), old(self).faults()),
            ),
            final(self).moved(*old(self), r),
            yields(
                r,
                declaration(old(self).tokens(), old(self).position(), old(self).faults()).value,
            ),
        decreases old(self).tokens().len() - old(self).position(), 3nat,
    {
        proof {
            reveal_with_fuel(declaration, 1);
            reveal_with_fuel(statement, 1);
        }
        let statement = if self.token_match(&[TokenKind::Var]) {
            self.var_declaration()
        } else {
            self.statement()
        };
        match statement {
            Ok(s) => Ok(s),
            Err(_) => {
                self.synchronize();
                Err(ParserError)
            },
        }
    }

    fn statement(&mut self) -> (r: Result<Stmt, ParserError>)
        requires
            old(self).wf(),
        ensures
            final(self).continues(
                *old(self),
                statement(old(self).tokens(), old(self).position(), old(self).faults()),
            ),
            final(self).moved(*old(self), r),
            yields(r, statement(old(self).tokens(), old(self).position(), old(self).faults()).value),
        decreases old(self).tokens().len() - old(self).position(), 1nat,
    {
        proof {
            reveal_with_fuel(statement, 1);
            reveal_with_fuel(for_statement, 1);
            reveal_with_fuel(if_statement, 1);
            reveal_with_fuel(while_statement, 1);
            reveal_with_fuel(block, 1);
        }
        if self.token_match(&[TokenKind::For]) {
            return self.for_statement();
        }
        if self.token_match(&[TokenKind::If]) {
            return self.if_statement();
        }
        if self.token_match(&[TokenKind::Print]) {
            return self.print_statement();
        }
        if self.token_match(&[TokenKind::While]) {
            return self.while_statement();
        }
        if self.token_match(&[TokenKind::LeftBrace]) {
            let statements = self.block()?;
            let block = Block { statements };
            proof {
                block_view(block);
            }
            return Ok(Stmt::Block(block));
        }
        self.expression_statement()
    }

    /// Parses the clauses of a `for` statement, in their parentheses.
    fn for_clauses(&mut self) -> (r: Result<(Option<Stmt>, Expr, Option<Expr>), ParserError>)
        requires
            old(self).wf(),
        ensures
            final(self).continues(
                *old(self),
                for_clauses(old(self).tokens(), old(self).position(), old(self).faults()),
            ),
            ({
                let parsed = for_clauses(
                    old(self).tokens(),
                    old(self).position(),
                    old(self).faults(),
                );
                match r {
                    Ok((initializer, condition, increment)) => parsed.value == Some(
                        ForClauses {
                            initializer: match initializer {
                                Some(s) => Some(s@),
                                None => None,
                            },
                            condition: condition@,
                            increment: match increment {
                                Some(e) => Some(e@),
                                None => None,
                            },
                        },
                    ),
                    Err(_) => parsed.value is None,
                }
            }),
    {
        proof {
            reveal_with_fuel(for_clauses, 1);
            reveal_with_fuel(for_initializer, 1);
            reveal_with_fuel(for_condition, 1);
            reveal_with_fuel(for_increment, 1);
        }
        self.consume(TokenKind::LeftParenthesis, "Expect '(' after 'for'.")?;
        let initializer = if self.token_match(&[TokenKind::Semicolon]) {
            None
        } else if self.token_match(&[TokenKind::Var]) {
            Some(self.var_declaration()?)
        } else {
            Some(self.expression_statement()?)
        };
        let condition = if !self.check(TokenKind::Semicolon) {
            self.expression()?
        } else {
            Expr::Literal(Literal { value: LiteralKind::Bool(true) })
        };
        self.consume(TokenKind::Semicolon, "Expect ';' after loop condition.")?;
        let increment = if !self.check(TokenKind::RightParenthesis) {
            Some(self.expression()?)
        } else {
            None
        };
        self.consume(TokenKind::RightParenthesis, "Expect ')' after for clauses.")?;
        Ok((initializer, condition, increment))
    }

    fn for_statement(&mut self) -> (r: Result<Stmt, ParserError>)
        requires
            old(self).wf(),
        ensures
            final(self).continues(
                *old(self),
                for_statement(old(self).tokens(), old(self).position(), old(self).faults()),
            ),
            yields(
                r,
                for_statement(old(self).tokens(), old(self).position(), old(self).faults()).value,
            ),
        decreases old(self).tokens().len() - old(self).position(), 2nat,
    {
        proof {
            reveal_with_fuel(for_statement, 1);
            reveal_with_fuel(statement, 1);
        }
        let (initializer, condition, increment) = self.for_clauses()?;
        let mut body = self.statement()?;
        let ghost inner = body@;
        if let Some(increment) = increment {
            let ghost step = increment@;
            let mut statements: Vec<Stmt> = Vec::new();
            statements.push(body);
            statements.push(Stmt::Expression(Expression { expression: Box::new(increment) }));
            let block = Block { statements };
            proof {
                block_view(block);
                assert(stmt_views(block.statements@) =~= seq![
                    inner,
                    StmtView::Expression { expression: step },
                ]);
            }
            body = Stmt::Block(block);
        }
        body = Stmt::While(While { condition: Box::new(condition), body: Box::new(body) });
        if let Some(initializer) = initializer {
            let ghost first = initializer@;
            let ghost repeated = body@;
            let mut statements: Vec<Stmt> = Vec::new();
            statements.push(initializer);
            statements.push(body);
            let block = Block { statements };
            proof {
                block_view(block);
                assert(stmt_views(block.statements@) =~= seq![first, repeated]);
            }
            body = Stmt::Block(block);
        }
        Ok(body)
    }

    /// Parses an expression in parentheses at the head of a statement.
    fn parenthesized(&mut self, opening: &str, closing: &str) -> (r: Result<Expr, ParserError>)
        requires
            old(self).wf(),
        ensures
            final(self).continues(
                *old(self),
                parenthesized(
                    old(self).tokens(),
                    old(self).position(),
                    old(self).faults(),
                    opening@,
                    closing@,
                ),
            ),
            yields(
                r,
                parenthesized(
                    old(self).tokens(),
                    old(self).position(),
                    old(self).faults(),
                    opening@,
                    closing@,
                ).value,
            ),
    {
        proof {
            reveal_with_fuel(parenthesized, 1);
        }
        self.consume(TokenKind::LeftParenthesis, opening)?;
        let condition = self.expression()?;
        self.consume(TokenKind::RightParenthesis, closing)?;
        Ok(condition)
    }

    fn if_statement(&mut self) -> (r: Result<Stmt, ParserError>)
        requires
            old(self).wf(),
        ensures
            final(self).continues(
                *old(self),
                if_statement(old(self).tokens(), old(self).position(), old(self).faults()),
            ),
            yields(
                r,
                if_statement(old(self).tokens(), old(self).position(), old(self).faults()).value,
            ),
        decreases old(self).tokens().len() - old(self).position(), 2nat,
    {
        proof {
            reveal_with_fuel(if_statement, 1);
            reveal_with_fuel(statement, 1);
        }
        let condition = self.parenthesized(
            "Expect '(' after 'if'.",
            "Expect ')' after if condition.",
        )?;
        let then_branch = self.statement()?;
        let else_branch = if self.token_match(&[TokenKind::Else]) {
            Some(Box::new(self.statement()?))
        } else {
            None
        };
        Ok(
            Stmt::If(
                If { condition: Box::new(condition), then_branch: Box::new(then_branch), else_branch },
            ),
        )
    }

    fn print_statement(&mut self) -> (r: Result<Stmt, ParserError>)
        requires
            old(self).wf(),
        ensures
            final(self).continues(
                *old(self),
                print_statement(old(self).tokens(), old(self).position(), old(self).faults()),
            ),
            yields(
                r,
                print_statement(old(self).tokens(), old(self).position(), old(self).faults()).value,
            ),
    {
        proof {
            reveal_with_fuel(print_statement, 1);
            reveal_with_fuel(terminated_expression, 1);
        }
        let value = self.expression()?;
        self.consume(TokenKind::Semicolon, "Expect ';' after value.")?;
        Ok(Stmt::Print(Print { expression: Box::new(value) }))
    }

    fn var_declaration(&mut self) -> (r: Result<Stmt, ParserError>)
        requires
            old(self).wf(),
        ensures
            final(self).continues(
                *old(self),
                var_declaration(old(self).tokens(), old(self).position(), old(self).faults()),
            ),
            yields(
                r,
                var_declaration(old(self).tokens(), old(self).position(), old(self).faults()).value,
            ),
    {
        proof {
            reveal_with_fuel(var_declaration, 1);
        }
        let name = self.consume(TokenKind::Identifier, "Expect variable name.")?;
        let mut initializer = Expr::Literal(Literal { value: LiteralKind::Nil });
        if self.token_match(&[TokenKind::Equal]) {
            initializer = self.expression()?;
        }
        self.consume(TokenKind::Semicolon, "Expect ';' after variable declaration.")?;
        Ok(Stmt::Var(Var { name, initializer: Box::new(initializer) }))
    }

    fn while_statement(&mut self) -> (r: Result<Stmt, ParserError>)
        requires
            old(self).wf(),
        ensures
            final(self).continues(
                *old(self),
                while_statement(old(self).tokens(), old(self).position(), old(self).faults()),
            ),
            yields(
                r,
                while_statement(old(self).tokens(), old(self).position(), old(self).faults()).value,
            ),
        decreases old(self).tokens().len() - old(self).position(), 2nat,
    {
        proof {
            reveal_with_fuel(while_statement, 1);
            reveal_with_fuel(statement, 1);
        }
        let condition = self.parenthesized(
            "Expect '(' after 'while'.",
            "Expect ')' after condition.",
        )?;
        let body = self.statement()?;
        Ok(Stmt::While(While { condition: Box::new(condition), body: Box::new(body) }))
    }

    fn expression_statement(&mut self) -> (r: Result<Stmt, ParserError>)
        requires
            old(self).wf(),
        ensures
            final(self).continues(
                *old(self),
                expression_statement(old(self).tokens(), old(self).position(), old(self).faults()),
            ),
            final(self).moved(*old(self), r),
            yields(
                r,
                expression_statement(
                    old(self).tokens(),
                    old(self).position(),
                    old(self).faults(),
                ).value,
            ),
    {
        proof {
            reveal_with_fuel(expression_statement, 1);
            reveal_with_fuel(terminated_expression, 1);
        }
        let expr = self.expression()?;
        self.consume(TokenKind::Semicolon, "Expect ';' after expression.")?;
        Ok(Stmt::Expression(Expression { expression: Box::new(expr) }))
    }

    fn block(&mut self) -> (r: Result<Vec<Stmt>, ParserError>)
        requires
            old(self).wf(),
        ensures
            final(self).continues(
                *old(self),
                block(old(self).tokens(), old(self).position(), old(self).faults(), Seq::empty()),
            ),
            ({
                let parsed = block(
                    old(self).tokens(),
                    old(self).position(),
                    old(self).faults(),
                    Seq::empty(),
                );
                match r {
                    Ok(statements) => parsed.value == Some(stmt_views(statements@)),
                    Err(_) => parsed.value is None,
                }
            }),
        decreases old(self).tokens().len() - old(self).position(), 5nat,
    {
        proof {
            reveal_with_fuel(block, 1);
            reveal_with_fuel(declaration, 1);
        }
        let mut statements: Vec<Stmt> = Vec::new();
        let ghost tokens = self.tokens();
        let ghost whole = block(tokens, self.position(), self.faults(), Seq::empty());
        assert(stmt_views(statements@) =~= Seq::<StmtView>::empty());
        while !self.check(TokenKind::RightBrace) && !self.is_at_end()
            invariant
                self.wf(),
                self.tokens() == tokens,
                tokens == old(self).tokens(),
                old(self).position() <= self.position(),
                whole == block(tokens, old(self).position(), old(self).faults(), Seq::empty()),
                whole == block(tokens, self.position(), self.faults(), stmt_views(statements@)),
            decreases self.tokens.len() - self.current,
        {
            proof {
                reveal_with_fuel(block, 1);
                reveal_with_fuel(declaration, 1);
            }
            let ghost parsed = stmt_views(statements@);
            match self.declaration() {
                Ok(statement) => {
                    statements.push(statement);
                    proof {
                        assert(stmt_views(statements@) =~= parsed.push(statement@));
                    }
                },
                Err(e) => {
                    return Err(e);
                },
            }
        }
        self.consume(TokenKind::RightBrace, "Expect '}' after block.")?;
        Ok(statements)
    }

    fn assignment(&mut self) -> (r: Result<Expr, ParserError>)
        requires
            old(self).wf(),
        ensures
            final(self).continues(
                *old(self),
                assignment(old(self).tokens(), old(self).position(), old(self).faults()),
            ),
            final(self).moved(*old(self), r),
            yields(r, assignment(old(self).tokens(), old(self).position(), old(self).faults()).value),
        decreases old(self).tokens().len() - old(self).position(), 39nat,
    {
        proof {
            reveal_with_fuel(assignment, 1);
            reveal_with_fuel(binary, 1);
        }
        let expr = self.or()?;
        if self.token_match(&[TokenKind::Equal]) {
            let equals = self.previous();
            let value = self.assignment()?;
            if let Expr::Variable(variable) = expr {
                return Ok(
                    Expr::Assignment(Assignment { name: variable.name, value: Box::new(value) }),
                );
            } else {
                self.error(&equals, "Invalid assignment target.");
                return Err(ParserError);
            }
        }
        Ok(expr)
    }

    /// Parses an expression of the precedence level `level`.
    fn level(&mut self, level: u8) -> (r: Result<Expr, ParserError>)
        requires
            old(self).wf(),
            level < 6,
        ensures
            final(self).continues(
                *old(self),
                binary(old(self).tokens(), old(self).position(), old(self).faults(), level as nat),
            ),
            final(self).moved(*old(self), r),
            yields(
                r,
                binary(
                    old(self).tokens(),
                    old(self).position(),
                    old(self).faults(),
                    level as nat,
                ).value,
            ),
        decreases old(self).tokens().len() - old(self).position(), 3 * (6 - level) + 1,
    {
        proof {
            reveal_with_fuel(binary, 1);
            reveal_with_fuel(binary_rest, 1);
        }
        let ghost tokens = self.tokens();
        let ghost whole = binary(tokens, self.position(), self.faults(), level as nat);
        let mut expr = self.operand(level);
        if level <= 1 && expr.is_err() {
            return expr;
        }
        while self.operator_follows(level)
            invariant
                self.wf(),
                level < 6,
                self.tokens() == tokens,
                tokens == old(self).tokens(),
                old(self).position() <= self.position(),
                !at_end(tokens, old(self).position()) ==> old(self).position() < self.position(),
                expr is Ok ==> old(self).position() < self.position(),
                whole == binary(tokens, old(self).position(), old(self).faults(), level as nat),
                whole == binary_rest(
                    tokens,
                    self.position(),
                    self.faults(),
                    level as nat,
                    match expr {
                        Ok(e) => Some(e@),
                        Err(_) => None,
                    },
                ),
            decreases self.tokens.len() - self.current,
        {
            proof {
                reveal_with_fuel(binary, 1);
                reveal_with_fuel(binary_rest, 1);
            }
            let operator = self.previous();
            let right = match self.operand(level) {
                Ok(right) => right,
                Err(e) => {
                    return Err(e);
                },
            };
            let left = match expr {
                Ok(left) => left,
                Err(e) => {
                    return Err(e);
                },
            };
            expr = Ok(
                if level <= 1 {
                    Expr::Logical(
                        Logical { left: Box::new(left), operator, right: Box::new(right) },
                    )
                } else {
                    Expr::Binary(Binary { left: Box::new(left), operator, right: Box::new(right) })
                },
            );
        }
        expr
    }

    /// Parses an operand of an operator of the precedence level `level`.
    fn operand(&mut self, level: u8) -> (r: Result<Expr, ParserError>)
        requires
            old(self).wf(),
            level < 6,
        ensures
            final(self).continues(
                *old(self),
                binary(
                    old(self).tokens(),
                    old(self).position(),
                    old(self).faults(),
                    (level + 1) as nat,
                ),
            ),
            final(self).moved(*old(self), r),
            yields(
                r,
                binary(
                    old(self).tokens(),
                    old(self).position(),
                    old(self).faults(),
                    (level + 1) as nat,
                ).value,
            ),
        decreases old(self).tokens().len() - old(self).position(), 3 * (6 - level),
    {
        proof {
            reveal_with_fuel(binary, 1);
            reveal_with_fuel(unary, 1);
        }
        if level == 0 {
            self.and()
        } else if level == 1 {
            self.equality()
        } else if level == 2 {
            self.comparison()
        } else if level == 3 {
            self.term()
        } else if level == 4 {
            self.factor()
        } else {
            self.unary()
        }
    }

    /// Consumes the token at the current position where it is an operator
    /// of the precedence level `level`.
    fn operator_follows(&mut self, level: u8) -> (r: bool)
        requires
            old(self).wf(),
            level < 6,
        ensures
            final(self).wf(),
            final(self).tokens() == old(self).tokens(),
            final(self).faults() == old(self).faults(),
            r == level_operator(level as nat, old(self).tokens()[old(self).position()].kind),
            final(self).position() == if r {
                old(self).position() + 1
            } else {
                old(self).position()
            },
    {
        if level == 0 {
            self.token_match(&[TokenKind::Or])
        } else if level == 1 {
            self.token_match(&[TokenKind::And])
        } else if level == 2 {
            self.token_match(&[TokenKind::BangEqual, TokenKind::EqualEqual])
        } else if level == 3 {
            self.token_match(
                &[
                    TokenKind::Greater,
                    TokenKind::GreaterEqual,
                    TokenKind::Less,
                    TokenKind::LessEqual,
                ],
            )
        } else if level == 4 {
            self.token_match(&[TokenKind::Minus, TokenKind::Plus])
        } else {
            self.token_match(&[TokenKind::Slash, TokenKind::Star])
        }
    }

    fn or(&mut self) -> (r: Result<Expr, ParserError>)
        requires
            old(self).wf(),
        ensures
            final(self).continues(
                *old(self),
                binary(old(self).tokens(), old(self).position(), old(self).faults(), 0),
            ),
            final(self).moved(*old(self), r),
            yields(r, binary(old(self).tokens(), old(self).position(), old(self).faults(), 0).value),
        decreases old(self).tokens().len() - old(self).position(), 20nat,
    {
        self.level(0)
    }

    fn and(&mut self) -> (r: Result<Expr, ParserError>)
        requires
            old(self).wf(),
        ensures
            final(self).continues(
                *old(self),
                binary(old(self).tokens(), old(self).position(), old(self).faults(), 1),
            ),
            final(self).moved(*old(self), r),
            yields(r, binary(old(self).tokens(), old(self).position(), old(self).faults(), 1).value),
        decreases old(self).tokens().len() - old(self).position(), 17nat,
    {
        self.level(1)
    }

    fn equality(&mut self) -> (r: Result<Expr, ParserError>)
        requires
            old(self).wf(),
        ensures
            final(self).continues(
                *old(self),
                binary(old(self).tokens(), old(self).position(), old(self).faults(), 2),
            ),
            final(self).moved(*old(self), r),
            yields(r, binary(old(self).tokens(), old(self).position(), old(self).faults(), 2).value),
        decreases old(self).tokens().len() - old(self).position(), 14nat,
    {
        self.level(2)
    }

    fn comparison(&mut self) -> (r: Result<Expr, ParserError>)
        requires
            old(self).wf(),
        ensures
            final(self).continues(
                *old(self),
                binary(old(self).tokens(), old(self).position(), old(self).faults(), 3),
            ),
            final(self).moved(*old(self), r),
            yields(r, binary(old(self).tokens(), old(self).position(), old(self).faults(), 3).value),
        decreases old(self).tokens().len() - old(self).position(), 11nat,
    {
        self.level(3)
    }

    fn term(&mut self) -> (r: Result<Expr, ParserError>)
        requires
            old(self).wf(),
        ensures
            final(self).continues(
                *old(self),
                binary(old(self).tokens(), old(self).position(), old(self).faults(), 4),
            ),
            final(self).moved(*old(self), r),
            yields(r, binary(old(self).tokens(), old(self).position(), old(self).faults(), 4).value),
        decreases old(self).tokens().len() - old(self).position(), 8nat,
    {
        self.level(4)
    }

    fn factor(&mut self) -> (r: Result<Expr, ParserError>)
        requires
            old(self).wf(),
        ensures
            final(self).continues(
                *old(self),
                binary(old(self).tokens(), old(self).position(), old(self).faults(), 5),
            ),
            final(self).moved(*old(self), r),
            yields(r, binary(old(self).tokens(), old(self).position(), old(self).faults(), 5).value),
        decreases old(self).tokens().len() - old(self).position(), 5nat,
    {
        self.level(5)
    }

    fn unary(&mut self) -> (r: Result<Expr, ParserError>)
        requires
            old(self).wf(),
        ensures
            final(self).continues(
                *old(self),
                unary(old(self).tokens(), old(self).position(), old(self).faults()),
            ),
            final(self).moved(*old(self), r),
            yields(r, unary(old(self).tokens(), old(self).position(), old(self).faults()).value),
        decreases old(self).tokens().len() - old(self).position(), 2nat,
    {
        proof {
            reveal_with_fuel(unary, 1);
            reveal_with_fuel(primary, 1);
        }
        if self.token_match(&[TokenKind::Bang, TokenKind::Minus]) {
            let operator = self.previous();
            let right = self.unary()?;
            return Ok(Expr::Unary(Unary { operator, right: Box::new(right) }));
        }
        self.primary()
    }

    fn primary(&mut self) -> (r: Result<Expr, ParserError>)
        requires
            old(self).wf(),
        ensures
            final(self).continues(
                *old(self),
                primary(old(self).tokens(), old(self).position(), old(self).faults()),
            ),
            final(self).moved(*old(self), r),
            yields(r, primary(old(self).tokens(), old(self).position(), old(self).faults()).value),
        decreases old(self).tokens().len() - old(self).position(), 1nat,
    {
        proof {
            reveal_with_fuel(primary, 1);
            reveal_with_fuel(expression, 1);
        }
        let kind = self.peek().kind;
        match kind {
            TokenKind::False => {
                self.advance();
                Ok(Expr::Literal(Literal { value: LiteralKind::Bool(false) }))
            },
            TokenKind::True => {
                self.advance();
                Ok(Expr::Literal(Literal { value: LiteralKind::Bool(true) }))
            },
            TokenKind::Nil => {
                self.advance();
                Ok(Expr::Literal(Literal { value: LiteralKind::Nil }))
            },
            TokenKind::String | TokenKind::Number => {
                self.advance();
                Ok(Expr::Literal(Literal { value: self.previous().literal }))
            },
            TokenKind::Super => {
                self.advance();
                let keyword = self.previous();
                self.consume(TokenKind::Dot, "Expect '.' after 'super'.")?;
                let method = self.consume(
                    TokenKind::Identifier,
                    "Expect superclass method name.",
                )?;
                Ok(Expr::Super(Super { keyword, method }))
            },
            TokenKind::This => {
                self.advance();
                Ok(Expr::This(This { keyword: self.previous() }))
            },
            TokenKind::Identifier => {
                self.advance();
                Ok(Expr::Variable(Variable { name: self.previous() }))
            },
            TokenKind::LeftParenthesis => {
                self.advance();
                let expr = self.expression()?;
                self.consume(TokenKind::RightParenthesis, "Expect ')' after expression.")?;
                Ok(Expr::Grouping(Grouping { expr: Box::new(expr) }))
            },
            _ => {
                let token = self.peek().clone();
                self.error(&token, "Expect expression.");
                self.advance();
                Err(ParserError {  })
            },
        }
    }

    /// Consumes the token at the current position where its kind is one of `kinds`.
    fn token_match(&mut self, kinds: &[TokenKind]) -> (r: bool)
        requires
            old(self).wf(),
        ensures
            final(self).wf(),
            final(self).tokens() == old(self).tokens(),
            final(self).faults() == old(self).faults(),
            r == (!at_end(old(self).tokens(), old(self).position()) && kinds@.contains(
                old(self).tokens()[old(self).position()].kind,
            )),
            final(self).position() == if r {
                old(self).position() + 1
            } else {
                old(self).position()
            },
    {
        let mut i: usize = 0;
        while i < kinds.len()
            invariant
                *self == *old(self),
                self.wf(),
                i <= kinds@.len(),
                forall|j: int|
                    0 <= j < i ==> !check(self.tokens(), self.position(), #[trigger] kinds@[j]),
            decreases kinds.len() - i,
        {
            if self.check(kinds[i]) {
                self.advance();
                return true;
            }
            i += 1;
        }
        false
    }

    fn check(&self, kind: TokenKind) -> (r: bool)
        requires
            self.wf(),
        ensures
            r == check(self.tokens(), self.position(), kind),
    {
        if self.is_at_end() {
            return false;
        }
        self.peek().kind == kind
    }

    fn advance(&mut self)
        requires
            old(self).wf(),
        ensures
            final(self).wf(),
            final(self).tokens() == old(self).tokens(),
            final(self).faults() == old(self).faults(),
            final(self).position() == advance(old(self).tokens(), old(self).position()),
    {
        if !self.is_at_end() {
            assert(self.tokens().last().kind == TokenKind::EOF);
            assert(self.current + 1 < self.tokens.len());
            self.current += 1;
        }
    }

    fn is_at_end(&self) -> (r: bool)
        requires
            self.wf(),
        ensures
            r == at_end(self.tokens(), self.position()),
    {
        self.peek().kind == TokenKind::EOF
    }

    fn peek(&self) -> (r: &Token)
        requires
            self.wf(),
        ensures
            r@ == self.tokens()[self.position()],
    {
        &self.tokens[self.current]
    }

    fn previous(&self) -> (r: Token)
        requires
            self.wf(),
            self.position() >= 1,
        ensures
            r@ == self.tokens()[self.position() - 1],
    {
        self.tokens[self.current - 1].clone()
    }

    /// Consumes the token of `kind` that is required at the current
    /// position. Where it is missing, the diagnostic `message` is given: at
    /// the end of the input it says so, and anywhere else it names the token
    /// that was read last, or the token at hand where none was read yet.
    fn consume(&mut self, kind: TokenKind, message: &str) -> (r: Result<Token, ParserError>)
        requires
            old(self).wf(),
        ensures
            final(self).continues(
                *old(self),
                consume(old(self).tokens(), old(self).position(), old(self).faults(), kind, message@),
            ),
            yields(
                r,
                consume(
                    old(self).tokens(),
                    old(self).position(),
                    old(self).faults(),
                    kind,
                    message@,
                ).value,
            ),
    {
        if !self.check(kind) {
            let token = if self.is_at_end() || self.current == 0 {
                self.peek().clone()
            } else {
                self.previous()
            };
            self.error(&token, message);
            return Err(ParserError);
        }
        self.advance();
        Ok(self.previous())
    }

    /// Records the diagnostic `message` at `token`.
    fn error(&mut self, token: &Token, message: &str)
        requires
            old(self).wf(),
        ensures
            final(self).wf(),
            final(self).tokens() == old(self).tokens(),
            final(self).position() == old(self).position(),
            final(self).faults() == old(self).faults().push(error_text(token@, message@)),
    {
        let line = crate::error(token.clone(), message);
        self.diagnostics.push(line);
        assert(self.faults() =~= old(self).faults().push(error_text(token@, message@)));
    }

    /// Skips tokens up to the next position at which parsing may resume.
    fn synchronize(&mut self)
        requires
            old(self).wf(),
        ensures
            final(self).wf(),
            final(self).tokens() == old(self).tokens(),
            final(self).faults() == old(self).faults(),
            final(self).position() == synchronize(old(self).tokens(), old(self).position()),
            old(self).position() <= final(self).position(),
            at_end(old(self).tokens(), old(self).position()) || final(self).position() > old(self).position(),
    {
        self.advance();
        while !self.is_at_end()
            invariant
                self.wf(),
                self.tokens() == old(self).tokens(),
                self.faults() == old(self).faults(),
                old(self).position() <= self.position(),
                at_end(self.tokens(), old(self).position()) ==> old(self).position()
                    == self.position(),
                !at_end(self.tokens(), old(self).position()) ==> old(self).position()
                    < self.position(),
                resume_position(self.tokens(), self.position()) == synchronize(
                    old(self).tokens(),
                    old(self).position(),
                ),
            decreases self.tokens.len() - self.current,
        {
            if self.previous().kind == TokenKind::Semicolon {
                return ;
            }
            match self.peek().kind {
                TokenKind::Class
                | TokenKind::Fun
                | TokenKind::Var
                | TokenKind::For
                | TokenKind::If
                | TokenKind::While
                | TokenKind::Print
                | TokenKind::Return => {
                    return ;
                },
                _ => self.advance(),
            }
        }
    }
}

} // verus!
