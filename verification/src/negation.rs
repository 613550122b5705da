//! Double negation: `!!x` evaluates to whether `x` counts as true.

use vstd::prelude::*;

use crate::ast_printer::printed;
use crate::environment::Scope;
use crate::evaluation::{evaluated, value, Host};
use crate::expr::ExprView;
use crate::interpreter::truthy;
use crate::parser::{literal, primary, unary};
use crate::progress::unary_alone;
use crate::roundtrip::{parsed_expression, printed_words, scan_of_word, word_kind};
use crate::scanner::{is_letter, optional, scan, scan_from, scan_step};
use crate::token::LiteralValue;

verus! {

/// `source` after two exclamation marks.
pub open spec fn negated_twice(source: Seq<char>) -> Seq<char> {
    seq!['!', '!'] + source
}

/// Negating a literal twice gives whether it counts as true: for the
/// literal `x` that is none or a boolean, the source `!!x` stands for an
/// expression that evaluates to the boolean `truthy(x)`, and leaves the
/// scopes as they are.
pub proof fn double_negation_gives_truthiness(host: Host, scopes: Seq<Scope>, x: LiteralValue)
    requires
        x is Nil || x is Bool,
    ensures
        parsed_expression(negated_twice(printed(literal(x)))) matches Some(e) && evaluated(
            host,
            scopes,
            e,
        ) == value(LiteralValue::Bool(truthy(x)), scopes),
{
    let word = printed(literal(x));
    let source = negated_twice(word);
    let none = Seq::<Seq<char>>::empty();
    printed_words(x);
    assert(source[0] == '!');
    assert(source[1] == '!');
    assert(source[2] == word[0]);
    assert forall|i: int| 2 <= i < source.len() implies is_letter(
        #[trigger] source[i],
    ) by {
        assert(source[i] == word[i - 2]);
    }
    assert(source.subrange(2, source.len() as int) =~= word);
    scan_of_word(source, 2, 1);
    let first = scan_step(source, 0, 1);
    let second = scan_step(source, 1, 1);
    assert(first.next == 1 && first.line == 1);
    assert(second.next == 2 && second.line == 1);
    reveal_with_fuel(scan_from, 3);
    let tokens = scan(source).tokens;
    let rest = scan_from(source, 2, 1).tokens;
    assert(tokens == optional(first.token) + (optional(second.token) + rest));
    assert(tokens.len() == 4);
    assert(tokens[0] == first.token->0);
    assert(tokens[1] == second.token->0);
    assert(tokens[2] == rest[0]);
    assert(tokens[3] == rest[1]);
    assert(tokens[2].kind == word_kind(x));
    reveal_with_fuel(unary, 3);
    reveal_with_fuel(primary, 3);
    let inner = primary(tokens, 2, none);
    assert(inner.value == Some(literal(x)));
    assert(inner.next == 3);
    let once = unary(tokens, 1, none);
    assert(once.value == Some(
        ExprView::Unary { operator: tokens[1], right: Box::new(literal(x)) },
    ));
    let twice = unary(tokens, 0, none);
    assert(twice.next == 3);
    unary_alone(tokens, 0, none);
    reveal_with_fuel(evaluated, 3);
}

} // verus!
