//! What holds of the stages together.

use crate::expression::error::{ErrorView, SolveErrView};
use crate::expression::reducer::{
    is_operation, lemma_next_operation, next_operation_of, operation_span, operation_value,
    reduce, reduced, splice, step,
};
use crate::expression::solver::{evaluated, parsed, CheckRules, FixRules};
use crate::expression::token::{token_types, StartBlock, TokenType, TokenView};
use crate::expression::validator::{
    block_check, blocks_nest, collapse, collapse_once, collapsed_types, is_expression, validate,
};
use crate::types::decimal::{
    is_plain_decimal, lemma_literal_round_trip, normalized, rational_text,
};
use crate::types::frac::Frac;
use crate::types::rational::literal_value;
use vstd::prelude::*;

verus! {

/// The stack of variants after the scan of `types`, begun on `stack`.
pub open spec fn scan_from(stack: Seq<TokenType>, types: Seq<TokenType>) -> Seq<TokenType>
    decreases types.len(),
{
    if types.len() == 0 {
        stack
    } else {
        collapse(scan_from(stack, types.drop_last()).push(types.last()))
    }
}

/// A scan begun on the empty stack is the scan of the validator.
pub proof fn lemma_scan_from_empty(types: Seq<TokenType>)
    ensures
        scan_from(Seq::empty(), types) == collapsed_types(types),
    decreases types.len(),
{
    if types.len() > 0 {
        lemma_scan_from_empty(types.drop_last());
    }
}

/// Scanning two runs one after the other is scanning their concatenation.
pub proof fn lemma_scan_concat(stack: Seq<TokenType>, first: Seq<TokenType>, second: Seq<TokenType>)
    ensures
        scan_from(stack, first + second) == scan_from(scan_from(stack, first), second),
    decreases second.len(),
{
    if second.len() == 0 {
        assert(first + second =~= first);
    } else {
        lemma_scan_concat(stack, first, second.drop_last());
        assert((first + second).drop_last() =~= first + second.drop_last());
        assert((first + second).last() == second.last());
    }
}

/// The scan of one variant.
pub proof fn lemma_scan_one(stack: Seq<TokenType>, t: TokenType)
    ensures
        scan_from(stack, seq![t]) == collapse(stack.push(t)),
{
    let one = seq![t];
    assert(one.drop_last() =~= Seq::<TokenType>::empty());
    assert(scan_from(stack, one.drop_last()) == stack);
}

/// A collapsed stack admits no further collapse.
pub proof fn lemma_collapse_is_stable(stack: Seq<TokenType>)
    ensures
        collapse_once(collapse(stack)) is None,
        collapse(collapse(stack)) == collapse(stack),
    decreases stack.len(),
{
    match collapse_once(stack) {
        Some(smaller) => {
            lemma_collapse_is_stable(smaller);
        },
        None => {},
    }
}

/// Collapsing a stack with a number on top leaves a number on top.
pub proof fn lemma_collapse_keeps_number(stack: Seq<TokenType>)
    requires
        stack.len() > 0,
        stack.last() == TokenType::Number,
    ensures
        collapse(stack).len() > 0,
        collapse(stack).last() == TokenType::Number,
    decreases stack.len(),
{
    match collapse_once(stack) {
        Some(smaller) => {
            lemma_collapse_keeps_number(smaller);
        },
        None => {},
    }
}

/// On any stack, `number operator number` scans as one number does.
pub proof fn lemma_scan_binary(stack: Seq<TokenType>)
    ensures
        scan_from(
            stack,
            seq![TokenType::Number, TokenType::BinaryOperator, TokenType::Number],
        ) == scan_from(stack, seq![TokenType::Number]),
{
    let n = TokenType::Number;
    let b = TokenType::BinaryOperator;
    let s1 = collapse(stack.push(n));
    lemma_scan_one(stack, n);
    lemma_collapse_keeps_number(stack.push(n));
    lemma_collapse_is_stable(stack.push(n));
    assert(seq![n, b, n] =~= seq![n] + seq![b] + seq![n]);
    lemma_scan_concat(stack, seq![n] + seq![b], seq![n]);
    lemma_scan_concat(stack, seq![n], seq![b]);
    lemma_scan_one(s1, b);
    assert(collapse_once(s1.push(b)) is None);
    let s2 = s1.push(b);
    lemma_scan_one(s2, n);
    let s3 = s2.push(n);
    assert(collapse_once(s3) == Some(s3.take(s3.len() - 2)));
    assert(s3.take(s3.len() - 2) =~= s1);
    assert(collapse(s3) == collapse(s1));
}

/// On any stack, `sign number` scans as one number does.
pub proof fn lemma_scan_sign(stack: Seq<TokenType>)
    ensures
        scan_from(stack, seq![TokenType::UnaryOperatorLeft, TokenType::Number]) == scan_from(
            stack,
            seq![TokenType::Number],
        ),
{
    let n = TokenType::Number;
    let u = TokenType::UnaryOperatorLeft;
    lemma_scan_one(stack, n);
    assert(seq![u, n] =~= seq![u] + seq![n]);
    lemma_scan_concat(stack, seq![u], seq![n]);
    lemma_scan_one(stack, u);
    let s1 = stack.push(u);
    assert(collapse_once(s1) is None);
    lemma_scan_one(s1, n);
    let s2 = s1.push(n);
    let len = stack.len() as int;
    if len >= 2 && stack[len - 2] == n && stack[len - 1] == TokenType::BinaryOperator {
        let kept = stack.drop_last();
        assert(collapse_once(s2) == Some(s2.take(s2.len() - 3)));
        assert(s2.take(s2.len() - 3) =~= kept);
        let direct = stack.push(n);
        assert(collapse_once(direct) == Some(direct.take(direct.len() - 2)));
        assert(direct.take(direct.len() - 2) =~= kept);
        assert(collapse(s2) == collapse(direct));
    } else {
        assert(collapse_once(s2) == Some(s2.take(s2.len() - 2).push(n)));
        assert(s2.take(s2.len() - 2).push(n) =~= stack.push(n));
        assert(collapse(s2) == collapse(stack.push(n)));
    }
}

/// On any stack, `number postfix` scans as one number does.
pub proof fn lemma_scan_postfix(stack: Seq<TokenType>)
    ensures
        scan_from(stack, seq![TokenType::Number, TokenType::UnaryOperatorRight]) == scan_from(
            stack,
            seq![TokenType::Number],
        ),
{
    let n = TokenType::Number;
    let r = TokenType::UnaryOperatorRight;
    let s1 = collapse(stack.push(n));
    lemma_scan_one(stack, n);
    lemma_collapse_keeps_number(stack.push(n));
    lemma_collapse_is_stable(stack.push(n));
    assert(seq![n, r] =~= seq![n] + seq![r]);
    lemma_scan_concat(stack, seq![n], seq![r]);
    lemma_scan_one(s1, r);
    let s2 = s1.push(r);
    assert(collapse_once(s2) == Some(s2.take(s2.len() - 1)));
    assert(s2.take(s2.len() - 1) =~= s1);
    assert(collapse(s2) == collapse(s1));
}

/// On any stack, `open number close` scans as one number does.
pub proof fn lemma_scan_block(stack: Seq<TokenType>)
    ensures
        scan_from(
            stack,
            seq![TokenType::StartBlock, TokenType::Number, TokenType::EndBlock],
        ) == scan_from(stack, seq![TokenType::Number]),
{
    let n = TokenType::Number;
    let s = TokenType::StartBlock;
    let e = TokenType::EndBlock;
    lemma_scan_one(stack, n);
    assert(seq![s, n, e] =~= seq![s] + seq![n] + seq![e]);
    lemma_scan_concat(stack, seq![s] + seq![n], seq![e]);
    lemma_scan_concat(stack, seq![s], seq![n]);
    lemma_scan_one(stack, s);
    let s1 = stack.push(s);
    assert(collapse_once(s1) is None);
    lemma_scan_one(s1, n);
    let s2 = s1.push(n);
    assert(collapse_once(s2) is None);
    lemma_scan_one(s2, e);
    let s3 = s2.push(e);
    assert(collapse_once(s3) == Some(s3.take(s3.len() - 3).push(n)));
    assert(s3.take(s3.len() - 3).push(n) =~= stack.push(n));
    assert(collapse(s3) == collapse(stack.push(n)));
}

/// The variants of the tokens that an operation spans scan as one number
/// does, on any stack.
pub proof fn lemma_scan_operation(stack: Seq<TokenType>, tokens: Seq<TokenView>, i: int)
    requires
        is_operation(tokens, i),
    ensures
        ({
            let (from, to) = operation_span(tokens, i);
            0 <= from <= to < tokens.len() && scan_from(
                stack,
                token_types(tokens.subrange(from, to + 1)),
            ) == scan_from(stack, seq![TokenType::Number])
        }),
{
    let (from, to) = operation_span(tokens, i);
    let span = token_types(tokens.subrange(from, to + 1));
    match tokens[i].token_type() {
        TokenType::BinaryOperator => {
            assert(span =~= seq![
                TokenType::Number,
                TokenType::BinaryOperator,
                TokenType::Number,
            ]);
            lemma_scan_binary(stack);
        },
        TokenType::StartBlock => {
            assert(span =~= seq![TokenType::StartBlock, TokenType::Number, TokenType::EndBlock]);
            lemma_scan_block(stack);
        },
        TokenType::UnaryOperatorLeft => {
            assert(span =~= seq![TokenType::UnaryOperatorLeft, TokenType::Number]);
            lemma_scan_sign(stack);
        },
        TokenType::UnaryOperatorRight => {
            assert(span =~= seq![TokenType::Number, TokenType::UnaryOperatorRight]);
            lemma_scan_postfix(stack);
        },
        _ => {},
    }
}

/// Carrying out an operation changes nothing in what the variants collapse
/// to: the validator sees the tokens after it as it saw them before.
pub proof fn lemma_operation_keeps_structure(tokens: Seq<TokenView>, i: int, value: Frac)
    requires
        is_operation(tokens, i),
    ensures
        ({
            let (from, to) = operation_span(tokens, i);
            collapsed_types(token_types(splice(tokens, from, to, value))) == collapsed_types(
                token_types(tokens),
            )
        }),
{
    let (from, to) = operation_span(tokens, i);
    let empty = Seq::<TokenType>::empty();
    let head = token_types(tokens.take(from));
    let span = token_types(tokens.subrange(from, to + 1));
    let tail = token_types(tokens.skip(to + 1));
    let one = seq![TokenType::Number];
    lemma_scan_operation(scan_from(empty, head), tokens, i);
    assert(token_types(tokens) =~= head + span + tail);
    assert(token_types(splice(tokens, from, to, value)) =~= head + one + tail);
    lemma_scan_from_empty(token_types(tokens));
    lemma_scan_from_empty(token_types(splice(tokens, from, to, value)));
    lemma_scan_concat(empty, head + span, tail);
    lemma_scan_concat(empty, head, span);
    lemma_scan_concat(empty, head + one, tail);
    lemma_scan_concat(empty, head, one);
}

/// Up to each position, either no collapse has happened, or an operator has
/// its operands in place: every collapse marks one.
proof fn lemma_collapse_marks_operation(tokens: Seq<TokenView>, k: int)
    requires
        0 <= k <= tokens.len(),
    ensures
        collapsed_types(token_types(tokens).take(k)) == token_types(tokens).take(k) || exists|
            i: int,
        |
            is_operation(tokens, i),
    decreases k,
{
    let types = token_types(tokens);
    if k > 0 {
        lemma_collapse_marks_operation(tokens, k - 1);
        assert(types.take(k).drop_last() =~= types.take(k - 1));
        if collapsed_types(types.take(k - 1)) == types.take(k - 1) {
            let pushed = types.take(k - 1).push(types.take(k).last());
            assert(pushed =~= types.take(k));
            if collapse_once(pushed) is Some {
                let n = k;
                assert(forall|j: int| 0 <= j < k ==> pushed[j] == tokens[j].token_type());
                if n >= 3 && pushed[n - 3] == TokenType::Number && pushed[n - 2]
                    == TokenType::BinaryOperator && pushed[n - 1] == TokenType::Number {
                    assert(is_operation(tokens, n - 2));
                } else if n >= 2 && pushed[n - 2] == TokenType::UnaryOperatorLeft && pushed[n
                    - 1] == TokenType::Number {
                    assert(is_operation(tokens, n - 2));
                } else if n >= 3 && pushed[n - 3] == TokenType::StartBlock && pushed[n - 2]
                    == TokenType::Number && pushed[n - 1] == TokenType::EndBlock {
                    assert(is_operation(tokens, n - 3));
                } else {
                    assert(is_operation(tokens, n - 1));
                }
            }
        }
    } else {
        assert(types.take(0) =~= Seq::<TokenType>::empty());
    }
}

/// An expression of more than one token holds an operator with its operands
/// in place.
pub proof fn lemma_expression_has_operation(tokens: Seq<TokenView>)
    requires
        is_expression(tokens),
        tokens.len() > 1,
    ensures
        exists|i: int| is_operation(tokens, i),
{
    lemma_collapse_marks_operation(tokens, tokens.len() as int);
    assert(token_types(tokens).take(tokens.len() as int) =~= token_types(tokens));
}

/// An expression is reduced step by step until one number is left, unless an
/// operation on the way has no value.
pub proof fn lemma_expression_reduces(tokens: Seq<TokenView>)
    requires
        is_expression(tokens),
    ensures
        is_expression(reduced(tokens)),
        step(reduced(tokens)) is Illegal || (reduced(tokens).len() == 1 && reduced(tokens)[0]
            is Number && step(reduced(tokens)) is Finished),
    decreases tokens.len(),
{
    lemma_next_operation(tokens);
    let types = token_types(tokens);
    if tokens.len() == 0 {
        assert(types =~= Seq::<TokenType>::empty());
        assert(collapsed_types(types).len() == 0);
        assert(seq![TokenType::Number].len() == 1);
        assert(false);
    } else if tokens.len() == 1 {
        assert(types.drop_last() =~= Seq::<TokenType>::empty());
        assert(collapsed_types(types.drop_last()) =~= Seq::<TokenType>::empty());
        let pushed = Seq::<TokenType>::empty().push(types.last());
        assert(collapse_once(pushed) is None);
        assert(collapsed_types(types) == pushed);
        assert(pushed[0] == seq![TokenType::Number][0]);
        assert(forall|j: int| !is_operation(tokens, j));
    } else {
        lemma_expression_has_operation(tokens);
        let i = next_operation_of(tokens)->0;
        match operation_value(tokens, i) {
            Err(_) => {},
            Ok(value) => {
                let (from, to) = operation_span(tokens, i);
                let next = splice(tokens, from, to, value);
                lemma_operation_keeps_structure(tokens, i, value);
                lemma_expression_reduces(next);
            },
        }
    }
}

/// Tokens that make up one expression have a value, unless one of their
/// operations has none: the reduction never ends without a result for want
/// of an operation to carry out. What it returns depends on the tokens alone.
pub proof fn lemma_expression_has_value(tokens: Seq<TokenView>)
    requires
        is_expression(tokens),
    ensures
        reduce(tokens) is Ok || reduce(tokens) matches Err(SolveErrView::OperIllegalValues(_)),
{
    lemma_expression_reduces(tokens);
}

/// What passes the validator has a value, unless one of its operations has
/// none.
pub proof fn lemma_checked_tokens_have_value(tokens: Seq<TokenView>, checks: Seq<CheckRules>)
    requires
        validate(tokens, checks) is Ok,
    ensures
        blocks_nest(tokens),
        reduce(tokens) is Ok || reduce(tokens) matches Err(SolveErrView::OperIllegalValues(_)),
{
    lemma_expression_has_value(tokens);
    assert(block_check(tokens)->Ok_0 =~= Seq::<StartBlock>::empty());
}

/// The evaluation of a text ends in a value or in the failure of one stage;
/// the reducer fails on checked tokens only where an operation has no value.
pub proof fn lemma_evaluation_outcomes(
    text: Seq<char>,
    fixes: Seq<FixRules>,
    checks: Seq<CheckRules>,
)
    ensures
        match evaluated(text, fixes, checks) {
            Ok(_) => true,
            Err(ErrorView::Parse(_)) => true,
            Err(ErrorView::Check(_)) => true,
            Err(ErrorView::Solve(e)) => e is OperIllegalValues,
        },
{
    match parsed(text, fixes, checks) {
        Ok(tokens) => {
            lemma_checked_tokens_have_value(tokens, checks);
        },
        Err(_) => {},
    }
}

/// A literal in plain decimal notation, read and written again, comes back
/// normalized: digits without the zeros in front, a literal with a point as
/// the fraction it stands for.
pub proof fn lemma_read_then_written(literal: Seq<char>)
    requires
        is_plain_decimal(literal),
    ensures
        literal_value(literal) matches Some(number) && rational_text(number) == normalized(
            literal,
        ),
{
    lemma_literal_round_trip(literal);
}

} // verus!
