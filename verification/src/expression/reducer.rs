//! The reduction of a token sequence to its value.
//!
//! As long as more than one token is left, the operation that ranks first is
//! carried out and the tokens it spans give way to its result. An operation
//! stands where an operator has its operands beside it: `number op number`,
//! `open number close`, `sign number` and `number postfix`.

use crate::common::algs::{
    binary_operation, exp, exp_value, fact, fact_value, factorial_operation,
};
use crate::expression::error::{Error, ErrorView, SolveErr, SolveErrView};
use crate::expression::token::{
    BinaryOp, StartBlock, Token, TokenType, TokenView, UnaryOpLeft, UnaryOpRight,
};
use crate::types::frac::Frac;
use crate::types::rational::Rational;
use vstd::prelude::*;

verus! {

/// The variant of the token at position `i`, if there is one.
pub open spec fn type_at(tokens: Seq<TokenView>, i: int) -> Option<TokenType> {
    if 0 <= i < tokens.len() {
        Some(tokens[i].token_type())
    } else {
        None
    }
}

/// Whether the token at position `i` is an operator with its operands in place.
pub open spec fn is_operation(tokens: Seq<TokenView>, i: int) -> bool {
    0 <= i < tokens.len() && match tokens[i].token_type() {
        TokenType::BinaryOperator => type_at(tokens, i - 1) == Some(TokenType::Number)
            && type_at(tokens, i + 1) == Some(TokenType::Number),
        TokenType::StartBlock => type_at(tokens, i + 1) == Some(TokenType::Number) && type_at(
            tokens,
            i + 2,
        ) == Some(TokenType::EndBlock),
        TokenType::UnaryOperatorLeft => type_at(tokens, i + 1) == Some(TokenType::Number),
        TokenType::UnaryOperatorRight => type_at(tokens, i - 1) == Some(TokenType::Number),
        _ => false,
    }
}

/// Whether the operation at `i` comes before the one at `j`: it ranks lower,
/// or ranks the same and does not stand right of it.
pub open spec fn comes_first(tokens: Seq<TokenView>, i: int, j: int) -> bool {
    tokens[i].priority() < tokens[j].priority() || (tokens[i].priority()
        == tokens[j].priority() && i <= j)
}

/// Whether the operation at `i` is the one to carry out next.
pub open spec fn is_next_operation(tokens: Seq<TokenView>, i: int) -> bool {
    is_operation(tokens, i) && forall|j: int|
        is_operation(tokens, j) ==> comes_first(tokens, i, j)
}

/// The position of the operation to carry out next, if there is any.
pub open spec fn next_operation_of(tokens: Seq<TokenView>) -> Option<int> {
    if exists|i: int| is_next_operation(tokens, i) {
        Some(choose|i: int| is_next_operation(tokens, i))
    } else {
        None
    }
}

/// The value of `left op right`, or the operation where it has none.
pub open spec fn binary_value(left: Frac, op: BinaryOp, right: Frac) -> Result<
    Frac,
    Seq<TokenView>,
> {
    match op {
        BinaryOp::Add => Ok(left.add(right)),
        BinaryOp::Sub => Ok(left.sub(right)),
        BinaryOp::Mul => Ok(left.mul(right)),
        BinaryOp::Div => if right.is_zero() {
            Err(binary_operation(left, op, right))
        } else {
            Ok(left.div(right))
        },
        BinaryOp::Mod => if right.is_zero() {
            Err(binary_operation(left, op, right))
        } else {
            Ok(left.rem(right))
        },
        BinaryOp::Exp => match exp_value(left, right) {
            Some(q) => Ok(q),
            None => Err(binary_operation(left, op, right)),
        },
    }
}

/// The first and the last position of the operation at `i`.
pub open spec fn operation_span(tokens: Seq<TokenView>, i: int) -> (int, int) {
    match tokens[i].token_type() {
        TokenType::StartBlock => (i, i + 2),
        TokenType::UnaryOperatorLeft => (i, i + 1),
        TokenType::UnaryOperatorRight => (i - 1, i),
        _ => (i - 1, i + 1),
    }
}

/// The value of the operation at `i`, or the operation where it has none.
pub open spec fn operation_value(tokens: Seq<TokenView>, i: int) -> Result<
    Frac,
    Seq<TokenView>,
> {
    match tokens[i] {
        TokenView::StartBlock(StartBlock::Bracket) => Ok(tokens[i + 1]->Number_0),
        TokenView::StartBlock(StartBlock::Abs) => Ok(tokens[i + 1]->Number_0.abs()),
        TokenView::UnaryOperatorLeft(UnaryOpLeft::Neg) => Ok(tokens[i + 1]->Number_0.neg()),
        TokenView::UnaryOperatorLeft(UnaryOpLeft::Pos) => Ok(tokens[i + 1]->Number_0),
        TokenView::UnaryOperatorRight(UnaryOpRight::Fact) => match fact_value(
            tokens[i - 1]->Number_0,
        ) {
            Some(q) => Ok(q),
            None => Err(factorial_operation(tokens[i - 1]->Number_0)),
        },
        TokenView::BinaryOperator(op) => binary_value(
            tokens[i - 1]->Number_0,
            op,
            tokens[i + 1]->Number_0,
        ),
        _ => Err(Seq::empty()),
    }
}

/// The tokens with those from `from` to `to` replaced by the number `value`.
pub open spec fn splice(tokens: Seq<TokenView>, from: int, to: int, value: Frac) -> Seq<
    TokenView,
> {
    tokens.take(from).push(TokenView::Number(value)) + tokens.skip(to + 1)
}

/// What one step of the reduction does.
pub enum Step {
    /// One token is left: nothing to do.
    Finished,
    /// No operation can be carried out, and the tokens are not down to one.
    Stuck,
    /// The next operation has no value; holds the operation.
    Illegal(Seq<TokenView>),
    /// The next operation was carried out; holds the tokens after it.
    Reduced(Seq<TokenView>),
}

/// One step of the reduction.
pub open spec fn step(tokens: Seq<TokenView>) -> Step {
    match next_operation_of(tokens) {
        None => if tokens.len() == 1 {
            Step::Finished
        } else {
            Step::Stuck
        },
        Some(i) => match operation_value(tokens, i) {
            Err(operation) => Step::Illegal(operation),
            Ok(value) => {
                let (from, to) = operation_span(tokens, i);
                Step::Reduced(splice(tokens, from, to, value))
            },
        },
    }
}

/// The tokens after as many steps as can be taken.
pub open spec fn reduced(tokens: Seq<TokenView>) -> Seq<TokenView>
    decreases tokens.len(),
    via reduced_decreases
{
    match step(tokens) {
        Step::Reduced(next) => reduced(next),
        _ => tokens,
    }
}

#[via_fn]
proof fn reduced_decreases(tokens: Seq<TokenView>) {
    lemma_step_shrinks(tokens);
}

/// The value of the tokens, or why they have none.
pub open spec fn reduce(tokens: Seq<TokenView>) -> Result<Frac, SolveErrView> {
    let last = reduced(tokens);
    match step(last) {
        Step::Illegal(operation) => Err(SolveErrView::OperIllegalValues(operation)),
        Step::Finished => match last[0] {
            TokenView::Number(value) => Ok(value),
            _ => Err(SolveErrView::ExprWithNoResult(last)),
        },
        _ => Err(SolveErrView::ExprWithNoResult(last)),
    }
}

/// The operation that `next_operation_of` names is one, and comes first.
pub proof fn lemma_next_operation(tokens: Seq<TokenView>)
    ensures
        match next_operation_of(tokens) {
            Some(i) => is_next_operation(tokens, i),
            None => forall|j: int| !is_operation(tokens, j),
        },
{
    if exists|i: int| is_next_operation(tokens, i) {
    } else {
        assert forall|j: int| !is_operation(tokens, j) by {
            if is_operation(tokens, j) {
                let bound = tokens.len() as int;
                lemma_some_operation_is_next(tokens, j, bound);
                let best = choose|i: int|
                    is_operation(tokens, i) && i < bound && forall|k: int|
                        is_operation(tokens, k) && k < bound ==> comes_first(tokens, i, k);
                assert(is_next_operation(tokens, best));
            }
        }
    }
}

/// Among the operations left of `bound`, one comes first.
proof fn lemma_some_operation_is_next(tokens: Seq<TokenView>, witness: int, bound: int)
    requires
        is_operation(tokens, witness),
        witness < bound <= tokens.len(),
    ensures
        exists|i: int|
            is_operation(tokens, i) && i < bound && forall|j: int|
                is_operation(tokens, j) && j < bound ==> comes_first(tokens, i, j),
    decreases bound,
{
    let last = bound - 1;
    if exists|w: int| is_operation(tokens, w) && w < last {
        let w = choose|w: int| is_operation(tokens, w) && w < last;
        lemma_some_operation_is_next(tokens, w, last);
        let best = choose|i: int|
            is_operation(tokens, i) && i < last && forall|j: int|
                is_operation(tokens, j) && j < last ==> comes_first(tokens, i, j);
        if is_operation(tokens, last) && tokens[last].priority() < tokens[best].priority() {
            assert(forall|j: int|
                is_operation(tokens, j) && j < bound ==> comes_first(tokens, last, j));
        } else {
            assert(forall|j: int|
                is_operation(tokens, j) && j < bound ==> comes_first(tokens, best, j));
        }
    } else {
        assert(witness == last);
        assert(forall|j: int|
            is_operation(tokens, j) && j < bound ==> comes_first(tokens, last, j));
    }
}

/// Only one operation comes first.
pub proof fn lemma_next_operation_unique(tokens: Seq<TokenView>, i: int)
    requires
        is_next_operation(tokens, i),
    ensures
        next_operation_of(tokens) == Some(i),
{
    let chosen = choose|k: int| is_next_operation(tokens, k);
    assert(comes_first(tokens, i, chosen));
    assert(comes_first(tokens, chosen, i));
}

/// A step that carries out an operation leaves fewer tokens.
pub proof fn lemma_step_shrinks(tokens: Seq<TokenView>)
    ensures
        step(tokens) matches Step::Reduced(next) ==> next.len() < tokens.len(),
{
    lemma_next_operation(tokens);
}

/// A copy of `tokens`.
pub fn clone_tokens(tokens: &Vec<Token>) -> (copy: Vec<Token>)
    ensures
        copy.deep_view() == tokens.deep_view(),
{
    let mut copy: Vec<Token> = Vec::new();
    let mut i: usize = 0;
    while i < tokens.len()
        invariant
            i <= tokens.len(),
            copy.len() == i,
            forall|j: int| 0 <= j < i ==> copy[j]@ == tokens[j]@,
        decreases tokens.len() - i,
    {
        copy.push(tokens[i].clone());
        i += 1;
    }
    assert(copy.deep_view() =~= tokens.deep_view());
    copy
}

fn is_number(token: &Token) -> (b: bool)
    ensures
        b == (token@.token_type() == TokenType::Number),
{
    match token {
        Token::Number(_) => true,
        _ => false,
    }
}

fn is_end(token: &Token) -> (b: bool)
    ensures
        b == (token@.token_type() == TokenType::EndBlock),
{
    match token {
        Token::EndBlock(_) => true,
        _ => false,
    }
}

/// Whether the token at `index` is an operator with its operands in place.
fn operation_at(tokens: &[Token], index: usize) -> (b: bool)
    requires
        index < tokens.len(),
    ensures
        b == is_operation(tokens.deep_view(), index as int),
{
    let n = tokens.len();
    let ghost all = tokens.deep_view();
    assert(forall|j: int| 0 <= j < n ==> all[j] == tokens[j]@);
    match TokenType::from(&tokens[index]) {
        TokenType::BinaryOperator => index >= 1 && index + 1 < n && is_number(
            &tokens[index - 1],
        ) && is_number(&tokens[index + 1]),
        TokenType::StartBlock => index + 1 < n && n - index > 2 && is_number(
            &tokens[index + 1],
        ) && is_end(&tokens[index + 2]),
        TokenType::UnaryOperatorLeft => index + 1 < n && is_number(&tokens[index + 1]),
        TokenType::UnaryOperatorRight => index >= 1 && is_number(&tokens[index - 1]),
        _ => false,
    }
}

/// The position of the operation to carry out next: of those that rank
/// first, the leftmost. None where no operator has its operands in place.
pub fn next_operation(tokens: &[Token]) -> (res: Option<usize>)
    ensures
        match res {
            Some(i) => next_operation_of(tokens.deep_view()) == Some(i as int),
            None => next_operation_of(tokens.deep_view()) is None,
        },
{
    let ghost all = tokens.deep_view();
    let n = tokens.len();
    let mut op_index: Option<usize> = None;
    let mut op_priority: usize = usize::MAX;
    let mut index: usize = 0;
    while index < n && op_priority != 0
        invariant
            index <= n,
            n == tokens.len(),
            all == tokens.deep_view(),
            match op_index {
                None => op_priority == usize::MAX && forall|j: int|
                    0 <= j < index ==> !is_operation(all, j),
                Some(best) => best < index && is_operation(all, best as int) && op_priority
                    == all[best as int].priority() && forall|j: int|
                    is_operation(all, j) && j < index ==> comes_first(all, best as int, j),
            },
        decreases n - index,
    {
        let token = &tokens[index];
        assert(all[index as int] == token@);
        let priority = token.priority();
        let found = operation_at(tokens, index);
        if priority < op_priority && found {
            op_index = Some(index);
            op_priority = priority;
        }
        index += 1;
    }
    proof {
        match op_index {
            None => {
                assert forall|i: int| !is_next_operation(all, i) by {}
            },
            Some(best) => {
                assert(is_next_operation(all, best as int));
                lemma_next_operation_unique(all, best as int);
            },
        }
    }
    op_index
}

/// Carries out `left op right`.
///
/// Fails with `OperIllegalValues`, which holds the operation, on a division or
/// a remainder by zero and on a power without a value.
pub fn calculate(left: &Rational, op: BinaryOp, right: &Rational) -> (res: Result<
    Rational,
    Error,
>)
    ensures
        match binary_value(left@, op, right@) {
            Ok(q) => res matches Ok(r) && r@ == q,
            Err(operation) => res matches Err(e) && e@ == ErrorView::Solve(
                SolveErrView::OperIllegalValues(operation),
            ),
        },
{
    let value = match op {
        BinaryOp::Add => Some(left.add(right)),
        BinaryOp::Sub => Some(left.sub(right)),
        BinaryOp::Mul => Some(left.mul(right)),
        BinaryOp::Div => left.div(right),
        BinaryOp::Mod => left.rem(right),
        BinaryOp::Exp => {
            return exp(left, right);
        },
    };
    match value {
        Some(r) => Ok(r),
        None => {
            let mut tokens: Vec<Token> = Vec::new();
            tokens.push(Token::Number(left.clone()));
            tokens.push(Token::BinaryOperator(op));
            tokens.push(Token::Number(right.clone()));
            assert(tokens.deep_view() =~= binary_operation(left@, op, right@));
            Err(Error::Solve(SolveErr::OperIllegalValues(tokens)))
        },
    }
}

/// The number at position `i`.
fn number_at(tokens: &Vec<Token>, i: usize) -> (num: &Rational)
    requires
        i < tokens.len(),
        tokens.deep_view()[i as int] is Number,
    ensures
        TokenView::Number(num@) == tokens.deep_view()[i as int],
{
    assert(tokens.deep_view()[i as int] == tokens[i as int]@);
    match &tokens[i] {
        Token::Number(num) => num,
        _ => vstd::pervasive::unreached(),
    }
}

/// Puts the number `num` in the place of the tokens from `from` to `to`.
fn replace_span(tokens: &mut Vec<Token>, from: usize, to: usize, num: Rational)
    requires
        from <= to < old(tokens).len(),
    ensures
        final(tokens).deep_view() == splice(
            old(tokens).deep_view(),
            from as int,
            to as int,
            num@,
        ),
{
    let ghost before = tokens.deep_view();
    let mut left: usize = to - from + 1;
    while left > 0
        invariant
            left <= to - from + 1,
            from <= to < before.len(),
            from + left <= tokens.len(),
            tokens.deep_view() == before.take(from as int) + before.skip(to + 1 - left),
        decreases left,
    {
        let ghost now = tokens.deep_view();
        tokens.remove(from);
        assert(tokens.deep_view() =~= now.remove(from as int));
        assert(now.remove(from as int) =~= before.take(from as int) + before.skip(
            to + 1 - (left - 1),
        ));
        left -= 1;
    }
    let ghost now = tokens.deep_view();
    let token = Token::Number(num);
    tokens.insert(from, token);
    assert(tokens.deep_view() =~= now.insert(from as int, token@));
    assert(now.insert(from as int, token@) =~= splice(before, from as int, to as int, num@));
}

/// Carries out the operation that comes next, and puts its result in the
/// place of the tokens it spans.
///
/// Returns `true` after an operation, and `false`, with the tokens as they
/// were, where one token is left. Fails, with the tokens as they were, with
/// `OperIllegalValues` where the operation has no value, and with
/// `ExprWithNoResult` where there is no operation and the tokens are not
/// down to one.
pub fn solve_next(tokens: &mut Vec<Token>) -> (res: Result<bool, Error>)
    ensures
        match step(old(tokens).deep_view()) {
            Step::Finished => res matches Ok(false) && final(tokens).deep_view() == old(
                tokens,
            ).deep_view(),
            Step::Stuck => res matches Err(e) && e@ == ErrorView::Solve(
                SolveErrView::ExprWithNoResult(old(tokens).deep_view()),
            ) && final(tokens).deep_view() == old(tokens).deep_view(),
            Step::Illegal(operation) => res matches Err(e) && e@ == ErrorView::Solve(
                SolveErrView::OperIllegalValues(operation),
            ) && final(tokens).deep_view() == old(tokens).deep_view(),
            Step::Reduced(next) => res matches Ok(true) && final(tokens).deep_view() == next,
        },
{
    let ghost all = tokens.deep_view();
    let index = match next_operation(tokens.as_slice()) {
        Some(index) => index,
        None => {
            if tokens.len() != 1 {
                return Err(Error::Solve(SolveErr::ExprWithNoResult(clone_tokens(tokens))));
            }
            return Ok(false);
        },
    };
    proof {
        lemma_next_operation(all);
        assert(is_operation(all, index as int));
        assert(all.len() == tokens.len());
        assert(all[index as int] == tokens[index as int]@);
    }
    let (from, to, num) = match &tokens[index] {
        Token::StartBlock(start) => {
            let num = match start {
                StartBlock::Bracket => number_at(tokens, index + 1).clone(),
                StartBlock::Abs => number_at(tokens, index + 1).abs(),
            };
            (index, index + 2, num)
        },
        Token::UnaryOperatorLeft(unary) => {
            let num = match unary {
                UnaryOpLeft::Neg => number_at(tokens, index + 1).neg(),
                UnaryOpLeft::Pos => number_at(tokens, index + 1).clone(),
            };
            (index, index + 1, num)
        },
        Token::UnaryOperatorRight(unary) => {
            let num = match unary {
                UnaryOpRight::Fact => fact(number_at(tokens, index - 1))?,
            };
            (index - 1, index, num)
        },
        Token::BinaryOperator(bin) => {
            let left = number_at(tokens, index - 1);
            let right = number_at(tokens, index + 1);
            (index - 1, index + 1, calculate(left, *bin, right)?)
        },
        _ => vstd::pervasive::unreached(),
    };
    replace_span(tokens, from, to, num);
    Ok(true)
}

/// Reduces `tokens` to their value.
///
/// On success one token is left, the value. Fails with the first failure of
/// a step, and leaves the tokens as they were when that step began.
pub fn solve(tokens: &mut Vec<Token>) -> (res: Result<Rational, Error>)
    ensures
        final(tokens).deep_view() == reduced(old(tokens).deep_view()),
        match reduce(old(tokens).deep_view()) {
            Ok(value) => res matches Ok(r) && r@ == value,
            Err(e) => res matches Err(err) && err@ == ErrorView::Solve(e),
        },
{
    loop
        invariant
            reduced(tokens.deep_view()) == reduced(old(tokens).deep_view()),
        ensures
            tokens.deep_view() == reduced(old(tokens).deep_view()),
            step(tokens.deep_view()) is Finished,
        decreases tokens.len(),
    {
        proof {
            lemma_step_shrinks(tokens.deep_view());
        }
        let more = solve_next(tokens)?;
        if !more {
            break ;
        }
    }
    match &tokens[0] {
        Token::Number(num) => Ok(num.clone()),
        _ => Err(Error::Solve(SolveErr::ExprWithNoResult(clone_tokens(tokens)))),
    }
}

} // verus!
