//! The checks a token sequence has to pass before it is reduced.
//!
//! First the rules that the caller asked for: a denied operator anywhere, or
//! signs side by side. Then the structure, in one scan from the left: every
//! closing delimiter must close the innermost open block, no block may stay
//! open, and the variants of the tokens must collapse to a single number.

use crate::common::{convert, is_conversion};
use crate::expression::error::{CheckErr, CheckErrView, Error, ErrorView};
use crate::expression::solver::CheckRules;
use crate::expression::token::{
    token_types, BinaryOp, EndBlock, StartBlock, Token, TokenType, TokenView, UnaryOpRight,
};
use vstd::prelude::*;

verus! {

/// The rule that denies `token`, if `rules` holds one.
pub open spec fn denied_operator(token: TokenView, rules: Seq<CheckRules>) -> Option<
    CheckRules,
> {
    if token == TokenView::BinaryOperator(BinaryOp::Div) && rules.contains(
        CheckRules::DenyDivision,
    ) {
        Some(CheckRules::DenyDivision)
    } else if token == TokenView::BinaryOperator(BinaryOp::Mod) && rules.contains(
        CheckRules::DenyModule,
    ) {
        Some(CheckRules::DenyModule)
    } else if token == TokenView::BinaryOperator(BinaryOp::Exp) && rules.contains(
        CheckRules::DenyExponent,
    ) {
        Some(CheckRules::DenyExponent)
    } else if token == TokenView::UnaryOperatorRight(UnaryOpRight::Fact) && rules.contains(
        CheckRules::DenyFactorial,
    ) {
        Some(CheckRules::DenyFactorial)
    } else {
        None
    }
}

/// The rule that the leftmost denied operator breaks.
pub open spec fn first_denied_operator(tokens: Seq<TokenView>, rules: Seq<CheckRules>) -> Option<
    CheckRules,
>
    decreases tokens.len(),
{
    if tokens.len() == 0 {
        None
    } else {
        match first_denied_operator(tokens.drop_last(), rules) {
            Some(rule) => Some(rule),
            None => denied_operator(tokens.last(), rules),
        }
    }
}

/// A sign in front of an operand.
pub open spec fn is_sign(token: TokenView) -> bool {
    token is UnaryOperatorLeft
}

/// A sign, or the binary `+` or `-`.
pub open spec fn is_sign_or_sum(token: TokenView) -> bool {
    is_sign(token) || token == TokenView::BinaryOperator(BinaryOp::Add) || token
        == TokenView::BinaryOperator(BinaryOp::Sub)
}

/// The rule that two neighbours break, if `rules` holds one.
pub open spec fn denied_pair(left: TokenView, right: TokenView, rules: Seq<CheckRules>) -> Option<
    CheckRules,
> {
    if rules.contains(CheckRules::DenyMultipleSign) && is_sign(left) && is_sign(right) {
        Some(CheckRules::DenyMultipleSign)
    } else if rules.contains(CheckRules::DenyAllMultipleSign) && is_sign_or_sum(left)
        && is_sign(right) {
        Some(CheckRules::DenyAllMultipleSign)
    } else {
        None
    }
}

/// The rule that the leftmost denied pair of neighbours breaks.
pub open spec fn first_denied_pair(tokens: Seq<TokenView>, rules: Seq<CheckRules>) -> Option<
    CheckRules,
>
    decreases tokens.len(),
{
    if tokens.len() < 2 {
        None
    } else {
        match first_denied_pair(tokens.drop_last(), rules) {
            Some(rule) => Some(rule),
            None => denied_pair(tokens[tokens.len() - 2], tokens.last(), rules),
        }
    }
}

/// The rule that the tokens break: that of the leftmost denied operator, and
/// where there is none, that of the leftmost denied pair.
pub open spec fn broken_rule(tokens: Seq<TokenView>, rules: Seq<CheckRules>) -> Option<
    CheckRules,
> {
    match first_denied_operator(tokens, rules) {
        Some(rule) => Some(rule),
        None => first_denied_pair(tokens, rules),
    }
}

/// The blocks open after `tokens`, innermost last, or the first closing
/// delimiter that does not close the innermost open block.
pub open spec fn block_check(tokens: Seq<TokenView>) -> Result<Seq<StartBlock>, EndBlock>
    decreases tokens.len(),
{
    if tokens.len() == 0 {
        Ok(Seq::empty())
    } else {
        match block_check(tokens.drop_last()) {
            Err(end) => Err(end),
            Ok(open) => match tokens.last() {
                TokenView::StartBlock(start) => Ok(open.push(start)),
                TokenView::EndBlock(end) => if open.len() > 0 && open.last() == end.corrisp() {
                    Ok(open.drop_last())
                } else {
                    Err(end)
                },
                _ => Ok(open),
            },
        }
    }
}

/// The blocks nest: each closing delimiter closes the innermost open block,
/// and none stays open.
pub open spec fn blocks_nest(tokens: Seq<TokenView>) -> bool {
    block_check(tokens) == Ok::<Seq<StartBlock>, EndBlock>(Seq::empty())
}

/// One collapse at the top of the stack of variants, where a pattern matches.
/// `number operator number`, `number operator sign number`, `sign number`,
/// `open number close` and `number postfix` each become `number`; in
/// `open sign number` the sign and the number become `number` behind the
/// opening delimiter. A sign is taken together with the operator and the
/// number in front of it where they stand there.
pub open spec fn collapse_once(stack: Seq<TokenType>) -> Option<Seq<TokenType>> {
    let n = stack.len() as int;
    if n >= 3 && stack[n - 3] == TokenType::Number && stack[n - 2] == TokenType::BinaryOperator
        && stack[n - 1] == TokenType::Number {
        Some(stack.take(n - 2))
    } else if n >= 3 && stack[n - 3] == TokenType::StartBlock && stack[n - 2]
        == TokenType::UnaryOperatorLeft && stack[n - 1] == TokenType::Number {
        Some(stack.take(n - 2).push(TokenType::Number))
    } else if n >= 4 && stack[n - 4] == TokenType::Number && stack[n - 3]
        == TokenType::BinaryOperator && stack[n - 2] == TokenType::UnaryOperatorLeft && stack[n
        - 1] == TokenType::Number {
        Some(stack.take(n - 3))
    } else if n >= 2 && stack[n - 2] == TokenType::UnaryOperatorLeft && stack[n - 1]
        == TokenType::Number {
        Some(stack.take(n - 2).push(TokenType::Number))
    } else if n >= 3 && stack[n - 3] == TokenType::StartBlock && stack[n - 2]
        == TokenType::Number && stack[n - 1] == TokenType::EndBlock {
        Some(stack.take(n - 3).push(TokenType::Number))
    } else if n >= 2 && stack[n - 2] == TokenType::Number && stack[n - 1]
        == TokenType::UnaryOperatorRight {
        Some(stack.take(n - 1))
    } else {
        None
    }
}

/// The stack after as many collapses as it admits.
pub open spec fn collapse(stack: Seq<TokenType>) -> Seq<TokenType>
    decreases stack.len(),
{
    match collapse_once(stack) {
        Some(smaller) => collapse(smaller),
        None => stack,
    }
}

/// The stack of variants after the scan of `types`: each variant is put on
/// the stack, which is then collapsed as far as it goes.
pub open spec fn collapsed_types(types: Seq<TokenType>) -> Seq<TokenType>
    decreases types.len(),
{
    if types.len() == 0 {
        Seq::empty()
    } else {
        collapse(collapsed_types(types.drop_last()).push(types.last()))
    }
}

/// The tokens make up one expression: their variants collapse to one number.
pub open spec fn is_expression(tokens: Seq<TokenView>) -> bool {
    collapsed_types(token_types(tokens)) == seq![TokenType::Number]
}

/// The opening delimiters `blocks` as tokens.
pub open spec fn start_tokens(blocks: Seq<StartBlock>) -> Seq<TokenView> {
    blocks.map_values(|b: StartBlock| TokenView::StartBlock(b))
}

/// The verdict on `tokens` under `rules`.
pub open spec fn validate(tokens: Seq<TokenView>, rules: Seq<CheckRules>) -> Result<
    (),
    CheckErrView,
> {
    match broken_rule(tokens, rules) {
        Some(rule) => Err(CheckErrView::BrokenCheckRule(rule)),
        None => match block_check(tokens) {
            Err(end) => Err(CheckErrView::UnbalancedBlocks(seq![TokenView::EndBlock(end)])),
            Ok(open) => if open.len() > 0 {
                Err(CheckErrView::UnbalancedBlocks(start_tokens(open)))
            } else if is_expression(tokens) {
                Ok(())
            } else {
                Err(CheckErrView::ExprWithNoResult(collapsed_types(token_types(tokens))))
            },
        },
    }
}

/// A closing delimiter out of place stays out of place, whatever follows.
pub proof fn lemma_block_failure_stays(tokens: Seq<TokenView>, n: int)
    requires
        0 <= n <= tokens.len(),
        block_check(tokens.take(n)) is Err,
    ensures
        block_check(tokens) == block_check(tokens.take(n)),
    decreases tokens.len(),
{
    if n < tokens.len() {
        assert(tokens.drop_last().take(n) =~= tokens.take(n));
        lemma_block_failure_stays(tokens.drop_last(), n);
    } else {
        assert(tokens.take(n) =~= tokens);
    }
}

/// Whether `rules` holds `rule`.
pub fn has_check_rule(rules: &[CheckRules], rule: CheckRules) -> (found: bool)
    ensures
        found == rules@.contains(rule),
{
    let mut i: usize = 0;
    while i < rules.len()
        invariant
            i <= rules.len(),
            forall|j: int| 0 <= j < i ==> rules@[j] != rule,
        decreases rules.len() - i,
    {
        if rules[i] == rule {
            return true;
        }
        i += 1;
    }
    false
}

fn token_is_sign(token: &Token) -> (b: bool)
    ensures
        b == is_sign(token@),
{
    match token {
        Token::UnaryOperatorLeft(_) => true,
        _ => false,
    }
}

fn token_is_sign_or_sum(token: &Token) -> (b: bool)
    ensures
        b == is_sign_or_sum(token@),
{
    match token {
        Token::UnaryOperatorLeft(_) => true,
        Token::BinaryOperator(BinaryOp::Add) => true,
        Token::BinaryOperator(BinaryOp::Sub) => true,
        _ => false,
    }
}

/// The first pass: the rules that the caller asked for.
fn check_denied(tokens: &[Token], checks: &[CheckRules]) -> (res: Option<CheckRules>)
    ensures
        res == broken_rule(tokens.deep_view(), checks@),
{
    let mul_sign = has_check_rule(checks, CheckRules::DenyMultipleSign);
    let all_sign = has_check_rule(checks, CheckRules::DenyAllMultipleSign);
    let deny_div = has_check_rule(checks, CheckRules::DenyDivision);
    let deny_mod = has_check_rule(checks, CheckRules::DenyModule);
    let deny_exp = has_check_rule(checks, CheckRules::DenyExponent);
    let deny_fac = has_check_rule(checks, CheckRules::DenyFactorial);
    let ghost all = tokens.deep_view();
    let n = tokens.len();

    let mut i: usize = 0;
    while i < n
        invariant
            i <= n,
            n == tokens.len(),
            all == tokens.deep_view(),
            first_denied_operator(all.take(i as int), checks@) is None,
            deny_div == checks@.contains(CheckRules::DenyDivision),
            deny_mod == checks@.contains(CheckRules::DenyModule),
            deny_exp == checks@.contains(CheckRules::DenyExponent),
            deny_fac == checks@.contains(CheckRules::DenyFactorial),
        decreases n - i,
    {
        proof {
            assert(all.take(i + 1).drop_last() =~= all.take(i as int));
            assert(all.take(i + 1).last() == tokens[i as int]@);
        }
        let denied = match &tokens[i] {
            Token::BinaryOperator(BinaryOp::Div) if deny_div => Some(CheckRules::DenyDivision),
            Token::BinaryOperator(BinaryOp::Mod) if deny_mod => Some(CheckRules::DenyModule),
            Token::BinaryOperator(BinaryOp::Exp) if deny_exp => Some(CheckRules::DenyExponent),
            Token::UnaryOperatorRight(UnaryOpRight::Fact) if deny_fac => Some(
                CheckRules::DenyFactorial,
            ),
            _ => None,
        };
        if denied.is_some() {
            proof {
                lemma_denied_operator_stays(all, checks@, i + 1);
            }
            return denied;
        }
        i += 1;
    }
    assert(all.take(n as int) =~= all);
    if n < 2 {
        return None;
    }
    let mut j: usize = 1;
    while j < n
        invariant
            1 <= j <= n,
            n == tokens.len(),
            first_denied_operator(all, checks@) is None,
            all == tokens.deep_view(),
            first_denied_pair(all.take(j as int), checks@) is None,
            mul_sign == checks@.contains(CheckRules::DenyMultipleSign),
            all_sign == checks@.contains(CheckRules::DenyAllMultipleSign),
        decreases n - j,
    {
        proof {
            assert(all.take(j + 1).drop_last() =~= all.take(j as int));
            assert(all.take(j + 1).last() == tokens[j as int]@);
            assert(all.take(j + 1)[j - 1] == tokens[j - 1]@);
        }
        let right = token_is_sign(&tokens[j]);
        let denied = if mul_sign && token_is_sign(&tokens[j - 1]) && right {
            Some(CheckRules::DenyMultipleSign)
        } else if all_sign && token_is_sign_or_sum(&tokens[j - 1]) && right {
            Some(CheckRules::DenyAllMultipleSign)
        } else {
            None
        };
        if denied.is_some() {
            proof {
                lemma_denied_pair_stays(all, checks@, j + 1);
            }
            return denied;
        }
        j += 1;
    }
    assert(all.take(n as int) =~= all);
    None
}

/// A denied operator in a prefix is the leftmost one of the whole.
pub proof fn lemma_denied_operator_stays(tokens: Seq<TokenView>, rules: Seq<CheckRules>, n: int)
    requires
        0 <= n <= tokens.len(),
        first_denied_operator(tokens.take(n), rules) is Some,
    ensures
        first_denied_operator(tokens, rules) == first_denied_operator(tokens.take(n), rules),
    decreases tokens.len(),
{
    if n < tokens.len() {
        assert(tokens.drop_last().take(n) =~= tokens.take(n));
        lemma_denied_operator_stays(tokens.drop_last(), rules, n);
    } else {
        assert(tokens.take(n) =~= tokens);
    }
}

/// A denied pair in a prefix is the leftmost one of the whole.
pub proof fn lemma_denied_pair_stays(tokens: Seq<TokenView>, rules: Seq<CheckRules>, n: int)
    requires
        0 <= n <= tokens.len(),
        first_denied_pair(tokens.take(n), rules) is Some,
    ensures
        first_denied_pair(tokens, rules) == first_denied_pair(tokens.take(n), rules),
    decreases tokens.len(),
{
    if n < tokens.len() {
        assert(tokens.drop_last().take(n) =~= tokens.take(n));
        lemma_denied_pair_stays(tokens.drop_last(), rules, n);
    } else {
        assert(tokens.take(n) =~= tokens);
    }
}

/// Collapses the top of `stack` once, if a pattern matches there.
pub fn collapse_expression(stack: &mut Vec<TokenType>) -> (collapsed: bool)
    ensures
        match collapse_once(old(stack)@) {
            Some(smaller) => collapsed && final(stack)@ == smaller,
            None => !collapsed && final(stack)@ == old(stack)@,
        },
{
    let len = stack.len();
    if len >= 3 && stack[len - 3] == TokenType::Number && stack[len - 2]
        == TokenType::BinaryOperator && stack[len - 1] == TokenType::Number {
        stack.truncate(len - 2);
        assert(stack@ =~= old(stack)@.take(len - 2));
        return true;
    }
    if len >= 3 && stack[len - 3] == TokenType::StartBlock && stack[len - 2]
        == TokenType::UnaryOperatorLeft && stack[len - 1] == TokenType::Number {
        stack.truncate(len - 2);
        stack.push(TokenType::Number);
        assert(stack@ =~= old(stack)@.take(len - 2).push(TokenType::Number));
        return true;
    }
    if len >= 4 && stack[len - 4] == TokenType::Number && stack[len - 3]
        == TokenType::BinaryOperator && stack[len - 2] == TokenType::UnaryOperatorLeft
        && stack[len - 1] == TokenType::Number {
        stack.truncate(len - 3);
        assert(stack@ =~= old(stack)@.take(len - 3));
        return true;
    }
    if len >= 2 && stack[len - 2] == TokenType::UnaryOperatorLeft && stack[len - 1]
        == TokenType::Number {
        stack.truncate(len - 2);
        stack.push(TokenType::Number);
        assert(stack@ =~= old(stack)@.take(len - 2).push(TokenType::Number));
        return true;
    }
    if len >= 3 && stack[len - 3] == TokenType::StartBlock && stack[len - 2]
        == TokenType::Number && stack[len - 1] == TokenType::EndBlock {
        stack.truncate(len - 3);
        stack.push(TokenType::Number);
        assert(stack@ =~= old(stack)@.take(len - 3).push(TokenType::Number));
        return true;
    }
    if len >= 2 && stack[len - 2] == TokenType::Number && stack[len - 1]
        == TokenType::UnaryOperatorRight {
        stack.truncate(len - 1);
        assert(stack@ =~= old(stack)@.take(len - 1));
        return true;
    }
    false
}

/// The opening delimiters `blocks` as tokens.
fn block_tokens(blocks: &Vec<StartBlock>) -> (tokens: Vec<Token>)
    ensures
        tokens.deep_view() == start_tokens(blocks@),
{
    let tokens: Vec<Token> = convert(blocks.as_slice());
    assert forall|i: int| 0 <= i < blocks.len() implies tokens[i]@ == TokenView::StartBlock(
        blocks[i],
    ) by {
        assert(is_conversion(blocks[i], tokens[i]));
    }
    assert(tokens.deep_view() =~= start_tokens(blocks@));
    tokens
}

/// Checks `tokens` under the rules `checks`.
///
/// Fails with `BrokenCheckRule` where a rule of `checks` is broken, with
/// `UnbalancedBlocks` where the blocks do not nest, and with
/// `ExprWithNoResult` where the tokens do not make up one expression: in
/// this order, each only where those before it find nothing.
pub fn check_rules(tokens: &[Token], checks: &[CheckRules]) -> (res: Result<(), Error>)
    ensures
        match validate(tokens.deep_view(), checks@) {
            Ok(()) => res is Ok,
            Err(e) => res matches Err(err) && err@ == ErrorView::Check(e),
        },
        res is Ok ==> blocks_nest(tokens.deep_view()) && is_expression(tokens.deep_view()),
        !blocks_nest(tokens.deep_view()) ==> res is Err,
{
    match check_denied(tokens, checks) {
        Some(rule) => {
            return Err(Error::Check(CheckErr::BrokenCheckRule(rule)));
        },
        None => {},
    }
    let ghost all = tokens.deep_view();
    let n = tokens.len();
    let mut block_stack: Vec<StartBlock> = Vec::new();
    let mut type_stack: Vec<TokenType> = Vec::new();
    let mut i: usize = 0;
    assert(all.take(0) =~= Seq::<TokenView>::empty());
    assert(token_types(all.take(0)) =~= Seq::<TokenType>::empty());
    while i < n
        invariant
            i <= n,
            n == tokens.len(),
            all == tokens.deep_view(),
            broken_rule(all, checks@) is None,
            block_check(all.take(i as int)) == Ok::<Seq<StartBlock>, EndBlock>(block_stack@),
            type_stack@ == collapsed_types(token_types(all.take(i as int))),
        decreases n - i,
    {
        proof {
            assert(all.take(i + 1).drop_last() =~= all.take(i as int));
            assert(all.take(i + 1).last() == tokens[i as int]@);
            assert(token_types(all.take(i + 1)).drop_last() =~= token_types(
                all.take(i as int),
            ));
        }
        match &tokens[i] {
            Token::StartBlock(start) => {
                block_stack.push(*start);
            },
            Token::EndBlock(end) => {
                let len = block_stack.len();
                if len > 0 && block_stack[len - 1] == end.corrisp() {
                    block_stack.pop();
                } else {
                    proof {
                        lemma_block_failure_stays(all, i + 1);
                    }
                    let mut offending: Vec<Token> = Vec::new();
                    offending.push(Token::EndBlock(*end));
                    assert(offending.deep_view() =~= seq![TokenView::EndBlock(*end)]);
                    return Err(Error::Check(CheckErr::UnbalancedBlocks(offending)));
                }
            },
            _ => {},
        }
        type_stack.push(TokenType::from(&tokens[i]));
        let ghost pushed = type_stack@;
        loop
            invariant
                collapse(type_stack@) == collapse(pushed),
            ensures
                collapse_once(type_stack@) is None,
            decreases type_stack@.len(),
        {
            if !collapse_expression(&mut type_stack) {
                break ;
            }
        }
        i += 1;
    }
    assert(all.take(n as int) =~= all);
    if block_stack.len() > 0 {
        let open = block_tokens(&block_stack);
        return Err(Error::Check(CheckErr::UnbalancedBlocks(open)));
    }
    assert(block_stack@ =~= Seq::<StartBlock>::empty());
    if type_stack.len() == 1 && type_stack[0] == TokenType::Number {
        assert(type_stack@ =~= seq![TokenType::Number]);
        Ok(())
    } else {
        Err(Error::Check(CheckErr::ExprWithNoResult(type_stack)))
    }
}

} // verus!
