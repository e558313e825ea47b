//! Repairs of a token sequence.
//!
//! `BlockProduct` writes the product sign between a closing and an opening
//! delimiter that stand side by side. `CloseBlocks` closes at the end, the
//! innermost first, every block that the sequence leaves open.

use crate::expression::solver::FixRules;
use crate::expression::token::{BinaryOp, StartBlock, Token, TokenView};
use crate::expression::tokenizer::lemma_push_view;
use vstd::prelude::*;

verus! {

/// Whether a product sign belongs between `left` and `right`.
pub open spec fn needs_product(left: TokenView, right: TokenView) -> bool {
    left is EndBlock && right is StartBlock
}

/// The tokens from position `from` on, with the product signs that belong
/// between them.
pub open spec fn with_products_from(tokens: Seq<TokenView>, from: int) -> Seq<TokenView>
    decreases tokens.len() - from,
{
    if from < 0 || from >= tokens.len() {
        Seq::empty()
    } else if from == tokens.len() - 1 {
        seq![tokens[from]]
    } else if needs_product(tokens[from], tokens[from + 1]) {
        seq![tokens[from], TokenView::BinaryOperator(BinaryOp::Mul)] + with_products_from(
            tokens,
            from + 1,
        )
    } else {
        seq![tokens[from]] + with_products_from(tokens, from + 1)
    }
}

/// The tokens with a product sign between every closing delimiter and the
/// opening delimiter that follows it directly.
pub open spec fn with_products(tokens: Seq<TokenView>) -> Seq<TokenView> {
    with_products_from(tokens, 0)
}

/// The blocks open after `token`, where `blocks` were open before it. A
/// closing delimiter closes the innermost block if that is of its kind, and
/// nothing otherwise.
pub open spec fn blocks_after(blocks: Seq<StartBlock>, token: TokenView) -> Seq<StartBlock> {
    match token {
        TokenView::StartBlock(start) => blocks.push(start),
        TokenView::EndBlock(end) => if blocks.len() > 0 && blocks.last() == end.corrisp() {
            blocks.drop_last()
        } else {
            blocks
        },
        _ => blocks,
    }
}

/// The blocks open after `tokens`, where `blocks` were open before them.
pub open spec fn blocks_after_all(blocks: Seq<StartBlock>, tokens: Seq<TokenView>) -> Seq<
    StartBlock,
>
    decreases tokens.len(),
{
    if tokens.len() == 0 {
        blocks
    } else {
        blocks_after(blocks_after_all(blocks, tokens.drop_last()), tokens.last())
    }
}

/// The blocks that `tokens` leave open, innermost last.
pub open spec fn open_blocks(tokens: Seq<TokenView>) -> Seq<StartBlock> {
    blocks_after_all(Seq::empty(), tokens)
}

/// The delimiters that close `blocks`, the innermost first.
pub open spec fn closing(blocks: Seq<StartBlock>) -> Seq<TokenView> {
    Seq::new(
        blocks.len(),
        |i: int| TokenView::EndBlock(blocks[blocks.len() - 1 - i].corrisp()),
    )
}

/// The tokens with every block closed that they leave open.
pub open spec fn with_blocks_closed(tokens: Seq<TokenView>) -> Seq<TokenView> {
    tokens + closing(open_blocks(tokens))
}

/// The tokens after the repairs in `rules`: first the products, then the
/// closing of blocks.
pub open spec fn fixed(tokens: Seq<TokenView>, rules: Seq<FixRules>) -> Seq<TokenView> {
    let multiplied = if rules.contains(FixRules::BlockProduct) {
        with_products(tokens)
    } else {
        tokens
    };
    if rules.contains(FixRules::CloseBlocks) {
        with_blocks_closed(multiplied)
    } else {
        multiplied
    }
}

/// Reading two runs of tokens one after the other is reading their
/// concatenation.
pub proof fn lemma_blocks_after_concat(
    blocks: Seq<StartBlock>,
    first: Seq<TokenView>,
    second: Seq<TokenView>,
)
    ensures
        blocks_after_all(blocks, first + second) == blocks_after_all(
            blocks_after_all(blocks, first),
            second,
        ),
    decreases second.len(),
{
    if second.len() == 0 {
        assert(first + second =~= first);
    } else {
        lemma_blocks_after_concat(blocks, first, second.drop_last());
        assert((first + second).drop_last() =~= first + second.drop_last());
        assert((first + second).last() == second.last());
    }
}

/// Reading a token and then a run of tokens is reading the run with the token
/// in front.
pub proof fn lemma_blocks_after_first(blocks: Seq<StartBlock>, tokens: Seq<TokenView>)
    requires
        tokens.len() > 0,
    ensures
        blocks_after_all(blocks, tokens) == blocks_after_all(
            blocks_after(blocks, tokens[0]),
            tokens.drop_first(),
        ),
{
    let head = seq![tokens[0]];
    assert(tokens =~= head + tokens.drop_first());
    lemma_blocks_after_concat(blocks, head, tokens.drop_first());
    assert(head.drop_last() =~= Seq::<TokenView>::empty());
    assert(blocks_after_all(blocks, head) == blocks_after(blocks, tokens[0])) by {
        reveal_with_fuel(blocks_after_all, 2);
    }
}

/// The delimiters that close `blocks` close all of them.
pub proof fn lemma_closing_closes(blocks: Seq<StartBlock>)
    ensures
        blocks_after_all(blocks, closing(blocks)) == Seq::<StartBlock>::empty(),
    decreases blocks.len(),
{
    if blocks.len() == 0 {
        assert(blocks =~= Seq::<StartBlock>::empty());
    } else {
        let rest = blocks.drop_last();
        lemma_closing_closes(rest);
        lemma_blocks_after_first(blocks, closing(blocks));
        assert(closing(blocks)[0] == TokenView::EndBlock(blocks.last().corrisp()));
        assert(blocks.last().corrisp().corrisp() == blocks.last());
        assert(closing(blocks).drop_first() =~= closing(rest));
    }
}

/// Closing the open blocks a second time changes nothing: where every block is
/// closed, none is left to close.
pub proof fn lemma_close_blocks_idempotent(tokens: Seq<TokenView>)
    ensures
        with_blocks_closed(with_blocks_closed(tokens)) == with_blocks_closed(tokens),
        open_blocks(with_blocks_closed(tokens)) == Seq::<StartBlock>::empty(),
{
    let open = open_blocks(tokens);
    lemma_blocks_after_concat(Seq::empty(), tokens, closing(open));
    lemma_closing_closes(open);
    assert(closing(Seq::<StartBlock>::empty()) =~= Seq::<TokenView>::empty());
    assert(with_blocks_closed(tokens) + Seq::<TokenView>::empty() =~= with_blocks_closed(
        tokens,
    ));
}

/// No product sign is missing: no closing delimiter stands directly in front
/// of an opening one.
pub open spec fn products_complete(tokens: Seq<TokenView>) -> bool {
    forall|i: int| 0 <= i < tokens.len() - 1 ==> !needs_product(tokens[i], #[trigger] tokens[i + 1])
}

/// Where no product sign is missing, none is written.
pub proof fn lemma_products_of_complete(tokens: Seq<TokenView>, from: int)
    requires
        products_complete(tokens),
        0 <= from <= tokens.len(),
    ensures
        with_products_from(tokens, from) == tokens.skip(from),
    decreases tokens.len() - from,
{
    if from < tokens.len() - 1 {
        lemma_products_of_complete(tokens, from + 1);
        assert(!needs_product(tokens[from], tokens[from + 1]));
        assert(seq![tokens[from]] + tokens.skip(from + 1) =~= tokens.skip(from));
    } else if from == tokens.len() - 1 {
        assert(seq![tokens[from]] =~= tokens.skip(from));
    } else {
        assert(tokens.skip(from) =~= Seq::<TokenView>::empty());
    }
}

/// With the product signs written, none is missing.
pub proof fn lemma_products_are_complete(tokens: Seq<TokenView>, from: int)
    requires
        0 <= from <= tokens.len(),
    ensures
        products_complete(with_products_from(tokens, from)),
        from < tokens.len() ==> with_products_from(tokens, from).len() > 0
            && with_products_from(tokens, from)[0] == tokens[from],
    decreases tokens.len() - from,
{
    if from < tokens.len() - 1 {
        lemma_products_are_complete(tokens, from + 1);
        let rest = with_products_from(tokens, from + 1);
        let all = with_products_from(tokens, from);
        let sign = TokenView::BinaryOperator(BinaryOp::Mul);
        if needs_product(tokens[from], tokens[from + 1]) {
            assert forall|i: int| 0 <= i < all.len() - 1 implies !needs_product(
                all[i],
                #[trigger] all[i + 1],
            ) by {
                if i >= 2 {
                    assert(all[i] == rest[i - 2]);
                    assert(all[i + 1] == rest[i - 2 + 1]);
                } else if i == 1 {
                    assert(all[1] == sign);
                } else {
                    assert(all[1] == sign);
                }
            }
        } else {
            assert forall|i: int| 0 <= i < all.len() - 1 implies !needs_product(
                all[i],
                #[trigger] all[i + 1],
            ) by {
                if i >= 1 {
                    assert(all[i] == rest[i - 1]);
                    assert(all[i + 1] == rest[i - 1 + 1]);
                } else {
                    assert(all[1] == rest[0]);
                }
            }
        }
    }
}

/// Closing delimiters at the end leave no product sign missing.
pub proof fn lemma_closing_keeps_complete(tokens: Seq<TokenView>, blocks: Seq<StartBlock>)
    requires
        products_complete(tokens),
    ensures
        products_complete(tokens + closing(blocks)),
{
    let all = tokens + closing(blocks);
    assert forall|i: int| 0 <= i < all.len() - 1 implies !needs_product(
        all[i],
        #[trigger] all[i + 1],
    ) by {
        if i + 1 < tokens.len() {
            assert(all[i] == tokens[i]);
            assert(all[i + 1] == tokens[i + 1]);
        } else {
            assert(all[i + 1] == closing(blocks)[i + 1 - tokens.len()]);
        }
    }
}

/// Repairing a second time changes nothing, whatever the rules: the product
/// signs are all written, and the blocks are all closed.
pub proof fn lemma_fix_twice(tokens: Seq<TokenView>, rules: Seq<FixRules>)
    ensures
        fixed(fixed(tokens, rules), rules) == fixed(tokens, rules),
{
    let multiplied = if rules.contains(FixRules::BlockProduct) {
        with_products(tokens)
    } else {
        tokens
    };
    let once = fixed(tokens, rules);
    if rules.contains(FixRules::BlockProduct) {
        lemma_products_are_complete(tokens, 0);
        if rules.contains(FixRules::CloseBlocks) {
            lemma_closing_keeps_complete(multiplied, open_blocks(multiplied));
        }
        lemma_products_of_complete(once, 0);
        assert(once.skip(0) =~= once);
    }
    if rules.contains(FixRules::CloseBlocks) {
        lemma_close_blocks_idempotent(multiplied);
    }
}

/// Whether `rules` holds `rule`.
pub fn has_fix_rule(rules: &[FixRules], rule: FixRules) -> (found: bool)
    ensures
        found == rules@.contains(rule),
{
    let mut i: usize = 0;
    while i < rules.len()
        invariant
            i <= rules.len(),
            forall|j: int| 0 <= j < i ==> rules@[j] != rule,
        decreases rules.len() - i,
    {
        if rules[i] == rule {
            return true;
        }
        i += 1;
    }
    false
}

fn is_end_block(token: &Token) -> (b: bool)
    ensures
        b == (token@ is EndBlock),
{
    match token {
        Token::EndBlock(_) => true,
        _ => false,
    }
}

fn is_start_block(token: &Token) -> (b: bool)
    ensures
        b == (token@ is StartBlock),
{
    match token {
        Token::StartBlock(_) => true,
        _ => false,
    }
}

/// Writes the product signs into `tokens`, from the end towards the start, so
/// that no position moves before it has been looked at.
fn insert_products(tokens: &mut Vec<Token>)
    ensures
        final(tokens).deep_view() == with_products(old(tokens).deep_view()),
{
    let ghost before = tokens.deep_view();
    if tokens.len() < 2 {
        proof {
            reveal_with_fuel(with_products_from, 2);
            assert(with_products(before) =~= before);
        }
        return ;
    }
    let mut i: usize = tokens.len() - 1;
    assert(tokens.deep_view() =~= before.take(i as int) + with_products_from(before, i as int));
    while i > 0
        invariant
            0 <= i < old(tokens).len(),
            tokens.len() >= old(tokens).len(),
            before == old(tokens).deep_view(),
            tokens.deep_view() == before.take(i as int) + with_products_from(before, i as int),
        decreases i,
    {
        let ghost now = tokens.deep_view();
        assert(now[i - 1] == before[i - 1]);
        assert(now[i as int] == before[i as int]);
        assert(tokens[i - 1]@ == now[i - 1]);
        assert(tokens[i as int]@ == now[i as int]);
        if is_end_block(&tokens[i - 1]) && is_start_block(&tokens[i]) {
            let mul = Token::BinaryOperator(BinaryOp::Mul);
            tokens.insert(i, mul);
            proof {
                let tail = with_products_from(before, i as int);
                let sign = TokenView::BinaryOperator(BinaryOp::Mul);
                assert(tokens.deep_view() =~= now.insert(i as int, sign));
                assert(now.insert(i as int, sign) =~= before.take(i - 1) + (seq![
                    before[i - 1],
                    sign,
                ] + tail));
            }
        } else {
            proof {
                let tail = with_products_from(before, i as int);
                assert(now =~= before.take(i - 1) + (seq![before[i - 1]] + tail));
            }
        }
        i -= 1;
    }
    assert(before.take(0) + with_products_from(before, 0) =~= with_products(before));
}

/// The blocks that `tokens` leave open.
fn scan_blocks(tokens: &Vec<Token>) -> (stack: Vec<StartBlock>)
    ensures
        stack@ == open_blocks(tokens.deep_view()),
{
    let mut stack: Vec<StartBlock> = Vec::new();
    let mut i: usize = 0;
    let ghost all = tokens.deep_view();
    assert(all.take(0) =~= Seq::<TokenView>::empty());
    while i < tokens.len()
        invariant
            i <= tokens.len(),
            all == tokens.deep_view(),
            stack@ == open_blocks(all.take(i as int)),
        decreases tokens.len() - i,
    {
        proof {
            let next = all.take(i + 1);
            assert(next.drop_last() =~= all.take(i as int));
            assert(next.last() == tokens[i as int]@);
        }
        match &tokens[i] {
            Token::StartBlock(start) => {
                stack.push(*start);
            },
            Token::EndBlock(end) => {
                if stack.len() > 0 && stack[stack.len() - 1] == end.corrisp() {
                    stack.pop();
                }
            },
            _ => {},
        }
        i += 1;
    }
    assert(all.take(tokens.len() as int) =~= all);
    stack
}

/// Appends the delimiters that close the blocks left open.
fn close_blocks(tokens: &mut Vec<Token>)
    ensures
        final(tokens).deep_view() == with_blocks_closed(old(tokens).deep_view()),
{
    let stack = scan_blocks(tokens);
    let ghost before = tokens.deep_view();
    let ghost closers = closing(stack@);
    let mut i: usize = stack.len();
    assert(tokens.deep_view() =~= before + closers.take(0));
    while i > 0
        invariant
            i <= stack.len(),
            closers == closing(stack@),
            tokens.deep_view() == before + closers.take(stack.len() - i),
        decreases i,
    {
        let end = stack[i - 1].corrisp();
        proof {
            lemma_push_view(tokens@, Token::EndBlock(end));
            assert(closers[stack.len() - i] == TokenView::EndBlock(end));
            assert((before + closers.take(stack.len() - i)).push(TokenView::EndBlock(end))
                =~= before + closers.take(stack.len() - i + 1));
        }
        tokens.push(Token::EndBlock(end));
        i -= 1;
    }
    assert(closers.take(stack.len() as int) =~= closers);
}

/// Repairs `tokens` as `rules` ask: products first, then the closing of
/// blocks. Other rules than these two there are none, and without a rule the
/// tokens stay as they are.
pub fn fix_tokens(tokens: &mut Vec<Token>, rules: &[FixRules])
    ensures
        final(tokens).deep_view() == fixed(old(tokens).deep_view(), rules@),
{
    if has_fix_rule(rules, FixRules::BlockProduct) {
        insert_products(tokens);
    }
    if has_fix_rule(rules, FixRules::CloseBlocks) {
        close_blocks(tokens);
    }
}

} // verus!
