//! From characters to tokens.
//!
//! The tokenizer reads one character at a time. Digits, `.` and `_` gather in
//! a pending literal, which becomes a number as soon as another character is
//! seen. `+` and `-` are binary behind an operand and signs elsewhere. `|`
//! closes the innermost open block if that is an absolute value, and opens a
//! new one otherwise. Blocks need not be balanced here: `)` is taken as a
//! closing bracket wherever it stands, and the validator judges the nesting.

use crate::expression::error::{Error, ErrorView, ParseErr, ParseErrView};
use crate::expression::token::{
    BinaryOp, EndBlock, StartBlock, Token, TokenView, UnaryOpLeft, UnaryOpRight,
};
use crate::types::rational::literal_value;
use vstd::prelude::*;

verus! {

/// What the tokenizer knows between two characters.
pub struct Lexer {
    /// The tokens read so far.
    pub tokens: Seq<TokenView>,
    /// The characters of the literal that is being read.
    pub literal: Seq<char>,
    /// The blocks that are open, innermost last.
    pub blocks: Seq<StartBlock>,
}

/// A character with the Unicode property `White_Space`.
pub open spec fn is_whitespace(c: char) -> bool {
    ||| c == ' '
    ||| '\u{9}' <= c <= '\u{d}'
    ||| c == '\u{85}'
    ||| c == '\u{a0}'
    ||| c == '\u{1680}'
    ||| '\u{2000}' <= c <= '\u{200a}'
    ||| c == '\u{2028}'
    ||| c == '\u{2029}'
    ||| c == '\u{202f}'
    ||| c == '\u{205f}'
    ||| c == '\u{3000}'
}

/// A character that a literal may hold: a digit, the point, the separator.
pub open spec fn is_literal_char(c: char) -> bool {
    '0' <= c <= '9' || c == '.' || c == '_'
}

/// Whether the tokens end in an operand, so that `+` and `-` are binary.
pub open spec fn after_operand(tokens: Seq<TokenView>) -> bool {
    tokens.len() > 0 && (tokens.last() is Number || tokens.last() is EndBlock
        || tokens.last() is UnaryOperatorRight)
}

impl Lexer {
    /// Nothing read yet.
    pub open spec fn start() -> Lexer {
        Lexer { tokens: Seq::empty(), literal: Seq::empty(), blocks: Seq::empty() }
    }

    /// One more token.
    pub open spec fn emit(self, token: TokenView) -> Lexer {
        Lexer { tokens: self.tokens.push(token), ..self }
    }

    /// Turns the pending literal, if there is one, into a number.
    pub open spec fn flush(self) -> Result<Lexer, ParseErrView> {
        if self.literal.len() == 0 {
            Ok(self)
        } else {
            match literal_value(self.literal) {
                Some(q) => Ok(
                    Lexer {
                        tokens: self.tokens.push(TokenView::Number(q)),
                        literal: Seq::empty(),
                        blocks: self.blocks,
                    },
                ),
                None => Err(ParseErrView::InvalidNumber(self.literal)),
            }
        }
    }

    /// Reads a character that is neither part of a literal nor whitespace.
    pub open spec fn symbol(self, c: char) -> Result<Lexer, ParseErrView> {
        if c == '+' {
            if after_operand(self.tokens) {
                Ok(self.emit(TokenView::BinaryOperator(BinaryOp::Add)))
            } else {
                Ok(self.emit(TokenView::UnaryOperatorLeft(UnaryOpLeft::Pos)))
            }
        } else if c == '-' {
            if after_operand(self.tokens) {
                Ok(self.emit(TokenView::BinaryOperator(BinaryOp::Sub)))
            } else {
                Ok(self.emit(TokenView::UnaryOperatorLeft(UnaryOpLeft::Neg)))
            }
        } else if c == '!' {
            Ok(self.emit(TokenView::UnaryOperatorRight(UnaryOpRight::Fact)))
        } else if c == '^' {
            Ok(self.emit(TokenView::BinaryOperator(BinaryOp::Exp)))
        } else if c == '*' {
            Ok(self.emit(TokenView::BinaryOperator(BinaryOp::Mul)))
        } else if c == '/' {
            Ok(self.emit(TokenView::BinaryOperator(BinaryOp::Div)))
        } else if c == '%' {
            Ok(self.emit(TokenView::BinaryOperator(BinaryOp::Mod)))
        } else if c == '(' {
            Ok(
                Lexer {
                    tokens: self.tokens.push(TokenView::StartBlock(StartBlock::Bracket)),
                    literal: self.literal,
                    blocks: self.blocks.push(StartBlock::Bracket),
                },
            )
        } else if c == ')' {
            Ok(
                Lexer {
                    tokens: self.tokens.push(TokenView::EndBlock(EndBlock::Bracket)),
                    literal: self.literal,
                    blocks: if self.blocks.len() > 0 && self.blocks.last()
                        == StartBlock::Bracket {
                        self.blocks.drop_last()
                    } else {
                        self.blocks
                    },
                },
            )
        } else if c == '|' {
            if self.blocks.len() > 0 && self.blocks.last() == StartBlock::Abs {
                Ok(
                    Lexer {
                        tokens: self.tokens.push(TokenView::EndBlock(EndBlock::Abs)),
                        literal: self.literal,
                        blocks: self.blocks.drop_last(),
                    },
                )
            } else {
                Ok(
                    Lexer {
                        tokens: self.tokens.push(TokenView::StartBlock(StartBlock::Abs)),
                        literal: self.literal,
                        blocks: self.blocks.push(StartBlock::Abs),
                    },
                )
            }
        } else {
            Err(ParseErrView::InvalidToken(c))
        }
    }

    /// Reads one character.
    pub open spec fn read(self, c: char) -> Result<Lexer, ParseErrView> {
        if is_literal_char(c) {
            Ok(Lexer { literal: self.literal.push(c), ..self })
        } else {
            match self.flush() {
                Err(e) => Err(e),
                Ok(flushed) => if is_whitespace(c) {
                    Ok(flushed)
                } else {
                    flushed.symbol(c)
                },
            }
        }
    }

    /// Reads the first `n` characters of `text`, up to the first that fails.
    pub open spec fn read_prefix(text: Seq<char>, n: nat) -> Result<Lexer, ParseErrView>
        decreases n,
    {
        if n == 0 {
            Ok(Lexer::start())
        } else {
            match Lexer::read_prefix(text, (n - 1) as nat) {
                Err(e) => Err(e),
                Ok(lexer) => lexer.read(text[n - 1]),
            }
        }
    }
}

/// The tokens that `text` writes, or the first failure met from the left.
pub open spec fn tokenize(text: Seq<char>) -> Result<Seq<TokenView>, ParseErrView> {
    match Lexer::read_prefix(text, text.len()) {
        Err(e) => Err(e),
        Ok(lexer) => match lexer.flush() {
            Err(e) => Err(e),
            Ok(flushed) => Ok(flushed.tokens),
        },
    }
}

/// A failure stays: what fails on a prefix fails on every longer one.
pub proof fn lemma_failure_stays(text: Seq<char>, m: nat, n: nat)
    requires
        m <= n,
        Lexer::read_prefix(text, m) is Err,
    ensures
        Lexer::read_prefix(text, n) == Lexer::read_prefix(text, m),
    decreases n,
{
    if m < n {
        lemma_failure_stays(text, m, (n - 1) as nat);
    }
}

/// The characters of `chars` as a string.
///
/// Wraps `String::from_iter` of std, which strings the characters together
/// in their order.
#[verifier::external_body]
pub(crate) fn string_of(chars: &Vec<char>) -> (text: String)
    ensures
        text@ == chars@,
{
    String::from_iter(chars)
}

pub(crate) fn char_is_whitespace(c: char) -> (b: bool)
    ensures
        b == is_whitespace(c),
{
    c == ' ' || (c >= '\u{9}' && c <= '\u{d}') || c == '\u{85}' || c == '\u{a0}' || c
        == '\u{1680}' || (c >= '\u{2000}' && c <= '\u{200a}') || c == '\u{2028}' || c
        == '\u{2029}' || c == '\u{202f}' || c == '\u{205f}' || c == '\u{3000}'
}

fn char_is_literal(c: char) -> (b: bool)
    ensures
        b == is_literal_char(c),
{
    (c >= '0' && c <= '9') || c == '.' || c == '_'
}

fn ends_in_operand(tokens: &Vec<Token>) -> (b: bool)
    ensures
        b == after_operand(tokens.deep_view()),
{
    let n = tokens.len();
    if n == 0 {
        return false;
    }
    assert(tokens.deep_view().last() == tokens[n - 1]@);
    match &tokens[n - 1] {
        Token::Number(_) | Token::EndBlock(_) | Token::UnaryOperatorRight(_) => true,
        _ => false,
    }
}

/// The pending literal as a number, appended to `res`.
fn flush_literal(res: &mut Vec<Token>, acc: &mut Vec<char>) -> (out: Result<(), Error>)
    requires
        old(acc)@.len() > 0,
    ensures
        match literal_value(old(acc)@) {
            Some(q) => out is Ok && final(res).deep_view() == old(res).deep_view().push(
                TokenView::Number(q),
            ) && final(acc)@.len() == 0,
            None => out matches Err(e) && e@ == ErrorView::Parse(
                ParseErrView::InvalidNumber(old(acc)@),
            ),
        },
{
    let text = string_of(acc);
    match Token::parse_num(text.as_str()) {
        Ok(token) => {
            proof {
                lemma_push_view(res@, token);
            }
            res.push(token);
            acc.clear();
            Ok(())
        },
        Err(e) => Err(e),
    }
}

/// Appending a token appends its view.
pub proof fn lemma_push_view(tokens: Seq<Token>, token: Token)
    ensures
        tokens.push(token).map_values(|t: Token| t.deep_view()) == tokens.map_values(
            |t: Token| t.deep_view(),
        ).push(token@),
{
    assert(tokens.push(token).map_values(|t: Token| t.deep_view()) =~= tokens.map_values(
        |t: Token| t.deep_view(),
    ).push(token@));
}

fn push_token(res: &mut Vec<Token>, token: Token)
    ensures
        final(res).deep_view() == old(res).deep_view().push(token@),
{
    proof {
        lemma_push_view(res@, token);
    }
    res.push(token);
}

/// Reads a character that is neither part of a literal nor whitespace.
fn read_symbol(res: &mut Vec<Token>, stack: &mut Vec<StartBlock>, c: char) -> (out: Result<
    (),
    Error,
>)
    ensures
        match (Lexer {
            tokens: old(res).deep_view(),
            literal: Seq::empty(),
            blocks: old(stack)@,
        }).symbol(c) {
            Ok(lexer) => out is Ok && lexer.tokens == final(res).deep_view() && lexer.blocks
                == final(stack)@,
            Err(e) => out matches Err(err) && err@ == ErrorView::Parse(e),
        },
{
    if c == '+' {
        if ends_in_operand(res) {
            push_token(res, Token::BinaryOperator(BinaryOp::Add));
        } else {
            push_token(res, Token::UnaryOperatorLeft(UnaryOpLeft::Pos));
        }
    } else if c == '-' {
        if ends_in_operand(res) {
            push_token(res, Token::BinaryOperator(BinaryOp::Sub));
        } else {
            push_token(res, Token::UnaryOperatorLeft(UnaryOpLeft::Neg));
        }
    } else if c == '!' {
        push_token(res, Token::UnaryOperatorRight(UnaryOpRight::Fact));
    } else if c == '^' {
        push_token(res, Token::BinaryOperator(BinaryOp::Exp));
    } else if c == '*' {
        push_token(res, Token::BinaryOperator(BinaryOp::Mul));
    } else if c == '/' {
        push_token(res, Token::BinaryOperator(BinaryOp::Div));
    } else if c == '%' {
        push_token(res, Token::BinaryOperator(BinaryOp::Mod));
    } else if c == '(' {
        stack.push(StartBlock::Bracket);
        push_token(res, Token::StartBlock(StartBlock::Bracket));
    } else if c == ')' {
        if stack.len() > 0 && stack[stack.len() - 1] == StartBlock::Bracket {
            stack.pop();
        }
        push_token(res, Token::EndBlock(EndBlock::Bracket));
    } else if c == '|' {
        if stack.len() > 0 && stack[stack.len() - 1] == StartBlock::Abs {
            stack.pop();
            push_token(res, Token::EndBlock(EndBlock::Abs));
        } else {
            stack.push(StartBlock::Abs);
            push_token(res, Token::StartBlock(StartBlock::Abs));
        }
    } else {
        return Err(Error::Parse(ParseErr::InvalidToken(c)));
    }
    Ok(())
}

/// Splits `str` into tokens.
///
/// Fails with `InvalidToken` on the first character that belongs to no token,
/// and with `InvalidNumber` on the first literal that writes no number,
/// whichever comes first from the left.
pub fn parse_tokens(str: &str) -> (res: Result<Vec<Token>, Error>)
    ensures
        match tokenize(str@) {
            Ok(tokens) => res matches Ok(v) && v.deep_view() == tokens,
            Err(e) => res matches Err(err) && err@ == ErrorView::Parse(e),
        },
{
    let mut acc_num: Vec<char> = Vec::new();
    let mut stack: Vec<StartBlock> = Vec::new();
    let mut res: Vec<Token> = Vec::new();
    assert(res.deep_view() =~= Seq::<TokenView>::empty());

    for c in it: str.chars()
        invariant
            it.seq() == str@,
            Lexer::read_prefix(str@, it.index() as nat) == Ok::<Lexer, ParseErrView>(
                Lexer { tokens: res.deep_view(), literal: acc_num@, blocks: stack@ },
            ),
    {
        let ghost before = Lexer { tokens: res.deep_view(), literal: acc_num@, blocks: stack@ };
        let ghost n = (it.index() + 1) as nat;
        assert(c == str@[it.index() as int]);
        assert(Lexer::read_prefix(str@, n) == before.read(c));
        if char_is_literal(c) {
            acc_num.push(c);
        } else {
            if acc_num.len() > 0 {
                match flush_literal(&mut res, &mut acc_num) {
                    Ok(()) => {},
                    Err(e) => {
                        proof {
                            lemma_failure_stays(str@, n, str@.len());
                        }
                        return Err(e);
                    },
                }
            }
            assert(acc_num@ =~= Seq::<char>::empty());
            if !char_is_whitespace(c) {
                match read_symbol(&mut res, &mut stack, c) {
                    Ok(()) => {},
                    Err(e) => {
                        proof {
                            lemma_failure_stays(str@, n, str@.len());
                        }
                        return Err(e);
                    },
                }
            }
        }
    }

    if acc_num.len() > 0 {
        flush_literal(&mut res, &mut acc_num)?;
    }
    Ok(res)
}

} // verus!
