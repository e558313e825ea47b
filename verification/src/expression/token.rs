//! The vocabulary of an expression.

use crate::common::Text;
use crate::expression::error::{Error, ParseErr};
use crate::types::decimal::rational_text;
use crate::types::frac::Frac;
use crate::types::rational::{literal_value, Rational};
use vstd::prelude::*;
use vstd::std_specs::convert::FromSpecImpl;
use vstd::string::StringExecFns;

verus! {

/// One piece of an expression.
#[derive(Debug, PartialEq, Eq)]
pub enum Token {
    StartBlock(StartBlock),
    EndBlock(EndBlock),
    UnaryOperatorLeft(UnaryOpLeft),
    UnaryOperatorRight(UnaryOpRight),
    BinaryOperator(BinaryOp),
    Number(Rational),
}

/// A token as the contracts see it: a number is the fraction it stands for.
pub enum TokenView {
    StartBlock(StartBlock),
    EndBlock(EndBlock),
    UnaryOperatorLeft(UnaryOpLeft),
    UnaryOperatorRight(UnaryOpRight),
    BinaryOperator(BinaryOp),
    Number(Frac),
}

/// The variant of a token, without what it holds.
#[derive(Debug, Clone, Copy, PartialEq, Eq, Structural)]
pub enum TokenType {
    StartBlock,
    EndBlock,
    UnaryOperatorLeft,
    UnaryOperatorRight,
    BinaryOperator,
    Number,
}

/// The character that opens a block.
#[derive(Debug, Clone, Copy, PartialEq, Eq, Structural)]
pub enum StartBlock {
    Bracket,
    Abs,
}

/// The character that closes a block.
#[derive(Debug, Clone, Copy, PartialEq, Eq, Structural)]
pub enum EndBlock {
    Bracket,
    Abs,
}

/// A sign in front of its operand.
#[derive(Debug, Clone, Copy, PartialEq, Eq, Structural)]
pub enum UnaryOpLeft {
    Neg,
    Pos,
}

/// An operator behind its operand.
#[derive(Debug, Clone, Copy, PartialEq, Eq, Structural)]
pub enum UnaryOpRight {
    Fact,
}

/// An operator between two operands.
#[derive(Debug, Clone, Copy, PartialEq, Eq, Structural)]
pub enum BinaryOp {
    Add,
    Sub,
    Mul,
    Mod,
    Div,
    Exp,
}

impl View for Token {
    type V = TokenView;

    open spec fn view(&self) -> TokenView {
        match self {
            Token::StartBlock(s) => TokenView::StartBlock(*s),
            Token::EndBlock(e) => TokenView::EndBlock(*e),
            Token::UnaryOperatorLeft(u) => TokenView::UnaryOperatorLeft(*u),
            Token::UnaryOperatorRight(u) => TokenView::UnaryOperatorRight(*u),
            Token::BinaryOperator(b) => TokenView::BinaryOperator(*b),
            Token::Number(n) => TokenView::Number(n@),
        }
    }
}

impl DeepView for Token {
    type V = TokenView;

    open spec fn deep_view(&self) -> TokenView {
        self@
    }
}

impl Clone for Token {
    fn clone(&self) -> (res: Self)
        ensures
            res@ == self@,
    {
        match self {
            Token::StartBlock(s) => Token::StartBlock(*s),
            Token::EndBlock(e) => Token::EndBlock(*e),
            Token::UnaryOperatorLeft(u) => Token::UnaryOperatorLeft(*u),
            Token::UnaryOperatorRight(u) => Token::UnaryOperatorRight(*u),
            Token::BinaryOperator(b) => Token::BinaryOperator(*b),
            Token::Number(n) => Token::Number(n.clone()),
        }
    }
}

impl From<StartBlock> for Token {
    fn from(value: StartBlock) -> (res: Self) {
        Token::StartBlock(value)
    }
}

impl FromSpecImpl<StartBlock> for Token {
    open spec fn obeys_from_spec() -> bool {
        true
    }

    open spec fn from_spec(value: StartBlock) -> Self {
        Token::StartBlock(value)
    }
}

impl From<EndBlock> for Token {
    fn from(value: EndBlock) -> (res: Self) {
        Token::EndBlock(value)
    }
}

impl FromSpecImpl<EndBlock> for Token {
    open spec fn obeys_from_spec() -> bool {
        true
    }

    open spec fn from_spec(value: EndBlock) -> Self {
        Token::EndBlock(value)
    }
}

impl From<UnaryOpLeft> for Token {
    fn from(value: UnaryOpLeft) -> (res: Self) {
        Token::UnaryOperatorLeft(value)
    }
}

impl FromSpecImpl<UnaryOpLeft> for Token {
    open spec fn obeys_from_spec() -> bool {
        true
    }

    open spec fn from_spec(value: UnaryOpLeft) -> Self {
        Token::UnaryOperatorLeft(value)
    }
}

impl From<UnaryOpRight> for Token {
    fn from(value: UnaryOpRight) -> (res: Self) {
        Token::UnaryOperatorRight(value)
    }
}

impl FromSpecImpl<UnaryOpRight> for Token {
    open spec fn obeys_from_spec() -> bool {
        true
    }

    open spec fn from_spec(value: UnaryOpRight) -> Self {
        Token::UnaryOperatorRight(value)
    }
}

impl From<BinaryOp> for Token {
    fn from(value: BinaryOp) -> (res: Self) {
        Token::BinaryOperator(value)
    }
}

impl FromSpecImpl<BinaryOp> for Token {
    open spec fn obeys_from_spec() -> bool {
        true
    }

    open spec fn from_spec(value: BinaryOp) -> Self {
        Token::BinaryOperator(value)
    }
}

impl From<Rational> for Token {
    fn from(value: Rational) -> (res: Self) {
        Token::Number(value)
    }
}

impl FromSpecImpl<Rational> for Token {
    open spec fn obeys_from_spec() -> bool {
        true
    }

    open spec fn from_spec(value: Rational) -> Self {
        Token::Number(value)
    }
}

impl From<&Token> for TokenType {
    fn from(value: &Token) -> (res: Self) {
        match value {
            Token::StartBlock(_) => Self::StartBlock,
            Token::EndBlock(_) => Self::EndBlock,
            Token::UnaryOperatorLeft(_) => Self::UnaryOperatorLeft,
            Token::BinaryOperator(_) => Self::BinaryOperator,
            Token::Number(_) => Self::Number,
            Token::UnaryOperatorRight(_) => Self::UnaryOperatorRight,
        }
    }
}

impl FromSpecImpl<&Token> for TokenType {
    open spec fn obeys_from_spec() -> bool {
        true
    }

    open spec fn from_spec(value: &Token) -> Self {
        value@.token_type()
    }
}

impl TokenView {
    /// The variant of the token.
    pub open spec fn token_type(self) -> TokenType {
        match self {
            TokenView::StartBlock(_) => TokenType::StartBlock,
            TokenView::EndBlock(_) => TokenType::EndBlock,
            TokenView::UnaryOperatorLeft(_) => TokenType::UnaryOperatorLeft,
            TokenView::UnaryOperatorRight(_) => TokenType::UnaryOperatorRight,
            TokenView::BinaryOperator(_) => TokenType::BinaryOperator,
            TokenView::Number(_) => TokenType::Number,
        }
    }

    /// The rank of the token among the operations: the lower, the earlier it
    /// is carried out. Numbers and closing delimiters start no operation and
    /// rank last.
    pub open spec fn priority(self) -> nat {
        match self {
            TokenView::StartBlock(_) => 0,
            TokenView::UnaryOperatorRight(_) => 1,
            TokenView::UnaryOperatorLeft(_) => 2,
            TokenView::BinaryOperator(op) => match op {
                BinaryOp::Exp => 3,
                BinaryOp::Mul | BinaryOp::Mod | BinaryOp::Div => 4,
                BinaryOp::Add | BinaryOp::Sub => 5,
            },
            _ => usize::MAX as nat,
        }
    }
}

impl Text for StartBlock {
    open spec fn text(&self) -> Seq<char> {
        match self {
            StartBlock::Abs => seq!['|'],
            StartBlock::Bracket => seq!['('],
        }
    }

    fn to_string(&self) -> (s: String) {
        proof {
            reveal_strlit("|");
            reveal_strlit("(");
        }
        let s = match self {
            StartBlock::Abs => String::from_str("|"),
            StartBlock::Bracket => String::from_str("("),
        };
        assert(s@ =~= self.text());
        s
    }
}

impl Text for EndBlock {
    open spec fn text(&self) -> Seq<char> {
        match self {
            EndBlock::Abs => seq!['|'],
            EndBlock::Bracket => seq![')'],
        }
    }

    fn to_string(&self) -> (s: String) {
        proof {
            reveal_strlit("|");
            reveal_strlit(")");
        }
        let s = match self {
            EndBlock::Abs => String::from_str("|"),
            EndBlock::Bracket => String::from_str(")"),
        };
        assert(s@ =~= self.text());
        s
    }
}

impl Text for UnaryOpLeft {
    open spec fn text(&self) -> Seq<char> {
        match self {
            UnaryOpLeft::Neg => seq!['-'],
            UnaryOpLeft::Pos => seq!['+'],
        }
    }

    fn to_string(&self) -> (s: String) {
        proof {
            reveal_strlit("-");
            reveal_strlit("+");
        }
        let s = match self {
            UnaryOpLeft::Neg => String::from_str("-"),
            UnaryOpLeft::Pos => String::from_str("+"),
        };
        assert(s@ =~= self.text());
        s
    }
}

impl Text for UnaryOpRight {
    open spec fn text(&self) -> Seq<char> {
        match self {
            UnaryOpRight::Fact => seq!['!'],
        }
    }

    fn to_string(&self) -> (s: String) {
        proof {
            reveal_strlit("!");
        }
        let s = match self {
            UnaryOpRight::Fact => String::from_str("!"),
        };
        assert(s@ =~= self.text());
        s
    }
}

impl Text for BinaryOp {
    open spec fn text(&self) -> Seq<char> {
        match self {
            BinaryOp::Add => seq!['+'],
            BinaryOp::Sub => seq!['-'],
            BinaryOp::Mul => seq!['*'],
            BinaryOp::Mod => seq!['%'],
            BinaryOp::Div => seq!['/'],
            BinaryOp::Exp => seq!['^'],
        }
    }

    fn to_string(&self) -> (s: String) {
        proof {
            reveal_strlit("+");
            reveal_strlit("-");
            reveal_strlit("*");
            reveal_strlit("%");
            reveal_strlit("/");
            reveal_strlit("^");
        }
        let s = match self {
            BinaryOp::Add => String::from_str("+"),
            BinaryOp::Sub => String::from_str("-"),
            BinaryOp::Mul => String::from_str("*"),
            BinaryOp::Mod => String::from_str("%"),
            BinaryOp::Div => String::from_str("/"),
            BinaryOp::Exp => String::from_str("^"),
        };
        assert(s@ =~= self.text());
        s
    }
}

impl TokenView {
    /// How the token is written: the character it came from, or the number.
    pub open spec fn text(self) -> Seq<char> {
        match self {
            TokenView::StartBlock(s) => s.text(),
            TokenView::EndBlock(e) => e.text(),
            TokenView::UnaryOperatorLeft(u) => u.text(),
            TokenView::UnaryOperatorRight(u) => u.text(),
            TokenView::BinaryOperator(b) => b.text(),
            TokenView::Number(q) => rational_text(q),
        }
    }
}

impl Text for Token {
    open spec fn text(&self) -> Seq<char> {
        self@.text()
    }

    fn to_string(&self) -> (s: String) {
        match self {
            Token::StartBlock(s) => s.to_string(),
            Token::EndBlock(e) => e.to_string(),
            Token::UnaryOperatorLeft(u) => u.to_string(),
            Token::UnaryOperatorRight(u) => u.to_string(),
            Token::BinaryOperator(b) => b.to_string(),
            Token::Number(n) => n.to_string(),
        }
    }
}

impl Text for TokenType {
    /// The name of the variant.
    open spec fn text(&self) -> Seq<char> {
        match self {
            TokenType::StartBlock => "StartBlock"@,
            TokenType::EndBlock => "EndBlock"@,
            TokenType::UnaryOperatorLeft => "UnaryOperatorLeft"@,
            TokenType::UnaryOperatorRight => "UnaryOperatorRight"@,
            TokenType::BinaryOperator => "BinaryOperator"@,
            TokenType::Number => "Number"@,
        }
    }

    fn to_string(&self) -> (s: String) {
        match self {
            TokenType::StartBlock => String::from_str("StartBlock"),
            TokenType::EndBlock => String::from_str("EndBlock"),
            TokenType::UnaryOperatorLeft => String::from_str("UnaryOperatorLeft"),
            TokenType::UnaryOperatorRight => String::from_str("UnaryOperatorRight"),
            TokenType::BinaryOperator => String::from_str("BinaryOperator"),
            TokenType::Number => String::from_str("Number"),
        }
    }
}

/// The variants of a run of tokens.
pub open spec fn token_types(tokens: Seq<TokenView>) -> Seq<TokenType> {
    tokens.map_values(|t: TokenView| t.token_type())
}

impl Token {
    /// The number that a literal writes, as a token.
    ///
    /// The literal is refused with `InvalidNumber`, which hands it back, where
    /// it writes no finite number.
    pub fn parse_num(str: &str) -> (res: Result<Self, Error>)
        ensures
            match literal_value(str@) {
                Some(q) => res matches Ok(t) && t@ == TokenView::Number(q),
                None => res matches Err(Error::Parse(ParseErr::InvalidNumber(lit))) && lit@
                    == str@,
            },
    {
        match Rational::from_str(str) {
            Some(num) => Ok(Token::Number(num)),
            None => Err(Error::Parse(ParseErr::InvalidNumber(String::from_str(str)))),
        }
    }

    /// The number in the token, if it is one.
    pub fn num(&self) -> (res: Option<&Rational>)
        ensures
            match self@ {
                TokenView::Number(q) => res matches Some(n) && n@ == q,
                _ => res is None,
            },
    {
        match self {
            Token::Number(num) => Some(num),
            _ => None,
        }
    }

    /// The rank of the token among the operations.
    pub fn priority(&self) -> (p: usize)
        ensures
            p == self@.priority(),
    {
        match self {
            Token::StartBlock(_) => 0,
            Token::UnaryOperatorRight(_) => 1,
            Token::UnaryOperatorLeft(_) => 2,
            Token::BinaryOperator(op) => match op {
                BinaryOp::Exp => 3,
                BinaryOp::Mul | BinaryOp::Mod | BinaryOp::Div => 4,
                BinaryOp::Add | BinaryOp::Sub => 5,
            },
            _ => usize::MAX,
        }
    }

    /// Whether both tokens are of the same variant.
    pub fn eq_type(&self, other: &Self) -> (same: bool)
        ensures
            same == (self@.token_type() == other@.token_type()),
    {
        TokenType::from(self) == TokenType::from(other)
    }

    /// Whether the token is of the variant `other`.
    pub fn eq_tokentype(&self, other: &TokenType) -> (same: bool)
        ensures
            same == (self@.token_type() == *other),
    {
        TokenType::from(self) == *other
    }
}

impl TokenType {
    /// Whether `other` is of this variant.
    pub fn eq_tokentype(&self, other: &Token) -> (same: bool)
        ensures
            same == (other@.token_type() == *self),
    {
        other.eq_tokentype(self)
    }
}

impl StartBlock {
    /// The closing delimiter of the same kind.
    pub open spec fn spec_corrisp(&self) -> EndBlock {
        match self {
            StartBlock::Bracket => EndBlock::Bracket,
            StartBlock::Abs => EndBlock::Abs,
        }
    }

    /// The closing delimiter of the same kind.
    #[verifier::when_used_as_spec(spec_corrisp)]
    pub fn corrisp(&self) -> (end: EndBlock)
        ensures
            end == self.spec_corrisp(),
    {
        match self {
            StartBlock::Bracket => EndBlock::Bracket,
            StartBlock::Abs => EndBlock::Abs,
        }
    }

    /// Whether `other` closes what this delimiter opens.
    pub fn is_corrisp(&self, other: EndBlock) -> (same: bool)
        ensures
            same == (self.spec_corrisp() == other),
    {
        self.corrisp() == other
    }
}

impl EndBlock {
    /// The opening delimiter of the same kind.
    pub open spec fn spec_corrisp(&self) -> StartBlock {
        match self {
            EndBlock::Bracket => StartBlock::Bracket,
            EndBlock::Abs => StartBlock::Abs,
        }
    }

    /// The opening delimiter of the same kind.
    #[verifier::when_used_as_spec(spec_corrisp)]
    pub fn corrisp(&self) -> (start: StartBlock)
        ensures
            start == self.spec_corrisp(),
    {
        match self {
            EndBlock::Bracket => StartBlock::Bracket,
            EndBlock::Abs => StartBlock::Abs,
        }
    }

    /// Whether `other` opens what this delimiter closes.
    pub fn is_corrisp(&self, other: StartBlock) -> (same: bool)
        ensures
            same == (self.spec_corrisp() == other),
    {
        self.corrisp() == other
    }
}

} // verus!
