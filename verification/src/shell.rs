//! The options of a session, and the commands that change and show them.
//!
//! Reading lines and printing is left to the program around the library: the
//! functions here take a line and hand back what is to be printed.

use crate::common::{fmt, joined, push_char, texts, Text};
use crate::expression::solver::{CheckRules, FixRules};
use crate::expression::tokenizer::{char_is_whitespace, is_whitespace, string_of};
use crate::types::decimal::{all_digits, decimal_number, decimal_text, is_digit};
use crate::types::rational::{decimal_rendering, Rational};
use vstd::prelude::*;
use vstd::string::StringExecFns;

verus! {

/// What a splitter knows between two characters.
pub struct Splitter {
    /// The words that are complete.
    pub words: Seq<Seq<char>>,
    /// The characters of the word that is being read.
    pub word: Seq<char>,
}

impl Splitter {
    /// The pending word, if there is one, joins the complete ones.
    pub open spec fn close(self) -> Splitter {
        if self.word.len() == 0 {
            self
        } else {
            Splitter { words: self.words.push(self.word), word: Seq::empty() }
        }
    }

    /// Reads one character.
    pub open spec fn read(self, c: char) -> Splitter {
        if is_whitespace(c) {
            self.close()
        } else {
            Splitter { words: self.words, word: self.word.push(c) }
        }
    }

    /// Reads the first `n` characters of `line`.
    pub open spec fn read_prefix(line: Seq<char>, n: nat) -> Splitter
        decreases n,
    {
        if n == 0 {
            Splitter { words: Seq::empty(), word: Seq::empty() }
        } else {
            Splitter::read_prefix(line, (n - 1) as nat).read(line[n - 1])
        }
    }
}

/// The words of `line`: its longest runs of characters that are no whitespace.
pub open spec fn words(line: Seq<char>) -> Seq<Seq<char>> {
    Splitter::read_prefix(line, line.len()).close().words
}

/// The word at position `k`, or the empty word where there is none.
pub open spec fn word_at(words: Seq<Seq<char>>, k: int) -> Seq<char> {
    if 0 <= k < words.len() {
        words[k]
    } else {
        Seq::empty()
    }
}

/// The views of `words`.
pub open spec fn word_views(words: Seq<String>) -> Seq<Seq<char>> {
    words.map_values(|w: String| w@)
}

/// Splits `line` into its words.
pub fn split_words(line: &str) -> (res: Vec<String>)
    ensures
        word_views(res@) == words(line@),
{
    let mut res: Vec<String> = Vec::new();
    let mut word: Vec<char> = Vec::new();
    assert(word_views(res@) =~= Seq::<Seq<char>>::empty());
    for c in it: line.chars()
        invariant
            it.seq() == line@,
            Splitter::read_prefix(line@, it.index() as nat) == (Splitter {
                words: word_views(res@),
                word: word@,
            }),
    {
        assert(c == line@[it.index() as int]);
        if char_is_whitespace(c) {
            if word.len() > 0 {
                let text = string_of(&word);
                assert(word_views(res@.push(text)) =~= word_views(res@).push(word@));
                res.push(text);
                word.clear();
            }
            assert(word@ =~= Seq::<char>::empty());
        } else {
            word.push(c);
        }
    }
    if word.len() > 0 {
        let text = string_of(&word);
        assert(word_views(res@.push(text)) =~= word_views(res@).push(word@));
        res.push(text);
    }
    res
}

/// The number that `text` writes, as `u64::from_str` reads it: decimal
/// digits, behind a `+` or not, of a number up to `u64::MAX`.
pub open spec fn u64_of(text: Seq<char>) -> Option<u64> {
    let digits = if text.len() > 0 && text[0] == '+' {
        text.drop_first()
    } else {
        text
    };
    if digits.len() > 0 && all_digits(digits) && decimal_number(digits) <= u64::MAX {
        Some(decimal_number(digits) as u64)
    } else {
        None
    }
}

/// A number only grows with more digits.
proof fn lemma_number_grows(s: Seq<char>, n: int)
    requires
        0 <= n <= s.len(),
    ensures
        decimal_number(s.take(n)) <= decimal_number(s),
    decreases s.len(),
{
    if n < s.len() {
        lemma_number_grows(s.drop_last(), n);
        assert(s.drop_last().take(n) =~= s.take(n));
    } else {
        assert(s.take(n) =~= s);
    }
}

/// Reads a `u64`.
pub fn parse_u64(text: &str) -> (res: Option<u64>)
    ensures
        res == u64_of(text@),
{
    let n = text.unicode_len();
    let start: usize = if n > 0 && text.get_char(0) == '+' {
        1
    } else {
        0
    };
    let ghost digits = text@.skip(start as int);
    proof {
        if start == 1 {
            assert(digits =~= text@.drop_first());
        } else {
            assert(digits =~= text@);
        }
    }
    if start == n {
        return None;
    }
    let mut value: u64 = 0;
    let mut i: usize = start;
    assert(digits.take(0) =~= Seq::<char>::empty());
    while i < n
        invariant
            start <= i <= n,
            n == text@.len(),
            digits == text@.skip(start as int),
            digits == (if text@.len() > 0 && text@[0] == '+' {
                text@.drop_first()
            } else {
                text@
            }),
            all_digits(digits.take(i - start)),
            value == decimal_number(digits.take(i - start)),
        decreases n - i,
    {
        let c = text.get_char(i);
        let ghost next = digits.take(i - start + 1);
        proof {
            assert(next.drop_last() =~= digits.take(i - start));
            assert(next.last() == c);
            assert(digits[i - start] == c);
        }
        if !(c >= '0' && c <= '9') {
            assert(!is_digit(digits[i - start]));
            return None;
        }
        let d: u64 = (c as u32 - '0' as u32) as u64;
        proof {
            assert(all_digits(next)) by {
                assert forall|j: int| 0 <= j < next.len() implies is_digit(#[trigger] next[j]) by {
                    if j < next.len() - 1 {
                        assert(next[j] == digits.take(i - start)[j]);
                    }
                }
            }
            lemma_number_grows(digits, i - start + 1);
            assert(decimal_number(next) == 10 * value + d);
        }
        if value > (u64::MAX - d) / 10 {
            return None;
        }
        value = value * 10 + d;
        i += 1;
    }
    assert(digits.take(n - start) =~= digits);
    Some(value)
}

/// The decimal digits of `n`.
pub fn u64_text(n: u64) -> (res: String)
    ensures
        res@ == decimal_text(n as nat),
    decreases n,
{
    let d: u64 = n % 10;
    let c: char = if d == 0 {
        '0'
    } else if d == 1 {
        '1'
    } else if d == 2 {
        '2'
    } else if d == 3 {
        '3'
    } else if d == 4 {
        '4'
    } else if d == 5 {
        '5'
    } else if d == 6 {
        '6'
    } else if d == 7 {
        '7'
    } else if d == 8 {
        '8'
    } else {
        '9'
    };
    let mut res = if n < 10 {
        String::new()
    } else {
        u64_text(n / 10)
    };
    push_char(&mut res, c);
    assert(n < 10 ==> res@ =~= seq![c]);
    res
}

/// The options of a session.
#[derive(Debug)]
pub struct Options {
    /// Whether results are shown as decimal numbers too.
    pub show_dec: bool,
    /// How many decimal places a result is shown with.
    pub dec_len: u64,
    /// The restrictions in force.
    pub checks: Vec<CheckRules>,
    /// The repairs in force.
    pub fixes: Vec<FixRules>,
}

/// `Options` as the contracts see them.
pub struct OptionsView {
    pub show_dec: bool,
    pub dec_len: u64,
    pub checks: Seq<CheckRules>,
    pub fixes: Seq<FixRules>,
}

impl View for Options {
    type V = OptionsView;

    open spec fn view(&self) -> OptionsView {
        OptionsView {
            show_dec: self.show_dec,
            dec_len: self.dec_len,
            checks: self.checks@,
            fixes: self.fixes@,
        }
    }
}

/// Every restriction.
pub open spec fn all_checks() -> Seq<CheckRules> {
    seq![
        CheckRules::DenyMultipleSign,
        CheckRules::DenyAllMultipleSign,
        CheckRules::DenyDivision,
        CheckRules::DenyModule,
        CheckRules::DenyExponent,
        CheckRules::DenyFactorial,
        CheckRules::DenyDerangement,
    ]
}

/// Every repair.
pub open spec fn all_fixes() -> Seq<FixRules> {
    seq![FixRules::BlockProduct, FixRules::CloseBlocks]
}

fn every_check() -> (res: Vec<CheckRules>)
    ensures
        res@ == all_checks(),
{
    let mut res: Vec<CheckRules> = Vec::new();
    res.push(CheckRules::DenyMultipleSign);
    res.push(CheckRules::DenyAllMultipleSign);
    res.push(CheckRules::DenyDivision);
    res.push(CheckRules::DenyModule);
    res.push(CheckRules::DenyExponent);
    res.push(CheckRules::DenyFactorial);
    res.push(CheckRules::DenyDerangement);
    assert(res@ =~= all_checks());
    res
}

fn every_fix() -> (res: Vec<FixRules>)
    ensures
        res@ == all_fixes(),
{
    let mut res: Vec<FixRules> = Vec::new();
    res.push(FixRules::BlockProduct);
    res.push(FixRules::CloseBlocks);
    assert(res@ =~= all_fixes());
    res
}

impl OptionsView {
    /// The options a session begins with: decimals shown with twenty places,
    /// no restriction, every repair.
    pub open spec fn initial() -> OptionsView {
        OptionsView { show_dec: true, dec_len: 20, checks: Seq::empty(), fixes: all_fixes() }
    }

    /// The options after the command `set` with the words `opt` and `value`
    /// behind it, and the answer to it: what was done, or why nothing was.
    pub open spec fn changed(self, opt: Seq<char>, value: Seq<char>) -> (
        OptionsView,
        Result<Seq<char>, Seq<char>>,
    ) {
        let bad_value = Err::<Seq<char>, Seq<char>>("'"@ + value + "' is not a valid value!"@);
        if opt.len() == 0 {
            (OptionsView::initial(), Ok("successfully resetted all options"@))
        } else if opt == "show_dec"@ || opt == "show-dec"@ {
            if value.len() == 0 {
                (OptionsView { show_dec: true, ..self }, Ok("successfully resetted 'show-dec'"@))
            } else if value == "true"@ {
                (
                    OptionsView { show_dec: true, ..self },
                    Ok("successfully setted 'show-dec' to true"@),
                )
            } else if value == "false"@ {
                (
                    OptionsView { show_dec: false, ..self },
                    Ok("successfully setted 'show-dec' to false"@),
                )
            } else {
                (self, bad_value)
            }
        } else if opt == "dec_len"@ || opt == "dec-len"@ {
            if value.len() == 0 {
                (OptionsView { dec_len: 20, ..self }, Ok("successfully resetted 'dec-len'"@))
            } else {
                match u64_of(value) {
                    Some(n) => if n > 100 {
                        (self, Err(decimal_text(n as nat) + " is too big!"@))
                    } else {
                        (
                            OptionsView { dec_len: n, ..self },
                            Ok("successfully setted 'dec_len' to "@ + decimal_text(n as nat)),
                        )
                    },
                    None => (self, bad_value),
                }
            }
        } else if opt == "checks"@ {
            if value.len() == 0 {
                (
                    OptionsView { checks: Seq::empty(), ..self },
                    Ok("successfully resetted 'checks'"@),
                )
            } else if value == "none"@ {
                (
                    OptionsView { checks: Seq::empty(), ..self },
                    Ok("successfully setted 'checks' to none"@),
                )
            } else if value == "all"@ {
                (
                    OptionsView { checks: all_checks(), ..self },
                    Ok("successfully setted 'checks' to all"@),
                )
            } else {
                (self, bad_value)
            }
        } else if opt == "fixes"@ {
            if value.len() == 0 {
                (OptionsView { fixes: all_fixes(), ..self }, Ok("successfully resetted 'fixes'"@))
            } else if value == "none"@ {
                (
                    OptionsView { fixes: Seq::empty(), ..self },
                    Ok("successfully setted 'fixes' to none"@),
                )
            } else if value == "all"@ {
                (
                    OptionsView { fixes: all_fixes(), ..self },
                    Ok("successfully setted 'fixes' to all"@),
                )
            } else {
                (self, bad_value)
            }
        } else {
            (self, Err("'"@ + opt + "' is not a valid option!"@))
        }
    }
}

/// How a truth value is written.
pub open spec fn bool_text(b: bool) -> Seq<char> {
    if b {
        "true"@
    } else {
        "false"@
    }
}

/// How a list of values is written: in square brackets, with a comma and a
/// space between each two of them.
pub open spec fn list_text<T: Text>(items: Seq<T>) -> Seq<char> {
    "["@ + joined(texts(items), ", "@) + "]"@
}

impl OptionsView {
    /// What is shown of the option `show-dec`.
    pub open spec fn shown_show_dec(self) -> Seq<char> {
        "show-dec is '"@ + bool_text(self.show_dec) + "'"@
    }

    /// What is shown of the option `dec-len`.
    pub open spec fn shown_dec_len(self) -> Seq<char> {
        "dec-len is '"@ + decimal_text(self.dec_len as nat) + "'"@
    }

    /// What is shown of the option `checks`.
    pub open spec fn shown_checks(self) -> Seq<char> {
        "checks is '"@ + list_text(self.checks) + "'"@
    }

    /// What is shown of the option `fixes`.
    pub open spec fn shown_fixes(self) -> Seq<char> {
        "fixes is '"@ + list_text(self.fixes) + "'"@
    }

    /// What is shown of the option `name`, or, where `name` names none, of
    /// all four, one to a line.
    pub open spec fn shown(self, name: Seq<char>) -> Seq<char> {
        if name == "show-dec"@ || name == "show_dec"@ {
            self.shown_show_dec()
        } else if name == "dec-len"@ || name == "dec_len"@ {
            self.shown_dec_len()
        } else if name == "checks"@ {
            self.shown_checks()
        } else if name == "fixes"@ {
            self.shown_fixes()
        } else {
            self.shown_show_dec() + "\n"@ + self.shown_dec_len() + "\n"@ + self.shown_checks()
                + "\n"@ + self.shown_fixes()
        }
    }
}

/// What a line asks for.
#[derive(Debug, Clone, Copy, PartialEq, Eq, Structural)]
pub enum Command {
    /// Nothing: the line holds no word.
    Nothing,
    /// To end the session.
    Exit,
    /// To clear the terminal.
    Clear,
    /// To show the help.
    Help,
    /// To change an option.
    Change,
    /// To show the options.
    ShowOpt,
    /// To evaluate the line as an expression.
    Solve,
}

/// What the line with the words `words` asks for: its first word decides.
pub open spec fn command_of(words: Seq<Seq<char>>) -> Command {
    let first = word_at(words, 0);
    if first.len() == 0 {
        Command::Nothing
    } else if first == "exit"@ {
        Command::Exit
    } else if first == "clear"@ {
        Command::Clear
    } else if first == "help"@ {
        Command::Help
    } else if first == "set"@ {
        Command::Change
    } else if first == "show-opt"@ || first == "show_opt"@ {
        Command::ShowOpt
    } else {
        Command::Solve
    }
}

/// What `line` asks for.
pub fn command(line: &str) -> (res: Command)
    ensures
        res == command_of(words(line@)),
{
    let args = split_words(line);
    let first = word_of(&args, 0);
    if is_empty_word(&first) {
        Command::Nothing
    } else if is_word(&first, "exit") {
        Command::Exit
    } else if is_word(&first, "clear") {
        Command::Clear
    } else if is_word(&first, "help") {
        Command::Help
    } else if is_word(&first, "set") {
        Command::Change
    } else if is_word(&first, "show-opt") || is_word(&first, "show_opt") {
        Command::ShowOpt
    } else {
        Command::Solve
    }
}

/// The text of the help.
pub open spec fn help_text() -> Seq<char> {
    "Commands:
  - exit                => close shell
  - clear               => clear terminal
  - help                => show this help message
  - set* [opt] [value]  => change options
  - show-opt            => show current options
  - *                   => parse as an expression

*set options:
  - show-dec [true|false]   => show/hide solution as a decimal value
  - dec-len  [(integer)]    => decimal solution precision
  - checks   [none|all]     => change CheckRules
  - fixes    [none|all]     => change FixRules
"@
}

/// The help.
pub fn help() -> (res: String)
    ensures
        res@ == help_text(),
{
    String::from_str(
        "Commands:
  - exit                => close shell
  - clear               => clear terminal
  - help                => show this help message
  - set* [opt] [value]  => change options
  - show-opt            => show current options
  - *                   => parse as an expression

*set options:
  - show-dec [true|false]   => show/hide solution as a decimal value
  - dec-len  [(integer)]    => decimal solution precision
  - checks   [none|all]     => change CheckRules
  - fixes    [none|all]     => change FixRules
",
    )
}

/// The view of an answer.
pub open spec fn answer_view(answer: Result<String, String>) -> Result<Seq<char>, Seq<char>> {
    match answer {
        Ok(s) => Ok(s@),
        Err(s) => Err(s@),
    }
}

/// The literals that open and close what is shown of a list.
proof fn lemma_brackets()
    ensures
        "checks is '["@ == "checks is '"@ + "["@,
        "fixes is '["@ == "fixes is '"@ + "["@,
        "]'"@ == "]"@ + "'"@,
{
    reveal_strlit("checks is '[");
    reveal_strlit("checks is '");
    reveal_strlit("fixes is '[");
    reveal_strlit("fixes is '");
    reveal_strlit("[");
    reveal_strlit("]'");
    reveal_strlit("]");
    reveal_strlit("'");
    assert("checks is '["@ =~= "checks is '"@ + "["@);
    assert("fixes is '["@ =~= "fixes is '"@ + "["@);
    assert("]'"@ =~= "]"@ + "'"@);
}

fn is_word(word: &String, text: &str) -> (same: bool)
    ensures
        same == (word@ == text@),
{
    let other = String::from_str(text);
    *word == other
}

fn is_empty_word(word: &String) -> (empty: bool)
    ensures
        empty == (word@.len() == 0),
{
    word.as_str().unicode_len() == 0
}

/// The word at position `k`, or the empty word where there is none.
fn word_of(words: &Vec<String>, k: usize) -> (word: String)
    ensures
        word@ == word_at(word_views(words@), k as int),
{
    if k < words.len() {
        words[k].clone()
    } else {
        let word = String::new();
        assert(word@ =~= Seq::<char>::empty());
        word
    }
}

impl Default for Options {
    fn default() -> (res: Self)
        ensures
            res@ == OptionsView::initial(),
    {
        Options { show_dec: true, dec_len: 20, checks: Vec::new(), fixes: every_fix() }
    }
}

impl Options {
    /// The most decimal places that can be asked for.
    pub const MAX_DEC_LEN: u64 = 100;

    fn show_dec_line(&self) -> (res: String)
        ensures
            res@ == self@.shown_show_dec(),
    {
        let mut res = String::from_str("show-dec is '");
        if self.show_dec {
            res.append("true");
        } else {
            res.append("false");
        }
        res.append("'");
        res
    }

    fn dec_len_line(&self) -> (res: String)
        ensures
            res@ == self@.shown_dec_len(),
    {
        let mut res = String::from_str("dec-len is '");
        res.append(u64_text(self.dec_len).as_str());
        res.append("'");
        res
    }

    fn checks_line(&self) -> (res: String)
        ensures
            res@ == self@.shown_checks(),
    {
        let mut res = String::from_str("checks is '[");
        res.append(fmt(self.checks.as_slice(), Some(", ")).as_str());
        res.append("]'");
        proof {
            lemma_brackets();
        }
        assert(res@ =~= self@.shown_checks());
        res
    }

    fn fixes_line(&self) -> (res: String)
        ensures
            res@ == self@.shown_fixes(),
    {
        let mut res = String::from_str("fixes is '[");
        res.append(fmt(self.fixes.as_slice(), Some(", ")).as_str());
        res.append("]'");
        proof {
            lemma_brackets();
        }
        assert(res@ =~= self@.shown_fixes());
        res
    }

    /// What is to be shown for the command `line`, whose first word is the
    /// command and whose second may name an option.
    pub fn show_opt(&self, line: &str) -> (res: String)
        ensures
            res@ == self@.shown(word_at(words(line@), 1)),
    {
        let args = split_words(line);
        let value = word_of(&args, 1);
        if is_word(&value, "show-dec") || is_word(&value, "show_dec") {
            self.show_dec_line()
        } else if is_word(&value, "dec-len") || is_word(&value, "dec_len") {
            self.dec_len_line()
        } else if is_word(&value, "checks") {
            self.checks_line()
        } else if is_word(&value, "fixes") {
            self.fixes_line()
        } else {
            let mut res = self.show_dec_line();
            res.append("\n");
            res.append(self.dec_len_line().as_str());
            res.append("\n");
            res.append(self.checks_line().as_str());
            res.append("\n");
            res.append(self.fixes_line().as_str());
            res
        }
    }

    /// `num` as a decimal number with as many places as the options ask for.
    pub fn as_decimal(&self, num: &Rational) -> (res: String)
        requires
            self.dec_len <= usize::MAX,
        ensures
            res@ == decimal_rendering(num@.num, num@.den, self.dec_len as nat),
    {
        num.to_decimal(self.dec_len as usize)
    }

    /// Carries out the command `line`, whose first word is the command `set`,
    /// whose second names an option and whose third gives its new value.
    ///
    /// Without a value the option goes back to what a session begins with,
    /// and without an option all of them do. Answers with what was done, or,
    /// with the options as they were, with why nothing was done.
    pub fn change(&mut self, line: &str) -> (answer: Result<String, String>)
        ensures
            (final(self)@, answer_view(answer)) == old(self)@.changed(
                word_at(words(line@), 1),
                word_at(words(line@), 2),
            ),
    {
        let args = split_words(line);
        let opt = word_of(&args, 1);
        let value = word_of(&args, 2);
        if is_empty_word(&opt) {
            *self = Options::default();
            return Ok(String::from_str("successfully resetted all options"));
        }
        let mut value_err = String::from_str("'");
        value_err.append(value.as_str());
        value_err.append("' is not a valid value!");
        if is_word(&opt, "show_dec") || is_word(&opt, "show-dec") {
            if is_empty_word(&value) {
                self.show_dec = true;
                Ok(String::from_str("successfully resetted 'show-dec'"))
            } else if is_word(&value, "true") {
                self.show_dec = true;
                Ok(String::from_str("successfully setted 'show-dec' to true"))
            } else if is_word(&value, "false") {
                self.show_dec = false;
                Ok(String::from_str("successfully setted 'show-dec' to false"))
            } else {
                Err(value_err)
            }
        } else if is_word(&opt, "dec_len") || is_word(&opt, "dec-len") {
            if is_empty_word(&value) {
                self.dec_len = 20;
                Ok(String::from_str("successfully resetted 'dec-len'"))
            } else {
                match parse_u64(value.as_str()) {
                    Some(n) => {
                        if n > Self::MAX_DEC_LEN {
                            let mut s = u64_text(n);
                            s.append(" is too big!");
                            Err(s)
                        } else {
                            self.dec_len = n;
                            let mut s = String::from_str("successfully setted 'dec_len' to ");
                            s.append(u64_text(n).as_str());
                            Ok(s)
                        }
                    },
                    None => Err(value_err),
                }
            }
        } else if is_word(&opt, "checks") {
            if is_empty_word(&value) {
                self.checks = Vec::new();
                Ok(String::from_str("successfully resetted 'checks'"))
            } else if is_word(&value, "none") {
                self.checks = Vec::new();
                Ok(String::from_str("successfully setted 'checks' to none"))
            } else if is_word(&value, "all") {
                self.checks = every_check();
                Ok(String::from_str("successfully setted 'checks' to all"))
            } else {
                Err(value_err)
            }
        } else if is_word(&opt, "fixes") {
            if is_empty_word(&value) {
                self.fixes = every_fix();
                Ok(String::from_str("successfully resetted 'fixes'"))
            } else if is_word(&value, "none") {
                self.fixes = Vec::new();
                Ok(String::from_str("successfully setted 'fixes' to none"))
            } else if is_word(&value, "all") {
                self.fixes = every_fix();
                Ok(String::from_str("successfully setted 'fixes' to all"))
            } else {
                Err(value_err)
            }
        } else {
            let mut s = String::from_str("'");
            s.append(opt.as_str());
            s.append("' is not a valid option!");
            Err(s)
        }
    }
}

} // verus!
