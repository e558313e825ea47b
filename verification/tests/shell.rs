use calculator::expression::solver::{CheckRules, FixRules};
use calculator::shell::{command, help, parse_u64, split_words, u64_text, Command, Options};
use calculator::types::rational::Rational;

#[test]
fn options_begin_with_every_fix_and_no_check() {
    let opt = Options::default();
    assert!(opt.show_dec);
    assert_eq!(opt.dec_len, 20);
    assert_eq!(opt.checks, vec![]);
    assert_eq!(opt.fixes, FixRules::ALL.to_vec());
}

#[test]
fn set_changes_one_option() {
    let mut opt = Options::default();
    assert_eq!(
        opt.change("set show-dec false"),
        Ok(String::from("successfully setted 'show-dec' to false"))
    );
    assert!(!opt.show_dec);
    assert_eq!(
        opt.change("set show_dec true"),
        Ok(String::from("successfully setted 'show-dec' to true"))
    );
    assert!(opt.show_dec);
    assert_eq!(
        opt.change("set dec-len 7"),
        Ok(String::from("successfully setted 'dec_len' to 7"))
    );
    assert_eq!(opt.dec_len, 7);
    assert_eq!(
        opt.change("set   dec_len   +100  "),
        Ok(String::from("successfully setted 'dec_len' to 100"))
    );
    assert_eq!(opt.dec_len, 100);
    assert_eq!(
        opt.change("set checks all"),
        Ok(String::from("successfully setted 'checks' to all"))
    );
    assert_eq!(opt.checks, CheckRules::ALL.to_vec());
    assert_eq!(
        opt.change("set fixes none"),
        Ok(String::from("successfully setted 'fixes' to none"))
    );
    assert_eq!(opt.fixes, vec![]);
    assert_eq!(
        opt.change("set checks none"),
        Ok(String::from("successfully setted 'checks' to none"))
    );
    assert_eq!(opt.checks, vec![]);
    assert_eq!(
        opt.change("set fixes all"),
        Ok(String::from("successfully setted 'fixes' to all"))
    );
    assert_eq!(opt.fixes, FixRules::ALL.to_vec());
}

#[test]
fn set_without_value_resets() {
    let mut opt = Options::default();
    opt.change("set show-dec false").unwrap();
    opt.change("set dec-len 3").unwrap();
    opt.change("set checks all").unwrap();
    opt.change("set fixes none").unwrap();
    assert_eq!(opt.change("set dec-len"), Ok(String::from("successfully resetted 'dec-len'")));
    assert_eq!(opt.dec_len, 20);
    assert_eq!(opt.change("set show-dec"), Ok(String::from("successfully resetted 'show-dec'")));
    assert!(opt.show_dec);
    assert_eq!(opt.change("set checks"), Ok(String::from("successfully resetted 'checks'")));
    assert_eq!(opt.checks, vec![]);
    assert_eq!(opt.change("set fixes"), Ok(String::from("successfully resetted 'fixes'")));
    assert_eq!(opt.fixes, FixRules::ALL.to_vec());
    opt.change("set dec-len 3").unwrap();
    assert_eq!(opt.change("set"), Ok(String::from("successfully resetted all options")));
    assert_eq!(opt.dec_len, 20);
}

#[test]
fn set_refuses_what_it_does_not_know() {
    let mut opt = Options::default();
    assert_eq!(opt.change("set colour red"), Err(String::from("'colour' is not a valid option!")));
    assert_eq!(opt.change("set show-dec yes"), Err(String::from("'yes' is not a valid value!")));
    assert_eq!(opt.change("set dec-len ten"), Err(String::from("'ten' is not a valid value!")));
    assert_eq!(opt.change("set dec-len 101"), Err(String::from("101 is too big!")));
    assert_eq!(
        opt.change("set dec-len 99999999999999999999"),
        Err(String::from("'99999999999999999999' is not a valid value!"))
    );
    assert_eq!(opt.change("set checks some"), Err(String::from("'some' is not a valid value!")));
    assert_eq!(opt.change("set fixes some"), Err(String::from("'some' is not a valid value!")));
    assert!(opt.show_dec);
    assert_eq!(opt.dec_len, 20);
}

#[test]
fn show_opt_shows_one_option_or_all() {
    let mut opt = Options::default();
    opt.change("set checks all").unwrap();
    assert_eq!(opt.show_opt("show-opt show-dec"), "show-dec is 'true'");
    assert_eq!(opt.show_opt("show-opt dec_len"), "dec-len is '20'");
    assert_eq!(opt.show_opt("show-opt fixes"), "fixes is '[BlockProduct, CloseBlocks]'");
    assert_eq!(
        opt.show_opt("show-opt checks"),
        format!("checks is '{:?}'", CheckRules::ALL.to_vec())
    );
    opt.change("set checks none").unwrap();
    assert_eq!(
        opt.show_opt("show-opt"),
        "show-dec is 'true'\ndec-len is '20'\nchecks is '[]'\nfixes is '[BlockProduct, CloseBlocks]'"
    );
}

#[test]
fn first_word_is_the_command() {
    assert_eq!(command(""), Command::Nothing);
    assert_eq!(command("   \t"), Command::Nothing);
    assert_eq!(command("exit"), Command::Exit);
    assert_eq!(command("  clear  "), Command::Clear);
    assert_eq!(command("help me"), Command::Help);
    assert_eq!(command("set dec-len 3"), Command::Change);
    assert_eq!(command("show-opt"), Command::ShowOpt);
    assert_eq!(command("show_opt fixes"), Command::ShowOpt);
    assert_eq!(command("1 + 2"), Command::Solve);
    assert_eq!(command("exit()"), Command::Solve);
}

#[test]
fn help_names_every_command() {
    let text = help();
    for word in ["exit", "clear", "help", "set", "show-opt", "show-dec", "dec-len", "checks", "fixes"] {
        assert!(text.contains(word));
    }
    assert!(text.starts_with("Commands:\n  - exit "));
    assert!(text.ends_with("change FixRules\n"));
}

#[test]
fn words_are_split_at_whitespace() {
    assert_eq!(split_words("  set\tdec-len\u{2003}12 \n"), vec!["set", "dec-len", "12"]);
    assert_eq!(split_words(""), Vec::<String>::new());
    assert_eq!(
        split_words("a b  c"),
        "a b  c".split_whitespace().map(String::from).collect::<Vec<_>>()
    );
}

#[test]
fn numbers_are_read_as_std_reads_them() {
    for text in ["0", "007", "+5", "18446744073709551615", "18446744073709551616", "", "+", "-1", "1_0", " 1", "12a"] {
        assert_eq!(parse_u64(text), text.parse::<u64>().ok(), "{:?}", text);
    }
}

#[test]
fn numbers_are_written_in_decimal() {
    for n in [0u64, 7, 10, 99, 100, 12345, u64::MAX] {
        assert_eq!(u64_text(n), n.to_string());
    }
}

#[test]
fn decimals_have_the_places_asked_for() {
    let mut opt = Options::default();
    opt.change("set dec-len 4").unwrap();
    assert_eq!(opt.as_decimal(&Rational::from_str("2/3").unwrap()), "0.6666");
    assert_eq!(opt.as_decimal(&Rational::from_str("-1.75").unwrap()), "-1.75");
    assert_eq!(Rational::from_i64(3).to_decimal(2), "3");
}
