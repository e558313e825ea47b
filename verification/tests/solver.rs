use calculator::expression::error::{CheckErr, Error, ParseErr, SolveErr};
use calculator::expression::solver::{
    calculate, check_rules, fix_tokens, next_operation, parse, parse_tokens, resolve, solve,
    solve_next, CheckRules, FixRules,
};
use calculator::expression::token::{
    BinaryOp, EndBlock, StartBlock, Token, TokenType, UnaryOpLeft, UnaryOpRight,
};
use calculator::types::rational::Rational;

#[test]
fn test_parsing() -> Result<(), Error> {
    let actual_res1 = parse_tokens("(||||)()")?;
    let expected_res1 = vec![
        Token::from(StartBlock::Bracket),
        Token::from(StartBlock::Abs),
        Token::from(EndBlock::Abs),
        Token::from(StartBlock::Abs),
        Token::from(EndBlock::Abs),
        Token::from(EndBlock::Bracket),
        Token::from(StartBlock::Bracket),
        Token::from(EndBlock::Bracket),
    ];
    let actual_res2 = parse_tokens("1 -5 *-(|-37|*4.8)+5 %99/7")?;
    let expected_res2 = vec![
        Token::parse_num("1")?,
        Token::from(BinaryOp::Sub),
        Token::parse_num("5")?,
        Token::from(BinaryOp::Mul),
        Token::from(UnaryOpLeft::Neg),
        Token::from(StartBlock::Bracket),
        Token::from(StartBlock::Abs),
        Token::from(UnaryOpLeft::Neg),
        Token::parse_num("37")?,
        Token::from(EndBlock::Abs),
        Token::from(BinaryOp::Mul),
        Token::parse_num("4.8")?,
        Token::from(EndBlock::Bracket),
        Token::from(BinaryOp::Add),
        Token::parse_num("5")?,
        Token::from(BinaryOp::Mod),
        Token::parse_num("99")?,
        Token::from(BinaryOp::Div),
        Token::parse_num("7")?,
    ];
    assert_eq!(expected_res1, actual_res1);
    assert_eq!(expected_res2, actual_res2);
    Ok(())
}

#[test]
fn test_fix() -> Result<(), Error> {
    let rule1 = &[FixRules::BlockProduct];
    let rule2 = &[FixRules::CloseBlocks];
    let mut actual_tokens_rule1 = parse_tokens("()(())||")?;
    fix_tokens(&mut actual_tokens_rule1, rule1);
    let expected_tokens_rule1 = vec![
        Token::from(StartBlock::Bracket),
        Token::from(EndBlock::Bracket),
        Token::from(BinaryOp::Mul),
        Token::from(StartBlock::Bracket),
        Token::from(StartBlock::Bracket),
        Token::from(EndBlock::Bracket),
        Token::from(EndBlock::Bracket),
        Token::from(BinaryOp::Mul),
        Token::from(StartBlock::Abs),
        Token::from(EndBlock::Abs),
    ];
    let mut actual_tokens_rule2 = parse_tokens("(|(")?;
    fix_tokens(&mut actual_tokens_rule2, rule2);
    let expected_tokens_rule2 = vec![
        Token::from(StartBlock::Bracket),
        Token::from(StartBlock::Abs),
        Token::from(StartBlock::Bracket),
        Token::from(EndBlock::Bracket),
        Token::from(EndBlock::Abs),
        Token::from(EndBlock::Bracket),
    ];
    assert_eq!(actual_tokens_rule1, expected_tokens_rule1);
    assert_eq!(actual_tokens_rule2, expected_tokens_rule2);
    assert_ne!(actual_tokens_rule1, expected_tokens_rule2);
    assert_ne!(actual_tokens_rule2, expected_tokens_rule1);
    Ok(())
}

#[test]
fn test_check() -> Result<(), Error> {
    let rule1 = &[CheckRules::DenyMultipleSign];
    let rule2 = &[CheckRules::DenyAllMultipleSign];
    let valid1 = check_rules(&parse_tokens("-+3.8*(1+|7|*-(5+|-1|))")?, &[]);
    let test_rule1_ok = check_rules(&parse_tokens("-3++5+-1-+4--2")?, rule1);
    let test_rule1_err = check_rules(&parse_tokens("--5")?, rule1);
    let test_rule2_ok = check_rules(&parse_tokens("-3+5")?, rule2);
    let test_rule2_err = check_rules(&parse_tokens("4--5")?, rule2);
    assert!(valid1.is_ok());
    assert!(test_rule1_ok.is_ok());
    assert!(test_rule1_err.is_err());
    assert!(test_rule2_ok.is_ok());
    assert!(test_rule2_err.is_err());
    Ok(())
}

#[test]
fn test_next_op() -> Result<(), Error> {
    let expr1 = parse("12+34*45", &FixRules::ALL, &[])?;
    let expr2 = parse("12+(12)", &FixRules::ALL, &[])?;
    let expr3 = parse("12+(12/34)", &FixRules::ALL, &[])?;
    assert_eq!(next_operation(&expr1), Some(3));
    assert_eq!(next_operation(&expr2), Some(2));
    assert_eq!(next_operation(&expr3), Some(4));
    Ok(())
}

#[test]
fn resolve_sum_and_product() {
    let value = resolve("12+34*45", &FixRules::ALL, &[]).unwrap();
    assert_eq!(value, Rational::from_i64(1542));
}

#[test]
fn resolve_absolute_value() {
    let value = resolve("-|-12|+34*45", &FixRules::ALL, &[]).unwrap();
    assert_eq!(value, Rational::from_i64(1518));
}

#[test]
fn check_empty_brackets_have_no_result() {
    let tokens = parse_tokens("13*()+9").unwrap();
    let verdict = check_rules(&tokens, &[]);
    assert_eq!(
        verdict,
        Err(Error::Check(CheckErr::ExprWithNoResult(vec![
            TokenType::Number,
            TokenType::BinaryOperator,
            TokenType::StartBlock,
            TokenType::EndBlock,
            TokenType::BinaryOperator,
            TokenType::Number,
        ])))
    );
}

#[test]
fn check_double_sign_breaks_rule() {
    let tokens = parse_tokens("--5").unwrap();
    let verdict = check_rules(&tokens, &[CheckRules::DenyMultipleSign]);
    assert_eq!(
        verdict,
        Err(Error::Check(CheckErr::BrokenCheckRule(CheckRules::DenyMultipleSign)))
    );
}

#[test]
fn resolve_division_by_zero_is_illegal() {
    let failure = resolve("3+4/0", &[], &[]).unwrap_err();
    match failure {
        Error::Solve(SolveErr::OperIllegalValues(tokens)) => {
            assert_eq!(
                tokens,
                vec![
                    Token::from(Rational::from_i64(4)),
                    Token::from(BinaryOp::Div),
                    Token::from(Rational::from_i64(0)),
                ]
            );
        }
        other => panic!("unexpected failure {:?}", other),
    }
    let failure = resolve("7 % (2-2)", &[], &[]).unwrap_err();
    assert!(matches!(failure, Error::Solve(SolveErr::OperIllegalValues(_))));
}

#[test]
fn parse_tokens_rejects_unknown_character() {
    assert_eq!(parse_tokens("1 + x"), Err(Error::Parse(ParseErr::InvalidToken('x'))));
}

#[test]
fn parse_tokens_rejects_bad_literal() {
    assert_eq!(
        parse_tokens("1 + 2..3"),
        Err(Error::Parse(ParseErr::InvalidNumber(String::from("2..3"))))
    );
}

#[test]
fn factorial_token_is_postfix() {
    let tokens = parse_tokens("3!").unwrap();
    assert_eq!(
        tokens,
        vec![Token::from(Rational::from_i64(3)), Token::from(UnaryOpRight::Fact)]
    );
    assert_eq!(resolve("3!", &[], &[]).unwrap(), Rational::from_i64(6));
}

#[test]
fn tokens_of_unbalanced_text() {
    assert_eq!(
        parse_tokens("())").unwrap(),
        vec![
            Token::from(StartBlock::Bracket),
            Token::from(EndBlock::Bracket),
            Token::from(EndBlock::Bracket),
        ]
    );
    assert_eq!(
        parse_tokens("|)|").unwrap(),
        vec![
            Token::from(StartBlock::Abs),
            Token::from(EndBlock::Bracket),
            Token::from(EndBlock::Abs),
        ]
    );
}

#[test]
fn check_rejects_blocks_that_do_not_nest() {
    let open = check_rules(&parse_tokens("(()").unwrap(), &[]);
    assert_eq!(
        open,
        Err(Error::Check(CheckErr::UnbalancedBlocks(vec![Token::from(StartBlock::Bracket)])))
    );
    let closed = check_rules(&parse_tokens("())").unwrap(), &[]);
    assert_eq!(
        closed,
        Err(Error::Check(CheckErr::UnbalancedBlocks(vec![Token::from(EndBlock::Bracket)])))
    );
    let crossed = check_rules(&parse_tokens(")(").unwrap(), &[]);
    assert_eq!(
        crossed,
        Err(Error::Check(CheckErr::UnbalancedBlocks(vec![Token::from(EndBlock::Bracket)])))
    );
    let mixed = check_rules(&parse_tokens("(|1)|").unwrap(), &[]);
    assert!(matches!(mixed, Err(Error::Check(CheckErr::UnbalancedBlocks(_)))));
    assert!(check_rules(&parse_tokens("(|1|)").unwrap(), &[]).is_ok());
}

#[test]
fn check_denies_operators() {
    let cases = [
        ("1/2", CheckRules::DenyDivision),
        ("1%2", CheckRules::DenyModule),
        ("1^2", CheckRules::DenyExponent),
        ("3!", CheckRules::DenyFactorial),
    ];
    for (text, rule) in cases {
        let tokens = parse_tokens(text).unwrap();
        assert_eq!(
            check_rules(&tokens, &CheckRules::ALL),
            Err(Error::Check(CheckErr::BrokenCheckRule(rule)))
        );
        assert!(check_rules(&tokens, &CheckRules::DENY_SIGN).is_ok());
    }
    let first = check_rules(&parse_tokens("1%2/3").unwrap(), &CheckRules::DENY_OP);
    assert_eq!(first, Err(Error::Check(CheckErr::BrokenCheckRule(CheckRules::DenyModule))));
}

#[test]
fn check_denies_signs_after_sums() {
    let tokens = parse_tokens("4--5").unwrap();
    assert!(check_rules(&tokens, &[CheckRules::DenyMultipleSign]).is_ok());
    assert_eq!(
        check_rules(&tokens, &[CheckRules::DenyAllMultipleSign]),
        Err(Error::Check(CheckErr::BrokenCheckRule(CheckRules::DenyAllMultipleSign)))
    );
    let both = check_rules(&parse_tokens("--5").unwrap(), &CheckRules::DENY_SIGN);
    assert_eq!(both, Err(Error::Check(CheckErr::BrokenCheckRule(CheckRules::DenyMultipleSign))));
}

#[test]
fn rule_breaks_come_before_structure() {
    let tokens = parse_tokens("(1/2").unwrap();
    assert_eq!(
        check_rules(&tokens, &[CheckRules::DenyDivision]),
        Err(Error::Check(CheckErr::BrokenCheckRule(CheckRules::DenyDivision)))
    );
}

#[test]
fn fixing_twice_changes_nothing() {
    for text in ["(|(", "()(())||", "(1)(2", "|1|(3)(", ")(", "1+2"] {
        for rules in [&FixRules::ALL[..], &FixRules::ALL[..1], &FixRules::ALL[1..], &[]] {
            let mut once = parse_tokens(text).unwrap();
            fix_tokens(&mut once, rules);
            let mut twice = once.clone();
            fix_tokens(&mut twice, rules);
            assert_eq!(once, twice);
        }
    }
}

#[test]
fn fixes_make_products_and_close_blocks() {
    let tokens = parse("(1+2)(3", &FixRules::ALL, &[]).unwrap();
    assert_eq!(tokens, parse_tokens("(1+2)*(3)").unwrap());
    assert_eq!(resolve("(1+2)(3", &FixRules::ALL, &[]).unwrap(), Rational::from_i64(9));
    assert!(parse("(1+2)(3", &[], &[]).is_err());
}

#[test]
fn checked_expressions_have_values() {
    let texts = [
        "-3++1-+-+5",
        "(|-37|*4.8)",
        "1 -5 *-(|-37|*4.8)+5 %99/7",
        "-+3.8*(1+|7|*-(5+|-1|))",
        "2^3^2",
        "-3!",
        "((((7))))",
        "5!!",
    ];
    for text in texts {
        let value = resolve(text, &[], &[]);
        assert!(value.is_ok(), "{} has no value: {:?}", text, value);
    }
    assert_eq!(resolve("-3++1-+-+5", &[], &[]).unwrap(), Rational::from_i64(3));
    assert_eq!(resolve("(|-37|*4.8)", &[], &[]).unwrap(), Rational::from_str("177.6").unwrap());
    assert_eq!(resolve("2^3^2", &[], &[]).unwrap(), Rational::from_i64(64));
    assert_eq!(resolve("-3!", &[], &[]).unwrap(), Rational::from_i64(-6));
    assert_eq!(resolve("2*3!", &[], &[]).unwrap(), Rational::from_i64(12));
    assert_eq!(resolve("1+2*3-4", &[], &[]).unwrap(), Rational::from_i64(3));
    assert_eq!(resolve("7%4*2", &[], &[]).unwrap(), Rational::from_i64(6));
}

#[test]
fn same_text_same_value() {
    let first = resolve("1 -5 *-(|-37|*4.8)+5 %99/7", &FixRules::ALL, &[]);
    let second = resolve("1 -5 *-(|-37|*4.8)+5 %99/7", &FixRules::ALL, &[]);
    assert_eq!(first, second);
    assert_eq!(first.unwrap(), Rational::from_str("6228/7").unwrap());
}

#[test]
fn solve_steps_one_operation_at_a_time() {
    let mut tokens = parse("12+34*45", &[], &[]).unwrap();
    assert_eq!(solve_next(&mut tokens), Ok(true));
    assert_eq!(tokens, parse_tokens("12+1530").unwrap());
    assert_eq!(solve_next(&mut tokens), Ok(true));
    assert_eq!(tokens, parse_tokens("1542").unwrap());
    assert_eq!(solve_next(&mut tokens), Ok(false));
    assert_eq!(solve(&mut tokens), Ok(Rational::from_i64(1542)));
}

#[test]
fn solve_without_operation_has_no_result() {
    let mut tokens = parse_tokens("1 2").unwrap();
    let before = tokens.clone();
    assert_eq!(
        solve_next(&mut tokens),
        Err(Error::Solve(SolveErr::ExprWithNoResult(before.clone())))
    );
    assert_eq!(tokens, before);
    let mut none: Vec<Token> = Vec::new();
    assert_eq!(solve(&mut none), Err(Error::Solve(SolveErr::ExprWithNoResult(vec![]))));
    let mut sign = parse_tokens("+").unwrap();
    assert_eq!(solve(&mut sign), Err(Error::Solve(SolveErr::ExprWithNoResult(sign.clone()))));
}

#[test]
fn illegal_operation_leaves_tokens_as_they_were() {
    let mut tokens = parse_tokens("1+2/0").unwrap();
    let before = tokens.clone();
    assert!(matches!(solve(&mut tokens), Err(Error::Solve(SolveErr::OperIllegalValues(_)))));
    assert_eq!(tokens, before);
}

#[test]
fn calculate_each_operator() {
    let six = Rational::from_i64(6);
    let four = Rational::from_i64(4);
    assert_eq!(calculate(&six, BinaryOp::Add, &four), Ok(Rational::from_i64(10)));
    assert_eq!(calculate(&six, BinaryOp::Sub, &four), Ok(Rational::from_i64(2)));
    assert_eq!(calculate(&six, BinaryOp::Mul, &four), Ok(Rational::from_i64(24)));
    assert_eq!(calculate(&six, BinaryOp::Div, &four), Ok(Rational::from_str("1.5").unwrap()));
    assert_eq!(calculate(&six, BinaryOp::Mod, &four), Ok(Rational::from_i64(2)));
    assert_eq!(calculate(&six, BinaryOp::Exp, &four), Ok(Rational::from_i64(1296)));
}

#[test]
fn whitespace_separates_literals() {
    assert_eq!(
        parse_tokens("1\t2\u{a0}3\n").unwrap(),
        vec![
            Token::from(Rational::from_i64(1)),
            Token::from(Rational::from_i64(2)),
            Token::from(Rational::from_i64(3)),
        ]
    );
    assert_eq!(parse_tokens("   ").unwrap(), vec![]);
    assert_eq!(parse_tokens("").unwrap(), vec![]);
}

#[test]
fn token_kinds_and_ranks() {
    let tokens = parse_tokens("(1+2)!^3*-4|").unwrap();
    let ranks: Vec<usize> = tokens.iter().map(|t| t.priority()).collect();
    let max = usize::MAX;
    assert_eq!(ranks, vec![0, max, 5, max, max, 1, 3, max, 4, 2, max, 0]);
    assert!(tokens[0].eq_tokentype(&TokenType::StartBlock));
    assert!(TokenType::EndBlock.eq_tokentype(&tokens[4]));
    assert!(tokens[1].eq_type(&tokens[3]));
    assert!(!tokens[1].eq_type(&tokens[2]));
    assert_eq!(tokens[1].num(), Some(&Rational::from_i64(1)));
    assert_eq!(tokens[2].num(), None);
    assert_eq!(StartBlock::Abs.corrisp(), EndBlock::Abs);
    assert_eq!(EndBlock::Bracket.corrisp(), StartBlock::Bracket);
    assert!(StartBlock::Bracket.is_corrisp(EndBlock::Bracket));
    assert!(!EndBlock::Abs.is_corrisp(StartBlock::Bracket));
}

#[test]
fn literals_with_separators_are_one_number() {
    assert_eq!(
        parse_tokens("1_000+2").unwrap(),
        vec![
            Token::from(Rational::from_i64(1000)),
            Token::from(BinaryOp::Add),
            Token::from(Rational::from_i64(2)),
        ]
    );
    assert_eq!(
        parse_tokens("_1"),
        Err(Error::Parse(ParseErr::InvalidNumber(String::from("_1"))))
    );
}

#[test]
fn checked_tokens_never_lack_an_operation() {
    let texts = ["1+2*3", "(1)", "-(2)!", "|1-5|^2", "1/0", "2^0.5", "(0-1)!", "7%(3-3)"];
    for text in texts {
        let tokens = parse(text, &[], &[]).unwrap();
        let mut work = tokens.clone();
        match solve(&mut work) {
            Ok(_) => assert_eq!(work.len(), 1),
            Err(Error::Solve(SolveErr::OperIllegalValues(_))) => {}
            Err(other) => panic!("{}: {:?}", text, other),
        }
    }
}
