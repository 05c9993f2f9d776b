use hiwkhao::{tokenize, Expr, ParseError, Parser, Position, Real, Token, TokenInfo};

fn number(x: f64) -> Real {
    Real::new(x.to_bits(), format!("{}", x), format!("{:.1}", x))
}

fn learn_reals(parser: &mut Parser, tokens: &[Token]) {
    for token in tokens {
        if let Token::REAL(lexeme) = token {
            if let Ok(x) = lexeme.parse::<f64>() {
                parser.define_real(lexeme.clone(), number(x));
            }
        }
    }
}

fn report(input: &str) -> Vec<String> {
    let tokens = tokenize(input);
    let mut parser = Parser::new(vec![]);
    learn_reals(&mut parser, &tokens);
    parser.parse_tokens_fancy(tokens)
}

fn results(input: &str) -> Vec<Result<Expr, ParseError>> {
    let tokens = tokenize(input);
    let mut parser = Parser::new(vec![]);
    learn_reals(&mut parser, &tokens);
    parser.parse_tokens(tokens)
}

#[test]
fn token_lengths() {
    assert_eq!(TokenInfo::token_length(&Token::VAR("abc".to_string())), 3);
    assert_eq!(TokenInfo::token_length(&Token::INT("-12".to_string())), 3);
    assert_eq!(TokenInfo::token_length(&Token::REAL("1.25".to_string())), 4);
    assert_eq!(TokenInfo::token_length(&Token::EQ), 2);
    assert_eq!(TokenInfo::token_length(&Token::NE), 2);
    assert_eq!(TokenInfo::token_length(&Token::LE), 2);
    assert_eq!(TokenInfo::token_length(&Token::GE), 2);
    assert_eq!(TokenInfo::token_length(&Token::INTDIV), 2);
    assert_eq!(TokenInfo::token_length(&Token::LIST), 4);
    assert_eq!(TokenInfo::token_length(&Token::ADD), 1);
    assert_eq!(TokenInfo::token_length(&Token::NEWLINE), 1);
    assert_eq!(TokenInfo::token_length(&Token::ERR), 1);
}

#[test]
fn precedence_and_grouping() {
    assert_eq!(report("1 + 2 * 3"), vec!["(1+(2*3))"]);
    assert_eq!(report("1 * 2 + 3"), vec!["((1*2)+3)"]);
    assert_eq!(report("(1 + 2) * 3"), vec!["((1+2)*3)"]);
    assert_eq!(report("1 - 2 - 3"), vec!["((1-2)-3)"]);
    assert_eq!(report("8 / 4 / 2"), vec!["((8/4)/2)"]);
    assert_eq!(report("2 ^ 3 ^ 4"), vec!["(2^(3^4))"]);
    assert_eq!(report("2 * 3 ^ 4"), vec!["(2*(3^4))"]);
    assert_eq!(report("1 + 2 < 3 + 4"), vec!["(((1+2)<3)+4)"]);
    assert_eq!(report("1 < 2 == 3"), vec!["((1<2)==3)"]);
}

#[test]
fn adjacent_literals_subtract() {
    assert_eq!(report("23-8"), vec!["(23-8)"]);
    assert_eq!(report("23 -8"), vec!["(23-8)"]);
    assert_eq!(report("2.5-1.5"), vec!["(2.5-1.5)"]);
    assert_eq!(report("23 -8 -5"), vec!["(((-8)-5)-8)"]);
    assert_eq!(report("1 -0"), vec!["SyntaxError at line 1, pos 1"]);
    assert_eq!(report("1 2"), vec!["SyntaxError at line 1, pos 1"]);
    assert_eq!(report("x = 5\nx -3"), vec!["(x=5)", "x"]);
}

#[test]
fn whole_numbers_are_read_through_binary64() {
    assert_eq!(report("x = 9007199254740993"), vec!["(x=9007199254740992)"]);
    assert_eq!(report("x = 9007199254740995"), vec!["(x=9007199254740996)"]);
    assert_eq!(report("x = 9223372036854775807"), vec!["(x=9223372036854775807)"]);
    assert_eq!(report("x = 9223372036854775000"), vec!["(x=9223372036854774784)"]);
    assert_eq!(report("x = 99999999999999999999999"), vec!["(x=9223372036854775807)"]);
    assert_eq!(report("x = -99999999999999999999999"), vec!["(x=(-9223372036854775807))"]);
    assert_eq!(report("x = 0000000000000000000000012"), vec!["(x=12)"]);
    assert_eq!(report("x = -0"), vec!["(x=0)"]);
    for text in ["1", "123456789", "9007199254740991", "18014398509481985", "4611686018427387905"] {
        let expected = text.parse::<f64>().unwrap() as i64;
        assert_eq!(report(&format!("x = {}", text)), vec![format!("(x={})", expected)]);
    }
}

#[test]
fn real_numbers_show_one_digit() {
    assert_eq!(report("0.25"), vec!["0.2"]);
    assert_eq!(report("0.35"), vec!["0.3"]);
    assert_eq!(report("0.45"), vec!["0.5"]);
    assert_eq!(report("1.5e3"), vec!["1500.0"]);
    assert_eq!(report("-2.5"), vec!["(-2.5)"]);
    assert_eq!(report("-0.0"), vec!["-0.0"]);
}

#[test]
fn a_real_literal_must_be_told() {
    let tokens = tokenize("x = 2.5");
    let mut parser = Parser::new(vec![]);
    assert_eq!(parser.parse_tokens_fancy(tokens), vec!["SyntaxError at line 1, pos 3"]);
    let tokens = tokenize("x = 2.5");
    parser.define_real("2.5".to_string(), number(2.5));
    assert_eq!(parser.parse_tokens_fancy(tokens), vec!["(x=2.5)"]);
}

#[test]
fn atoms_that_are_none() {
    assert_eq!(report("+"), vec!["Invalid atom at line 1, pos 1"]);
    assert_eq!(report("1 +"), vec!["Invalid atom at line 1, pos 2"]);
    assert_eq!(report("()"), vec!["Invalid atom at line 1, pos 1"]);
    assert_eq!(report("(1"), vec!["SyntaxError at line 1, pos 2"]);
    assert_eq!(report("(1 + 2"), vec!["SyntaxError at line 1, pos 4"]);
    assert_eq!(report("$"), vec!["SyntaxError at line 1, pos 1"]);
    assert_eq!(report("1 + $"), vec!["SyntaxError at line 1, pos 2"]);
    assert_eq!(report("="), vec!["Invalid atom at line 1, pos 1"]);
    assert_eq!(report("x ="), vec!["Invalid atom at line 1, pos 2"]);
}

#[test]
fn errors_carry_their_place() {
    let r = results("x");
    assert_eq!(r.len(), 1);
    match &r[0] {
        Err(ParseError::UndefinedVariable(name, position)) => {
            assert_eq!(name, "x");
            assert_eq!(*position, Position { line: 1, column: 2 });
        }
        other => panic!("{:?}", other),
    }
    let r = results("1 / 0");
    assert!(matches!(r[0], Err(ParseError::DivisionByZero(_))));
    let r = results("1 / 0.0");
    assert!(matches!(r[0], Err(ParseError::DivisionByZero(_))));
    let r = results("list[]");
    assert!(matches!(r[0], Err(ParseError::MissingIndex(_))));
    let r = results("x = list[2]\nx[2]");
    assert!(matches!(r[1], Err(ParseError::IndexOutOfRange(_, 2))));
    let r = results(")");
    assert!(matches!(r[0], Err(ParseError::InvalidAtom(_))));
    let r = results("1 1");
    assert!(matches!(r[0], Err(ParseError::SyntaxError(_))));
    assert_eq!(ParseError::TokenizeError.to_string(), "TokenizeError");
    assert_eq!(
        ParseError::IndexOutOfRange(Position { line: 3, column: 4 }, 7).to_string(),
        "IndexOutOfRange at line 3, pos 4, index 7"
    );
    assert_eq!(
        ParseError::UndefinedVariable("v".to_string(), Position { line: 1, column: 1 }).copy().to_string(),
        "Undefined variable v at line 1, pos 1"
    );
}

#[test]
fn division_by_a_variable_is_not_checked() {
    assert_eq!(report("x = 0\n1 / x"), vec!["(x=0)", "(1/x)"]);
    assert_eq!(report("1 / (0)"), vec!["Division by zero at line 1, pos 5"]);
    assert_eq!(report("1 / (1 - 1)"), vec!["(1/(1-1))"]);
    assert_eq!(report("0 / 1"), vec!["(0/1)"]);
    assert_eq!(report("1 * 0"), vec!["(1*0)"]);
}

#[test]
fn variables_must_be_assigned_first() {
    assert_eq!(
        report("x + 1\nx = 1\nx + 1\nx = y\ny = x\ny"),
        vec![
            "Undefined variable x at line 1, pos 1",
            "(x=1)",
            "(x+1)",
            "Undefined variable y at line 4, pos 3",
            "(y=x)",
            "y",
        ]
    );
}

#[test]
fn a_variable_keeps_its_last_value() {
    assert_eq!(
        report("x = 1\nx[0]\nx = list[2]\nx[1]\nx = 3\nx[1]"),
        vec![
            "(x=1)",
            "SyntaxError at line 2, pos 4",
            "(x=(list[(2)]))",
            "(x[(1)])",
            "(x=3)",
            "SyntaxError at line 6, pos 4",
        ]
    );
}

#[test]
fn lists_are_made_and_filled() {
    assert_eq!(report("list[0]"), vec!["SyntaxError at line 1, pos 6"]);
    assert_eq!(report("list[x]"), vec!["SyntaxError at line 1, pos 6"]);
    assert_eq!(report("list[2"), vec!["SyntaxError at line 1, pos 6"]);
    assert_eq!(report("list 2"), vec!["SyntaxError at line 1, pos 1"]);
    assert_eq!(report("x = list[3] = 5"), vec!["(x=(list[(3)]))"]);
    assert_eq!(report("x = list[3] = -5"), vec!["(x=(list[(3)]))"]);
    assert_eq!(report("x = list[3] = 2.5"), vec!["(x=(list[(3)]))"]);
    assert_eq!(report("x = list[3] = list[3]"), vec!["(x=(list[(3)]))"]);
    assert_eq!(report("x = list[3] = list[2]"), vec!["SyntaxError at line 1, pos 17"]);
    assert_eq!(
        report("x = list[3]\ny = list[3] = x\nz = list[2] = x\nw = list[2] = v"),
        vec![
            "(x=(list[(3)]))",
            "(y=(list[(3)]))",
            "SyntaxError at line 3, pos 11",
            "Undefined variable v at line 4, pos 11",
        ]
    );
    assert_eq!(report("x = list[2] = 1 + 2"), vec!["SyntaxError at line 1, pos 13"]);
    assert_eq!(report("x = list[2] = ("), vec!["SyntaxError at line 1, pos 10"]);
}

#[test]
fn a_list_takes_no_operator() {
    for op in ["+", "-", "*", "/", "^", "==", "!=", "<", ">", "<=", ">="] {
        let line = format!("list[2] {} 1", op);
        let out = report(&line);
        assert_eq!(out.len(), 1);
        assert!(out[0].starts_with("SyntaxError"), "{} gives {}", line, out[0]);
        let line = format!("1 {} list[2]", op);
        let out = report(&line);
        assert!(out[0].starts_with("SyntaxError"), "{} gives {}", line, out[0]);
    }
    assert_eq!(report("list[2] + y"), vec!["Undefined variable y at line 1, pos 9"]);
}

#[test]
fn elements_are_read_and_written() {
    let out = report(
        "x = list[2]\ny = list[3]\nx[1] = 2.5\nx[0] = y[2]\nx[0] = y[3]\nx[2] = 1\nx[0] = 1 + 1\nx[0] = z\nx[1 + 1]\nx[0] + 1",
    );
    assert_eq!(
        out,
        vec![
            "(x=(list[(2)]))",
            "(y=(list[(3)]))",
            "(x[(1)]=2.5)",
            "(x[(0)]=(y[(2)]))",
            "IndexOutOfRange at line 5, pos 9, index 3",
            "IndexOutOfRange at line 6, pos 4, index 2",
            "SyntaxError at line 7, pos 8",
            "Undefined variable z at line 8, pos 6",
            "SyntaxError at line 9, pos 6",
            "((x[(0)])+1)",
        ]
    );
    assert_eq!(report("x[0]"), vec!["Undefined variable x at line 1, pos 4"]);
}

#[test]
fn written_elements_are_kept() {
    let r = results("x = list[2]\ny = list[2] = 7\nx[1] = 2.5\nx[0] = y[1]\nz = list[2] = x");
    assert_eq!(r.len(), 5);
    match &r[4] {
        Ok(Expr::Assignment(name, value)) => {
            assert_eq!(name, "z");
            match &**value {
                Expr::List(elements) => {
                    assert_eq!(elements, &vec![7.0f64.to_bits(), 2.5f64.to_bits()]);
                }
                other => panic!("{:?}", other),
            }
        }
        other => panic!("{:?}", other),
    }
}

#[test]
fn a_minus_sign_before_an_expression() {
    assert_eq!(report("- 5"), vec!["(-5)"]);
    assert_eq!(report("- 5 + 2"), vec!["(-(5+2))"]);
    assert_eq!(report("- (5 + 2)"), vec!["(-(5+2))"]);
    assert_eq!(report("x = 1\n- x"), vec!["(x=1)", "(-x)"]);
    assert_eq!(report("x = 1\n- x + 2"), vec!["(x=1)", "(-(x+2))"]);
    assert_eq!(report("x = 1\n- x < 2"), vec!["(x=1)", "((-x)<2)"]);
    assert_eq!(report("- 1 < 2"), vec!["(1<2)"]);
    assert_eq!(report("x = - 5"), vec!["Invalid atom at line 1, pos 2"]);
    assert_eq!(report("x = -5"), vec!["(x=(-5))"]);
}

#[test]
fn every_line_gives_its_own_result() {
    let r = results("a\nb\nx = 1\nc\nx\nd\ne");
    assert_eq!(r.len(), 7);
    assert!(matches!(&r[0], Err(ParseError::UndefinedVariable(name, _)) if name == "a"));
    assert!(matches!(&r[1], Err(ParseError::UndefinedVariable(name, _)) if name == "b"));
    assert!(matches!(&r[2], Ok(Expr::Assignment(_, _))));
    assert!(matches!(&r[3], Err(ParseError::UndefinedVariable(name, _)) if name == "c"));
    assert!(matches!(&r[4], Ok(Expr::Variable(_))));
    assert!(matches!(&r[5], Err(ParseError::UndefinedVariable(name, _)) if name == "d"));
    assert!(matches!(&r[6], Err(ParseError::UndefinedVariable(name, _)) if name == "e"));
    assert_eq!(report("a\nb\nx = 1").len(), 3);
}

#[test]
fn two_undefined_names_are_two_errors() {
    let r = results("x\ny");
    assert_eq!(r.len(), 2);
    assert!(matches!(&r[0], Err(ParseError::UndefinedVariable(name, _)) if name == "x"));
    assert!(matches!(&r[1], Err(ParseError::UndefinedVariable(name, _)) if name == "y"));
    assert_eq!(
        report("x\ny"),
        vec!["Undefined variable x at line 1, pos 1", "Undefined variable y at line 2, pos 1"]
    );
}

#[test]
fn a_line_with_a_character_that_is_no_token_fails_alone() {
    let r = results("23+8\n1 $ 2\n4");
    assert_eq!(r.len(), 3);
    match &r[0] {
        Ok(e) => assert_eq!(e.to_string(), "(23+8)"),
        Err(e) => panic!("{:?}", e),
    }
    assert!(matches!(&r[1], Err(ParseError::SyntaxError(_))));
    match &r[2] {
        Ok(e) => assert_eq!(e.to_string(), "4"),
        Err(e) => panic!("{:?}", e),
    }
}

#[test]
fn a_list_takes_no_number_behind_an_operator() {
    for size in ["1", "2", "17"] {
        for op in ["+", "-", "*", "/", "^", "<", "=="] {
            let r = results(&format!("list[{}] {} 5", size, op));
            assert_eq!(r.len(), 1);
            assert!(matches!(&r[0], Err(ParseError::SyntaxError(_))), "{} {}", size, op);
        }
    }
}

#[test]
fn an_index_inside_the_list_is_an_element() {
    let r = results("x = list[3]\nx[2]\nx[3]\nx[0]");
    assert_eq!(r.len(), 4);
    match &r[1] {
        Ok(Expr::ListAccess(name, index)) => {
            assert_eq!(name, "x");
            assert!(matches!(**index, Expr::Int(2)));
        }
        other => panic!("{:?}", other),
    }
    assert!(matches!(&r[2], Err(ParseError::IndexOutOfRange(_, 3))));
    assert!(matches!(&r[3], Ok(Expr::ListAccess(_, _))));
}

#[test]
fn a_zero_divisor_of_either_kind_is_an_error() {
    for text in ["1 / 0", "1.5 / 0", "1 / 0.0", "2.5 / 0.0", "7 / 00", "7 / -0", "7 / -0.0"] {
        let r = results(text);
        assert_eq!(r.len(), 1, "{}", text);
        assert!(matches!(&r[0], Err(ParseError::DivisionByZero(_))), "{}", text);
    }
}

#[test]
fn a_text_with_a_scanning_error_is_parsed_line_by_line() {
    let r = results("x = 1\ny = $");
    assert_eq!(r.len(), 2);
    assert!(matches!(&r[0], Ok(Expr::Assignment(_, _))));
    assert!(matches!(&r[1], Err(ParseError::SyntaxError(_))));
    assert_eq!(report("x = 1\ny = $"), vec!["(x=1)", "SyntaxError at line 2, pos 2"]);
    assert_eq!(results("").len(), 0);
    assert_eq!(report(""), Vec::<String>::new());
    assert_eq!(report("\n\n"), Vec::<String>::new());
}

#[test]
fn the_parser_keeps_its_variables() {
    let mut parser = Parser::new(vec![]);
    assert_eq!(parser.parse_tokens_fancy(tokenize("x = 1")), vec!["(x=1)"]);
    assert_eq!(parser.parse_tokens_fancy(tokenize("x")), vec!["x"]);
    assert_eq!(parser.parse_tokens(tokenize("y = x")).len(), 1);
    assert_eq!(parser.parse_tokens_fancy(tokenize("y")), vec!["y"]);
}

#[test]
fn a_line_is_parsed_from_its_tokens() {
    let mut parser = Parser::new(tokenize("1 + 2"));
    match parser.parse() {
        Ok(e) => assert_eq!(e.to_string(), "(1+2)"),
        Err(e) => panic!("{:?}", e),
    }
    let mut parser = Parser::new(vec![Token::INT("1".to_string()), Token::INT("x".to_string())]);
    assert!(matches!(parser.parse(), Err(ParseError::SyntaxError(Position { line: 1, column: 3 }))));
    let mut parser = Parser::new(vec![Token::INT("1x".to_string())]);
    assert!(matches!(parser.parse(), Err(ParseError::SyntaxError(Position { line: 1, column: 3 }))));
    let mut parser = Parser::new(vec![]);
    assert!(matches!(parser.parse(), Err(ParseError::InvalidAtom(Position { line: 1, column: 1 }))));
}

#[test]
fn trees_show_themselves() {
    let e = Expr::BinaryOp(
        Box::new(Expr::UnaryOp("-".to_string(), Box::new(Expr::Float(number(2.25))))),
        "%".to_string(),
        Box::new(Expr::ListAccess("a".to_string(), Box::new(Expr::Variable("i".to_string())))),
    );
    assert_eq!(e.to_string(), "((-2.2)%(a[(i)]))");
    assert_eq!(e.copy().to_string(), "((-2.2)%(a[(i)]))");
    assert_eq!(e.clone().to_string(), "((-2.2)%(a[(i)]))");
    assert_eq!(Expr::List(vec![0; 12]).to_string(), "(list[(12)])");
    assert_eq!(Expr::Int(i64::MIN).to_string(), "-9223372036854775808");
    assert_eq!(
        Expr::Assignment("x".to_string(), Box::new(Expr::Boolean(
            Box::new(Expr::Int(1)),
            "<".to_string(),
            Box::new(Expr::Int(2))
        )))
        .to_string(),
        "(x=(1<2))"
    );
}

fn reparsed(e: &Expr) -> Vec<String> {
    report(&e.to_string())
}

#[test]
fn printing_then_parsing_need_not_give_the_tree_back() {
    // a sum comes back as it was
    let sum = Expr::BinaryOp(
        Box::new(Expr::Int(1)),
        "+".to_string(),
        Box::new(Expr::BinaryOp(Box::new(Expr::Int(2)), "*".to_string(), Box::new(Expr::Int(3)))),
    );
    assert_eq!(sum.to_string(), "(1+(2*3))");
    assert_eq!(reparsed(&sum), vec!["(1+(2*3))"]);
    // a real number loses the digits that are not shown
    let quarter = Expr::Float(number(2.25));
    assert_eq!(quarter.to_string(), "2.2");
    let tokens = tokenize("2.2");
    let mut parser = Parser::new(vec![]);
    learn_reals(&mut parser, &tokens);
    match &parser.parse_tokens(tokens)[0] {
        Ok(Expr::Float(x)) => assert_eq!(x.bits, 2.2f64.to_bits()),
        other => panic!("{:?}", other),
    }
    // a list is shown in brackets that the parser does not take
    let list = Expr::List(vec![0, 0]);
    assert_eq!(list.to_string(), "(list[(2)])");
    assert_eq!(reparsed(&list), vec!["SyntaxError at line 1, pos 7"]);
    // a subtraction of a literal comes back as two numbers side by side
    let difference = Expr::BinaryOp(Box::new(Expr::Variable("x".to_string())), "-".to_string(), Box::new(Expr::Int(3)));
    assert_eq!(difference.to_string(), "(x-3)");
    assert_eq!(report("x = 1\n(x-3)"), vec!["(x=1)", "SyntaxError at line 2, pos 2"]);
}

#[test]
fn without_columns_the_running_count_is_reported() {
    let r = results("a\nx = 1\nb");
    assert_eq!(r.len(), 3);
    assert!(matches!(
        &r[0],
        Err(ParseError::UndefinedVariable(name, Position { line: 1, column: 2 })) if name == "a"
    ));
    assert!(matches!(
        &r[2],
        Err(ParseError::UndefinedVariable(name, Position { line: 1, column: 8 })) if name == "b"
    ));
}

#[test]
fn columns_stay_from_the_last_report() {
    let mut parser = Parser::new(vec![]);
    assert_eq!(parser.parse_tokens_fancy(tokenize("x = 1\nzz = 2")), vec!["(x=1)", "(zz=2)"]);
    let r = parser.parse_tokens(tokenize("y"));
    assert!(matches!(
        &r[0],
        Err(ParseError::UndefinedVariable(name, Position { line: 2, column: 1 })) if name == "y"
    ));
    let r = parser.parse_tokens(tokenize("1 + + +"));
    assert!(matches!(&r[0], Err(ParseError::InvalidAtom(Position { line: 2, column: 3 }))));
}
