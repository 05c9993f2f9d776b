use hiwkhao::{run_scanner, tokenize, tokenize_vector, Token};

fn whole(s: &str) -> Token {
    Token::INT(s.to_string())
}

fn float(s: &str) -> Token {
    Token::REAL(s.to_string())
}

fn var(s: &str) -> Token {
    Token::VAR(s.to_string())
}

#[test]
fn empty_text_has_no_tokens() {
    assert_eq!(tokenize(""), vec![]);
    assert_eq!(tokenize("   \t "), vec![]);
    assert_eq!(run_scanner(""), Vec::<String>::new());
    assert_eq!(run_scanner("\n"), vec![""]);
}

#[test]
fn keyword_is_a_whole_word() {
    assert_eq!(tokenize("list"), vec![Token::LIST]);
    assert_eq!(tokenize("lists"), vec![var("lists")]);
    assert_eq!(tokenize("list1"), vec![var("list1")]);
    assert_eq!(tokenize("alist"), vec![var("alist")]);
    assert_eq!(tokenize("list[3]"), vec![Token::LIST, Token::LBRACKET, whole("3"), Token::RBRACKET]);
    assert_eq!(tokenize("_a1 B_2"), vec![var("_a1"), var("B_2")]);
}

#[test]
fn numbers_take_the_longest_text() {
    assert_eq!(tokenize("12"), vec![whole("12")]);
    assert_eq!(tokenize("1.5"), vec![float("1.5")]);
    assert_eq!(tokenize("1.5e10"), vec![float("1.5e10")]);
    assert_eq!(tokenize("1.5e+3"), vec![float("1.5e+3")]);
    assert_eq!(tokenize("1.5e-3"), vec![float("1.5e-3")]);
    assert_eq!(tokenize("1.5e"), vec![float("1.5"), var("e")]);
    assert_eq!(tokenize("1.5e+"), vec![float("1.5"), var("e"), Token::ADD]);
    assert_eq!(tokenize("1e5"), vec![whole("1"), var("e5")]);
    assert_eq!(tokenize("1."), vec![whole("1"), Token::ERR]);
    assert_eq!(tokenize(".5"), vec![Token::ERR, whole("5")]);
    assert_eq!(tokenize("1.2.3"), vec![float("1.2"), Token::ERR, whole("3")]);
    assert_eq!(tokenize("007"), vec![whole("007")]);
}

#[test]
fn a_minus_sign_before_a_digit_belongs_to_the_number() {
    assert_eq!(tokenize("-5"), vec![whole("-5")]);
    assert_eq!(tokenize("- 5"), vec![Token::SUB, whole("5")]);
    assert_eq!(tokenize("--5"), vec![Token::SUB, whole("-5")]);
    assert_eq!(tokenize("a-5"), vec![var("a"), whole("-5")]);
    assert_eq!(tokenize("a - 5"), vec![var("a"), Token::SUB, whole("5")]);
    assert_eq!(tokenize("3-2.5"), vec![whole("3"), float("-2.5")]);
    assert_eq!(tokenize("-a"), vec![Token::SUB, var("a")]);
    assert_eq!(tokenize("-.5"), vec![Token::SUB, Token::ERR, whole("5")]);
}

#[test]
fn operators_take_the_longest_text() {
    assert_eq!(tokenize("//"), vec![Token::INTDIV]);
    assert_eq!(tokenize("/"), vec![Token::DIV]);
    assert_eq!(tokenize("///"), vec![Token::INTDIV, Token::DIV]);
    assert_eq!(tokenize("==="), vec![Token::EQ, Token::ASSIGN]);
    assert_eq!(tokenize("<=>=<>"), vec![Token::LE, Token::GE, Token::LT, Token::GT]);
    assert_eq!(tokenize("!="), vec![Token::NE]);
    assert_eq!(tokenize("!"), vec![Token::ERR]);
    assert_eq!(tokenize("!!="), vec![Token::ERR, Token::NE]);
    assert_eq!(
        tokenize("+*^()[]"),
        vec![
            Token::ADD,
            Token::MUL,
            Token::POW,
            Token::LPAREN,
            Token::RPAREN,
            Token::LBRACKET,
            Token::RBRACKET
        ]
    );
}

#[test]
fn a_line_feed_alone_is_a_token() {
    assert_eq!(tokenize("a\nb"), vec![var("a"), Token::NEWLINE, var("b")]);
    assert_eq!(tokenize("a\n"), vec![var("a"), Token::NEWLINE]);
    assert_eq!(tokenize("\na"), vec![Token::NEWLINE, var("a")]);
    assert_eq!(tokenize("a\n\nb"), vec![var("a"), var("b")]);
    assert_eq!(tokenize("a \nb"), vec![var("a"), var("b")]);
    assert_eq!(tokenize("a\n b"), vec![var("a"), var("b")]);
    assert_eq!(tokenize("a\r\nb"), vec![var("a"), var("b")]);
    assert_eq!(tokenize("a\tb"), vec![var("a"), var("b")]);
}

#[test]
fn a_character_that_starts_no_token_is_an_error() {
    assert_eq!(tokenize("$"), vec![Token::ERR]);
    assert_eq!(tokenize("a$b"), vec![var("a"), Token::ERR, var("b")]);
    assert_eq!(tokenize("\u{e9}"), vec![Token::ERR]);
    assert_eq!(tokenize("\u{e9}t\u{e9}"), vec![Token::ERR, var("t"), Token::ERR]);
    assert_eq!(run_scanner("a\u{e9}"), vec!["a/VAR \u{e9}/ERR"]);
}

#[test]
fn tokens_come_with_their_text() {
    assert_eq!(
        tokenize_vector("x = -1.5 // y"),
        vec![
            ("x".to_string(), var("x")),
            ("=".to_string(), Token::ASSIGN),
            ("-1.5".to_string(), float("-1.5")),
            ("//".to_string(), Token::INTDIV),
            ("y".to_string(), var("y")),
        ]
    );
    assert_eq!(tokenize_vector("#"), vec![("#".to_string(), Token::ERR)]);
}

#[test]
fn report_has_a_line_for_each_line() {
    assert_eq!(run_scanner("a = 1\n\nlist[2]"), vec!["a/VAR =/= 1/INT", "", "list/list [/LBRACKET 2/INT ]/RBRACKET"]);
    assert_eq!(run_scanner("x\r\ny"), vec!["x/VAR", "y/VAR"]);
    assert_eq!(run_scanner("2 ^ 3 // 4"), vec!["2/INT ^/POW 3/INT ///// 4/INT"]);
}

#[test]
fn tokens_show_themselves() {
    assert_eq!(Token::ADD.to_string(), "+");
    assert_eq!(Token::SUB.to_string(), "-");
    assert_eq!(Token::INTDIV.to_string(), "//");
    assert_eq!(Token::LIST.to_string(), "list");
    assert_eq!(float("2.5").to_string(), "2.5");
    assert_eq!(var("abc").to_string(), "abc");
    assert_eq!(Token::WHITESPACE.to_string(), "<whitespace>");
    assert_eq!(Token::NEWLINE.to_string(), "<newline>");
    assert_eq!(Token::ERR.to_string(), "<error>");
    assert_eq!(Token::NEWLINE.kind(), "UNKNOWN");
    assert_eq!(Token::POW.kind(), "POW");
    assert_eq!(whole("1").copy(), whole("1"));
}
