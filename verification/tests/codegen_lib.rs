use hiwkhao::{generate_assembly, Expr};

#[test]
fn lib_test_undefined_variable() {
    let expr = Expr::Assignment(
        String::from("x"),
        Box::new(Expr::Variable(String::from("y")))
    );
    let expected = vec![
        "LD R0 @y",
        "ST @x R0"
    ];
    assert_eq!(generate_assembly(&expr), expected);
}

#[test]
fn test_variable_arithmetic() {
    // Test variable addition
    let expr = Expr::BinaryOp(
        Box::new(Expr::Variable(String::from("x"))),
        String::from("+"),
        Box::new(Expr::Variable(String::from("y")))
    );
    let expected = vec![
        "LD R0 @x",
        "LD R1 @y",
        "ADD.i R2 R0 R1",
        "ST @print R2"
    ];
    assert_eq!(generate_assembly(&expr), expected);

    // Test variable subtraction
    let expr = Expr::BinaryOp(
        Box::new(Expr::Variable(String::from("a"))),
        String::from("-"),
        Box::new(Expr::Variable(String::from("b")))
    );
    let expected = vec![
        "LD R0 @a",
        "LD R1 @b",
        "SUB.i R2 R0 R1",
        "ST @print R2"
    ];
    assert_eq!(generate_assembly(&expr), expected);

    // Test variable multiplication
    let expr = Expr::BinaryOp(
        Box::new(Expr::Variable(String::from("x"))),
        String::from("*"),
        Box::new(Expr::Variable(String::from("y")))
    );
    let expected = vec![
        "LD R0 @x",
        "LD R1 @y",
        "MUL.i R2 R0 R1",
        "ST @print R2"
    ];
    assert_eq!(generate_assembly(&expr), expected);
}

#[test]
fn test_variable_comparison() {
    // Test variable equality
    let expr = Expr::BinaryOp(
        Box::new(Expr::Variable(String::from("x"))),
        String::from("=="),
        Box::new(Expr::Variable(String::from("y")))
    );
    let expected = vec![
        "LD R0 @x",
        "LD R1 @y",
        "EQ.i R2 R0 R1",
        "ST @print R2"
    ];
    assert_eq!(generate_assembly(&expr), expected);

    // Test variable less than
    let expr = Expr::BinaryOp(
        Box::new(Expr::Variable(String::from("x"))),
        String::from("<"),
        Box::new(Expr::Variable(String::from("y")))
    );
    let expected = vec![
        "LD R0 @x",
        "LD R1 @y",
        "LT.i R2 R0 R1",
        "ST @print R2"
    ];
    assert_eq!(generate_assembly(&expr), expected);
}
