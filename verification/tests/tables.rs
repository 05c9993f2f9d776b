use hiwkhao::{tokenize, Dict, Parser, Real, SymbolTable, Token};

fn number(x: f64) -> Real {
    Real::new(x.to_bits(), format!("{}", x), format!("{:.1}", x))
}

fn learn_reals(parser: &mut Parser, tokens: &[Token]) {
    for token in tokens {
        if let Token::REAL(lexeme) = token {
            if let Ok(x) = lexeme.parse::<f64>() {
                parser.define_real(lexeme.clone(), number(x));
            }
        }
    }
}

fn table_of(input: &str) -> SymbolTable {
    let tokens = tokenize(input);
    let mut parser = Parser::new(vec![]);
    learn_reals(&mut parser, &tokens);
    let parsed = parser.parse_tokens(tokens);
    let mut table = SymbolTable::new();
    table.process_parsed_expressions(parsed);
    table
}

#[test]
fn an_empty_table_has_no_lines() {
    let table = SymbolTable::new();
    assert_eq!(table.len(), 0);
    assert_eq!(table.output(), Vec::<String>::new());
}

#[test]
fn entries_are_kept_in_order() {
    let mut table = SymbolTable::new();
    table.insert("x".to_string(), 1, 0, 1, Token::INT("5".to_string()), "5".to_string());
    table.insert("y".to_string(), 2, 2, 5, Token::LIST, "Array".to_string());
    table.insert("z".to_string(), 3, 8, 3, Token::VAR("a\"b".to_string()), "a\\b".to_string());
    assert_eq!(table.len(), 3);
    assert_eq!(
        table.output(),
        vec!["x,1,0,1,INT(\"5\"),5", "y,2,2,5,LIST,Array", "z,3,8,3,VAR(\"a\\\"b\"),a\\b"]
    );
    let entry = table.entry(1);
    assert_eq!(entry.lexeme(), "y");
    assert_eq!(entry.line_number(), 2);
    assert_eq!(entry.start_pos(), 2);
    assert_eq!(entry.length(), 5);
    assert_eq!(entry.value_type(), &Token::LIST);
    assert_eq!(entry.value(), "Array");
    assert_eq!(entry.line(), "y,2,2,5,LIST,Array");
    assert_eq!(format!("{:?}", entry.value_type()), "LIST");
    assert_eq!(format!("{:?}", table.entry(0).value_type()), "INT(\"5\")");
}

#[test]
fn assignments_leave_entries() {
    let table = table_of("x = 5\ny = 2.5\n1 + 2\nz = list[2]\nw = z[1]\nu = 3 + 4\nv = x\nn = -7");
    assert_eq!(
        table.output(),
        vec![
            "x,1,0,1,INT(\"5\"),5",
            "y,2,2,3,REAL(\"2.5\"),2.5",
            "z,4,6,5,LIST,Array",
            "w,5,12,4,INT(\"1\"),z[1]",
        ]
    );
}

#[test]
fn elements_have_the_type_of_their_list() {
    let table = table_of("a = list[2] = 2.5\nb = a[0]\nc = list[2] = 3\nd = c[1]\ne = q[0]");
    assert_eq!(
        table.output(),
        vec![
            "a,1,0,5,LIST,Array",
            "b,2,6,4,REAL(\"0\"),a[0]",
            "c,3,11,5,LIST,Array",
            "d,4,17,4,INT(\"1\"),c[1]",
        ]
    );
}

#[test]
fn errors_leave_no_entry_but_count_as_lines() {
    let table = table_of("x = 1\ny\nz = 2");
    assert_eq!(table.output(), vec!["x,1,0,1,INT(\"1\"),1", "z,3,2,1,INT(\"2\"),2"]);
}

#[test]
fn names_are_found_at_their_first_entry() {
    let mut d: Dict<usize> = Dict::new();
    assert_eq!(d.len(), 0);
    assert!(!d.contains_key(&"a".to_string()));
    assert_eq!(d.get(&"a".to_string()), None);
    d.insert("a".to_string(), 1);
    d.insert("b".to_string(), 2);
    d.insert("a".to_string(), 3);
    assert_eq!(d.len(), 2);
    assert_eq!(d.get(&"a".to_string()), Some(&3));
    assert_eq!(d.get(&"b".to_string()), Some(&2));
    assert_eq!(d.position(&"b".to_string()), Some(1));
    assert_eq!(d.position(&"c".to_string()), None);
    assert_eq!(d.name_at(0), "a");
    assert_eq!(d.value_at(1), &2);
}
