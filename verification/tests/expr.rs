use fact_rule_event::expr::{chars_of, evaluate_tree, parse_expr, space_char, tokenize};
use fact_rule_event::{
    compile_expr, Answer, BinaryOp, Expr, FactValue, LayeredFactDatabase,
    Operand, Request, Token,
};

fn arithmetic(request: Request) -> Answer {
    let value: f64 = match request {
        Request::Literal(text) => match text.parse() {
            Ok(value) => value,
            Err(_) => return Answer::Nothing,
        },
        Request::FromInt(v) => v as f64,
        Request::Apply(op, left, right) => {
            let (l, r) = (f64::from_bits(left), f64::from_bits(right));
            match op {
                BinaryOp::Plus => l + r,
                BinaryOp::Minus => l - r,
                BinaryOp::Times => l * r,
                BinaryOp::Divide => l / r,
                BinaryOp::Remainder => l % r,
            }
        }
        Request::Clamp(v, min, max) => {
            f64::from_bits(v).clamp(f64::from_bits(min), f64::from_bits(max))
        }
        Request::Whole(v) => {
            let value = f64::from_bits(v);
            return if value.fract() == 0.0 {
                Answer::Integer(value as i64)
            } else {
                Answer::Nothing
            };
        }
    };
    Answer::Number(value.to_bits())
}

fn evaluate_expr(expr: &str, db: &LayeredFactDatabase) -> Option<f64> {
    fact_rule_event::evaluate_expr(expr, db, &arithmetic).map(f64::from_bits)
}

fn evaluate_expr_to_fact(expr: &str, db: &LayeredFactDatabase) -> Option<FactValue> {
    fact_rule_event::evaluate_expr_to_fact(expr, db, &arithmetic)
}

fn float(value: f64) -> FactValue {
    FactValue::Float(value.to_bits())
}

#[test]
fn test_simple_number() {
    let db = LayeredFactDatabase::new();
    assert_eq!(evaluate_expr("42", &db), Some(42.0));
    assert_eq!(evaluate_expr("3.14", &db), Some(3.14));
    assert_eq!(evaluate_expr("-5", &db), Some(-5.0));
}

#[test]
fn test_arithmetic() {
    let db = LayeredFactDatabase::new();
    assert_eq!(evaluate_expr("1 + 2", &db), Some(3.0));
    assert_eq!(evaluate_expr("10 - 3", &db), Some(7.0));
    assert_eq!(evaluate_expr("4 * 5", &db), Some(20.0));
    assert_eq!(evaluate_expr("20 / 4", &db), Some(5.0));
    assert_eq!(evaluate_expr("10 % 3", &db), Some(1.0));
}

#[test]
fn test_precedence() {
    let db = LayeredFactDatabase::new();
    assert_eq!(evaluate_expr("2 + 3 * 4", &db), Some(14.0));
    assert_eq!(evaluate_expr("(2 + 3) * 4", &db), Some(20.0));
}

#[test]
fn test_variable() {
    let mut db = LayeredFactDatabase::new();
    db.set_local("x", 10i64.into());
    db.set_local("y", 5i64.into());

    assert_eq!(evaluate_expr("$x", &db), Some(10.0));
    assert_eq!(evaluate_expr("$x + $y", &db), Some(15.0));
    assert_eq!(evaluate_expr("$x * 2 + $y", &db), Some(25.0));
}

#[test]
fn test_namespaced_variable() {
    let mut db = LayeredFactDatabase::new();
    db.set_local("menu:selection", 3i64.into());

    assert_eq!(evaluate_expr("$menu:selection", &db), Some(3.0));
    assert_eq!(evaluate_expr("$menu:selection - 1", &db), Some(2.0));
}

#[test]
fn precedence_gives_whole_numbers_as_int() {
    let db = LayeredFactDatabase::new();
    assert_eq!(evaluate_expr_to_fact("2 + 3 * 4", &db), Some(FactValue::Int(14)));
    assert_eq!(evaluate_expr_to_fact("(2 + 3) * 4", &db), Some(FactValue::Int(20)));
    assert_eq!(evaluate_expr_to_fact("1 / 4", &db), Some(FactValue::Float(0.25f64.to_bits())));
}

#[test]
fn variable_minus_one() {
    let mut db = LayeredFactDatabase::new();
    assert_eq!(evaluate_expr("$x - 1", &db), None);
    db.set_local("x", 5i64.into());
    assert_eq!(evaluate_expr("$x - 1", &db), Some(4.0));
}

#[test]
fn division_by_zero_is_zero() {
    let db = LayeredFactDatabase::new();
    assert_eq!(evaluate_expr("10 / 0", &db), Some(0.0));
    assert_eq!(evaluate_expr("10 % 0", &db), Some(0.0));
    assert_eq!(evaluate_expr("10 / -0", &db), Some(0.0));
    assert_eq!(evaluate_expr("10 / (1 - 1)", &db), Some(0.0));
    assert_eq!(evaluate_expr_to_fact("10 / 0", &db), Some(FactValue::Int(0)));
}

#[test]
fn variables_resolve_by_variant() {
    let mut db = LayeredFactDatabase::new();
    db.set_global("f", FactValue::Float(1.5f64.to_bits()));
    db.set_local("t", true.into());
    db.set_local("u", false.into());
    db.set_local("s", "seven".into());
    db.set_local("list", FactValue::IntList(vec![1]));
    assert_eq!(evaluate_expr("$f * 2", &db), Some(3.0));
    assert_eq!(evaluate_expr("$t + $t + $u", &db), Some(2.0));
    assert_eq!(evaluate_expr("$s", &db), None);
    assert_eq!(evaluate_expr("$list", &db), None);
    assert_eq!(evaluate_expr("1 + $missing", &db), None);
}

#[test]
fn local_fact_shadows_global_in_expressions() {
    let mut db = LayeredFactDatabase::new();
    db.set_global("x", 1i64.into());
    assert_eq!(evaluate_expr("$x", &db), Some(1.0));
    db.set_local("x", 2i64.into());
    assert_eq!(evaluate_expr("$x", &db), Some(2.0));
}

#[test]
fn malformed_expressions_give_nothing() {
    let mut db = LayeredFactDatabase::new();
    db.set_local("x", 1i64.into());
    for text in [
        "", "   ", "(", ")", "(1", "1)", "1 +", "+", "* 2", "1 2", "1 + + 2", "1 & 2", "abc", "$",
        "$ x", "$x$", "1.2.3", "-.", "()", "1 + (2", "2 * (3 + 4))", "x", "1,2", "$é",
    ] {
        assert_eq!(evaluate_expr(text, &db), None, "{:?}", text);
    }
}

#[test]
fn signs_and_unary_minus() {
    let mut db = LayeredFactDatabase::new();
    db.set_local("x", 3i64.into());
    assert_eq!(evaluate_expr("2 - 3", &db), Some(-1.0));
    assert_eq!(evaluate_expr("2 -3", &db), Some(-1.0));
    assert_eq!(evaluate_expr("2 - -3", &db), Some(5.0));
    assert_eq!(evaluate_expr("2 * -3", &db), Some(-6.0));
    assert_eq!(evaluate_expr("(-3)", &db), Some(-3.0));
    assert_eq!(evaluate_expr("-$x", &db), Some(-3.0));
    assert_eq!(evaluate_expr("-(1 + 2)", &db), Some(-3.0));
    assert_eq!(evaluate_expr("- 3", &db), Some(-3.0));
    assert_eq!(evaluate_expr("--3", &db), Some(3.0));
    assert_eq!(evaluate_expr("-.5", &db), Some(-0.5));
    assert_eq!(evaluate_expr("5.", &db), Some(5.0));
    assert_eq!(evaluate_expr("$x-1", &db), Some(2.0));
}

#[test]
fn operators_of_one_rank_group_to_the_left() {
    let db = LayeredFactDatabase::new();
    assert_eq!(evaluate_expr("10 - 3 - 2", &db), Some(5.0));
    assert_eq!(evaluate_expr("100 / 10 / 5", &db), Some(2.0));
    assert_eq!(evaluate_expr("7 % 4 * 2", &db), Some(6.0));
    assert_eq!(evaluate_expr("2 * (3 + 4) - 1", &db), Some(13.0));
    assert_eq!(evaluate_expr("((((1))))", &db), Some(1.0));
    assert_eq!(evaluate_expr(" \t1\n+\u{a0}2 ", &db), Some(3.0));
}

#[test]
fn tokens_of_an_expression() {
    let mut db = LayeredFactDatabase::new();
    db.set_local("x", 7i64.into());
    let tokens = tokenize("($x - 1.5) % -2", &db).unwrap();
    assert_eq!(
        tokens,
        vec![
            Token::LParen,
            Token::Number(Operand::Int(7)),
            Token::Op('-'),
            Token::Number(Operand::Literal("1.5".to_string())),
            Token::RParen,
            Token::Op('%'),
            Token::Number(Operand::Literal("-2".to_string())),
        ]
    );
    assert_eq!(tokenize("", &db), Some(vec![]));
    assert_eq!(tokenize("1 # 2", &db), None);
    let (_, end) = parse_expr(&tokens, 0).unwrap();
    assert_eq!(end, tokens.len());
    let (_, end) = parse_expr(&tokens, 1).unwrap();
    assert_eq!(end, 4);
    assert!(parse_expr(&tokens, 7).is_none());
}

#[test]
fn tree_of_an_expression() {
    let db = LayeredFactDatabase::new();
    match compile_expr("1 + 2 * 3", &db).unwrap() {
        Expr::Binary(BinaryOp::Plus, left, right) => {
            assert!(matches!(*left, Expr::Value(Operand::Literal(ref t)) if t == "1"));
            assert!(matches!(*right, Expr::Binary(BinaryOp::Times, _, _)));
        }
        other => panic!("{:?}", other),
    }
}

#[test]
fn white_space_is_what_the_standard_library_says() {
    let mut c = 0u32;
    while c <= 0x10ffff {
        if let Some(ch) = char::from_u32(c) {
            assert_eq!(space_char(ch), ch.is_whitespace(), "{:x}", c);
        }
        c += 1;
    }
}

#[test]
fn characters_of_a_text() {
    assert_eq!(chars_of("aé→z"), vec!['a', 'é', '→', 'z']);
    assert_eq!(chars_of(""), Vec::<char>::new());
}

#[test]
fn names_behind_the_dollar_are_ascii() {
    let mut db = LayeredFactDatabase::new();
    db.set_local("a_b:c9", 4i64.into());
    db.set_local("a", 1i64.into());
    assert_eq!(evaluate_expr("$a_b:c9", &db), Some(4.0));
    assert_eq!(evaluate_expr("$a + 1", &db), Some(2.0));
    assert_eq!(evaluate_expr("$a.b", &db), None);
}

#[test]
fn zero_divisors_are_not_asked() {
    let db = LayeredFactDatabase::new();
    let refuses_division = |request: Request| match request {
        Request::Apply(BinaryOp::Divide, _, _) | Request::Apply(BinaryOp::Remainder, _, _) => {
            Answer::Nothing
        }
        other => arithmetic(other),
    };
    assert_eq!(fact_rule_event::evaluate_expr("5 / 0", &db, &refuses_division), Some(0.0f64.to_bits()));
    assert_eq!(fact_rule_event::evaluate_expr("5 % (2 - 2)", &db, &refuses_division), Some(0));
    assert_eq!(fact_rule_event::evaluate_expr("5 / -0", &db, &refuses_division), Some(0));
    assert_eq!(fact_rule_event::evaluate_expr("5 / 1", &db, &refuses_division), None);
    assert_eq!(fact_rule_event::evaluate_expr("1 + 5 % 2", &db, &refuses_division), None);
}

#[test]
fn negation_flips_the_sign() {
    let tree = Expr::Negate(Box::new(Expr::Value(Operand::Float(1.5f64.to_bits()))));
    assert_eq!(evaluate_tree(&tree, &arithmetic).map(f64::from_bits), Some(-1.5));
    let zero = Expr::Negate(Box::new(Expr::Value(Operand::Float(0.0f64.to_bits()))));
    assert_eq!(evaluate_tree(&zero, &arithmetic), Some((-0.0f64).to_bits()));
    let nan = Expr::Negate(Box::new(Expr::Value(Operand::Float(f64::NAN.to_bits()))));
    assert_eq!(evaluate_tree(&nan, &arithmetic), Some((-f64::NAN).to_bits()));
    let truth = Expr::Negate(Box::new(Expr::Value(Operand::Bool(true))));
    assert_eq!(evaluate_tree(&truth, &arithmetic).map(f64::from_bits), Some(-1.0));
}

#[test]
fn booleans_count_as_one_and_zero() {
    assert_eq!(fact_rule_event::expr::ONE_BITS, 1.0f64.to_bits());
    assert_eq!(fact_rule_event::expr::ZERO_BITS, 0.0f64.to_bits());
    let truth = Expr::Value(Operand::Bool(true));
    assert_eq!(evaluate_tree(&truth, &arithmetic).map(f64::from_bits), Some(1.0));
    let falsehood = Expr::Value(Operand::Bool(false));
    assert_eq!(evaluate_tree(&falsehood, &arithmetic).map(f64::from_bits), Some(0.0));
}

#[test]
fn operands_are_asked_from_left_to_right() {
    let db = LayeredFactDatabase::new();
    let asked = std::cell::RefCell::new(Vec::new());
    let recording = |request: Request| {
        asked.borrow_mut().push(format!("{:?}", request));
        arithmetic(request)
    };
    assert_eq!(fact_rule_event::evaluate_expr("1 + 2 * 3", &db, &recording).map(f64::from_bits), Some(7.0));
    let two = 2.0f64.to_bits();
    let three = 3.0f64.to_bits();
    let one = 1.0f64.to_bits();
    let six = 6.0f64.to_bits();
    assert_eq!(
        *asked.borrow(),
        vec![
            "Literal(\"1\")".to_string(),
            "Literal(\"2\")".to_string(),
            "Literal(\"3\")".to_string(),
            format!("Apply(Times, {}, {})", two, three),
            format!("Apply(Plus, {}, {})", one, six),
        ]
    );
}

#[test]
fn unanswered_literal_gives_nothing() {
    let tree = Expr::Value(Operand::Literal("not a number".to_string()));
    assert_eq!(evaluate_tree(&tree, &arithmetic), None);
}

#[test]
fn value_as_a_fact() {
    let mut db = LayeredFactDatabase::new();
    db.set_local("big", float(1.0e19));
    db.set_local("edge", float(9223372036854775808.0));
    db.set_local("below", float(-9223372036854774784.0));
    db.set_local("inf", float(f64::INFINITY));
    db.set_local("nan", float(f64::NAN));
    assert_eq!(evaluate_expr_to_fact("7 / 2", &db), Some(float(3.5)));
    assert_eq!(evaluate_expr_to_fact("8 / 2", &db), Some(FactValue::Int(4)));
    assert_eq!(evaluate_expr_to_fact("-8 / 2", &db), Some(FactValue::Int(-4)));
    assert_eq!(evaluate_expr_to_fact("$big", &db), Some(float(1.0e19)));
    assert_eq!(evaluate_expr_to_fact("$edge", &db), Some(float(9223372036854775808.0)));
    assert_eq!(
        evaluate_expr_to_fact("$below", &db),
        Some(FactValue::Int(-9223372036854774784))
    );
    assert_eq!(evaluate_expr_to_fact("$inf", &db), Some(float(f64::INFINITY)));
    assert!(matches!(evaluate_expr_to_fact("$nan", &db), Some(FactValue::Float(_))));
    assert_eq!(evaluate_expr_to_fact("1 +", &db), None);
    assert_eq!(evaluate_expr_to_fact("$missing", &db), None);
}

#[test]
fn add_keeps_integers_whole() {
    let mut db = LayeredFactDatabase::new();
    db.set_global("n", 10i64.into());
    db.add("n", 5.0f64.to_bits(), &arithmetic);
    assert_eq!(db.local().get_by_str("n"), Some(&FactValue::Int(15)));
    assert_eq!(db.global().get_int("n"), Some(10));
    db.add("n", 0.5f64.to_bits(), &arithmetic);
    assert_eq!(db.get_by_str("n"), Some(&float(15.5)));
    db.add("n", 0.5f64.to_bits(), &arithmetic);
    assert_eq!(db.get_by_str("n"), Some(&float(16.0)));
    db.add("new", 3.0f64.to_bits(), &arithmetic);
    assert_eq!(db.get_by_str("new"), Some(&FactValue::Int(3)));
    db.add("half", 0.5f64.to_bits(), &arithmetic);
    assert_eq!(db.get_by_str("half"), Some(&float(0.5)));
    db.set("text", "t".into());
    db.add("text", 2.0f64.to_bits(), &arithmetic);
    assert_eq!(db.get_by_str("text"), Some(&FactValue::Int(2)));
}

#[test]
fn sub_adds_the_negative() {
    let mut db = LayeredFactDatabase::new();
    db.set("n", 10i64.into());
    db.sub("n", 3.0f64.to_bits(), &arithmetic);
    assert_eq!(db.get_by_str("n"), Some(&FactValue::Int(7)));
    db.sub("n", 0.25f64.to_bits(), &arithmetic);
    assert_eq!(db.get_by_str("n"), Some(&float(6.75)));
    db.sub("new", 1.0f64.to_bits(), &arithmetic);
    assert_eq!(db.get_by_str("new"), Some(&FactValue::Int(-1)));
}

#[test]
fn mul_and_div_scale_the_number() {
    let mut db = LayeredFactDatabase::new();
    db.set("n", 6i64.into());
    db.mul("n", 2.0f64.to_bits(), &arithmetic);
    assert_eq!(db.get_by_str("n"), Some(&FactValue::Int(12)));
    db.mul("n", 0.125f64.to_bits(), &arithmetic);
    assert_eq!(db.get_by_str("n"), Some(&float(1.5)));
    db.mul("n", 2.0f64.to_bits(), &arithmetic);
    assert_eq!(db.get_by_str("n"), Some(&float(3.0)));
    db.mul("missing", 2.0f64.to_bits(), &arithmetic);
    assert!(!db.contains("missing"));

    db.set("d", 9i64.into());
    db.div("d", 3.0f64.to_bits(), &arithmetic);
    assert_eq!(db.get_by_str("d"), Some(&FactValue::Int(3)));
    db.div("d", 2.0f64.to_bits(), &arithmetic);
    assert_eq!(db.get_by_str("d"), Some(&float(1.5)));
    db.div("missing", 2.0f64.to_bits(), &arithmetic);
    assert!(!db.contains("missing"));
    db.set("text", "t".into());
    db.div("text", 2.0f64.to_bits(), &arithmetic);
    assert_eq!(db.get_string("text"), Some("t"));
}

#[test]
fn div_by_zero_sets_the_fact_to_zero() {
    let mut db = LayeredFactDatabase::new();
    db.set("n", float(4.5));
    db.div("n", 0.0f64.to_bits(), &arithmetic);
    assert_eq!(db.get_by_str("n"), Some(&FactValue::Int(0)));
    db.div("missing", (-0.0f64).to_bits(), &arithmetic);
    assert_eq!(db.get_by_str("missing"), Some(&FactValue::Int(0)));
    db.set("text", "t".into());
    db.div("text", 0.0f64.to_bits(), &arithmetic);
    assert_eq!(db.get_by_str("text"), Some(&FactValue::Int(0)));
}

#[test]
fn clamp_brings_the_number_into_the_range() {
    let mut db = LayeredFactDatabase::new();
    db.set("n", 15i64.into());
    db.clamp("n", 0.0f64.to_bits(), 10.0f64.to_bits(), &arithmetic);
    assert_eq!(db.get_by_str("n"), Some(&FactValue::Int(10)));
    db.clamp("n", 0.0f64.to_bits(), 2.5f64.to_bits(), &arithmetic);
    assert_eq!(db.get_by_str("n"), Some(&float(2.5)));
    db.clamp("n", 3.0f64.to_bits(), 4.0f64.to_bits(), &arithmetic);
    assert_eq!(db.get_by_str("n"), Some(&float(3.0)));
    db.clamp("missing", 0.0f64.to_bits(), 1.0f64.to_bits(), &arithmetic);
    assert!(!db.contains("missing"));
}

#[test]
fn helpers_write_nothing_without_an_answer() {
    let silent = |_: Request| Answer::Nothing;
    let mut db = LayeredFactDatabase::new();
    db.set("n", 6i64.into());
    db.mul("n", 2.0f64.to_bits(), &silent);
    db.add("n", 2.0f64.to_bits(), &silent);
    db.clamp("n", 0.0f64.to_bits(), 1.0f64.to_bits(), &silent);
    assert_eq!(db.get_by_str("n"), Some(&FactValue::Int(6)));
    db.set("f", float(1.0));
    db.add("f", 2.0f64.to_bits(), &silent);
    assert_eq!(db.get_by_str("f"), Some(&float(1.0)));
    db.add("new", 2.0f64.to_bits(), &silent);
    assert_eq!(db.get_by_str("new"), Some(&float(2.0)));
}
