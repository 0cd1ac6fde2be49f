use nemo::ast::{Decimal, Expr, Op};
use nemo::lexer::ParseError;
use nemo::parser::{parse_Definition, parse_Expr, parse_Program};
use nemo::render::{definition_to_string, expr_to_string, program_to_string};

fn s(x: &str) -> String {
    String::from(x)
}

/// The literal that stands for a number, as the parser keeps it.
fn decimal(value: f64) -> Decimal {
    let text = format!("{}", value);
    match text.split_once('.') {
        Some((whole, fraction)) => {
            let digits = format!("{}{}", whole, fraction);
            Decimal::new(digits.parse().unwrap(), fraction.len() as u8)
        },
        None => Decimal::whole(text.parse().unwrap()),
    }
}

fn num(value: f64) -> Box<Expr> {
    Box::new(Expr::Number(decimal(value)))
}

fn name(x: &str) -> Box<Expr> {
    Box::new(Expr::Name(s(x)))
}

#[test]
fn test_parsing_number() {
    let expected = num(22.0);
    assert_eq!(parse_Expr("22").unwrap(), expected);
    assert_eq!(parse_Expr("(22)").unwrap(), expected);
    assert_eq!(parse_Expr("((((((22))))))").unwrap(), expected);
}

#[test]
fn test_parsing_expressions() {
    let expected = Box::new(Expr::Binary(
        num(22.0),
        Op::Plus,
        Box::new(Expr::Binary(name("foo"), Op::Times, num(2.0))),
    ));
    assert_eq!(parse_Expr("22+foo*2").unwrap(), expected);
}

#[test]
fn test_parsing_names() {
    let expected = name("foo");
    assert_eq!(parse_Expr("foo").unwrap(), expected);
    assert_eq!(parse_Expr("(foo)").unwrap(), expected);
}

#[test]
fn test_call_parsing() {
    let expected = Box::new(Expr::Call(name("foo"), vec![]));
    assert_eq!(parse_Expr("foo()").unwrap(), expected);
    let expected = Box::new(Expr::Call(name("foo"), vec![num(1.0)]));
    assert_eq!(parse_Expr("foo(1)").unwrap(), expected);
    let expected = Box::new(Expr::Call(name("foo"), vec![num(1.0), num(2.0), num(3.0)]));
    assert_eq!(parse_Expr("foo(1, 2, 3)").unwrap(), expected);
    let expected = Box::new(Expr::Call(
        name("foo"),
        vec![Box::new(Expr::Binary(num(1.0), Op::Plus, num(2.0)))],
    ));
    assert_eq!(parse_Expr("foo(1 + 2)").unwrap(), expected);
    let expected = Box::new(Expr::Call(
        name("foo"),
        vec![Box::new(Expr::Binary(num(1.0), Op::Plus, num(2.0))), num(3.0)],
    ));
    assert_eq!(parse_Expr("foo(1 + 2, 3)").unwrap(), expected);
    let expected = Box::new(Expr::Call(
        Box::new(Expr::Binary(num(1.0), Op::Plus, num(2.0))),
        vec![Box::new(Expr::Binary(num(1.0), Op::Plus, num(2.0))), num(3.0)],
    ));
    assert_eq!(parse_Expr("(1.0 + 2)(1 + 2, 3)").unwrap(), expected);
}

#[test]
fn test_lambda_parsing() {
    let expected = Box::new(Expr::Lambda(
        vec![s("x"), s("y")],
        Box::new(Expr::Binary(name("x"), Op::Plus, num(1.0))),
    ));
    assert_eq!(parse_Expr(r"|x, y| -> (x + 1)").unwrap(), expected);
    let expected = Box::new(Expr::Lambda(
        vec![s("x")],
        Box::new(Expr::Binary(name("x"), Op::Plus, num(1.0))),
    ));
    assert_eq!(parse_Expr(r"x -> (x + 1.0)").unwrap(), expected);
    assert_eq!(parse_Expr(r"|x| -> x + 1").unwrap(), expected);
}

#[test]
fn test_pipe_parsing() {
    let expected = Box::new(Expr::Binary(
        Box::new(Expr::Binary(
            Box::new(Expr::Call(name("range"), vec![num(10.0)])),
            Op::Pipe,
            Box::new(Expr::Call(
                name("map"),
                vec![Box::new(Expr::Lambda(
                    vec![s("x")],
                    Box::new(Expr::Binary(name("x"), Op::Times, name("x"))),
                ))],
            )),
        )),
        Op::Pipe,
        Box::new(Expr::Call(
            name("foreach"),
            vec![Box::new(Expr::Lambda(
                vec![s("x")],
                Box::new(Expr::Call(name("display"), vec![name("x")])),
            ))],
        )),
    ));
    let got = parse_Expr(r"range(10) | map(x -> x * x) | foreach(x -> display(x))").unwrap();
    assert_eq!(got, expected);
}

#[test]
fn test_assignment_parsing() {
    let expected = Box::new(Expr::Assignment(s("spam"), num(1.0)));
    let got = parse_Expr("spam := 1").unwrap();
    assert_eq!(got, expected);
}

#[test]
fn test_push_parsing() {
    let expected = Box::new(Expr::Push(num(1.0)));
    let got = parse_Expr("push 1").unwrap();
    assert_eq!(got, expected);
}

#[test]
fn test_block_parsing() {
    let expected = Box::new(Expr::Block(vec![
        Box::new(Expr::Assignment(s("spam"), num(1.0))),
        Box::new(Expr::Push(num(1.0))),
    ]));
    let got = parse_Expr(r"{spam := 1; push 1}").unwrap();
    assert_eq!(expected, got);
}

#[test]
fn test_if_else_parsing() {
    let expected = Box::new(Expr::If(num(1.0), num(2.0), num(3.0)));
    let got = parse_Expr(r"if 1 then 2 else 3").unwrap();
    assert_eq!(expected, got);
    let expected = Box::new(Expr::Lambda(
        vec![s("x")],
        Box::new(Expr::If(num(1.0), num(2.0), num(3.0))),
    ));
    let got = parse_Expr(r"x -> if 1 then 2 else 3").unwrap();
    assert_eq!(expected, got);
}

#[test]
fn test_while_parsing() {
    let expected = Box::new(Expr::While(num(1.0), num(2.0)));
    let got = parse_Expr(r"while 1 do 2").unwrap();
    assert_eq!(expected, got);
}

#[test]
fn test_program_parsing() {
    let expected = r#"[Definition { prototype: Prototype { name: "add", args: ["x"] }, body: Binary(Name("x"), Plus, Number(1)) }, Definition { prototype: Prototype { name: "bar", args: ["y"] }, body: Binary(Name("y"), Times, Number(2)) }]"#;
    let got = program_to_string(
        &parse_Program(
            r"add(x) => x + 1
        bar(y) => y * 2",
        )
        .unwrap(),
    );
    assert_eq!(got, expected);
}

#[test]
fn operators_group_to_the_left_and_by_level() {
    assert_eq!(
        expr_to_string(&parse_Expr("1 - 2 - 3").unwrap()),
        "Binary(Binary(Number(1), Minus, Number(2)), Minus, Number(3))"
    );
    assert_eq!(
        expr_to_string(&parse_Expr("a or b and c = d + e * f").unwrap()),
        "Binary(Name(\"a\"), Or, Binary(Name(\"b\"), And, Binary(Name(\"c\"), Equals, Binary(Name(\"d\"), Plus, Binary(Name(\"e\"), Times, Name(\"f\"))))))"
    );
    assert_eq!(
        expr_to_string(&parse_Expr("a / b % c > d < e").unwrap()),
        "Binary(Binary(Binary(Binary(Name(\"a\"), Slash, Name(\"b\")), Percent, Name(\"c\")), Greater, Name(\"d\")), Lesser, Name(\"e\"))"
    );
}

#[test]
fn literals_and_reserved_words() {
    assert_eq!(parse_Expr("true").unwrap(), Box::new(Expr::Bool(true)));
    assert_eq!(parse_Expr("false").unwrap(), Box::new(Expr::Bool(false)));
    assert_eq!(parse_Expr("pull").unwrap(), Box::new(Expr::Pull));
    assert_eq!(parse_Expr("FinishedPipe").unwrap(), Box::new(Expr::FinishedPipe));
    assert_eq!(parse_Expr("return x").unwrap(), Box::new(Expr::Return(name("x"))));
    assert_eq!(parse_Expr("iffy").unwrap(), name("iffy"));
    assert_eq!(parse_Expr("_x1").unwrap(), name("_x1"));
}

#[test]
fn number_literals_keep_their_value() {
    assert_eq!(
        parse_Expr("1.50").unwrap(),
        Box::new(Expr::Number(Decimal { mantissa: 15, scale: 1 }))
    );
    assert_eq!(parse_Expr("1.50").unwrap(), num(1.5));
    assert_eq!(parse_Expr("0.25").unwrap(), num(0.25));
    assert_eq!(
        parse_Expr("0.05").unwrap(),
        Box::new(Expr::Number(Decimal { mantissa: 5, scale: 2 }))
    );
    assert_eq!(parse_Expr("10").unwrap(), num(10.0));
    assert_eq!(parse_Expr("10.000").unwrap(), num(10.0));
    assert_eq!(
        parse_Expr("18446744073709551615").unwrap(),
        Box::new(Expr::Number(Decimal::whole(18446744073709551615)))
    );
    assert_eq!(expr_to_string(&parse_Expr("1.50").unwrap()), "Number(1.5)");
    assert_eq!(expr_to_string(&parse_Expr("0.05").unwrap()), "Number(0.05)");
    assert_eq!(expr_to_string(&parse_Expr("120.25").unwrap()), "Number(120.25)");
    assert_eq!(expr_to_string(&parse_Expr("0").unwrap()), "Number(0)");
}

#[test]
fn decimal_new_drops_trailing_zeros() {
    assert_eq!(Decimal::new(1500, 3), Decimal { mantissa: 15, scale: 1 });
    assert_eq!(Decimal::new(10, 0), Decimal { mantissa: 10, scale: 0 });
    assert_eq!(Decimal::new(0, 4), Decimal { mantissa: 0, scale: 0 });
    assert_eq!(Decimal::whole(7), Decimal { mantissa: 7, scale: 0 });
}

#[test]
fn lists_may_be_empty_and_end_in_a_separator() {
    assert_eq!(parse_Expr("{}").unwrap(), Box::new(Expr::Block(vec![])));
    assert_eq!(
        parse_Expr("{1; 2;}").unwrap(),
        Box::new(Expr::Block(vec![num(1.0), num(2.0)]))
    );
    assert_eq!(
        parse_Expr("f(1,)").unwrap(),
        Box::new(Expr::Call(name("f"), vec![num(1.0)]))
    );
    assert_eq!(
        parse_Expr("f(1)(2)").unwrap(),
        Box::new(Expr::Call(
            Box::new(Expr::Call(name("f"), vec![num(1.0)])),
            vec![num(2.0)]
        ))
    );
    assert_eq!(
        parse_Expr("|| -> 1").unwrap(),
        Box::new(Expr::Lambda(vec![], num(1.0)))
    );
}

#[test]
fn invalid_characters_are_invalid_tokens() {
    assert_eq!(parse_Expr("1 ? 2"), Err(ParseError::InvalidToken));
    assert_eq!(parse_Expr("caf\u{e9}"), Err(ParseError::InvalidToken));
    assert_eq!(parse_Expr("1 : 2"), Err(ParseError::InvalidToken));
    assert_eq!(parse_Expr("99999999999999999999"), Err(ParseError::InvalidToken));
    assert_eq!(parse_Program("f(x) => x !"), Err(ParseError::InvalidToken));
}

#[test]
fn misplaced_tokens_are_unrecognized() {
    assert_eq!(parse_Expr(""), Err(ParseError::UnrecognizedToken));
    assert_eq!(parse_Expr("1 +"), Err(ParseError::UnrecognizedToken));
    assert_eq!(parse_Expr("(1"), Err(ParseError::UnrecognizedToken));
    assert_eq!(parse_Expr("1 2"), Err(ParseError::UnrecognizedToken));
    assert_eq!(parse_Expr("if 1 then 2"), Err(ParseError::UnrecognizedToken));
    assert_eq!(parse_Expr("while 1 2"), Err(ParseError::UnrecognizedToken));
    assert_eq!(parse_Expr("f(1; 2)"), Err(ParseError::UnrecognizedToken));
    assert_eq!(parse_Expr("1."), Err(ParseError::InvalidToken));
    assert_eq!(parse_Program("f(x) x"), Err(ParseError::UnrecognizedToken));
    assert_eq!(parse_Definition("f(x) => x g(y) => y"), Err(ParseError::UnrecognizedToken));
}

#[test]
fn a_program_may_be_empty() {
    assert_eq!(parse_Program("").unwrap(), vec![]);
    assert_eq!(parse_Program("  \n\t ").unwrap(), vec![]);
    assert_eq!(program_to_string(&parse_Program("").unwrap()), "[]");
}

#[test]
fn a_definition_is_written_out_in_full() {
    let d = parse_Definition("twice(f, x) => f(f(x))").unwrap();
    assert_eq!(d.prototype.name, "twice");
    assert_eq!(d.prototype.args, vec![s("f"), s("x")]);
    assert_eq!(
        definition_to_string(&d),
        "Definition { prototype: Prototype { name: \"twice\", args: [\"f\", \"x\"] }, body: Call(Name(\"f\"), [Call(Name(\"f\"), [Name(\"x\")])]) }"
    );
}

#[test]
fn every_form_is_written_out() {
    let text = "{ x := |a, b| -> a; while pull do push x; if true then return 1 else FinishedPipe }";
    assert_eq!(
        expr_to_string(&parse_Expr(text).unwrap()),
        "Block([Assignment(\"x\", Lambda([\"a\", \"b\"], Name(\"a\"))), While(Pull, Push(Name(\"x\"))), If(Bool(true), Return(Number(1)), FinishedPipe)])"
    );
}

#[test]
fn the_stages_of_a_pipe_can_be_defined_in_the_language() {
    let text = "
display(x) => print(x)
range(n) => { i := 0; while i < n do { push i; i := i + 1 } }
map(f) => { x := pull; while (x = FinishedPipe) = false do { push f(x); x := pull } }
foreach(f) => { x := pull; while (x = FinishedPipe) = false do { f(x); x := pull } }
";
    let program = parse_Program(text).unwrap();
    let names: Vec<&str> = program.iter().map(|d| d.prototype.name.as_str()).collect();
    assert_eq!(names, vec!["display", "range", "map", "foreach"]);
    assert_eq!(
        definition_to_string(&program[1]),
        "Definition { prototype: Prototype { name: \"range\", args: [\"n\"] }, body: Block([Assignment(\"i\", Number(0)), While(Binary(Name(\"i\"), Lesser, Name(\"n\")), Block([Push(Name(\"i\")), Assignment(\"i\", Binary(Name(\"i\"), Plus, Number(1)))]))]) }"
    );
    assert_eq!(
        expr_to_string(&program[2].body),
        "Block([Assignment(\"x\", Pull), While(Binary(Binary(Name(\"x\"), Equals, FinishedPipe), Equals, Bool(false)), Block([Push(Call(Name(\"f\"), [Name(\"x\")])), Assignment(\"x\", Pull)]))])"
    );
}

#[test]
fn a_copy_of_an_expression_is_equal_to_it() {
    let e = parse_Expr("f(|x| -> { x := x + 1.5; if x > 2 then return x else pull }, y)").unwrap();
    let copy = e.clone();
    assert_eq!(copy, e);
    assert_eq!(expr_to_string(&copy), expr_to_string(&e));
    let d = parse_Definition("twice(f, x) => f(f(x))").unwrap();
    assert_eq!(d.clone(), d);
    assert_eq!(d.duplicate(), d);
    assert_eq!(d.prototype.clone(), d.prototype);
}
