use gate::{Data, Parser, Program};

fn num(x: f64) -> Data {
    Data::Number(x.to_bits())
}

fn run(program: &mut Program, input: &str) -> Result<Data, gate::ExecuteError> {
    let mut parser = Parser::new(input);
    let mut last = Ok(Data::Nil);
    while let Some(expr) = parser.next() {
        last = expr.unwrap().eval(program);
        if last.is_err() {
            return last;
        }
    }
    last
}

#[test]
fn test_counting_loop_program() {
    // A loop counting up from zero ends with the counter's final value and
    // leaves the counter bound in the enclosing frame.
    let mut p = Program::new();
    let out = run(&mut p, "x = 0 while x < 5 { x = x + 1 } x").unwrap();
    assert_eq!(out, num(5.0));
    assert_eq!(p.var("x"), Some(num(5.0)));
}

#[test]
fn test_block_bindings_do_not_leak() {
    // A binding first made inside a block dies with the block's frame.
    let mut p = Program::new();
    let out = run(&mut p, "{ y = 1 y }").unwrap();
    assert_eq!(out, num(1.0));
    assert_eq!(p.var("y"), None);
    assert_eq!(
        run(&mut p, "y"),
        Err(gate::ExecuteError::UndefinedVar("y".to_owned()))
    );
}

#[test]
fn test_chained_assignment_program() {
    let mut p = Program::new();
    let out = run(&mut p, "z = 3 x = y = z").unwrap();
    assert_eq!(out, num(3.0));
    assert_eq!(p.var("x"), Some(num(3.0)));
    assert_eq!(p.var("y"), Some(num(3.0)));
}

#[test]
fn test_precedence_program() {
    let mut p = Program::new();
    assert_eq!(run(&mut p, "1 + 2 * 3").unwrap(), num(7.0));
    assert_eq!(run(&mut p, "1 * 2 + 3").unwrap(), num(5.0));
    assert_eq!(run(&mut p, "1 + 2 == 3").unwrap(), Data::Boolean(true));
}

#[test]
fn test_string_equality_program() {
    let mut p = Program::new();
    assert_eq!(
        run(&mut p, r#""foo" == "foo""#).unwrap(),
        Data::Boolean(true)
    );
    assert_eq!(
        run(&mut p, r#""foo" == 1"#).unwrap(),
        Data::Boolean(false)
    );
}
