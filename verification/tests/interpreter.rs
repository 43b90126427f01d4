use treewalk::error::ErrorType;
use treewalk::interpreter;
use treewalk::interpreter::{Action, Event, Interpreter};
use treewalk::parser::Parser;
use treewalk::render::Piece;
use treewalk::token::TokenType;
use treewalk::tokenizer::Tokenizer;
use treewalk::value::Value;

/// The text of a value, as `print` writes it.
fn written(machine: &Interpreter, value: &Value) -> String {
    let mut text = String::new();
    for piece in machine.render(value) {
        match piece {
            Piece::Text(part) => text.push_str(&part),
            Piece::Number(bits) => text.push_str(&format!("{}", f64::from_bits(bits))),
        }
    }
    text
}

/// Runs what is loaded to its end, doing what the machine asks for. Gives the
/// lines printed and the error, if the run ended in one.
fn drive(machine: &mut Interpreter, printed: &mut Vec<String>) -> Option<ErrorType> {
    let mut event = Event::Nothing;
    let mut steps: usize = 0;
    loop {
        steps += 1;
        assert!(steps < 1_000_000, "the program does not end");
        let action = machine.step(event);
        event = Event::Nothing;
        match action {
            Action::Continue => {}
            Action::Print(value) => printed.push(written(machine, &value)),
            Action::Numeral(text) => event = Event::Number(text.parse::<f64>().unwrap().to_bits()),
            Action::Arithmetic { operator, left, right } => {
                let (a, b) = (f64::from_bits(left), f64::from_bits(right));
                let result = match operator {
                    TokenType::Plus => a + b,
                    TokenType::Minus => a - b,
                    TokenType::Star => a * b,
                    TokenType::Slash => a / b,
                    _ => a % b,
                };
                event = Event::Number(result.to_bits());
            }
            Action::Comparison { operator, left, right } => {
                let (a, b) = (f64::from_bits(left), f64::from_bits(right));
                let result = match operator {
                    TokenType::Less => a < b,
                    TokenType::Greater => a > b,
                    TokenType::LessEqual => a <= b,
                    _ => a >= b,
                };
                event = Event::Truth(result);
            }
            Action::Done => return None,
            Action::Failed(error) => return Some(error),
        }
    }
}

/// Runs `source` on a new machine.
fn run(source: &str) -> (Vec<String>, Option<ErrorType>) {
    let mut machine = Interpreter::new();
    let mut printed = Vec::new();
    let error = run_on(&mut machine, source, &mut printed);
    (printed, error)
}

/// Runs `source` on `machine`.
fn run_on(machine: &mut Interpreter, source: &str, printed: &mut Vec<String>) -> Option<ErrorType> {
    interpreter::run(source, machine).expect("the text is statements");
    drive(machine, printed)
}

fn lines(printed: &[&str]) -> Vec<String> {
    printed.iter().map(|line| line.to_string()).collect()
}

#[test]
fn prints_values() {
    let (printed, error) = run("print 1 print true print null print \"text\" print [1, [2, \"a\"]] print 2.5");
    assert_eq!(error, None);
    assert_eq!(printed, lines(&["1", "true", "null", "text", "[1, [2, a]]", "2.5"]));
}

#[test]
fn arithmetic_follows_precedence() {
    let (printed, error) = run("var a = 2 print 5*1+2*(3-4/a) print 7 % 4 print -3 + 1");
    assert_eq!(error, None);
    assert_eq!(printed, lines(&["7", "3", "-2"]));
}

#[test]
fn strings_are_joined() {
    let (printed, error) = run("print \"ab\" + \"cd\"");
    assert_eq!(error, None);
    assert_eq!(printed, lines(&["abcd"]));
}

#[test]
fn assignment_groups_to_the_right() {
    let (printed, error) = run("var a = 1 var b = 2 a = b = 5 print a print b");
    assert_eq!(error, None);
    assert_eq!(printed, lines(&["5", "5"]));
}

#[test]
fn assignment_never_declares() {
    let (_, error) = run("a = 1");
    assert_eq!(error, Some(ErrorType::NameError { name: String::from("a"), line: 1 }));
}

#[test]
fn undefined_name_is_an_error() {
    let (_, error) = run("\nprint a");
    assert_eq!(error, Some(ErrorType::NameError { name: String::from("a"), line: 2 }));
}

#[test]
fn assignment_to_a_constant_is_an_error() {
    let (_, error) = run("5 = 3");
    assert_eq!(error, Some(ErrorType::InvalidAssignmentTarget { line: 1 }));
}

#[test]
fn for_loop_runs_as_while_loop() {
    let (printed, error) = run("for (var x = 5; x < 8; x = x + 1) {var y = x print y}");
    assert_eq!(error, None);
    assert_eq!(printed, lines(&["5", "6", "7"]));
}

#[test]
fn loop_body_has_a_scope_of_its_own() {
    let (_, error) = run("for (var x = 0; x < 2; x = x + 1) {var y = x} print y");
    assert_eq!(error, Some(ErrorType::NameError { name: String::from("y"), line: 1 }));
}

#[test]
fn block_scope_shadows_and_ends() {
    let (printed, error) = run("var a = 1 if (true) {var a = 2 print a} print a");
    assert_eq!(error, None);
    assert_eq!(printed, lines(&["2", "1"]));
}

#[test]
fn closure_sees_later_assignments() {
    let source = "func counter() {var n = 0 func next() {n = n + 1 return n} return next}
        var c = counter()
        print c()
        print c()
        var d = counter()
        print d()";
    let (printed, error) = run(source);
    assert_eq!(error, None);
    assert_eq!(printed, lines(&["1", "2", "1"]));
}

#[test]
fn function_sees_the_scope_of_its_declaration() {
    let source = "var a = 1
        func show() {print a}
        func other() {var a = 2 show()}
        other()
        a = 3
        show()";
    let (printed, error) = run(source);
    assert_eq!(error, None);
    assert_eq!(printed, lines(&["1", "3"]));
}

#[test]
fn call_without_return_is_null() {
    let (printed, error) = run("func f() {} print f()");
    assert_eq!(error, None);
    assert_eq!(printed, lines(&["null"]));
}

#[test]
fn call_arity() {
    let (printed, error) = run("func f(a, b) {return a + b} print f(1, 2)");
    assert_eq!(error, None);
    assert_eq!(printed, lines(&["3"]));
    let (_, error) = run("func f(a, b) {return a + b} f(1)");
    assert_eq!(
        error,
        Some(ErrorType::ArgParamNumberMismatch { arg_number: 1, param_number: 2, line: 1 })
    );
    let (_, error) = run("func f(a, b) {return a + b} f(1, 2, 3)");
    assert_eq!(
        error,
        Some(ErrorType::ArgParamNumberMismatch { arg_number: 3, param_number: 2, line: 1 })
    );
}

#[test]
fn calling_what_is_no_function() {
    let (_, error) = run("var a = 1 a()");
    assert_eq!(error, Some(ErrorType::CannotCallName { line: 1 }));
}

#[test]
fn break_ends_the_nearest_loop_only() {
    let source = "var i = 0
        while (i < 3) {
            var j = 0
            while (true) {
                if (true) {if (j == 2) {break}}
                j = j + 1
            }
            print j
            i = i + 1
        }
        print i";
    let (printed, error) = run(source);
    assert_eq!(error, None);
    assert_eq!(printed, lines(&["2", "2", "2", "3"]));
}

#[test]
fn return_leaves_loop_and_call() {
    let source = "func find() {var i = 0 while (true) {if (i == 3) {return i} i = i + 1}}
        print find()";
    let (printed, error) = run(source);
    assert_eq!(error, None);
    assert_eq!(printed, lines(&["3"]));
}

#[test]
fn break_outside_a_loop_is_an_error() {
    let (_, error) = run("\n\nbreak");
    assert_eq!(error, Some(ErrorType::ThrownBreak { line: 3 }));
}

#[test]
fn return_outside_a_function_is_an_error() {
    let (_, error) = run("return true");
    assert_eq!(error, Some(ErrorType::ThrownReturn { value: Value::Bool(true), line: 1 }));
}

#[test]
fn conditions_have_to_be_truth_values() {
    let (_, error) = run("if (1) {print 1}");
    assert_eq!(error, Some(ErrorType::IfConditionNotBoolean { line: 1 }));
    let (_, error) = run("while (null) {print 1}");
    assert_eq!(error, Some(ErrorType::LoopConditionNotBoolean { line: 1 }));
}

#[test]
fn else_branches() {
    let (printed, error) = run("var a = 3 if (a == 2) {print 2} else if (a == 3) {print 3} else {print 0}");
    assert_eq!(error, None);
    assert_eq!(printed, lines(&["3"]));
}

#[test]
fn logic_cuts_short() {
    let (printed, error) = run("print false and missing print true or missing print true and false");
    assert_eq!(error, None);
    assert_eq!(printed, lines(&["false", "true", "false"]));
    let (_, error) = run("print 1 and true");
    assert_eq!(
        error,
        Some(ErrorType::ExpectedType {
            expected: String::from("Bool"),
            got: String::from("Number"),
            line: 1
        })
    );
}

#[test]
fn unary_operators() {
    let (printed, error) = run("print !true print --5");
    assert_eq!(error, None);
    assert_eq!(printed, lines(&["false", "5"]));
    let (_, error) = run("print -true");
    assert_eq!(
        error,
        Some(ErrorType::ExpectedType {
            expected: String::from("Number"),
            got: String::from("Bool"),
            line: 1
        })
    );
    let (_, error) = run("print !1");
    assert_eq!(
        error,
        Some(ErrorType::ExpectedType {
            expected: String::from("Bool"),
            got: String::from("Number"),
            line: 1
        })
    );
}

#[test]
fn operands_have_to_match() {
    let (_, error) = run("print 1 + \"a\"");
    assert_eq!(
        error,
        Some(ErrorType::BinaryTypeError {
            expected: String::from("Number or String"),
            got_left: String::from("Number"),
            got_right: String::from("String"),
            line: 1
        })
    );
    let (_, error) = run("print true < 1");
    assert_eq!(
        error,
        Some(ErrorType::BinaryTypeError {
            expected: String::from("Number"),
            got_left: String::from("Bool"),
            got_right: String::from("Number"),
            line: 1
        })
    );
}

#[test]
fn division_by_zero() {
    let (_, error) = run("print 1 / 0");
    assert_eq!(error, Some(ErrorType::DivideByZero { line: 1 }));
    let (_, error) = run("print 1 % (1 - 1)");
    assert_eq!(error, Some(ErrorType::DivideByZero { line: 1 }));
}

#[test]
fn equality_is_structural() {
    let source = "print 1 == 1 print 1 == \"1\" print [1, [2]] == [1, [2]] print [1] == [2]
        print {1: [2]} == {1: [2]} print {1: 2} == {1: 3} print null != null print \"a\" != \"b\"
        func f() {} print f == f";
    let (printed, error) = run(source);
    assert_eq!(error, None);
    assert_eq!(
        printed,
        lines(&["true", "false", "true", "false", "true", "false", "false", "true", "true"])
    );
}

#[test]
fn arrays_are_shared() {
    let (printed, error) = run("var a = [1, 2] var b = a b[0] = 5 print a print a[1]");
    assert_eq!(error, None);
    assert_eq!(printed, lines(&["[5, 2]", "2"]));
}

#[test]
fn array_index_errors() {
    let (_, error) = run("var a = [1, 2] print a[2]");
    assert_eq!(error, Some(ErrorType::OutOfBoundsIndex { index: 2, line: 1 }));
    let (_, error) = run("var a = [1, 2] a[2] = 0");
    assert_eq!(error, Some(ErrorType::OutOfBoundsIndex { index: 2, line: 1 }));
    let (_, error) = run("var a = [1, 2] print a[-1]");
    assert_eq!(
        error,
        Some(ErrorType::NonNaturalIndex { got: Value::Number((-1.0f64).to_bits()), line: 1 })
    );
    let (_, error) = run("var a = [1, 2] print a[0.5]");
    assert_eq!(
        error,
        Some(ErrorType::NonNaturalIndex { got: Value::Number(0.5f64.to_bits()), line: 1 })
    );
    let (_, error) = run("var a = [1, 2] a[1.5] = 0");
    assert_eq!(
        error,
        Some(ErrorType::NonNaturalIndex { got: Value::Number(1.5f64.to_bits()), line: 1 })
    );
    let (_, error) = run("var a = [1, 2] print a[\"x\"]");
    assert_eq!(error, Some(ErrorType::NonNumberIndex { got: String::from("String"), line: 1 }));
    let (_, error) = run("var a = 1 print a[0]");
    assert_eq!(error, Some(ErrorType::NotIndexable { line: 1 }));
}

#[test]
fn strings_are_indexed() {
    let (printed, error) = run("var s = \"abc\" print s[1] s[1] = \"x\" print s");
    assert_eq!(error, None);
    assert_eq!(printed, lines(&["b", "axc"]));
    let (_, error) = run("var s = \"abc\" s[0] = 1");
    assert_eq!(error, Some(ErrorType::InsertNonStringIntoString { line: 1 }));
    let (_, error) = run("var s = \"abc\" print s[3]");
    assert_eq!(error, Some(ErrorType::OutOfBoundsIndex { index: 3, line: 1 }));
}

#[test]
fn dictionary_keys_round_trip() {
    let source = "var d = {1: \"one\", \"k\": 2}
        d[true] = 3
        d[null] = 4
        d[1] = \"uno\"
        print d[1] print d[\"k\"] print d[true] print d[null] print d";
    let (printed, error) = run(source);
    assert_eq!(error, None);
    assert_eq!(printed, lines(&["uno", "2", "3", "4", "{1: uno, k: 2, true: 3, null: 4}"]));
}

#[test]
fn dictionary_key_errors() {
    let (_, error) = run("var d = {} func f() {} d[f] = 1");
    assert_eq!(error, Some(ErrorType::CannotHashFunction { line: 1 }));
    let (_, error) = run("var d = {} d[{}] = 1");
    assert_eq!(error, Some(ErrorType::CannotHashDictionary { line: 1 }));
    let (_, error) = run("var d = {} print d[d]");
    assert_eq!(error, Some(ErrorType::CannotHashDictionary { line: 1 }));
    let (_, error) = run("var d = {1: 2} print d[3]");
    assert_eq!(
        error,
        Some(ErrorType::KeyError { key: Value::Number(3.0f64.to_bits()), line: 1 })
    );
    let (_, error) = run("var d = {[1]: 2}");
    assert_eq!(
        error,
        Some(ErrorType::ExpectedType {
            expected: String::from("Number, Bool, String or Null"),
            got: String::from("Array"),
            line: 1
        })
    );
}

#[test]
fn later_lines_see_earlier_ones() {
    let mut machine = Interpreter::new();
    let mut printed = Vec::new();
    assert_eq!(run_on(&mut machine, "var a = 1 func f() {return a}", &mut printed), None);
    assert_eq!(
        run_on(&mut machine, "print missing", &mut printed),
        Some(ErrorType::NameError { name: String::from("missing"), line: 1 })
    );
    assert!(machine.is_idle());
    assert_eq!(run_on(&mut machine, "a = a + 1 print f()", &mut printed), None);
    assert_eq!(printed, lines(&["2"]));
}

#[test]
fn error_gives_up_the_rest() {
    let (printed, error) = run("print 1 print missing print 2");
    assert_eq!(error, Some(ErrorType::NameError { name: String::from("missing"), line: 1 }));
    assert_eq!(printed, lines(&["1"]));
}

#[test]
fn wrong_answer_is_asked_again() {
    let tokens = Tokenizer::new("print 1 + 2").tokenize().unwrap();
    let statements = Parser::new(tokens).parse().unwrap();
    let mut machine = Interpreter::new();
    machine.load(statements);
    let mut asked = 0;
    loop {
        match machine.step(Event::Truth(true)) {
            Action::Numeral(text) => {
                asked += 1;
                assert_eq!(text, "1");
                if asked == 3 {
                    break;
                }
            }
            Action::Continue => {}
            _ => panic!("the machine waits for a number"),
        }
    }
}

#[test]
fn text_that_cannot_be_read_loads_nothing() {
    let mut machine = Interpreter::new();
    assert_eq!(
        interpreter::run("var a = @", &mut machine),
        Err(vec![ErrorType::UnexpectedCharacter { character: '@', line: 1 }])
    );
    assert!(machine.is_idle());
    assert_eq!(
        interpreter::run("var = 1 print )", &mut machine),
        Err(vec![
            ErrorType::ExpectedVariableName { line: 1 },
            ErrorType::ExpectedExpression { line: 1 }
        ])
    );
    assert!(machine.is_idle());
    assert_eq!(interpreter::run("var a = 1", &mut machine), Ok(()));
    assert!(!machine.is_idle());
}

#[test]
fn scopes_are_given_up_when_left() {
    let mut machine = Interpreter::new();
    let mut printed = Vec::new();
    let source = "var i = 0 while (i < 50) {var j = i if (true) {var k = j} i = i + 1}
        func twice(a) {return a + a}
        print twice(twice(i))";
    assert_eq!(run_on(&mut machine, source, &mut printed), None);
    assert_eq!(printed, lines(&["200"]));
    assert_eq!(machine.scopes(), 1);
}

#[test]
fn scopes_of_functions_stay() {
    let mut machine = Interpreter::new();
    let mut printed = Vec::new();
    let source = "func counter() {var n = 0 func next() {n = n + 1 return n} return next}
        var c = counter()";
    assert_eq!(run_on(&mut machine, source, &mut printed), None);
    assert_eq!(machine.scopes(), 3);
    assert_eq!(run_on(&mut machine, "print c() print c()", &mut printed), None);
    assert_eq!(printed, lines(&["1", "2"]));
    assert_eq!(machine.scopes(), 3);
}

#[test]
fn scopes_are_given_up_on_the_way_out() {
    let mut machine = Interpreter::new();
    let mut printed = Vec::new();
    let source = "func f() {while (true) {if (true) {return 1}}} print f()
        while (true) {if (true) {var a = 1 break}}";
    assert_eq!(run_on(&mut machine, source, &mut printed), None);
    assert_eq!(printed, lines(&["1"]));
    assert_eq!(machine.scopes(), 1);
}

#[test]
fn scopes_are_given_up_with_the_statements() {
    let mut machine = Interpreter::new();
    let mut printed = Vec::new();
    let source = "func f() {if (true) {if (true) {print missing}}} f()";
    assert_eq!(
        run_on(&mut machine, source, &mut printed),
        Some(ErrorType::NameError { name: String::from("missing"), line: 1 })
    );
    assert_eq!(machine.scopes(), 1);
}

#[test]
fn equal_keys_round_trip() {
    let source = "var d = {}
        d[0] = \"zero\"
        print d[-0]
        d[-0] = \"nought\"
        print d[0]
        print d
        d[2] = 1
        print d[1 + 1]
        print {0: 1} == {-0: 1}";
    let (printed, error) = run(source);
    assert_eq!(error, None);
    assert_eq!(printed, lines(&["zero", "nought", "{0: nought}", "1", "true"]));
}

#[test]
fn call_binds_parameters_by_position() {
    let source = "func f(a, b) {return [a, b]}
        var x = 1
        var a = 7
        print f(x, \"y\")
        print f(a, x)
        print a";
    let (printed, error) = run(source);
    assert_eq!(error, None);
    assert_eq!(printed, lines(&["[1, y]", "[7, 1]", "7"]));
}

#[test]
fn for_loop_without_initialiser() {
    let (printed, error) = run("var x = 0 for (; x < 3; x = x + 1) {print x} print x");
    assert_eq!(error, None);
    assert_eq!(printed, lines(&["0", "1", "2", "3"]));
}

#[test]
fn containers_are_laid_out() {
    let source = "print [] print {} print [[], {}] print {1: [true, null], \"k\": {2: \"v\"}}
        func f() {} print [f, 1.5, \"s\"]";
    let (printed, error) = run(source);
    assert_eq!(error, None);
    assert_eq!(
        printed,
        lines(&["[]", "{}", "[[], {}]", "{1: [true, null], k: {2: v}}", "[<function>, 1.5, s]"])
    );
}

#[test]
fn container_inside_itself_is_not_written_again() {
    let source = "var a = [1, 2] a[1] = a print a
        var d = {} d[\"me\"] = d d[\"a\"] = a print d
        var b = [0] var c = [b, b] print c";
    let (printed, error) = run(source);
    assert_eq!(error, None);
    assert_eq!(
        printed,
        lines(&["[1, [...]]", "{me: {...}, a: [1, [...]]}", "[[0], [0]]"])
    );
}
