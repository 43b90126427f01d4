use treewalk::environment::Environment;
use treewalk::error::ErrorType;
use treewalk::heap::{
    check_index, check_key, kind_name, read_string, same_key, write_string, Heap,
};
use treewalk::interpreter::{check_call, reversed, unary};
use treewalk::number;
use treewalk::render::{render, Piece};
use treewalk::stmt::{Stmt, StmtType};
use treewalk::token::TokenType;
use treewalk::value::Value;

fn num(value: f64) -> Value {
    Value::Number(value.to_bits())
}

fn text(value: &str) -> Value {
    Value::String_(String::from(value))
}

fn name(value: &str) -> String {
    String::from(value)
}

#[test]
fn natural_numbers() {
    assert_eq!(number::natural(0.0f64.to_bits()), Some(0));
    assert_eq!(number::natural((-0.0f64).to_bits()), Some(0));
    assert_eq!(number::natural(1.0f64.to_bits()), Some(1));
    assert_eq!(number::natural(2.0f64.to_bits()), Some(2));
    assert_eq!(number::natural(3.0f64.to_bits()), Some(3));
    assert_eq!(number::natural(255.0f64.to_bits()), Some(255));
    assert_eq!(number::natural(1048577.0f64.to_bits()), Some(1048577));
    assert_eq!(number::natural(4503599627370496.0f64.to_bits()), Some(4503599627370496));
    assert_eq!(number::natural(9007199254740993.0f64.to_bits()), Some(9007199254740992));
    assert_eq!(number::natural(18014398509481984.0f64.to_bits()), Some(18014398509481984));
}

#[test]
fn numbers_that_are_no_natural_numbers() {
    assert_eq!(number::natural(0.5f64.to_bits()), None);
    assert_eq!(number::natural(1.5f64.to_bits()), None);
    assert_eq!(number::natural(2.000001f64.to_bits()), None);
    assert_eq!(number::natural((-1.0f64).to_bits()), None);
    assert_eq!(number::natural((-0.25f64).to_bits()), None);
    assert_eq!(number::natural(f64::MIN_POSITIVE.to_bits()), None);
    assert_eq!(number::natural(5e-324f64.to_bits()), None);
    assert_eq!(number::natural(f64::INFINITY.to_bits()), None);
    assert_eq!(number::natural(f64::NEG_INFINITY.to_bits()), None);
    assert_eq!(number::natural(f64::NAN.to_bits()), None);
}

#[test]
fn large_numbers_are_the_largest_index() {
    assert_eq!(number::natural(1e300f64.to_bits()), Some(usize::MAX));
    assert_eq!(number::natural(f64::MAX.to_bits()), Some(usize::MAX));
    assert_eq!(number::natural(18446744073709551616.0f64.to_bits()), Some(usize::MAX));
}

#[test]
fn natural_agrees_with_the_numbers() {
    let mut value = 0.0f64;
    while value < 3000.0 {
        let wanted = if value.fract() == 0.0 { Some(value as usize) } else { None };
        assert_eq!(number::natural(value.to_bits()), wanted, "{}", value);
        value += 0.25;
    }
}

#[test]
fn zero_negation_and_equality() {
    assert!(number::zero(0.0f64.to_bits()));
    assert!(number::zero((-0.0f64).to_bits()));
    assert!(!number::zero(1.0f64.to_bits()));
    assert!(!number::zero(5e-324f64.to_bits()));
    assert!(number::nan(f64::NAN.to_bits()));
    assert!(!number::nan(f64::INFINITY.to_bits()));
    assert_eq!(number::negate(1.5f64.to_bits()), (-1.5f64).to_bits());
    assert_eq!(number::negate((-1.5f64).to_bits()), 1.5f64.to_bits());
    assert!(number::same(1.0f64.to_bits(), 1.0f64.to_bits()));
    assert!(number::same(0.0f64.to_bits(), (-0.0f64).to_bits()));
    assert!(!number::same(1.0f64.to_bits(), 2.0f64.to_bits()));
    assert!(!number::same(f64::NAN.to_bits(), f64::NAN.to_bits()));
}

#[test]
fn index_is_checked() {
    assert_eq!(check_index(&num(0.0), 2, 4), Ok(0));
    assert_eq!(check_index(&num(1.0), 2, 4), Ok(1));
    assert_eq!(
        check_index(&num(2.0), 2, 4),
        Err(ErrorType::OutOfBoundsIndex { index: 2, line: 4 })
    );
    assert_eq!(
        check_index(&num(0.0), 0, 4),
        Err(ErrorType::OutOfBoundsIndex { index: 0, line: 4 })
    );
    assert_eq!(
        check_index(&num(-1.0), 2, 4),
        Err(ErrorType::NonNaturalIndex { got: num(-1.0), line: 4 })
    );
    assert_eq!(
        check_index(&num(1.5), 2, 4),
        Err(ErrorType::NonNaturalIndex { got: num(1.5), line: 4 })
    );
    assert_eq!(
        check_index(&Value::Bool(true), 2, 4),
        Err(ErrorType::NonNumberIndex { got: name("Bool"), line: 4 })
    );
    assert_eq!(
        check_index(&Value::Null, 2, 4),
        Err(ErrorType::NonNumberIndex { got: name("Null"), line: 4 })
    );
}

#[test]
fn kinds_have_names() {
    assert_eq!(kind_name(&num(1.0)), "Number");
    assert_eq!(kind_name(&Value::Bool(true)), "Bool");
    assert_eq!(kind_name(&text("a")), "String");
    assert_eq!(kind_name(&Value::Null), "Null");
    assert_eq!(kind_name(&Value::Array(0)), "Array");
    assert_eq!(kind_name(&Value::Dictionary(0)), "Dictionary");
}

#[test]
fn arrays_are_read_and_written() {
    let mut heap = Heap::new();
    let first = heap.new_array(vec![num(1.0), num(2.0)]);
    let second = heap.new_array(vec![]);
    assert_eq!((first, second), (0, 1));
    assert!(heap.has_array(1));
    assert!(!heap.has_array(2));
    assert_eq!(heap.array_len(first), 2);
    assert_eq!(heap.read_array(first, &num(1.0), 1), Ok(num(2.0)));
    assert_eq!(heap.write_array(first, &num(1.0), text("x"), 1), Ok(()));
    assert_eq!(heap.read_array(first, &num(1.0), 1), Ok(text("x")));
    assert_eq!(heap.read_array(first, &num(0.0), 1), Ok(num(1.0)));
    assert_eq!(
        heap.write_array(first, &num(2.0), text("x"), 9),
        Err(ErrorType::OutOfBoundsIndex { index: 2, line: 9 })
    );
    assert_eq!(heap.array_len(first), 2);
    assert_eq!(
        heap.read_array(second, &num(0.0), 9),
        Err(ErrorType::OutOfBoundsIndex { index: 0, line: 9 })
    );
}

#[test]
fn dictionaries_are_read_and_written() {
    let mut heap = Heap::new();
    let d = heap.new_dictionary();
    assert!(heap.has_dictionary(d));
    assert_eq!(heap.write_dictionary(d, num(1.0), text("one"), 1), Ok(()));
    assert_eq!(heap.write_dictionary(d, text("k"), num(2.0), 1), Ok(()));
    assert_eq!(heap.write_dictionary(d, Value::Bool(false), Value::Null, 1), Ok(()));
    assert_eq!(heap.write_dictionary(d, Value::Null, Value::Bool(true), 1), Ok(()));
    assert_eq!(heap.write_dictionary(d, num(1.0), text("uno"), 1), Ok(()));
    assert_eq!(heap.dictionary_len(d), 4);
    assert_eq!(heap.read_dictionary(d, &num(1.0), 1), Ok(text("uno")));
    assert_eq!(heap.read_dictionary(d, &text("k"), 1), Ok(num(2.0)));
    assert_eq!(heap.read_dictionary(d, &Value::Bool(false), 1), Ok(Value::Null));
    assert_eq!(heap.read_dictionary(d, &Value::Null, 1), Ok(Value::Bool(true)));
    assert_eq!(heap.entry_at(d, 0).key, num(1.0));
    assert_eq!(heap.entry_at(d, 0).value, text("uno"));
    assert_eq!(heap.find(d, &text("k")), Some(num(2.0)));
    assert_eq!(heap.find(d, &text("j")), None);
    assert_eq!(
        heap.read_dictionary(d, &num(2.0), 3),
        Err(ErrorType::KeyError { key: num(2.0), line: 3 })
    );
    assert_eq!(
        heap.read_dictionary(d, &Value::Bool(true), 3),
        Err(ErrorType::KeyError { key: Value::Bool(true), line: 3 })
    );
}

#[test]
fn keys_are_checked() {
    let mut heap = Heap::new();
    let d = heap.new_dictionary();
    let function = Value::Function {
        parameters: vec![],
        body: Box::new(Stmt { line: 1, stmt_type: StmtType::Break }),
        closure: 0,
    };
    assert_eq!(check_key(&num(1.0), 1), Ok(()));
    assert_eq!(check_key(&function, 2), Err(ErrorType::CannotHashFunction { line: 2 }));
    assert_eq!(
        heap.write_dictionary(d, function, num(1.0), 2),
        Err(ErrorType::CannotHashFunction { line: 2 })
    );
    assert_eq!(
        heap.write_dictionary(d, Value::Dictionary(d), num(1.0), 2),
        Err(ErrorType::CannotHashDictionary { line: 2 })
    );
    assert_eq!(
        heap.read_dictionary(d, &Value::Dictionary(d), 2),
        Err(ErrorType::CannotHashDictionary { line: 2 })
    );
    assert_eq!(
        heap.write_dictionary(d, Value::Array(0), num(1.0), 2),
        Err(ErrorType::ExpectedType {
            expected: name("Number, Bool, String or Null"),
            got: name("Array"),
            line: 2
        })
    );
    assert_eq!(heap.dictionary_len(d), 0);
}

#[test]
fn strings_are_read_and_written() {
    assert_eq!(read_string(&name("héllo"), &num(1.0), 1), Ok(text("é")));
    assert_eq!(
        read_string(&name("abc"), &num(3.0), 1),
        Err(ErrorType::OutOfBoundsIndex { index: 3, line: 1 })
    );
    assert_eq!(write_string(&name("abc"), &num(0.0), &text("x"), 1), Ok(name("xbc")));
    assert_eq!(write_string(&name("abc"), &num(2.0), &text("xy"), 1), Ok(name("abxy")));
    assert_eq!(write_string(&name("abc"), &num(1.0), &text(""), 1), Ok(name("ac")));
    assert_eq!(
        write_string(&name("abc"), &num(1.0), &num(1.0), 6),
        Err(ErrorType::InsertNonStringIntoString { line: 6 })
    );
    assert_eq!(
        write_string(&name("abc"), &num(3.0), &num(1.0), 6),
        Err(ErrorType::OutOfBoundsIndex { index: 3, line: 6 })
    );
}

#[test]
fn names_are_found_outwards() {
    let mut environment = Environment::new();
    assert_eq!(environment.len(), 1);
    environment.define(0, name("a"), num(1.0));
    environment.define(0, name("b"), num(2.0));
    let child = environment.push_child(0);
    let grandchild = environment.push_child(child);
    assert_eq!((child, grandchild), (1, 2));
    environment.define(child, name("a"), num(10.0));
    assert_eq!(environment.get(grandchild, &name("a"), 1), Ok(num(10.0)));
    assert_eq!(environment.get(grandchild, &name("b"), 1), Ok(num(2.0)));
    assert_eq!(environment.get(0, &name("a"), 1), Ok(num(1.0)));
    assert_eq!(
        environment.get(grandchild, &name("c"), 7),
        Err(ErrorType::NameError { name: name("c"), line: 7 })
    );
}

#[test]
fn assignment_changes_the_innermost_binding() {
    let mut environment = Environment::new();
    environment.define(0, name("a"), num(1.0));
    let child = environment.push_child(0);
    let other = environment.push_child(0);
    assert_eq!(environment.assign(child, &name("a"), num(2.0), 1), Ok(()));
    assert_eq!(environment.get(0, &name("a"), 1), Ok(num(2.0)));
    assert_eq!(environment.get(other, &name("a"), 1), Ok(num(2.0)));
    environment.define(child, name("a"), num(3.0));
    assert_eq!(environment.assign(child, &name("a"), num(4.0), 1), Ok(()));
    assert_eq!(environment.get(child, &name("a"), 1), Ok(num(4.0)));
    assert_eq!(environment.get(0, &name("a"), 1), Ok(num(2.0)));
    assert_eq!(
        environment.assign(child, &name("b"), num(4.0), 5),
        Err(ErrorType::NameError { name: name("b"), line: 5 })
    );
    assert_eq!(
        environment.get(child, &name("b"), 5),
        Err(ErrorType::NameError { name: name("b"), line: 5 })
    );
}

#[test]
fn defining_again_replaces() {
    let mut environment = Environment::new();
    environment.define(0, name("a"), num(1.0));
    environment.define(0, name("a"), text("x"));
    assert_eq!(environment.get(0, &name("a"), 1), Ok(text("x")));
}

#[test]
fn calls_are_checked() {
    let function = Value::Function {
        parameters: vec![name("a"), name("b")],
        body: Box::new(Stmt { line: 1, stmt_type: StmtType::Break }),
        closure: 0,
    };
    assert_eq!(check_call(&function, 2, 1), Ok(()));
    assert_eq!(
        check_call(&function, 1, 3),
        Err(ErrorType::ArgParamNumberMismatch { arg_number: 1, param_number: 2, line: 3 })
    );
    assert_eq!(
        check_call(&function, 3, 3),
        Err(ErrorType::ArgParamNumberMismatch { arg_number: 3, param_number: 2, line: 3 })
    );
    assert_eq!(check_call(&num(1.0), 0, 3), Err(ErrorType::CannotCallName { line: 3 }));
}

#[test]
fn unary_operators_are_applied() {
    assert_eq!(unary(TokenType::Minus, &num(2.0), 1), Ok(num(-2.0)));
    assert_eq!(unary(TokenType::Bang, &Value::Bool(false), 1), Ok(Value::Bool(true)));
    assert_eq!(
        unary(TokenType::Plus, &num(2.0), 8),
        Err(ErrorType::ExpectedExpression { line: 8 })
    );
}

#[test]
fn lists_are_reversed() {
    assert_eq!(reversed(vec![1, 2, 3]), vec![3, 2, 1]);
    assert_eq!(reversed(Vec::<u8>::new()), Vec::<u8>::new());
}

#[test]
fn copies_are_equal() {
    let function = Value::Function {
        parameters: vec![name("a")],
        body: Box::new(Stmt { line: 1, stmt_type: StmtType::Block { body: vec![] } }),
        closure: 3,
    };
    assert_eq!(function.clone(), function);
    assert_eq!(text("a").clone(), text("a"));
}

#[test]
fn scopes_are_released_from_the_end() {
    let mut environment = Environment::new();
    let a = environment.push_child(0);
    let b = environment.push_child(a);
    environment.release(a);
    assert_eq!(environment.len(), 3);
    environment.release(b);
    assert_eq!(environment.len(), 2);
    environment.capture(a);
    environment.release(a);
    assert_eq!(environment.len(), 2);
    let c = environment.push_child(a);
    assert_eq!(c, 2);
    environment.release(c);
    environment.release(0);
    assert_eq!(environment.len(), 2);
}

#[test]
fn scopes_at_the_end_are_settled() {
    let mut environment = Environment::new();
    let a = environment.push_child(0);
    environment.capture(a);
    let b = environment.push_child(a);
    environment.push_child(b);
    environment.settle();
    assert_eq!(environment.len(), 2);
    environment.settle();
    assert_eq!(environment.len(), 2);
}

#[test]
fn zero_is_one_key() {
    let mut heap = Heap::new();
    let d = heap.new_dictionary();
    assert_eq!(heap.write_dictionary(d, num(0.0), text("a"), 1), Ok(()));
    assert_eq!(heap.read_dictionary(d, &num(-0.0), 1), Ok(text("a")));
    assert_eq!(heap.write_dictionary(d, num(-0.0), text("b"), 1), Ok(()));
    assert_eq!(heap.dictionary_len(d), 1);
    assert_eq!(heap.read_dictionary(d, &num(0.0), 1), Ok(text("b")));
    assert_eq!(heap.entry_at(d, 0).key, num(0.0));
}

#[test]
fn what_is_no_number_equals_no_key() {
    let mut heap = Heap::new();
    let d = heap.new_dictionary();
    assert_eq!(heap.write_dictionary(d, num(f64::NAN), text("a"), 1), Ok(()));
    match heap.read_dictionary(d, &num(f64::NAN), 4) {
        Err(ErrorType::KeyError { key: Value::Number(bits), line: 4 }) => {
            assert!(f64::from_bits(bits).is_nan())
        }
        other => panic!("{:?}", other),
    }
    assert_eq!(heap.find(d, &num(f64::NAN)), None);
}

#[test]
fn keys_are_equal_as_values_are() {
    assert!(same_key(&num(0.0), &num(-0.0)));
    assert!(same_key(&num(1.5), &num(1.5)));
    assert!(!same_key(&num(1.5), &num(2.5)));
    assert!(!same_key(&num(f64::NAN), &num(f64::NAN)));
    assert!(same_key(&text("a"), &text("a")));
    assert!(!same_key(&text("a"), &text("b")));
    assert!(same_key(&Value::Null, &Value::Null));
    assert!(same_key(&Value::Bool(true), &Value::Bool(true)));
    assert!(!same_key(&Value::Bool(true), &num(1.0)));
    assert!(!same_key(&text("1"), &num(1.0)));
    assert!(!same_key(&Value::Array(0), &Value::Array(0)));
}

#[test]
fn errors_are_copied() {
    let error = ErrorType::KeyError { key: text("k"), line: 2 };
    assert_eq!(error.clone(), error);
}

#[test]
fn values_are_rendered_into_pieces() {
    let mut heap = Heap::new();
    let a = heap.new_array(vec![num(1.0), text("x"), Value::Bool(false)]);
    let d = heap.new_dictionary();
    assert_eq!(heap.write_dictionary(d, text("k"), Value::Array(a), 1), Ok(()));
    assert_eq!(heap.write_dictionary(d, num(2.0), Value::Null, 1), Ok(()));
    let piece = |part: &str| Piece::Text(String::from(part));
    assert_eq!(render(&heap, &num(2.5)), vec![Piece::Number(2.5f64.to_bits())]);
    assert_eq!(render(&heap, &text("a b")), vec![piece("a b")]);
    assert_eq!(
        render(&heap, &Value::Dictionary(d)),
        vec![
            piece("{"),
            piece("k"),
            piece(": "),
            piece("["),
            Piece::Number(1.0f64.to_bits()),
            piece(", "),
            piece("x"),
            piece(", "),
            piece("false"),
            piece("]"),
            piece(", "),
            Piece::Number(2.0f64.to_bits()),
            piece(": "),
            piece("null"),
            piece("}"),
        ]
    );
    assert_eq!(render(&heap, &Value::Array(7)), vec![piece("[...]")]);
    assert_eq!(render(&heap, &Value::Dictionary(7)), vec![piece("{...}")]);
}
