// Component-level tests: the value model, the environment store, the reader
// pieces and the error messages, exercised directly.

use std::rc::Rc;

use dial::builtins::add;
use dial::builtins::create_global_envr;
use dial::env::Env;
use dial::error::DialError;
use dial::numeral::int_to_decimal;
use dial::numeral::parse_decimal;
use dial::object::Keyword;
use dial::object::Object;
use dial::reader::Reader;

#[test]
fn test_cons_car() {
    let p = Object::cons(Rc::new(Object::Number(1)), Rc::new(Object::Null));
    let a = p.car().unwrap();
    assert_eq!(a.write().unwrap(), "1");
}

#[test]
fn test_car_of_atom_fails() {
    assert_eq!(Object::Number(1).car().unwrap_err().code, 101);
}

#[test]
fn test_to_vec_proper_list() {
    let l = Object::cons(
        Rc::new(Object::Number(1)),
        Object::cons(Rc::new(Object::Number(2)), Rc::new(Object::Null)),
    );
    let v = l.to_vec().unwrap();
    assert_eq!(v.len(), 2);
    assert_eq!(v[0].write().unwrap(), "1");
    assert_eq!(v[1].write().unwrap(), "2");
}

#[test]
fn test_to_vec_improper_list_fails() {
    let l = Object::cons(Rc::new(Object::Number(1)), Rc::new(Object::Number(2)));
    assert_eq!(l.to_vec().unwrap_err().code, 104);
}

#[test]
fn test_is_true() {
    assert!(!Object::Boolean(false).is_true());
    assert!(!Object::Null.is_true());
    assert!(Object::Boolean(true).is_true());
    assert!(Object::Number(0).is_true());
    assert!(Object::Str(String::new()).is_true());
}

#[test]
fn test_write_atoms() {
    assert_eq!(Object::Boolean(true).write().unwrap(), "#t");
    assert_eq!(Object::Boolean(false).write().unwrap(), "#f");
    assert_eq!(Object::Char('x').write().unwrap(), "x");
    assert_eq!(Object::Null.write().unwrap(), "null");
    assert_eq!(Object::Number(-42).write().unwrap(), "-42");
    assert_eq!(Object::Str("hello".to_owned()).write().unwrap(), "\"hello\"");
    assert_eq!(Object::Symbol("abc".to_owned()).write().unwrap(), "abc");
    assert_eq!(Object::Unspecified.write().unwrap(), "<unspecified>");
    assert_eq!(Object::Keyword(Keyword::Define).write().unwrap(), "define");
}

#[test]
fn test_write_dotted_pair() {
    let p = Object::cons(Rc::new(Object::Number(1)), Rc::new(Object::Number(2)));
    assert_eq!(p.write().unwrap(), "(1 . 2)");
}

#[test]
fn test_write_placeholders_fail() {
    assert_eq!(Object::ByteVector.write().unwrap_err().code, 100);
    assert_eq!(Object::Vector.write().unwrap_err().code, 100);
}

#[test]
fn test_int_to_decimal_extremes() {
    assert_eq!(int_to_decimal(0), "0");
    assert_eq!(
        int_to_decimal(i128::MAX),
        "170141183460469231731687303715884105727"
    );
    assert_eq!(
        int_to_decimal(i128::MIN),
        "-170141183460469231731687303715884105728"
    );
}

#[test]
fn test_parse_decimal() {
    assert_eq!(parse_decimal("0"), Some(0));
    assert_eq!(parse_decimal("007"), Some(7));
    assert_eq!(parse_decimal("-12"), Some(-12));
    assert_eq!(parse_decimal("+12"), Some(12));
    assert_eq!(parse_decimal("-170141183460469231731687303715884105728"), Some(i128::MIN));
    assert_eq!(parse_decimal("170141183460469231731687303715884105728"), None);
    assert_eq!(parse_decimal(""), None);
    assert_eq!(parse_decimal("-"), None);
    assert_eq!(parse_decimal("+"), None);
    assert_eq!(parse_decimal("1a"), None);
    assert_eq!(parse_decimal("a1"), None);
}

#[test]
fn test_tokenize() {
    let reader = Reader {};
    let toks = reader.tokenize("(+ 1 (quote x))");
    let expect = ["(", "+", "1", "(", "quote", "x", ")", ")"];
    assert_eq!(toks.len(), expect.len());
    for (t, e) in toks.iter().zip(expect.iter()) {
        assert_eq!(t, e);
    }
}

#[test]
fn test_tokenize_whitespace_only() {
    let reader = Reader {};
    assert_eq!(reader.tokenize(" \t\n\r").len(), 0);
}

#[test]
fn test_parse_atom_classification() {
    let reader = Reader {};
    assert!(matches!(
        reader.parse_atom("lambda").unwrap(),
        Object::Keyword(Keyword::Lambda)
    ));
    assert!(matches!(
        reader.parse_atom("quote").unwrap(),
        Object::Keyword(Keyword::Quote)
    ));
    assert!(matches!(reader.parse_atom("#t").unwrap(), Object::Boolean(true)));
    assert!(matches!(reader.parse_atom("#f").unwrap(), Object::Boolean(false)));
    assert!(matches!(reader.parse_atom("37"), Ok(Object::Number(37))));
    assert!(matches!(reader.parse_atom("+"), Ok(Object::Symbol(_))));
    assert!(matches!(reader.parse_atom("#true"), Ok(Object::Symbol(_))));
}

#[test]
fn test_grab() {
    let reader = Reader {};
    let toks = reader.tokenize("(a (b c) d) e");
    assert_eq!(reader.grab(&toks, 0), Some(8));
    assert_eq!(reader.grab(&toks, 2), Some(6));
    assert_eq!(reader.grab(&toks, 1), Some(2));
    assert_eq!(reader.grab(&toks, 8), Some(9));
    assert_eq!(reader.grab(&toks, 9), None);
    let open = reader.tokenize("(a (b)");
    assert_eq!(reader.grab(&open, 0), None);
}

#[test]
fn test_env_lookup_walks_parents() {
    let mut env = Env::new();
    env.insert(0, "a".to_owned(), Rc::new(Object::Number(1)));
    let child = env.push_frame_with(0, Vec::new());
    env.insert(child, "b".to_owned(), Rc::new(Object::Number(2)));
    let a = env.lookup(child, &"a".to_owned()).unwrap();
    assert_eq!(a.write().unwrap(), "1");
    let b = env.lookup(child, &"b".to_owned()).unwrap();
    assert_eq!(b.write().unwrap(), "2");
    assert!(env.lookup(0, &"b".to_owned()).is_none());
}

#[test]
fn test_env_insert_shadows_locally() {
    let mut env = Env::new();
    env.insert(0, "a".to_owned(), Rc::new(Object::Number(1)));
    let child = env.push_frame_with(0, Vec::new());
    env.insert(child, "a".to_owned(), Rc::new(Object::Number(9)));
    let shadowed = env.lookup(child, &"a".to_owned()).unwrap();
    assert_eq!(shadowed.write().unwrap(), "9");
    let parent = env.lookup(0, &"a".to_owned()).unwrap();
    assert_eq!(parent.write().unwrap(), "1");
}

#[test]
fn test_add_builtin_directly() {
    let args = vec![Rc::new(Object::Number(3)), Rc::new(Object::Number(4))];
    assert_eq!(add(args).unwrap().write().unwrap(), "7");
    let args = vec![Rc::new(Object::Number(3)), Rc::new(Object::Null)];
    assert_eq!(add(args).unwrap_err().code, 111);
    assert_eq!(add(Vec::new()).unwrap().write().unwrap(), "0");
}

#[test]
fn test_error_messages() {
    assert_eq!(DialError::new(108).message(), "symbol not found");
    assert_eq!(DialError::new(200).message(), "missing close parenthesis");
    assert_eq!(DialError::new(42).message(), "unknown error");
}

#[test]
fn test_global_env_has_only_add() {
    let env = create_global_envr();
    assert!(env.lookup(0, &"+".to_owned()).is_some());
    assert!(env.lookup(0, &"-".to_owned()).is_none());
}

#[test]
fn test_read_list_prints_dotted() {
    let reader = Reader {};
    let expr = reader.read("(1 2)").unwrap();
    assert_eq!(expr.write().unwrap(), "(1 . (2 . null))");
}

#[test]
fn test_atom_round_trip_concrete() {
    let reader = Reader {};
    for obj in [
        Object::Number(-42),
        Object::Number(0),
        Object::Number(i128::MIN),
        Object::Boolean(true),
        Object::Boolean(false),
        Object::Keyword(Keyword::Quote),
        Object::Symbol("abc".to_owned()),
    ] {
        let text = obj.write().unwrap();
        let back = reader.read(&text).unwrap();
        assert_eq!(back.write().unwrap(), text);
    }
}

#[test]
fn test_parse_shape_is_proper_list() {
    let reader = Reader {};
    let expr = reader.read("(1 (2 3) 4)").unwrap();
    let v = expr.to_vec().unwrap();
    assert_eq!(v.len(), 3);
    assert_eq!(v[1].to_vec().unwrap().len(), 2);
}
