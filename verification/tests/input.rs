use mdbook_katex::input::{normalize_book_value, parse_input_compat, parse_input_value, InputError};
use mdbook_preprocessor::book::Book;
use serde_json::Value;

fn minimal_ctx_json(mdbook_version: &str) -> Value {
    let mut ctx = serde_json::Map::new();
    ctx.insert("root".to_string(), Value::String(".".to_string()));
    ctx.insert("config".to_string(), Value::Object(serde_json::Map::new()));
    ctx.insert("renderer".to_string(), Value::String("html".to_string()));
    ctx.insert("mdbook_version".to_string(), Value::String(mdbook_version.to_string()));
    Value::Object(ctx)
}

fn book_json(key: &str) -> Value {
    let mut book = serde_json::Map::new();
    book.insert(key.to_string(), Value::Array(Vec::new()));
    Value::Object(book)
}

#[test]
fn test_parse_input_compat_mdbook_05_shape() {
    let input = Value::Array(vec![minimal_ctx_json("0.5.2"), book_json("items")]);
    let text = serde_json::to_string(&input).unwrap();
    let (_ctx, book) = parse_input_compat(&text).unwrap();
    assert_eq!(book, Book::default());
}

#[test]
fn test_parse_input_compat_mdbook_04_shape_sections_alias() {
    let input = Value::Array(vec![minimal_ctx_json("0.4.40"), book_json("sections")]);
    let text = serde_json::to_string(&input).unwrap();
    let (_ctx, book) = parse_input_compat(&text).unwrap();
    assert_eq!(book, Book::default());
}

#[test]
fn sections_are_moved_to_items() {
    let mut book = book_json("sections");
    normalize_book_value(&mut book);
    assert_eq!(book, book_json("items"));
}

#[test]
fn items_are_kept_beside_sections() {
    let mut members = serde_json::Map::new();
    members.insert("items".to_string(), Value::Array(Vec::new()));
    members.insert("sections".to_string(), Value::Bool(true));
    let mut book = Value::Object(members);
    let before = book.clone();
    normalize_book_value(&mut book);
    assert_eq!(book, before);
}

#[test]
fn other_values_are_left_alone() {
    let mut v = Value::Array(vec![Value::String("sections".to_string())]);
    let before = v.clone();
    normalize_book_value(&mut v);
    assert_eq!(v, before);
    let mut o = Value::Object(serde_json::Map::new());
    normalize_book_value(&mut o);
    assert_eq!(o, Value::Object(serde_json::Map::new()));
}

#[test]
fn input_that_is_no_json_is_a_syntax_error() {
    let r = parse_input_compat("[1, ");
    match r {
        Err(InputError::Syntax(why)) => assert!(!why.is_empty()),
        _ => panic!("expected a syntax error"),
    }
}

#[test]
fn input_that_is_no_array_is_refused() {
    let r = parse_input_compat("{\"items\": []}");
    assert!(matches!(r, Err(InputError::NotArray)));
    assert_eq!(
        InputError::NotArray.message(),
        "Unable to parse the input: expected an array [context, book]"
    );
}

#[test]
fn array_of_wrong_length_is_refused() {
    let r = parse_input_value(Value::Array(vec![Value::Null; 13]));
    match r {
        Err(e) => {
            assert!(matches!(e, InputError::WrongLength(13)));
            assert_eq!(e.message(), "Unable to parse the input: expected 2 elements, got 13");
        }
        Ok(_) => panic!("expected an error"),
    }
    assert!(matches!(parse_input_compat("[]"), Err(InputError::WrongLength(0))));
    assert_eq!(
        InputError::WrongLength(0).message(),
        "Unable to parse the input: expected 2 elements, got 0"
    );
}

#[test]
fn bad_context_and_bad_book_are_told_apart() {
    let r = parse_input_value(Value::Array(vec![Value::Null, book_json("items")]));
    assert!(matches!(r, Err(InputError::Context(_))));
    let r = parse_input_value(Value::Array(vec![minimal_ctx_json("0.5.2"), Value::Null]));
    match r {
        Err(InputError::Book(why)) => {
            let e = InputError::Book(why.clone());
            assert_eq!(e.message(), format!("Unable to parse the input: {why}"));
        }
        _ => panic!("expected a book error"),
    }
}
