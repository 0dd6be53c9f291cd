//! Reading what the host hands to a preprocessor: a JSON array of the
//! context and the book. An older host calls the book's list `sections`, a
//! newer one `items`; both are read.

use vstd::prelude::*;

verus! {

/// A JSON value of `serde_json`.
#[verifier::external_type_specification]
#[verifier::external_body]
pub struct ExJsonValue(serde_json::Value);

/// The error of `serde_json`.
#[verifier::external_type_specification]
#[verifier::external_body]
pub struct ExJsonError(serde_json::Error);

/// The host's context of a run.
#[verifier::external_type_specification]
#[verifier::external_body]
pub struct ExPreprocessorContext(mdbook_preprocessor::PreprocessorContext);

/// The host's book.
#[verifier::external_type_specification]
#[verifier::external_body]
pub struct ExBook(mdbook_preprocessor::book::Book);

/// Whether the JSON value is an object.
pub uninterp spec fn json_is_object(v: serde_json::Value) -> bool;

/// The members of a JSON object by their keys; of any other value, nothing.
pub uninterp spec fn json_members(v: serde_json::Value) -> Map<Seq<char>, serde_json::Value>;

/// Whether the JSON value is an array.
pub uninterp spec fn json_is_array(v: serde_json::Value) -> bool;

/// The elements of a JSON array, in order.
pub uninterp spec fn json_elements(v: serde_json::Value) -> Seq<serde_json::Value>;

/// Why the host's input could not be read.
#[derive(Debug)]
pub enum InputError {
    /// The input is no JSON. Holds the parser's words.
    Syntax(String),
    /// The input is JSON, but no array.
    NotArray,
    /// The input is an array of another length than two. Holds the length.
    WrongLength(usize),
    /// The first element is no context. Holds the parser's words.
    Context(String),
    /// The second element is no book. Holds the parser's words.
    Book(String),
}

/// The digit `d` as a character.
pub open spec fn digit(d: nat) -> char {
    (48 + d % 10) as u8 as char
}

/// The decimal numeral of `n`.
pub open spec fn decimal(n: nat) -> Seq<char>
    decreases n,
{
    if n < 10 {
        seq![digit(n)]
    } else {
        decimal(n / 10).push(digit(n % 10))
    }
}

/// What every message starts with.
pub open spec fn message_head() -> Seq<char> {
    "Unable to parse the input: "@
}

impl InputError {
    /// The message of the error.
    pub open spec fn spec_message(self) -> Seq<char> {
        match self {
            InputError::Syntax(why) => message_head() + why@,
            InputError::NotArray => message_head() + "expected an array [context, book]"@,
            InputError::WrongLength(n) => message_head() + "expected 2 elements, got "@ + decimal(
                n as nat,
            ),
            InputError::Context(why) => message_head() + why@,
            InputError::Book(why) => message_head() + why@,
        }
    }

    /// The message of the error, as a reader of the log sees it.
    pub fn message(&self) -> (text: String)
        ensures
            text@ == self.spec_message(),
    {
        let mut text = String::new();
        text.append("Unable to parse the input: ");
        match self {
            InputError::Syntax(why) => {
                text.append(why.as_str());
            },
            InputError::NotArray => {
                text.append("expected an array [context, book]");
            },
            InputError::WrongLength(n) => {
                text.append("expected 2 elements, got ");
                push_decimal(&mut text, *n);
            },
            InputError::Context(why) => {
                text.append(why.as_str());
            },
            InputError::Book(why) => {
                text.append(why.as_str());
            },
        }
        assert(text@ =~= self.spec_message());
        text
    }
}

fn push_decimal(out: &mut String, n: usize)
    ensures
        final(out)@ == old(out)@ + decimal(n as nat),
    decreases n,
{
    if n >= 10 {
        push_decimal(out, n / 10);
    }
    let d: u8 = (n % 10) as u8;
    out.push((48 + d) as char);
    assert(out@ =~= old(out)@ + decimal(n as nat));
}

/// The key of the book's list in the newer format.
pub open spec fn items_key() -> Seq<char> {
    "items"@
}

/// The key of the book's list in the older format.
pub open spec fn sections_key() -> Seq<char> {
    "sections"@
}

/// The members of a book in the newer format: what stood under `sections`
/// stands under `items`, unless `items` was there already or `sections` was not.
pub open spec fn renamed(m: Map<Seq<char>, serde_json::Value>) -> Map<Seq<char>, serde_json::Value> {
    if m.contains_key(items_key()) || !m.contains_key(sections_key()) {
        m
    } else {
        m.remove(sections_key()).insert(items_key(), m[sections_key()])
    }
}

/// The JSON value that a text is read as, or `None` where the text is no
/// JSON. It depends on the text alone: the parser reads nothing else, and
/// its limits are fixed. What the value holds is told by `json_is_array`,
/// `json_elements`, `json_is_object` and `json_members`.
pub uninterp spec fn json_of(input: Seq<char>) -> Option<serde_json::Value>;

/// The words of a `serde_json::Error`, by its `to_string`.
#[verifier::external_body]
fn error_text(e: &serde_json::Error) -> (text: String) {
    e.to_string()
}

/// Takes the elements out of a `Value::Array`; any other value gives `None`.
#[verifier::external_body]
fn into_elements(v: serde_json::Value) -> (r: Option<Vec<serde_json::Value>>)
    ensures
        r is Some <==> json_is_array(v),
        r is Some ==> r->0@ == json_elements(v),
{
    match v {
        serde_json::Value::Array(elements) => Some(elements),
        _ => None,
    }
}

/// `Value::get` with a string: the member under that key is there exactly
/// for an object that has the key.
#[verifier::external_body]
fn has_member(v: &serde_json::Value, key: &str) -> (b: bool)
    ensures
        b == (json_is_object(*v) && json_members(*v).contains_key(key@)),
{
    v.get(key).is_some()
}

/// `Map::remove` on the members of a `Value::Object`: the member under the
/// key leaves the object and is handed back. Any other value stays as it is.
#[verifier::external_body]
fn take_member(v: &mut serde_json::Value, key: &str) -> (r: Option<serde_json::Value>)
    ensures
        json_is_object(*final(v)) == json_is_object(*old(v)),
        !json_is_object(*old(v)) ==> *final(v) == *old(v) && r is None,
        json_is_object(*old(v)) ==> json_members(*final(v)) == json_members(*old(v)).remove(key@),
        json_is_object(*old(v)) ==> r == (if json_members(*old(v)).contains_key(key@) {
            Some(json_members(*old(v))[key@])
        } else {
            None
        }),
{
    match v {
        serde_json::Value::Object(members) => members.remove(key),
        _ => None,
    }
}

/// `Map::insert` on the members of a `Value::Object`: the value stands under
/// the key afterwards. Any other value stays as it is.
#[verifier::external_body]
fn put_member(v: &mut serde_json::Value, key: &str, member: serde_json::Value)
    ensures
        json_is_object(*final(v)) == json_is_object(*old(v)),
        !json_is_object(*old(v)) ==> *final(v) == *old(v),
        json_is_object(*old(v)) ==> json_members(*final(v)) == json_members(*old(v)).insert(
            key@,
            member,
        ),
{
    match v {
        serde_json::Value::Object(members) => {
            members.insert(key.to_owned(), member);
        },
        _ => {},
    }
}

/// `serde_json::from_value` into the host's context. Nothing is claimed of the result.
#[verifier::external_body]
fn context_of(v: serde_json::Value) -> (r: Result<
    mdbook_preprocessor::PreprocessorContext,
    serde_json::Error,
>) {
    serde_json::from_value(v)
}

/// `serde_json::from_value` into the host's book. Nothing is claimed of the result.
#[verifier::external_body]
fn book_of(v: serde_json::Value) -> (r: Result<mdbook_preprocessor::book::Book, serde_json::Error>) {
    serde_json::from_value(v)
}

/// Brings a book of the older format into the newer one: the list under
/// `sections` is moved to `items`. A book that has `items` stays as it is,
/// and so does a value that is no object.
pub fn normalize_book_value(book: &mut serde_json::Value)
    ensures
        json_is_object(*final(book)) == json_is_object(*old(book)),
        json_is_object(*old(book)) ==> json_members(*final(book)) == renamed(
            json_members(*old(book)),
        ),
        !json_is_object(*old(book)) ==> *final(book) == *old(book),
{
    if has_member(book, "items") {
        return ;
    }
    match take_member(book, "sections") {
        Some(sections) => {
            put_member(book, "items", sections);
        },
        None => {
            assert(json_is_object(*old(book)) ==> json_members(*book) =~= json_members(
                *old(book),
            ));
        },
    }
}

/// What is read from the array's two elements, whatever the parser says of them.
pub fn parse_input_value(value: serde_json::Value) -> (r: Result<
    (mdbook_preprocessor::PreprocessorContext, mdbook_preprocessor::book::Book),
    InputError,
>)
    ensures
        !json_is_array(value) ==> r == Err::<
            (mdbook_preprocessor::PreprocessorContext, mdbook_preprocessor::book::Book),
            InputError,
        >(InputError::NotArray),
        json_is_array(value) && json_elements(value).len() != 2 ==> r == Err::<
            (mdbook_preprocessor::PreprocessorContext, mdbook_preprocessor::book::Book),
            InputError,
        >(InputError::WrongLength(json_elements(value).len() as usize)),
        json_is_array(value) ==> json_elements(value).len() <= usize::MAX,
        json_is_array(value) && json_elements(value).len() == 2 ==> (r is Ok || r matches Err(
            InputError::Context(_),
        ) || r matches Err(InputError::Book(_))),
{
    let mut parts = match into_elements(value) {
        Some(parts) => parts,
        None => {
            return Err(InputError::NotArray);
        },
    };
    if parts.len() != 2 {
        return Err(InputError::WrongLength(parts.len()));
    }
    let mut book_value = match parts.pop() {
        Some(v) => v,
        None => {
            return Err(InputError::WrongLength(0));
        },
    };
    let ctx_value = match parts.pop() {
        Some(v) => v,
        None => {
            return Err(InputError::WrongLength(1));
        },
    };
    normalize_book_value(&mut book_value);
    let ctx = match context_of(ctx_value) {
        Ok(ctx) => ctx,
        Err(e) => {
            return Err(InputError::Context(error_text(&e)));
        },
    };
    match book_of(book_value) {
        Ok(book) => Ok((ctx, book)),
        Err(e) => Err(InputError::Book(error_text(&e))),
    }
}

/// Reads the host's input in either format: a JSON array of the context and
/// the book, the book's list under `items` or under `sections`.
pub fn parse_input_compat(input: &str) -> (r: Result<
    (mdbook_preprocessor::PreprocessorContext, mdbook_preprocessor::book::Book),
    InputError,
>)
    ensures
        json_of(input@) is None ==> r matches Err(InputError::Syntax(_)),
        json_of(input@) is Some ==> is_reading_of(r, json_of(input@)->0),
{
    match parse_json(input) {
        Ok(value) => parse_input_value(value),
        Err(e) => Err(InputError::Syntax(error_text(&e))),
    }
}

/// Whether `r` is what is read from the JSON value: a value that is no array
/// is refused, and so is an array of another length than two; of a pair, the
/// context and the book come back unless the parser refuses one of the two.
pub open spec fn is_reading_of(
    r: Result<
        (mdbook_preprocessor::PreprocessorContext, mdbook_preprocessor::book::Book),
        InputError,
    >,
    value: serde_json::Value,
) -> bool {
    if !json_is_array(value) {
        r matches Err(InputError::NotArray)
    } else if json_elements(value).len() != 2 {
        r matches Err(InputError::WrongLength(n)) && n == json_elements(value).len()
    } else {
        r is Ok || r matches Err(InputError::Context(_)) || r matches Err(InputError::Book(_))
    }
}

/// `serde_json::from_str` into a `Value`: the value that the text is read
/// as, or the parser's error where the text is no JSON.
#[verifier::external_body]
fn parse_json(input: &str) -> (r: Result<serde_json::Value, serde_json::Error>)
    ensures
        match r {
            Ok(value) => json_of(input@) == Some(value),
            Err(_) => json_of(input@) is None,
        },
{
    serde_json::from_str(input)
}

} // verus!
