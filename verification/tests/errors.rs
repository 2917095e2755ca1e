use immutable_json::api::Value;
use immutable_json::array::Array;
use immutable_json::error::{
    jaq_compile_errors, jaq_load_errors, jaq_read_error, pathbuf_to_string, Error, JaqFile,
    JsonIndexError, JsonPatchError, LoadError,
};

#[test]
fn index_error_text() {
    assert_eq!("the index 1 is higher than 0", JsonIndexError { index: 1, len: 1 }.to_string());
    assert_eq!("the index 17 is higher than 9", JsonIndexError { index: 17, len: 10 }.to_string());
}

#[test]
fn index_error_into_error() {
    let e: Error = JsonIndexError { index: 2, len: 1 }.into();

    assert!(matches!(e, Error::JsonIndex(JsonIndexError { index: 2, len: 1 })));
}

#[test]
fn read_error_text() {
    assert_eq!("", jaq_read_error(&vec![]));
    assert_eq!(
        "\nexpected term, got )\nexpected ], got end of input",
        jaq_read_error(&vec![
            ("term".to_string(), ")".to_string()),
            ("]".to_string(), "end of input".to_string()),
        ])
    );
}

#[test]
fn compile_error_text() {
    assert_eq!(
        "\nfilter f/0 is undefined\nvariable x is undefined",
        jaq_compile_errors(&vec![
            ("f/0".to_string(), "filter".to_string()),
            ("x".to_string(), "variable".to_string()),
        ])
    );
}

#[test]
fn load_error_text() {
    assert_eq!(
        "\nlib.jq: not found",
        jaq_load_errors(&LoadError::Io(vec![("lib.jq".to_string(), "not found".to_string())]))
    );
    assert_eq!(
        "\nexpected ident, got 1",
        jaq_load_errors(&LoadError::Lex(vec![("ident".to_string(), "1".to_string())]))
    );
    assert_eq!(
        "\nexpected term, got |",
        jaq_load_errors(&LoadError::Parse(vec![("term".to_string(), "|".to_string())]))
    );
}

#[test]
fn path_text() {
    assert_eq!("dir/file.jq", pathbuf_to_string(b"dir/file.jq".to_vec()));
    assert_eq!("", pathbuf_to_string(vec![0x66, 0xff]));
    assert_eq!("", pathbuf_to_string(Vec::new()));
}

#[test]
fn compilation_errors_of_files() {
    let load = Error::from_load_errors(&vec![(
        JaqFile { path: b"a.jq".to_vec(), code: ".[".to_string() },
        LoadError::Parse(vec![("term".to_string(), "end of input".to_string())]),
    )]);
    match load {
        Error::JaqCompile(s) => {
            assert_eq!("\na.jq: code: .[: error: \nexpected term, got end of input", s)
        }
        _ => panic!("a load error is a compilation error"),
    }

    let compile = Error::from_compile_errors(&vec![(
        JaqFile { path: Vec::new(), code: "f".to_string() },
        vec![("f/0".to_string(), "filter".to_string())],
    )]);
    match compile {
        Error::JaqCompile(s) => assert_eq!("\n: code: f:error: \nfilter f/0 is undefined", s),
        _ => panic!("a compile error is a compilation error"),
    }
}

#[test]
fn error_descriptions() {
    assert_eq!("cannot convert from serde_json or jaq_json", Error::ConvertFrom.describe(""));
    assert_eq!("cannot convert to serde_json or jaq_json", Error::ConvertTo.describe(""));
    assert_eq!("jaq compilation error: x", Error::JaqCompile("x".to_string()).describe(""));
    assert_eq!("jaq exception: y", Error::JaqException("y".to_string()).describe(""));
    assert_eq!("the jq expression did not yield a result", Error::JaqNoResult.describe(""));
    assert_eq!(
        "the index 3 is higher than 1",
        Error::JsonIndex(JsonIndexError { index: 3, len: 2 }).describe("")
    );
    assert_eq!("malformed JSON pointer a", Error::JsonPointer("a".to_string()).describe(""));
    assert_eq!(
        "outside",
        Error::JsonPatch(JsonPatchError {
            error: "e".to_string(),
            patch: Box::new(Array::new()),
            source: Box::new(Value::Null),
        })
        .describe("outside")
    );
}

#[test]
fn patch_error_description() {
    let error = JsonPatchError {
        error: "path not found".to_string(),
        patch: Box::new(Array::new()),
        source: Box::new(Value::Null),
    };

    assert_eq!(
        "cannot apply path '[]' to source 'null' because of 'path not found",
        error.describe("[]", "null")
    );
}
