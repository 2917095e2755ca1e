//! Errors of the library.
use crate::api::Value;
use crate::array::Array;
use crate::text::{decimal_text, usize_text, utf8_or_empty, utf8_text};
use vstd::string::StringExecFns;
use serde_json::Error as SerdeJsonError;
use vstd::prelude::*;

verus! {

/// An error of `serde_json`.
#[verifier::external_type_specification]
#[verifier::external_body]
pub struct ExSerdeJsonError(SerdeJsonError);

/// The errors of the library.
#[derive(Debug)]
pub enum Error {
    /// Cannot convert from another JSON representation to an immutable JSON value.
    ConvertFrom,
    /// Cannot convert from an immutable JSON value to another JSON representation.
    ConvertTo,
    /// A jaq compilation error.
    JaqCompile(String),
    /// An exception while running a jaq filter.
    JaqException(String),
    /// A jaq transformation didn't produce any result.
    JaqNoResult,
    /// Wrong array index.
    JsonIndex(JsonIndexError),
    /// Invalid JSON patch.
    JsonPatch(JsonPatchError),
    /// Invalid JSON pointer.
    JsonPointer(String),
    /// A serde_json error.
    SerdeJson(serde_json::Error),
}

/// Denotes a wrong JSON array index.
#[derive(Debug, PartialEq, Eq, Structural, Clone, Copy)]
pub struct JsonIndexError {
    /// The index.
    pub index: usize,
    /// The length of the array.
    pub len: usize,
}

/// Denotes a JSON patch that could not be applied to a source.
#[derive(Debug)]
pub struct JsonPatchError {
    pub error: String,
    pub patch: Box<Array>,
    pub source: Box<Value>,
}

/// The text of an index error: the index and the highest index of the array.
pub open spec fn index_error_text(e: JsonIndexError) -> Seq<char> {
    "the index "@ + decimal_text(e.index as nat) + " is higher than "@ + decimal_text(
        (e.len - 1) as nat,
    )
}

impl JsonIndexError {
    /// Describes the error. The highest index is one below the length, so the length must not
    /// be zero.
    pub fn to_string(&self) -> (r: String)
        requires
            self.len > 0,
        ensures
            r@ == index_error_text(*self),
    {
        let mut r = "the index ".to_owned();
        r.append(usize_text(self.index).as_str());
        r.append(" is higher than ");
        r.append(usize_text(self.len - 1).as_str());
        r
    }
}

/// The description of a patch error, given the JSON texts of its patch and its source.
pub open spec fn patch_error_text(error: JsonPatchError, patch: Seq<char>, source: Seq<char>) -> Seq<
    char,
> {
    "cannot apply path '"@ + patch + "' to source '"@ + source + "' because of '"@ + error.error@
}

impl JsonPatchError {
    /// Describes the error, given the JSON texts of its patch and its source.
    pub fn describe(&self, patch: &str, source: &str) -> (r: String)
        ensures
            r@ == patch_error_text(*self, patch@, source@),
    {
        let mut r = "cannot apply path '".to_owned();
        r.append(patch);
        r.append("' to source '");
        r.append(source);
        r.append("' because of '");
        r.append(self.error.as_str());
        r
    }
}

/// The description of an error. `outside` is what the error holds that the library does not
/// write itself: the description of a patch error (with the JSON texts of its patch and its
/// source) or of a `serde_json` error.
pub open spec fn error_text(error: Error, outside: Seq<char>) -> Seq<char> {
    match error {
        Error::ConvertFrom => "cannot convert from serde_json or jaq_json"@,
        Error::ConvertTo => "cannot convert to serde_json or jaq_json"@,
        Error::JaqCompile(s) => "jaq compilation error: "@ + s@,
        Error::JaqException(s) => "jaq exception: "@ + s@,
        Error::JaqNoResult => "the jq expression did not yield a result"@,
        Error::JsonIndex(i) => index_error_text(i),
        Error::JsonPatch(_) => outside,
        Error::JsonPointer(p) => "malformed JSON pointer "@ + p@,
        Error::SerdeJson(_) => outside,
    }
}

impl Error {
    /// Describes the error. `outside` is the description of what the library holds but does
    /// not write itself: of a patch error (see `JsonPatchError::describe`) or of a `serde_json`
    /// error; the other errors ignore it. The highest index of an empty array does not exist,
    /// so an index error must be about an array that is not empty.
    pub fn describe(&self, outside: &str) -> (r: String)
        requires
            self matches Error::JsonIndex(i) ==> i.len > 0,
        ensures
            r@ == error_text(*self, outside@),
    {
        match self {
            Error::ConvertFrom => "cannot convert from serde_json or jaq_json".to_owned(),
            Error::ConvertTo => "cannot convert to serde_json or jaq_json".to_owned(),
            Error::JaqCompile(s) => {
                let mut r = "jaq compilation error: ".to_owned();
                r.append(s.as_str());
                r
            },
            Error::JaqException(s) => {
                let mut r = "jaq exception: ".to_owned();
                r.append(s.as_str());
                r
            },
            Error::JaqNoResult => "the jq expression did not yield a result".to_owned(),
            Error::JsonIndex(i) => i.to_string(),
            Error::JsonPatch(_) => outside.to_owned(),
            Error::JsonPointer(p) => {
                let mut r = "malformed JSON pointer ".to_owned();
                r.append(p.as_str());
                r
            },
            Error::SerdeJson(_) => outside.to_owned(),
        }
    }
}

impl From<JsonIndexError> for Error {
    fn from(value: JsonIndexError) -> (r: Self) {
        Error::JsonIndex(value)
    }
}

impl vstd::std_specs::convert::FromSpecImpl<JsonIndexError> for Error {
    open spec fn obeys_from_spec() -> bool {
        true
    }

    open spec fn from_spec(value: JsonIndexError) -> Error {
        Error::JsonIndex(value)
    }
}

impl From<JsonPatchError> for Error {
    fn from(value: JsonPatchError) -> (r: Self) {
        Error::JsonPatch(value)
    }
}

impl vstd::std_specs::convert::FromSpecImpl<JsonPatchError> for Error {
    open spec fn obeys_from_spec() -> bool {
        true
    }

    open spec fn from_spec(value: JsonPatchError) -> Error {
        Error::JsonPatch(value)
    }
}

impl From<serde_json::Error> for Error {
    fn from(value: serde_json::Error) -> (r: Self) {
        Error::SerdeJson(value)
    }
}

impl vstd::std_specs::convert::FromSpecImpl<serde_json::Error> for Error {
    open spec fn obeys_from_spec() -> bool {
        true
    }

    open spec fn from_spec(value: serde_json::Error) -> Error {
        Error::SerdeJson(value)
    }
}

/// The lines, each after a line break: what adding `"\n"` and a line, one line after the
/// other, to the empty text gives.
pub open spec fn lines_text(lines: Seq<Seq<char>>) -> Seq<char>
    decreases lines.len(),
{
    if lines.len() == 0 {
        Seq::empty()
    } else {
        lines_text(lines.drop_last()) + "\n"@ + lines.last()
    }
}

/// Joins the lines, each after a line break.
fn join_lines(lines: &Vec<String>) -> (r: String)
    ensures
        r@ == lines_text(lines@.map_values(|l: String| l@)),
{
    let ghost texts = lines@.map_values(|l: String| l@);
    let mut r = String::new();
    let mut i: usize = 0;
    while i < lines.len()
        invariant
            i <= lines@.len(),
            texts == lines@.map_values(|l: String| l@),
            r@ == lines_text(texts.take(i as int)),
        decreases lines.len() - i,
    {
        r.append("\n");
        r.append(lines[i].as_str());
        proof {
            assert(texts.take(i + 1).drop_last() == texts.take(i as int));
            assert(texts.take(i + 1).last() == lines@[i as int]@);
        }
        i = i + 1;
    }
    assert(texts.take(lines@.len() as int) == texts);
    r
}

/// The line of a read error: what was expected and what came.
pub open spec fn read_error_line(expected: Seq<char>, got: Seq<char>) -> Seq<char> {
    "expected "@ + expected + ", got "@ + got
}

/// The lines of lex or parse errors of jaq: each gives what was expected and what came.
pub open spec fn read_errors_text(errors: Seq<(String, String)>) -> Seq<char> {
    lines_text(errors.map_values(|e: (String, String)| read_error_line(e.0@, e.1@)))
}

/// Describes the lex or parse errors of jaq, given as pairs of what was expected and what
/// came, one line each.
pub fn jaq_read_error(errors: &Vec<(String, String)>) -> (r: String)
    ensures
        r@ == read_errors_text(errors@),
{
    let mut lines: Vec<String> = Vec::new();
    let mut i: usize = 0;
    while i < errors.len()
        invariant
            i <= errors@.len(),
            lines@.len() == i,
            forall|k: int|
                0 <= k < i ==> (#[trigger] lines@[k])@ == read_error_line(
                    errors@[k].0@,
                    errors@[k].1@,
                ),
        decreases errors.len() - i,
    {
        let (expected, got) = &errors[i];
        let mut line = "expected ".to_owned();
        line.append(expected.as_str());
        line.append(", got ");
        line.append(got.as_str());
        lines.push(line);
        i = i + 1;
    }
    let r = join_lines(&lines);
    assert(lines@.map_values(|l: String| l@) == errors@.map_values(
        |e: (String, String)| read_error_line(e.0@, e.1@),
    ));
    r
}

/// The line of a name that a jq program uses and that is not defined: the kind of the name,
/// then the name.
pub open spec fn undefined_line(name: Seq<char>, kind: Seq<char>) -> Seq<char> {
    kind + " "@ + name + " is undefined"@
}

/// The lines of the compile errors of jaq.
pub open spec fn compile_errors_text(errors: Seq<(String, String)>) -> Seq<char> {
    lines_text(errors.map_values(|e: (String, String)| undefined_line(e.0@, e.1@)))
}

/// Describes the compile errors of jaq, given as pairs of a name that is not defined and its
/// kind (as `Undefined::as_str` writes it), one line each.
pub fn jaq_compile_errors(errors: &Vec<(String, String)>) -> (r: String)
    ensures
        r@ == compile_errors_text(errors@),
{
    let mut lines: Vec<String> = Vec::new();
    let mut i: usize = 0;
    while i < errors.len()
        invariant
            i <= errors@.len(),
            lines@.len() == i,
            forall|k: int|
                0 <= k < i ==> (#[trigger] lines@[k])@ == undefined_line(
                    errors@[k].0@,
                    errors@[k].1@,
                ),
        decreases errors.len() - i,
    {
        let (name, kind) = &errors[i];
        let mut line = kind.clone();
        line.append(" ");
        line.append(name.as_str());
        line.append(" is undefined");
        lines.push(line);
        i = i + 1;
    }
    let r = join_lines(&lines);
    assert(lines@.map_values(|l: String| l@) == errors@.map_values(
        |e: (String, String)| undefined_line(e.0@, e.1@),
    ));
    r
}

/// What stopped jaq from loading a jq program, as `jaq_core::load::Error` holds it.
#[derive(Debug)]
pub enum LoadError {
    /// Files that could not be read: a path and the reason.
    Io(Vec<(String, String)>),
    /// Lex errors: what was expected and what came.
    Lex(Vec<(String, String)>),
    /// Parse errors: what was expected and what came.
    Parse(Vec<(String, String)>),
}

/// The line of a file that could not be read.
pub open spec fn io_line(path: Seq<char>, reason: Seq<char>) -> Seq<char> {
    path + ": "@ + reason
}

/// The lines of a load error of jaq.
pub open spec fn load_errors_text(error: LoadError) -> Seq<char> {
    match error {
        LoadError::Io(v) => lines_text(v@.map_values(|e: (String, String)| io_line(e.0@, e.1@))),
        LoadError::Lex(v) => read_errors_text(v@),
        LoadError::Parse(v) => read_errors_text(v@),
    }
}

/// Describes a load error of jaq, one line for each file that could not be read or for each
/// lex or parse error.
pub fn jaq_load_errors(error: &LoadError) -> (r: String)
    ensures
        r@ == load_errors_text(*error),
{
    match error {
        LoadError::Io(v) => {
            let mut lines: Vec<String> = Vec::new();
            let mut i: usize = 0;
            while i < v.len()
                invariant
                    i <= v@.len(),
                    lines@.len() == i,
                    forall|k: int|
                        0 <= k < i ==> (#[trigger] lines@[k])@ == io_line(v@[k].0@, v@[k].1@),
                decreases v.len() - i,
            {
                let (path, reason) = &v[i];
                let mut line = path.clone();
                line.append(": ");
                line.append(reason.as_str());
                lines.push(line);
                i = i + 1;
            }
            let r = join_lines(&lines);
            assert(lines@.map_values(|l: String| l@) == v@.map_values(
                |e: (String, String)| io_line(e.0@, e.1@),
            ));
            r
        },
        LoadError::Lex(v) => jaq_read_error(v),
        LoadError::Parse(v) => jaq_read_error(v),
    }
}

/// The text of a path given by its bytes: the text where the bytes are valid UTF-8, and the
/// empty text otherwise.
pub fn pathbuf_to_string(path_buf: Vec<u8>) -> (r: String)
    ensures
        r@ == utf8_or_empty(path_buf@),
{
    match utf8_text(path_buf) {
        Some(s) => s,
        None => String::new(),
    }
}

/// A jq program that jaq read: where it came from (a path, by its bytes) and its code.
#[derive(Debug)]
pub struct JaqFile {
    pub path: Vec<u8>,
    pub code: String,
}

/// The line of a file whose program could not be loaded.
pub open spec fn file_load_line(file: JaqFile, error: LoadError) -> Seq<char> {
    utf8_or_empty(file.path@) + ": code: "@ + file.code@ + ": error: "@ + load_errors_text(error)
}

/// The line of a file whose program could not be compiled.
pub open spec fn file_compile_line(file: JaqFile, errors: Seq<(String, String)>) -> Seq<char> {
    utf8_or_empty(file.path@) + ": code: "@ + file.code@ + ":error: "@ + compile_errors_text(errors)
}

impl Error {
    /// The compilation error for jq programs that jaq could not load: one line for each file.
    pub fn from_load_errors(errors: &Vec<(JaqFile, LoadError)>) -> (r: Error)
        ensures
            r matches Error::JaqCompile(t) && t@ == lines_text(
                errors@.map_values(|e: (JaqFile, LoadError)| file_load_line(e.0, e.1)),
            ),
    {
        let mut lines: Vec<String> = Vec::new();
        let mut i: usize = 0;
        while i < errors.len()
            invariant
                i <= errors@.len(),
                lines@.len() == i,
                forall|k: int|
                    0 <= k < i ==> (#[trigger] lines@[k])@ == file_load_line(
                        errors@[k].0,
                        errors@[k].1,
                    ),
            decreases errors.len() - i,
        {
            let (file, error) = &errors[i];
            let mut line = pathbuf_to_string(file.path.clone());
            line.append(": code: ");
            line.append(file.code.as_str());
            line.append(": error: ");
            line.append(jaq_load_errors(error).as_str());
            lines.push(line);
            i = i + 1;
        }
        let text = join_lines(&lines);
        assert(lines@.map_values(|l: String| l@) == errors@.map_values(
            |e: (JaqFile, LoadError)| file_load_line(e.0, e.1),
        ));
        Error::JaqCompile(text)
    }

    /// The compilation error for jq programs that jaq could not compile: one line for each
    /// file.
    pub fn from_compile_errors(errors: &Vec<(JaqFile, Vec<(String, String)>)>) -> (r: Error)
        ensures
            r matches Error::JaqCompile(t) && t@ == lines_text(
                errors@.map_values(
                    |e: (JaqFile, Vec<(String, String)>)| file_compile_line(e.0, e.1@),
                ),
            ),
    {
        let mut lines: Vec<String> = Vec::new();
        let mut i: usize = 0;
        while i < errors.len()
            invariant
                i <= errors@.len(),
                lines@.len() == i,
                forall|k: int|
                    0 <= k < i ==> (#[trigger] lines@[k])@ == file_compile_line(
                        errors@[k].0,
                        errors@[k].1@,
                    ),
            decreases errors.len() - i,
        {
            let (file, names) = &errors[i];
            let mut line = pathbuf_to_string(file.path.clone());
            line.append(": code: ");
            line.append(file.code.as_str());
            line.append(":error: ");
            line.append(jaq_compile_errors(names).as_str());
            lines.push(line);
            i = i + 1;
        }
        let text = join_lines(&lines);
        assert(lines@.map_values(|l: String| l@) == errors@.map_values(
            |e: (JaqFile, Vec<(String, String)>)| file_compile_line(e.0, e.1@),
        ));
        Error::JaqCompile(text)
    }
}

} // verus!
