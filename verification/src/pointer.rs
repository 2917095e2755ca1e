//! JSON pointers (RFC 6901): parsing, printing, and reading and changing values through them.
use crate::api::{
    is_string_of, value_as_array, value_as_bool, value_as_decimal, value_as_integer,
    value_as_number, value_as_object, value_as_string, Number, Value,
};
use crate::array::Array;
use crate::error::Error;
use crate::object::Object;
use crate::persistent::{segment_items, segments_get, segments_len, segments_new, SegmentVector};
use crate::text::{chars_of, parse_usize, string_push, usize_from_text};
use crate::util::{push_back_segment, remove_first, remove_last};
use vstd::prelude::*;
use vstd::string::StringExecFns;

verus! {

broadcast use vstd::string::group_string_axioms;

/// What escaping puts in place of one character: `~` becomes `~0` and `/` becomes `~1`.
pub open spec fn escape_char(c: char) -> Seq<char> {
    if c == '~' {
        seq!['~', '0']
    } else if c == '/' {
        seq!['~', '1']
    } else {
        seq![c]
    }
}

/// A pointer segment with `~` and `/` escaped.
pub open spec fn escape_text(s: Seq<char>) -> Seq<char>
    decreases s.len(),
{
    if s.len() == 0 {
        Seq::empty()
    } else {
        escape_text(s.drop_last()) + escape_char(s.last())
    }
}

/// Replaces, from left to right and without overlaps, every pair of characters `a` `b` by the
/// character `r`, as `str::replace` does with a two-character pattern.
pub open spec fn replace_pair(s: Seq<char>, a: char, b: char, r: char) -> Seq<char>
    decreases s.len(),
{
    if s.len() < 2 {
        s
    } else if s[0] == a && s[1] == b {
        seq![r] + replace_pair(s.skip(2), a, b, r)
    } else {
        seq![s[0]] + replace_pair(s.skip(1), a, b, r)
    }
}

/// A pointer segment with its escapes undone: first every `~1` becomes `/`, then every `~0`
/// becomes `~`.
pub open spec fn unescape_text(s: Seq<char>) -> Seq<char> {
    replace_pair(replace_pair(s, '~', '1', '/'), '~', '0', '~')
}

/// The nonempty pieces between slashes, where `cur` is the piece read so far.
pub open spec fn pieces_from(s: Seq<char>, cur: Seq<char>) -> Seq<Seq<char>>
    decreases s.len(),
{
    if s.len() == 0 {
        if cur.len() == 0 {
            Seq::empty()
        } else {
            seq![cur]
        }
    } else if s[0] == '/' {
        if cur.len() == 0 {
            pieces_from(s.skip(1), Seq::empty())
        } else {
            seq![cur] + pieces_from(s.skip(1), Seq::empty())
        }
    } else {
        pieces_from(s.skip(1), cur.push(s[0]))
    }
}

/// The nonempty pieces of a text between slashes, in order.
pub open spec fn pieces(s: Seq<char>) -> Seq<Seq<char>> {
    pieces_from(s, Seq::empty())
}

/// The path that a text denotes, if it is a pointer: it starts with `/`, and its segments are
/// the nonempty pieces between slashes, unescaped.
pub open spec fn pointer_from_text(s: Seq<char>) -> Option<Seq<Seq<char>>> {
    if s.len() > 0 && s[0] == '/' {
        Some(pieces(s).map_values(|p: Seq<char>| unescape_text(p)))
    } else {
        None
    }
}

/// The text of a path: each segment escaped and preceded by `/`.
pub open spec fn pointer_text(path: Seq<Seq<char>>) -> Seq<char>
    decreases path.len(),
{
    if path.len() == 0 {
        Seq::empty()
    } else {
        pointer_text(path.drop_last()) + seq!['/'] + escape_text(path.last())
    }
}

/// The value that one segment leads to from a target: an element of an array at the index
/// that the segment denotes, or a field of an object.
pub open spec fn child_at(target: Value, segment: Seq<char>) -> Option<Value> {
    match target {
        Value::Array(a) => match usize_from_text(segment) {
            Some(i) => if i < a@.len() {
                Some(a@[i as int])
            } else {
                None
            },
            None => None,
        },
        Value::Object(o) => if o@.contains_key(segment) {
            Some(o@[segment])
        } else {
            None
        },
        _ => None,
    }
}

/// The value that a path leads to from a target. The empty path leads to the target itself if
/// it is an array or an object; nothing leads anywhere from a scalar.
pub open spec fn pointer_get(path: Seq<Seq<char>>, target: Value) -> Option<Value>
    decreases path.len(),
{
    if path.len() == 0 {
        if target is Array || target is Object {
            Some(target)
        } else {
            None
        }
    } else {
        match child_at(target, path[0]) {
            Some(c) => if path.len() == 1 {
                Some(c)
            } else {
                pointer_get(path.drop_first(), c)
            },
            None => None,
        }
    }
}

/// A change at the location of a pointer.
pub enum Edit {
    /// Inserts into an array, or adds or replaces the field of an object (what `add` does).
    Insert(Value),
    /// Replaces an element of an array, or adds or replaces the field of an object (what `set`
    /// does).
    Replace(Value),
    /// Removes an element of an array or a field of an object.
    Remove,
}

/// The index that the last segment of a path denotes in an array of the given length: `-`
/// denotes the length, and a number denotes itself if it is at most the length.
pub open spec fn last_index(segment: Seq<char>, len: nat) -> Option<nat> {
    if segment == seq!['-'] {
        Some(len)
    } else {
        match usize_from_text(segment) {
            Some(i) => if i <= len {
                Some(i as nat)
            } else {
                None
            },
            None => None,
        }
    }
}

/// The elements of an array after an edit at an index.
pub open spec fn edited_elements(edit: Edit, a: Seq<Value>, i: nat) -> Seq<Value> {
    match edit {
        Edit::Insert(v) => a.insert(i as int, v),
        Edit::Replace(v) => a.update(i as int, v),
        Edit::Remove => a.remove(i as int),
    }
}

/// The fields of an object after an edit of a key.
pub open spec fn edited_fields(edit: Edit, o: Map<Seq<char>, Value>, key: Seq<char>) -> Map<
    Seq<char>,
    Value,
> {
    match edit {
        Edit::Insert(v) => o.insert(key, v),
        Edit::Replace(v) => o.insert(key, v),
        Edit::Remove => o.remove(key),
    }
}

/// An edit at a path of a target succeeds: the path is nonempty, every segment but the last
/// leads to an array or an object, and the last one fits the container it names (an index of
/// an array must be below the length, or at most the length for `Insert`, which also needs
/// room for one more element).
pub open spec fn edit_defined(edit: Edit, path: Seq<Seq<char>>, target: Value) -> bool
    decreases path.len(),
{
    if path.len() == 0 {
        false
    } else if path.len() == 1 {
        match target {
            Value::Array(a) => match last_index(path[0], a@.len()) {
                Some(i) => if edit is Insert {
                    a@.len() < usize::MAX
                } else {
                    i < a@.len()
                },
                None => false,
            },
            Value::Object(_) => true,
            _ => false,
        }
    } else {
        match child_at(target, path[0]) {
            Some(c) => edit_defined(edit, path.drop_first(), c),
            None => false,
        }
    }
}

/// `result` is the target after an edit at a path: the container that the path ends in is
/// edited, and every container on the way holds the edited child in place of the old one.
pub open spec fn edited(edit: Edit, path: Seq<Seq<char>>, target: Value, result: Value) -> bool
    decreases path.len(),
{
    if path.len() == 0 {
        false
    } else if path.len() == 1 {
        match target {
            Value::Array(a) => match last_index(path[0], a@.len()) {
                Some(i) => result matches Value::Array(b) && b@ == edited_elements(edit, a@, i),
                None => false,
            },
            Value::Object(o) => result matches Value::Object(p) && p@ == edited_fields(
                edit,
                o@,
                path[0],
            ),
            _ => false,
        }
    } else {
        match target {
            Value::Array(a) => match usize_from_text(path[0]) {
                Some(i) => i < a@.len() && (result matches Value::Array(b) && b@.len() == a@.len()
                    && b@ == a@.update(i as int, b@[i as int]) && edited(
                    edit,
                    path.drop_first(),
                    a@[i as int],
                    b@[i as int],
                )),
                None => false,
            },
            Value::Object(o) => o@.contains_key(path[0]) && (result matches Value::Object(p)
                && p@.contains_key(path[0]) && p@ == o@.insert(path[0], p@[path[0]]) && edited(
                edit,
                path.drop_first(),
                o@[path[0]],
                p@[path[0]],
            )),
            _ => false,
        }
    }
}

/// What an edit at a path of a target gives: a value exactly when the edit succeeds, and then
/// the edited target.
pub open spec fn edit_outcome(edit: Edit, path: Seq<Seq<char>>, target: Value, r: Option<Value>) -> bool {
    &&& (r is Some <==> edit_defined(edit, path, target))
    &&& (r matches Some(v) ==> edited(edit, path, target, v))
}

/// What an edit through a pointer given as text gives: nothing if the text is not a pointer,
/// and otherwise the outcome of the edit at its path.
pub open spec fn text_edit_outcome(edit: Edit, pointer: Seq<char>, target: Value, r: Option<Value>) -> bool {
    match pointer_from_text(pointer) {
        Some(path) => edit_outcome(edit, path, target, r),
        None => r is None,
    }
}

/// What reading through a pointer given as text gives: nothing if the text is not a pointer,
/// and otherwise the value at its path.
pub open spec fn text_get(pointer: Seq<char>, target: Value) -> Option<Value> {
    match pointer_from_text(pointer) {
        Some(path) => pointer_get(path, target),
        None => None,
    }
}

/// Applies an accessor to an optional value.
pub open spec fn and_then_as<T>(v: Option<Value>, f: spec_fn(Value) -> Option<T>) -> Option<T> {
    match v {
        Some(x) => f(x),
        None => None,
    }
}

/// Escapes `~` as `~0` and `/` as `~1`.
pub fn escape(s: &str) -> (r: String)
    ensures
        r@ == escape_text(s@),
{
    let chars = chars_of(s);
    let mut r = String::new();
    let mut i: usize = 0;
    while i < chars.len()
        invariant
            i <= chars@.len(),
            chars@ == s@,
            r@ == escape_text(s@.take(i as int)),
        decreases chars.len() - i,
    {
        let c = chars[i];
        if c == '~' {
            string_push(&mut r, '~');
            string_push(&mut r, '0');
        } else if c == '/' {
            string_push(&mut r, '~');
            string_push(&mut r, '1');
        } else {
            string_push(&mut r, c);
        }
        assert(s@.take(i + 1).drop_last() == s@.take(i as int));
        i = i + 1;
    }
    assert(s@.take(chars@.len() as int) == s@);
    r
}

/// Replaces every pair `a` `b` by `r`, from left to right.
fn replace_pair_chars(s: &Vec<char>, a: char, b: char, r: char) -> (out: Vec<char>)
    ensures
        out@ == replace_pair(s@, a, b, r),
{
    let mut out: Vec<char> = Vec::new();
    let mut i: usize = 0;
    assert(s@.skip(0) == s@);
    while i < s.len()
        invariant
            i <= s@.len(),
            replace_pair(s@, a, b, r) == out@ + replace_pair(s@.skip(i as int), a, b, r),
        decreases s.len() - i,
    {
        let rest = Ghost(s@.skip(i as int));
        if i + 1 < s.len() && s[i] == a && s[i + 1] == b {
            out.push(r);
            assert(rest@.skip(2) == s@.skip(i + 2));
            assert(replace_pair(rest@, a, b, r) == seq![r] + replace_pair(s@.skip(i + 2), a, b, r));
            i = i + 2;
        } else {
            out.push(s[i]);
            if i + 1 < s.len() {
                assert(rest@.skip(1) == s@.skip(i + 1));
                assert(replace_pair(rest@, a, b, r) == seq![s@[i as int]] + replace_pair(
                    s@.skip(i + 1),
                    a,
                    b,
                    r,
                ));
            } else {
                assert(rest@ =~= seq![s@[i as int]]);
                assert(s@.skip(i + 1) == Seq::<char>::empty());
            }
            i = i + 1;
        }
    }
    assert(s@.skip(i as int) == Seq::<char>::empty());
    out
}

/// Undoes the escapes of a pointer segment: `~1` becomes `/`, then `~0` becomes `~`.
pub fn unescape(s: &str) -> (r: String)
    ensures
        r@ == unescape_text(s@),
{
    let chars = chars_of(s);
    let first = replace_pair_chars(&chars, '~', '1', '/');
    let second = replace_pair_chars(&first, '~', '0', '~');
    crate::text::string_of(&second, 0, second.len())
}

/// Represents a JSON pointer.
#[derive(Clone, Debug, PartialEq, Eq, Hash)]
pub struct JsonPointer {
    path: SegmentVector,
}

impl View for JsonPointer {
    type V = Seq<Seq<char>>;

    closed spec fn view(&self) -> Seq<Seq<char>> {
        segment_items(self.path)
    }
}

impl Default for JsonPointer {
    fn default() -> (r: Self)
        ensures
            r@ == Seq::<Seq<char>>::empty(),
    {
        Self::new()
    }
}

impl core::str::FromStr for JsonPointer {
    type Err = Error;

    fn from_str(s: &str) -> (r: Result<Self, Self::Err>)
        ensures
            pointer_from_text(s@) is Some ==> (r matches Ok(p) && p@ == pointer_from_text(s@)->0),
            pointer_from_text(s@) is None ==> (r matches Err(Error::JsonPointer(t)) && t@ == s@),
    {
        JsonPointer::parse(s)
    }
}

/// The pieces of a text between slashes, without unescaping.
fn split_pieces(s: &str) -> (r: Vec<String>)
    ensures
        r@.len() == pieces(s@).len(),
        forall|i: int| 0 <= i < r@.len() ==> #[trigger] r@[i]@ == pieces(s@)[i],
{
    let chars = chars_of(s);
    let mut r: Vec<String> = Vec::new();
    let mut cur = String::new();
    let mut i: usize = 0;
    let ghost done: Seq<Seq<char>> = Seq::empty();
    assert(s@.skip(0) == s@);
    while i < chars.len()
        invariant
            i <= chars@.len(),
            chars@ == s@,
            r@.len() == done.len(),
            forall|j: int| 0 <= j < r@.len() ==> #[trigger] r@[j]@ == done[j],
            pieces(s@) == done + pieces_from(s@.skip(i as int), cur@),
        decreases chars.len() - i,
    {
        let c = chars[i];
        assert(s@.skip(i as int)[0] == c);
        assert(s@.skip(i as int).skip(1) == s@.skip(i + 1));
        if c == '/' {
            if !cur.as_str().is_empty() {
                let ghost old_cur = cur@;
                let piece = cur;
                proof {
                    done = done.push(old_cur);
                }
                r.push(piece);
                cur = String::new();
                assert(pieces(s@) == done + pieces_from(s@.skip(i + 1), cur@));
            } else {
                assert(cur@ =~= Seq::<char>::empty());
                assert(pieces_from(s@.skip(i as int), cur@) == pieces_from(s@.skip(i + 1), cur@));
            }
        } else {
            string_push(&mut cur, c);
        }
        i = i + 1;
    }
    if !cur.as_str().is_empty() {
        let ghost old_cur = cur@;
        proof {
            done = done.push(old_cur);
        }
        r.push(cur);
    }
    assert(s@.skip(i as int) == Seq::<char>::empty());
    assert(done =~= pieces(s@));
    r
}

impl JsonPointer {
    /// The segments of the pointer.
    pub(crate) fn path_segments(&self) -> (r: &SegmentVector)
        ensures
            segment_items(*r) == self@,
    {
        &self.path
    }

    /// Creates a JSON pointer that refers to the root.
    pub fn new() -> (r: Self)
        ensures
            r@ == Seq::<Seq<char>>::empty(),
    {
        JsonPointer { path: segments_new() }
    }

    /// Creates a JSON pointer from a string, which must start with `/`. Empty segments are
    /// ignored, and `~1` and `~0` are unescaped in each segment.
    pub fn parse(s: &str) -> (r: Result<Self, Error>)
        ensures
            pointer_from_text(s@) is Some ==> (r matches Ok(p) && p@ == pointer_from_text(s@)->0),
            pointer_from_text(s@) is None ==> (r matches Err(Error::JsonPointer(t)) && t@ == s@),
    {
        let chars = chars_of(s);
        if chars.len() == 0 || chars[0] != '/' {
            return Err(Error::JsonPointer(s.to_owned()));
        }
        let raw = split_pieces(s);
        let ghost target = pieces(s@).map_values(|p: Seq<char>| unescape_text(p));
        let mut path = segments_new();
        let mut i: usize = 0;
        while i < raw.len()
            invariant
                i <= raw@.len(),
                raw@.len() == pieces(s@).len(),
                forall|j: int| 0 <= j < raw@.len() ==> #[trigger] raw@[j]@ == pieces(s@)[j],
                target == pieces(s@).map_values(|p: Seq<char>| unescape_text(p)),
                segment_items(path) == target.take(i as int),
            decreases raw.len() - i,
        {
            let segment = unescape(raw[i].as_str());
            assert(segment@ == target[i as int]);
            path = push_back_segment(&path, segment);
            i = i + 1;
            assert(segment_items(path) == target.take(i as int));
        }
        assert(target.take(raw@.len() as int) == target);
        Ok(JsonPointer { path })
    }

    /// Converts a JSON pointer to a string: each segment escaped and preceded by `/`.
    pub fn to_string(&self) -> (r: String)
        ensures
            r@ == pointer_text(self@),
    {
        let n = segments_len(&self.path);
        let mut r = String::new();
        let mut i: usize = 0;
        while i < n
            invariant
                i <= n,
                n == self@.len(),
                r@ == pointer_text(self@.take(i as int)),
            decreases n - i,
        {
            match segments_get(&self.path, i) {
                Some(segment) => {
                    string_push(&mut r, '/');
                    r.append(escape(segment.as_str()).as_str());
                },
                None => {},
            }
            assert(self@.take(i + 1).drop_last() == self@.take(i as int));
            i = i + 1;
        }
        assert(self@.take(n as int) == self@);
        r
    }

    /// If the pointer refers to a value in an array, the index within the array is returned.
    pub fn array_index(&self) -> (r: Option<usize>)
        ensures
            r == (if self@.len() > 0 {
                usize_from_text(self@.last())
            } else {
                None
            }),
    {
        let n = segments_len(&self.path);
        if n == 0 {
            None
        } else {
            match segments_get(&self.path, n - 1) {
                Some(last) => parse_usize(last.as_str()),
                None => None,
            }
        }
    }

    /// The index that the first segment denotes.
    fn as_integer(&self) -> (r: Option<usize>)
        requires
            self@.len() > 0,
        ensures
            r == usize_from_text(self@[0]),
    {
        match segments_get(&self.path, 0) {
            Some(first) => parse_usize(first.as_str()),
            None => None,
        }
    }

    /// Returns a JSON pointer with an extra path segment.
    pub fn child(&self, segment: &str) -> (r: Self)
        requires
            self@.len() < usize::MAX,
        ensures
            r@ == self@.push(segment@),
    {
        JsonPointer { path: push_back_segment(&self.path, segment.to_owned()) }
    }

    /// Returns a JSON pointer that refers to the parent; the root is its own parent.
    pub fn parent(&self) -> (r: Self)
        ensures
            r@ == (if self@.len() > 0 {
                self@.drop_last()
            } else {
                self@
            }),
    {
        JsonPointer { path: remove_last(&self.path) }
    }

    /// The pointer without its first segment, if it has more than one.
    fn next(&self) -> (r: Option<JsonPointer>)
        ensures
            self@.len() <= 1 ==> r is None,
            self@.len() > 1 ==> (r matches Some(p) && p@ == self@.drop_first()),
    {
        if segments_len(&self.path) <= 1 {
            None
        } else {
            Some(JsonPointer { path: remove_first(&self.path) })
        }
    }

    /// Get a value from a JSON object or array through a JSON pointer.
    pub fn get(&self, target: &Value) -> (r: Option<Value>)
        ensures
            r == pointer_get(self@, *target),
        decreases self@.len(), 2nat,
    {
        match target {
            Value::Array(a) => self.get_from_array(a),
            Value::Object(o) => self.get_from_object(o),
            _ => None,
        }
    }

    fn get_from_array(&self, target: &Array) -> (r: Option<Value>)
        ensures
            r == pointer_get(self@, Value::Array(*target)),
        decreases self@.len(), 1nat,
    {
        if segments_len(&self.path) == 0 {
            Some(Value::Array(target.duplicate()))
        } else {
            match self.as_integer() {
                Some(i) => match target.get(i) {
                    Ok(v) => self.next_level_or(&v),
                    Err(_) => None,
                },
                None => None,
            }
        }
    }

    fn get_from_object(&self, target: &Object) -> (r: Option<Value>)
        ensures
            r == pointer_get(self@, Value::Object(*target)),
        decreases self@.len(), 1nat,
    {
        let n = segments_len(&self.path);
        if n == 0 {
            Some(Value::Object(target.duplicate()))
        } else {
            match segments_get(&self.path, 0) {
                Some(key) => match target.get(key.as_str()) {
                    Some(v) => self.next_level_or(v),
                    None => None,
                },
                None => None,
            }
        }
    }

    /// The value that the rest of the path leads to from `target`, or `target` itself when
    /// the path has a single segment.
    fn next_level_or(&self, target: &Value) -> (r: Option<Value>)
        requires
            self@.len() > 0,
        ensures
            r == (if self@.len() == 1 {
                Some(*target)
            } else {
                pointer_get(self@.drop_first(), *target)
            }),
        decreases self@.len(), 0nat,
    {
        match self.next() {
            Some(n) => match target {
                Value::Array(a) => n.get_from_array(a),
                Value::Object(o) => n.get_from_object(o),
                _ => None,
            },
            None => Some(target.duplicate()),
        }
    }

    /// Get a value through a JSON pointer given as text, if it is an array.
    pub fn get_array(pointer: &str, target: &Value) -> (r: Option<Array>)
        ensures
            r == and_then_as(text_get(pointer@, *target), |v: Value| value_as_array(v)),
    {
        match Self::get_pointer(pointer, target) {
            Some(v) => v.as_array(),
            None => None,
        }
    }

    /// Get a value through a JSON pointer given as text, if it is a Boolean.
    pub fn get_bool(pointer: &str, target: &Value) -> (r: Option<bool>)
        ensures
            r == and_then_as(text_get(pointer@, *target), |v: Value| value_as_bool(v)),
    {
        match Self::get_pointer(pointer, target) {
            Some(v) => v.as_bool(),
            None => None,
        }
    }

    /// Get the bits of a value through a JSON pointer given as text, if it is a decimal.
    pub fn get_decimal(pointer: &str, target: &Value) -> (r: Option<u64>)
        ensures
            r == and_then_as(text_get(pointer@, *target), |v: Value| value_as_decimal(v)),
    {
        match Self::get_pointer(pointer, target) {
            Some(v) => v.as_decimal(),
            None => None,
        }
    }

    /// Get a value through a JSON pointer given as text, if it is an integer.
    pub fn get_integer(pointer: &str, target: &Value) -> (r: Option<i128>)
        ensures
            r == and_then_as(text_get(pointer@, *target), |v: Value| value_as_integer(v)),
    {
        match Self::get_pointer(pointer, target) {
            Some(v) => v.as_integer(),
            None => None,
        }
    }

    /// Get a value through a JSON pointer given as text, if it is a number.
    pub fn get_number(pointer: &str, target: &Value) -> (r: Option<Number>)
        ensures
            r == and_then_as(text_get(pointer@, *target), |v: Value| value_as_number(v)),
    {
        match Self::get_pointer(pointer, target) {
            Some(v) => v.as_number(),
            None => None,
        }
    }

    /// Get a value through a JSON pointer given as text, if it is an object.
    pub fn get_object(pointer: &str, target: &Value) -> (r: Option<Object>)
        ensures
            r == and_then_as(text_get(pointer@, *target), |v: Value| value_as_object(v)),
    {
        match Self::get_pointer(pointer, target) {
            Some(v) => v.as_object(),
            None => None,
        }
    }

    /// Get a value through a JSON pointer given as text, if it is a string.
    pub fn get_string(pointer: &str, target: &Value) -> (r: Option<String>)
        ensures
            r == and_then_as(text_get(pointer@, *target), |v: Value| value_as_string(v)),
    {
        match Self::get_pointer(pointer, target) {
            Some(v) => v.as_string(),
            None => None,
        }
    }

    fn get_pointer(pointer: &str, target: &Value) -> (r: Option<Value>)
        ensures
            r == text_get(pointer@, *target),
    {
        match Self::parse(pointer) {
            Ok(p) => p.get(target),
            Err(_) => None,
        }
    }
}

/// Applies an edit at an index of an array, which the last segment of a path named.
fn edit_array(edit: &Edit, a: &Array, i: usize) -> (r: Option<Array>)
    requires
        i <= a@.len(),
    ensures
        r is Some <==> (if *edit is Insert {
            a@.len() < usize::MAX
        } else {
            i < a@.len()
        }),
        r matches Some(b) ==> b@ == edited_elements(*edit, a@, i as nat),
{
    match edit {
        Edit::Insert(v) => {
            if a.len() == usize::MAX {
                None
            } else {
                match a.insert(i, v) {
                    Ok(b) => Some(b),
                    Err(_) => None,
                }
            }
        },
        Edit::Replace(v) => match a.set(i, v) {
            Ok(b) => Some(b),
            Err(_) => None,
        },
        Edit::Remove => match a.remove(i) {
            Ok(b) => Some(b),
            Err(_) => None,
        },
    }
}

/// Applies an edit to the field `key` of an object.
fn edit_object(edit: &Edit, o: &Object, key: &str) -> (r: Object)
    ensures
        r@ == edited_fields(*edit, o@, key@),
{
    match edit {
        Edit::Insert(v) => o.add(key, v.duplicate()),
        Edit::Replace(v) => o.add(key, v.duplicate()),
        Edit::Remove => o.remove(key),
    }
}

/// The segment is `-`.
fn is_dash(segment: &str) -> (r: bool)
    ensures
        r == (segment@ == seq!['-']),
{
    let cs = chars_of(segment);
    if cs.len() == 1 && cs[0] == '-' {
        assert(segment@ =~= seq!['-']);
        true
    } else {
        false
    }
}

impl JsonPointer {
    /// The index that the single segment denotes in an array: `-` for the length, or a number
    /// that is at most the length.
    fn update_index(&self, array: &Array) -> (r: Option<usize>)
        requires
            self@.len() > 0,
        ensures
            r matches Some(i) ==> last_index(self@[0], array@.len()) == Some(i as nat),
            r is None ==> last_index(self@[0], array@.len()) is None,
    {
        match segments_get(&self.path, 0) {
            Some(first) => {
                if is_dash(first.as_str()) {
                    Some(array.len())
                } else {
                    match self.as_integer() {
                        Some(i) => if i <= array.len() {
                            Some(i)
                        } else {
                            None
                        },
                        None => None,
                    }
                }
            },
            None => None,
        }
    }

    fn modify(&self, target: &Value, edit: &Edit) -> (r: Option<Value>)
        ensures
            edit_outcome(*edit, self@, *target, r),
        decreases self@.len(), 1nat,
    {
        match target {
            Value::Array(a) => match self.modify_array(a, edit) {
                Some(b) => Some(Value::Array(b)),
                None => None,
            },
            Value::Object(o) => match self.modify_object(o, edit) {
                Some(p) => Some(Value::Object(p)),
                None => None,
            },
            _ => None,
        }
    }

    fn modify_array(&self, target: &Array, edit: &Edit) -> (r: Option<Array>)
        ensures
            r is Some <==> edit_defined(*edit, self@, Value::Array(*target)),
            r matches Some(b) ==> edited(*edit, self@, Value::Array(*target), Value::Array(b)),
        decreases self@.len(), 0nat,
    {
        let n = segments_len(&self.path);
        if n == 0 {
            None
        } else if n == 1 {
            match self.update_index(target) {
                Some(i) => edit_array(edit, target, i),
                None => None,
            }
        } else {
            match self.next() {
                Some(p) => match self.as_integer() {
                    Some(i) => match target.get(i) {
                        Ok(v) => match p.modify(&v, edit) {
                            Some(changed) => match target.set(i, &changed) {
                                Ok(b) => Some(b),
                                Err(_) => None,
                            },
                            None => None,
                        },
                        Err(_) => None,
                    },
                    None => None,
                },
                None => None,
            }
        }
    }

    fn modify_object(&self, target: &Object, edit: &Edit) -> (r: Option<Object>)
        ensures
            r is Some <==> edit_defined(*edit, self@, Value::Object(*target)),
            r matches Some(p) ==> edited(*edit, self@, Value::Object(*target), Value::Object(p)),
        decreases self@.len(), 0nat,
    {
        let n = segments_len(&self.path);
        if n == 0 {
            None
        } else {
            match segments_get(&self.path, 0) {
                Some(key) => {
                    if n == 1 {
                        Some(edit_object(edit, target, key.as_str()))
                    } else {
                        match self.next() {
                            Some(p) => match target.get(key.as_str()) {
                                Some(v) => match p.modify(v, edit) {
                                    Some(changed) => Some(target.add(key.as_str(), changed)),
                                    None => None,
                                },
                                None => None,
                            },
                            None => None,
                        }
                    }
                },
                None => None,
            }
        }
    }

    /// Add a value to a JSON object or array at the location specified by the JSON pointer.
    /// In an array the value is inserted at the index (`-` appends it); in an object the field
    /// is added or replaced.
    pub fn add(&self, target: &Value, value: &Value) -> (r: Option<Value>)
        ensures
            edit_outcome(Edit::Insert(*value), self@, *target, r),
    {
        self.modify(target, &Edit::Insert(value.duplicate()))
    }

    /// Set a value in a JSON object or array at the location specified by the JSON pointer.
    /// In an array the element at the index is replaced; in an object the field is added or
    /// replaced.
    pub fn set(&self, target: &Value, value: &Value) -> (r: Option<Value>)
        ensures
            edit_outcome(Edit::Replace(*value), self@, *target, r),
    {
        self.modify(target, &Edit::Replace(value.duplicate()))
    }

    /// Remove a value in a JSON object or array at the location specified by the JSON pointer.
    pub fn remove(&self, target: &Value) -> (r: Option<Value>)
        ensures
            edit_outcome(Edit::Remove, self@, *target, r),
    {
        self.modify(target, &Edit::Remove)
    }

    fn add_pointer(pointer: &str, target: &Value, value: &Value) -> (r: Option<Value>)
        ensures
            text_edit_outcome(Edit::Insert(*value), pointer@, *target, r),
    {
        match Self::parse(pointer) {
            Ok(p) => p.add(target, value),
            Err(_) => None,
        }
    }

    fn set_pointer(pointer: &str, target: &Value, value: &Value) -> (r: Option<Value>)
        ensures
            text_edit_outcome(Edit::Replace(*value), pointer@, *target, r),
    {
        match Self::parse(pointer) {
            Ok(p) => p.set(target, value),
            Err(_) => None,
        }
    }

    /// Add a JSON array to a JSON object or array at the location specified by the JSON
    /// pointer given as text.
    pub fn add_array(pointer: &str, target: &Value, value: &Array) -> (r: Option<Value>)
        ensures
            text_edit_outcome(Edit::Insert(Value::Array(*value)), pointer@, *target, r),
    {
        Self::add_pointer(pointer, target, &Value::Array(value.duplicate()))
    }

    /// Add a Boolean value to a JSON object or array at the location specified by the JSON
    /// pointer given as text.
    pub fn add_bool(pointer: &str, target: &Value, value: bool) -> (r: Option<Value>)
        ensures
            text_edit_outcome(Edit::Insert(Value::Bool(value)), pointer@, *target, r),
    {
        Self::add_pointer(pointer, target, &Value::Bool(value))
    }

    /// Add a decimal value, given by its binary64 bits, to a JSON object or array at the location specified by the JSON
    /// pointer given as text.
    pub fn add_decimal(pointer: &str, target: &Value, value: u64) -> (r: Option<Value>)
        ensures
            text_edit_outcome(Edit::Insert(Value::Number(Number::Decimal(value))), pointer@, *target, r),
    {
        Self::add_pointer(pointer, target, &Value::Number(Number::Decimal(value)))
    }

    /// Add an integer value to a JSON object or array at the location specified by the JSON
    /// pointer given as text.
    pub fn add_integer(pointer: &str, target: &Value, value: i128) -> (r: Option<Value>)
        ensures
            text_edit_outcome(Edit::Insert(Value::Number(Number::Integer(value))), pointer@, *target, r),
    {
        Self::add_pointer(pointer, target, &Value::Number(Number::Integer(value)))
    }

    /// Add a number to a JSON object or array at the location specified by the JSON
    /// pointer given as text.
    pub fn add_number(pointer: &str, target: &Value, value: Number) -> (r: Option<Value>)
        ensures
            text_edit_outcome(Edit::Insert(Value::Number(value)), pointer@, *target, r),
    {
        Self::add_pointer(pointer, target, &Value::Number(value))
    }

    /// Add a JSON object to a JSON object or array at the location specified by the JSON
    /// pointer given as text.
    pub fn add_object(pointer: &str, target: &Value, value: &Object) -> (r: Option<Value>)
        ensures
            text_edit_outcome(Edit::Insert(Value::Object(*value)), pointer@, *target, r),
    {
        Self::add_pointer(pointer, target, &Value::Object(value.duplicate()))
    }

    /// Add a string value to a JSON object or array at the location specified by the JSON
    /// pointer given as text.
    pub fn add_string(pointer: &str, target: &Value, value: &str) -> (r: Option<Value>)
        ensures
            exists|v: Value|
                #[trigger] is_string_of(v, value@) && text_edit_outcome(
                    Edit::Insert(v),
                    pointer@,
                    *target,
                    r,
                ),
    {
        let v = Value::String(value.to_owned());
        let r = Self::add_pointer(pointer, target, &v);
        assert(is_string_of(v, value@));
        r
    }

    /// Set a JSON array in a JSON object or array at the location specified by the JSON
    /// pointer given as text.
    pub fn set_array(pointer: &str, target: &Value, value: &Array) -> (r: Option<Value>)
        ensures
            text_edit_outcome(Edit::Replace(Value::Array(*value)), pointer@, *target, r),
    {
        Self::set_pointer(pointer, target, &Value::Array(value.duplicate()))
    }

    /// Set a Boolean value in a JSON object or array at the location specified by the JSON
    /// pointer given as text.
    pub fn set_bool(pointer: &str, target: &Value, value: bool) -> (r: Option<Value>)
        ensures
            text_edit_outcome(Edit::Replace(Value::Bool(value)), pointer@, *target, r),
    {
        Self::set_pointer(pointer, target, &Value::Bool(value))
    }

    /// Set a decimal value, given by its binary64 bits, in a JSON object or array at the location specified by the JSON
    /// pointer given as text.
    pub fn set_decimal(pointer: &str, target: &Value, value: u64) -> (r: Option<Value>)
        ensures
            text_edit_outcome(Edit::Replace(Value::Number(Number::Decimal(value))), pointer@, *target, r),
    {
        Self::set_pointer(pointer, target, &Value::Number(Number::Decimal(value)))
    }

    /// Set an integer value in a JSON object or array at the location specified by the JSON
    /// pointer given as text.
    pub fn set_integer(pointer: &str, target: &Value, value: i128) -> (r: Option<Value>)
        ensures
            text_edit_outcome(Edit::Replace(Value::Number(Number::Integer(value))), pointer@, *target, r),
    {
        Self::set_pointer(pointer, target, &Value::Number(Number::Integer(value)))
    }

    /// Set a number in a JSON object or array at the location specified by the JSON
    /// pointer given as text.
    pub fn set_number(pointer: &str, target: &Value, value: Number) -> (r: Option<Value>)
        ensures
            text_edit_outcome(Edit::Replace(Value::Number(value)), pointer@, *target, r),
    {
        Self::set_pointer(pointer, target, &Value::Number(value))
    }

    /// Set a JSON object in a JSON object or array at the location specified by the JSON
    /// pointer given as text.
    pub fn set_object(pointer: &str, target: &Value, value: &Object) -> (r: Option<Value>)
        ensures
            text_edit_outcome(Edit::Replace(Value::Object(*value)), pointer@, *target, r),
    {
        Self::set_pointer(pointer, target, &Value::Object(value.duplicate()))
    }

    /// Set a string value in a JSON object or array at the location specified by the JSON
    /// pointer given as text.
    pub fn set_string(pointer: &str, target: &Value, value: &str) -> (r: Option<Value>)
        ensures
            exists|v: Value|
                #[trigger] is_string_of(v, value@) && text_edit_outcome(
                    Edit::Replace(v),
                    pointer@,
                    *target,
                    r,
                ),
    {
        let v = Value::String(value.to_owned());
        let r = Self::set_pointer(pointer, target, &v);
        assert(is_string_of(v, value@));
        r
    }
}

} // verus!
