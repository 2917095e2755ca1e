//! Properties that relate the operations of the library to each other.
use crate::api::{Number, Value};
use crate::bson::{bson_kept, value_from_bson, BsonValue};
use crate::jaq::{number_from_jaq, value_from_jaq, JaqNumber, JaqValue};
use crate::array::{array_get, array_insert, array_remove, array_set};
use crate::object::fields_of_pairs;
use crate::order::{pointer_order, segment_order};
use crate::pointer::{
    child_at, edit_defined, edited, escape_char, escape_text, pieces, pieces_from,
    pointer_from_text, pointer_get, pointer_text, replace_pair, unescape_text, Edit,
};
use crate::text::{
    all_digits, decimal_text, digit_char, digit_value, digits_value, is_digit, text_order,
    usize_from_text, Order,
};
use vstd::prelude::*;

verus! {

proof fn lemma_escape_front(s: Seq<char>)
    requires
        s.len() > 0,
    ensures
        escape_text(s) == escape_char(s[0]) + escape_text(s.drop_first()),
    decreases s.len(),
{
    if s.len() == 1 {
        assert(s.drop_last() == Seq::<char>::empty());
        assert(s.drop_first() == Seq::<char>::empty());
        assert(escape_text(Seq::<char>::empty()) == Seq::<char>::empty());
        assert(escape_text(s) =~= escape_char(s[0]));
    } else {
        lemma_escape_front(s.drop_last());
        assert(s.drop_last().drop_first() == s.drop_first().drop_last());
        assert(s.drop_first().last() == s.last());
        assert(s.drop_last()[0] == s[0]);
        assert(escape_text(s) =~= escape_char(s[0]) + escape_text(s.drop_first()));
    }
}

/// The text with every `~` written as `~0`: what undoing the `~1` escapes leaves of an escaped
/// segment.
spec fn escape_tildes(s: Seq<char>) -> Seq<char>
    decreases s.len(),
{
    if s.len() == 0 {
        Seq::empty()
    } else {
        (if s[0] == '~' {
            seq!['~', '0']
        } else {
            seq![s[0]]
        }) + escape_tildes(s.drop_first())
    }
}

proof fn lemma_undo_slashes(s: Seq<char>)
    ensures
        replace_pair(escape_text(s), '~', '1', '/') == escape_tildes(s),
    decreases s.len(),
{
    if s.len() > 0 {
        lemma_escape_front(s);
        lemma_undo_slashes(s.drop_first());
        let rest = escape_text(s.drop_first());
        let c = s[0];
        if c == '/' {
            assert((seq!['~', '1'] + rest).skip(2) == rest);
            assert(replace_pair(seq!['~', '1'] + rest, '~', '1', '/') =~= seq!['/'] + replace_pair(
                rest,
                '~',
                '1',
                '/',
            ));
        } else if c == '~' {
            let x = seq!['~', '0'] + rest;
            assert(x.skip(1) =~= seq!['0'] + rest);
            assert((seq!['0'] + rest).skip(1) =~= rest);
            if rest.len() == 0 {
                assert(replace_pair(seq!['0'] + rest, '~', '1', '/') =~= seq!['0']);
            } else {
                assert(replace_pair(seq!['0'] + rest, '~', '1', '/') =~= seq!['0'] + replace_pair(
                    rest,
                    '~',
                    '1',
                    '/',
                ));
            }
            assert(replace_pair(x, '~', '1', '/') =~= seq!['~'] + replace_pair(
                seq!['0'] + rest,
                '~',
                '1',
                '/',
            ));
            assert(replace_pair(x, '~', '1', '/') =~= escape_tildes(s));
        } else {
            let x = seq![c] + rest;
            assert(x.skip(1) =~= rest);
            if rest.len() == 0 {
                assert(replace_pair(x, '~', '1', '/') =~= x);
            } else {
                assert(replace_pair(x, '~', '1', '/') =~= seq![c] + replace_pair(
                    rest,
                    '~',
                    '1',
                    '/',
                ));
            }
            assert(replace_pair(x, '~', '1', '/') =~= escape_tildes(s));
        }
    } else {
        assert(escape_text(s) == Seq::<char>::empty());
    }
}

proof fn lemma_undo_tildes(s: Seq<char>)
    ensures
        replace_pair(escape_tildes(s), '~', '0', '~') == s,
    decreases s.len(),
{
    if s.len() > 0 {
        lemma_undo_tildes(s.drop_first());
        let rest = escape_tildes(s.drop_first());
        let c = s[0];
        if c == '~' {
            let x = seq!['~', '0'] + rest;
            assert(x.skip(2) =~= rest);
            assert(replace_pair(x, '~', '0', '~') =~= seq!['~'] + replace_pair(
                rest,
                '~',
                '0',
                '~',
            ));
        } else {
            let x = seq![c] + rest;
            assert(x.skip(1) =~= rest);
            if rest.len() == 0 {
                assert(replace_pair(x, '~', '0', '~') =~= x);
            } else {
                assert(replace_pair(x, '~', '0', '~') =~= seq![c] + replace_pair(
                    rest,
                    '~',
                    '0',
                    '~',
                ));
            }
        }
        assert(seq![c] + s.drop_first() =~= s);
    }
}

/// Undoing the escapes of an escaped segment gives the segment back.
pub proof fn law_unescape_escape(s: Seq<char>)
    ensures
        unescape_text(escape_text(s)) == s,
{
    lemma_undo_slashes(s);
    lemma_undo_tildes(s);
}

proof fn lemma_escape_shape(s: Seq<char>)
    ensures
        s.len() > 0 ==> escape_text(s).len() > 0,
        forall|i: int| 0 <= i < escape_text(s).len() ==> #[trigger] escape_text(s)[i] != '/',
    decreases s.len(),
{
    if s.len() > 0 {
        lemma_escape_shape(s.drop_last());
        let e = escape_text(s.drop_last());
        let c = escape_char(s.last());
        assert forall|i: int| 0 <= i < escape_text(s).len() implies #[trigger] escape_text(s)[i]
            != '/' by {
            if i < e.len() {
                assert(escape_text(s)[i] == e[i]);
            } else {
                assert(escape_text(s)[i] == c[i - e.len()]);
            }
        }
    }
}

proof fn lemma_pieces_split(t: Seq<char>, u: Seq<char>, cur: Seq<char>)
    ensures
        pieces_from(t + seq!['/'] + u, cur) == pieces_from(t, cur) + pieces_from(u, Seq::empty()),
    decreases t.len(),
{
    let x = t + seq!['/'] + u;
    if t.len() == 0 {
        assert(x =~= seq!['/'] + u);
        assert(x.skip(1) =~= u);
        assert(pieces_from(t, cur) == (if cur.len() == 0 {
            Seq::<Seq<char>>::empty()
        } else {
            seq![cur]
        }));
        if cur.len() == 0 {
            assert(pieces_from(x, cur) =~= pieces_from(t, cur) + pieces_from(u, Seq::empty()));
        } else {
            assert(pieces_from(x, cur) =~= pieces_from(t, cur) + pieces_from(u, Seq::empty()));
        }
    } else {
        assert(x[0] == t[0]);
        assert(x.skip(1) =~= t.skip(1) + seq!['/'] + u);
        if t[0] == '/' {
            lemma_pieces_split(t.skip(1), u, Seq::empty());
            assert(pieces_from(x, cur) =~= pieces_from(t, cur) + pieces_from(u, Seq::empty()));
        } else {
            lemma_pieces_split(t.skip(1), u, cur.push(t[0]));
        }
    }
}

proof fn lemma_pieces_single(e: Seq<char>, cur: Seq<char>)
    requires
        (cur + e).len() > 0,
        forall|i: int| 0 <= i < e.len() ==> #[trigger] e[i] != '/',
    ensures
        pieces_from(e, cur) == seq![cur + e],
    decreases e.len(),
{
    if e.len() == 0 {
        assert(cur + e =~= cur);
    } else {
        assert(e[0] != '/');
        let rest = e.skip(1);
        assert forall|i: int| 0 <= i < rest.len() implies #[trigger] rest[i] != '/' by {
            assert(rest[i] == e[i + 1]);
        }
        lemma_pieces_single(rest, cur.push(e[0]));
        assert(cur.push(e[0]) + rest =~= cur + e);
    }
}

/// Every segment of the path is nonempty.
pub open spec fn segments_nonempty(path: Seq<Seq<char>>) -> bool {
    forall|i: int| 0 <= i < path.len() ==> #[trigger] path[i].len() > 0
}

proof fn lemma_pieces_of_pointer_text(path: Seq<Seq<char>>)
    requires
        segments_nonempty(path),
    ensures
        pieces(pointer_text(path)) == path.map_values(|p: Seq<char>| escape_text(p)),
        path.len() > 0 ==> pointer_text(path).len() > 0 && pointer_text(path)[0] == '/',
    decreases path.len(),
{
    if path.len() > 0 {
        let init = path.drop_last();
        assert(segments_nonempty(init)) by {
            assert forall|i: int| 0 <= i < init.len() implies #[trigger] init[i].len() > 0 by {
                assert(init[i] == path[i]);
            }
        }
        lemma_pieces_of_pointer_text(init);
        let e = escape_text(path.last());
        assert(path.last().len() > 0) by {
            assert(path[path.len() - 1].len() > 0);
        }
        lemma_escape_shape(path.last());
        lemma_pieces_split(pointer_text(init), e, Seq::empty());
        lemma_pieces_single(e, Seq::empty());
        assert(Seq::<char>::empty() + e =~= e);
        assert(pieces(pointer_text(path)) =~= path.map_values(|p: Seq<char>| escape_text(p)));
        if init.len() == 0 {
            assert(pointer_text(init) == Seq::<char>::empty());
            assert(pointer_text(path)[0] == '/');
        } else {
            assert(pointer_text(path)[0] == pointer_text(init)[0]);
        }
    } else {
        assert(pieces(Seq::<char>::empty()) =~= Seq::<Seq<char>>::empty());
        assert(path.map_values(|p: Seq<char>| escape_text(p)) =~= Seq::<Seq<char>>::empty());
    }
}

/// Printing a pointer and parsing the text gives the pointer back, when it has at least one
/// segment and no segment is empty (the root prints as the empty text, which is no pointer, and
/// parsing drops empty segments).
pub proof fn law_parse_print(path: Seq<Seq<char>>)
    requires
        path.len() > 0,
        segments_nonempty(path),
    ensures
        pointer_from_text(pointer_text(path)) == Some(path),
{
    lemma_pieces_of_pointer_text(path);
    let escaped = path.map_values(|p: Seq<char>| escape_text(p));
    let back = escaped.map_values(|p: Seq<char>| unescape_text(p));
    assert forall|i: int| 0 <= i < path.len() implies #[trigger] back[i] == path[i] by {
        law_unescape_escape(path[i]);
    }
    assert(back =~= path);
}

/// Setting a value at a path and reading at the same path gives the value back.
pub proof fn law_get_after_set(path: Seq<Seq<char>>, target: Value, value: Value, result: Value)
    requires
        edit_defined(Edit::Replace(value), path, target),
        edited(Edit::Replace(value), path, target, result),
    ensures
        pointer_get(path, result) == Some(value),
    decreases path.len(),
{
    if path.len() == 1 {
        match target {
            Value::Array(a) => {
                assert(path[0] != seq!['-']);
            },
            _ => {},
        }
    } else {
        match target {
            Value::Array(a) => {
                let i = usize_from_text(path[0])->0;
                let b = result->Array_0;
                law_get_after_set(path.drop_first(), a@[i as int], value, b@[i as int]);
            },
            Value::Object(o) => {
                let p = result->Object_0;
                law_get_after_set(path.drop_first(), o@[path[0]], value, p@[path[0]]);
            },
            _ => {},
        }
    }
}

/// Adding a value at a path whose last segment is not `-` and reading at the same path gives
/// the value back (`-` appends to an array, and no value is read at `-`).
pub proof fn law_get_after_add(path: Seq<Seq<char>>, target: Value, value: Value, result: Value)
    requires
        path.len() > 0,
        path.last() != seq!['-'],
        edit_defined(Edit::Insert(value), path, target),
        edited(Edit::Insert(value), path, target, result),
    ensures
        pointer_get(path, result) == Some(value),
    decreases path.len(),
{
    if path.len() > 1 {
        assert(path.drop_first().last() == path.last());
        match target {
            Value::Array(a) => {
                let i = usize_from_text(path[0])->0;
                let b = result->Array_0;
                law_get_after_add(path.drop_first(), a@[i as int], value, b@[i as int]);
            },
            Value::Object(o) => {
                let p = result->Object_0;
                law_get_after_add(path.drop_first(), o@[path[0]], value, p@[path[0]]);
            },
            _ => {},
        }
    }
}

/// Removing a field of an object at a path leaves nothing to read at that path.
pub proof fn law_get_after_remove_field(path: Seq<Seq<char>>, target: Value, result: Value)
    requires
        path.len() > 0,
        pointer_get(path.drop_last(), target) matches Some(Value::Object(_)),
        edit_defined(Edit::Remove, path, target),
        edited(Edit::Remove, path, target, result),
    ensures
        pointer_get(path, result) is None,
    decreases path.len(),
{
    if path.len() == 1 {
        assert(path.drop_last() == Seq::<Seq<char>>::empty());
    } else {
        let tail = path.drop_first();
        assert(tail.drop_last() == path.drop_last().drop_first());
        assert(tail.last() == path.last());
        match target {
            Value::Array(a) => {
                let i = usize_from_text(path[0])->0;
                let b = result->Array_0;
                if tail.len() == 1 {
                    assert(path.drop_last() == seq![path[0]]);
                    assert(tail.drop_last() == Seq::<Seq<char>>::empty());
                }
                law_get_after_remove_field(tail, a@[i as int], b@[i as int]);
            },
            Value::Object(o) => {
                let p = result->Object_0;
                if tail.len() == 1 {
                    assert(path.drop_last() == seq![path[0]]);
                    assert(tail.drop_last() == Seq::<Seq<char>>::empty());
                }
                law_get_after_remove_field(tail, o@[path[0]], p@[path[0]]);
            },
            _ => {},
        }
    }
}

/// Reading through the root pointer gives an array or an object itself, and nothing from a
/// scalar; reading through a child pointer is reading the segment from what the pointer reads:
/// an element of an array at the index that the segment denotes, or a field of an object.
pub proof fn law_get_child(path: Seq<Seq<char>>, segment: Seq<char>, target: Value)
    ensures
        pointer_get(Seq::empty(), target) == (if target is Array || target is Object {
            Some(target)
        } else {
            None
        }),
        pointer_get(path.push(segment), target) == (match pointer_get(path, target) {
            Some(w) => child_at(w, segment),
            None => None,
        }),
    decreases path.len(),
{
    if path.len() > 0 {
        assert(path.push(segment)[0] == path[0]);
        assert(path.push(segment).drop_first() == path.drop_first().push(segment));
        match child_at(target, path[0]) {
            Some(c) => {
                if path.len() > 1 {
                    law_get_child(path.drop_first(), segment, c);
                } else {
                    assert(path.drop_first() == Seq::<Seq<char>>::empty());
                    assert(path.drop_first().push(segment) == seq![segment]);
                }
            },
            None => {},
        }
    }
}

/// `b` is `a` with the containers along the path rebuilt: containers of the same kind with the
/// same elements or fields, where only the child that the path goes through is again such a
/// rebuild.
pub open spec fn rebuilt_along(path: Seq<Seq<char>>, a: Value, b: Value) -> bool
    decreases path.len(),
{
    match a {
        Value::Array(x) => b matches Value::Array(y) && if path.len() <= 1 {
            y@ == x@
        } else {
            match usize_from_text(path[0]) {
                Some(i) => i < x@.len() && y@.len() == x@.len() && y@ == x@.update(
                    i as int,
                    y@[i as int],
                ) && rebuilt_along(path.drop_first(), x@[i as int], y@[i as int]),
                None => false,
            }
        },
        Value::Object(x) => b matches Value::Object(y) && if path.len() <= 1 {
            y@ == x@
        } else {
            x@.contains_key(path[0]) && y@.contains_key(path[0]) && y@ == x@.insert(
                path[0],
                y@[path[0]],
            ) && rebuilt_along(path.drop_first(), x@[path[0]], y@[path[0]])
        },
        _ => false,
    }
}

/// Removing at a path what adding at the same path put there gives the target back, where
/// the last segment is not `-` (the element appended at `-` is not removed at `-`) and, where
/// the path ends in an object, the object had no field with that key (adding would replace
/// it). Once the add has succeeded, the removal succeeds too, and what it gives has the same
/// elements and fields as the target.
pub proof fn law_remove_after_add(
    path: Seq<Seq<char>>,
    target: Value,
    value: Value,
    added: Value,
    removed: Value,
)
    requires
        path.len() > 0,
        path.last() != seq!['-'],
        pointer_get(path.drop_last(), target) matches Some(Value::Object(o)) ==> !o@.contains_key(
            path.last(),
        ),
        edit_defined(Edit::Insert(value), path, target),
        edited(Edit::Insert(value), path, target, added),
    ensures
        edit_defined(Edit::Remove, path, added),
        edited(Edit::Remove, path, added, removed) ==> rebuilt_along(path, target, removed),
    decreases path.len(),
{
    if path.len() == 1 {
        assert(path.drop_last() == Seq::<Seq<char>>::empty());
        assert(path.last() == path[0]);
        match target {
            Value::Array(a) => {
                let b = added->Array_0;
                let i = usize_from_text(path[0])->0;
                assert(b@ == a@.insert(i as int, value));
                if edited(Edit::Remove, path, added, removed) {
                    let c = removed->Array_0;
                    assert(c@ == b@.remove(i as int));
                    assert(c@ =~= a@);
                }
            },
            Value::Object(o) => {
                if edited(Edit::Remove, path, added, removed) {
                    let r = removed->Object_0;
                    assert(r@ =~= o@);
                }
            },
            _ => {},
        }
    } else {
        let tail = path.drop_first();
        assert(tail.drop_last() == path.drop_last().drop_first());
        assert(tail.last() == path.last());
        match target {
            Value::Array(a) => {
                let i = usize_from_text(path[0])->0;
                let b = added->Array_0;
                let c = removed->Array_0;
                if tail.len() == 1 {
                    assert(path.drop_last() == seq![path[0]]);
                    assert(tail.drop_last() == Seq::<Seq<char>>::empty());
                }
                law_remove_after_add(tail, a@[i as int], value, b@[i as int], c@[i as int]);
                if edited(Edit::Remove, path, added, removed) {
                    assert(c@ =~= a@.update(i as int, c@[i as int]));
                }
            },
            Value::Object(o) => {
                let q = added->Object_0;
                let r = removed->Object_0;
                if tail.len() == 1 {
                    assert(path.drop_last() == seq![path[0]]);
                    assert(tail.drop_last() == Seq::<Seq<char>>::empty());
                }
                law_remove_after_add(tail, o@[path[0]], value, q@[path[0]], r@[path[0]]);
                if edited(Edit::Remove, path, added, removed) {
                    assert(r@ =~= o@.insert(path[0], r@[path[0]]));
                }
            },
            _ => {},
        }
    }
}

/// The parent of a child pointer is the pointer itself.
pub proof fn law_parent_of_child(path: Seq<Seq<char>>, segment: Seq<char>)
    ensures
        path.push(segment).drop_last() == path,
{
    assert(path.push(segment).drop_last() =~= path);
}

proof fn lemma_text_order(a: Seq<char>, b: Seq<char>)
    ensures
        text_order(a, a) == Order::Equal,
        text_order(a, b) == text_order(b, a).reversed(),
    decreases a.len(),
{
    if a.len() > 0 && b.len() > 0 {
        lemma_text_order(a.drop_first(), b.drop_first());
    }
    if a.len() > 0 {
        lemma_text_order(a.drop_first(), a.drop_first());
    }
}

proof fn lemma_dash_is_no_number()
    ensures
        usize_from_text(seq!['-']) is None,
{
    let s = seq!['-'];
    assert(!crate::text::is_digit(s[0]));
}

/// Every segment comes neither before nor after itself, and swapping two segments reverses
/// their order.
pub proof fn law_segment_order(s1: Seq<char>, s2: Seq<char>)
    ensures
        segment_order(s1, s1) == Order::Equal,
        segment_order(s1, s2) == segment_order(s2, s1).reversed(),
{
    lemma_text_order(s1, s2);
    lemma_text_order(s1, s1);
    lemma_dash_is_no_number();
}

/// Every pointer comes neither before nor after itself, and swapping two pointers reverses
/// their order.
pub proof fn law_pointer_order(p1: Seq<Seq<char>>, p2: Seq<Seq<char>>)
    ensures
        pointer_order(p1, p1) == Order::Equal,
        pointer_order(p1, p2) == pointer_order(p2, p1).reversed(),
    decreases p1.len(),
{
    if p1.len() > 0 {
        law_segment_order(p1[0], p1[0]);
        law_pointer_order(p1.drop_first(), p1.drop_first());
        if p2.len() > 0 {
            law_segment_order(p1[0], p2[0]);
            law_pointer_order(p1.drop_first(), p2.drop_first());
        }
    }
}

/// Setting an element and reading it gives the value back; the other elements stay.
pub proof fn law_array_get_after_set(a: Seq<Value>, index: usize, value: Value, other: usize)
    requires
        array_set(a, index, value) is Ok,
    ensures
        array_get(array_set(a, index, value)->Ok_0, index) == Ok::<Value, crate::error::JsonIndexError>(value),
        other != index ==> array_get(array_set(a, index, value)->Ok_0, other) == array_get(a, other),
{
}

/// Inserting at the length appends: it gives the elements that adding gives.
pub proof fn law_array_insert_at_end(a: Seq<Value>, value: Value)
    requires
        a.len() <= usize::MAX,
    ensures
        array_insert(a, a.len() as usize, value) == Ok::<Seq<Value>, crate::error::JsonIndexError>(
            a.push(value),
        ),
{
    assert(a.insert(a.len() as int, value) =~= a.push(value));
}

/// Removing an element that was inserted at the same index gives the elements back.
pub proof fn law_array_remove_after_insert(a: Seq<Value>, index: usize, value: Value)
    requires
        array_insert(a, index, value) is Ok,
    ensures
        array_remove(array_insert(a, index, value)->Ok_0, index) == Ok::<Seq<Value>, crate::error::JsonIndexError>(a),
        array_get(array_insert(a, index, value)->Ok_0, index) == Ok::<Value, crate::error::JsonIndexError>(value),
{
    assert(a.insert(index as int, value).remove(index as int) =~= a);
}

/// Adding a field and reading it gives the value back; removing it leaves no such field; the
/// other fields stay.
pub proof fn law_object_fields(o: Map<Seq<char>, Value>, key: Seq<char>, value: Value, other: Seq<char>)
    ensures
        o.insert(key, value).contains_key(key) && o.insert(key, value)[key] == value,
        !o.remove(key).contains_key(key),
        other != key ==> o.insert(key, value).contains_key(other) == o.contains_key(other)
            && o.remove(key).contains_key(other) == o.contains_key(other),
        other != key && o.contains_key(other) ==> o.insert(key, value)[other] == o[other]
            && o.remove(key)[other] == o[other],
{
}

proof fn lemma_fields_of_distinct_pairs(pairs: Seq<(String, Value)>)
    requires
        forall|i: int, j: int| 0 <= i < j < pairs.len() ==> #[trigger] pairs[i].0@ != #[trigger] pairs[j].0@,
    ensures
        forall|k: Seq<char>|
            #[trigger] fields_of_pairs(pairs).contains_key(k) <==> exists|i: int|
                0 <= i < pairs.len() && #[trigger] pairs[i].0@ == k,
        forall|i: int|
            0 <= i < pairs.len() ==> fields_of_pairs(pairs)[(#[trigger] pairs[i]).0@] == pairs[i].1,
    decreases pairs.len(),
{
    if pairs.len() > 0 {
        let before = pairs.drop_last();
        lemma_fields_of_distinct_pairs(before);
        assert(fields_of_pairs(pairs) == fields_of_pairs(before).insert(
            pairs.last().0@,
            pairs.last().1,
        ));
        assert forall|k: Seq<char>|
            #[trigger] fields_of_pairs(pairs).contains_key(k) <==> exists|i: int|
                0 <= i < pairs.len() && #[trigger] pairs[i].0@ == k by {
            if fields_of_pairs(pairs).contains_key(k) && k != pairs.last().0@ {
                assert(fields_of_pairs(before).contains_key(k));
                let i = choose|i: int| 0 <= i < before.len() && #[trigger] before[i].0@ == k;
                assert(before[i] == pairs[i]);
                assert(pairs[i].0@ == k);
            }
            if exists|i: int| 0 <= i < pairs.len() && #[trigger] pairs[i].0@ == k {
                let i = choose|i: int| 0 <= i < pairs.len() && #[trigger] pairs[i].0@ == k;
                if i < pairs.len() - 1 {
                    assert(before[i] == pairs[i]);
                    assert(before[i].0@ == k);
                }
            }
        }
        assert forall|i: int| 0 <= i < pairs.len() implies fields_of_pairs(pairs)[(
        #[trigger] pairs[i]).0@] == pairs[i].1 by {
            if i < pairs.len() - 1 {
                assert(before[i] == pairs[i]);
                assert(pairs[i].0@ != pairs[pairs.len() - 1].0@);
            }
        }
    }
}

/// Building an object from the key/value pairs that `Object::iter` gives (each field once,
/// with its value) yields the same fields.
pub proof fn law_object_from_iter(o: Map<Seq<char>, Value>, pairs: Seq<(String, Value)>)
    requires
        forall|i: int|
            0 <= i < pairs.len() ==> #[trigger] o.contains_key(pairs[i].0@) && o[pairs[i].0@]
                == pairs[i].1,
        forall|i: int|
            0 <= i < pairs.len() ==> forall|j: int|
                i < j < pairs.len() ==> #[trigger] pairs[i].0@ != #[trigger] pairs[j].0@,
        forall|k: Seq<char>|
            #[trigger] o.contains_key(k) ==> exists|i: int| 0 <= i < pairs.len() && #[trigger] pairs[i].0@ == k,
    ensures
        fields_of_pairs(pairs) == o,
{
    assert forall|i: int, j: int| 0 <= i < j < pairs.len() implies #[trigger] pairs[i].0@
        != #[trigger] pairs[j].0@ by {
        assert(forall|m: int| i < m < pairs.len() ==> #[trigger] pairs[i].0@ != #[trigger] pairs[m].0@);
    }
    lemma_fields_of_distinct_pairs(pairs);
    let f = fields_of_pairs(pairs);
    assert forall|k: Seq<char>| #[trigger] f.contains_key(k) <==> o.contains_key(k) by {
        if f.contains_key(k) {
            let i = choose|i: int| 0 <= i < pairs.len() && #[trigger] pairs[i].0@ == k;
            assert(o.contains_key(pairs[i].0@));
        }
    }
    assert forall|k: Seq<char>| #[trigger] f.contains_key(k) implies f[k] == o[k] by {
        let i = choose|i: int| 0 <= i < pairs.len() && #[trigger] pairs[i].0@ == k;
        assert(f[pairs[i].0@] == pairs[i].1);
        assert(o.contains_key(pairs[i].0@));
    }
    assert(f =~= o);
}

/// Every edit of a field of an object succeeds, whether or not the object has the field:
/// adding and setting give the object with the key mapped to the value, and removing gives the
/// object without the key.
pub proof fn law_edit_field(o: Map<Seq<char>, Value>, target: Value, key: Seq<char>, value: Value, result: Value)
    requires
        target matches Value::Object(x) && x@ == o,
    ensures
        edit_defined(Edit::Insert(value), seq![key], target),
        edit_defined(Edit::Replace(value), seq![key], target),
        edit_defined(Edit::Remove, seq![key], target),
        edited(Edit::Insert(value), seq![key], target, result) ==> (result matches Value::Object(p)
            && p@ == o.insert(key, value)),
        edited(Edit::Replace(value), seq![key], target, result) ==> (result matches Value::Object(p)
            && p@ == o.insert(key, value)),
        edited(Edit::Remove, seq![key], target, result) ==> (result matches Value::Object(p) && p@
            == o.remove(key)),
{
}

proof fn lemma_digit_char(d: nat)
    requires
        d < 10,
    ensures
        is_digit(digit_char(d)),
        digit_value(digit_char(d)) == d,
        digit_char(d) != '+',
{
}

proof fn lemma_decimal_text(n: nat)
    ensures
        decimal_text(n).len() > 0,
        all_digits(decimal_text(n)),
        digits_value(decimal_text(n)) == n,
        decimal_text(n)[0] != '+',
    decreases n,
{
    if n < 10 {
        lemma_digit_char(n);
        let t = seq![digit_char(n)];
        assert(t.drop_last() == Seq::<char>::empty());
        assert(digits_value(t) == digits_value(t.drop_last()) * 10 + digit_value(t.last()));
    } else {
        lemma_decimal_text(n / 10);
        lemma_digit_char(n % 10);
        let s = decimal_text(n / 10);
        let t = s.push(digit_char(n % 10));
        assert(t.drop_last() == s);
        assert(t.last() == digit_char(n % 10));
        assert(t[0] == s[0]);
        assert forall|i: int| 0 <= i < t.len() implies is_digit(#[trigger] t[i]) by {
            if i < s.len() {
                assert(t[i] == s[i]);
            }
        }
        assert((n / 10) * 10 + n % 10 == n) by (nonlinear_arith);
        assert(digits_value(t) == digits_value(s) * 10 + digit_value(digit_char(n % 10)));
    }
}

/// A segment that is the decimal text of a number that fits a `usize` denotes that number as
/// an index, whatever the number of its digits.
pub proof fn law_index_of_decimal_text(n: usize)
    ensures
        usize_from_text(decimal_text(n as nat)) == Some(n),
{
    lemma_decimal_text(n as nat);
}

/// Reading one segment from an array: the decimal text of an index below the length reads the
/// element at that index.
pub proof fn law_array_child(a: Seq<Value>, target: Value, i: usize)
    requires
        target matches Value::Array(x) && x@ == a,
        i < a.len(),
    ensures
        child_at(target, decimal_text(i as nat)) == Some(a[i as int]),
{
    law_index_of_decimal_text(i);
}

/// The order of texts is lexicographic: where `a` is a proper prefix of `b`, or the two first
/// differ at a position where `a` has the smaller character, `a` comes first.
pub proof fn law_text_order_lexicographic(a: Seq<char>, b: Seq<char>, i: int)
    requires
        0 <= i <= a.len(),
        i <= b.len(),
        a.take(i) == b.take(i),
        (i == a.len() && i < b.len()) || (i < a.len() && i < b.len() && a[i] < b[i]),
    ensures
        text_order(a, b) == Order::Less,
        text_order(b, a) == Order::Greater,
    decreases i,
{
    if i > 0 {
        assert(a[0] == a.take(i)[0]);
        assert(b[0] == b.take(i)[0]);
        assert(a.drop_first().take(i - 1) =~= a.take(i).drop_first());
        assert(b.drop_first().take(i - 1) =~= b.take(i).drop_first());
        law_text_order_lexicographic(a.drop_first(), b.drop_first(), i - 1);
    }
}

/// A BSON 32-bit integer converts to the integer with the same value, as the 64-bit integer
/// with that value does.
pub proof fn law_bson_integers(i: i32, v: Value, w: Value)
    ensures
        bson_kept(BsonValue::Int32(i)),
        value_from_bson(BsonValue::Int32(i), v) ==> (v matches Value::Number(Number::Integer(x))
            && x as int == i as int),
        value_from_bson(BsonValue::Int32(i), v) && value_from_bson(BsonValue::Int64(i as i64), w)
            ==> v == w,
{
}

/// A jaq decimal number converts to the binary64 number that it reads as, unchanged, as a
/// float with the same bits does; a machine-size integer converts to the integer with the same
/// value.
pub proof fn law_jaq_numbers(b: u64, n: isize, v: Value)
    ensures
        number_from_jaq(JaqNumber::Dec(Some(b))) == number_from_jaq(JaqNumber::Float(b)),
        number_from_jaq(JaqNumber::Dec(Some(b))) matches Some(Number::Decimal(c)) && c == b,
        value_from_jaq(JaqValue::Num(JaqNumber::Dec(Some(b))), v) ==> (v matches Value::Number(
            Number::Decimal(c),
        ) && c == b),
        number_from_jaq(JaqNumber::Int(n)) matches Some(Number::Integer(x)) && x as int == n as int,
{
}

} // verus!
