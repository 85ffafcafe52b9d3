//! Small predicates on objects: strings, characters, `eq`, `null`, and
//! category tables.
use vstd::prelude::*;

use crate::chartab::{char_table_index, char_table_subtype, CharTables};
use crate::error::{LispError, TypePredicate};
use crate::heap::LispHeap;
use crate::tag::{fixnum_value, is_fixnum_word, LispObject, MAX_CHAR, MOST_POSITIVE_FIXNUM};
use crate::windows::lisp_bool;

verus! {

/// Whether OBJECT is a string.
pub fn stringp(h: &LispHeap, object: LispObject) -> (r: LispObject)
    requires
        h.wf(),
    ensures
        r == lisp_bool(h.is_string(object)),
{
    LispObject::from_bool(h.is_string_obj(object))
}

/// Whether the two objects are the same object.
pub fn eq(first_object: LispObject, second_object: LispObject) -> (r: LispObject)
    ensures
        r == lisp_bool(first_object == second_object),
{
    LispObject::from_bool(first_object.eq(second_object))
}

/// Whether OBJECT is `nil`.
pub fn null(object: LispObject) -> (r: LispObject)
    ensures
        r == lisp_bool(object.0 == 0),
{
    LispObject::from_bool(object.is_nil())
}

/// The number of bytes of the string STRING.
pub fn string_bytes(h: &LispHeap, string: LispObject) -> (r: Result<LispObject, LispError>)
    requires
        h.wf(),
        h.is_string(string) ==> h.string_bytes_of(string).len() <= MOST_POSITIVE_FIXNUM,
    ensures
        h.is_string(string) ==> (r matches Ok(o) && is_fixnum_word(o.0) && fixnum_value(o.0) == h.string_bytes_of(
            string,
        ).len()),
        !h.is_string(string) ==> r == Err::<LispObject, LispError>(LispError::WrongType(TypePredicate::Stringp, string)),
{
    if !h.is_string_obj(string) {
        return Err(LispError::WrongType(TypePredicate::Stringp, string));
    }
    let n = h.string_len_bytes(string);
    Ok(LispObject::from_natnum(n as i64))
}

/// The largest character code.
pub fn max_char() -> (r: LispObject)
    ensures
        is_fixnum_word(r.0),
        fixnum_value(r.0) == MAX_CHAR,
{
    LispObject::from_natnum(MAX_CHAR)
}

/// Whether OBJECT is a character (a fixnum from 0 to the largest
/// character code).
pub fn characterp(object: LispObject) -> (r: LispObject)
    ensures
        r == lisp_bool(is_fixnum_word(object.0) && 0 <= fixnum_value(object.0) <= MAX_CHAR),
{
    LispObject::from_bool(object.is_character())
}

/// Whether ARG is a category table: a char table whose purpose is the
/// symbol CATEGORY_TABLE.
pub fn category_table_p(tabs: &CharTables, arg: LispObject, category_table: LispObject) -> (b: bool)
    requires
        tabs.wf(),
    ensures
        b == (char_table_index(tabs.view().len() as int, arg) matches Some(i) && tabs.view()[i as int].purpose
            == category_table),
{
    match tabs.as_char_table(arg) {
        Some(t) => char_table_subtype(tabs, t).eq(category_table),
        None => false,
    }
}

} // verus!
