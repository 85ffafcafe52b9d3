//! Fonts: font specs, font entities and font objects, the three kinds of
//! pseudovector that make a font, told apart by their size.
use vstd::prelude::*;

use crate::error::{LispError, TypePredicate};
use crate::tag::LispObject;

verus! {

/// The number of slots of a font spec.
pub const FONT_SPEC_MAX: i64 = 13;

/// The number of slots of a font entity.
pub const FONT_ENTITY_MAX: i64 = 14;

/// The number of slots of a font object.
pub const FONT_OBJECT_MAX: i64 = 17;

/// A font: a pseudovector of one of the three font sizes.
pub struct LispFontRef {
    pub pseudovector_size: i64,
}

impl LispFontRef {
    /// Whether the font is a font spec.
    pub fn is_font_spec(&self) -> (b: bool)
        ensures
            b == (self.pseudovector_size == FONT_SPEC_MAX),
    {
        self.pseudovector_size == FONT_SPEC_MAX
    }

    /// Whether the font is a font entity.
    pub fn is_font_entity(&self) -> (b: bool)
        ensures
            b == (self.pseudovector_size == FONT_ENTITY_MAX),
    {
        self.pseudovector_size == FONT_ENTITY_MAX
    }

    /// Whether the font is a font object.
    pub fn is_font_object(&self) -> (b: bool)
        ensures
            b == (self.pseudovector_size == FONT_OBJECT_MAX),
    {
        self.pseudovector_size == FONT_OBJECT_MAX
    }
}

/// The symbols that name the kinds of font.
pub struct FontSymbols {
    pub font_spec: LispObject,
    pub font_entity: LispObject,
    pub font_object: LispObject,
}

/// A kind of font.
#[derive(PartialEq, Eq, Structural, Clone, Copy, Debug)]
pub enum FontExtraType {
    Spec,
    Entity,
    Object,
}

/// The kind of font that a symbol names, if any.
pub open spec fn named_font_type(syms: &FontSymbols, o: LispObject) -> Option<FontExtraType> {
    if o == syms.font_spec {
        Some(FontExtraType::Spec)
    } else if o == syms.font_entity {
        Some(FontExtraType::Entity)
    } else if o == syms.font_object {
        Some(FontExtraType::Object)
    } else {
        None
    }
}

impl FontExtraType {
    /// The kind of font that EXTRA_TYPE names: `font-spec`, `font-entity`
    /// or `font-object`, else `wrong-type-argument font-extra-type`.
    pub fn from_symbol_or_error(syms: &FontSymbols, extra_type: LispObject) -> (r: Result<FontExtraType, LispError>)
        ensures
            r == match named_font_type(syms, extra_type) {
                Some(k) => Ok(k),
                None => Err(LispError::WrongType(TypePredicate::FontExtraType, extra_type)),
            },
    {
        if extra_type.eq(syms.font_spec) {
            Ok(FontExtraType::Spec)
        } else if extra_type.eq(syms.font_entity) {
            Ok(FontExtraType::Entity)
        } else if extra_type.eq(syms.font_object) {
            Ok(FontExtraType::Object)
        } else {
            Err(LispError::WrongType(TypePredicate::FontExtraType, extra_type))
        }
    }
}

/// Whether OBJECT (`None` when it is not a font) is a font, and of the
/// kind that EXTRA_TYPE names when it is not `nil`.  That OBJECT is a
/// font is checked before EXTRA_TYPE is.
pub fn fontp(syms: &FontSymbols, object: Option<LispFontRef>, extra_type: LispObject) -> (r: Result<bool, LispError>)
    ensures
        r == match object {
            None => Ok(false),
            Some(f) => if extra_type == LispObject(0) {
                Ok(true)
            } else {
                match named_font_type(syms, extra_type) {
                    Some(FontExtraType::Spec) => Ok(f.pseudovector_size == FONT_SPEC_MAX),
                    Some(FontExtraType::Entity) => Ok(f.pseudovector_size == FONT_ENTITY_MAX),
                    Some(FontExtraType::Object) => Ok(f.pseudovector_size == FONT_OBJECT_MAX),
                    None => Err(LispError::WrongType(TypePredicate::FontExtraType, extra_type)),
                }
            },
        },
{
    match object {
        None => Ok(false),
        Some(f) => {
            if extra_type.is_nil() {
                Ok(true)
            } else {
                match FontExtraType::from_symbol_or_error(syms, extra_type) {
                    Ok(FontExtraType::Spec) => Ok(f.is_font_spec()),
                    Ok(FontExtraType::Entity) => Ok(f.is_font_entity()),
                    Ok(FontExtraType::Object) => Ok(f.is_font_object()),
                    Err(e) => Err(e),
                }
            }
        },
    }
}

} // verus!
