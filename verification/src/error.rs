//! The conditions that Lisp primitives signal.
use vstd::prelude::*;

use crate::tag::LispObject;

verus! {

/// The type predicates named in `wrong-type-argument` signals.
#[derive(PartialEq, Eq, Structural, Clone, Copy, Debug)]
pub enum TypePredicate {
    Integerp,
    Wholenump,
    Characterp,
    Listp,
    Plistp,
    Consp,
    Stringp,
    Symbolp,
    Arrayp,
    CharTableP,
    CaseTableP,
    Vectorp,
    IntegerOrMarkerP,
    NumberOrMarkerP,
    FrameLiveP,
    FontExtraType,
    Framep,
    WindowLiveP,
    Windowp,
    Processp,
    BufferP,
    Markerp,
}

/// The messages of the plain `error` signals.
#[derive(PartialEq, Eq, Structural, Clone, Copy, Debug)]
pub enum ErrorMessage {
    OwnParentCharTable,
    InvalidCharTableDepth,
    IndexOutOfRange,
    AlreadyDefiningKbdMacro,
    NotDefiningKbdMacro,
    AnonymousMacroWhileDefining,
    NoKbdMacroDefined,
    KbdMacroMustBeStringOrVector,
    InvalidAlgorithm,
    InvalidBufferArgument,
    NoBufferNamed,
    MarkNotSet,
    WrongNumberOfArguments,
    NegativeRepetition,
    StackOverflowInEqual,
    MemoryExhausted,
    RequireWhileDumping,
    RecursiveRequire,
    RequiredFeatureNotProvided,
    LoadingFileFailedToProvideFeature,
    MarkerDoesNotPointAnywhere,
    SelectingDeletedBuffer,
    CombinationLimitInternalOnly,
    WindowNotOnFrame,
    NotAMinibufferWindow,
}

/// A condition signalled by a Lisp primitive.
#[derive(PartialEq, Eq, Structural, Clone, Copy, Debug)]
pub enum LispError {
    /// `wrong-type-argument` with the predicate that failed and the object.
    WrongType(TypePredicate, LispObject),
    /// `circular-list` with the list being walked.
    CircularList(LispObject),
    /// `args-out-of-range`.
    ArgsOutOfRange(LispObject, LispObject),
    /// `args-out-of-range` with three objects.
    ArgsOutOfRange3(LispObject, LispObject, LispObject),
    /// `arith-error`.
    ArithError,
    /// `beginning-of-buffer`.
    BeginningOfBuffer,
    /// `end-of-buffer`.
    EndOfBuffer,
    /// `mark-inactive`.
    MarkInactive,
    /// A plain `error` with its message.
    Error(ErrorMessage),
    /// An `error` whose message names objects (`nil` where it names fewer).
    ErrorWith(ErrorMessage, LispObject, LispObject),
    /// An `error` whose message names a number.
    ErrorNum(ErrorMessage, i64),
    /// `cyclic-variable-indirection` with a symbol on the cycle.
    CyclicVariableIndirection(LispObject),
    /// `setting-constant` with the symbol.
    SettingConstant(LispObject),
    /// `wrong-number-of-arguments` with the function and the count.
    WrongNumberOfArguments(LispObject, LispObject),
}

} // verus!
