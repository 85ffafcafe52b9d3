//! Editing commands: moving point by characters and lines, deleting
//! characters and inserting the typed one.  The commands decide; moving
//! point, deleting, inserting and calling Lisp are the caller's.
use vstd::prelude::*;

use crate::editfns::{LispBuffer, BUF_MAX};
use crate::error::{ErrorMessage, LispError, TypePredicate};
use crate::tag::{fixnum_value, is_fixnum_word, LispObject, MAX_CHAR};

verus! {

/// Where a motion by characters puts point, and the signal it raises
/// after point has been put there.
#[derive(PartialEq, Eq, Structural, Clone, Copy, Debug)]
pub struct PointMove {
    pub new_point: isize,
    pub signal: Option<LispError>,
}

/// The count of a motion: 1 for `nil`, else the fixnum.
pub open spec fn count_of(n: LispObject) -> int {
    if n == LispObject(0) {
        1
    } else {
        fixnum_value(n.0)
    }
}

/// The motion by `delta` characters from point: clipped into the
/// accessible region, signalling at either end.
pub open spec fn moved(b: &LispBuffer, delta: int) -> PointMove {
    let p = b.pt + delta;
    if p < b.begv {
        PointMove { new_point: b.begv, signal: Some(LispError::BeginningOfBuffer) }
    } else if p > b.zv {
        PointMove { new_point: b.zv, signal: Some(LispError::EndOfBuffer) }
    } else {
        PointMove { new_point: p as isize, signal: None }
    }
}

/// Moves point N characters forward (backward when not FORWARD); N is 1
/// when `nil`, else must be a fixnum.  Point stops at the ends of the
/// accessible region, which then signal.
pub fn move_point(b: &LispBuffer, n: LispObject, forward: bool) -> (r: Result<PointMove, LispError>)
    requires
        b.wf(),
    ensures
        n != LispObject(0) && !is_fixnum_word(n.0) ==> r == Err::<PointMove, LispError>(
            LispError::WrongType(TypePredicate::Integerp, n),
        ),
        n == LispObject(0) || is_fixnum_word(n.0) ==> r == Ok::<PointMove, LispError>(
            moved(
                b,
                if forward {
                    count_of(n)
                } else {
                    -count_of(n)
                },
            ),
        ),
{
    let mut n: i64 = if n.is_nil() {
        1
    } else {
        match n.as_fixnum_or_error() {
            Ok(v) => v,
            Err(e) => {
                return Err(e);
            },
        }
    };
    if !forward {
        n = -n;
    }
    let pt = b.pt as i64;
    let new_point = pt + n;
    if new_point < b.begv as i64 {
        Ok(PointMove { new_point: b.begv, signal: Some(LispError::BeginningOfBuffer) })
    } else if new_point > b.zv as i64 {
        Ok(PointMove { new_point: b.zv, signal: Some(LispError::EndOfBuffer) })
    } else {
        Ok(PointMove { new_point: new_point as isize, signal: None })
    }
}

/// `forward-char`: N characters forward.
pub fn forward_char(b: &LispBuffer, n: LispObject) -> (r: Result<PointMove, LispError>)
    requires
        b.wf(),
    ensures
        n != LispObject(0) && !is_fixnum_word(n.0) ==> r == Err::<PointMove, LispError>(
            LispError::WrongType(TypePredicate::Integerp, n),
        ),
        n == LispObject(0) || is_fixnum_word(n.0) ==> r == Ok::<PointMove, LispError>(moved(b, count_of(n))),
{
    move_point(b, n, true)
}

/// `backward-char`: N characters backward.
pub fn backward_char(b: &LispBuffer, n: LispObject) -> (r: Result<PointMove, LispError>)
    requires
        b.wf(),
    ensures
        n != LispObject(0) && !is_fixnum_word(n.0) ==> r == Err::<PointMove, LispError>(
            LispError::WrongType(TypePredicate::Integerp, n),
        ),
        n == LispObject(0) || is_fixnum_word(n.0) ==> r == Ok::<PointMove, LispError>(moved(b, -count_of(n))),
{
    move_point(b, n, false)
}

/// The position N characters after point.
pub fn forward_point(b: &LispBuffer, n: i64) -> (r: i64)
    requires
        b.wf(),
        i64::MIN <= n + b.pt <= i64::MAX,
    ensures
        r == n + b.pt,
{
    n + b.pt as i64
}

/// The lines left to move after `forward-line` by COUNT lines, from the
/// SHORTAGE that the newline scan reported: a partial last line moved
/// across counts as a line (when point moved and the line does not end
/// in a newline); the result is negative when moving backward.
pub fn forward_line(
    b: &LispBuffer,
    count: i64,
    shortage: i64,
    opoint: isize,
    byte_before_point: u8,
) -> (r: i64)
    requires
        b.wf(),
        0 <= shortage <= i64::MAX,
    ensures
        ({
            let s = if shortage > 0 && (count <= 0 || (b.zv > b.begv && b.pt != opoint && byte_before_point != 10)) {
                shortage - 1
            } else {
                shortage as int
            };
            r == if count <= 0 {
                -s
            } else {
                s
            }
        }),
{
    let mut shortage = shortage;
    if shortage > 0 && (count <= 0 || (b.zv > b.begv && b.pt != opoint && byte_before_point != 10)) {
        shortage = shortage - 1;
    }
    if count <= 0 {
        -shortage
    } else {
        shortage
    }
}

/// What `end-of-line` does after moving to the end position NEWPOS of a
/// line and finding point at PT: step back over a newline it skipped,
/// go on to the next line when it skipped something that is not a line
/// end, or stop.
#[derive(PartialEq, Eq, Structural, Clone, Copy, Debug)]
pub enum EndOfLineStep {
    /// Put point at the position, and stop.
    SetPointAndStop(isize),
    /// Look for the end of the next line (a count of 1).
    Continue,
    /// Stop where point is.
    Stop,
}

/// The decision of one round of `end-of-line` (see `EndOfLineStep`):
/// CHAR_BEFORE_PT is the character before PT, CHAR_AT_NEWPOS the one at
/// NEWPOS.
pub fn end_of_line_step(b: &LispBuffer, newpos: isize, pt: isize, char_before_pt: i32, char_at_newpos: i32) -> (r:
    EndOfLineStep)
    requires
        b.wf(),
    ensures
        r == (if pt > newpos && char_before_pt == 10 {
            EndOfLineStep::SetPointAndStop((pt - 1) as isize)
        } else if pt > newpos && pt < b.zv && char_at_newpos != 10 {
            EndOfLineStep::Continue
        } else {
            EndOfLineStep::Stop
        }),
{
    if pt > newpos && char_before_pt == 10 {
        EndOfLineStep::SetPointAndStop(pt - 1)
    } else if pt > newpos && pt < b.zv && char_at_newpos != 10 {
        EndOfLineStep::Continue
    } else {
        EndOfLineStep::Stop
    }
}

/// What `delete-char` asks for after deciding.
#[derive(PartialEq, Eq, Structural, Clone, Copy, Debug)]
pub enum DeleteOp {
    /// Delete the characters between the positions.
    Delete(isize, isize),
    /// Kill N characters forward (saving them in the kill ring).
    Kill(i64),
}

/// The decision of `delete-char`: whether to amalgamate undo first (for
/// a count below 2 in size), then the deletion or kill; deleting past
/// either end of the accessible region signals.
pub struct DeleteChar {
    pub amalgamate: bool,
    pub op: Result<DeleteOp, LispError>,
}

/// Deletes N characters forward (backward when negative), or kills them
/// with KILLFLAG.
pub fn delete_char(b: &LispBuffer, n: i64, killflag: bool) -> (r: DeleteChar)
    requires
        b.wf(),
        -BUF_MAX <= n <= BUF_MAX,
    ensures
        r.amalgamate == (-2 < n < 2),
        killflag ==> r.op == Ok::<DeleteOp, LispError>(DeleteOp::Kill(n)),
        !killflag && n < 0 && b.pt + n < b.begv ==> r.op == Err::<DeleteOp, LispError>(LispError::BeginningOfBuffer),
        !killflag && n < 0 && b.pt + n >= b.begv ==> r.op == Ok::<DeleteOp, LispError>(
            DeleteOp::Delete((b.pt + n) as isize, b.pt),
        ),
        !killflag && n >= 0 && b.pt + n > b.zv ==> r.op == Err::<DeleteOp, LispError>(LispError::EndOfBuffer),
        !killflag && n >= 0 && b.pt + n <= b.zv ==> r.op == Ok::<DeleteOp, LispError>(
            DeleteOp::Delete(b.pt, (b.pt + n) as isize),
        ),
{
    let amalgamate = n > -2 && n < 2;
    let pos = b.pt + n as isize;
    let op = if !killflag {
        if n < 0 {
            if pos < b.begv {
                Err(LispError::BeginningOfBuffer)
            } else {
                Ok(DeleteOp::Delete(pos, b.pt))
            }
        } else if pos > b.zv {
            Err(LispError::EndOfBuffer)
        } else {
            Ok(DeleteOp::Delete(b.pt, pos))
        }
    } else {
        Ok(DeleteOp::Kill(n))
    };
    DeleteChar { amalgamate, op }
}

/// What `self-insert-command` asks for.
#[derive(PartialEq, Eq, Structural, Clone, Copy, Debug)]
pub enum SelfInsert {
    /// The event was not a character: ring the bell.
    Beep,
    /// Insert the character N times (the caller maps it through the
    /// table of input characters, `translation-table-for-input`, first).
    Insert { character: i64, n: i64 },
}

/// The decision of `self-insert-command` for the count N and the event
/// that invoked it: a negative count is an error; otherwise undo is
/// amalgamated for a count below 2, and the event, when it is a
/// character, is inserted N times.
pub fn self_insert_command(n: i64, last_command_event: LispObject) -> (r: Result<(bool, SelfInsert), LispError>)
    ensures
        n < 0 ==> r == Err::<(bool, SelfInsert), LispError>(LispError::ErrorNum(ErrorMessage::NegativeRepetition, n)),
        n >= 0 ==> r == Ok::<(bool, SelfInsert), LispError>(
            (
                n < 2,
                if is_fixnum_word(last_command_event.0) && 0 <= fixnum_value(last_command_event.0) <= MAX_CHAR {
                    SelfInsert::Insert { character: fixnum_value(last_command_event.0) as i64, n }
                } else {
                    SelfInsert::Beep
                },
            ),
        ),
{
    if n < 0 {
        return Err(LispError::ErrorNum(ErrorMessage::NegativeRepetition, n));
    }
    let amalgamate = n < 2;
    if !last_command_event.is_character() {
        Ok((amalgamate, SelfInsert::Beep))
    } else {
        let c = match last_command_event.as_fixnum() {
            Some(c) => c,
            None => {
                return Ok((amalgamate, SelfInsert::Beep));
            },
        };
        Ok((amalgamate, SelfInsert::Insert { character: c, n }))
    }
}

} // verus!
