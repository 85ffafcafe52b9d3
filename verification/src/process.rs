//! Subprocesses as Lisp sees them: finding them by name or buffer, their
//! fields, their status, and the settings kept in their contact lists.
//!
//! The process list (`process-alist`) is the order of `alist`; running,
//! signalling and talking to processes is the caller's.
use vstd::prelude::*;

use crate::buffers::{first_match, string_equal, string_equal_spec, BufferKey};
use crate::error::{LispError, TypePredicate};
use crate::heap::{is_cons_word, LispHeap, MAX_OBJECTS};
use crate::lists::{is_list_of, lemma_list_kept, plist_put, plist_put_result};
use crate::marker::{buffer_word, Buffers};
use crate::tag::{word_tag, LispObject};

verus! {

/// A process, with the fields that the process primitives read.
pub struct LispProcess {
    pub name: LispObject,
    pub tty_name: LispObject,
    pub command: LispObject,
    pub mark: LispObject,
    pub filter: LispObject,
    pub sentinel: LispObject,
    pub plist: LispObject,
    pub buffer: LispObject,
    /// The status: a symbol, or a cons of a symbol and its details.
    pub status: LispObject,
    /// Whether a status change is waiting to be decoded into `status`.
    pub raw_status_new: bool,
    /// `real`, `network`, `serial` or `pipe`.
    pub process_type: LispObject,
    /// The contact list of a connection.
    pub childp: LispObject,
    pub pid: i32,
    pub kill_without_query: bool,
    pub inherit_coding_system_flag: bool,
}

/// The processes, and the order of the process list.
pub struct Processes {
    pub processes: Vec<LispProcess>,
    pub alist: Vec<usize>,
}

/// The symbols the process primitives use.
pub struct ProcessSymbols {
    pub run: LispObject,
    pub stop: LispObject,
    pub exit: LispObject,
    pub open: LispObject,
    pub closed: LispObject,
    pub network: LispObject,
    pub serial: LispObject,
    pub pipe: LispObject,
    /// The keywords `:buffer` and `:sentinel`.
    pub buffer_key: LispObject,
    pub sentinel_key: LispObject,
    /// `internal-default-process-sentinel`.
    pub default_sentinel: LispObject,
}

/// The word of the process numbered `i`.
pub open spec fn process_word(i: int) -> LispObject {
    LispObject(((5 * MAX_OBJECTS + i) * 8 + 5) as i64)
}

/// Whether the process is a connection (network, serial or pipe).
pub open spec fn is_connection(syms: &ProcessSymbols, p: &LispProcess) -> bool {
    p.process_type == syms.network || p.process_type == syms.serial || p.process_type == syms.pipe
}

/// The words of objects of the other stores (buffers, processes) are
/// valid words of the heap.
pub(crate) proof fn lemma_store_word_valid(h: &LispHeap, k: int)
    requires
        MAX_OBJECTS <= k < 0x2000_0000,
    ensures
        h.valid(LispObject((k * 8 + 5) as i64)),
{
    crate::heap::lemma_obj_word(k, 5);
}

impl Processes {
    /// Well-formedness: the processes fit the words and the process list
    /// names processes.
    pub open spec fn wf(&self) -> bool {
        &&& self.processes@.len() < MAX_OBJECTS
        &&& forall|j: int| 0 <= j < self.alist@.len() ==> #[trigger] self.alist@[j] < self.processes@.len()
    }

    /// The objects the processes hold are values of the heap.
    pub open spec fn valid_in(&self, h: &LispHeap) -> bool {
        forall|i: int|
            #![trigger self.processes@[i]]
            0 <= i < self.processes@.len() ==> h.valid(self.processes@[i].childp) && h.valid(
                self.processes@[i].status,
            )
    }

    /// The process a word refers to, if any.
    pub open spec fn process_of(&self, o: LispObject) -> Option<int> {
        if word_tag(o.0) == 5 && 5 * MAX_OBJECTS <= o.0 / 8 < 5 * MAX_OBJECTS + self.processes@.len() {
            Some(o.0 / 8 - 5 * MAX_OBJECTS)
        } else {
            None
        }
    }

    /// The process a word refers to, if any.
    pub fn as_process(&self, o: LispObject) -> (r: Option<usize>)
        requires
            self.wf(),
        ensures
            r matches Some(p) ==> self.process_of(o) == Some(p as int),
            r is None ==> self.process_of(o) is None,
    {
        let base: i64 = 5 * (MAX_OBJECTS as i64);
        if o.is_vectorlike() && o.0 >= 0 && o.0 / 8 >= base && o.0 / 8 - base < self.processes.len() as i64 {
            Some((o.0 / 8 - base) as usize)
        } else {
            None
        }
    }

    /// The process a word refers to, or `wrong-type-argument processp`.
    pub fn as_process_or_error(&self, o: LispObject) -> (r: Result<usize, LispError>)
        requires
            self.wf(),
        ensures
            r == match self.process_of(o) {
                Some(p) => Ok(p as usize),
                None => Err(LispError::WrongType(TypePredicate::Processp, o)),
            },
    {
        match self.as_process(o) {
            Some(p) => Ok(p),
            None => Err(LispError::WrongType(TypePredicate::Processp, o)),
        }
    }

    /// The word of process P.
    pub fn process_obj(&self, p: usize) -> (o: LispObject)
        requires
            self.wf(),
            p < self.processes@.len(),
        ensures
            o == process_word(p as int),
            self.process_of(o) == Some(p as int),
    {
        let x: i64 = (5 * MAX_OBJECTS + p) as i64;
        let v: i64 = x * 8 + 5;
        assert(((v as u64) & 7) == 5) by (bit_vector)
            requires
                v == x * 8 + 5,
                0 <= x < 0x1800_0000,
        ;
        assert(v / 8 == x);
        LispObject(v)
    }

    /// Whether OBJECT is a process.
    pub fn processp(&self, object: LispObject) -> (b: bool)
        requires
            self.wf(),
        ensures
            b == self.process_of(object) is Some,
    {
        self.as_process(object).is_some()
    }

    /// The name of process P.
    pub fn process_name(&self, p: usize) -> (o: LispObject)
        requires
            p < self.processes@.len(),
        ensures
            o == self.processes@[p as int].name,
    {
        self.processes[p].name
    }

    /// The buffer process P is associated with.
    pub fn process_buffer(&self, p: usize) -> (o: LispObject)
        requires
            p < self.processes@.len(),
        ensures
            o == self.processes@[p as int].buffer,
    {
        self.processes[p].buffer
    }

    /// The process id of P, `None` for a connection without one.
    pub fn process_id(&self, p: usize) -> (r: Option<i64>)
        requires
            p < self.processes@.len(),
        ensures
            r == (if self.processes@[p as int].pid != 0 {
                Some(self.processes@[p as int].pid as i64)
            } else {
                None
            }),
    {
        let pid = self.processes[p].pid;
        if pid != 0 {
            Some(pid as i64)
        } else {
            None
        }
    }

    /// The name of the terminal process P uses.
    pub fn process_tty_name(&self, p: usize) -> (o: LispObject)
        requires
            p < self.processes@.len(),
        ensures
            o == self.processes@[p as int].tty_name,
    {
        self.processes[p].tty_name
    }

    /// The command that started process P.
    pub fn process_command(&self, p: usize) -> (o: LispObject)
        requires
            p < self.processes@.len(),
        ensures
            o == self.processes@[p as int].command,
    {
        self.processes[p].command
    }

    /// The filter function of process P.
    pub fn process_filter(&self, p: usize) -> (o: LispObject)
        requires
            p < self.processes@.len(),
        ensures
            o == self.processes@[p as int].filter,
    {
        self.processes[p].filter
    }

    /// The sentinel of process P.
    pub fn process_sentinel(&self, p: usize) -> (o: LispObject)
        requires
            p < self.processes@.len(),
        ensures
            o == self.processes@[p as int].sentinel,
    {
        self.processes[p].sentinel
    }

    /// The marker at the end of the last output of process P.
    pub fn process_mark(&self, p: usize) -> (o: LispObject)
        requires
            p < self.processes@.len(),
        ensures
            o == self.processes@[p as int].mark,
    {
        self.processes[p].mark
    }

    /// The property list of process P.
    pub fn process_plist(&self, p: usize) -> (o: LispObject)
        requires
            p < self.processes@.len(),
        ensures
            o == self.processes@[p as int].plist,
    {
        self.processes[p].plist
    }

    /// Whether Emacs asks before exiting while process P runs.
    pub fn process_query_on_exit_flag(&self, p: usize) -> (b: bool)
        requires
            p < self.processes@.len(),
        ensures
            b == !self.processes@[p as int].kill_without_query,
    {
        !self.processes[p].kill_without_query
    }

    /// Whether the buffer of process P inherits the coding system of its
    /// output.
    pub fn process_inherit_coding_system_flag(&self, p: usize) -> (b: bool)
        requires
            p < self.processes@.len(),
        ensures
            b == self.processes@[p as int].inherit_coding_system_flag,
    {
        self.processes[p].inherit_coding_system_flag
    }

    /// Replaces process P by the same process with one field changed.
    fn replace(&mut self, p: usize, proc_: LispProcess)
        requires
            old(self).wf(),
            p < old(self).processes@.len(),
        ensures
            final(self).wf(),
            final(self).processes@ == old(self).processes@.update(p as int, proc_),
            final(self).alist@ == old(self).alist@,
    {
        self.processes.remove(p);
        self.processes.insert(p, proc_);
        proof {
            assert(self.processes@ =~= old(self).processes@.update(p as int, proc_));
        }
    }

    /// Sets whether Emacs asks before exiting while process P runs (FLAG
    /// not `nil`); returns FLAG.
    pub fn set_process_query_on_exit_flag(&mut self, p: usize, flag: LispObject) -> (r: LispObject)
        requires
            old(self).wf(),
            p < old(self).processes@.len(),
        ensures
            r == flag,
            final(self).wf(),
            final(self).alist@ == old(self).alist@,
            final(self).processes@ == old(self).processes@.update(
                p as int,
                (LispProcess { kill_without_query: flag.0 == 0, ..old(self).processes@[p as int] }),
            ),
    {
        let q = LispProcess { kill_without_query: flag.is_nil(), ..self.take_fields(p) };
        self.replace(p, q);
        flag
    }

    /// A copy of the fields of process P.
    fn take_fields(&self, p: usize) -> (r: LispProcess)
        requires
            p < self.processes@.len(),
        ensures
            r == self.processes@[p as int],
    {
        let q = &self.processes[p];
        LispProcess {
            name: q.name,
            tty_name: q.tty_name,
            command: q.command,
            mark: q.mark,
            filter: q.filter,
            sentinel: q.sentinel,
            plist: q.plist,
            buffer: q.buffer,
            status: q.status,
            raw_status_new: q.raw_status_new,
            process_type: q.process_type,
            childp: q.childp,
            pid: q.pid,
            kill_without_query: q.kill_without_query,
            inherit_coding_system_flag: q.inherit_coding_system_flag,
        }
    }

    /// Sets the property list of PROCESS to PLIST, which must be a list;
    /// returns PLIST.
    pub fn set_process_plist(&mut self, process: LispObject, plist: LispObject) -> (r: Result<LispObject, LispError>)
        requires
            old(self).wf(),
        ensures
            final(self).wf(),
            final(self).alist@ == old(self).alist@,
            !(word_tag(plist.0) == 3 || plist.0 == 0) ==> r == Err::<LispObject, LispError>(
                LispError::WrongType(TypePredicate::Listp, plist),
            ) && final(self).processes@ == old(self).processes@,
            (word_tag(plist.0) == 3 || plist.0 == 0) ==> match old(self).process_of(process) {
                Some(p) => r == Ok::<LispObject, LispError>(plist) && final(self).processes@ == old(
                    self,
                ).processes@.update(p, (LispProcess { plist, ..old(self).processes@[p] })),
                None => r == Err::<LispObject, LispError>(LispError::WrongType(TypePredicate::Processp, process))
                    && final(self).processes@ == old(self).processes@,
            },
    {
        if !plist.is_list() {
            return Err(LispError::WrongType(TypePredicate::Listp, plist));
        }
        let p = self.as_process_or_error(process)?;
        let q = LispProcess { plist, ..self.take_fields(p) };
        self.replace(p, q);
        Ok(plist)
    }
}

/// The first process of the process list whose name is the string NAME.
pub open spec fn named_process(procs: &Processes, h: &LispHeap, name: LispObject) -> Option<int> {
    if exists|j: int| 0 <= j < procs.alist@.len() && string_equal_spec(h, procs.processes@[procs.alist@[j] as int].name, name) {
        Some(
            choose|j: int|
                0 <= j < procs.alist@.len() && string_equal_spec(h, procs.processes@[procs.alist@[j] as int].name, name)
                    && forall|k: int|
                    0 <= k < j ==> !string_equal_spec(h, #[trigger] procs.processes@[procs.alist@[k] as int].name, name),
        )
    } else {
        None
    }
}

/// The first process of the process list associated with the buffer
/// word BUF.
pub open spec fn buffer_process(procs: &Processes, buf: LispObject) -> Option<int> {
    if exists|j: int| 0 <= j < procs.alist@.len() && procs.processes@[procs.alist@[j] as int].buffer == buf {
        Some(
            choose|j: int|
                0 <= j < procs.alist@.len() && procs.processes@[procs.alist@[j] as int].buffer == buf && forall|k: int|
                    0 <= k < j ==> #[trigger] procs.processes@[procs.alist@[k] as int].buffer != buf,
        )
    } else {
        None
    }
}

impl Processes {
    /// The process named NAME (a string), `nil` when there is none; a
    /// process is returned as it is.
    pub fn get_process(&self, h: &LispHeap, name: LispObject) -> (r: Result<LispObject, LispError>)
        requires
            self.wf(),
            h.wf(),
        ensures
            self.process_of(name) is Some ==> r == Ok::<LispObject, LispError>(name),
            self.process_of(name) is None && !h.is_string(name) ==> r == Err::<LispObject, LispError>(
                LispError::WrongType(TypePredicate::Stringp, name),
            ),
            self.process_of(name) is None && h.is_string(name) ==> r == Ok::<LispObject, LispError>(
                match named_process(self, h, name) {
                    Some(j) => process_word(self.alist@[j] as int),
                    None => LispObject(0),
                },
            ),
    {
        if self.as_process(name).is_some() {
            return Ok(name);
        }
        if !h.is_string_obj(name) {
            return Err(LispError::WrongType(TypePredicate::Stringp, name));
        }
        match self.find_named(h, name) {
            Some(j) => Ok(self.process_obj(self.alist[j])),
            None => Ok(LispObject::constant_nil()),
        }
    }

    /// The position in the process list of the first process named NAME.
    fn find_named(&self, h: &LispHeap, name: LispObject) -> (r: Option<usize>)
        requires
            self.wf(),
            h.wf(),
        ensures
            r matches Some(j) ==> named_process(self, h, name) == Some(j as int) && j < self.alist@.len(),
            r is None ==> named_process(self, h, name) is None,
    {
        let mut j: usize = 0;
        while j < self.alist.len()
            invariant
                self.wf(),
                h.wf(),
                j <= self.alist@.len(),
                forall|k: int|
                    0 <= k < j ==> !string_equal_spec(h, #[trigger] self.processes@[self.alist@[k] as int].name, name),
            decreases self.alist@.len() - j,
        {
            let p = self.alist[j];
            if string_equal(h, self.processes[p].name, name) {
                proof {
                    let c = choose|c: int|
                        0 <= c < self.alist@.len() && string_equal_spec(
                            h,
                            self.processes@[self.alist@[c] as int].name,
                            name,
                        ) && forall|k: int|
                            0 <= k < c ==> !string_equal_spec(
                                h,
                                #[trigger] self.processes@[self.alist@[k] as int].name,
                                name,
                            );
                    if c > j {
                        assert(!string_equal_spec(h, self.processes@[self.alist@[j as int] as int].name, name));
                    }
                }
                return Some(j);
            }
            j = j + 1;
        }
        None
    }

    /// The process associated with BUFFER (a buffer or the name of one),
    /// `nil` when there is none.
    pub fn get_buffer_process(&self, h: &LispHeap, bufs: &Buffers, buffer: LispObject) -> (r: Result<
        LispObject,
        LispError,
    >)
        requires
            self.wf(),
            h.wf(),
            bufs.wf(),
        ensures
            buffer.0 == 0 ==> r == Ok::<LispObject, LispError>(LispObject(0)),
            buffer.0 != 0 && bufs.buffer_of(buffer) is None && !h.is_string(buffer) ==> r == Err::<
                LispObject,
                LispError,
            >(LispError::WrongType(TypePredicate::Stringp, buffer)),
            buffer.0 != 0 && (bufs.buffer_of(buffer) is Some || h.is_string(buffer)) ==> {
                let buf = if bufs.buffer_of(buffer) is Some {
                    buffer
                } else {
                    match first_match(bufs, h, BufferKey::Name, buffer) {
                        Some(i) => buffer_word(i),
                        None => LispObject(0),
                    }
                };
                r == Ok::<LispObject, LispError>(
                    if buf.0 == 0 {
                        LispObject(0)
                    } else {
                        match buffer_process(self, buf) {
                            Some(j) => process_word(self.alist@[j] as int),
                            None => LispObject(0),
                        }
                    },
                )
            },
    {
        if buffer.is_nil() {
            return Ok(LispObject::constant_nil());
        }
        let buf = bufs.get_buffer(h, buffer)?;
        if buf.is_nil() {
            return Ok(LispObject::constant_nil());
        }
        match self.find_by_buffer(buf) {
            Some(j) => Ok(self.process_obj(self.alist[j])),
            None => Ok(LispObject::constant_nil()),
        }
    }

    /// The position in the process list of the first process associated
    /// with the buffer word BUF.
    fn find_by_buffer(&self, buf: LispObject) -> (r: Option<usize>)
        requires
            self.wf(),
        ensures
            r matches Some(j) ==> buffer_process(self, buf) == Some(j as int) && j < self.alist@.len(),
            r is None ==> buffer_process(self, buf) is None,
    {
        let mut j: usize = 0;
        while j < self.alist.len()
            invariant
                self.wf(),
                j <= self.alist@.len(),
                forall|k: int| 0 <= k < j ==> #[trigger] self.processes@[self.alist@[k] as int].buffer != buf,
            decreases self.alist@.len() - j,
        {
            let p = self.alist[j];
            if self.processes[p].buffer.eq(buf) {
                proof {
                    let c = choose|c: int|
                        0 <= c < self.alist@.len() && self.processes@[self.alist@[c] as int].buffer == buf
                            && forall|k: int| 0 <= k < c ==> #[trigger] self.processes@[self.alist@[k] as int].buffer != buf;
                    if c > j {
                        assert(self.processes@[self.alist@[j as int] as int].buffer != buf);
                    }
                }
                return Some(j);
            }
            j = j + 1;
        }
        None
    }
}

/// What `process-status` and `process-exit-status` need first, or the
/// answer.
#[derive(PartialEq, Eq, Structural, Clone, Copy, Debug)]
pub enum ProcessQuery {
    /// The answer.
    Answer(LispObject),
    /// Decode the pending status of this process first, then ask again.
    UpdateStatusFirst(usize),
    /// Find the process of this buffer (or of the current buffer for
    /// `nil`) first, then ask again with it.
    FindProcessFirst(LispObject),
}

/// The status symbol of a process whose status is STATUS: its symbol, as
/// a connection reports it.
pub open spec fn status_symbol(h: &LispHeap, syms: &ProcessSymbols, p: &LispProcess) -> LispObject {
    let s = if h.is_cons(p.status) {
        h.car_of(p.status)
    } else {
        p.status
    };
    if is_connection(syms, p) {
        if s == syms.exit {
            syms.closed
        } else if p.command == LispObject(8) {
            syms.stop
        } else if s == syms.run {
            syms.open
        } else {
            s
        }
    } else {
        s
    }
}

/// The status word of a process with its details dropped: the head of a
/// status list, or the status itself.
pub open spec fn status_head(h: &LispHeap, p: &LispProcess) -> LispObject {
    if h.is_cons(p.status) {
        h.car_of(p.status)
    } else {
        p.status
    }
}

/// A law of `process-status`: a network, serial or pipe connection whose
/// status is `exit` is `closed`; otherwise one whose command is `t` (it
/// was stopped) is `stop`, whatever its status; otherwise a running one is
/// `open`, and any other keeps its status.  A process of another kind
/// reports its status as it is.
pub proof fn lemma_connection_status(h: &LispHeap, syms: &ProcessSymbols, p: &LispProcess)
    ensures
        ({
            let conn = p.process_type == syms.network || p.process_type == syms.serial || p.process_type
                == syms.pipe;
            let s = status_head(h, p);
            let stopped = p.command == LispObject(8);
            &&& conn && s == syms.exit ==> status_symbol(h, syms, p) == syms.closed
            &&& conn && s != syms.exit && stopped ==> status_symbol(h, syms, p) == syms.stop
            &&& conn && s != syms.exit && !stopped && s == syms.run ==> status_symbol(h, syms, p) == syms.open
            &&& conn && s != syms.exit && !stopped && s != syms.run ==> status_symbol(h, syms, p) == s
            &&& !conn ==> status_symbol(h, syms, p) == s
        }),
{
}

impl Processes {
    /// The status of process P, once it has been decoded.
    fn status_of(&self, h: &LispHeap, syms: &ProcessSymbols, p: usize) -> (r: LispObject)
        requires
            self.wf(),
            h.wf(),
            self.valid_in(h),
            p < self.processes@.len(),
        ensures
            r == status_symbol(h, syms, &self.processes@[p as int]),
    {
        let q = &self.processes[p];
        proof {
            assert(h.valid(self.processes@[p as int].status));
        }
        let status = match h.as_cons(q.status) {
            Some(c) => h.car(c),
            None => q.status,
        };
        let t = q.process_type;
        if t.eq(syms.network) || t.eq(syms.serial) || t.eq(syms.pipe) {
            if status.eq(syms.exit) {
                return syms.closed;
            } else if q.command.eq(LispObject::constant_t()) {
                return syms.stop;
            } else if status.eq(syms.run) {
                return syms.open;
            }
        }
        status
    }

    /// The status of PROCESS (a process, or the name of one): `nil` for a
    /// name no process has; a pending status change is decoded first, and
    /// a buffer (or `nil`) is looked up first.
    pub fn process_status(&self, h: &LispHeap, syms: &ProcessSymbols, process: LispObject) -> (r: Result<
        ProcessQuery,
        LispError,
    >)
        requires
            self.wf(),
            h.wf(),
            self.valid_in(h),
        ensures
            h.is_string(process) ==> match named_process(self, h, process) {
                None => r == Ok::<ProcessQuery, LispError>(ProcessQuery::Answer(LispObject(0))),
                Some(j) => {
                    let p = self.alist@[j] as int;
                    r == Ok::<ProcessQuery, LispError>(
                        if self.processes@[p].raw_status_new {
                            ProcessQuery::UpdateStatusFirst(p as usize)
                        } else {
                            ProcessQuery::Answer(status_symbol(h, syms, &self.processes@[p]))
                        },
                    )
                },
            },
            !h.is_string(process) ==> match self.process_of(process) {
                Some(p) => r == Ok::<ProcessQuery, LispError>(
                    if self.processes@[p].raw_status_new {
                        ProcessQuery::UpdateStatusFirst(p as usize)
                    } else {
                        ProcessQuery::Answer(status_symbol(h, syms, &self.processes@[p]))
                    },
                ),
                None => r == Ok::<ProcessQuery, LispError>(ProcessQuery::FindProcessFirst(process)),
            },
    {
        let p = if h.is_string_obj(process) {
            match self.find_named(h, process) {
                Some(j) => self.alist[j],
                None => {
                    return Ok(ProcessQuery::Answer(LispObject::constant_nil()));
                },
            }
        } else {
            match self.as_process(process) {
                Some(p) => p,
                None => {
                    return Ok(ProcessQuery::FindProcessFirst(process));
                },
            }
        };
        if self.processes[p].raw_status_new {
            return Ok(ProcessQuery::UpdateStatusFirst(p));
        }
        Ok(ProcessQuery::Answer(self.status_of(h, syms, p)))
    }

    /// The exit status of process P (or the signal that killed it); 0
    /// while it runs.  A pending status change is decoded first.
    pub fn process_exit_status(&self, h: &LispHeap, p: usize) -> (r: Result<ProcessQuery, LispError>)
        requires
            self.wf(),
            h.wf(),
            self.valid_in(h),
            p < self.processes@.len(),
        ensures
            ({
                let q = self.processes@[p as int];
                if q.raw_status_new {
                    r == Ok::<ProcessQuery, LispError>(ProcessQuery::UpdateStatusFirst(p))
                } else if !h.is_cons(q.status) {
                    r == Ok::<ProcessQuery, LispError>(ProcessQuery::Answer(LispObject(2)))
                } else {
                    let d = h.cdr_of(q.status);
                    if d.0 == 0 {
                        r == Ok::<ProcessQuery, LispError>(ProcessQuery::Answer(LispObject(0)))
                    } else if is_cons_word(d.0) {
                        r == Ok::<ProcessQuery, LispError>(ProcessQuery::Answer(h.car_of(d)))
                    } else {
                        r == Err::<ProcessQuery, LispError>(LispError::WrongType(TypePredicate::Consp, d))
                    }
                }
            }),
    {
        if self.processes[p].raw_status_new {
            return Ok(ProcessQuery::UpdateStatusFirst(p));
        }
        let status = self.processes[p].status;
        proof {
            assert(h.valid(self.processes@[p as int].status));
        }
        match h.as_cons(status) {
            None => Ok(ProcessQuery::Answer(LispObject::from_fixnum(0))),
            Some(c) => {
                let d = h.cdr(c);
                let a = crate::lists::car(h, d)?;
                Ok(ProcessQuery::Answer(a))
            },
        }
    }

    /// Associates PROCESS with BUFFER (a buffer, or `nil`); a connection
    /// also records it under `:buffer` in its contact list.  Returns
    /// BUFFER.
    pub fn set_process_buffer(
        &mut self,
        h: &mut LispHeap,
        bufs: &Buffers,
        syms: &ProcessSymbols,
        process: LispObject,
        buffer: LispObject,
    ) -> (r: Result<LispObject, LispError>)
        requires
            old(self).wf(),
            old(h).wf(),
            bufs.wf(),
            old(self).valid_in(old(h)),
            old(h).valid(syms.buffer_key),
            old(h).cells().len() + 2 <= MAX_OBJECTS,
        ensures
            final(self).wf(),
            final(self).alist@ == old(self).alist@,
            final(h).wf(),
            match old(self).process_of(process) {
                None => r == Err::<LispObject, LispError>(LispError::WrongType(TypePredicate::Processp, process))
                    && final(self).processes@ == old(self).processes@ && *final(h) == *old(h),
                Some(p) => if buffer.0 != 0 && bufs.buffer_of(buffer) is None {
                    r == Err::<LispObject, LispError>(LispError::WrongType(TypePredicate::BufferP, buffer))
                        && final(self).processes@ == old(self).processes@ && *final(h) == *old(h)
                } else {
                    let q = old(self).processes@[p];
                    if is_connection(syms, &q) {
                        exists|pr: Result<LispObject, LispError>|
                            {
                                &&& plist_put_result(old(h), final(h), Seq::<crate::chartab::LispCharTable>::empty(), q.childp, syms.buffer_key, buffer, false, pr)
                                &&& match pr {
                                    Ok(c) => r == Ok::<LispObject, LispError>(buffer) && final(self).processes@
                                        == old(self).processes@.update(p, (LispProcess { buffer, childp: c, ..q })),
                                    Err(e) => r == Err::<LispObject, LispError>(e) && final(self).processes@
                                        == old(self).processes@.update(p, (LispProcess { buffer, ..q })),
                                }
                            }
                    } else {
                        r == Ok::<LispObject, LispError>(buffer) && final(self).processes@ == old(self).processes@.update(
                            p,
                            (LispProcess { buffer, ..q }),
                        ) && *final(h) == *old(h)
                    }
                },
            },
    {
        let p = self.as_process_or_error(process)?;
        if buffer.is_not_nil() {
            if bufs.as_buffer(buffer).is_none() {
                return Err(LispError::WrongType(TypePredicate::BufferP, buffer));
            }
        }
        proof {
            lemma_buffer_arg_valid(h, bufs, buffer);
        }
        let q = LispProcess { buffer, ..self.take_fields(p) };
        let childp = q.childp;
        let t = q.process_type;
        self.replace(p, q);
        if t.eq(syms.network) || t.eq(syms.serial) || t.eq(syms.pipe) {
            proof {
                assert(h.valid(old(self).processes@[p as int].childp));
            }
            let pr = plist_put(h, childp, syms.buffer_key, buffer);
            match pr {
                Ok(c) => {
                    let q2 = LispProcess { childp: c, ..self.take_fields(p) };
                    self.replace(p, q2);
                    proof {
                        assert(self.processes@ =~= old(self).processes@.update(
                            p as int,
                            (LispProcess { buffer, childp: c, ..old(self).processes@[p as int] }),
                        ));
                    }
                    Ok(buffer)
                },
                Err(e) => Err(e),
            }
        } else {
            Ok(buffer)
        }
    }

}

/// A buffer argument (`nil` or a buffer) is a valid word of the heap.
proof fn lemma_buffer_arg_valid(h: &LispHeap, bufs: &Buffers, buffer: LispObject)
    requires
        bufs.wf(),
        buffer.0 == 0 || bufs.buffer_of(buffer) is Some,
    ensures
        h.valid(buffer),
{
    if buffer.0 != 0 {
        let i = bufs.buffer_of(buffer)->0;
        let v = buffer.0;
        assert(((v as u64) & 7) == 5 && v >= 0 ==> v == (v / 8) * 8 + 5) by (bit_vector);
        assert(buffer == buffer_word(i));
        lemma_store_word_valid(h, 3 * MAX_OBJECTS + i);
    } else {
        crate::tag::lemma_nil_tag();
    }
}

/// The sentinel `set-process-sentinel` installs for SENTINEL.
pub open spec fn sentinel_or_default(syms: &ProcessSymbols, sentinel: LispObject) -> LispObject {
    if sentinel.0 == 0 {
        syms.default_sentinel
    } else {
        sentinel
    }
}

impl Processes {
    /// The list of all processes, in the order of the process list.
    pub fn process_list(&self, h: &mut LispHeap) -> (r: LispObject)
        requires
            self.wf(),
            old(h).wf(),
            old(h).cells().len() + self.alist@.len() <= MAX_OBJECTS,
        ensures
            final(h).wf(),
            is_list_of(final(h), r, self.alist@.map_values(|p: usize| process_word(p as int))),
            final(h).string_view() == old(h).string_view(),
            final(h).vector_view() == old(h).vector_view(),
            old(h).cells().len() <= final(h).cells().len(),
            forall|i: int| 0 <= i < old(h).cells().len() ==> #[trigger] final(h).cells()[i] == old(h).cells()[i],
    {
        let ghost words = self.alist@.map_values(|p: usize| process_word(p as int));
        let ghost h0 = *old(h);
        let mut l = LispObject::constant_nil();
        let mut j: usize = self.alist.len();
        while j > 0
            invariant
                self.wf(),
                h.wf(),
                words == self.alist@.map_values(|p: usize| process_word(p as int)),
                j <= self.alist@.len(),
                h.cells().len() + j <= MAX_OBJECTS,
                h.cells().len() <= h0.cells().len() + (self.alist@.len() - j),
                h.valid(l),
                is_list_of(h, l, words.subrange(j as int, words.len() as int)),
                h.string_view() == h0.string_view(),
                h.vector_view() == h0.vector_view(),
                h0.cells().len() <= h.cells().len(),
                forall|i: int| 0 <= i < h0.cells().len() ==> #[trigger] h.cells()[i] == h0.cells()[i],
            decreases j,
        {
            j = j - 1;
            let w = self.process_obj(self.alist[j]);
            proof {
                lemma_store_word_valid(h, 5 * MAX_OBJECTS + self.alist@[j as int]);
            }
            let ghost hb = *h;
            let ghost lb = l;
            l = h.cons(w, l);
            proof {
                lemma_list_kept(&hb, h, lb, words.subrange(j + 1, words.len() as int));
                assert(words.subrange(j as int, words.len() as int).drop_first() =~= words.subrange(
                    j + 1,
                    words.len() as int,
                ));
                assert(words.subrange(j as int, words.len() as int)[0] == w);
            }
        }
        proof {
            assert(words.subrange(0, words.len() as int) =~= words);
        }
        l
    }

    /// Gives PROCESS the sentinel SENTINEL (`nil` for the default one); a
    /// connection also records it under `:sentinel` in its contact list.
    /// Returns the sentinel given.
    #[verifier::spinoff_prover]
    pub fn set_process_sentinel(
        &mut self,
        h: &mut LispHeap,
        syms: &ProcessSymbols,
        process: LispObject,
        sentinel: LispObject,
    ) -> (r: Result<LispObject, LispError>)
        requires
            old(self).wf(),
            old(h).wf(),
            old(self).valid_in(old(h)),
            old(h).valid(syms.sentinel_key),
            old(h).valid(syms.default_sentinel),
            old(h).valid(sentinel),
            old(h).cells().len() + 2 <= MAX_OBJECTS,
        ensures
            final(self).wf(),
            final(self).alist@ == old(self).alist@,
            final(h).wf(),
            match old(self).process_of(process) {
                None => r == Err::<LispObject, LispError>(LispError::WrongType(TypePredicate::Processp, process))
                    && final(self).processes@ == old(self).processes@ && *final(h) == *old(h),
                Some(p) => {
                    let q = old(self).processes@[p];
                    let s = sentinel_or_default(syms, sentinel);
                    if is_connection(syms, &q) {
                        exists|pr: Result<LispObject, LispError>|
                            {
                                &&& plist_put_result(old(h), final(h), Seq::<crate::chartab::LispCharTable>::empty(), q.childp, syms.sentinel_key, s, false, pr)
                                &&& match pr {
                                    Ok(c) => r == Ok::<LispObject, LispError>(s) && final(self).processes@ == old(
                                        self,
                                    ).processes@.update(p, (LispProcess { sentinel: s, childp: c, ..q })),
                                    Err(e) => r == Err::<LispObject, LispError>(e) && final(self).processes@ == old(
                                        self,
                                    ).processes@.update(p, (LispProcess { sentinel: s, ..q })),
                                }
                            }
                    } else {
                        r == Ok::<LispObject, LispError>(s) && final(self).processes@ == old(self).processes@.update(
                            p,
                            (LispProcess { sentinel: s, ..q }),
                        ) && *final(h) == *old(h)
                    }
                },
            },
    {
        let p = self.as_process_or_error(process)?;
        let s = if sentinel.is_nil() {
            syms.default_sentinel
        } else {
            sentinel
        };
        let q = LispProcess { sentinel: s, ..self.take_fields(p) };
        let ghost spec_s = sentinel_or_default(syms, sentinel);
        assert(s == spec_s);
        let childp = q.childp;
        let t = q.process_type;
        self.replace(p, q);
        if t.eq(syms.network) || t.eq(syms.serial) || t.eq(syms.pipe) {
            proof {
                assert(h.valid(old(self).processes@[p as int].childp));
            }
            let pr = plist_put(h, childp, syms.sentinel_key, s);
            proof {
                assert(plist_put_result(old(h), h, Seq::<crate::chartab::LispCharTable>::empty(), old(self).processes@[p as int].childp, syms.sentinel_key, spec_s, false, pr));
            }
            match pr {
                Ok(c) => {
                    let q2 = LispProcess { childp: c, ..self.take_fields(p) };
                    self.replace(p, q2);
                    proof {
                        assert(self.processes@ =~= old(self).processes@.update(
                            p as int,
                            (LispProcess { sentinel: s, childp: c, ..old(self).processes@[p as int] }),
                        ));
                    }
                    Ok(s)
                },
                Err(e) => Err(e),
            }
        } else {
            Ok(s)
        }
    }
}

} // verus!
