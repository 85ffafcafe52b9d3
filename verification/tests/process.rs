use remacs::editfns::LispBuffer;
use remacs::error::{LispError, TypePredicate};
use remacs::heap::LispHeap;
use remacs::marker::Buffers;
use remacs::process::{LispProcess, ProcessQuery, ProcessSymbols, Processes};
use remacs::tag::LispObject;

fn syms() -> ProcessSymbols {
    ProcessSymbols {
        run: LispObject(400),
        stop: LispObject(408),
        exit: LispObject(416),
        open: LispObject(424),
        closed: LispObject(432),
        network: LispObject(440),
        serial: LispObject(448),
        pipe: LispObject(456),
        buffer_key: LispObject(464),
        sentinel_key: LispObject(472),
        default_sentinel: LispObject(480),
    }
}

fn process(name: LispObject, kind: LispObject, status: LispObject, buffer: LispObject) -> LispProcess {
    let nil = LispObject::constant_nil();
    LispProcess {
        name,
        tty_name: nil,
        command: nil,
        mark: nil,
        filter: nil,
        sentinel: nil,
        plist: nil,
        buffer,
        status,
        raw_status_new: false,
        process_type: kind,
        childp: nil,
        pid: 0,
        kill_without_query: false,
        inherit_coding_system_flag: false,
    }
}

fn buffers(h: &mut LispHeap) -> Buffers {
    let name = h.make_string(b"shell".to_vec(), 5);
    let b = LispBuffer {
        pt: 1,
        pt_byte: 1,
        begv: 1,
        begv_byte: 1,
        zv: 1,
        zv_byte: 1,
        z: 1,
        z_byte: 1,
        text: Vec::new(),
        mark: None,
        mark_active: false,
        gpt: 1,
        gpt_byte: 1,
        modiff: 1,
        is_cached: false,
        cached_modiff: 0,
        cached_charpos: 1,
        cached_bytepos: 1,
        markers: Vec::new(),
        name,
        filename: LispObject::constant_nil(),
        save_modiff: 1,
        chars_modiff: 1,
        truename: LispObject::constant_nil(),
        position_markers: None,
    };
    Buffers { buffers: vec![b], markers: Vec::new(), current: 0 }
}

/// "ls" (real, running, in buffer 0, pid 42), "net" (network, exited
/// with 3), "other" (pipe, running).
fn world(h: &mut LispHeap, bufs: &Buffers) -> Processes {
    let s = syms();
    let real = LispObject(488);
    let ls = h.make_string(b"ls".to_vec(), 2);
    let net = h.make_string(b"net".to_vec(), 3);
    let other = h.make_string(b"other".to_vec(), 5);
    let mut p0 = process(ls, real, s.run, bufs.buffer_obj(0));
    p0.pid = 42;
    let three = h.cons(LispObject::from_fixnum(3), LispObject::constant_nil());
    let exited = h.cons(s.exit, three);
    let p1 = process(net, s.network, exited, LispObject::constant_nil());
    let p2 = process(other, s.pipe, s.run, LispObject::constant_nil());
    Processes { processes: vec![p0, p1, p2], alist: vec![0, 1, 2] }
}

#[test]
fn finding_processes() {
    let mut h = LispHeap::new();
    let bufs = buffers(&mut h);
    let procs = world(&mut h, &bufs);
    let net = h.make_string(b"net".to_vec(), 3);
    let none = h.make_string(b"none".to_vec(), 4);
    assert_eq!(procs.get_process(&h, net), Ok(procs.process_obj(1)));
    assert_eq!(procs.get_process(&h, none), Ok(LispObject::constant_nil()));
    let p0 = procs.process_obj(0);
    assert_eq!(procs.get_process(&h, p0), Ok(p0));
    let n = LispObject::from_fixnum(1);
    assert_eq!(procs.get_process(&h, n), Err(LispError::WrongType(TypePredicate::Stringp, n)));
    assert!(procs.processp(p0));
    assert!(!procs.processp(n));
    let shell = h.make_string(b"shell".to_vec(), 5);
    assert_eq!(procs.get_buffer_process(&h, &bufs, shell), Ok(p0));
    assert_eq!(procs.get_buffer_process(&h, &bufs, bufs.buffer_obj(0)), Ok(p0));
    assert_eq!(procs.get_buffer_process(&h, &bufs, none), Ok(LispObject::constant_nil()));
    assert_eq!(procs.get_buffer_process(&h, &bufs, LispObject::constant_nil()), Ok(LispObject::constant_nil()));
}

#[test]
fn process_fields() {
    let mut h = LispHeap::new();
    let bufs = buffers(&mut h);
    let mut procs = world(&mut h, &bufs);
    assert_eq!(procs.process_id(0), Some(42));
    assert_eq!(procs.process_id(1), None);
    assert_eq!(procs.process_buffer(0), bufs.buffer_obj(0));
    assert!(procs.process_query_on_exit_flag(0));
    assert_eq!(procs.set_process_query_on_exit_flag(0, LispObject::constant_nil()), LispObject::constant_nil());
    assert!(!procs.process_query_on_exit_flag(0));
    let l = h.cons(LispObject::from_fixnum(1), LispObject::constant_nil());
    let p1 = procs.process_obj(1);
    assert_eq!(procs.set_process_plist(p1, l), Ok(l));
    assert_eq!(procs.process_plist(1), l);
    let t = LispObject::constant_t();
    assert_eq!(procs.set_process_plist(p1, t), Err(LispError::WrongType(TypePredicate::Listp, t)));
    let list = procs.process_list(&mut h);
    let c = h.as_cons(list).unwrap();
    assert_eq!(h.car(c), procs.process_obj(0));
}

#[test]
fn process_statuses() {
    let mut h = LispHeap::new();
    let bufs = buffers(&mut h);
    let mut procs = world(&mut h, &bufs);
    let s = syms();
    let p0 = procs.process_obj(0);
    let p1 = procs.process_obj(1);
    let p2 = procs.process_obj(2);
    assert_eq!(procs.process_status(&h, &s, p0), Ok(ProcessQuery::Answer(s.run)));
    assert_eq!(procs.process_status(&h, &s, p1), Ok(ProcessQuery::Answer(s.closed)));
    assert_eq!(procs.process_status(&h, &s, p2), Ok(ProcessQuery::Answer(s.open)));
    let ls = h.make_string(b"ls".to_vec(), 2);
    assert_eq!(procs.process_status(&h, &s, ls), Ok(ProcessQuery::Answer(s.run)));
    let none = h.make_string(b"none".to_vec(), 4);
    assert_eq!(procs.process_status(&h, &s, none), Ok(ProcessQuery::Answer(LispObject::constant_nil())));
    assert_eq!(
        procs.process_status(&h, &s, LispObject::constant_nil()),
        Ok(ProcessQuery::FindProcessFirst(LispObject::constant_nil()))
    );
    assert_eq!(procs.process_exit_status(&h, 1), Ok(ProcessQuery::Answer(LispObject::from_fixnum(3))));
    assert_eq!(procs.process_exit_status(&h, 0), Ok(ProcessQuery::Answer(LispObject::from_fixnum(0))));
    procs.processes[0].raw_status_new = true;
    assert_eq!(procs.process_status(&h, &s, p0), Ok(ProcessQuery::UpdateStatusFirst(0)));
    assert_eq!(procs.process_exit_status(&h, 0), Ok(ProcessQuery::UpdateStatusFirst(0)));
}

#[test]
fn sentinels_and_buffers() {
    let mut h = LispHeap::new();
    let bufs = buffers(&mut h);
    let mut procs = world(&mut h, &bufs);
    let s = syms();
    let p0 = procs.process_obj(0);
    let p1 = procs.process_obj(1);
    assert_eq!(procs.set_process_sentinel(&mut h, &s, p0, LispObject::constant_nil()), Ok(s.default_sentinel));
    assert_eq!(procs.process_sentinel(0), s.default_sentinel);
    let f = LispObject(496);
    assert_eq!(procs.set_process_sentinel(&mut h, &s, p1, f), Ok(f));
    let c = h.as_cons(procs.processes[1].childp).unwrap();
    assert_eq!(h.car(c), s.sentinel_key);
    let b = bufs.buffer_obj(0);
    assert_eq!(procs.set_process_buffer(&mut h, &bufs, &s, p1, b), Ok(b));
    assert_eq!(procs.process_buffer(1), b);
    let t = LispObject::constant_t();
    assert_eq!(procs.set_process_buffer(&mut h, &bufs, &s, p1, t), Err(LispError::WrongType(TypePredicate::BufferP, t)));
    assert_eq!(
        procs.set_process_buffer(&mut h, &bufs, &s, t, b),
        Err(LispError::WrongType(TypePredicate::Processp, t))
    );
}
