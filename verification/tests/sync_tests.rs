use tiny_os::fs::pipe::{Pipe, PipeRingBuffer, PipeStep, RingBufferStatus, get_dual_pipe_file};
use tiny_os::fs::FileRef;
use tiny_os::sync::condvar::Condvar;
use tiny_os::sync::inner::{InterruptMask, OneCoreCell};
use tiny_os::sync::mutex::{Mutex, MutexLock, SpinLock};
use tiny_os::sync::semaphore::Semaphore;
use tiny_os::task::id::IdStore;
use tiny_os::task::schedule::{TaskContoller, TaskID};
use tiny_os::task::signal::{SignalFlags, check_signal_action};
use tiny_os::task::TaskhandleStatus;
use tiny_os::timer::{TimerCondVar, add_timer, check_timer, get_time_in_ms, set_timer_trigger};

fn tid(pid: usize, t: usize) -> TaskID {
    let mut id = TaskID::new();
    id.set_value(pid, t);
    id
}

#[test]
fn task_id_round_trip() {
    let id = tid(7, 3);
    assert_eq!(id.0, (7 << 32) | 3);
    assert_eq!(id.to_pid(), 7);
    assert_eq!(id.to_tid(), 3);
    assert_eq!(id.to_pid_tid(), (7, 3));
}

#[test]
fn ready_queue_is_fifo_and_remove_takes_first() {
    let mut q = TaskContoller::new();
    q.add(tid(1, 0));
    q.add(tid(2, 0));
    q.add(tid(1, 0));
    q.remove(tid(1, 0));
    assert!(q.fetch() == Some(tid(2, 0)));
    assert!(q.fetch() == Some(tid(1, 0)));
    assert!(q.fetch().is_none());
}

#[test]
fn id_store_hands_out_and_recycles() {
    let mut s = IdStore::new();
    s.init();
    assert_eq!(s.alloc_avaliabe_id(), 0);
    assert_eq!(s.alloc_avaliabe_id(), 1);
    s.recycle(0);
    assert_eq!(s.alloc_avaliabe_id(), 0);
    assert_eq!(s.alloc_avaliabe_id(), 2);
    assert_eq!(s.alloc_avaliabe_id(), 3);
    // empty: the range doubles and its largest new id comes out
    assert_eq!(s.alloc_avaliabe_id(), 7);
    assert_eq!(s.max_id, 8);
    assert_eq!(s.alloc_avaliabe_id(), 6);
}

#[test]
fn signal_flags_and_errors() {
    let mut f = SignalFlags::empty();
    f.insert(SignalFlags::from_signum(2));
    assert!(f.contains(SignalFlags::from_signum(2)));
    assert_eq!(f.bits(), 4);
    assert_eq!(f.check_error().unwrap().0, -2);
    f.remove(SignalFlags::from_signum(2));
    assert!(f.check_error().is_none());
    assert_eq!(SignalFlags::from_signum(11).check_error().unwrap().0, -11);
    assert_eq!(SignalFlags::from_signum(9).check_error().unwrap().0, -9);
    assert!(SignalFlags::from_bits(-1).is_some());
    assert!(check_signal_action(10, 1, 1));
    assert!(!check_signal_action(9, 1, 1));
    assert!(!check_signal_action(19, 1, 1));
    assert!(!check_signal_action(10, 0, 1));
    assert!(!check_signal_action(32, 1, 1));
}

#[test]
fn ring_buffer_round_trip() {
    let mut rb = PipeRingBuffer::new();
    assert!(rb.status == RingBufferStatus::EMPTY);
    assert_eq!(rb.avaliable_write(), 4096);
    let data = [1u8, 2, 3, 4, 5];
    assert!(rb.write_data(&data) == (TaskhandleStatus::OK, 5));
    assert_eq!(rb.avaliable_read(), 5);
    let mut out = [0u8; 3];
    assert!(rb.read_data(&mut out) == (TaskhandleStatus::OK, 3));
    assert_eq!(out, [1, 2, 3]);
    let mut out2 = [0u8; 4];
    // fewer bytes than wanted: what there is, and the reader is told to stop
    assert!(rb.read_data(&mut out2) == (TaskhandleStatus::DOSTOP, 2));
    assert_eq!(out2, [4, 5, 0, 0]);
    assert!(rb.status == RingBufferStatus::EMPTY);
}

#[test]
fn empty_ring_buffer_waits_or_stops() {
    let mut rb = PipeRingBuffer::new();
    let mut out = [0u8; 2];
    assert!(rb.read_data(&mut out) == (TaskhandleStatus::DOWAIT, 0));
    rb.writer_dead();
    assert!(rb.read_data(&mut out) == (TaskhandleStatus::DOSTOP, 0));
}

#[test]
fn full_ring_buffer_waits_then_stops() {
    let mut rb = PipeRingBuffer::new();
    let big = vec![7u8; 4096];
    assert!(rb.write_data(&big) == (TaskhandleStatus::OK, 4096));
    assert!(rb.status == RingBufferStatus::FULL);
    assert!(rb.write_data(&[1u8]) == (TaskhandleStatus::DOWAIT, 0));
    rb.reader_dead();
    assert!(rb.write_data(&[1u8]) == (TaskhandleStatus::DOSTOP, 0));
}

#[test]
fn pipe_steps() {
    let mut pipes: Vec<Option<PipeRingBuffer>> = Vec::new();
    let (r, w) = get_dual_pipe_file(&mut pipes);
    let (rp, wp) = match (r, w) {
        (FileRef::Pipe(a), FileRef::Pipe(b)) => (a, b),
        _ => panic!("pipe ends expected"),
    };
    assert!(rp.readable && !rp.writable && wp.writable && rp.buffer == 0);
    let ring = pipes[0].as_mut().unwrap();
    let mut out = [0u8; 4];
    assert!(rp.read(ring, &mut out, 0) == PipeStep::Wait);
    assert!(wp.write(ring, &[9u8, 8, 7, 6], 10) == PipeStep::Next(14));
    assert!(rp.read(ring, &mut out, 3) == PipeStep::Next(7));
    assert_eq!(out, [9, 8, 7, 6]);
    wp.release(ring);
    assert!(!ring.writer_alive && ring.reader_alive);
    assert!(rp.read(ring, &mut out, 7) == PipeStep::Finished(7));
    let _ = Pipe::get_read_pipe(1);
}

#[test]
fn locks_and_semaphores() {
    let me = tid(1, 0);
    let other = tid(1, 1);
    let mut s = SpinLock::new();
    assert_eq!(s.lock(me), 0);
    assert_eq!(s.lock(other), 1);
    assert!(s.unlock().is_empty());
    let mut m = MutexLock::new();
    assert_eq!(m.lock(me), 0);
    assert_eq!(m.lock(other), 1);
    assert!(m.unlock() == vec![other]);
    let mut sem = Semaphore::new(1);
    assert!(!sem.down(me));
    assert!(sem.down(other));
    assert!(sem.up() == Some(other));
    assert!(sem.up().is_none());
}

#[test]
fn condvar_queue() {
    let mut c = Condvar::new();
    c.wait(tid(1, 1));
    c.wait_no_schedule(tid(1, 2));
    assert!(c.signal_one() == Some(tid(1, 1)));
    c.wait(tid(1, 3));
    assert!(c.signal_all() == vec![tid(1, 2), tid(1, 3)]);
    assert!(c.signal_one().is_none());
}

#[test]
fn cells_and_interrupt_mask() {
    let mut cell = OneCoreCell::new(5u32);
    *cell.exclusive_access() += 1;
    assert_eq!(cell.inner, 6);
    let mut mask = InterruptMask::new();
    assert!(mask.mask_interrupt(true));
    assert!(mask.unmask_interrupt());
    let mut mask2 = InterruptMask::new();
    assert!(!mask2.mask_interrupt(false));
    assert!(!mask2.unmask_interrupt());
}

#[test]
fn timers_expire_earliest_first() {
    assert_eq!(get_time_in_ms(12_500 * 7), 7);
    assert_eq!(set_timer_trigger(1000), 126_000);
    let mut t: Vec<TimerCondVar> = Vec::new();
    add_timer(&mut t, 30, tid(1, 0));
    add_timer(&mut t, 10, tid(2, 0));
    add_timer(&mut t, 20, tid(3, 0));
    add_timer(&mut t, 10, tid(4, 0));
    let woken = check_timer(&mut t, 20);
    assert!(woken == vec![tid(2, 0), tid(4, 0), tid(3, 0)]);
    assert_eq!(t.len(), 1);
    assert_eq!(t[0].expire_ms, 30);
    assert!(check_timer(&mut t, 29).is_empty());
}
