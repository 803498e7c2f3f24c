use tiny_os::drivers::input::{InputDevice, InputQueue, encode_input_event};
use tiny_os::syscall::input::{syscall_event_get, syscall_key_pressed};
use tiny_os::syscall::{SYSCALL_CONDVAR_WAIT, SYSCALL_MUTEXT_CREATE, SYSCALL_OPEN, SYSCALL_WAIT_PID};
use tiny_os::task::schedule::TaskID;
use tiny_os::user::io::{DecodedInput, InputEvent, OpenFlags, OPEN_CREATE, OPEN_WRONLY, event_get, key_pressed, open};
use tiny_os::user::sync::{condvar_wait, mutex_blocking_create, mutex_create, mutex_lock_again, sigaction};
use tiny_os::user::syscall::{syscall_exit, syscall_write};
use tiny_os::user::threads::{RetryStep, retry_step, wait, waitpid};

#[test]
fn requests_carry_number_and_arguments() {
    let w = syscall_write(1, 0x1000, 12);
    assert_eq!((w.id, w.args), (1, [1, 0x1000, 12]));
    let e = syscall_exit(-1);
    assert_eq!((e.id, e.args), (0, [usize::MAX, 0, 0]));
    let o = open(0x2000, 5, OpenFlags { bits: OPEN_CREATE | OPEN_WRONLY });
    assert_eq!((o.id, o.args), (SYSCALL_OPEN, [0x2000, 5, 513]));
    assert_eq!(mutex_create().args, [0, 0, 0]);
    let b = mutex_blocking_create();
    assert_eq!((b.id, b.args), (SYSCALL_MUTEXT_CREATE, [1, 0, 0]));
    let c = condvar_wait(3, 4);
    assert_eq!((c.id, c.args), (SYSCALL_CONDVAR_WAIT, [3, 4, 0]));
    let any = wait(0x3000);
    assert_eq!((any.id, any.args), (SYSCALL_WAIT_PID, [usize::MAX, 0x3000, 0]));
    assert_eq!(waitpid(5, 0x3000).args, [5, 0x3000, 0]);
    assert_eq!(sigaction(10, Some(0x10), None).args, [10, 0x10, 0]);
}

#[test]
fn answers_decide_the_next_step() {
    assert!(retry_step(-2) == RetryStep::YieldAndRetry);
    assert!(retry_step(4) == RetryStep::Return(4));
    assert!(retry_step(-1) == RetryStep::Return(-1));
    assert!(mutex_lock_again(1));
    assert!(!mutex_lock_again(0));
    assert!(key_pressed(1));
    assert!(!key_pressed(0));
}

#[test]
fn input_events_pack_and_unpack() {
    let word = encode_input_event(2, 8, 1);
    assert_eq!(word, (2u64 << 48) | (8u64 << 32) | 1);
    let ev = InputEvent::from(word);
    assert!(ev == InputEvent { event_type: 2, code: 8, value: 1 });
    assert!(event_get(0).is_none());
    assert!(event_get(word as isize) == Some(ev));
}

#[test]
fn decoding_events() {
    let scroll = InputEvent { event_type: 2, code: 8, value: 1 };
    assert!(scroll.decode() == Some(DecodedInput::ScrollUp));
    let down = InputEvent { event_type: 3, code: 0x150, value: 0 };
    assert!(down.decode() == Some(DecodedInput::ScrollDown));
    let x = InputEvent { event_type: 2, code: 0, value: 300 };
    assert!(x.decode() == Some(DecodedInput::MouseX(300)));
    let key = InputEvent { event_type: 1, code: 30, value: 1 };
    assert!(key.decode() == Some(DecodedInput::Key { code: 30, pressed: true }));
    let up = InputEvent { event_type: 1, code: 272, value: 0 };
    assert!(up.decode() == Some(DecodedInput::Key { code: 272, pressed: false }));
    let other = InputEvent { event_type: 0, code: 0, value: 0 };
    assert!(other.decode().is_none());
    let high = InputEvent { event_type: 1, code: 0x151, value: 0 };
    assert!(high.decode().is_none());
}

#[test]
fn device_queue_and_event_syscall() {
    let mut kb = InputQueue::new();
    let mut mouse = InputQueue::new();
    let me = TaskID((1u64 << 32) | 0);
    assert!(kb.read_event(me).is_none());
    assert_eq!(kb.condvar.waitque.inner.len(), 1);
    assert!(kb.handle_irq(&vec![(1, 30, 1), (1, 30, 0)]) == Some(me));
    assert!(!kb.is_empty());
    assert!(mouse.handle_irq(&vec![(2, 0, 5)]).is_none());
    let first = syscall_event_get(&mut kb, &mut mouse, me);
    assert_eq!(first as u64, encode_input_event(1, 30, 1));
    let second = syscall_event_get(&mut kb, &mut mouse, me);
    assert_eq!(second as u64, encode_input_event(1, 30, 0));
    let third = syscall_event_get(&mut kb, &mut mouse, me);
    assert_eq!(third as u64, encode_input_event(2, 0, 5));
    assert_eq!(syscall_event_get(&mut kb, &mut mouse, me), 0);
    assert_eq!(syscall_key_pressed(false), 1);
    assert_eq!(syscall_key_pressed(true), 0);
}
