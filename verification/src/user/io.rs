//! Files, the frame buffer and input events, as a user program sees them.
use vstd::prelude::*;
use crate::user::syscall::{
    SyscallRequest,
    request,
    syscall_close,
    syscall_dup,
    syscall_framebuffer_flush,
    syscall_get_fb_addr,
    syscall_open,
    syscall_pipe,
    syscall_read,
    syscall_write,
};
use virtio_input_decoder::{DecodeType, KeyType, Mouse};
use crate::syscall::{
    SYSCALL_CLOSE, SYSCALL_DUP, SYSCALL_FLUSH_FRAMEBUFFER, SYSCALL_MAP_FRAMEBUFFER, SYSCALL_OPEN,
    SYSCALL_PIPE, SYSCALL_READ, SYSCALL_WRITE_ID,
};

verus! {

/// How a file is opened.
#[derive(Copy, Clone, PartialEq, Eq, Structural)]
pub struct OpenFlags {
    pub bits: u32,
}

/// Read only.
pub const OPEN_RDONLY: u32 = 0;
/// Write only.
pub const OPEN_WRONLY: u32 = 1;
/// Read and write.
pub const OPEN_RDWR: u32 = 2;
/// Create the file if it does not exist.
pub const OPEN_CREATE: u32 = 512;
/// Empty the file first.
pub const OPEN_TRUNC: u32 = 1024;

/// Width of the display, in pixels.
pub const VIRTGPU_XRES: u32 = 1280;
/// Height of the display, in pixels.
pub const VIRTGPU_YRES: u32 = 800;
/// Size of the frame buffer, four bytes a pixel.
pub const VIRTGPU_LEN: usize = 4096000;

/// Opens the file named by the `path_len` bytes at `path`.
pub fn open(path: usize, path_len: usize, flags: OpenFlags) -> (r: SyscallRequest)
    ensures
        r == request(SYSCALL_OPEN, path, path_len, flags.bits as usize),
{
    syscall_open(path, path_len, flags.bits)
}

/// Closes descriptor `fd`.
pub fn close(fd: usize) -> (r: SyscallRequest)
    ensures
        r == request(SYSCALL_CLOSE, fd, 0, 0),
{
    syscall_close(fd)
}

/// Reads up to `len` bytes from `fd` into `buf`.
pub fn read(fd: usize, buf: usize, len: usize) -> (r: SyscallRequest)
    ensures
        r == request(SYSCALL_READ, fd, buf, len),
{
    syscall_read(fd, buf, len)
}

/// Writes the `len` bytes at `buf` to `fd`.
pub fn write(fd: usize, buf: usize, len: usize) -> (r: SyscallRequest)
    ensures
        r == request(SYSCALL_WRITE_ID, fd, buf, len),
{
    syscall_write(fd, buf, len)
}

/// Makes a pipe; its descriptors go to `pipe_fd`.
pub fn pipe(pipe_fd: usize) -> (r: SyscallRequest)
    ensures
        r == request(SYSCALL_PIPE, pipe_fd, 0, 0),
{
    syscall_pipe(pipe_fd)
}

/// Duplicates descriptor `fd`.
pub fn dup(fd: usize) -> (r: SyscallRequest)
    ensures
        r == request(SYSCALL_DUP, fd, 0, 0),
{
    syscall_dup(fd)
}

/// Maps the frame buffer; the answer is its address.
pub fn framebuffer() -> (r: SyscallRequest)
    ensures
        r == request(SYSCALL_MAP_FRAMEBUFFER, 0, 0, 0),
{
    syscall_get_fb_addr()
}

/// Shows the frame buffer.
pub fn framebuffer_flush() -> (r: SyscallRequest)
    ensures
        r == request(SYSCALL_FLUSH_FRAMEBUFFER, 0, 0, 0),
{
    syscall_framebuffer_flush()
}

/// An input event: its type, code and value.
#[derive(Copy, Clone, PartialEq, Eq, Structural)]
pub struct InputEvent {
    pub event_type: u16,
    pub code: u16,
    pub value: u32,
}

/// The event packed in word `v`: value in bits 0..32, code in bits 32..48,
/// type in bits 48..64.
pub open spec fn unpack_event(v: u64) -> InputEvent {
    InputEvent { event_type: (v >> 48u64) as u16, code: (v >> 32u64) as u16, value: v as u32 }
}

impl From<u64> for InputEvent {
    /// Unpacks an event word: value in bits 0..32, code in bits 32..48,
    /// type in bits 48..64.
    fn from(v: u64) -> (r: Self) {
        let value = v as u32;
        let w = v >> 32u64;
        let code = w as u16;
        let t = w >> 16u64;
        let event_type = t as u16;
        proof {
            assert(((v >> 32u64) >> 16u64) as u16 == (v >> 48u64) as u16) by (bit_vector);
        }
        InputEvent { event_type, code, value }
    }
}

impl vstd::std_specs::convert::FromSpecImpl<u64> for InputEvent {
    open spec fn obeys_from_spec() -> bool {
        true
    }

    open spec fn from_spec(v: u64) -> Self {
        unpack_event(v)
    }
}

/// The event of the kernel's answer to `syscall_event_get`: none for 0.
pub fn event_get(answer: isize) -> (r: Option<InputEvent>)
    ensures
        answer == 0 ==> r.is_none(),
        answer != 0 ==> r == Some(unpack_event(answer as u64)),
{
    let raw_value = answer;
    if raw_value == 0 {
        None
    } else {
        let v = raw_value as u64;
        Some(InputEvent::from(v))
    }
}

/// Whether the kernel's answer to `syscall_key_pressed` says a key was
/// pressed.
pub fn key_pressed(answer: isize) -> (r: bool)
    ensures
        r == (answer == 1),
{
    if answer == 1 {
        true
    } else {
        false
    }
}

/// What an input event means.
#[derive(Copy, Clone, PartialEq, Eq, Structural)]
pub enum DecodedInput {
    /// key `code` went down (`pressed`) or up
    Key { code: usize, pressed: bool },
    /// the wheel turned up
    ScrollUp,
    /// the wheel turned down
    ScrollDown,
    /// the pointer's horizontal position
    MouseX(usize),
    /// the pointer's vertical position
    MouseY(usize),
}

/// The key codes the decoder knows.
pub open spec fn known_key(code: usize) -> bool {
    1 <= code <= 58 || 272 <= code <= 274
}

/// The events the decoder reads without failing: mouse events (types 2
/// and 3) it knows, and key events (type 1) below code 0x150 with a known
/// key and a value of 0 (up) or 1 (down).
pub open spec fn decodable(etype: usize, code: usize, value: usize) -> bool {
    &&& (etype == 2 || etype == 3) ==> (code == 8 && (value == 1 || value == 0xffff_ffff)) || (code
        == 0x151 && value == 0) || (code == 0x150 && value == 0) || code == 0 || code == 1
    &&& (etype == 1 && code < 0x150) ==> known_key(code) && (value == 0 || value == 1)
}

/// What the decoder makes of an event: mouse events of types 2 and 3, key
/// events of type 1 below code 0x150, and nothing otherwise.
pub open spec fn decode_spec(etype: usize, code: usize, value: usize) -> Option<DecodedInput> {
    if etype == 2 || etype == 3 {
        if (code == 8 && value == 1) || (code == 0x151 && value == 0) {
            Some(DecodedInput::ScrollUp)
        } else if (code == 8 && value == 0xffff_ffff) || (code == 0x150 && value == 0) {
            Some(DecodedInput::ScrollDown)
        } else if code == 0 {
            Some(DecodedInput::MouseX(value))
        } else {
            Some(DecodedInput::MouseY(value))
        }
    } else if etype == 1 && code < 0x150 {
        Some(DecodedInput::Key { code, pressed: value == 1 })
    } else {
        None
    }
}

/// `virtio_input_decoder::Decoder::decode`, its result as a
/// `DecodedInput`: a key is given by its code (each key's number in the
/// crate's `Key` is the code it decodes from). The contract restates the
/// crate's decoding rules and excludes the inputs on which the crate panics.
#[verifier::external_body]
fn decode_event(etype: usize, code: usize, value: usize) -> (r: Option<DecodedInput>)
    requires
        decodable(etype, code, value),
    ensures
        r == decode_spec(etype, code, value),
{
    match virtio_input_decoder::Decoder::decode(etype, code, value) {
        Ok(DecodeType::Key(k, KeyType::Press)) => Some(DecodedInput::Key { code: k as usize, pressed: true }),
        Ok(DecodeType::Key(k, KeyType::Release)) => Some(DecodedInput::Key { code: k as usize, pressed: false }),
        Ok(DecodeType::Mouse(Mouse::ScrollUp)) => Some(DecodedInput::ScrollUp),
        Ok(DecodeType::Mouse(Mouse::ScrollDown)) => Some(DecodedInput::ScrollDown),
        Ok(DecodeType::Mouse(Mouse::X(x))) => Some(DecodedInput::MouseX(x)),
        Ok(DecodeType::Mouse(Mouse::Y(y))) => Some(DecodedInput::MouseY(y)),
        Err(()) => None,
    }
}

impl InputEvent {
    /// What the event means, as the decoder reads it.
    pub fn decode(&self) -> (r: Option<DecodedInput>)
        requires
            decodable(self.event_type as usize, self.code as usize, self.value as usize),
        ensures
            r == decode_spec(self.event_type as usize, self.code as usize, self.value as usize),
    {
        decode_event(self.event_type as usize, self.code as usize, self.value as usize)
    }
}

/// An event the kernel packs into a word (`encode_event`) unpacks to the
/// same type, code and value in a user program.
pub proof fn lemma_event_round_trip(event_type: u16, code: u16, value: u32)
    ensures
        unpack_event(crate::drivers::input::encode_event(event_type, code, value)) == (InputEvent {
            event_type,
            code,
            value,
        }),
{
    let w = ((event_type as u64) << 48u64) | ((code as u64) << 32u64) | (value as u64);
    assert((w >> 48u64) as u16 == event_type && (w >> 32u64) as u16 == code && w as u32 == value)
        by (bit_vector)
        requires
            w == ((event_type as u64) << 48u64) | ((code as u64) << 32u64) | (value as u64),
    ;
}

} // verus!
