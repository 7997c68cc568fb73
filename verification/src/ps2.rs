//! PS/2 keyboard: scancode set 1 decoding with modifier state, the
//! buffer of typed characters, and the controller configuration byte.
use vstd::prelude::*;

verus! {

/// Status register bit: output buffer full (a byte is ready at 0x60).
pub const STATUS_OUTPUT_FULL: u8 = 1;

/// Status register bit: input buffer full (the controller is busy).
pub const STATUS_INPUT_FULL: u8 = 2;

/// Configuration bit: port 1 interrupt enable.
pub const CFG_PORT1_IRQ: u8 = 1;

/// Configuration bit: port 1 clock disable.
pub const CFG_PORT1_CLOCK: u8 = 0x10;

/// What the controller answers to a passing self test.
pub const SELF_TEST_PASSED: u8 = 0x55;

/// What the keyboard answers to a command it accepts.
pub const KB_RESPONSE_ACK: u8 = 0xFA;

/// What the keyboard answers after a passing reset self test.
pub const KB_RESPONSE_SELF_TEST_OK: u8 = 0xAA;

pub const SC_LSHIFT: u8 = 0x2A;

pub const SC_RSHIFT: u8 = 0x36;

pub const SC_LCTRL: u8 = 0x1D;

pub const SC_LALT: u8 = 0x38;

pub const SC_CAPSLOCK: u8 = 0x3A;

/// The space bar.
pub const SC_SPACE: u8 = 0x39;

/// Prefix byte of extended scancodes.
pub const SC_EXTENDED: u8 = 0xE0;

/// Slots in the character buffer; one is always left free.
pub const KB_BUF_SIZE: usize = 256;

/// The controller configuration byte with port 1's interrupt enabled and
/// its clock running.
pub fn keyboard_config(config: u8) -> (r: u8)
    ensures
        r == (config | CFG_PORT1_IRQ) & !CFG_PORT1_CLOCK,
        r & CFG_PORT1_IRQ != 0,
        r & CFG_PORT1_CLOCK == 0,
{
    let r = (config | CFG_PORT1_IRQ) & !CFG_PORT1_CLOCK;
    assert(r & 1 != 0 && r & 0x10 == 0) by (bit_vector)
        requires
            r == (config | 1u8) & !0x10u8,
    ;
    r
}

/// Unshifted characters of scancodes 0..127 (0: no character).
#[verifier::opaque]
pub open spec fn base_table() -> Seq<u8> {
    seq![
        0, 0x1B, 0x31, 0x32, 0x33, 0x34, 0x35, 0x36,
        0x37, 0x38, 0x39, 0x30, 0x2D, 0x3D, 0x08, 0x09,
        0x71, 0x77, 0x65, 0x72, 0x74, 0x79, 0x75, 0x69,
        0x6F, 0x70, 0x5B, 0x5D, 0x0A, 0, 0x61, 0x73,
        0x64, 0x66, 0x67, 0x68, 0x6A, 0x6B, 0x6C, 0x3B,
        0x27, 0x60, 0, 0x5C, 0x7A, 0x78, 0x63, 0x76,
        0x62, 0x6E, 0x6D, 0x2C, 0x2E, 0x2F, 0, 0x2A,
        0, 0x20, 0, 0, 0, 0, 0, 0,
        0, 0, 0, 0, 0, 0, 0, 0,
        0, 0, 0x2D, 0, 0, 0, 0x2B, 0,
        0, 0, 0, 0, 0, 0, 0, 0,
        0, 0, 0, 0, 0, 0, 0, 0,
        0, 0, 0, 0, 0, 0, 0, 0,
        0, 0, 0, 0, 0, 0, 0, 0,
        0, 0, 0, 0, 0, 0, 0, 0,
        0, 0, 0, 0, 0, 0, 0, 0,
    ]
}

/// Shifted characters of scancodes 0..127 (0: no character).
#[verifier::opaque]
pub open spec fn shift_table() -> Seq<u8> {
    seq![
        0, 0x1B, 0x21, 0x40, 0x23, 0x24, 0x25, 0x5E,
        0x26, 0x2A, 0x28, 0x29, 0x5F, 0x2B, 0x08, 0x09,
        0x51, 0x57, 0x45, 0x52, 0x54, 0x59, 0x55, 0x49,
        0x4F, 0x50, 0x7B, 0x7D, 0x0A, 0, 0x41, 0x53,
        0x44, 0x46, 0x47, 0x48, 0x4A, 0x4B, 0x4C, 0x3A,
        0x22, 0x7E, 0, 0x7C, 0x5A, 0x58, 0x43, 0x56,
        0x42, 0x4E, 0x4D, 0x3C, 0x3E, 0x3F, 0, 0x2A,
        0, 0x20, 0, 0, 0, 0, 0, 0,
        0, 0, 0, 0, 0, 0, 0, 0,
        0, 0, 0x2D, 0, 0, 0, 0x2B, 0,
        0, 0, 0, 0, 0, 0, 0, 0,
        0, 0, 0, 0, 0, 0, 0, 0,
        0, 0, 0, 0, 0, 0, 0, 0,
        0, 0, 0, 0, 0, 0, 0, 0,
        0, 0, 0, 0, 0, 0, 0, 0,
        0, 0, 0, 0, 0, 0, 0, 0,
    ]
}

/// Whether `c` is a lowercase ASCII letter.
pub open spec fn is_lower(c: u8) -> bool {
    0x61 <= c <= 0x7A
}

/// The character that key `code` (0..127) types with the given Shift and
/// Caps Lock state: Caps Lock upper-cases letters only, and Shift with
/// Caps Lock gives lowercase letters and shifted symbols.
pub open spec fn translate(code: int, shift: bool, caps: bool) -> u8 {
    let base = base_table()[code];
    if caps && !shift {
        if is_lower(base) {
            (base - 32) as u8
        } else {
            base
        }
    } else if caps && shift {
        if is_lower(base) {
            base
        } else {
            shift_table()[code]
        }
    } else if shift {
        shift_table()[code]
    } else {
        base
    }
}

/// The modifier state and the characters waiting to be read.
pub struct KeyboardView {
    pub shift: bool,
    pub ctrl: bool,
    pub alt: bool,
    pub caps: bool,
    pub keys: Seq<u8>,
}

/// The buffer after typing `ch`: appended unless it is full.
pub open spec fn push_key(keys: Seq<u8>, ch: u8) -> Seq<u8> {
    if keys.len() < KB_BUF_SIZE - 1 {
        keys.push(ch)
    } else {
        keys
    }
}

/// The state after the keyboard sends byte `sc`.
pub open spec fn kb_step(s: KeyboardView, sc: u8) -> KeyboardView {
    let released = sc >= 0x80;
    let code = sc % 0x80;
    if sc == SC_EXTENDED {
        s
    } else if code == SC_LSHIFT || code == SC_RSHIFT {
        KeyboardView { shift: !released, ..s }
    } else if code == SC_LCTRL {
        KeyboardView { ctrl: !released, ..s }
    } else if code == SC_LALT {
        KeyboardView { alt: !released, ..s }
    } else if code == SC_CAPSLOCK && !released {
        KeyboardView { caps: !s.caps, ..s }
    } else if released {
        s
    } else {
        let ch = translate(code as int, s.shift, s.caps);
        if ch != 0 {
            KeyboardView { keys: push_key(s.keys, ch), ..s }
        } else {
            s
        }
    }
}

/// The characters held in ring `buf` from `tail` up to `head`.
pub open spec fn kb_queue(buf: Seq<u8>, head: nat, tail: nat) -> Seq<u8> {
    Seq::new(
        ((head + KB_BUF_SIZE - tail) % (KB_BUF_SIZE as int)) as nat,
        |k: int| buf[(tail + k) % (KB_BUF_SIZE as int)],
    )
}

/// Keyboard state: modifiers, Caps Lock, and a ring of typed characters.
pub struct Keyboard {
    buf: Vec<u8>,
    head: usize,
    tail: usize,
    base: Vec<u8>,
    shifted: Vec<u8>,
    shift: bool,
    ctrl: bool,
    alt: bool,
    caps: bool,
}

impl View for Keyboard {
    type V = KeyboardView;

    closed spec fn view(&self) -> KeyboardView {
        KeyboardView {
            shift: self.shift,
            ctrl: self.ctrl,
            alt: self.alt,
            caps: self.caps,
            keys: kb_queue(self.buf@, self.head as nat, self.tail as nat),
        }
    }
}

fn make_table(t: &[u8; 128]) -> (r: Vec<u8>)
    ensures
        r@ == t@,
{
    let mut v: Vec<u8> = Vec::new();
    let mut i: usize = 0;
    while i < 128
        invariant
            i <= 128,
            v@ == t@.subrange(0, i as int),
        decreases 128 - i,
    {
        v.push(t[i]);
        i += 1;
        assert(v@ =~= t@.subrange(0, i as int));
    }
    assert(t@.subrange(0, 128) =~= t@);
    v
}

impl Keyboard {
    pub closed spec fn wf(&self) -> bool {
        &&& self.buf@.len() == KB_BUF_SIZE
        &&& self.head < KB_BUF_SIZE
        &&& self.tail < KB_BUF_SIZE
        &&& self.base@ == base_table()
        &&& self.shifted@ == shift_table()
        &&& self.base@.len() == 128
        &&& self.shifted@.len() == 128
    }

    /// No modifier held, Caps Lock off, nothing typed.
    pub fn new() -> (r: Self)
        ensures
            r.wf(),
            r@ == (KeyboardView {
                shift: false,
                ctrl: false,
                alt: false,
                caps: false,
                keys: Seq::<u8>::empty(),
            }),
    {
        let base_arr: [u8; 128] = [
            0, 0x1B, 0x31, 0x32, 0x33, 0x34, 0x35, 0x36,
            0x37, 0x38, 0x39, 0x30, 0x2D, 0x3D, 0x08, 0x09,
            0x71, 0x77, 0x65, 0x72, 0x74, 0x79, 0x75, 0x69,
            0x6F, 0x70, 0x5B, 0x5D, 0x0A, 0, 0x61, 0x73,
            0x64, 0x66, 0x67, 0x68, 0x6A, 0x6B, 0x6C, 0x3B,
            0x27, 0x60, 0, 0x5C, 0x7A, 0x78, 0x63, 0x76,
            0x62, 0x6E, 0x6D, 0x2C, 0x2E, 0x2F, 0, 0x2A,
            0, 0x20, 0, 0, 0, 0, 0, 0,
            0, 0, 0, 0, 0, 0, 0, 0,
            0, 0, 0x2D, 0, 0, 0, 0x2B, 0,
            0, 0, 0, 0, 0, 0, 0, 0,
            0, 0, 0, 0, 0, 0, 0, 0,
            0, 0, 0, 0, 0, 0, 0, 0,
            0, 0, 0, 0, 0, 0, 0, 0,
            0, 0, 0, 0, 0, 0, 0, 0,
            0, 0, 0, 0, 0, 0, 0, 0,
        ];
        let shift_arr: [u8; 128] = [
            0, 0x1B, 0x21, 0x40, 0x23, 0x24, 0x25, 0x5E,
            0x26, 0x2A, 0x28, 0x29, 0x5F, 0x2B, 0x08, 0x09,
            0x51, 0x57, 0x45, 0x52, 0x54, 0x59, 0x55, 0x49,
            0x4F, 0x50, 0x7B, 0x7D, 0x0A, 0, 0x41, 0x53,
            0x44, 0x46, 0x47, 0x48, 0x4A, 0x4B, 0x4C, 0x3A,
            0x22, 0x7E, 0, 0x7C, 0x5A, 0x58, 0x43, 0x56,
            0x42, 0x4E, 0x4D, 0x3C, 0x3E, 0x3F, 0, 0x2A,
            0, 0x20, 0, 0, 0, 0, 0, 0,
            0, 0, 0, 0, 0, 0, 0, 0,
            0, 0, 0x2D, 0, 0, 0, 0x2B, 0,
            0, 0, 0, 0, 0, 0, 0, 0,
            0, 0, 0, 0, 0, 0, 0, 0,
            0, 0, 0, 0, 0, 0, 0, 0,
            0, 0, 0, 0, 0, 0, 0, 0,
            0, 0, 0, 0, 0, 0, 0, 0,
            0, 0, 0, 0, 0, 0, 0, 0,
        ];
        assert(base_arr@ =~= base_table()) by {
            reveal(base_table);
        }
        assert(shift_arr@ =~= shift_table()) by {
            reveal(shift_table);
        }
        let base = make_table(&base_arr);
        let shifted = make_table(&shift_arr);
        let mut buf: Vec<u8> = Vec::new();
        let mut i: usize = 0;
        while i < KB_BUF_SIZE
            invariant
                i <= KB_BUF_SIZE,
                buf@.len() == i,
            decreases KB_BUF_SIZE - i,
        {
            buf.push(0);
            i += 1;
        }
        let r = Keyboard {
            buf,
            head: 0,
            tail: 0,
            base,
            shifted,
            shift: false,
            ctrl: false,
            alt: false,
            caps: false,
        };
        assert(r@.keys =~= Seq::<u8>::empty());
        r
    }

    /// Appends `ch` to the buffer unless it is full.
    fn buf_push(&mut self, ch: u8)
        requires
            old(self).wf(),
        ensures
            final(self).wf(),
            final(self)@ == (KeyboardView { keys: push_key(old(self)@.keys, ch), ..old(self)@ }),
    {
        let head = self.head;
        let tail = self.tail;
        let next = (head + 1) % KB_BUF_SIZE;
        let ghost q0 = self@.keys;
        if next != tail {
            self.buf.set(head, ch);
            self.head = next;
            proof {
                assert(q0.len() < KB_BUF_SIZE - 1);
                assert(self@.keys =~= q0.push(ch)) by {
                    assert forall|k: int| 0 <= k < self@.keys.len() implies #[trigger] self@.keys[k]
                        == q0.push(ch)[k] by {
                        if k < q0.len() {
                            assert((tail + k) % (KB_BUF_SIZE as int) != head as int);
                        }
                    }
                }
            }
        } else {
            assert(q0.len() == KB_BUF_SIZE - 1);
        }
    }

    /// Takes the oldest typed character; `None` when there is none.
    pub fn read_key(&mut self) -> (r: Option<u8>)
        requires
            old(self).wf(),
        ensures
            final(self).wf(),
            old(self)@.keys.len() == 0 ==> r is None && final(self)@ == old(self)@,
            old(self)@.keys.len() > 0 ==> r == Some(old(self)@.keys[0]) && final(self)@ == (
            KeyboardView { keys: old(self)@.keys.drop_first(), ..old(self)@ }),
    {
        let tail = self.tail;
        let head = self.head;
        if tail == head {
            return None;
        }
        let ch = self.buf[tail];
        let nt = (tail + 1) % KB_BUF_SIZE;
        self.tail = nt;
        let ghost q0 = old(self)@.keys;
        assert(self@.keys =~= q0.drop_first()) by {
            assert(self@.keys.len() == q0.len() - 1);
            assert forall|k: int| 0 <= k < self@.keys.len() implies #[trigger] self@.keys[k]
                == q0.drop_first()[k] by {
                assert((nt + k) % (KB_BUF_SIZE as int) == (tail + (k + 1)) % (KB_BUF_SIZE as int));
            }
        }
        Some(ch)
    }

    /// Whether a typed character is waiting.
    pub fn has_key(&self) -> (r: bool)
        requires
            self.wf(),
        ensures
            r == (self@.keys.len() > 0),
    {
        self.tail != self.head
    }

    /// The character that key `code` types in the current modifier state.
    fn translate_key(&self, code: u8) -> (r: u8)
        requires
            self.wf(),
            code < 128,
        ensures
            r == translate(code as int, self.shift, self.caps),
    {
        let base = self.base[code as usize];
        if self.caps && !self.shift {
            if base >= 0x61 && base <= 0x7A {
                base - 32
            } else {
                base
            }
        } else if self.caps && self.shift {
            if base >= 0x61 && base <= 0x7A {
                base
            } else {
                self.shifted[code as usize]
            }
        } else if self.shift {
            self.shifted[code as usize]
        } else {
            base
        }
    }

    /// Handles one byte from the keyboard: modifier presses and releases
    /// update the state, Caps Lock toggles on press, and a key press that
    /// types a character queues it.
    pub fn process_scancode(&mut self, scancode: u8)
        requires
            old(self).wf(),
        ensures
            final(self).wf(),
            final(self)@ == kb_step(old(self)@, scancode),
    {
        if scancode == SC_EXTENDED {
            return;
        }
        let released = scancode & 0x80 != 0;
        let code = scancode & 0x7F;
        assert(released == (scancode >= 0x80) && code == scancode % 0x80) by (bit_vector)
            requires
                released == (scancode & 0x80 != 0),
                code == scancode & 0x7F,
        ;
        if code == SC_LSHIFT || code == SC_RSHIFT {
            self.shift = !released;
            return;
        }
        if code == SC_LCTRL {
            self.ctrl = !released;
            return;
        }
        if code == SC_LALT {
            self.alt = !released;
            return;
        }
        if code == SC_CAPSLOCK && !released {
            self.caps = !self.caps;
            return;
        }
        if released {
            return;
        }
        let ch = self.translate_key(code);
        if ch != 0 {
            self.buf_push(ch);
        }
    }
}

/// Releasing a key never queues a character.
pub proof fn lemma_release_queues_nothing(s: KeyboardView, sc: u8)
    requires
        sc >= 0x80,
    ensures
        kb_step(s, sc).keys == s.keys,
{
}

/// Pressing Caps Lock twice leaves the keyboard as it was.
pub proof fn lemma_caps_lock_twice(s: KeyboardView)
    ensures
        kb_step(kb_step(s, SC_CAPSLOCK), SC_CAPSLOCK) == s,
{
    assert(SC_CAPSLOCK % 0x80 == SC_CAPSLOCK);
}

/// A shift key held down shifts, and its release unshifts, whatever came
/// before; neither queues a character.
pub proof fn lemma_shift_press_release(s: KeyboardView)
    ensures
        kb_step(s, SC_LSHIFT).shift,
        kb_step(s, SC_LSHIFT).keys == s.keys,
        !kb_step(kb_step(s, SC_LSHIFT), (SC_LSHIFT + 0x80) as u8).shift,
        kb_step(kb_step(s, SC_LSHIFT), (SC_LSHIFT + 0x80) as u8).keys == s.keys,
{
    assert(((SC_LSHIFT + 0x80) as u8) % 0x80 == SC_LSHIFT);
}

/// A key types a character unshifted exactly when it types one with Shift
/// held: Shift changes which character, never whether there is one.
pub proof fn lemma_shift_keeps_typing_keys(code: int)
    requires
        0 <= code < 128,
    ensures
        (translate(code, false, false) == 0) == (translate(code, true, false) == 0),
{
    reveal(base_table);
    reveal(shift_table);
}

/// Shift upper-cases the letter keys and leaves the control keys (Escape,
/// Backspace, Tab, Enter) and the space bar as they are.
pub proof fn lemma_shift_letters_and_controls(code: int)
    requires
        0 <= code < 128,
    ensures
        is_lower(translate(code, false, false)) ==> translate(code, true, false) == translate(code, false, false)
            - 32,
        0 < translate(code, false, false) <= 0x20 ==> translate(code, true, false) == translate(
            code,
            false,
            false,
        ),
{
    reveal(base_table);
    reveal(shift_table);
}

/// Exactly one key types a space, with or without Shift: the space bar.
pub proof fn lemma_one_space_key(code: int, shift: bool)
    requires
        0 <= code < 128,
    ensures
        (translate(code, shift, false) == 0x20) == (code == SC_SPACE),
{
    reveal(base_table);
    reveal(shift_table);
}

/// Each digit and each lowercase letter is typed, unshifted, by exactly
/// one key.
pub proof fn lemma_keys_type_distinct_letters(a: int, b: int)
    requires
        0 <= a < 128,
        0 <= b < 128,
        translate(a, false, false) == translate(b, false, false),
        is_lower(translate(a, false, false)) || 0x30 <= translate(a, false, false) <= 0x39,
    ensures
        a == b,
{
    reveal(base_table);
}

} // verus!
