use std::sync::mpsc::Receiver;
use vstd::prelude::*;

verus! {

/// The input byte that asks the machine to stop.
pub const EXIT_CHAR: char = 'l';

/// The logical code that the exit byte maps to.
pub const EXIT_VAL: u8 = 17;

#[verifier::external_type_specification]
#[verifier::external_body]
#[verifier::reject_recursive_types(T)]
pub struct ExReceiver<T>(Receiver<T>);

/// Relies on `Receiver::try_recv`: the next byte that the input sampler
/// sent, or `None` where none is waiting (or the sender is gone). What it
/// returns depends on the other thread alone, so nothing is promised.
#[verifier::external_body]
fn try_next_byte(input: &Receiver<u8>) -> (r: Option<u8>) {
    input.try_recv().ok()
}

/// The fixed map from input bytes to logical keys: the characters
/// `1 2 3 4 ' , . p a o e u ; q j k` give keys `0` to `15` in that order,
/// and `l` gives `EXIT_VAL`.
pub open spec fn key_code_spec(b: u8) -> Option<u8> {
    if b == 0x31 { Some(0u8) }
    else if b == 0x32 { Some(1u8) }
    else if b == 0x33 { Some(2u8) }
    else if b == 0x34 { Some(3u8) }
    else if b == 0x27 { Some(4u8) }
    else if b == 0x2C { Some(5u8) }
    else if b == 0x2E { Some(6u8) }
    else if b == 0x70 { Some(7u8) }
    else if b == 0x61 { Some(8u8) }
    else if b == 0x6F { Some(9u8) }
    else if b == 0x65 { Some(10u8) }
    else if b == 0x75 { Some(11u8) }
    else if b == 0x3B { Some(12u8) }
    else if b == 0x71 { Some(13u8) }
    else if b == 0x6A { Some(14u8) }
    else if b == 0x6B { Some(15u8) }
    else if b == 0x6C { Some(EXIT_VAL) }
    else { None }
}

/// What the key pad holds: a flag per key, the key seen at the last
/// sample, and whether the exit byte has been seen.
pub struct KeyState {
    pub keys: Seq<bool>,
    pub last_key: Option<u8>,
    pub exit: bool,
}

/// `keys` with `k` set to `v`, where `k` names a key.
pub open spec fn set_key(keys: Seq<bool>, k: u8, v: bool) -> Seq<bool> {
    if k < 16 {
        keys.update(k as int, v)
    } else {
        keys
    }
}

/// The pad after one sample (`None`: no byte arrived). A byte outside the
/// map counts as no key. Where the key seen differs from the last one,
/// the last one is released and the new one pressed.
pub open spec fn sample_spec(k: KeyState, byte: Option<u8>) -> KeyState {
    let code = match byte {
        Some(b) => key_code_spec(b),
        None => None,
    };
    let exit = k.exit || code == Some(EXIT_VAL);
    let seen = if code == Some(EXIT_VAL) { None } else { code };
    let keys = if seen != k.last_key {
        let released = match k.last_key {
            Some(f) => set_key(k.keys, f, false),
            None => k.keys,
        };
        match seen {
            Some(l) => set_key(released, l, true),
            None => released,
        }
    } else {
        k.keys
    };
    KeyState { keys, last_key: seen, exit }
}

/// The sixteen-key pad, fed one byte at a time by an input sampler.
pub struct Keyboard {
    pub keys: [bool; 16],
    input: Receiver<u8>,
    exit_flag: bool,
    pub last_key: Option<u8>,
}

impl View for Keyboard {
    type V = KeyState;

    closed spec fn view(&self) -> KeyState {
        KeyState { keys: self.keys@, last_key: self.last_key, exit: self.exit_flag }
    }
}

/// Maps an input byte to its logical key.
pub fn key_code(b: u8) -> (r: Option<u8>)
    ensures
        r == key_code_spec(b),
{
    match b {
        0x31 => Some(0),
        0x32 => Some(1),
        0x33 => Some(2),
        0x34 => Some(3),
        0x27 => Some(4),
        0x2C => Some(5),
        0x2E => Some(6),
        0x70 => Some(7),
        0x61 => Some(8),
        0x6F => Some(9),
        0x65 => Some(10),
        0x75 => Some(11),
        0x3B => Some(12),
        0x71 => Some(13),
        0x6A => Some(14),
        0x6B => Some(15),
        0x6C => Some(EXIT_VAL),
        _ => None,
    }
}

impl Keyboard {
    pub fn init(input: Receiver<u8>) -> (r: Keyboard)
        ensures
            r@ == (KeyState { keys: Seq::new(16, |i: int| false), last_key: None, exit: false }),
    {
        let r = Keyboard { keys: [false; 16], input, exit_flag: false, last_key: None };
        assert(r@.keys =~= Seq::new(16, |i: int| false));
        r
    }

    /// Applies one sample: `byte` is what the input sampler delivered, if
    /// anything.
    pub fn observe(&mut self, byte: Option<u8>)
        ensures
            final(self)@ == sample_spec(old(self)@, byte),
    {
        let former_key = self.last_key;
        let code = match byte {
            Some(b) => key_code(b),
            None => None,
        };
        if code == Some(EXIT_VAL) {
            self.exit_flag = true;
            self.last_key = None;
        } else {
            self.last_key = code;
        }
        if self.last_key != former_key {
            if let Some(f) = former_key {
                if f < 16 {
                    self.release_key(f as usize);
                }
            }
            if let Some(l) = self.last_key {
                if l < 16 {
                    self.push_key(l as usize);
                }
            }
        }
    }

    /// Takes the next byte from the input sampler, if one is waiting,
    /// without applying it.
    pub fn next_byte(&self) -> (r: Option<u8>) {
        try_next_byte(&self.input)
    }

    /// Takes the next byte from the input sampler, if one is waiting, and
    /// applies it as a sample.
    pub fn read_input(&mut self)
        ensures
            exists|byte: Option<u8>| final(self)@ == sample_spec(old(self)@, byte),
    {
        let byte = self.next_byte();
        self.observe(byte);
    }

    /// The key seen at the last sample.
    pub fn get_last_key(&self) -> (r: Option<u8>)
        ensures
            r == self@.last_key,
    {
        self.last_key
    }

    /// Whether the exit byte has been seen.
    pub fn exit_key(&self) -> (r: bool)
        ensures
            r == self@.exit,
    {
        self.exit_flag
    }

    pub fn reset_last_key(&mut self)
        ensures
            final(self)@ == (KeyState { last_key: None, ..old(self)@ }),
    {
        self.last_key = None;
    }

    pub fn push_key(&mut self, key: usize)
        requires
            key < 16,
        ensures
            final(self)@ == (KeyState { keys: old(self)@.keys.update(key as int, true), ..old(self)@ }),
    {
        self.keys[key] = true;
    }

    pub fn release_key(&mut self, key: usize)
        requires
            key < 16,
        ensures
            final(self)@ == (KeyState { keys: old(self)@.keys.update(key as int, false), ..old(self)@ }),
    {
        self.keys[key] = false;
    }

    pub fn is_pressed(&self, key: usize) -> (r: bool)
        requires
            key < 16,
        ensures
            r == self@.keys[key as int],
    {
        self.keys[key]
    }

    /// A copy of the sixteen key flags.
    pub fn get_keys(&self) -> (r: [bool; 16])
        ensures
            r@ == self@.keys,
    {
        self.keys
    }
}

} // verus!
