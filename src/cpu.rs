use crate::display::{blank_frame, draw_spec, Display};
use crate::keyboard::{sample_spec, KeyState, Keyboard};
use crate::opcode::{family_of, payload_of, Opcode};
use crate::ram::{font_glyphs, splice, word_at, RAM};
use vstd::prelude::*;

verus! {

/// Most return addresses the call stack holds.
pub const STACK_DEPTH: usize = 16;

/// Why a step could not be carried out. A step that faults changes
/// nothing; the machine is not meant to go on after one.
#[derive(PartialEq, Eq, Structural, Debug, Clone, Copy)]
pub enum Fault {
    /// The word is no instruction of the machine.
    IllegalInstruction(u16),
    /// An access from this address reaches past the end of memory.
    MemoryOutOfRange(u16),
    /// A call with the stack already full.
    StackOverflow,
    /// A return with the stack empty.
    StackUnderflow,
    /// A key test on a register value that names no key.
    KeyOutOfRange(u8),
    /// A draw at a column past the right edge.
    ColumnOutOfRange(u8),
}

/// The whole machine as a value.
pub struct CpuState {
    pub reg: Seq<u8>,
    pub i: u16,
    pub pc: u16,
    pub stack: Seq<u16>,
    pub delay: u8,
    pub sound: u8,
    pub mem: Seq<u8>,
    pub frame: Seq<u64>,
    pub keys: KeyState,
}

/// Register operand `X` of an instruction word.
pub open spec fn x_of(w: u16) -> int {
    (w as int / 256) % 16
}

/// Register operand `Y` of an instruction word.
pub open spec fn y_of(w: u16) -> int {
    (w as int / 16) % 16
}

/// Low nibble of an instruction word.
pub open spec fn n_of(w: u16) -> int {
    w as int % 16
}

/// Low byte of an instruction word.
pub open spec fn nn_of(w: u16) -> int {
    w as int % 256
}

/// Moves on to the following instruction.
pub open spec fn next(s: CpuState) -> CpuState {
    CpuState { pc: (s.pc + 2) as u16, ..s }
}

/// Skips the following instruction.
pub open spec fn skip(s: CpuState) -> CpuState {
    CpuState { pc: (s.pc + 4) as u16, ..s }
}

/// `next` or `skip`, by `cond`.
pub open spec fn skip_if(s: CpuState, cond: bool) -> CpuState {
    if cond {
        skip(s)
    } else {
        next(s)
    }
}

/// Family 0: clear the display, or return from a call. A return goes to
/// the instruction after the call, whose own address the stack holds.
pub open spec fn exec_0(s: CpuState, w: u16) -> Result<CpuState, Fault> {
    if w == 0x00E0 {
        Ok(next(CpuState { frame: blank_frame(), ..s }))
    } else if w == 0x00EE {
        if s.stack.len() == 0 {
            Err(Fault::StackUnderflow)
        } else {
            Ok(CpuState { pc: ((s.stack.last() + 2) % 0x10000) as u16, stack: s.stack.drop_last(), ..s })
        }
    } else {
        Err(Fault::IllegalInstruction(w))
    }
}

/// Family 2: call. The stack keeps the address of the call itself.
pub open spec fn exec_2(s: CpuState, w: u16) -> Result<CpuState, Fault> {
    if s.stack.len() >= STACK_DEPTH {
        Err(Fault::StackOverflow)
    } else {
        Ok(CpuState { stack: s.stack.push(s.pc), pc: payload_of(w), ..s })
    }
}

/// Family 8: the operation on register values `a` (`X`) and `b` (`Y`)
/// picked by `op`: the new value of `X`, and the flag for register 15
/// where the operation sets one.
pub open spec fn alu(a: u8, b: u8, op: int) -> Option<(u8, Option<u8>)> {
    if op == 0 {
        Some((b, None))
    } else if op == 1 {
        Some((a | b, None))
    } else if op == 2 {
        Some((a & b, None))
    } else if op == 3 {
        Some((a ^ b, None))
    } else if op == 4 {
        Some((((a + b) % 256) as u8, Some(if a + b > 255 { 1u8 } else { 0u8 })))
    } else if op == 5 {
        Some((((a - b) % 256) as u8, Some(if a < b { 1u8 } else { 0u8 })))
    } else if op == 6 {
        Some(((b / 2) as u8, Some((b % 2) as u8)))
    } else if op == 7 {
        Some((((b - a) % 256) as u8, Some(if b < a { 1u8 } else { 0u8 })))
    } else if op == 14 {
        Some((((b * 2) % 256) as u8, Some((b / 128) as u8)))
    } else {
        None
    }
}

/// Family 8: register `X` gets the result first, then register 15 the flag.
pub open spec fn exec_8(s: CpuState, w: u16) -> Result<CpuState, Fault> {
    match alu(s.reg[x_of(w)], s.reg[y_of(w)], n_of(w)) {
        Some((v, flag)) => {
            let r = s.reg.update(x_of(w), v);
            let r = match flag {
                Some(f) => r.update(15, f),
                None => r,
            };
            Ok(next(CpuState { reg: r, ..s }))
        },
        None => Err(Fault::IllegalInstruction(w)),
    }
}

/// Family D: draw `N` bytes from the index register on at
/// (register `Y`, register `X`); register 15 tells whether a lit pixel
/// went dark.
pub open spec fn exec_d(s: CpuState, w: u16) -> Result<CpuState, Fault> {
    let col = s.reg[x_of(w)];
    let row = s.reg[y_of(w)];
    if col >= 64 {
        Err(Fault::ColumnOutOfRange(col))
    } else if s.i + n_of(w) > 4000 {
        Err(Fault::MemoryOutOfRange(s.i))
    } else {
        let drawn = draw_spec(s.frame, row, col, s.mem.subrange(s.i as int, s.i + n_of(w)));
        Ok(
            next(
                CpuState {
                    frame: drawn.0,
                    reg: s.reg.update(15, if drawn.1 { 1u8 } else { 0u8 }),
                    ..s
                },
            ),
        )
    }
}

/// Family E: take one input sample, then skip on whether the key named by
/// register `X` is pressed (`9E`) or not (`A1`).
pub open spec fn exec_e(s: CpuState, w: u16, sample: Option<u8>) -> Result<CpuState, Fault> {
    let key = s.reg[x_of(w)];
    if nn_of(w) != 0x9E && nn_of(w) != 0xA1 {
        Err(Fault::IllegalInstruction(w))
    } else if key >= 16 {
        Err(Fault::KeyOutOfRange(key))
    } else {
        let k = sample_spec(s.keys, sample);
        Ok(skip_if(CpuState { keys: k, ..s }, k.keys[key as int] == (nn_of(w) == 0x9E)))
    }
}

/// Family F.
pub open spec fn exec_f(s: CpuState, w: u16, sample: Option<u8>) -> Result<CpuState, Fault> {
    let x = x_of(w);
    let v = s.reg[x];
    let op = nn_of(w);
    if op == 0x07 {
        Ok(next(CpuState { reg: s.reg.update(x, s.delay), ..s }))
    } else if op == 0x0A {
        // One poll for a key; without one the instruction stays put and is
        // polled again at the next step.
        let k = sample_spec(KeyState { last_key: None, ..s.keys }, sample);
        match k.last_key {
            Some(c) => Ok(next(CpuState { keys: k, reg: s.reg.update(x, c), ..s })),
            None => Ok(CpuState { keys: k, ..s }),
        }
    } else if op == 0x15 {
        Ok(next(CpuState { delay: v, ..s }))
    } else if op == 0x18 {
        Ok(next(CpuState { sound: v, ..s }))
    } else if op == 0x1E {
        Ok(next(CpuState { i: ((s.i + v) % 0x10000) as u16, ..s }))
    } else if op == 0x29 {
        Ok(next(CpuState { i: (v * 5) as u16, ..s }))
    } else if op == 0x33 {
        if s.i + 3 > 4000 {
            Err(Fault::MemoryOutOfRange(s.i))
        } else {
            let m = s.mem.update(s.i as int, (v / 100) as u8).update(s.i + 1, ((v / 10) % 10) as u8).update(
                s.i + 2,
                (v % 10) as u8,
            );
            Ok(next(CpuState { mem: m, ..s }))
        }
    } else if op == 0x55 {
        if s.i + x + 1 > 4000 {
            Err(Fault::MemoryOutOfRange(s.i))
        } else {
            let m = splice(s.mem, s.i as int, s.reg.subrange(0, x + 1));
            Ok(next(CpuState { mem: m, i: (s.i + 8) as u16, ..s }))
        }
    } else if op == 0x65 {
        if s.i + x + 1 > 4000 {
            Err(Fault::MemoryOutOfRange(s.i))
        } else {
            let r = splice(s.reg, 0, s.mem.subrange(s.i as int, s.i + x + 1));
            Ok(next(CpuState { reg: r, i: (s.i + 8) as u16, ..s }))
        }
    } else {
        Err(Fault::IllegalInstruction(w))
    }
}

/// Execution of instruction word `w` in state `s`. `rnd` is the random
/// byte that family C uses; `sample` is what the input sampler delivers to
/// an instruction that reads the keys. Neither matters to other
/// instructions.
pub open spec fn exec_spec(s: CpuState, w: u16, rnd: u8, sample: Option<u8>) -> Result<CpuState, Fault> {
    let f = family_of(w);
    let x = x_of(w);
    let nn = nn_of(w);
    let nnn = payload_of(w);
    if f == 0 {
        exec_0(s, w)
    } else if f == 1 {
        Ok(CpuState { pc: nnn, ..s })
    } else if f == 2 {
        exec_2(s, w)
    } else if f == 3 {
        Ok(skip_if(s, s.reg[x] == nn))
    } else if f == 4 {
        Ok(skip_if(s, s.reg[x] != nn))
    } else if f == 5 {
        Ok(skip_if(s, s.reg[x] == s.reg[y_of(w)]))
    } else if f == 6 {
        Ok(next(CpuState { reg: s.reg.update(x, nn as u8), ..s }))
    } else if f == 7 {
        Ok(next(CpuState { reg: s.reg.update(x, ((s.reg[x] + nn) % 256) as u8), ..s }))
    } else if f == 8 {
        exec_8(s, w)
    } else if f == 9 {
        Ok(skip_if(s, s.reg[x] != s.reg[y_of(w)]))
    } else if f == 10 {
        Ok(next(CpuState { i: nnn, ..s }))
    } else if f == 11 {
        Ok(CpuState { pc: (s.reg[0] + nnn) as u16, ..s })
    } else if f == 12 {
        Ok(next(CpuState { reg: s.reg.update(x, (nn as u8) & rnd), ..s }))
    } else if f == 13 {
        exec_d(s, w)
    } else if f == 14 {
        exec_e(s, w, sample)
    } else {
        exec_f(s, w, sample)
    }
}

/// One tick of both countdown timers.
pub open spec fn tick(s: CpuState) -> CpuState {
    CpuState {
        delay: if s.delay > 0 { (s.delay - 1) as u8 } else { 0u8 },
        sound: if s.sound > 0 { (s.sound - 1) as u8 } else { 0u8 },
        ..s
    }
}

/// The word at the program counter, where it lies in memory.
pub open spec fn fetch_spec(s: CpuState) -> Option<u16> {
    if s.pc + 1 < 4000 {
        Some(word_at(s.mem, s.pc as int))
    } else {
        None
    }
}

/// One step: fetch, execute, tick the timers.
pub open spec fn cycle_spec(s: CpuState, rnd: u8, sample: Option<u8>) -> Result<CpuState, Fault> {
    match fetch_spec(s) {
        None => Err(Fault::MemoryOutOfRange(s.pc)),
        Some(w) => match exec_spec(s, w, rnd, sample) {
            Ok(t) => Ok(tick(t)),
            Err(e) => Err(e),
        },
    }
}

/// `post` and `r` are what `expect` asks: the new state on success, the
/// fault and an unchanged state otherwise.
pub open spec fn applied(pre: CpuState, post: CpuState, r: Result<(), Fault>, expect: Result<CpuState, Fault>) -> bool {
    match expect {
        Ok(t) => r is Ok && post == t,
        Err(e) => r == Err::<(), Fault>(e) && post == pre,
    }
}


/// Relies on `rand::random::<u8>`: a byte drawn from the thread's random
/// generator. Nothing is promised of its value.
#[verifier::external_body]
fn random_byte() -> (r: u8) {
    rand::random::<u8>()
}

/// `r` and `post` are what `expect` asks of one step that fetched from
/// `pre`: on success the executed word and the new state, otherwise the
/// fault and an unchanged state.
pub open spec fn stepped(pre: CpuState, post: CpuState, r: Result<Opcode, Fault>, expect: Result<CpuState, Fault>) -> bool {
    match expect {
        Ok(t) => match r {
            Ok(op) => op@ == word_at(pre.mem, pre.pc as int) && post == t,
            Err(_) => false,
        },
        Err(e) => r == Err::<Opcode, Fault>(e) && post == pre,
    }
}

/// Whether the instruction word takes a random byte or an input sample.
pub open spec fn reads_outside(w: u16) -> bool {
    family_of(w) == 12 || (family_of(w) == 14 && (nn_of(w) == 0x9E || nn_of(w) == 0xA1)) || (
    family_of(w) == 15 && nn_of(w) == 0x0A)
}

proof fn lemma_fields(w: u16)
    ensures
        ((w >> 8u16) & 0xFu16) == x_of(w),
        ((w >> 4u16) & 0xFu16) == y_of(w),
        (w & 0xFu16) == n_of(w),
        (w & 0xFFu16) == nn_of(w),
        (w & 0xFFFu16) == payload_of(w),
{
    assert(((w >> 8u16) & 0xFu16) == (w / 256) % 16) by (bit_vector);
    assert(((w >> 4u16) & 0xFu16) == (w / 16) % 16) by (bit_vector);
    assert((w & 0xFu16) == w % 16) by (bit_vector);
    assert((w & 0xFFu16) == w % 256) by (bit_vector);
    assert((w & 0xFFFu16) == w % 4096) by (bit_vector);
}

fn alu_exec(a: u8, b: u8, op: u16) -> (r: Option<(u8, Option<u8>)>)
    ensures
        r == alu(a, b, op as int),
{
    if op == 0 {
        Some((b, None))
    } else if op == 1 {
        Some((a | b, None))
    } else if op == 2 {
        Some((a & b, None))
    } else if op == 3 {
        Some((a ^ b, None))
    } else if op == 4 {
        let sum = a as u16 + b as u16;
        Some(((sum % 256) as u8, Some(if sum > 255 { 1u8 } else { 0u8 })))
    } else if op == 5 {
        Some((((a as u16 + 256 - b as u16) % 256) as u8, Some(if a < b { 1u8 } else { 0u8 })))
    } else if op == 6 {
        Some((b / 2, Some(b % 2)))
    } else if op == 7 {
        Some((((b as u16 + 256 - a as u16) % 256) as u8, Some(if b < a { 1u8 } else { 0u8 })))
    } else if op == 14 {
        Some((((b as u16 * 2) % 256) as u8, Some(b / 128)))
    } else {
        None
    }
}

/// The interpreter: registers, program counter, call stack and timers,
/// with the memory, frame buffer and key pad that it owns.
pub struct CPU {
    sound_reg: u8,
    delay_reg: u8,
    stack: Vec<u16>,
    pc: u16,
    i: u16,
    reg: [u8; 16],
    ram: RAM,
    display: Display,
    keyboard: Keyboard,
}

impl View for CPU {
    type V = CpuState;

    closed spec fn view(&self) -> CpuState {
        CpuState {
            reg: self.reg@,
            i: self.i,
            pc: self.pc,
            stack: self.stack@,
            delay: self.delay_reg,
            sound: self.sound_reg,
            mem: self.ram@,
            frame: self.display@,
            keys: self.keyboard@,
        }
    }
}

impl CPU {
    /// A machine at rest on the given memory, frame and key pad: registers
    /// zero, program counter at the program start, stack empty.
    pub fn init(ram: RAM, display: Display, keyboard: Keyboard) -> (r: CPU)
        ensures
            r@ == (CpuState {
                reg: Seq::new(16, |j: int| 0u8),
                i: 0,
                pc: 0x200,
                stack: Seq::empty(),
                delay: 0,
                sound: 0,
                mem: ram@,
                frame: display@,
                keys: keyboard@,
            }),
    {
        let r = CPU {
            sound_reg: 0,
            delay_reg: 0,
            stack: Vec::new(),
            pc: 0x200,
            i: 0,
            reg: [0u8; 16],
            ram,
            display,
            keyboard,
        };
        assert(r@.reg =~= Seq::new(16, |j: int| 0u8));
        r
    }

    fn run_0(&mut self, w: u16) -> (r: Result<(), Fault>)
        requires
            family_of(w) == 0,
            old(self)@.pc + 1 < 4000,
        ensures
            applied(old(self)@, final(self)@, r, exec_0(old(self)@, w)),
    {
        if w == 0x00E0 {
            self.display.clear();
            self.pc = self.pc + 2;
            Ok(())
        } else if w == 0x00EE {
            match self.stack.pop() {
                Some(ret) => {
                    self.pc = ((ret as u32 + 2) % 0x10000) as u16;
                    Ok(())
                },
                None => Err(Fault::StackUnderflow),
            }
        } else {
            Err(Fault::IllegalInstruction(w))
        }
    }

    fn run_8(&mut self, w: u16) -> (r: Result<(), Fault>)
        requires
            family_of(w) == 8,
            old(self)@.pc + 1 < 4000,
        ensures
            applied(old(self)@, final(self)@, r, exec_8(old(self)@, w)),
    {
        proof { lemma_fields(w); }
        let x = ((w >> 8) & 0xF) as usize;
        let y = ((w >> 4) & 0xF) as usize;
        match alu_exec(self.reg[x], self.reg[y], w & 0xF) {
            Some((v, flag)) => {
                self.reg[x] = v;
                if let Some(f) = flag {
                    self.reg[15] = f;
                }
                self.pc = self.pc + 2;
                Ok(())
            },
            None => Err(Fault::IllegalInstruction(w)),
        }
    }

    fn run_d(&mut self, w: u16) -> (r: Result<(), Fault>)
        requires
            family_of(w) == 13,
            old(self)@.pc + 1 < 4000,
        ensures
            applied(old(self)@, final(self)@, r, exec_d(old(self)@, w)),
    {
        proof { lemma_fields(w); }
        let x = ((w >> 8) & 0xF) as usize;
        let y = ((w >> 4) & 0xF) as usize;
        let n = (w & 0xF) as usize;
        let col = self.reg[x];
        let row = self.reg[y];
        if col >= 64 {
            return Err(Fault::ColumnOutOfRange(col));
        }
        let start = self.i as usize;
        if start + n > 4000 {
            return Err(Fault::MemoryOutOfRange(self.i));
        }
        let mut sprite: Vec<u8> = Vec::new();
        let mut k: usize = 0;
        while k < n
            invariant
                k <= n,
                start + n <= 4000,
                sprite@ =~= self.ram@.subrange(start as int, start + k),
            decreases n - k,
        {
            sprite.push(self.ram.get_mem8(start + k));
            k = k + 1;
        }
        let collision = self.display.set_sprite(row, col, sprite.as_slice());
        self.reg[15] = if collision { 1 } else { 0 };
        self.pc = self.pc + 2;
        Ok(())
    }

    fn run_e(&mut self, w: u16, sample: Option<u8>) -> (r: Result<(), Fault>)
        requires
            family_of(w) == 14,
            old(self)@.pc + 1 < 4000,
        ensures
            applied(old(self)@, final(self)@, r, exec_e(old(self)@, w, sample)),
    {
        proof { lemma_fields(w); }
        let x = ((w >> 8) & 0xF) as usize;
        let op = w & 0xFF;
        if op != 0x9E && op != 0xA1 {
            return Err(Fault::IllegalInstruction(w));
        }
        let key = self.reg[x];
        if key >= 16 {
            return Err(Fault::KeyOutOfRange(key));
        }
        self.keyboard.observe(sample);
        if self.keyboard.is_pressed(key as usize) == (op == 0x9E) {
            self.pc = self.pc + 4;
        } else {
            self.pc = self.pc + 2;
        }
        Ok(())
    }

    fn run_f(&mut self, w: u16, sample: Option<u8>) -> (r: Result<(), Fault>)
        requires
            family_of(w) == 15,
            old(self)@.pc + 1 < 4000,
        ensures
            applied(old(self)@, final(self)@, r, exec_f(old(self)@, w, sample)),
    {
        proof { lemma_fields(w); }
        let x = ((w >> 8) & 0xF) as usize;
        let op = w & 0xFF;
        let v = self.reg[x];
        if op == 0x07 {
            self.reg[x] = self.delay_reg;
        } else if op == 0x0A {
            self.keyboard.reset_last_key();
            self.keyboard.observe(sample);
            match self.keyboard.get_last_key() {
                Some(c) => {
                    self.reg[x] = c;
                },
                None => {
                    return Ok(());
                },
            }
        } else if op == 0x15 {
            self.delay_reg = v;
        } else if op == 0x18 {
            self.sound_reg = v;
        } else if op == 0x1E {
            self.i = ((self.i as u32 + v as u32) % 0x10000) as u16;
        } else if op == 0x29 {
            self.i = v as u16 * 5;
        } else if op == 0x33 {
            let start = self.i as usize;
            if start + 3 > 4000 {
                return Err(Fault::MemoryOutOfRange(self.i));
            }
            self.ram.set_mem8(start, v / 100);
            self.ram.set_mem8(start + 1, (v / 10) % 10);
            self.ram.set_mem8(start + 2, v % 10);
        } else if op == 0x55 {
            let start = self.i as usize;
            if start + x + 1 > 4000 {
                return Err(Fault::MemoryOutOfRange(self.i));
            }
            self.ram.copy_in(start, &self.reg, x + 1);
            self.i = self.i + 8;
        } else if op == 0x65 {
            let start = self.i as usize;
            if start + x + 1 > 4000 {
                return Err(Fault::MemoryOutOfRange(self.i));
            }
            self.ram.copy_out(start, &mut self.reg, x + 1);
            self.i = self.i + 8;
        } else {
            return Err(Fault::IllegalInstruction(w));
        }
        self.pc = self.pc + 2;
        Ok(())
    }

    fn run_opcode(&mut self, opcode: Opcode, rnd: u8, sample: Option<u8>) -> (r: Result<(), Fault>)
        requires
            old(self)@.pc + 1 < 4000,
        ensures
            applied(old(self)@, final(self)@, r, exec_spec(old(self)@, opcode@, rnd, sample)),
    {
        let w = opcode.0;
        proof { lemma_fields(w); }
        let x = ((w >> 8) & 0xF) as usize;
        let y = ((w >> 4) & 0xF) as usize;
        let nn = (w & 0xFF) as u8;
        let nnn = w & 0x0FFF;
        let f = opcode.op();
        if f == 0 {
            return self.run_0(w);
        } else if f == 1 {
            self.pc = nnn;
            return Ok(());
        } else if f == 2 {
            if self.stack.len() >= STACK_DEPTH {
                return Err(Fault::StackOverflow);
            }
            self.stack.push(self.pc);
            self.pc = nnn;
            return Ok(());
        } else if f == 3 {
            if self.reg[x] == nn {
                self.pc = self.pc + 2;
            }
        } else if f == 4 {
            if self.reg[x] != nn {
                self.pc = self.pc + 2;
            }
        } else if f == 5 {
            if self.reg[x] == self.reg[y] {
                self.pc = self.pc + 2;
            }
        } else if f == 6 {
            self.reg[x] = nn;
        } else if f == 7 {
            self.reg[x] = ((self.reg[x] as u16 + nn as u16) % 256) as u8;
        } else if f == 8 {
            return self.run_8(w);
        } else if f == 9 {
            if self.reg[x] != self.reg[y] {
                self.pc = self.pc + 2;
            }
        } else if f == 10 {
            self.i = nnn;
        } else if f == 11 {
            self.pc = self.reg[0] as u16 + nnn;
            return Ok(());
        } else if f == 12 {
            self.reg[x] = nn & rnd;
        } else if f == 13 {
            return self.run_d(w);
        } else if f == 14 {
            return self.run_e(w, sample);
        } else {
            return self.run_f(w, sample);
        }
        self.pc = self.pc + 2;
        Ok(())
    }

    fn fetch(&self) -> (r: Result<Opcode, Fault>)
        ensures
            match fetch_spec(self@) {
                Some(w) => r == Ok::<Opcode, Fault>(Opcode(w)),
                None => r == Err::<Opcode, Fault>(Fault::MemoryOutOfRange(self@.pc)),
            },
    {
        if self.pc as usize + 1 < 4000 {
            Ok(Opcode::from_rom(self.ram.get_mem16(self.pc as usize)))
        } else {
            Err(Fault::MemoryOutOfRange(self.pc))
        }
    }

    /// One tick of both countdown timers.
    pub fn dec_delay(&mut self)
        ensures
            final(self)@ == tick(old(self)@),
    {
        if self.sound_reg > 0 {
            self.sound_reg = self.sound_reg - 1;
        }
        if self.delay_reg > 0 {
            self.delay_reg = self.delay_reg - 1;
        }
    }

    /// One step with the outside inputs given: `rnd` is the random byte for
    /// family C, `sample` what the input sampler delivers to an instruction
    /// that reads the keys. Returns the executed word.
    pub fn run_cycle_with(&mut self, rnd: u8, sample: Option<u8>) -> (r: Result<Opcode, Fault>)
        ensures
            stepped(old(self)@, final(self)@, r, cycle_spec(old(self)@, rnd, sample)),
    {
        let opcode = match self.fetch() {
            Ok(op) => op,
            Err(e) => return Err(e),
        };
        match self.run_opcode(opcode, rnd, sample) {
            Ok(()) => {
                self.dec_delay();
                Ok(opcode)
            },
            Err(e) => Err(e),
        }
    }

    /// One step: fetches the instruction at the program counter, executes
    /// it and ticks the timers. A random byte is drawn only for family C,
    /// and the input sampler is read only by an instruction that reads the
    /// keys. Returns the executed word, or the fault that stopped the step
    /// with the machine unchanged.
    pub fn run_cycle(&mut self) -> (r: Result<Opcode, Fault>)
        ensures
            exists|rnd: u8, sample: Option<u8>|
                stepped(old(self)@, final(self)@, r, cycle_spec(old(self)@, rnd, sample)),
            match fetch_spec(old(self)@) {
                Some(w) => !reads_outside(w) ==> stepped(
                    old(self)@,
                    final(self)@,
                    r,
                    cycle_spec(old(self)@, 0, None),
                ),
                None => r == Err::<Opcode, Fault>(Fault::MemoryOutOfRange(old(self)@.pc)),
            },
    {
        let opcode = match self.fetch() {
            Ok(op) => op,
            Err(e) => return Err(e),
        };
        let w = opcode.0;
        proof { lemma_fields(w); }
        let f = opcode.op();
        let nn = w & 0xFF;
        let rnd = if f == 12 {
            random_byte()
        } else {
            0
        };
        let sample = if (f == 14 && (nn == 0x9E || nn == 0xA1)) || (f == 15 && nn == 0x0A) {
            self.keyboard.next_byte()
        } else {
            None
        };
        proof {
            assert(!reads_outside(w) ==> cycle_spec(self@, rnd, sample) == cycle_spec(self@, 0, None));
        }
        self.run_cycle_with(rnd, sample)
    }

    /// Loads the font glyphs at the lowest addresses and the program image
    /// at the program start.
    pub fn load_rom(&mut self, rom: &[u8])
        requires
            rom@.len() <= 4000 - 0x200,
        ensures
            final(self)@ == (CpuState {
                mem: splice(splice(old(self)@.mem, 0, font_glyphs()), 0x200, rom@),
                ..old(self)@
            }),
    {
        self.ram.load_fontset();
        self.ram.load_rom(rom);
    }

    /// Takes one sample from the input sampler, if a byte is waiting.
    pub fn read_input(&mut self)
        ensures
            exists|byte: Option<u8>|
                final(self)@ == (CpuState { keys: #[trigger] sample_spec(old(self)@.keys, byte), ..old(self)@ }),
    {
        self.keyboard.read_input();
    }

    /// Whether the exit byte has been seen.
    pub fn exit_key(&self) -> (r: bool)
        ensures
            r == self@.keys.exit,
    {
        self.keyboard.exit_key()
    }

    /// The frame buffer, for a renderer.
    pub fn display(&self) -> (r: &Display)
        ensures
            r@ == self@.frame,
    {
        &self.display
    }

    /// The key pad, for a renderer.
    pub fn keyboard(&self) -> (r: &Keyboard)
        ensures
            r@ == self@.keys,
    {
        &self.keyboard
    }

    /// A copy of all 32 frame rows.
    pub fn get_display(&self) -> (r: [u64; 32])
        ensures
            r@ == self@.frame,
    {
        self.display.get_display()
    }

    pub fn get_reg(&self, x: usize) -> (r: u8)
        requires
            x < 16,
        ensures
            r == self@.reg[x as int],
    {
        self.reg[x]
    }

    /// Register 15, the flag register.
    pub fn get_carry(&self) -> (r: u8)
        ensures
            r == self@.reg[15],
    {
        self.get_reg(15)
    }

    pub fn get_delay(&self) -> (r: u8)
        ensures
            r == self@.delay,
    {
        self.delay_reg
    }

    pub fn get_sound(&self) -> (r: u8)
        ensures
            r == self@.sound,
    {
        self.sound_reg
    }

    pub fn get_i(&self) -> (r: u16)
        ensures
            r == self@.i,
    {
        self.i
    }

    pub fn get_key(&self, key: usize) -> (r: bool)
        requires
            key < 16,
        ensures
            r == self@.keys.keys[key as int],
    {
        self.keyboard.is_pressed(key)
    }

    /// The byte at the index register.
    pub fn get_at_i(&self) -> (r: u8)
        requires
            self@.i < 4000,
        ensures
            r == self@.mem[self@.i as int],
    {
        self.ram.get_mem8(self.i as usize)
    }
}


/// For `X` other than 15 and any `Y`: `8XY4` leaves the sum of the two
/// register values modulo 256 in register `X`, and in register 15 a 1 where
/// the sum passes 255, else 0. (With `X` = 15 the flag overwrites the sum.)
pub proof fn lemma_add_with_carry(s: CpuState, x: int, y: int, rnd: u8, sample: Option<u8>)
    requires
        0 <= x < 15,
        0 <= y < 16,
        s.reg.len() == 16,
        s.pc + 1 < 4000,
        word_at(s.mem, s.pc as int) == 0x8004 + x * 256 + y * 16,
    ensures
        cycle_spec(s, rnd, sample) matches Ok(t) && t.reg[x] == (s.reg[x] + s.reg[y]) % 256
            && t.reg[15] == (if s.reg[x] + s.reg[y] > 255 { 1int } else { 0int }) && t.pc == s.pc + 2,
{
    let w = word_at(s.mem, s.pc as int);
    assert(w / 4096 == 8 && (w / 256) % 16 == x && (w / 16) % 16 == y && w % 16 == 4) by (nonlinear_arith)
        requires
            w == 0x8004 + x * 256 + y * 16,
            0 <= x < 15,
            0 <= y < 16,
    ;
    assert(exec_spec(s, w, rnd, sample) == exec_8(s, w));
}

/// A call to `addr` whose first instruction is a return comes back to
/// the instruction after the call, with the stack as it was.
pub proof fn lemma_call_then_return(
    s: CpuState,
    addr: u16,
    rnd1: u8,
    sample1: Option<u8>,
    rnd2: u8,
    sample2: Option<u8>,
)
    requires
        s.pc + 1 < 4000,
        addr < 4096,
        addr + 1 < 4000,
        s.stack.len() < STACK_DEPTH,
        word_at(s.mem, s.pc as int) == 0x2000 + addr,
        word_at(s.mem, addr as int) == 0x00EE,
    ensures
        cycle_spec(s, rnd1, sample1) matches Ok(t) && t.pc == addr && (cycle_spec(t, rnd2, sample2) matches Ok(
            u,
        ) && u.pc == s.pc + 2 && u.stack == s.stack),
{
    let w = word_at(s.mem, s.pc as int);
    assert(w / 4096 == 2 && w % 4096 == addr) by (nonlinear_arith)
        requires
            w == 0x2000 + addr,
            addr < 4096,
    ;
    assert(exec_spec(s, w, rnd1, sample1) == exec_2(s, w));
    let t = cycle_spec(s, rnd1, sample1)->Ok_0;
    assert(t.mem == s.mem);
    assert(fetch_spec(t) == Some(0x00EEu16));
    assert(exec_spec(t, 0x00EE, rnd2, sample2) == exec_0(t, 0x00EE));
    assert(t.stack.drop_last() =~= s.stack);
}

/// `FX55` with `X` = 7 stores registers 0 to 7 at the index register and
/// moves it on by 8. Once the index register is back at that address and
/// those eight bytes are untouched, `F765` gives the registers their old
/// values again, whatever they held meanwhile, and again moves the index
/// register on by 8.
pub proof fn lemma_dump_then_load(
    s: CpuState,
    t: CpuState,
    rnd1: u8,
    sample1: Option<u8>,
    rnd2: u8,
    sample2: Option<u8>,
)
    requires
        s.reg.len() == 16,
        s.mem.len() == 4000,
        s.pc + 1 < 4000,
        s.i + 8 <= 4000,
        word_at(s.mem, s.pc as int) == 0xF755,
        t.reg.len() == 16,
        t.mem.len() == 4000,
        t.pc + 1 < 4000,
        word_at(t.mem, t.pc as int) == 0xF765,
        t.i == s.i,
    ensures
        cycle_spec(s, rnd1, sample1) matches Ok(d) && d.i == s.i + 8 && d.mem.subrange(
            s.i as int,
            s.i + 8,
        ) == s.reg.subrange(0, 8) && (t.mem.subrange(s.i as int, s.i + 8) == d.mem.subrange(
            s.i as int,
            s.i + 8,
        ) ==> (cycle_spec(t, rnd2, sample2) matches Ok(u) && u.i == s.i + 8 && u.reg.subrange(0, 8)
            == s.reg.subrange(0, 8))),
{
    let w = word_at(s.mem, s.pc as int);
    assert(family_of(w) == 15 && x_of(w) == 7 && nn_of(w) == 0x55);
    let w2 = word_at(t.mem, t.pc as int);
    assert(family_of(w2) == 15 && x_of(w2) == 7 && nn_of(w2) == 0x65);
    let d = cycle_spec(s, rnd1, sample1)->Ok_0;
    assert(d.mem.subrange(s.i as int, s.i + 8) =~= s.reg.subrange(0, 8));
    if t.mem.subrange(s.i as int, s.i + 8) == d.mem.subrange(s.i as int, s.i + 8) {
        let u = cycle_spec(t, rnd2, sample2)->Ok_0;
        assert(u.reg.subrange(0, 8) =~= t.mem.subrange(s.i as int, s.i + 8));
    }
}

/// The condition on which a skip instruction (families 3, 4, 5 and 9)
/// skips.
pub open spec fn skip_holds(s: CpuState, w: u16) -> bool {
    let f = family_of(w);
    let a = s.reg[x_of(w)];
    if f == 3 {
        a == nn_of(w)
    } else if f == 4 {
        a != nn_of(w)
    } else if f == 5 {
        a == s.reg[y_of(w)]
    } else {
        a != s.reg[y_of(w)]
    }
}

/// A skip instruction moves the program counter on by 4 where its
/// condition holds and by 2 where it does not.
pub proof fn lemma_skip(s: CpuState, rnd: u8, sample: Option<u8>)
    requires
        s.pc + 1 < 4000,
        family_of(word_at(s.mem, s.pc as int)) == 3 || family_of(word_at(s.mem, s.pc as int)) == 4
            || family_of(word_at(s.mem, s.pc as int)) == 5 || family_of(word_at(s.mem, s.pc as int))
            == 9,
    ensures
        cycle_spec(s, rnd, sample) matches Ok(t) && t.pc == s.pc + (if skip_holds(
            s,
            word_at(s.mem, s.pc as int),
        ) {
            4int
        } else {
            2int
        }),
{
}

} // verus!
