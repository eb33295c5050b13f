use vstd::prelude::*;

verus! {

/// Number of addressable bytes.
pub const MEM_SIZE: usize = 4000;

/// Address at which a program image is loaded.
pub const PROGRAM_START: usize = 0x200;

/// The sixteen hexadecimal glyphs, five rows of one byte each, glyph `d`
/// at offset `5 * d`.
pub open spec fn font_glyphs() -> Seq<u8> {
    seq![
        0xF0u8, 0x90u8, 0x90u8, 0x90u8, 0xF0u8,
        0x20u8, 0x60u8, 0x20u8, 0x20u8, 0x70u8,
        0xF0u8, 0x10u8, 0xF0u8, 0x80u8, 0xF0u8,
        0xF0u8, 0x10u8, 0xF0u8, 0x10u8, 0xF0u8,
        0x90u8, 0x90u8, 0xF0u8, 0x10u8, 0x10u8,
        0xF0u8, 0x80u8, 0xF0u8, 0x10u8, 0xF0u8,
        0xF0u8, 0x80u8, 0xF0u8, 0x90u8, 0xF0u8,
        0xF0u8, 0x10u8, 0x20u8, 0x40u8, 0x40u8,
        0xF0u8, 0x90u8, 0xF0u8, 0x90u8, 0xF0u8,
        0xF0u8, 0x90u8, 0xF0u8, 0x10u8, 0xF0u8,
        0xF0u8, 0x90u8, 0xF0u8, 0x90u8, 0x90u8,
        0xE0u8, 0x90u8, 0xE0u8, 0x90u8, 0xE0u8,
        0xF0u8, 0x80u8, 0x80u8, 0x80u8, 0xF0u8,
        0xE0u8, 0x90u8, 0x90u8, 0x90u8, 0xE0u8,
        0xF0u8, 0x80u8, 0xF0u8, 0x80u8, 0xF0u8,
        0xF0u8, 0x80u8, 0xF0u8, 0x80u8, 0x80u8,
    ]
}

/// `m` with `data` written over it from address `pos` on.
pub open spec fn splice(m: Seq<u8>, pos: int, data: Seq<u8>) -> Seq<u8> {
    Seq::new(
        m.len(),
        |j: int|
            if pos <= j < pos + data.len() {
                data[j - pos]
            } else {
                m[j]
            },
    )
}

/// The big-endian word at `pos`: high byte at `pos`, low byte after it.
pub open spec fn word_at(m: Seq<u8>, pos: int) -> u16 {
    (m[pos] * 256 + m[pos + 1]) as u16
}

/// The machine's memory: program, data and font glyphs.
pub struct RAM(pub [u8; 4000]);

impl View for RAM {
    type V = Seq<u8>;

    open spec fn view(&self) -> Seq<u8> {
        self.0@
    }
}

proof fn lemma_word_bytes(v: u16)
    ensures
        ((v >> 8u16) as u8) == v / 256,
        ((v & 0xFFu16) as u8) == v % 256,
{
    assert(((v >> 8u16) as u8) == v / 256) by (bit_vector);
    assert(((v & 0xFFu16) as u8) == v % 256) by (bit_vector);
}

proof fn lemma_bytes_word(a: u8, b: u8)
    ensures
        (((a as u16) << 8u16) | (b as u16)) == a * 256 + b,
{
    assert((((a as u16) << 8u16) | (b as u16)) == a * 256 + b) by (bit_vector);
}

impl RAM {
    pub fn init() -> (r: RAM)
        ensures
            r@ == Seq::new(4000, |j: int| 0u8),
    {
        let r = RAM([0u8; 4000]);
        assert(r@ =~= Seq::new(4000, |j: int| 0u8));
        r
    }

    /// Writes the font glyphs at the lowest addresses.
    pub fn load_fontset(&mut self)
        ensures
            final(self)@ == splice(old(self)@, 0, font_glyphs()),
    {
        let fontset: [u8; 80] = [
            0xF0, 0x90, 0x90, 0x90, 0xF0,
            0x20, 0x60, 0x20, 0x20, 0x70,
            0xF0, 0x10, 0xF0, 0x80, 0xF0,
            0xF0, 0x10, 0xF0, 0x10, 0xF0,
            0x90, 0x90, 0xF0, 0x10, 0x10,
            0xF0, 0x80, 0xF0, 0x10, 0xF0,
            0xF0, 0x80, 0xF0, 0x90, 0xF0,
            0xF0, 0x10, 0x20, 0x40, 0x40,
            0xF0, 0x90, 0xF0, 0x90, 0xF0,
            0xF0, 0x90, 0xF0, 0x10, 0xF0,
            0xF0, 0x90, 0xF0, 0x90, 0x90,
            0xE0, 0x90, 0xE0, 0x90, 0xE0,
            0xF0, 0x80, 0x80, 0x80, 0xF0,
            0xE0, 0x90, 0x90, 0x90, 0xE0,
            0xF0, 0x80, 0xF0, 0x80, 0xF0,
            0xF0, 0x80, 0xF0, 0x80, 0x80,
        ];
        assert(fontset@ =~= font_glyphs());
        self.copy_in(0, &fontset, 80);
        assert(fontset@.subrange(0, 80) =~= fontset@);
    }

    /// Writes the first `count` bytes of `data` from address `pos` on.
    pub fn copy_in(&mut self, pos: usize, data: &[u8], count: usize)
        requires
            count <= data@.len(),
            pos + count <= 4000,
        ensures
            final(self)@ == splice(old(self)@, pos as int, data@.subrange(0, count as int)),
    {
        let mut k: usize = 0;
        while k < count
            invariant
                count <= data@.len(),
                k <= count,
                pos + count <= 4000,
                self@.len() == 4000,
                self@ =~= splice(old(self)@, pos as int, data@.subrange(0, k as int)),
            decreases count - k,
        {
            self.0[pos + k] = data[k];
            k = k + 1;
        }
    }

    /// Reads `count` bytes from address `pos` on into the front of `regs`.
    pub fn copy_out(&self, pos: usize, regs: &mut [u8; 16], count: usize)
        requires
            count <= 16,
            pos + count <= 4000,
        ensures
            final(regs)@ == splice(old(regs)@, 0, self@.subrange(pos as int, pos + count)),
    {
        let mut k: usize = 0;
        while k < count
            invariant
                count <= 16,
                k <= count,
                pos + count <= 4000,
                regs@ =~= splice(old(regs)@, 0, self@.subrange(pos as int, pos + k)),
            decreases count - k,
        {
            regs[k] = self.0[pos + k];
            k = k + 1;
        }
    }

    pub fn set_mem8(&mut self, pos: usize, val: u8)
        requires
            pos < 4000,
        ensures
            final(self)@ == old(self)@.update(pos as int, val),
    {
        self.0[pos] = val;
    }

    /// Writes `val` big-endian at `pos` and `pos + 1`.
    pub fn set_mem16(&mut self, pos: usize, val: u16)
        requires
            pos + 1 < 4000,
        ensures
            final(self)@ == old(self)@.update(pos as int, (val / 256) as u8).update(
                pos + 1,
                (val % 256) as u8,
            ),
    {
        proof { lemma_word_bytes(val); }
        self.0[pos] = (val >> 8) as u8;
        self.0[pos + 1] = (val & 0xFF) as u8;
    }

    pub fn get_mem8(&self, pos: usize) -> (r: u8)
        requires
            pos < 4000,
        ensures
            r == self@[pos as int],
    {
        self.0[pos]
    }

    /// Reads the big-endian word at `pos` and `pos + 1`.
    pub fn get_mem16(&self, pos: usize) -> (r: u16)
        requires
            pos + 1 < 4000,
        ensures
            r == word_at(self@, pos as int),
    {
        let a = self.0[pos];
        let b = self.0[pos + 1];
        proof { lemma_bytes_word(a, b); }
        ((a as u16) << 8) | (b as u16)
    }

    /// Copies the sixteen registers into memory from `pos` on.
    pub fn set_regs(&mut self, pos: usize, regs: &[u8; 16])
        requires
            pos + 16 <= 4000,
        ensures
            final(self)@ == splice(old(self)@, pos as int, regs@),
    {
        self.copy_in(pos, regs, 16);
        assert(regs@.subrange(0, 16) =~= regs@);
    }

    /// Copies sixteen bytes of memory from `pos` on into the registers.
    pub fn get_regs(&self, pos: usize, regs: &mut [u8; 16])
        requires
            pos + 16 <= 4000,
        ensures
            final(regs)@ == self@.subrange(pos as int, pos + 16),
    {
        self.copy_out(pos, regs, 16);
        assert(splice(old(regs)@, 0, self@.subrange(pos as int, pos + 16)) =~= self@.subrange(
            pos as int,
            pos + 16,
        ));
    }

    /// Copies a program image into memory from the program start on.
    pub fn load_rom(&mut self, rom: &[u8])
        requires
            rom@.len() <= 4000 - 0x200,
        ensures
            final(self)@ == splice(old(self)@, 0x200, rom@),
    {
        self.copy_in(PROGRAM_START, rom, rom.len());
        assert(rom@.subrange(0, rom@.len() as int) =~= rom@);
    }
}

} // verus!
