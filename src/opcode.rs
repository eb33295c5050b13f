use vstd::prelude::*;

verus! {

/// The top four bits of an instruction word: its family.
pub open spec fn family_of(w: u16) -> u16 {
    w / 4096
}

/// The low twelve bits of an instruction word: its payload.
pub open spec fn payload_of(w: u16) -> u16 {
    w % 4096
}

/// The character of one hexadecimal digit, upper case.
pub open spec fn hex_char(d: int) -> char {
    if d < 10 {
        ((d + 48) as u8) as char
    } else {
        ((d + 55) as u8) as char
    }
}

/// The digits of `n` in base sixteen, most significant first, without
/// leading zeros (zero itself is the single digit `0`).
pub open spec fn hex_digits(n: nat) -> Seq<char>
    decreases n,
{
    if n < 16 {
        seq![hex_char(n as int)]
    } else {
        hex_digits(n / 16) + seq![hex_char((n % 16) as int)]
    }
}

/// One fetched instruction word.
#[derive(PartialEq, Eq, Structural, Debug, Clone, Copy)]
pub struct Opcode(pub u16);

impl View for Opcode {
    type V = u16;

    open spec fn view(&self) -> u16 {
        self.0
    }
}

fn hex_digit_str(d: u16) -> (r: &'static str)
    requires
        d < 16,
    ensures
        r@ == seq![hex_char(d as int)],
{
    match d {
        0 => { proof { reveal_strlit("0"); } "0" },
        1 => { proof { reveal_strlit("1"); } "1" },
        2 => { proof { reveal_strlit("2"); } "2" },
        3 => { proof { reveal_strlit("3"); } "3" },
        4 => { proof { reveal_strlit("4"); } "4" },
        5 => { proof { reveal_strlit("5"); } "5" },
        6 => { proof { reveal_strlit("6"); } "6" },
        7 => { proof { reveal_strlit("7"); } "7" },
        8 => { proof { reveal_strlit("8"); } "8" },
        9 => { proof { reveal_strlit("9"); } "9" },
        10 => { proof { reveal_strlit("A"); } "A" },
        11 => { proof { reveal_strlit("B"); } "B" },
        12 => { proof { reveal_strlit("C"); } "C" },
        13 => { proof { reveal_strlit("D"); } "D" },
        14 => { proof { reveal_strlit("E"); } "E" },
        _ => { proof { reveal_strlit("F"); } "F" },
    }
}

fn append_hex(s: &mut String, n: u16)
    ensures
        final(s)@ == old(s)@ + hex_digits(n as nat),
    decreases n,
{
    if n >= 16 {
        append_hex(s, n / 16);
    }
    s.append(hex_digit_str(n % 16));
}

impl Opcode {
    pub fn from_rom(a: u16) -> (r: Opcode)
        ensures
            r@ == a,
    {
        Opcode(a)
    }

    /// The instruction family (top nibble).
    pub fn op(&self) -> (r: u8)
        ensures
            r == family_of(self@),
    {
        let w = self.0;
        assert((w >> 12u16) == w / 4096) by (bit_vector);
        (w >> 12) as u8
    }

    /// The payload (low twelve bits).
    pub fn data(&self) -> (r: u16)
        ensures
            r == payload_of(self@),
    {
        let w = self.0;
        assert((w & 0x0FFFu16) == w % 4096) by (bit_vector);
        w & 0x0FFF
    }

    /// The word as `0x` followed by its upper-case hexadecimal digits.
    pub fn to_string(&self) -> (r: String)
        ensures
            r@ == seq!['0', 'x'] + hex_digits(self@ as nat),
    {
        let mut s = String::new();
        proof { reveal_strlit("0x"); }
        s.append("0x");
        append_hex(&mut s, self.0);
        s
    }
}

} // verus!
