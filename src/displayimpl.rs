use crate::display::Display;
use crate::keyboard::Keyboard;
use vstd::prelude::*;

verus! {

/// A renderer of the frame buffer and the key pad.
pub trait DisplayImpl {
    fn draw(&self, screen: &Display, keys: &Keyboard);
}

/// One frame row as text: `#` for a lit pixel, a space for a dark one,
/// column 0 first.
pub open spec fn row_text(row: u64) -> Seq<char> {
    Seq::new(64, |i: int| if (row >> ((63 - i) as u64)) & 1u64 != 0u64 { '#' } else { ' ' })
}

/// The key flags as text: `*` for a pressed key, `_` for a free one.
pub open spec fn keys_text(keys: Seq<bool>) -> Seq<char> {
    Seq::new(keys.len(), |i: int| if keys[i] { '*' } else { '_' })
}

/// Text rendering of the frame buffer and the key pad.
pub struct AsciiDisplay();

impl AsciiDisplay {
    pub fn row_to_ascii(&self, row: u64) -> (r: String)
        ensures
            r@ == row_text(row),
    {
        let mut s = String::new();
        let mut i: u64 = 0;
        while i < 64
            invariant
                i <= 64,
                s@ == row_text(row).subrange(0, i as int),
            decreases 64 - i,
        {
            if (row >> (63 - i)) & 1 != 0 {
                s.append("#");
            } else {
                s.append(" ");
            }
            proof {
                reveal_strlit("#");
                reveal_strlit(" ");
                assert("#"@ =~= seq!['#']);
                assert(" "@ =~= seq![' ']);
            }
            i = i + 1;
            assert(s@ =~= row_text(row).subrange(0, i as int));
        }
        assert(row_text(row).subrange(0, 64) =~= row_text(row));
        s
    }

    pub fn keys_to_ascii(&self, keys: &[bool; 16]) -> (r: String)
        ensures
            r@ == keys_text(keys@),
    {
        let mut s = String::new();
        let mut i: usize = 0;
        while i < 16
            invariant
                i <= 16,
                s@ == keys_text(keys@).subrange(0, i as int),
            decreases 16 - i,
        {
            if keys[i] {
                s.append("*");
            } else {
                s.append("_");
            }
            proof {
                reveal_strlit("*");
                reveal_strlit("_");
                assert("*"@ =~= seq!['*']);
                assert("_"@ =~= seq!['_']);
            }
            i = i + 1;
            assert(s@ =~= keys_text(keys@).subrange(0, i as int));
        }
        assert(keys_text(keys@).subrange(0, 16) =~= keys_text(keys@));
        s
    }
}

} // verus!
