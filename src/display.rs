use vstd::arithmetic::div_mod::lemma_add_mod_noop;
use vstd::prelude::*;

verus! {

/// The all-blank frame.
pub open spec fn blank_frame() -> Seq<u64> {
    Seq::new(32, |r: int| 0u64)
}

/// Whether pixel (`row`, `col`) of frame `f` is lit.
pub open spec fn pixel(f: Seq<u64>, row: int, col: int) -> bool {
    (f[row] >> ((63 - col) as u64)) & 1u64 != 0u64
}

/// The bits that sprite byte `b`, drawn from column `col` on, sets in its
/// own row.
pub open spec fn main_bits(col: u8, b: u8) -> u64 {
    if col <= 56 {
        (b as u64) << ((56 - col) as u64)
    } else {
        (b as u64) >> ((col - 56) as u64)
    }
}

/// The bits that sprite byte `b`, drawn from column `col` on, carries past
/// column 63 into the following row.
pub open spec fn spill_bits(col: u8, b: u8) -> u64 {
    if col <= 56 {
        0u64
    } else {
        (b as u64) << ((120 - col) as u64)
    }
}

/// XOR of one sprite byte into frame `f` with its leftmost pixel at
/// (`r`, `col`), for `r < 32` and `col < 64`. Pixels that pass column 63
/// continue at column 0 of the following row (row 0 after row 31). The
/// boolean says whether a lit pixel was covered by a set sprite bit.
pub open spec fn draw_row_spec(f: Seq<u64>, r: int, col: u8, b: u8) -> (Seq<u64>, bool) {
    let m1 = main_bits(col, b);
    if col <= 56 {
        (f.update(r, f[r] ^ m1), f[r] & m1 != 0)
    } else {
        let m2 = spill_bits(col, b);
        let r2 = (r + 1) % 32;
        let g = f.update(r, f[r] ^ m1);
        (g.update(r2, g[r2] ^ m2), f[r] & m1 != 0 || g[r2] & m2 != 0)
    }
}

/// Drawing of sprite `s` at (`row`, `col`): byte `i` goes to row
/// `(row + i) mod 32`, one after the other; the boolean says whether any
/// of them covered a lit pixel.
pub open spec fn draw_spec(f: Seq<u64>, row: u8, col: u8, s: Seq<u8>) -> (Seq<u64>, bool)
    decreases s.len(),
{
    if s.len() == 0 {
        (f, false)
    } else {
        let prev = draw_spec(f, row, col, s.drop_last());
        let next = draw_row_spec(prev.0, (row + s.len() - 1) % 32, col, s.last());
        (next.0, prev.1 || next.1)
    }
}

/// The frame buffer: 32 rows of 64 pixels, each row one word with column 0
/// in its most significant bit.
pub struct Display(pub [u64; 32]);

impl View for Display {
    type V = Seq<u64>;

    open spec fn view(&self) -> Seq<u64> {
        self.0@
    }
}

impl Display {
    pub fn init() -> (r: Display)
        ensures
            r@ == blank_frame(),
    {
        let r = Display([0u64; 32]);
        assert(r@ =~= blank_frame());
        r
    }

    pub fn clear(&mut self)
        ensures
            final(self)@ == blank_frame(),
    {
        self.0 = [0u64; 32];
        assert(self@ =~= blank_frame());
    }

    fn set_sprite_row(&mut self, row: u8, col: u8, sprite_row: u8) -> (r: bool)
        requires
            col < 64,
        ensures
            (final(self)@, r) == draw_row_spec(old(self)@, (row % 32) as int, col, sprite_row),
    {
        let mrow = (row % 32) as usize;
        if col <= 56 {
            let m = (sprite_row as u64) << ((56 - col) as u64);
            let old_row = self.0[mrow];
            self.0[mrow] = old_row ^ m;
            old_row & m != 0
        } else {
            let m1 = (sprite_row as u64) >> ((col - 56) as u64);
            let m2 = (sprite_row as u64) << ((120 - col) as u64);
            let nrow = (mrow + 1) % 32;
            let old1 = self.0[mrow];
            self.0[mrow] = old1 ^ m1;
            let old2 = self.0[nrow];
            self.0[nrow] = old2 ^ m2;
            old1 & m1 != 0 || old2 & m2 != 0
        }
    }

    /// XOR-draws `sprite`, one byte per row, from (`row`, `col`) on; rows
    /// wrap from 31 to 0. Returns whether a lit pixel was turned off.
    pub fn set_sprite(&mut self, row: u8, col: u8, sprite: &[u8]) -> (r: bool)
        requires
            col < 64,
        ensures
            (final(self)@, r) == draw_spec(old(self)@, row, col, sprite@),
    {
        let mut collision = false;
        let n = sprite.len();
        let mut k: usize = 0;
        while k < n
            invariant
                n == sprite@.len(),
                k <= n,
                col < 64,
                (self@, collision) == draw_spec(old(self)@, row, col, sprite@.subrange(0, k as int)),
            decreases n - k,
        {
            let r = ((row as usize % 32 + k % 32) % 32) as u8;
            proof {
                lemma_add_mod_noop(row as int, k as int, 32);
                let s = sprite@.subrange(0, k + 1);
                assert(s.drop_last() =~= sprite@.subrange(0, k as int));
                assert(s.last() == sprite@[k as int]);
                assert((r % 32) as int == (row + s.len() - 1) % 32);
            }
            collision = self.set_sprite_row(r, col, sprite[k]) || collision;
            k = k + 1;
        }
        assert(sprite@.subrange(0, n as int) =~= sprite@);
        collision
    }

    /// Whether pixel (`row`, `col`) is lit.
    pub fn is_collision(&self, row: u8, col: u8) -> (r: bool)
        requires
            row < 32,
            col < 64,
        ensures
            r == pixel(self@, row as int, col as int),
    {
        (self.0[row as usize] >> ((63 - col) as u64)) & 1 != 0
    }

    /// A copy of all 32 rows.
    pub fn get_display(&self) -> (r: [u64; 32])
        ensures
            r@ == self@,
    {
        self.0
    }
}


/// Word-by-word XOR of two frames.
pub open spec fn xor_frames(f: Seq<u64>, g: Seq<u64>) -> Seq<u64> {
    Seq::new(32, |j: int| f[j] ^ g[j])
}

proof fn lemma_xor(x: u64, p: u64, q: u64)
    by (bit_vector)
    ensures
        (x ^ p) ^ q == x ^ (p ^ q),
        x ^ 0 == x,
        0 ^ x == x,
        x ^ p == p ^ x,
        (x ^ p) ^ p == x,
{
}

proof fn lemma_xor_mask(x: u64, p: u64, q: u64)
    by (bit_vector)
    ensures
        p & q == 0 ==> ((x ^ p) & q) == (x & q),
        (x & q == 0 && p & q == 0) ==> ((x ^ (q ^ p)) & q) == q,
        (x & q == 0 && p & q == 0) ==> ((x ^ (p ^ q)) & q) == q,
        x & 0 == 0,
        0 & x == 0,
{
}

/// The main and spill windows of one column never share a bit, and a
/// sprite byte sets a bit in one of them exactly when it is not zero.
proof fn lemma_windows(col: u8, b1: u8, b2: u8)
    requires
        col < 64,
    ensures
        main_bits(col, b1) & spill_bits(col, b2) == 0,
        spill_bits(col, b2) & main_bits(col, b1) == 0,
        (b1 != 0) == (main_bits(col, b1) != 0 || spill_bits(col, b1) != 0),
{
    if col <= 56 {
        let sh = (56 - col) as u64;
        assert(((b1 as u64) << sh) & 0 == 0 && 0 & ((b1 as u64) << sh) == 0) by (bit_vector);
        assert(sh <= 56 ==> ((b1 != 0) == (((b1 as u64) << sh) != 0))) by (bit_vector);
    } else {
        let sh1 = (col - 56) as u64;
        let sh2 = (120 - col) as u64;
        assert(1 <= sh1 <= 7 && sh2 == 64 - sh1 ==> ((b1 as u64) >> sh1) & ((b2 as u64) << sh2) == 0
            && ((b2 as u64) << sh2) & ((b1 as u64) >> sh1) == 0 && ((b1 != 0) == (((b1 as u64) >> sh1)
            != 0 || ((b1 as u64) << sh2) != 0))) by (bit_vector);
    }
}

proof fn lemma_row_xor(f: Seq<u64>, q: Seq<u64>, r: int, col: u8, b: u8)
    requires
        f.len() == 32,
        q.len() == 32,
        0 <= r < 32,
    ensures
        draw_row_spec(xor_frames(f, q), r, col, b).0 == xor_frames(f, draw_row_spec(q, r, col, b).0),
        draw_row_spec(q, r, col, b).0.len() == 32,
{
    let lhs = draw_row_spec(xor_frames(f, q), r, col, b).0;
    let rhs = xor_frames(f, draw_row_spec(q, r, col, b).0);
    assert forall|j: int| 0 <= j < 32 implies lhs[j] == rhs[j] by {
        lemma_xor(f[j], q[j], main_bits(col, b));
        lemma_xor(f[j], q[j], spill_bits(col, b));
        lemma_xor(f[j], q[j] ^ main_bits(col, b), spill_bits(col, b));
    }
    assert(lhs =~= rhs);
}

/// Drawing XORs into the frame the pattern that the same drawing leaves on
/// a blank frame.
proof fn lemma_draw_is_xor(f: Seq<u64>, row: u8, col: u8, s: Seq<u8>)
    requires
        f.len() == 32,
    ensures
        draw_spec(f, row, col, s).0 == xor_frames(f, draw_spec(blank_frame(), row, col, s).0),
        draw_spec(blank_frame(), row, col, s).0.len() == 32,
    decreases s.len(),
{
    if s.len() == 0 {
        assert forall|j: int| 0 <= j < 32 implies f[j] == (f[j] ^ blank_frame()[j]) by {
            lemma_xor(f[j], 0, 0);
        }
        assert(f =~= xor_frames(f, blank_frame()));
    } else {
        lemma_draw_is_xor(f, row, col, s.drop_last());
        let q = draw_spec(blank_frame(), row, col, s.drop_last()).0;
        lemma_row_xor(f, q, (row + s.len() - 1) % 32, col, s.last());
    }
}


/// The main bits that sprite `s` at (`row`, `col`) puts into row `j`:
/// those of the byte drawn in row `j`, if any.
pub open spec fn main_part(row: u8, col: u8, s: Seq<u8>, j: int) -> u64 {
    let i = (j - row) % 32;
    if i < s.len() {
        main_bits(col, s[i])
    } else {
        0u64
    }
}

/// The spill bits that sprite `s` at (`row`, `col`) carries into row `j`:
/// those of the byte drawn in the row above, if any.
pub open spec fn spill_part(row: u8, col: u8, s: Seq<u8>, j: int) -> u64 {
    let i = (j - row - 1) % 32;
    if i < s.len() {
        spill_bits(col, s[i])
    } else {
        0u64
    }
}

proof fn lemma_row_index(row: u8, j: int, k: int)
    requires
        0 <= j < 32,
        0 <= k < 32,
    ensures
        ((j - row) % 32 == k) == (j == (row + k) % 32),
        ((j - row - 1) % 32 == k) == (j == (row + k + 1) % 32),
        ((row + k) % 32 + 1) % 32 == (row + k + 1) % 32,
{
}

/// For a sprite of at most 32 rows, the pattern on a blank frame holds in
/// each row the main bits of the byte drawn there and the spill bits of the
/// byte drawn above.
proof fn lemma_mask_shape(row: u8, col: u8, s: Seq<u8>)
    requires
        col < 64,
        s.len() <= 32,
    ensures
        forall|j: int|
            0 <= j < 32 ==> #[trigger] draw_spec(blank_frame(), row, col, s).0[j] == main_part(
                row,
                col,
                s,
                j,
            ) ^ spill_part(row, col, s, j),
    decreases s.len(),
{
    if s.len() == 0 {
        assert forall|j: int| 0 <= j < 32 implies #[trigger] draw_spec(blank_frame(), row, col, s).0[j]
            == main_part(row, col, s, j) ^ spill_part(row, col, s, j) by {
            lemma_xor(0, 0, 0);
        }
    } else {
        let t = s.drop_last();
        let k = t.len() as int;
        let b = s.last();
        lemma_mask_shape(row, col, t);
        lemma_draw_is_xor(blank_frame(), row, col, t);
        let q = draw_spec(blank_frame(), row, col, t).0;
        let r = (row + k) % 32;
        let r2 = (r + 1) % 32;
        assert forall|j: int| 0 <= j < 32 implies #[trigger] draw_spec(blank_frame(), row, col, s).0[j]
            == main_part(row, col, s, j) ^ spill_part(row, col, s, j) by {
            lemma_row_index(row, j, k);
            let mp = main_part(row, col, t, j);
            let sp = spill_part(row, col, t, j);
            assert(q[j] == mp ^ sp);
            lemma_xor(0, sp, main_bits(col, b));
            lemma_xor(sp, main_bits(col, b), 0);
            lemma_xor(mp, spill_bits(col, b), 0);
            lemma_xor(mp, 0, spill_bits(col, b));
            if j != r {
                assert(main_part(row, col, s, j) == mp);
            }
            if j != r2 {
                assert(spill_part(row, col, s, j) == sp);
            }
        }
    }
}

/// Whether byte `b`, drawn as row `i` of a sprite at (`row`, `col`),
/// covers a lit pixel of `f` with a set bit.
pub open spec fn covers_lit(f: Seq<u64>, row: u8, col: u8, b: u8, i: int) -> bool {
    f[(row + i) % 32] & main_bits(col, b) != 0 || f[(row + i + 1) % 32] & spill_bits(col, b) != 0
}

/// Whether every pixel that a set bit of sprite `s` at (`row`, `col`)
/// covers is dark in `f`.
pub open spec fn covers_dark(f: Seq<u64>, row: u8, col: u8, s: Seq<u8>) -> bool {
    forall|i: int| 0 <= i < s.len() ==> !#[trigger] covers_lit(f, row, col, s[i], i)
}

/// For a sprite of at most 32 rows, a drawing reports a collision exactly
/// when one of its bytes covers a lit pixel of the frame it starts from.
proof fn lemma_collision_shape(f: Seq<u64>, row: u8, col: u8, s: Seq<u8>)
    requires
        f.len() == 32,
        col < 64,
        s.len() <= 32,
    ensures
        draw_spec(f, row, col, s).1 == exists|i: int|
            0 <= i < s.len() && #[trigger] covers_lit(f, row, col, s[i], i),
    decreases s.len(),
{
    if s.len() > 0 {
        let t = s.drop_last();
        let k = t.len() as int;
        let b = s.last();
        lemma_collision_shape(f, row, col, t);
        lemma_draw_is_xor(f, row, col, t);
        lemma_mask_shape(row, col, t);
        let p = draw_spec(f, row, col, t).0;
        let r = (row + k) % 32;
        let r2 = (r + 1) % 32;
        lemma_row_index(row, r, k);
        lemma_row_index(row, r2, k);
        let sp_r = spill_part(row, col, t, r);
        let mp_r2 = main_part(row, col, t, r2);
        assert(p[r] == f[r] ^ (main_part(row, col, t, r) ^ sp_r));
        assert(p[r2] == f[r2] ^ (mp_r2 ^ spill_part(row, col, t, r2)));
        assert(main_part(row, col, t, r) == 0u64);
        assert(spill_part(row, col, t, r2) == 0u64);
        let ir = (r - row - 1) % 32;
        let ir2 = (r2 - row) % 32;
        if ir < k {
            lemma_windows(col, b, t[ir]);
        }
        if ir2 < k {
            lemma_windows(col, t[ir2], b);
        }
        lemma_windows(col, b, b);
        lemma_xor(sp_r, 0, 0);
        lemma_xor(mp_r2, 0, 0);
        lemma_xor_mask(main_bits(col, b), 0, 0);
        lemma_xor_mask(spill_bits(col, b), 0, 0);
        assert(sp_r & main_bits(col, b) == 0);
        assert(mp_r2 & spill_bits(col, b) == 0);
        assert(p[r] == f[r] ^ sp_r);
        assert(p[r2] == f[r2] ^ mp_r2);
        lemma_xor_mask(f[r], sp_r, main_bits(col, b));
        lemma_xor_mask(f[r2], mp_r2, spill_bits(col, b));
        lemma_xor_mask(f[r2], 0, spill_bits(col, b));
        assert(draw_row_spec(p, r, col, b).1 == covers_lit(f, row, col, b, k));
        let es = exists|i: int| 0 <= i < s.len() && #[trigger] covers_lit(f, row, col, s[i], i);
        let et = exists|i: int| 0 <= i < t.len() && #[trigger] covers_lit(f, row, col, t[i], i);
        assert(es == (et || covers_lit(f, row, col, b, k))) by {
            if et {
                let i = choose|i: int| 0 <= i < t.len() && #[trigger] covers_lit(f, row, col, t[i], i);
                assert(s[i] == t[i]);
            }
            if covers_lit(f, row, col, b, k) {
                assert(s[k] == b);
            }
            if es {
                let i = choose|i: int| 0 <= i < s.len() && #[trigger] covers_lit(f, row, col, s[i], i);
                if i < k {
                    assert(t[i] == s[i]);
                }
            }
        }
    }
}

/// Drawing a sprite twice at the same place gives the frame back. For a
/// sprite of at most 32 rows whose set bits all cover dark pixels, the
/// first drawing reports no collision, and the second reports one exactly
/// when the sprite has a set bit.
pub proof fn lemma_draw_twice(f: Seq<u64>, row: u8, col: u8, s: Seq<u8>)
    requires
        f.len() == 32,
        col < 64,
    ensures
        draw_spec(draw_spec(f, row, col, s).0, row, col, s).0 == f,
        (s.len() <= 32 && covers_dark(f, row, col, s)) ==> (!draw_spec(f, row, col, s).1 && (draw_spec(
            draw_spec(f, row, col, s).0,
            row,
            col,
            s,
        ).1 == exists|i: int| 0 <= i < s.len() && s[i] != 0)),
{
    lemma_draw_is_xor(f, row, col, s);
    let m = draw_spec(blank_frame(), row, col, s).0;
    let f1 = draw_spec(f, row, col, s).0;
    lemma_draw_is_xor(f1, row, col, s);
    assert forall|j: int| 0 <= j < 32 implies xor_frames(f1, m)[j] == f[j] by {
        lemma_xor(f[j], m[j], 0);
    }
    assert(xor_frames(f1, m) =~= f);
    if s.len() <= 32 && covers_dark(f, row, col, s) {
        lemma_collision_shape(f, row, col, s);
        lemma_collision_shape(f1, row, col, s);
        lemma_mask_shape(row, col, s);
        assert forall|i: int| 0 <= i < s.len() implies #[trigger] covers_lit(f1, row, col, s[i], i) == (
        s[i] != 0) by {
            let j1 = (row + i) % 32;
            let j2 = (row + i + 1) % 32;
            lemma_row_index(row, j1, i);
            lemma_row_index(row, j2, i);
            let mb = main_bits(col, s[i]);
            let sb = spill_bits(col, s[i]);
            let sp1 = spill_part(row, col, s, j1);
            let mp2 = main_part(row, col, s, j2);
            let i1 = (j1 - row - 1) % 32;
            let i2 = (j2 - row) % 32;
            if i1 < s.len() {
                lemma_windows(col, s[i], s[i1]);
            }
            if i2 < s.len() {
                lemma_windows(col, s[i2], s[i]);
            }
            lemma_windows(col, s[i], s[i]);
            lemma_xor_mask(mb, 0, 0);
            lemma_xor_mask(sb, 0, 0);
            assert(!covers_lit(f, row, col, s[i], i));
            assert(m[j1] == mb ^ sp1);
            assert(m[j2] == mp2 ^ sb);
            lemma_xor_mask(f[j1], sp1, mb);
            lemma_xor_mask(f[j2], mp2, sb);
        }
        assert((exists|i: int| 0 <= i < s.len() && #[trigger] covers_lit(f1, row, col, s[i], i)) == (
        exists|i: int| 0 <= i < s.len() && s[i] != 0)) by {
            if exists|i: int| 0 <= i < s.len() && s[i] != 0 {
                let i = choose|i: int| 0 <= i < s.len() && s[i] != 0;
                assert(covers_lit(f1, row, col, s[i], i));
            }
        }
    }
}

} // verus!
