//! The framebuffer and the sprite-draw instruction: XOR drawing with
//! wraparound at the screen edges and a collision flag.
//!
//! A draw of `n` sprite rows processes the bits row by row, leftmost bit
//! first. `hits_upto` describes, cell by cell, which screen cells the
//! bits processed so far toggle, and `coll_upto` whether any of those
//! bits landed on a lit cell. Since no two sprite bits of one draw land
//! on the same cell (rows stay distinct modulo 32, columns modulo 64),
//! the whole draw is a pointwise XOR of the screen with the hit mask.

use vstd::prelude::*;
use vstd::arithmetic::div_mod::lemma_mod_bound;
use vstd::arithmetic::div_mod::lemma_mod_equivalence;
use vstd::arithmetic::div_mod::lemma_small_mod;

verus! {

/// Width of the screen in cells.
pub const SCREEN_WIDTH: usize = 64;

/// Height of the screen in cells.
pub const SCREEN_HEIGHT: usize = 32;

/// Bit `c` (counted from the left, 0 through 7) of a sprite row byte.
pub open spec fn sprite_bit(b: u8, c: u8) -> bool {
    (b >> ((7 - c) as u8)) & 1 == 1
}

/// Bit `c` of sprite row `r`, for a sprite stored at address `i`.
pub open spec fn sprite_pixel(mem: Seq<u8>, i: int, r: int, c: int) -> bool {
    sprite_bit(mem[i + r], c as u8)
}

/// The screen cell that bit `c` of sprite row `r` lands on when the
/// sprite is drawn at `(x, y)`: coordinates wrap around the edges.
pub open spec fn target_cell(x: int, y: int, r: int, c: int) -> int {
    ((y + r) % 32) * 64 + ((x + c) % 64)
}

/// Whether some sprite bit strictly before row `r`, column `c` (in
/// processing order: full rows `0..r`, then columns `0..c` of row `r`)
/// is set and lands on cell `idx`.
pub open spec fn hits_upto(mem: Seq<u8>, i: int, x: int, y: int, r: int, c: int, idx: int) -> bool
    decreases r, c,
{
    if c > 0 {
        (sprite_pixel(mem, i, r, c - 1) && idx == target_cell(x, y, r, c - 1)) || hits_upto(
            mem,
            i,
            x,
            y,
            r,
            c - 1,
            idx,
        )
    } else if r > 0 {
        hits_upto(mem, i, x, y, r - 1, 8, idx)
    } else {
        false
    }
}

/// Whether some sprite bit strictly before row `r`, column `c` is set
/// and lands on a cell that is lit on screen `s0`.
pub open spec fn coll_upto(
    s0: Seq<bool>,
    mem: Seq<u8>,
    i: int,
    x: int,
    y: int,
    r: int,
    c: int,
) -> bool
    decreases r, c,
{
    if c > 0 {
        (sprite_pixel(mem, i, r, c - 1) && s0[target_cell(x, y, r, c - 1)]) || coll_upto(
            s0,
            mem,
            i,
            x,
            y,
            r,
            c - 1,
        )
    } else if r > 0 {
        coll_upto(s0, mem, i, x, y, r - 1, 8)
    } else {
        false
    }
}

/// Whether some set bit of the whole `n`-row sprite lands on cell `idx`.
pub open spec fn hits(mem: Seq<u8>, i: int, n: int, x: int, y: int, idx: int) -> bool {
    hits_upto(mem, i, x, y, n, 0, idx)
}

/// The screen after drawing the `n`-row sprite stored at address `i`
/// at coordinates `(x, y)`: every cell a set bit lands on is toggled.
pub open spec fn draw_screen(
    s: Seq<bool>,
    mem: Seq<u8>,
    i: int,
    n: int,
    x: int,
    y: int,
) -> Seq<bool> {
    Seq::new(s.len(), |idx: int| s[idx] != hits(mem, i, n, x, y, idx))
}

/// The collision flag of that draw: whether any set bit lands on a cell
/// that was lit before the draw.
pub open spec fn draw_collision(
    s: Seq<bool>,
    mem: Seq<u8>,
    i: int,
    n: int,
    x: int,
    y: int,
) -> bool {
    coll_upto(s, mem, i, x, y, n, 0)
}

/// Whether `(r, c)` names a bit of an `n`-row sprite.
pub open spec fn sprite_pair(n: int, r: int, c: int) -> bool {
    0 <= r < n && 0 <= c < 8
}

/// Two distinct bits of one sprite land on distinct screen cells: the
/// rows stay distinct modulo 32 and the columns modulo 64.
proof fn lemma_target_distinct(x: int, y: int, r1: int, c1: int, r2: int, c2: int)
    requires
        0 <= x,
        0 <= y,
        0 <= r1 < 32,
        0 <= r2 < 32,
        0 <= c1 < 8,
        0 <= c2 < 8,
        r1 != r2 || c1 != c2,
    ensures
        target_cell(x, y, r1, c1) != target_cell(x, y, r2, c2),
{
    lemma_mod_bound(y + r1, 32);
    lemma_mod_bound(y + r2, 32);
    lemma_mod_bound(x + c1, 64);
    lemma_mod_bound(x + c2, 64);
    if r1 != r2 {
        if (y + r1) % 32 == (y + r2) % 32 {
            lemma_mod_equivalence(y + r1, y + r2, 32);
            if r1 > r2 {
                lemma_small_mod((r1 - r2) as nat, 32);
            } else {
                lemma_mod_equivalence(y + r2, y + r1, 32);
                lemma_small_mod((r2 - r1) as nat, 32);
            }
        }
    } else {
        if (x + c1) % 64 == (x + c2) % 64 {
            lemma_mod_equivalence(x + c1, x + c2, 64);
            if c1 > c2 {
                lemma_small_mod((c1 - c2) as nat, 64);
            } else {
                lemma_mod_equivalence(x + c2, x + c1, 64);
                lemma_small_mod((c2 - c1) as nat, 64);
            }
        }
    }
}

/// Every screen cell a sprite bit lands on is a valid cell index.
pub proof fn lemma_target_bounds(x: int, y: int, r: int, c: int)
    requires
        0 <= x,
        0 <= y,
        0 <= r,
        0 <= c,
    ensures
        0 <= target_cell(x, y, r, c) < 2048,
{
    lemma_mod_bound(y + r, 32);
    lemma_mod_bound(x + c, 64);
}

/// No sprite bit processed strictly before `(r0, c0)` lands on the cell
/// that bit `(r0, c0)` lands on.
proof fn lemma_fresh_target(
    mem: Seq<u8>,
    i: int,
    x: int,
    y: int,
    r: int,
    c: int,
    r0: int,
    c0: int,
)
    requires
        0 <= x,
        0 <= y,
        0 <= r0 < 16,
        0 <= c0 < 8,
        0 <= r <= r0,
        0 <= c <= 8,
        r < r0 || c <= c0,
    ensures
        !hits_upto(mem, i, x, y, r, c, target_cell(x, y, r0, c0)),
    decreases r, c,
{
    if c > 0 {
        lemma_target_distinct(x, y, r, c - 1, r0, c0);
        lemma_fresh_target(mem, i, x, y, r, c - 1, r0, c0);
    } else if r > 0 {
        lemma_fresh_target(mem, i, x, y, r - 1, 8, r0, c0);
    }
}

/// A set sprite bit at `(r0, c0)`, strictly before `(r, c)`, makes
/// `hits_upto` true at the cell it lands on.
proof fn lemma_hit_member(
    mem: Seq<u8>,
    i: int,
    x: int,
    y: int,
    r: int,
    c: int,
    r0: int,
    c0: int,
)
    requires
        0 <= r0,
        0 <= c0 < 8,
        c <= 8,
        r0 < r || (r0 == r && c0 < c),
        sprite_pixel(mem, i, r0, c0),
    ensures
        hits_upto(mem, i, x, y, r, c, target_cell(x, y, r0, c0)),
    decreases r, c,
{
    if c > 0 {
        if !(r0 == r && c0 == c - 1) {
            lemma_hit_member(mem, i, x, y, r, c - 1, r0, c0);
        }
    } else {
        lemma_hit_member(mem, i, x, y, r - 1, 8, r0, c0);
    }
}

/// A set sprite bit at `(r0, c0)`, strictly before `(r, c)`, landing on
/// a lit cell of `s0`, makes `coll_upto` true.
proof fn lemma_coll_member(
    s0: Seq<bool>,
    mem: Seq<u8>,
    i: int,
    x: int,
    y: int,
    r: int,
    c: int,
    r0: int,
    c0: int,
)
    requires
        0 <= r0,
        0 <= c0 < 8,
        c <= 8,
        r0 < r || (r0 == r && c0 < c),
        sprite_pixel(mem, i, r0, c0),
        s0[target_cell(x, y, r0, c0)],
    ensures
        coll_upto(s0, mem, i, x, y, r, c),
    decreases r, c,
{
    if c > 0 {
        if !(r0 == r && c0 == c - 1) {
            lemma_coll_member(s0, mem, i, x, y, r, c - 1, r0, c0);
        }
    } else {
        lemma_coll_member(s0, mem, i, x, y, r - 1, 8, r0, c0);
    }
}

/// If no set sprite bit before `(r, c)` lands on a lit cell of `s0`,
/// `coll_upto` is false.
proof fn lemma_coll_none(s0: Seq<bool>, mem: Seq<u8>, i: int, x: int, y: int, r: int, c: int)
    requires
        0 <= r,
        c <= 8,
        forall|r2: int, c2: int|
            0 <= r2 && 0 <= c2 < 8 && (r2 < r || (r2 == r && c2 < c)) && sprite_pixel(
                mem,
                i,
                r2,
                c2,
            ) ==> !s0[#[trigger] target_cell(x, y, r2, c2)],
    ensures
        !coll_upto(s0, mem, i, x, y, r, c),
    decreases r, c,
{
    if c > 0 {
        assert(sprite_pixel(mem, i, r, c - 1) ==> !s0[target_cell(x, y, r, c - 1)]);
        lemma_coll_none(s0, mem, i, x, y, r, c - 1);
    } else if r > 0 {
        lemma_coll_none(s0, mem, i, x, y, r - 1, 8);
    }
}

/// Drawing the same sprite twice in the same place, with nothing in
/// between, toggles every affected cell back: the screen returns to what
/// it was. And when the sprite has a set bit and every cell it touches
/// was off before the first draw, the first draw reports no collision
/// and the second draw reports one.
pub proof fn lemma_draw_twice(s: Seq<bool>, mem: Seq<u8>, i: int, n: int, x: int, y: int)
    requires
        s.len() == 2048,
        0 <= n <= 15,
        0 <= x,
        0 <= y,
    ensures
        draw_screen(draw_screen(s, mem, i, n, x, y), mem, i, n, x, y) == s,
        (forall|r: int, c: int|
            sprite_pair(n, r, c) && sprite_pixel(mem, i, r, c) ==> !s[#[trigger] target_cell(
                x,
                y,
                r,
                c,
            )]) ==> !draw_collision(s, mem, i, n, x, y),
        ((forall|r: int, c: int|
            sprite_pair(n, r, c) && sprite_pixel(mem, i, r, c) ==> !s[#[trigger] target_cell(
                x,
                y,
                r,
                c,
            )]) && (exists|r: int, c: int|
            sprite_pair(n, r, c) && #[trigger] sprite_pixel(mem, i, r, c)))
            ==> draw_collision(draw_screen(s, mem, i, n, x, y), mem, i, n, x, y),
{
    let s1 = draw_screen(s, mem, i, n, x, y);
    assert(draw_screen(s1, mem, i, n, x, y) =~= s);
    if forall|r: int, c: int|
        sprite_pair(n, r, c) && sprite_pixel(mem, i, r, c) ==> !s[#[trigger] target_cell(
            x,
            y,
            r,
            c,
        )] {
        lemma_coll_none(s, mem, i, x, y, n, 0);
        if exists|r: int, c: int| sprite_pair(n, r, c) && #[trigger] sprite_pixel(mem, i, r, c) {
            let (r0, c0) = choose|r0: int, c0: int|
                sprite_pair(n, r0, c0) && #[trigger] sprite_pixel(mem, i, r0, c0);
            let t0 = target_cell(x, y, r0, c0);
            lemma_target_bounds(x, y, r0, c0);
            lemma_hit_member(mem, i, x, y, n, 0, r0, c0);
            assert(s1[t0]);
            lemma_coll_member(s1, mem, i, x, y, n, 0, r0, c0);
        }
    }
}

/// Draw an `n`-row sprite stored at `memory[index..]` at `(vx, vy)`:
/// toggle every cell a set bit lands on, wrapping at the screen edges,
/// and report whether any toggled cell was lit.
pub fn exec_display(
    screen: &mut Vec<bool>,
    memory: &Vec<u8>,
    index: usize,
    n: u8,
    vx: u8,
    vy: u8,
) -> (flipped: bool)
    requires
        old(screen)@.len() == 2048,
        memory@.len() == 4096,
        n <= 15,
        n > 0 ==> index + n <= 4096,
    ensures
        final(screen)@ == draw_screen(
            old(screen)@,
            memory@,
            index as int,
            n as int,
            vx as int,
            vy as int,
        ),
        flipped == draw_collision(
            old(screen)@,
            memory@,
            index as int,
            n as int,
            vx as int,
            vy as int,
        ),
{
    let ghost s0 = screen@;
    let mut flipped = false;
    let mut r: u8 = 0;
    while r < n
        invariant
            r <= n,
            n <= 15,
            n > 0 ==> index + n <= 4096,
            memory@.len() == 4096,
            screen@.len() == 2048,
            s0.len() == 2048,
            forall|idx: int|
                0 <= idx < 2048 ==> screen@[idx] == (s0[idx] != hits_upto(
                    memory@,
                    index as int,
                    vx as int,
                    vy as int,
                    r as int,
                    0,
                    idx,
                )),
            flipped == coll_upto(s0, memory@, index as int, vx as int, vy as int, r as int, 0),
        decreases n - r,
    {
        let pixels = memory[index + (r as usize)];
        let mut c: u8 = 0;
        while c < 8
            invariant
                c <= 8,
                r < n,
                n <= 15,
                index + n <= 4096,
                memory@.len() == 4096,
                screen@.len() == 2048,
                s0.len() == 2048,
                pixels == memory@[index + r as int],
                forall|idx: int|
                    0 <= idx < 2048 ==> screen@[idx] == (s0[idx] != hits_upto(
                        memory@,
                        index as int,
                        vx as int,
                        vy as int,
                        r as int,
                        c as int,
                        idx,
                    )),
                flipped == coll_upto(
                    s0,
                    memory@,
                    index as int,
                    vx as int,
                    vy as int,
                    r as int,
                    c as int,
                ),
            decreases 8 - c,
        {
            let sh: u8 = 7 - c;
            let bit_set = ((pixels >> sh) & 1) == 1;
            proof {
                assert(bit_set == sprite_bit(pixels, c));
                assert(sprite_pixel(memory@, index as int, r as int, c as int) == bit_set);
            }
            if bit_set {
                let col = ((vx as usize) + (c as usize)) % 64;
                let row = ((vy as usize) + (r as usize)) % 32;
                let t = col + 64 * row;
                proof {
                    assert(t == target_cell(vx as int, vy as int, r as int, c as int));
                    lemma_target_bounds(vx as int, vy as int, r as int, c as int);
                    lemma_fresh_target(
                        memory@,
                        index as int,
                        vx as int,
                        vy as int,
                        r as int,
                        c as int,
                        r as int,
                        c as int,
                    );
                    assert(screen@[t as int] == s0[t as int]);
                }
                let cur = screen[t];
                if cur {
                    flipped = true;
                }
                screen[t] = !cur;
                proof {
                    assert forall|idx: int| 0 <= idx < 2048 implies screen@[idx] == (s0[idx]
                        != hits_upto(
                        memory@,
                        index as int,
                        vx as int,
                        vy as int,
                        r as int,
                        c as int + 1,
                        idx,
                    )) by {
                        if idx != t as int {
                            assert(idx != target_cell(vx as int, vy as int, r as int, c as int));
                        }
                    }
                }
            } else {
                proof {
                    assert forall|idx: int| 0 <= idx < 2048 implies screen@[idx] == (s0[idx]
                        != hits_upto(
                        memory@,
                        index as int,
                        vx as int,
                        vy as int,
                        r as int,
                        c as int + 1,
                        idx,
                    )) by {
                        assert(!sprite_pixel(memory@, index as int, r as int, c as int));
                    }
                }
            }
            c = c + 1;
        }
        proof {
            assert forall|idx: int| 0 <= idx < 2048 implies hits_upto(
                memory@,
                index as int,
                vx as int,
                vy as int,
                r as int + 1,
                0,
                idx,
            ) == hits_upto(memory@, index as int, vx as int, vy as int, r as int, 8, idx) by {
            }
            assert(coll_upto(s0, memory@, index as int, vx as int, vy as int, r as int + 1, 0)
                == coll_upto(s0, memory@, index as int, vx as int, vy as int, r as int, 8));
        }
        r = r + 1;
    }
    proof {
        assert(screen@ =~= draw_screen(s0, memory@, index as int, n as int, vx as int, vy as int));
    }
    flipped
}

} // verus!
