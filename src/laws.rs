use vstd::prelude::*;

use crate::state::{op_nnn, Chip8Error, Chip8State, Status, FLAG, REGISTER_COUNT, STACK_CAPACITY};

verus! {

/// Loading a byte into a register and reading it back gives the byte;
/// adding a byte to a register gives the sum modulo 256.
pub proof fn law_load_and_add(s: Chip8State, x: int, b: u8)
    requires
        s.wf(),
        0 <= x < REGISTER_COUNT,
    ensures
        s.ld(x, b).reg(x) == b,
        s.add(x, b).reg(x) == (s.reg(x) + b) % 256,
{
}

/// Adding two registers leaves the sum modulo 256 in the first and sets the
/// flag register to 1 exactly when the unsigned sum exceeds 255.
pub proof fn law_add_carry(s: Chip8State, x: int, y: int)
    requires
        s.wf(),
        0 <= x < FLAG,
        0 <= y < REGISTER_COUNT,
    ensures
        s.add_vx_vy(x, y).reg(x) == (s.reg(x) + s.reg(y)) % 256,
        s.add_vx_vy(x, y).reg(FLAG as int) == (if s.reg(x) + s.reg(y) > 255 {
            1u8
        } else {
            0u8
        }),
{
}

/// Subtracting Y from X leaves (X - Y) modulo 256 in X and sets the flag
/// register to 1 exactly when X is strictly greater than Y.
pub proof fn law_sub_borrow(s: Chip8State, x: int, y: int)
    requires
        s.wf(),
        0 <= x < FLAG,
        0 <= y < REGISTER_COUNT,
    ensures
        s.sub(x, y).reg(x) == (s.reg(x) - s.reg(y)) % 256,
        s.sub(x, y).reg(FLAG as int) == (if s.reg(x) > s.reg(y) {
            1u8
        } else {
            0u8
        }),
{
}

/// A right shift puts the old least-significant bit in the flag register,
/// a left shift the old most-significant bit; each result is the shifted value.
pub proof fn law_shift_flags(s: Chip8State, x: int)
    requires
        s.wf(),
        0 <= x < FLAG,
    ensures
        s.shr(x).reg(FLAG as int) == s.reg(x) % 2,
        s.shr(x).reg(x) == s.reg(x) / 2,
        s.shl(x).reg(FLAG as int) == s.reg(x) / 128,
        s.shl(x).reg(x) == (s.reg(x) * 2) % 256,
{
    let v = s.reg(x);
    assert(v & 1 == v % 2) by (bit_vector);
    assert(v >> 1u8 == v / 2) by (bit_vector);
    assert(v >> 7u8 == v / 128) by (bit_vector);
}

/// A call whose return follows at once puts the whole machine back as it
/// stood before the call, program counter included, at any depth below capacity.
pub proof fn law_call_then_return(s: Chip8State, op: u16, drawn: u8)
    requires
        s.wf(),
        op >> 12u16 == 2,
        s.stack.len() < STACK_CAPACITY,
    ensures
        s.execute(op, drawn) is Ok,
        s.execute(op, drawn).unwrap().0.pc == op_nnn(op),
        s.execute(op, drawn).unwrap().0.execute(0x00EE, drawn) == Ok::<
            (Chip8State, Status),
            Chip8Error,
        >((s, Status::Running)),
{
    let t = s.call(op_nnn(op)).unwrap();
    assert(0x00EEu16 >> 12u16 == 0) by (bit_vector);
    assert(t.stack.drop_last() =~= s.stack);
}

/// Drawing the same sprite twice at the same place gives back the framebuffer
/// as it was; the first draw reports no collision when every cell the sprite
/// sets was clear, and then the second reports one when the sprite sets any cell.
pub proof fn law_draw_twice(s: Chip8State, x: int, y: int, n: int)
    requires
        s.wf(),
        0 <= x < FLAG,
        0 <= y < FLAG,
        0 <= n < 16,
        s.drw(x, y, n) is Ok,
    ensures
        s.drw(x, y, n).unwrap().drw(x, y, n) is Ok,
        s.drw(x, y, n).unwrap().drw(x, y, n).unwrap().screen == s.screen,
        (forall|c: int|
            0 <= c < s.screen.len() && #[trigger] s.draw_hit(s.reg(x), s.reg(y), n, c) ==> !s.screen[c])
            ==> {
            &&& s.drw(x, y, n).unwrap().reg(FLAG as int) == 0
            &&& (exists|c: int|
                0 <= c < s.screen.len() && #[trigger] s.draw_hit(s.reg(x), s.reg(y), n, c))
                ==> s.drw(x, y, n).unwrap().drw(x, y, n).unwrap().reg(FLAG as int) == 1
        },
{
    let vx = s.reg(x);
    let vy = s.reg(y);
    let t = s.drw(x, y, n).unwrap();
    let u = t.drw(x, y, n).unwrap();
    assert(t.reg(x) == vx && t.reg(y) == vy);
    assert forall|c: int| 0 <= c < s.screen.len() implies #[trigger] t.draw_hit(vx, vy, n, c)
        == s.draw_hit(vx, vy, n, c) by {}
    assert(u.screen =~= s.screen);
    if forall|c: int|
        0 <= c < s.screen.len() && #[trigger] s.draw_hit(vx, vy, n, c) ==> !s.screen[c] {
        if s.draw_collides(vx, vy, n) {
            let c = choose|c: int|
                0 <= c < s.screen.len() && #[trigger] s.screen[c] && s.draw_hit(vx, vy, n, c);
            assert(false);
        }
        if exists|c: int| 0 <= c < s.screen.len() && #[trigger] s.draw_hit(vx, vy, n, c) {
            let c = choose|c: int| 0 <= c < s.screen.len() && #[trigger] s.draw_hit(vx, vy, n, c);
            assert(t.screen[c]);
            assert(t.draw_collides(vx, vy, n));
        }
    }
}

/// An instruction word with primary opcode 0 other than clear-screen and
/// return is refused as an unknown encoding.
pub proof fn law_unknown_system_opcode(s: Chip8State, op: u16, drawn: u8)
    requires
        op >> 12u16 == 0,
        op != 0x00E0,
        op != 0x00EE,
    ensures
        s.execute(op, drawn) == Err::<(Chip8State, Status), Chip8Error>(
            Chip8Error::UnknownOpcode(op),
        ),
{
}

} // verus!
