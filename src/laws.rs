use vstd::prelude::*;

use crate::display::lemma_cell_coords;
use crate::semantics::{
    blank_screen, can_fetch, cell_pixel, execute, first_pressed_from, font, load_image, low12,
    low_byte, nib1, nib2, nib3, nib4, opcode_at, power_on, sprite_bit, sprite_hits, step,
    Machine, FLAG, FONTSET_SIZE, NUM_PIXELS, NUM_REGS, RAM_SIZE, STACK_SIZE, START_ADDR,
};

verus! {

/// The startup state has the counter at the start address, every register,
/// the index register, the stack pointer and both timers at zero, an unlit
/// screen, the font in the first 80 bytes of memory and zeros after it.
pub proof fn lemma_power_on_state()
    ensures
        power_on().wf(),
        power_on().pc == START_ADDR,
        forall|r: int| 0 <= r < NUM_REGS ==> power_on().v[r] == 0,
        power_on().i == 0,
        power_on().sp == 0,
        power_on().dt == 0,
        power_on().st == 0,
        forall|p: int| 0 <= p < NUM_PIXELS ==> !power_on().screen[p],
        power_on().ram.subrange(0, FONTSET_SIZE as int) == font(),
        forall|a: int| FONTSET_SIZE <= a < RAM_SIZE ==> power_on().ram[a] == 0,
{
    assert(power_on().ram.subrange(0, FONTSET_SIZE as int) =~= font());
}

/// After a program of at least two bytes is loaded into a machine whose counter
/// is at the start address, the word fetched next is the first byte shifted
/// left by eight, OR-ed with the second.
pub proof fn lemma_load_then_fetch(m: Machine, data: Seq<u8>)
    requires
        m.wf(),
        m.pc == START_ADDR,
        2 <= data.len() <= RAM_SIZE - START_ADDR,
    ensures
        load_image(m, data) is Ok,
        can_fetch(load_image(m, data).unwrap()),
        opcode_at(load_image(m, data).unwrap()) == ((data[0] as u16) << 8u16) | (data[1] as u16),
{
    let l = load_image(m, data).unwrap();
    assert(l.ram[START_ADDR as int] == data[0]);
    assert(l.ram[START_ADDR + 1] == data[1]);
}

/// Instruction 00E0 leaves every pixel unlit, whatever the screen held.
pub proof fn lemma_clear_screen(m: Machine, rnd: u8)
    requires
        m.wf(),
    ensures
        execute(m, 0x00E0, rnd) is Ok,
        forall|p: int|
            0 <= p < NUM_PIXELS ==> !(#[trigger] execute(m, 0x00E0, rnd).unwrap().screen[p]),
        execute(m, 0x00E0, rnd).unwrap().screen == blank_screen(),
{
    assert(nib1(0x00E0u16) == 0) by (bit_vector);
}

/// A call followed, at its target, by a return brings the counter back to the
/// word after the call, and the stack pointer back to where it was.
pub proof fn lemma_call_return(m: Machine, rnd1: u8, rnd2: u8)
    requires
        m.wf(),
        can_fetch(m),
        nib1(opcode_at(m)) == 2,
        m.sp < STACK_SIZE,
    ensures
        step(m, rnd1) is Ok,
        step(m, rnd1).unwrap().pc == low12(opcode_at(m)),
        can_fetch(step(m, rnd1).unwrap()) && opcode_at(step(m, rnd1).unwrap()) == 0x00EE ==> {
            &&& step(step(m, rnd1).unwrap(), rnd2) is Ok
            &&& step(step(m, rnd1).unwrap(), rnd2).unwrap().pc == m.pc + 2
            &&& step(step(m, rnd1).unwrap(), rnd2).unwrap().sp == m.sp
        },
{
    assert(nib1(0x0000u16) == 0 && nib1(0x00E0u16) == 0 && nib1(0x00EEu16) == 0)
        by (bit_vector);
}

/// Drawing one sprite twice at the same place on an unlit screen reports no
/// collision the first time and a collision the second, and leaves the screen
/// unlit again; the sprite has a lit bit and its coordinates are not held in
/// the flag register.
pub proof fn lemma_draw_twice(m: Machine, op: u16, rnd: u8)
    requires
        m.wf(),
        nib1(op) == 0xD,
        nib2(op) != FLAG,
        nib3(op) != FLAG,
        m.i + nib4(op) <= RAM_SIZE,
        forall|p: int| 0 <= p < NUM_PIXELS ==> !m.screen[p],
        exists|r: int, c: int| 0 <= r < nib4(op) && 0 <= c < 8 && #[trigger] sprite_bit(m.ram[m.i + r], c as u8),
    ensures
        execute(m, op, rnd) is Ok,
        execute(m, op, rnd).unwrap().v[FLAG as int] == 0,
        execute(execute(m, op, rnd).unwrap(), op, rnd) is Ok,
        execute(execute(m, op, rnd).unwrap(), op, rnd).unwrap().v[FLAG as int] == 1,
        forall|p: int|
            0 <= p < NUM_PIXELS ==> !(#[trigger] execute(
                execute(m, op, rnd).unwrap(),
                op,
                rnd,
            ).unwrap().screen[p]),
{
    lemma_nibble_bounds(op);
    let m1 = execute(m, op, rnd).unwrap();
    let (vx, vy, n) = (m.v[nib2(op) as int], m.v[nib3(op) as int], nib4(op));
    assert(m1.v[nib2(op) as int] == vx && m1.v[nib3(op) as int] == vy);
    if crate::semantics::sprite_collides(m.ram, m.screen, m.i, n, vx, vy) {
        let (r, c) = choose|r: int, c: int|
            0 <= r < n && 0 <= c < 8 && sprite_bit(m.ram[m.i + r], c as u8) && #[trigger] m.screen[cell_pixel(
                vx,
                vy,
                r,
                c,
            )];
        lemma_cell_coords(vx, vy, r, c);
    }
    let (r0, c0) = choose|r: int, c: int|
        0 <= r < n && 0 <= c < 8 && #[trigger] sprite_bit(m.ram[m.i + r], c as u8);
    lemma_cell_coords(vx, vy, r0, c0);
    let p0 = cell_pixel(vx, vy, r0, c0);
    assert(sprite_hits(m.ram, m.i, n, vx, vy, p0));
    assert(m1.screen[p0]);
}

/// Whatever byte the random instruction CXNN draws, the register it sets has
/// no bit outside NN.
pub proof fn lemma_random_mask(m: Machine, op: u16, rnd: u8)
    requires
        m.wf(),
        nib1(op) == 0xC,
    ensures
        execute(m, op, rnd) is Ok,
        execute(m, op, rnd).unwrap().v[nib2(op) as int] & !low_byte(op) == 0,
{
    lemma_nibble_bounds(op);
    let nn = low_byte(op);
    assert((rnd & nn) & !nn == 0) by (bit_vector);
}

proof fn lemma_none_pressed(keys: Seq<bool>, k: int)
    requires
        0 <= k,
        forall|j: int| 0 <= j < keys.len() ==> !keys[j],
    ensures
        first_pressed_from(keys, k) is None,
    decreases keys.len() - k,
{
    if k < keys.len() {
        lemma_none_pressed(keys, k + 1);
    }
}

/// With no key held, a cycle on FX0A leaves the machine as it was: the counter
/// moves past the word and back to it.
pub proof fn lemma_key_wait(m: Machine, rnd: u8)
    requires
        m.wf(),
        can_fetch(m),
        nib1(opcode_at(m)) == 0xF,
        low_byte(opcode_at(m)) == 0x0A,
        forall|k: int| 0 <= k < m.keys.len() ==> !m.keys[k],
    ensures
        step(m, rnd) == Ok::<Machine, crate::semantics::Chip8Error>(m),
{
    lemma_none_pressed(m.keys, 0);
}

proof fn lemma_nibble_bounds(op: u16)
    ensures
        nib2(op) < 16,
        nib3(op) < 16,
        nib4(op) < 16,
{
    assert((op >> 8u16) & 0xFu16 < 16) by (bit_vector);
    assert((op >> 4u16) & 0xFu16 < 16) by (bit_vector);
    assert(op & 0xFu16 < 16) by (bit_vector);
}

} // verus!
