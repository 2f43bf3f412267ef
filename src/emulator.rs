use vstd::prelude::*;

use crate::display::draw_sprite;
use crate::semantics::{
    execute, execute_alu, execute_draw, execute_high, execute_low, first_pressed_from, font,
    initial_ram, load_image, low12, low_byte, nib1, nib2, nib3, nib4, power_on, step,
    timers_ticked, Chip8Error, Machine, FLAG, FONTSET_SIZE, NUM_KEYS, NUM_PIXELS, NUM_REGS,
    RAM_SIZE, STACK_SIZE, START_ADDR,
};

verus! {

/// The interpreter: memory, registers, stack, timers, keypad and framebuffer.
pub struct Emulator {
    pc: u16,
    ram: Vec<u8>,
    v_reg: Vec<u8>,
    screen: Vec<bool>,
    i_reg: u16,
    sp: u16,
    stack: Vec<u16>,
    keys: Vec<bool>,
    dt: u8,
    st: u8,
}

impl View for Emulator {
    type V = Machine;

    closed spec fn view(&self) -> Machine {
        Machine {
            pc: self.pc,
            ram: self.ram@,
            v: self.v_reg@,
            screen: self.screen@,
            i: self.i_reg,
            sp: self.sp,
            stack: self.stack@,
            keys: self.keys@,
            dt: self.dt,
            st: self.st,
        }
    }
}

/// An operation that either moved the machine to the expected state, or failed
/// with the expected error and left it as it was.
pub open spec fn outcome(
    r: Result<(), Chip8Error>,
    before: Machine,
    after: Machine,
    expected: Result<Machine, Chip8Error>,
) -> bool {
    match expected {
        Ok(m) => r is Ok && after == m,
        Err(e) => r == Err::<(), Chip8Error>(e) && after == before,
    }
}

proof fn lemma_fields(op: u16)
    ensures
        nib1(op) < 16,
        nib2(op) < 16,
        nib3(op) < 16,
        nib4(op) < 16,
        low12(op) < 4096,
        low_byte(op) == op % 256,
{
    assert(op >> 12u16 < 16) by (bit_vector);
    assert((op >> 8u16) & 0xFu16 < 16) by (bit_vector);
    assert((op >> 4u16) & 0xFu16 < 16) by (bit_vector);
    assert(op & 0xFu16 < 16) by (bit_vector);
    assert(op & 0xFFFu16 < 4096) by (bit_vector);
    assert(op & 0xFFu16 == op % 256) by (bit_vector);
}

/// A vector of n copies of `val`.
fn filled<T: Copy>(val: T, n: usize) -> (r: Vec<T>)
    ensures
        r@ == Seq::new(n as nat, |k: int| val),
{
    let mut r: Vec<T> = Vec::new();
    let mut k: usize = 0;
    while k < n
        invariant
            k <= n,
            r@ =~= Seq::new(k as nat, |j: int| val),
        decreases n - k,
    {
        r.push(val);
        k = k + 1;
    }
    r
}

/// Memory holding the font, then zeros.
fn initial_memory() -> (r: Vec<u8>)
    ensures
        r@ == initial_ram(),
{
    let mut ram: Vec<u8> = vec![
        0xF0, 0x90, 0x90, 0x90, 0xF0,
        0x20, 0x60, 0x20, 0x20, 0x70,
        0xF0, 0x10, 0xF0, 0x80, 0xF0,
        0xF0, 0x10, 0xF0, 0x10, 0xF0,
        0x90, 0x90, 0xF0, 0x10, 0x10,
        0xF0, 0x80, 0xF0, 0x10, 0xF0,
        0xF0, 0x80, 0xF0, 0x90, 0xF0,
        0xF0, 0x10, 0x20, 0x40, 0x40,
        0xF0, 0x90, 0xF0, 0x90, 0xF0,
        0xF0, 0x90, 0xF0, 0x10, 0xF0,
        0xF0, 0x90, 0xF0, 0x90, 0x90,
        0xE0, 0x90, 0xE0, 0x90, 0xE0,
        0xF0, 0x80, 0x80, 0x80, 0xF0,
        0xE0, 0x90, 0x90, 0x90, 0xE0,
        0xF0, 0x80, 0xF0, 0x80, 0xF0,
        0xF0, 0x80, 0xF0, 0x80, 0x80,
    ];
    assert(ram@ =~= font());
    let mut k: usize = FONTSET_SIZE;
    while k < RAM_SIZE
        invariant
            FONTSET_SIZE <= k <= RAM_SIZE,
            ram@ =~= font() + Seq::new((k - FONTSET_SIZE) as nat, |j: int| 0u8),
        decreases RAM_SIZE - k,
    {
        ram.push(0);
        k = k + 1;
    }
    ram
}

/// The index of the first pressed key, if any.
fn first_pressed(keys: &Vec<bool>) -> (r: Option<usize>)
    requires
        keys@.len() == NUM_KEYS,
    ensures
        r matches Some(k) ==> k < NUM_KEYS && first_pressed_from(keys@, 0) == Some(k as int),
        r is None ==> first_pressed_from(keys@, 0) is None,
{
    let mut k: usize = 0;
    while k < NUM_KEYS
        invariant
            k <= NUM_KEYS,
            keys@.len() == NUM_KEYS,
            first_pressed_from(keys@, 0) == first_pressed_from(keys@, k as int),
        decreases NUM_KEYS - k,
    {
        if keys[k] {
            return Some(k);
        }
        k = k + 1;
    }
    None
}

/// Copies `src` into `dst` from position `at` on.
fn copy_into(dst: &mut Vec<u8>, at: usize, src: &[u8])
    requires
        at + src@.len() <= old(dst)@.len(),
    ensures
        final(dst)@ == old(dst)@.subrange(0, at as int) + src@ + old(dst)@.subrange(
            at + src@.len(),
            old(dst)@.len() as int,
        ),
{
    let ghost before = dst@;
    let len = dst.len();
    let mut k: usize = 0;
    while k < src.len()
        invariant
            k <= src@.len(),
            at + src@.len() <= before.len(),
            dst@.len() == before.len(),
            before.len() == len,
            forall|a: int|
                0 <= a < before.len() ==> #[trigger] dst@[a] == if at <= a < at + k {
                    src@[a - at]
                } else {
                    before[a]
                },
        decreases src@.len() - k,
    {
        dst.set(at + k, src[k]);
        k = k + 1;
    }
    assert(dst@ =~= before.subrange(0, at as int) + src@ + before.subrange(
        at + src@.len(),
        before.len() as int,
    ));
}

/// Writes registers 0..=x to memory from address i on.
fn store_registers(ram: &mut Vec<u8>, v: &Vec<u8>, i: usize, x: usize)
    requires
        x < v@.len(),
        i + x + 1 <= old(ram)@.len(),
    ensures
        final(ram)@.len() == old(ram)@.len(),
        forall|a: int|
            0 <= a < old(ram)@.len() ==> #[trigger] final(ram)@[a] == if i <= a <= i + x {
                v@[a - i]
            } else {
                old(ram)@[a]
            },
{
    let ghost before = ram@;
    let len = ram.len();
    let mut k: usize = 0;
    while k <= x
        invariant
            k <= x + 1,
            before.len() == len,
            x < v@.len(),
            i + x + 1 <= before.len(),
            ram@.len() == before.len(),
            forall|a: int|
                0 <= a < before.len() ==> #[trigger] ram@[a] == if i <= a < i + k {
                    v@[a - i]
                } else {
                    before[a]
                },
        decreases x + 1 - k,
    {
        ram.set(i + k, v[k]);
        k = k + 1;
    }
}

/// Reads registers 0..=x from memory at address i on.
fn load_registers(v: &mut Vec<u8>, ram: &Vec<u8>, i: usize, x: usize)
    requires
        x < old(v)@.len(),
        i + x + 1 <= ram@.len(),
    ensures
        final(v)@.len() == old(v)@.len(),
        forall|r: int|
            0 <= r < old(v)@.len() ==> #[trigger] final(v)@[r] == if r <= x {
                ram@[i + r]
            } else {
                old(v)@[r]
            },
{
    let ghost before = v@;
    let len = ram.len();
    let mut k: usize = 0;
    while k <= x
        invariant
            k <= x + 1,
            ram@.len() == len,
            x < before.len(),
            i + x + 1 <= ram@.len(),
            v@.len() == before.len(),
            forall|r: int|
                0 <= r < before.len() ==> #[trigger] v@[r] == if r < k {
                    ram@[i + r]
                } else {
                    before[r]
                },
        decreases x + 1 - k,
    {
        v.set(k, ram[i + k]);
        k = k + 1;
    }
}

/// Relies on rand::random: a byte from the thread-local generator, of which
/// nothing is known.
#[verifier::external_body]
fn random_byte() -> u8 {
    rand::random::<u8>()
}

impl Emulator {
    /// Every component has its fixed size and the stack pointer is in bounds.
    pub open spec fn wf(&self) -> bool {
        self@.wf()
    }

    /// A machine in the startup state, with the font at address 0.
    pub fn new() -> (r: Self)
        ensures
            r.wf(),
            r@ == power_on(),
    {
        let r = Emulator {
            pc: START_ADDR,
            ram: initial_memory(),
            v_reg: filled(0u8, NUM_REGS),
            screen: filled(false, NUM_PIXELS),
            i_reg: 0,
            sp: 0,
            stack: filled(0u16, STACK_SIZE),
            keys: filled(false, NUM_KEYS),
            dt: 0,
            st: 0,
        };
        assert(r@.v =~= power_on().v);
        assert(r@.screen =~= power_on().screen);
        assert(r@.stack =~= power_on().stack);
        assert(r@.keys =~= power_on().keys);
        r
    }

    /// Puts the machine back into the startup state.
    pub fn reset(&mut self)
        ensures
            final(self).wf(),
            final(self)@ == power_on(),
    {
        *self = Self::new();
    }

    /// Copies a program image to the start address; fails, changing nothing,
    /// when it does not fit in memory.
    pub fn load(&mut self, data: &[u8]) -> (r: Result<(), Chip8Error>)
        requires
            old(self).wf(),
        ensures
            final(self).wf(),
            outcome(r, old(self)@, final(self)@, load_image(old(self)@, data@)),
            r is Err <==> data@.len() > RAM_SIZE - START_ADDR,
    {
        if data.len() > RAM_SIZE - START_ADDR as usize {
            return Err(Chip8Error::MemoryOverflow);
        }
        copy_into(&mut self.ram, START_ADDR as usize, data);
        Ok(())
    }

    /// Sets whether key `index` is held down.
    pub fn keypress(&mut self, index: usize, pressed: bool) -> (r: Result<(), Chip8Error>)
        requires
            old(self).wf(),
        ensures
            final(self).wf(),
            index < NUM_KEYS ==> r is Ok && final(self)@ == (Machine {
                keys: old(self)@.keys.update(index as int, pressed),
                ..old(self)@
            }),
            index >= NUM_KEYS ==> r == Err::<(), Chip8Error>(Chip8Error::IndexOutOfRange)
                && final(self)@ == old(self)@,
    {
        if index >= NUM_KEYS {
            return Err(Chip8Error::IndexOutOfRange);
        }
        self.keys.set(index, pressed);
        Ok(())
    }

    /// The framebuffer, row-major, 64 pixels per row.
    pub fn get_display(&self) -> (r: &[bool])
        ensures
            r@ == self@.screen,
    {
        self.screen.as_slice()
    }

    /// Counts both timers down by one where they are above zero; returns
    /// whether the sound timer just ran out.
    pub fn tick_timers(&mut self) -> (expired: bool)
        requires
            old(self).wf(),
        ensures
            final(self).wf(),
            final(self)@ == timers_ticked(old(self)@),
            expired == (old(self)@.st == 1),
    {
        if self.dt > 0 {
            self.dt = self.dt - 1;
        }
        let mut expired = false;
        if self.st > 0 {
            expired = self.st == 1;
            self.st = self.st - 1;
        }
        expired
    }

    fn push(&mut self, val: u16)
        requires
            old(self).wf(),
            old(self).sp < STACK_SIZE,
        ensures
            final(self)@ == (Machine {
                stack: old(self)@.stack.update(old(self).sp as int, val),
                sp: (old(self).sp + 1) as u16,
                ..old(self)@
            }),
    {
        self.stack.set(self.sp as usize, val);
        self.sp = self.sp + 1;
    }

    fn pop(&mut self) -> (r: u16)
        requires
            old(self).wf(),
            old(self).sp > 0,
        ensures
            final(self)@ == (Machine { sp: (old(self).sp - 1) as u16, ..old(self)@ }),
            r == old(self)@.stack[old(self).sp - 1],
    {
        self.sp = self.sp - 1;
        self.stack[self.sp as usize]
    }

    /// Reads the word at the program counter and advances the counter past it.
    fn fetch(&mut self) -> (op: u16)
        requires
            old(self).wf(),
            old(self).pc + 1 < RAM_SIZE,
        ensures
            final(self)@ == (Machine { pc: (old(self).pc + 2) as u16, ..old(self)@ }),
            op == crate::semantics::opcode_at(old(self)@),
    {
        let hi = self.ram[self.pc as usize] as u16;
        let lo = self.ram[(self.pc + 1) as usize] as u16;
        self.pc = self.pc + 2;
        (hi << 8) | lo
    }

    fn skip_if(&mut self, cond: bool)
        requires
            old(self).pc <= RAM_SIZE,
        ensures
            final(self)@ == crate::semantics::skip_if(old(self)@, cond),
    {
        if cond {
            self.pc = self.pc + 2;
        }
    }

    /// Families 0 to 7.
    fn execute_low(&mut self, op: u16) -> (r: Result<(), Chip8Error>)
        requires
            old(self).wf(),
            old(self).pc <= RAM_SIZE,
            nib1(op) < 8,
        ensures
            final(self).wf(),
            outcome(r, old(self)@, final(self)@, execute_low(old(self)@, op)),
    {
        proof {
            lemma_fields(op);
        }
        let d1 = op >> 12;
        let x = ((op >> 8) & 0xF) as usize;
        let y = ((op >> 4) & 0xF) as usize;
        let n = op & 0xF;
        let nn = (op & 0xFF) as u8;
        if op == 0x0000 {
            Ok(())
        } else if op == 0x00E0 {
            self.screen = filled(false, NUM_PIXELS);
            assert(self.screen@ =~= crate::semantics::blank_screen());
            Ok(())
        } else if op == 0x00EE {
            if self.sp == 0 {
                return Err(Chip8Error::StackUnderflow);
            }
            self.pc = self.pop();
            Ok(())
        } else if d1 == 1 {
            self.pc = op & 0xFFF;
            Ok(())
        } else if d1 == 2 {
            if self.sp as usize >= STACK_SIZE {
                return Err(Chip8Error::StackOverflow);
            }
            self.push(self.pc);
            self.pc = op & 0xFFF;
            Ok(())
        } else if d1 == 3 {
            let cond = self.v_reg[x] == nn;
            self.skip_if(cond);
            Ok(())
        } else if d1 == 4 {
            let cond = self.v_reg[x] != nn;
            self.skip_if(cond);
            Ok(())
        } else if d1 == 5 && n == 0 {
            let cond = self.v_reg[x] == self.v_reg[y];
            self.skip_if(cond);
            Ok(())
        } else if d1 == 6 {
            self.v_reg.set(x, nn);
            Ok(())
        } else if d1 == 7 {
            let sum = ((self.v_reg[x] as u16 + nn as u16) % 256) as u8;
            self.v_reg.set(x, sum);
            Ok(())
        } else {
            Err(Chip8Error::UnimplementedOpcode(op))
        }
    }

    fn set_with_flag(&mut self, x: usize, val: u8, flag: u8)
        requires
            old(self).wf(),
            x < NUM_REGS,
        ensures
            final(self).wf(),
            final(self)@ == crate::semantics::set_reg_flag(old(self)@, x as int, val, flag),
    {
        self.v_reg.set(x, val);
        self.v_reg.set(FLAG, flag);
    }

    /// Family 8.
    fn execute_alu(&mut self, op: u16) -> (r: Result<(), Chip8Error>)
        requires
            old(self).wf(),
        ensures
            final(self).wf(),
            outcome(r, old(self)@, final(self)@, execute_alu(old(self)@, op)),
    {
        proof {
            lemma_fields(op);
        }
        let x = ((op >> 8) & 0xF) as usize;
        let y = ((op >> 4) & 0xF) as usize;
        let n = op & 0xF;
        let vx = self.v_reg[x];
        let vy = self.v_reg[y];
        if n == 0 {
            self.v_reg.set(x, vy);
        } else if n == 1 {
            self.v_reg.set(x, vx | vy);
        } else if n == 2 {
            self.v_reg.set(x, vx & vy);
        } else if n == 3 {
            self.v_reg.set(x, vx ^ vy);
        } else if n == 4 {
            let sum = vx as u16 + vy as u16;
            self.set_with_flag(x, (sum % 256) as u8, if sum > 255 { 1 } else { 0 });
        } else if n == 5 {
            let diff = if vx >= vy { vx - vy } else { (256 - vy as u16 + vx as u16) as u8 };
            self.set_with_flag(x, diff, if vx >= vy { 1 } else { 0 });
        } else if n == 6 {
            self.set_with_flag(x, vx / 2, vx % 2);
        } else if n == 7 {
            let diff = if vy >= vx { vy - vx } else { (256 - vx as u16 + vy as u16) as u8 };
            self.set_with_flag(x, diff, if vy >= vx { 1 } else { 0 });
        } else if n == 0xE {
            self.set_with_flag(x, ((vx as u16 * 2) % 256) as u8, vx / 128);
        } else {
            return Err(Chip8Error::UnimplementedOpcode(op));
        }
        Ok(())
    }

    /// The sprite-drawing instruction.
    fn execute_draw(&mut self, op: u16) -> (r: Result<(), Chip8Error>)
        requires
            old(self).wf(),
        ensures
            final(self).wf(),
            outcome(r, old(self)@, final(self)@, execute_draw(old(self)@, op)),
    {
        proof {
            lemma_fields(op);
        }
        let vx = self.v_reg[((op >> 8) & 0xF) as usize];
        let vy = self.v_reg[((op >> 4) & 0xF) as usize];
        let n = op & 0xF;
        if self.i_reg as usize + n as usize > RAM_SIZE {
            return Err(Chip8Error::AddressOutOfRange);
        }
        let collided = draw_sprite(&mut self.screen, &self.ram, self.i_reg, n, vx, vy);
        self.v_reg.set(FLAG, if collided { 1 } else { 0 });
        Ok(())
    }

    /// Families 9 to F, but for the drawing instruction.
    fn execute_high(&mut self, op: u16, rnd: u8) -> (r: Result<(), Chip8Error>)
        requires
            old(self).wf(),
            2 <= old(self).pc <= RAM_SIZE,
            nib1(op) >= 9,
            nib1(op) != 0xD,
        ensures
            final(self).wf(),
            outcome(r, old(self)@, final(self)@, execute_high(old(self)@, op, rnd)),
    {
        proof {
            lemma_fields(op);
        }
        let d1 = op >> 12;
        let x = ((op >> 8) & 0xF) as usize;
        let y = ((op >> 4) & 0xF) as usize;
        let n = op & 0xF;
        let lo = (op & 0xFF) as u8;
        let vx = self.v_reg[x];
        if d1 == 9 && n == 0 {
            let cond = vx != self.v_reg[y];
            self.skip_if(cond);
        } else if d1 == 0xA {
            self.i_reg = op & 0xFFF;
        } else if d1 == 0xB {
            self.pc = self.v_reg[0] as u16 + (op & 0xFFF);
        } else if d1 == 0xC {
            self.v_reg.set(x, rnd & lo);
        } else if d1 == 0xE && (lo == 0x9E || lo == 0xA1) {
            if vx as usize >= NUM_KEYS {
                return Err(Chip8Error::IndexOutOfRange);
            }
            let pressed = self.keys[vx as usize];
            let cond = if lo == 0x9E { pressed } else { !pressed };
            self.skip_if(cond);
        } else if d1 == 0xF && lo == 0x07 {
            self.v_reg.set(x, self.dt);
        } else if d1 == 0xF && lo == 0x0A {
            match first_pressed(&self.keys) {
                Some(k) => {
                    self.v_reg.set(x, k as u8);
                },
                None => {
                    self.pc = self.pc - 2;
                },
            }
        } else if d1 == 0xF && lo == 0x15 {
            self.dt = vx;
        } else if d1 == 0xF && lo == 0x18 {
            self.st = vx;
        } else if d1 == 0xF && lo == 0x1E {
            self.i_reg = ((self.i_reg as u32 + vx as u32) % 0x10000) as u16;
        } else if d1 == 0xF && lo == 0x29 {
            self.i_reg = vx as u16 * 5;
        } else if d1 == 0xF && lo == 0x33 {
            let i = self.i_reg as usize;
            if i + 3 > RAM_SIZE {
                return Err(Chip8Error::AddressOutOfRange);
            }
            self.ram.set(i, vx / 100);
            self.ram.set(i + 1, (vx / 10) % 10);
            self.ram.set(i + 2, vx % 10);
        } else if d1 == 0xF && lo == 0x55 {
            let i = self.i_reg as usize;
            if i + x + 1 > RAM_SIZE {
                return Err(Chip8Error::AddressOutOfRange);
            }
            let ghost m = self@;
            store_registers(&mut self.ram, &self.v_reg, i, x);
            assert(self@.ram =~= execute_high(m, op, rnd).unwrap().ram);
        } else if d1 == 0xF && lo == 0x65 {
            let i = self.i_reg as usize;
            if i + x + 1 > RAM_SIZE {
                return Err(Chip8Error::AddressOutOfRange);
            }
            let ghost m = self@;
            load_registers(&mut self.v_reg, &self.ram, i, x);
            assert(self@.v =~= execute_high(m, op, rnd).unwrap().v);
        } else {
            return Err(Chip8Error::UnimplementedOpcode(op));
        }
        Ok(())
    }

    /// Executes one instruction word; the counter has already moved past it.
    fn execute(&mut self, op: u16, rnd: u8) -> (r: Result<(), Chip8Error>)
        requires
            old(self).wf(),
            2 <= old(self).pc <= RAM_SIZE,
        ensures
            final(self).wf(),
            outcome(r, old(self)@, final(self)@, execute(old(self)@, op, rnd)),
    {
        let d1 = op >> 12;
        if d1 < 8 {
            self.execute_low(op)
        } else if d1 == 8 {
            self.execute_alu(op)
        } else if d1 == 0xD {
            self.execute_draw(op)
        } else {
            self.execute_high(op, rnd)
        }
    }

    /// One fetch-decode-execute cycle, with `rnd` as the byte that the random
    /// instruction masks. On failure the machine is left as it was.
    pub fn tick_with(&mut self, rnd: u8) -> (r: Result<(), Chip8Error>)
        requires
            old(self).wf(),
        ensures
            final(self).wf(),
            outcome(r, old(self)@, final(self)@, step(old(self)@, rnd)),
    {
        if self.pc as usize + 1 >= RAM_SIZE {
            return Err(Chip8Error::AddressOutOfRange);
        }
        let ghost before = self@;
        let op = self.fetch();
        let r = self.execute(op, rnd);
        if r.is_err() {
            self.pc = self.pc - 2;
            assert(self@ == before);
        }
        r
    }

    /// One fetch-decode-execute cycle, drawing the byte for the random
    /// instruction from the thread-local generator. On failure the machine is
    /// left as it was.
    pub fn tick(&mut self) -> (r: Result<(), Chip8Error>)
        requires
            old(self).wf(),
        ensures
            final(self).wf(),
            exists|rnd: u8| #[trigger] outcome(r, old(self)@, final(self)@, step(old(self)@, rnd)),
    {
        let rnd = random_byte();
        let r = self.tick_with(rnd);
        assert(outcome(r, old(self)@, self@, step(old(self)@, rnd)));
        r
    }

    /// The address of the next instruction word.
    pub fn program_counter(&self) -> (r: u16)
        ensures
            r == self@.pc,
    {
        self.pc
    }

    /// General-purpose register x; register 15 is the flag register.
    pub fn register(&self, x: usize) -> (r: u8)
        requires
            self.wf(),
            x < NUM_REGS,
        ensures
            r == self@.v[x as int],
    {
        self.v_reg[x]
    }

    /// The index register.
    pub fn index_register(&self) -> (r: u16)
        ensures
            r == self@.i,
    {
        self.i_reg
    }

    /// The number of return addresses on the stack.
    pub fn stack_pointer(&self) -> (r: u16)
        ensures
            r == self@.sp,
    {
        self.sp
    }

    pub fn delay_timer(&self) -> (r: u8)
        ensures
            r == self@.dt,
    {
        self.dt
    }

    pub fn sound_timer(&self) -> (r: u8)
        ensures
            r == self@.st,
    {
        self.st
    }

    /// The byte at address `addr`.
    pub fn memory(&self, addr: usize) -> (r: u8)
        requires
            self.wf(),
            addr < RAM_SIZE,
        ensures
            r == self@.ram[addr as int],
    {
        self.ram[addr]
    }
}

} // verus!
