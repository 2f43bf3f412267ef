use vstd::prelude::*;

verus! {

/// Size of the addressable memory in bytes.
pub const RAM_SIZE: usize = 4096;

/// Address at which a program image is placed and execution starts.
pub const START_ADDR: u16 = 0x200;

/// Number of bytes of the built-in hexadecimal font.
pub const FONTSET_SIZE: usize = 80;

pub const SCREEN_WIDTH: usize = 64;

pub const SCREEN_HEIGHT: usize = 32;

pub const NUM_PIXELS: usize = 2048;

pub const NUM_REGS: usize = 16;

pub const STACK_SIZE: usize = 16;

pub const NUM_KEYS: usize = 16;

/// Index of the flag register.
pub const FLAG: usize = 15;

/// The ways in which an operation on the machine can fail.
#[derive(Debug, Clone, Copy, PartialEq, Eq, Structural)]
pub enum Chip8Error {
    /// A program image does not fit in memory after the start address.
    MemoryOverflow,
    /// An instruction word matches no known pattern.
    UnimplementedOpcode(u16),
    /// A key index lies outside the keypad.
    IndexOutOfRange,
    /// An instruction reads or writes memory past its end.
    AddressOutOfRange,
    /// A call with all stack slots in use.
    StackOverflow,
    /// A return with an empty stack.
    StackUnderflow,
}

/// The whole state of the machine, as mathematical values.
pub struct Machine {
    pub pc: u16,
    pub ram: Seq<u8>,
    pub v: Seq<u8>,
    pub screen: Seq<bool>,
    pub i: u16,
    pub sp: u16,
    pub stack: Seq<u16>,
    pub keys: Seq<bool>,
    pub dt: u8,
    pub st: u8,
}

impl Machine {
    /// Every component has its fixed size and the stack pointer is in bounds.
    pub open spec fn wf(self) -> bool {
        &&& self.ram.len() == RAM_SIZE
        &&& self.v.len() == NUM_REGS
        &&& self.screen.len() == NUM_PIXELS
        &&& self.stack.len() == STACK_SIZE
        &&& self.keys.len() == NUM_KEYS
        &&& self.sp <= STACK_SIZE
    }
}

/// The sixteen glyphs 0..F, five rows each.
pub open spec fn font() -> Seq<u8> {
    seq![
        0xF0u8, 0x90, 0x90, 0x90, 0xF0,
        0x20, 0x60, 0x20, 0x20, 0x70,
        0xF0, 0x10, 0xF0, 0x80, 0xF0,
        0xF0, 0x10, 0xF0, 0x10, 0xF0,
        0x90, 0x90, 0xF0, 0x10, 0x10,
        0xF0, 0x80, 0xF0, 0x10, 0xF0,
        0xF0, 0x80, 0xF0, 0x90, 0xF0,
        0xF0, 0x10, 0x20, 0x40, 0x40,
        0xF0, 0x90, 0xF0, 0x90, 0xF0,
        0xF0, 0x90, 0xF0, 0x10, 0xF0,
        0xF0, 0x90, 0xF0, 0x90, 0x90,
        0xE0, 0x90, 0xE0, 0x90, 0xE0,
        0xF0, 0x80, 0x80, 0x80, 0xF0,
        0xE0, 0x90, 0x90, 0x90, 0xE0,
        0xF0, 0x80, 0xF0, 0x80, 0xF0,
        0xF0, 0x80, 0xF0, 0x80, 0x80
    ]
}

/// Memory at power-on: the font, then zeros.
pub open spec fn initial_ram() -> Seq<u8> {
    font() + Seq::new((RAM_SIZE - FONTSET_SIZE) as nat, |k: int| 0u8)
}

pub open spec fn blank_screen() -> Seq<bool> {
    Seq::new(NUM_PIXELS as nat, |k: int| false)
}

/// The startup state.
pub open spec fn power_on() -> Machine {
    Machine {
        pc: START_ADDR,
        ram: initial_ram(),
        v: Seq::new(NUM_REGS as nat, |k: int| 0u8),
        screen: blank_screen(),
        i: 0,
        sp: 0,
        stack: Seq::new(STACK_SIZE as nat, |k: int| 0u16),
        keys: Seq::new(NUM_KEYS as nat, |k: int| false),
        dt: 0,
        st: 0,
    }
}

/// Copying a program image to the start address, or the reason it does not fit.
pub open spec fn load_image(m: Machine, data: Seq<u8>) -> Result<Machine, Chip8Error> {
    if data.len() > RAM_SIZE - START_ADDR {
        Err(Chip8Error::MemoryOverflow)
    } else {
        Ok(
            Machine {
                ram: m.ram.subrange(0, START_ADDR as int) + data + m.ram.subrange(
                    START_ADDR + data.len(),
                    RAM_SIZE as int,
                ),
                ..m
            },
        )
    }
}

/// The big-endian word formed by two bytes.
pub open spec fn word(hi: u8, lo: u8) -> u16 {
    ((hi as u16) << 8u16) | (lo as u16)
}

/// Whether the word at the program counter lies inside memory.
pub open spec fn can_fetch(m: Machine) -> bool {
    m.pc + 1 < RAM_SIZE
}

/// The instruction word at the program counter.
pub open spec fn opcode_at(m: Machine) -> u16 {
    word(m.ram[m.pc as int], m.ram[m.pc + 1])
}

pub open spec fn nib1(op: u16) -> u16 {
    op >> 12u16
}

pub open spec fn nib2(op: u16) -> u16 {
    (op >> 8u16) & 0xFu16
}

pub open spec fn nib3(op: u16) -> u16 {
    (op >> 4u16) & 0xFu16
}

pub open spec fn nib4(op: u16) -> u16 {
    op & 0xFu16
}

pub open spec fn low_byte(op: u16) -> u8 {
    (op & 0xFFu16) as u8
}

pub open spec fn low12(op: u16) -> u16 {
    op & 0xFFFu16
}

/// Bit `c` of a sprite row, counted from the most significant bit.
pub open spec fn sprite_bit(row: u8, c: u8) -> bool {
    row & (0x80u8 >> c) != 0
}

/// The pixel index that sprite cell (r, c) lands on from origin (vx, vy).
pub open spec fn cell_pixel(vx: u8, vy: u8, r: int, c: int) -> int {
    (vx + c) % (SCREEN_WIDTH as int) + (SCREEN_WIDTH as int) * ((vy + r) % (SCREEN_HEIGHT as int))
}

/// The sprite column covering pixel p, measured from vx with wrap-around.
pub open spec fn pixel_col(vx: u8, p: int) -> int {
    (p % (SCREEN_WIDTH as int) - vx) % (SCREEN_WIDTH as int)
}

/// The sprite row covering pixel p, measured from vy with wrap-around.
pub open spec fn pixel_row(vy: u8, p: int) -> int {
    (p / (SCREEN_WIDTH as int) - vy) % (SCREEN_HEIGHT as int)
}

/// Whether the n-row sprite at address i, drawn from (vx, vy), has a lit bit on pixel p.
pub open spec fn sprite_hits(ram: Seq<u8>, i: u16, n: u16, vx: u8, vy: u8, p: int) -> bool {
    let r = pixel_row(vy, p);
    let c = pixel_col(vx, p);
    r < n && c < 8 && sprite_bit(ram[i + r], c as u8)
}

/// Whether a lit sprite bit falls on an already lit pixel.
pub open spec fn sprite_collides(
    ram: Seq<u8>,
    screen: Seq<bool>,
    i: u16,
    n: u16,
    vx: u8,
    vy: u8,
) -> bool {
    exists|r: int, c: int|
        0 <= r < n && 0 <= c < 8 && sprite_bit(ram[i + r], c as u8) && #[trigger] screen[cell_pixel(
            vx,
            vy,
            r,
            c,
        )]
}

/// The screen after XOR-ing the sprite onto it.
pub open spec fn drawn_screen(
    ram: Seq<u8>,
    screen: Seq<bool>,
    i: u16,
    n: u16,
    vx: u8,
    vy: u8,
) -> Seq<bool> {
    Seq::new(screen.len(), |p: int| screen[p] != sprite_hits(ram, i, n, vx, vy, p))
}

pub open spec fn flag_of(b: bool) -> u8 {
    if b {
        1
    } else {
        0
    }
}

/// The lowest index of a pressed key at or after k, if any.
pub open spec fn first_pressed_from(keys: Seq<bool>, k: int) -> Option<int>
    decreases keys.len() - k,
{
    if k >= keys.len() {
        None
    } else if keys[k] {
        Some(k)
    } else {
        first_pressed_from(keys, k + 1)
    }
}

/// Sets register x to `val`.
pub open spec fn set_reg(m: Machine, x: int, val: u8) -> Machine {
    Machine { v: m.v.update(x, val), ..m }
}

/// Sets register x to `val`, then the flag register to `flag`.
pub open spec fn set_reg_flag(m: Machine, x: int, val: u8, flag: u8) -> Machine {
    Machine { v: m.v.update(x, val).update(FLAG as int, flag), ..m }
}

/// Advances the program counter past the next instruction when `cond` holds.
pub open spec fn skip_if(m: Machine, cond: bool) -> Machine {
    if cond {
        Machine { pc: (m.pc + 2) as u16, ..m }
    } else {
        m
    }
}

/// Families 0 to 7 of the instruction set, on a machine whose counter has advanced.
pub open spec fn execute_low(m: Machine, op: u16) -> Result<Machine, Chip8Error> {
    let (d1, x, y, n) = (nib1(op), nib2(op) as int, nib3(op) as int, nib4(op));
    let nn = low_byte(op);
    if op == 0x0000 {
        Ok(m)
    } else if op == 0x00E0 {
        Ok(Machine { screen: blank_screen(), ..m })
    } else if op == 0x00EE {
        if m.sp == 0 {
            Err(Chip8Error::StackUnderflow)
        } else {
            Ok(Machine { sp: (m.sp - 1) as u16, pc: m.stack[m.sp - 1], ..m })
        }
    } else if d1 == 1 {
        Ok(Machine { pc: low12(op), ..m })
    } else if d1 == 2 {
        if m.sp >= STACK_SIZE {
            Err(Chip8Error::StackOverflow)
        } else {
            Ok(
                Machine {
                    stack: m.stack.update(m.sp as int, m.pc),
                    sp: (m.sp + 1) as u16,
                    pc: low12(op),
                    ..m
                },
            )
        }
    } else if d1 == 3 {
        Ok(skip_if(m, m.v[x] == nn))
    } else if d1 == 4 {
        Ok(skip_if(m, m.v[x] != nn))
    } else if d1 == 5 && n == 0 {
        Ok(skip_if(m, m.v[x] == m.v[y]))
    } else if d1 == 6 {
        Ok(set_reg(m, x, nn))
    } else if d1 == 7 {
        Ok(set_reg(m, x, ((m.v[x] + nn) % 256) as u8))
    } else {
        Err(Chip8Error::UnimplementedOpcode(op))
    }
}

/// Family 8: register-to-register arithmetic and logic.
pub open spec fn execute_alu(m: Machine, op: u16) -> Result<Machine, Chip8Error> {
    let (x, y, n) = (nib2(op) as int, nib3(op) as int, nib4(op));
    let (vx, vy) = (m.v[x], m.v[y]);
    if n == 0 {
        Ok(set_reg(m, x, vy))
    } else if n == 1 {
        Ok(set_reg(m, x, vx | vy))
    } else if n == 2 {
        Ok(set_reg(m, x, vx & vy))
    } else if n == 3 {
        Ok(set_reg(m, x, vx ^ vy))
    } else if n == 4 {
        Ok(set_reg_flag(m, x, ((vx + vy) % 256) as u8, flag_of(vx + vy > 255)))
    } else if n == 5 {
        Ok(set_reg_flag(m, x, ((vx - vy) % 256) as u8, flag_of(vx >= vy)))
    } else if n == 6 {
        Ok(set_reg_flag(m, x, vx / 2, vx % 2))
    } else if n == 7 {
        Ok(set_reg_flag(m, x, ((vy - vx) % 256) as u8, flag_of(vy >= vx)))
    } else if n == 0xE {
        Ok(set_reg_flag(m, x, ((vx * 2) % 256) as u8, vx / 128))
    } else {
        Err(Chip8Error::UnimplementedOpcode(op))
    }
}

/// The sprite-drawing instruction DXYN.
pub open spec fn execute_draw(m: Machine, op: u16) -> Result<Machine, Chip8Error> {
    let (vx, vy, n) = (m.v[nib2(op) as int], m.v[nib3(op) as int], nib4(op));
    if m.i + n > RAM_SIZE {
        Err(Chip8Error::AddressOutOfRange)
    } else {
        Ok(
            Machine {
                screen: drawn_screen(m.ram, m.screen, m.i, n, vx, vy),
                v: m.v.update(FLAG as int, flag_of(sprite_collides(m.ram, m.screen, m.i, n, vx, vy))),
                ..m
            },
        )
    }
}

/// Families 9 to F, but for the drawing instruction.
pub open spec fn execute_high(m: Machine, op: u16, rnd: u8) -> Result<Machine, Chip8Error> {
    let (d1, x, y, n) = (nib1(op), nib2(op) as int, nib3(op) as int, nib4(op));
    let lo = low_byte(op);
    let vx = m.v[x];
    if d1 == 9 && n == 0 {
        Ok(skip_if(m, vx != m.v[y]))
    } else if d1 == 0xA {
        Ok(Machine { i: low12(op), ..m })
    } else if d1 == 0xB {
        Ok(Machine { pc: (m.v[0] + low12(op)) as u16, ..m })
    } else if d1 == 0xC {
        Ok(set_reg(m, x, rnd & lo))
    } else if d1 == 0xE && (lo == 0x9E || lo == 0xA1) {
        if vx >= NUM_KEYS {
            Err(Chip8Error::IndexOutOfRange)
        } else if lo == 0x9E {
            Ok(skip_if(m, m.keys[vx as int]))
        } else {
            Ok(skip_if(m, !m.keys[vx as int]))
        }
    } else if d1 == 0xF && lo == 0x07 {
        Ok(set_reg(m, x, m.dt))
    } else if d1 == 0xF && lo == 0x0A {
        match first_pressed_from(m.keys, 0) {
            Some(k) => Ok(set_reg(m, x, k as u8)),
            None => Ok(Machine { pc: (m.pc - 2) as u16, ..m }),
        }
    } else if d1 == 0xF && lo == 0x15 {
        Ok(Machine { dt: vx, ..m })
    } else if d1 == 0xF && lo == 0x18 {
        Ok(Machine { st: vx, ..m })
    } else if d1 == 0xF && lo == 0x1E {
        Ok(Machine { i: ((m.i + vx) % 0x10000) as u16, ..m })
    } else if d1 == 0xF && lo == 0x29 {
        Ok(Machine { i: (vx * 5) as u16, ..m })
    } else if d1 == 0xF && lo == 0x33 {
        if m.i + 3 > RAM_SIZE {
            Err(Chip8Error::AddressOutOfRange)
        } else {
            Ok(
                Machine {
                    ram: m.ram.update(m.i as int, vx / 100).update(m.i + 1, (vx / 10) % 10).update(
                        m.i + 2,
                        vx % 10,
                    ),
                    ..m
                },
            )
        }
    } else if d1 == 0xF && lo == 0x55 {
        if m.i + x + 1 > RAM_SIZE {
            Err(Chip8Error::AddressOutOfRange)
        } else {
            Ok(
                Machine {
                    ram: Seq::new(
                        m.ram.len(),
                        |a: int|
                            if m.i <= a <= m.i + x {
                                m.v[a - m.i]
                            } else {
                                m.ram[a]
                            },
                    ),
                    ..m
                },
            )
        }
    } else if d1 == 0xF && lo == 0x65 {
        if m.i + x + 1 > RAM_SIZE {
            Err(Chip8Error::AddressOutOfRange)
        } else {
            Ok(
                Machine {
                    v: Seq::new(
                        m.v.len(),
                        |r: int|
                            if r <= x {
                                m.ram[m.i + r]
                            } else {
                                m.v[r]
                            },
                    ),
                    ..m
                },
            )
        }
    } else {
        Err(Chip8Error::UnimplementedOpcode(op))
    }
}

/// The effect of one instruction word on a machine whose counter has already advanced past it.
/// `rnd` is the byte that the random instruction masks.
pub open spec fn execute(m: Machine, op: u16, rnd: u8) -> Result<Machine, Chip8Error> {
    let d1 = nib1(op);
    if d1 < 8 {
        execute_low(m, op)
    } else if d1 == 8 {
        execute_alu(m, op)
    } else if d1 == 0xD {
        execute_draw(m, op)
    } else {
        execute_high(m, op, rnd)
    }
}

/// One full cycle: fetch the word at the counter, advance by two, execute.
pub open spec fn step(m: Machine, rnd: u8) -> Result<Machine, Chip8Error> {
    if !can_fetch(m) {
        Err(Chip8Error::AddressOutOfRange)
    } else {
        execute(Machine { pc: (m.pc + 2) as u16, ..m }, opcode_at(m), rnd)
    }
}

/// The timers after one timer tick.
pub open spec fn timers_ticked(m: Machine) -> Machine {
    Machine {
        dt: if m.dt > 0 {
            (m.dt - 1) as u8
        } else {
            0
        },
        st: if m.st > 0 {
            (m.st - 1) as u8
        } else {
            0
        },
        ..m
    }
}

} // verus!
