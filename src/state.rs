use vstd::prelude::*;
use vstd::arithmetic::div_mod::{
    lemma_div_pos_is_pos, lemma_fundamental_div_mod, lemma_fundamental_div_mod_converse,
    lemma_mod_pos_bound, lemma_multiply_divide_lt,
};

verus! {

/// Size of the memory image in bytes.
pub const MEMORY_SIZE: usize = 4096;

/// Address at which a program image is loaded and execution starts.
pub const PROGRAM_START: usize = 0x200;

/// Number of bytes taken by the glyph table at the base of memory.
pub const GLYPH_TABLE_SIZE: usize = 80;

/// Number of general-purpose registers.
pub const REGISTER_COUNT: usize = 16;

/// Number of return addresses the call stack can hold.
pub const STACK_CAPACITY: usize = 16;

/// Number of keys in the input latch.
pub const KEY_COUNT: usize = 16;

/// Index of the register that reports carry, borrow and collision.
pub const FLAG: usize = 15;

/// Failures that stop the machine.
#[derive(Debug, Clone, Copy, PartialEq, Eq, Structural)]
pub enum Chip8Error {
    /// The instruction word matches no defined encoding.
    UnknownOpcode(u16),
    /// A call was made while the call stack already held its full capacity.
    StackOverflow,
    /// A return was made with an empty call stack.
    StackUnderflow,
    /// A fetch, read or write fell outside the memory image, or a write
    /// would have touched the glyph table.
    AddressOutOfRange,
    /// The program image does not fit between the load address and the end of memory.
    ProgramTooLarge,
}

/// What the engine does after a cycle.
#[derive(Debug, Clone, Copy, PartialEq, Eq, Structural)]
pub enum Status {
    /// Fetch and execute go on at the next cycle.
    Running,
    /// The key-wait instruction found no key pressed; it runs again at the next cycle.
    AwaitingKey,
}

/// The 80-byte table of glyphs for the hexadecimal digits, five rows each.
pub open spec fn glyph_table() -> Seq<u8> {
    seq![
        0xF0u8, 0x90, 0x90, 0x90, 0xF0,
        0x20, 0x60, 0x20, 0x20, 0x70,
        0xF0, 0x10, 0xF0, 0x80, 0xF0,
        0xF0, 0x10, 0xF0, 0x10, 0xF0,
        0x90, 0x90, 0xF0, 0x10, 0x10,
        0xF0, 0x80, 0xF0, 0x10, 0xF0,
        0xF0, 0x80, 0xF0, 0x90, 0xF0,
        0xF0, 0x10, 0x20, 0x40, 0x40,
        0xF0, 0x90, 0xF0, 0x90, 0xF0,
        0xF0, 0x90, 0xF0, 0x10, 0xF0,
        0xF0, 0x90, 0xF0, 0x90, 0x90,
        0xE0, 0x90, 0xE0, 0x90, 0xE0,
        0xF0, 0x80, 0x80, 0x80, 0xF0,
        0xE0, 0x90, 0x90, 0x90, 0xE0,
        0xF0, 0x80, 0xF0, 0x80, 0xF0,
        0xF0, 0x80, 0xF0, 0x80, 0x80,
    ]
}

pub open spec fn wrap8(v: int) -> u8 {
    (v % 256) as u8
}

pub open spec fn wrap16(v: int) -> u16 {
    (v % 65536) as u16
}

/// Distance from `origin` forward to `c` on a ring of `size` cells.
pub open spec fn ring_offset(origin: int, c: int, size: int) -> int {
    (c + size - origin % size) % size
}

/// The mathematical model of a machine: memory, registers, call stack,
/// timers, input latch and a `width` by `height` framebuffer stored row by row.
pub struct Chip8State {
    pub memory: Seq<u8>,
    pub registers: Seq<u8>,
    pub stack: Seq<u16>,
    pub i: u16,
    pub pc: u16,
    pub delay: u8,
    pub sound: u8,
    pub keys: Seq<bool>,
    pub width: nat,
    pub height: nat,
    pub screen: Seq<bool>,
}

impl Chip8State {
    pub open spec fn wf(self) -> bool {
        &&& self.memory.len() == MEMORY_SIZE
        &&& self.registers.len() == REGISTER_COUNT
        &&& self.stack.len() <= STACK_CAPACITY
        &&& self.keys.len() == KEY_COUNT
        &&& 8 <= self.width <= 4096
        &&& 16 <= self.height <= 4096
        &&& self.screen.len() == self.width * self.height
        &&& self.memory.subrange(0, GLYPH_TABLE_SIZE as int) == glyph_table()
    }

    pub open spec fn reg(self, x: int) -> u8 {
        self.registers[x]
    }

    pub open spec fn set_reg(self, x: int, v: u8) -> Chip8State {
        Chip8State { registers: self.registers.update(x, v), ..self }
    }

    pub open spec fn set_pc(self, pc: u16) -> Chip8State {
        Chip8State { pc, ..self }
    }

    pub open spec fn set_i(self, i: u16) -> Chip8State {
        Chip8State { i, ..self }
    }

    /// Moves the program counter past one more instruction when `cond` holds.
    pub open spec fn skip_if(self, cond: bool) -> Chip8State {
        if cond {
            self.set_pc(wrap16(self.pc + 2))
        } else {
            self
        }
    }

    /// The framebuffer cell at column `cx` and row `cy`.
    pub open spec fn pixel(self, cx: int, cy: int) -> bool {
        self.screen[cy * self.width + cx]
    }

    /// Whether key `k` is pressed; a value beyond the last key names no key.
    pub open spec fn key_pressed(self, k: int) -> bool {
        0 <= k < KEY_COUNT && self.keys[k]
    }

    /// The lowest pressed key at index `k` or above.
    pub open spec fn first_pressed_from(self, k: int) -> Option<int>
        decreases KEY_COUNT - k,
    {
        if k < 0 || k >= KEY_COUNT {
            None
        } else if self.keys[k] {
            Some(k)
        } else {
            self.first_pressed_from(k + 1)
        }
    }

    pub open spec fn cls(self) -> Chip8State {
        Chip8State { screen: Seq::new(self.screen.len(), |c: int| false), ..self }
    }

    pub open spec fn ret(self) -> Result<Chip8State, Chip8Error> {
        if self.stack.len() == 0 {
            Err(Chip8Error::StackUnderflow)
        } else {
            Ok(Chip8State { pc: self.stack.last(), stack: self.stack.drop_last(), ..self })
        }
    }

    pub open spec fn jp(self, nnn: u16) -> Chip8State {
        self.set_pc(nnn)
    }

    pub open spec fn call(self, nnn: u16) -> Result<Chip8State, Chip8Error> {
        if self.stack.len() >= STACK_CAPACITY {
            Err(Chip8Error::StackOverflow)
        } else {
            Ok(Chip8State { pc: nnn, stack: self.stack.push(self.pc), ..self })
        }
    }

    pub open spec fn se(self, x: int, kk: u8) -> Chip8State {
        self.skip_if(self.reg(x) == kk)
    }

    pub open spec fn sne(self, x: int, kk: u8) -> Chip8State {
        self.skip_if(self.reg(x) != kk)
    }

    pub open spec fn se_vx_vy(self, x: int, y: int) -> Chip8State {
        self.skip_if(self.reg(x) == self.reg(y))
    }

    pub open spec fn sne_vx_vy(self, x: int, y: int) -> Chip8State {
        self.skip_if(self.reg(x) != self.reg(y))
    }

    pub open spec fn ld(self, x: int, kk: u8) -> Chip8State {
        self.set_reg(x, kk)
    }

    pub open spec fn add(self, x: int, kk: u8) -> Chip8State {
        self.set_reg(x, wrap8(self.reg(x) + kk))
    }

    pub open spec fn ld_vx_vy(self, x: int, y: int) -> Chip8State {
        self.set_reg(x, self.reg(y))
    }

    pub open spec fn or(self, x: int, y: int) -> Chip8State {
        self.set_reg(x, self.reg(x) | self.reg(y))
    }

    pub open spec fn and(self, x: int, y: int) -> Chip8State {
        self.set_reg(x, self.reg(x) & self.reg(y))
    }

    pub open spec fn xor(self, x: int, y: int) -> Chip8State {
        self.set_reg(x, self.reg(x) ^ self.reg(y))
    }

    /// The sum goes to `x` first, then the carry to the flag register.
    pub open spec fn add_vx_vy(self, x: int, y: int) -> Chip8State {
        let sum = self.reg(x) + self.reg(y);
        self.set_reg(x, wrap8(sum)).set_reg(FLAG as int, if sum > 255 { 1u8 } else { 0u8 })
    }

    /// The no-borrow flag goes to the flag register first, then the difference to `x`.
    pub open spec fn sub(self, x: int, y: int) -> Chip8State {
        let vx = self.reg(x);
        let vy = self.reg(y);
        self.set_reg(FLAG as int, if vx > vy { 1u8 } else { 0u8 }).set_reg(x, wrap8(vx - vy))
    }

    pub open spec fn shr(self, x: int) -> Chip8State {
        let vx = self.reg(x);
        self.set_reg(FLAG as int, vx & 1).set_reg(x, vx >> 1u8)
    }

    pub open spec fn subn(self, x: int, y: int) -> Chip8State {
        let vx = self.reg(x);
        let vy = self.reg(y);
        self.set_reg(FLAG as int, if vy > vx { 1u8 } else { 0u8 }).set_reg(x, wrap8(vy - vx))
    }

    pub open spec fn shl(self, x: int) -> Chip8State {
        let vx = self.reg(x);
        self.set_reg(FLAG as int, vx >> 7u8).set_reg(x, wrap8(vx * 2))
    }

    pub open spec fn ld_i(self, nnn: u16) -> Chip8State {
        self.set_i(nnn)
    }

    pub open spec fn jp_v0(self, nnn: u16) -> Chip8State {
        self.set_pc(wrap16(self.reg(0) + nnn))
    }

    /// The register receives the drawn byte masked by `kk`.
    pub open spec fn rnd(self, x: int, kk: u8, drawn: u8) -> Chip8State {
        self.set_reg(x, drawn & kk)
    }

    /// Bit `col` (0 = leftmost) of sprite row `row`, read at the address register.
    pub open spec fn sprite_bit(self, row: int, col: int) -> bool {
        (self.memory[self.i + row] >> ((7 - col) as u8)) & 1u8 == 1u8
    }

    /// Whether a set sprite bit lands on cell `c` when an `n`-row sprite is
    /// drawn with its top-left corner at (`vx`, `vy`), wrapping on both axes.
    pub open spec fn draw_hit(self, vx: u8, vy: u8, n: int, c: int) -> bool {
        let dx = ring_offset(vx as int, c % (self.width as int), self.width as int);
        let dy = ring_offset(vy as int, c / (self.width as int), self.height as int);
        dx < 8 && dy < n && self.sprite_bit(dy, dx)
    }

    pub open spec fn draw_collides(self, vx: u8, vy: u8, n: int) -> bool {
        exists|c: int| 0 <= c < self.screen.len() && #[trigger] self.screen[c] && self.draw_hit(vx, vy, n, c)
    }

    pub open spec fn drw(self, x: int, y: int, n: int) -> Result<Chip8State, Chip8Error> {
        if n > 0 && self.i + n > MEMORY_SIZE {
            Err(Chip8Error::AddressOutOfRange)
        } else {
            let vx = self.reg(x);
            let vy = self.reg(y);
            let screen = Seq::new(
                self.screen.len(),
                |c: int| self.screen[c] != self.draw_hit(vx, vy, n, c),
            );
            let flag: u8 = if self.draw_collides(vx, vy, n) { 1 } else { 0 };
            Ok(Chip8State { screen, ..self }.set_reg(FLAG as int, flag))
        }
    }

    pub open spec fn skp(self, x: int) -> Chip8State {
        self.skip_if(self.key_pressed(self.reg(x) as int))
    }

    pub open spec fn sknp(self, x: int) -> Chip8State {
        self.skip_if(!self.key_pressed(self.reg(x) as int))
    }

    pub open spec fn ld_vx_dt(self, x: int) -> Chip8State {
        self.set_reg(x, self.delay)
    }

    /// With a key pressed, the lowest such key's index goes to `x`; with none,
    /// nothing changes and the machine waits for a key.
    pub open spec fn ld_vx_k(self, x: int) -> (Chip8State, Status) {
        match self.first_pressed_from(0) {
            Some(k) => (self.set_reg(x, k as u8), Status::Running),
            None => (self, Status::AwaitingKey),
        }
    }

    pub open spec fn ld_dt_vx(self, x: int) -> Chip8State {
        Chip8State { delay: self.reg(x), ..self }
    }

    pub open spec fn ld_st_vx(self, x: int) -> Chip8State {
        Chip8State { sound: self.reg(x), ..self }
    }

    pub open spec fn add_i_vx(self, x: int) -> Chip8State {
        self.set_i(wrap16(self.i + self.reg(x)))
    }

    /// The glyph of the register's low nibble.
    pub open spec fn ld_f_vx(self, x: int) -> Chip8State {
        self.set_i(((self.reg(x) % 16) * 5) as u16)
    }

    /// Whether `len` bytes from the address register lie in writable memory.
    pub open spec fn writable(self, len: int) -> bool {
        GLYPH_TABLE_SIZE <= self.i && self.i + len <= MEMORY_SIZE
    }

    pub open spec fn ld_b_vx(self, x: int) -> Result<Chip8State, Chip8Error> {
        if !self.writable(3) {
            Err(Chip8Error::AddressOutOfRange)
        } else {
            let v = self.reg(x);
            let memory = self.memory.update(self.i as int, v / 100).update(
                self.i + 1,
                (v / 10) % 10,
            ).update(self.i + 2, v % 10);
            Ok(Chip8State { memory, ..self })
        }
    }

    pub open spec fn ld_i_vx(self, x: int) -> Result<Chip8State, Chip8Error> {
        if !self.writable(x + 1) {
            Err(Chip8Error::AddressOutOfRange)
        } else {
            let memory = Seq::new(
                self.memory.len(),
                |a: int|
                    if self.i <= a <= self.i + x {
                        self.registers[a - self.i]
                    } else {
                        self.memory[a]
                    },
            );
            Ok(Chip8State { memory, ..self })
        }
    }

    pub open spec fn ld_vx_i(self, x: int) -> Result<Chip8State, Chip8Error> {
        if self.i + x + 1 > MEMORY_SIZE {
            Err(Chip8Error::AddressOutOfRange)
        } else {
            let registers = Seq::new(
                self.registers.len(),
                |k: int|
                    if k <= x {
                        self.memory[self.i + k]
                    } else {
                        self.registers[k]
                    },
            );
            Ok(Chip8State { registers, ..self })
        }
    }
}

} // verus!

verus! {

/// Register selector X of an instruction word.
pub open spec fn op_x(op: u16) -> int {
    ((op & 0x0F00) >> 8u16) as int
}

/// Register selector Y of an instruction word.
pub open spec fn op_y(op: u16) -> int {
    ((op & 0x00F0) >> 4u16) as int
}

/// Low nibble of an instruction word.
pub open spec fn op_n(op: u16) -> int {
    (op & 0x000F) as int
}

/// 12-bit address immediate of an instruction word.
pub open spec fn op_nnn(op: u16) -> u16 {
    op & 0x0FFF
}

/// 8-bit immediate of an instruction word.
pub open spec fn op_kk(op: u16) -> u8 {
    (op & 0x00FF) as u8
}

pub open spec fn running(r: Result<Chip8State, Chip8Error>) -> Result<(Chip8State, Status), Chip8Error> {
    match r {
        Ok(s) => Ok((s, Status::Running)),
        Err(e) => Err(e),
    }
}

impl Chip8State {
    /// The effect of one instruction word, with the program counter already
    /// past it; `drawn` is the byte a random draw would give.
    pub open spec fn execute(self, op: u16, drawn: u8) -> Result<(Chip8State, Status), Chip8Error> {
        let x = op_x(op);
        let y = op_y(op);
        let nnn = op_nnn(op);
        let kk = op_kk(op);
        let hi = op >> 12u16;
        let low = op & 0x000F;
        if hi == 0x0 {
            if op == 0x00E0 {
                running(Ok(self.cls()))
            } else if op == 0x00EE {
                running(self.ret())
            } else {
                Err(Chip8Error::UnknownOpcode(op))
            }
        } else if hi == 0x1 {
            running(Ok(self.jp(nnn)))
        } else if hi == 0x2 {
            running(self.call(nnn))
        } else if hi == 0x3 {
            running(Ok(self.se(x, kk)))
        } else if hi == 0x4 {
            running(Ok(self.sne(x, kk)))
        } else if hi == 0x5 {
            running(Ok(self.se_vx_vy(x, y)))
        } else if hi == 0x6 {
            running(Ok(self.ld(x, kk)))
        } else if hi == 0x7 {
            running(Ok(self.add(x, kk)))
        } else if hi == 0x8 {
            if low == 0x0 {
                running(Ok(self.ld_vx_vy(x, y)))
            } else if low == 0x1 {
                running(Ok(self.or(x, y)))
            } else if low == 0x2 {
                running(Ok(self.and(x, y)))
            } else if low == 0x3 {
                running(Ok(self.xor(x, y)))
            } else if low == 0x4 {
                running(Ok(self.add_vx_vy(x, y)))
            } else if low == 0x5 {
                running(Ok(self.sub(x, y)))
            } else if low == 0x6 {
                running(Ok(self.shr(x)))
            } else if low == 0x7 {
                running(Ok(self.subn(x, y)))
            } else if low == 0xE {
                running(Ok(self.shl(x)))
            } else {
                Err(Chip8Error::UnknownOpcode(op))
            }
        } else if hi == 0x9 {
            running(Ok(self.sne_vx_vy(x, y)))
        } else if hi == 0xA {
            running(Ok(self.ld_i(nnn)))
        } else if hi == 0xB {
            running(Ok(self.jp_v0(nnn)))
        } else if hi == 0xC {
            running(Ok(self.rnd(x, kk, drawn)))
        } else if hi == 0xD {
            running(self.drw(x, y, op_n(op)))
        } else if hi == 0xE {
            if kk == 0x9E {
                running(Ok(self.skp(x)))
            } else if kk == 0xA1 {
                running(Ok(self.sknp(x)))
            } else {
                Err(Chip8Error::UnknownOpcode(op))
            }
        } else {
            if kk == 0x07 {
                running(Ok(self.ld_vx_dt(x)))
            } else if kk == 0x0A {
                Ok(self.ld_vx_k(x))
            } else if kk == 0x15 {
                running(Ok(self.ld_dt_vx(x)))
            } else if kk == 0x18 {
                running(Ok(self.ld_st_vx(x)))
            } else if kk == 0x1E {
                running(Ok(self.add_i_vx(x)))
            } else if kk == 0x29 {
                running(Ok(self.ld_f_vx(x)))
            } else if kk == 0x33 {
                running(self.ld_b_vx(x))
            } else if kk == 0x55 {
                running(self.ld_i_vx(x))
            } else if kk == 0x65 {
                running(self.ld_vx_i(x))
            } else {
                Err(Chip8Error::UnknownOpcode(op))
            }
        }
    }

    /// The big-endian instruction word at the program counter.
    pub open spec fn fetch(self) -> Result<u16, Chip8Error> {
        if self.pc + 1 >= MEMORY_SIZE {
            Err(Chip8Error::AddressOutOfRange)
        } else {
            Ok((self.memory[self.pc as int] * 256 + self.memory[self.pc + 1]) as u16)
        }
    }

    /// Each timer moves one step toward zero.
    pub open spec fn tick(self) -> Chip8State {
        Chip8State {
            delay: if self.delay > 0 { (self.delay - 1) as u8 } else { 0 },
            sound: if self.sound > 0 { (self.sound - 1) as u8 } else { 0 },
            ..self
        }
    }

    /// One fetch-decode-execute cycle; the timers tick unless the machine waits
    /// for a key, in which case the program counter is put back on the
    /// key-wait instruction so that it runs again at the next cycle.
    pub open spec fn cycle(self, drawn: u8) -> Result<(Chip8State, Status), Chip8Error> {
        match self.fetch() {
            Err(e) => Err(e),
            Ok(op) => match self.set_pc(wrap16(self.pc + 2)).execute(op, drawn) {
                Err(e) => Err(e),
                Ok((s, Status::Running)) => Ok((s.tick(), Status::Running)),
                Ok((s, Status::AwaitingKey)) => Ok((s.set_pc(self.pc), Status::AwaitingKey)),
            },
        }
    }

    /// Up to `draws.len()` cycles, one random byte each, stopping at the
    /// first failure or key wait.
    pub open spec fn run(self, draws: Seq<u8>) -> (Chip8State, Result<Status, Chip8Error>)
        decreases draws.len(),
    {
        if draws.len() == 0 {
            (self, Ok(Status::Running))
        } else {
            match self.cycle(draws[0]) {
                Err(e) => (self, Err(e)),
                Ok((s, Status::AwaitingKey)) => (s, Ok(Status::AwaitingKey)),
                Ok((s, Status::Running)) => s.run(draws.drop_first()),
            }
        }
    }

    /// The state after copying `program` to the load address.
    pub open spec fn load(self, program: Seq<u8>) -> Result<Chip8State, Chip8Error> {
        if PROGRAM_START + program.len() > MEMORY_SIZE {
            Err(Chip8Error::ProgramTooLarge)
        } else {
            let memory = Seq::new(
                self.memory.len(),
                |a: int|
                    if PROGRAM_START <= a < PROGRAM_START + program.len() {
                        program[a - PROGRAM_START]
                    } else {
                        self.memory[a]
                    },
            );
            Ok(Chip8State { memory, ..self })
        }
    }
}

/// A freshly powered machine with a `width` by `height` framebuffer.
pub open spec fn initial_state(width: nat, height: nat) -> Chip8State {
    Chip8State {
        memory: Seq::new(
            MEMORY_SIZE as nat,
            |a: int|
                if a < GLYPH_TABLE_SIZE {
                    glyph_table()[a]
                } else {
                    0u8
                },
        ),
        registers: Seq::new(REGISTER_COUNT as nat, |k: int| 0u8),
        stack: Seq::empty(),
        i: 0,
        pc: PROGRAM_START as u16,
        delay: 0,
        sound: 0,
        keys: Seq::new(KEY_COUNT as nat, |k: int| false),
        width,
        height,
        screen: Seq::new(width * height, |c: int| false),
    }
}

} // verus!

verus! {

proof fn lemma_mod_window(t: int, size: int)
    requires
        0 < size,
        0 <= t < 2 * size,
    ensures
        t % size == (if t < size {
            t
        } else {
            t - size
        }),
{
    if t < size {
        lemma_fundamental_div_mod_converse(t, size, 0, t);
    } else {
        lemma_fundamental_div_mod_converse(t, size, 1, t - size);
    }
}

/// Stepping `k` cells forward from `origin` on a ring of `size` cells lands
/// on the one cell whose offset from `origin` is `k`.
pub proof fn lemma_ring_offset(origin: int, k: int, size: int)
    requires
        0 <= origin,
        0 <= k < size,
    ensures
        ring_offset(origin, (origin + k) % size, size) == k,
        forall|c: int|
            0 <= c < size && #[trigger] ring_offset(origin, c, size) == k ==> c == (origin + k)
                % size,
{
    let a = origin % size;
    lemma_mod_pos_bound(origin, size);
    lemma_fundamental_div_mod(origin, size);
    let q = origin / size;
    assert(origin + k == q * size + (a + k)) by (nonlinear_arith)
        requires
            origin == size * q + a,
    ;
    lemma_mod_window(a + k, size);
    let cx = (a + k) % size;
    lemma_mod_pos_bound(a + k, size);
    lemma_fundamental_div_mod(a + k, size);
    let q2 = (a + k) / size;
    assert((origin + k) % size == cx) by {
        assert(origin + k == (q + q2) * size + cx) by (nonlinear_arith)
            requires
                origin + k == q * size + (a + k),
                a + k == size * q2 + cx,
        ;
        lemma_fundamental_div_mod_converse(origin + k, size, q + q2, cx);
    }
    lemma_mod_window(cx + size - a, size);
    assert forall|c: int|
        0 <= c < size && #[trigger] ring_offset(origin, c, size) == k implies c == (origin + k)
            % size by {
        lemma_mod_window(c + size - a, size);
    }
}

/// The cell at row `row` and column `col` of a sprite placed at (`vx`, `vy`)
/// on a `w` by `h` grid is the only cell at those offsets.
pub proof fn lemma_sprite_cell(w: int, h: int, vx: int, vy: int, row: int, col: int)
    requires
        0 < w,
        0 < h,
        0 <= vx,
        0 <= vy,
        0 <= row < h,
        0 <= col < w,
    ensures
        0 <= ((vy + row) % h) * w + (vx + col) % w < w * h,
        ring_offset(vx, (((vy + row) % h) * w + (vx + col) % w) % w, w) == col,
        ring_offset(vy, (((vy + row) % h) * w + (vx + col) % w) / w, h) == row,
        forall|c: int|
            0 <= c < w * h && #[trigger] ring_offset(vx, c % w, w) == col && ring_offset(
                vy,
                c / w,
                h,
            ) == row ==> c == ((vy + row) % h) * w + (vx + col) % w,
{
    let cx = (vx + col) % w;
    let cy = (vy + row) % h;
    lemma_mod_pos_bound(vx + col, w);
    lemma_mod_pos_bound(vy + row, h);
    let c0 = cy * w + cx;
    assert(0 <= c0 < w * h) by (nonlinear_arith)
        requires
            0 <= cx < w,
            0 <= cy < h,
            c0 == cy * w + cx,
    ;
    lemma_fundamental_div_mod_converse(c0, w, cy, cx);
    lemma_ring_offset(vx, col, w);
    lemma_ring_offset(vy, row, h);
    assert forall|c: int|
        0 <= c < w * h && #[trigger] ring_offset(vx, c % w, w) == col && ring_offset(
            vy,
            c / w,
            h,
        ) == row implies c == c0 by {
        lemma_mod_pos_bound(c, w);
        lemma_fundamental_div_mod(c, w);
        lemma_multiply_divide_lt(c, w, h);
        lemma_div_pos_is_pos(c, w);
        assert(c == (c / w) * w + c % w) by (nonlinear_arith)
            requires
                c == w * (c / w) + c % w,
        ;
    }
}

} // verus!

verus! {

/// Running `a` to its end and then `b` is running `a + b`.
pub proof fn lemma_run_concat(s: Chip8State, a: Seq<u8>, b: Seq<u8>)
    requires
        s.run(a).1 == Ok::<Status, Chip8Error>(Status::Running),
    ensures
        s.run(a + b) == s.run(a).0.run(b),
    decreases a.len(),
{
    if a.len() == 0 {
        assert(a + b =~= b);
    } else {
        assert((a + b).drop_first() =~= a.drop_first() + b);
        assert((a + b)[0] == a[0]);
        match s.cycle(a[0]) {
            Ok((s1, Status::Running)) => lemma_run_concat(s1, a.drop_first(), b),
            _ => {},
        }
    }
}

} // verus!
