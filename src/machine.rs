use vstd::prelude::*;

use crate::state::{
    glyph_table, initial_state, lemma_run_concat, lemma_sprite_cell, ring_offset, Chip8Error,
    Chip8State, Status, FLAG, GLYPH_TABLE_SIZE, KEY_COUNT, MEMORY_SIZE, PROGRAM_START,
    REGISTER_COUNT, STACK_CAPACITY,
};

verus! {

/// Framebuffer width of a machine made by `Chip8::new`.
pub const SCREEN_WIDTH: usize = 512;

/// Framebuffer height of a machine made by `Chip8::new`.
pub const SCREEN_HEIGHT: usize = 384;

/// An interpreter for the CHIP-8 instruction set.
pub struct Chip8 {
    memory: Vec<u8>,
    registers: Vec<u8>,
    stack: Vec<u16>,
    i: u16,
    pc: u16,
    delay: u8,
    sound: u8,
    keyboard: Vec<bool>,
    width: usize,
    height: usize,
    display: Vec<bool>,
}

impl View for Chip8 {
    type V = Chip8State;

    closed spec fn view(&self) -> Chip8State {
        Chip8State {
            memory: self.memory@,
            registers: self.registers@,
            stack: self.stack@,
            i: self.i,
            pc: self.pc,
            delay: self.delay,
            sound: self.sound,
            keys: self.keyboard@,
            width: self.width as nat,
            height: self.height as nat,
            screen: self.display@,
        }
    }
}

/// Outcome of a fallible instruction: on success the state is the one
/// computed, on failure the error is the one computed and nothing changed.
pub open spec fn applied(
    pre: Chip8State,
    post: Chip8State,
    r: Result<(), Chip8Error>,
    expected: Result<Chip8State, Chip8Error>,
) -> bool {
    match expected {
        Ok(s) => r == Ok::<(), Chip8Error>(()) && post == s,
        Err(e) => r == Err::<(), Chip8Error>(e) && post == pre,
    }
}

fn glyph_rows() -> (r: Vec<u8>)
    ensures
        r@ == glyph_table(),
{
    let r: Vec<u8> = vec![
        0xF0, 0x90, 0x90, 0x90, 0xF0,
        0x20, 0x60, 0x20, 0x20, 0x70,
        0xF0, 0x10, 0xF0, 0x80, 0xF0,
        0xF0, 0x10, 0xF0, 0x10, 0xF0,
        0x90, 0x90, 0xF0, 0x10, 0x10,
        0xF0, 0x80, 0xF0, 0x10, 0xF0,
        0xF0, 0x80, 0xF0, 0x90, 0xF0,
        0xF0, 0x10, 0x20, 0x40, 0x40,
        0xF0, 0x90, 0xF0, 0x90, 0xF0,
        0xF0, 0x90, 0xF0, 0x10, 0xF0,
        0xF0, 0x90, 0xF0, 0x90, 0x90,
        0xE0, 0x90, 0xE0, 0x90, 0xE0,
        0xF0, 0x80, 0x80, 0x80, 0xF0,
        0xE0, 0x90, 0x90, 0x90, 0xE0,
        0xF0, 0x80, 0xF0, 0x80, 0xF0,
        0xF0, 0x80, 0xF0, 0x80, 0x80,
    ];
    assert(r@ =~= glyph_table());
    r
}

fn filled<T: Copy>(len: usize, v: T) -> (r: Vec<T>)
    ensures
        r@ == Seq::new(len as nat, |k: int| v),
{
    let mut r: Vec<T> = Vec::new();
    while r.len() < len
        invariant
            r.len() <= len,
            r@ == Seq::new(r.len() as nat, |k: int| v),
        decreases len - r.len(),
    {
        r.push(v);
        assert(r@ =~= Seq::new(r.len() as nat, |k: int| v));
    }
    r
}

impl Chip8 {
    /// A machine with a 512 by 384 framebuffer.
    pub fn new() -> (r: Chip8)
        ensures
            r@ == initial_state(SCREEN_WIDTH as nat, SCREEN_HEIGHT as nat),
            r@.wf(),
    {
        Chip8::with_resolution(SCREEN_WIDTH, SCREEN_HEIGHT)
    }

    /// A machine with a `width` by `height` framebuffer: glyph table loaded,
    /// everything else zero, program counter at the load address.
    ///
    /// The framebuffer is at least 8 wide and 16 high, so that no sprite of
    /// 8 columns and up to 15 rows reaches the same cell twice after wrapping;
    /// on a narrower grid one draw would XOR a cell more than once, which the
    /// draw model, one sprite bit per cell, does not describe.
    pub fn with_resolution(width: usize, height: usize) -> (r: Chip8)
        requires
            8 <= width <= 4096,
            16 <= height <= 4096,
        ensures
            r@ == initial_state(width as nat, height as nat),
            r@.wf(),
    {
        let mut memory = glyph_rows();
        while memory.len() < MEMORY_SIZE
            invariant
                GLYPH_TABLE_SIZE <= memory.len() <= MEMORY_SIZE,
                forall|a: int|
                    0 <= a < memory.len() ==> memory@[a] == (if a < GLYPH_TABLE_SIZE {
                        glyph_table()[a]
                    } else {
                        0u8
                    }),
            decreases MEMORY_SIZE - memory.len(),
        {
            memory.push(0);
        }
        proof {
            assert(width * height <= 4096 * 4096) by (nonlinear_arith)
                requires
                    width <= 4096,
                    height <= 4096,
            ;
        }
        let r = Chip8 {
            memory,
            registers: filled(REGISTER_COUNT, 0u8),
            stack: Vec::new(),
            i: 0,
            pc: PROGRAM_START as u16,
            delay: 0,
            sound: 0,
            keyboard: filled(KEY_COUNT, false),
            width,
            height,
            display: filled(width * height, false),
        };
        assert(r@.memory =~= initial_state(width as nat, height as nat).memory);
        assert(r@.memory.subrange(0, GLYPH_TABLE_SIZE as int) =~= glyph_table());
        assert(r@ =~= initial_state(width as nat, height as nat));
        r
    }

    /// Copies `program` into memory at the load address.
    pub fn load_program(&mut self, program: &[u8]) -> (r: Result<(), Chip8Error>)
        requires
            old(self)@.wf(),
        ensures
            final(self)@.wf(),
            applied(old(self)@, final(self)@, r, old(self)@.load(program@)),
    {
        if program.len() > MEMORY_SIZE - PROGRAM_START {
            return Err(Chip8Error::ProgramTooLarge);
        }
        let ghost pre = self@;
        let mut k: usize = 0;
        while k < program.len()
            invariant
                pre.wf(),
                k <= program.len(),
                PROGRAM_START + program.len() <= MEMORY_SIZE,
                self@ == (Chip8State { memory: self@.memory, ..pre }),
                self@.memory.len() == MEMORY_SIZE,
                forall|a: int|
                    0 <= a < MEMORY_SIZE ==> self@.memory[a] == (if PROGRAM_START <= a
                        < PROGRAM_START + k {
                        program@[a - PROGRAM_START]
                    } else {
                        pre.memory[a]
                    }),
            decreases program.len() - k,
        {
            proof {
                assert(self@.memory == self.memory@);
            }
            self.memory.set(PROGRAM_START + k, program[k]);
            k = k + 1;
        }
        proof {
            let post = pre.load(program@).unwrap();
            assert(self@.memory =~= post.memory);
            assert(self@.memory.subrange(0, GLYPH_TABLE_SIZE as int) =~= pre.memory.subrange(
                0,
                GLYPH_TABLE_SIZE as int,
            ));
        }
        Ok(())
    }
}

impl Chip8 {
    fn set_register(&mut self, x: usize, v: u8)
        requires
            old(self)@.wf(),
            x < REGISTER_COUNT,
        ensures
            final(self)@ == old(self)@.set_reg(x as int, v),
            final(self)@.wf(),
    {
        self.registers.set(x, v);
        assert(self@ =~= old(self)@.set_reg(x as int, v));
    }

    fn skip_if(&mut self, cond: bool)
        requires
            old(self)@.wf(),
        ensures
            final(self)@ == old(self)@.skip_if(cond),
            final(self)@.wf(),
    {
        if cond {
            self.pc = ((self.pc as u32 + 2) % 65536) as u16;
        }
    }

    /// Content of register `x`.
    pub fn register(&self, x: usize) -> (r: u8)
        requires
            self@.wf(),
            x < REGISTER_COUNT,
        ensures
            r == self@.reg(x as int),
    {
        self.registers[x]
    }

    /// 00E0: clears every framebuffer cell.
    pub fn cls(&mut self)
        requires
            old(self)@.wf(),
        ensures
            final(self)@ == old(self)@.cls(),
            final(self)@.wf(),
    {
        let len = self.display.len();
        self.display = filled(len, false);
    }

    /// 00EE: pops the call stack into the program counter.
    pub fn ret(&mut self) -> (r: Result<(), Chip8Error>)
        requires
            old(self)@.wf(),
        ensures
            final(self)@.wf(),
            applied(old(self)@, final(self)@, r, old(self)@.ret()),
    {
        match self.stack.pop() {
            Some(addr) => {
                self.pc = addr;
                Ok(())
            },
            None => Err(Chip8Error::StackUnderflow),
        }
    }

    /// 1NNN: jumps to `nnn`.
    pub fn jp(&mut self, nnn: u16)
        requires
            old(self)@.wf(),
        ensures
            final(self)@ == old(self)@.jp(nnn),
            final(self)@.wf(),
    {
        self.pc = nnn;
    }

    /// 2NNN: pushes the program counter and jumps to `nnn`.
    pub fn call(&mut self, nnn: u16) -> (r: Result<(), Chip8Error>)
        requires
            old(self)@.wf(),
        ensures
            final(self)@.wf(),
            applied(old(self)@, final(self)@, r, old(self)@.call(nnn)),
    {
        if self.stack.len() >= STACK_CAPACITY {
            return Err(Chip8Error::StackOverflow);
        }
        self.stack.push(self.pc);
        self.pc = nnn;
        Ok(())
    }

    /// 3XKK: skips the next instruction when register `x` equals `kk`.
    pub fn se(&mut self, x: usize, kk: u8)
        requires
            old(self)@.wf(),
            x < REGISTER_COUNT,
        ensures
            final(self)@ == old(self)@.se(x as int, kk),
            final(self)@.wf(),
    {
        let cond = self.registers[x] == kk;
        self.skip_if(cond);
    }

    /// 4XKK: skips the next instruction when register `x` differs from `kk`.
    pub fn sne(&mut self, x: usize, kk: u8)
        requires
            old(self)@.wf(),
            x < REGISTER_COUNT,
        ensures
            final(self)@ == old(self)@.sne(x as int, kk),
            final(self)@.wf(),
    {
        let cond = self.registers[x] != kk;
        self.skip_if(cond);
    }

    /// 5XY0: skips the next instruction when registers `x` and `y` are equal.
    pub fn se_vx_vy(&mut self, x: usize, y: usize)
        requires
            old(self)@.wf(),
            x < REGISTER_COUNT,
            y < REGISTER_COUNT,
        ensures
            final(self)@ == old(self)@.se_vx_vy(x as int, y as int),
            final(self)@.wf(),
    {
        let cond = self.registers[x] == self.registers[y];
        self.skip_if(cond);
    }

    /// 6XKK: loads `kk` into register `x`.
    pub fn ld(&mut self, x: usize, kk: u8)
        requires
            old(self)@.wf(),
            x < REGISTER_COUNT,
        ensures
            final(self)@ == old(self)@.ld(x as int, kk),
            final(self)@.wf(),
    {
        self.set_register(x, kk);
    }

    /// 7XKK: adds `kk` to register `x`, wrapping, with no flag.
    pub fn add(&mut self, x: usize, kk: u8)
        requires
            old(self)@.wf(),
            x < REGISTER_COUNT,
        ensures
            final(self)@ == old(self)@.add(x as int, kk),
            final(self)@.wf(),
    {
        let v = ((self.registers[x] as u16 + kk as u16) % 256) as u8;
        self.set_register(x, v);
    }

    /// 8XY0: copies register `y` into register `x`.
    pub fn ld_vx_vy(&mut self, x: usize, y: usize)
        requires
            old(self)@.wf(),
            x < REGISTER_COUNT,
            y < REGISTER_COUNT,
        ensures
            final(self)@ == old(self)@.ld_vx_vy(x as int, y as int),
            final(self)@.wf(),
    {
        let v = self.registers[y];
        self.set_register(x, v);
    }

    /// 8XY1: register `x` becomes its bitwise OR with register `y`.
    pub fn or(&mut self, x: usize, y: usize)
        requires
            old(self)@.wf(),
            x < REGISTER_COUNT,
            y < REGISTER_COUNT,
        ensures
            final(self)@ == old(self)@.or(x as int, y as int),
            final(self)@.wf(),
    {
        let v = self.registers[x] | self.registers[y];
        self.set_register(x, v);
    }

    /// 8XY2: register `x` becomes its bitwise AND with register `y`.
    pub fn and(&mut self, x: usize, y: usize)
        requires
            old(self)@.wf(),
            x < REGISTER_COUNT,
            y < REGISTER_COUNT,
        ensures
            final(self)@ == old(self)@.and(x as int, y as int),
            final(self)@.wf(),
    {
        let v = self.registers[x] & self.registers[y];
        self.set_register(x, v);
    }

    /// 8XY3: register `x` becomes its bitwise XOR with register `y`.
    pub fn xor(&mut self, x: usize, y: usize)
        requires
            old(self)@.wf(),
            x < REGISTER_COUNT,
            y < REGISTER_COUNT,
        ensures
            final(self)@ == old(self)@.xor(x as int, y as int),
            final(self)@.wf(),
    {
        let v = self.registers[x] ^ self.registers[y];
        self.set_register(x, v);
    }

    /// 8XY4: adds register `y` to register `x`; the flag register receives the carry.
    pub fn add_vx_vy(&mut self, x: usize, y: usize)
        requires
            old(self)@.wf(),
            x < REGISTER_COUNT,
            y < REGISTER_COUNT,
        ensures
            final(self)@ == old(self)@.add_vx_vy(x as int, y as int),
            final(self)@.wf(),
    {
        let sum = self.registers[x] as u16 + self.registers[y] as u16;
        self.set_register(x, (sum % 256) as u8);
        self.set_register(FLAG, if sum > 255 { 1 } else { 0 });
    }

    /// 8XY5: subtracts register `y` from register `x`, wrapping; the flag
    /// register receives 1 when no borrow occurs (`x` strictly greater).
    pub fn sub(&mut self, x: usize, y: usize)
        requires
            old(self)@.wf(),
            x < REGISTER_COUNT,
            y < REGISTER_COUNT,
        ensures
            final(self)@ == old(self)@.sub(x as int, y as int),
            final(self)@.wf(),
    {
        let vx = self.registers[x];
        let vy = self.registers[y];
        self.set_register(FLAG, if vx > vy { 1 } else { 0 });
        self.set_register(x, ((vx as u16 + 256 - vy as u16) % 256) as u8);
    }

    /// 8XY6: shifts register `x` right by one; the flag register receives the bit shifted out.
    pub fn shr(&mut self, x: usize)
        requires
            old(self)@.wf(),
            x < REGISTER_COUNT,
        ensures
            final(self)@ == old(self)@.shr(x as int),
            final(self)@.wf(),
    {
        let vx = self.registers[x];
        self.set_register(FLAG, vx & 1);
        self.set_register(x, vx >> 1);
    }

    /// 8XY7: register `x` becomes register `y` minus register `x`, wrapping;
    /// the flag register receives 1 when `y` is strictly greater.
    pub fn subn(&mut self, x: usize, y: usize)
        requires
            old(self)@.wf(),
            x < REGISTER_COUNT,
            y < REGISTER_COUNT,
        ensures
            final(self)@ == old(self)@.subn(x as int, y as int),
            final(self)@.wf(),
    {
        let vx = self.registers[x];
        let vy = self.registers[y];
        self.set_register(FLAG, if vy > vx { 1 } else { 0 });
        self.set_register(x, ((vy as u16 + 256 - vx as u16) % 256) as u8);
    }

    /// 8XYE: shifts register `x` left by one; the flag register receives the bit shifted out.
    pub fn shl(&mut self, x: usize)
        requires
            old(self)@.wf(),
            x < REGISTER_COUNT,
        ensures
            final(self)@ == old(self)@.shl(x as int),
            final(self)@.wf(),
    {
        let vx = self.registers[x];
        self.set_register(FLAG, vx >> 7);
        self.set_register(x, ((vx as u16 * 2) % 256) as u8);
    }

    /// 9XY0: skips the next instruction when registers `x` and `y` differ.
    pub fn sne_vx_vy(&mut self, x: usize, y: usize)
        requires
            old(self)@.wf(),
            x < REGISTER_COUNT,
            y < REGISTER_COUNT,
        ensures
            final(self)@ == old(self)@.sne_vx_vy(x as int, y as int),
            final(self)@.wf(),
    {
        let cond = self.registers[x] != self.registers[y];
        self.skip_if(cond);
    }

    /// ANNN: loads `nnn` into the address register.
    pub fn ld_i(&mut self, nnn: u16)
        requires
            old(self)@.wf(),
        ensures
            final(self)@ == old(self)@.ld_i(nnn),
            final(self)@.wf(),
    {
        self.i = nnn;
    }

    /// BNNN: jumps to `nnn` plus register 0.
    pub fn jp_v0(&mut self, nnn: u16)
        requires
            old(self)@.wf(),
        ensures
            final(self)@ == old(self)@.jp_v0(nnn),
            final(self)@.wf(),
    {
        self.pc = ((self.registers[0] as u32 + nnn as u32) % 65536) as u16;
    }

    /// CXKK with a given draw: register `x` receives `drawn` masked by `kk`.
    pub fn rnd_with(&mut self, x: usize, kk: u8, drawn: u8)
        requires
            old(self)@.wf(),
            x < REGISTER_COUNT,
        ensures
            final(self)@ == old(self)@.rnd(x as int, kk, drawn),
            final(self)@.wf(),
    {
        self.set_register(x, drawn & kk);
    }

    /// EX9E: skips the next instruction when the key named by register `x` is pressed.
    pub fn skp(&mut self, x: usize)
        requires
            old(self)@.wf(),
            x < REGISTER_COUNT,
        ensures
            final(self)@ == old(self)@.skp(x as int),
            final(self)@.wf(),
    {
        let k = self.registers[x] as usize;
        let cond = k < KEY_COUNT && self.keyboard[k];
        self.skip_if(cond);
    }

    /// EXA1: skips the next instruction when the key named by register `x` is not pressed.
    pub fn sknp(&mut self, x: usize)
        requires
            old(self)@.wf(),
            x < REGISTER_COUNT,
        ensures
            final(self)@ == old(self)@.sknp(x as int),
            final(self)@.wf(),
    {
        let k = self.registers[x] as usize;
        let cond = !(k < KEY_COUNT && self.keyboard[k]);
        self.skip_if(cond);
    }

    /// FX07: copies the delay timer into register `x`.
    pub fn ld_vx_dt(&mut self, x: usize)
        requires
            old(self)@.wf(),
            x < REGISTER_COUNT,
        ensures
            final(self)@ == old(self)@.ld_vx_dt(x as int),
            final(self)@.wf(),
    {
        let v = self.delay;
        self.set_register(x, v);
    }

    /// FX0A: stores the lowest pressed key in register `x`; with no key
    /// pressed, changes nothing and reports that the machine waits for a key.
    pub fn ld_vx_k(&mut self, x: usize) -> (r: Status)
        requires
            old(self)@.wf(),
            x < REGISTER_COUNT,
        ensures
            (final(self)@, r) == old(self)@.ld_vx_k(x as int),
            final(self)@.wf(),
    {
        let mut k: usize = 0;
        while k < KEY_COUNT
            invariant
                self@ == old(self)@,
                self@.wf(),
                x < REGISTER_COUNT,
                k <= KEY_COUNT,
                self@.first_pressed_from(0) == self@.first_pressed_from(k as int),
            decreases KEY_COUNT - k,
        {
            if self.keyboard[k] {
                self.set_register(x, k as u8);
                return Status::Running;
            }
            k = k + 1;
        }
        Status::AwaitingKey
    }

    /// FX15: copies register `x` into the delay timer.
    pub fn ld_dt_vx(&mut self, x: usize)
        requires
            old(self)@.wf(),
            x < REGISTER_COUNT,
        ensures
            final(self)@ == old(self)@.ld_dt_vx(x as int),
            final(self)@.wf(),
    {
        self.delay = self.registers[x];
    }

    /// FX18: copies register `x` into the sound timer.
    pub fn ld_st_vx(&mut self, x: usize)
        requires
            old(self)@.wf(),
            x < REGISTER_COUNT,
        ensures
            final(self)@ == old(self)@.ld_st_vx(x as int),
            final(self)@.wf(),
    {
        self.sound = self.registers[x];
    }

    /// FX1E: adds register `x` to the address register, wrapping at 16 bits.
    pub fn add_i_vx(&mut self, x: usize)
        requires
            old(self)@.wf(),
            x < REGISTER_COUNT,
        ensures
            final(self)@ == old(self)@.add_i_vx(x as int),
            final(self)@.wf(),
    {
        self.i = ((self.i as u32 + self.registers[x] as u32) % 65536) as u16;
    }

    /// FX29: points the address register at the glyph of register `x`'s low nibble.
    pub fn ld_f_vx(&mut self, x: usize)
        requires
            old(self)@.wf(),
            x < REGISTER_COUNT,
        ensures
            final(self)@ == old(self)@.ld_f_vx(x as int),
            final(self)@.wf(),
    {
        self.i = (self.registers[x] % 16) as u16 * 5;
    }
}

impl Chip8 {
    /// FX33: stores the hundreds, tens and units digits of register `x` at
    /// the address register and the two bytes after it.
    pub fn ld_b_vx(&mut self, x: usize) -> (r: Result<(), Chip8Error>)
        requires
            old(self)@.wf(),
            x < REGISTER_COUNT,
        ensures
            final(self)@.wf(),
            applied(old(self)@, final(self)@, r, old(self)@.ld_b_vx(x as int)),
    {
        let base = self.i as usize;
        if base < GLYPH_TABLE_SIZE || base + 3 > MEMORY_SIZE {
            return Err(Chip8Error::AddressOutOfRange);
        }
        let ghost pre = self@;
        let v = self.registers[x];
        self.memory.set(base, v / 100);
        self.memory.set(base + 1, (v / 10) % 10);
        self.memory.set(base + 2, v % 10);
        proof {
            let post = pre.ld_b_vx(x as int).unwrap();
            assert(self@.memory =~= post.memory);
            assert(self@.memory.subrange(0, GLYPH_TABLE_SIZE as int) =~= pre.memory.subrange(
                0,
                GLYPH_TABLE_SIZE as int,
            ));
            assert(self@ =~= post);
        }
        Ok(())
    }

    /// FX55: stores registers 0 through `x` at consecutive addresses from the address register.
    pub fn ld_i_vx(&mut self, x: usize) -> (r: Result<(), Chip8Error>)
        requires
            old(self)@.wf(),
            x < REGISTER_COUNT,
        ensures
            final(self)@.wf(),
            applied(old(self)@, final(self)@, r, old(self)@.ld_i_vx(x as int)),
    {
        let base = self.i as usize;
        if base < GLYPH_TABLE_SIZE || base + x + 1 > MEMORY_SIZE {
            return Err(Chip8Error::AddressOutOfRange);
        }
        let ghost pre = self@;
        let mut k: usize = 0;
        while k <= x
            invariant
                pre.wf(),
                x < REGISTER_COUNT,
                base == pre.i,
                GLYPH_TABLE_SIZE <= base,
                base + x + 1 <= MEMORY_SIZE,
                k <= x + 1,
                self@ == (Chip8State { memory: self@.memory, ..pre }),
                self@.memory.len() == MEMORY_SIZE,
                forall|a: int|
                    0 <= a < MEMORY_SIZE ==> self@.memory[a] == (if base <= a < base + k {
                        pre.registers[a - base]
                    } else {
                        pre.memory[a]
                    }),
            decreases x + 1 - k,
        {
            proof {
                assert(self@.memory == self.memory@);
                assert(self@.registers == self.registers@);
            }
            let v = self.registers[k];
            self.memory.set(base + k, v);
            k = k + 1;
        }
        proof {
            let post = pre.ld_i_vx(x as int).unwrap();
            assert(self@.memory =~= post.memory);
            assert(self@.memory.subrange(0, GLYPH_TABLE_SIZE as int) =~= pre.memory.subrange(
                0,
                GLYPH_TABLE_SIZE as int,
            ));
        }
        Ok(())
    }

    /// FX65: loads registers 0 through `x` from consecutive addresses from the address register.
    pub fn ld_vx_i(&mut self, x: usize) -> (r: Result<(), Chip8Error>)
        requires
            old(self)@.wf(),
            x < REGISTER_COUNT,
        ensures
            final(self)@.wf(),
            applied(old(self)@, final(self)@, r, old(self)@.ld_vx_i(x as int)),
    {
        let base = self.i as usize;
        if base + x + 1 > MEMORY_SIZE {
            return Err(Chip8Error::AddressOutOfRange);
        }
        let ghost pre = self@;
        let mut k: usize = 0;
        while k <= x
            invariant
                pre.wf(),
                x < REGISTER_COUNT,
                base == pre.i,
                base + x + 1 <= MEMORY_SIZE,
                k <= x + 1,
                self@ == (Chip8State { registers: self@.registers, ..pre }),
                self@.registers.len() == REGISTER_COUNT,
                forall|j: int|
                    0 <= j < REGISTER_COUNT ==> self@.registers[j] == (if j < k {
                        pre.memory[base + j]
                    } else {
                        pre.registers[j]
                    }),
            decreases x + 1 - k,
        {
            proof {
                assert(self@.memory == self.memory@);
                assert(self@.registers == self.registers@);
            }
            let v = self.memory[base + k];
            self.registers.set(k, v);
            k = k + 1;
        }
        proof {
            let post = pre.ld_vx_i(x as int).unwrap();
            assert(self@.registers =~= post.registers);
        }
        Ok(())
    }
}

/// Whether cell `c` lies at a sprite offset already visited when the draw
/// loop stands at row `row`, column `col`.
spec fn draw_visited(s: Chip8State, vx: u8, vy: u8, row: int, col: int, c: int) -> bool {
    let dx = ring_offset(vx as int, c % (s.width as int), s.width as int);
    let dy = ring_offset(vy as int, c / (s.width as int), s.height as int);
    dy < row || (dy == row && dx < col)
}

impl Chip8 {
    /// DXYN: draws an `n`-row sprite read from the address register at the
    /// position held in registers `x` and `y`, each bit XOR-ed onto the
    /// framebuffer with wrap-around on both axes; the flag register receives
    /// 1 when a set pixel was hit by a set sprite bit.
    pub fn drw(&mut self, x: usize, y: usize, n: usize) -> (r: Result<(), Chip8Error>)
        requires
            old(self)@.wf(),
            x < REGISTER_COUNT,
            y < REGISTER_COUNT,
            n < 16,
        ensures
            final(self)@.wf(),
            applied(old(self)@, final(self)@, r, old(self)@.drw(x as int, y as int, n as int)),
    {
        let base = self.i as usize;
        if n > 0 && base + n > MEMORY_SIZE {
            return Err(Chip8Error::AddressOutOfRange);
        }
        let vx = self.registers[x];
        let vy = self.registers[y];
        let w = self.width;
        let h = self.height;
        let ghost pre = self@;
        let ghost len = pre.screen.len() as int;
        let mut collision = false;
        let mut row: usize = 0;
        while row < n
            invariant
                pre.wf(),
                pre == old(self)@,
                vx == pre.reg(x as int),
                vy == pre.reg(y as int),
                w == pre.width,
                h == pre.height,
                base == pre.i,
                n < 16,
                n > 0 ==> base + n <= MEMORY_SIZE,
                row <= n,
                len == w * h,
                self@ == (Chip8State { screen: self@.screen, ..pre }),
                self@.screen.len() == len,
                forall|c: int|
                    0 <= c < len ==> #[trigger] self@.screen[c] == (pre.screen[c] != (pre.draw_hit(
                        vx,
                        vy,
                        n as int,
                        c,
                    ) && draw_visited(pre, vx, vy, row as int, 0, c))),
                collision == exists|c: int|
                    0 <= c < len && #[trigger] pre.screen[c] && pre.draw_hit(vx, vy, n as int, c)
                        && draw_visited(pre, vx, vy, row as int, 0, c),
            decreases n - row,
        {
            proof {
                assert(self@.memory == self.memory@);
            }
            let line = self.memory[base + row];
            let cy = (vy as usize + row) % h;
            let mut col: usize = 0;
            while col < 8
                invariant
                    pre.wf(),
                    pre == old(self)@,
                    vx == pre.reg(x as int),
                    vy == pre.reg(y as int),
                    w == pre.width,
                    h == pre.height,
                    base == pre.i,
                    n < 16,
                    row < n,
                    base + n <= MEMORY_SIZE,
                    line == pre.memory[base + row],
                    cy == (vy + row) % (h as int),
                    col <= 8,
                    len == w * h,
                    self@ == (Chip8State { screen: self@.screen, ..pre }),
                    self@.screen.len() == len,
                    forall|c: int|
                        0 <= c < len ==> #[trigger] self@.screen[c] == (pre.screen[c] != (
                        pre.draw_hit(vx, vy, n as int, c) && draw_visited(
                            pre,
                            vx,
                            vy,
                            row as int,
                            col as int,
                            c,
                        ))),
                    collision == exists|c: int|
                        0 <= c < len && #[trigger] pre.screen[c] && pre.draw_hit(
                            vx,
                            vy,
                            n as int,
                            c,
                        ) && draw_visited(pre, vx, vy, row as int, col as int, c),
                decreases 8 - col,
            {
                let bit = (line >> ((7 - col) as u8)) & 1;
                let cx = (vx as usize + col) % w;
                proof {
                    lemma_sprite_cell(w as int, h as int, vx as int, vy as int, row as int, col as int);
                    assert(w * h <= 4096 * 4096) by (nonlinear_arith)
                        requires
                            w <= 4096,
                            h <= 4096,
                    ;
                    assert(cy * w + cx < w * h);
                    assert(0 <= cy * w <= cy * w + cx);
                }
                let c = cy * w + cx;
                let ghost c0 = c as int;
                let ghost before = self@.screen;
                let ghost coll_before = collision;
                proof {
                    assert(self@.screen == self.display@);
                    assert(pre.draw_hit(vx, vy, n as int, c0) == (bit == 1));
                    assert(!draw_visited(pre, vx, vy, row as int, col as int, c0));
                    assert(before[c0] == pre.screen[c0]);
                }
                let old_px = self.display[c];
                if bit == 1 {
                    collision = collision || old_px;
                    self.display.set(c, !old_px);
                }
                proof {
                    assert forall|c1: int| 0 <= c1 < len implies draw_visited(
                        pre,
                        vx,
                        vy,
                        row as int,
                        col + 1,
                        c1,
                    ) == (draw_visited(pre, vx, vy, row as int, col as int, c1) || c1 == c0) by {}
                    assert forall|c1: int| 0 <= c1 < len implies #[trigger] self@.screen[c1] == (
                    pre.screen[c1] != (pre.draw_hit(vx, vy, n as int, c1) && draw_visited(
                        pre,
                        vx,
                        vy,
                        row as int,
                        col + 1,
                        c1,
                    ))) by {
                        if c1 != c0 {
                            assert(self@.screen[c1] == before[c1]);
                        }
                    }
                    if collision && !coll_before {
                        assert(pre.screen[c0] && pre.draw_hit(vx, vy, n as int, c0) && draw_visited(
                            pre,
                            vx,
                            vy,
                            row as int,
                            col + 1,
                            c0,
                        ));
                    }
                    if !collision {
                        assert forall|c1: int|
                            0 <= c1 < len && #[trigger] pre.screen[c1] && pre.draw_hit(
                                vx,
                                vy,
                                n as int,
                                c1,
                            ) implies !draw_visited(pre, vx, vy, row as int, col + 1, c1) by {}
                    }
                }
                col = col + 1;
            }
            proof {
                assert forall|c1: int| 0 <= c1 < len && pre.draw_hit(vx, vy, n as int, c1) implies
                    draw_visited(pre, vx, vy, row as int, 8, c1) == draw_visited(
                    pre,
                    vx,
                    vy,
                    row + 1,
                    0,
                    c1,
                ) by {}
                assert forall|c1: int| 0 <= c1 < len implies #[trigger] self@.screen[c1] == (
                pre.screen[c1] != (pre.draw_hit(vx, vy, n as int, c1) && draw_visited(
                    pre,
                    vx,
                    vy,
                    row + 1,
                    0,
                    c1,
                ))) by {}
            }
            row = row + 1;
        }
        proof {
            assert(self@.memory.subrange(0, GLYPH_TABLE_SIZE as int) == glyph_table());
            let post = pre.drw(x as int, y as int, n as int).unwrap();
            assert forall|c1: int| 0 <= c1 < len && pre.draw_hit(vx, vy, n as int, c1) implies
                draw_visited(pre, vx, vy, n as int, 0, c1) by {}
            assert(self@.screen =~= post.screen);
            assert(collision == pre.draw_collides(vx, vy, n as int));
        }
        self.set_register(FLAG, if collision { 1 } else { 0 });
        Ok(())
    }
}

/// Relies on rand::random::<u8>: a byte drawn from the thread-local
/// generator; nothing is promised of its value.
#[verifier::external_body]
fn random_byte() -> (r: u8) {
    rand::random::<u8>()
}

/// Outcome of an instruction or a cycle: on success the state and status are
/// the ones computed, on failure the error is the one computed and nothing changed.
pub open spec fn stepped(
    pre: Chip8State,
    post: Chip8State,
    r: Result<Status, Chip8Error>,
    expected: Result<(Chip8State, Status), Chip8Error>,
) -> bool {
    match expected {
        Ok((s, st)) => r == Ok::<Status, Chip8Error>(st) && post == s,
        Err(e) => r == Err::<Status, Chip8Error>(e) && post == pre,
    }
}

fn resumed(r: Result<(), Chip8Error>) -> (out: Result<Status, Chip8Error>)
    ensures
        out == (match r {
            Ok(_) => Ok::<Status, Chip8Error>(Status::Running),
            Err(e) => Err(e),
        }),
{
    match r {
        Ok(_) => Ok(Status::Running),
        Err(e) => Err(e),
    }
}

impl Chip8 {
    /// CXKK: register `x` receives a random byte masked by `kk`.
    pub fn rnd(&mut self, x: usize, kk: u8)
        requires
            old(self)@.wf(),
            x < REGISTER_COUNT,
        ensures
            exists|drawn: u8| final(self)@ == #[trigger] old(self)@.rnd(x as int, kk, drawn),
            final(self)@.wf(),
    {
        let drawn: u8 = random_byte();
        self.rnd_with(x, kk, drawn);
    }

    /// Decodes and executes one instruction word, with the program counter
    /// already past it; `drawn` is the byte that a random-mask instruction uses.
    pub fn execute_with(&mut self, opcode: u16, drawn: u8) -> (r: Result<Status, Chip8Error>)
        requires
            old(self)@.wf(),
        ensures
            final(self)@.wf(),
            stepped(old(self)@, final(self)@, r, old(self)@.execute(opcode, drawn)),
    {
        let x = ((opcode & 0x0F00) >> 8) as usize;
        let y = ((opcode & 0x00F0) >> 4) as usize;
        let n = (opcode & 0x000F) as usize;
        let nnn = opcode & 0x0FFF;
        let kk = (opcode & 0x00FF) as u8;
        let hi = opcode >> 12;
        let low = opcode & 0x000F;
        proof {
            assert((opcode & 0x0F00) >> 8u16 < 16) by (bit_vector);
            assert((opcode & 0x00F0) >> 4u16 < 16) by (bit_vector);
            assert(opcode & 0x000F < 16) by (bit_vector);
            assert(opcode >> 12u16 < 16) by (bit_vector);
        }
        if hi == 0x0 {
            if opcode == 0x00E0 {
                self.cls();
                Ok(Status::Running)
            } else if opcode == 0x00EE {
                resumed(self.ret())
            } else {
                Err(Chip8Error::UnknownOpcode(opcode))
            }
        } else if hi == 0x1 {
            self.jp(nnn);
            Ok(Status::Running)
        } else if hi == 0x2 {
            resumed(self.call(nnn))
        } else if hi == 0x3 {
            self.se(x, kk);
            Ok(Status::Running)
        } else if hi == 0x4 {
            self.sne(x, kk);
            Ok(Status::Running)
        } else if hi == 0x5 {
            self.se_vx_vy(x, y);
            Ok(Status::Running)
        } else if hi == 0x6 {
            self.ld(x, kk);
            Ok(Status::Running)
        } else if hi == 0x7 {
            self.add(x, kk);
            Ok(Status::Running)
        } else if hi == 0x8 {
            if low == 0x0 {
                self.ld_vx_vy(x, y);
            } else if low == 0x1 {
                self.or(x, y);
            } else if low == 0x2 {
                self.and(x, y);
            } else if low == 0x3 {
                self.xor(x, y);
            } else if low == 0x4 {
                self.add_vx_vy(x, y);
            } else if low == 0x5 {
                self.sub(x, y);
            } else if low == 0x6 {
                self.shr(x);
            } else if low == 0x7 {
                self.subn(x, y);
            } else if low == 0xE {
                self.shl(x);
            } else {
                return Err(Chip8Error::UnknownOpcode(opcode));
            }
            Ok(Status::Running)
        } else if hi == 0x9 {
            self.sne_vx_vy(x, y);
            Ok(Status::Running)
        } else if hi == 0xA {
            self.ld_i(nnn);
            Ok(Status::Running)
        } else if hi == 0xB {
            self.jp_v0(nnn);
            Ok(Status::Running)
        } else if hi == 0xC {
            self.rnd_with(x, kk, drawn);
            Ok(Status::Running)
        } else if hi == 0xD {
            resumed(self.drw(x, y, n))
        } else if hi == 0xE {
            if kk == 0x9E {
                self.skp(x);
                Ok(Status::Running)
            } else if kk == 0xA1 {
                self.sknp(x);
                Ok(Status::Running)
            } else {
                Err(Chip8Error::UnknownOpcode(opcode))
            }
        } else {
            if kk == 0x07 {
                self.ld_vx_dt(x);
                Ok(Status::Running)
            } else if kk == 0x0A {
                Ok(self.ld_vx_k(x))
            } else if kk == 0x15 {
                self.ld_dt_vx(x);
                Ok(Status::Running)
            } else if kk == 0x18 {
                self.ld_st_vx(x);
                Ok(Status::Running)
            } else if kk == 0x1E {
                self.add_i_vx(x);
                Ok(Status::Running)
            } else if kk == 0x29 {
                self.ld_f_vx(x);
                Ok(Status::Running)
            } else if kk == 0x33 {
                resumed(self.ld_b_vx(x))
            } else if kk == 0x55 {
                resumed(self.ld_i_vx(x))
            } else if kk == 0x65 {
                resumed(self.ld_vx_i(x))
            } else {
                Err(Chip8Error::UnknownOpcode(opcode))
            }
        }
    }

    /// Decodes and executes one instruction word, with the program counter
    /// already past it, drawing a random byte for a random-mask instruction.
    pub fn execute_opcode(&mut self, opcode: u16) -> (r: Result<Status, Chip8Error>)
        requires
            old(self)@.wf(),
        ensures
            final(self)@.wf(),
            exists|drawn: u8|
                stepped(old(self)@, final(self)@, r, #[trigger] old(self)@.execute(opcode, drawn)),
    {
        let drawn: u8 = if opcode >> 12 == 0xC {
            random_byte()
        } else {
            0
        };
        self.execute_with(opcode, drawn)
    }

    /// The big-endian instruction word at the program counter.
    pub fn fetch(&self) -> (r: Result<u16, Chip8Error>)
        requires
            self@.wf(),
        ensures
            r == self@.fetch(),
    {
        let pc = self.pc as usize;
        if pc + 1 >= MEMORY_SIZE {
            return Err(Chip8Error::AddressOutOfRange);
        }
        Ok(self.memory[pc] as u16 * 256 + self.memory[pc + 1] as u16)
    }

    /// One cycle with a given random byte: fetch, advance the program counter,
    /// execute, then tick both timers unless the machine waits for a key.
    pub fn cycle_with(&mut self, drawn: u8) -> (r: Result<Status, Chip8Error>)
        requires
            old(self)@.wf(),
        ensures
            final(self)@.wf(),
            stepped(old(self)@, final(self)@, r, old(self)@.cycle(drawn)),
    {
        let opcode = match self.fetch() {
            Ok(op) => op,
            Err(e) => return Err(e),
        };
        let pc = self.pc;
        self.pc = ((pc as u32 + 2) % 65536) as u16;
        match self.execute_with(opcode, drawn) {
            Err(e) => {
                self.pc = pc;
                proof {
                    assert(self@ =~= old(self)@);
                }
                Err(e)
            },
            Ok(Status::AwaitingKey) => {
                self.pc = pc;
                Ok(Status::AwaitingKey)
            },
            Ok(Status::Running) => {
                if self.delay > 0 {
                    self.delay = self.delay - 1;
                }
                if self.sound > 0 {
                    self.sound = self.sound - 1;
                }
                Ok(Status::Running)
            },
        }
    }

    /// One fetch-decode-execute cycle, drawing a random byte for a
    /// random-mask instruction.
    pub fn cycle(&mut self) -> (r: Result<Status, Chip8Error>)
        requires
            old(self)@.wf(),
        ensures
            final(self)@.wf(),
            exists|drawn: u8| stepped(old(self)@, final(self)@, r, #[trigger] old(self)@.cycle(drawn)),
    {
        let drawn: u8 = random_byte();
        self.cycle_with(drawn)
    }

    /// Runs up to `max_cycles` cycles, stopping early at a failure or when
    /// the machine waits for a key.
    pub fn run(&mut self, max_cycles: usize) -> (r: Result<Status, Chip8Error>)
        requires
            old(self)@.wf(),
        ensures
            final(self)@.wf(),
            exists|draws: Seq<u8>|
                draws.len() == max_cycles && #[trigger] old(self)@.run(draws) == (final(self)@, r),
    {
        let ghost done: Seq<u8> = Seq::empty();
        let mut k: usize = 0;
        while k < max_cycles
            invariant
                self@.wf(),
                k <= max_cycles,
                done.len() == k,
                old(self)@.run(done) == (self@, Ok::<Status, Chip8Error>(Status::Running)),
            decreases max_cycles - k,
        {
            let ghost before = self@;
            let drawn: u8 = random_byte();
            let r = self.cycle_with(drawn);
            let ghost pad = Seq::new((max_cycles - k - 1) as nat, |j: int| 0u8);
            proof {
                lemma_run_concat(old(self)@, done, seq![drawn] + pad);
                assert((seq![drawn] + pad).drop_first() =~= pad);
                assert((seq![drawn] + pad)[0] == drawn);
                lemma_run_concat(old(self)@, done, seq![drawn]);
                assert(seq![drawn].drop_first() =~= Seq::<u8>::empty());
            }
            match r {
                Ok(Status::Running) => {},
                _ => {
                    proof {
                        assert((done + (seq![drawn] + pad)).len() == max_cycles);
                    }
                    return r;
                },
            }
            proof {
                assert(before.cycle(drawn) == Ok::<(Chip8State, Status), Chip8Error>((self@, Status::Running)));
                assert(before.run(seq![drawn]) == self@.run(seq![drawn].drop_first()));
                assert(self@.run(Seq::<u8>::empty()) == (self@, Ok::<Status, Chip8Error>(Status::Running)));
                done = done + seq![drawn];
            }
            k = k + 1;
        }
        Ok(Status::Running)
    }
}

impl Chip8 {
    /// The program counter.
    pub fn pc(&self) -> (r: u16)
        ensures
            r == self@.pc,
    {
        self.pc
    }

    /// The address register.
    pub fn index(&self) -> (r: u16)
        ensures
            r == self@.i,
    {
        self.i
    }

    /// The delay timer.
    pub fn delay(&self) -> (r: u8)
        ensures
            r == self@.delay,
    {
        self.delay
    }

    /// The sound timer.
    pub fn sound(&self) -> (r: u8)
        ensures
            r == self@.sound,
    {
        self.sound
    }

    /// Number of return addresses on the call stack.
    pub fn stack_depth(&self) -> (r: usize)
        ensures
            r == self@.stack.len(),
    {
        self.stack.len()
    }

    /// Framebuffer width.
    pub fn width(&self) -> (r: usize)
        ensures
            r == self@.width,
    {
        self.width
    }

    /// Framebuffer height.
    pub fn height(&self) -> (r: usize)
        ensures
            r == self@.height,
    {
        self.height
    }

    /// The byte at address `addr`.
    pub fn memory_at(&self, addr: usize) -> (r: u8)
        requires
            self@.wf(),
            addr < MEMORY_SIZE,
        ensures
            r == self@.memory[addr as int],
    {
        self.memory[addr]
    }

    /// The framebuffer cell at column `cx` and row `cy`.
    pub fn pixel(&self, cx: usize, cy: usize) -> (r: bool)
        requires
            self@.wf(),
            cx < self@.width,
            cy < self@.height,
        ensures
            r == self@.pixel(cx as int, cy as int),
    {
        proof {
            assert(cy * self.width + cx < self.width * self.height) by (nonlinear_arith)
                requires
                    cx < self.width,
                    cy < self.height,
            ;
            assert(self.width * self.height <= 4096 * 4096) by (nonlinear_arith)
                requires
                    self.width <= 4096,
                    self.height <= 4096,
            ;
            assert(0 <= cy * self.width <= cy * self.width + cx);
        }
        self.display[cy * self.width + cx]
    }

    /// Whether key `k` is pressed.
    pub fn key(&self, k: usize) -> (r: bool)
        requires
            self@.wf(),
            k < KEY_COUNT,
        ensures
            r == self@.keys[k as int],
    {
        self.keyboard[k]
    }

    /// Sets the pressed state of key `k` in the input latch.
    pub fn set_key(&mut self, k: usize, pressed: bool)
        requires
            old(self)@.wf(),
            k < KEY_COUNT,
        ensures
            final(self)@ == (Chip8State { keys: old(self)@.keys.update(k as int, pressed), ..old(self)@ }),
            final(self)@.wf(),
    {
        self.keyboard.set(k, pressed);
    }
}

} // verus!
