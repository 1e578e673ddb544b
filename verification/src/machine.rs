//! The machine state and the executor: fetch, decode and execute one
//! instruction per cycle, against a spec-level interpreter that pins
//! down every instruction's effect.
//!
//! Bound violations that the historical design left unchecked are
//! reported as `Fault` values: a faulting cycle leaves the machine
//! exactly as it was, and the host decides whether to halt or reset.

use vstd::prelude::*;
use crate::alu::add_carry;
use crate::alu::add_wrapped;
use crate::alu::shl_flag;
use crate::alu::shl_result;
use crate::alu::shr_flag;
use crate::alu::shr_result;
use crate::alu::sub_no_borrow;
use crate::alu::sub_wrapped;
use crate::decode::decode_op;
use crate::decode::nib1;
use crate::decode::nib2;
use crate::decode::nib3;
use crate::decode::nib4;
use crate::decode::Instruction;
use crate::font::font_bytes;
use crate::font::spec_font;
use crate::font::FONT_SIZE;
use crate::screen::draw_collision;
use crate::screen::draw_screen;
use crate::screen::exec_display;

verus! {

/// Bytes of addressable memory.
pub const MEMORY_SIZE: usize = 4096;

/// Address at which a loaded program starts.
pub const START_ADDR: u16 = 0x200;

/// Capacity of the call stack.
pub const STACK_SIZE: usize = 16;

/// Number of general-purpose registers.
pub const REGISTERS_COUNT: usize = 16;

/// Number of keypad keys.
pub const KEYS_COUNT: usize = 16;

/// Largest program image that fits between the start address and the
/// end of memory.
pub const MAX_PROGRAM_SIZE: usize = 3584;

/// A bound violation, reported instead of the unchecked access of the
/// historical design. A faulting operation leaves the machine unchanged.
#[derive(Clone, Copy, Debug, PartialEq, Eq, Structural)]
pub enum Fault {
    /// A fetch, draw, binary-coded-decimal write or register block
    /// copy would touch memory past address 4095.
    MemoryOutOfBounds,
    /// A call was made with sixteen return addresses already stacked.
    StackOverflow,
    /// A return was executed with the call stack empty.
    StackUnderflow,
    /// A key index outside 0..=15 was used.
    KeyOutOfRange,
    /// A program image larger than the memory past the start address.
    OversizedProgram,
}

/// The mathematical model of the whole machine state.
#[verifier::ext_equal]
pub ghost struct Chip8View {
    pub pc: u16,
    pub memory: Seq<u8>,
    pub screen: Seq<bool>,
    pub registers: Seq<u8>,
    pub index_register: u16,
    pub stack: Seq<u16>,
    pub sp: u8,
    pub keys: Seq<bool>,
    pub delay_timer: u8,
    pub sound_timer: u8,
}

impl Chip8View {
    /// Well-formedness: every component has its fixed size and the
    /// stack pointer stays within the stack.
    pub open spec fn wf(self) -> bool {
        &&& self.memory.len() == 4096
        &&& self.screen.len() == 2048
        &&& self.registers.len() == 16
        &&& self.stack.len() == 16
        &&& self.keys.len() == 16
        &&& self.sp <= 16
    }
}

/// The machine state right after initialization: font at the start of
/// memory, everything else zeroed, program counter at the start address.
pub open spec fn initial_state() -> Chip8View {
    Chip8View {
        pc: 0x200,
        memory: spec_font() + Seq::new(4016, |j: int| 0u8),
        screen: Seq::new(2048, |j: int| false),
        registers: Seq::new(16, |j: int| 0u8),
        index_register: 0,
        stack: Seq::new(16, |j: int| 0u16),
        sp: 0,
        keys: Seq::new(16, |j: int| false),
        delay_timer: 0,
        sound_timer: 0,
    }
}

/// Memory after a program image is copied in at the start address.
pub open spec fn loaded_memory(mem: Seq<u8>, data: Seq<u8>) -> Seq<u8> {
    Seq::new(mem.len(), |j: int| if 512 <= j < 512 + data.len() { data[j - 512] } else { mem[j] })
}

/// Memory after registers `0..=x` are stored at addresses `i..=i+x`.
pub open spec fn store_block(mem: Seq<u8>, regs: Seq<u8>, i: int, x: int) -> Seq<u8> {
    Seq::new(mem.len(), |j: int| if i <= j <= i + x { regs[j - i] } else { mem[j] })
}

/// Registers after `0..=x` are loaded from addresses `i..=i+x`.
pub open spec fn load_block(regs: Seq<u8>, mem: Seq<u8>, i: int, x: int) -> Seq<u8> {
    Seq::new(regs.len(), |j: int| if 0 <= j <= x { mem[i + j] } else { regs[j] })
}

/// Index of the first pressed key at or after `i`, scanning upward.
pub open spec fn first_pressed_from(keys: Seq<bool>, i: int) -> Option<u8>
    decreases 16 - i,
{
    if i < 0 || i >= 16 {
        None
    } else if keys[i] {
        Some(i as u8)
    } else {
        first_pressed_from(keys, i + 1)
    }
}

/// Both timers decremented by one where they are above zero.
pub open spec fn timers_ticked(s: Chip8View) -> Chip8View {
    Chip8View {
        delay_timer: if s.delay_timer > 0 {
            (s.delay_timer - 1) as u8
        } else {
            0u8
        },
        sound_timer: if s.sound_timer > 0 {
            (s.sound_timer - 1) as u8
        } else {
            0u8
        },
        ..s
    }
}

/// Whether fetching two bytes at the program counter would read past
/// the end of memory.
pub open spec fn fetch_fault(s: Chip8View) -> bool {
    s.pc + 1 >= 4096
}

/// The instruction word at the program counter, big-endian.
pub open spec fn fetched_op(s: Chip8View) -> u16 {
    (s.memory[s.pc as int] * 256 + s.memory[s.pc as int + 1]) as u16
}

/// The state once the fetch has advanced the program counter past the
/// instruction word.
pub open spec fn after_fetch(s: Chip8View) -> Chip8View {
    Chip8View { pc: (s.pc + 2) as u16, ..s }
}

/// Effect of executing the instruction word `op` on a state whose
/// program counter has already been advanced past it. `rand` is the
/// byte drawn for the random instruction and is ignored by every other
/// instruction. An `Err` means the cycle faults and the machine is to
/// be left unchanged; an unrecognized opcode is a no-op, never a fault.
pub open spec fn exec_instr(s: Chip8View, op: u16, rand: u8) -> Result<Chip8View, Fault> {
    let x = nib2(op) as int;
    let y = nib3(op) as int;
    let n = nib4(op) as int;
    let nn = (op % 256) as u8;
    let nnn = (op % 4096) as u16;
    let vx = s.registers[x];
    let vy = s.registers[y];
    let i = s.index_register as int;
    match decode_op(op) {
        None => Ok(s),
        Some(instr) => match instr {
            Instruction::NOP => Ok(s),
            Instruction::ClearScreen => Ok(
                Chip8View { screen: Seq::new(2048, |j: int| false), ..s },
            ),
            Instruction::Jump => Ok(Chip8View { pc: nnn, ..s }),
            Instruction::CallSubroutine => if s.sp >= 16 {
                Err(Fault::StackOverflow)
            } else {
                Ok(
                    Chip8View {
                        stack: s.stack.update(s.sp as int, s.pc),
                        sp: (s.sp + 1) as u8,
                        pc: nnn,
                        ..s
                    },
                )
            },
            Instruction::ReturnSubroutine => if s.sp == 0 {
                Err(Fault::StackUnderflow)
            } else {
                Ok(Chip8View { sp: (s.sp - 1) as u8, pc: s.stack[s.sp - 1], ..s })
            },
            Instruction::SkipVXEqualNN => Ok(
                Chip8View { pc: if vx == nn { (s.pc + 2) as u16 } else { s.pc }, ..s },
            ),
            Instruction::SkipVXNotEqualNN => Ok(
                Chip8View { pc: if vx != nn { (s.pc + 2) as u16 } else { s.pc }, ..s },
            ),
            Instruction::SkipVXEqualVY => Ok(
                Chip8View { pc: if vx == vy { (s.pc + 2) as u16 } else { s.pc }, ..s },
            ),
            Instruction::SkipVXNotEqualVY => Ok(
                Chip8View { pc: if vx != vy { (s.pc + 2) as u16 } else { s.pc }, ..s },
            ),
            Instruction::SetVXToNN => Ok(Chip8View { registers: s.registers.update(x, nn), ..s }),
            Instruction::AddNNToVX => Ok(
                Chip8View { registers: s.registers.update(x, add_wrapped(vx, nn)), ..s },
            ),
            Instruction::SetVXToVY => Ok(Chip8View { registers: s.registers.update(x, vy), ..s }),
            Instruction::OR => Ok(Chip8View { registers: s.registers.update(x, vx | vy), ..s }),
            Instruction::AND => Ok(Chip8View { registers: s.registers.update(x, vx & vy), ..s }),
            Instruction::XOR => Ok(Chip8View { registers: s.registers.update(x, vx ^ vy), ..s }),
            Instruction::Add => Ok(
                Chip8View {
                    registers: s.registers.update(x, add_wrapped(vx, vy)).update(
                        15,
                        add_carry(vx, vy),
                    ),
                    ..s
                },
            ),
            Instruction::SubtractFrom => Ok(
                Chip8View {
                    registers: s.registers.update(x, sub_wrapped(vx, vy)).update(
                        15,
                        sub_no_borrow(vx, vy),
                    ),
                    ..s
                },
            ),
            Instruction::Subtract => Ok(
                Chip8View {
                    registers: s.registers.update(x, sub_wrapped(vy, vx)).update(
                        15,
                        sub_no_borrow(vy, vx),
                    ),
                    ..s
                },
            ),
            Instruction::RightShift => Ok(
                Chip8View {
                    registers: s.registers.update(x, shr_result(vx)).update(15, shr_flag(vx)),
                    ..s
                },
            ),
            Instruction::LeftShift => Ok(
                Chip8View {
                    registers: s.registers.update(x, shl_result(vx)).update(15, shl_flag(vx)),
                    ..s
                },
            ),
            Instruction::SetIndex => Ok(Chip8View { index_register: nnn, ..s }),
            Instruction::JumpWithOffset => Ok(
                Chip8View { pc: (s.registers[0] + nnn) as u16, ..s },
            ),
            Instruction::Random => Ok(
                Chip8View { registers: s.registers.update(x, rand & nn), ..s },
            ),
            Instruction::Display => if n > 0 && i + n > 4096 {
                Err(Fault::MemoryOutOfBounds)
            } else {
                Ok(
                    Chip8View {
                        screen: draw_screen(s.screen, s.memory, i, n, vx as int, vy as int),
                        registers: s.registers.update(
                            15,
                            if draw_collision(s.screen, s.memory, i, n, vx as int, vy as int) {
                                1u8
                            } else {
                                0u8
                            },
                        ),
                        ..s
                    },
                )
            },
            Instruction::SkipKeyPress => if vx >= 16 {
                Err(Fault::KeyOutOfRange)
            } else {
                Ok(Chip8View { pc: if s.keys[vx as int] { (s.pc + 2) as u16 } else { s.pc }, ..s })
            },
            Instruction::SkipKeyRelease => if vx >= 16 {
                Err(Fault::KeyOutOfRange)
            } else {
                Ok(Chip8View { pc: if !s.keys[vx as int] { (s.pc + 2) as u16 } else { s.pc }, ..s })
            },
            Instruction::SetVXToTimer => Ok(
                Chip8View { registers: s.registers.update(x, s.delay_timer), ..s },
            ),
            Instruction::SetTimerToVX => Ok(Chip8View { delay_timer: vx, ..s }),
            Instruction::SetSoundTimerToVX => Ok(Chip8View { sound_timer: vx, ..s }),
            Instruction::AddToIndex => Ok(
                Chip8View { index_register: ((s.index_register + vx) % 0x10000) as u16, ..s },
            ),
            Instruction::WaitKey => match first_pressed_from(s.keys, 0) {
                Some(k) => Ok(Chip8View { registers: s.registers.update(x, k), ..s }),
                None => Ok(Chip8View { pc: (s.pc - 2) as u16, ..s }),
            },
            Instruction::FontCharacter => Ok(
                Chip8View { index_register: (vx * 5) as u16, ..s },
            ),
            Instruction::BinaryCodedDecimalConversion => if i + 2 >= 4096 {
                Err(Fault::MemoryOutOfBounds)
            } else {
                Ok(
                    Chip8View {
                        memory: s.memory.update(i, (vx / 100) as u8).update(
                            i + 1,
                            ((vx / 10) % 10) as u8,
                        ).update(i + 2, (vx % 10) as u8),
                        ..s
                    },
                )
            },
            Instruction::StoreMemory => if i + x >= 4096 {
                Err(Fault::MemoryOutOfBounds)
            } else {
                Ok(Chip8View { memory: store_block(s.memory, s.registers, i, x), ..s })
            },
            Instruction::LoadMemory => if i + x >= 4096 {
                Err(Fault::MemoryOutOfBounds)
            } else {
                Ok(Chip8View { registers: load_block(s.registers, s.memory, i, x), ..s })
            },
        },
    }
}

/// One whole cycle on a state: fetch the instruction word at the
/// program counter (faulting if it reads past memory), advance the
/// counter by two, and execute. An `Err` means the machine is left
/// unchanged.
pub open spec fn step(s: Chip8View, rand: u8) -> Result<Chip8View, Fault> {
    if fetch_fault(s) {
        Err(Fault::MemoryOutOfBounds)
    } else {
        exec_instr(after_fetch(s), fetched_op(s), rand)
    }
}

/// Whether the cycle about to run on `s` executes the random
/// instruction; every other cycle is deterministic.
pub open spec fn fetches_random(s: Chip8View) -> bool {
    !fetch_fault(s) && decode_op(fetched_op(s)) == Some(Instruction::Random)
}

/// Storing registers `0..=x` and loading them back from the same
/// address into any register file reproduces the stored values in
/// registers `0..=x`.
pub proof fn lemma_store_load_round_trip(
    mem: Seq<u8>,
    regs: Seq<u8>,
    cleared: Seq<u8>,
    i: int,
    x: int,
)
    requires
        mem.len() == 4096,
        regs.len() == 16,
        cleared.len() == 16,
        0 <= x < 16,
        0 <= i,
        i + x < 4096,
    ensures
        forall|j: int|
            0 <= j <= x ==> load_block(cleared, store_block(mem, regs, i, x), i, x)[j] == regs[j],
{
}

/// A vector of `n` copies of one value.
fn filled<T: Copy>(n: usize, val: T) -> (v: Vec<T>)
    ensures
        v@ == Seq::new(n as nat, |j: int| val),
{
    let mut v: Vec<T> = Vec::new();
    let mut k: usize = 0;
    while k < n
        invariant
            k <= n,
            v@.len() == k,
            forall|j: int| 0 <= j < k ==> v@[j] == val,
        decreases n - k,
    {
        v.push(val);
        k = k + 1;
    }
    proof {
        assert(v@ =~= Seq::new(n as nat, |j: int| val));
    }
    v
}

/// Index of the first pressed key, scanning from key 0 upward.
fn first_pressed(keys: &Vec<bool>) -> (r: Option<u8>)
    requires
        keys@.len() == 16,
    ensures
        r == first_pressed_from(keys@, 0),
{
    let mut k: usize = 0;
    while k < 16
        invariant
            k <= 16,
            keys@.len() == 16,
            first_pressed_from(keys@, 0) == first_pressed_from(keys@, k as int),
        decreases 16 - k,
    {
        if keys[k] {
            return Some(k as u8);
        }
        k = k + 1;
    }
    None
}

/// Draws one byte from the host's random number generator.
///
/// Relies on `rand::random`: it returns a `u8`; nothing further is
/// assumed of the value.
#[verifier::external_body]
fn random_byte() -> u8 {
    rand::random()
}

/// The CHIP-8 machine: memory, registers, call stack, framebuffer,
/// keypad state and timers, with the fetch-decode-execute cycle.
#[derive(Debug)]
pub struct Chip8 {
    pc: u16,
    memory: Vec<u8>,
    screen: Vec<bool>,
    registers: Vec<u8>,
    index_register: u16,
    stack: Vec<u16>,
    sp: u8,
    keys: Vec<bool>,
    delay_timer: u8,
    sound_timer: u8,
}

impl View for Chip8 {
    type V = Chip8View;

    closed spec fn view(&self) -> Chip8View {
        Chip8View {
            pc: self.pc,
            memory: self.memory@,
            screen: self.screen@,
            registers: self.registers@,
            index_register: self.index_register,
            stack: self.stack@,
            sp: self.sp,
            keys: self.keys@,
            delay_timer: self.delay_timer,
            sound_timer: self.sound_timer,
        }
    }
}

impl Chip8 {
    /// A freshly initialized machine: font loaded at the start of
    /// memory, all other state zeroed, program counter at 0x200.
    pub fn new() -> (c: Chip8)
        ensures
            c@ == initial_state(),
            c@.wf(),
    {
        let mut memory = font_bytes();
        let mut k: usize = FONT_SIZE;
        while k < 4096
            invariant
                80 <= k <= 4096,
                memory@.len() == k,
                memory@ =~= spec_font() + Seq::new((k - 80) as nat, |j: int| 0u8),
            decreases 4096 - k,
        {
            memory.push(0);
            k = k + 1;
            proof {
                assert(memory@ =~= spec_font() + Seq::new((k - 80) as nat, |j: int| 0u8));
            }
        }
        let c = Chip8 {
            pc: START_ADDR,
            memory,
            screen: filled(2048, false),
            registers: filled(16, 0u8),
            index_register: 0,
            stack: filled(16, 0u16),
            sp: 0,
            keys: filled(16, false),
            delay_timer: 0,
            sound_timer: 0,
        };
        proof {
            assert(c@ =~= initial_state());
        }
        c
    }

    /// Copy a program image into memory at the start address. An image
    /// larger than the memory past that address is refused unchanged.
    pub fn load(&mut self, data: &[u8]) -> (r: Result<(), Fault>)
        requires
            old(self)@.wf(),
        ensures
            final(self)@.wf(),
            match r {
                Ok(()) => data@.len() <= 3584 && final(self)@ == (Chip8View {
                    memory: loaded_memory(old(self)@.memory, data@),
                    ..old(self)@
                }),
                Err(f) => f == Fault::OversizedProgram && data@.len() > 3584 && final(self)@
                    == old(self)@,
            },
    {
        if data.len() > MAX_PROGRAM_SIZE {
            return Err(Fault::OversizedProgram);
        }
        let ghost orig = self@;
        let mut k: usize = 0;
        while k < data.len()
            invariant
                k <= data@.len(),
                data@.len() <= 3584,
                self@.memory.len() == 4096,
                self@ == (Chip8View { memory: self@.memory, ..orig }),
                forall|j: int|
                    0 <= j < 4096 ==> self@.memory[j] == (if 512 <= j < 512 + k {
                        data@[j - 512]
                    } else {
                        orig.memory[j]
                    }),
            decreases data@.len() - k,
        {
            self.memory[512 + k] = data[k];
            k = k + 1;
        }
        proof {
            assert(self@.memory =~= loaded_memory(orig.memory, data@));
            assert(self@ =~= (Chip8View { memory: loaded_memory(orig.memory, data@), ..orig }));
        }
        Ok(())
    }

    /// Record a key press or release. Key indices run 0..=15; anything
    /// else is refused unchanged.
    pub fn keypress(&mut self, idx: usize, pressed: bool) -> (r: Result<(), Fault>)
        requires
            old(self)@.wf(),
        ensures
            final(self)@.wf(),
            match r {
                Ok(()) => idx < 16 && final(self)@ == (Chip8View {
                    keys: old(self)@.keys.update(idx as int, pressed),
                    ..old(self)@
                }),
                Err(f) => f == Fault::KeyOutOfRange && idx >= 16 && final(self)@ == old(self)@,
            },
    {
        if idx >= KEYS_COUNT {
            return Err(Fault::KeyOutOfRange);
        }
        self.keys[idx] = pressed;
        proof {
            assert(self@ =~= (Chip8View { keys: old(self)@.keys.update(idx as int, pressed), ..old(self)@ }));
        }
        Ok(())
    }

    /// Decrement each timer by one where it is above zero; a timer at
    /// zero stays at zero.
    pub fn tick_timers(&mut self)
        ensures
            final(self)@ == timers_ticked(old(self)@),
    {
        if self.delay_timer > 0 {
            self.delay_timer = self.delay_timer - 1;
        }
        if self.sound_timer > 0 {
            self.sound_timer = self.sound_timer - 1;
        }
        proof {
            assert(self@ =~= timers_ticked(old(self)@));
        }
    }

    /// The framebuffer, row-major, 64 cells per row, 32 rows.
    pub fn get_screen(&self) -> (s: &[bool])
        ensures
            s@ == self@.screen,
    {
        self.screen.as_slice()
    }

    /// The program counter.
    pub fn get_pc(&self) -> (r: u16)
        ensures
            r == self@.pc,
    {
        self.pc
    }

    /// The index register.
    pub fn get_index_register(&self) -> (r: u16)
        ensures
            r == self@.index_register,
    {
        self.index_register
    }

    /// The delay timer.
    pub fn get_delay_timer(&self) -> (r: u8)
        ensures
            r == self@.delay_timer,
    {
        self.delay_timer
    }

    /// The sound timer.
    pub fn get_sound_timer(&self) -> (r: u8)
        ensures
            r == self@.sound_timer,
    {
        self.sound_timer
    }

    /// General-purpose register `idx`.
    pub fn get_register(&self, idx: usize) -> (r: u8)
        requires
            self@.wf(),
            idx < 16,
        ensures
            r == self@.registers[idx as int],
    {
        self.registers[idx]
    }

    /// The memory byte at `addr`.
    pub fn read_memory(&self, addr: usize) -> (r: u8)
        requires
            self@.wf(),
            addr < 4096,
        ensures
            r == self@.memory[addr as int],
    {
        self.memory[addr]
    }

    /// Fetch the two instruction bytes at the program counter and
    /// advance it past them; faults if the read would pass the end of
    /// memory, leaving the machine unchanged.
    fn fetch(&mut self) -> (r: Result<u16, Fault>)
        requires
            old(self)@.wf(),
        ensures
            final(self)@.wf(),
            match r {
                Ok(op) => !fetch_fault(old(self)@) && op == fetched_op(old(self)@) && final(self)@
                    == after_fetch(old(self)@),
                Err(f) => f == Fault::MemoryOutOfBounds && fetch_fault(old(self)@) && final(self)@
                    == old(self)@,
            },
    {
        if self.pc as usize + 1 >= MEMORY_SIZE {
            return Err(Fault::MemoryOutOfBounds);
        }
        let hi = self.memory[self.pc as usize];
        let lo = self.memory[(self.pc as usize) + 1];
        let op = (hi as u16) * 256 + (lo as u16);
        self.pc = self.pc + 2;
        proof {
            assert(self@ =~= after_fetch(old(self)@));
        }
        Ok(op)
    }

    /// Push a return address; faults when sixteen addresses are already
    /// stacked, leaving the machine unchanged.
    fn push_on_stack(&mut self, val: u16) -> (r: Result<(), Fault>)
        requires
            old(self)@.wf(),
        ensures
            final(self)@.wf(),
            match r {
                Ok(()) => old(self)@.sp < 16 && final(self)@ == (Chip8View {
                    stack: old(self)@.stack.update(old(self)@.sp as int, val),
                    sp: (old(self)@.sp + 1) as u8,
                    ..old(self)@
                }),
                Err(f) => f == Fault::StackOverflow && old(self)@.sp >= 16 && final(self)@
                    == old(self)@,
            },
    {
        if self.sp as usize >= STACK_SIZE {
            return Err(Fault::StackOverflow);
        }
        self.stack[self.sp as usize] = val;
        self.sp = self.sp + 1;
        proof {
            assert(self@ =~= (Chip8View {
                stack: old(self)@.stack.update(old(self)@.sp as int, val),
                sp: (old(self)@.sp + 1) as u8,
                ..old(self)@
            }));
        }
        Ok(())
    }

    /// Pop the last return address; faults when the stack is empty,
    /// leaving the machine unchanged.
    fn pop_from_stack(&mut self) -> (r: Result<u16, Fault>)
        requires
            old(self)@.wf(),
        ensures
            final(self)@.wf(),
            match r {
                Ok(v) => old(self)@.sp > 0 && v == old(self)@.stack[old(self)@.sp - 1]
                    && final(self)@ == (Chip8View { sp: (old(self)@.sp - 1) as u8, ..old(self)@ }),
                Err(f) => f == Fault::StackUnderflow && old(self)@.sp == 0 && final(self)@
                    == old(self)@,
            },
    {
        if self.sp == 0 {
            return Err(Fault::StackUnderflow);
        }
        self.sp = self.sp - 1;
        let v = self.stack[self.sp as usize];
        proof {
            assert(self@ =~= (Chip8View { sp: (old(self)@.sp - 1) as u8, ..old(self)@ }));
        }
        Ok(v)
    }

    /// Decode the instruction word `op` (whose bytes the program
    /// counter has already been advanced past) and execute it. On a
    /// fault the machine is left exactly as it was. An unrecognized
    /// opcode is a no-op.
    /// Control-flow and index instructions: no-op, clear, jumps,
    /// call and return, the conditional skips, and set-index.
    #[verifier::rlimit(100)]
    fn exec_group_flow(&mut self, op: u16, instr: Instruction) -> (r: Result<(), Fault>)
        requires
            old(self)@.wf(),
            2 <= old(self)@.pc <= 4096,
            decode_op(op) == Some(instr),
            instr == Instruction::NOP
                || instr == Instruction::ClearScreen
                || instr == Instruction::Jump
                || instr == Instruction::CallSubroutine
                || instr == Instruction::ReturnSubroutine
                || instr == Instruction::SkipVXEqualNN
                || instr == Instruction::SkipVXNotEqualNN
                || instr == Instruction::SkipVXEqualVY
                || instr == Instruction::SkipVXNotEqualVY
                || instr == Instruction::SetIndex
                || instr == Instruction::JumpWithOffset,
        ensures
            final(self)@.wf(),
            (match r {
                Ok(()) => exec_instr(old(self)@, op, 0) == Ok::<Chip8View, Fault>(final(self)@),
                Err(f) => final(self)@ == old(self)@ && exec_instr(old(self)@, op, 0)
                    == Err::<Chip8View, Fault>(f),
            }),
    {
        let ghost s0 = self@;
        let n2 = (op / 0x100) % 0x10;
        let n3 = (op / 0x10) % 0x10;
        proof {
            assert(n2 == nib2(op) && n3 == nib3(op));
        }
        let xu = n2 as usize;
        let yu = n3 as usize;
        let nn = (op % 0x100) as u8;
        let nnn = op % 0x1000;
        match instr {
            Instruction::NOP => {
                proof {
                    assert(exec_instr(s0, op, 0) == Ok::<Chip8View, Fault>(self@));
                }
                Ok(())
            },
            Instruction::ClearScreen => {
                self.screen = filled(2048, false);
                proof {
                    assert(self@.screen =~= Seq::new(2048, |j: int| false));
                    assert(self@ =~= (Chip8View { screen: Seq::new(2048, |j: int| false), ..s0 }));
                    assert(exec_instr(s0, op, 0) == Ok::<Chip8View, Fault>(self@));
                }
                Ok(())
            },
            Instruction::Jump => {
                self.pc = nnn;
                proof {
                    assert(self@ =~= (Chip8View { pc: (op % 4096) as u16, ..s0 }));
                    assert(exec_instr(s0, op, 0) == Ok::<Chip8View, Fault>(self@));
                }
                Ok(())
            },
            Instruction::CallSubroutine => {
                let ret = self.pc;
                match self.push_on_stack(ret) {
                    Ok(()) => {
                        self.pc = nnn;
                        proof {
                            assert(self@ =~= (Chip8View {
                                stack: s0.stack.update(s0.sp as int, s0.pc),
                                sp: (s0.sp + 1) as u8,
                                pc: (op % 4096) as u16,
                                ..s0
                            }));
                            assert(exec_instr(s0, op, 0) == Ok::<Chip8View, Fault>(self@));
                        }
                        Ok(())
                    },
                    Err(f) => {
                        proof {
                            assert(exec_instr(s0, op, 0) == Err::<Chip8View, Fault>(f));
                        }
                        Err(f)
                    },
                }
            },
            Instruction::ReturnSubroutine => {
                match self.pop_from_stack() {
                    Ok(addr) => {
                        self.pc = addr;
                        proof {
                            assert(self@ =~= (Chip8View {
                                sp: (s0.sp - 1) as u8,
                                pc: s0.stack[s0.sp - 1],
                                ..s0
                            }));
                            assert(exec_instr(s0, op, 0) == Ok::<Chip8View, Fault>(self@));
                        }
                        Ok(())
                    },
                    Err(f) => {
                        proof {
                            assert(exec_instr(s0, op, 0) == Err::<Chip8View, Fault>(f));
                        }
                        Err(f)
                    },
                }
            },
            Instruction::SkipVXEqualNN => {
                if self.registers[xu] == nn {
                    self.pc = self.pc + 2;
                }
                proof {
                    if s0.registers[n2 as int] == nn {
                        assert(self@ =~= (Chip8View { pc: (s0.pc + 2) as u16, ..s0 }));
                    } else {
                        assert(self@ =~= s0);
                    }
                    assert(exec_instr(s0, op, 0) == Ok::<Chip8View, Fault>(self@));
                }
                Ok(())
            },
            Instruction::SkipVXNotEqualNN => {
                if self.registers[xu] != nn {
                    self.pc = self.pc + 2;
                }
                proof {
                    if s0.registers[n2 as int] != nn {
                        assert(self@ =~= (Chip8View { pc: (s0.pc + 2) as u16, ..s0 }));
                    } else {
                        assert(self@ =~= s0);
                    }
                    assert(exec_instr(s0, op, 0) == Ok::<Chip8View, Fault>(self@));
                }
                Ok(())
            },
            Instruction::SkipVXEqualVY => {
                if self.registers[xu] == self.registers[yu] {
                    self.pc = self.pc + 2;
                }
                proof {
                    if s0.registers[n2 as int] == s0.registers[n3 as int] {
                        assert(self@ =~= (Chip8View { pc: (s0.pc + 2) as u16, ..s0 }));
                    } else {
                        assert(self@ =~= s0);
                    }
                    assert(exec_instr(s0, op, 0) == Ok::<Chip8View, Fault>(self@));
                }
                Ok(())
            },
            Instruction::SkipVXNotEqualVY => {
                if self.registers[xu] != self.registers[yu] {
                    self.pc = self.pc + 2;
                }
                proof {
                    if s0.registers[n2 as int] != s0.registers[n3 as int] {
                        assert(self@ =~= (Chip8View { pc: (s0.pc + 2) as u16, ..s0 }));
                    } else {
                        assert(self@ =~= s0);
                    }
                    assert(exec_instr(s0, op, 0) == Ok::<Chip8View, Fault>(self@));
                }
                Ok(())
            },
            Instruction::SetIndex => {
                self.index_register = nnn;
                proof {
                    assert(self@ =~= (Chip8View { index_register: (op % 4096) as u16, ..s0 }));
                    assert(exec_instr(s0, op, 0) == Ok::<Chip8View, Fault>(self@));
                }
                Ok(())
            },
            Instruction::JumpWithOffset => {
                self.pc = (self.registers[0] as u16) + nnn;
                proof {
                    assert(self@ =~= (Chip8View {
                        pc: (s0.registers[0] + (op % 4096) as u16) as u16,
                        ..s0
                    }));
                    assert(exec_instr(s0, op, 0) == Ok::<Chip8View, Fault>(self@));
                }
                Ok(())
            },
            _ => {
                proof {
                    assert(false);
                }
                Ok(())
            },
        }
    }

    /// Register arithmetic and logic: immediate and register forms,
    /// with the carry, borrow and shift flags to VF.
    #[verifier::rlimit(100)]
    fn exec_group_alu(&mut self, op: u16, instr: Instruction) -> (r: Result<(), Fault>)
        requires
            old(self)@.wf(),
            2 <= old(self)@.pc <= 4096,
            decode_op(op) == Some(instr),
            instr == Instruction::SetVXToNN
                || instr == Instruction::AddNNToVX
                || instr == Instruction::SetVXToVY
                || instr == Instruction::OR
                || instr == Instruction::AND
                || instr == Instruction::XOR
                || instr == Instruction::Add
                || instr == Instruction::SubtractFrom
                || instr == Instruction::Subtract
                || instr == Instruction::RightShift
                || instr == Instruction::LeftShift,
        ensures
            final(self)@.wf(),
            (match r {
                Ok(()) => exec_instr(old(self)@, op, 0) == Ok::<Chip8View, Fault>(final(self)@),
                Err(f) => final(self)@ == old(self)@ && exec_instr(old(self)@, op, 0)
                    == Err::<Chip8View, Fault>(f),
            }),
    {
        let ghost s0 = self@;
        let n2 = (op / 0x100) % 0x10;
        let n3 = (op / 0x10) % 0x10;
        proof {
            assert(n2 == nib2(op) && n3 == nib3(op));
        }
        let xu = n2 as usize;
        let yu = n3 as usize;
        let nn = (op % 0x100) as u8;
        match instr {
            Instruction::SetVXToNN => {
                self.registers[xu] = nn;
                proof {
                    assert(self@ =~= (Chip8View {
                        registers: s0.registers.update(n2 as int, nn),
                        ..s0
                    }));
                    assert(exec_instr(s0, op, 0) == Ok::<Chip8View, Fault>(self@));
                }
                Ok(())
            },
            Instruction::AddNNToVX => {
                let vx = self.registers[xu];
                let sum = (vx as u16) + (nn as u16);
                let newv = (sum % 256) as u8;
                self.registers[xu] = newv;
                proof {
                    assert(newv == add_wrapped(vx, nn));
                    assert(self@ =~= (Chip8View {
                        registers: s0.registers.update(n2 as int, add_wrapped(vx, nn)),
                        ..s0
                    }));
                    assert(exec_instr(s0, op, 0) == Ok::<Chip8View, Fault>(self@));
                }
                Ok(())
            },
            Instruction::SetVXToVY => {
                let vy = self.registers[yu];
                self.registers[xu] = vy;
                proof {
                    assert(self@ =~= (Chip8View {
                        registers: s0.registers.update(n2 as int, vy),
                        ..s0
                    }));
                    assert(exec_instr(s0, op, 0) == Ok::<Chip8View, Fault>(self@));
                }
                Ok(())
            },
            Instruction::OR => {
                let vx = self.registers[xu];
                let vy = self.registers[yu];
                self.registers[xu] = vx | vy;
                proof {
                    assert(self@ =~= (Chip8View {
                        registers: s0.registers.update(n2 as int, vx | vy),
                        ..s0
                    }));
                    assert(exec_instr(s0, op, 0) == Ok::<Chip8View, Fault>(self@));
                }
                Ok(())
            },
            Instruction::AND => {
                let vx = self.registers[xu];
                let vy = self.registers[yu];
                self.registers[xu] = vx & vy;
                proof {
                    assert(self@ =~= (Chip8View {
                        registers: s0.registers.update(n2 as int, vx & vy),
                        ..s0
                    }));
                    assert(exec_instr(s0, op, 0) == Ok::<Chip8View, Fault>(self@));
                }
                Ok(())
            },
            Instruction::XOR => {
                let vx = self.registers[xu];
                let vy = self.registers[yu];
                self.registers[xu] = vx ^ vy;
                proof {
                    assert(self@ =~= (Chip8View {
                        registers: s0.registers.update(n2 as int, vx ^ vy),
                        ..s0
                    }));
                    assert(exec_instr(s0, op, 0) == Ok::<Chip8View, Fault>(self@));
                }
                Ok(())
            },
            Instruction::Add => {
                let vx = self.registers[xu];
                let vy = self.registers[yu];
                let sum = (vx as u16) + (vy as u16);
                let new_vx = (sum % 256) as u8;
                let new_vf: u8 = if sum > 255 {
                    1
                } else {
                    0
                };
                self.registers[xu] = new_vx;
                self.registers[15] = new_vf;
                proof {
                    assert(new_vx == add_wrapped(vx, vy) && new_vf == add_carry(vx, vy));
                    assert(self@ =~= (Chip8View {
                        registers: s0.registers.update(n2 as int, add_wrapped(vx, vy)).update(
                            15,
                            add_carry(vx, vy),
                        ),
                        ..s0
                    }));
                    assert(exec_instr(s0, op, 0) == Ok::<Chip8View, Fault>(self@));
                }
                Ok(())
            },
            Instruction::SubtractFrom => {
                let vx = self.registers[xu];
                let vy = self.registers[yu];
                let new_vx = if vx >= vy {
                    vx - vy
                } else {
                    (((vx as u16) + 256) - (vy as u16)) as u8
                };
                let new_vf: u8 = if vx >= vy {
                    1
                } else {
                    0
                };
                self.registers[xu] = new_vx;
                self.registers[15] = new_vf;
                proof {
                    assert(new_vx == sub_wrapped(vx, vy) && new_vf == sub_no_borrow(vx, vy));
                    assert(self@ =~= (Chip8View {
                        registers: s0.registers.update(n2 as int, sub_wrapped(vx, vy)).update(
                            15,
                            sub_no_borrow(vx, vy),
                        ),
                        ..s0
                    }));
                    assert(exec_instr(s0, op, 0) == Ok::<Chip8View, Fault>(self@));
                }
                Ok(())
            },
            Instruction::Subtract => {
                let vx = self.registers[xu];
                let vy = self.registers[yu];
                let new_vx = if vy >= vx {
                    vy - vx
                } else {
                    (((vy as u16) + 256) - (vx as u16)) as u8
                };
                let new_vf: u8 = if vy >= vx {
                    1
                } else {
                    0
                };
                self.registers[xu] = new_vx;
                self.registers[15] = new_vf;
                proof {
                    assert(new_vx == sub_wrapped(vy, vx) && new_vf == sub_no_borrow(vy, vx));
                    assert(self@ =~= (Chip8View {
                        registers: s0.registers.update(n2 as int, sub_wrapped(vy, vx)).update(
                            15,
                            sub_no_borrow(vy, vx),
                        ),
                        ..s0
                    }));
                    assert(exec_instr(s0, op, 0) == Ok::<Chip8View, Fault>(self@));
                }
                Ok(())
            },
            Instruction::RightShift => {
                let vx = self.registers[xu];
                self.registers[xu] = vx / 2;
                self.registers[15] = vx % 2;
                proof {
                    assert(self@ =~= (Chip8View {
                        registers: s0.registers.update(n2 as int, shr_result(vx)).update(
                            15,
                            shr_flag(vx),
                        ),
                        ..s0
                    }));
                    assert(exec_instr(s0, op, 0) == Ok::<Chip8View, Fault>(self@));
                }
                Ok(())
            },
            Instruction::LeftShift => {
                let vx = self.registers[xu];
                let newv = (((vx as u16) * 2) % 256) as u8;
                self.registers[xu] = newv;
                self.registers[15] = vx / 128;
                proof {
                    assert(newv == shl_result(vx));
                    assert(self@ =~= (Chip8View {
                        registers: s0.registers.update(n2 as int, shl_result(vx)).update(
                            15,
                            shl_flag(vx),
                        ),
                        ..s0
                    }));
                    assert(exec_instr(s0, op, 0) == Ok::<Chip8View, Fault>(self@));
                }
                Ok(())
            },
            _ => {
                proof {
                    assert(false);
                }
                Ok(())
            },
        }
    }

    /// Register transfers with the timers, the keypad and the index
    /// register, the random byte, and the blocking key wait.
    #[verifier::rlimit(100)]
    fn exec_group_sys(&mut self, op: u16, instr: Instruction) -> (r: Result<(), Fault>)
        requires
            old(self)@.wf(),
            2 <= old(self)@.pc <= 4096,
            decode_op(op) == Some(instr),
            instr == Instruction::Random
                || instr == Instruction::SetVXToTimer
                || instr == Instruction::SetTimerToVX
                || instr == Instruction::SetSoundTimerToVX
                || instr == Instruction::AddToIndex
                || instr == Instruction::WaitKey
                || instr == Instruction::FontCharacter
                || instr == Instruction::SkipKeyPress
                || instr == Instruction::SkipKeyRelease,
        ensures
            final(self)@.wf(),
            (match r {
                Ok(()) => exists|b: u8|
                    exec_instr(old(self)@, op, b) == Ok::<Chip8View, Fault>(final(self)@),
                Err(f) => final(self)@ == old(self)@ && exec_instr(old(self)@, op, 0)
                    == Err::<Chip8View, Fault>(f),
            }),
            (r is Ok && instr != Instruction::Random) ==> exec_instr(old(self)@, op, 0)
                == Ok::<Chip8View, Fault>(final(self)@),
    {
        let ghost s0 = self@;
        let n2 = (op / 0x100) % 0x10;
        proof {
            assert(n2 == nib2(op));
        }
        let xu = n2 as usize;
        let nn = (op % 0x100) as u8;
        match instr {
            Instruction::Random => {
                let b = random_byte();
                self.registers[xu] = b & nn;
                proof {
                    assert(self@ =~= (Chip8View {
                        registers: s0.registers.update(n2 as int, b & nn),
                        ..s0
                    }));
                    assert(exec_instr(s0, op, b) == Ok::<Chip8View, Fault>(self@));
                }
                Ok(())
            },
            Instruction::SetVXToTimer => {
                let t = self.delay_timer;
                self.registers[xu] = t;
                proof {
                    assert(self@ =~= (Chip8View {
                        registers: s0.registers.update(n2 as int, s0.delay_timer),
                        ..s0
                    }));
                    assert(exec_instr(s0, op, 0) == Ok::<Chip8View, Fault>(self@));
                }
                Ok(())
            },
            Instruction::SetTimerToVX => {
                self.delay_timer = self.registers[xu];
                proof {
                    assert(self@ =~= (Chip8View {
                        delay_timer: s0.registers[n2 as int],
                        ..s0
                    }));
                    assert(exec_instr(s0, op, 0) == Ok::<Chip8View, Fault>(self@));
                }
                Ok(())
            },
            Instruction::SetSoundTimerToVX => {
                self.sound_timer = self.registers[xu];
                proof {
                    assert(self@ =~= (Chip8View {
                        sound_timer: s0.registers[n2 as int],
                        ..s0
                    }));
                    assert(exec_instr(s0, op, 0) == Ok::<Chip8View, Fault>(self@));
                }
                Ok(())
            },
            Instruction::AddToIndex => {
                let vx = self.registers[xu];
                let sum32 = (self.index_register as u32) + (vx as u32);
                self.index_register = (sum32 % 65536) as u16;
                proof {
                    assert(self@ =~= (Chip8View {
                        index_register: ((s0.index_register + vx) % 0x10000) as u16,
                        ..s0
                    }));
                    assert(exec_instr(s0, op, 0) == Ok::<Chip8View, Fault>(self@));
                }
                Ok(())
            },
            Instruction::WaitKey => {
                match first_pressed(&self.keys) {
                    Some(k) => {
                        self.registers[xu] = k;
                        proof {
                            assert(self@ =~= (Chip8View {
                                registers: s0.registers.update(n2 as int, k),
                                ..s0
                            }));
                            assert(exec_instr(s0, op, 0) == Ok::<Chip8View, Fault>(self@));
                        }
                    },
                    None => {
                        self.pc = self.pc - 2;
                        proof {
                            assert(self@ =~= (Chip8View { pc: (s0.pc - 2) as u16, ..s0 }));
                            assert(exec_instr(s0, op, 0) == Ok::<Chip8View, Fault>(self@));
                        }
                    },
                }
                Ok(())
            },
            Instruction::FontCharacter => {
                let vx = self.registers[xu];
                self.index_register = (vx as u16) * 5;
                proof {
                    assert(self@ =~= (Chip8View {
                        index_register: (s0.registers[n2 as int] * 5) as u16,
                        ..s0
                    }));
                    assert(exec_instr(s0, op, 0) == Ok::<Chip8View, Fault>(self@));
                }
                Ok(())
            },
            Instruction::SkipKeyPress => {
                let vx = self.registers[xu];
                if vx >= 16 {
                    proof {
                        assert(exec_instr(s0, op, 0) == Err::<Chip8View, Fault>(
                            Fault::KeyOutOfRange,
                        ));
                    }
                    return Err(Fault::KeyOutOfRange);
                }
                if self.keys[vx as usize] {
                    self.pc = self.pc + 2;
                }
                proof {
                    if s0.keys[s0.registers[n2 as int] as int] {
                        assert(self@ =~= (Chip8View { pc: (s0.pc + 2) as u16, ..s0 }));
                    } else {
                        assert(self@ =~= s0);
                    }
                    assert(exec_instr(s0, op, 0) == Ok::<Chip8View, Fault>(self@));
                }
                Ok(())
            },
            Instruction::SkipKeyRelease => {
                let vx = self.registers[xu];
                if vx >= 16 {
                    proof {
                        assert(exec_instr(s0, op, 0) == Err::<Chip8View, Fault>(
                            Fault::KeyOutOfRange,
                        ));
                    }
                    return Err(Fault::KeyOutOfRange);
                }
                if !self.keys[vx as usize] {
                    self.pc = self.pc + 2;
                }
                proof {
                    if !s0.keys[s0.registers[n2 as int] as int] {
                        assert(self@ =~= (Chip8View { pc: (s0.pc + 2) as u16, ..s0 }));
                    } else {
                        assert(self@ =~= s0);
                    }
                    assert(exec_instr(s0, op, 0) == Ok::<Chip8View, Fault>(self@));
                }
                Ok(())
            },
            _ => {
                proof {
                    assert(false);
                }
                Ok(())
            },
        }
    }

    /// Instructions that walk memory: sprite draw, binary-coded
    /// decimal, and the register block store and load.
    #[verifier::rlimit(100)]
    fn exec_group_mem(&mut self, op: u16, instr: Instruction) -> (r: Result<(), Fault>)
        requires
            old(self)@.wf(),
            2 <= old(self)@.pc <= 4096,
            decode_op(op) == Some(instr),
            instr == Instruction::Display
                || instr == Instruction::BinaryCodedDecimalConversion
                || instr == Instruction::StoreMemory
                || instr == Instruction::LoadMemory,
        ensures
            final(self)@.wf(),
            (match r {
                Ok(()) => exec_instr(old(self)@, op, 0) == Ok::<Chip8View, Fault>(final(self)@),
                Err(f) => final(self)@ == old(self)@ && exec_instr(old(self)@, op, 0)
                    == Err::<Chip8View, Fault>(f),
            }),
    {
        let ghost s0 = self@;
        let n2 = (op / 0x100) % 0x10;
        let n3 = (op / 0x10) % 0x10;
        let n4 = op % 0x10;
        proof {
            assert(n2 == nib2(op) && n3 == nib3(op) && n4 == nib4(op));
        }
        let xu = n2 as usize;
        let yu = n3 as usize;
        match instr {
            Instruction::Display => {
                let iu = self.index_register as usize;
                let rows = n4 as u8;
                if rows > 0 && iu + (rows as usize) > 4096 {
                    proof {
                        assert(exec_instr(s0, op, 0) == Err::<Chip8View, Fault>(
                            Fault::MemoryOutOfBounds,
                        ));
                    }
                    return Err(Fault::MemoryOutOfBounds);
                }
                let vx = self.registers[xu];
                let vy = self.registers[yu];
                let flipped = exec_display(&mut self.screen, &self.memory, iu, rows, vx, vy);
                self.registers[15] = if flipped {
                    1
                } else {
                    0
                };
                proof {
                    assert(self@ =~= (Chip8View {
                        screen: draw_screen(
                            s0.screen,
                            s0.memory,
                            s0.index_register as int,
                            n4 as int,
                            vx as int,
                            vy as int,
                        ),
                        registers: s0.registers.update(
                            15,
                            if draw_collision(
                                s0.screen,
                                s0.memory,
                                s0.index_register as int,
                                n4 as int,
                                vx as int,
                                vy as int,
                            ) {
                                1u8
                            } else {
                                0u8
                            },
                        ),
                        ..s0
                    }));
                    assert(exec_instr(s0, op, 0) == Ok::<Chip8View, Fault>(self@));
                }
                Ok(())
            },
            Instruction::BinaryCodedDecimalConversion => {
                let iu = self.index_register as usize;
                if iu + 2 >= 4096 {
                    proof {
                        assert(exec_instr(s0, op, 0) == Err::<Chip8View, Fault>(
                            Fault::MemoryOutOfBounds,
                        ));
                    }
                    return Err(Fault::MemoryOutOfBounds);
                }
                let vx = self.registers[xu];
                self.memory[iu] = vx / 100;
                self.memory[iu + 1] = (vx / 10) % 10;
                self.memory[iu + 2] = vx % 10;
                proof {
                    assert(self@ =~= (Chip8View {
                        memory: s0.memory.update(iu as int, (vx / 100) as u8).update(
                            iu as int + 1,
                            ((vx / 10) % 10) as u8,
                        ).update(iu as int + 2, (vx % 10) as u8),
                        ..s0
                    }));
                    assert(exec_instr(s0, op, 0) == Ok::<Chip8View, Fault>(self@));
                }
                Ok(())
            },
            Instruction::StoreMemory => {
                let iu = self.index_register as usize;
                if iu + xu >= 4096 {
                    proof {
                        assert(exec_instr(s0, op, 0) == Err::<Chip8View, Fault>(
                            Fault::MemoryOutOfBounds,
                        ));
                    }
                    return Err(Fault::MemoryOutOfBounds);
                }
                let mut k: usize = 0;
                while k <= xu
                    invariant
                        k <= xu + 1,
                        xu < 16,
                        iu + xu < 4096,
                        self@.memory.len() == 4096,
                        s0.registers.len() == 16,
                        self@ == (Chip8View { memory: self@.memory, ..s0 }),
                        forall|j: int|
                            0 <= j < 4096 ==> self@.memory[j] == (if iu <= j < iu + k {
                                s0.registers[j - iu]
                            } else {
                                s0.memory[j]
                            }),
                    decreases xu + 1 - k,
                {
                    self.memory[iu + k] = self.registers[k];
                    k = k + 1;
                }
                proof {
                    assert(self@.memory =~= store_block(
                        s0.memory,
                        s0.registers,
                        iu as int,
                        n2 as int,
                    ));
                    assert(self@ =~= (Chip8View {
                        memory: store_block(s0.memory, s0.registers, iu as int, n2 as int),
                        ..s0
                    }));
                    assert(exec_instr(s0, op, 0) == Ok::<Chip8View, Fault>(self@));
                }
                Ok(())
            },
            Instruction::LoadMemory => {
                let iu = self.index_register as usize;
                if iu + xu >= 4096 {
                    proof {
                        assert(exec_instr(s0, op, 0) == Err::<Chip8View, Fault>(
                            Fault::MemoryOutOfBounds,
                        ));
                    }
                    return Err(Fault::MemoryOutOfBounds);
                }
                let mut k: usize = 0;
                while k <= xu
                    invariant
                        k <= xu + 1,
                        xu < 16,
                        iu + xu < 4096,
                        self@.registers.len() == 16,
                        s0.memory.len() == 4096,
                        self@ == (Chip8View { registers: self@.registers, ..s0 }),
                        forall|j: int|
                            0 <= j < 16 ==> self@.registers[j] == (if 0 <= j < k {
                                s0.memory[iu + j]
                            } else {
                                s0.registers[j]
                            }),
                    decreases xu + 1 - k,
                {
                    self.registers[k] = self.memory[iu + k];
                    k = k + 1;
                }
                proof {
                    assert(self@.registers =~= load_block(
                        s0.registers,
                        s0.memory,
                        iu as int,
                        n2 as int,
                    ));
                    assert(self@ =~= (Chip8View {
                        registers: load_block(s0.registers, s0.memory, iu as int, n2 as int),
                        ..s0
                    }));
                    assert(exec_instr(s0, op, 0) == Ok::<Chip8View, Fault>(self@));
                }
                Ok(())
            },
            _ => {
                proof {
                    assert(false);
                }
                Ok(())
            },
        }
    }

    /// Decode the instruction word `op` (whose bytes the program
    /// counter has already been advanced past) and execute it. On a
    /// fault the machine is left exactly as it was. An unrecognized
    /// opcode is a no-op.
    fn decode_and_execute(&mut self, op: u16) -> (r: Result<(), Fault>)
        requires
            old(self)@.wf(),
            2 <= old(self)@.pc <= 4096,
        ensures
            final(self)@.wf(),
            (match r {
                Ok(()) => exists|b: u8|
                    exec_instr(old(self)@, op, b) == Ok::<Chip8View, Fault>(final(self)@),
                Err(f) => final(self)@ == old(self)@ && exec_instr(old(self)@, op, 0)
                    == Err::<Chip8View, Fault>(f),
            }),
            (r is Ok && decode_op(op) != Some(Instruction::Random)) ==> exec_instr(
                old(self)@,
                op,
                0,
            ) == Ok::<Chip8View, Fault>(final(self)@),
    {
        let n1 = op / 0x1000;
        let n2 = (op / 0x100) % 0x10;
        let n3 = (op / 0x10) % 0x10;
        let n4 = op % 0x10;
        proof {
            assert(n1 == nib1(op) && n2 == nib2(op) && n3 == nib3(op) && n4 == nib4(op));
        }
        let instr = match Instruction::from_opcode((n1, n2, n3, n4)) {
            Some(i) => i,
            None => {
                proof {
                    assert(exec_instr(self@, op, 0) == Ok::<Chip8View, Fault>(self@));
                }
                return Ok(());
            },
        };
        match instr {
            Instruction::NOP
            | Instruction::ClearScreen
            | Instruction::Jump
            | Instruction::CallSubroutine
            | Instruction::ReturnSubroutine
            | Instruction::SkipVXEqualNN
            | Instruction::SkipVXNotEqualNN
            | Instruction::SkipVXEqualVY
            | Instruction::SkipVXNotEqualVY
            | Instruction::SetIndex
            | Instruction::JumpWithOffset => self.exec_group_flow(op, instr),
            Instruction::SetVXToNN
            | Instruction::AddNNToVX
            | Instruction::SetVXToVY
            | Instruction::OR
            | Instruction::AND
            | Instruction::XOR
            | Instruction::Add
            | Instruction::SubtractFrom
            | Instruction::Subtract
            | Instruction::RightShift
            | Instruction::LeftShift => self.exec_group_alu(op, instr),
            Instruction::Random
            | Instruction::SetVXToTimer
            | Instruction::SetTimerToVX
            | Instruction::SetSoundTimerToVX
            | Instruction::AddToIndex
            | Instruction::WaitKey
            | Instruction::FontCharacter
            | Instruction::SkipKeyPress
            | Instruction::SkipKeyRelease => self.exec_group_sys(op, instr),
            Instruction::Display
            | Instruction::BinaryCodedDecimalConversion
            | Instruction::StoreMemory
            | Instruction::LoadMemory => self.exec_group_mem(op, instr),
        }
    }

    /// Run one cycle: fetch the instruction word at the program
    /// counter, advance the counter by two, decode and execute. On
    /// `Ok`, the new state is `step` of the old one for the byte the
    /// random instruction drew (every other instruction ignores that
    /// byte, and the cycle is then `step` of the old state for any
    /// byte). On `Err`, the machine is exactly as it was and `step`
    /// names that fault.
    pub fn tick(&mut self) -> (r: Result<(), Fault>)
        requires
            old(self)@.wf(),
        ensures
            final(self)@.wf(),
            (match r {
                Ok(()) => exists|b: u8|
                    step(old(self)@, b) == Ok::<Chip8View, Fault>(final(self)@),
                Err(f) => final(self)@ == old(self)@ && step(old(self)@, 0)
                    == Err::<Chip8View, Fault>(f),
            }),
            (r is Ok && !fetches_random(old(self)@)) ==> step(old(self)@, 0)
                == Ok::<Chip8View, Fault>(final(self)@),
    {
        let op = match self.fetch() {
            Ok(op) => op,
            Err(f) => {
                return Err(f);
            },
        };
        let ghost mid = self@;
        match self.decode_and_execute(op) {
            Ok(()) => {
                proof {
                    let b = choose|b: u8|
                        exec_instr(mid, op, b) == Ok::<Chip8View, Fault>(self@);
                    assert(step(old(self)@, b) == Ok::<Chip8View, Fault>(self@));
                }
                Ok(())
            },
            Err(f) => {
                self.pc = self.pc - 2;
                proof {
                    assert(self@ =~= old(self)@);
                    assert(step(old(self)@, 0) == Err::<Chip8View, Fault>(f));
                }
                Err(f)
            },
        }
    }
}

} // verus!
