//! The interpreter: fetch, decode, dispatch.
//!
//! The machine owns the address space, the display, the register file, the
//! program counter, the index register, the stack pointer and the delay
//! timer. One `execute` call runs one fetch-decode-execute cycle. The
//! caller supplies the two outside inputs of a cycle, the key state and the
//! wall clock, and performs the one outside effect a cycle can request,
//! starting a tone; randomness is drawn inside, and the contract states
//! what holds of every draw.

use vstd::prelude::*;

use crate::display::blank_screen;
use crate::display::draw_collision;
use crate::display::draw_post;
use crate::display::draw_sprite;
use crate::display::Display;
use crate::display::DISPLAY_CELLS;
use crate::memory::mem_init;
use crate::memory::overwrite;
use crate::memory::word_at;
use crate::memory::word_written;
use crate::memory::LoadError;
use crate::memory::Memory;
use crate::memory::MEMORY_SIZE;
use crate::memory::PROGRAM_CODE_BASE;
use crate::memory::STACK_BASE;
use crate::opcode::decode;
use crate::opcode::instr_wf;
use crate::opcode::spec_decode;
use crate::opcode::Instr;
use crate::timer::remaining_ticks;
use crate::timer::DelayTimer;
use crate::timer::Timer;
use crate::timer::TimerV;
use rand::Rng;

verus! {

/// What one successful cycle asks of its caller.
#[derive(Clone, Copy, Debug, PartialEq, Eq, Structural)]
pub enum Step {
    /// The instruction completed; nothing is asked.
    Ran,
    /// The instruction set the sound timer: play a tone for this many
    /// ticks at 60 Hz.
    PlaySound(u8),
    /// The instruction blocks until a key is pressed and none was: the
    /// program counter was moved back so the next cycle retries; poll
    /// again after a short pause.
    WaitingForKey,
}

/// The fatal conditions a cycle can run into. None is recoverable: a wrong
/// machine state would corrupt all later execution, so the caller is
/// expected to report and stop.
#[derive(Clone, Copy, Debug, PartialEq, Eq, Structural)]
pub enum ExecError {
    /// The fetched word matches no pattern of the dispatch table; reported
    /// with the word and the address it was fetched from.
    UnsupportedOpcode { opcode: u16, address: u16 },
    /// A memory access of `count` bytes at `offset` reaches outside the
    /// address space.
    MemoryOutOfBounds { offset: u16, count: u16 },
    /// A call would push below the bottom of the address space.
    StackOverflow,
    /// A key-skip instruction named a key code above 15.
    KeyOutOfRange { key: u8 },
    /// A font lookup named a digit above hexadecimal F.
    FontDigitOutOfRange { digit: u8 },
}

/// The mathematical state of the machine.
#[verifier::ext_equal]
pub ghost struct CpuV {
    /// The 16 general-purpose registers; register 15 doubles as the flag.
    pub regs: Seq<u8>,
    /// The program counter.
    pub pc: int,
    /// The index register.
    pub index: int,
    /// The stack pointer: return addresses live in memory below it.
    pub sp: int,
    /// The address space.
    pub mem: Seq<u8>,
    /// The display cells, row-major.
    pub screen: Seq<bool>,
    /// The delay timer.
    pub delay: TimerV,
    /// The sound timer: how long the requested tone still has to play.
    pub sound: TimerV,
}

/// Well-formedness of a machine state: the sizes are fixed, the three
/// address registers fit their 16 bits, the stack pointer never passes the
/// end of memory, and the delay timer was set from a register value (so it
/// reads back as a byte).
pub open spec fn cpu_wf(c: CpuV) -> bool {
    &&& c.regs.len() == 16
    &&& c.mem.len() == MEMORY_SIZE
    &&& c.screen.len() == DISPLAY_CELLS
    &&& 0 <= c.pc <= 0xffff
    &&& 0 <= c.index <= 0xffff
    &&& 0 <= c.sp <= MEMORY_SIZE
    &&& c.delay.wf()
    &&& c.delay.duration_millis <= 4250
    &&& c.sound.wf()
    &&& c.sound.duration_millis <= 4250
}

/// What one dispatch yields: the outcome handed to the caller and the
/// machine state left behind.
#[verifier::ext_equal]
pub ghost struct StepSpec {
    pub outcome: Result<Step, ExecError>,
    pub post: CpuV,
}

/// An ordinary completed step.
pub open spec fn step_ok(post: CpuV) -> StepSpec {
    StepSpec { outcome: Ok(Step::Ran), post }
}

/// A completed step that asks something of the caller.
pub open spec fn step_ok_with(s: Step, post: CpuV) -> StepSpec {
    StepSpec { outcome: Ok(s), post }
}

/// A failed step: the state stays as it was after the fetch.
pub open spec fn step_err(pre: CpuV, e: ExecError) -> StepSpec {
    StepSpec { outcome: Err(e), post: pre }
}

/// The state right after a fetch: the program counter has advanced past
/// the fetched word, nothing else moved.
pub open spec fn spec_fetched(pre: CpuV) -> CpuV {
    CpuV { pc: pre.pc + 2, ..pre }
}

/// `regs` with register `i` set to `v`.
pub open spec fn wr(regs: Seq<u8>, i: u8, v: u8) -> Seq<u8> {
    regs.update(i as int, v)
}

/// The smallest pressed key code at or above `i`, or 16 when none is.
pub open spec fn first_pressed_from(keys: Seq<bool>, i: int) -> int
    decreases 16 - i,
{
    if i < 0 || i >= 16 {
        16
    } else if keys[i] {
        i
    } else {
        first_pressed_from(keys, i + 1)
    }
}

/// The smallest pressed key code, or 16 when no key is pressed.
pub open spec fn first_pressed(keys: Seq<bool>) -> int {
    first_pressed_from(keys, 0)
}

/// The constraint the dispatch places on the byte drawn at random: only
/// the random instruction draws one, bounded by its immediate operand.
pub open spec fn rnd_ok(instr: Instr, rnd: u8) -> bool {
    match instr {
        Instr::Random(_, kk) => rnd <= kk,
        _ => rnd == 0,
    }
}

/// The semantics of one decoded instruction, dispatched on the state `pre`
/// left by the fetch. `keys` is the key state of the cycle, `rnd` the byte
/// drawn at random (constrained by `rnd_ok`), `now` the wall clock in
/// milliseconds.
pub open spec fn spec_step(pre: CpuV, instr: Instr, keys: Seq<bool>, rnd: u8, now: u64) -> StepSpec
    recommends
        cpu_wf(pre),
        instr_wf(instr),
{
    match instr {
        Instr::ClearScreen => step_ok(CpuV { screen: blank_screen(), ..pre }),
        Instr::Return => if pre.sp + 2 <= MEMORY_SIZE {
            step_ok(CpuV { pc: word_at(pre.mem, pre.sp) as int, sp: pre.sp + 2, ..pre })
        } else {
            step_err(pre, ExecError::MemoryOutOfBounds { offset: pre.sp as u16, count: 2 })
        },
        Instr::Jump(addr) => step_ok(CpuV { pc: addr as int, ..pre }),
        Instr::Call(addr) => if pre.sp >= 2 {
            step_ok(
                CpuV {
                    pc: addr as int,
                    sp: pre.sp - 2,
                    mem: word_written(pre.mem, pre.sp - 2, pre.pc as u16),
                    ..pre
                },
            )
        } else {
            step_err(pre, ExecError::StackOverflow)
        },
        Instr::SkipEqImm(x, kk) => step_ok(
            CpuV { pc: if pre.regs[x as int] == kk { pre.pc + 2 } else { pre.pc }, ..pre },
        ),
        Instr::SkipNeImm(x, kk) => step_ok(
            CpuV { pc: if pre.regs[x as int] != kk { pre.pc + 2 } else { pre.pc }, ..pre },
        ),
        Instr::SkipEqReg(x, y) => step_ok(
            CpuV {
                pc: if pre.regs[x as int] == pre.regs[y as int] {
                    pre.pc + 2
                } else {
                    pre.pc
                },
                ..pre
            },
        ),
        Instr::LoadImm(x, kk) => step_ok(CpuV { regs: wr(pre.regs, x, kk), ..pre }),
        Instr::AddImm(x, kk) => step_ok(
            CpuV { regs: wr(pre.regs, x, ((pre.regs[x as int] + kk) % 256) as u8), ..pre },
        ),
        Instr::Move(x, y) => step_ok(CpuV { regs: wr(pre.regs, x, pre.regs[y as int]), ..pre }),
        Instr::Or(x, y) => step_ok(
            CpuV { regs: wr(pre.regs, x, pre.regs[x as int] | pre.regs[y as int]), ..pre },
        ),
        Instr::And(x, y) => step_ok(
            CpuV { regs: wr(pre.regs, x, pre.regs[x as int] & pre.regs[y as int]), ..pre },
        ),
        Instr::Xor(x, y) => step_ok(
            CpuV { regs: wr(pre.regs, x, pre.regs[x as int] ^ pre.regs[y as int]), ..pre },
        ),
        Instr::AddReg(x, y) => {
            let sum = pre.regs[x as int] + pre.regs[y as int];
            let flag: u8 = if sum > 255 {
                1
            } else {
                0
            };
            step_ok(CpuV { regs: wr(wr(pre.regs, 15, flag), x, (sum % 256) as u8), ..pre })
        },
        Instr::Sub(x, y) => {
            let flag: u8 = if pre.regs[x as int] >= pre.regs[y as int] {
                1
            } else {
                0
            };
            let diff = (pre.regs[x as int] - pre.regs[y as int]) % 256;
            step_ok(CpuV { regs: wr(wr(pre.regs, 15, flag), x, diff as u8), ..pre })
        },
        Instr::ShiftRight(x) => {
            let r1 = wr(pre.regs, 15, pre.regs[x as int] & 1);
            step_ok(CpuV { regs: wr(r1, x, r1[x as int] >> 1), ..pre })
        },
        Instr::RevSub(x, y) => {
            let flag: u8 = if pre.regs[y as int] >= pre.regs[x as int] {
                1
            } else {
                0
            };
            let diff = (pre.regs[y as int] - pre.regs[x as int]) % 256;
            step_ok(CpuV { regs: wr(wr(pre.regs, 15, flag), x, diff as u8), ..pre })
        },
        Instr::ShiftLeft(x) => {
            let r1 = wr(pre.regs, 15, pre.regs[x as int] >> 7);
            step_ok(CpuV { regs: wr(r1, x, r1[x as int] << 1), ..pre })
        },
        Instr::SkipNeReg(x, y) => step_ok(
            CpuV {
                pc: if pre.regs[x as int] != pre.regs[y as int] {
                    pre.pc + 2
                } else {
                    pre.pc
                },
                ..pre
            },
        ),
        Instr::LoadIndex(addr) => step_ok(CpuV { index: addr as int, ..pre }),
        Instr::JumpPlusV0(addr) => step_ok(CpuV { pc: addr + pre.regs[0], ..pre }),
        Instr::Random(x, _) => step_ok(CpuV { regs: wr(pre.regs, x, rnd), ..pre }),
        Instr::Draw(x, y, n) => if pre.index + n <= MEMORY_SIZE {
            let data = pre.mem.subrange(pre.index, pre.index + n);
            let col = pre.regs[x as int] as int;
            let row = pre.regs[y as int] as int;
            let flag: u8 = if draw_collision(pre.screen, col, row, data) {
                1
            } else {
                0
            };
            step_ok(
                CpuV {
                    screen: draw_post(pre.screen, col, row, data),
                    regs: wr(pre.regs, 15, flag),
                    ..pre
                },
            )
        } else {
            step_err(
                pre,
                ExecError::MemoryOutOfBounds { offset: pre.index as u16, count: n as u16 },
            )
        },
        Instr::SkipKeyPressed(x) => if pre.regs[x as int] < 16 {
            step_ok(
                CpuV {
                    pc: if keys[pre.regs[x as int] as int] {
                        pre.pc + 2
                    } else {
                        pre.pc
                    },
                    ..pre
                },
            )
        } else {
            step_err(pre, ExecError::KeyOutOfRange { key: pre.regs[x as int] })
        },
        Instr::SkipKeyNotPressed(x) => if pre.regs[x as int] < 16 {
            step_ok(
                CpuV {
                    pc: if !keys[pre.regs[x as int] as int] {
                        pre.pc + 2
                    } else {
                        pre.pc
                    },
                    ..pre
                },
            )
        } else {
            step_err(pre, ExecError::KeyOutOfRange { key: pre.regs[x as int] })
        },
        Instr::ReadDelay(x) => step_ok(
            CpuV { regs: wr(pre.regs, x, remaining_ticks(pre.delay, now) as u8), ..pre },
        ),
        Instr::WaitKey(x) => {
            let k = first_pressed(keys);
            if k < 16 {
                step_ok(CpuV { regs: wr(pre.regs, x, k as u8), ..pre })
            } else {
                step_ok_with(Step::WaitingForKey, CpuV { pc: pre.pc - 2, ..pre })
            }
        },
        Instr::SetDelay(x) => step_ok(
            CpuV {
                delay: TimerV {
                    duration_millis: (pre.regs[x as int] * 1000 / 60) as u64,
                    initial_millis: now,
                },
                ..pre
            },
        ),
        Instr::SetSound(x) => step_ok_with(
            Step::PlaySound(pre.regs[x as int]),
            CpuV {
                sound: TimerV {
                    duration_millis: (pre.regs[x as int] * 1000 / 60) as u64,
                    initial_millis: now,
                },
                ..pre
            },
        ),
        Instr::AddIndex(x) => step_ok(
            CpuV { index: (pre.index + pre.regs[x as int]) % 0x10000, ..pre },
        ),
        Instr::FontGlyph(x) => if pre.regs[x as int] <= 0xf {
            step_ok(CpuV { index: pre.regs[x as int] * 5, ..pre })
        } else {
            step_err(pre, ExecError::FontDigitOutOfRange { digit: pre.regs[x as int] })
        },
        Instr::StoreBcd(x) => if pre.index + 3 <= MEMORY_SIZE {
            let v = pre.regs[x as int];
            let digits = seq![((v / 100) % 10) as u8, ((v / 10) % 10) as u8, (v % 10) as u8];
            step_ok(CpuV { mem: overwrite(pre.mem, pre.index, digits), ..pre })
        } else {
            step_err(pre, ExecError::MemoryOutOfBounds { offset: pre.index as u16, count: 3 })
        },
        Instr::StoreRegs(x) => if pre.index + x + 1 <= MEMORY_SIZE {
            step_ok(
                CpuV {
                    mem: overwrite(pre.mem, pre.index, pre.regs.subrange(0, x + 1)),
                    ..pre
                },
            )
        } else {
            step_err(
                pre,
                ExecError::MemoryOutOfBounds { offset: pre.index as u16, count: (x + 1) as u16 },
            )
        },
        Instr::LoadRegs(x) => if pre.index + x + 1 <= MEMORY_SIZE {
            step_ok(
                CpuV {
                    regs: Seq::new(
                        16,
                        |i: int|
                            if i <= x {
                                pre.mem[pre.index + i]
                            } else {
                                pre.regs[i]
                            },
                    ),
                    ..pre
                },
            )
        } else {
            step_err(
                pre,
                ExecError::MemoryOutOfBounds { offset: pre.index as u16, count: (x + 1) as u16 },
            )
        },
    }
}

/// The state of a machine freshly constructed around the program image
/// `rom`.
pub open spec fn initial_cpu(rom: Seq<u8>) -> CpuV {
    CpuV {
        regs: Seq::new(16, |i: int| 0u8),
        pc: PROGRAM_CODE_BASE as int,
        index: 0,
        sp: STACK_BASE as int,
        mem: mem_init(rom),
        screen: blank_screen(),
        delay: TimerV { duration_millis: 0, initial_millis: 0 },
        sound: TimerV { duration_millis: 0, initial_millis: 0 },
    }
}

/// Relies on rand's thread-local generator: `gen_range` over the inclusive
/// range `0..=max` returns a value of that range, and the range is never
/// empty, so the call cannot panic.
#[verifier::external_body]
fn random_byte_upto(max: u8) -> (r: u8)
    ensures
        r <= max,
{
    rand::thread_rng().gen_range(0..=max)
}

/// The machine: address space, display, register file, program counter,
/// index register, stack pointer and delay timer.
pub struct Cpu {
    gpr: Vec<u8>,
    program_counter: u16,
    index: u16,
    stack_pointer: u16,
    memory: Memory,
    display: Display,
    delay_timer: DelayTimer,
    sound_timer: Timer,
}

impl View for Cpu {
    type V = CpuV;

    closed spec fn view(&self) -> CpuV {
        CpuV {
            regs: self.gpr@,
            pc: self.program_counter as int,
            index: self.index as int,
            sp: self.stack_pointer as int,
            mem: self.memory@,
            screen: self.display@,
            delay: self.delay_timer@,
            sound: self.sound_timer@,
        }
    }
}

impl Cpu {
    /// The machine around the program image `rom`: registers zero, program
    /// counter at the start of the image, stack pointer at the top of the
    /// stack region, memory initialized, display cleared, delay timer
    /// expired. Fails exactly when the image does not fit in memory.
    pub fn new(rom: Vec<u8>) -> (r: Result<Cpu, LoadError>)
        ensures
            match r {
                Ok(cpu) => rom@.len() <= MEMORY_SIZE - PROGRAM_CODE_BASE && cpu@ == initial_cpu(
                    rom@,
                ) && cpu.wf(),
                Err(e) => rom@.len() > MEMORY_SIZE - PROGRAM_CODE_BASE && e
                    == LoadError::ProgramTooLarge,
            },
    {
        let memory = match Memory::new(rom.as_slice()) {
            Ok(m) => m,
            Err(e) => {
                return Err(e);
            },
        };
        let gpr: Vec<u8> = vec![0u8, 0, 0, 0, 0, 0, 0, 0, 0, 0, 0, 0, 0, 0, 0, 0];
        let cpu = Cpu {
            gpr,
            program_counter: 0x200,
            index: 0,
            stack_pointer: 0xefe,
            memory,
            display: Display::new(),
            delay_timer: DelayTimer::new(),
            sound_timer: Timer::new(),
        };
        proof {
            assert(cpu.gpr@ =~= Seq::new(16, |i: int| 0u8));
            assert(cpu@ =~= initial_cpu(rom@));
        }
        Ok(cpu)
    }

    /// Well-formedness of the machine (established by construction,
    /// preserved by every cycle).
    pub open spec fn wf(&self) -> bool {
        cpu_wf(self@)
    }

    /// The value of register `i`.
    pub fn register(&self, i: usize) -> (r: u8)
        requires
            self.wf(),
            i < 16,
        ensures
            r == self@.regs[i as int],
    {
        self.gpr[i]
    }

    /// The program counter.
    pub fn program_counter(&self) -> (r: u16)
        ensures
            r == self@.pc,
    {
        self.program_counter
    }

    /// The index register.
    pub fn index_register(&self) -> (r: u16)
        ensures
            r == self@.index,
    {
        self.index
    }

    /// The stack pointer.
    pub fn stack_pointer(&self) -> (r: u16)
        ensures
            r == self@.sp,
    {
        self.stack_pointer
    }

    /// The display, for a rendering collaborator to read.
    pub fn display(&self) -> (r: &Display)
        ensures
            r@ == self@.screen,
    {
        &self.display
    }

    /// The address space, for inspection.
    pub fn memory(&self) -> (r: &Memory)
        ensures
            r@ == self@.mem,
    {
        &self.memory
    }

    /// The delay timer's current tick count at wall-clock time
    /// `now_millis`.
    pub fn delay_ticks(&self, now_millis: u64) -> (r: u64)
        requires
            self.wf(),
        ensures
            r == remaining_ticks(self@.delay, now_millis),
    {
        self.delay_timer.get(now_millis)
    }

    /// The sound timer's current tick count at wall-clock time
    /// `now_millis`: how long a requested tone still has to play. An audio
    /// collaborator may poll this instead of timing the tone itself.
    pub fn sound_ticks(&self, now_millis: u64) -> (r: u64)
        requires
            self.wf(),
        ensures
            r == remaining_ticks(self@.sound, now_millis),
    {
        self.sound_timer.get(now_millis)
    }

    /// One fetch-decode-execute cycle. `keys` is the current key state,
    /// indexed by key code; `now_millis` the wall clock. The outcome and
    /// the state left behind are exactly those of `spec_step` on the
    /// decoded instruction, for some admissible random byte; a fetch past
    /// the end of memory or an undecodable word is the stated error.
    pub fn execute(&mut self, keys: &[bool; 16], now_millis: u64) -> (r: Result<Step, ExecError>)
        requires
            old(self).wf(),
        ensures
            final(self).wf(),
            ({
                let pre = old(self)@;
                if pre.pc + 2 > MEMORY_SIZE {
                    &&& r == Err::<Step, ExecError>(
                        ExecError::MemoryOutOfBounds { offset: pre.pc as u16, count: 2 },
                    )
                    &&& final(self)@ == pre
                } else {
                    let word = word_at(pre.mem, pre.pc);
                    let fetched = spec_fetched(pre);
                    match spec_decode(word) {
                        None => {
                            &&& r == Err::<Step, ExecError>(
                                ExecError::UnsupportedOpcode { opcode: word, address: pre.pc as u16 },
                            )
                            &&& final(self)@ == fetched
                        },
                        Some(instr) => exists|rnd: u8|
                            rnd_ok(instr, rnd) && #[trigger] spec_step(
                                fetched,
                                instr,
                                keys@,
                                rnd,
                                now_millis,
                            ) == (StepSpec { outcome: r, post: final(self)@ }),
                    }
                }
            }),
    {
        let pc = self.program_counter;
        if pc as usize + 2 > MEMORY_SIZE {
            return Err(ExecError::MemoryOutOfBounds { offset: pc, count: 2 });
        }
        let word = self.memory.read_u16_at(pc as usize);
        self.program_counter = pc + 2;
        proof {
            assert(self@ =~= spec_fetched(old(self)@));
        }
        let instr = match decode(word) {
            Some(i) => i,
            None => {
                return Err(ExecError::UnsupportedOpcode { opcode: word, address: pc });
            },
        };
        self.dispatch(instr, keys, now_millis)
    }

    /// Dispatches one decoded instruction on the post-fetch state.
    fn dispatch(&mut self, instr: Instr, keys: &[bool; 16], now_millis: u64) -> (r: Result<
        Step,
        ExecError,
    >)
        requires
            cpu_wf(old(self)@),
            instr_wf(instr),
            2 <= old(self)@.pc <= MEMORY_SIZE,
        ensures
            final(self).wf(),
            exists|rnd: u8|
                rnd_ok(instr, rnd) && #[trigger] spec_step(old(self)@, instr, keys@, rnd, now_millis)
                    == (StepSpec { outcome: r, post: final(self)@ }),
    {
        let ghost pre = self@;
        match instr {
            Instr::ClearScreen => {
                self.display.clear();
                proof {
                    assert(self@ =~= spec_step(pre, instr, keys@, 0, now_millis).post);
                    assert(spec_step(pre, instr, keys@, 0, now_millis) == (StepSpec {
                        outcome: Ok::<Step, ExecError>(Step::Ran),
                        post: self@,
                    }));
                }
                Ok(Step::Ran)
            },
            Instr::Return => {
                let sp = self.stack_pointer;
                if sp as usize + 2 > MEMORY_SIZE {
                    proof {
                        assert(spec_step(pre, instr, keys@, 0, now_millis) == (StepSpec {
                            outcome: Err::<Step, ExecError>(
                                ExecError::MemoryOutOfBounds { offset: sp, count: 2 },
                            ),
                            post: self@,
                        }));
                    }
                    return Err(ExecError::MemoryOutOfBounds { offset: sp, count: 2 });
                }
                let target = self.memory.read_u16_at(sp as usize);
                self.program_counter = target;
                self.stack_pointer = sp + 2;
                proof {
                    assert(self@ =~= spec_step(pre, instr, keys@, 0, now_millis).post);
                    assert(spec_step(pre, instr, keys@, 0, now_millis) == (StepSpec {
                        outcome: Ok::<Step, ExecError>(Step::Ran),
                        post: self@,
                    }));
                }
                Ok(Step::Ran)
            },
            Instr::Jump(addr) => {
                self.program_counter = addr;
                proof {
                    assert(self@ =~= spec_step(pre, instr, keys@, 0, now_millis).post);
                    assert(spec_step(pre, instr, keys@, 0, now_millis) == (StepSpec {
                        outcome: Ok::<Step, ExecError>(Step::Ran),
                        post: self@,
                    }));
                }
                Ok(Step::Ran)
            },
            Instr::Call(addr) => {
                let sp = self.stack_pointer;
                if sp < 2 {
                    proof {
                        assert(spec_step(pre, instr, keys@, 0, now_millis) == (StepSpec {
                            outcome: Err::<Step, ExecError>(ExecError::StackOverflow),
                            post: self@,
                        }));
                    }
                    return Err(ExecError::StackOverflow);
                }
                let new_sp = sp - 2;
                self.memory.write_u16_at(self.program_counter, new_sp as usize);
                self.stack_pointer = new_sp;
                self.program_counter = addr;
                proof {
                    assert(self@ =~= spec_step(pre, instr, keys@, 0, now_millis).post);
                    assert(spec_step(pre, instr, keys@, 0, now_millis) == (StepSpec {
                        outcome: Ok::<Step, ExecError>(Step::Ran),
                        post: self@,
                    }));
                }
                Ok(Step::Ran)
            },
            Instr::SkipEqImm(x, kk) => {
                if self.gpr[x as usize] == kk {
                    self.program_counter = self.program_counter + 2;
                }
                proof {
                    assert(self@ =~= spec_step(pre, instr, keys@, 0, now_millis).post);
                    assert(spec_step(pre, instr, keys@, 0, now_millis) == (StepSpec {
                        outcome: Ok::<Step, ExecError>(Step::Ran),
                        post: self@,
                    }));
                }
                Ok(Step::Ran)
            },
            Instr::SkipNeImm(x, kk) => {
                if self.gpr[x as usize] != kk {
                    self.program_counter = self.program_counter + 2;
                }
                proof {
                    assert(self@ =~= spec_step(pre, instr, keys@, 0, now_millis).post);
                    assert(spec_step(pre, instr, keys@, 0, now_millis) == (StepSpec {
                        outcome: Ok::<Step, ExecError>(Step::Ran),
                        post: self@,
                    }));
                }
                Ok(Step::Ran)
            },
            Instr::SkipEqReg(x, y) => {
                if self.gpr[x as usize] == self.gpr[y as usize] {
                    self.program_counter = self.program_counter + 2;
                }
                proof {
                    assert(self@ =~= spec_step(pre, instr, keys@, 0, now_millis).post);
                    assert(spec_step(pre, instr, keys@, 0, now_millis) == (StepSpec {
                        outcome: Ok::<Step, ExecError>(Step::Ran),
                        post: self@,
                    }));
                }
                Ok(Step::Ran)
            },
            Instr::LoadImm(x, kk) => {
                self.gpr.set(x as usize, kk);
                proof {
                    assert(self@ =~= spec_step(pre, instr, keys@, 0, now_millis).post);
                    assert(spec_step(pre, instr, keys@, 0, now_millis) == (StepSpec {
                        outcome: Ok::<Step, ExecError>(Step::Ran),
                        post: self@,
                    }));
                }
                Ok(Step::Ran)
            },
            Instr::AddImm(x, kk) => {
                let v = self.gpr[x as usize];
                self.gpr.set(x as usize, (((v as u16) + (kk as u16)) % 256) as u8);
                proof {
                    assert(self@ =~= spec_step(pre, instr, keys@, 0, now_millis).post);
                    assert(spec_step(pre, instr, keys@, 0, now_millis) == (StepSpec {
                        outcome: Ok::<Step, ExecError>(Step::Ran),
                        post: self@,
                    }));
                }
                Ok(Step::Ran)
            },
            Instr::Move(x, y) => {
                let v = self.gpr[y as usize];
                self.gpr.set(x as usize, v);
                proof {
                    assert(self@ =~= spec_step(pre, instr, keys@, 0, now_millis).post);
                    assert(spec_step(pre, instr, keys@, 0, now_millis) == (StepSpec {
                        outcome: Ok::<Step, ExecError>(Step::Ran),
                        post: self@,
                    }));
                }
                Ok(Step::Ran)
            },
            Instr::Or(x, y) => {
                let a = self.gpr[x as usize];
                let b = self.gpr[y as usize];
                self.gpr.set(x as usize, a | b);
                proof {
                    assert(self@ =~= spec_step(pre, instr, keys@, 0, now_millis).post);
                    assert(spec_step(pre, instr, keys@, 0, now_millis) == (StepSpec {
                        outcome: Ok::<Step, ExecError>(Step::Ran),
                        post: self@,
                    }));
                }
                Ok(Step::Ran)
            },
            Instr::And(x, y) => {
                let a = self.gpr[x as usize];
                let b = self.gpr[y as usize];
                self.gpr.set(x as usize, a & b);
                proof {
                    assert(self@ =~= spec_step(pre, instr, keys@, 0, now_millis).post);
                    assert(spec_step(pre, instr, keys@, 0, now_millis) == (StepSpec {
                        outcome: Ok::<Step, ExecError>(Step::Ran),
                        post: self@,
                    }));
                }
                Ok(Step::Ran)
            },
            Instr::Xor(x, y) => {
                let a = self.gpr[x as usize];
                let b = self.gpr[y as usize];
                self.gpr.set(x as usize, a ^ b);
                proof {
                    assert(self@ =~= spec_step(pre, instr, keys@, 0, now_millis).post);
                    assert(spec_step(pre, instr, keys@, 0, now_millis) == (StepSpec {
                        outcome: Ok::<Step, ExecError>(Step::Ran),
                        post: self@,
                    }));
                }
                Ok(Step::Ran)
            },
            Instr::AddReg(x, y) => {
                let a = self.gpr[x as usize];
                let b = self.gpr[y as usize];
                let sum = a as u16 + b as u16;
                let flag: u8 = if sum > 255 {
                    1
                } else {
                    0
                };
                self.gpr.set(15, flag);
                self.gpr.set(x as usize, (sum % 256) as u8);
                proof {
                    assert(self@ =~= spec_step(pre, instr, keys@, 0, now_millis).post);
                    assert(spec_step(pre, instr, keys@, 0, now_millis) == (StepSpec {
                        outcome: Ok::<Step, ExecError>(Step::Ran),
                        post: self@,
                    }));
                }
                Ok(Step::Ran)
            },
            Instr::Sub(x, y) => {
                let a = self.gpr[x as usize];
                let b = self.gpr[y as usize];
                let flag: u8 = if a >= b {
                    1
                } else {
                    0
                };
                let diff = ((a as u16 + 256) - (b as u16)) % 256;
                self.gpr.set(15, flag);
                self.gpr.set(x as usize, diff as u8);
                proof {
                    vstd::arithmetic::div_mod::lemma_mod_add_multiples_vanish(
                        a as int - b as int,
                        256,
                    );
                    assert(self@ =~= spec_step(pre, instr, keys@, 0, now_millis).post);
                    assert(spec_step(pre, instr, keys@, 0, now_millis) == (StepSpec {
                        outcome: Ok::<Step, ExecError>(Step::Ran),
                        post: self@,
                    }));
                }
                Ok(Step::Ran)
            },
            Instr::ShiftRight(x) => {
                let v0 = self.gpr[x as usize];
                self.gpr.set(15, v0 & 1);
                let v1 = self.gpr[x as usize];
                self.gpr.set(x as usize, v1 >> 1);
                proof {
                    assert(self@ =~= spec_step(pre, instr, keys@, 0, now_millis).post);
                    assert(spec_step(pre, instr, keys@, 0, now_millis) == (StepSpec {
                        outcome: Ok::<Step, ExecError>(Step::Ran),
                        post: self@,
                    }));
                }
                Ok(Step::Ran)
            },
            Instr::RevSub(x, y) => {
                let a = self.gpr[x as usize];
                let b = self.gpr[y as usize];
                let flag: u8 = if b >= a {
                    1
                } else {
                    0
                };
                let diff = ((b as u16 + 256) - (a as u16)) % 256;
                self.gpr.set(15, flag);
                self.gpr.set(x as usize, diff as u8);
                proof {
                    vstd::arithmetic::div_mod::lemma_mod_add_multiples_vanish(
                        b as int - a as int,
                        256,
                    );
                    assert(self@ =~= spec_step(pre, instr, keys@, 0, now_millis).post);
                    assert(spec_step(pre, instr, keys@, 0, now_millis) == (StepSpec {
                        outcome: Ok::<Step, ExecError>(Step::Ran),
                        post: self@,
                    }));
                }
                Ok(Step::Ran)
            },
            Instr::ShiftLeft(x) => {
                let v0 = self.gpr[x as usize];
                self.gpr.set(15, v0 >> 7);
                let v1 = self.gpr[x as usize];
                self.gpr.set(x as usize, v1 << 1);
                proof {
                    assert(self@ =~= spec_step(pre, instr, keys@, 0, now_millis).post);
                    assert(spec_step(pre, instr, keys@, 0, now_millis) == (StepSpec {
                        outcome: Ok::<Step, ExecError>(Step::Ran),
                        post: self@,
                    }));
                }
                Ok(Step::Ran)
            },
            Instr::SkipNeReg(x, y) => {
                if self.gpr[x as usize] != self.gpr[y as usize] {
                    self.program_counter = self.program_counter + 2;
                }
                proof {
                    assert(self@ =~= spec_step(pre, instr, keys@, 0, now_millis).post);
                    assert(spec_step(pre, instr, keys@, 0, now_millis) == (StepSpec {
                        outcome: Ok::<Step, ExecError>(Step::Ran),
                        post: self@,
                    }));
                }
                Ok(Step::Ran)
            },
            Instr::LoadIndex(addr) => {
                self.index = addr;
                proof {
                    assert(self@ =~= spec_step(pre, instr, keys@, 0, now_millis).post);
                    assert(spec_step(pre, instr, keys@, 0, now_millis) == (StepSpec {
                        outcome: Ok::<Step, ExecError>(Step::Ran),
                        post: self@,
                    }));
                }
                Ok(Step::Ran)
            },
            Instr::JumpPlusV0(addr) => {
                self.program_counter = addr + self.gpr[0] as u16;
                proof {
                    assert(self@ =~= spec_step(pre, instr, keys@, 0, now_millis).post);
                    assert(spec_step(pre, instr, keys@, 0, now_millis) == (StepSpec {
                        outcome: Ok::<Step, ExecError>(Step::Ran),
                        post: self@,
                    }));
                }
                Ok(Step::Ran)
            },
            Instr::Random(x, kk) => {
                let drawn = random_byte_upto(kk);
                self.gpr.set(x as usize, drawn);
                proof {
                    assert(self@ =~= spec_step(pre, instr, keys@, drawn, now_millis).post);
                    assert(spec_step(pre, instr, keys@, drawn, now_millis) == (StepSpec {
                        outcome: Ok::<Step, ExecError>(Step::Ran),
                        post: self@,
                    }));
                }
                Ok(Step::Ran)
            },
            Instr::Draw(x, y, n) => {
                let base = self.index as usize;
                let cnt = n as usize;
                if base + cnt > MEMORY_SIZE {
                    proof {
                        assert(spec_step(pre, instr, keys@, 0, now_millis) == (StepSpec {
                            outcome: Err::<Step, ExecError>(
                                ExecError::MemoryOutOfBounds { offset: self.index, count: n as u16 },
                            ),
                            post: self@,
                        }));
                    }
                    return Err(ExecError::MemoryOutOfBounds { offset: self.index, count: n as u16 });
                }
                let data = self.memory.read_at(base, cnt);
                let col = self.gpr[x as usize];
                let row = self.gpr[y as usize];
                let collision = draw_sprite(
                    &mut self.display,
                    col as usize,
                    row as usize,
                    data.as_slice(),
                );
                let flag: u8 = if collision {
                    1
                } else {
                    0
                };
                self.gpr.set(15, flag);
                proof {
                    assert(self@ =~= spec_step(pre, instr, keys@, 0, now_millis).post);
                    assert(spec_step(pre, instr, keys@, 0, now_millis) == (StepSpec {
                        outcome: Ok::<Step, ExecError>(Step::Ran),
                        post: self@,
                    }));
                }
                Ok(Step::Ran)
            },
            Instr::SkipKeyPressed(x) => {
                let k = self.gpr[x as usize];
                if k >= 16 {
                    proof {
                        assert(spec_step(pre, instr, keys@, 0, now_millis) == (StepSpec {
                            outcome: Err::<Step, ExecError>(ExecError::KeyOutOfRange { key: k }),
                            post: self@,
                        }));
                    }
                    return Err(ExecError::KeyOutOfRange { key: k });
                }
                if keys[k as usize] {
                    self.program_counter = self.program_counter + 2;
                }
                proof {
                    assert(self@ =~= spec_step(pre, instr, keys@, 0, now_millis).post);
                    assert(spec_step(pre, instr, keys@, 0, now_millis) == (StepSpec {
                        outcome: Ok::<Step, ExecError>(Step::Ran),
                        post: self@,
                    }));
                }
                Ok(Step::Ran)
            },
            Instr::SkipKeyNotPressed(x) => {
                let k = self.gpr[x as usize];
                if k >= 16 {
                    proof {
                        assert(spec_step(pre, instr, keys@, 0, now_millis) == (StepSpec {
                            outcome: Err::<Step, ExecError>(ExecError::KeyOutOfRange { key: k }),
                            post: self@,
                        }));
                    }
                    return Err(ExecError::KeyOutOfRange { key: k });
                }
                if !keys[k as usize] {
                    self.program_counter = self.program_counter + 2;
                }
                proof {
                    assert(self@ =~= spec_step(pre, instr, keys@, 0, now_millis).post);
                    assert(spec_step(pre, instr, keys@, 0, now_millis) == (StepSpec {
                        outcome: Ok::<Step, ExecError>(Step::Ran),
                        post: self@,
                    }));
                }
                Ok(Step::Ran)
            },
            Instr::ReadDelay(x) => {
                let t = self.delay_timer.get(now_millis);
                proof {
                    if pre.delay.duration_millis >= (if now_millis >= pre.delay.initial_millis {
                        now_millis - pre.delay.initial_millis
                    } else {
                        0
                    }) {
                        vstd::arithmetic::div_mod::lemma_div_is_ordered(
                            (pre.delay.duration_millis - (if now_millis
                                >= pre.delay.initial_millis {
                                now_millis - pre.delay.initial_millis
                            } else {
                                0
                            })) * 60,
                            255000,
                            1000,
                        );
                    }
                    assert(remaining_ticks(pre.delay, now_millis) <= 255);
                }
                self.gpr.set(x as usize, t as u8);
                proof {
                    assert(self@ =~= spec_step(pre, instr, keys@, 0, now_millis).post);
                    assert(spec_step(pre, instr, keys@, 0, now_millis) == (StepSpec {
                        outcome: Ok::<Step, ExecError>(Step::Ran),
                        post: self@,
                    }));
                }
                Ok(Step::Ran)
            },
            Instr::WaitKey(x) => {
                let mut i: usize = 0;
                while i < 16 && !keys[i]
                    invariant
                        i <= 16,
                        forall|j: int| 0 <= j < i ==> !keys@[j],
                    decreases 16 - i,
                {
                    i += 1;
                }
                proof {
                    lemma_first_pressed_prefix(keys@, i as int);
                }
                if i < 16 {
                    self.gpr.set(x as usize, i as u8);
                    proof {
                        assert(first_pressed(keys@) == i);
                        assert(self@ =~= spec_step(pre, instr, keys@, 0, now_millis).post);
                        assert(spec_step(pre, instr, keys@, 0, now_millis) == (StepSpec {
                            outcome: Ok::<Step, ExecError>(Step::Ran),
                            post: self@,
                        }));
                    }
                    Ok(Step::Ran)
                } else {
                    self.program_counter = self.program_counter - 2;
                    proof {
                        assert(first_pressed(keys@) == 16);
                        assert(self@ =~= spec_step(pre, instr, keys@, 0, now_millis).post);
                        assert(spec_step(pre, instr, keys@, 0, now_millis) == (StepSpec {
                            outcome: Ok::<Step, ExecError>(Step::WaitingForKey),
                            post: self@,
                        }));
                    }
                    Ok(Step::WaitingForKey)
                }
            },
            Instr::SetDelay(x) => {
                let v = self.gpr[x as usize];
                self.delay_timer.set(v as u64, now_millis);
                proof {
                    assert(self@ =~= spec_step(pre, instr, keys@, 0, now_millis).post);
                    assert(spec_step(pre, instr, keys@, 0, now_millis) == (StepSpec {
                        outcome: Ok::<Step, ExecError>(Step::Ran),
                        post: self@,
                    }));
                }
                Ok(Step::Ran)
            },
            Instr::SetSound(x) => {
                let v = self.gpr[x as usize];
                self.sound_timer.set(v as u64, now_millis);
                proof {
                    assert(self@ =~= spec_step(pre, instr, keys@, 0, now_millis).post);
                    assert(spec_step(pre, instr, keys@, 0, now_millis) == (StepSpec {
                        outcome: Ok::<Step, ExecError>(Step::PlaySound(v)),
                        post: self@,
                    }));
                }
                Ok(Step::PlaySound(v))
            },
            Instr::AddIndex(x) => {
                let sum = self.index as u32 + self.gpr[x as usize] as u32;
                self.index = (sum % 0x10000) as u16;
                proof {
                    assert(self@ =~= spec_step(pre, instr, keys@, 0, now_millis).post);
                    assert(spec_step(pre, instr, keys@, 0, now_millis) == (StepSpec {
                        outcome: Ok::<Step, ExecError>(Step::Ran),
                        post: self@,
                    }));
                }
                Ok(Step::Ran)
            },
            Instr::FontGlyph(x) => {
                let d = self.gpr[x as usize];
                if d > 0xf {
                    proof {
                        assert(spec_step(pre, instr, keys@, 0, now_millis) == (StepSpec {
                            outcome: Err::<Step, ExecError>(
                                ExecError::FontDigitOutOfRange { digit: d },
                            ),
                            post: self@,
                        }));
                    }
                    return Err(ExecError::FontDigitOutOfRange { digit: d });
                }
                self.index = (d as u16) * 5;
                proof {
                    assert(self@ =~= spec_step(pre, instr, keys@, 0, now_millis).post);
                    assert(spec_step(pre, instr, keys@, 0, now_millis) == (StepSpec {
                        outcome: Ok::<Step, ExecError>(Step::Ran),
                        post: self@,
                    }));
                }
                Ok(Step::Ran)
            },
            Instr::StoreBcd(x) => {
                let base = self.index as usize;
                if base + 3 > MEMORY_SIZE {
                    proof {
                        assert(spec_step(pre, instr, keys@, 0, now_millis) == (StepSpec {
                            outcome: Err::<Step, ExecError>(
                                ExecError::MemoryOutOfBounds { offset: self.index, count: 3 },
                            ),
                            post: self@,
                        }));
                    }
                    return Err(ExecError::MemoryOutOfBounds { offset: self.index, count: 3 });
                }
                let v = self.gpr[x as usize];
                let digits: Vec<u8> = vec![(v / 100) % 10, (v / 10) % 10, v % 10];
                proof {
                    assert(digits@ =~= seq![
                        ((v / 100) % 10) as u8,
                        ((v / 10) % 10) as u8,
                        (v % 10) as u8,
                    ]);
                }
                self.memory.write_at(digits.as_slice(), base);
                proof {
                    assert(self@ =~= spec_step(pre, instr, keys@, 0, now_millis).post);
                    assert(spec_step(pre, instr, keys@, 0, now_millis) == (StepSpec {
                        outcome: Ok::<Step, ExecError>(Step::Ran),
                        post: self@,
                    }));
                }
                Ok(Step::Ran)
            },
            Instr::StoreRegs(x) => {
                let base = self.index as usize;
                let cnt = x as usize + 1;
                if base + cnt > MEMORY_SIZE {
                    proof {
                        assert(spec_step(pre, instr, keys@, 0, now_millis) == (StepSpec {
                            outcome: Err::<Step, ExecError>(
                                ExecError::MemoryOutOfBounds {
                                    offset: self.index,
                                    count: (x + 1) as u16,
                                },
                            ),
                            post: self@,
                        }));
                    }
                    return Err(
                        ExecError::MemoryOutOfBounds { offset: self.index, count: (x + 1) as u16 },
                    );
                }
                let mut buf: Vec<u8> = Vec::new();
                let mut i: usize = 0;
                while i < cnt
                    invariant
                        i <= cnt,
                        cnt <= 16,
                        self.gpr@.len() == 16,
                        buf@ =~= self.gpr@.subrange(0, i as int),
                    decreases cnt - i,
                {
                    buf.push(self.gpr[i]);
                    i += 1;
                }
                self.memory.write_at(buf.as_slice(), base);
                proof {
                    assert(self@ =~= spec_step(pre, instr, keys@, 0, now_millis).post);
                    assert(spec_step(pre, instr, keys@, 0, now_millis) == (StepSpec {
                        outcome: Ok::<Step, ExecError>(Step::Ran),
                        post: self@,
                    }));
                }
                Ok(Step::Ran)
            },
            Instr::LoadRegs(x) => {
                let base = self.index as usize;
                let cnt = x as usize + 1;
                if base + cnt > MEMORY_SIZE {
                    proof {
                        assert(spec_step(pre, instr, keys@, 0, now_millis) == (StepSpec {
                            outcome: Err::<Step, ExecError>(
                                ExecError::MemoryOutOfBounds {
                                    offset: self.index,
                                    count: (x + 1) as u16,
                                },
                            ),
                            post: self@,
                        }));
                    }
                    return Err(
                        ExecError::MemoryOutOfBounds { offset: self.index, count: (x + 1) as u16 },
                    );
                }
                let data = self.memory.read_at(base, cnt);
                let mut new_gpr: Vec<u8> = Vec::new();
                let mut i: usize = 0;
                while i < cnt
                    invariant
                        i <= cnt,
                        cnt <= 16,
                        data@.len() == cnt,
                        new_gpr@ =~= data@.subrange(0, i as int),
                    decreases cnt - i,
                {
                    new_gpr.push(data[i]);
                    i += 1;
                }
                while i < 16
                    invariant
                        cnt <= i <= 16,
                        cnt <= 16,
                        data@.len() == cnt,
                        self.gpr@.len() == 16,
                        new_gpr@.len() == i,
                        new_gpr@.subrange(0, cnt as int) =~= data@,
                        forall|j: int| cnt <= j < i ==> new_gpr@[j] == self.gpr@[j],
                    decreases 16 - i,
                {
                    let v = self.gpr[i];
                    new_gpr.push(v);
                    i += 1;
                }
                self.gpr = new_gpr;
                proof {
                    let target = spec_step(pre, instr, keys@, 0, now_millis).post.regs;
                    assert forall|j: int| 0 <= j < 16 implies self@.regs[j] == target[j] by {
                        if j < cnt {
                            assert(self@.regs.subrange(0, cnt as int)[j] == self@.regs[j]);
                            assert(data@[j] == pre.mem[pre.index + j]);
                        }
                    }
                    assert(self@.regs =~= spec_step(pre, instr, keys@, 0, now_millis).post.regs);
                    assert(self@ =~= spec_step(pre, instr, keys@, 0, now_millis).post);
                    assert(spec_step(pre, instr, keys@, 0, now_millis) == (StepSpec {
                        outcome: Ok::<Step, ExecError>(Step::Ran),
                        post: self@,
                    }));
                }
                Ok(Step::Ran)
            },
        }
    }
}

/// `add Vx, Vy` wraps modulo 256 and raises the flag register exactly when
/// the unsigned sum exceeds 255. (Register 15 itself is excluded as the
/// target: the written sum would overwrite the flag.)
pub proof fn lemma_add_sets_carry(pre: CpuV, x: u8, y: u8, keys: Seq<bool>, now: u64)
    requires
        cpu_wf(pre),
        x < 15,
        y < 16,
    ensures
        ({
            let s = spec_step(pre, Instr::AddReg(x, y), keys, 0, now);
            &&& s.outcome == Ok::<Step, ExecError>(Step::Ran)
            &&& s.post.regs[x as int] == (pre.regs[x as int] + pre.regs[y as int]) % 256
            &&& s.post.regs[15] == (if pre.regs[x as int] + pre.regs[y as int] > 255 {
                1u8
            } else {
                0u8
            })
        }),
{
}

/// `sub Vx, Vy` wraps modulo 256 and raises the flag register exactly when
/// no borrow occurs (`Vx` at least `Vy`); a borrow leaves it at zero.
/// (Register 15 itself is excluded as the target: the written difference
/// would overwrite the flag.)
pub proof fn lemma_sub_sets_borrow_flag(pre: CpuV, x: u8, y: u8, keys: Seq<bool>, now: u64)
    requires
        cpu_wf(pre),
        x < 15,
        y < 16,
    ensures
        ({
            let s = spec_step(pre, Instr::Sub(x, y), keys, 0, now);
            &&& s.outcome == Ok::<Step, ExecError>(Step::Ran)
            &&& s.post.regs[x as int] == (pre.regs[x as int] - pre.regs[y as int]) % 256
            &&& s.post.regs[15] == (if pre.regs[x as int] >= pre.regs[y as int] {
                1u8
            } else {
                0u8
            })
        }),
{
}

/// A call followed immediately by a return restores the program counter to
/// the instruction directly after the call, and the stack pointer to its
/// pre-call value. `c0` is the state the fetch of the call left behind, so
/// `c0.pc` already names the instruction after the call.
pub proof fn lemma_call_return_round_trip(c0: CpuV, addr: u16, keys: Seq<bool>, now: u64)
    requires
        cpu_wf(c0),
        c0.sp >= 2,
    ensures
        ({
            let called = spec_step(c0, Instr::Call(addr), keys, 0, now);
            let refetched = spec_fetched(called.post);
            let returned = spec_step(refetched, Instr::Return, keys, 0, now);
            &&& called.outcome == Ok::<Step, ExecError>(Step::Ran)
            &&& returned.outcome == Ok::<Step, ExecError>(Step::Ran)
            &&& returned.post.pc == c0.pc
            &&& returned.post.sp == c0.sp
        }),
{
    crate::memory::lemma_word_round_trip(c0.mem, c0.sp - 2, c0.pc as u16);
}

/// Storing registers 0 through `x` at the index register and loading them
/// back restores those registers exactly, whatever the registers held in
/// between, as long as memory and the index register were left alone.
pub proof fn lemma_store_load_round_trip(
    c0: CpuV,
    x: u8,
    mid_regs: Seq<u8>,
    keys: Seq<bool>,
    now: u64,
)
    requires
        cpu_wf(c0),
        x < 16,
        mid_regs.len() == 16,
        c0.index + x + 1 <= MEMORY_SIZE,
    ensures
        ({
            let stored = spec_step(c0, Instr::StoreRegs(x), keys, 0, now);
            let mid = CpuV { regs: mid_regs, ..stored.post };
            let loaded = spec_step(mid, Instr::LoadRegs(x), keys, 0, now);
            &&& stored.outcome == Ok::<Step, ExecError>(Step::Ran)
            &&& loaded.outcome == Ok::<Step, ExecError>(Step::Ran)
            &&& forall|i: int| 0 <= i <= x ==> loaded.post.regs[i] == c0.regs[i]
        }),
{
    let stored = spec_step(c0, Instr::StoreRegs(x), keys, 0, now);
    let mid = CpuV { regs: mid_regs, ..stored.post };
    let loaded = spec_step(mid, Instr::LoadRegs(x), keys, 0, now);
    assert forall|i: int| 0 <= i <= x implies loaded.post.regs[i] == c0.regs[i] by {
        assert(loaded.post.regs[i] == mid.mem[c0.index + i]);
        assert(mid.mem[c0.index + i] == c0.regs.subrange(0, x + 1)[i]);
    }
}

/// When every key before `i` is unpressed, the search for the first
/// pressed key may as well start at `i`.
proof fn lemma_first_pressed_prefix(keys: Seq<bool>, i: int)
    requires
        0 <= i <= 16,
        forall|j: int| 0 <= j < i ==> !keys[j],
    ensures
        first_pressed(keys) == first_pressed_from(keys, i),
    decreases i,
{
    if i > 0 {
        lemma_first_pressed_prefix(keys, i - 1);
        assert(first_pressed_from(keys, i - 1) == first_pressed_from(keys, i));
    }
}

} // verus!

