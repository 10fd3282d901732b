//! The machine facade and the instruction dispatcher: one decoded opcode
//! per cycle, executed against the memory, register file, call stack and
//! display, exactly as the transition function [`step`] says.

use vstd::prelude::*;
use vstd::pervasive::unreached;
use vstd::std_specs::bits::axiom_u16_trailing_zeros;
use vstd::std_specs::bits::u16_trailing_zeros;

use crate::cpu::Cpu;
use crate::display::TextDisplay;
use crate::display::blank_screen;
use crate::display::draw_buffer;
use crate::display::draw_collides;
use crate::memory::MEM_SIZE;
use crate::memory::Memory;
use crate::memory::MemoryError;
use crate::memory::PROGRAM_START;
use crate::memory::initial_memory;
use crate::memory::overwritten;
use crate::opcode::Nibble;
use crate::opcode::Opcode;
use crate::opcode::group_of;
use crate::opcode::lemma_nibble_bounds;
use crate::opcode::nib_a;
use crate::opcode::nib_b;
use crate::opcode::nib_c;
use crate::opcode::nib_d;
use crate::rng;
use crate::stack::Stack;
use crate::stack::STACK_SIZE;

verus! {

/// How many instructions one call of `run` executes at most.
pub const CYCLE_BUDGET: usize = 5000;

/// The machine state as mathematics: what every contract of [`Chip8`]
/// speaks about.
#[verifier::ext_equal]
pub ghost struct MachineView {
    /// The 4096 bytes of memory.
    pub mem: Seq<u8>,
    /// The sixteen byte registers.
    pub v: Seq<u8>,
    /// The index register.
    pub i: u16,
    /// The program counter.
    pub pc: u16,
    /// The call stack, most recent return address last.
    pub stack: Seq<u16>,
    /// The display buffer, row-major, one byte per pixel.
    pub screen: Seq<u8>,
    /// The delay timer.
    pub delay: u8,
    /// The sound timer.
    pub sound: u8,
    /// The pressed keys, one bit per key `0x0`..`0xF`.
    pub keys: u16,
}

/// Every component has its fixed size and every pixel is dark or lit.
pub open spec fn machine_wf(s: MachineView) -> bool {
    &&& s.mem.len() == MEM_SIZE
    &&& s.v.len() == 16
    &&& s.stack.len() <= STACK_SIZE
    &&& s.screen.len() == 64 * 32
    &&& forall|i: int| 0 <= i < s.screen.len() ==> s.screen[i] == 0 || s.screen[i] == 1
}

/// What one cycle reports back to the host.
#[derive(Clone, Copy, Debug, PartialEq, Eq, Structural)]
pub enum CycleEvent {
    /// One instruction executed.
    Executed,
    /// The word at `pc` matches no instruction; it was reported and
    /// stepped over.
    Unknown { pc: u16, word: u16 },
    /// A wait-for-key instruction found no key pressed; the program
    /// counter stays put so the next cycle polls again.
    WaitingForKey,
}

/// A fatal error: the machine refuses the instruction and changes nothing.
#[derive(Clone, Copy, Debug, PartialEq, Eq, Structural)]
pub enum Fault {
    /// A call found the stack already holding sixteen return addresses.
    StackOverflow { pc: u16, word: u16 },
    /// A return found the stack empty.
    StackUnderflow { pc: u16, word: u16 },
    /// A memory access beginning at `addr` would leave the address space
    /// (for an instruction fetch, `addr` is the program counter itself).
    OutOfBounds { pc: u16, addr: u16 },
}

/// Byte addition, wrapping modulo 256.
pub open spec fn wrap8_add(a: u8, b: u8) -> u8 {
    ((a + b) % 256) as u8
}

/// Byte subtraction, wrapping modulo 256.
pub open spec fn wrap8_sub(a: u8, b: u8) -> u8 {
    ((a - b) % 256) as u8
}

/// 16-bit addition, wrapping modulo 2^16.
pub open spec fn wrap16_add(a: u16, b: u16) -> u16 {
    ((a + b) % 0x10000) as u16
}

/// Whether key `k` (`k < 16`) is pressed in the key bitmap `keys`.
pub open spec fn key_pressed(keys: u16, k: u16) -> bool {
    (keys >> k) & 1 == 1
}

/// The instruction word fetched big-endian at the program counter.
pub open spec fn fetched_word(s: MachineView) -> u16 {
    ((s.mem[s.pc as int] as u16) << 8) | (s.mem[s.pc as int + 1] as u16)
}

/// One cycle of the machine: fetch the word at `pc`, then execute it.
/// `rand` is the byte the random-byte capability hands the RND
/// instruction this cycle.
pub open spec fn step(s: MachineView, rand: u8) -> Result<(MachineView, CycleEvent), Fault> {
    if s.pc as int + 1 >= (MEM_SIZE as int) {
        Err(Fault::OutOfBounds { pc: s.pc, addr: s.pc })
    } else {
        step_word(s, fetched_word(s), rand)
    }
}

/// Executes the already-fetched instruction word `w` on state `s`.
///
/// Every family ends by advancing `pc` by 2 (normal), by 4 (skip taken),
/// or by setting `pc` outright (jump, call, return). A word matching no
/// instruction is reported and stepped over; a fatal fault leaves the
/// state untouched.
pub open spec fn step_word(s: MachineView, w: u16, rand: u8) -> Result<
    (MachineView, CycleEvent),
    Fault,
> {
    let x = nib_b(w) as int;
    let y = nib_c(w) as int;
    let n = nib_d(w);
    let nn = group_of(w, Nibble::CD) as u8;
    let nnn = group_of(w, Nibble::BCD);
    let vx = s.v[x];
    let vy = s.v[y];
    let next = MachineView { pc: (s.pc + 2) as u16, ..s };
    let skip = MachineView { pc: (s.pc + 4) as u16, ..s };
    let unknown = Ok::<(MachineView, CycleEvent), Fault>(
        (next, CycleEvent::Unknown { pc: s.pc, word: w }),
    );
    if nib_a(w) == 0x0 {
        if nn == 0xE0 {
            // CLS
            Ok((MachineView { screen: blank_screen(), ..next }, CycleEvent::Executed))
        } else if nn == 0xEE {
            // RET
            if s.stack.len() == 0 {
                Err(Fault::StackUnderflow { pc: s.pc, word: w })
            } else {
                Ok(
                    (
                        MachineView { pc: s.stack.last(), stack: s.stack.drop_last(), ..s },
                        CycleEvent::Executed,
                    ),
                )
            }
        } else if w == 0x0000 {
            // NOP
            Ok((next, CycleEvent::Executed))
        } else {
            unknown
        }
    } else if nib_a(w) == 0x1 {
        // JP addr
        Ok((MachineView { pc: nnn, ..s }, CycleEvent::Executed))
    } else if nib_a(w) == 0x2 {
        // CALL addr
        if s.stack.len() >= STACK_SIZE {
            Err(Fault::StackOverflow { pc: s.pc, word: w })
        } else {
            Ok(
                (
                    MachineView { stack: s.stack.push((s.pc + 2) as u16), pc: nnn, ..s },
                    CycleEvent::Executed,
                ),
            )
        }
    } else if nib_a(w) == 0x3 {
        // SE Vx, nn
        Ok((if vx == nn { skip } else { next }, CycleEvent::Executed))
    } else if nib_a(w) == 0x4 {
        // SNE Vx, nn
        Ok((if vx != nn { skip } else { next }, CycleEvent::Executed))
    } else if nib_a(w) == 0x5 {
        // SE Vx, Vy
        Ok((if vx == vy { skip } else { next }, CycleEvent::Executed))
    } else if nib_a(w) == 0x6 {
        // LD Vx, nn
        Ok((MachineView { v: s.v.update(x, nn), ..next }, CycleEvent::Executed))
    } else if nib_a(w) == 0x7 {
        // ADD Vx, nn (no flag)
        Ok((MachineView { v: s.v.update(x, wrap8_add(vx, nn)), ..next }, CycleEvent::Executed))
    } else if nib_a(w) == 0x8 {
        step_alu(s, w, next)
    } else if nib_a(w) == 0x9 {
        // SNE Vx, Vy
        Ok((if vx != vy { skip } else { next }, CycleEvent::Executed))
    } else if nib_a(w) == 0xA {
        // LD I, addr
        Ok((MachineView { i: nnn, ..next }, CycleEvent::Executed))
    } else if nib_a(w) == 0xB {
        // JP V0, addr
        Ok((MachineView { pc: (s.v[0] + nnn) as u16, ..s }, CycleEvent::Executed))
    } else if nib_a(w) == 0xC {
        // RND Vx, nn
        Ok((MachineView { v: s.v.update(x, rand & nn), ..next }, CycleEvent::Executed))
    } else if nib_a(w) == 0xD {
        // DRW Vx, Vy, n
        if s.i as int + n as int > (MEM_SIZE as int) {
            Err(Fault::OutOfBounds { pc: s.pc, addr: s.i })
        } else {
            let sprite = s.mem.subrange(s.i as int, s.i as int + n as int);
            let collided = draw_collides(s.screen, vx as int, vy as int, sprite);
            Ok(
                (
                    MachineView {
                        screen: draw_buffer(s.screen, vx as int, vy as int, sprite),
                        v: s.v.update(0xF, if collided { 1u8 } else { 0u8 }),
                        ..next
                    },
                    CycleEvent::Executed,
                ),
            )
        }
    } else if nib_a(w) == 0xE {
        if nn == 0x9E {
            // SKP Vx
            Ok((if key_pressed(s.keys, (vx & 0xF) as u16) { skip } else { next }, CycleEvent::Executed))
        } else if nn == 0xA1 {
            // SKNP Vx
            Ok((if key_pressed(s.keys, (vx & 0xF) as u16) { next } else { skip }, CycleEvent::Executed))
        } else {
            unknown
        }
    } else {
        // 0xF family
        if nn == 0x07 {
            // LD Vx, DT
            Ok((MachineView { v: s.v.update(x, s.delay), ..next }, CycleEvent::Executed))
        } else if nn == 0x0A {
            // LD Vx, K: wait until a key is pressed, then take the
            // lowest-numbered one.
            if s.keys == 0 {
                Ok((s, CycleEvent::WaitingForKey))
            } else {
                Ok(
                    (
                        MachineView { v: s.v.update(x, u16_trailing_zeros(s.keys) as u8), ..next },
                        CycleEvent::Executed,
                    ),
                )
            }
        } else if nn == 0x15 {
            // LD DT, Vx
            Ok((MachineView { delay: vx, ..next }, CycleEvent::Executed))
        } else if nn == 0x18 {
            // LD ST, Vx
            Ok((MachineView { sound: vx, ..next }, CycleEvent::Executed))
        } else if nn == 0x1E {
            // ADD I, Vx
            Ok((MachineView { i: wrap16_add(s.i, vx as u16), ..next }, CycleEvent::Executed))
        } else if nn == 0x29 {
            // LD F, Vx: the font glyph of the low nibble of Vx
            Ok((MachineView { i: ((vx & 0xF) * 5) as u16, ..next }, CycleEvent::Executed))
        } else if nn == 0x33 {
            // LD B, Vx: the three decimal digits of Vx at I, I+1, I+2
            if s.i as int + 2 >= (MEM_SIZE as int) {
                Err(Fault::OutOfBounds { pc: s.pc, addr: s.i })
            } else {
                Ok(
                    (
                        MachineView {
                            mem: s.mem.update(s.i as int, (vx / 100) as u8).update(
                                s.i as int + 1,
                                ((vx / 10) % 10) as u8,
                            ).update(s.i as int + 2, (vx % 10) as u8),
                            ..next
                        },
                        CycleEvent::Executed,
                    ),
                )
            }
        } else if nn == 0x55 {
            // LD [I], Vx: store V0..=Vx at I
            if s.i as int + x >= (MEM_SIZE as int) {
                Err(Fault::OutOfBounds { pc: s.pc, addr: s.i })
            } else {
                Ok(
                    (
                        MachineView {
                            mem: overwritten(s.mem, s.i as int, s.v.subrange(0, x + 1)),
                            ..next
                        },
                        CycleEvent::Executed,
                    ),
                )
            }
        } else if nn == 0x65 {
            // LD Vx, [I]: load V0..=Vx from I
            if s.i as int + x >= (MEM_SIZE as int) {
                Err(Fault::OutOfBounds { pc: s.pc, addr: s.i })
            } else {
                Ok(
                    (
                        MachineView {
                            v: overwritten(s.v, 0, s.mem.subrange(s.i as int, s.i as int + x + 1)),
                            ..next
                        },
                        CycleEvent::Executed,
                    ),
                )
            }
        } else {
            unknown
        }
    }
}

/// The register-register arithmetic family (top nibble 8). Operands are
/// snapshotted before any write, so the flag register may itself be an
/// operand; the writes land in the order the instruction set lists them.
pub open spec fn step_alu(s: MachineView, w: u16, next: MachineView) -> Result<
    (MachineView, CycleEvent),
    Fault,
> {
    let x = nib_b(w) as int;
    let vx = s.v[x];
    let vy = s.v[nib_c(w) as int];
    let d = nib_d(w);
    if d == 0x0 {
        Ok((MachineView { v: s.v.update(x, vy), ..next }, CycleEvent::Executed))
    } else if d == 0x1 {
        Ok((MachineView { v: s.v.update(x, vx | vy), ..next }, CycleEvent::Executed))
    } else if d == 0x2 {
        Ok((MachineView { v: s.v.update(x, vx & vy), ..next }, CycleEvent::Executed))
    } else if d == 0x3 {
        Ok((MachineView { v: s.v.update(x, vx ^ vy), ..next }, CycleEvent::Executed))
    } else if d == 0x4 {
        // ADD: result, then the carry flag
        let flag: u8 = if vx + vy > 255 { 1 } else { 0 };
        Ok(
            (
                MachineView { v: s.v.update(x, wrap8_add(vx, vy)).update(0xF, flag), ..next },
                CycleEvent::Executed,
            ),
        )
    } else if d == 0x5 {
        // SUB: result, then the no-borrow flag
        let flag: u8 = if vx >= vy { 1 } else { 0 };
        Ok(
            (
                MachineView { v: s.v.update(x, wrap8_sub(vx, vy)).update(0xF, flag), ..next },
                CycleEvent::Executed,
            ),
        )
    } else if d == 0x6 {
        // SHR: the dropped bit into the flag, then the shifted value
        Ok(
            (
                MachineView { v: s.v.update(0xF, vx & 1).update(x, vx >> 1), ..next },
                CycleEvent::Executed,
            ),
        )
    } else if d == 0x7 {
        // SUBN: result, then the no-borrow flag
        let flag: u8 = if vy >= vx { 1 } else { 0 };
        Ok(
            (
                MachineView { v: s.v.update(x, wrap8_sub(vy, vx)).update(0xF, flag), ..next },
                CycleEvent::Executed,
            ),
        )
    } else if d == 0xE {
        // SHL: the dropped bit into the flag, then the shifted value
        Ok(
            (
                MachineView { v: s.v.update(0xF, (vx >> 7) & 1).update(x, vx << 1), ..next },
                CycleEvent::Executed,
            ),
        )
    } else {
        Ok((next, CycleEvent::Unknown { pc: s.pc, word: w }))
    }
}

/// How the state after one cycle and the cycle's result relate to the
/// state before it, given the random byte that was drawn.
pub open spec fn step_outcome(
    pre: MachineView,
    post: MachineView,
    rand: u8,
    r: Result<CycleEvent, Fault>,
) -> bool {
    match step(pre, rand) {
        Ok((s2, ev)) => r == Ok::<CycleEvent, Fault>(ev) && post == s2,
        Err(f) => r == Err::<CycleEvent, Fault>(f) && post == pre,
    }
}

/// The same relation for an already-fetched word: what executing `w` on
/// `pre` must leave behind.
pub open spec fn word_outcome(
    pre: MachineView,
    post: MachineView,
    w: u16,
    rand: u8,
    r: Result<CycleEvent, Fault>,
) -> bool {
    match step_word(pre, w, rand) {
        Ok((s2, ev)) => r == Ok::<CycleEvent, Fault>(ev) && post == s2,
        Err(f) => r == Err::<CycleEvent, Fault>(f) && post == pre,
    }
}

/// The machine as it stands at construction.
pub open spec fn initial_machine() -> MachineView {
    MachineView {
        mem: initial_memory(),
        v: Seq::new(16, |j: int| 0u8),
        i: 0,
        pc: PROGRAM_START,
        stack: Seq::empty(),
        screen: blank_screen(),
        delay: 0,
        sound: 0,
        keys: 0,
    }
}

/// `post` is reachable from `pre` by executing one cycle per entry of
/// `rands`, each cycle drawing the corresponding random byte and none of
/// them faulting.
pub open spec fn reaches(pre: MachineView, post: MachineView, rands: Seq<u8>) -> bool
    decreases rands.len(),
{
    if rands.len() == 0 {
        post == pre
    } else {
        exists|mid: MachineView, ev: CycleEvent|
            step(pre, rands[0]) == Ok::<(MachineView, CycleEvent), Fault>((mid, ev)) && reaches(
                mid,
                post,
                rands.drop_first(),
            )
    }
}

/// A reachable state stays reachable when one more non-faulting cycle
/// runs from it.
proof fn lemma_reaches_extend(
    pre: MachineView,
    mid: MachineView,
    post: MachineView,
    ev: CycleEvent,
    rands: Seq<u8>,
    r0: u8,
)
    requires
        reaches(pre, mid, rands),
        step(mid, r0) == Ok::<(MachineView, CycleEvent), Fault>((post, ev)),
    ensures
        reaches(pre, post, rands.push(r0)),
    decreases rands.len(),
{
    if rands.len() == 0 {
        assert(rands.push(r0)[0] == r0);
        assert(rands.push(r0).drop_first() =~= Seq::<u8>::empty());
        assert(exists|mid2: MachineView, ev2: CycleEvent|
            step(pre, rands.push(r0)[0]) == Ok::<(MachineView, CycleEvent), Fault>((mid2, ev2))
                && reaches(mid2, post, rands.push(r0).drop_first()));
    } else {
        let (mid1, ev1): (MachineView, CycleEvent) = choose|mid1: MachineView, ev1: CycleEvent|
            step(pre, rands[0]) == Ok::<(MachineView, CycleEvent), Fault>((mid1, ev1)) && reaches(
                mid1,
                mid,
                rands.drop_first(),
            );
        lemma_reaches_extend(mid1, mid, post, ev, rands.drop_first(), r0);
        assert(rands.push(r0).drop_first() =~= rands.drop_first().push(r0));
        assert(rands.push(r0)[0] == rands[0]);
        assert(exists|mid2: MachineView, ev2: CycleEvent|
            step(pre, rands.push(r0)[0]) == Ok::<(MachineView, CycleEvent), Fault>((mid2, ev2))
                && reaches(mid2, post, rands.push(r0).drop_first()));
    }
}

/// The RND instruction masks the drawn byte: with a zero mask the target
/// register becomes zero, whatever the random source produced.
pub proof fn lemma_rnd_zero_mask(s: MachineView, w: u16, rand: u8)
    requires
        machine_wf(s),
        nib_a(w) == 0xC,
        group_of(w, Nibble::CD) == 0,
    ensures
        step_word(s, w, rand) matches Ok((s2, ev)) && s2.v[nib_b(w) as int] == 0
            && ev == CycleEvent::Executed,
{
    lemma_nibble_bounds(w);
    assert(rand & 0 == 0) by (bit_vector);
}

/// The CHIP-8 machine: memory, registers, call stack, display buffer,
/// timers, key state and the injected random-byte capability.
pub struct Chip8 {
    /// Memory.
    pub mem: Memory,
    /// CPU registers.
    pub cpu: Cpu,
    /// Call stack.
    pub stack: Stack,
    /// The display buffer.
    pub display: TextDisplay,
    /// The random-byte source for the RND instruction.
    rng: rand::rngs::ThreadRng,
    /// Delay timer, decremented at 60 Hz by `tick_timers`.
    delay_timer: u8,
    /// Sound timer, decremented at 60 Hz by `tick_timers`.
    sound_timer: u8,
    /// Pressed keys, one bit per key `0x0`..`0xF`.
    keys: u16,
}

impl View for Chip8 {
    type V = MachineView;

    closed spec fn view(&self) -> MachineView {
        MachineView {
            mem: self.mem@,
            v: self.cpu.v@,
            i: self.cpu.i,
            pc: self.cpu.pc,
            stack: self.stack@,
            screen: self.display@,
            delay: self.delay_timer,
            sound: self.sound_timer,
            keys: self.keys,
        }
    }
}

impl Chip8 {
    /// The components keep their fixed sizes.
    pub open spec fn wf(&self) -> bool {
        machine_wf(self@)
    }

    /// Whether a host should keep presenting the display.
    pub closed spec fn presenting(&self) -> bool {
        self.display.presenting()
    }

    /// A fresh machine: font in memory, registers cleared, the program
    /// counter at `0x200`, a dark screen, no keys pressed.
    pub fn new() -> (r: Self)
        ensures
            r.wf(),
            r@ == initial_machine(),
            r.presenting(),
    {
        let r = Chip8 {
            mem: Memory::new(),
            cpu: Cpu::new(),
            stack: Stack::new(),
            display: TextDisplay::new(),
            rng: rng::fresh_rng(),
            delay_timer: 0,
            sound_timer: 0,
            keys: 0,
        };
        proof {
            assert(r@ =~= initial_machine());
        }
        r
    }

    /// Tells the host not to keep presenting the display.
    pub fn no_display(self) -> (r: Self)
        ensures
            r@ == self@,
            !r.presenting(),
    {
        let mut machine = self;
        machine.display.should_update(false);
        machine
    }

    /// Sets whether the host should keep presenting the display.
    pub fn set_display(&mut self, on: bool)
        ensures
            final(self)@ == old(self)@,
            final(self).presenting() == on,
    {
        self.display.should_update(on);
    }

    /// Sets the pressed-key bitmap the key instructions consult.
    pub fn set_keys(&mut self, keys: u16)
        ensures
            final(self)@ == (MachineView { keys, ..old(self)@ }),
    {
        self.keys = keys;
    }

    /// The delay timer's current value.
    pub fn delay_timer(&self) -> (r: u8)
        ensures
            r == self@.delay,
    {
        self.delay_timer
    }

    /// The sound timer's current value.
    pub fn sound_timer(&self) -> (r: u8)
        ensures
            r == self@.sound,
    {
        self.sound_timer
    }

    /// One 60 Hz tick: each timer counts down by one and stops at zero.
    /// The host calls this on wall-clock time, independently of how often
    /// it calls `cycle`.
    pub fn tick_timers(&mut self)
        ensures
            final(self)@ == (MachineView {
                delay: if old(self)@.delay > 0 { (old(self)@.delay - 1) as u8 } else { 0u8 },
                sound: if old(self)@.sound > 0 { (old(self)@.sound - 1) as u8 } else { 0u8 },
                ..old(self)@
            }),
    {
        if self.delay_timer > 0 {
            self.delay_timer = self.delay_timer - 1;
        }
        if self.sound_timer > 0 {
            self.sound_timer = self.sound_timer - 1;
        }
    }

    /// Loads a program at `PROGRAM_START`. Refused, with nothing written,
    /// when it would run past the end of memory; the reserved region below
    /// `0x200` is never touched.
    pub fn load_rom(&mut self, data: &Vec<u8>) -> (r: Result<(), MemoryError>)
        requires
            old(self).wf(),
        ensures
            final(self).wf(),
            data@.len() <= MEM_SIZE - PROGRAM_START ==> r == Ok::<(), MemoryError>(())
                && final(self)@ == (MachineView {
                mem: overwritten(old(self)@.mem, PROGRAM_START as int, data@),
                ..old(self)@
            }),
            data@.len() > MEM_SIZE - PROGRAM_START ==> r == Err::<(), MemoryError>(
                MemoryError::RomTooLarge { len: data@.len() as usize },
            ) && final(self)@ == old(self)@,
    {
        self.mem.load_rom(data)
    }

    /// One cycle: draws a byte from the random-byte capability and
    /// executes exactly one instruction with it, as [`step`] says.
    pub fn cycle(&mut self) -> (r: Result<CycleEvent, Fault>)
        requires
            old(self).wf(),
        ensures
            final(self).wf(),
            exists|rand: u8| step_outcome(old(self)@, final(self)@, rand, r),
    {
        let rand = rng::random_byte(&mut self.rng);
        let r = self.cycle_with(rand);
        proof {
            assert(step_outcome(old(self)@, self@, rand, r));
        }
        r
    }

    /// One cycle with the random byte handed in: fetches the big-endian
    /// word at `pc`, decodes it, and executes it. The result and the new
    /// state are exactly those of [`step`]; on a fault nothing changes.
    pub fn cycle_with(&mut self, rand: u8) -> (r: Result<CycleEvent, Fault>)
        requires
            old(self).wf(),
        ensures
            final(self).wf(),
            step_outcome(old(self)@, final(self)@, rand, r),
    {
        if self.cpu.pc as usize + 1 >= MEM_SIZE {
            return Err(Fault::OutOfBounds { pc: self.cpu.pc, addr: self.cpu.pc });
        }
        let l = match self.mem.read_byte(self.cpu.pc) {
            Ok(b) => b,
            Err(_) => unreached(),
        };
        let h = match self.mem.read_byte(self.cpu.pc + 1) {
            Ok(b) => b,
            Err(_) => unreached(),
        };
        let op = Opcode::new(((l as u16) << 8) | (h as u16));
        proof {
            assert(op@ == fetched_word(old(self)@));
        }
        match op.index(Nibble::A) {
            0x0 => self.op_system(&op, rand),
            0x3 | 0x4 | 0x5 | 0x9 => self.op_skip(&op, rand),
            0x8 => self.op_alu(&op, rand),
            0xD => self.op_draw(&op, rand),
            0xE => self.op_key(&op, rand),
            0xF => self.op_timer_memory(&op, rand),
            _ => self.op_immediate(&op, rand),
        }
    }

    /// The `0x0` family: clear screen, return from subroutine, and the
    /// no-op; anything else is reported and stepped over.
    #[verifier::rlimit(100)]
    fn op_system(&mut self, op: &Opcode, rand: u8) -> (r: Result<CycleEvent, Fault>)
        requires
            old(self).wf(),
            op.wf(),
            old(self)@.pc as int + 1 < (MEM_SIZE as int),
            nib_a(op@) == 0x0,
        ensures
            final(self).wf(),
            word_outcome(old(self)@, final(self)@, op@, rand, r),
    {
        let word = op.get(Nibble::ABCD);
        let nn = op.get(Nibble::CD) as u8;
        if nn == 0xE0 {
            self.display.clear();
            self.cpu.next_instruction();
            Ok(CycleEvent::Executed)
        } else if nn == 0xEE {
            match self.stack.pop() {
                Ok(addr) => {
                    self.cpu.pc = addr;
                    Ok(CycleEvent::Executed)
                },
                Err(_) => Err(Fault::StackUnderflow { pc: self.cpu.pc, word }),
            }
        } else if word == 0x0000 {
            self.cpu.next_instruction();
            Ok(CycleEvent::Executed)
        } else {
            let at = self.cpu.pc;
            self.cpu.next_instruction();
            Ok(CycleEvent::Unknown { pc: at, word })
        }
    }

    /// The conditional skips: `SE Vx, nn`, `SNE Vx, nn`, `SE Vx, Vy` and
    /// `SNE Vx, Vy`.
    #[verifier::rlimit(100)]
    fn op_skip(&mut self, op: &Opcode, rand: u8) -> (r: Result<CycleEvent, Fault>)
        requires
            old(self).wf(),
            op.wf(),
            old(self)@.pc as int + 1 < (MEM_SIZE as int),
            nib_a(op@) == 0x3 || nib_a(op@) == 0x4 || nib_a(op@) == 0x5 || nib_a(op@) == 0x9,
        ensures
            final(self).wf(),
            word_outcome(old(self)@, final(self)@, op@, rand, r),
    {
        proof {
            lemma_nibble_bounds(op@);
        }
        let nn = op.get(Nibble::CD) as u8;
        let vx = self.cpu.v[op.index(Nibble::B) as usize];
        let vy = self.cpu.v[op.index(Nibble::C) as usize];
        let a = op.index(Nibble::A);
        let taken = if a == 0x3 {
            vx == nn
        } else if a == 0x4 {
            vx != nn
        } else if a == 0x5 {
            vx == vy
        } else {
            vx != vy
        };
        if taken {
            self.cpu.skip_instruction();
        } else {
            self.cpu.next_instruction();
        }
        Ok(CycleEvent::Executed)
    }

    /// The single-word instructions with immediate operands: jump, call,
    /// the register loads and adds, `LD I`, the offset jump and `RND`.
    #[verifier::rlimit(100)]
    fn op_immediate(&mut self, op: &Opcode, rand: u8) -> (r: Result<CycleEvent, Fault>)
        requires
            old(self).wf(),
            op.wf(),
            old(self)@.pc as int + 1 < (MEM_SIZE as int),
            nib_a(op@) == 0x1 || nib_a(op@) == 0x2 || nib_a(op@) == 0x6 || nib_a(op@) == 0x7
                || nib_a(op@) == 0xA || nib_a(op@) == 0xB || nib_a(op@) == 0xC,
        ensures
            final(self).wf(),
            word_outcome(old(self)@, final(self)@, op@, rand, r),
    {
        proof {
            lemma_nibble_bounds(op@);
        }
        let word = op.get(Nibble::ABCD);
        let x = op.index(Nibble::B);
        let nn = op.get(Nibble::CD) as u8;
        let nnn = op.get(Nibble::BCD);
        let vx = self.cpu.v[x as usize];
        match op.index(Nibble::A) {
            0x1 => {
                self.cpu.pc = nnn;
                Ok(CycleEvent::Executed)
            },
            0x2 => {
                match self.stack.push(self.cpu.pc + 2) {
                    Ok(()) => {
                        self.cpu.pc = nnn;
                        Ok(CycleEvent::Executed)
                    },
                    Err(_) => Err(Fault::StackOverflow { pc: self.cpu.pc, word }),
                }
            },
            0x6 => {
                self.cpu.write_register(x, nn);
                self.cpu.next_instruction();
                Ok(CycleEvent::Executed)
            },
            0x7 => {
                self.cpu.write_register(x, vx.wrapping_add(nn));
                self.cpu.next_instruction();
                Ok(CycleEvent::Executed)
            },
            0xA => {
                self.cpu.i = nnn;
                self.cpu.next_instruction();
                Ok(CycleEvent::Executed)
            },
            0xB => {
                self.cpu.pc = self.cpu.v[0] as u16 + nnn;
                Ok(CycleEvent::Executed)
            },
            _ => {
                self.cpu.write_register(x, rand & nn);
                self.cpu.next_instruction();
                Ok(CycleEvent::Executed)
            },
        }
    }

    /// The register-register arithmetic family (top nibble 8).
    #[verifier::rlimit(100)]
    fn op_alu(&mut self, op: &Opcode, rand: u8) -> (r: Result<CycleEvent, Fault>)
        requires
            old(self).wf(),
            op.wf(),
            old(self)@.pc as int + 1 < (MEM_SIZE as int),
            nib_a(op@) == 0x8,
        ensures
            final(self).wf(),
            word_outcome(old(self)@, final(self)@, op@, rand, r),
    {
        proof {
            lemma_nibble_bounds(op@);
        }
        let word = op.get(Nibble::ABCD);
        let x = op.index(Nibble::B);
        let vx = self.cpu.v[op.index(Nibble::B) as usize];
        let vy = self.cpu.v[op.index(Nibble::C) as usize];
        match op.index(Nibble::D) {
            0x0 => {
                self.cpu.write_register(x, vy);
                self.cpu.next_instruction();
                Ok(CycleEvent::Executed)
            },
            0x1 => {
                self.cpu.write_register(x, vx | vy);
                self.cpu.next_instruction();
                Ok(CycleEvent::Executed)
            },
            0x2 => {
                self.cpu.write_register(x, vx & vy);
                self.cpu.next_instruction();
                Ok(CycleEvent::Executed)
            },
            0x3 => {
                self.cpu.write_register(x, vx ^ vy);
                self.cpu.next_instruction();
                Ok(CycleEvent::Executed)
            },
            0x4 => {
                let flag: u8 = if (vx as u16) + (vy as u16) > 0xFF {
                    1
                } else {
                    0
                };
                self.cpu.write_register(x, vx.wrapping_add(vy));
                self.cpu.write_register(0xF, flag);
                self.cpu.next_instruction();
                Ok(CycleEvent::Executed)
            },
            0x5 => {
                let flag: u8 = if vx >= vy {
                    1
                } else {
                    0
                };
                self.cpu.write_register(x, vx.wrapping_sub(vy));
                self.cpu.write_register(0xF, flag);
                self.cpu.next_instruction();
                Ok(CycleEvent::Executed)
            },
            0x6 => {
                self.cpu.write_register(0xF, vx & 1);
                self.cpu.write_register(x, vx >> 1);
                self.cpu.next_instruction();
                Ok(CycleEvent::Executed)
            },
            0x7 => {
                let flag: u8 = if vy >= vx {
                    1
                } else {
                    0
                };
                self.cpu.write_register(x, vy.wrapping_sub(vx));
                self.cpu.write_register(0xF, flag);
                self.cpu.next_instruction();
                Ok(CycleEvent::Executed)
            },
            0xE => {
                self.cpu.write_register(0xF, (vx >> 7) & 1);
                self.cpu.write_register(x, vx << 1);
                self.cpu.next_instruction();
                Ok(CycleEvent::Executed)
            },
            _ => {
                let at = self.cpu.pc;
                self.cpu.next_instruction();
                Ok(CycleEvent::Unknown { pc: at, word })
            },
        }
    }

    /// The draw instruction `DRW Vx, Vy, n`.
    #[verifier::rlimit(100)]
    fn op_draw(&mut self, op: &Opcode, rand: u8) -> (r: Result<CycleEvent, Fault>)
        requires
            old(self).wf(),
            op.wf(),
            old(self)@.pc as int + 1 < (MEM_SIZE as int),
            nib_a(op@) == 0xD,
        ensures
            final(self).wf(),
            word_outcome(old(self)@, final(self)@, op@, rand, r),
    {
        proof {
            lemma_nibble_bounds(op@);
        }
        let n = op.index(Nibble::D);
        let vx = self.cpu.v[op.index(Nibble::B) as usize];
        let vy = self.cpu.v[op.index(Nibble::C) as usize];
        if self.cpu.i as usize + n as usize > MEM_SIZE {
            return Err(Fault::OutOfBounds { pc: self.cpu.pc, addr: self.cpu.i });
        }
        let sprite = match self.mem.get_slice(self.cpu.i, n) {
            Ok(bytes) => bytes,
            Err(_) => unreached(),
        };
        let collided = self.display.display(vx, vy, &sprite);
        self.cpu.write_register(
            0xF,
            if collided {
                1
            } else {
                0
            },
        );
        self.cpu.next_instruction();
        Ok(CycleEvent::Executed)
    }

    /// The key skips `SKP Vx` and `SKNP Vx`.
    #[verifier::rlimit(100)]
    fn op_key(&mut self, op: &Opcode, rand: u8) -> (r: Result<CycleEvent, Fault>)
        requires
            old(self).wf(),
            op.wf(),
            old(self)@.pc as int + 1 < (MEM_SIZE as int),
            nib_a(op@) == 0xE,
        ensures
            final(self).wf(),
            word_outcome(old(self)@, final(self)@, op@, rand, r),
    {
        proof {
            lemma_nibble_bounds(op@);
        }
        let word = op.get(Nibble::ABCD);
        let nn = op.get(Nibble::CD) as u8;
        let vx = self.cpu.v[op.index(Nibble::B) as usize];
        proof {
            assert(vx & 0xF < 16) by (bit_vector);
        }
        if nn == 0x9E {
            if (self.keys >> ((vx & 0xF) as u16)) & 1 == 1 {
                self.cpu.skip_instruction();
            } else {
                self.cpu.next_instruction();
            }
            Ok(CycleEvent::Executed)
        } else if nn == 0xA1 {
            if (self.keys >> ((vx & 0xF) as u16)) & 1 == 1 {
                self.cpu.next_instruction();
            } else {
                self.cpu.skip_instruction();
            }
            Ok(CycleEvent::Executed)
        } else {
            let at = self.cpu.pc;
            self.cpu.next_instruction();
            Ok(CycleEvent::Unknown { pc: at, word })
        }
    }

    /// The `0xF` family: timers, wait-for-key, the index-register adds,
    /// the font lookup, binary-coded decimal and the register dump and
    /// load.
    #[verifier::rlimit(100)]
    fn op_timer_memory(&mut self, op: &Opcode, rand: u8) -> (r: Result<CycleEvent, Fault>)
        requires
            old(self).wf(),
            op.wf(),
            old(self)@.pc as int + 1 < (MEM_SIZE as int),
            nib_a(op@) == 0xF,
        ensures
            final(self).wf(),
            word_outcome(old(self)@, final(self)@, op@, rand, r),
    {
        proof {
            lemma_nibble_bounds(op@);
        }
        let word = op.get(Nibble::ABCD);
        let x = op.index(Nibble::B);
        let nn = op.get(Nibble::CD) as u8;
        let vx = self.cpu.v[x as usize];
        proof {
            assert(vx & 0xF < 16) by (bit_vector);
        }
        if nn == 0x07 {
            self.cpu.write_register(x, self.delay_timer);
            self.cpu.next_instruction();
            Ok(CycleEvent::Executed)
        } else if nn == 0x0A {
            if self.keys == 0 {
                Ok(CycleEvent::WaitingForKey)
            } else {
                proof {
                    axiom_u16_trailing_zeros(self.keys);
                }
                let key = self.keys.trailing_zeros();
                self.cpu.write_register(x, key as u8);
                self.cpu.next_instruction();
                Ok(CycleEvent::Executed)
            }
        } else if nn == 0x15 {
            self.delay_timer = vx;
            self.cpu.next_instruction();
            Ok(CycleEvent::Executed)
        } else if nn == 0x18 {
            self.sound_timer = vx;
            self.cpu.next_instruction();
            Ok(CycleEvent::Executed)
        } else if nn == 0x1E {
            self.cpu.i = self.cpu.i.wrapping_add(vx as u16);
            self.cpu.next_instruction();
            Ok(CycleEvent::Executed)
        } else if nn == 0x29 {
            self.cpu.i = ((vx & 0xF) as u16) * 5;
            self.cpu.next_instruction();
            Ok(CycleEvent::Executed)
        } else if nn == 0x33 {
            if self.cpu.i as usize + 2 >= MEM_SIZE {
                return Err(Fault::OutOfBounds { pc: self.cpu.pc, addr: self.cpu.i });
            }
            let i0 = self.cpu.i;
            match self.mem.write_byte(i0, vx / 100) {
                Ok(()) => (),
                Err(_) => unreached(),
            }
            match self.mem.write_byte(i0 + 1, (vx / 10) % 10) {
                Ok(()) => (),
                Err(_) => unreached(),
            }
            match self.mem.write_byte(i0 + 2, vx % 10) {
                Ok(()) => (),
                Err(_) => unreached(),
            }
            self.cpu.next_instruction();
            Ok(CycleEvent::Executed)
        } else if nn == 0x55 {
            if self.cpu.i as usize + x as usize >= MEM_SIZE {
                return Err(Fault::OutOfBounds { pc: self.cpu.pc, addr: self.cpu.i });
            }
            self.store_registers(x);
            self.cpu.next_instruction();
            Ok(CycleEvent::Executed)
        } else if nn == 0x65 {
            if self.cpu.i as usize + x as usize >= MEM_SIZE {
                return Err(Fault::OutOfBounds { pc: self.cpu.pc, addr: self.cpu.i });
            }
            self.load_registers(x);
            self.cpu.next_instruction();
            Ok(CycleEvent::Executed)
        } else {
            let at = self.cpu.pc;
            self.cpu.next_instruction();
            Ok(CycleEvent::Unknown { pc: at, word })
        }
    }

    /// Stores `V[0..=x]` to memory starting at the index register.
    fn store_registers(&mut self, x: u16)
        requires
            old(self).wf(),
            x < 16,
            old(self)@.i as int + (x as int) < (MEM_SIZE as int),
        ensures
            final(self).wf(),
            final(self)@ == (MachineView {
                mem: overwritten(
                    old(self)@.mem,
                    old(self)@.i as int,
                    old(self)@.v.subrange(0, x as int + 1),
                ),
                ..old(self)@
            }),
    {
        let base = self.cpu.i as usize;
        let mut j: usize = 0;
        while j <= x as usize
            invariant
                old(self).wf(),
                x < 16,
                old(self)@.i as int + (x as int) < (MEM_SIZE as int),
                base == old(self)@.i as usize,
                j <= x as usize + 1,
                self.cpu == old(self).cpu,
                self.stack == old(self).stack,
                self.display == old(self).display,
                self.delay_timer == old(self).delay_timer,
                self.sound_timer == old(self).sound_timer,
                self.keys == old(self).keys,
                self.mem.wf(),
                forall|k: int|
                    0 <= k < MEM_SIZE && !(base <= k < base + j) ==> self@.mem[k] == old(
                        self,
                    )@.mem[k],
                forall|k: int| 0 <= k < j ==> self@.mem[base + k] == old(self)@.v[k],
            decreases x as int + 1 - j,
        {
            let val = self.cpu.v[j];
            match self.mem.write_byte((base + j) as u16, val) {
                Ok(()) => (),
                Err(_) => unreached(),
            }
            j += 1;
        }
        proof {
            assert(self@.mem =~= overwritten(
                old(self)@.mem,
                old(self)@.i as int,
                old(self)@.v.subrange(0, x as int + 1),
            ));
            assert(self@ =~= (MachineView {
                mem: overwritten(
                    old(self)@.mem,
                    old(self)@.i as int,
                    old(self)@.v.subrange(0, x as int + 1),
                ),
                ..old(self)@
            }));
        }
    }

    /// Loads memory starting at the index register into `V[0..=x]`.
    fn load_registers(&mut self, x: u16)
        requires
            old(self).wf(),
            x < 16,
            old(self)@.i as int + (x as int) < (MEM_SIZE as int),
        ensures
            final(self).wf(),
            final(self)@ == (MachineView {
                v: overwritten(
                    old(self)@.v,
                    0,
                    old(self)@.mem.subrange(
                        old(self)@.i as int,
                        old(self)@.i as int + x as int + 1,
                    ),
                ),
                ..old(self)@
            }),
    {
        let base = self.cpu.i as usize;
        let mut j: usize = 0;
        while j <= x as usize
            invariant
                old(self).wf(),
                x < 16,
                old(self)@.i as int + (x as int) < (MEM_SIZE as int),
                base == old(self)@.i as usize,
                j <= x as usize + 1,
                self.mem == old(self).mem,
                self.stack == old(self).stack,
                self.display == old(self).display,
                self.delay_timer == old(self).delay_timer,
                self.sound_timer == old(self).sound_timer,
                self.keys == old(self).keys,
                self.cpu.wf(),
                self.cpu.pc == old(self).cpu.pc,
                self.cpu.i == old(self).cpu.i,
                forall|k: int| j <= k < 16 ==> self@.v[k] == old(self)@.v[k],
                forall|k: int| 0 <= k < j ==> self@.v[k] == old(self)@.mem[base + k],
            decreases x as int + 1 - j,
        {
            let b = match self.mem.read_byte((base + j) as u16) {
                Ok(b) => b,
                Err(_) => unreached(),
            };
            let ghost v_pre = self@.v;
            proof {
                assert(base + j < MEM_SIZE);
                assert(b == old(self)@.mem[base + j]);
            }
            self.cpu.write_register(j as u16, b);
            proof {
                assert(self@.v =~= v_pre.update(j as int, b));
                assert forall|k: int| 0 <= k < j + 1 implies self@.v[k] == old(
                    self,
                )@.mem[base + k] by {
                    if k == j {
                        assert(self@.v[k] == b);
                        assert(b == old(self)@.mem[base + k]);
                    } else {
                        assert(self@.v[k] == v_pre[k]);
                        assert(v_pre[k] == old(self)@.mem[base + k]);
                    }
                }
            }
            j += 1;
        }
        proof {
            assert(self@.v =~= overwritten(
                old(self)@.v,
                0,
                old(self)@.mem.subrange(old(self)@.i as int, old(self)@.i as int + x as int + 1),
            ));
            assert(self@ =~= (MachineView {
                v: overwritten(
                    old(self)@.v,
                    0,
                    old(self)@.mem.subrange(
                        old(self)@.i as int,
                        old(self)@.i as int + x as int + 1,
                    ),
                ),
                ..old(self)@
            }));
        }
    }

    /// Runs one cycle after another until one faults or the instruction
    /// budget is spent. A successful run performs exactly the budget of
    /// non-faulting cycles; a faulting one performs fewer, stands at the
    /// state the faulting instruction refused to change, and returns that
    /// instruction's fault.
    pub fn run(&mut self) -> (r: Result<(), Fault>)
        requires
            old(self).wf(),
        ensures
            final(self).wf(),
            r is Ok ==> exists|rands: Seq<u8>|
                rands.len() == CYCLE_BUDGET && reaches(old(self)@, final(self)@, rands),
            r matches Err(f) ==> (exists|rands: Seq<u8>|
                rands.len() < CYCLE_BUDGET && reaches(old(self)@, final(self)@, rands))
                && (exists|rand: u8|
                step(final(self)@, rand) == Err::<(MachineView, CycleEvent), Fault>(f)),
    {
        proof {
            assert(Seq::<u8>::empty().len() == 0 && reaches(old(self)@, self@, Seq::<u8>::empty()));
        }
        let mut count: usize = 0;
        while count < CYCLE_BUDGET
            invariant
                self.wf(),
                count <= CYCLE_BUDGET,
                exists|rands: Seq<u8>|
                    rands.len() == count && reaches(old(self)@, self@, rands),
            decreases CYCLE_BUDGET - count,
        {
            let ghost mid = self@;
            let ghost rands: Seq<u8> = choose|rands: Seq<u8>|
                rands.len() == count && reaches(old(self)@, mid, rands);
            let r = self.cycle();
            proof {
                let rand: u8 = choose|rand: u8| step_outcome(mid, self@, rand, r);
                match step(mid, rand) {
                    Ok((s2, ev)) => {
                        lemma_reaches_extend(old(self)@, mid, self@, ev, rands, rand);
                        assert(rands.push(rand).len() == count + 1 && reaches(
                            old(self)@,
                            self@,
                            rands.push(rand),
                        ));
                    },
                    Err(_) => {},
                }
            }
            if let Err(f) = r {
                return Err(f);
            }
            count += 1;
        }
        Ok(())
    }
}

} // verus!
