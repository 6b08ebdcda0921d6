use vstd::prelude::*;

use crate::opcode::{decode, decoded, lemma_decoded_in_range, operands_in_range, Opcode};
use crate::screen::{collides, drawn, Screen, PIXELS};

verus! {

/// Size of the address space in bytes.
pub const MEMORY_SIZE: usize = 4096;

/// Address of the first byte of the built-in font.
pub const FONT_START: usize = 0x50;

/// Number of bytes of the built-in font: sixteen glyphs of five bytes.
pub const FONT_LEN: usize = 80;

/// Address at which a program is loaded and starts.
pub const ROM_START: usize = 0x200;

/// Largest program that fits between `ROM_START` and the end of memory.
pub const ROM_MAX: usize = 3584;

/// Depth of the return-address stack.
pub const STACK_DEPTH: usize = 16;

/// Why the machine cannot carry out an instruction.
#[derive(Clone, Copy, Debug, PartialEq, Eq, Structural)]
pub enum Fault {
    /// A program too large for memory, or an access past the end of memory
    /// or of the 16-bit program counter.
    OutOfBounds,
    /// A return with an empty call stack.
    StackUnderflow,
    /// A call with a full call stack.
    StackOverflow,
}

/// The glyphs of the hexadecimal digits 0 to F, five rows of one byte each.
pub open spec fn font_glyphs() -> Seq<u8> {
    seq![
        0xF0u8, 0x90, 0x90, 0x90, 0xF0, // 0
        0x20, 0x60, 0x20, 0x20, 0x70, // 1
        0xF0, 0x10, 0xF0, 0x80, 0xF0, // 2
        0xF0, 0x10, 0xF0, 0x10, 0xF0, // 3
        0x90, 0x90, 0xF0, 0x10, 0x10, // 4
        0xF0, 0x80, 0xF0, 0x10, 0xF0, // 5
        0xF0, 0x80, 0xF0, 0x90, 0xF0, // 6
        0xF0, 0x10, 0x20, 0x40, 0x40, // 7
        0xF0, 0x90, 0xF0, 0x90, 0xF0, // 8
        0xF0, 0x90, 0xF0, 0x10, 0xF0, // 9
        0xF0, 0x90, 0xF0, 0x90, 0x90, // A
        0xE0, 0x90, 0xE0, 0x90, 0xE0, // B
        0xF0, 0x80, 0x80, 0x80, 0xF0, // C
        0xE0, 0x90, 0x90, 0x90, 0xE0, // D
        0xF0, 0x80, 0xF0, 0x80, 0xF0, // E
        0xF0, 0x80, 0xF0, 0x80, 0x80, // F
    ]
}

/// The whole machine as mathematical values.
#[verifier::ext_equal]
pub struct CpuState {
    pub i: u16,
    pub pc: u16,
    /// The sixteen registers `V0` to `VF`.
    pub v: Seq<u8>,
    pub stack: Seq<u16>,
    pub sp: u8,
    pub memory: Seq<u8>,
    pub delay: u8,
    pub sound: u8,
    /// The display, one entry per pixel, row-major.
    pub screen: Seq<bool>,
    /// Whether the display changed since a renderer last reset the flag.
    pub dirty: bool,
    /// Which of the sixteen keys are down.
    pub keys: Seq<bool>,
}

/// The CHIP-8 processor: registers, memory, call stack, timers, keypad
/// and display.
pub struct Cpu {
    /// The index register `I`.
    pub i: u16,
    /// The program counter.
    pub pc: u16,
    pub register: [u8; 16],
    pub stack: [u16; STACK_DEPTH],
    /// Number of return addresses on the stack.
    pub sp: u8,
    pub memory: [u8; MEMORY_SIZE],
    pub soundtimer: u8,
    pub delaytimer: u8,
    pub screen: Screen,
    /// Key state, set by the host: `true` while a key is held down.
    pub keys: [bool; 16],
}

impl View for Cpu {
    type V = CpuState;

    open spec fn view(&self) -> CpuState {
        CpuState {
            i: self.i,
            pc: self.pc,
            v: self.register@,
            stack: self.stack@,
            sp: self.sp,
            memory: self.memory@,
            delay: self.delaytimer,
            sound: self.soundtimer,
            screen: self.screen@,
            dirty: self.screen.dirty,
            keys: self.keys@,
        }
    }
}

/// The machine before any program is loaded: the font at `FONT_START`,
/// every other byte, register, timer and pixel zero, no key down.
pub open spec fn initial_state(s: CpuState) -> bool {
    &&& s.i == 0 && s.pc == 0 && s.sp == 0 && s.delay == 0 && s.sound == 0 && !s.dirty
    &&& s.v =~= Seq::new(16, |k: int| 0u8)
    &&& s.stack =~= Seq::new(STACK_DEPTH as nat, |k: int| 0u16)
    &&& s.memory =~= Seq::new(
        MEMORY_SIZE as nat,
        |a: int|
            if FONT_START <= a < FONT_START + FONT_LEN {
                font_glyphs()[a - FONT_START]
            } else {
                0u8
            },
    )
    &&& s.screen =~= Seq::new(PIXELS as nat, |p: int| false)
    &&& s.keys =~= Seq::new(16, |k: int| false)
}

impl CpuState {
    pub open spec fn with_v(self, x: int, val: u8) -> CpuState {
        CpuState { v: self.v.update(x, val), ..self }
    }

    pub open spec fn with_pc(self, pc: u16) -> CpuState {
        CpuState { pc, ..self }
    }

    /// Skips the next instruction when `cond` holds.
    pub open spec fn skip_if(self, cond: bool) -> Result<CpuState, Fault> {
        if !cond {
            Ok(self)
        } else if self.pc > 0xFFFD {
            Err(Fault::OutOfBounds)
        } else {
            Ok(self.with_pc((self.pc + 2) as u16))
        }
    }

    /// Whether key `k` is down; there is no key past 15.
    pub open spec fn key_down(self, k: u8) -> bool {
        k < 16 && self.keys[k as int]
    }
}

/// The lowest key from `k` on that is down, or 16 if none is.
pub open spec fn lowest_key_from(keys: Seq<bool>, k: int) -> int
    decreases 16 - k,
{
    if k >= 16 {
        16
    } else if keys[k] {
        k
    } else {
        lowest_key_from(keys, k + 1)
    }
}

/// What one operation does to the machine whose program counter already
/// points past it; `rnd` is the random byte that `Rnd` draws.
pub open spec fn run_op(s: CpuState, op: Opcode, rnd: u8) -> Result<CpuState, Fault> {
    match op {
        Opcode::Sys => Ok(s),
        Opcode::Cls => Ok(CpuState { screen: Seq::new(PIXELS as nat, |p: int| false), dirty: true, ..s }),
        Opcode::Ret => if s.sp == 0 {
            Err(Fault::StackUnderflow)
        } else if s.sp > STACK_DEPTH {
            Err(Fault::StackOverflow)
        } else {
            Ok(CpuState { sp: (s.sp - 1) as u8, pc: s.stack[s.sp - 1], ..s })
        },
        Opcode::Jp(a) => Ok(s.with_pc(a)),
        Opcode::Call(a) => if s.sp >= STACK_DEPTH {
            Err(Fault::StackOverflow)
        } else {
            Ok(CpuState { stack: s.stack.update(s.sp as int, s.pc), sp: (s.sp + 1) as u8, pc: a, ..s })
        },
        Opcode::Se(x, kk) => s.skip_if(s.v[x as int] == kk),
        Opcode::Sne(x, kk) => s.skip_if(s.v[x as int] != kk),
        Opcode::Ser(x, y) => s.skip_if(s.v[x as int] == s.v[y as int]),
        Opcode::Sner(x, y) => s.skip_if(s.v[x as int] != s.v[y as int]),
        Opcode::Ld(x, kk) => Ok(s.with_v(x as int, kk)),
        Opcode::Add(x, kk) => Ok(s.with_v(x as int, ((s.v[x as int] + kk) % 256) as u8)),
        Opcode::Ldr(x, y) => Ok(s.with_v(x as int, s.v[y as int])),
        Opcode::Or(x, y) => Ok(s.with_v(x as int, s.v[x as int] | s.v[y as int])),
        Opcode::And(x, y) => Ok(s.with_v(x as int, s.v[x as int] & s.v[y as int])),
        Opcode::Xor(x, y) => Ok(s.with_v(x as int, s.v[x as int] ^ s.v[y as int])),
        Opcode::Addr(x, y) => {
            let sum = s.v[x as int] + s.v[y as int];
            Ok(s.with_v(x as int, (sum % 256) as u8).with_v(0xF, if sum >= 256 { 1u8 } else { 0u8 }))
        },
        Opcode::Subr(x, y) => {
            let (a, b) = (s.v[x as int], s.v[y as int]);
            Ok(s.with_v(x as int, ((a - b) % 256) as u8).with_v(0xF, if a >= b { 1u8 } else { 0u8 }))
        },
        Opcode::Shr(x) => {
            let t = s.with_v(0xF, s.v[x as int] & 1);
            Ok(t.with_v(x as int, t.v[x as int] / 2))
        },
        Opcode::Subn(x, y) => {
            let t = if s.v[x as int] > s.v[y as int] { s.with_v(0xF, 1) } else { s };
            Ok(t.with_v(x as int, ((t.v[y as int] - t.v[x as int]) % 256) as u8))
        },
        Opcode::Shl(x) => {
            let t = s.with_v(0xF, s.v[x as int] / 128);
            Ok(t.with_v(x as int, ((t.v[x as int] * 2) % 256) as u8))
        },
        Opcode::Ldi(a) => Ok(CpuState { i: a, ..s }),
        Opcode::Jpr(a) => Ok(s.with_pc((a + s.v[0]) as u16)),
        Opcode::Rnd(x, kk) => Ok(s.with_v(x as int, kk & rnd)),
        Opcode::Drw(x, y, n) => if s.i + n > MEMORY_SIZE {
            Err(Fault::OutOfBounds)
        } else {
            let data = s.memory.subrange(s.i as int, s.i + n);
            let (px, py) = (s.v[x as int] as int, s.v[y as int] as int);
            let hit = collides(s.screen, px, py, data);
            Ok(
                CpuState {
                    screen: drawn(s.screen, px, py, data),
                    dirty: true,
                    ..s
                }.with_v(0xF, if hit { 1u8 } else { 0u8 }),
            )
        },
        Opcode::Skp(x) => s.skip_if(s.key_down(s.v[x as int])),
        Opcode::Sknp(x) => s.skip_if(!s.key_down(s.v[x as int])),
        Opcode::LdDt(x) => Ok(s.with_v(x as int, s.delay)),
        Opcode::LdK(x) => {
            let k = lowest_key_from(s.keys, 0);
            if k < 16 {
                Ok(s.with_v(x as int, k as u8))
            } else if s.pc < 2 {
                Err(Fault::OutOfBounds)
            } else {
                Ok(s.with_pc((s.pc - 2) as u16))
            }
        },
        Opcode::DtLd(x) => Ok(CpuState { delay: s.v[x as int], ..s }),
        Opcode::StLd(x) => Ok(CpuState { sound: s.v[x as int], ..s }),
        Opcode::AddI(x) => Ok(CpuState { i: ((s.i + s.v[x as int]) % 0x10000) as u16, ..s }),
        Opcode::LdF(x) => Ok(CpuState { i: (s.v[x as int] * 5) as u16, ..s }),
        Opcode::LdB(x) => if s.i + 3 > MEMORY_SIZE {
            Err(Fault::OutOfBounds)
        } else {
            let a = s.v[x as int];
            Ok(
                CpuState {
                    memory: s.memory.update(s.i as int, a / 100).update(s.i + 1, (a / 10) % 10).update(
                        s.i + 2,
                        a % 10,
                    ),
                    ..s
                },
            )
        },
        Opcode::LdIR(x) => if s.i + x + 1 > MEMORY_SIZE {
            Err(Fault::OutOfBounds)
        } else {
            Ok(
                CpuState {
                    memory: Seq::new(
                        MEMORY_SIZE as nat,
                        |a: int|
                            if s.i <= a <= s.i + x {
                                s.v[a - s.i]
                            } else {
                                s.memory[a]
                            },
                    ),
                    ..s
                },
            )
        },
        Opcode::LdRI(x) => if s.i + x + 1 > MEMORY_SIZE {
            Err(Fault::OutOfBounds)
        } else {
            Ok(
                CpuState {
                    v: Seq::new(16, |k: int| if k <= x { s.memory[s.i + k] } else { s.v[k] }),
                    ..s
                },
            )
        },
    }
}

/// The machine after one timer tick: each nonzero timer goes down by one.
pub open spec fn ticked(s: CpuState) -> CpuState {
    CpuState {
        delay: if s.delay > 0 { (s.delay - 1) as u8 } else { 0u8 },
        sound: if s.sound > 0 { (s.sound - 1) as u8 } else { 0u8 },
        ..s
    }
}

/// The instruction word at the program counter, big-endian, if both of
/// its bytes lie in memory.
pub open spec fn fetched(s: CpuState) -> Result<u16, Fault> {
    if s.pc + 1 >= MEMORY_SIZE {
        Err(Fault::OutOfBounds)
    } else {
        Ok((s.memory[s.pc as int] * 256 + s.memory[s.pc + 1]) as u16)
    }
}

/// One full step: fetch, advance the program counter by two, carry out the
/// operation, then tick both timers. A step that faults changes nothing.
pub open spec fn stepped(s: CpuState, rnd: u8) -> Result<CpuState, Fault> {
    match fetched(s) {
        Err(e) => Err(e),
        Ok(w) => match run_op(s.with_pc((s.pc + 2) as u16), decoded(w), rnd) {
            Err(e) => Err(e),
            Ok(t) => Ok(ticked(t)),
        },
    }
}

/// The machine after loading `rom` at `ROM_START`, or `OutOfBounds` where it
/// does not fit.
pub open spec fn loaded(s: CpuState, rom: Seq<u8>) -> Result<CpuState, Fault> {
    if rom.len() > ROM_MAX {
        Err(Fault::OutOfBounds)
    } else {
        Ok(
            CpuState {
                pc: ROM_START as u16,
                memory: Seq::new(
                    MEMORY_SIZE as nat,
                    |a: int|
                        if ROM_START <= a < ROM_START + rom.len() {
                            rom[a - ROM_START]
                        } else {
                            s.memory[a]
                        },
                ),
                ..s
            },
        )
    }
}

/// The sizes that every machine has: sixteen registers, a sixteen-entry
/// stack, the full address space, the whole display and sixteen keys.
pub open spec fn well_formed(s: CpuState) -> bool {
    &&& s.v.len() == 16
    &&& s.stack.len() == STACK_DEPTH
    &&& s.memory.len() == MEMORY_SIZE
    &&& s.screen.len() == PIXELS
    &&& s.keys.len() == 16
}

/// Every machine is well formed.
pub proof fn lemma_cpu_well_formed(c: Cpu)
    ensures
        well_formed(c@),
{
}

/// Adding register `y` to register `x` leaves the sum modulo 256 in `x`
/// and the carry in `VF`: 1 exactly when the sum reaches 256. (With `x`
/// being `VF` itself the carry overwrites the sum.)
pub proof fn lemma_add_registers_wraps(s: CpuState, x: u8, y: u8)
    requires
        well_formed(s),
        x < 15,
        y < 16,
    ensures
        run_op(s, Opcode::Addr(x, y), 0) is Ok,
        run_op(s, Opcode::Addr(x, y), 0)->Ok_0.v[x as int] == (s.v[x as int] + s.v[y as int]) % 256,
        run_op(s, Opcode::Addr(x, y), 0)->Ok_0.v[0xF] == if s.v[x as int] + s.v[y as int] >= 256 {
            1u8
        } else {
            0u8
        },
{
}

/// A step that runs `CALL a`, followed by a step that runs the `RET` at
/// `a`, brings the program counter to the instruction after the call and
/// the stack pointer back to where it was.
pub proof fn lemma_call_then_return(s: CpuState, a: u16, r1: u8, r2: u8)
    requires
        well_formed(s),
        fetched(s) is Ok,
        decoded(fetched(s)->Ok_0) == Opcode::Call(a),
        s.sp < STACK_DEPTH,
        a + 1 < MEMORY_SIZE,
        s.memory[a as int] == 0x00,
        s.memory[a + 1] == 0xEE,
    ensures
        stepped(s, r1) is Ok,
        stepped(stepped(s, r1)->Ok_0, r2) is Ok,
        stepped(stepped(s, r1)->Ok_0, r2)->Ok_0.pc == s.pc + 2,
        stepped(stepped(s, r1)->Ok_0, r2)->Ok_0.sp == s.sp,
{
    let t = stepped(s, r1)->Ok_0;
    assert(fetched(t) == Ok::<u16, Fault>(0x00EE));
    assert(decoded(0x00EE) == Opcode::Ret);
}

/// Each step takes one off each nonzero timer, whatever it runs, except
/// an instruction that sets that timer itself.
pub proof fn lemma_timers_decay(s: CpuState, r: u8)
    requires
        well_formed(s),
        stepped(s, r) is Ok,
        !(decoded(fetched(s)->Ok_0) is DtLd),
        !(decoded(fetched(s)->Ok_0) is StLd),
    ensures
        stepped(s, r)->Ok_0.delay == if s.delay > 0 {
            s.delay - 1
        } else {
            0
        },
        stepped(s, r)->Ok_0.sound == if s.sound > 0 {
            s.sound - 1
        } else {
            0
        },
{
}

/// `after` and the result `r` are what `outcome` says: its state on
/// success, and on a fault the fault with the machine left as `before`.
pub open spec fn performed(
    before: CpuState,
    after: CpuState,
    r: Result<(), Fault>,
    outcome: Result<CpuState, Fault>,
) -> bool {
    match outcome {
        Ok(t) => r is Ok && after == t,
        Err(e) => r == Err::<(), Fault>(e) && after == before,
    }
}

/// Relies on `rand::random::<u8>`, which draws a byte from the thread-local
/// generator; nothing is assumed of the byte.
#[verifier::external_body]
fn random_byte() -> u8 {
    rand::random::<u8>()
}

/// The font table as stored in memory.
fn font() -> (r: [u8; FONT_LEN])
    ensures
        r@ == font_glyphs(),
{
    let r = [
        0xF0u8, 0x90, 0x90, 0x90, 0xF0, // 0
        0x20, 0x60, 0x20, 0x20, 0x70, // 1
        0xF0, 0x10, 0xF0, 0x80, 0xF0, // 2
        0xF0, 0x10, 0xF0, 0x10, 0xF0, // 3
        0x90, 0x90, 0xF0, 0x10, 0x10, // 4
        0xF0, 0x80, 0xF0, 0x10, 0xF0, // 5
        0xF0, 0x80, 0xF0, 0x90, 0xF0, // 6
        0xF0, 0x10, 0x20, 0x40, 0x40, // 7
        0xF0, 0x90, 0xF0, 0x90, 0xF0, // 8
        0xF0, 0x90, 0xF0, 0x10, 0xF0, // 9
        0xF0, 0x90, 0xF0, 0x90, 0x90, // A
        0xE0, 0x90, 0xE0, 0x90, 0xE0, // B
        0xF0, 0x80, 0x80, 0x80, 0xF0, // C
        0xE0, 0x90, 0x90, 0x90, 0xE0, // D
        0xF0, 0x80, 0xF0, 0x80, 0xF0, // E
        0xF0, 0x80, 0xF0, 0x80, 0x80, // F
    ];
    assert(r@ =~= font_glyphs());
    r
}

impl Default for Cpu {
    fn default() -> (r: Cpu)
        ensures
            initial_state(r@),
    {
        Cpu::new()
    }
}

impl Cpu {
    /// A machine with the font loaded and everything else zero. The program
    /// counter is meaningless until a program is loaded.
    pub fn new() -> (r: Cpu)
        ensures
            initial_state(r@),
    {
        let mut memory = [0u8; MEMORY_SIZE];
        let glyphs = font();
        let mut k: usize = 0;
        while k < FONT_LEN
            invariant
                k <= FONT_LEN,
                glyphs@ == font_glyphs(),
                memory@.len() == MEMORY_SIZE,
                forall|a: int|
                    0 <= a < MEMORY_SIZE ==> #[trigger] memory@[a] == if FONT_START <= a < FONT_START + k {
                        font_glyphs()[a - FONT_START]
                    } else {
                        0u8
                    },
            decreases FONT_LEN - k,
        {
            memory[FONT_START + k] = glyphs[k];
            k = k + 1;
        }
        let r = Cpu {
            i: 0,
            pc: 0,
            register: [0u8; 16],
            stack: [0u16; STACK_DEPTH],
            sp: 0,
            memory,
            soundtimer: 0,
            delaytimer: 0,
            screen: Screen::new(),
            keys: [false; 16],
        };
        r
    }

    /// Copies `rom` into memory from `ROM_START` and points the program
    /// counter at it. A program longer than `ROM_MAX` bytes does not fit:
    /// then nothing changes and the result is `OutOfBounds`.
    pub fn load_rom(&mut self, rom: &[u8]) -> (r: Result<(), Fault>)
        ensures
            performed(old(self)@, final(self)@, r, loaded(old(self)@, rom@)),
    {
        if rom.len() > ROM_MAX {
            return Err(Fault::OutOfBounds);
        }
        let ghost s = self@;
        let mut k: usize = 0;
        while k < rom.len()
            invariant
                k <= rom@.len() <= ROM_MAX,
                self@ == (CpuState { memory: self.memory@, ..s }),
                self.memory@.len() == MEMORY_SIZE,
                forall|a: int|
                    0 <= a < MEMORY_SIZE ==> #[trigger] self.memory@[a] == if ROM_START <= a < ROM_START + k {
                        rom@[a - ROM_START]
                    } else {
                        s.memory[a]
                    },
            decreases rom@.len() - k,
        {
            self.memory[ROM_START + k] = rom[k];
            k = k + 1;
        }
        self.pc = ROM_START as u16;
        proof {
            assert(self@ =~= loaded(s, rom@)->Ok_0);
        }
        Ok(())
    }

    /// Carries out one instruction word, as though the program counter had
    /// already been moved past it; the timers do not tick. `Rnd` takes
    /// `random` as its random byte.
    pub fn execute_with(&mut self, opcode: u16, random: u8) -> (r: Result<(), Fault>)
        ensures
            performed(old(self)@, final(self)@, r, run_op(old(self)@, decoded(opcode), random)),
    {
        let op = decode(opcode);
        proof {
            lemma_decoded_in_range(opcode);
        }
        self.execute_op(op, random)
    }

    /// Carries out one instruction word, as `execute_with` does, with a
    /// fresh random byte for `Rnd`.
    pub fn execute(&mut self, opcode: u16) -> (r: Result<(), Fault>)
        ensures
            exists|random: u8|
                performed(old(self)@, final(self)@, r, run_op(old(self)@, decoded(opcode), random)),
    {
        let op = decode(opcode);
        proof {
            lemma_decoded_in_range(opcode);
        }
        let random = if let Opcode::Rnd(_, _) = op {
            random_byte()
        } else {
            0
        };
        let r = self.execute_op(op, random);
        assert(performed(old(self)@, self@, r, run_op(old(self)@, decoded(opcode), random)));
        r
    }

    /// Runs one instruction: fetches the word at the program counter,
    /// advances the counter by two, carries the operation out with `random`
    /// as the byte that `Rnd` draws, then ticks both timers. On a fault the
    /// machine is left as it was.
    pub fn step_with(&mut self, random: u8) -> (r: Result<(), Fault>)
        ensures
            performed(old(self)@, final(self)@, r, stepped(old(self)@, random)),
    {
        let opcode = match self.get_opcode() {
            Ok(w) => w,
            Err(e) => return Err(e),
        };
        let op = decode(opcode);
        proof {
            lemma_decoded_in_range(opcode);
        }
        self.cycle(op, random)
    }

    /// Runs one instruction as `step_with` does, with a fresh random byte
    /// for `Rnd`.
    pub fn step(&mut self) -> (r: Result<(), Fault>)
        ensures
            exists|random: u8| performed(old(self)@, final(self)@, r, stepped(old(self)@, random)),
    {
        let opcode = match self.get_opcode() {
            Ok(w) => w,
            Err(e) => {
                assert(performed(old(self)@, self@, Err(e), stepped(old(self)@, 0)));
                return Err(e);
            },
        };
        let op = decode(opcode);
        proof {
            lemma_decoded_in_range(opcode);
        }
        let random = if let Opcode::Rnd(_, _) = op {
            random_byte()
        } else {
            0
        };
        let r = self.cycle(op, random);
        assert(performed(old(self)@, self@, r, stepped(old(self)@, random)));
        r
    }

    /// The big-endian word at the program counter.
    fn get_opcode(&self) -> (r: Result<u16, Fault>)
        ensures
            r == fetched(self@),
    {
        let pc = self.pc as usize;
        if pc + 1 >= MEMORY_SIZE {
            return Err(Fault::OutOfBounds);
        }
        let hi = self.memory[pc] as u16;
        let lo = self.memory[pc + 1] as u16;
        proof {
            assert((hi << 8u16) | lo == hi * 256 + lo) by (bit_vector)
                requires
                    hi < 256,
                    lo < 256,
            ;
        }
        Ok((hi << 8) | lo)
    }

    /// Advances the program counter past the fetched operation, carries it
    /// out and ticks the timers; on a fault the counter is put back.
    fn cycle(&mut self, op: Opcode, random: u8) -> (r: Result<(), Fault>)
        requires
            operands_in_range(op),
            old(self).pc + 1 < MEMORY_SIZE,
        ensures
            performed(
                old(self)@,
                final(self)@,
                r,
                match run_op(old(self)@.with_pc((old(self).pc + 2) as u16), op, random) {
                    Err(e) => Err(e),
                    Ok(t) => Ok(ticked(t)),
                },
            ),
    {
        self.pc = self.pc + 2;
        match self.execute_op(op, random) {
            Err(e) => {
                self.pc = self.pc - 2;
                Err(e)
            },
            Ok(()) => {
                self.tick();
                Ok(())
            },
        }
    }

    /// Each timer that is nonzero goes down by one.
    fn tick(&mut self)
        ensures
            final(self)@ == ticked(old(self)@),
    {
        if self.delaytimer > 0 {
            self.delaytimer = self.delaytimer - 1;
        }
        if self.soundtimer > 0 {
            self.soundtimer = self.soundtimer - 1;
        }
    }

    /// Carries out one decoded operation.
    fn execute_op(&mut self, op: Opcode, random: u8) -> (r: Result<(), Fault>)
        requires
            operands_in_range(op),
        ensures
            performed(old(self)@, final(self)@, r, run_op(old(self)@, op, random)),
    {
        match op {
            Opcode::Sys => Ok(()),
            Opcode::Cls => {
                self.screen.clear();
                assert(self.screen@ =~= Seq::new(PIXELS as nat, |p: int| false));
                Ok(())
            },
            Opcode::Ret => self.ret(),
            Opcode::Jp(address) => {
                self.jump(address);
                Ok(())
            },
            Opcode::Call(address) => self.call(address),
            Opcode::Se(x, kk) => self.skip_equal(x, kk),
            Opcode::Sne(x, kk) => self.skip_not_equal(x, kk),
            Opcode::Ser(x, y) => self.skip_register_equal(x, y),
            Opcode::Ld(x, kk) => {
                self.load(x, kk);
                Ok(())
            },
            Opcode::Add(x, kk) => {
                self.add(x, kk);
                Ok(())
            },
            Opcode::Ldr(x, y) => {
                self.load_register(x, y);
                Ok(())
            },
            Opcode::Or(x, y) => {
                self.or(x, y);
                Ok(())
            },
            Opcode::And(x, y) => {
                self.and(x, y);
                Ok(())
            },
            Opcode::Xor(x, y) => {
                self.xor(x, y);
                Ok(())
            },
            Opcode::Addr(x, y) => {
                self.addr(x, y);
                Ok(())
            },
            Opcode::Subr(x, y) => {
                self.subr(x, y);
                Ok(())
            },
            Opcode::Shr(x) => {
                self.shr(x);
                Ok(())
            },
            Opcode::Subn(x, y) => {
                self.subn(x, y);
                Ok(())
            },
            Opcode::Shl(x) => {
                self.shl(x);
                Ok(())
            },
            Opcode::Sner(x, y) => self.skip_not_equal_registers(x, y),
            Opcode::Ldi(nnn) => {
                self.load_i(nnn);
                Ok(())
            },
            Opcode::Jpr(nnn) => {
                self.jumpr(nnn);
                Ok(())
            },
            Opcode::Rnd(x, kk) => {
                self.rnd(x, kk, random);
                Ok(())
            },
            Opcode::Drw(x, y, n) => self.draw(x, y, n),
            Opcode::Skp(x) => self.skip_when_key_pressed(x),
            Opcode::Sknp(x) => self.skip_when_key_not_pressed(x),
            Opcode::LdDt(x) => {
                self.load_delay_timer(x);
                Ok(())
            },
            Opcode::LdK(x) => self.wait_for_keypress(x),
            Opcode::DtLd(x) => {
                self.set_delay_timer(x);
                Ok(())
            },
            Opcode::StLd(x) => {
                self.set_sound_timer(x);
                Ok(())
            },
            Opcode::AddI(x) => {
                self.addi(x);
                Ok(())
            },
            Opcode::LdF(x) => {
                self.ldf(x);
                Ok(())
            },
            Opcode::LdB(x) => self.ldb(x),
            Opcode::LdIR(x) => self.ldir(x),
            Opcode::LdRI(x) => self.ldri(x),
        }
    }

    fn ret(&mut self) -> (r: Result<(), Fault>)
        ensures
            performed(old(self)@, final(self)@, r, run_op(old(self)@, Opcode::Ret, 0)),
    {
        if self.sp == 0 {
            return Err(Fault::StackUnderflow);
        }
        if self.sp as usize > STACK_DEPTH {
            return Err(Fault::StackOverflow);
        }
        self.sp = self.sp - 1;
        self.pc = self.stack[self.sp as usize];
        Ok(())
    }

    fn jump(&mut self, address: u16)
        ensures
            run_op(old(self)@, Opcode::Jp(address), 0) == Ok::<CpuState, Fault>(final(self)@),
    {
        self.pc = address;
    }

    fn call(&mut self, address: u16) -> (r: Result<(), Fault>)
        ensures
            performed(old(self)@, final(self)@, r, run_op(old(self)@, Opcode::Call(address), 0)),
    {
        if self.sp as usize >= STACK_DEPTH {
            return Err(Fault::StackOverflow);
        }
        self.stack[self.sp as usize] = self.pc;
        self.sp = self.sp + 1;
        self.pc = address;
        Ok(())
    }

    /// Skips the next instruction when `cond` holds.
    fn skip_if(&mut self, cond: bool) -> (r: Result<(), Fault>)
        ensures
            performed(old(self)@, final(self)@, r, old(self)@.skip_if(cond)),
    {
        if cond {
            if self.pc > 0xFFFD {
                return Err(Fault::OutOfBounds);
            }
            self.pc = self.pc + 2;
        }
        Ok(())
    }

    fn skip_equal(&mut self, x: u8, kk: u8) -> (r: Result<(), Fault>)
        requires
            x < 16,
        ensures
            performed(old(self)@, final(self)@, r, run_op(old(self)@, Opcode::Se(x, kk), 0)),
    {
        let cond = self.register[x as usize] == kk;
        self.skip_if(cond)
    }

    fn skip_not_equal(&mut self, x: u8, kk: u8) -> (r: Result<(), Fault>)
        requires
            x < 16,
        ensures
            performed(old(self)@, final(self)@, r, run_op(old(self)@, Opcode::Sne(x, kk), 0)),
    {
        let cond = self.register[x as usize] != kk;
        self.skip_if(cond)
    }

    fn skip_register_equal(&mut self, x: u8, y: u8) -> (r: Result<(), Fault>)
        requires
            x < 16,
            y < 16,
        ensures
            performed(old(self)@, final(self)@, r, run_op(old(self)@, Opcode::Ser(x, y), 0)),
    {
        let cond = self.register[x as usize] == self.register[y as usize];
        self.skip_if(cond)
    }

    fn skip_not_equal_registers(&mut self, x: u8, y: u8) -> (r: Result<(), Fault>)
        requires
            x < 16,
            y < 16,
        ensures
            performed(old(self)@, final(self)@, r, run_op(old(self)@, Opcode::Sner(x, y), 0)),
    {
        let cond = self.register[x as usize] != self.register[y as usize];
        self.skip_if(cond)
    }

    fn load(&mut self, x: u8, kk: u8)
        requires
            x < 16,
        ensures
            run_op(old(self)@, Opcode::Ld(x, kk), 0) == Ok::<CpuState, Fault>(final(self)@),
    {
        self.register[x as usize] = kk;
    }

    fn add(&mut self, x: u8, kk: u8)
        requires
            x < 16,
        ensures
            run_op(old(self)@, Opcode::Add(x, kk), 0) == Ok::<CpuState, Fault>(final(self)@),
    {
        self.register[x as usize] = self.register[x as usize].wrapping_add(kk);
    }

    fn load_register(&mut self, x: u8, y: u8)
        requires
            x < 16,
            y < 16,
        ensures
            run_op(old(self)@, Opcode::Ldr(x, y), 0) == Ok::<CpuState, Fault>(final(self)@),
    {
        self.register[x as usize] = self.register[y as usize];
    }

    fn or(&mut self, x: u8, y: u8)
        requires
            x < 16,
            y < 16,
        ensures
            run_op(old(self)@, Opcode::Or(x, y), 0) == Ok::<CpuState, Fault>(final(self)@),
    {
        self.register[x as usize] = self.register[x as usize] | self.register[y as usize];
    }

    fn and(&mut self, x: u8, y: u8)
        requires
            x < 16,
            y < 16,
        ensures
            run_op(old(self)@, Opcode::And(x, y), 0) == Ok::<CpuState, Fault>(final(self)@),
    {
        self.register[x as usize] = self.register[x as usize] & self.register[y as usize];
    }

    fn xor(&mut self, x: u8, y: u8)
        requires
            x < 16,
            y < 16,
        ensures
            run_op(old(self)@, Opcode::Xor(x, y), 0) == Ok::<CpuState, Fault>(final(self)@),
    {
        self.register[x as usize] = self.register[x as usize] ^ self.register[y as usize];
    }

    fn addr(&mut self, x: u8, y: u8)
        requires
            x < 16,
            y < 16,
        ensures
            run_op(old(self)@, Opcode::Addr(x, y), 0) == Ok::<CpuState, Fault>(final(self)@),
    {
        let a = self.register[x as usize];
        let b = self.register[y as usize];
        self.register[x as usize] = a.wrapping_add(b);
        self.register[0xF] = if a as u16 + b as u16 >= 256 { 1 } else { 0 };
    }

    fn subr(&mut self, x: u8, y: u8)
        requires
            x < 16,
            y < 16,
        ensures
            run_op(old(self)@, Opcode::Subr(x, y), 0) == Ok::<CpuState, Fault>(final(self)@),
    {
        let a = self.register[x as usize];
        let b = self.register[y as usize];
        self.register[x as usize] = a.wrapping_sub(b);
        self.register[0xF] = if a >= b { 1 } else { 0 };
    }

    fn shr(&mut self, x: u8)
        requires
            x < 16,
        ensures
            run_op(old(self)@, Opcode::Shr(x), 0) == Ok::<CpuState, Fault>(final(self)@),
    {
        self.register[0xF] = self.register[x as usize] & 1;
        let t = self.register[x as usize];
        proof {
            assert(t >> 1u8 == t / 2) by (bit_vector);
        }
        self.register[x as usize] = t >> 1;
    }

    fn subn(&mut self, x: u8, y: u8)
        requires
            x < 16,
            y < 16,
        ensures
            run_op(old(self)@, Opcode::Subn(x, y), 0) == Ok::<CpuState, Fault>(final(self)@),
    {
        if self.register[x as usize] > self.register[y as usize] {
            self.register[0xF] = 1;
        }
        self.register[x as usize] = self.register[y as usize].wrapping_sub(self.register[x as usize]);
    }

    fn shl(&mut self, x: u8)
        requires
            x < 16,
        ensures
            run_op(old(self)@, Opcode::Shl(x), 0) == Ok::<CpuState, Fault>(final(self)@),
    {
        let a = self.register[x as usize];
        proof {
            assert(a >> 7u8 == a / 128) by (bit_vector);
        }
        self.register[0xF] = a >> 7;
        let t = self.register[x as usize];
        proof {
            assert(t << 1u8 == (t * 2) % 256) by (bit_vector);
        }
        self.register[x as usize] = t << 1;
    }

    fn load_i(&mut self, nnn: u16)
        ensures
            run_op(old(self)@, Opcode::Ldi(nnn), 0) == Ok::<CpuState, Fault>(final(self)@),
    {
        self.i = nnn;
    }

    fn jumpr(&mut self, nnn: u16)
        requires
            nnn < 0x1000,
        ensures
            run_op(old(self)@, Opcode::Jpr(nnn), 0) == Ok::<CpuState, Fault>(final(self)@),
    {
        self.pc = nnn + self.register[0] as u16;
    }

    fn rnd(&mut self, x: u8, kk: u8, random: u8)
        requires
            x < 16,
        ensures
            run_op(old(self)@, Opcode::Rnd(x, kk), random) == Ok::<CpuState, Fault>(final(self)@),
    {
        self.register[x as usize] = kk & random;
    }

    fn draw(&mut self, x: u8, y: u8, n: u8) -> (r: Result<(), Fault>)
        requires
            x < 16,
            y < 16,
            n < 16,
        ensures
            performed(old(self)@, final(self)@, r, run_op(old(self)@, Opcode::Drw(x, y, n), 0)),
    {
        let start = self.i as usize;
        if start + n as usize > MEMORY_SIZE {
            return Err(Fault::OutOfBounds);
        }
        let px = self.register[x as usize];
        let py = self.register[y as usize];
        let mut sprite: Vec<u8> = Vec::new();
        let mut k: usize = 0;
        while k < n as usize
            invariant
                k <= n,
                start + n <= MEMORY_SIZE,
                start == self.i,
                sprite@ == self.memory@.subrange(start as int, start + k),
            decreases n - k,
        {
            sprite.push(self.memory[start + k]);
            k = k + 1;
            proof {
                assert(sprite@ =~= self.memory@.subrange(start as int, start + k));
            }
        }
        let hit = self.screen.draw_sprite(px as usize, py as usize, sprite.as_slice());
        self.register[0xF] = if hit { 1 } else { 0 };
        proof {
            assert(self@ =~= run_op(old(self)@, Opcode::Drw(x, y, n), 0)->Ok_0);
        }
        Ok(())
    }

    fn skip_when_key_pressed(&mut self, x: u8) -> (r: Result<(), Fault>)
        requires
            x < 16,
        ensures
            performed(old(self)@, final(self)@, r, run_op(old(self)@, Opcode::Skp(x), 0)),
    {
        let key = self.register[x as usize];
        let down = key < 16 && self.keys[key as usize];
        self.skip_if(down)
    }

    fn skip_when_key_not_pressed(&mut self, x: u8) -> (r: Result<(), Fault>)
        requires
            x < 16,
        ensures
            performed(old(self)@, final(self)@, r, run_op(old(self)@, Opcode::Sknp(x), 0)),
    {
        let key = self.register[x as usize];
        let down = key < 16 && self.keys[key as usize];
        self.skip_if(!down)
    }

    fn load_delay_timer(&mut self, x: u8)
        requires
            x < 16,
        ensures
            run_op(old(self)@, Opcode::LdDt(x), 0) == Ok::<CpuState, Fault>(final(self)@),
    {
        self.register[x as usize] = self.delaytimer;
    }

    /// Stores the lowest key that is down in `Vx`; while none is, winds the
    /// program counter back so that the next step runs this instruction again.
    fn wait_for_keypress(&mut self, x: u8) -> (r: Result<(), Fault>)
        requires
            x < 16,
        ensures
            performed(old(self)@, final(self)@, r, run_op(old(self)@, Opcode::LdK(x), 0)),
    {
        let mut k: u8 = 0;
        while k < 16
            invariant
                k <= 16,
                x < 16,
                self@ == old(self)@,
                lowest_key_from(self.keys@, 0) == lowest_key_from(self.keys@, k as int),
            decreases 16 - k,
        {
            if self.keys[k as usize] {
                self.register[x as usize] = k;
                return Ok(());
            }
            k = k + 1;
        }
        if self.pc < 2 {
            return Err(Fault::OutOfBounds);
        }
        self.pc = self.pc - 2;
        Ok(())
    }

    fn set_delay_timer(&mut self, x: u8)
        requires
            x < 16,
        ensures
            run_op(old(self)@, Opcode::DtLd(x), 0) == Ok::<CpuState, Fault>(final(self)@),
    {
        self.delaytimer = self.register[x as usize];
    }

    fn set_sound_timer(&mut self, x: u8)
        requires
            x < 16,
        ensures
            run_op(old(self)@, Opcode::StLd(x), 0) == Ok::<CpuState, Fault>(final(self)@),
    {
        self.soundtimer = self.register[x as usize];
    }

    fn addi(&mut self, x: u8)
        requires
            x < 16,
        ensures
            run_op(old(self)@, Opcode::AddI(x), 0) == Ok::<CpuState, Fault>(final(self)@),
    {
        self.i = self.i.wrapping_add(self.register[x as usize] as u16);
    }

    fn ldf(&mut self, x: u8)
        requires
            x < 16,
        ensures
            run_op(old(self)@, Opcode::LdF(x), 0) == Ok::<CpuState, Fault>(final(self)@),
    {
        self.i = self.register[x as usize] as u16 * 5;
    }

    fn ldb(&mut self, x: u8) -> (r: Result<(), Fault>)
        requires
            x < 16,
        ensures
            performed(old(self)@, final(self)@, r, run_op(old(self)@, Opcode::LdB(x), 0)),
    {
        let at = self.i as usize;
        if at + 3 > MEMORY_SIZE {
            return Err(Fault::OutOfBounds);
        }
        let a = self.register[x as usize];
        self.memory[at] = a / 100;
        self.memory[at + 1] = (a / 10) % 10;
        self.memory[at + 2] = a % 10;
        Ok(())
    }

    fn ldir(&mut self, x: u8) -> (r: Result<(), Fault>)
        requires
            x < 16,
        ensures
            performed(old(self)@, final(self)@, r, run_op(old(self)@, Opcode::LdIR(x), 0)),
    {
        let at = self.i as usize;
        if at + x as usize + 1 > MEMORY_SIZE {
            return Err(Fault::OutOfBounds);
        }
        let ghost s = self@;
        let mut k: usize = 0;
        while k <= x as usize
            invariant
                x < 16,
                k <= x + 1,
                at + x + 1 <= MEMORY_SIZE,
                at == s.i,
                self@ == (CpuState { memory: self.memory@, ..s }),
                self.memory@.len() == MEMORY_SIZE,
                forall|a: int|
                    0 <= a < MEMORY_SIZE ==> #[trigger] self.memory@[a] == if at <= a < at + k {
                        s.v[a - at]
                    } else {
                        s.memory[a]
                    },
            decreases x + 1 - k,
        {
            self.memory[at + k] = self.register[k];
            k = k + 1;
        }
        proof {
            assert(self@ =~= run_op(s, Opcode::LdIR(x), 0)->Ok_0);
        }
        Ok(())
    }

    fn ldri(&mut self, x: u8) -> (r: Result<(), Fault>)
        requires
            x < 16,
        ensures
            performed(old(self)@, final(self)@, r, run_op(old(self)@, Opcode::LdRI(x), 0)),
    {
        let at = self.i as usize;
        if at + x as usize + 1 > MEMORY_SIZE {
            return Err(Fault::OutOfBounds);
        }
        let ghost s = self@;
        let mut k: usize = 0;
        while k <= x as usize
            invariant
                x < 16,
                k <= x + 1,
                at + x + 1 <= MEMORY_SIZE,
                at == s.i,
                self@ == (CpuState { v: self.register@, ..s }),
                self.register@.len() == 16,
                forall|j: int|
                    0 <= j < 16 ==> #[trigger] self.register@[j] == if j < k {
                        s.memory[at + j]
                    } else {
                        s.v[j]
                    },
            decreases x + 1 - k,
        {
            self.register[k] = self.memory[at + k];
            k = k + 1;
        }
        proof {
            assert(self@ =~= run_op(s, Opcode::LdRI(x), 0)->Ok_0);
        }
        Ok(())
    }
}

} // verus!
