use vstd::prelude::*;
use crate::display::{blank, blit, collides, Display};
use crate::error::ProcessorError;

verus! {

/// Bytes of addressable memory.
pub const MEMORY_SIZE: usize = 4096;

/// Address at which a program image is loaded and execution starts.
pub const PROGRAM_START: usize = 0x200;

/// Return slots of the call stack.
pub const STACK_DEPTH: usize = 16;

/// Index of the flag register `VF`.
pub const FLAG: usize = 0xF;

/// The high nibble of an instruction word: the opcode family.
pub open spec fn family(w: u16) -> int {
    w as int / 0x1000
}

/// The second nibble of an instruction word, most often a register index.
pub open spec fn reg_x(w: u16) -> int {
    (w as int / 0x100) % 16
}

/// The third nibble of an instruction word, most often a register index.
pub open spec fn reg_y(w: u16) -> int {
    (w as int / 0x10) % 16
}

/// The low nibble of an instruction word.
pub open spec fn low_nibble(w: u16) -> int {
    w as int % 16
}

/// The low twelve bits of an instruction word: an address.
pub open spec fn operand(w: u16) -> int {
    w as int % 0x1000
}

/// The low byte of an instruction word.
pub open spec fn immediate(w: u16) -> int {
    w as int % 0x100
}

/// Whether each of the four parts of a split instruction is a nibble.
pub open spec fn is_split(op: [u8; 4]) -> bool {
    op[0] < 16 && op[1] < 16 && op[2] < 16 && op[3] < 16
}

/// The instruction word that four nibbles spell, most significant first.
pub open spec fn word_of(op: [u8; 4]) -> u16 {
    (op[0] as int * 0x1000 + op[1] as int * 0x100 + op[2] as int * 0x10 + op[3] as int) as u16
}

proof fn lemma_word_fields(op: [u8; 4])
    requires
        is_split(op),
    ensures
        word_of(op) as int == op[0] as int * 0x1000 + op[1] as int * 0x100 + op[2] as int * 0x10
            + op[3] as int,
        family(word_of(op)) == op[0],
        reg_x(word_of(op)) == op[1],
        reg_y(word_of(op)) == op[2],
        low_nibble(word_of(op)) == op[3],
        operand(word_of(op)) == op[1] as int * 0x100 + op[2] as int * 0x10 + op[3] as int,
        immediate(word_of(op)) == op[2] as int * 0x10 + op[3] as int,
{
    let a = op[0] as int;
    let b = op[1] as int;
    let c = op[2] as int;
    let d = op[3] as int;
    let w = a * 0x1000 + b * 0x100 + c * 0x10 + d;
    assert(0 <= w < 0x10000);
    assert(w / 0x1000 == a);
    assert(w / 0x100 == a * 16 + b);
    assert((a * 16 + b) % 16 == b);
    assert(w / 0x10 == a * 256 + b * 16 + c);
    assert((a * 256 + b * 16 + c) % 16 == c);
    assert(w % 16 == d);
    assert(w % 0x1000 == b * 0x100 + c * 0x10 + d);
    assert(w % 0x100 == c * 0x10 + d);
}

proof fn lemma_split_word(w: u16)
    ensures
        family(w) < 16,
        w as int == family(w) * 0x1000 + reg_x(w) * 0x100 + reg_y(w) * 0x10 + low_nibble(w),
{
    let n = w as int;
    assert(n == (n / 0x1000) * 0x1000 + ((n / 0x100) % 16) * 0x100 + ((n / 0x10) % 16) * 0x10 + n % 16);
}

/// A CHIP-8 machine: memory, registers, call stack, key states and display.
pub struct Processor {
    /// Address of the next instruction.
    pub pc: usize,
    /// The index register.
    pub i: u16,
    pub memory: [u8; 4096],
    /// The general registers `V0` to `VF`; `VF` doubles as the flag register.
    pub v: [u8; 16],
    /// Number of return addresses on the call stack.
    pub sp: usize,
    pub stack: [usize; 16],
    /// Which of the sixteen keys are held down.
    pub keys: [bool; 16],
    pub display: Display,
}

/// The word stored big-endian at the program counter.
pub open spec fn fetched(p: Processor) -> u16 {
    (p.memory[p.pc as int] as int * 0x100 + p.memory[p.pc as int + 1] as int) as u16
}

/// Registers, memory, key states and display are as before.
pub open spec fn keeps_data(pre: Processor, post: Processor) -> bool {
    &&& post.i == pre.i
    &&& post.memory@ == pre.memory@
    &&& post.v@ == pre.v@
    &&& post.keys@ == pre.keys@
    &&& post.display == pre.display
}

/// Only the program counter and the call stack changed, to the values given.
pub open spec fn with_control(pre: Processor, post: Processor, pc: int, sp: int, stack: Seq<usize>) -> bool {
    &&& keeps_data(pre, post)
    &&& post.pc == pc
    &&& post.sp == sp
    &&& post.stack@ == stack
}

/// Only the registers changed, to the values given.
pub open spec fn with_registers(pre: Processor, post: Processor, regs: Seq<u8>) -> bool {
    &&& post.pc == pre.pc
    &&& post.sp == pre.sp
    &&& post.stack@ == pre.stack@
    &&& post.i == pre.i
    &&& post.memory@ == pre.memory@
    &&& post.keys@ == pre.keys@
    &&& post.display == pre.display
    &&& post.v@ == regs
}

/// The instruction is refused as unimplemented and nothing changes.
pub open spec fn refused(pre: Processor, post: Processor, w: u16, r: Result<usize, ProcessorError>) -> bool {
    r == Err::<usize, ProcessorError>(ProcessorError::UnimplementedOpcode { opcode: w }) && post == pre
}

/// Effect of a family-0x0 instruction: clear the display, or return from a
/// subroutine (nothing happens when the stack is empty).
pub open spec fn misc_post(pre: Processor, post: Processor, w: u16, r: Result<usize, ProcessorError>) -> bool {
    if w == 0x00E0 {
        &&& r == Ok::<usize, ProcessorError>(2)
        &&& post.display.wf()
        &&& post.display.frame() == blank()
        &&& post.display.dirty()
        &&& post.pc == pre.pc
        &&& post.sp == pre.sp
        &&& post.stack@ == pre.stack@
        &&& post.i == pre.i
        &&& post.memory@ == pre.memory@
        &&& post.v@ == pre.v@
        &&& post.keys@ == pre.keys@
    } else if w == 0x00EE {
        &&& r == Ok::<usize, ProcessorError>(2)
        &&& if pre.sp > 0 {
            with_control(pre, post, pre.stack[pre.sp - 1] as int, pre.sp - 1, pre.stack@)
        } else {
            with_control(pre, post, pre.pc as int, pre.sp as int, pre.stack@)
        }
    } else {
        refused(pre, post, w, r)
    }
}

/// Effect of a jump (0x1), a call (0x2) or a jump with offset (0xB). Each
/// sets the program counter itself and so asks for no advance.
pub open spec fn control_post(pre: Processor, post: Processor, w: u16, r: Result<usize, ProcessorError>) -> bool {
    if family(w) == 0x1 {
        r == Ok::<usize, ProcessorError>(0) && with_control(pre, post, operand(w), pre.sp as int, pre.stack@)
    } else if family(w) == 0x2 {
        if pre.sp < STACK_DEPTH {
            &&& r == Ok::<usize, ProcessorError>(0)
            &&& with_control(pre, post, operand(w), pre.sp + 1, pre.stack@.update(pre.sp as int, pre.pc))
        } else {
            r == Err::<usize, ProcessorError>(ProcessorError::StackOverflow { opcode: w }) && post == pre
        }
    } else if family(w) == 0xB {
        &&& r == Ok::<usize, ProcessorError>(0)
        &&& with_control(pre, post, pre.v[0] as int + operand(w), pre.sp as int, pre.stack@)
    } else {
        refused(pre, post, w, r)
    }
}

/// Addition that clamps at 255.
pub open spec fn saturating_add(a: u8, b: int) -> u8 {
    if a as int + b > 255 {
        255
    } else {
        (a as int + b) as u8
    }
}

/// Effect of a load-immediate (0x6) or a saturating add-immediate (0x7).
pub open spec fn const_post(pre: Processor, post: Processor, w: u16, r: Result<usize, ProcessorError>) -> bool {
    let x = reg_x(w);
    let n = immediate(w);
    if family(w) == 0x6 {
        r == Ok::<usize, ProcessorError>(2) && with_registers(pre, post, pre.v@.update(x, n as u8))
    } else if family(w) == 0x7 {
        &&& r == Ok::<usize, ProcessorError>(2)
        &&& with_registers(pre, post, pre.v@.update(x, saturating_add(pre.v[x], n)))
    } else {
        refused(pre, post, w, r)
    }
}

/// The register-to-register operations, by the low nibble of the instruction.
pub open spec fn alu_supported(kind: int) -> bool {
    0 <= kind <= 7 || kind == 0xE
}

/// 0 or 1 as a register value.
pub open spec fn flag(b: bool) -> u8 {
    if b {
        1
    } else {
        0
    }
}

/// The registers after the register-to-register operation `kind` on `V[x]`
/// and `V[y]`. The writes happen in the order given, so a write to `VF` is
/// overwritten when `x` (or `y`) is `0xF` and the register is written later.
pub open spec fn alu(regs: Seq<u8>, x: int, y: int, kind: int) -> Seq<u8> {
    let vx = regs[x];
    let vy = regs[y];
    if kind == 0x0 {
        regs.update(x, vy)
    } else if kind == 0x1 {
        regs.update(x, vx | vy)
    } else if kind == 0x2 {
        regs.update(x, vx & vy)
    } else if kind == 0x3 {
        regs.update(x, vx ^ vy)
    } else if kind == 0x4 {
        regs.update(x, ((vx + vy) % 256) as u8).update(0xF, flag(vx + vy > 255))
    } else if kind == 0x5 {
        regs.update(x, ((vx - vy) % 256) as u8).update(0xF, flag(vx < vy))
    } else if kind == 0x6 {
        let t = regs.update(0xF, vy & 1u8);
        t.update(x, t[y] >> 1u8)
    } else if kind == 0x7 {
        regs.update(x, ((vy - vx) % 256) as u8).update(0xF, flag(vy < vx))
    } else {
        let t = regs.update(0xF, vy & 0xF0u8);
        let t2 = t.update(y, t[y] << 1u8);
        t2.update(x, t2[y])
    }
}

/// Effect of a register-to-register instruction (family 0x8).
pub open spec fn math_post(pre: Processor, post: Processor, w: u16, r: Result<usize, ProcessorError>) -> bool {
    if family(w) == 0x8 && alu_supported(low_nibble(w)) {
        &&& r == Ok::<usize, ProcessorError>(2)
        &&& with_registers(pre, post, alu(pre.v@, reg_x(w), reg_y(w), low_nibble(w)))
    } else {
        refused(pre, post, w, r)
    }
}

/// The `n` bytes of memory from address `start` on, wrapping past the end.
pub open spec fn sprite_at(memory: Seq<u8>, start: int, n: int) -> Seq<u8> {
    Seq::new(n as nat, |k: int| memory[(start + k) % 4096])
}

/// Effect of a draw (0xD): the sprite of `n` rows at address `I` is XOR-ed
/// onto the display at column `x`, row `y` (the nibbles themselves), and
/// `VF` tells whether a cell was turned off.
pub open spec fn display_post(pre: Processor, post: Processor, w: u16, r: Result<usize, ProcessorError>) -> bool {
    let sprite = sprite_at(pre.memory@, pre.i as int, low_nibble(w));
    let frame = pre.display.frame();
    if family(w) == 0xD {
        &&& r == Ok::<usize, ProcessorError>(2)
        &&& post.display.wf()
        &&& post.display.frame() == blit(frame, sprite, reg_x(w), reg_y(w))
        &&& post.display.dirty()
        &&& post.v@ == pre.v@.update(0xF, flag(collides(frame, sprite, reg_x(w), reg_y(w))))
        &&& post.pc == pre.pc
        &&& post.sp == pre.sp
        &&& post.stack@ == pre.stack@
        &&& post.i == pre.i
        &&& post.memory@ == pre.memory@
        &&& post.keys@ == pre.keys@
    } else {
        refused(pre, post, w, r)
    }
}

/// Effect of executing the instruction word `w`, by its family; any family
/// not listed is refused.
pub open spec fn cycle_post(pre: Processor, post: Processor, w: u16, r: Result<usize, ProcessorError>) -> bool {
    let f = family(w);
    if f == 0x0 {
        misc_post(pre, post, w, r)
    } else if f == 0x1 || f == 0x2 || f == 0xB {
        control_post(pre, post, w, r)
    } else if f == 0x6 || f == 0x7 {
        const_post(pre, post, w, r)
    } else if f == 0x8 {
        math_post(pre, post, w, r)
    } else if f == 0xD {
        display_post(pre, post, w, r)
    } else {
        refused(pre, post, w, r)
    }
}

/// `post` is `mid` with the program counter moved on by `step`.
pub open spec fn advanced(mid: Processor, post: Processor, step: usize) -> bool {
    with_control(mid, post, mid.pc + step, mid.sp as int, mid.stack@)
}

impl Default for Processor {
    /// A machine with zeroed memory, registers and stack, a dark display, no
    /// key held, and the program counter at the program start.
    fn default() -> (r: Processor)
        ensures
            r.wf(),
            r.pc == PROGRAM_START,
            r.i == 0,
            r.sp == 0,
            forall|a: int| 0 <= a < MEMORY_SIZE ==> #[trigger] r.memory[a] == 0,
            forall|k: int| 0 <= k < 16 ==> #[trigger] r.v[k] == 0,
            forall|k: int| 0 <= k < 16 ==> #[trigger] r.stack[k] == 0,
            forall|k: int| 0 <= k < 16 ==> !#[trigger] r.keys[k],
            r.display.frame() == blank(),
            !r.display.dirty(),
    {
        Processor {
            pc: PROGRAM_START,
            i: 0,
            memory: [0u8; 4096],
            v: [0u8; 16],
            sp: 0,
            stack: [0usize; 16],
            keys: [false; 16],
            display: Display::default(),
        }
    }
}

/// Load-immediate `6xnn` sets `V[x]` to `nn` whatever it held, and no other
/// register.
pub proof fn law_load_immediate(pre: Processor, post: Processor, x: u8, n: u8, r: Result<usize, ProcessorError>)
    requires
        x < 16,
        const_post(pre, post, (0x6000 + x * 0x100 + n) as u16, r),
    ensures
        r == Ok::<usize, ProcessorError>(2),
        post.v@ == pre.v@.update(x as int, n),
{
    lemma_word_fields([6u8, x, n / 16, n % 16]);
}

/// Add-immediate `7xnn` sets `V[x]` to `V[x] + nn` clamped at 255, and leaves
/// `VF` alone unless `VF` is itself the target.
pub proof fn law_add_immediate(pre: Processor, post: Processor, x: u8, n: u8, r: Result<usize, ProcessorError>)
    requires
        x < 16,
        const_post(pre, post, (0x7000 + x * 0x100 + n) as u16, r),
    ensures
        r == Ok::<usize, ProcessorError>(2),
        post.v[x as int] == if pre.v[x as int] + n > 255 {
            255
        } else {
            pre.v[x as int] + n
        },
        x != 0xF ==> post.v[0xF] == pre.v[0xF],
{
    lemma_word_fields([7u8, x, n / 16, n % 16]);
}

/// Register add `8xy4` (with `x` other than `F`) stores the sum modulo 256 in
/// `V[x]` and sets `VF` to 1 exactly when the sum exceeds 255, else to 0.
pub proof fn law_add_registers(pre: Processor, post: Processor, x: u8, y: u8, r: Result<usize, ProcessorError>)
    requires
        x < 0xF,
        y < 16,
        math_post(pre, post, (0x8004 + x * 0x100 + y * 0x10) as u16, r),
    ensures
        r == Ok::<usize, ProcessorError>(2),
        post.v[x as int] == (pre.v[x as int] + pre.v[y as int]) % 256,
        post.v[0xF] == 1 <==> pre.v[x as int] + pre.v[y as int] > 255,
        post.v[0xF] == 0 || post.v[0xF] == 1,
{
    lemma_word_fields([8u8, x, y, 4u8]);
}

/// Register subtract `8xy5` (with `x` other than `F`) stores `V[x] - V[y]`
/// modulo 256 in `V[x]` and sets `VF` to 1 exactly when it borrows, else to 0.
pub proof fn law_sub_registers(pre: Processor, post: Processor, x: u8, y: u8, r: Result<usize, ProcessorError>)
    requires
        x < 0xF,
        y < 16,
        math_post(pre, post, (0x8005 + x * 0x100 + y * 0x10) as u16, r),
    ensures
        r == Ok::<usize, ProcessorError>(2),
        post.v[x as int] == (pre.v[x as int] - pre.v[y as int]) % 256,
        post.v[0xF] == 1 <==> pre.v[x as int] < pre.v[y as int],
        post.v[0xF] == 0 || post.v[0xF] == 1,
{
    lemma_word_fields([8u8, x, y, 5u8]);
}

/// A call `2nnn` followed by a return `00EE` brings back the program counter
/// of the call and the stack pointer from before it; the return then asks for
/// the usual advance, so execution resumes at the instruction after the call.
pub proof fn law_call_then_return(
    pre: Processor,
    mid: Processor,
    post: Processor,
    target: u16,
    r1: Result<usize, ProcessorError>,
    r2: Result<usize, ProcessorError>,
)
    requires
        pre.wf(),
        pre.sp < STACK_DEPTH,
        target < 0x1000,
        control_post(pre, mid, (0x2000 + target) as u16, r1),
        misc_post(mid, post, 0x00EE, r2),
    ensures
        r1 == Ok::<usize, ProcessorError>(0),
        r2 == Ok::<usize, ProcessorError>(2),
        post.pc == pre.pc,
        post.sp == pre.sp,
{
    lemma_word_fields([2u8, (target / 0x100) as u8, ((target / 0x10) % 16) as u8, (target % 16) as u8]);
}

/// A jump with offset `Bnnn` sets the program counter to `V0 + nnn` exactly,
/// also where the sum passes 0xFFF: nothing wraps, and a driver stops once the
/// counter leaves memory.
pub proof fn law_jump_with_offset(pre: Processor, post: Processor, target: u16, r: Result<usize, ProcessorError>)
    requires
        target < 0x1000,
        control_post(pre, post, (0xB000 + target) as u16, r),
    ensures
        r == Ok::<usize, ProcessorError>(0),
        post.pc == pre.v[0] + target,
{
    lemma_word_fields([0xBu8, (target / 0x100) as u8, ((target / 0x10) % 16) as u8, (target % 16) as u8]);
}

/// A return `00EE` on an empty stack changes nothing and is no error.
pub proof fn law_return_on_empty_stack(pre: Processor, post: Processor, r: Result<usize, ProcessorError>)
    requires
        pre.sp == 0,
        misc_post(pre, post, 0x00EE, r),
    ensures
        r == Ok::<usize, ProcessorError>(2),
        post.pc == pre.pc,
        post.sp == pre.sp,
        post.stack@ == pre.stack@,
{
}

/// An instruction whose family is not implemented is refused with the word
/// that its four nibbles spell, and the machine is left as it was.
pub proof fn law_unsupported_refused(pre: Processor, post: Processor, op: [u8; 4], r: Result<usize, ProcessorError>)
    requires
        is_split(op),
        op[0] != 0x0 && op[0] != 0x1 && op[0] != 0x2 && op[0] != 0x6 && op[0] != 0x7 && op[0] != 0x8
            && op[0] != 0xB && op[0] != 0xD,
        cycle_post(pre, post, word_of(op), r),
    ensures
        r == Err::<usize, ProcessorError>(
            ProcessorError::UnimplementedOpcode {
                opcode: (op[0] * 0x1000 + op[1] * 0x100 + op[2] * 0x10 + op[3]) as u16,
            },
        ),
        post == pre,
{
    lemma_word_fields(op);
}

impl Processor {
    /// The stack pointer is within the stack, every stored return address
    /// lies in memory, and the framebuffer has all its cells.
    pub open spec fn wf(&self) -> bool {
        &&& self.sp <= STACK_DEPTH
        &&& forall|k: int| 0 <= k < self.sp ==> #[trigger] self.stack[k] < MEMORY_SIZE
        &&& self.display.wf()
    }

    /// Copies a program image into memory from the program start on, as much
    /// of it as fits, and returns how many bytes were copied.
    pub fn load_rom(&mut self, rom: &[u8]) -> (count: usize)
        requires
            old(self).wf(),
        ensures
            final(self).wf(),
            count == if rom@.len() < MEMORY_SIZE - PROGRAM_START {
                rom@.len() as int
            } else {
                MEMORY_SIZE - PROGRAM_START
            },
            final(self).memory@ == old(self).memory@.subrange(0, PROGRAM_START as int) + rom@.subrange(
                0,
                count as int,
            ) + old(self).memory@.subrange(PROGRAM_START + count, MEMORY_SIZE as int),
            final(self).pc == old(self).pc,
            final(self).sp == old(self).sp,
            final(self).stack@ == old(self).stack@,
            final(self).i == old(self).i,
            final(self).v@ == old(self).v@,
            final(self).keys@ == old(self).keys@,
            final(self).display == old(self).display,
    {
        let count: usize = if rom.len() < MEMORY_SIZE - PROGRAM_START {
            rom.len()
        } else {
            MEMORY_SIZE - PROGRAM_START
        };
        let mut k: usize = 0;
        while k < count
            invariant
                count <= rom@.len(),
                count <= MEMORY_SIZE - PROGRAM_START,
                k <= count,
                self.pc == old(self).pc,
                self.sp == old(self).sp,
                self.stack == old(self).stack,
                self.i == old(self).i,
                self.v == old(self).v,
                self.keys == old(self).keys,
                self.display == old(self).display,
                self.memory@ =~= old(self).memory@.subrange(0, PROGRAM_START as int) + rom@.subrange(
                    0,
                    k as int,
                ) + old(self).memory@.subrange(PROGRAM_START + k, MEMORY_SIZE as int),
            decreases count - k,
        {
            self.memory[PROGRAM_START + k] = rom[k];
            k = k + 1;
            assert(self.memory@ =~= old(self).memory@.subrange(0, PROGRAM_START as int) + rom@.subrange(
                0,
                k as int,
            ) + old(self).memory@.subrange(PROGRAM_START + k, MEMORY_SIZE as int));
        }
        count
    }

    /// One step of a driver: while the program counter leaves room for a whole
    /// instruction in memory, runs the instruction there and moves the program
    /// counter on by the advance it asks for, returning `Ok(true)`. Past that
    /// point nothing happens and the result is `Ok(false)`. A refused
    /// instruction changes nothing and its error is returned.
    pub fn tick(&mut self) -> (r: Result<bool, ProcessorError>)
        requires
            old(self).wf(),
        ensures
            final(self).wf(),
            old(self).pc + 1 < MEMORY_SIZE ==> match r {
                Ok(ran) => ran && exists|mid: Processor, step: usize|
                    #[trigger] cycle_post(*old(self), mid, fetched(*old(self)), Ok(step)) && advanced(
                        mid,
                        *final(self),
                        step,
                    ),
                Err(e) => cycle_post(*old(self), *final(self), fetched(*old(self)), Err(e)),
            },
            old(self).pc + 1 >= MEMORY_SIZE ==> r == Ok::<bool, ProcessorError>(false) && *final(self)
                == *old(self),
    {
        if self.pc >= MEMORY_SIZE - 1 {
            return Ok(false);
        }
        match self.execute_cycle() {
            Ok(step) => {
                let ghost mid = *self;
                self.pc = self.pc + step;
                assert(cycle_post(*old(self), mid, fetched(*old(self)), Ok(step)));
                Ok(true)
            },
            Err(e) => Err(e),
        }
    }

    /// Runs a family-0x0 instruction: `0x00E0` clears the display, `0x00EE`
    /// pops the call stack into the program counter (nothing when the stack
    /// is empty); any other word is refused.
    pub fn misc_ops(&mut self, opcode: [u8; 4]) -> (r: Result<usize, ProcessorError>)
        requires
            old(self).wf(),
            is_split(opcode),
        ensures
            final(self).wf(),
            misc_post(*old(self), *final(self), word_of(opcode), r),
    {
        let w = Self::full_opcode(opcode);
        if w == 0x00E0 {
            self.display.clear();
        } else if w == 0x00EE {
            if self.sp > 0 {
                self.pc = self.stack[self.sp - 1];
                self.sp = self.sp - 1;
            }
        } else {
            return Err(ProcessorError::UnimplementedOpcode { opcode: w });
        }
        Ok(2)
    }

    /// Runs a jump (0x1), a call (0x2) or a jump with offset (0xB). A call
    /// with a full stack is refused.
    pub fn control_flow_ops(&mut self, opcode: [u8; 4]) -> (r: Result<usize, ProcessorError>)
        requires
            old(self).wf(),
            old(self).pc < MEMORY_SIZE,
            is_split(opcode),
        ensures
            final(self).wf(),
            control_post(*old(self), *final(self), word_of(opcode), r),
    {
        proof {
            lemma_word_fields(opcode);
        }
        let w = Self::full_opcode(opcode);
        let n = (w % 0x1000) as usize;
        match opcode[0] {
            0x1 => self.pc = n,
            0x2 => {
                if self.sp >= STACK_DEPTH {
                    return Err(ProcessorError::StackOverflow { opcode: w });
                }
                self.stack[self.sp] = self.pc;
                self.sp = self.sp + 1;
                self.pc = n;
            },
            0xB => self.pc = self.v[0] as usize + n,
            _ => {
                return Err(ProcessorError::UnimplementedOpcode { opcode: w });
            },
        }
        Ok(0)
    }

    /// Runs a load-immediate (0x6) or a saturating add-immediate (0x7) on `V[x]`.
    pub fn const_ops(&mut self, opcode: [u8; 4]) -> (r: Result<usize, ProcessorError>)
        requires
            old(self).wf(),
            is_split(opcode),
        ensures
            final(self).wf(),
            const_post(*old(self), *final(self), word_of(opcode), r),
    {
        proof {
            lemma_word_fields(opcode);
        }
        let x = opcode[1] as usize;
        let n = (Self::full_opcode(opcode) % 0x100) as u8;
        match opcode[0] {
            0x6 => self.v[x] = n,
            0x7 => self.v[x] = if self.v[x] as u16 + n as u16 > 255 { 255 } else { self.v[x] + n },
            _ => {
                return Err(ProcessorError::UnimplementedOpcode { opcode: Self::full_opcode(opcode) });
            },
        }
        Ok(2)
    }

    /// Runs a draw (0xD): XORs the sprite of `n` rows stored at `I` onto the
    /// display at column `x`, row `y`, and sets `VF` to 1 when a cell was
    /// turned off, else to 0.
    pub fn display_ops(&mut self, opcode: [u8; 4]) -> (r: Result<usize, ProcessorError>)
        requires
            old(self).wf(),
            is_split(opcode),
        ensures
            final(self).wf(),
            display_post(*old(self), *final(self), word_of(opcode), r),
    {
        proof {
            lemma_word_fields(opcode);
        }
        if opcode[0] != 0xD {
            return Err(ProcessorError::UnimplementedOpcode { opcode: Self::full_opcode(opcode) });
        }
        let x = opcode[1] as usize;
        let y = opcode[2] as usize;
        let n = opcode[3] as usize;
        let ghost start = self.i as int;
        let mut sprite: Vec<u8> = Vec::new();
        let mut k: usize = 0;
        while k < n
            invariant
                n < 16,
                k <= n,
                self.i as int == start,
                sprite@ =~= sprite_at(self.memory@, start, k as int),
            decreases n - k,
        {
            sprite.push(self.memory[(self.i as usize + k) % MEMORY_SIZE]);
            k = k + 1;
            assert(sprite@ =~= sprite_at(self.memory@, start, k as int));
        }
        let collision = self.display.draw_sprite(x, y, sprite.as_slice());
        self.v[FLAG] = if collision { 1 } else { 0 };
        Ok(2)
    }

    /// The instruction at the program counter, split into its four nibbles.
    pub fn current_opcode(&self) -> (r: [u8; 4])
        requires
            self.pc + 1 < MEMORY_SIZE,
        ensures
            is_split(r),
            word_of(r) == fetched(*self),
    {
        let code: u16 = self.memory[self.pc] as u16 * 0x100 + self.memory[self.pc + 1] as u16;
        proof {
            lemma_split_word(code);
        }
        [(code / 0x1000) as u8, ((code / 0x100) % 16) as u8, ((code / 0x10) % 16) as u8, (code % 16) as u8]
    }

    /// Fetches the instruction at the program counter and runs it. Returns how
    /// far the program counter is still to advance: 2, or 0 after a jump or
    /// call, which set it themselves.
    pub fn execute_cycle(&mut self) -> (r: Result<usize, ProcessorError>)
        requires
            old(self).wf(),
            old(self).pc + 1 < MEMORY_SIZE,
        ensures
            final(self).wf(),
            cycle_post(*old(self), *final(self), fetched(*old(self)), r),
            final(self).pc < 0x2000,
    {
        let opcode = self.current_opcode();
        proof {
            lemma_word_fields(opcode);
        }
        match opcode[0] {
            0x0 => self.misc_ops(opcode),
            0x1 | 0x2 | 0xB => self.control_flow_ops(opcode),
            0x6 | 0x7 => self.const_ops(opcode),
            0x8 => self.math_bit_ops(opcode),
            0xD => self.display_ops(opcode),
            _ => Err(ProcessorError::UnimplementedOpcode { opcode: Self::full_opcode(opcode) }),
        }
    }

    /// Runs a register-to-register instruction (family 0x8) on `V[x]` and
    /// `V[y]`, chosen by the low nibble.
    pub fn math_bit_ops(&mut self, opcode: [u8; 4]) -> (r: Result<usize, ProcessorError>)
        requires
            old(self).wf(),
            is_split(opcode),
            opcode[0] == 0x8,
        ensures
            final(self).wf(),
            math_post(*old(self), *final(self), word_of(opcode), r),
    {
        proof {
            lemma_word_fields(opcode);
        }
        let x = opcode[1] as usize;
        let y = opcode[2] as usize;
        match opcode[3] {
            0x0 => self.v[x] = self.v[y],
            0x1 => self.v[x] = self.v[x] | self.v[y],
            0x2 => self.v[x] = self.v[x] & self.v[y],
            0x3 => self.v[x] = self.v[x] ^ self.v[y],
            0x4 => {
                let sum: u16 = self.v[x] as u16 + self.v[y] as u16;
                self.v[x] = (sum % 256) as u8;
                self.v[FLAG] = if sum > 255 { 1 } else { 0 };
            },
            0x5 => {
                let (a, b) = (self.v[x], self.v[y]);
                self.v[x] = if a >= b { a - b } else { (256 - b as u16 + a as u16) as u8 };
                self.v[FLAG] = if a < b { 1 } else { 0 };
            },
            0x6 => {
                self.v[FLAG] = self.v[y] & 1;
                self.v[x] = self.v[y] >> 1;
            },
            0x7 => {
                let (a, b) = (self.v[x], self.v[y]);
                self.v[x] = if b >= a { b - a } else { (256 - a as u16 + b as u16) as u8 };
                self.v[FLAG] = if b < a { 1 } else { 0 };
            },
            0xE => {
                self.v[FLAG] = self.v[y] & 0xF0;
                self.v[y] = self.v[y] << 1;
                self.v[x] = self.v[y];
            },
            _ => {
                return Err(ProcessorError::UnimplementedOpcode { opcode: Self::full_opcode(opcode) });
            },
        }
        proof {
            assert(self.v@ =~= alu(old(self).v@, x as int, y as int, opcode[3] as int));
        }
        Ok(2)
    }

    /// The instruction word that the four nibbles spell, most significant first.
    pub fn full_opcode(opcode: [u8; 4]) -> (r: u16)
        requires
            is_split(opcode),
        ensures
            r == word_of(opcode),
    {
        proof {
            lemma_word_fields(opcode);
        }
        opcode[0] as u16 * 0x1000 + opcode[1] as u16 * 0x100 + opcode[2] as u16 * 0x10 + opcode[3] as u16
    }
}

} // verus!
