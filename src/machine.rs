use vstd::prelude::*;
use crate::arith::{lemma_trunc_div_fits, int_add, int_div, int_mul, int_neg, int_rem, int_sub, trunc_div, trunc_rem, wrap64};
use crate::cursor::{le_value, lemma_le_bound, pow256, read_le, signed64, to_signed};
use crate::diagnostic::{diagnostic_text, render, ErrorData, ErrorView};

verus! {

pub const NOP: u8 = 0x00;
pub const INT_PUSH: u8 = 0x01;
pub const INT_ADD: u8 = 0x02;
pub const INT_SUB: u8 = 0x03;
pub const INT_MUL: u8 = 0x04;
pub const INT_DIV: u8 = 0x05;
pub const INT_MOD: u8 = 0x06;
pub const INT_NEG: u8 = 0x07;
pub const INT_TO_FLOAT: u8 = 0x08;
pub const FLOAT_PUSH: u8 = 0x09;
pub const FLOAT_ADD: u8 = 0x0A;
pub const FLOAT_SUB: u8 = 0x0B;
pub const FLOAT_MUL: u8 = 0x0C;
pub const FLOAT_DIV: u8 = 0x0D;
pub const FLOAT_NEG: u8 = 0x0E;
pub const FLOAT_TO_INT: u8 = 0x0F;
pub const ERR_DATA: u8 = 0x10;

/// The sign bit of an IEEE-754 double.
pub const SIGN_BIT: u64 = 0x8000_0000_0000_0000;

/// Text decoded from the bytes as UTF-8, invalid sequences replaced.
pub uninterp spec fn lossy_of(b: Seq<u8>) -> Seq<char>;

/// Relies on `String::from_utf8_lossy`: the bytes decoded as UTF-8, each
/// invalid sequence replaced by U+FFFD. The text depends on the bytes alone,
/// and no bytes give no text.
#[verifier::external_body]
fn lossy_text(b: &Vec<u8>) -> (r: String)
    ensures
        r@ == lossy_of(b@),
        b@.len() == 0 ==> r@.len() == 0,
{
    String::from_utf8_lossy(b).into_owned()
}

/// A text of `n` bytes at `p`: its characters and the position after it. When
/// fewer than `n` bytes remain the text is empty and the position stays.
pub open spec fn text_at(code: Seq<u8>, p: int, n: nat) -> (Seq<char>, int) {
    if p + n <= code.len() {
        (lossy_of(code.subrange(p, p + n)), p + n)
    } else {
        (Seq::empty(), p)
    }
}

/// The error record encoded at `p`, and the position after it; `None` when a
/// fixed-width field runs past the end.
pub open spec fn decode_record(code: Seq<u8>, p: int) -> Option<(ErrorView, int)> {
    if p + 1 > code.len() {
        None
    } else {
        let kind = text_at(code, p + 1, code[p] as nat);
        let p1 = kind.1;
        if p1 + 10 > code.len() {
            None
        } else {
            let lexeme = text_at(code, p1 + 10, le_value(code, p1 + 8, 2));
            let p2 = lexeme.1;
            if p2 + 2 > code.len() {
                None
            } else {
                let file = text_at(code, p2 + 2, le_value(code, p2, 2));
                Some((
                    ErrorView {
                        kind: kind.0,
                        line: le_value(code, p1, 4) as u32,
                        pos: le_value(code, p1 + 4, 2) as u16,
                        len: le_value(code, p1 + 6, 2) as u16,
                        lexeme: lexeme.0,
                        file: file.0,
                    },
                    file.1,
                ))
            }
        }
    }
}

/// The program and a position in it, from which operands are decoded.
pub struct ByteCursor {
    pub bytes: Vec<u8>,
    pub pos: usize,
}

impl ByteCursor {
    pub fn u8_fetch(&mut self) -> (r: Option<u8>)
        ensures
            final(self).bytes == old(self).bytes,
            old(self).pos + 1 <= old(self).bytes@.len() ==> r == Some(old(self).bytes@[old(self).pos as int])
                && final(self).pos == old(self).pos + 1,
            old(self).pos + 1 > old(self).bytes@.len() ==> r is None && final(self).pos == old(self).pos,
    {
        if self.pos < self.bytes.len() {
            let b = self.bytes[self.pos];
            self.pos = self.pos + 1;
            Some(b)
        } else {
            None
        }
    }

    fn le_fetch(&mut self, n: usize) -> (r: Option<u64>)
        requires
            n <= 8,
        ensures
            final(self).bytes == old(self).bytes,
            old(self).pos + n <= old(self).bytes@.len() ==> r is Some
                && r->0 == le_value(old(self).bytes@, old(self).pos as int, n as nat)
                && final(self).pos == old(self).pos + n,
            old(self).pos + n > old(self).bytes@.len() ==> r is None && final(self).pos == old(self).pos,
    {
        if n <= self.bytes.len() && self.pos <= self.bytes.len() - n {
            let v = read_le(&self.bytes, self.pos, n);
            self.pos = self.pos + n;
            Some(v)
        } else {
            None
        }
    }

    pub fn u16_fetch(&mut self) -> (r: Option<u16>)
        ensures
            final(self).bytes == old(self).bytes,
            old(self).pos + 2 <= old(self).bytes@.len() ==> r is Some
                && r->0 == le_value(old(self).bytes@, old(self).pos as int, 2)
                && final(self).pos == old(self).pos + 2,
            old(self).pos + 2 > old(self).bytes@.len() ==> r is None && final(self).pos == old(self).pos,
    {
        match self.le_fetch(2) {
            Some(v) => {
                proof {
                    lemma_le_bound(old(self).bytes@, old(self).pos as int, 2);
                    reveal_with_fuel(pow256, 3);
                }
                Some(v as u16)
            },
            None => None,
        }
    }

    pub fn u32_fetch(&mut self) -> (r: Option<u32>)
        ensures
            final(self).bytes == old(self).bytes,
            old(self).pos + 4 <= old(self).bytes@.len() ==> r is Some
                && r->0 == le_value(old(self).bytes@, old(self).pos as int, 4)
                && final(self).pos == old(self).pos + 4,
            old(self).pos + 4 > old(self).bytes@.len() ==> r is None && final(self).pos == old(self).pos,
    {
        match self.le_fetch(4) {
            Some(v) => {
                proof {
                    lemma_le_bound(old(self).bytes@, old(self).pos as int, 4);
                    reveal_with_fuel(pow256, 5);
                }
                Some(v as u32)
            },
            None => None,
        }
    }

    /// Eight bytes, little-endian, as a two's-complement integer.
    pub fn int_fetch(&mut self) -> (r: Option<i64>)
        ensures
            final(self).bytes == old(self).bytes,
            old(self).pos + 8 <= old(self).bytes@.len() ==> r is Some
                && r->0 == signed64(le_value(old(self).bytes@, old(self).pos as int, 8))
                && final(self).pos == old(self).pos + 8,
            old(self).pos + 8 > old(self).bytes@.len() ==> r is None && final(self).pos == old(self).pos,
    {
        match self.le_fetch(8) {
            Some(v) => Some(to_signed(v)),
            None => None,
        }
    }

    /// Eight bytes, little-endian, as the bit pattern of a double.
    pub fn float_fetch(&mut self) -> (r: Option<u64>)
        ensures
            final(self).bytes == old(self).bytes,
            old(self).pos + 8 <= old(self).bytes@.len() ==> r is Some
                && r->0 == le_value(old(self).bytes@, old(self).pos as int, 8)
                && final(self).pos == old(self).pos + 8,
            old(self).pos + 8 > old(self).bytes@.len() ==> r is None && final(self).pos == old(self).pos,
    {
        self.le_fetch(8)
    }

    /// A text of `len` bytes; empty, with the position kept, when fewer remain.
    pub fn utf8_fetch(&mut self, len: usize) -> (r: String)
        ensures
            final(self).bytes == old(self).bytes,
            r@ == text_at(old(self).bytes@, old(self).pos as int, len as nat).0,
            final(self).pos == text_at(old(self).bytes@, old(self).pos as int, len as nat).1,
    {
        if len > self.bytes.len() || self.pos > self.bytes.len() - len {
            return String::new();
        }
        let total: usize = self.bytes.len();
        let mut chunk: Vec<u8> = Vec::new();
        let mut i: usize = 0;
        while i < len
            invariant
                i <= len,
                self.pos + len <= self.bytes@.len(),
                self.bytes == old(self).bytes,
                self.pos == old(self).pos,
                total == self.bytes@.len(),
                chunk@ == self.bytes@.subrange(self.pos as int, self.pos + i),
            decreases len - i,
        {
            chunk.push(self.bytes[self.pos + i]);
            i = i + 1;
            assert(chunk@ =~= self.bytes@.subrange(self.pos as int, self.pos + i));
        }
        self.pos = self.pos + len;
        lossy_text(&chunk)
    }

    /// One error record: a text with a one-byte length, the line, column and
    /// span length, then two texts with two-byte lengths. On `None` the
    /// position stays.
    pub fn error_fetch(&mut self) -> (r: Option<ErrorData>)
        ensures
            final(self).bytes == old(self).bytes,
            match decode_record(old(self).bytes@, old(self).pos as int) {
                None => r is None && final(self).pos == old(self).pos,
                Some(d) => r is Some && r->0@ == d.0 && final(self).pos == d.1,
            },
    {
        let start = self.pos;
        let kind_len = match self.u8_fetch() {
            Some(n) => n,
            None => return None,
        };
        let kind = self.utf8_fetch(kind_len as usize);
        let line = match self.u32_fetch() {
            Some(v) => v,
            None => {
                self.pos = start;
                return None;
            },
        };
        let pos = match self.u16_fetch() {
            Some(v) => v,
            None => {
                self.pos = start;
                return None;
            },
        };
        let len = match self.u16_fetch() {
            Some(v) => v,
            None => {
                self.pos = start;
                return None;
            },
        };
        let lexeme_len = match self.u16_fetch() {
            Some(v) => v,
            None => {
                self.pos = start;
                return None;
            },
        };
        let lexeme = self.utf8_fetch(lexeme_len as usize);
        let file_len = match self.u16_fetch() {
            Some(v) => v,
            None => {
                self.pos = start;
                return None;
            },
        };
        let file = self.utf8_fetch(file_len as usize);
        Some(ErrorData::new(kind, line, pos, len, lexeme, file))
    }
}

/// Whether the machine still executes instructions. Halting is one-way.
#[derive(Debug, Clone, Copy, PartialEq, Eq, Structural)]
pub enum RunState {
    Running,
    Halted,
}

/// Float arithmetic that an instruction asks of its host, on operands given
/// as IEEE-754 bit patterns. The host pushes the outcome: `FromInt` and the
/// four operators onto the float stack, `ToInt` onto the integer stack.
#[derive(Debug, Clone, Copy, PartialEq, Eq, Structural)]
pub enum FloatWork {
    FromInt(i64),
    Add(u64, u64),
    Sub(u64, u64),
    Mul(u64, u64),
    Div(u64, u64),
    ToInt(u64),
}

/// What one instruction leaves for the host.
#[derive(Debug, Clone)]
pub enum Step {
    /// Nothing: the instruction is complete.
    Done,
    /// A rendered diagnostic; the machine has halted.
    Report(String),
    /// Float arithmetic whose result the host pushes.
    Float(FloatWork),
}

pub enum StepView {
    Done,
    Report(Seq<char>),
    Float(FloatWork),
}

impl View for Step {
    type V = StepView;

    open spec fn view(&self) -> StepView {
        match self {
            Step::Done => StepView::Done,
            Step::Report(s) => StepView::Report(s@),
            Step::Float(w) => StepView::Float(*w),
        }
    }
}

/// A malformed program: the instruction cannot run, and the machine is left
/// as it was before it.
#[derive(Debug, Clone, Copy, PartialEq, Eq, Structural)]
pub enum Fault {
    /// An opcode or a fixed-width operand runs past the end of the program.
    Truncated,
    /// Too few values on the integer stack.
    IntUnderflow,
    /// Too few values on the float stack.
    FloatUnderflow,
    /// A division found no staged error record.
    NoDiagnostic,
    /// An integer remainder by zero.
    RemainderByZero,
}

pub open spec fn outcome(r: Result<Step, Fault>) -> Result<StepView, Fault> {
    match r {
        Ok(s) => Ok(s@),
        Err(f) => Err(f),
    }
}

/// The abstract state of a machine.
pub struct VmView {
    pub code: Seq<u8>,
    pub ip: int,
    pub errors: Seq<ErrorView>,
    pub ints: Seq<i64>,
    pub floats: Seq<u64>,
    pub state: RunState,
}

pub open spec fn int_result(op: u8, a: i64, b: i64) -> i64 {
    if op == INT_ADD {
        wrap64(a + b)
    } else if op == INT_SUB {
        wrap64(a - b)
    } else if op == INT_MUL {
        wrap64(a * b)
    } else if op == INT_DIV {
        wrap64(trunc_div(a as int, b as int))
    } else {
        trunc_rem(a as int, b as int) as i64
    }
}

pub open spec fn float_work(op: u8, a: u64, b: u64) -> FloatWork {
    if op == FLOAT_ADD {
        FloatWork::Add(a, b)
    } else if op == FLOAT_SUB {
        FloatWork::Sub(a, b)
    } else if op == FLOAT_MUL {
        FloatWork::Mul(a, b)
    } else {
        FloatWork::Div(a, b)
    }
}

/// Both zeros of IEEE-754: every other pattern, NaN included, is nonzero.
pub open spec fn is_float_zero(bits: u64) -> bool {
    bits == 0 || bits == SIGN_BIT
}

/// A division by zero: from `w`, the state with its operands popped, the top
/// error record of `v` is taken and reported, and the machine halts.
pub open spec fn raised(v: VmView, w: VmView) -> (VmView, Result<StepView, Fault>) {
    if v.errors.len() == 0 {
        (v, Err(Fault::NoDiagnostic))
    } else {
        (
            VmView { errors: v.errors.drop_last(), state: RunState::Halted, ..w },
            Ok(StepView::Report(diagnostic_text(v.errors.last(), "Division by zero"@))),
        )
    }
}

pub open spec fn step_int(v: VmView, op: u8) -> (VmView, Result<StepView, Fault>) {
    let n = v.ints.len();
    let p = v.ip + 1;
    if op == INT_PUSH {
        if p + 8 <= v.code.len() {
            let x = signed64(le_value(v.code, p, 8)) as i64;
            (VmView { ip: p + 8, ints: v.ints.push(x), ..v }, Ok(StepView::Done))
        } else {
            (v, Err(Fault::Truncated))
        }
    } else if op == INT_NEG || op == INT_TO_FLOAT {
        if n < 1 {
            (v, Err(Fault::IntUnderflow))
        } else if op == INT_NEG {
            (VmView { ip: p, ints: v.ints.drop_last().push(wrap64(-v.ints.last())), ..v }, Ok(StepView::Done))
        } else {
            (VmView { ip: p, ints: v.ints.drop_last(), ..v }, Ok(StepView::Float(FloatWork::FromInt(v.ints.last()))))
        }
    } else if n < 2 {
        (v, Err(Fault::IntUnderflow))
    } else {
        let a = v.ints[n - 2];
        let b = v.ints[n - 1];
        let rest = v.ints.subrange(0, n - 2);
        if op == INT_MOD && b == 0 {
            (v, Err(Fault::RemainderByZero))
        } else if op == INT_DIV && b == 0 {
            raised(v, VmView { ip: p, ints: rest, ..v })
        } else if op == INT_DIV && v.errors.len() == 0 {
            (v, Err(Fault::NoDiagnostic))
        } else {
            let errors = if op == INT_DIV { v.errors.drop_last() } else { v.errors };
            (VmView { ip: p, ints: rest.push(int_result(op, a, b)), errors, ..v }, Ok(StepView::Done))
        }
    }
}

pub open spec fn step_float(v: VmView, op: u8) -> (VmView, Result<StepView, Fault>) {
    let n = v.floats.len();
    let p = v.ip + 1;
    if op == FLOAT_PUSH {
        if p + 8 <= v.code.len() {
            (VmView { ip: p + 8, floats: v.floats.push(le_value(v.code, p, 8) as u64), ..v }, Ok(StepView::Done))
        } else {
            (v, Err(Fault::Truncated))
        }
    } else if op == FLOAT_NEG || op == FLOAT_TO_INT {
        if n < 1 {
            (v, Err(Fault::FloatUnderflow))
        } else if op == FLOAT_NEG {
            (VmView { ip: p, floats: v.floats.drop_last().push(v.floats.last() ^ SIGN_BIT), ..v }, Ok(StepView::Done))
        } else {
            (VmView { ip: p, floats: v.floats.drop_last(), ..v }, Ok(StepView::Float(FloatWork::ToInt(v.floats.last()))))
        }
    } else if n < 2 {
        (v, Err(Fault::FloatUnderflow))
    } else {
        let a = v.floats[n - 2];
        let b = v.floats[n - 1];
        let rest = v.floats.subrange(0, n - 2);
        if op == FLOAT_DIV && is_float_zero(b) {
            raised(v, VmView { ip: p, floats: rest, ..v })
        } else if op == FLOAT_DIV && v.errors.len() == 0 {
            (v, Err(Fault::NoDiagnostic))
        } else {
            let errors = if op == FLOAT_DIV { v.errors.drop_last() } else { v.errors };
            (VmView { ip: p, floats: rest, errors, ..v }, Ok(StepView::Float(float_work(op, a, b))))
        }
    }
}

/// One instruction: the state after it and what it leaves for the host.
pub open spec fn step(v: VmView) -> (VmView, Result<StepView, Fault>) {
    if !(0 <= v.ip < v.code.len()) {
        (v, Err(Fault::Truncated))
    } else {
        let op = v.code[v.ip];
        if INT_PUSH <= op <= INT_TO_FLOAT {
            step_int(v, op)
        } else if FLOAT_PUSH <= op <= FLOAT_TO_INT {
            step_float(v, op)
        } else if op == ERR_DATA {
            match decode_record(v.code, v.ip + 1) {
                None => (v, Err(Fault::Truncated)),
                Some(d) => (VmView { ip: d.1, errors: v.errors.push(d.0), ..v }, Ok(StepView::Done)),
            }
        } else {
            (VmView { ip: v.ip + 1, ..v }, Ok(StepView::Done))
        }
    }
}

/// Each instruction that runs moves the cursor forward, never past the end
/// of the program, which it leaves as it was; one that faults changes nothing.
pub proof fn law_cursor_advances(v: VmView)
    requires
        0 <= v.ip < v.code.len(),
    ensures
        step(v).0.code == v.code,
        step(v).1 is Ok ==> v.ip < step(v).0.ip <= v.code.len(),
        step(v).1 is Err ==> step(v).0 == v,
{
}

/// Instructions run one after another while the machine runs and the program
/// lasts, until one leaves something for the host or faults.
pub open spec fn drive(v: VmView) -> (VmView, Result<StepView, Fault>)
    decreases v.code.len() - v.ip,
    via drive_decreases
{
    if v.state == RunState::Halted || !(0 <= v.ip < v.code.len()) {
        (v, Ok(StepView::Done))
    } else {
        let s = step(v);
        match s.1 {
            Ok(StepView::Done) => drive(s.0),
            _ => s,
        }
    }
}

#[via_fn]
proof fn drive_decreases(v: VmView) {
    if v.state != RunState::Halted && 0 <= v.ip < v.code.len() {
        law_cursor_advances(v);
    }
}

/// The bytecode interpreter: a program, an integer stack, a float stack of
/// bit patterns, and a stack of staged error records.
pub struct VirtualMachine {
    pub cursor: ByteCursor,
    pub error_stack: Vec<ErrorData>,
    pub int_stack: Vec<i64>,
    pub float_stack: Vec<u64>,
    pub state: RunState,
}

impl View for VirtualMachine {
    type V = VmView;

    open spec fn view(&self) -> VmView {
        VmView {
            code: self.cursor.bytes@,
            ip: self.cursor.pos as int,
            errors: self.error_stack@.map_values(|e: ErrorData| e@),
            ints: self.int_stack@,
            floats: self.float_stack@,
            state: self.state,
        }
    }
}

impl VirtualMachine {
    /// A running machine at the start of `bytecode`, with empty stacks.
    pub fn new(bytecode: Vec<u8>) -> (r: VirtualMachine)
        ensures
            r@ == (VmView {
                code: bytecode@,
                ip: 0,
                errors: Seq::empty(),
                ints: Seq::empty(),
                floats: Seq::empty(),
                state: RunState::Running,
            }),
    {
        let r = VirtualMachine {
            cursor: ByteCursor { bytes: bytecode, pos: 0 },
            error_stack: Vec::new(),
            int_stack: Vec::new(),
            float_stack: Vec::new(),
            state: RunState::Running,
        };
        assert(r@.errors =~= Seq::empty());
        r
    }

    /// Pops the top error record, renders it with reason `msg`, and halts.
    fn raise(&mut self, msg: &str) -> (r: String)
        requires
            old(self).error_stack@.len() > 0,
        ensures
            r@ == diagnostic_text(old(self)@.errors.last(), msg@),
            final(self)@ == (VmView { errors: old(self)@.errors.drop_last(), state: RunState::Halted, ..old(self)@ }),
    {
        let e = self.error_stack.pop().unwrap();
        self.state = RunState::Halted;
        assert(self@.errors =~= old(self)@.errors.drop_last());
        render(&e, msg)
    }

    fn exec_int(&mut self, op: u8, next: usize) -> (r: Result<Step, Fault>)
        requires
            0 <= old(self)@.ip < old(self)@.code.len(),
            next == old(self)@.ip + 1,
            op == old(self)@.code[old(self)@.ip],
            INT_PUSH <= op <= INT_TO_FLOAT,
        ensures
            (final(self)@, outcome(r)) == step_int(old(self)@, op),
    {
        let n = self.int_stack.len();
        let start = self.cursor.pos;
        if op == INT_PUSH {
            self.cursor.pos = next;
            match self.cursor.int_fetch() {
                Some(x) => {
                    self.int_stack.push(x);
                    return Ok(Step::Done);
                },
                None => {
                    self.cursor.pos = start;
                    return Err(Fault::Truncated);
                },
            }
        }
        if op == INT_NEG || op == INT_TO_FLOAT {
            if n < 1 {
                return Err(Fault::IntUnderflow);
            }
            let a = self.int_stack.pop().unwrap();
            self.cursor.pos = next;
            if op == INT_NEG {
                self.int_stack.push(int_neg(a));
                return Ok(Step::Done);
            }
            return Ok(Step::Float(FloatWork::FromInt(a)));
        }
        if n < 2 {
            return Err(Fault::IntUnderflow);
        }
        let b = self.int_stack[n - 1];
        let a = self.int_stack[n - 2];
        if op == INT_MOD && b == 0 {
            return Err(Fault::RemainderByZero);
        }
        if op == INT_DIV && self.error_stack.len() == 0 {
            return Err(Fault::NoDiagnostic);
        }
        self.int_stack.pop();
        self.int_stack.pop();
        assert(self.int_stack@ =~= old(self).int_stack@.subrange(0, n - 2));
        self.cursor.pos = next;
        if op == INT_DIV && b == 0 {
            let text = self.raise("Division by zero");
            proof {
                reveal_strlit("Division by zero");
            }
            return Ok(Step::Report(text));
        }
        let v = if op == INT_ADD {
            int_add(a, b)
        } else if op == INT_SUB {
            int_sub(a, b)
        } else if op == INT_MUL {
            int_mul(a, b)
        } else if op == INT_DIV {
            int_div(a, b)
        } else {
            int_rem(a, b)
        };
        if op == INT_DIV {
            self.error_stack.pop();
            assert(self@.errors =~= old(self)@.errors.drop_last());
        }
        self.int_stack.push(v);
        Ok(Step::Done)
    }

    fn exec_float(&mut self, op: u8, next: usize) -> (r: Result<Step, Fault>)
        requires
            0 <= old(self)@.ip < old(self)@.code.len(),
            next == old(self)@.ip + 1,
            op == old(self)@.code[old(self)@.ip],
            FLOAT_PUSH <= op <= FLOAT_TO_INT,
        ensures
            (final(self)@, outcome(r)) == step_float(old(self)@, op),
    {
        let n = self.float_stack.len();
        let start = self.cursor.pos;
        if op == FLOAT_PUSH {
            self.cursor.pos = next;
            match self.cursor.float_fetch() {
                Some(x) => {
                    self.float_stack.push(x);
                    return Ok(Step::Done);
                },
                None => {
                    self.cursor.pos = start;
                    return Err(Fault::Truncated);
                },
            }
        }
        if op == FLOAT_NEG || op == FLOAT_TO_INT {
            if n < 1 {
                return Err(Fault::FloatUnderflow);
            }
            let a = self.float_stack.pop().unwrap();
            self.cursor.pos = next;
            if op == FLOAT_NEG {
                self.float_stack.push(a ^ SIGN_BIT);
                return Ok(Step::Done);
            }
            return Ok(Step::Float(FloatWork::ToInt(a)));
        }
        if n < 2 {
            return Err(Fault::FloatUnderflow);
        }
        let b = self.float_stack[n - 1];
        let a = self.float_stack[n - 2];
        if op == FLOAT_DIV && self.error_stack.len() == 0 {
            return Err(Fault::NoDiagnostic);
        }
        self.float_stack.pop();
        self.float_stack.pop();
        assert(self.float_stack@ =~= old(self).float_stack@.subrange(0, n - 2));
        self.cursor.pos = next;
        if op == FLOAT_DIV && (b == 0 || b == SIGN_BIT) {
            let text = self.raise("Division by zero");
            proof {
                reveal_strlit("Division by zero");
            }
            return Ok(Step::Report(text));
        }
        if op == FLOAT_DIV {
            self.error_stack.pop();
            assert(self@.errors =~= old(self)@.errors.drop_last());
        }
        let work = if op == FLOAT_ADD {
            FloatWork::Add(a, b)
        } else if op == FLOAT_SUB {
            FloatWork::Sub(a, b)
        } else if op == FLOAT_MUL {
            FloatWork::Mul(a, b)
        } else {
            FloatWork::Div(a, b)
        };
        Ok(Step::Float(work))
    }

    /// Executes the instruction at the cursor. On `Err` nothing changes.
    pub fn execute(&mut self) -> (r: Result<Step, Fault>)
        ensures
            (final(self)@, outcome(r)) == step(old(self)@),
    {
        if self.cursor.pos >= self.cursor.bytes.len() {
            return Err(Fault::Truncated);
        }
        let start = self.cursor.pos;
        let op = self.cursor.bytes[start];
        let next = start + 1;
        if INT_PUSH <= op && op <= INT_TO_FLOAT {
            self.exec_int(op, next)
        } else if FLOAT_PUSH <= op && op <= FLOAT_TO_INT {
            self.exec_float(op, next)
        } else if op == ERR_DATA {
            self.cursor.pos = next;
            match self.cursor.error_fetch() {
                Some(e) => {
                    self.error_stack.push(e);
                    assert(self@.errors =~= old(self)@.errors.push(e@));
                    Ok(Step::Done)
                },
                None => {
                    self.cursor.pos = start;
                    Err(Fault::Truncated)
                },
            }
        } else {
            self.cursor.pos = next;
            Ok(Step::Done)
        }
    }

    /// Runs instructions while the machine runs and the program lasts. Returns
    /// `Done` at the end or once halted; stops early on a diagnostic, on float
    /// work for the host, or on a fault, which leaves the failing instruction
    /// unexecuted.
    pub fn run(&mut self) -> (r: Result<Step, Fault>)
        ensures
            (final(self)@, outcome(r)) == drive(old(self)@),
    {
        while self.state == RunState::Running && self.cursor.pos < self.cursor.bytes.len()
            invariant
                drive(self@) == drive(old(self)@),
            decreases self@.code.len() - self@.ip,
        {
            let ghost before = self@;
            let r = self.execute();
            proof {
                law_cursor_advances(before);
            }
            match r {
                Ok(Step::Done) => {},
                _ => return r,
            }
        }
        Ok(Step::Done)
    }

    /// Whether a diagnostic has halted the machine.
    pub fn is_halted(&self) -> (r: bool)
        ensures
            r == (self.state == RunState::Halted),
    {
        match self.state {
            RunState::Halted => true,
            RunState::Running => false,
        }
    }

    /// Pushes a value onto the integer stack: the host's result of `ToInt`.
    pub fn push_int(&mut self, v: i64)
        ensures
            final(self)@ == (VmView { ints: old(self)@.ints.push(v), ..old(self)@ }),
    {
        self.int_stack.push(v);
    }

    /// Pushes a bit pattern onto the float stack: the host's result of the
    /// other float work.
    pub fn push_float(&mut self, bits: u64)
        ensures
            final(self)@ == (VmView { floats: old(self)@.floats.push(bits), ..old(self)@ }),
    {
        self.float_stack.push(bits);
    }
}

/// A staged record, two pushed integers and an integer division: the run
/// ends with the quotient toward zero alone on the integer stack, and the
/// record stack as deep as before the record was staged.
pub proof fn law_guarded_division(v: VmView, k: int, a: i64, b: i64)
    requires
        b != 0,
        !(a == i64::MIN && b == -1),
        v.ip == 0,
        v.state == RunState::Running,
        v.ints.len() == 0,
        v.code.len() == k + 19,
        v.code[0] == ERR_DATA,
        decode_record(v.code, 1) is Some,
        (decode_record(v.code, 1)->0).1 == k,
        v.code[k] == INT_PUSH,
        signed64(le_value(v.code, k + 1, 8)) == a,
        v.code[k + 9] == INT_PUSH,
        signed64(le_value(v.code, k + 10, 8)) == b,
        v.code[k + 18] == INT_DIV,
    ensures
        drive(v).1 == Ok::<StepView, Fault>(StepView::Done),
        drive(v).0.ints == seq![trunc_div(a as int, b as int) as i64],
        drive(v).0.errors.len() == v.errors.len(),
{
    lemma_trunc_div_fits(a, b);
    let s1 = step(v).0;
    assert(s1.ip == k && s1.errors.len() == v.errors.len() + 1);
    let s2 = step(s1).0;
    assert(s2.ints == seq![a]);
    let s3 = step(s2).0;
    assert(s3.ints == seq![a, b]);
    assert(s3.ints.subrange(0, 0) =~= Seq::<i64>::empty());
    let s4 = step(s3).0;
    assert(s4.ints =~= seq![trunc_div(a as int, b as int) as i64]);
    assert(s4.ip == k + 19);
    assert(drive(s4) == (s4, Ok::<StepView, Fault>(StepView::Done)));
    assert(drive(s3) == drive(s4));
    assert(drive(s2) == drive(s3));
    assert(drive(s1) == drive(s2));
    assert(drive(v) == drive(s1));
}

/// Halting is final: no instruction makes a halted machine run again, and a
/// run of a halted machine does nothing.
pub proof fn law_halt_is_final(v: VmView)
    requires
        v.state == RunState::Halted,
    ensures
        step(v).0.state == RunState::Halted,
        drive(v) == (v, Ok::<StepView, Fault>(StepView::Done)),
{
}

/// A byte above the last opcode is no instruction: it moves the cursor by one
/// and leaves the stacks and the record stack as they were.
pub proof fn law_unknown_opcode_inert(v: VmView)
    requires
        0 <= v.ip < v.code.len(),
        v.code[v.ip] > ERR_DATA,
    ensures
        step(v) == (VmView { ip: v.ip + 1, ..v }, Ok::<StepView, Fault>(StepView::Done)),
{
}

} // verus!
