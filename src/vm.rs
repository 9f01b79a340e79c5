//! A stack machine over 32-bit integers.
//!
//! A program is a sequence of instructions; the index of an instruction is its
//! line number in diagnostics.
use vstd::prelude::*;
use crate::decimal::{decimal, i32_text, usize_text};

verus! {

/// One instruction of the machine.
#[derive(PartialEq, Eq, Structural, Clone, Copy, Debug)]
pub enum Code {
    Push(i32),
    Plus,
    Mult,
}

/// The faults a run can end in.
#[derive(PartialEq, Eq, Structural, Clone, Copy, Debug)]
pub enum VmError {
    /// The instruction `op` at index `line` found fewer than two values on the stack.
    StackUnderflow { line: usize, op: Code },
    /// The program of length `len` ended with an empty stack.
    MissingResult { len: usize },
}

/// The value that a binary instruction computes from its left and right
/// operands, with the wrap-around of 32-bit arithmetic.
pub open spec fn combine(op: Code, left: i32, right: i32) -> i32 {
    match op {
        Code::Mult => left.wrapping_mul(right),
        _ => left.wrapping_add(right),
    }
}

/// Executing `code` from index `i` on `stack`: the final stack, or the first fault.
pub open spec fn exec_from(code: Seq<Code>, i: int, stack: Seq<i32>) -> Result<Seq<i32>, VmError>
    decreases code.len() - i,
{
    if i < 0 || i >= code.len() {
        Ok(stack)
    } else {
        match code[i] {
            Code::Push(v) => exec_from(code, i + 1, stack.push(v)),
            op => if stack.len() < 2 {
                Err(VmError::StackUnderflow { line: i as usize, op })
            } else {
                let left = stack[stack.len() - 2];
                let right = stack[stack.len() - 1];
                exec_from(code, i + 1, stack.subrange(0, stack.len() - 2).push(combine(op, left, right)))
            },
        }
    }
}

/// The outcome of running `code` from an empty stack: the top of the final
/// stack, or a fault.
pub open spec fn run_result(code: Seq<Code>) -> Result<i32, VmError> {
    match exec_from(code, 0, Seq::empty()) {
        Ok(stack) => if stack.len() > 0 {
            Ok(stack.last())
        } else {
            Err(VmError::MissingResult { len: code.len() as usize })
        },
        Err(e) => Err(e),
    }
}

/// The name of an instruction in fault messages.
pub open spec fn op_name(op: Code) -> Seq<char> {
    match op {
        Code::Push(_) => "PUSH"@,
        Code::Plus => "PLUS"@,
        Code::Mult => "MULT"@,
    }
}

/// The human-readable text of a fault.
pub open spec fn vm_error_text(e: VmError) -> Seq<char> {
    match e {
        VmError::StackUnderflow { line, op } => "L"@ + decimal(line as int) + " "@ + op_name(op)
            + ": not enough values on stack. Expected two"@,
        VmError::MissingResult { len } => "L"@ + decimal(len as int) + " No return value found on stack"@,
    }
}

impl VmError {
    /// The fault as a human-readable message.
    pub fn message(&self) -> (r: String)
        ensures
            r@ == vm_error_text(*self),
    {
        match self {
            VmError::StackUnderflow { line, op } => {
                let mut s = String::from_str("L");
                let l = usize_text(*line);
                s.append(l.as_str());
                s.append(" ");
                s.append(
                    match op {
                        Code::Push(_) => "PUSH",
                        Code::Plus => "PLUS",
                        Code::Mult => "MULT",
                    },
                );
                s.append(": not enough values on stack. Expected two");
                s
            },
            VmError::MissingResult { len } => {
                let mut s = String::from_str("L");
                let l = usize_text(*len);
                s.append(l.as_str());
                s.append(" No return value found on stack");
                s
            },
        }
    }
}

/// The text of one instruction.
pub open spec fn code_text(c: Code) -> Seq<char> {
    match c {
        Code::Push(v) => "Push "@ + decimal(v as int),
        Code::Plus => "Plus"@,
        Code::Mult => "Mult"@,
    }
}

/// The texts of the instructions of `code`, separated by `;`.
pub open spec fn joined_code(code: Seq<Code>) -> Seq<char>
    decreases code.len(),
{
    if code.len() == 0 {
        Seq::empty()
    } else if code.len() == 1 {
        code_text(code[0])
    } else {
        joined_code(code.drop_last()) + ";"@ + code_text(code.last())
    }
}

/// The decimal texts of `values`, separated by `,`.
pub open spec fn joined_values(values: Seq<i32>) -> Seq<char>
    decreases values.len(),
{
    if values.len() == 0 {
        Seq::empty()
    } else if values.len() == 1 {
        decimal(values[0] as int)
    } else {
        joined_values(values.drop_last()) + ","@ + decimal(values.last() as int)
    }
}

/// The text of a machine: its program, then its stack.
pub open spec fn vm_text(code: Seq<Code>, stack: Seq<i32>) -> Seq<char> {
    "Code: "@ + joined_code(code) + "Stack: "@ + joined_values(stack)
}

fn instruction_text(c: Code) -> (r: String)
    ensures
        r@ == code_text(c),
{
    match c {
        Code::Push(v) => {
            let mut s = String::from_str("Push ");
            let d = i32_text(v);
            s.append(d.as_str());
            s
        },
        Code::Plus => String::from_str("Plus"),
        Code::Mult => String::from_str("Mult"),
    }
}

fn apply(op: Code, left: i32, right: i32) -> (r: i32)
    ensures
        r == combine(op, left, right),
{
    match op {
        Code::Mult => left.wrapping_mul(right),
        _ => left.wrapping_add(right),
    }
}

/// A machine loaded with a program, and its operand stack.
pub struct VM {
    code: Vec<Code>,
    stack: Vec<i32>,
}

impl VM {
    /// The program the machine runs.
    pub closed spec fn program(&self) -> Seq<Code> {
        self.code@
    }

    /// The operand stack, bottom first.
    pub closed spec fn operands(&self) -> Seq<i32> {
        self.stack@
    }

    /// What a run of the machine gives.
    pub open spec fn outcome(&self) -> Result<i32, VmError> {
        run_result(self.program())
    }

    /// A machine loaded with `code`, its stack empty.
    pub fn new(code: Vec<Code>) -> (vm: VM)
        ensures
            vm.program() == code@,
            vm.operands() == Seq::<i32>::empty(),
    {
        VM { code, stack: Vec::new() }
    }

    /// The program and the stack as text.
    pub fn show(&self) -> (r: String)
        ensures
            r@ == vm_text(self.program(), self.operands()),
    {
        let mut s = String::from_str("Code: ");
        let n: usize = self.code.len();
        let mut i: usize = 0;
        while i < n
            invariant
                n == self.code@.len(),
                i <= n,
                s@ == "Code: "@ + joined_code(self.code@.subrange(0, i as int)),
            decreases n - i,
        {
            let ghost before = s@;
            if i > 0 {
                s.append(";");
            }
            let t = instruction_text(self.code[i]);
            s.append(t.as_str());
            proof {
                let next = self.code@.subrange(0, i + 1);
                assert(next.drop_last() == self.code@.subrange(0, i as int));
                assert(next.last() == self.code@[i as int]);
                if i == 0 {
                    assert(next.len() == 1);
                    assert(s@ == "Code: "@ + joined_code(next));
                } else {
                    assert(s@ == "Code: "@ + joined_code(next));
                }
            }
            i += 1;
        }
        assert(self.code@.subrange(0, n as int) == self.code@);
        s.append("Stack: ");
        let ghost head = s@;
        let m: usize = self.stack.len();
        let mut j: usize = 0;
        while j < m
            invariant
                m == self.stack@.len(),
                j <= m,
                s@ == head + joined_values(self.stack@.subrange(0, j as int)),
            decreases m - j,
        {
            if j > 0 {
                s.append(",");
            }
            let t = i32_text(self.stack[j]);
            s.append(t.as_str());
            proof {
                let next = self.stack@.subrange(0, j + 1);
                assert(next.drop_last() == self.stack@.subrange(0, j as int));
                assert(next.last() == self.stack@[j as int]);
                assert(s@ == head + joined_values(next));
            }
            j += 1;
        }
        assert(self.stack@.subrange(0, m as int) == self.stack@);
        s
    }

    /// Runs the program from an empty stack. The program is left as it was,
    /// so running again gives the same outcome.
    pub fn run(&mut self) -> (r: Result<i32, VmError>)
        ensures
            r == old(self).outcome(),
            final(self).program() == old(self).program(),
            final(self).outcome() == old(self).outcome(),
    {
        self.stack.clear();
        let n: usize = self.code.len();
        let mut i: usize = 0;
        assert(self.stack@ == Seq::<i32>::empty());
        while i < n
            invariant
                self.code@ == old(self).code@,
                n == self.code@.len(),
                i <= n,
                exec_from(self.code@, i as int, self.stack@) == exec_from(self.code@, 0, Seq::empty()),
            decreases n - i,
        {
            let op = self.code[i];
            match op {
                Code::Push(v) => {
                    self.stack.push(v);
                },
                _ => {
                    if self.stack.len() < 2 {
                        return Err(VmError::StackUnderflow { line: i, op });
                    }
                    let ghost before = self.stack@;
                    let right = self.stack.pop().unwrap();
                    let left = self.stack.pop().unwrap();
                    assert(self.stack@ == before.subrange(0, before.len() - 2));
                    self.stack.push(apply(op, left, right));
                },
            }
            i += 1;
        }
        let len: usize = self.stack.len();
        if len > 0 {
            Ok(self.stack[len - 1])
        } else {
            Err(VmError::MissingResult { len: n })
        }
    }
}

} // verus!
