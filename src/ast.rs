//! Expression trees: literals, sums and products, with direct evaluation,
//! two printed forms and compilation to stack-machine code.
use vstd::prelude::*;
use crate::decimal::{decimal, i32_text};
use crate::vm::{Code, combine, exec_from, run_result};

verus! {

/// An expression tree. Each node owns its children.
#[derive(Debug)]
pub enum Node {
    Int(i32),
    Plus(Box<Node>, Box<Node>),
    Mult(Box<Node>, Box<Node>),
}

/// The value of an expression, with the wrap-around of 32-bit arithmetic.
pub open spec fn value(e: Node) -> i32
    decreases e,
{
    match e {
        Node::Int(v) => v,
        Node::Plus(l, r) => value(*l).wrapping_add(value(*r)),
        Node::Mult(l, r) => value(*l).wrapping_mul(value(*r)),
    }
}

/// The fully parenthesized text of an expression.
pub open spec fn full_text(e: Node) -> Seq<char>
    decreases e,
{
    match e {
        Node::Int(v) => decimal(v as int),
        Node::Plus(l, r) => seq!['('] + full_text(*l) + seq!['+'] + full_text(*r) + seq![')'],
        Node::Mult(l, r) => seq!['('] + full_text(*l) + seq!['*'] + full_text(*r) + seq![')'],
    }
}

/// The text of an expression with only the parentheses that precedence needs.
/// A sum is wrapped when it stands as an operand of a product (`sub`); a
/// product puts both of its operands in that position and is never wrapped.
pub open spec fn minimal_text(e: Node, sub: bool) -> Seq<char>
    decreases e,
{
    match e {
        Node::Int(v) => decimal(v as int),
        Node::Plus(l, r) => {
            let inner = minimal_text(*l, false) + seq!['+'] + minimal_text(*r, false);
            if sub {
                seq!['('] + inner + seq![')']
            } else {
                inner
            }
        },
        Node::Mult(l, r) => minimal_text(*l, true) + seq!['*'] + minimal_text(*r, true),
    }
}

/// The code of an expression: its operands' code in post-order, then its operator.
pub open spec fn code_of(e: Node) -> Seq<Code>
    decreases e,
{
    match e {
        Node::Int(v) => seq![Code::Push(v)],
        Node::Plus(l, r) => code_of(*l) + code_of(*r) + seq![Code::Plus],
        Node::Mult(l, r) => code_of(*l) + code_of(*r) + seq![Code::Mult],
    }
}

/// The operations that every kind of expression offers.
pub trait Exp: Sized {
    /// The tree this expression stands for.
    spec fn tree(&self) -> Node;

    fn eval(&self) -> (r: i32)
        ensures
            r == value(self.tree()),
    ;

    fn pretty(&self) -> (r: String)
        ensures
            r@ == full_text(self.tree()),
    ;

    fn smart_pretty(&self, is_subexpression: bool) -> (r: String)
        ensures
            r@ == minimal_text(self.tree(), is_subexpression),
    ;

    fn compile(&self) -> (r: Vec<Code>)
        ensures
            r@ == code_of(self.tree()),
    ;

    /// Gives the expression up as a tree.
    fn into_tree(self) -> (r: Node)
        ensures
            r == self.tree(),
    ;
}

fn bracket(inner: String) -> (r: String)
    ensures
        r@ == seq!['('] + inner@ + seq![')'],
{
    proof {
        reveal_strlit("(");
        reveal_strlit(")");
    }
    let mut s = String::from_str("(");
    s.append(inner.as_str());
    s.append(")");
    s
}

fn join(left: String, op: &str, right: String) -> (r: String)
    ensures
        r@ == left@ + op@ + right@,
{
    let mut s = left;
    s.append(op);
    s.append(right.as_str());
    s
}

impl Exp for Node {
    open spec fn tree(&self) -> Node {
        *self
    }

    fn eval(&self) -> (r: i32)
        decreases self,
    {
        match self {
            Node::Int(v) => *v,
            Node::Plus(l, r) => l.eval().wrapping_add(r.eval()),
            Node::Mult(l, r) => l.eval().wrapping_mul(r.eval()),
        }
    }

    fn pretty(&self) -> (r: String)
        decreases self,
    {
        proof {
            reveal_strlit("+");
            reveal_strlit("*");
        }
        match self {
            Node::Int(v) => i32_text(*v),
            Node::Plus(l, r) => bracket(join(l.pretty(), "+", r.pretty())),
            Node::Mult(l, r) => bracket(join(l.pretty(), "*", r.pretty())),
        }
    }

    fn smart_pretty(&self, is_subexpression: bool) -> (r: String)
        decreases self,
    {
        proof {
            reveal_strlit("+");
            reveal_strlit("*");
        }
        match self {
            Node::Int(v) => i32_text(*v),
            Node::Plus(l, r) => {
                let inner = join(l.smart_pretty(false), "+", r.smart_pretty(false));
                if is_subexpression {
                    bracket(inner)
                } else {
                    inner
                }
            },
            Node::Mult(l, r) => join(l.smart_pretty(true), "*", r.smart_pretty(true)),
        }
    }

    fn compile(&self) -> (r: Vec<Code>)
        decreases self,
    {
        match self {
            Node::Int(v) => vec![Code::Push(*v)],
            Node::Plus(l, r) => {
                let mut code = l.compile();
                let mut right = r.compile();
                code.append(&mut right);
                code.push(Code::Plus);
                code
            },
            Node::Mult(l, r) => {
                let mut code = l.compile();
                let mut right = r.compile();
                code.append(&mut right);
                code.push(Code::Mult);
                code
            },
        }
    }

    fn into_tree(self) -> (r: Node) {
        self
    }
}

/// A literal.
pub struct IntExp {
    val: i32,
}

impl IntExp {
    /// The literal `val`.
    pub fn new(val: i32) -> (e: IntExp)
        ensures
            e.tree() == Node::Int(val),
    {
        IntExp { val }
    }
}

impl Exp for IntExp {
    closed spec fn tree(&self) -> Node {
        Node::Int(self.val)
    }

    fn eval(&self) -> (r: i32) {
        self.val
    }

    fn pretty(&self) -> (r: String) {
        i32_text(self.val)
    }

    fn smart_pretty(&self, is_subexpression: bool) -> (r: String) {
        i32_text(self.val)
    }

    fn compile(&self) -> (r: Vec<Code>) {
        vec![Code::Push(self.val)]
    }

    fn into_tree(self) -> (r: Node) {
        Node::Int(self.val)
    }
}

/// A sum of two expressions.
pub struct PlusExp {
    l: Box<Node>,
    r: Box<Node>,
}

impl PlusExp {
    /// The sum of two boxed trees.
    pub fn new(l: Box<Node>, r: Box<Node>) -> (e: PlusExp)
        ensures
            e.tree() == Node::Plus(l, r),
    {
        PlusExp { l, r }
    }

    /// The sum of two expressions of any kind.
    pub fn new_static<L: Exp, R: Exp>(l: L, r: R) -> (e: PlusExp)
        ensures
            e.tree() == Node::Plus(Box::new(l.tree()), Box::new(r.tree())),
    {
        PlusExp { l: Box::new(l.into_tree()), r: Box::new(r.into_tree()) }
    }
}

impl Exp for PlusExp {
    closed spec fn tree(&self) -> Node {
        Node::Plus(self.l, self.r)
    }

    fn eval(&self) -> (r: i32) {
        self.l.eval().wrapping_add(self.r.eval())
    }

    fn pretty(&self) -> (r: String) {
        proof {
            reveal_strlit("+");
        }
        bracket(join(self.l.pretty(), "+", self.r.pretty()))
    }

    fn smart_pretty(&self, is_subexpression: bool) -> (r: String) {
        proof {
            reveal_strlit("+");
        }
        let inner = join(self.l.smart_pretty(false), "+", self.r.smart_pretty(false));
        if is_subexpression {
            bracket(inner)
        } else {
            inner
        }
    }

    fn compile(&self) -> (r: Vec<Code>) {
        let mut code = self.l.compile();
        let mut right = self.r.compile();
        code.append(&mut right);
        code.push(Code::Plus);
        code
    }

    fn into_tree(self) -> (r: Node) {
        Node::Plus(self.l, self.r)
    }
}

/// A product of two expressions.
pub struct MultExp {
    l: Box<Node>,
    r: Box<Node>,
}

impl MultExp {
    /// The product of two boxed trees.
    pub fn new(l: Box<Node>, r: Box<Node>) -> (e: MultExp)
        ensures
            e.tree() == Node::Mult(l, r),
    {
        MultExp { l, r }
    }

    /// The product of two expressions of any kind.
    pub fn new_static<L: Exp, R: Exp>(l: L, r: R) -> (e: MultExp)
        ensures
            e.tree() == Node::Mult(Box::new(l.tree()), Box::new(r.tree())),
    {
        MultExp { l: Box::new(l.into_tree()), r: Box::new(r.into_tree()) }
    }
}

impl Exp for MultExp {
    closed spec fn tree(&self) -> Node {
        Node::Mult(self.l, self.r)
    }

    fn eval(&self) -> (r: i32) {
        self.l.eval().wrapping_mul(self.r.eval())
    }

    fn pretty(&self) -> (r: String) {
        proof {
            reveal_strlit("*");
        }
        bracket(join(self.l.pretty(), "*", self.r.pretty()))
    }

    fn smart_pretty(&self, is_subexpression: bool) -> (r: String) {
        proof {
            reveal_strlit("*");
        }
        join(self.l.smart_pretty(true), "*", self.r.smart_pretty(true))
    }

    fn compile(&self) -> (r: Vec<Code>) {
        let mut code = self.l.compile();
        let mut right = self.r.compile();
        code.append(&mut right);
        code.push(Code::Mult);
        code
    }

    fn into_tree(self) -> (r: Node) {
        Node::Mult(self.l, self.r)
    }
}

/// Running the code of `e`, placed at index `k` of a longer program, leaves the
/// value of `e` on top of the stack it started from and goes on after that code.
pub proof fn lemma_code_pushes_value(e: Node, whole: Seq<Code>, k: int, stack: Seq<i32>)
    requires
        0 <= k,
        k + code_of(e).len() <= whole.len(),
        whole.subrange(k, k + code_of(e).len()) == code_of(e),
    ensures
        exec_from(whole, k, stack) == exec_from(whole, k + code_of(e).len(), stack.push(value(e))),
    decreases e,
{
    match e {
        Node::Int(v) => {
            assert(whole[k] == whole.subrange(k, k + 1)[0]);
        },
        Node::Plus(l, r) => {
            lemma_operator_layout(*l, *r, Code::Plus, whole, k, stack);
            lemma_code_pushes_value(*l, whole, k, stack);
            lemma_code_pushes_value(*r, whole, k + code_of(*l).len(), stack.push(value(*l)));
        },
        Node::Mult(l, r) => {
            lemma_operator_layout(*l, *r, Code::Mult, whole, k, stack);
            lemma_code_pushes_value(*l, whole, k, stack);
            lemma_code_pushes_value(*r, whole, k + code_of(*l).len(), stack.push(value(*l)));
        },
    }
}

/// Where the code of an operator node lies, its operands' code lies in the two
/// parts before the operator, which combines the two values on top.
proof fn lemma_operator_layout(l: Node, r: Node, op: Code, whole: Seq<Code>, k: int, stack: Seq<i32>)
    requires
        op == Code::Plus || op == Code::Mult,
        0 <= k,
        k + code_of(l).len() + code_of(r).len() + 1 <= whole.len(),
        whole.subrange(k, k + code_of(l).len() + code_of(r).len() + 1)
            == code_of(l) + code_of(r) + seq![op],
    ensures
        whole.subrange(k, k + code_of(l).len()) == code_of(l),
        whole.subrange(k + code_of(l).len(), k + code_of(l).len() + code_of(r).len()) == code_of(r),
        exec_from(whole, k + code_of(l).len() + code_of(r).len(), stack.push(value(l)).push(value(r)))
            == exec_from(
            whole,
            k + code_of(l).len() + code_of(r).len() + 1,
            stack.push(combine(op, value(l), value(r))),
        ),
{
    let cl = code_of(l);
    let cr = code_of(r);
    let a = cl.len() as int;
    let b = cr.len() as int;
    let n = a + b + 1;
    let sub = whole.subrange(k, k + n);
    assert(sub == cl + cr + seq![op]);
    assert(whole.subrange(k, k + a) == cl) by {
        assert(whole.subrange(k, k + a) == sub.subrange(0, a));
        assert(sub.subrange(0, a) == cl);
    }
    assert(whole.subrange(k + a, k + a + b) == cr) by {
        assert(whole.subrange(k + a, k + a + b) == sub.subrange(a, a + b));
        assert(sub.subrange(a, a + b) == cr);
    }
    assert(whole[k + n - 1] == op) by {
        assert(whole[k + n - 1] == sub[n - 1]);
    }
    let s2 = stack.push(value(l)).push(value(r));
    assert(s2.subrange(0, s2.len() - 2) == stack);
}

/// Compiling an expression and running the code on the machine gives the value
/// that evaluating the expression gives.
pub proof fn lemma_compile_agrees_with_eval(e: Node)
    ensures
        run_result(code_of(e)) == Ok::<i32, crate::vm::VmError>(value(e)),
{
    let code = code_of(e);
    assert(code.subrange(0, code.len() as int) == code);
    lemma_code_pushes_value(e, code, 0, Seq::empty());
    assert(Seq::<i32>::empty().push(value(e)).last() == value(e));
}

} // verus!
