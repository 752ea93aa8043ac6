//! Code generation: the syntax tree to assembly text for the
//! stack-oriented target machine.
//!
//! Expressions are generated in value mode into the accumulator `%rax`;
//! a binary node evaluates its right child first, preserves it on the
//! stack, evaluates the left child, then combines. Address mode is
//! defined exactly for variable references: it loads the address of the
//! variable's frame slot. Each `if` statement draws a fresh, strictly
//! increasing label-pair index from a counter shared across the whole
//! pass. Every local gets one eight-byte slot at a fixed negative offset
//! from the frame base; the frame is rounded up to sixteen-byte
//! alignment, and the program is bracketed by a prologue, a single
//! epilogue label, and a return.

use vstd::prelude::*;
use vstd::string::*;

use crate::node::{
    contains_name, lvalues_ok, lvalues_ok_seq, node_view, nodes_view, num_ifs, num_ifs_seq,
    vars_declared, vars_declared_seq, wf_expr, wf_stmt, wf_stmt_seq, lemma_nodes_view, Node,
    NodeKind, NodeV, Program, ProgramV,
};

verus! {

/// One line of the emitted assembly: an instruction, a directive or a
/// label of the fixed vocabulary.
#[derive(Debug, Clone, Copy, PartialEq, Eq, Structural)]
pub enum Instr {
    /// `mov $v, %rax` — load an immediate into the accumulator.
    MovImm(i32),
    /// `lea OFF(%rbp), %rax` — the address of frame slot `idx`, at byte
    /// offset `-8 * (idx + 1)` from the frame base.
    Lea(usize),
    /// `mov (%rax), %rax` — load the value at the accumulator's address.
    Load,
    /// `push %rax`
    Push,
    /// `pop %rdi`
    Pop,
    /// `mov %rax, (%rdi)` — store the accumulator at the saved address.
    Store,
    /// `add %rdi, %rax`
    Add,
    /// `sub %rdi, %rax`
    Sub,
    /// `imul %rdi, %rax`
    Mul,
    /// `cqo` — sign-extend the accumulator for division.
    Cqo,
    /// `idiv %rdi`
    Idiv,
    /// `cmp %rdi, %rax`
    Cmp,
    /// `sete %al`
    Sete,
    /// `setne %al`
    Setne,
    /// `setl %al`
    Setl,
    /// `setle %al`
    Setle,
    /// `movzb %al, %rax` — zero-extend the comparison result.
    Movzb,
    /// `cmp $0, %rax` — test an `if` condition against zero.
    CmpZero,
    /// `je  .L.else.n` — skip to the else branch when the condition is
    /// zero.
    Je(u64),
    /// `jmp .L.end.n` — jump past the else branch.
    Jmp(u64),
    /// `.L.else.n:`
    ElseLabel(u64),
    /// `.L.end.n:`
    EndLabel(u64),
    /// `jmp .L.return` — transfer control to the single epilogue.
    JmpReturn,
    /// `.globl main`
    Globl,
    /// `main:`
    MainLabel,
    /// `push %rbp`
    PushRbp,
    /// `mov %rsp, %rbp`
    MovRspRbp,
    /// `sub $size, %rsp` — reserve the frame.
    SubRsp(u128),
    /// `.L.return:`
    ReturnLabel,
    /// `mov %rbp, %rsp`
    MovRbpRsp,
    /// `pop %rbp`
    PopRbp,
    /// `ret`
    Ret,
}

/// The frame-slot index of `name`: its position in the locals table.
pub open spec fn name_index(locals: Seq<Seq<char>>, name: Seq<char>) -> int
    decreases locals.len(),
{
    if locals.len() == 0 {
        0
    } else if locals[0] == name {
        0
    } else {
        1 + name_index(locals.skip(1), name)
    }
}

/// Rounds `n` up to the next multiple of `align`.
pub open spec fn spec_align_to(n: int, align: int) -> int {
    ((n + align - 1) / align) * align
}

/// Address mode: the instructions that load the address of an lvalue's
/// frame slot into the accumulator; defined exactly for variable
/// references.
pub open spec fn spec_gen_addr(n: NodeV, locals: Seq<Seq<char>>) -> Seq<Instr> {
    match n {
        NodeV::Var(name) => seq![Instr::Lea(name_index(locals, name) as usize)],
        _ => Seq::empty(),
    }
}

/// The trailing instructions that combine the left operand in the
/// accumulator with the preserved right operand.
pub open spec fn spec_gen_binop(n: NodeV) -> Seq<Instr> {
    match n {
        NodeV::Add(_, _) => seq![Instr::Add],
        NodeV::Sub(_, _) => seq![Instr::Sub],
        NodeV::Multiply(_, _) => seq![Instr::Mul],
        NodeV::Div(_, _) => seq![Instr::Cqo, Instr::Idiv],
        NodeV::Equal(_, _) => seq![Instr::Cmp, Instr::Sete, Instr::Movzb],
        NodeV::NotEqual(_, _) => seq![Instr::Cmp, Instr::Setne, Instr::Movzb],
        NodeV::LessThan(_, _) => seq![Instr::Cmp, Instr::Setl, Instr::Movzb],
        NodeV::LessThanOrEqual(_, _) => seq![Instr::Cmp, Instr::Setle, Instr::Movzb],
        _ => Seq::empty(),
    }
}

/// Value mode: the instructions that leave the value of expression `n`
/// in the accumulator.
pub open spec fn spec_gen_expr(n: NodeV, locals: Seq<Seq<char>>) -> Seq<Instr>
    decreases n,
{
    match n {
        NodeV::Num(v) => seq![Instr::MovImm(v)],
        NodeV::Var(_) => spec_gen_addr(n, locals) + seq![Instr::Load],
        NodeV::Assign(l, r) => spec_gen_addr(*l, locals) + seq![Instr::Push] + spec_gen_expr(
            *r,
            locals,
        ) + seq![Instr::Pop, Instr::Store],
        NodeV::Add(l, r) => combine_binary(
            spec_gen_expr(*r, locals),
            spec_gen_expr(*l, locals),
            spec_gen_binop(n),
        ),
        NodeV::Sub(l, r) => combine_binary(
            spec_gen_expr(*r, locals),
            spec_gen_expr(*l, locals),
            spec_gen_binop(n),
        ),
        NodeV::Multiply(l, r) => combine_binary(
            spec_gen_expr(*r, locals),
            spec_gen_expr(*l, locals),
            spec_gen_binop(n),
        ),
        NodeV::Div(l, r) => combine_binary(
            spec_gen_expr(*r, locals),
            spec_gen_expr(*l, locals),
            spec_gen_binop(n),
        ),
        NodeV::Equal(l, r) => combine_binary(
            spec_gen_expr(*r, locals),
            spec_gen_expr(*l, locals),
            spec_gen_binop(n),
        ),
        NodeV::NotEqual(l, r) => combine_binary(
            spec_gen_expr(*r, locals),
            spec_gen_expr(*l, locals),
            spec_gen_binop(n),
        ),
        NodeV::LessThan(l, r) => combine_binary(
            spec_gen_expr(*r, locals),
            spec_gen_expr(*l, locals),
            spec_gen_binop(n),
        ),
        NodeV::LessThanOrEqual(l, r) => combine_binary(
            spec_gen_expr(*r, locals),
            spec_gen_expr(*l, locals),
            spec_gen_binop(n),
        ),
        _ => Seq::empty(),
    }
}

/// Binary evaluation order: the right operand's code first, its value
/// preserved on the stack, then the left operand's code, recovery of the
/// right value, and the combining instructions.
pub open spec fn combine_binary(
    rcode: Seq<Instr>,
    lcode: Seq<Instr>,
    combine: Seq<Instr>,
) -> Seq<Instr> {
    rcode + seq![Instr::Push] + lcode + seq![Instr::Pop] + combine
}

/// Statement generation: the emitted instructions and the label counter
/// after the statement.
pub open spec fn spec_gen_stmt(n: NodeV, locals: Seq<Seq<char>>, c: nat) -> (Seq<Instr>, nat)
    decreases n,
{
    match n {
        NodeV::ExpressionStatement(e) => (spec_gen_expr(*e, locals), c),
        NodeV::Return(e) => (spec_gen_expr(*e, locals) + seq![Instr::JmpReturn], c),
        NodeV::Block(stmts) => spec_gen_stmts(stmts, locals, c),
        NodeV::If(cond, t, els) => {
            let c1 = c + 1;
            let head = spec_gen_expr(*cond, locals) + seq![
                Instr::CmpZero,
                Instr::Je(c1 as u64),
            ];
            let (then_instrs, c2) = spec_gen_stmt(*t, locals, c1);
            let mid = seq![Instr::Jmp(c1 as u64), Instr::ElseLabel(c1 as u64)];
            match els {
                Some(e) => {
                    let (else_instrs, c3) = spec_gen_stmt(*e, locals, c2);
                    (
                        head + then_instrs + mid + else_instrs + seq![
                            Instr::EndLabel(c1 as u64),
                        ],
                        c3,
                    )
                },
                None => (head + then_instrs + mid + seq![Instr::EndLabel(c1 as u64)], c2),
            }
        },
        _ => (Seq::empty(), c),
    }
}

/// Statement-sequence generation, threading the label counter left to
/// right.
pub open spec fn spec_gen_stmts(
    stmts: Seq<NodeV>,
    locals: Seq<Seq<char>>,
    c: nat,
) -> (Seq<Instr>, nat)
    decreases stmts,
{
    if stmts.len() == 0 {
        (Seq::empty(), c)
    } else {
        let (first, c2) = spec_gen_stmt(stmts[0], locals, c);
        let (rest, c3) = spec_gen_stmts(stmts.skip(1), locals, c2);
        (first + rest, c3)
    }
}

/// The label counter advances by exactly one index per `if` statement.
pub proof fn lemma_gen_stmt_count(n: NodeV, locals: Seq<Seq<char>>, c: nat)
    ensures
        spec_gen_stmt(n, locals, c).1 == c + num_ifs(n),
    decreases n,
{
    match n {
        NodeV::Block(stmts) => {
            lemma_gen_stmts_count(stmts, locals, c);
        },
        NodeV::If(cond, t, els) => {
            lemma_gen_stmt_count(*t, locals, c + 1);
            match els {
                Some(e) => {
                    lemma_gen_stmt_count(*e, locals, spec_gen_stmt(*t, locals, c + 1).1);
                },
                None => {},
            }
        },
        _ => {},
    }
}

/// The label counter over a statement sequence advances by its total
/// `if` count.
pub proof fn lemma_gen_stmts_count(stmts: Seq<NodeV>, locals: Seq<Seq<char>>, c: nat)
    ensures
        spec_gen_stmts(stmts, locals, c).1 == c + num_ifs_seq(stmts),
    decreases stmts,
{
    if stmts.len() > 0 {
        lemma_gen_stmt_count(stmts[0], locals, c);
        lemma_gen_stmts_count(stmts.skip(1), locals, spec_gen_stmt(stmts[0], locals, c).1);
    }
}

/// The whole program: prologue with the aligned frame reservation, the
/// body, the single epilogue label, frame restoration and return.
pub open spec fn spec_codegen(p: ProgramV) -> Seq<Instr> {
    seq![
        Instr::Globl,
        Instr::MainLabel,
        Instr::PushRbp,
        Instr::MovRspRbp,
        Instr::SubRsp(spec_align_to(8 * p.locals.len() as int, 16) as u128),
    ] + spec_gen_stmt(p.body, p.locals, 0).0 + seq![
        Instr::ReturnLabel,
        Instr::MovRbpRsp,
        Instr::PopRbp,
        Instr::Ret,
    ]
}

/// Emits the assembly text of the target machine: it walks the tree,
/// assigns frame slots and label indices, and renders one line per
/// instruction or label.
pub struct Generator {
    pub locals: Vec<String>,
    pub stack_size: u128,
    pub count: u64,
}

/// Appends one instruction.
fn push_instr(out: &mut Vec<Instr>, i: Instr)
    ensures
        final(out)@ == old(out)@.push(i),
{
    out.push(i);
}

/// The frame-slot index of `name` in `locals`.
fn find_index(locals: &Vec<String>, name: &String) -> (r: usize)
    requires
        contains_name(locals.deep_view(), name@),
    ensures
        r < locals@.len(),
        r as int == name_index(locals.deep_view(), name@),
{
    let ghost dv = locals.deep_view();
    proof {
        assert(dv.skip(0) =~= dv);
    }
    let mut i: usize = 0;
    while i < locals.len()
        invariant
            0 <= i <= locals@.len(),
            contains_name(dv, name@),
            dv == locals.deep_view(),
            forall|k: int| 0 <= k < i ==> dv[k] != name@,
            name_index(dv, name@) == i + name_index(dv.skip(i as int), name@),
        decreases locals@.len() - i,
    {
        if locals[i] == *name {
            proof {
                assert(dv.skip(i as int)[0] == dv[i as int]);
                assert(name_index(dv.skip(i as int), name@) == 0);
            }
            return i;
        }
        proof {
            assert(dv.skip(i as int)[0] == dv[i as int]);
            assert(dv.skip(i as int).skip(1) =~= dv.skip(i + 1));
        }
        i = i + 1;
    }
    proof {
        let w = choose|k: int| 0 <= k < dv.len() && dv[k] == name@;
        assert(false);
    }
    0
}

impl Generator {
    /// A generator with an empty frame and the label counter at zero.
    pub fn new() -> (g: Self)
        ensures
            g.locals@.len() == 0,
            g.stack_size == 0,
            g.count == 0,
    {
        Generator { locals: Vec::new(), stack_size: 0, count: 0 }
    }

    /// Address mode: emits the address of the variable's frame slot.
    fn gen_address(&self, out: &mut Vec<Instr>, node: &Node)
        requires
            node@ matches NodeV::Var(_),
            vars_declared(node@, self.locals.deep_view()),
        ensures
            final(out)@ == old(out)@ + spec_gen_addr(node@, self.locals.deep_view()),
    {
        let ghost pre = out@;
        match &node.kind {
            NodeKind::Var(name) => {
                let idx = find_index(&self.locals, name);
                push_instr(out, Instr::Lea(idx));
                proof {
                    assert(out@ =~= pre + spec_gen_addr(node@, self.locals.deep_view()));
                }
            },
            _ => {
                proof {
                    assert(false);
                }
            },
        }
    }

    /// Value mode: emits the evaluation of expression `node` into the
    /// accumulator.
    #[verifier::rlimit(100)]
    fn gen_expression(&self, out: &mut Vec<Instr>, node: &Node)
        requires
            wf_expr(node@),
            lvalues_ok(node@),
            vars_declared(node@, self.locals.deep_view()),
        ensures
            final(out)@ == old(out)@ + spec_gen_expr(node@, self.locals.deep_view()),
        decreases node,
    {
        let ghost pre = out@;
        let ghost dv = self.locals.deep_view();
        match &node.kind {
            NodeKind::Num(v) => {
                push_instr(out, Instr::MovImm(*v));
                proof {
                    assert(out@ =~= pre + spec_gen_expr(node@, dv));
                }
            },
            NodeKind::Var(_) => {
                self.gen_address(out, node);
                push_instr(out, Instr::Load);
                proof {
                    assert(out@ =~= pre + spec_gen_expr(node@, dv));
                }
            },
            NodeKind::Assign(l, r) => {
                self.gen_address(out, l);
                push_instr(out, Instr::Push);
                self.gen_expression(out, r);
                push_instr(out, Instr::Pop);
                push_instr(out, Instr::Store);
                proof {
                    assert(out@ =~= pre + spec_gen_expr(node@, dv));
                }
            },
            NodeKind::Add(l, r) => {
                self.gen_expression(out, r);
                push_instr(out, Instr::Push);
                self.gen_expression(out, l);
                push_instr(out, Instr::Pop);
                push_instr(out, Instr::Add);
                proof {
                    assert(out@ =~= pre + spec_gen_expr(node@, dv));
                }
            },
            NodeKind::Sub(l, r) => {
                self.gen_expression(out, r);
                push_instr(out, Instr::Push);
                self.gen_expression(out, l);
                push_instr(out, Instr::Pop);
                push_instr(out, Instr::Sub);
                proof {
                    assert(out@ =~= pre + spec_gen_expr(node@, dv));
                }
            },
            NodeKind::Multiply(l, r) => {
                self.gen_expression(out, r);
                push_instr(out, Instr::Push);
                self.gen_expression(out, l);
                push_instr(out, Instr::Pop);
                push_instr(out, Instr::Mul);
                proof {
                    assert(out@ =~= pre + spec_gen_expr(node@, dv));
                }
            },
            NodeKind::Div(l, r) => {
                self.gen_expression(out, r);
                push_instr(out, Instr::Push);
                self.gen_expression(out, l);
                push_instr(out, Instr::Pop);
                push_instr(out, Instr::Cqo);
                push_instr(out, Instr::Idiv);
                proof {
                    assert(out@ =~= pre + spec_gen_expr(node@, dv));
                }
            },
            NodeKind::Equal(l, r) => {
                self.gen_expression(out, r);
                push_instr(out, Instr::Push);
                self.gen_expression(out, l);
                push_instr(out, Instr::Pop);
                push_instr(out, Instr::Cmp);
                push_instr(out, Instr::Sete);
                push_instr(out, Instr::Movzb);
                proof {
                    assert(out@ =~= pre + spec_gen_expr(node@, dv));
                }
            },
            NodeKind::NotEqual(l, r) => {
                self.gen_expression(out, r);
                push_instr(out, Instr::Push);
                self.gen_expression(out, l);
                push_instr(out, Instr::Pop);
                push_instr(out, Instr::Cmp);
                push_instr(out, Instr::Setne);
                push_instr(out, Instr::Movzb);
                proof {
                    assert(out@ =~= pre + spec_gen_expr(node@, dv));
                }
            },
            NodeKind::LessThan(l, r) => {
                self.gen_expression(out, r);
                push_instr(out, Instr::Push);
                self.gen_expression(out, l);
                push_instr(out, Instr::Pop);
                push_instr(out, Instr::Cmp);
                push_instr(out, Instr::Setl);
                push_instr(out, Instr::Movzb);
                proof {
                    assert(out@ =~= pre + spec_gen_expr(node@, dv));
                }
            },
            NodeKind::LessThanOrEqual(l, r) => {
                self.gen_expression(out, r);
                push_instr(out, Instr::Push);
                self.gen_expression(out, l);
                push_instr(out, Instr::Pop);
                push_instr(out, Instr::Cmp);
                push_instr(out, Instr::Setle);
                push_instr(out, Instr::Movzb);
                proof {
                    assert(out@ =~= pre + spec_gen_expr(node@, dv));
                }
            },
            _ => {
                proof {
                    assert(false);
                }
            },
        }
    }

    /// Emits the statements of a block from index `i` on, threading the
    /// label counter left to right.
    #[verifier::rlimit(100)]
    fn gen_statements(&mut self, out: &mut Vec<Instr>, stmts: &Vec<Node>, i: usize)
        requires
            i <= stmts@.len(),
            wf_stmt_seq(nodes_view(stmts@).skip(i as int)),
            lvalues_ok_seq(nodes_view(stmts@).skip(i as int)),
            vars_declared_seq(nodes_view(stmts@).skip(i as int), old(self).locals.deep_view()),
            old(self).count + num_ifs_seq(nodes_view(stmts@).skip(i as int)) <= u64::MAX,
        ensures
            final(self).locals == old(self).locals,
            final(self).stack_size == old(self).stack_size,
            ({
                let (instrs, c2) = spec_gen_stmts(
                    nodes_view(stmts@).skip(i as int),
                    old(self).locals.deep_view(),
                    old(self).count as nat,
                );
                final(out)@ == old(out)@ + instrs && final(self).count == c2
            }),
        decreases stmts, stmts@.len() - i,
    {
        let ghost pre = out@;
        let ghost dv = self.locals.deep_view();
        let ghost c0 = self.count as nat;
        let ghost sv = nodes_view(stmts@);
        proof {
            lemma_nodes_view(stmts@);
        }
        if i >= stmts.len() {
            proof {
                assert(sv.skip(i as int) =~= Seq::<NodeV>::empty());
                assert(out@ =~= pre + Seq::<Instr>::empty());
            }
            return;
        }
        proof {
            assert(sv.skip(i as int)[0] == sv[i as int]);
            assert(sv.skip(i as int).skip(1) =~= sv.skip(i + 1));
            assert(node_view(stmts@[i as int]) == sv[i as int]);
        }
        self.gen_statement(out, &stmts[i]);
        proof {
            lemma_gen_stmt_count(sv[i as int], dv, c0);
        }
        self.gen_statements(out, stmts, i + 1);
        proof {
            let (first, c2) = spec_gen_stmt(sv[i as int], dv, c0);
            let (rest, c3) = spec_gen_stmts(sv.skip(i + 1), dv, c2);
            assert(out@ =~= pre + (first + rest));
        }
    }

    /// Emits one statement, drawing fresh label indices as `if`
    /// statements are met.
    #[verifier::rlimit(100)]
    fn gen_statement(&mut self, out: &mut Vec<Instr>, node: &Node)
        requires
            wf_stmt(node@),
            lvalues_ok(node@),
            vars_declared(node@, old(self).locals.deep_view()),
            old(self).count + num_ifs(node@) <= u64::MAX,
        ensures
            final(self).locals == old(self).locals,
            final(self).stack_size == old(self).stack_size,
            ({
                let (instrs, c2) = spec_gen_stmt(
                    node@,
                    old(self).locals.deep_view(),
                    old(self).count as nat,
                );
                final(out)@ == old(out)@ + instrs && final(self).count == c2
            }),
        decreases node,
    {
        let ghost pre = out@;
        let ghost dv = self.locals.deep_view();
        let ghost c0 = self.count as nat;
        match &node.kind {
            NodeKind::ExpressionStatement(e) => {
                self.gen_expression(out, e);
                proof {
                    assert(out@ =~= pre + spec_gen_stmt(node@, dv, c0).0);
                }
            },
            NodeKind::Return(e) => {
                self.gen_expression(out, e);
                push_instr(out, Instr::JmpReturn);
                proof {
                    assert(out@ =~= pre + spec_gen_stmt(node@, dv, c0).0);
                }
            },
            NodeKind::Block(stmts) => {
                let ghost sv = nodes_view(stmts@);
                proof {
                    assert(node@ == NodeV::Block(sv));
                    assert(wf_stmt(node@) == wf_stmt_seq(sv));
                    assert(lvalues_ok(node@) == lvalues_ok_seq(sv));
                    assert(vars_declared(node@, dv) == vars_declared_seq(sv, dv));
                    assert(num_ifs(node@) == num_ifs_seq(sv));
                    assert(sv.skip(0) =~= sv);
                }
                self.gen_statements(out, stmts, 0);
                proof {
                    assert(out@ =~= pre + spec_gen_stmt(node@, dv, c0).0);
                }
            },
            NodeKind::If(cond, t, els) => {
                proof {
                    assert(num_ifs(node@) >= 1);
                }
                self.gen_expression(out, cond);
                let c1 = self.count + 1;
                self.count = c1;
                push_instr(out, Instr::CmpZero);
                push_instr(out, Instr::Je(c1));
                self.gen_statement(out, t);
                proof {
                    lemma_gen_stmt_count(t@, dv, c1 as nat);
                }
                push_instr(out, Instr::Jmp(c1));
                push_instr(out, Instr::ElseLabel(c1));
                match els {
                    Some(e) => {
                        self.gen_statement(out, e);
                    },
                    None => {},
                }
                push_instr(out, Instr::EndLabel(c1));
                proof {
                    assert(out@ =~= pre + spec_gen_stmt(node@, dv, c0).0);
                }
            },
            _ => {
                proof {
                    assert(false);
                }
            },
        }
    }

    /// Assigns every local its frame slot and sizes the frame: one
    /// eight-byte slot per name, rounded up to sixteen-byte alignment.
    fn assign_lvar_offset(&mut self, function: &Program)
        ensures
            final(self).locals.deep_view() == function.locals.deep_view(),
            final(self).stack_size as int == spec_align_to(
                8 * function.locals@.len() as int,
                16,
            ),
            final(self).count == old(self).count,
    {
        self.locals = crate::parser::clone_locals(&function.locals);
        self.stack_size = align_to(8 * (self.locals.len() as u128), 16);
    }

    /// The instruction sequence of the whole program: prologue, body,
    /// epilogue.
    pub fn instructions(&mut self, function: &Program) -> (out: Vec<Instr>)
        requires
            function@.wf(),
            num_ifs(function@.body) <= u64::MAX,
            old(self).count == 0,
        ensures
            out@ == spec_codegen(function@),
    {
        self.assign_lvar_offset(function);
        let mut out: Vec<Instr> = Vec::new();
        push_instr(&mut out, Instr::Globl);
        push_instr(&mut out, Instr::MainLabel);
        push_instr(&mut out, Instr::PushRbp);
        push_instr(&mut out, Instr::MovRspRbp);
        push_instr(&mut out, Instr::SubRsp(self.stack_size));
        self.gen_statement(&mut out, &function.body);
        push_instr(&mut out, Instr::ReturnLabel);
        push_instr(&mut out, Instr::MovRbpRsp);
        push_instr(&mut out, Instr::PopRbp);
        push_instr(&mut out, Instr::Ret);
        proof {
            assert(out@ =~= spec_codegen(function@));
        }
        out
    }

    /// Lowers the program into assembly text: a single deterministic
    /// pass whose output is the rendering of [`spec_codegen`].
    pub fn codegen(&mut self, function: &Program) -> (out: String)
        requires
            function@.wf(),
            num_ifs(function@.body) <= u64::MAX,
            old(self).count == 0,
        ensures
            out@ == spec_render(spec_codegen(function@)),
    {
        let instrs = self.instructions(function);
        render(&instrs)
    }
}

/// Distinct names receive distinct, stable frame slots: the slot of the
/// `i`-th declared local is `i` itself, so two different names never
/// share a slot, and every use of one name resolves to the same slot.
pub proof fn lemma_distinct_slots(locals: Seq<Seq<char>>, i: int)
    requires
        crate::node::distinct_names(locals),
        0 <= i < locals.len(),
    ensures
        name_index(locals, locals[i]) == i,
    decreases i,
{
    if locals.len() > 0 {
        if i == 0 {
        } else {
            assert(locals[0] != locals[i]);
            assert forall|a: int, b: int|
                0 <= a < b < locals.skip(1).len() implies locals.skip(1)[a] != locals.skip(
                1,
            )[b] by {
                assert(locals.skip(1)[a] == locals[a + 1]);
                assert(locals.skip(1)[b] == locals[b + 1]);
            }
            assert(locals.skip(1)[i - 1] == locals[i]);
            lemma_distinct_slots(locals.skip(1), i - 1);
        }
    }
}


/// The decimal digits of `n`, most significant first.
pub open spec fn spec_dec(n: nat) -> Seq<char>
    decreases n,
{
    if n < 10 {
        seq![digit_char(n)]
    } else {
        spec_dec(n / 10).push(digit_char(n % 10))
    }
}

/// The character of one decimal digit.
pub open spec fn digit_char(d: nat) -> char {
    if d == 0 {
        '0'
    } else if d == 1 {
        '1'
    } else if d == 2 {
        '2'
    } else if d == 3 {
        '3'
    } else if d == 4 {
        '4'
    } else if d == 5 {
        '5'
    } else if d == 6 {
        '6'
    } else if d == 7 {
        '7'
    } else if d == 8 {
        '8'
    } else {
        '9'
    }
}

/// A possibly negative immediate, in decimal.
pub open spec fn spec_dec_i32(v: i32) -> Seq<char> {
    if v >= 0 {
        spec_dec(v as nat)
    } else {
        seq!['-'] + spec_dec((-(v as int)) as nat)
    }
}

/// The text of one emitted line, newline included.
pub open spec fn spec_render_instr(i: Instr) -> Seq<char> {
    match i {
        Instr::MovImm(v) => "  mov $"@ + spec_dec_i32(v) + ", %rax\n"@,
        Instr::Lea(idx) => "  lea -"@ + spec_dec((8 * (idx + 1)) as nat) + "(%rbp), %rax\n"@,
        Instr::Load => "  mov (%rax), %rax\n"@,
        Instr::Push => "  push %rax\n"@,
        Instr::Pop => "  pop %rdi\n"@,
        Instr::Store => "  mov %rax, (%rdi)\n"@,
        Instr::Add => "  add %rdi, %rax\n"@,
        Instr::Sub => "  sub %rdi, %rax\n"@,
        Instr::Mul => "  imul %rdi, %rax\n"@,
        Instr::Cqo => "  cqo\n"@,
        Instr::Idiv => "  idiv %rdi\n"@,
        Instr::Cmp => "  cmp %rdi, %rax\n"@,
        Instr::Sete => "  sete %al\n"@,
        Instr::Setne => "  setne %al\n"@,
        Instr::Setl => "  setl %al\n"@,
        Instr::Setle => "  setle %al\n"@,
        Instr::Movzb => "  movzb %al, %rax\n"@,
        Instr::CmpZero => "  cmp $0, %rax\n"@,
        Instr::Je(n) => "  je  .L.else."@ + spec_dec(n as nat) + "\n"@,
        Instr::Jmp(n) => "  jmp .L.end."@ + spec_dec(n as nat) + "\n"@,
        Instr::ElseLabel(n) => ".L.else."@ + spec_dec(n as nat) + ":\n"@,
        Instr::EndLabel(n) => ".L.end."@ + spec_dec(n as nat) + ":\n"@,
        Instr::JmpReturn => "  jmp .L.return\n"@,
        Instr::Globl => "  .globl main\n"@,
        Instr::MainLabel => "main:\n"@,
        Instr::PushRbp => "  push %rbp\n"@,
        Instr::MovRspRbp => "  mov %rsp, %rbp\n"@,
        Instr::SubRsp(sz) => "  sub $"@ + spec_dec(sz as nat) + ", %rsp\n"@,
        Instr::ReturnLabel => ".L.return:\n"@,
        Instr::MovRbpRsp => "  mov %rbp, %rsp\n"@,
        Instr::PopRbp => "  pop %rbp\n"@,
        Instr::Ret => "  ret\n"@,
    }
}

/// The whole emitted text, one line per instruction.
pub open spec fn spec_render(instrs: Seq<Instr>) -> Seq<char>
    decreases instrs,
{
    if instrs.len() == 0 {
        Seq::empty()
    } else {
        spec_render(instrs.drop_last()) + spec_render_instr(instrs.last())
    }
}

/// One decimal digit as text.
fn digit_str(d: u128) -> (r: String)
    requires
        d < 10,
    ensures
        r@ == seq![digit_char(d as nat)],
{
    let r: &str = if d == 0 {
        "0"
    } else if d == 1 {
        "1"
    } else if d == 2 {
        "2"
    } else if d == 3 {
        "3"
    } else if d == 4 {
        "4"
    } else if d == 5 {
        "5"
    } else if d == 6 {
        "6"
    } else if d == 7 {
        "7"
    } else if d == 8 {
        "8"
    } else {
        "9"
    };
    proof {
        reveal_strlit("0");
        reveal_strlit("1");
        reveal_strlit("2");
        reveal_strlit("3");
        reveal_strlit("4");
        reveal_strlit("5");
        reveal_strlit("6");
        reveal_strlit("7");
        reveal_strlit("8");
        reveal_strlit("9");
        assert(r@ =~= seq![digit_char(d as nat)]);
    }
    r.to_owned()
}

/// `n` in decimal.
fn dec_u128(n: u128) -> (r: String)
    ensures
        r@ == spec_dec(n as nat),
    decreases n,
{
    if n < 10 {
        digit_str(n)
    } else {
        let mut s = dec_u128(n / 10);
        let d = digit_str(n % 10);
        s.append(d.as_str());
        proof {
            assert(s@ =~= spec_dec((n / 10) as nat) + seq![digit_char((n % 10) as nat)]);
            assert(spec_dec(n as nat) =~= spec_dec((n / 10) as nat).push(
                digit_char((n % 10) as nat),
            ));
            assert(s@ =~= spec_dec(n as nat));
        }
        s
    }
}

/// A possibly negative immediate in decimal.
fn dec_i32(v: i32) -> (r: String)
    ensures
        r@ == spec_dec_i32(v),
{
    if v >= 0 {
        let r = dec_u128(v as u128);
        r
    } else {
        let mut s = String::from_str("-");
        let m: u128 = (-(v as i64)) as u128;
        let d = dec_u128(m);
        s.append(d.as_str());
        proof {
            reveal_strlit("-");
            assert("-"@ =~= seq!['-']);
        }
        s
    }
}

/// The text of one line.
fn render_instr(i: &Instr) -> (r: String)
    ensures
        r@ == spec_render_instr(*i),
{
    match i {
        Instr::MovImm(v) => {
            let mut s = String::from_str("  mov $");
            let d = dec_i32(*v);
            s.append(d.as_str());
            s.append(", %rax\n");
            s
        },
        Instr::Lea(idx) => {
            let mut s = String::from_str("  lea -");
            let m: u128 = 8 * ((*idx) as u128 + 1);
            let d = dec_u128(m);
            s.append(d.as_str());
            s.append("(%rbp), %rax\n");
            s
        },
        Instr::Load => String::from_str("  mov (%rax), %rax\n"),
        Instr::Push => String::from_str("  push %rax\n"),
        Instr::Pop => String::from_str("  pop %rdi\n"),
        Instr::Store => String::from_str("  mov %rax, (%rdi)\n"),
        Instr::Add => String::from_str("  add %rdi, %rax\n"),
        Instr::Sub => String::from_str("  sub %rdi, %rax\n"),
        Instr::Mul => String::from_str("  imul %rdi, %rax\n"),
        Instr::Cqo => String::from_str("  cqo\n"),
        Instr::Idiv => String::from_str("  idiv %rdi\n"),
        Instr::Cmp => String::from_str("  cmp %rdi, %rax\n"),
        Instr::Sete => String::from_str("  sete %al\n"),
        Instr::Setne => String::from_str("  setne %al\n"),
        Instr::Setl => String::from_str("  setl %al\n"),
        Instr::Setle => String::from_str("  setle %al\n"),
        Instr::Movzb => String::from_str("  movzb %al, %rax\n"),
        Instr::CmpZero => String::from_str("  cmp $0, %rax\n"),
        Instr::Je(n) => {
            let mut s = String::from_str("  je  .L.else.");
            let d = dec_u128(*n as u128);
            s.append(d.as_str());
            s.append("\n");
            s
        },
        Instr::Jmp(n) => {
            let mut s = String::from_str("  jmp .L.end.");
            let d = dec_u128(*n as u128);
            s.append(d.as_str());
            s.append("\n");
            s
        },
        Instr::ElseLabel(n) => {
            let mut s = String::from_str(".L.else.");
            let d = dec_u128(*n as u128);
            s.append(d.as_str());
            s.append(":\n");
            s
        },
        Instr::EndLabel(n) => {
            let mut s = String::from_str(".L.end.");
            let d = dec_u128(*n as u128);
            s.append(d.as_str());
            s.append(":\n");
            s
        },
        Instr::JmpReturn => String::from_str("  jmp .L.return\n"),
        Instr::Globl => String::from_str("  .globl main\n"),
        Instr::MainLabel => String::from_str("main:\n"),
        Instr::PushRbp => String::from_str("  push %rbp\n"),
        Instr::MovRspRbp => String::from_str("  mov %rsp, %rbp\n"),
        Instr::SubRsp(sz) => {
            let mut s = String::from_str("  sub $");
            let d = dec_u128(*sz);
            s.append(d.as_str());
            s.append(", %rsp\n");
            s
        },
        Instr::ReturnLabel => String::from_str(".L.return:\n"),
        Instr::MovRbpRsp => String::from_str("  mov %rbp, %rsp\n"),
        Instr::PopRbp => String::from_str("  pop %rbp\n"),
        Instr::Ret => String::from_str("  ret\n"),
    }
}

/// Renders an instruction sequence as assembly text.
pub fn render(instrs: &Vec<Instr>) -> (r: String)
    ensures
        r@ == spec_render(instrs@),
{
    let mut s = String::new();
    let mut i: usize = 0;
    while i < instrs.len()
        invariant
            0 <= i <= instrs@.len(),
            s@ == spec_render(instrs@.take(i as int)),
        decreases instrs@.len() - i,
    {
        let line = render_instr(&instrs[i]);
        s.append(line.as_str());
        proof {
            assert(instrs@.take(i + 1).drop_last() =~= instrs@.take(i as int));
            assert(instrs@.take(i + 1).last() == instrs@[i as int]);
        }
        i = i + 1;
    }
    proof {
        assert(instrs@.take(instrs@.len() as int) =~= instrs@);
    }
    s
}

/// Rounds `n` up to the next multiple of `align`.
fn align_to(n: u128, align: u128) -> (r: u128)
    requires
        align > 0,
        n <= u128::MAX - align,
    ensures
        r as int == spec_align_to(n as int, align as int),
{
    let t: u128 = n + align - 1;
    let q: u128 = t / align;
    proof {
        assert(q * align <= t) by (nonlinear_arith)
            requires
                align > 0,
                t >= 0,
                q == t as int / align as int,
        ;
    }
    q * align
}


} // verus!
