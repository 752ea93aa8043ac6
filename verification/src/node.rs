//! The abstract syntax tree produced by parsing, and the program that
//! wraps it together with its table of local variables.

use vstd::prelude::*;

verus! {

/// A node of the abstract syntax tree.
#[derive(Debug)]
pub struct Node {
    pub kind: NodeKind,
}

/// The kind of a syntax-tree node, each variant carrying exactly the
/// children it needs.
#[derive(Debug)]
pub enum NodeKind {
    /// An integer literal.
    Num(i32),
    /// A reference to a local variable.
    Var(String),
    /// `lhs + rhs`
    Add(Box<Node>, Box<Node>),
    /// `lhs - rhs`
    Sub(Box<Node>, Box<Node>),
    /// `lhs * rhs`
    Multiply(Box<Node>, Box<Node>),
    /// `lhs / rhs`
    Div(Box<Node>, Box<Node>),
    /// `lhs == rhs`
    Equal(Box<Node>, Box<Node>),
    /// `lhs != rhs`
    NotEqual(Box<Node>, Box<Node>),
    /// `lhs < rhs`
    LessThan(Box<Node>, Box<Node>),
    /// `lhs <= rhs`
    LessThanOrEqual(Box<Node>, Box<Node>),
    /// `target = value`; assignment is itself an expression.
    Assign(Box<Node>, Box<Node>),
    /// An expression evaluated for effect; its value is discarded.
    ExpressionStatement(Box<Node>),
    /// `return expr;`
    Return(Box<Node>),
    /// `{ statement* }`
    Block(Vec<Node>),
    /// `if (condition) then else other`; the else branch is optional.
    If(Box<Node>, Box<Node>, Option<Box<Node>>),
}

/// The mathematical value of a syntax-tree node: identical in shape, with
/// identifiers abstracted to character sequences.
pub enum NodeV {
    Num(i32),
    Var(Seq<char>),
    Add(Box<NodeV>, Box<NodeV>),
    Sub(Box<NodeV>, Box<NodeV>),
    Multiply(Box<NodeV>, Box<NodeV>),
    Div(Box<NodeV>, Box<NodeV>),
    Equal(Box<NodeV>, Box<NodeV>),
    NotEqual(Box<NodeV>, Box<NodeV>),
    LessThan(Box<NodeV>, Box<NodeV>),
    LessThanOrEqual(Box<NodeV>, Box<NodeV>),
    Assign(Box<NodeV>, Box<NodeV>),
    ExpressionStatement(Box<NodeV>),
    Return(Box<NodeV>),
    Block(Seq<NodeV>),
    If(Box<NodeV>, Box<NodeV>, Option<Box<NodeV>>),
}

/// The views of a sequence of nodes, elementwise.
pub open spec fn nodes_view(v: Seq<Node>) -> Seq<NodeV>
    decreases v,
{
    if v.len() == 0 {
        Seq::empty()
    } else {
        nodes_view(v.drop_last()).push(node_view(v.last()))
    }
}

pub open spec fn node_view(n: Node) -> NodeV
    decreases n,
{
    match n.kind {
        NodeKind::Num(v) => NodeV::Num(v),
        NodeKind::Var(name) => NodeV::Var(name@),
        NodeKind::Add(l, r) => NodeV::Add(Box::new(node_view(*l)), Box::new(node_view(*r))),
        NodeKind::Sub(l, r) => NodeV::Sub(Box::new(node_view(*l)), Box::new(node_view(*r))),
        NodeKind::Multiply(l, r) => NodeV::Multiply(
            Box::new(node_view(*l)),
            Box::new(node_view(*r)),
        ),
        NodeKind::Div(l, r) => NodeV::Div(Box::new(node_view(*l)), Box::new(node_view(*r))),
        NodeKind::Equal(l, r) => NodeV::Equal(Box::new(node_view(*l)), Box::new(node_view(*r))),
        NodeKind::NotEqual(l, r) => NodeV::NotEqual(
            Box::new(node_view(*l)),
            Box::new(node_view(*r)),
        ),
        NodeKind::LessThan(l, r) => NodeV::LessThan(
            Box::new(node_view(*l)),
            Box::new(node_view(*r)),
        ),
        NodeKind::LessThanOrEqual(l, r) => NodeV::LessThanOrEqual(
            Box::new(node_view(*l)),
            Box::new(node_view(*r)),
        ),
        NodeKind::Assign(l, r) => NodeV::Assign(Box::new(node_view(*l)), Box::new(node_view(*r))),
        NodeKind::ExpressionStatement(e) => NodeV::ExpressionStatement(Box::new(node_view(*e))),
        NodeKind::Return(e) => NodeV::Return(Box::new(node_view(*e))),
        NodeKind::Block(stmts) => NodeV::Block(nodes_view(stmts@)),
        NodeKind::If(c, t, e) => NodeV::If(
            Box::new(node_view(*c)),
            Box::new(node_view(*t)),
            match e {
                Some(e) => Some(Box::new(node_view(*e))),
                None => None,
            },
        ),
    }
}

impl View for Node {
    type V = NodeV;

    open spec fn view(&self) -> NodeV {
        node_view(*self)
    }
}

impl DeepView for Node {
    type V = NodeV;

    open spec fn deep_view(&self) -> NodeV {
        node_view(*self)
    }
}

/// `nodes_view` is the elementwise image of `node_view`.
pub proof fn lemma_nodes_view(v: Seq<Node>)
    ensures
        nodes_view(v).len() == v.len(),
        forall|i: int| 0 <= i < v.len() ==> nodes_view(v)[i] == node_view(#[trigger] v[i]),
    decreases v.len(),
{
    if v.len() > 0 {
        lemma_nodes_view(v.drop_last());
        assert forall|i: int| 0 <= i < v.len() implies nodes_view(v)[i] == node_view(v[i]) by {
            if i < v.len() - 1 {
                assert(v.drop_last()[i] == v[i]);
                assert(nodes_view(v)[i] == nodes_view(v.drop_last())[i]);
            } else {
                assert(v.last() == v[i]);
            }
        }
    }
}

impl Node {
    /// Builds an integer-literal node.
    pub fn new_num(n: i32) -> (r: Self)
        ensures
            r@ == NodeV::Num(n),
    {
        Node { kind: NodeKind::Num(n) }
    }
}

/// A parsed program: its top-level statements wrapped in one implicit
/// block, and the set of local-variable names seen during parsing, in
/// order of first occurrence and free of duplicates.
#[derive(Debug)]
pub struct Program {
    pub body: Node,
    pub locals: Vec<String>,
}

/// The mathematical value of a program.
pub struct ProgramV {
    pub body: NodeV,
    pub locals: Seq<Seq<char>>,
}

impl View for Program {
    type V = ProgramV;

    open spec fn view(&self) -> ProgramV {
        ProgramV { body: self.body@, locals: self.locals.deep_view() }
    }
}

/// Whether `locals` holds a name with the characters `name`.
pub open spec fn contains_name(locals: Seq<Seq<char>>, name: Seq<char>) -> bool {
    exists|i: int| 0 <= i < locals.len() && locals[i] == name
}

/// Whether `locals` is a set in list form: no name occurs twice.
pub open spec fn distinct_names(locals: Seq<Seq<char>>) -> bool {
    forall|i: int, j: int|
        0 <= i < j < locals.len() ==> locals[i] != locals[j]
}

/// Whether `l2` begins with the whole of `l1`: the locals table only ever
/// grows at its end.
pub open spec fn extends_names(l2: Seq<Seq<char>>, l1: Seq<Seq<char>>) -> bool {
    l1.len() <= l2.len() && l2.subrange(0, l1.len() as int) == l1
}

pub proof fn lemma_extends_refl(l: Seq<Seq<char>>)
    ensures
        extends_names(l, l),
{
    assert(l.subrange(0, l.len() as int) =~= l);
}

pub proof fn lemma_extends_trans(l3: Seq<Seq<char>>, l2: Seq<Seq<char>>, l1: Seq<Seq<char>>)
    requires
        extends_names(l3, l2),
        extends_names(l2, l1),
    ensures
        extends_names(l3, l1),
{
    assert(l3.subrange(0, l1.len() as int) =~= l2.subrange(0, l1.len() as int));
}

/// A name found in a table is still found in any extension of it.
pub proof fn lemma_contains_name_extend(
    l2: Seq<Seq<char>>,
    l1: Seq<Seq<char>>,
    name: Seq<char>,
)
    requires
        extends_names(l2, l1),
        contains_name(l1, name),
    ensures
        contains_name(l2, name),
{
    let i = choose|i: int| 0 <= i < l1.len() && l1[i] == name;
    assert(l2[i] == l1[i]);
}

/// An expression node, as the grammar's expression productions shape it.
/// The target of an assignment may be any expression here; whether it is
/// an lvalue is a separate question, see [`lvalues_ok`].
pub open spec fn wf_expr(n: NodeV) -> bool
    decreases n,
{
    match n {
        NodeV::Num(_) => true,
        NodeV::Var(_) => true,
        NodeV::Add(l, r) => wf_expr(*l) && wf_expr(*r),
        NodeV::Sub(l, r) => wf_expr(*l) && wf_expr(*r),
        NodeV::Multiply(l, r) => wf_expr(*l) && wf_expr(*r),
        NodeV::Div(l, r) => wf_expr(*l) && wf_expr(*r),
        NodeV::Equal(l, r) => wf_expr(*l) && wf_expr(*r),
        NodeV::NotEqual(l, r) => wf_expr(*l) && wf_expr(*r),
        NodeV::LessThan(l, r) => wf_expr(*l) && wf_expr(*r),
        NodeV::LessThanOrEqual(l, r) => wf_expr(*l) && wf_expr(*r),
        NodeV::Assign(l, r) => wf_expr(*l) && wf_expr(*r),
        _ => false,
    }
}

/// Every node of a statement sequence is a well-formed statement.
pub open spec fn wf_stmt_seq(stmts: Seq<NodeV>) -> bool
    decreases stmts,
{
    stmts.len() == 0 || (wf_stmt(stmts[0]) && wf_stmt_seq(stmts.skip(1)))
}

/// A statement node, as the grammar's statement productions shape it.
pub open spec fn wf_stmt(n: NodeV) -> bool
    decreases n,
{
    match n {
        NodeV::ExpressionStatement(e) => wf_expr(*e),
        NodeV::Return(e) => wf_expr(*e),
        NodeV::Block(stmts) => wf_stmt_seq(stmts),
        NodeV::If(c, t, e) => wf_expr(*c) && wf_stmt(*t) && match e {
            Some(e) => wf_stmt(*e),
            None => true,
        },
        _ => false,
    }
}

/// Every assignment target in a statement sequence is a variable
/// reference.
pub open spec fn lvalues_ok_seq(stmts: Seq<NodeV>) -> bool
    decreases stmts,
{
    stmts.len() == 0 || (lvalues_ok(stmts[0]) && lvalues_ok_seq(stmts.skip(1)))
}

/// Every assignment target below `n` is a variable reference. Address
/// generation is defined exactly for such targets.
pub open spec fn lvalues_ok(n: NodeV) -> bool
    decreases n,
{
    match n {
        NodeV::Num(_) => true,
        NodeV::Var(_) => true,
        NodeV::Add(l, r) => lvalues_ok(*l) && lvalues_ok(*r),
        NodeV::Sub(l, r) => lvalues_ok(*l) && lvalues_ok(*r),
        NodeV::Multiply(l, r) => lvalues_ok(*l) && lvalues_ok(*r),
        NodeV::Div(l, r) => lvalues_ok(*l) && lvalues_ok(*r),
        NodeV::Equal(l, r) => lvalues_ok(*l) && lvalues_ok(*r),
        NodeV::NotEqual(l, r) => lvalues_ok(*l) && lvalues_ok(*r),
        NodeV::LessThan(l, r) => lvalues_ok(*l) && lvalues_ok(*r),
        NodeV::LessThanOrEqual(l, r) => lvalues_ok(*l) && lvalues_ok(*r),
        NodeV::Assign(l, r) => (*l matches NodeV::Var(_)) && lvalues_ok(*r),
        NodeV::ExpressionStatement(e) => lvalues_ok(*e),
        NodeV::Return(e) => lvalues_ok(*e),
        NodeV::Block(stmts) => lvalues_ok_seq(stmts),
        NodeV::If(c, t, e) => lvalues_ok(*c) && lvalues_ok(*t) && match e {
            Some(e) => lvalues_ok(*e),
            None => true,
        },
    }
}

/// Every variable referenced in a statement sequence is declared in
/// `locals`.
pub open spec fn vars_declared_seq(stmts: Seq<NodeV>, locals: Seq<Seq<char>>) -> bool
    decreases stmts,
{
    stmts.len() == 0 || (vars_declared(stmts[0], locals) && vars_declared_seq(
        stmts.skip(1),
        locals,
    ))
}

/// Every variable referenced below `n` is declared in `locals`.
pub open spec fn vars_declared(n: NodeV, locals: Seq<Seq<char>>) -> bool
    decreases n,
{
    match n {
        NodeV::Num(_) => true,
        NodeV::Var(name) => contains_name(locals, name),
        NodeV::Add(l, r) => vars_declared(*l, locals) && vars_declared(*r, locals),
        NodeV::Sub(l, r) => vars_declared(*l, locals) && vars_declared(*r, locals),
        NodeV::Multiply(l, r) => vars_declared(*l, locals) && vars_declared(*r, locals),
        NodeV::Div(l, r) => vars_declared(*l, locals) && vars_declared(*r, locals),
        NodeV::Equal(l, r) => vars_declared(*l, locals) && vars_declared(*r, locals),
        NodeV::NotEqual(l, r) => vars_declared(*l, locals) && vars_declared(*r, locals),
        NodeV::LessThan(l, r) => vars_declared(*l, locals) && vars_declared(*r, locals),
        NodeV::LessThanOrEqual(l, r) => vars_declared(*l, locals) && vars_declared(*r, locals),
        NodeV::Assign(l, r) => vars_declared(*l, locals) && vars_declared(*r, locals),
        NodeV::ExpressionStatement(e) => vars_declared(*e, locals),
        NodeV::Return(e) => vars_declared(*e, locals),
        NodeV::Block(stmts) => vars_declared_seq(stmts, locals),
        NodeV::If(c, t, e) => vars_declared(*c, locals) && vars_declared(*t, locals) && match e {
            Some(e) => vars_declared(*e, locals),
            None => true,
        },
    }
}

/// Declaredness of variables survives extension of the locals table.
pub proof fn lemma_vars_declared_extend(n: NodeV, l1: Seq<Seq<char>>, l2: Seq<Seq<char>>)
    requires
        vars_declared(n, l1),
        extends_names(l2, l1),
    ensures
        vars_declared(n, l2),
    decreases n,
{
    match n {
        NodeV::Num(_) => {},
        NodeV::Var(name) => {
            lemma_contains_name_extend(l2, l1, name);
        },
        NodeV::Add(l, r) => {
            lemma_vars_declared_extend(*l, l1, l2);
            lemma_vars_declared_extend(*r, l1, l2);
        },
        NodeV::Sub(l, r) => {
            lemma_vars_declared_extend(*l, l1, l2);
            lemma_vars_declared_extend(*r, l1, l2);
        },
        NodeV::Multiply(l, r) => {
            lemma_vars_declared_extend(*l, l1, l2);
            lemma_vars_declared_extend(*r, l1, l2);
        },
        NodeV::Div(l, r) => {
            lemma_vars_declared_extend(*l, l1, l2);
            lemma_vars_declared_extend(*r, l1, l2);
        },
        NodeV::Equal(l, r) => {
            lemma_vars_declared_extend(*l, l1, l2);
            lemma_vars_declared_extend(*r, l1, l2);
        },
        NodeV::NotEqual(l, r) => {
            lemma_vars_declared_extend(*l, l1, l2);
            lemma_vars_declared_extend(*r, l1, l2);
        },
        NodeV::LessThan(l, r) => {
            lemma_vars_declared_extend(*l, l1, l2);
            lemma_vars_declared_extend(*r, l1, l2);
        },
        NodeV::LessThanOrEqual(l, r) => {
            lemma_vars_declared_extend(*l, l1, l2);
            lemma_vars_declared_extend(*r, l1, l2);
        },
        NodeV::Assign(l, r) => {
            lemma_vars_declared_extend(*l, l1, l2);
            lemma_vars_declared_extend(*r, l1, l2);
        },
        NodeV::ExpressionStatement(e) => {
            lemma_vars_declared_extend(*e, l1, l2);
        },
        NodeV::Return(e) => {
            lemma_vars_declared_extend(*e, l1, l2);
        },
        NodeV::Block(stmts) => {
            lemma_vars_declared_seq_extend(stmts, l1, l2);
        },
        NodeV::If(c, t, e) => {
            lemma_vars_declared_extend(*c, l1, l2);
            lemma_vars_declared_extend(*t, l1, l2);
            match e {
                Some(e) => lemma_vars_declared_extend(*e, l1, l2),
                None => {},
            }
        },
    }
}

/// Declaredness of a statement sequence survives extension of the locals
/// table.
pub proof fn lemma_vars_declared_seq_extend(
    stmts: Seq<NodeV>,
    l1: Seq<Seq<char>>,
    l2: Seq<Seq<char>>,
)
    requires
        vars_declared_seq(stmts, l1),
        extends_names(l2, l1),
    ensures
        vars_declared_seq(stmts, l2),
    decreases stmts,
{
    if stmts.len() > 0 {
        lemma_vars_declared_extend(stmts[0], l1, l2);
        lemma_vars_declared_seq_extend(stmts.skip(1), l1, l2);
    }
}

/// `wf_stmt_seq` distributes over appending one statement.
pub proof fn lemma_wf_stmt_seq_push(s: Seq<NodeV>, n: NodeV)
    ensures
        wf_stmt_seq(s.push(n)) == (wf_stmt_seq(s) && wf_stmt(n)),
    decreases s.len(),
{
    let sp = s.push(n);
    assert(wf_stmt_seq(sp) == (wf_stmt(sp[0]) && wf_stmt_seq(sp.skip(1))));
    if s.len() == 0 {
        assert(sp[0] == n);
        assert(sp.skip(1) =~= Seq::<NodeV>::empty());
        assert(wf_stmt_seq(sp.skip(1)));
        assert(wf_stmt_seq(s));
    } else {
        assert(sp[0] == s[0]);
        assert(sp.skip(1) =~= s.skip(1).push(n));
        lemma_wf_stmt_seq_push(s.skip(1), n);
        assert(wf_stmt_seq(s) == (wf_stmt(s[0]) && wf_stmt_seq(s.skip(1))));
    }
}

/// `vars_declared_seq` distributes over appending one statement.
pub proof fn lemma_vars_declared_seq_push(s: Seq<NodeV>, n: NodeV, l: Seq<Seq<char>>)
    ensures
        vars_declared_seq(s.push(n), l) == (vars_declared_seq(s, l) && vars_declared(n, l)),
    decreases s.len(),
{
    let sp = s.push(n);
    assert(vars_declared_seq(sp, l) == (vars_declared(sp[0], l) && vars_declared_seq(
        sp.skip(1),
        l,
    )));
    if s.len() == 0 {
        assert(sp[0] == n);
        assert(sp.skip(1) =~= Seq::<NodeV>::empty());
        assert(vars_declared_seq(sp.skip(1), l));
        assert(vars_declared_seq(s, l));
    } else {
        assert(sp[0] == s[0]);
        assert(sp.skip(1) =~= s.skip(1).push(n));
        lemma_vars_declared_seq_push(s.skip(1), n, l);
        assert(vars_declared_seq(s, l) == (vars_declared(s[0], l) && vars_declared_seq(
            s.skip(1),
            l,
        )));
    }
}

/// The number of `if` statements below `n`; each consumes one label-pair
/// index during code generation.
pub open spec fn num_ifs(n: NodeV) -> nat
    decreases n,
{
    match n {
        NodeV::ExpressionStatement(_) => 0,
        NodeV::Return(_) => 0,
        NodeV::Block(stmts) => num_ifs_seq(stmts),
        NodeV::If(_, t, e) => 1 + num_ifs(*t) + match e {
            Some(e) => num_ifs(*e),
            None => 0nat,
        },
        _ => 0,
    }
}

/// The number of `if` statements in a statement sequence.
pub open spec fn num_ifs_seq(stmts: Seq<NodeV>) -> nat
    decreases stmts,
{
    if stmts.len() == 0 {
        0
    } else {
        num_ifs(stmts[0]) + num_ifs_seq(stmts.skip(1))
    }
}

impl ProgramV {
    /// A program code generation is defined on: grammatical statements,
    /// variable targets for every assignment, and no variable used
    /// without a slot in `locals`.
    pub open spec fn wf(self) -> bool {
        &&& wf_stmt(self.body)
        &&& lvalues_ok(self.body)
        &&& vars_declared(self.body, self.locals)
        &&& distinct_names(self.locals)
    }
}

/// Decides [`lvalues_ok`]: whether every assignment target below `n` is
/// a variable reference.
pub fn check_lvalues(n: &Node) -> (r: bool)
    ensures
        r == lvalues_ok(n@),
    decreases n, 0int,
{
    match &n.kind {
        NodeKind::Num(_) => true,
        NodeKind::Var(_) => true,
        NodeKind::Add(l, r) => {
            proof {
                assert(n@ == NodeV::Add(Box::new(node_view(**l)), Box::new(node_view(**r))));
            }
            check_lvalues(l) && check_lvalues(r)
        },
        NodeKind::Sub(l, r) => {
            proof {
                assert(n@ == NodeV::Sub(Box::new(node_view(**l)), Box::new(node_view(**r))));
            }
            check_lvalues(l) && check_lvalues(r)
        },
        NodeKind::Multiply(l, r) => {
            proof {
                assert(n@ == NodeV::Multiply(
                    Box::new(node_view(**l)),
                    Box::new(node_view(**r)),
                ));
            }
            check_lvalues(l) && check_lvalues(r)
        },
        NodeKind::Div(l, r) => {
            proof {
                assert(n@ == NodeV::Div(Box::new(node_view(**l)), Box::new(node_view(**r))));
            }
            check_lvalues(l) && check_lvalues(r)
        },
        NodeKind::Equal(l, r) => {
            proof {
                assert(n@ == NodeV::Equal(Box::new(node_view(**l)), Box::new(node_view(**r))));
            }
            check_lvalues(l) && check_lvalues(r)
        },
        NodeKind::NotEqual(l, r) => {
            proof {
                assert(n@ == NodeV::NotEqual(
                    Box::new(node_view(**l)),
                    Box::new(node_view(**r)),
                ));
            }
            check_lvalues(l) && check_lvalues(r)
        },
        NodeKind::LessThan(l, r) => {
            proof {
                assert(n@ == NodeV::LessThan(
                    Box::new(node_view(**l)),
                    Box::new(node_view(**r)),
                ));
            }
            check_lvalues(l) && check_lvalues(r)
        },
        NodeKind::LessThanOrEqual(l, r) => {
            proof {
                assert(n@ == NodeV::LessThanOrEqual(
                    Box::new(node_view(**l)),
                    Box::new(node_view(**r)),
                ));
            }
            check_lvalues(l) && check_lvalues(r)
        },
        NodeKind::Assign(l, r) => {
            proof {
                assert(n@ == NodeV::Assign(Box::new(node_view(**l)), Box::new(node_view(**r))));
            }
            match &l.kind {
                NodeKind::Var(_) => check_lvalues(r),
                _ => false,
            }
        },
        NodeKind::ExpressionStatement(e) => {
            proof {
                assert(n@ == NodeV::ExpressionStatement(Box::new(node_view(**e))));
            }
            check_lvalues(e)
        },
        NodeKind::Return(e) => {
            proof {
                assert(n@ == NodeV::Return(Box::new(node_view(**e))));
            }
            check_lvalues(e)
        },
        NodeKind::Block(stmts) => {
            proof {
                assert(n@ == NodeV::Block(nodes_view(stmts@)));
                assert(lvalues_ok(n@) == lvalues_ok_seq(nodes_view(stmts@)));
                assert(nodes_view(stmts@).skip(0) =~= nodes_view(stmts@));
            }
            check_lvalues_list(stmts, 0)
        },
        NodeKind::If(c, t, e) => {
            proof {
                assert(n@ == NodeV::If(
                    Box::new(node_view(**c)),
                    Box::new(node_view(**t)),
                    match e {
                        Some(e) => Some(Box::new(node_view(**e))),
                        None => None,
                    },
                ));
            }
            let rest = check_lvalues(c) && check_lvalues(t);
            match e {
                Some(e) => rest && check_lvalues(e),
                None => rest,
            }
        },
    }
}

/// Decides [`lvalues_ok_seq`] from index `i` on.
fn check_lvalues_list(v: &Vec<Node>, i: usize) -> (r: bool)
    requires
        i <= v@.len(),
    ensures
        r == lvalues_ok_seq(nodes_view(v@).skip(i as int)),
    decreases v, v@.len() - i,
{
    proof {
        lemma_nodes_view(v@);
    }
    if i >= v.len() {
        proof {
            assert(nodes_view(v@).skip(i as int) =~= Seq::<NodeV>::empty());
        }
        return true;
    }
    proof {
        assert(nodes_view(v@).skip(i as int)[0] == nodes_view(v@)[i as int]);
        assert(nodes_view(v@).skip(i as int).skip(1) =~= nodes_view(v@).skip(i + 1));
    }
    if !check_lvalues(&v[i]) {
        return false;
    }
    check_lvalues_list(v, i + 1)
}

} // verus!
