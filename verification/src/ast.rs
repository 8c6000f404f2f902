//! The abstract syntax tree shared by the parser and the evaluator.

use vstd::prelude::*;

verus! {

/// A binary operator. Arithmetic operators bind tighter than comparisons;
/// `Mul` and `Div` bind tighter than `Add` and `Sub`.
#[derive(Debug, PartialEq, Eq, Clone, Copy, Structural)]
pub enum BinOp {
    Add,
    Sub,
    Mul,
    Div,
    Lt,
    Gt,
    Le,
    Ge,
    Eq,
}

/// A statement or expression node. Nodes are built once by the parser and
/// never changed afterwards.
#[derive(Debug, PartialEq)]
pub enum Ast {
    /// An integer literal.
    Int(i64),
    /// A string literal.
    String(String),
    /// An array literal; elements evaluate left to right.
    Array(Vec<Ast>),
    /// A variable reference, resolved against the environment active when
    /// the node is evaluated.
    Identifier(String),
    /// A binary operation; the left operand evaluates first.
    BinaryOp { op: BinOp, left: Box<Ast>, right: Box<Ast> },
    /// An array element read: `target[index]`.
    IndexAccess { target: Box<Ast>, index: Box<Ast> },
    /// An array element write statement: `name[index] = value`.
    IndexAssign { id: String, index: Box<Ast>, value: Box<Ast> },
    /// An assignment statement: binds or overwrites a name in the current
    /// environment.
    Assign { id: String, expr: Box<Ast> },
    /// A function definition statement. Parameter declared types are
    /// advisory and not enforced.
    FunctionDefinition { id: String, params: Vec<(String, String)>, body: Vec<Ast> },
    /// A function call, as an expression or as a statement.
    FunctionCall { id: String, args: Vec<Ast> },
    /// A conditional: the body runs in the same environment when the
    /// condition is a non-zero integer.
    If { cond: Box<Ast>, body: Vec<Ast> },
    /// A loop over the elements of an array, binding the loop variable in
    /// the same environment.
    For { var: String, iter: Box<Ast>, body: Vec<Ast> },
}

/// The mathematical shape of an AST node.
pub ghost enum AstS {
    Int(int),
    Str(Seq<char>),
    Array(Seq<AstS>),
    Identifier(Seq<char>),
    BinaryOp { op: BinOp, left: Box<AstS>, right: Box<AstS> },
    IndexAccess { target: Box<AstS>, index: Box<AstS> },
    IndexAssign { id: Seq<char>, index: Box<AstS>, value: Box<AstS> },
    Assign { id: Seq<char>, expr: Box<AstS> },
    FunctionDefinition { id: Seq<char>, params: Seq<Seq<char>>, body: Seq<AstS> },
    FunctionCall { id: Seq<char>, args: Seq<AstS> },
    If { cond: Box<AstS>, body: Seq<AstS> },
    For { var: Seq<char>, iter: Box<AstS>, body: Seq<AstS> },
}

/// The declared parameter names of a definition, in order.
pub open spec fn param_names(ps: Seq<(String, String)>) -> Seq<Seq<char>> {
    ps.map(|i: int, p: (String, String)| p.0@)
}

impl Ast {
    /// The mathematical shape of this node.
    pub open spec fn deep(self) -> AstS
        decreases self,
    {
        match self {
            Ast::Int(n) => AstS::Int(n as int),
            Ast::String(s) => AstS::Str(s@),
            Ast::Array(es) => AstS::Array(deep_ast_seq(es@)),
            Ast::Identifier(s) => AstS::Identifier(s@),
            Ast::BinaryOp { op, left, right } => AstS::BinaryOp {
                op,
                left: Box::new(left.deep()),
                right: Box::new(right.deep()),
            },
            Ast::IndexAccess { target, index } => AstS::IndexAccess {
                target: Box::new(target.deep()),
                index: Box::new(index.deep()),
            },
            Ast::IndexAssign { id, index, value } => AstS::IndexAssign {
                id: id@,
                index: Box::new(index.deep()),
                value: Box::new(value.deep()),
            },
            Ast::Assign { id, expr } => AstS::Assign { id: id@, expr: Box::new(expr.deep()) },
            Ast::FunctionDefinition { id, params, body } => AstS::FunctionDefinition {
                id: id@,
                params: param_names(params@),
                body: deep_ast_seq(body@),
            },
            Ast::FunctionCall { id, args } => AstS::FunctionCall {
                id: id@,
                args: deep_ast_seq(args@),
            },
            Ast::If { cond, body } => AstS::If {
                cond: Box::new(cond.deep()),
                body: deep_ast_seq(body@),
            },
            Ast::For { var, iter, body } => AstS::For {
                var: var@,
                iter: Box::new(iter.deep()),
                body: deep_ast_seq(body@),
            },
        }
    }
}

/// The mathematical shapes of a sequence of nodes, element by element.
pub open spec fn deep_ast_seq(vs: Seq<Ast>) -> Seq<AstS>
    decreases vs,
{
    if vs.len() == 0 {
        Seq::empty()
    } else {
        seq![vs[0].deep()] + deep_ast_seq(vs.drop_first())
    }
}

pub broadcast proof fn lemma_deep_ast_seq(vs: Seq<Ast>)
    ensures
        #![trigger deep_ast_seq(vs)]
        deep_ast_seq(vs).len() == vs.len(),
        forall|i: int| 0 <= i < vs.len() ==> deep_ast_seq(vs)[i] == vs[i].deep(),
    decreases vs,
{
    if vs.len() > 0 {
        lemma_deep_ast_seq(vs.drop_first());
    }
}

impl vstd::prelude::DeepView for Ast {
    type V = AstS;

    open spec fn deep_view(&self) -> AstS {
        self.deep()
    }
}

/// A registered function: its parameter names with their advisory declared
/// types, and its body statements.
pub struct FnDef {
    pub params: Vec<(String, String)>,
    pub body: Vec<Ast>,
}

/// The mathematical shape of a registered function.
pub ghost struct FnDefS {
    pub params: Seq<Seq<char>>,
    pub body: Seq<AstS>,
}

impl vstd::prelude::DeepView for FnDef {
    type V = FnDefS;

    open spec fn deep_view(&self) -> FnDefS {
        FnDefS { params: param_names(self.params@), body: deep_ast_seq(self.body@) }
    }
}

/// A copy of a node that stands for the same mathematical shape.
pub fn clone_ast(a: &Ast) -> (r: Ast)
    ensures
        r.deep() == a.deep(),
    decreases a,
{
    match a {
        Ast::Int(n) => Ast::Int(*n),
        Ast::String(s) => Ast::String(s.clone()),
        Ast::Array(es) => Ast::Array(clone_ast_vec(es)),
        Ast::Identifier(s) => Ast::Identifier(s.clone()),
        Ast::BinaryOp { op, left, right } => Ast::BinaryOp {
            op: *op,
            left: Box::new(clone_ast(left)),
            right: Box::new(clone_ast(right)),
        },
        Ast::IndexAccess { target, index } => Ast::IndexAccess {
            target: Box::new(clone_ast(target)),
            index: Box::new(clone_ast(index)),
        },
        Ast::IndexAssign { id, index, value } => Ast::IndexAssign {
            id: id.clone(),
            index: Box::new(clone_ast(index)),
            value: Box::new(clone_ast(value)),
        },
        Ast::Assign { id, expr } => Ast::Assign { id: id.clone(), expr: Box::new(clone_ast(expr)) },
        Ast::FunctionDefinition { id, params, body } => Ast::FunctionDefinition {
            id: id.clone(),
            params: clone_params(params),
            body: clone_ast_vec(body),
        },
        Ast::FunctionCall { id, args } => Ast::FunctionCall {
            id: id.clone(),
            args: clone_ast_vec(args),
        },
        Ast::If { cond, body } => Ast::If {
            cond: Box::new(clone_ast(cond)),
            body: clone_ast_vec(body),
        },
        Ast::For { var, iter, body } => Ast::For {
            var: var.clone(),
            iter: Box::new(clone_ast(iter)),
            body: clone_ast_vec(body),
        },
    }
}

/// A copy of a node sequence, shape for shape.
pub fn clone_ast_vec(v: &Vec<Ast>) -> (r: Vec<Ast>)
    ensures
        deep_ast_seq(r@) == deep_ast_seq(v@),
        r@.len() == v@.len(),
    decreases v@,
{
    let mut r: Vec<Ast> = Vec::new();
    let mut i: usize = 0;
    while i < v.len()
        invariant
            i <= v@.len(),
            r@.len() == i,
            forall|j: int| 0 <= j < i ==> r@[j].deep() == v@[j].deep(),
        decreases v@.len() - i,
    {
        let c = clone_ast(&v[i]);
        r.push(c);
        i = i + 1;
    }
    proof {
        lemma_deep_seq_pointwise(r@, v@);
    }
    r
}

/// Two node sequences whose elements stand for the same shapes have the same
/// sequence of shapes.
pub proof fn lemma_deep_seq_pointwise(a: Seq<Ast>, b: Seq<Ast>)
    requires
        a.len() == b.len(),
        forall|j: int| 0 <= j < a.len() ==> a[j].deep() == b[j].deep(),
    ensures
        deep_ast_seq(a) == deep_ast_seq(b),
    decreases a,
{
    if a.len() > 0 {
        lemma_deep_seq_pointwise(a.drop_first(), b.drop_first());
        assert(deep_ast_seq(a) =~= deep_ast_seq(b));
    } else {
        assert(deep_ast_seq(a) =~= deep_ast_seq(b));
    }
}

pub(crate) fn clone_params(ps: &Vec<(String, String)>) -> (r: Vec<(String, String)>)
    ensures
        param_names(r@) == param_names(ps@),
        r@.len() == ps@.len(),
{
    let mut r: Vec<(String, String)> = Vec::new();
    let mut i: usize = 0;
    while i < ps.len()
        invariant
            i <= ps@.len(),
            r@.len() == i,
            forall|j: int| 0 <= j < i ==> r@[j].0@ == ps@[j].0@,
        decreases ps@.len() - i,
    {
        let p = &ps[i];
        r.push((p.0.clone(), p.1.clone()));
        i = i + 1;
    }
    proof {
        assert(param_names(r@) =~= param_names(ps@));
    }
    r
}

/// A copy of a registered function with the same shape.
pub fn clone_fndef(f: &FnDef) -> (r: FnDef)
    ensures
        r.deep_view() == f.deep_view(),
{
    FnDef { params: clone_params(&f.params), body: clone_ast_vec(&f.body) }
}

} // verus!
