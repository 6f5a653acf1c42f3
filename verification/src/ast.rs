//! The syntax tree: passive data that the parser builds.
//!
//! Every type has a mathematical value, its view, in which names are sequences
//! of characters and lists are sequences. The contracts of the parser speak of
//! these values.

use vstd::prelude::*;
use crate::grammar::precedence;

verus! {

/// A numeric literal.
#[derive(Debug, PartialEq, Eq)]
pub struct NumberExpr {
    /// The literal as it is written in the source.
    pub val: String,
}

/// A reference to a variable.
#[derive(Debug, PartialEq, Eq)]
pub struct VariableExpr {
    pub name: String,
}

/// A binary operation.
#[derive(Debug, PartialEq, Eq)]
pub struct BinaryExpr {
    pub op: char,
    pub lhs: Box<Expr>,
    pub rhs: Box<Expr>,
}

/// A function call.
#[derive(Debug, PartialEq, Eq)]
pub struct CallExpr {
    pub callee: String,
    pub args: Vec<Box<Expr>>,
}

/// An expression.
#[derive(Debug, PartialEq, Eq)]
pub enum Expr {
    NumberExpr(NumberExpr),
    VariableExpr(VariableExpr),
    BinaryExpr(BinaryExpr),
    CallExpr(CallExpr),
}

/// The mathematical value of an [`Expr`].
pub enum ExprView {
    Number(Seq<char>),
    Variable(Seq<char>),
    Binary { op: char, lhs: Box<ExprView>, rhs: Box<ExprView> },
    Call { callee: Seq<char>, args: Seq<ExprView> },
}

impl ExprView {
    /// Whether every binary operation in the tree has an operator of the
    /// precedence table.
    pub open spec fn operators_known(self) -> bool
        decreases self,
    {
        match self {
            ExprView::Number(_) => true,
            ExprView::Variable(_) => true,
            ExprView::Binary { op, lhs, rhs } => {
                &&& precedence(op) is Some
                &&& lhs.operators_known()
                &&& rhs.operators_known()
            },
            ExprView::Call { callee, args } => forall|i: int|
                0 <= i < args.len() ==> (#[trigger] args[i]).operators_known(),
        }
    }
}

/// Whether every binary operation in every tree of the list has an operator of
/// the precedence table.
pub open spec fn all_operators_known(list: Seq<ExprView>) -> bool {
    forall|i: int| 0 <= i < list.len() ==> (#[trigger] list[i]).operators_known()
}

impl Expr {
    /// The mathematical value of the expression.
    pub open spec fn tree(&self) -> ExprView
        decreases self,
    {
        match self {
            Expr::NumberExpr(number) => ExprView::Number(number.val@),
            Expr::VariableExpr(variable) => ExprView::Variable(variable.name@),
            Expr::BinaryExpr(binary) => ExprView::Binary {
                op: binary.op,
                lhs: Box::new(binary.lhs.tree()),
                rhs: Box::new(binary.rhs.tree()),
            },
            Expr::CallExpr(call) => ExprView::Call {
                callee: call.callee@,
                args: Seq::new(
                    call.args@.len(),
                    |i: int|
                        if 0 <= i < call.args@.len() {
                            call.args@[i].tree()
                        } else {
                            ExprView::Number(Seq::empty())
                        },
                ),
            },
        }
    }
}

impl View for Expr {
    type V = ExprView;

    open spec fn view(&self) -> ExprView {
        self.tree()
    }
}

/// The mathematical values of a list of expressions.
pub open spec fn trees(list: Seq<Box<Expr>>) -> Seq<ExprView> {
    Seq::new(list.len(), |i: int| list[i].tree())
}

/// The value of a call holds the values of its arguments.
pub proof fn lemma_call_tree(call: CallExpr)
    ensures
        Expr::CallExpr(call).tree() == (ExprView::Call {
            callee: call.callee@,
            args: trees(call.args@),
        }),
{
    assert(Expr::CallExpr(call).tree()->Call_args =~= trees(call.args@));
}

/// The character sequences of a list of strings.
pub open spec fn names(list: Seq<String>) -> Seq<Seq<char>> {
    Seq::new(list.len(), |i: int| list[i]@)
}

/// The name and the parameter names of a function.
///
/// The parameter names need not differ from one another.
#[derive(Debug, PartialEq, Eq)]
pub struct Prototype {
    pub name: String,
    pub args: Vec<String>,
}

/// The mathematical value of a [`Prototype`].
pub struct PrototypeView {
    pub name: Seq<char>,
    pub params: Seq<Seq<char>>,
}

impl View for Prototype {
    type V = PrototypeView;

    open spec fn view(&self) -> PrototypeView {
        PrototypeView { name: self.name@, params: names(self.args@) }
    }
}

/// A function definition.
#[derive(Debug, PartialEq, Eq)]
pub struct Function {
    pub proto: Box<Prototype>,
    pub body: Box<Expr>,
}

/// The mathematical value of a [`Function`].
pub struct FunctionView {
    pub proto: PrototypeView,
    pub body: ExprView,
}

impl View for Function {
    type V = FunctionView;

    open spec fn view(&self) -> FunctionView {
        FunctionView { proto: self.proto@, body: self.body@ }
    }
}

impl Function {
    /// The function without a name and without parameters that computes
    /// `body`: the form in which a standalone expression is compiled and run.
    pub fn anonymous(body: Box<Expr>) -> (function: Function)
        ensures
            function@ == (FunctionView {
                proto: PrototypeView { name: Seq::empty(), params: Seq::empty() },
                body: body@,
            }),
    {
        let proto = Prototype { name: String::new(), args: Vec::new() };
        assert(names(proto.args@) =~= Seq::<Seq<char>>::empty());
        Function { proto: Box::new(proto), body: body }
    }
}

/// One top-level unit of a source buffer.
#[derive(Debug, PartialEq, Eq)]
pub enum Unit {
    /// `def` prototype expression
    Definition(Box<Function>),
    /// `extern` prototype
    Extern(Box<Prototype>),
    /// A standalone expression.
    Expression(Box<Expr>),
}

/// The mathematical value of a [`Unit`].
pub enum UnitView {
    Definition(FunctionView),
    Extern(PrototypeView),
    Expression(ExprView),
}

/// The mathematical values of a list of units.
pub open spec fn unit_views(list: Seq<Unit>) -> Seq<UnitView> {
    Seq::new(list.len(), |i: int| list[i]@)
}

impl UnitView {
    /// Whether every binary operation in the unit has an operator of the
    /// precedence table.
    pub open spec fn operators_known(self) -> bool {
        match self {
            UnitView::Definition(function) => function.body.operators_known(),
            UnitView::Extern(_) => true,
            UnitView::Expression(expr) => expr.operators_known(),
        }
    }
}

impl View for Unit {
    type V = UnitView;

    open spec fn view(&self) -> UnitView {
        match self {
            Unit::Definition(function) => UnitView::Definition(function@),
            Unit::Extern(proto) => UnitView::Extern(proto@),
            Unit::Expression(expr) => UnitView::Expression(expr@),
        }
    }
}

} // verus!
