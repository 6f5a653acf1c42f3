//! The order in which a tree is handed to a backend.
//!
//! A backend has one operation for each kind of node, and is given the children
//! of a node before the node itself. `Expr::postorder` lists the nodes of an
//! expression in that order. A backend that keeps the values of the nodes on a
//! stack finds the operands of each node on top of it: `lemma_postorder_depth`.

use vstd::prelude::*;
use crate::ast::{lemma_call_tree, trees, Expr, ExprView};
use crate::grammar::precedence;

verus! {

/// What a binary operator computes.
#[derive(Debug, Clone, Copy, PartialEq, Eq, Structural)]
pub enum Operation {
    /// `<`: one if the left-hand side is less than the right-hand side, else
    /// zero.
    Less,
    /// `+`
    Add,
    /// `-`
    Subtract,
    /// `*`
    Multiply,
}

/// The operation of the binary operator `op`, or `None` for a character that
/// is no binary operator.
#[verifier::allow_in_spec]
pub fn operation(op: char) -> Option<Operation>
    returns
        (if op == '<' {
            Some(Operation::Less)
        } else if op == '+' {
            Some(Operation::Add)
        } else if op == '-' {
            Some(Operation::Subtract)
        } else if op == '*' {
            Some(Operation::Multiply)
        } else {
            None
        }),
{
    if op == '<' {
        Some(Operation::Less)
    } else if op == '+' {
        Some(Operation::Add)
    } else if op == '-' {
        Some(Operation::Subtract)
    } else if op == '*' {
        Some(Operation::Multiply)
    } else {
        None
    }
}

/// The operators that have an operation are those of the precedence table, so
/// that every binary operation of a parsed tree has one.
pub proof fn lemma_operation_of_operators(op: char)
    ensures
        operation(op) is Some <==> precedence(op) is Some,
{
}

/// A node of an expression without its children.
#[derive(Debug, PartialEq, Eq)]
pub enum Visit {
    /// A numeric literal, as it is written.
    Number(String),
    /// A reference to the variable of this name.
    Variable(String),
    /// A binary operation on the values of the two nodes handed over last.
    Binary(char),
    /// A call of `callee` on the values of the `args` nodes handed over last.
    Call { callee: String, args: usize },
}

/// The mathematical value of a [`Visit`].
pub enum VisitView {
    Number(Seq<char>),
    Variable(Seq<char>),
    Binary(char),
    Call { callee: Seq<char>, args: nat },
}

impl View for Visit {
    type V = VisitView;

    open spec fn view(&self) -> VisitView {
        match self {
            Visit::Number(text) => VisitView::Number(text@),
            Visit::Variable(name) => VisitView::Variable(name@),
            Visit::Binary(op) => VisitView::Binary(*op),
            Visit::Call { callee, args } => VisitView::Call { callee: callee@, args: *args as nat },
        }
    }
}

/// The mathematical values of a list of visits.
pub open spec fn visit_views(list: Seq<Visit>) -> Seq<VisitView> {
    Seq::new(list.len(), |i: int| list[i]@)
}

/// The nodes of `e`, each behind the nodes of its children: the left-hand side
/// of an operation before its right-hand side, the arguments of a call from
/// first to last.
pub open spec fn postorder(e: ExprView) -> Seq<VisitView>
    decreases e,
{
    match e {
        ExprView::Number(text) => seq![VisitView::Number(text)],
        ExprView::Variable(name) => seq![VisitView::Variable(name)],
        ExprView::Binary { op, lhs, rhs } => postorder(*lhs) + postorder(*rhs) + seq![
            VisitView::Binary(op),
        ],
        ExprView::Call { callee, args } => postorder_all(args) + seq![
            VisitView::Call { callee, args: args.len() },
        ],
    }
}

/// The nodes of the trees of `list`, tree by tree, each in the order of
/// `postorder`.
pub open spec fn postorder_all(list: Seq<ExprView>) -> Seq<VisitView>
    decreases list,
{
    if list.len() == 0 {
        Seq::empty()
    } else {
        postorder_all(list.drop_last()) + postorder(list.last())
    }
}

/// The height of a backend's stack of values behind the visit `visit`, where it
/// was `depth` before, or `None` where the stack holds too few operands.
pub open spec fn depth_behind(visit: VisitView, depth: int) -> Option<int> {
    match visit {
        VisitView::Number(_) => Some(depth + 1),
        VisitView::Variable(_) => Some(depth + 1),
        VisitView::Binary(_) => if depth >= 2 {
            Some(depth - 1)
        } else {
            None
        },
        VisitView::Call { callee, args } => if depth >= args {
            Some(depth - args + 1)
        } else {
            None
        },
    }
}

/// The height of a backend's stack of values behind the visits of `order`,
/// where it was `depth` before, or `None` where some visit finds too few
/// operands.
pub open spec fn depth_after(order: Seq<VisitView>, depth: int) -> Option<int>
    decreases order.len(),
{
    if order.len() == 0 {
        Some(depth)
    } else {
        match depth_after(order.drop_last(), depth) {
            Some(d) => depth_behind(order.last(), d),
            None => None,
        }
    }
}

/// A visit behind a list of visits finds the stack as the list leaves it.
pub proof fn lemma_depth_after_push(order: Seq<VisitView>, visit: VisitView, depth: int)
    ensures
        depth_after(order.push(visit), depth) == match depth_after(order, depth) {
            Some(d) => depth_behind(visit, d),
            None => None,
        },
{
    assert(order.push(visit).drop_last() =~= order);
}

/// The visits of two lists in a row leave the stack as the second list does
/// behind the first.
pub proof fn lemma_depth_after_concat(first: Seq<VisitView>, second: Seq<VisitView>, depth: int)
    ensures
        depth_after(first + second, depth) == match depth_after(first, depth) {
            Some(d) => depth_after(second, d),
            None => None,
        },
    decreases second.len(),
{
    if second.len() == 0 {
        assert(first + second =~= first);
    } else {
        assert((first + second).drop_last() =~= first + second.drop_last());
        lemma_depth_after_concat(first, second.drop_last(), depth);
    }
}

/// Every visit of an expression finds its operands on the stack, and the
/// visits of the whole expression leave one value more than they found.
pub proof fn lemma_postorder_depth(e: ExprView, depth: int)
    requires
        depth >= 0,
    ensures
        depth_after(postorder(e), depth) == Some(depth + 1),
    decreases e,
{
    match e {
        ExprView::Number(text) => {
            lemma_depth_after_push(Seq::empty(), VisitView::Number(text), depth);
            assert(postorder(e) =~= Seq::empty().push(VisitView::Number(text)));
        },
        ExprView::Variable(name) => {
            lemma_depth_after_push(Seq::empty(), VisitView::Variable(name), depth);
            assert(postorder(e) =~= Seq::empty().push(VisitView::Variable(name)));
        },
        ExprView::Binary { op, lhs, rhs } => {
            let children = postorder(*lhs) + postorder(*rhs);
            lemma_postorder_depth(*lhs, depth);
            lemma_postorder_depth(*rhs, depth + 1);
            lemma_depth_after_concat(postorder(*lhs), postorder(*rhs), depth);
            lemma_depth_after_push(children, VisitView::Binary(op), depth);
            assert(postorder(e) =~= children.push(VisitView::Binary(op)));
        },
        ExprView::Call { callee, args } => {
            let node = VisitView::Call { callee, args: args.len() };
            lemma_postorder_all_depth(args, depth);
            lemma_depth_after_push(postorder_all(args), node, depth);
            assert(postorder(e) =~= postorder_all(args).push(node));
        },
    }
}

/// The visits of a list of expressions leave one value for each of them.
pub proof fn lemma_postorder_all_depth(list: Seq<ExprView>, depth: int)
    requires
        depth >= 0,
    ensures
        depth_after(postorder_all(list), depth) == Some(depth + list.len()),
    decreases list,
{
    if list.len() > 0 {
        lemma_postorder_all_depth(list.drop_last(), depth);
        lemma_postorder_depth(list.last(), depth + list.len() - 1);
        lemma_depth_after_concat(
            postorder_all(list.drop_last()),
            postorder(list.last()),
            depth,
        );
    }
}

impl Expr {
    /// The nodes of the expression in the order in which a backend is given
    /// them, children first.
    pub fn postorder(&self) -> (order: Vec<Visit>)
        ensures
            visit_views(order@) == postorder(self@),
    {
        let mut order: Vec<Visit> = Vec::new();
        assert(visit_views(order@) =~= Seq::<VisitView>::empty());
        self.visit(&mut order);
        assert(Seq::<VisitView>::empty() + postorder(self@) =~= postorder(self@));
        order
    }

    /// Appends the nodes of the expression to `order`, children first.
    #[verifier::loop_isolation(false)]
    fn visit(&self, order: &mut Vec<Visit>)
        ensures
            visit_views(final(order)@) == visit_views(old(order)@) + postorder(self@),
        decreases self,
    {
        let ghost before = visit_views(order@);
        match self {
            Expr::NumberExpr(number) => {
                order.push(Visit::Number(number.val.clone()));
                assert(visit_views(order@) =~= before + postorder(self@));
            },
            Expr::VariableExpr(variable) => {
                order.push(Visit::Variable(variable.name.clone()));
                assert(visit_views(order@) =~= before + postorder(self@));
            },
            Expr::BinaryExpr(binary) => {
                binary.lhs.visit(order);
                binary.rhs.visit(order);
                let ghost children = visit_views(order@);
                order.push(Visit::Binary(binary.op));
                assert(visit_views(order@) =~= children.push(VisitView::Binary(binary.op)));
                assert(visit_views(order@) =~= before + postorder(self@));
            },
            Expr::CallExpr(call) => {
                proof {
                    lemma_call_tree(*call);
                }
                let ghost args = trees(call.args@);
                let mut i: usize = 0;
                assert(args.take(0) =~= Seq::<ExprView>::empty());
                assert(before + postorder_all(args.take(0)) =~= before);
                while i < call.args.len()
                    invariant
                        i <= call.args.len(),
                        args == trees(call.args@),
                        visit_views(order@) == before + postorder_all(args.take(i as int)),
                    decreases call.args.len() - i,
                {
                    let ghost seen = visit_views(order@);
                    let arg = &call.args[i];
                    assert(*arg == call.args@[i as int]);
                    arg.visit(order);
                    proof {
                        let next = args.take(i + 1);
                        assert(next.drop_last() =~= args.take(i as int));
                        assert(next.last() == call.args@[i as int].tree());
                        assert(seen + postorder(next.last()) =~= before + postorder_all(next));
                    }
                    i += 1;
                }
                assert(args.take(i as int) =~= args);
                let ghost children = visit_views(order@);
                let visit = Visit::Call { callee: call.callee.clone(), args: call.args.len() };
                order.push(visit);
                assert(visit_views(order@) =~= children.push(visit@));
                assert(visit_views(order@) =~= before + postorder(self@));
            },
        }
    }
}

} // verus!
