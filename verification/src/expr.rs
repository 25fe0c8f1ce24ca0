//! The expression tree, its double-dispatch traversal interface, and a
//! bracketed printer as one consumer of that interface. Rendering recurses
//! with depth proportional to the tree's height, which is not bounded.

use crate::literal::literal_render;
use crate::literal::LiteralValue;
use crate::literal::LiteralView;
use crate::token::Token;
use crate::token::TokenView;
use vstd::prelude::*;
use vstd::string::StringExecFns;

verus! {

/// Specification-level value of an [`Expr`]: the same tree over token and
/// literal views.
pub enum ExprView {
    Binary { left: Box<ExprView>, operator: TokenView, right: Box<ExprView> },
    Grouping { expression: Box<ExprView> },
    Literal { value: LiteralView },
    Unary { operator: TokenView, right: Box<ExprView> },
}

/// The tagged union of expression shapes. Each node exclusively owns its
/// children: the tree is strict, never shared or cyclic.
#[derive(Debug)]
pub enum Expr {
    Binary { left: Box<Expr>, operator: Token, right: Box<Expr> },
    Grouping { expression: Box<Expr> },
    Literal { value: LiteralValue },
    Unary { operator: Token, right: Box<Expr> },
}

impl View for Expr {
    type V = ExprView;

    open spec fn view(&self) -> ExprView
        decreases self,
    {
        match self {
            Expr::Binary { left, operator, right } => ExprView::Binary {
                left: Box::new((**left)@),
                operator: (*operator)@,
                right: Box::new((**right)@),
            },
            Expr::Grouping { expression } => ExprView::Grouping {
                expression: Box::new((**expression)@),
            },
            Expr::Literal { value } => ExprView::Literal { value: (*value)@ },
            Expr::Unary { operator, right } => ExprView::Unary {
                operator: (*operator)@,
                right: Box::new((**right)@),
            },
        }
    }
}

/// The canonical bracketed rendering of an expression: binary and unary
/// nodes render as `(<operator-lexeme> <operands...>)`, grouping nodes as
/// `(group <inner>)`, literal leaves as their literal rendering.
pub open spec fn render_expr(e: ExprView) -> Seq<char>
    decreases e,
{
    match e {
        ExprView::Binary { left, operator, right } => seq!['('] + operator.text + seq![' ']
            + render_expr(*left) + seq![' '] + render_expr(*right) + seq![')'],
        ExprView::Grouping { expression } => seq!['('] + "group"@ + seq![' '] + render_expr(
            *expression,
        ) + seq![')'],
        ExprView::Literal { value } => literal_render(value),
        ExprView::Unary { operator, right } => seq!['('] + operator.text + seq![' '] + render_expr(
            *right,
        ) + seq![')'],
    }
}

/// The space-separated operand list of a bracketed rendering.
pub open spec fn paren_parts(parts: Seq<Seq<char>>) -> Seq<char>
    decreases parts.len(),
{
    if parts.len() == 0 {
        Seq::empty()
    } else {
        paren_parts(parts.drop_last()) + seq![' '] + parts.last()
    }
}

/// A bracketed rendering: the name, then each operand prefixed by one
/// space, all between parentheses.
pub open spec fn paren_render(name: Seq<char>, parts: Seq<Seq<char>>) -> Seq<char> {
    seq!['('] + name + paren_parts(parts) + seq![')']
}

/// Capability interface for AST consumers: one handler per node shape,
/// each receiving the node's constituent parts and returning a result of
/// the consumer's choosing. Each handler's contract is whatever the
/// consumer promises through the corresponding specification member.
pub trait Visitor<R> {
    /// What the consumer promises of a binary handler's result.
    spec fn binary_post(&self, left: &Expr, operator: &Token, right: &Expr, r: R) -> bool;

    /// What the consumer promises of a grouping handler's result.
    spec fn grouping_post(&self, expression: &Expr, r: R) -> bool;

    /// What the consumer promises of a literal handler's result, given
    /// the rendered literal it received.
    spec fn literal_post(&self, rendered: Seq<char>, r: R) -> bool;

    /// What the consumer promises of a unary handler's result.
    spec fn unary_post(&self, operator: &Token, right: &Expr, r: R) -> bool;

    fn visit_binary_expr(&self, left: &Expr, operator: &Token, right: &Expr) -> (r: R)
        ensures
            self.binary_post(left, operator, right, r),
    ;

    fn visit_grouping_expr(&self, expression: &Expr) -> (r: R)
        ensures
            self.grouping_post(expression, r),
    ;

    fn visit_literal_expr(&self, value: String) -> (r: R)
        ensures
            self.literal_post(value@, r),
    ;

    fn visit_unary_expr(&self, operator: &Token, right: &Expr) -> (r: R)
        ensures
            self.unary_post(operator, right, r),
    ;
}

/// What dispatching `e` to `visitor` promises of the result: the promise
/// of the handler the node's tag selects.
pub open spec fn accept_post<R, V: Visitor<R>>(visitor: &V, e: &Expr, r: R) -> bool {
    match e {
        Expr::Binary { left, operator, right } => visitor.binary_post(left, operator, right, r),
        Expr::Grouping { expression } => visitor.grouping_post(expression, r),
        Expr::Literal { value } => visitor.literal_post(literal_render((*value)@), r),
        Expr::Unary { operator, right } => visitor.unary_post(operator, right, r),
    }
}

impl Expr {
    /// Dispatches this node to the visitor's handler for its shape.
    pub fn accept<R, V: Visitor<R>>(&self, visitor: &V) -> (r: R)
        ensures
            accept_post(visitor, self, r),
    {
        match self {
            Expr::Binary { left, operator, right } => visitor.visit_binary_expr(
                left,
                operator,
                right,
            ),
            Expr::Grouping { expression } => visitor.visit_grouping_expr(expression),
            Expr::Literal { value } => visitor.visit_literal_expr(value.render()),
            Expr::Unary { operator, right } => visitor.visit_unary_expr(operator, right),
        }
    }
}

/// The height of an expression view: literal leaves have height zero.
pub open spec fn view_height(v: ExprView) -> nat
    decreases v,
{
    match v {
        ExprView::Binary { left, right, .. } => 1 + if view_height(*left) > view_height(*right) {
            view_height(*left)
        } else {
            view_height(*right)
        },
        ExprView::Grouping { expression } => 1 + view_height(*expression),
        ExprView::Literal { .. } => 0,
        ExprView::Unary { right, .. } => 1 + view_height(*right),
    }
}

/// The largest height among a sequence of expression views.
pub open spec fn max_view_height(es: Seq<ExprView>) -> nat
    decreases es.len(),
{
    if es.len() == 0 {
        0
    } else {
        let m = max_view_height(es.drop_last());
        if view_height(es.last()) > m {
            view_height(es.last())
        } else {
            m
        }
    }
}

proof fn lemma_max_view_height_bound(es: Seq<ExprView>, i: int)
    requires
        0 <= i < es.len(),
    ensures
        view_height(es[i]) <= max_view_height(es),
    decreases es.len(),
{
    if i < es.len() - 1 {
        lemma_max_view_height_bound(es.drop_last(), i);
    }
}

/// A consumer of the traversal interface that renders the tree in the
/// canonical bracketed form of [`render_expr`].
pub struct AstPrinter;

impl AstPrinter {
    /// Renders the whole tree.
    pub fn print(&self, expr: Expr) -> (r: String)
        ensures
            r@ == render_expr(expr@),
    {
        expr.accept(self)
    }

    /// Renders one subtree.
    fn render_tree(&self, e: &Expr) -> (r: String)
        ensures
            r@ == render_expr(e@),
        decreases view_height(e@), 0nat,
    {
        match e {
            Expr::Binary { left, operator, right } => {
                let operands = vec![&**left, &**right];
                proof {
                    lemma_two_heights(left@, operator@, right@, e@);
                    lemma_paren_two(operator@.text, left@, right@);
                    assert(operands@.map_values(|x: &Expr| render_expr(x@)) =~= seq![
                        render_expr(left@),
                        render_expr(right@),
                    ]);
                    assert(operands@.map_values(|x: &Expr| x@) =~= seq![left@, right@]);
                }
                self.parenthesize(operator.lexeme.clone(), operands)
            },
            Expr::Grouping { expression } => {
                let operands = vec![&**expression];
                proof {
                    lemma_one_height(expression@);
                    lemma_paren_one("group"@, expression@);
                    assert(operands@.map_values(|x: &Expr| render_expr(x@)) =~= seq![
                        render_expr(expression@),
                    ]);
                    assert(operands@.map_values(|x: &Expr| x@) =~= seq![expression@]);
                }
                self.parenthesize("group".to_owned(), operands)
            },
            Expr::Literal { value } => value.render(),
            Expr::Unary { operator, right } => {
                let operands = vec![&**right];
                proof {
                    lemma_one_height(right@);
                    lemma_paren_one(operator@.text, right@);
                    assert(operands@.map_values(|x: &Expr| render_expr(x@)) =~= seq![
                        render_expr(right@),
                    ]);
                    assert(operands@.map_values(|x: &Expr| x@) =~= seq![right@]);
                }
                self.parenthesize(operator.lexeme.clone(), operands)
            },
        }
    }

    /// Renders `(<name> <operand>...)`, one space before each operand.
    fn parenthesize(&self, name: String, exprs: Vec<&Expr>) -> (r: String)
        ensures
            r@ == paren_render(name@, exprs@.map_values(|e: &Expr| render_expr(e@))),
        decreases max_view_height(exprs@.map_values(|e: &Expr| e@)), 1nat,
    {
        let ghost parts = exprs@.map_values(|e: &Expr| render_expr(e@));
        let ghost views = exprs@.map_values(|e: &Expr| e@);
        let mut r = String::new();
        r.append("(");
        r.append(name.as_str());
        proof {
            reveal_strlit("(");
            reveal_strlit(" ");
            reveal_strlit(")");
            assert("("@ =~= seq!['(']);
            assert(" "@ =~= seq![' ']);
            assert(")"@ =~= seq![')']);
            assert(r@ =~= seq!['('] + name@ + paren_parts(parts.take(0)));
        }
        let mut i: usize = 0;
        while i < exprs.len()
            invariant
                0 <= i <= exprs.len(),
                parts == exprs@.map_values(|e: &Expr| render_expr(e@)),
                views == exprs@.map_values(|e: &Expr| e@),
                r@ == seq!['('] + name@ + paren_parts(parts.take(i as int)),
            decreases exprs.len() - i,
        {
            r.append(" ");
            proof {
                lemma_max_view_height_bound(views, i as int);
            }
            let part = self.render_tree(exprs[i]);
            r.append(part.as_str());
            proof {
                reveal_strlit(" ");
                assert(" "@ =~= seq![' ']);
                assert(parts.take(i + 1).drop_last() =~= parts.take(i as int));
                assert(parts.take(i + 1).len() > 0);
                assert(parts.take(i + 1).last() == render_expr(exprs@[i as int]@));
                assert(paren_parts(parts.take(i + 1)) == paren_parts(parts.take(i as int)) + seq![
                    ' ',
                ] + parts.take(i + 1).last());
                assert(r@ =~= seq!['('] + name@ + paren_parts(parts.take(i + 1)));
            }
            i = i + 1;
        }
        r.append(")");
        proof {
            reveal_strlit(")");
            assert(")"@ =~= seq![')']);
            assert(parts.take(parts.len() as int) =~= parts);
            assert(r@ =~= paren_render(name@, parts));
        }
        r
    }
}

/// A two-operand bracketed rendering spelled out.
proof fn lemma_paren_two(name: Seq<char>, l: ExprView, r: ExprView)
    ensures
        paren_render(name, seq![render_expr(l), render_expr(r)]) == seq!['('] + name + seq![' ']
            + render_expr(l) + seq![' '] + render_expr(r) + seq![')'],
{
    let parts = seq![render_expr(l), render_expr(r)];
    assert(parts.drop_last() =~= seq![render_expr(l)]);
    assert(seq![render_expr(l)].drop_last() =~= Seq::<Seq<char>>::empty());
    assert(paren_parts(Seq::<Seq<char>>::empty()) == Seq::<char>::empty());
    assert(paren_parts(seq![render_expr(l)]) == paren_parts(Seq::<Seq<char>>::empty()) + seq![' ']
        + render_expr(l));
    assert(paren_parts(parts) == paren_parts(seq![render_expr(l)]) + seq![' '] + render_expr(r));
    assert(paren_render(name, parts) =~= seq!['('] + name + seq![' '] + render_expr(l) + seq![' ']
        + render_expr(r) + seq![')']);
}

/// A one-operand bracketed rendering spelled out.
proof fn lemma_paren_one(name: Seq<char>, x: ExprView)
    ensures
        paren_render(name, seq![render_expr(x)]) == seq!['('] + name + seq![' '] + render_expr(x)
            + seq![')'],
{
    assert(seq![render_expr(x)].drop_last() =~= Seq::<Seq<char>>::empty());
    assert(paren_parts(Seq::<Seq<char>>::empty()) == Seq::<char>::empty());
    assert(paren_parts(seq![render_expr(x)]) == paren_parts(Seq::<Seq<char>>::empty()) + seq![' ']
        + render_expr(x));
    assert(paren_render(name, seq![render_expr(x)]) =~= seq!['('] + name + seq![' '] + render_expr(
        x,
    ) + seq![')']);
}

proof fn lemma_one_height(x: ExprView)
    ensures
        max_view_height(seq![x]) == view_height(x),
{
    assert(seq![x].drop_last() =~= Seq::<ExprView>::empty());
    assert(max_view_height(Seq::<ExprView>::empty()) == 0);
    assert(seq![x].last() == x);
}

proof fn lemma_two_heights(l: ExprView, op: TokenView, r: ExprView, whole: ExprView)
    requires
        whole == (ExprView::Binary { left: Box::new(l), operator: op, right: Box::new(r) }),
    ensures
        max_view_height(seq![l, r]) < view_height(whole),
{
    assert(seq![l, r].drop_last() =~= seq![l]);
    assert(seq![l].drop_last() =~= Seq::<ExprView>::empty());
    assert(max_view_height(Seq::<ExprView>::empty()) == 0);
    assert(seq![l].last() == l);
    assert(max_view_height(seq![l]) == view_height(l));
    assert(seq![l, r].last() == r);
    assert(max_view_height(seq![l, r]) == if view_height(r) > view_height(l) {
        view_height(r)
    } else {
        view_height(l)
    });
}

impl Visitor<String> for AstPrinter {
    open spec fn binary_post(&self, left: &Expr, operator: &Token, right: &Expr, r: String) -> bool {
        r@ == seq!['('] + operator@.text + seq![' '] + render_expr(left@) + seq![' ']
            + render_expr(right@) + seq![')']
    }

    open spec fn grouping_post(&self, expression: &Expr, r: String) -> bool {
        r@ == seq!['('] + "group"@ + seq![' '] + render_expr(expression@) + seq![')']
    }

    open spec fn literal_post(&self, rendered: Seq<char>, r: String) -> bool {
        r@ == rendered
    }

    open spec fn unary_post(&self, operator: &Token, right: &Expr, r: String) -> bool {
        r@ == seq!['('] + operator@.text + seq![' '] + render_expr(right@) + seq![')']
    }

    fn visit_binary_expr(&self, left: &Expr, operator: &Token, right: &Expr) -> (r: String) {
        let operands = vec![left, right];
        proof {
            lemma_paren_two(operator@.text, left@, right@);
            assert(operands@.map_values(|e: &Expr| render_expr(e@)) =~= seq![
                render_expr(left@),
                render_expr(right@),
            ]);
        }
        self.parenthesize(operator.lexeme.clone(), operands)
    }

    fn visit_grouping_expr(&self, expression: &Expr) -> (r: String) {
        let operands = vec![expression];
        proof {
            lemma_paren_one("group"@, expression@);
            assert(operands@.map_values(|e: &Expr| render_expr(e@)) =~= seq![
                render_expr(expression@),
            ]);
        }
        self.parenthesize("group".to_owned(), operands)
    }

    fn visit_literal_expr(&self, value: String) -> (r: String) {
        value
    }

    fn visit_unary_expr(&self, operator: &Token, right: &Expr) -> (r: String) {
        let operands = vec![right];
        proof {
            lemma_paren_one(operator@.text, right@);
            assert(operands@.map_values(|e: &Expr| render_expr(e@)) =~= seq![render_expr(right@)]);
        }
        self.parenthesize(operator.lexeme.clone(), operands)
    }
}

} // verus!
