//! The parser: recursive descent over a token sequence, one function per
//! precedence layer of the expression grammar, lowest to highest:
//!
//! ```text
//! expression -> equality
//! equality   -> comparison ( ("!=" | "==") comparison )*
//! comparison -> term ( (">" | ">=" | "<" | "<=") term )*
//! term       -> factor ( ("-" | "+") factor )*
//! factor     -> unary ( ("/" | "*") unary )*
//! unary      -> ("!" | "-") unary | primary
//! primary    -> NUMBER | STRING | "true" | "false" | "nil" | "(" expression ")"
//! ```
//!
//! The executable [`Parser`] is verified against one specification function
//! per grammar rule; the binary layers are split into a function for the
//! first operand and a `rest` function folding the left-associative chain.
//!
//! The descent recurses with depth proportional to the input's grouping
//! and unary nesting; it does not bound that depth, so pathologically deep
//! nesting can exhaust the call stack.

use crate::error::LoxErrors;
use crate::error::LoxErrorView;
use crate::expr::Expr;
use crate::expr::ExprView;
use crate::literal::LiteralValue;
use crate::literal::LiteralView;
use crate::scanner::eof_token_view;
use crate::scanner::wf_token_seq;
use crate::token::token_views;
use crate::token::Token;
use crate::token::TokenType;
use crate::token::TokenView;
use vstd::prelude::*;

verus! {

/// The operators of the equality layer.
pub open spec fn is_equality_op(k: TokenType) -> bool {
    k == TokenType::BangEqual || k == TokenType::EqualEqual
}

/// The operators of the comparison layer.
pub open spec fn is_comparison_op(k: TokenType) -> bool {
    k == TokenType::Greater || k == TokenType::GreaterEqual || k == TokenType::Less || k
        == TokenType::LessEqual
}

/// The operators of the term layer.
pub open spec fn is_term_op(k: TokenType) -> bool {
    k == TokenType::Minus || k == TokenType::Plus
}

/// The operators of the factor layer.
pub open spec fn is_factor_op(k: TokenType) -> bool {
    k == TokenType::Slash || k == TokenType::Star
}

/// The prefix operators of the unary layer.
pub open spec fn is_unary_op(k: TokenType) -> bool {
    k == TokenType::Bang || k == TokenType::Minus
}

/// What one grammar rule yields: the parsed expression and the position
/// just past it, or the failure.
pub type ParseResult = Result<(ExprView, int), LoxErrorView>;

/// The primary rule: literal tokens and keywords become literal leaves; a
/// left parenthesis opens a nested expression that must close; any other
/// token is the primary-expression failure, carrying that token.
pub open spec fn spec_primary(ts: Seq<TokenView>, i: int) -> ParseResult
    decreases ts.len() - i, 0int,
{
    if i < 0 || i >= ts.len() {
        Err(LoxErrorView::PrimaryExprError(eof_token_view(0)))
    } else if ts[i].kind == TokenType::False {
        Ok((ExprView::Literal { value: LiteralView::Boolean(false) }, i + 1))
    } else if ts[i].kind == TokenType::True {
        Ok((ExprView::Literal { value: LiteralView::Boolean(true) }, i + 1))
    } else if ts[i].kind == TokenType::Nil {
        Ok((ExprView::Literal { value: LiteralView::Null }, i + 1))
    } else if ts[i].kind == TokenType::Number || ts[i].kind == TokenType::Str {
        Ok((ExprView::Literal { value: ts[i].literal }, i + 1))
    } else if ts[i].kind == TokenType::LeftParen {
        match spec_expression(ts, i + 1) {
            Ok((e, j)) => {
                if 0 <= j < ts.len() && ts[j].kind == TokenType::RightParen {
                    Ok((ExprView::Grouping { expression: Box::new(e) }, j + 1))
                } else {
                    Err(LoxErrorView::UnexpectedTokenTypeFound(TokenType::RightParen))
                }
            },
            Err(e) => Err(e),
        }
    } else {
        Err(LoxErrorView::PrimaryExprError(ts[i]))
    }
}

/// The unary rule: a chain of prefix operators applied right to left.
pub open spec fn spec_unary(ts: Seq<TokenView>, i: int) -> ParseResult
    decreases ts.len() - i, 1int,
{
    if 0 <= i < ts.len() && is_unary_op(ts[i].kind) {
        match spec_unary(ts, i + 1) {
            Ok((e, j)) => Ok((ExprView::Unary { operator: ts[i], right: Box::new(e) }, j)),
            Err(e) => Err(e),
        }
    } else {
        spec_primary(ts, i)
    }
}

/// Folds further `/` and `*` operands onto `acc`, left-associatively.
pub open spec fn spec_factor_rest(ts: Seq<TokenView>, i: int, acc: ExprView) -> ParseResult
    decreases ts.len() - i, 2int,
{
    if 0 <= i < ts.len() && is_factor_op(ts[i].kind) {
        match spec_unary(ts, i + 1) {
            Ok((e, j)) => {
                let b = ExprView::Binary {
                    left: Box::new(acc),
                    operator: ts[i],
                    right: Box::new(e),
                };
                if i < j <= ts.len() {
                    spec_factor_rest(ts, j, b)
                } else {
                    Ok((b, j))
                }
            },
            Err(e) => Err(e),
        }
    } else {
        Ok((acc, i))
    }
}

/// The factor rule: one unary operand, then its left-associative chain.
pub open spec fn spec_factor(ts: Seq<TokenView>, i: int) -> ParseResult
    decreases ts.len() - i, 3int,
{
    match spec_unary(ts, i) {
        Ok((e, j)) => {
            if i <= j <= ts.len() {
                spec_factor_rest(ts, j, e)
            } else {
                Ok((e, j))
            }
        },
        Err(e) => Err(e),
    }
}

/// Folds further `-` and `+` operands onto `acc`, left-associatively.
pub open spec fn spec_term_rest(ts: Seq<TokenView>, i: int, acc: ExprView) -> ParseResult
    decreases ts.len() - i, 4int,
{
    if 0 <= i < ts.len() && is_term_op(ts[i].kind) {
        match spec_factor(ts, i + 1) {
            Ok((e, j)) => {
                let b = ExprView::Binary {
                    left: Box::new(acc),
                    operator: ts[i],
                    right: Box::new(e),
                };
                if i < j <= ts.len() {
                    spec_term_rest(ts, j, b)
                } else {
                    Ok((b, j))
                }
            },
            Err(e) => Err(e),
        }
    } else {
        Ok((acc, i))
    }
}

/// The term rule: one factor operand, then its left-associative chain.
pub open spec fn spec_term(ts: Seq<TokenView>, i: int) -> ParseResult
    decreases ts.len() - i, 5int,
{
    match spec_factor(ts, i) {
        Ok((e, j)) => {
            if i <= j <= ts.len() {
                spec_term_rest(ts, j, e)
            } else {
                Ok((e, j))
            }
        },
        Err(e) => Err(e),
    }
}

/// Folds further comparison operands onto `acc`, left-associatively.
pub open spec fn spec_comparison_rest(ts: Seq<TokenView>, i: int, acc: ExprView) -> ParseResult
    decreases ts.len() - i, 6int,
{
    if 0 <= i < ts.len() && is_comparison_op(ts[i].kind) {
        match spec_term(ts, i + 1) {
            Ok((e, j)) => {
                let b = ExprView::Binary {
                    left: Box::new(acc),
                    operator: ts[i],
                    right: Box::new(e),
                };
                if i < j <= ts.len() {
                    spec_comparison_rest(ts, j, b)
                } else {
                    Ok((b, j))
                }
            },
            Err(e) => Err(e),
        }
    } else {
        Ok((acc, i))
    }
}

/// The comparison rule: one term operand, then its chain.
pub open spec fn spec_comparison(ts: Seq<TokenView>, i: int) -> ParseResult
    decreases ts.len() - i, 7int,
{
    match spec_term(ts, i) {
        Ok((e, j)) => {
            if i <= j <= ts.len() {
                spec_comparison_rest(ts, j, e)
            } else {
                Ok((e, j))
            }
        },
        Err(e) => Err(e),
    }
}

/// Folds further `!=` and `==` operands onto `acc`, left-associatively.
pub open spec fn spec_equality_rest(ts: Seq<TokenView>, i: int, acc: ExprView) -> ParseResult
    decreases ts.len() - i, 8int,
{
    if 0 <= i < ts.len() && is_equality_op(ts[i].kind) {
        match spec_comparison(ts, i + 1) {
            Ok((e, j)) => {
                let b = ExprView::Binary {
                    left: Box::new(acc),
                    operator: ts[i],
                    right: Box::new(e),
                };
                if i < j <= ts.len() {
                    spec_equality_rest(ts, j, b)
                } else {
                    Ok((b, j))
                }
            },
            Err(e) => Err(e),
        }
    } else {
        Ok((acc, i))
    }
}

/// The equality rule: one comparison operand, then its chain.
pub open spec fn spec_equality(ts: Seq<TokenView>, i: int) -> ParseResult
    decreases ts.len() - i, 9int,
{
    match spec_comparison(ts, i) {
        Ok((e, j)) => {
            if i <= j <= ts.len() {
                spec_equality_rest(ts, j, e)
            } else {
                Ok((e, j))
            }
        },
        Err(e) => Err(e),
    }
}

/// The whole expression grammar: its lowest layer.
pub open spec fn spec_expression(ts: Seq<TokenView>, i: int) -> ParseResult
    decreases ts.len() - i, 10int,
{
    spec_equality(ts, i)
}

/// On a well-formed token sequence, a successful primary parse lands
/// strictly further on and never past the end-of-file sentinel.
pub proof fn lemma_primary_pos(ts: Seq<TokenView>, i: int)
    requires
        wf_token_seq(ts),
        0 <= i < ts.len(),
    ensures
        spec_primary(ts, i) matches Ok((e, j)) ==> i < j < ts.len(),
    decreases ts.len() - i, 0int,
{
    if ts[i].kind == TokenType::LeftParen {
        assert(i < ts.len() - 1);
        lemma_expression_pos(ts, i + 1);
    } else if ts[i].kind == TokenType::False || ts[i].kind == TokenType::True || ts[i].kind
        == TokenType::Nil || ts[i].kind == TokenType::Number || ts[i].kind == TokenType::Str {
        assert(i < ts.len() - 1);
    }
}

/// Position bounds for the unary rule.
pub proof fn lemma_unary_pos(ts: Seq<TokenView>, i: int)
    requires
        wf_token_seq(ts),
        0 <= i < ts.len(),
    ensures
        spec_unary(ts, i) matches Ok((e, j)) ==> i < j < ts.len(),
    decreases ts.len() - i, 1int,
{
    if is_unary_op(ts[i].kind) {
        assert(i < ts.len() - 1);
        lemma_unary_pos(ts, i + 1);
    } else {
        lemma_primary_pos(ts, i);
    }
}

/// Position bounds for the factor chain.
pub proof fn lemma_factor_rest_pos(ts: Seq<TokenView>, i: int, acc: ExprView)
    requires
        wf_token_seq(ts),
        0 <= i < ts.len(),
    ensures
        spec_factor_rest(ts, i, acc) matches Ok((e, j)) ==> i <= j < ts.len(),
    decreases ts.len() - i, 2int,
{
    if is_factor_op(ts[i].kind) {
        assert(i < ts.len() - 1);
        lemma_unary_pos(ts, i + 1);
        if let Ok((e, j)) = spec_unary(ts, i + 1) {
            let b = ExprView::Binary { left: Box::new(acc), operator: ts[i], right: Box::new(e) };
            lemma_factor_rest_pos(ts, j, b);
        }
    }
}

/// Position bounds for the factor rule.
pub proof fn lemma_factor_pos(ts: Seq<TokenView>, i: int)
    requires
        wf_token_seq(ts),
        0 <= i < ts.len(),
    ensures
        spec_factor(ts, i) matches Ok((e, j)) ==> i < j < ts.len(),
    decreases ts.len() - i, 3int,
{
    lemma_unary_pos(ts, i);
    if let Ok((e, j)) = spec_unary(ts, i) {
        lemma_factor_rest_pos(ts, j, e);
    }
}

/// Position bounds for the term chain.
pub proof fn lemma_term_rest_pos(ts: Seq<TokenView>, i: int, acc: ExprView)
    requires
        wf_token_seq(ts),
        0 <= i < ts.len(),
    ensures
        spec_term_rest(ts, i, acc) matches Ok((e, j)) ==> i <= j < ts.len(),
    decreases ts.len() - i, 4int,
{
    if is_term_op(ts[i].kind) {
        assert(i < ts.len() - 1);
        lemma_factor_pos(ts, i + 1);
        if let Ok((e, j)) = spec_factor(ts, i + 1) {
            let b = ExprView::Binary { left: Box::new(acc), operator: ts[i], right: Box::new(e) };
            lemma_term_rest_pos(ts, j, b);
        }
    }
}

/// Position bounds for the term rule.
pub proof fn lemma_term_pos(ts: Seq<TokenView>, i: int)
    requires
        wf_token_seq(ts),
        0 <= i < ts.len(),
    ensures
        spec_term(ts, i) matches Ok((e, j)) ==> i < j < ts.len(),
    decreases ts.len() - i, 5int,
{
    lemma_factor_pos(ts, i);
    if let Ok((e, j)) = spec_factor(ts, i) {
        lemma_term_rest_pos(ts, j, e);
    }
}

/// Position bounds for the comparison chain.
pub proof fn lemma_comparison_rest_pos(ts: Seq<TokenView>, i: int, acc: ExprView)
    requires
        wf_token_seq(ts),
        0 <= i < ts.len(),
    ensures
        spec_comparison_rest(ts, i, acc) matches Ok((e, j)) ==> i <= j < ts.len(),
    decreases ts.len() - i, 6int,
{
    if is_comparison_op(ts[i].kind) {
        assert(i < ts.len() - 1);
        lemma_term_pos(ts, i + 1);
        if let Ok((e, j)) = spec_term(ts, i + 1) {
            let b = ExprView::Binary { left: Box::new(acc), operator: ts[i], right: Box::new(e) };
            lemma_comparison_rest_pos(ts, j, b);
        }
    }
}

/// Position bounds for the comparison rule.
pub proof fn lemma_comparison_pos(ts: Seq<TokenView>, i: int)
    requires
        wf_token_seq(ts),
        0 <= i < ts.len(),
    ensures
        spec_comparison(ts, i) matches Ok((e, j)) ==> i < j < ts.len(),
    decreases ts.len() - i, 7int,
{
    lemma_term_pos(ts, i);
    if let Ok((e, j)) = spec_term(ts, i) {
        lemma_comparison_rest_pos(ts, j, e);
    }
}

/// Position bounds for the equality chain.
pub proof fn lemma_equality_rest_pos(ts: Seq<TokenView>, i: int, acc: ExprView)
    requires
        wf_token_seq(ts),
        0 <= i < ts.len(),
    ensures
        spec_equality_rest(ts, i, acc) matches Ok((e, j)) ==> i <= j < ts.len(),
    decreases ts.len() - i, 8int,
{
    if is_equality_op(ts[i].kind) {
        assert(i < ts.len() - 1);
        lemma_comparison_pos(ts, i + 1);
        if let Ok((e, j)) = spec_comparison(ts, i + 1) {
            let b = ExprView::Binary { left: Box::new(acc), operator: ts[i], right: Box::new(e) };
            lemma_equality_rest_pos(ts, j, b);
        }
    }
}

/// Position bounds for the equality rule.
pub proof fn lemma_equality_pos(ts: Seq<TokenView>, i: int)
    requires
        wf_token_seq(ts),
        0 <= i < ts.len(),
    ensures
        spec_equality(ts, i) matches Ok((e, j)) ==> i < j < ts.len(),
    decreases ts.len() - i, 9int,
{
    lemma_comparison_pos(ts, i);
    if let Ok((e, j)) = spec_comparison(ts, i) {
        lemma_equality_rest_pos(ts, j, e);
    }
}

/// Position bounds for the whole grammar.
pub proof fn lemma_expression_pos(ts: Seq<TokenView>, i: int)
    requires
        wf_token_seq(ts),
        0 <= i < ts.len(),
    ensures
        spec_expression(ts, i) matches Ok((e, j)) ==> i < j < ts.len(),
    decreases ts.len() - i, 10int,
{
    lemma_equality_pos(ts, i);
}

/// `e` wrapped in `n` grouping nodes.
pub open spec fn wrap_grouping(e: ExprView, n: nat) -> ExprView
    decreases n,
{
    if n == 0 {
        e
    } else {
        ExprView::Grouping { expression: Box::new(wrap_grouping(e, (n - 1) as nat)) }
    }
}

/// How many grouping nodes wrap the root of `e`.
pub open spec fn grouping_depth(e: ExprView) -> nat
    decreases e,
{
    match e {
        ExprView::Grouping { expression } => 1 + grouping_depth(*expression),
        _ => 0,
    }
}

/// Wrapping in `n` grouping nodes adds `n` to the grouping depth.
pub proof fn lemma_wrap_grouping_depth(e: ExprView, n: nat)
    ensures
        grouping_depth(wrap_grouping(e, n)) == n + grouping_depth(e),
    decreases n,
{
    if n > 0 {
        lemma_wrap_grouping_depth(e, (n - 1) as nat);
    }
}

/// Balanced parentheses wrapping a valid expression parse to exactly that
/// expression wrapped in as many grouping nodes: `n` left parentheses
/// before it and `n` right parentheses after it succeed, and the
/// resulting tree's grouping nesting depth grows by exactly the
/// parenthesis nesting depth.
#[verifier::rlimit(100)]
pub proof fn lemma_nested_parens(ts: Seq<TokenView>, i: int, n: nat, e: ExprView, j: int)
    requires
        wf_token_seq(ts),
        0 <= i,
        forall|m: int| 0 <= m < n ==> 0 <= i + m < ts.len() && (#[trigger] ts[i + m]).kind
            == TokenType::LeftParen,
        spec_expression(ts, i + n) == Ok::<(ExprView, int), LoxErrorView>((e, j)),
        forall|m: int| 0 <= m < n ==> 0 <= j + m < ts.len() && (#[trigger] ts[j + m]).kind
            == TokenType::RightParen,
        0 <= j + n < ts.len(),
        ts[j + n].kind == TokenType::Eof || ts[j + n].kind == TokenType::RightParen,
    ensures
        spec_expression(ts, i) == Ok::<(ExprView, int), LoxErrorView>((wrap_grouping(e, n), j + n)),
        grouping_depth(wrap_grouping(e, n)) == n + grouping_depth(e),
    decreases n,
{
    lemma_wrap_grouping_depth(e, n);
    if n == 0 {
    } else {
        assert(0 <= i + 0 < ts.len() && ts[i + 0].kind == TokenType::LeftParen);
        assert forall|m: int| 0 <= m < n - 1 implies 0 <= i + 1 + m < ts.len() && (#[trigger] ts[i
            + 1 + m]).kind == TokenType::LeftParen by {
            let mm = m + 1;
            assert(0 <= mm < n);
            assert(0 <= i + mm < ts.len() && ts[i + mm].kind == TokenType::LeftParen);
            assert(i + 1 + m == i + mm);
        }
        assert(0 <= j + (n - 1) < ts.len() && ts[j + (n - 1)].kind == TokenType::RightParen);
        lemma_nested_parens(ts, i + 1, (n - 1) as nat, e, j);
        let inner = wrap_grouping(e, (n - 1) as nat);
        let stop = j + n;
        assert(ts[j + (n - 1)].kind == TokenType::RightParen);
        assert(j + (n - 1) == j + n - 1);
        let g = ExprView::Grouping { expression: Box::new(inner) };
        assert(wrap_grouping(e, n) == g);
        assert(spec_primary(ts, i) == Ok::<(ExprView, int), LoxErrorView>((g, stop)));
        assert(spec_unary(ts, i) == Ok::<(ExprView, int), LoxErrorView>((g, stop)));
        assert(spec_factor_rest(ts, stop, g) == Ok::<(ExprView, int), LoxErrorView>((g, stop)));
        assert(spec_factor(ts, i) == Ok::<(ExprView, int), LoxErrorView>((g, stop)));
        assert(spec_term_rest(ts, stop, g) == Ok::<(ExprView, int), LoxErrorView>((g, stop)));
        assert(spec_term(ts, i) == Ok::<(ExprView, int), LoxErrorView>((g, stop)));
        assert(spec_comparison_rest(ts, stop, g) == Ok::<(ExprView, int), LoxErrorView>((g, stop)));
        assert(spec_comparison(ts, i) == Ok::<(ExprView, int), LoxErrorView>((g, stop)));
        assert(spec_equality_rest(ts, stop, g) == Ok::<(ExprView, int), LoxErrorView>((g, stop)));
        assert(spec_equality(ts, i) == Ok::<(ExprView, int), LoxErrorView>((g, stop)));
    }
}

/// A number literal leaf.
pub open spec fn number_leaf(t: TokenView) -> ExprView {
    ExprView::Literal { value: t.literal }
}

/// The left-leaning tree a chain of `k` further term operands folds into:
/// each step wraps the accumulator as the left child of a new binary node
/// whose operator stands at `i + 2m` and whose right child is the number
/// at `i + 2m + 1`.
pub open spec fn term_chain_fold(ts: Seq<TokenView>, i: int, k: nat, acc: ExprView) -> ExprView
    decreases k,
{
    if k == 0 {
        acc
    } else {
        term_chain_fold(
            ts,
            i + 2,
            (k - 1) as nat,
            ExprView::Binary {
                left: Box::new(acc),
                operator: ts[i],
                right: Box::new(number_leaf(ts[i + 1])),
            },
        )
    }
}

/// Left-associative chains: a run of `k` pairs of a term operator and a
/// number operand, ended by a token that extends neither the term nor the
/// factor layer, folds onto `acc` left-associatively — each new operand
/// becomes the right child of a node whose left child is everything
/// parsed so far, never the other way around.
pub proof fn lemma_term_chain(ts: Seq<TokenView>, i: int, k: nat, acc: ExprView)
    requires
        wf_token_seq(ts),
        0 <= i,
        forall|m: int| 0 <= m < k ==> 0 <= i + 2 * m && i + 2 * m + 1 < ts.len() && is_term_op(
            (#[trigger] ts[i + 2 * m]).kind,
        ) && ts[i + 2 * m + 1].kind == TokenType::Number,
        0 <= i + 2 * k < ts.len(),
        !is_term_op(ts[i + 2 * k].kind),
        !is_factor_op(ts[i + 2 * k].kind),
    ensures
        spec_term_rest(ts, i, acc) == Ok::<(ExprView, int), LoxErrorView>(
            (term_chain_fold(ts, i, k, acc), i + 2 * k),
        ),
    decreases k,
{
    if k == 0 {
    } else {
        assert(0 <= i + 2 * 0 && i + 2 * 0 + 1 < ts.len() && is_term_op(ts[i + 2 * 0].kind) && ts[
            i + 2 * 0 + 1
        ].kind == TokenType::Number);
        assert(is_term_op(ts[i].kind));
        assert(ts[i + 1].kind == TokenType::Number);
        let lit = number_leaf(ts[i + 1]);
        assert(ts[i + 2].kind == TokenType::Eof ==> !is_factor_op(ts[i + 2].kind));
        assert(0 <= i + 2 < ts.len() && !is_factor_op(ts[i + 2].kind)) by {
            if k == 1 {
            } else {
                assert(0 <= i + 2 * 1 && i + 2 * 1 + 1 < ts.len() && is_term_op(
                    ts[i + 2 * 1].kind,
                ) && ts[i + 2 * 1 + 1].kind == TokenType::Number);
            }
        }
        assert(spec_primary(ts, i + 1) == Ok::<(ExprView, int), LoxErrorView>((lit, i + 2)));
        assert(spec_unary(ts, i + 1) == Ok::<(ExprView, int), LoxErrorView>((lit, i + 2)));
        assert(spec_factor_rest(ts, i + 2, lit) == Ok::<(ExprView, int), LoxErrorView>(
            (lit, i + 2),
        ));
        assert(spec_factor(ts, i + 1) == Ok::<(ExprView, int), LoxErrorView>((lit, i + 2)));
        let b = ExprView::Binary { left: Box::new(acc), operator: ts[i], right: Box::new(lit) };
        assert forall|m: int| 0 <= m < k - 1 implies 0 <= i + 2 + 2 * m && i + 2 + 2 * m + 1
            < ts.len() && is_term_op((#[trigger] ts[i + 2 + 2 * m]).kind) && ts[i + 2 + 2 * m
            + 1].kind == TokenType::Number by {
            let mm = m + 1;
            assert(0 <= mm < k);
            assert(0 <= i + 2 * mm && i + 2 * mm + 1 < ts.len() && is_term_op(
                (ts[i + 2 * mm]).kind,
            ) && ts[i + 2 * mm + 1].kind == TokenType::Number);
            assert(i + 2 + 2 * m == i + 2 * mm);
        }
        lemma_term_chain(ts, i + 2, (k - 1) as nat, b);
        assert(i + 2 + 2 * (k - 1) == i + 2 * k);
        assert(spec_term_rest(ts, i, acc) == spec_term_rest(ts, i + 2, b));
        assert(term_chain_fold(ts, i, k, acc) == term_chain_fold(ts, i + 2, (k - 1) as nat, b));
    }
}

/// `e` wrapped in the `k` unary operators standing at `i`, .., `i + k - 1`,
/// nested right to left: the first operator is outermost.
pub open spec fn wrap_unary(ts: Seq<TokenView>, i: int, k: nat, e: ExprView) -> ExprView
    decreases k,
{
    if k == 0 {
        e
    } else {
        ExprView::Unary {
            operator: ts[i],
            right: Box::new(wrap_unary(ts, i + 1, (k - 1) as nat, e)),
        }
    }
}

/// Right-associative unary chains: a run of `k` unary operators applies
/// to the operand right to left, each operator wrapping everything after
/// it.
pub proof fn lemma_unary_chain(ts: Seq<TokenView>, i: int, k: nat)
    requires
        wf_token_seq(ts),
        0 <= i,
        forall|m: int| 0 <= m < k ==> 0 <= i + m < ts.len() && is_unary_op(
            (#[trigger] ts[i + m]).kind,
        ),
    ensures
        match spec_unary(ts, i + k) {
            Ok((e, j)) => spec_unary(ts, i) == Ok::<(ExprView, int), LoxErrorView>(
                (wrap_unary(ts, i, k, e), j),
            ),
            Err(er) => spec_unary(ts, i) == Err::<(ExprView, int), LoxErrorView>(er),
        },
    decreases k,
{
    if k > 0 {
        assert(0 <= i + 0 < ts.len() && is_unary_op(ts[i + 0].kind));
        assert forall|m: int| 0 <= m < k - 1 implies 0 <= i + 1 + m < ts.len() && is_unary_op(
            (#[trigger] ts[i + 1 + m]).kind,
        ) by {
            let mm = m + 1;
            assert(0 <= mm < k);
            assert(0 <= i + mm < ts.len() && is_unary_op(ts[i + mm].kind));
            assert(i + 1 + m == i + mm);
        }
        lemma_unary_chain(ts, i + 1, (k - 1) as nat);
        assert(i + 1 + (k - 1) == i + k);
    }
}

/// Whether the cursor may consume the token at `i`: it matches `t` and is
/// not the end-of-file sentinel.
pub open spec fn spec_check(ts: Seq<TokenView>, i: int, t: TokenType) -> bool {
    0 <= i < ts.len() && ts[i].kind != TokenType::Eof && ts[i].kind == t
}

/// The keywords that begin a statement: where error recovery restarts.
pub open spec fn is_sync_boundary(k: TokenType) -> bool {
    ||| k == TokenType::Class
    ||| k == TokenType::Fun
    ||| k == TokenType::Var
    ||| k == TokenType::For
    ||| k == TokenType::If
    ||| k == TokenType::While
    ||| k == TokenType::Print
    ||| k == TokenType::Return
}

/// Where synchronization stops, for a cursor standing at `i` whose
/// previous token was just consumed: at the sentinel, just past a
/// semicolon, or before a statement keyword.
pub open spec fn spec_sync(ts: Seq<TokenView>, i: int) -> int
    decreases ts.len() - i,
{
    if !(1 <= i < ts.len()) {
        i
    } else if ts[i].kind == TokenType::Eof {
        i
    } else if ts[i - 1].kind == TokenType::Semicolon {
        i
    } else if is_sync_boundary(ts[i].kind) {
        i
    } else {
        spec_sync(ts, i + 1)
    }
}

/// The parser object: the token sequence it owns and the forward-only
/// cursor into it.
pub struct Parser {
    tokens_list: Vec<Token>,
    current: usize,
}

impl Parser {
    /// The tokens the parser owns.
    pub closed spec fn spec_tokens(self) -> Seq<Token> {
        self.tokens_list@
    }

    /// The cursor: the index of the next token to consume.
    pub closed spec fn spec_current(self) -> int {
        self.current as int
    }

    /// The views of the owned tokens.
    pub open spec fn toks(self) -> Seq<TokenView> {
        token_views(self.spec_tokens())
    }

    /// The parser's invariant: a well-formed token sequence and a cursor
    /// that never passes the end-of-file sentinel.
    pub open spec fn wf(self) -> bool {
        &&& wf_token_seq(self.toks())
        &&& 0 <= self.spec_current() < self.toks().len()
    }

    /// Takes ownership of a scanned token sequence, cursor at its start.
    pub fn new(tokens_list: Vec<Token>) -> (r: Self)
        requires
            wf_token_seq(token_views(tokens_list@)),
        ensures
            r.wf(),
            r.toks() == token_views(tokens_list@),
            r.spec_current() == 0,
    {
        Self { tokens_list, current: 0 }
    }

    /// The current token, never consumed by looking.
    pub fn peek(&self) -> (r: &Token)
        requires
            self.wf(),
        ensures
            r@ == self.toks()[self.spec_current()],
    {
        &self.tokens_list[self.current]
    }

    /// The token just consumed.
    fn previous(&self) -> (r: Token)
        requires
            self.wf(),
            self.spec_current() >= 1,
        ensures
            r@ == self.toks()[self.spec_current() - 1],
    {
        self.tokens_list[self.current - 1].clone()
    }

    /// Whether the cursor stands on the end-of-file sentinel.
    fn is_at_end(&self) -> (r: bool)
        requires
            self.wf(),
        ensures
            r == (self.toks()[self.spec_current()].kind == TokenType::Eof),
    {
        self.peek().token_type == TokenType::Eof
    }

    /// Whether the current token is of the given kind; the sentinel
    /// matches nothing.
    fn check(&self, token_type: &TokenType) -> (r: bool)
        requires
            self.wf(),
        ensures
            r == spec_check(self.toks(), self.spec_current(), *token_type),
    {
        if self.is_at_end() {
            return false;
        }
        self.peek().token_type == *token_type
    }

    /// Consumes the current token and returns it. The end-of-file
    /// sentinel is consumed by nobody: there the cursor stays put and the
    /// sentinel itself comes back.
    fn advance(&mut self) -> (r: Token)
        requires
            old(self).wf(),
        ensures
            final(self).wf(),
            final(self).toks() == old(self).toks(),
            r@ == old(self).toks()[old(self).spec_current()],
            final(self).spec_current() == if old(self).toks()[old(self).spec_current()].kind
                == TokenType::Eof {
                old(self).spec_current()
            } else {
                old(self).spec_current() + 1
            },
    {
        let n = self.tokens_list.len();
        if !self.is_at_end() {
            proof {
                assert(self.spec_current() < n);
            }
            self.current = self.current + 1;
            return self.previous();
        }
        self.peek().clone()
    }

    /// Consumes the current token exactly when its kind is one of the
    /// candidates.
    fn match_tokens(&mut self, array_of_tokens: &[TokenType]) -> (r: bool)
        requires
            old(self).wf(),
        ensures
            final(self).wf(),
            final(self).toks() == old(self).toks(),
            if exists|k: int|
                0 <= k < array_of_tokens@.len() && spec_check(
                    old(self).toks(),
                    old(self).spec_current(),
                    array_of_tokens@[k],
                ) {
                &&& r
                &&& final(self).spec_current() == old(self).spec_current() + 1
            } else {
                &&& !r
                &&& final(self).spec_current() == old(self).spec_current()
            },
    {
        let mut k: usize = 0;
        while k < array_of_tokens.len()
            invariant
                self.wf(),
                *self == *old(self),
                0 <= k <= array_of_tokens@.len(),
                forall|j: int|
                    0 <= j < k ==> !spec_check(
                        self.toks(),
                        self.spec_current(),
                        array_of_tokens@[j],
                    ),
            decreases array_of_tokens@.len() - k,
        {
            if self.check(&array_of_tokens[k]) {
                self.advance();
                return true;
            }
            k = k + 1;
        }
        false
    }

    /// Demands a token of the given kind: consumes and returns it, or
    /// fails with the unexpected-token-kind error carrying the demand.
    fn consume(&mut self, token_type: TokenType, message: &str) -> (r: Result<Token, LoxErrors>)
        requires
            old(self).wf(),
        ensures
            final(self).wf(),
            final(self).toks() == old(self).toks(),
            if spec_check(old(self).toks(), old(self).spec_current(), token_type) {
                &&& r matches Ok(t) && t@ == old(self).toks()[old(self).spec_current()]
                &&& final(self).spec_current() == old(self).spec_current() + 1
            } else {
                &&& r matches Err(e) && e@ == LoxErrorView::UnexpectedTokenTypeFound(token_type)
                &&& final(self).spec_current() == old(self).spec_current()
            },
    {
        let _ = message;
        if self.check(&token_type) {
            return Ok(self.advance());
        }
        Err(LoxErrors::UnexpectedTokenTypeFound(token_type))
    }

    /// Builds the failure the primary rule reports at `token`.
    fn error(&self, token: &Token, message: &str) -> (r: LoxErrors)
        ensures
            r@ == LoxErrorView::PrimaryExprError(token@),
    {
        let _ = message;
        LoxErrors::PrimaryExprError(token.clone())
    }

    /// Parses one expression, or gives nothing back on a parse failure.
    pub fn parse(&mut self) -> (r: Option<Expr>)
        requires
            old(self).wf(),
        ensures
            final(self).wf(),
            final(self).toks() == old(self).toks(),
            match spec_expression(old(self).toks(), old(self).spec_current()) {
                Ok((ev, j)) => r matches Some(e) && e@ == ev && final(self).spec_current() == j,
                Err(_) => r is None,
            },
    {
        match self.expression() {
            Ok(e) => Some(e),
            Err(_) => None,
        }
    }

    /// The lowest grammar layer.
    pub fn expression(&mut self) -> (r: Result<Expr, LoxErrors>)
        requires
            old(self).wf(),
        ensures
            final(self).wf(),
            final(self).toks() == old(self).toks(),
            match spec_expression(old(self).toks(), old(self).spec_current()) {
                Ok((ev, j)) => r matches Ok(e) && e@ == ev && final(self).spec_current() == j,
                Err(ev) => r matches Err(er) && er@ == ev,
            },
        decreases self.toks().len() - self.spec_current(), 10int,
    {
        self.equality()
    }

    /// The equality layer: left-associative `!=` and `==` chains.
    #[verifier::rlimit(100)]
    #[verifier::spinoff_prover]
    fn equality(&mut self) -> (r: Result<Expr, LoxErrors>)
        requires
            old(self).wf(),
        ensures
            final(self).wf(),
            final(self).toks() == old(self).toks(),
            match spec_equality(old(self).toks(), old(self).spec_current()) {
                Ok((ev, j)) => r matches Ok(e) && e@ == ev && final(self).spec_current() == j,
                Err(ev) => r matches Err(er) && er@ == ev,
            },
        decreases self.toks().len() - self.spec_current(), 9int,
    {
        let ghost ts = old(self).toks();
        let ghost i0 = old(self).spec_current();
        let mut expr = match self.comparison() {
            Ok(e) => e,
            Err(er) => {
                return Err(er);
            },
        };
        proof {
            lemma_comparison_pos(ts, i0);
            assert(spec_equality(ts, i0) == spec_equality_rest(ts, self.spec_current(), expr@));
        }
        while self.match_tokens(&[TokenType::BangEqual, TokenType::EqualEqual])
            invariant
                self.wf(),
                self.toks() == ts,
                ts == old(self).toks(),
                i0 == old(self).spec_current(),
                i0 <= self.spec_current() < ts.len(),
                wf_token_seq(ts),
                spec_equality(ts, i0) == spec_equality_rest(ts, self.spec_current(), expr@),
            decreases ts.len() - self.spec_current(),
        {
            let ghost op_pos = self.spec_current() - 1;
            let ghost acc0 = expr@;
            let operator = self.previous();
            let expr_temp = match self.comparison() {
                Ok(e) => e,
                Err(er) => {
                    proof {
                        assert(spec_equality_rest(ts, op_pos, acc0) == Err::<(ExprView, int), LoxErrorView>(
                            er@,
                        ));
                    }
                    return Err(er);
                },
            };
            proof {
                lemma_comparison_pos(ts, op_pos + 1);
                let b = ExprView::Binary {
                    left: Box::new(acc0),
                    operator: ts[op_pos],
                    right: Box::new(expr_temp@),
                };
                assert(spec_equality_rest(ts, op_pos, acc0) == spec_equality_rest(ts, self.spec_current(), b));
            }
            expr = Expr::Binary {
                left: Box::new(expr),
                operator,
                right: Box::new(expr_temp),
            };
        }
        proof {
            assert(spec_equality_rest(ts, self.spec_current(), expr@) == Ok::<
                (ExprView, int),
                LoxErrorView,
            >((expr@, self.spec_current())));
        }
        Ok(expr)
    }

    /// The comparison layer: left-associative ordering chains.
    #[verifier::rlimit(100)]
    #[verifier::spinoff_prover]
    fn comparison(&mut self) -> (r: Result<Expr, LoxErrors>)
        requires
            old(self).wf(),
        ensures
            final(self).wf(),
            final(self).toks() == old(self).toks(),
            match spec_comparison(old(self).toks(), old(self).spec_current()) {
                Ok((ev, j)) => r matches Ok(e) && e@ == ev && final(self).spec_current() == j,
                Err(ev) => r matches Err(er) && er@ == ev,
            },
        decreases self.toks().len() - self.spec_current(), 7int,
    {
        let ghost ts = old(self).toks();
        let ghost i0 = old(self).spec_current();
        let mut expr = match self.term() {
            Ok(e) => e,
            Err(er) => {
                return Err(er);
            },
        };
        proof {
            lemma_term_pos(ts, i0);
            assert(spec_comparison(ts, i0) == spec_comparison_rest(ts, self.spec_current(), expr@));
        }
        while self.match_tokens(&[TokenType::Greater,
            TokenType::GreaterEqual,
            TokenType::Less,
            TokenType::LessEqual])
            invariant
                self.wf(),
                self.toks() == ts,
                ts == old(self).toks(),
                i0 == old(self).spec_current(),
                i0 <= self.spec_current() < ts.len(),
                wf_token_seq(ts),
                spec_comparison(ts, i0) == spec_comparison_rest(ts, self.spec_current(), expr@),
            decreases ts.len() - self.spec_current(),
        {
            let ghost op_pos = self.spec_current() - 1;
            let ghost acc0 = expr@;
            let operator = self.previous();
            let temp_term = match self.term() {
                Ok(e) => e,
                Err(er) => {
                    proof {
                        assert(spec_comparison_rest(ts, op_pos, acc0) == Err::<(ExprView, int), LoxErrorView>(
                            er@,
                        ));
                    }
                    return Err(er);
                },
            };
            proof {
                lemma_term_pos(ts, op_pos + 1);
                let b = ExprView::Binary {
                    left: Box::new(acc0),
                    operator: ts[op_pos],
                    right: Box::new(temp_term@),
                };
                assert(spec_comparison_rest(ts, op_pos, acc0) == spec_comparison_rest(ts, self.spec_current(), b));
            }
            expr = Expr::Binary {
                left: Box::new(expr),
                operator,
                right: Box::new(temp_term),
            };
        }
        proof {
            assert(spec_comparison_rest(ts, self.spec_current(), expr@) == Ok::<
                (ExprView, int),
                LoxErrorView,
            >((expr@, self.spec_current())));
        }
        Ok(expr)
    }

    /// The term layer: left-associative `-` and `+` chains.
    #[verifier::rlimit(100)]
    #[verifier::spinoff_prover]
    fn term(&mut self) -> (r: Result<Expr, LoxErrors>)
        requires
            old(self).wf(),
        ensures
            final(self).wf(),
            final(self).toks() == old(self).toks(),
            match spec_term(old(self).toks(), old(self).spec_current()) {
                Ok((ev, j)) => r matches Ok(e) && e@ == ev && final(self).spec_current() == j,
                Err(ev) => r matches Err(er) && er@ == ev,
            },
        decreases self.toks().len() - self.spec_current(), 5int,
    {
        let ghost ts = old(self).toks();
        let ghost i0 = old(self).spec_current();
        let mut expr_factor = match self.factor() {
            Ok(e) => e,
            Err(er) => {
                return Err(er);
            },
        };
        proof {
            lemma_factor_pos(ts, i0);
            assert(spec_term(ts, i0) == spec_term_rest(ts, self.spec_current(), expr_factor@));
        }
        while self.match_tokens(&[TokenType::Minus, TokenType::Plus])
            invariant
                self.wf(),
                self.toks() == ts,
                ts == old(self).toks(),
                i0 == old(self).spec_current(),
                i0 <= self.spec_current() < ts.len(),
                wf_token_seq(ts),
                spec_term(ts, i0) == spec_term_rest(ts, self.spec_current(), expr_factor@),
            decreases ts.len() - self.spec_current(),
        {
            let ghost op_pos = self.spec_current() - 1;
            let ghost acc0 = expr_factor@;
            let operator = self.previous();
            let factor = match self.factor() {
                Ok(e) => e,
                Err(er) => {
                    proof {
                        assert(spec_term_rest(ts, op_pos, acc0) == Err::<(ExprView, int), LoxErrorView>(
                            er@,
                        ));
                    }
                    return Err(er);
                },
            };
            proof {
                lemma_factor_pos(ts, op_pos + 1);
                let b = ExprView::Binary {
                    left: Box::new(acc0),
                    operator: ts[op_pos],
                    right: Box::new(factor@),
                };
                assert(spec_term_rest(ts, op_pos, acc0) == spec_term_rest(ts, self.spec_current(), b));
            }
            expr_factor = Expr::Binary {
                left: Box::new(expr_factor),
                operator,
                right: Box::new(factor),
            };
        }
        proof {
            assert(spec_term_rest(ts, self.spec_current(), expr_factor@) == Ok::<
                (ExprView, int),
                LoxErrorView,
            >((expr_factor@, self.spec_current())));
        }
        Ok(expr_factor)
    }

    /// The factor layer: left-associative `/` and `*` chains.
    #[verifier::rlimit(100)]
    #[verifier::spinoff_prover]
    fn factor(&mut self) -> (r: Result<Expr, LoxErrors>)
        requires
            old(self).wf(),
        ensures
            final(self).wf(),
            final(self).toks() == old(self).toks(),
            match spec_factor(old(self).toks(), old(self).spec_current()) {
                Ok((ev, j)) => r matches Ok(e) && e@ == ev && final(self).spec_current() == j,
                Err(ev) => r matches Err(er) && er@ == ev,
            },
        decreases self.toks().len() - self.spec_current(), 3int,
    {
        let ghost ts = old(self).toks();
        let ghost i0 = old(self).spec_current();
        let mut expr_unary = match self.unary() {
            Ok(e) => e,
            Err(er) => {
                return Err(er);
            },
        };
        proof {
            lemma_unary_pos(ts, i0);
            assert(spec_factor(ts, i0) == spec_factor_rest(ts, self.spec_current(), expr_unary@));
        }
        while self.match_tokens(&[TokenType::Slash, TokenType::Star])
            invariant
                self.wf(),
                self.toks() == ts,
                ts == old(self).toks(),
                i0 == old(self).spec_current(),
                i0 <= self.spec_current() < ts.len(),
                wf_token_seq(ts),
                spec_factor(ts, i0) == spec_factor_rest(ts, self.spec_current(), expr_unary@),
            decreases ts.len() - self.spec_current(),
        {
            let ghost op_pos = self.spec_current() - 1;
            let ghost acc0 = expr_unary@;
            let operator = self.previous();
            let unary = match self.unary() {
                Ok(e) => e,
                Err(er) => {
                    proof {
                        assert(spec_factor_rest(ts, op_pos, acc0) == Err::<(ExprView, int), LoxErrorView>(
                            er@,
                        ));
                    }
                    return Err(er);
                },
            };
            proof {
                lemma_unary_pos(ts, op_pos + 1);
                let b = ExprView::Binary {
                    left: Box::new(acc0),
                    operator: ts[op_pos],
                    right: Box::new(unary@),
                };
                assert(spec_factor_rest(ts, op_pos, acc0) == spec_factor_rest(ts, self.spec_current(), b));
            }
            expr_unary = Expr::Binary {
                left: Box::new(expr_unary),
                operator,
                right: Box::new(unary),
            };
        }
        proof {
            assert(spec_factor_rest(ts, self.spec_current(), expr_unary@) == Ok::<
                (ExprView, int),
                LoxErrorView,
            >((expr_unary@, self.spec_current())));
        }
        Ok(expr_unary)
    }

    /// The unary layer: right-associative `!` and `-` prefixes.
    fn unary(&mut self) -> (r: Result<Expr, LoxErrors>)
        requires
            old(self).wf(),
        ensures
            final(self).wf(),
            final(self).toks() == old(self).toks(),
            match spec_unary(old(self).toks(), old(self).spec_current()) {
                Ok((ev, j)) => r matches Ok(e) && e@ == ev && final(self).spec_current() == j,
                Err(ev) => r matches Err(er) && er@ == ev,
            },
        decreases self.toks().len() - self.spec_current(), 1int,
    {
        if self.match_tokens(&[TokenType::Bang, TokenType::Minus]) {
            let operator = self.previous();
            let unary = match self.unary() {
                Ok(e) => e,
                Err(er) => {
                    return Err(er);
                },
            };
            return Ok(Expr::Unary { operator, right: Box::new(unary) });
        }
        self.primary()
    }

    /// The primary rule: literal leaves and parenthesized grouping; any
    /// other token is the primary-expression failure.
    fn primary(&mut self) -> (r: Result<Expr, LoxErrors>)
        requires
            old(self).wf(),
        ensures
            final(self).wf(),
            final(self).toks() == old(self).toks(),
            match spec_primary(old(self).toks(), old(self).spec_current()) {
                Ok((ev, j)) => r matches Ok(e) && e@ == ev && final(self).spec_current() == j,
                Err(ev) => r matches Err(er) && er@ == ev,
            },
        decreases self.toks().len() - self.spec_current(), 0int,
    {
        if self.match_tokens(&[TokenType::False]) {
            return Ok(Expr::Literal { value: LiteralValue::Boolean(false) });
        }
        if self.match_tokens(&[TokenType::True]) {
            return Ok(Expr::Literal { value: LiteralValue::Boolean(true) });
        }
        if self.match_tokens(&[TokenType::Nil]) {
            return Ok(Expr::Literal { value: LiteralValue::Null });
        }
        if self.match_tokens(&[TokenType::Number, TokenType::Str]) {
            return Ok(Expr::Literal { value: self.previous().literal });
        }
        if self.match_tokens(&[TokenType::LeftParen]) {
            let expr = match self.expression() {
                Ok(e) => e,
                Err(er) => {
                    return Err(er);
                },
            };
            match self.consume(TokenType::RightParen, "Expect ')' after expression.") {
                Ok(_) => {},
                Err(er) => {
                    return Err(er);
                },
            }
            return Ok(Expr::Grouping { expression: Box::new(expr) });
        }
        Err(self.error(self.peek(), "Expect expression."))
    }

    /// Discards tokens up to a statement boundary: the error-recovery
    /// hook a statement grammar would call after a faulty expression.
    #[verifier::loop_isolation(false)]
    pub fn synchronize(&mut self)
        requires
            old(self).wf(),
        ensures
            final(self).wf(),
            final(self).toks() == old(self).toks(),
            final(self).spec_current() == if old(self).toks()[old(self).spec_current()].kind
                == TokenType::Eof {
                old(self).spec_current()
            } else {
                spec_sync(old(self).toks(), old(self).spec_current() + 1)
            },
    {
        let ghost ts = self.toks();
        self.advance();
        while !self.is_at_end()
            invariant
                self.wf(),
                self.toks() == ts,
                old(self).toks()[old(self).spec_current()].kind != TokenType::Eof ==> {
                    &&& 1 <= self.spec_current() < ts.len()
                    &&& spec_sync(ts, old(self).spec_current() + 1) == spec_sync(
                        ts,
                        self.spec_current(),
                    )
                },
                old(self).toks()[old(self).spec_current()].kind == TokenType::Eof
                    ==> self.spec_current() == old(self).spec_current(),
            decreases ts.len() - self.spec_current(),
        {
            if self.previous().token_type == TokenType::Semicolon {
                return;
            }
            match self.peek().token_type {
                TokenType::Class | TokenType::Fun | TokenType::Var | TokenType::For
                | TokenType::If | TokenType::While | TokenType::Print | TokenType::Return => {
                    return;
                },
                _ => {
                    self.advance();
                },
            };
        }
    }
}

} // verus!
