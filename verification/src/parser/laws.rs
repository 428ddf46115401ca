//! What holds of the parser and the printer: the parser returns exactly the trees
//! that the grammar gives, and the printed form is a function of the tree.
use crate::lexer::diagnostic::Diagnostic;
use crate::lexer::laws::{law_scan_reads_back, spell, spellable};
use crate::lexer::rules::{scan, scan_diagnostics};
use crate::parser::expr::{Expr, ExprView, Visitor};
use crate::parser::grammar::{
    binary_level, extends, is_boundary, lemma_parse_advances, next_boundary, parse,
    parse_expression, parse_primary, parse_rest, parse_unary, produces, synchronized, terminated,
    token_at, Parsed, Rule,
};
use crate::parser::printer::{render, AstPrinter};
use crate::token::{TokenKind, TokenView};
use vstd::prelude::*;

verus! {

/// What the rest of a binary rule returns is given by the rule to the tokens from
/// `start` on, where what was parsed so far is given to the tokens from `start` to
/// `pos`.
proof fn lemma_rest_sound(
    tokens: Seq<TokenView>,
    start: int,
    pos: int,
    rule: Rule,
    left: ExprView,
)
    requires
        0 <= start < pos <= tokens.len(),
        rule.is_binary(),
        produces(rule, left, tokens.subrange(start, pos)),
    ensures
        parse_rest(tokens, pos, rule, left) matches Parsed::Done { expr, next } ==> pos <= next
            <= tokens.len() && produces(rule, expr, tokens.subrange(start, next)),
    decreases tokens.len() - pos, 0nat,
{
    let operator = token_at(tokens, pos);
    if rule.has_operator(operator.kind) && pos < tokens.len() {
        lemma_parse_advances(tokens, pos + 1, rule.tighter());
        law_parse_sound(tokens, pos + 1, rule.tighter());
        match parse(tokens, pos + 1, rule.tighter()) {
            Parsed::Done { expr, next } => {
                let node = ExprView::Binary {
                    left: Box::new(left),
                    operator,
                    right: Box::new(expr),
                };
                let all = tokens.subrange(start, next);
                assert(all.take(pos - start) =~= tokens.subrange(start, pos));
                assert(all.skip(pos - start + 1) =~= tokens.subrange(pos + 1, next));
                assert(produces(rule, node, all));
                lemma_rest_sound(tokens, start, next, rule, node);
            },
            _ => {},
        }
    }
}

/// Soundness: a tree that the parser returns for `rule` at `pos` is one that the
/// grammar gives, by that rule, to exactly the tokens that the parser has consumed.
pub proof fn law_parse_sound(tokens: Seq<TokenView>, pos: int, rule: Rule)
    requires
        0 <= pos,
    ensures
        parse(tokens, pos, rule) matches Parsed::Done { expr, next } ==> pos < next
            <= tokens.len() && produces(rule, expr, tokens.subrange(pos, next)),
    decreases tokens.len() - pos, 7 - rule.level(),
{
    lemma_parse_advances(tokens, pos, rule);
    match rule {
        Rule::Primary => {
            assert(parse(tokens, pos, rule) == parse_primary(tokens, pos));
            let token = token_at(tokens, pos);
            if token.kind == TokenKind::LeftParen {
                law_parse_sound(tokens, pos + 1, Rule::Equality);
                match parse(tokens, pos + 1, Rule::Equality) {
                    Parsed::Done { expr, next } => {
                        if token_at(tokens, next).kind == TokenKind::RightParen {
                            let all = tokens.subrange(pos, next + 1);
                            assert(all.subrange(1, all.len() - 1) =~= tokens.subrange(
                                pos + 1,
                                next,
                            ));
                        }
                    },
                    _ => {},
                }
            }
        },
        Rule::Unary => {
            assert(parse(tokens, pos, rule) == parse_unary(tokens, pos));
            let operator = token_at(tokens, pos);
            if Rule::Unary.has_operator(operator.kind) {
                assert(parse(tokens, pos + 1, Rule::Unary) == parse_unary(tokens, pos + 1));
                law_parse_sound(tokens, pos + 1, Rule::Unary);
                match parse_unary(tokens, pos + 1) {
                    Parsed::Done { expr, next } => {
                        let all = tokens.subrange(pos, next);
                        assert(all.skip(1) =~= tokens.subrange(pos + 1, next));
                    },
                    _ => {},
                }
            } else {
                assert(parse(tokens, pos, Rule::Primary) == parse_primary(tokens, pos));
                law_parse_sound(tokens, pos, Rule::Primary);
            }
        },
        _ => {
            lemma_parse_advances(tokens, pos, rule.tighter());
            law_parse_sound(tokens, pos, rule.tighter());
            match parse(tokens, pos, rule.tighter()) {
                Parsed::Done { expr, next } => {
                    lemma_rest_sound(tokens, pos, next, rule, expr);
                },
                _ => {},
            }
        },
    }
}

/// The operators of a binary rule bind as tightly as the rule.
proof fn lemma_operator_level(rule: Rule, kind: TokenKind)
    requires
        rule.is_binary(),
        rule.has_operator(kind),
    ensures
        binary_level(kind) == Some(rule.level()),
{
}

/// Where the grammar gives `expr` to the tokens from `pos` to `next`, and no
/// operator of a tighter rule follows them, the parser gets as far as `next` with
/// `expr` in hand: it returns what the rest of the rule returns from there.
proof fn lemma_complete(tokens: Seq<TokenView>, pos: int, next: int, rule: Rule, expr: ExprView)
    requires
        0 <= pos <= next <= tokens.len(),
        produces(rule, expr, tokens.subrange(pos, next)),
        !(binary_level(token_at(tokens, next).kind) matches Some(level) && level > rule.level()),
    ensures
        pos < next,
        parse(tokens, pos, rule) == parse_rest(tokens, next, rule, expr),
    decreases expr, 6 - rule.level(),
{
    let given = tokens.subrange(pos, next);
    let follow = token_at(tokens, next).kind;
    match rule {
        Rule::Primary => {
            assert(parse(tokens, pos, rule) == parse_primary(tokens, pos));
            match expr {
                ExprView::Literal { value } => {
                    assert(given[0] == tokens[pos]);
                },
                ExprView::Grouping { inner } => {
                    assert(given[0] == tokens[pos]);
                    assert(given.last() == tokens[next - 1]);
                    assert(given.subrange(1, given.len() - 1) =~= tokens.subrange(
                        pos + 1,
                        next - 1,
                    ));
                    lemma_complete(tokens, pos + 1, next - 1, Rule::Equality, *inner);
                    assert(parse_rest(tokens, next - 1, Rule::Equality, *inner) == (Parsed::Done {
                        expr: *inner,
                        next: next - 1,
                    }));
                },
                _ => {},
            }
        },
        Rule::Unary => {
            assert(parse(tokens, pos, rule) == parse_unary(tokens, pos));
            let direct = match expr {
                ExprView::Unary { operator, right } => {
                    &&& given.len() >= 1
                    &&& given[0] == operator
                    &&& Rule::Unary.has_operator(operator.kind)
                    &&& produces(Rule::Unary, *right, given.skip(1))
                },
                _ => false,
            };
            if direct {
                match expr {
                    ExprView::Unary { operator, right } => {
                        assert(given[0] == tokens[pos]);
                        assert(given.skip(1) =~= tokens.subrange(pos + 1, next));
                        lemma_complete(tokens, pos + 1, next, Rule::Unary, *right);
                        assert(parse(tokens, pos + 1, Rule::Unary) == parse_unary(tokens, pos + 1));
                    },
                    _ => {},
                }
            } else {
                assert(produces(Rule::Primary, expr, given));
                lemma_complete(tokens, pos, next, Rule::Primary, expr);
                assert(given[0] == tokens[pos]);
                assert(parse(tokens, pos, Rule::Primary) == parse_primary(tokens, pos));
            }
        },
        _ => {
            let tighter = rule.tighter();
            let direct = match expr {
                ExprView::Binary { left, operator, right } => {
                    &&& rule.has_operator(operator.kind)
                    &&& exists|i: int|
                        {
                            &&& 0 <= i < given.len()
                            &&& given[i] == operator
                            &&& produces(rule, *left, #[trigger] given.take(i))
                            &&& produces(tighter, *right, given.skip(i + 1))
                        }
                },
                _ => false,
            };
            if direct {
                match expr {
                    ExprView::Binary { left, operator, right } => {
                        let i = choose|i: int|
                            {
                                &&& 0 <= i < given.len()
                                &&& given[i] == operator
                                &&& produces(rule, *left, #[trigger] given.take(i))
                                &&& produces(tighter, *right, given.skip(i + 1))
                            };
                        let at = pos + i;
                        assert(given.take(i) =~= tokens.subrange(pos, at));
                        assert(given.skip(i + 1) =~= tokens.subrange(at + 1, next));
                        assert(given[i] == tokens[at]);
                        lemma_operator_level(rule, operator.kind);
                        lemma_complete(tokens, pos, at, rule, *left);
                        lemma_complete(tokens, at + 1, next, tighter, *right);
                        if tighter.is_binary() && tighter.has_operator(follow) {
                            lemma_operator_level(tighter, follow);
                        }
                        assert(parse_rest(tokens, next, tighter, *right) == (Parsed::Done {
                            expr: *right,
                            next,
                        }));
                        assert(parse_rest(tokens, at, rule, *left) == parse_rest(
                            tokens,
                            next,
                            rule,
                            expr,
                        ));
                    },
                    _ => {},
                }
            } else {
                assert(produces(tighter, expr, given));
                lemma_complete(tokens, pos, next, tighter, expr);
                if tighter.is_binary() && tighter.has_operator(follow) {
                    lemma_operator_level(tighter, follow);
                }
                assert(parse_rest(tokens, next, tighter, expr) == (Parsed::Done { expr, next }));
            }
        },
    }
}

/// Completeness: where the grammar gives `expr`, by `rule`, to the tokens from `pos`
/// to `next`, and the token behind them is no operator at which a parse by `rule`
/// goes on, the parser returns `expr` and stops at `next`.
pub proof fn law_parse_complete(
    tokens: Seq<TokenView>,
    pos: int,
    next: int,
    rule: Rule,
    expr: ExprView,
)
    requires
        0 <= pos <= next <= tokens.len(),
        produces(rule, expr, tokens.subrange(pos, next)),
        !extends(rule, token_at(tokens, next).kind),
    ensures
        parse(tokens, pos, rule) == (Parsed::Done { expr, next }),
{
    lemma_complete(tokens, pos, next, rule, expr);
    let follow = token_at(tokens, next).kind;
    if rule.is_binary() && rule.has_operator(follow) {
        lemma_operator_level(rule, follow);
    }
    assert(parse_rest(tokens, next, rule, expr) == (Parsed::Done { expr, next }));
}

/// The parser and the grammar agree on whole inputs: for tokens followed by the
/// end-of-input token, the parser returns `expr` and stops at that token exactly
/// when the grammar gives `expr` to the tokens. So the shape of the tree, and with it
/// the placing of the parentheses in its printed form, is that which the grammar
/// lays down: tighter operators deeper, and chains of one rule leaning left.
pub proof fn law_parse_is_the_grammar(tokens: Seq<TokenView>, expr: ExprView)
    ensures
        parse_expression(tokens.push(TokenView::plain(TokenKind::EOF)), 0) == (Parsed::Done {
            expr,
            next: tokens.len() as int,
        }) <==> produces(Rule::Equality, expr, tokens),
{
    let all = tokens.push(TokenView::plain(TokenKind::EOF));
    assert(all.subrange(0, tokens.len() as int) =~= tokens);
    if produces(Rule::Equality, expr, tokens) {
        law_parse_complete(all, 0, tokens.len() as int, Rule::Equality, expr);
    }
    law_parse_sound(all, 0, Rule::Equality);
}

/// The round trip from text to tree: where the grammar gives `expr` to spellable
/// tokens, scanning their spelling and parsing what was scanned returns `expr`, with
/// nothing reported and nothing left before the end of the input. The printed form
/// of what was parsed is then `render(expr)`, in which every operator stands with
/// its operands inside its own parentheses.
pub proof fn law_round_trip(tokens: Seq<TokenView>, expr: ExprView)
    requires
        forall|i: int| 0 <= i < tokens.len() ==> spellable(#[trigger] tokens[i]),
        produces(Rule::Equality, expr, tokens),
    ensures
        parse_expression(scan(spell(tokens)), 0) == (Parsed::Done {
            expr,
            next: tokens.len() as int,
        }),
        scan_diagnostics(spell(tokens)) == Seq::<Diagnostic>::empty(),
{
    law_scan_reads_back(tokens);
    law_parse_is_the_grammar(tokens, expr);
}

/// The grammar is unambiguous: a rule gives at most one tree to a sequence of tokens.
pub proof fn law_grammar_unambiguous(
    rule: Rule,
    first: ExprView,
    second: ExprView,
    tokens: Seq<TokenView>,
)
    requires
        produces(rule, first, tokens),
        produces(rule, second, tokens),
    ensures
        first == second,
{
    let all = tokens.push(TokenView::plain(TokenKind::EOF));
    assert(all.subrange(0, tokens.len() as int) =~= tokens);
    law_parse_complete(all, 0, tokens.len() as int, rule, first);
    law_parse_complete(all, 0, tokens.len() as int, rule, second);
}

/// The first boundary at or behind `from` is a boundary, unless the sequence ends
/// before one; no position between `from` and it is one.
proof fn lemma_next_boundary(tokens: Seq<TokenView>, from: int)
    requires
        0 <= from <= tokens.len(),
    ensures
        from <= next_boundary(tokens, from) <= tokens.len(),
        next_boundary(tokens, from) < tokens.len() ==> is_boundary(
            tokens,
            next_boundary(tokens, from),
        ),
        forall|q: int| from <= q < next_boundary(tokens, from) ==> !is_boundary(tokens, q),
    decreases tokens.len() - from,
{
    if from < tokens.len() && !is_boundary(tokens, from) {
        lemma_next_boundary(tokens, from + 1);
    }
}

/// Synchronizing skips as little as it can: from a token that is not the
/// end-of-input token, the parser moves behind that token and on to the first
/// boundary, and no position that it passes is a boundary.
pub proof fn law_synchronize_stops_at_first_boundary(tokens: Seq<TokenView>, pos: int)
    requires
        terminated(tokens),
        0 <= pos < tokens.len(),
        token_at(tokens, pos).kind != TokenKind::EOF,
    ensures
        pos < synchronized(tokens, pos) < tokens.len(),
        is_boundary(tokens, synchronized(tokens, pos)),
        forall|q: int| pos < q < synchronized(tokens, pos) ==> !is_boundary(tokens, q),
{
    lemma_next_boundary(tokens, pos + 1);
    let last = tokens.len() - 1;
    assert(is_boundary(tokens, last));
}

/// Printing is a function of the tree: whatever the printer, two printings of one
/// tree give the same text, and that text is the parenthesized form of the tree.
pub proof fn law_print_is_a_function(
    expr: Expr,
    first_printer: AstPrinter,
    first_after: AstPrinter,
    first: String,
    second_printer: AstPrinter,
    second_after: AstPrinter,
    second: String,
)
    requires
        first_printer.printed(&expr, &first_after, first),
        second_printer.printed(&expr, &second_after, second),
    ensures
        first@ == second@,
        first@ == render(expr@),
{
}

} // verus!
