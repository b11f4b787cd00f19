//! Every jump that the compiler generates gets its target: in the compiled code, the
//! target of each `GotoF` and `Goto` is the index of one of its quadruples, or the
//! index just past the last one. No placeholder `?` is left.
use vstd::prelude::*;

use crate::constants::{DIV, EQUAL, LESS, MORE, MULTP, NOT_EQUAL, PLUS, SUBS};
use crate::grammar::Rule;
use crate::parse_tree::Tree;
use crate::quadruples::{cube, QuadV};
use crate::semantic::{
    cube_or_err, st_a1, st_a2, st_a3, st_a4, st_a5, st_a6, st_a7, st_a8, st_a9, st_body_items,
    st_call_items, st_compile_items, st_compile_program, st_declare, st_emit, st_emit_params,
    st_expr_items, st_expresion_items, st_flush, st_funcs_bodies, st_imprime_items, st_initial,
    st_new_temp, st_patch, st_pop_any, st_pop_operand, st_push, st_push_op, st_resolve_if_top_in,
    st_resolve_top, st_scope, st_single_expr_items, st_single_factor_items, st_term_items,
    st_walk_asigna, st_walk_body, st_walk_call, st_walk_ciclo, st_walk_condicion, st_walk_estatuto,
    st_walk_expr, st_walk_expresion, st_walk_factor, st_walk_imprime, st_walk_single_expr,
    st_walk_single_factor, st_walk_term, CState, FuncModel,
};
use crate::text::{decimal, lemma_decimal_digits};

verus! {

/// Whether `op` is a jump the compiler generates.
pub open spec fn is_jump(op: Seq<char>) -> bool {
    op == "GotoF"@ || op == "Goto"@
}

/// `t` is the index of a quadruple of code of length `n`, or `n`.
pub open spec fn target_within(t: Seq<char>, n: nat) -> bool {
    exists|k: nat| k <= n && t == decimal(k)
}

/// Every jump of `code` has its target within the code or just past it.
pub open spec fn jumps_filled(code: Seq<QuadV>) -> bool {
    forall|i: int| 0 <= i < code.len() && is_jump(#[trigger] code[i].0) ==> target_within(code[i].3, code.len())
}

/// `t` is the index of a quadruple after the one at `i`.
pub open spec fn target_after(t: Seq<char>, i: int) -> bool {
    exists|k: nat| i < k && t == decimal(k)
}

/// The jump `q` at index `i` of code of length `n` has its target within the code,
/// and past `i` when it is a `GotoF`.
pub open spec fn jump_ok(q: QuadV, i: int, n: nat) -> bool {
    &&& target_within(q.3, n)
    &&& q.0 == "GotoF"@ ==> target_after(q.3, i)
}

/// Every `GotoF` of `code` jumps forward, past itself.
pub open spec fn gotof_forward(code: Seq<QuadV>) -> bool {
    forall|i: int| 0 <= i < code.len() && #[trigger] code[i].0 == "GotoF"@ ==> target_after(code[i].3, i)
}

/// `c2` has the functions of `c`, each with its type, and the errors of `c` first, in
/// their order.
pub open spec fn keeps_tables(c: CState, c2: CState) -> bool {
    &&& c2.funcs.dom() == c.funcs.dom()
    &&& forall|f: Seq<char>| c.funcs.contains_key(f) ==> #[trigger] c2.funcs[f].0 == c.funcs[f].0
    &&& c.errors.is_prefix_of(c2.errors)
}

/// `c2` keeps the quadruples of `c`, and every jump it adds, but the one at `hole`,
/// has its target within `c2`'s code (past itself, for a `GotoF`); the tables are kept
/// as `keeps_tables` says.
pub open spec fn grows_but(c: CState, c2: CState, hole: int) -> bool {
    &&& c.quads.len() <= c2.quads.len()
    &&& forall|i: int| 0 <= i < c.quads.len() ==> #[trigger] c2.quads[i] == c.quads[i]
    &&& forall|i: int| c.quads.len() <= i < c2.quads.len() && i != hole && is_jump(#[trigger] c2.quads[i].0)
        ==> jump_ok(c2.quads[i], i, c2.quads.len())
    &&& keeps_tables(c, c2)
}

/// `c2` keeps the quadruples of `c`, and every jump it adds has its target within
/// `c2`'s code (past itself, for a `GotoF`); the tables are kept.
pub open spec fn grows(c: CState, c2: CState) -> bool {
    grows_but(c, c2, -1)
}

proof fn lemma_target_grows(t: Seq<char>, n: nat, m: nat)
    requires
        target_within(t, n),
        n <= m,
    ensures
        target_within(t, m),
{
    let k = choose|k: nat| k <= n && t == decimal(k);
    assert(k <= m && t == decimal(k));
}

proof fn lemma_jump_ok_grows(q: QuadV, i: int, n: nat, m: nat)
    requires
        jump_ok(q, i, n),
        n <= m,
    ensures
        jump_ok(q, i, m),
{
    lemma_target_grows(q.3, n, m);
}

proof fn lemma_keeps_trans(a: CState, b: CState, c: CState)
    requires
        keeps_tables(a, b),
        keeps_tables(b, c),
    ensures
        keeps_tables(a, c),
{
    assert(a.errors =~= c.errors.subrange(0, a.errors.len() as int)) by {
        assert(forall|i: int| 0 <= i < a.errors.len() ==> #[trigger] a.errors[i] == b.errors[i]);
        assert(forall|i: int| 0 <= i < b.errors.len() ==> #[trigger] b.errors[i] == c.errors[i]);
    }
}

proof fn lemma_keeps_same(c: CState, c2: CState)
    requires
        c2.funcs == c.funcs,
        c2.errors == c.errors,
    ensures
        keeps_tables(c, c2),
{
    assert(c.errors =~= c2.errors.subrange(0, c.errors.len() as int));
}

proof fn lemma_grows_same(c: CState, c2: CState)
    requires
        c2.quads == c.quads,
        c2.funcs == c.funcs,
        c2.errors == c.errors,
    ensures
        grows(c, c2),
{
    lemma_keeps_same(c, c2);
}

/// Declaring a name in the current function keeps the functions and their types.
proof fn lemma_grows_declare(c: CState, v: Seq<char>, t: Seq<char>)
    ensures
        grows(c, st_declare(c, v, t)),
{
    let c2 = st_declare(c, v, t);
    assert(c2.funcs.dom() =~= c.funcs.dom());
    assert(c.errors =~= c2.errors.subrange(0, c.errors.len() as int));
}

proof fn lemma_grows_trans_but(a: CState, b: CState, c: CState, hole: int)
    requires
        grows_but(a, b, hole),
        grows(b, c),
        hole < b.quads.len(),
    ensures
        grows_but(a, c, hole),
{
    assert forall|i: int| a.quads.len() <= i < c.quads.len() && i != hole && is_jump(#[trigger] c.quads[i].0)
        implies jump_ok(c.quads[i], i, c.quads.len()) by {
        if i < b.quads.len() {
            assert(c.quads[i] == b.quads[i]);
            lemma_jump_ok_grows(b.quads[i], i, b.quads.len(), c.quads.len());
        }
    }
    lemma_keeps_trans(a, b, c);
}

proof fn lemma_grows_trans(a: CState, b: CState, c: CState)
    requires
        grows(a, b),
        grows(b, c),
    ensures
        grows(a, c),
{
    lemma_grows_trans_but(a, b, c, -1);
}

/// Appending a quadruple that is no jump.
proof fn lemma_grows_emit(c: CState, op: Seq<char>, l: Seq<char>, r: Seq<char>, res: Seq<char>)
    requires
        !is_jump(op),
    ensures
        grows(c, st_emit(c, op, l, r, res)),
{
    let c2 = st_emit(c, op, l, r, res);
    assert(forall|i: int| 0 <= i < c.quads.len() ==> #[trigger] c2.quads[i] == c.quads[i]);
    lemma_keeps_same(c, c2);
}

/// The operators of the semantic cube, and the other operators the compiler emits,
/// are no jumps.
proof fn lemma_ops_not_jumps()
    ensures
        !is_jump("="@),
        !is_jump("escribe"@),
        !is_jump("param"@),
        !is_jump("gosub"@),
        forall|op: Seq<char>| (op == PLUS@ || op == SUBS@ || op == MULTP@ || op == DIV@ || op == MORE@
            || op == LESS@ || op == NOT_EQUAL@ || op == EQUAL@) ==> !#[trigger] is_jump(op),
{
    reveal_strlit("GotoF");
    reveal_strlit("Goto");
    reveal_strlit("=");
    reveal_strlit("escribe");
    reveal_strlit("param");
    reveal_strlit("gosub");
    reveal_strlit("+");
    reveal_strlit("-");
    reveal_strlit("*");
    reveal_strlit("/");
    reveal_strlit(">");
    reveal_strlit("<");
    reveal_strlit("!=");
    reveal_strlit("==");
    assert("escribe"@.len() != "GotoF"@.len() && "escribe"@.len() != "Goto"@.len());
    assert("param"@[0] != "GotoF"@[0]);
    assert("gosub"@[0] != "GotoF"@[0] && "gosub"@[0] != "Goto"@[0]);
}

proof fn lemma_resolve_top(c: CState)
    ensures
        grows(c, st_resolve_top(c)),
{
    lemma_ops_not_jumps();
    if !(c.pila_o.len() < 2 || c.poper.len() == 0) {
        let n = c.pila_o.len();
        let op = c.poper.last();
        let res = cube_or_err(c.p_types[n - 2], c.p_types[n - 1], op);
        if res != "err"@ {
            assert(cube(c.p_types[n - 2], c.p_types[n - 1], op) is Some);
            let c1 = CState {
                pila_o: c.pila_o.subrange(0, n - 2),
                p_types: c.p_types.subrange(0, n - 2),
                poper: c.poper.drop_last(),
                ..c
            };
            let c2 = st_new_temp(c1);
            let temp = crate::semantic::temp_name(c2.temp_count as nat);
            let c3 = st_declare(c2, temp, res);
            lemma_grows_same(c, c2);
            lemma_grows_declare(c2, temp, res);
            lemma_grows_trans(c, c2, c3);
            lemma_grows_emit(c3, op, c.pila_o[n - 2], c.pila_o[n - 1], temp);
            lemma_grows_trans(c, c3, st_emit(c3, op, c.pila_o[n - 2], c.pila_o[n - 1], temp));
        }
    }
}

proof fn lemma_resolve_if_top_in(c: CState, ops: Seq<Seq<char>>)
    ensures
        grows(c, st_resolve_if_top_in(c, ops)),
{
    lemma_resolve_top(c);
}

proof fn lemma_flush(c: CState, ops: Seq<Seq<char>>, until_paren: bool)
    ensures
        grows(c, st_flush(c, ops, until_paren)),
    decreases c.poper.len(),
{
    if c.poper.len() > 0 && c.pila_o.len() >= 2 && (if until_paren {
        c.poper.last() != "("@
    } else {
        ops.contains(c.poper.last())
    }) {
        lemma_resolve_top(c);
        let c1 = st_resolve_top(c);
        assert(c1.poper.len() < c.poper.len());
        lemma_flush(c1, ops, until_paren);
        lemma_grows_trans(c, c1, st_flush(c1, ops, until_paren));
    }
}

proof fn lemma_a2(c: CState, op: Seq<char>)
    ensures
        grows(c, st_a2(c, op)),
{
    lemma_resolve_if_top_in(c, crate::semantic::add_ops());
}

proof fn lemma_a3(c: CState, op: Seq<char>)
    ensures
        grows(c, st_a3(c, op)),
{
    lemma_resolve_if_top_in(c, crate::semantic::mul_ops());
}

proof fn lemma_a4(c: CState, op: Seq<char>)
    ensures
        grows(c, st_a4(c, op)),
{
    let c1 = st_flush(c, crate::semantic::arith_ops(), false);
    lemma_flush(c, crate::semantic::arith_ops(), false);
    lemma_resolve_if_top_in(c1, crate::semantic::rel_ops());
    lemma_grows_trans(c, c1, st_resolve_if_top_in(c1, crate::semantic::rel_ops()));
}

proof fn lemma_a6(c: CState)
    ensures
        grows(c, st_a6(c)),
{
    lemma_flush(c, Seq::empty(), true);
}

proof fn lemma_a7(c: CState, var: Seq<char>)
    ensures
        grows(c, st_a7(c, var)),
{
    lemma_ops_not_jumps();
    if c.pila_o.len() > 0 {
        let c1 = st_pop_operand(c);
        lemma_grows_emit(c1, "="@, c.pila_o.last(), "_"@, var);
    }
}

proof fn lemma_a8(c: CState)
    ensures
        grows(c, st_a8(c)),
{
    lemma_ops_not_jumps();
    if c.pila_o.len() > 0 {
        lemma_grows_emit(st_pop_operand(c), "escribe"@, c.pila_o.last(), "_"@, "_"@);
    }
}

proof fn lemma_a9(c: CState, s: Seq<char>)
    ensures
        grows(c, st_a9(c, s)),
{
    lemma_ops_not_jumps();
    lemma_grows_emit(c, "escribe"@, s, "_"@, "_"@);
}

proof fn lemma_emit_params(c: CState, vals: Seq<Seq<char>>)
    ensures
        grows(c, st_emit_params(c, vals)),
    decreases vals.len(),
{
    if vals.len() > 0 {
        lemma_ops_not_jumps();
        let c1 = st_emit(c, "param"@, vals[0], "_"@, "_"@);
        lemma_grows_emit(c, "param"@, vals[0], "_"@, "_"@);
        lemma_emit_params(c1, vals.drop_first());
        lemma_grows_trans(c, c1, st_emit_params(c1, vals.drop_first()));
    }
}

proof fn lemma_walk_expresion(c: CState, p: Tree, src: Seq<char>)
    ensures
        grows(c, st_walk_expresion(c, p, src)),
    decreases p, 1nat, 0int,
{
    lemma_expresion_items(c, p, src, 0);
    let c1 = st_expresion_items(c, p, src, 0);
    lemma_flush(c1, Seq::empty(), true);
    lemma_grows_trans(c, c1, st_flush(c1, Seq::empty(), true));
}

proof fn lemma_expresion_items(c: CState, p: Tree, src: Seq<char>, k: int)
    ensures
        grows(c, st_expresion_items(c, p, src, k)),
    decreases p, 0nat, p.children.len() - k,
{
    if 0 <= k < p.children.len() {
        let ch = p.children[k];
        let c1 = if k == 0 || ch.rule == Rule::EXPR {
            lemma_walk_expr(c, ch, src);
            st_walk_expr(c, ch, src)
        } else {
            lemma_a4(c, crate::semantic::text(src, ch));
            st_a4(c, crate::semantic::text(src, ch))
        };
        lemma_expresion_items(c1, p, src, k + 1);
        lemma_grows_trans(c, c1, st_expresion_items(c1, p, src, k + 1));
    }
}

proof fn lemma_walk_expr(c: CState, p: Tree, src: Seq<char>)
    ensures
        grows(c, st_walk_expr(c, p, src)),
    decreases p, 1nat, 0int,
{
    lemma_expr_items(c, p, src, 0, None);
}

proof fn lemma_expr_items(c: CState, p: Tree, src: Seq<char>, k: int, pending: Option<Seq<char>>)
    ensures
        grows(c, st_expr_items(c, p, src, k, pending)),
    decreases p, 0nat, p.children.len() - k,
{
    if 0 <= k < p.children.len() {
        let ch = p.children[k];
        if ch.rule == Rule::TERM {
            let c1 = match pending {
                Some(op) => {
                    lemma_a2(c, op);
                    st_a2(c, op)
                },
                None => c,
            };
            lemma_walk_term(c1, ch, src);
            let c2 = st_walk_term(c1, ch, src);
            lemma_expr_items(c2, p, src, k + 1, None);
            lemma_grows_trans(c1, c2, st_expr_items(c2, p, src, k + 1, None));
            lemma_grows_trans(c, c1, st_expr_items(c2, p, src, k + 1, None));
        } else {
            lemma_expr_items(c, p, src, k + 1, Some(crate::semantic::text(src, ch)));
        }
    }
}

proof fn lemma_walk_term(c: CState, p: Tree, src: Seq<char>)
    ensures
        grows(c, st_walk_term(c, p, src)),
    decreases p, 1nat, 0int,
{
    lemma_term_items(c, p, src, 0, None);
}

proof fn lemma_term_items(c: CState, p: Tree, src: Seq<char>, k: int, pending: Option<Seq<char>>)
    ensures
        grows(c, st_term_items(c, p, src, k, pending)),
    decreases p, 0nat, p.children.len() - k,
{
    if 0 <= k < p.children.len() {
        let ch = p.children[k];
        if ch.rule == Rule::FACTOR {
            let c1 = match pending {
                Some(op) => {
                    lemma_a3(c, op);
                    st_a3(c, op)
                },
                None => c,
            };
            lemma_walk_factor(c1, ch, src);
            let c2 = st_walk_factor(c1, ch, src);
            lemma_term_items(c2, p, src, k + 1, None);
            lemma_grows_trans(c1, c2, st_term_items(c2, p, src, k + 1, None));
            lemma_grows_trans(c, c1, st_term_items(c2, p, src, k + 1, None));
        } else {
            lemma_term_items(c, p, src, k + 1, Some(crate::semantic::text(src, ch)));
        }
    }
}

proof fn lemma_walk_factor(c: CState, p: Tree, src: Seq<char>)
    ensures
        grows(c, st_walk_factor(c, p, src)),
    decreases p, 1nat, 0int,
{
    if p.children.len() > 0 {
        let inner = p.children[0];
        match inner.rule {
            Rule::SINGLE_EXPR => lemma_walk_single_expr(c, inner, src),
            Rule::CALL => lemma_walk_call(c, inner, src),
            Rule::SINGLE_FACTOR => lemma_single_factor_items(c, inner, src, 0, None),
            _ => {},
        }
    }
}

proof fn lemma_walk_single_expr(c: CState, p: Tree, src: Seq<char>)
    ensures
        grows(c, st_walk_single_expr(c, p, src)),
    decreases p, 1nat, 0int,
{
    let c1 = st_a5(c);
    lemma_single_expr_items(c1, p, src, 0);
    let c2 = st_single_expr_items(c1, p, src, 0);
    lemma_a6(c2);
    lemma_grows_trans(c1, c2, st_a6(c2));
}

proof fn lemma_single_expr_items(c: CState, p: Tree, src: Seq<char>, k: int)
    ensures
        grows(c, st_single_expr_items(c, p, src, k)),
    decreases p, 0nat, p.children.len() - k,
{
    if 0 <= k < p.children.len() {
        let ch = p.children[k];
        let c1 = if ch.rule == Rule::EXPRESION {
            lemma_walk_expresion(c, ch, src);
            st_walk_expresion(c, ch, src)
        } else {
            c
        };
        lemma_single_expr_items(c1, p, src, k + 1);
        lemma_grows_trans(c, c1, st_single_expr_items(c1, p, src, k + 1));
    }
}

proof fn lemma_single_factor_items(c: CState, p: Tree, src: Seq<char>, k: int, unary: Option<Seq<char>>)
    ensures
        grows(c, st_single_factor_items(c, p, src, k, unary)),
    decreases p.children.len() - k,
{
    if 0 <= k < p.children.len() {
        let ch = p.children[k];
        let t = crate::semantic::text(src, ch);
        if ch.rule == Rule::ID {
            let c1 = match unary {
                Some(u) => if u == "-"@ {
                    let c0 = st_push_op(st_a1(st_a1(c, "0"@), t), "-"@);
                    lemma_resolve_top(c0);
                    st_resolve_top(c0)
                } else {
                    st_a1(c, t)
                },
                None => st_a1(c, t),
            };
            lemma_single_factor_items(c1, p, src, k + 1, None);
            lemma_grows_trans(c, c1, st_single_factor_items(c1, p, src, k + 1, None));
        } else if ch.rule == Rule::CTE {
            let c0 = st_a1(c, t);
            let c1 = match unary {
                Some(u) => if u == "-"@ {
                    let ty = c0.p_types.last();
                    st_push(st_pop_operand(c0), "-"@ + t, ty)
                } else {
                    c0
                },
                None => c0,
            };
            lemma_single_factor_items(c1, p, src, k + 1, None);
            lemma_grows_trans(c, c1, st_single_factor_items(c1, p, src, k + 1, None));
        } else {
            lemma_single_factor_items(c, p, src, k + 1, Some(t));
        }
    }
}

proof fn lemma_walk_call(c: CState, p: Tree, src: Seq<char>)
    ensures
        grows(c, st_walk_call(c, p, src)),
    decreases p, 1nat, 0int,
{
    if p.children.len() > 0 {
        lemma_ops_not_jumps();
        let name = crate::semantic::text(src, p.children[0]);
        lemma_call_items(c, p, src, 1, Seq::empty());
        let (c1, vals) = st_call_items(c, p, src, 1, Seq::empty());
        lemma_emit_params(c1, vals);
        let c2 = st_new_temp(st_emit_params(c1, vals));
        let temp = crate::semantic::temp_name(c2.temp_count as nat);
        let rt = crate::semantic::ret_type(c2, name);
        let c3 = st_declare(c2, temp, rt);
        let ep = st_emit_params(c1, vals);
        lemma_grows_same(ep, c2);
        lemma_grows_trans(c1, ep, c2);
        lemma_grows_declare(c2, temp, rt);
        lemma_grows_trans(c1, c2, c3);
        lemma_grows_emit(c3, "gosub"@, name, "_"@, temp);
        lemma_grows_trans(c1, c3, st_emit(c3, "gosub"@, name, "_"@, temp));
        lemma_grows_trans(c, c1, st_emit(c3, "gosub"@, name, "_"@, temp));
    }
}

proof fn lemma_call_items(c: CState, p: Tree, src: Seq<char>, k: int, vals: Seq<Seq<char>>)
    ensures
        grows(c, st_call_items(c, p, src, k, vals).0),
    decreases p, 0nat, p.children.len() - k,
{
    if 0 <= k < p.children.len() {
        let ch = p.children[k];
        if ch.rule == Rule::EXPRESION {
            lemma_walk_expresion(c, ch, src);
            let c1 = st_walk_expresion(c, ch, src);
            if c1.pila_o.len() > 0 && c1.p_types.len() > 0 {
                let c2 = st_pop_operand(c1);
                lemma_call_items(c2, p, src, k + 1, vals.push(c1.pila_o.last()));
                lemma_grows_trans(c1, c2, st_call_items(c2, p, src, k + 1, vals.push(c1.pila_o.last())).0);
                lemma_grows_trans(c, c1, st_call_items(c2, p, src, k + 1, vals.push(c1.pila_o.last())).0);
            } else {
                let c2 = st_pop_any(c1);
                lemma_call_items(c2, p, src, k + 1, vals);
                lemma_grows_trans(c1, c2, st_call_items(c2, p, src, k + 1, vals).0);
                lemma_grows_trans(c, c1, st_call_items(c2, p, src, k + 1, vals).0);
            }
        } else {
            lemma_call_items(c, p, src, k + 1, vals);
        }
    }
}

proof fn lemma_walk_asigna(c: CState, p: Tree, src: Seq<char>)
    ensures
        grows(c, st_walk_asigna(c, p, src)),
    decreases p, 1nat, 0int,
{
    if p.children.len() >= 2 {
        lemma_walk_expresion(c, p.children[1], src);
        let c1 = st_walk_expresion(c, p.children[1], src);
        lemma_a7(c1, crate::semantic::text(src, p.children[0]));
        lemma_grows_trans(c, c1, st_a7(c1, crate::semantic::text(src, p.children[0])));
    }
}

proof fn lemma_walk_imprime(c: CState, p: Tree, src: Seq<char>)
    ensures
        grows(c, st_walk_imprime(c, p, src)),
    decreases p, 1nat, 0int,
{
    lemma_imprime_items(c, p, src, 0);
}

proof fn lemma_imprime_items(c: CState, p: Tree, src: Seq<char>, k: int)
    ensures
        grows(c, st_imprime_items(c, p, src, k)),
    decreases p, 0nat, p.children.len() - k,
{
    if 0 <= k < p.children.len() {
        let ch = p.children[k];
        let c1 = if ch.rule == Rule::PRINT_STATEMENT && ch.children.len() > 0 {
            let inner = ch.children[0];
            if inner.rule == Rule::EXPRESION {
                assert(decreases_to!(p => inner));
                lemma_walk_expresion(c, inner, src);
                let c0 = st_walk_expresion(c, inner, src);
                lemma_a8(c0);
                lemma_grows_trans(c, c0, st_a8(c0));
                st_a8(c0)
            } else if inner.rule == Rule::LETRERO {
                lemma_a9(c, crate::semantic::text(src, inner));
                st_a9(c, crate::semantic::text(src, inner))
            } else {
                c
            }
        } else {
            c
        };
        lemma_imprime_items(c1, p, src, k + 1);
        lemma_grows_trans(c, c1, st_imprime_items(c1, p, src, k + 1));
    }
}

/// A jump appended with no target yet, then more code.
proof fn lemma_open_jump(c: CState, e: CState, op: Seq<char>, l: Seq<char>, r: Seq<char>, res: Seq<char>)
    requires
        e == st_emit(c, op, l, r, res),
    ensures
        grows_but(c, e, c.quads.len() as int),
{
    assert(forall|i: int| 0 <= i < c.quads.len() ==> #[trigger] e.quads[i] == c.quads[i]);
    lemma_keeps_same(c, e);
}

/// Filling in the jump at `hole` with the length of the code.
proof fn lemma_close_jump(c: CState, x: CState, hole: int)
    requires
        grows_but(c, x, hole),
        c.quads.len() <= hole < x.quads.len(),
        is_jump(x.quads[hole].0),
    ensures
        grows(c, st_patch(x, hole, x.quads.len())),
{
    let y = st_patch(x, hole, x.quads.len());
    assert(y.quads[hole].3 == decimal(x.quads.len()));
    assert(target_within(y.quads[hole].3, y.quads.len()));
    assert(target_after(y.quads[hole].3, hole));
    assert forall|i: int| 0 <= i < c.quads.len() implies #[trigger] y.quads[i] == c.quads[i] by {
        assert(y.quads[i] == x.quads[i]);
    }
    assert forall|i: int| c.quads.len() <= i < y.quads.len() && i != -1 && is_jump(#[trigger] y.quads[i].0)
        implies jump_ok(y.quads[i], i, y.quads.len()) by {
        if i != hole {
            assert(y.quads[i] == x.quads[i]);
        }
    }
}

proof fn lemma_walk_condicion(c: CState, p: Tree, src: Seq<char>)
    ensures
        grows(c, st_walk_condicion(c, p, src)),
    decreases p, 1nat, 0int,
{
    if p.children.len() >= 2 {
        reveal_strlit("GotoF");
        reveal_strlit("Goto");
        let c1 = st_walk_expresion(c, p.children[0], src);
        lemma_walk_expresion(c, p.children[0], src);
        let cond = crate::semantic::top_or_blank(c1);
        let c2 = st_pop_any(c1);
        lemma_grows_same(c1, c2);
        lemma_grows_trans(c, c1, c2);
        let g = c2.quads.len() as int;
        let e = st_emit(c2, "GotoF"@, cond, "_"@, "?"@);
        lemma_open_jump(c2, e, "GotoF"@, cond, "_"@, "?"@);
        lemma_walk_body(e, p.children[1], src);
        let c3 = st_walk_body(e, p.children[1], src);
        lemma_grows_trans_but(c2, e, c3, g);
        assert(c3.quads[g] == e.quads[g]);
        if p.children.len() > 2 {
            let h = c3.quads.len() as int;
            let c4 = st_emit(c3, "Goto"@, "_"@, "_"@, "?"@);
            assert(c4.quads[g] == c3.quads[g]);
            assert forall|i: int| c2.quads.len() <= i < c4.quads.len() && i != g && i != h && is_jump(#[trigger] c4.quads[i].0)
                implies jump_ok(c4.quads[i], i, c4.quads.len()) by {
                assert(c4.quads[i] == c3.quads[i]);
                lemma_jump_ok_grows(c3.quads[i], i, c3.quads.len(), c4.quads.len());
            }
            let c5 = st_patch(c4, g, c4.quads.len());
            assert(c5.quads[g].3 == decimal(c4.quads.len()));
            assert(target_after(c5.quads[g].3, g));
            lemma_keeps_same(c3, c4);
            lemma_keeps_trans(c2, c3, c4);
            assert(grows_but(c2, c5, h)) by {
                assert forall|i: int| 0 <= i < c2.quads.len() implies #[trigger] c5.quads[i] == c2.quads[i] by {
                    assert(c5.quads[i] == c4.quads[i]);
                    assert(c4.quads[i] == c3.quads[i]);
                }
                assert forall|i: int| c2.quads.len() <= i < c5.quads.len() && i != h && is_jump(#[trigger] c5.quads[i].0)
                    implies jump_ok(c5.quads[i], i, c5.quads.len()) by {
                    if i != g {
                        assert(c5.quads[i] == c4.quads[i]);
                    }
                }
            }
            lemma_walk_body(c5, p.children[2], src);
            let c6 = st_walk_body(c5, p.children[2], src);
            lemma_grows_trans_but(c2, c5, c6, h);
            assert(c6.quads[h] == c5.quads[h]);
            lemma_close_jump(c2, c6, h);
            lemma_grows_trans(c, c2, st_patch(c6, h, c6.quads.len()));
        } else {
            lemma_close_jump(c2, c3, g);
            lemma_grows_trans(c, c2, st_patch(c3, g, c3.quads.len()));
        }
    }
}

proof fn lemma_walk_ciclo(c: CState, p: Tree, src: Seq<char>)
    ensures
        grows(c, st_walk_ciclo(c, p, src)),
    decreases p, 1nat, 0int,
{
    if p.children.len() >= 2 {
        reveal_strlit("GotoF");
        reveal_strlit("Goto");
        let loop_start = c.quads.len();
        let c1 = st_walk_expresion(c, p.children[0], src);
        lemma_walk_expresion(c, p.children[0], src);
        let cond = crate::semantic::top_or_blank(c1);
        let c2 = st_pop_any(c1);
        lemma_grows_same(c1, c2);
        lemma_grows_trans(c, c1, c2);
        let g = c2.quads.len() as int;
        let e = st_emit(c2, "GotoF"@, cond, "_"@, "?"@);
        lemma_open_jump(c2, e, "GotoF"@, cond, "_"@, "?"@);
        lemma_walk_body(e, p.children[1], src);
        let c3 = st_walk_body(e, p.children[1], src);
        lemma_grows_trans_but(c2, e, c3, g);
        assert(c3.quads[g] == e.quads[g]);
        let c4 = st_emit(c3, "Goto"@, "_"@, "_"@, decimal(loop_start));
        assert(c4.quads[g] == c3.quads[g]);
        assert(grows_but(c2, c4, g)) by {
            assert forall|i: int| 0 <= i < c2.quads.len() implies #[trigger] c4.quads[i] == c2.quads[i] by {
                assert(c4.quads[i] == c3.quads[i]);
            }
            lemma_keeps_same(c3, c4);
            lemma_keeps_trans(c2, c3, c4);
            assert forall|i: int| c2.quads.len() <= i < c4.quads.len() && i != g && is_jump(#[trigger] c4.quads[i].0)
                implies jump_ok(c4.quads[i], i, c4.quads.len()) by {
                if i < c3.quads.len() {
                    assert(c4.quads[i] == c3.quads[i]);
                    lemma_jump_ok_grows(c3.quads[i], i, c3.quads.len(), c4.quads.len());
                } else {
                    assert(c4.quads[i].3 == decimal(loop_start));
                    assert(loop_start <= c4.quads.len());
                    assert(c4.quads[i].0 == "Goto"@);
                    assert("Goto"@.len() != "GotoF"@.len());
                }
            }
        }
        lemma_close_jump(c2, c4, g);
        lemma_grows_trans(c, c2, st_patch(c4, g, c4.quads.len()));
    }
}

proof fn lemma_walk_body(c: CState, p: Tree, src: Seq<char>)
    ensures
        grows(c, st_walk_body(c, p, src)),
    decreases p, 1nat, 0int,
{
    lemma_body_items(c, p, src, 0);
}

proof fn lemma_body_items(c: CState, p: Tree, src: Seq<char>, k: int)
    ensures
        grows(c, st_body_items(c, p, src, k)),
    decreases p, 0nat, p.children.len() - k,
{
    if 0 <= k < p.children.len() {
        let ch = p.children[k];
        let c1 = if ch.rule == Rule::ESTATUTO {
            lemma_walk_estatuto(c, ch, src);
            st_walk_estatuto(c, ch, src)
        } else {
            c
        };
        lemma_body_items(c1, p, src, k + 1);
        lemma_grows_trans(c, c1, st_body_items(c1, p, src, k + 1));
    }
}

proof fn lemma_walk_estatuto(c: CState, p: Tree, src: Seq<char>)
    ensures
        grows(c, st_walk_estatuto(c, p, src)),
    decreases p, 1nat, 0int,
{
    if p.children.len() > 0 {
        let inner = p.children[0];
        match inner.rule {
            Rule::ASIGNA => lemma_walk_asigna(c, inner, src),
            Rule::CONDICION => lemma_walk_condicion(c, inner, src),
            Rule::CICLO => lemma_walk_ciclo(c, inner, src),
            Rule::CALL => lemma_walk_call(c, inner, src),
            Rule::IMPRIME => lemma_walk_imprime(c, inner, src),
            _ => lemma_body_items(c, inner, src, 0),
        }
    }
}

proof fn lemma_funcs_bodies(c: CState, fp: Tree, src: Seq<char>, k: int)
    ensures
        grows(c, st_funcs_bodies(c, fp, src, k)),
    decreases fp.children.len() - k,
{
    if 0 <= k < fp.children.len() {
        let ch = fp.children[k];
        let c1 = if ch.rule == Rule::BODY {
            lemma_walk_body(c, ch, src);
            st_walk_body(c, ch, src)
        } else {
            c
        };
        lemma_funcs_bodies(c1, fp, src, k + 1);
        lemma_grows_trans(c, c1, st_funcs_bodies(c1, fp, src, k + 1));
    }
}

proof fn lemma_compile_items(c: CState, p: Tree, src: Seq<char>, k: int)
    ensures
        grows(c, st_compile_items(c, p, src, k)),
    decreases p.children.len() - k,
{
    if 0 <= k < p.children.len() {
        let ch = p.children[k];
        let c1 = if ch.rule == Rule::FUNCS {
            let name = crate::semantic::text(src, ch.children[1]);
            let s = st_scope(c, name);
            lemma_funcs_bodies(s, ch, src, 2);
            lemma_grows_same(c, s);
            lemma_grows_trans(c, s, st_funcs_bodies(s, ch, src, 2));
            st_scope(st_funcs_bodies(s, ch, src, 2), "global"@)
        } else if ch.rule == Rule::BODY {
            let s = st_scope(c, "global"@);
            lemma_walk_body(s, ch, src);
            lemma_grows_same(c, s);
            lemma_grows_trans(c, s, st_walk_body(s, ch, src));
            st_walk_body(s, ch, src)
        } else {
            c
        };
        lemma_compile_items(c1, p, src, k + 1);
        lemma_grows_trans(c, c1, st_compile_items(c1, p, src, k + 1));
    }
}

/// In the code compiled from any program tree, every `GotoF` and `Goto` jumps to the
/// index of one of its quadruples or to the index just past the last one: each jump
/// generated with its target left open is filled in before compiling ends.
pub proof fn law_jumps_filled(d: Map<Seq<char>, FuncModel>, p: Tree, src: Seq<char>)
    ensures
        jumps_filled(st_compile_program(d, p, src).quads),
{
    let c0 = st_initial(d);
    lemma_compile_items(c0, p, src, 0);
    let c = st_compile_program(d, p, src);
    assert forall|i: int| 0 <= i < c.quads.len() && is_jump(#[trigger] c.quads[i].0) implies target_within(
        c.quads[i].3,
        c.quads.len(),
    ) by {
        assert(c0.quads.len() == 0);
        assert(i != -1);
    }
}

/// In the code compiled from any program tree, every `GotoF` jumps forward: its
/// target is an index past its own.
pub proof fn law_gotof_forward(d: Map<Seq<char>, FuncModel>, p: Tree, src: Seq<char>)
    ensures
        gotof_forward(st_compile_program(d, p, src).quads),
{
    reveal_strlit("GotoF");
    reveal_strlit("Goto");
    let c0 = st_initial(d);
    lemma_compile_items(c0, p, src, 0);
    let c = st_compile_program(d, p, src);
    assert forall|i: int| 0 <= i < c.quads.len() && #[trigger] c.quads[i].0 == "GotoF"@ implies target_after(
        c.quads[i].3,
        i,
    ) by {
        assert(c0.quads.len() == 0);
        assert(is_jump(c.quads[i].0));
        assert(i != -1);
        assert(jump_ok(c.quads[i], i, c.quads.len()));
    }
}

/// In the code compiled from any program tree, no jump is left with the open target
/// `?` that it gets when it is first generated.
pub proof fn law_no_open_jump(d: Map<Seq<char>, FuncModel>, p: Tree, src: Seq<char>)
    ensures
        forall|i: int| #![trigger st_compile_program(d, p, src).quads[i]]
            0 <= i < st_compile_program(d, p, src).quads.len() && is_jump(
            st_compile_program(d, p, src).quads[i].0,
        ) ==> st_compile_program(d, p, src).quads[i].3 != "?"@,
{
    reveal_strlit("?");
    law_jumps_filled(d, p, src);
    let c = st_compile_program(d, p, src);
    assert forall|i: int| 0 <= i < c.quads.len() && is_jump(#[trigger] c.quads[i].0) implies c.quads[i].3
        != "?"@ by {
        let k = choose|k: nat| k <= c.quads.len() && c.quads[i].3 == decimal(k);
        lemma_decimal_digits(k);
        assert(crate::text::is_digit(decimal(k)[0]));
    }
}

/// Compiling keeps the symbol table's functions: the compiler ends with exactly the
/// functions it started with, each with its return type (compiling only adds
/// temporaries to their variables).
pub proof fn law_compile_keeps_functions(d: Map<Seq<char>, FuncModel>, p: Tree, src: Seq<char>)
    ensures
        st_compile_program(d, p, src).funcs.dom() == d.dom(),
        forall|f: Seq<char>| #[trigger] d.contains_key(f) ==> st_compile_program(d, p, src).funcs[f].0 == d[f].0,
{
    lemma_compile_items(st_initial(d), p, src, 0);
}

/// Compiling records its errors in order: the errors there are before compiling the
/// children of a program tree from `k` on come first, unchanged, in the errors after.
pub proof fn law_errors_in_order(c: CState, p: Tree, src: Seq<char>, k: int)
    ensures
        c.errors.is_prefix_of(st_compile_items(c, p, src, k).errors),
{
    lemma_compile_items(c, p, src, k);
}

} // verus!
