//! The parse tree as a value, and the tree that each rule of the grammar gives at
//! a position of the input: the node for the rule, its span, and the trees of the
//! rules inside it, in the order in which they occur.
use vstd::prelude::*;

use crate::grammar::{
    Pair,
    Rule,
    in_range,
    inner_rule,
    is_whole,
    lemma_skip_ws,
    lit,
    opt_after,
    p_add_op,
    p_asigna,
    p_block,
    p_body,
    p_call,
    p_ciclo,
    p_condicion,
    p_cte,
    p_estatuto,
    p_expr,
    p_expresion,
    p_factor,
    p_funcs,
    p_funcs_tail,
    p_id,
    p_id_tail,
    p_imprime,
    p_letrero,
    p_mul_op,
    p_mult_vars,
    p_param_tail,
    p_paren_expr,
    p_print_statement,
    p_program,
    p_rel_op,
    p_return_stmt,
    p_single_expr,
    p_single_factor,
    p_single_vars,
    p_term,
    p_type,
    p_type_func,
    p_vars,
    rule_at,
    skip_ws,
    then_tok,
    tok,
};

verus! {

/// A node of a parse tree as a value: the rule it matched, the span of the input it
/// covers, and the nodes inside it.
pub struct Tree {
    pub rule: Rule,
    pub start: int,
    pub end: int,
    pub children: Seq<Tree>,
}

/// The tree that a node of the parser stands for.
pub open spec fn tree_of(p: Pair) -> Tree
    decreases p, 1nat,
{
    proof {
        assert(decreases_to!(p => p.children));
    }
    Tree { rule: p.rule, start: p.start as int, end: p.end as int, children: trees_of(p.children@) }
}

/// The trees of a list of nodes.
pub open spec fn trees_of(s: Seq<Pair>) -> Seq<Tree>
    decreases s, 0nat,
{
    if s.len() == 0 {
        Seq::empty()
    } else {
        trees_of(s.drop_last()).push(tree_of(s.last()))
    }
}

/// A leaf of a parse tree.
pub open spec fn leaf_t(rule: Rule, start: int, end: int) -> Tree {
    Tree { rule, start, end, children: Seq::empty() }
}

/// An inner node of a parse tree.
pub open spec fn node_t(rule: Rule, start: int, end: int, children: Seq<Tree>) -> Tree {
    Tree { rule, start, end, children }
}

/// Adding a node adds its tree.
pub proof fn lemma_trees_push(v: Seq<Pair>, q: Pair)
    ensures
        trees_of(v.push(q)) == trees_of(v).push(tree_of(q)),
{
    assert(v.push(q).drop_last() =~= v);
}

/// Adding two nodes adds their trees.
pub proof fn lemma_trees_push2(v: Seq<Pair>, a: Pair, b: Pair)
    ensures
        trees_of(v.push(a).push(b)) == trees_of(v) + seq![tree_of(a), tree_of(b)],
{
    lemma_trees_push(v, a);
    lemma_trees_push(v.push(a), b);
    assert(trees_of(v).push(tree_of(a)).push(tree_of(b)) =~= trees_of(v) + seq![tree_of(a), tree_of(b)]);
}

/// The trees of a list of nodes are the nodes' trees, in order.
proof fn lemma_trees_of(v: Seq<Pair>)
    ensures
        trees_of(v).len() == v.len(),
        forall|k: int| 0 <= k < v.len() ==> #[trigger] trees_of(v)[k] == tree_of(v[k]),
    decreases v.len(),
{
    if v.len() > 0 {
        lemma_trees_of(v.drop_last());
        assert forall|k: int| 0 <= k < v.len() implies #[trigger] trees_of(v)[k] == tree_of(v[k]) by {
            if k < v.len() - 1 {
                assert(v.drop_last()[k] == v[k]);
            }
        }
    }
}

/// A node's tree has as many children as the node.
pub broadcast proof fn lemma_tree_children_len(p: Pair)
    ensures
        #[trigger] tree_of(p).children.len() == p.children@.len(),
{
    lemma_trees_of(p.children@);
}

/// Each child of a node's tree is the tree of the node's child.
pub broadcast proof fn lemma_tree_child(p: Pair, k: int)
    requires
        0 <= k < p.children@.len(),
    ensures
        #[trigger] tree_of(p).children[k] == tree_of(p.children@[k]),
{
    lemma_trees_of(p.children@);
}

/// How a node's tree reads its children.
pub broadcast group group_tree_of {
    lemma_tree_children_len,
    lemma_tree_child,
}

/// The end of a match, where one is known to be.
pub open spec fn end_of(o: Option<int>) -> int {
    match o {
        Some(e) => e,
        None => 0,
    }
}

/// The tree of the ID match at `i`.
#[verifier::opaque]
pub open spec fn t_id(s: Seq<char>, i: int) -> Tree {
    leaf_t(Rule::ID, i, end_of(p_id(s, i)))
}

/// The tree of the CTE match at `i`.
#[verifier::opaque]
pub open spec fn t_cte(s: Seq<char>, i: int) -> Tree {
    leaf_t(Rule::CTE, i, end_of(p_cte(s, i)))
}

/// The tree of the LETRERO match at `i`.
#[verifier::opaque]
pub open spec fn t_letrero(s: Seq<char>, i: int) -> Tree {
    leaf_t(Rule::LETRERO, i, end_of(p_letrero(s, i)))
}

/// The tree of the TYPE match at `i`.
#[verifier::opaque]
pub open spec fn t_type(s: Seq<char>, i: int) -> Tree {
    leaf_t(Rule::TYPE, i, end_of(p_type(s, i)))
}

/// The tree of the TYPE_FUNC match at `i`.
#[verifier::opaque]
pub open spec fn t_type_func(s: Seq<char>, i: int) -> Tree {
    match lit(s, i, "nula"@) {
        Some(e) => leaf_t(Rule::TYPE_FUNC, i, e),
        None => node_t(Rule::TYPE_FUNC, i, end_of(p_type(s, i)), seq![t_type(s, i)]),
    }
}

/// The tree of the SINGLE_FACTOR match at `i`.
#[verifier::opaque]
pub open spec fn t_single_factor(s: Seq<char>, i: int) -> Tree {
    let (sign, j) = match p_add_op(s, i) {
        Some(k) => (seq![leaf_t(Rule::SIGN, i, k)], skip_ws(s, k)),
        None => (Seq::<Tree>::empty(), i),
    };
    let inner = match p_id(s, j) {
        Some(_) => t_id(s, j),
        None => t_cte(s, j),
    };
    node_t(Rule::SINGLE_FACTOR, i, end_of(p_single_factor(s, i)), sign.push(inner))
}

/// The tree of the EXPRESION match at `i`.
#[verifier::opaque]
pub open spec fn t_expresion(s: Seq<char>, i: int) -> Tree
    decreases s.len() - i, 9int,
{
    if !(0 <= i <= s.len()) {
        leaf_t(Rule::EXPRESION, i, i)
    } else {
        match p_expr(s, i) {
            Some(e) => if in_range(s, i, e) {
                node_t(Rule::EXPRESION, i, end_of(p_expresion(s, i)), seq![t_expr(s, i)] + ts_rel_rest(s, e))
            } else {
                leaf_t(Rule::EXPRESION, i, i)
            },
            None => leaf_t(Rule::EXPRESION, i, i),
        }
    }
}


/// The relational operator and second EXPR of an EXPRESION whose first EXPR ends
/// at `e`, when they are there.
#[verifier::opaque]
pub open spec fn ts_rel_rest(s: Seq<char>, e: int) -> Seq<Tree>
    decreases s.len() - e, 8int,
{
    if !(0 <= e <= s.len()) {
        Seq::empty()
    } else {
        match p_rel_op(s, skip_ws(s, e)) {
            Some(k) => if in_range(s, e, k) && k > e {
                proof {
                    lemma_skip_ws(s, k);
                }
                match p_expr(s, skip_ws(s, k)) {
                    Some(_) => seq![leaf_t(Rule::REL_OP, skip_ws(s, e), k), t_expr(s, skip_ws(s, k))],
                    None => Seq::empty(),
                }
            } else {
                Seq::empty()
            },
            None => Seq::empty(),
        }
    }
}

/// The tree of the EXPR match at `i`.
#[verifier::opaque]
pub open spec fn t_expr(s: Seq<char>, i: int) -> Tree
    decreases s.len() - i, 8int,
{
    if !(0 <= i <= s.len()) {
        leaf_t(Rule::EXPR, i, i)
    } else {
        match p_term(s, i) {
            Some(e) => if in_range(s, i, e) {
                node_t(Rule::EXPR, i, end_of(p_expr(s, i)), seq![t_term(s, i)] + ts_expr_tail(s, e))
            } else {
                leaf_t(Rule::EXPR, i, i)
            },
            None => leaf_t(Rule::EXPR, i, i),
        }
    }
}

/// The ADD_OP and TERM trees that follow an EXPR's first TERM ending at `e`.
#[verifier::opaque]
pub open spec fn ts_expr_tail(s: Seq<char>, e: int) -> Seq<Tree>
    decreases s.len() - e, 7int,
{
    if !(0 <= e <= s.len()) {
        Seq::empty()
    } else {
        match p_add_op(s, skip_ws(s, e)) {
            Some(k) => if in_range(s, e, k) && k > e {
                proof {
                    lemma_skip_ws(s, k);
                }
                match p_term(s, skip_ws(s, k)) {
                    Some(e2) => if in_range(s, k, e2) {
                        seq![leaf_t(Rule::ADD_OP, skip_ws(s, e), k), t_term(s, skip_ws(s, k))]
                            + ts_expr_tail(s, e2)
                    } else {
                        Seq::empty()
                    },
                    None => Seq::empty(),
                }
            } else {
                Seq::empty()
            },
            None => Seq::empty(),
        }
    }
}

/// The tree of the TERM match at `i`.
#[verifier::opaque]
pub open spec fn t_term(s: Seq<char>, i: int) -> Tree
    decreases s.len() - i, 6int,
{
    if !(0 <= i <= s.len()) {
        leaf_t(Rule::TERM, i, i)
    } else {
        match p_factor(s, i) {
            Some(e) => if in_range(s, i, e) {
                node_t(Rule::TERM, i, end_of(p_term(s, i)), seq![t_factor(s, i)] + ts_term_tail(s, e))
            } else {
                leaf_t(Rule::TERM, i, i)
            },
            None => leaf_t(Rule::TERM, i, i),
        }
    }
}

/// The MUL_OP and FACTOR trees that follow a TERM's first FACTOR ending at `e`.
#[verifier::opaque]
pub open spec fn ts_term_tail(s: Seq<char>, e: int) -> Seq<Tree>
    decreases s.len() - e, 5int,
{
    if !(0 <= e <= s.len()) {
        Seq::empty()
    } else {
        match p_mul_op(s, skip_ws(s, e)) {
            Some(k) => if in_range(s, e, k) && k > e {
                proof {
                    lemma_skip_ws(s, k);
                }
                match p_factor(s, skip_ws(s, k)) {
                    Some(e2) => if in_range(s, k, e2) {
                        seq![leaf_t(Rule::MUL_OP, skip_ws(s, e), k), t_factor(s, skip_ws(s, k))]
                            + ts_term_tail(s, e2)
                    } else {
                        Seq::empty()
                    },
                    None => Seq::empty(),
                }
            } else {
                Seq::empty()
            },
            None => Seq::empty(),
        }
    }
}

/// The tree of the FACTOR match at `i`.
#[verifier::opaque]
pub open spec fn t_factor(s: Seq<char>, i: int) -> Tree
    decreases s.len() - i, 4int,
{
    if !(0 <= i <= s.len()) {
        leaf_t(Rule::FACTOR, i, i)
    } else {
        let inner = match p_single_expr(s, i) {
            Some(_) => t_single_expr(s, i),
            None => match p_call(s, i) {
                Some(_) => t_call(s, i),
                None => t_single_factor(s, i),
            },
        };
        node_t(Rule::FACTOR, i, end_of(p_factor(s, i)), seq![inner])
    }
}

/// The tree of the SINGLE_EXPR match at `i`.
#[verifier::opaque]
pub open spec fn t_single_expr(s: Seq<char>, i: int) -> Tree
    decreases s.len() - i, 3int,
{
    if !(0 <= i < s.len()) || s[i] != '(' {
        leaf_t(Rule::SINGLE_EXPR, i, i)
    } else {
        proof {
            lemma_skip_ws(s, i + 1);
        }
        node_t(Rule::SINGLE_EXPR, i, end_of(p_single_expr(s, i)), seq![t_expresion(s, skip_ws(s, i + 1))])
    }
}

/// The tree of the CALL match at `i`.
#[verifier::opaque]
pub open spec fn t_call(s: Seq<char>, i: int) -> Tree
    decreases s.len() - i, 3int,
{
    match p_id(s, i) {
        Some(e1) => match tok(s, skip_ws(s, e1), '(') {
            Some(k) => if 0 <= i < k <= s.len() {
                proof {
                    lemma_skip_ws(s, k);
                }
                let args = match p_expresion(s, skip_ws(s, k)) {
                    Some(e) => if in_range(s, k, e) {
                        seq![t_expresion(s, skip_ws(s, k))] + ts_arg_tail(s, e)
                    } else {
                        Seq::empty()
                    },
                    None => Seq::empty(),
                };
                node_t(Rule::CALL, i, end_of(p_call(s, i)), seq![t_id(s, i)] + args)
            } else {
                leaf_t(Rule::CALL, i, i)
            },
            None => leaf_t(Rule::CALL, i, i),
        },
        None => leaf_t(Rule::CALL, i, i),
    }
}

/// The trees of a CALL's further arguments, after the argument ending at `e`.
#[verifier::opaque]
pub open spec fn ts_arg_tail(s: Seq<char>, e: int) -> Seq<Tree>
    decreases s.len() - e, 2int,
{
    if !(0 <= e <= s.len()) {
        Seq::empty()
    } else {
        match tok(s, skip_ws(s, e), ',') {
            Some(k) => if in_range(s, e, k) && k > e {
                proof {
                    lemma_skip_ws(s, k);
                }
                match p_expresion(s, skip_ws(s, k)) {
                    Some(e2) => if in_range(s, k, e2) {
                        seq![t_expresion(s, skip_ws(s, k))] + ts_arg_tail(s, e2)
                    } else {
                        Seq::empty()
                    },
                    None => Seq::empty(),
                }
            } else {
                Seq::empty()
            },
            None => Seq::empty(),
        }
    }
}

/// The tree of the ASIGNA match at `i`.
#[verifier::opaque]
pub open spec fn t_asigna(s: Seq<char>, i: int) -> Tree {
    match p_id(s, i) {
        Some(e1) => match tok(s, skip_ws(s, e1), '=') {
            Some(k) => node_t(
                Rule::ASIGNA,
                i,
                end_of(p_asigna(s, i)),
                seq![t_id(s, i), t_expresion(s, skip_ws(s, k))],
            ),
            None => leaf_t(Rule::ASIGNA, i, i),
        },
        None => leaf_t(Rule::ASIGNA, i, i),
    }
}

/// The tree of the PRINT_STATEMENT match at `i`.
#[verifier::opaque]
pub open spec fn t_print_statement(s: Seq<char>, i: int) -> Tree {
    let inner = match p_expresion(s, i) {
        Some(_) => t_expresion(s, i),
        None => t_letrero(s, i),
    };
    node_t(Rule::PRINT_STATEMENT, i, end_of(p_print_statement(s, i)), seq![inner])
}

/// The trees of an IMPRIME's further items, after the item ending at `e`.
#[verifier::opaque]
pub open spec fn ts_print_tail(s: Seq<char>, e: int) -> Seq<Tree>
    decreases s.len() - e,
{
    if !(0 <= e <= s.len()) {
        Seq::empty()
    } else {
        match tok(s, skip_ws(s, e), ',') {
            Some(k) => if in_range(s, e, k) && k > e {
                match p_print_statement(s, skip_ws(s, k)) {
                    Some(e2) => if k <= e2 <= s.len() {
                        seq![t_print_statement(s, skip_ws(s, k))] + ts_print_tail(s, e2)
                    } else {
                        Seq::empty()
                    },
                    None => Seq::empty(),
                }
            } else {
                Seq::empty()
            },
            None => Seq::empty(),
        }
    }
}

/// The tree of the IMPRIME match at `i`.
#[verifier::opaque]
pub open spec fn t_imprime(s: Seq<char>, i: int) -> Tree {
    match lit(s, i, "escribe"@) {
        Some(k1) => match tok(s, skip_ws(s, k1), '(') {
            Some(k) => match p_print_statement(s, skip_ws(s, k)) {
                Some(e) => node_t(
                    Rule::IMPRIME,
                    i,
                    end_of(p_imprime(s, i)),
                    seq![t_print_statement(s, skip_ws(s, k))] + ts_print_tail(s, e),
                ),
                None => leaf_t(Rule::IMPRIME, i, i),
            },
            None => leaf_t(Rule::IMPRIME, i, i),
        },
        None => leaf_t(Rule::IMPRIME, i, i),
    }
}

/// The tree of the ESTATUTO match at `i`.
#[verifier::opaque]
pub open spec fn t_estatuto(s: Seq<char>, i: int) -> Tree
    decreases s.len() - i, 6int,
{
    if !(0 <= i <= s.len()) {
        leaf_t(Rule::ESTATUTO, i, i)
    } else {
        let inner = match p_asigna(s, i) {
            Some(_) => t_asigna(s, i),
            None => match p_condicion(s, i) {
                Some(_) => t_condicion(s, i),
                None => match p_ciclo(s, i) {
                    Some(_) => t_ciclo(s, i),
                    None => match p_imprime(s, i) {
                        Some(_) => t_imprime(s, i),
                        None => match then_tok(s, p_call(s, i), ';') {
                            Some(_) => t_call(s, i),
                            None => t_block(s, i),
                        },
                    },
                },
            },
        };
        node_t(Rule::ESTATUTO, i, end_of(p_estatuto(s, i)), seq![inner])
    }
}

#[verifier::opaque]
/// The tree of the BLOCK match at `i`.
#[verifier::opaque]
pub open spec fn t_block(s: Seq<char>, i: int) -> Tree
    decreases s.len() - i, 5int,
{
    if !(0 <= i < s.len()) || s[i] != '[' {
        leaf_t(Rule::BLOCK, i, i)
    } else {
        node_t(Rule::BLOCK, i, end_of(p_block(s, i)), ts_stmts(s, i + 1))
    }
}

/// The trees of the statements that follow position `e`.
#[verifier::opaque]
pub open spec fn ts_stmts(s: Seq<char>, e: int) -> Seq<Tree>
    decreases s.len() - e, 7int,
{
    if !(0 <= e <= s.len()) {
        Seq::empty()
    } else {
        proof {
            lemma_skip_ws(s, e);
        }
        match p_estatuto(s, skip_ws(s, e)) {
            Some(e2) => if e < e2 <= s.len() {
                seq![t_estatuto(s, skip_ws(s, e))] + ts_stmts(s, e2)
            } else {
                Seq::empty()
            },
            None => Seq::empty(),
        }
    }
}

/// The tree of the BODY match at `i`.
#[verifier::opaque]
pub open spec fn t_body(s: Seq<char>, i: int) -> Tree
    decreases s.len() - i, 4int,
{
    if !(0 <= i < s.len()) || s[i] != '{' {
        leaf_t(Rule::BODY, i, i)
    } else {
        node_t(Rule::BODY, i, end_of(p_body(s, i)), ts_stmts(s, i + 1))
    }
}

/// The condition of `si` or `mientras`, whose `(` follows position `k`.
#[verifier::opaque]
pub open spec fn t_paren_expr(s: Seq<char>, k: int) -> Tree {
    match tok(s, skip_ws(s, k), '(') {
        Some(k2) => t_expresion(s, skip_ws(s, k2)),
        None => leaf_t(Rule::EXPRESION, k, k),
    }
}

/// The tree of the CONDICION match at `i`.
#[verifier::opaque]
pub open spec fn t_condicion(s: Seq<char>, i: int) -> Tree
    decreases s.len() - i, 5int,
{
    match lit(s, i, "si"@) {
        Some(k) => match p_paren_expr(s, k) {
            Some(e) => if 0 <= i < e <= s.len() {
                proof {
                    lemma_skip_ws(s, e);
                }
                match p_body(s, skip_ws(s, e)) {
                    Some(e2) => if e < e2 <= s.len() {
                        let sino = match lit(s, skip_ws(s, e2), "sino"@) {
                            Some(k2) => if e2 <= k2 <= s.len() {
                                proof {
                                    lemma_skip_ws(s, k2);
                                }
                                match p_body(s, skip_ws(s, k2)) {
                                    Some(_) => seq![t_body(s, skip_ws(s, k2))],
                                    None => Seq::empty(),
                                }
                            } else {
                                Seq::empty()
                            },
                            None => Seq::empty(),
                        };
                        node_t(
                            Rule::CONDICION,
                            i,
                            end_of(p_condicion(s, i)),
                            seq![t_paren_expr(s, k), t_body(s, skip_ws(s, e))] + sino,
                        )
                    } else {
                        leaf_t(Rule::CONDICION, i, i)
                    },
                    None => leaf_t(Rule::CONDICION, i, i),
                }
            } else {
                leaf_t(Rule::CONDICION, i, i)
            },
            None => leaf_t(Rule::CONDICION, i, i),
        },
        None => leaf_t(Rule::CONDICION, i, i),
    }
}

/// The tree of the CICLO match at `i`.
#[verifier::opaque]
pub open spec fn t_ciclo(s: Seq<char>, i: int) -> Tree
    decreases s.len() - i, 5int,
{
    match lit(s, i, "mientras"@) {
        Some(k) => match p_paren_expr(s, k) {
            Some(e) => match lit(s, skip_ws(s, e), "haz"@) {
                Some(k2) => if 0 <= i < k2 <= s.len() {
                    proof {
                        lemma_skip_ws(s, k2);
                    }
                    node_t(
                        Rule::CICLO,
                        i,
                        end_of(p_ciclo(s, i)),
                        seq![t_paren_expr(s, k), t_body(s, skip_ws(s, k2))],
                    )
                } else {
                    leaf_t(Rule::CICLO, i, i)
                },
                None => leaf_t(Rule::CICLO, i, i),
            },
            None => leaf_t(Rule::CICLO, i, i),
        },
        None => leaf_t(Rule::CICLO, i, i),
    }
}

/// The trees of a MULT_VARS' further names, after the name ending at `e`.
#[verifier::opaque]
pub open spec fn ts_id_tail(s: Seq<char>, e: int) -> Seq<Tree>
    decreases s.len() - e,
{
    if !(0 <= e <= s.len()) {
        Seq::empty()
    } else {
        match tok(s, skip_ws(s, e), ',') {
            Some(k) => match p_id(s, skip_ws(s, k)) {
                Some(e2) => if e < e2 <= s.len() {
                    seq![t_id(s, skip_ws(s, k))] + ts_id_tail(s, e2)
                } else {
                    Seq::empty()
                },
                None => Seq::empty(),
            },
            None => Seq::empty(),
        }
    }
}

/// The tree of the MULT_VARS match at `i`.
#[verifier::opaque]
pub open spec fn t_mult_vars(s: Seq<char>, i: int) -> Tree {
    match p_id(s, i) {
        Some(e) => {
            let e1 = p_id_tail(s, e);
            match tok(s, skip_ws(s, e1), ':') {
                Some(k) => node_t(
                    Rule::MULT_VARS,
                    i,
                    end_of(p_mult_vars(s, i)),
                    (seq![t_id(s, i)] + ts_id_tail(s, e)).push(t_type(s, skip_ws(s, k))),
                ),
                None => leaf_t(Rule::MULT_VARS, i, i),
            }
        },
        None => leaf_t(Rule::MULT_VARS, i, i),
    }
}

/// The trees of a VARS' further MULT_VARS, after the one ending at `e`.
#[verifier::opaque]
pub open spec fn ts_mult_tail(s: Seq<char>, e: int) -> Seq<Tree>
    decreases s.len() - e,
{
    if !(0 <= e <= s.len()) {
        Seq::empty()
    } else {
        match p_mult_vars(s, skip_ws(s, e)) {
            Some(e2) => if e < e2 <= s.len() {
                seq![t_mult_vars(s, skip_ws(s, e))] + ts_mult_tail(s, e2)
            } else {
                Seq::empty()
            },
            None => Seq::empty(),
        }
    }
}

/// The tree of the VARS match at `i`.
#[verifier::opaque]
pub open spec fn t_vars(s: Seq<char>, i: int) -> Tree {
    match lit(s, i, "vars"@) {
        Some(k) => match p_mult_vars(s, skip_ws(s, k)) {
            Some(e) => node_t(
                Rule::VARS,
                i,
                end_of(p_vars(s, i)),
                seq![t_mult_vars(s, skip_ws(s, k))] + ts_mult_tail(s, e),
            ),
            None => leaf_t(Rule::VARS, i, i),
        },
        None => leaf_t(Rule::VARS, i, i),
    }
}

/// The tree of the SINGLE_VARS match at `i`.
#[verifier::opaque]
pub open spec fn t_single_vars(s: Seq<char>, i: int) -> Tree {
    match p_id(s, i) {
        Some(e) => match tok(s, skip_ws(s, e), ':') {
            Some(k) => node_t(
                Rule::SINGLE_VARS,
                i,
                end_of(p_single_vars(s, i)),
                seq![t_id(s, i), t_type(s, skip_ws(s, k))],
            ),
            None => leaf_t(Rule::SINGLE_VARS, i, i),
        },
        None => leaf_t(Rule::SINGLE_VARS, i, i),
    }
}

/// The trees of a FUNCS' further parameters, after the one ending at `e`.
#[verifier::opaque]
pub open spec fn ts_param_tail(s: Seq<char>, e: int) -> Seq<Tree>
    decreases s.len() - e,
{
    if !(0 <= e <= s.len()) {
        Seq::empty()
    } else {
        match tok(s, skip_ws(s, e), ',') {
            Some(k) => match p_single_vars(s, skip_ws(s, k)) {
                Some(e2) => if e < e2 <= s.len() {
                    seq![t_single_vars(s, skip_ws(s, k))] + ts_param_tail(s, e2)
                } else {
                    Seq::empty()
                },
                None => Seq::empty(),
            },
            None => Seq::empty(),
        }
    }
}

/// The tree of the RETURN_STMT match at `i`.
#[verifier::opaque]
pub open spec fn t_return_stmt(s: Seq<char>, i: int) -> Tree {
    match lit(s, i, "return"@) {
        Some(k) => node_t(
            Rule::RETURN_STMT,
            i,
            end_of(p_return_stmt(s, i)),
            seq![t_expresion(s, skip_ws(s, k))],
        ),
        None => leaf_t(Rule::RETURN_STMT, i, i),
    }
}

/// The tree of an optional item that may start at `j`: one tree or none.
pub open spec fn opt_tree(o: Option<int>, t: Tree) -> Seq<Tree> {
    match o {
        Some(_) => seq![t],
        None => Seq::empty(),
    }
}

/// The tree of the FUNCS match at `i`.
#[verifier::opaque]
pub open spec fn t_funcs(s: Seq<char>, i: int) -> Tree {
    match p_type_func(s, i) {
        Some(e0) => match p_id(s, skip_ws(s, e0)) {
            Some(e1) => match tok(s, skip_ws(s, e1), '(') {
                Some(k) => {
                    let params = match p_single_vars(s, skip_ws(s, k)) {
                        Some(e2) => seq![t_single_vars(s, skip_ws(s, k))] + ts_param_tail(s, e2),
                        None => Seq::empty(),
                    };
                    let pe = match p_single_vars(s, skip_ws(s, k)) {
                        Some(e2) => p_param_tail(s, e2),
                        None => k,
                    };
                    match tok(s, skip_ws(s, pe), ')') {
                        Some(k2) => match tok(s, skip_ws(s, k2), '{') {
                            Some(k3) => {
                                let v = p_vars(s, skip_ws(s, k3));
                                let ve = opt_after(s, k3, v);
                                let be = end_of(p_body(s, skip_ws(s, ve)));
                                let r = p_return_stmt(s, skip_ws(s, be));
                                node_t(
                                    Rule::FUNCS,
                                    i,
                                    end_of(p_funcs(s, i)),
                                    seq![t_type_func(s, i), t_id(s, skip_ws(s, e0))] + params + opt_tree(
                                        v,
                                        t_vars(s, skip_ws(s, k3)),
                                    ) + seq![t_body(s, skip_ws(s, ve))] + opt_tree(
                                        r,
                                        t_return_stmt(s, skip_ws(s, be)),
                                    ),
                                )
                            },
                            None => leaf_t(Rule::FUNCS, i, i),
                        },
                        None => leaf_t(Rule::FUNCS, i, i),
                    }
                },
                None => leaf_t(Rule::FUNCS, i, i),
            },
            None => leaf_t(Rule::FUNCS, i, i),
        },
        None => leaf_t(Rule::FUNCS, i, i),
    }
}

/// The trees of the functions that follow position `e`.
#[verifier::opaque]
pub open spec fn ts_funcs_tail(s: Seq<char>, e: int) -> Seq<Tree>
    decreases s.len() - e,
{
    if !(0 <= e <= s.len()) {
        Seq::empty()
    } else {
        match p_funcs(s, skip_ws(s, e)) {
            Some(e2) => if e < e2 <= s.len() {
                seq![t_funcs(s, skip_ws(s, e))] + ts_funcs_tail(s, e2)
            } else {
                Seq::empty()
            },
            None => Seq::empty(),
        }
    }
}

/// The tree of the PROGRAM match at `i`.
#[verifier::opaque]
pub open spec fn t_program(s: Seq<char>, i: int) -> Tree {
    match lit(s, i, "programa"@) {
        Some(k) => match p_id(s, skip_ws(s, k)) {
            Some(e1) => match tok(s, skip_ws(s, e1), ';') {
                Some(k2) => {
                    let v = p_vars(s, skip_ws(s, k2));
                    let ve = opt_after(s, k2, v);
                    let fe = p_funcs_tail(s, ve);
                    let k3 = end_of(lit(s, skip_ws(s, fe), "inicio"@));
                    node_t(
                        Rule::PROGRAM,
                        i,
                        end_of(p_program(s, i)),
                        seq![t_id(s, skip_ws(s, k))] + opt_tree(v, t_vars(s, skip_ws(s, k2)))
                            + ts_funcs_tail(s, ve) + seq![t_body(s, skip_ws(s, k3))],
                    )
                },
                None => leaf_t(Rule::PROGRAM, i, i),
            },
            None => leaf_t(Rule::PROGRAM, i, i),
        },
        None => leaf_t(Rule::PROGRAM, i, i),
    }
}

/// The tree that the parser of `rule` (not a `TEST_*` rule) builds at `i`.
pub open spec fn tree_at(rule: Rule, s: Seq<char>, i: int) -> Tree {
    match rule {
        Rule::PROGRAM => t_program(s, i),
        Rule::VARS => t_vars(s, i),
        Rule::MULT_VARS => t_mult_vars(s, i),
        Rule::SINGLE_VARS => t_single_vars(s, i),
        Rule::TYPE => t_type(s, i),
        Rule::TYPE_FUNC => t_type_func(s, i),
        Rule::FUNCS => t_funcs(s, i),
        Rule::RETURN_STMT => t_return_stmt(s, i),
        Rule::BODY => t_body(s, i),
        Rule::ESTATUTO => t_estatuto(s, i),
        Rule::BLOCK => t_block(s, i),
        Rule::ASIGNA => t_asigna(s, i),
        Rule::CONDICION => t_condicion(s, i),
        Rule::CICLO => t_ciclo(s, i),
        Rule::CALL => t_call(s, i),
        Rule::IMPRIME => t_imprime(s, i),
        Rule::PRINT_STATEMENT => t_print_statement(s, i),
        Rule::LETRERO => t_letrero(s, i),
        Rule::EXPRESION => t_expresion(s, i),
        Rule::EXPR => t_expr(s, i),
        Rule::TERM => t_term(s, i),
        Rule::FACTOR => t_factor(s, i),
        Rule::SINGLE_EXPR => t_single_expr(s, i),
        Rule::SINGLE_FACTOR => t_single_factor(s, i),
        Rule::ID => t_id(s, i),
        Rule::CTE => t_cte(s, i),
        _ => leaf_t(rule, i, end_of(rule_at(rule, s, i))),
    }
}

/// The tree that `CSVParser::parse` gives for `rule` on input `s`, when `rule`
/// accepts `s`: a whole-input rule's root spans all of `s`; a `TEST_*` rule's root
/// holds the tree of the rule it tests.
pub open spec fn accepted_tree(rule: Rule, s: Seq<char>) -> Tree {
    if rule == Rule::PROGRAM {
        node_t(Rule::PROGRAM, 0, s.len() as int, t_program(s, skip_ws(s, 0)).children)
    } else if is_whole(rule) {
        node_t(rule, 0, s.len() as int, seq![tree_at(inner_rule(rule), s, skip_ws(s, 0))])
    } else {
        tree_at(rule, s, 0)
    }
}

} // verus!
