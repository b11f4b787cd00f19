//! The grammar of the language and a parser for it.
//!
//! Tokens may be separated by whitespace (space, tab, newline, carriage return).
//! A rule that is parsed on its own matches a prefix of the input, starting at its
//! first character; `PROGRAM` and the `TEST_*` rules must cover the whole input,
//! with whitespace allowed around it.
//!
//! ```text
//! PROGRAM         = "programa" ID ";" VARS? FUNCS* "inicio" BODY "fin"
//! VARS            = "vars" MULT_VARS+
//! MULT_VARS       = ID ("," ID)* ":" TYPE ";"
//! SINGLE_VARS     = ID ":" TYPE
//! TYPE            = "entero" | "flotante"
//! TYPE_FUNC       = "nula" | TYPE
//! FUNCS           = TYPE_FUNC ID "(" (SINGLE_VARS ("," SINGLE_VARS)*)? ")"
//!                   "{" VARS? BODY RETURN_STMT? "}" ";"
//! RETURN_STMT     = "return" EXPRESION ";"
//! BODY            = "{" ESTATUTO* "}"
//! ESTATUTO        = ASIGNA | CONDICION | CICLO | IMPRIME | CALL ";" | "[" ESTATUTO* "]"
//! ASIGNA          = ID "=" EXPRESION ";"
//! CONDICION       = "si" "(" EXPRESION ")" BODY ("sino" BODY)? ";"
//! CICLO           = "mientras" "(" EXPRESION ")" "haz" BODY ";"
//! IMPRIME         = "escribe" "(" PRINT_STATEMENT ("," PRINT_STATEMENT)* ")" ";"
//! PRINT_STATEMENT = EXPRESION | LETRERO
//! EXPRESION       = EXPR (REL_OP EXPR)?
//! EXPR            = TERM (ADD_OP TERM)*
//! TERM            = FACTOR (MUL_OP FACTOR)*
//! FACTOR          = SINGLE_EXPR | CALL | SINGLE_FACTOR
//! SINGLE_EXPR     = "(" EXPRESION ")"
//! SINGLE_FACTOR   = SIGN? (ID | CTE)
//! CALL            = ID "(" (EXPRESION ("," EXPRESION)*)? ")"
//! REL_OP = "==" | "!=" | ">" | "<"     ADD_OP = "+" | "-"
//! MUL_OP = "*" | "/"                   SIGN = "+" | "-"
//! ID      = letter (letter | digit | "_")*          (no whitespace inside)
//! CTE     = digit+ ("." digit+)?                    (no whitespace inside)
//! LETRERO = "'" (any character but "'")* "'"
//! ```
//!
//! Alternatives are tried in order and the first that matches is taken; a
//! repetition takes as many items as match.
use vstd::prelude::*;

use crate::parse_tree::{
    Tree,
    accepted_tree,
    end_of,
    leaf_t,
    lemma_trees_push,
    lemma_trees_push2,
    node_t,
    opt_tree,
    t_asigna,
    t_block,
    t_body,
    t_call,
    t_ciclo,
    t_condicion,
    t_cte,
    t_estatuto,
    t_expr,
    t_expresion,
    t_factor,
    t_funcs,
    t_id,
    t_imprime,
    t_letrero,
    t_mult_vars,
    t_paren_expr,
    t_print_statement,
    t_program,
    t_return_stmt,
    t_single_expr,
    t_single_factor,
    t_single_vars,
    t_term,
    t_type,
    t_type_func,
    t_vars,
    tree_at,
    tree_of,
    trees_of,
    ts_arg_tail,
    ts_expr_tail,
    ts_funcs_tail,
    ts_id_tail,
    ts_mult_tail,
    ts_param_tail,
    ts_print_tail,
    ts_rel_rest,
    ts_stmts,
    ts_term_tail,
};

verus! {

pub open spec fn is_ws(c: char) -> bool {
    c == ' ' || c == '\t' || c == '\n' || c == '\r'
}

pub open spec fn is_alpha(c: char) -> bool {
    ('a' <= c && c <= 'z') || ('A' <= c && c <= 'Z')
}

pub open spec fn is_digit(c: char) -> bool {
    '0' <= c && c <= '9'
}

pub open spec fn is_id_char(c: char) -> bool {
    is_alpha(c) || is_digit(c) || c == '_'
}

/// First position at or after `i` that is not whitespace.
pub open spec fn skip_ws(s: Seq<char>, i: int) -> int
    decreases s.len() - i,
{
    if 0 <= i < s.len() && is_ws(s[i]) {
        skip_ws(s, i + 1)
    } else {
        i
    }
}

pub proof fn lemma_skip_ws(s: Seq<char>, i: int)
    requires
        0 <= i <= s.len(),
    ensures
        i <= skip_ws(s, i) <= s.len(),
    decreases s.len() - i,
{
    if 0 <= i < s.len() && is_ws(s[i]) {
        lemma_skip_ws(s, i + 1);
    }
}

/// The character `c` at `i`.
pub open spec fn tok(s: Seq<char>, i: int, c: char) -> Option<int> {
    if 0 <= i < s.len() && s[i] == c {
        Some(i + 1)
    } else {
        None
    }
}

/// The word `w` at `i`.
pub open spec fn lit(s: Seq<char>, i: int, w: Seq<char>) -> Option<int> {
    if 0 <= i && i + w.len() <= s.len() && s.subrange(i, i + w.len()) == w {
        Some(i + w.len())
    } else {
        None
    }
}

/// End of the run of characters of identifiers that starts at `i`.
pub open spec fn id_run_end(s: Seq<char>, i: int) -> int
    decreases s.len() - i,
{
    if 0 <= i < s.len() && is_id_char(s[i]) {
        id_run_end(s, i + 1)
    } else {
        i
    }
}

/// End of the run of digits that starts at `i`.
pub open spec fn digit_run_end(s: Seq<char>, i: int) -> int
    decreases s.len() - i,
{
    if 0 <= i < s.len() && is_digit(s[i]) {
        digit_run_end(s, i + 1)
    } else {
        i
    }
}

/// Position of the first quote at or after `i`.
pub open spec fn quote_at_or_after(s: Seq<char>, i: int) -> Option<int>
    decreases s.len() - i,
{
    if 0 <= i < s.len() {
        if s[i] == '\'' {
            Some(i)
        } else {
            quote_at_or_after(s, i + 1)
        }
    } else {
        None
    }
}

pub open spec fn p_id(s: Seq<char>, i: int) -> Option<int> {
    if 0 <= i < s.len() && is_alpha(s[i]) {
        Some(id_run_end(s, i + 1))
    } else {
        None
    }
}

pub open spec fn p_cte(s: Seq<char>, i: int) -> Option<int> {
    if 0 <= i < s.len() && is_digit(s[i]) {
        let e = digit_run_end(s, i);
        if 0 <= e && e + 1 < s.len() && s[e] == '.' && is_digit(s[e + 1]) {
            Some(digit_run_end(s, e + 1))
        } else {
            Some(e)
        }
    } else {
        None
    }
}

pub open spec fn p_letrero(s: Seq<char>, i: int) -> Option<int> {
    match tok(s, i, '\'') {
        Some(k) => match quote_at_or_after(s, k) {
            Some(q) => Some(q + 1),
            None => None,
        },
        None => None,
    }
}

pub open spec fn p_type(s: Seq<char>, i: int) -> Option<int> {
    match lit(s, i, "entero"@) {
        Some(e) => Some(e),
        None => lit(s, i, "flotante"@),
    }
}

pub open spec fn p_type_func(s: Seq<char>, i: int) -> Option<int> {
    match lit(s, i, "nula"@) {
        Some(e) => Some(e),
        None => p_type(s, i),
    }
}

pub open spec fn p_rel_op(s: Seq<char>, i: int) -> Option<int> {
    match lit(s, i, "=="@) {
        Some(e) => Some(e),
        None => match lit(s, i, "!="@) {
            Some(e) => Some(e),
            None => match tok(s, i, '>') {
                Some(e) => Some(e),
                None => tok(s, i, '<'),
            },
        },
    }
}

/// Each relational operator of the language is read where it stands, and nothing
/// else is: `==` and `!=` as a REL_OP of two characters, `>` and `<` of one.
pub proof fn law_rel_ops(s: Seq<char>, i: int)
    requires
        0 <= i,
    ensures
        i + 2 <= s.len() && s[i] == '=' && s[i + 1] == '=' ==> p_rel_op(s, i) == Some(i + 2),
        i + 2 <= s.len() && s[i] == '!' && s[i + 1] == '=' ==> p_rel_op(s, i) == Some(i + 2),
        i < s.len() && s[i] == '>' ==> p_rel_op(s, i) == Some(i + 1),
        i < s.len() && s[i] == '<' ==> p_rel_op(s, i) == Some(i + 1),
        p_rel_op(s, i) matches Some(e) ==> i < s.len() && (
            (s[i] == '>' || s[i] == '<') && e == i + 1
            || (s[i] == '=' || s[i] == '!') && e == i + 2 && s[i + 1] == '='),
{
    reveal_strlit("==");
    reveal_strlit("!=");
    if i + 2 <= s.len() {
        let w = s.subrange(i, i + 2);
        if s[i] == '=' && s[i + 1] == '=' {
            assert(w =~= "=="@);
        }
        if s[i] == '!' && s[i + 1] == '=' {
            assert(w =~= "!="@);
        }
        assert(w[0] == s[i] && w[1] == s[i + 1]);
    }
}

/// `+` and `-` are read as an ADD_OP (or a sign) of one character, `*` and `/` as a
/// MUL_OP of one character, and no other character is read as either.
pub proof fn law_add_mul_ops(s: Seq<char>, i: int)
    requires
        0 <= i,
    ensures
        p_add_op(s, i) == (if i < s.len() && (s[i] == '+' || s[i] == '-') { Some(i + 1) } else { None::<int> }),
        p_mul_op(s, i) == (if i < s.len() && (s[i] == '*' || s[i] == '/') { Some(i + 1) } else { None::<int> }),
{
}

pub open spec fn p_add_op(s: Seq<char>, i: int) -> Option<int> {
    match tok(s, i, '+') {
        Some(e) => Some(e),
        None => tok(s, i, '-'),
    }
}

pub open spec fn p_mul_op(s: Seq<char>, i: int) -> Option<int> {
    match tok(s, i, '*') {
        Some(e) => Some(e),
        None => tok(s, i, '/'),
    }
}

pub open spec fn p_single_factor(s: Seq<char>, i: int) -> Option<int> {
    let j = match p_add_op(s, i) {
        Some(k) => skip_ws(s, k),
        None => i,
    };
    match p_id(s, j) {
        Some(e) => Some(e),
        None => p_cte(s, j),
    }
}

/// `e` is a position from `i` to the end of the input.
pub open spec fn in_range(s: Seq<char>, i: int, e: int) -> bool {
    i <= e <= s.len()
}

pub open spec fn p_expresion(s: Seq<char>, i: int) -> Option<int>
    decreases s.len() - i, 9int,
{
    if !(0 <= i <= s.len()) {
        None
    } else {
        match p_expr(s, i) {
            Some(e) => if in_range(s, i, e) {
                match p_rel_op(s, skip_ws(s, e)) {
                    Some(k) => if in_range(s, e, k) && k > e {
                        proof {
                            lemma_skip_ws(s, k);
                        }
                        match p_expr(s, skip_ws(s, k)) {
                            Some(e2) => Some(e2),
                            None => Some(e),
                        }
                    } else {
                        None
                    },
                    None => Some(e),
                }
            } else {
                None
            },
            None => None,
        }
    }
}

pub open spec fn p_expr(s: Seq<char>, i: int) -> Option<int>
    decreases s.len() - i, 8int,
{
    if !(0 <= i <= s.len()) {
        None
    } else {
        match p_term(s, i) {
            Some(e) => if in_range(s, i, e) {
                Some(p_expr_tail(s, e))
            } else {
                None
            },
            None => None,
        }
    }
}

pub open spec fn p_expr_tail(s: Seq<char>, e: int) -> int
    decreases s.len() - e, 7int,
{
    if !(0 <= e <= s.len()) {
        e
    } else {
        match p_add_op(s, skip_ws(s, e)) {
            Some(k) => if in_range(s, e, k) && k > e {
                proof {
                    lemma_skip_ws(s, k);
                }
                match p_term(s, skip_ws(s, k)) {
                    Some(e2) => if in_range(s, k, e2) {
                        p_expr_tail(s, e2)
                    } else {
                        e
                    },
                    None => e,
                }
            } else {
                e
            },
            None => e,
        }
    }
}

pub open spec fn p_term(s: Seq<char>, i: int) -> Option<int>
    decreases s.len() - i, 6int,
{
    if !(0 <= i <= s.len()) {
        None
    } else {
        match p_factor(s, i) {
            Some(e) => if in_range(s, i, e) {
                Some(p_term_tail(s, e))
            } else {
                None
            },
            None => None,
        }
    }
}

pub open spec fn p_term_tail(s: Seq<char>, e: int) -> int
    decreases s.len() - e, 5int,
{
    if !(0 <= e <= s.len()) {
        e
    } else {
        match p_mul_op(s, skip_ws(s, e)) {
            Some(k) => if in_range(s, e, k) && k > e {
                proof {
                    lemma_skip_ws(s, k);
                }
                match p_factor(s, skip_ws(s, k)) {
                    Some(e2) => if in_range(s, k, e2) {
                        p_term_tail(s, e2)
                    } else {
                        e
                    },
                    None => e,
                }
            } else {
                e
            },
            None => e,
        }
    }
}

pub open spec fn p_factor(s: Seq<char>, i: int) -> Option<int>
    decreases s.len() - i, 4int,
{
    if !(0 <= i <= s.len()) {
        None
    } else {
        match p_single_expr(s, i) {
            Some(e) => Some(e),
            None => match p_call(s, i) {
                Some(e) => Some(e),
                None => p_single_factor(s, i),
            },
        }
    }
}

pub open spec fn p_single_expr(s: Seq<char>, i: int) -> Option<int>
    decreases s.len() - i, 3int,
{
    if !(0 <= i < s.len()) || s[i] != '(' {
        None
    } else {
        proof {
            lemma_skip_ws(s, i + 1);
        }
        match p_expresion(s, skip_ws(s, i + 1)) {
            Some(e) => tok(s, skip_ws(s, e), ')'),
            None => None,
        }
    }
}

pub open spec fn p_call(s: Seq<char>, i: int) -> Option<int>
    decreases s.len() - i, 3int,
{
    match p_id(s, i) {
        Some(e1) => match tok(s, skip_ws(s, e1), '(') {
            Some(k) => if 0 <= i < k <= s.len() {
                proof {
                    lemma_skip_ws(s, k);
                }
                let args_end = match p_expresion(s, skip_ws(s, k)) {
                    Some(e) => if in_range(s, k, e) {
                        p_arg_tail(s, e)
                    } else {
                        k
                    },
                    None => k,
                };
                tok(s, skip_ws(s, args_end), ')')
            } else {
                None
            },
            None => None,
        },
        None => None,
    }
}

pub open spec fn p_arg_tail(s: Seq<char>, e: int) -> int
    decreases s.len() - e, 2int,
{
    if !(0 <= e <= s.len()) {
        e
    } else {
        match tok(s, skip_ws(s, e), ',') {
            Some(k) => if in_range(s, e, k) && k > e {
                proof {
                    lemma_skip_ws(s, k);
                }
                match p_expresion(s, skip_ws(s, k)) {
                    Some(e2) => if in_range(s, k, e2) {
                        p_arg_tail(s, e2)
                    } else {
                        e
                    },
                    None => e,
                }
            } else {
                e
            },
            None => e,
        }
    }
}

/// The element matched at `j` by a rule that must be followed by the character `c`.
pub open spec fn then_tok(s: Seq<char>, r: Option<int>, c: char) -> Option<int> {
    match r {
        Some(e) => tok(s, skip_ws(s, e), c),
        None => None,
    }
}

pub open spec fn p_asigna(s: Seq<char>, i: int) -> Option<int> {
    match p_id(s, i) {
        Some(e1) => match tok(s, skip_ws(s, e1), '=') {
            Some(k) => then_tok(s, p_expresion(s, skip_ws(s, k)), ';'),
            None => None,
        },
        None => None,
    }
}

pub open spec fn p_print_statement(s: Seq<char>, i: int) -> Option<int> {
    match p_expresion(s, i) {
        Some(e) => Some(e),
        None => p_letrero(s, i),
    }
}

pub open spec fn p_print_tail(s: Seq<char>, e: int) -> int
    decreases s.len() - e,
{
    if !(0 <= e <= s.len()) {
        e
    } else {
        match tok(s, skip_ws(s, e), ',') {
            Some(k) => if in_range(s, e, k) && k > e {
                match p_print_statement(s, skip_ws(s, k)) {
                    Some(e2) => if k <= e2 <= s.len() {
                        p_print_tail(s, e2)
                    } else {
                        e
                    },
                    None => e,
                }
            } else {
                e
            },
            None => e,
        }
    }
}

pub open spec fn p_imprime(s: Seq<char>, i: int) -> Option<int> {
    match lit(s, i, "escribe"@) {
        Some(k1) => match tok(s, skip_ws(s, k1), '(') {
            Some(k) => match p_print_statement(s, skip_ws(s, k)) {
                Some(e) => if in_range(s, k, e) {
                    let e2 = p_print_tail(s, e);
                    match tok(s, skip_ws(s, e2), ')') {
                        Some(e3) => tok(s, skip_ws(s, e3), ';'),
                        None => None,
                    }
                } else {
                    None
                },
                None => None,
            },
            None => None,
        },
        None => None,
    }
}

pub open spec fn p_estatuto(s: Seq<char>, i: int) -> Option<int>
    decreases s.len() - i, 6int,
{
    if !(0 <= i <= s.len()) {
        None
    } else {
        match p_asigna(s, i) {
            Some(e) => Some(e),
            None => match p_condicion(s, i) {
                Some(e) => Some(e),
                None => match p_ciclo(s, i) {
                    Some(e) => Some(e),
                    None => match p_imprime(s, i) {
                        Some(e) => Some(e),
                        None => match then_tok(s, p_call(s, i), ';') {
                            Some(e) => Some(e),
                            None => p_block(s, i),
                        },
                    },
                },
            },
        }
    }
}

pub open spec fn p_block(s: Seq<char>, i: int) -> Option<int>
    decreases s.len() - i, 5int,
{
    if !(0 <= i < s.len()) || s[i] != '[' {
        None
    } else {
        tok(s, skip_ws(s, p_stmts(s, i + 1)), ']')
    }
}

/// End of the statements that follow position `e` (or `e` itself when none does).
pub open spec fn p_stmts(s: Seq<char>, e: int) -> int
    decreases s.len() - e, 7int,
{
    if !(0 <= e <= s.len()) {
        e
    } else {
        proof {
            lemma_skip_ws(s, e);
        }
        match p_estatuto(s, skip_ws(s, e)) {
            Some(e2) => if e < e2 <= s.len() {
                p_stmts(s, e2)
            } else {
                e
            },
            None => e,
        }
    }
}

pub open spec fn p_body(s: Seq<char>, i: int) -> Option<int>
    decreases s.len() - i, 4int,
{
    if !(0 <= i < s.len()) || s[i] != '{' {
        None
    } else {
        tok(s, skip_ws(s, p_stmts(s, i + 1)), '}')
    }
}

/// Position after a `(` EXPRESION `)` that starts at `k` (after the keyword).
pub open spec fn p_paren_expr(s: Seq<char>, k: int) -> Option<int> {
    match tok(s, skip_ws(s, k), '(') {
        Some(k2) => then_tok(s, p_expresion(s, skip_ws(s, k2)), ')'),
        None => None,
    }
}

pub open spec fn p_condicion(s: Seq<char>, i: int) -> Option<int>
    decreases s.len() - i, 5int,
{
    match lit(s, i, "si"@) {
        Some(k) => match p_paren_expr(s, k) {
            Some(e) => if 0 <= i < e <= s.len() {
                proof {
                    lemma_skip_ws(s, e);
                }
                match p_body(s, skip_ws(s, e)) {
                    Some(e2) => if e < e2 <= s.len() {
                        let e3 = match lit(s, skip_ws(s, e2), "sino"@) {
                            Some(k2) => if e2 <= k2 <= s.len() {
                                proof {
                                    lemma_skip_ws(s, k2);
                                }
                                match p_body(s, skip_ws(s, k2)) {
                                    Some(e4) => e4,
                                    None => e2,
                                }
                            } else {
                                e2
                            },
                            None => e2,
                        };
                        tok(s, skip_ws(s, e3), ';')
                    } else {
                        None
                    },
                    None => None,
                }
            } else {
                None
            },
            None => None,
        },
        None => None,
    }
}

pub open spec fn p_ciclo(s: Seq<char>, i: int) -> Option<int>
    decreases s.len() - i, 5int,
{
    match lit(s, i, "mientras"@) {
        Some(k) => match p_paren_expr(s, k) {
            Some(e) => match lit(s, skip_ws(s, e), "haz"@) {
                Some(k2) => if 0 <= i < k2 <= s.len() {
                    proof {
                        lemma_skip_ws(s, k2);
                    }
                    then_tok(s, p_body(s, skip_ws(s, k2)), ';')
                } else {
                    None
                },
                None => None,
            },
            None => None,
        },
        None => None,
    }
}

/// Identifiers after the first one of a list: ("," ID)*.
pub open spec fn p_id_tail(s: Seq<char>, e: int) -> int
    decreases s.len() - e,
{
    if !(0 <= e <= s.len()) {
        e
    } else {
        match tok(s, skip_ws(s, e), ',') {
            Some(k) => match p_id(s, skip_ws(s, k)) {
                Some(e2) => if e < e2 <= s.len() {
                    p_id_tail(s, e2)
                } else {
                    e
                },
                None => e,
            },
            None => e,
        }
    }
}

pub open spec fn p_mult_vars(s: Seq<char>, i: int) -> Option<int> {
    match p_id(s, i) {
        Some(e) => {
            let e1 = p_id_tail(s, e);
            match tok(s, skip_ws(s, e1), ':') {
                Some(k) => then_tok(s, p_type(s, skip_ws(s, k)), ';'),
                None => None,
            }
        },
        None => None,
    }
}

/// Declaration lines after the first one: MULT_VARS*.
pub open spec fn p_mult_tail(s: Seq<char>, e: int) -> int
    decreases s.len() - e,
{
    if !(0 <= e <= s.len()) {
        e
    } else {
        match p_mult_vars(s, skip_ws(s, e)) {
            Some(e2) => if e < e2 <= s.len() {
                p_mult_tail(s, e2)
            } else {
                e
            },
            None => e,
        }
    }
}

pub open spec fn p_vars(s: Seq<char>, i: int) -> Option<int> {
    match lit(s, i, "vars"@) {
        Some(k) => match p_mult_vars(s, skip_ws(s, k)) {
            Some(e) => Some(p_mult_tail(s, e)),
            None => None,
        },
        None => None,
    }
}

pub open spec fn p_single_vars(s: Seq<char>, i: int) -> Option<int> {
    match p_id(s, i) {
        Some(e) => match tok(s, skip_ws(s, e), ':') {
            Some(k) => p_type(s, skip_ws(s, k)),
            None => None,
        },
        None => None,
    }
}

/// Parameters after the first one: ("," SINGLE_VARS)*.
pub open spec fn p_param_tail(s: Seq<char>, e: int) -> int
    decreases s.len() - e,
{
    if !(0 <= e <= s.len()) {
        e
    } else {
        match tok(s, skip_ws(s, e), ',') {
            Some(k) => match p_single_vars(s, skip_ws(s, k)) {
                Some(e2) => if e < e2 <= s.len() {
                    p_param_tail(s, e2)
                } else {
                    e
                },
                None => e,
            },
            None => e,
        }
    }
}

/// End of an optional item that may start after `e`: the item's end, or `e`.
pub open spec fn opt_after(s: Seq<char>, e: int, r: Option<int>) -> int {
    match r {
        Some(e2) => e2,
        None => e,
    }
}

pub open spec fn p_return_stmt(s: Seq<char>, i: int) -> Option<int> {
    match lit(s, i, "return"@) {
        Some(k) => then_tok(s, p_expresion(s, skip_ws(s, k)), ';'),
        None => None,
    }
}

pub open spec fn p_funcs(s: Seq<char>, i: int) -> Option<int> {
    match p_type_func(s, i) {
        Some(e0) => match p_id(s, skip_ws(s, e0)) {
            Some(e1) => match tok(s, skip_ws(s, e1), '(') {
                Some(k) => {
                    let pe = match p_single_vars(s, skip_ws(s, k)) {
                        Some(e2) => p_param_tail(s, e2),
                        None => k,
                    };
                    match tok(s, skip_ws(s, pe), ')') {
                        Some(k2) => match tok(s, skip_ws(s, k2), '{') {
                            Some(k3) => {
                                let ve = opt_after(s, k3, p_vars(s, skip_ws(s, k3)));
                                match p_body(s, skip_ws(s, ve)) {
                                    Some(be) => {
                                        let re = opt_after(s, be, p_return_stmt(s, skip_ws(s, be)));
                                        match tok(s, skip_ws(s, re), '}') {
                                            Some(k4) => tok(s, skip_ws(s, k4), ';'),
                                            None => None,
                                        }
                                    },
                                    None => None,
                                }
                            },
                            None => None,
                        },
                        None => None,
                    }
                },
                None => None,
            },
            None => None,
        },
        None => None,
    }
}

/// Function declarations after position `e`: FUNCS*.
pub open spec fn p_funcs_tail(s: Seq<char>, e: int) -> int
    decreases s.len() - e,
{
    if !(0 <= e <= s.len()) {
        e
    } else {
        match p_funcs(s, skip_ws(s, e)) {
            Some(e2) => if e < e2 <= s.len() {
                p_funcs_tail(s, e2)
            } else {
                e
            },
            None => e,
        }
    }
}

/// A whole program, from its first to its last token.
pub open spec fn p_program(s: Seq<char>, i: int) -> Option<int> {
    match lit(s, i, "programa"@) {
        Some(k) => match p_id(s, skip_ws(s, k)) {
            Some(e1) => match tok(s, skip_ws(s, e1), ';') {
                Some(k2) => {
                    let ve = opt_after(s, k2, p_vars(s, skip_ws(s, k2)));
                    let fe = p_funcs_tail(s, ve);
                    match lit(s, skip_ws(s, fe), "inicio"@) {
                        Some(k3) => match p_body(s, skip_ws(s, k3)) {
                            Some(be) => lit(s, skip_ws(s, be), "fin"@),
                            None => None,
                        },
                        None => None,
                    }
                },
                None => None,
            },
            None => None,
        },
        None => None,
    }
}

/// The rules of the grammar, and the `TEST_*` rules that parse one construct as a
/// whole input.
#[allow(non_camel_case_types)]
#[derive(Clone, Copy, Debug, PartialEq, Eq, Structural)]
pub enum Rule {
    PROGRAM,
    VARS,
    MULT_VARS,
    SINGLE_VARS,
    TYPE,
    TYPE_FUNC,
    FUNCS,
    RETURN_STMT,
    BODY,
    ESTATUTO,
    BLOCK,
    ASIGNA,
    CONDICION,
    CICLO,
    CALL,
    IMPRIME,
    PRINT_STATEMENT,
    LETRERO,
    EXPRESION,
    EXPR,
    TERM,
    FACTOR,
    SINGLE_EXPR,
    SINGLE_FACTOR,
    ID,
    CTE,
    REL_OP,
    ADD_OP,
    MUL_OP,
    SIGN,
    TEST_ESTATUTO,
    TEST_IMPRIME,
    TEST_FUNCS,
    TEST_CICLO,
    TEST_CONDICION,
    TEST_EXPRESION,
}

/// A node of the parse tree: the rule it matched, the span of the input it covers
/// (character positions, end excluded) and the nodes of the rules inside it.
#[derive(Debug)]
pub struct Pair {
    pub rule: Rule,
    pub start: usize,
    pub end: usize,
    pub children: Vec<Pair>,
}

/// End of an EXPRESION whose first EXPR ends at `e`.
pub open spec fn rel_end(s: Seq<char>, e: int) -> int {
    match p_rel_op(s, skip_ws(s, e)) {
        Some(k) => if in_range(s, e, k) && k > e {
            match p_expr(s, skip_ws(s, k)) {
                Some(e2) => e2,
                None => e,
            }
        } else {
            e
        },
        None => e,
    }
}

/// One unfolding of `t_expresion`.
pub proof fn lemma_unfold_t_expresion(s: Seq<char>, i: int)
    requires
        0 <= i <= s.len(),
    ensures
        t_expresion(s, i) == ({
            match p_expr(s, i) {
                Some(e) => if in_range(s, i, e) {
                    node_t(Rule::EXPRESION, i, end_of(p_expresion(s, i)), seq![t_expr(s, i)] + ts_rel_rest(s, e))
                } else {
                    leaf_t(Rule::EXPRESION, i, i)
                },
                None => leaf_t(Rule::EXPRESION, i, i),
            }
        }),
{
    reveal(t_expresion);
    reveal(ts_rel_rest);
    reveal(t_expr);
}

/// One unfolding of `ts_rel_rest`.
pub proof fn lemma_unfold_ts_rel_rest(s: Seq<char>, e: int)
    requires
        0 <= e <= s.len(),
    ensures
        ts_rel_rest(s, e) == ({
            match p_rel_op(s, skip_ws(s, e)) {
                Some(k) => if in_range(s, e, k) && k > e {
                    match p_expr(s, skip_ws(s, k)) {
                        Some(_) => seq![leaf_t(Rule::REL_OP, skip_ws(s, e), k), t_expr(s, skip_ws(s, k))],
                        None => Seq::empty(),
                    }
                } else {
                    Seq::empty()
                },
                None => Seq::empty(),
            }
        }),
{
    reveal(ts_rel_rest);
    reveal(t_expr);
}

/// One unfolding of `t_expr`.
pub proof fn lemma_unfold_t_expr(s: Seq<char>, i: int)
    requires
        0 <= i <= s.len(),
    ensures
        t_expr(s, i) == ({
            match p_term(s, i) {
                Some(e) => if in_range(s, i, e) {
                    node_t(Rule::EXPR, i, end_of(p_expr(s, i)), seq![t_term(s, i)] + ts_expr_tail(s, e))
                } else {
                    leaf_t(Rule::EXPR, i, i)
                },
                None => leaf_t(Rule::EXPR, i, i),
            }
        }),
{
    reveal(t_expr);
    reveal(ts_expr_tail);
    reveal(t_term);
}

/// One unfolding of `ts_expr_tail`.
#[verifier::spinoff_prover]
#[verifier::rlimit(50)]
pub proof fn lemma_unfold_ts_expr_tail(s: Seq<char>, e: int)
    requires
        0 <= e <= s.len(),
    ensures
        ts_expr_tail(s, e) == ({
            match p_add_op(s, skip_ws(s, e)) {
                Some(k) => if in_range(s, e, k) && k > e {
                    match p_term(s, skip_ws(s, k)) {
                        Some(e2) => if in_range(s, k, e2) {
                            seq![leaf_t(Rule::ADD_OP, skip_ws(s, e), k), t_term(s, skip_ws(s, k))]
                                + ts_expr_tail(s, e2)
                        } else {
                            Seq::empty()
                        },
                        None => Seq::empty(),
                    }
                } else {
                    Seq::empty()
                },
                None => Seq::empty(),
            }
        }),
{
    reveal(ts_expr_tail);
    reveal(t_term);
}

/// One unfolding of `t_term`.
pub proof fn lemma_unfold_t_term(s: Seq<char>, i: int)
    requires
        0 <= i <= s.len(),
    ensures
        t_term(s, i) == ({
            match p_factor(s, i) {
                Some(e) => if in_range(s, i, e) {
                    node_t(Rule::TERM, i, end_of(p_term(s, i)), seq![t_factor(s, i)] + ts_term_tail(s, e))
                } else {
                    leaf_t(Rule::TERM, i, i)
                },
                None => leaf_t(Rule::TERM, i, i),
            }
        }),
{
    reveal(t_term);
    reveal(ts_term_tail);
    reveal(t_factor);
}

/// One unfolding of `ts_term_tail`.
#[verifier::spinoff_prover]
#[verifier::rlimit(50)]
pub proof fn lemma_unfold_ts_term_tail(s: Seq<char>, e: int)
    requires
        0 <= e <= s.len(),
    ensures
        ts_term_tail(s, e) == ({
            match p_mul_op(s, skip_ws(s, e)) {
                Some(k) => if in_range(s, e, k) && k > e {
                    match p_factor(s, skip_ws(s, k)) {
                        Some(e2) => if in_range(s, k, e2) {
                            seq![leaf_t(Rule::MUL_OP, skip_ws(s, e), k), t_factor(s, skip_ws(s, k))]
                                + ts_term_tail(s, e2)
                        } else {
                            Seq::empty()
                        },
                        None => Seq::empty(),
                    }
                } else {
                    Seq::empty()
                },
                None => Seq::empty(),
            }
        }),
{
    reveal(ts_term_tail);
    reveal(t_factor);
}

/// One unfolding of `t_factor`.
pub proof fn lemma_unfold_t_factor(s: Seq<char>, i: int)
    requires
        0 <= i <= s.len(),
    ensures
        t_factor(s, i) == ({
            let inner = match p_single_expr(s, i) {
                Some(_) => t_single_expr(s, i),
                None => match p_call(s, i) {
                    Some(_) => t_call(s, i),
                    None => t_single_factor(s, i),
                },
            };
            node_t(Rule::FACTOR, i, end_of(p_factor(s, i)), seq![inner])
        }),
{
    reveal(t_factor);
    reveal(t_single_expr);
    reveal(t_call);
}

/// One unfolding of `t_single_expr`.
pub proof fn lemma_unfold_t_single_expr(s: Seq<char>, i: int)
    requires
        0 <= i < s.len(),
        s[i] == '(',
    ensures
        t_single_expr(s, i) == ({
            node_t(Rule::SINGLE_EXPR, i, end_of(p_single_expr(s, i)), seq![t_expresion(s, skip_ws(s, i + 1))])
        }),
{
    reveal(t_single_expr);
    reveal(t_expresion);
}

/// One unfolding of `t_call`.
pub proof fn lemma_unfold_t_call(s: Seq<char>, i: int)
    ensures
        t_call(s, i) == ({
            match p_id(s, i) {
                Some(e1) => match tok(s, skip_ws(s, e1), '(') {
                    Some(k) => if 0 <= i < k <= s.len() {
                        let args = match p_expresion(s, skip_ws(s, k)) {
                            Some(e) => if in_range(s, k, e) {
                                seq![t_expresion(s, skip_ws(s, k))] + ts_arg_tail(s, e)
                            } else {
                                Seq::empty()
                            },
                            None => Seq::empty(),
                        };
                        node_t(Rule::CALL, i, end_of(p_call(s, i)), seq![t_id(s, i)] + args)
                    } else {
                        leaf_t(Rule::CALL, i, i)
                    },
                    None => leaf_t(Rule::CALL, i, i),
                },
                None => leaf_t(Rule::CALL, i, i),
            }
        }),
{
    reveal(t_call);
    reveal(t_expresion);
    reveal(ts_arg_tail);
}

/// One unfolding of `ts_arg_tail`.
pub proof fn lemma_unfold_ts_arg_tail(s: Seq<char>, e: int)
    requires
        0 <= e <= s.len(),
    ensures
        ts_arg_tail(s, e) == ({
            match tok(s, skip_ws(s, e), ',') {
                Some(k) => if in_range(s, e, k) && k > e {
                    match p_expresion(s, skip_ws(s, k)) {
                        Some(e2) => if in_range(s, k, e2) {
                            seq![t_expresion(s, skip_ws(s, k))] + ts_arg_tail(s, e2)
                        } else {
                            Seq::empty()
                        },
                        None => Seq::empty(),
                    }
                } else {
                    Seq::empty()
                },
                None => Seq::empty(),
            }
        }),
{
    reveal(ts_arg_tail);
    reveal(t_expresion);
}

/// One unfolding of `ts_print_tail`.
pub proof fn lemma_unfold_ts_print_tail(s: Seq<char>, e: int)
    requires
        0 <= e <= s.len(),
    ensures
        ts_print_tail(s, e) == ({
            match tok(s, skip_ws(s, e), ',') {
                Some(k) => if in_range(s, e, k) && k > e {
                    match p_print_statement(s, skip_ws(s, k)) {
                        Some(e2) => if k <= e2 <= s.len() {
                            seq![t_print_statement(s, skip_ws(s, k))] + ts_print_tail(s, e2)
                        } else {
                            Seq::empty()
                        },
                        None => Seq::empty(),
                    }
                } else {
                    Seq::empty()
                },
                None => Seq::empty(),
            }
        }),
{
    reveal(ts_print_tail);
}

/// One unfolding of `t_estatuto`.
pub proof fn lemma_unfold_t_estatuto(s: Seq<char>, i: int)
    requires
        0 <= i <= s.len(),
    ensures
        t_estatuto(s, i) == ({
            let inner = match p_asigna(s, i) {
                Some(_) => t_asigna(s, i),
                None => match p_condicion(s, i) {
                    Some(_) => t_condicion(s, i),
                    None => match p_ciclo(s, i) {
                        Some(_) => t_ciclo(s, i),
                        None => match p_imprime(s, i) {
                            Some(_) => t_imprime(s, i),
                            None => match then_tok(s, p_call(s, i), ';') {
                                Some(_) => t_call(s, i),
                                None => t_block(s, i),
                            },
                        },
                    },
                },
            };
            node_t(Rule::ESTATUTO, i, end_of(p_estatuto(s, i)), seq![inner])
        }),
{
    reveal(t_estatuto);
    reveal(t_block);
    reveal(t_condicion);
    reveal(t_ciclo);
}

/// One unfolding of `t_block`.
pub proof fn lemma_unfold_t_block(s: Seq<char>, i: int)
    requires
        0 <= i < s.len(),
        s[i] == '[',
    ensures
        t_block(s, i) == ({
            node_t(Rule::BLOCK, i, end_of(p_block(s, i)), ts_stmts(s, i + 1))
        }),
{
    reveal(t_block);
    reveal(ts_stmts);
}

/// One unfolding of `ts_stmts`.
pub proof fn lemma_unfold_ts_stmts(s: Seq<char>, e: int)
    requires
        0 <= e <= s.len(),
    ensures
        ts_stmts(s, e) == ({
            match p_estatuto(s, skip_ws(s, e)) {
                Some(e2) => if e < e2 <= s.len() {
                    seq![t_estatuto(s, skip_ws(s, e))] + ts_stmts(s, e2)
                } else {
                    Seq::empty()
                },
                None => Seq::empty(),
            }
        }),
{
    reveal(ts_stmts);
    reveal(t_estatuto);
}

/// One unfolding of `t_body`.
pub proof fn lemma_unfold_t_body(s: Seq<char>, i: int)
    requires
        0 <= i < s.len(),
        s[i] == '{',
    ensures
        t_body(s, i) == ({
            node_t(Rule::BODY, i, end_of(p_body(s, i)), ts_stmts(s, i + 1))
        }),
{
    reveal(t_body);
    reveal(ts_stmts);
}

/// One unfolding of `t_condicion`.
pub proof fn lemma_unfold_t_condicion(s: Seq<char>, i: int)
    ensures
        t_condicion(s, i) == ({
            match lit(s, i, "si"@) {
                Some(k) => match p_paren_expr(s, k) {
                    Some(e) => if 0 <= i < e <= s.len() {
                        match p_body(s, skip_ws(s, e)) {
                            Some(e2) => if e < e2 <= s.len() {
                                let sino = match lit(s, skip_ws(s, e2), "sino"@) {
                                    Some(k2) => if e2 <= k2 <= s.len() {
                                        match p_body(s, skip_ws(s, k2)) {
                                            Some(_) => seq![t_body(s, skip_ws(s, k2))],
                                            None => Seq::empty(),
                                        }
                                    } else {
                                        Seq::empty()
                                    },
                                    None => Seq::empty(),
                                };
                                node_t(
                                    Rule::CONDICION,
                                    i,
                                    end_of(p_condicion(s, i)),
                                    seq![t_paren_expr(s, k), t_body(s, skip_ws(s, e))] + sino,
                                )
                            } else {
                                leaf_t(Rule::CONDICION, i, i)
                            },
                            None => leaf_t(Rule::CONDICION, i, i),
                        }
                    } else {
                        leaf_t(Rule::CONDICION, i, i)
                    },
                    None => leaf_t(Rule::CONDICION, i, i),
                },
                None => leaf_t(Rule::CONDICION, i, i),
            }
        }),
{
    reveal(t_condicion);
    reveal(t_body);
}

/// One unfolding of `t_ciclo`.
pub proof fn lemma_unfold_t_ciclo(s: Seq<char>, i: int)
    ensures
        t_ciclo(s, i) == ({
            match lit(s, i, "mientras"@) {
                Some(k) => match p_paren_expr(s, k) {
                    Some(e) => match lit(s, skip_ws(s, e), "haz"@) {
                        Some(k2) => if 0 <= i < k2 <= s.len() {
                            node_t(
                                Rule::CICLO,
                                i,
                                end_of(p_ciclo(s, i)),
                                seq![t_paren_expr(s, k), t_body(s, skip_ws(s, k2))],
                            )
                        } else {
                            leaf_t(Rule::CICLO, i, i)
                        },
                        None => leaf_t(Rule::CICLO, i, i),
                    },
                    None => leaf_t(Rule::CICLO, i, i),
                },
                None => leaf_t(Rule::CICLO, i, i),
            }
        }),
{
    reveal(t_ciclo);
    reveal(t_body);
}

/// One unfolding of `ts_id_tail`.
pub proof fn lemma_unfold_ts_id_tail(s: Seq<char>, e: int)
    requires
        0 <= e <= s.len(),
    ensures
        ts_id_tail(s, e) == ({
            match tok(s, skip_ws(s, e), ',') {
                Some(k) => match p_id(s, skip_ws(s, k)) {
                    Some(e2) => if e < e2 <= s.len() {
                        seq![t_id(s, skip_ws(s, k))] + ts_id_tail(s, e2)
                    } else {
                        Seq::empty()
                    },
                    None => Seq::empty(),
                },
                None => Seq::empty(),
            }
        }),
{
    reveal(ts_id_tail);
}

/// One unfolding of `ts_mult_tail`.
pub proof fn lemma_unfold_ts_mult_tail(s: Seq<char>, e: int)
    requires
        0 <= e <= s.len(),
    ensures
        ts_mult_tail(s, e) == ({
            match p_mult_vars(s, skip_ws(s, e)) {
                Some(e2) => if e < e2 <= s.len() {
                    seq![t_mult_vars(s, skip_ws(s, e))] + ts_mult_tail(s, e2)
                } else {
                    Seq::empty()
                },
                None => Seq::empty(),
            }
        }),
{
    reveal(ts_mult_tail);
}

/// One unfolding of `ts_param_tail`.
pub proof fn lemma_unfold_ts_param_tail(s: Seq<char>, e: int)
    requires
        0 <= e <= s.len(),
    ensures
        ts_param_tail(s, e) == ({
            match tok(s, skip_ws(s, e), ',') {
                Some(k) => match p_single_vars(s, skip_ws(s, k)) {
                    Some(e2) => if e < e2 <= s.len() {
                        seq![t_single_vars(s, skip_ws(s, k))] + ts_param_tail(s, e2)
                    } else {
                        Seq::empty()
                    },
                    None => Seq::empty(),
                },
                None => Seq::empty(),
            }
        }),
{
    reveal(ts_param_tail);
}

/// One unfolding of `ts_funcs_tail`.
pub proof fn lemma_unfold_ts_funcs_tail(s: Seq<char>, e: int)
    requires
        0 <= e <= s.len(),
    ensures
        ts_funcs_tail(s, e) == ({
            match p_funcs(s, skip_ws(s, e)) {
                Some(e2) => if e < e2 <= s.len() {
                    seq![t_funcs(s, skip_ws(s, e))] + ts_funcs_tail(s, e2)
                } else {
                    Seq::empty()
                },
                None => Seq::empty(),
            }
        }),
{
    reveal(ts_funcs_tail);
}

/// A FUNCS node starts with its type and its name, and each parameter node holds
/// the parameter's name and type.
pub open spec fn funcs_shaped(f: Pair) -> bool {
    &&& f.children@.len() >= 2
    &&& forall|k: int| 2 <= k < f.children@.len() && #[trigger] f.children@[k].rule == Rule::SINGLE_VARS
        ==> f.children@[k].children@.len() >= 2
}

/// A PROGRAM node starts with the program's name and holds no other name; its
/// function nodes are shaped as `funcs_shaped` says.
pub open spec fn program_shaped(p: Pair) -> bool {
    &&& p.children@.len() > 0
    &&& p.children@[0].rule == Rule::ID
    &&& forall|k: int| 1 <= k < p.children@.len() ==> #[trigger] p.children@[k].rule != Rule::ID
    &&& forall|k: int| 1 <= k < p.children@.len() && #[trigger] p.children@[k].rule == Rule::FUNCS
        ==> funcs_shaped(p.children@[k])
}

/// `r` is what a parser of `rule` gives at `i` when the grammar gives `o`.
pub open spec fn parsed(r: Option<(usize, Pair)>, o: Option<int>, rule: Rule, i: usize, len: nat) -> bool {
    match r {
        Some((e, p)) => o == Some(e as int) && i <= e <= len && p.rule == rule && p.start == i
            && p.end == e,
        None => o is None,
    }
}

/// `r` is the exec form of the position `o`.
pub open spec fn same_pos(r: Option<usize>, o: Option<int>) -> bool {
    match r {
        Some(e) => o == Some(e as int),
        None => o is None,
    }
}

fn leaf(rule: Rule, start: usize, end: usize) -> (p: Pair)
    ensures
        p.rule == rule,
        p.start == start,
        p.end == end,
        tree_of(p) == leaf_t(rule, start as int, end as int),
{
    let p = Pair { rule, start, end, children: Vec::new() };
    assert(trees_of(p.children@) =~= Seq::<Tree>::empty());
    p
}

fn node(rule: Rule, start: usize, end: usize, children: Vec<Pair>) -> (p: Pair)
    ensures
        p.rule == rule,
        p.start == start,
        p.end == end,
        p.children == children,
        tree_of(p) == node_t(rule, start as int, end as int, trees_of(children@)),
{
    Pair { rule, start, end, children }
}

/// One node in a new list.
fn one(p: Pair) -> (v: Vec<Pair>)
    ensures
        v@ == seq![p],
        trees_of(v@) == seq![tree_of(p)],
{
    let mut v = Vec::new();
    v.push(p);
    proof {
        lemma_trees_push(Seq::empty(), p);
        assert(Seq::<Pair>::empty().push(p) =~= seq![p]);
        assert(trees_of(Seq::<Pair>::empty()) =~= Seq::<Tree>::empty());
    }
    v
}

fn skip_ws_x(s: &Vec<char>, i: usize) -> (j: usize)
    requires
        i <= s@.len(),
    ensures
        j == skip_ws(s@, i as int),
        i <= j <= s@.len(),
{
    let mut j = i;
    while j < s.len() && (s[j] == ' ' || s[j] == '\t' || s[j] == '\n' || s[j] == '\r')
        invariant
            i <= j <= s@.len(),
            skip_ws(s@, j as int) == skip_ws(s@, i as int),
        decreases s@.len() - j,
    {
        j = j + 1;
    }
    j
}

fn tok_x(s: &Vec<char>, i: usize, c: char) -> (r: Option<usize>)
    requires
        i <= s@.len(),
    ensures
        same_pos(r, tok(s@, i as int, c)),
        r matches Some(e) ==> e == i + 1 && e <= s@.len(),
{
    if i < s.len() && s[i] == c {
        Some(i + 1)
    } else {
        None
    }
}

fn lit_x(s: &Vec<char>, i: usize, w: &str) -> (r: Option<usize>)
    requires
        i <= s@.len(),
    ensures
        same_pos(r, lit(s@, i as int, w@)),
        r matches Some(e) ==> i <= e <= s@.len(),
{
    let n = w.unicode_len();
    let len = s.len();
    if n > len - i {
        return None;
    }
    let mut k: usize = 0;
    while k < n
        invariant
            n == w@.len(),
            len == s@.len(),
            i + n <= len,
            k <= n,
            forall|m: int| 0 <= m < k ==> s@[i + m] == w@[m],
        decreases n - k,
    {
        if s[i + k] != w.get_char(k) {
            assert(s@.subrange(i as int, i + n)[k as int] != w@[k as int]);
            return None;
        }
        k = k + 1;
    }
    assert(s@.subrange(i as int, i + n) =~= w@);
    Some(i + n)
}

fn is_alpha_x(c: char) -> (b: bool)
    ensures
        b == is_alpha(c),
{
    ('a' <= c && c <= 'z') || ('A' <= c && c <= 'Z')
}

fn is_digit_x(c: char) -> (b: bool)
    ensures
        b == is_digit(c),
{
    '0' <= c && c <= '9'
}

fn id_run_end_x(s: &Vec<char>, i: usize) -> (j: usize)
    requires
        i <= s@.len(),
    ensures
        j == id_run_end(s@, i as int),
        i <= j <= s@.len(),
{
    let mut j = i;
    while j < s.len() && (is_alpha_x(s[j]) || is_digit_x(s[j]) || s[j] == '_')
        invariant
            i <= j <= s@.len(),
            id_run_end(s@, j as int) == id_run_end(s@, i as int),
        decreases s@.len() - j,
    {
        j = j + 1;
    }
    j
}

fn digit_run_end_x(s: &Vec<char>, i: usize) -> (j: usize)
    requires
        i <= s@.len(),
    ensures
        j == digit_run_end(s@, i as int),
        i <= j <= s@.len(),
{
    let mut j = i;
    while j < s.len() && is_digit_x(s[j])
        invariant
            i <= j <= s@.len(),
            digit_run_end(s@, j as int) == digit_run_end(s@, i as int),
        decreases s@.len() - j,
    {
        j = j + 1;
    }
    j
}

fn parse_id(s: &Vec<char>, i: usize) -> (r: Option<(usize, Pair)>)
    requires
        i <= s@.len(),
    ensures
        r matches Some((_, p)) ==> tree_of(p) == t_id(s@, i as int),
        parsed(r, p_id(s@, i as int), Rule::ID, i, s@.len()),
        r matches Some((e, _)) ==> e > i,
{
    proof {
        reveal(t_id);
    }
    if i < s.len() && is_alpha_x(s[i]) {
        let e = id_run_end_x(s, i + 1);
        Some((e, leaf(Rule::ID, i, e)))
    } else {
        None
    }
}

fn parse_cte(s: &Vec<char>, i: usize) -> (r: Option<(usize, Pair)>)
    requires
        i <= s@.len(),
    ensures
        r matches Some((_, p)) ==> tree_of(p) == t_cte(s@, i as int),
        parsed(r, p_cte(s@, i as int), Rule::CTE, i, s@.len()),
        r matches Some((e, _)) ==> e > i,
{
    proof {
        reveal(t_cte);
    }
    if i < s.len() && is_digit_x(s[i]) {
        let e = digit_run_end_x(s, i + 1);
        if e < s.len() && s[e] == '.' && e + 1 < s.len() && is_digit_x(s[e + 1]) {
            let e2 = digit_run_end_x(s, e + 1);
            Some((e2, leaf(Rule::CTE, i, e2)))
        } else {
            Some((e, leaf(Rule::CTE, i, e)))
        }
    } else {
        None
    }
}

fn parse_letrero(s: &Vec<char>, i: usize) -> (r: Option<(usize, Pair)>)
    requires
        i <= s@.len(),
    ensures
        r matches Some((_, p)) ==> tree_of(p) == t_letrero(s@, i as int),
        parsed(r, p_letrero(s@, i as int), Rule::LETRERO, i, s@.len()),
        r matches Some((e, _)) ==> e > i,
{
    proof {
        reveal(t_letrero);
    }
    if !(i < s.len() && s[i] == '\'') {
        return None;
    }
    let mut j = i + 1;
    while j < s.len() && s[j] != '\''
        invariant
            i < j <= s@.len(),
            quote_at_or_after(s@, j as int) == quote_at_or_after(s@, i + 1),
        decreases s@.len() - j,
    {
        j = j + 1;
    }
    if j < s.len() {
        Some((j + 1, leaf(Rule::LETRERO, i, j + 1)))
    } else {
        None
    }
}

fn parse_type(s: &Vec<char>, i: usize) -> (r: Option<(usize, Pair)>)
    requires
        i <= s@.len(),
    ensures
        r matches Some((_, p)) ==> tree_of(p) == t_type(s@, i as int),
        parsed(r, p_type(s@, i as int), Rule::TYPE, i, s@.len()),
{
    proof {
        reveal(t_type);
    }
    match lit_x(s, i, "entero") {
        Some(e) => Some((e, leaf(Rule::TYPE, i, e))),
        None => match lit_x(s, i, "flotante") {
            Some(e) => Some((e, leaf(Rule::TYPE, i, e))),
            None => None,
        },
    }
}

fn parse_type_func(s: &Vec<char>, i: usize) -> (r: Option<(usize, Pair)>)
    requires
        i <= s@.len(),
    ensures
        r matches Some((_, p)) ==> tree_of(p) == t_type_func(s@, i as int),
        parsed(r, p_type_func(s@, i as int), Rule::TYPE_FUNC, i, s@.len()),
{
    proof {
        reveal(t_type_func);
    }
    match lit_x(s, i, "nula") {
        Some(e) => Some((e, leaf(Rule::TYPE_FUNC, i, e))),
        None => match parse_type(s, i) {
            Some((e, p)) => Some((e, node(Rule::TYPE_FUNC, i, e, one(p)))),
            None => None,
        },
    }
}

fn parse_rel_op(s: &Vec<char>, i: usize) -> (r: Option<(usize, Pair)>)
    requires
        i <= s@.len(),
    ensures
        r matches Some((e, p)) ==> tree_of(p) == leaf_t(Rule::REL_OP, i as int, e as int),
        parsed(r, p_rel_op(s@, i as int), Rule::REL_OP, i, s@.len()),
        r matches Some((e, _)) ==> e > i,
{
    proof {
        reveal_strlit("==");
        reveal_strlit("!=");
    }
    let e = match lit_x(s, i, "==") {
        Some(e) => e,
        None => match lit_x(s, i, "!=") {
            Some(e) => e,
            None => match tok_x(s, i, '>') {
                Some(e) => e,
                None => match tok_x(s, i, '<') {
                    Some(e) => e,
                    None => {
                        return None;
                    },
                },
            },
        },
    };
    Some((e, leaf(Rule::REL_OP, i, e)))
}

fn parse_two(s: &Vec<char>, i: usize, a: char, b: char, rule: Rule) -> (r: Option<(usize, Pair)>)
    requires
        i <= s@.len(),
    ensures
        r matches Some((e, p)) ==> tree_of(p) == leaf_t(rule, i as int, e as int),
        parsed(
            r,
            match tok(s@, i as int, a) {
                Some(e) => Some(e),
                None => tok(s@, i as int, b),
            },
            rule,
            i,
            s@.len(),
        ),
        r matches Some((e, _)) ==> e == i + 1,
{
    match tok_x(s, i, a) {
        Some(e) => Some((e, leaf(rule, i, e))),
        None => match tok_x(s, i, b) {
            Some(e) => Some((e, leaf(rule, i, e))),
            None => None,
        },
    }
}

fn parse_single_factor(s: &Vec<char>, i: usize) -> (r: Option<(usize, Pair)>)
    requires
        i <= s@.len(),
    ensures
        r matches Some((_, p)) ==> tree_of(p) == t_single_factor(s@, i as int),
        parsed(r, p_single_factor(s@, i as int), Rule::SINGLE_FACTOR, i, s@.len()),
        r matches Some((e, _)) ==> e > i,
{
    proof {
        reveal(t_single_factor);
    }
    let mut children: Vec<Pair> = Vec::new();
    let j = match parse_two(s, i, '+', '-', Rule::SIGN) {
        Some((k, p)) => {
            children.push(p);
            skip_ws_x(s, k)
        },
        None => i,
    };
    proof {
        assert(trees_of(Seq::<Pair>::empty()) =~= Seq::<Tree>::empty());
        if children@.len() > 0 {
            lemma_trees_push(Seq::empty(), children@[0]);
            assert(Seq::<Pair>::empty().push(children@[0]) =~= children@);
        } else {
            assert(children@ =~= Seq::<Pair>::empty());
        }
    }
    let ghost before = children@;
    let inner = match parse_id(s, j) {
        Some(x) => x,
        None => match parse_cte(s, j) {
            Some(x) => x,
            None => {
                return None;
            },
        },
    };
    let (e, p) = inner;
    children.push(p);
    proof {
        lemma_trees_push(before, p);
    }
    Some((e, node(Rule::SINGLE_FACTOR, i, e, children)))
}

fn parse_expresion(s: &Vec<char>, i: usize) -> (r: Option<(usize, Pair)>)
    requires
        i <= s@.len(),
    ensures
        r matches Some((_, p)) ==> tree_of(p) == t_expresion(s@, i as int),
        parsed(r, p_expresion(s@, i as int), Rule::EXPRESION, i, s@.len()),
        r matches Some((e, _)) ==> e > i,
    decreases s@.len() - i, 9int,
{
    proof {
        lemma_unfold_t_expresion(s@, i as int);
    }
    let (e, p) = match parse_expr(s, i) {
        Some(x) => x,
        None => {
            return None;
        },
    };
    let mut children = one(p);
    let r = rel_rest(s, e, &mut children);
    Some((r, node(Rule::EXPRESION, i, r, children)))
}

/// The relational operator and second EXPR of an EXPRESION whose first EXPR ends at
/// `e`, added to `children` when they are there.
fn rel_rest(s: &Vec<char>, e: usize, children: &mut Vec<Pair>) -> (r: usize)
    requires
        e <= s@.len(),
    ensures
        trees_of(final(children)@) == trees_of(old(children)@) + ts_rel_rest(s@, e as int),
        r == rel_end(s@, e as int),
        e <= r <= s@.len(),
        p_rel_op(s@, skip_ws(s@, e as int)) matches Some(k) ==> e < k <= s@.len(),
    decreases s@.len() - e, 8int,
{
    proof {
        lemma_unfold_ts_rel_rest(s@, e as int);
    }
    let j = skip_ws_x(s, e);
    match parse_rel_op(s, j) {
        None => {
            assert(trees_of(children@) + Seq::<Tree>::empty() =~= trees_of(children@));
            e
        },
        Some((k, op)) => {
            let j2 = skip_ws_x(s, k);
            proof {
                lemma_skip_ws(s@, k as int);
            }
            match parse_expr(s, j2) {
                Some((e2, p2)) => {
                    let ghost before = children@;
                    children.push(op);
                    children.push(p2);
                    proof {
                        lemma_trees_push2(before, op, p2);
                    }
                    e2
                },
                None => {
                    assert(trees_of(children@) + Seq::<Tree>::empty() =~= trees_of(children@));
                    e
                },
            }
        },
    }
}

fn parse_expr(s: &Vec<char>, i: usize) -> (r: Option<(usize, Pair)>)
    requires
        i <= s@.len(),
    ensures
        r matches Some((_, p)) ==> tree_of(p) == t_expr(s@, i as int),
        parsed(r, p_expr(s@, i as int), Rule::EXPR, i, s@.len()),
        r matches Some((e, _)) ==> e > i,
    decreases s@.len() - i, 8int,
{
    proof {
        lemma_unfold_t_expr(s@, i as int);
    }
    let (e, p) = match parse_term(s, i) {
        Some(x) => x,
        None => {
            return None;
        },
    };
    let mut children = one(p);
    let e2 = expr_tail(s, e, &mut children);
    Some((e2, node(Rule::EXPR, i, e2, children)))
}
fn expr_tail(s: &Vec<char>, e: usize, children: &mut Vec<Pair>) -> (r: usize)
    requires
        e <= s@.len(),
    ensures
        trees_of(final(children)@) == trees_of(old(children)@) + ts_expr_tail(s@, e as int),
        r == p_expr_tail(s@, e as int),
        e <= r <= s@.len(),
    decreases s@.len() - e, 7int,
{
    proof {
        lemma_unfold_ts_expr_tail(s@, e as int);
    }
    let j = skip_ws_x(s, e);
    match parse_two(s, j, '+', '-', Rule::ADD_OP) {
        None => {
            assert(trees_of(children@) + Seq::<Tree>::empty() =~= trees_of(children@));
            e
        },
        Some((k, op)) => {
            let j2 = skip_ws_x(s, k);
            proof {
                lemma_skip_ws(s@, k as int);
            }
            match parse_term(s, j2) {
                None => {
                    assert(trees_of(children@) + Seq::<Tree>::empty() =~= trees_of(children@));
                    e
                },
                Some((e2, p)) => {
                    let ghost before = children@;
                    children.push(op);
                    children.push(p);
                    proof {
                        lemma_trees_push2(before, op, p);
                    }
                    let r = expr_tail(s, e2, children);
                    proof {
                        assert(trees_of(before) + seq![tree_of(op), tree_of(p)] + ts_expr_tail(s@, e2 as int)
                            =~= trees_of(before) + (seq![tree_of(op), tree_of(p)] + ts_expr_tail(s@, e2 as int)));
                    }
                    r
                },
            }
        },
    }
}

fn parse_term(s: &Vec<char>, i: usize) -> (r: Option<(usize, Pair)>)
    requires
        i <= s@.len(),
    ensures
        r matches Some((_, p)) ==> tree_of(p) == t_term(s@, i as int),
        parsed(r, p_term(s@, i as int), Rule::TERM, i, s@.len()),
        r matches Some((e, _)) ==> e > i,
    decreases s@.len() - i, 6int,
{
    proof {
        lemma_unfold_t_term(s@, i as int);
    }
    let (e, p) = match parse_factor(s, i) {
        Some(x) => x,
        None => {
            return None;
        },
    };
    let mut children = one(p);
    let e2 = term_tail(s, e, &mut children);
    Some((e2, node(Rule::TERM, i, e2, children)))
}
fn term_tail(s: &Vec<char>, e: usize, children: &mut Vec<Pair>) -> (r: usize)
    requires
        e <= s@.len(),
    ensures
        trees_of(final(children)@) == trees_of(old(children)@) + ts_term_tail(s@, e as int),
        r == p_term_tail(s@, e as int),
        e <= r <= s@.len(),
    decreases s@.len() - e, 5int,
{
    proof {
        lemma_unfold_ts_term_tail(s@, e as int);
    }
    let j = skip_ws_x(s, e);
    match parse_two(s, j, '*', '/', Rule::MUL_OP) {
        None => {
            assert(trees_of(children@) + Seq::<Tree>::empty() =~= trees_of(children@));
            e
        },
        Some((k, op)) => {
            let j2 = skip_ws_x(s, k);
            proof {
                lemma_skip_ws(s@, k as int);
            }
            match parse_factor(s, j2) {
                None => {
                    assert(trees_of(children@) + Seq::<Tree>::empty() =~= trees_of(children@));
                    e
                },
                Some((e2, p)) => {
                    let ghost before = children@;
                    children.push(op);
                    children.push(p);
                    proof {
                        lemma_trees_push2(before, op, p);
                    }
                    let r = term_tail(s, e2, children);
                    proof {
                        assert(trees_of(before) + seq![tree_of(op), tree_of(p)] + ts_term_tail(s@, e2 as int)
                            =~= trees_of(before) + (seq![tree_of(op), tree_of(p)] + ts_term_tail(s@, e2 as int)));
                    }
                    r
                },
            }
        },
    }
}

fn parse_factor(s: &Vec<char>, i: usize) -> (r: Option<(usize, Pair)>)
    requires
        i <= s@.len(),
    ensures
        r matches Some((_, p)) ==> tree_of(p) == t_factor(s@, i as int),
        parsed(r, p_factor(s@, i as int), Rule::FACTOR, i, s@.len()),
        r matches Some((e, _)) ==> e > i,
    decreases s@.len() - i, 4int,
{
    proof {
        lemma_unfold_t_factor(s@, i as int);
    }
    let inner = match parse_single_expr(s, i) {
        Some(x) => Some(x),
        None => match parse_call(s, i) {
            Some(x) => Some(x),
            None => parse_single_factor(s, i),
        },
    };
    match inner {
        Some((e, p)) => Some((e, node(Rule::FACTOR, i, e, one(p)))),
        None => None,
    }
}

fn parse_single_expr(s: &Vec<char>, i: usize) -> (r: Option<(usize, Pair)>)
    requires
        i <= s@.len(),
    ensures
        r matches Some((_, p)) ==> tree_of(p) == t_single_expr(s@, i as int),
        parsed(r, p_single_expr(s@, i as int), Rule::SINGLE_EXPR, i, s@.len()),
        r matches Some((e, _)) ==> e > i,
    decreases s@.len() - i, 3int,
{
    if !(i < s.len() && s[i] == '(') {
        return None;
    }
    proof {
        lemma_unfold_t_single_expr(s@, i as int);
    }
    let j = skip_ws_x(s, i + 1);
    match parse_expresion(s, j) {
        None => None,
        Some((e, p)) => {
            let j2 = skip_ws_x(s, e);
            match tok_x(s, j2, ')') {
                Some(e2) => Some((e2, node(Rule::SINGLE_EXPR, i, e2, one(p)))),
                None => None,
            }
        },
    }
}

fn parse_call(s: &Vec<char>, i: usize) -> (r: Option<(usize, Pair)>)
    requires
        i <= s@.len(),
    ensures
        r matches Some((_, p)) ==> tree_of(p) == t_call(s@, i as int),
        parsed(r, p_call(s@, i as int), Rule::CALL, i, s@.len()),
        r matches Some((e, _)) ==> e > i,
    decreases s@.len() - i, 3int,
{
    proof {
        lemma_unfold_t_call(s@, i as int);
    }
    let (e1, id) = match parse_id(s, i) {
        Some(x) => x,
        None => {
            return None;
        },
    };
    let mut children = one(id);
    let j = skip_ws_x(s, e1);
    let k = match tok_x(s, j, '(') {
        Some(k) => k,
        None => {
            return None;
        },
    };
    let j2 = skip_ws_x(s, k);
    proof {
        lemma_skip_ws(s@, k as int);
    }
    let args_end = match parse_expresion(s, j2) {
        Some((e, p)) => {
            let ghost before = children@;
            children.push(p);
            proof {
                lemma_trees_push(before, p);
            }
            let r = arg_tail(s, e, &mut children);
            proof {
                assert(seq![tree_of(id)].push(tree_of(p)) + ts_arg_tail(s@, e as int) =~= seq![tree_of(id)] + (seq![
                    tree_of(p),
                ] + ts_arg_tail(s@, e as int)));
            }
            r
        },
        None => {
            assert(seq![tree_of(id)] + Seq::<Tree>::empty() =~= seq![tree_of(id)]);
            k
        },
    };
    let j3 = skip_ws_x(s, args_end);
    match tok_x(s, j3, ')') {
        Some(e2) => Some((e2, node(Rule::CALL, i, e2, children))),
        None => None,
    }
}

fn arg_tail(s: &Vec<char>, e: usize, children: &mut Vec<Pair>) -> (r: usize)
    requires
        e <= s@.len(),
    ensures
        trees_of(final(children)@) == trees_of(old(children)@) + ts_arg_tail(s@, e as int),
        r == p_arg_tail(s@, e as int),
        e <= r <= s@.len(),
    decreases s@.len() - e, 2int,
{
    proof {
        lemma_unfold_ts_arg_tail(s@, e as int);
    }
    let j = skip_ws_x(s, e);
    match tok_x(s, j, ',') {
        None => {
            assert(trees_of(children@) + Seq::<Tree>::empty() =~= trees_of(children@));
            e
        },
        Some(k) => {
            let j2 = skip_ws_x(s, k);
            proof {
                lemma_skip_ws(s@, k as int);
            }
            match parse_expresion(s, j2) {
                None => {
                    assert(trees_of(children@) + Seq::<Tree>::empty() =~= trees_of(children@));
                    e
                },
                Some((e2, p)) => {
                    let ghost before = children@;
                    children.push(p);
                    proof {
                        lemma_trees_push(before, p);
                    }
                    let r = arg_tail(s, e2, children);
                    proof {
                        assert(trees_of(before).push(tree_of(p)) + ts_arg_tail(s@, e2 as int) =~= trees_of(before) + (
                        seq![tree_of(p)] + ts_arg_tail(s@, e2 as int)));
                    }
                    r
                },
            }
        },
    }
}

/// The element ending at `e`, followed by the character `c`.
fn then_tok_x(s: &Vec<char>, e: usize, c: char) -> (r: Option<usize>)
    requires
        e <= s@.len(),
    ensures
        same_pos(r, tok(s@, skip_ws(s@, e as int), c)),
        r matches Some(k) ==> e < k <= s@.len(),
{
    let j = skip_ws_x(s, e);
    tok_x(s, j, c)
}

fn parse_asigna(s: &Vec<char>, i: usize) -> (r: Option<(usize, Pair)>)
    requires
        i <= s@.len(),
    ensures
        r matches Some((_, p)) ==> tree_of(p) == t_asigna(s@, i as int),
        parsed(r, p_asigna(s@, i as int), Rule::ASIGNA, i, s@.len()),
        r matches Some((e, _)) ==> e > i,
{
    proof {
        reveal(t_asigna);
    }
    let (e1, id) = match parse_id(s, i) {
        Some(x) => x,
        None => {
            return None;
        },
    };
    let mut children = one(id);
    let k = match then_tok_x(s, e1, '=') {
        Some(k) => k,
        None => {
            return None;
        },
    };
    let j = skip_ws_x(s, k);
    let (e2, ex) = match parse_expresion(s, j) {
        Some(x) => x,
        None => {
            return None;
        },
    };
    children.push(ex);
    proof {
        lemma_trees_push(seq![id], ex);
        assert(seq![tree_of(id)].push(tree_of(ex)) =~= seq![tree_of(id), tree_of(ex)]);
    }
    match then_tok_x(s, e2, ';') {
        Some(e3) => Some((e3, node(Rule::ASIGNA, i, e3, children))),
        None => None,
    }
}

/// Concatenating after a push is pushing onto the front of what follows.
proof fn lemma_push_then(a: Seq<Tree>, t: Tree, b: Seq<Tree>)
    ensures
        a.push(t) + b == a + (seq![t] + b),
{
    assert(a.push(t) + b =~= a + (seq![t] + b));
}

/// Adding nothing leaves the trees as they are.
proof fn lemma_add_none(a: Seq<Tree>)
    ensures
        a + Seq::<Tree>::empty() == a,
        Seq::<Tree>::empty() + a == a,
{
    assert(a + Seq::<Tree>::empty() =~= a);
    assert(Seq::<Tree>::empty() + a =~= a);
}

fn parse_print_statement(s: &Vec<char>, i: usize) -> (r: Option<(usize, Pair)>)
    requires
        i <= s@.len(),
    ensures
        r matches Some((_, p)) ==> tree_of(p) == t_print_statement(s@, i as int),
        parsed(r, p_print_statement(s@, i as int), Rule::PRINT_STATEMENT, i, s@.len()),
        r matches Some((e, _)) ==> e > i,
{
    proof {
        reveal(t_print_statement);
    }
    let inner = match parse_expresion(s, i) {
        Some(x) => Some(x),
        None => parse_letrero(s, i),
    };
    match inner {
        Some((e, p)) => Some((e, node(Rule::PRINT_STATEMENT, i, e, one(p)))),
        None => None,
    }
}

fn print_tail(s: &Vec<char>, e: usize, children: &mut Vec<Pair>) -> (r: usize)
    requires
        e <= s@.len(),
    ensures
        trees_of(final(children)@) == trees_of(old(children)@) + ts_print_tail(s@, e as int),
        r == p_print_tail(s@, e as int),
        e <= r <= s@.len(),
    decreases s@.len() - e,
{
    proof {
        lemma_unfold_ts_print_tail(s@, e as int);
    }
    proof {
        lemma_add_none(trees_of(children@));
    }
    match then_tok_x(s, e, ',') {
        None => e,
        Some(k) => {
            let j = skip_ws_x(s, k);
            match parse_print_statement(s, j) {
                None => e,
                Some((e2, p)) => {
                    let ghost before = children@;
                    children.push(p);
                    proof {
                        lemma_trees_push(before, p);
                    }
                    let r = print_tail(s, e2, children);
                    proof {
                        lemma_push_then(trees_of(before), tree_of(p), ts_print_tail(s@, e2 as int));
                    }
                    r
                },
            }
        },
    }
}

fn parse_imprime(s: &Vec<char>, i: usize) -> (r: Option<(usize, Pair)>)
    requires
        i <= s@.len(),
    ensures
        r matches Some((_, p)) ==> tree_of(p) == t_imprime(s@, i as int),
        parsed(r, p_imprime(s@, i as int), Rule::IMPRIME, i, s@.len()),
        r matches Some((e, _)) ==> e > i,
{
    proof {
        reveal(t_imprime);
    }
    let k1 = match lit_x(s, i, "escribe") {
        Some(k) => k,
        None => {
            return None;
        },
    };
    let k = match then_tok_x(s, k1, '(') {
        Some(k) => k,
        None => {
            return None;
        },
    };
    let j = skip_ws_x(s, k);
    let (e, p) = match parse_print_statement(s, j) {
        Some(x) => x,
        None => {
            return None;
        },
    };
    let mut children = one(p);
    let e2 = print_tail(s, e, &mut children);
    let e3 = match then_tok_x(s, e2, ')') {
        Some(e3) => e3,
        None => {
            return None;
        },
    };
    match then_tok_x(s, e3, ';') {
        Some(e4) => Some((e4, node(Rule::IMPRIME, i, e4, children))),
        None => None,
    }
}

fn parse_estatuto(s: &Vec<char>, i: usize) -> (r: Option<(usize, Pair)>)
    requires
        i <= s@.len(),
    ensures
        r matches Some((_, p)) ==> tree_of(p) == t_estatuto(s@, i as int),
        parsed(r, p_estatuto(s@, i as int), Rule::ESTATUTO, i, s@.len()),
        r matches Some((e, _)) ==> e > i,
    decreases s@.len() - i, 6int,
{
    proof {
        lemma_unfold_t_estatuto(s@, i as int);
    }
    let inner = match parse_asigna(s, i) {
        Some(x) => Some(x),
        None => match parse_condicion(s, i) {
            Some(x) => Some(x),
            None => match parse_ciclo(s, i) {
                Some(x) => Some(x),
                None => match parse_imprime(s, i) {
                    Some(x) => Some(x),
                    None => {
                        let call = match parse_call(s, i) {
                            Some((e, p)) => match then_tok_x(s, e, ';') {
                                Some(e2) => Some((e2, p)),
                                None => None,
                            },
                            None => None,
                        };
                        match call {
                            Some(x) => Some(x),
                            None => parse_block(s, i),
                        }
                    },
                },
            },
        },
    };
    match inner {
        Some((e, p)) => Some((e, node(Rule::ESTATUTO, i, e, one(p)))),
        None => None,
    }
}

fn parse_block(s: &Vec<char>, i: usize) -> (r: Option<(usize, Pair)>)
    requires
        i <= s@.len(),
    ensures
        r matches Some((_, p)) ==> tree_of(p) == t_block(s@, i as int),
        parsed(r, p_block(s@, i as int), Rule::BLOCK, i, s@.len()),
        r matches Some((e, _)) ==> e > i,
    decreases s@.len() - i, 5int,
{
    if !(i < s.len() && s[i] == '[') {
        return None;
    }
    proof {
        lemma_unfold_t_block(s@, i as int);
    }
    let mut children = Vec::new();
    let e = parse_stmts(s, i + 1, &mut children);
    proof {
        lemma_add_none(ts_stmts(s@, i + 1));
    }
    match then_tok_x(s, e, ']') {
        Some(e2) => Some((e2, node(Rule::BLOCK, i, e2, children))),
        None => None,
    }
}

fn parse_stmts(s: &Vec<char>, e: usize, children: &mut Vec<Pair>) -> (r: usize)
    requires
        e <= s@.len(),
    ensures
        trees_of(final(children)@) == trees_of(old(children)@) + ts_stmts(s@, e as int),
        r == p_stmts(s@, e as int),
        e <= r <= s@.len(),
    decreases s@.len() - e, 7int,
{
    proof {
        lemma_unfold_ts_stmts(s@, e as int);
    }
    proof {
        lemma_add_none(trees_of(children@));
    }
    let j = skip_ws_x(s, e);
    match parse_estatuto(s, j) {
        None => e,
        Some((e2, p)) => {
            let ghost before = children@;
            children.push(p);
            proof {
                lemma_trees_push(before, p);
            }
            let r = parse_stmts(s, e2, children);
            proof {
                lemma_push_then(trees_of(before), tree_of(p), ts_stmts(s@, e2 as int));
            }
            r
        },
    }
}

fn parse_body(s: &Vec<char>, i: usize) -> (r: Option<(usize, Pair)>)
    requires
        i <= s@.len(),
    ensures
        r matches Some((_, p)) ==> tree_of(p) == t_body(s@, i as int),
        parsed(r, p_body(s@, i as int), Rule::BODY, i, s@.len()),
        r matches Some((e, _)) ==> e > i,
    decreases s@.len() - i, 4int,
{
    if !(i < s.len() && s[i] == '{') {
        return None;
    }
    proof {
        lemma_unfold_t_body(s@, i as int);
    }
    let mut children = Vec::new();
    let e = parse_stmts(s, i + 1, &mut children);
    proof {
        lemma_add_none(ts_stmts(s@, i + 1));
    }
    match then_tok_x(s, e, '}') {
        Some(e2) => Some((e2, node(Rule::BODY, i, e2, children))),
        None => None,
    }
}

fn parse_paren_expr(s: &Vec<char>, k: usize, children: &mut Vec<Pair>) -> (r: Option<usize>)
    requires
        k <= s@.len(),
    ensures
        same_pos(r, p_paren_expr(s@, k as int)),
        r matches Some(e) ==> k < e <= s@.len(),
        r is Some ==> trees_of(final(children)@) == trees_of(old(children)@).push(t_paren_expr(s@, k as int)),
{
    proof {
        reveal(t_paren_expr);
    }
    let k2 = match then_tok_x(s, k, '(') {
        Some(k2) => k2,
        None => {
            return None;
        },
    };
    let j = skip_ws_x(s, k2);
    match parse_expresion(s, j) {
        Some((e, p)) => {
            let ghost before = children@;
            children.push(p);
            proof {
                lemma_trees_push(before, p);
            }
            then_tok_x(s, e, ')')
        },
        None => None,
    }
}

#[verifier::spinoff_prover]
#[verifier::rlimit(60)]
fn parse_condicion(s: &Vec<char>, i: usize) -> (r: Option<(usize, Pair)>)
    requires
        i <= s@.len(),
    ensures
        r matches Some((_, p)) ==> tree_of(p) == t_condicion(s@, i as int),
        parsed(r, p_condicion(s@, i as int), Rule::CONDICION, i, s@.len()),
        r matches Some((e, _)) ==> e > i,
    decreases s@.len() - i, 5int,
{
    proof {
        lemma_unfold_t_condicion(s@, i as int);
    }
    let mut children = Vec::new();
    let k = match lit_x(s, i, "si") {
        Some(k) => k,
        None => {
            return None;
        },
    };
    let e = match parse_paren_expr(s, k, &mut children) {
        Some(e) => e,
        None => {
            return None;
        },
    };
    let j = skip_ws_x(s, e);
    let (e2, b) = match parse_body(s, j) {
        Some(x) => x,
        None => {
            return None;
        },
    };
    let ghost c1 = children@;
    children.push(b);
    proof {
        lemma_trees_push(c1, b);
        assert(Seq::<Tree>::empty().push(t_paren_expr(s@, k as int)).push(tree_of(b)) =~= seq![
            t_paren_expr(s@, k as int),
            tree_of(b),
        ]);
    }
    let ghost head = seq![t_paren_expr(s@, k as int), tree_of(b)];
    let j2 = skip_ws_x(s, e2);
    let e3 = match lit_x(s, j2, "sino") {
        Some(k2) => {
            let j3 = skip_ws_x(s, k2);
            match parse_body(s, j3) {
                Some((e4, b2)) => {
                    let ghost c2 = children@;
                    children.push(b2);
                    proof {
                        lemma_trees_push(c2, b2);
                        assert(head.push(tree_of(b2)) =~= head + seq![tree_of(b2)]);
                    }
                    e4
                },
                None => {
                    proof {
                        lemma_add_none(head);
                    }
                    e2
                },
            }
        },
        None => {
            proof {
                lemma_add_none(head);
            }
            e2
        },
    };
    match then_tok_x(s, e3, ';') {
        Some(e5) => Some((e5, node(Rule::CONDICION, i, e5, children))),
        None => None,
    }
}

#[verifier::spinoff_prover]
#[verifier::rlimit(60)]
fn parse_ciclo(s: &Vec<char>, i: usize) -> (r: Option<(usize, Pair)>)
    requires
        i <= s@.len(),
    ensures
        r matches Some((_, p)) ==> tree_of(p) == t_ciclo(s@, i as int),
        parsed(r, p_ciclo(s@, i as int), Rule::CICLO, i, s@.len()),
        r matches Some((e, _)) ==> e > i,
    decreases s@.len() - i, 5int,
{
    proof {
        lemma_unfold_t_ciclo(s@, i as int);
    }
    let mut children = Vec::new();
    let k = match lit_x(s, i, "mientras") {
        Some(k) => k,
        None => {
            return None;
        },
    };
    let e = match parse_paren_expr(s, k, &mut children) {
        Some(e) => e,
        None => {
            return None;
        },
    };
    let j = skip_ws_x(s, e);
    let k2 = match lit_x(s, j, "haz") {
        Some(k2) => k2,
        None => {
            return None;
        },
    };
    let j2 = skip_ws_x(s, k2);
    let (e2, b) = match parse_body(s, j2) {
        Some(x) => x,
        None => {
            return None;
        },
    };
    let ghost c1 = children@;
    children.push(b);
    proof {
        lemma_trees_push(c1, b);
        assert(Seq::<Tree>::empty().push(t_paren_expr(s@, k as int)).push(tree_of(b)) =~= seq![
            t_paren_expr(s@, k as int),
            tree_of(b),
        ]);
    }
    match then_tok_x(s, e2, ';') {
        Some(e3) => Some((e3, node(Rule::CICLO, i, e3, children))),
        None => None,
    }
}

fn id_tail(s: &Vec<char>, e: usize, children: &mut Vec<Pair>) -> (r: usize)
    requires
        e <= s@.len(),
    ensures
        trees_of(final(children)@) == trees_of(old(children)@) + ts_id_tail(s@, e as int),
        r == p_id_tail(s@, e as int),
        e <= r <= s@.len(),
    decreases s@.len() - e,
{
    proof {
        lemma_unfold_ts_id_tail(s@, e as int);
    }
    proof {
        lemma_add_none(trees_of(children@));
    }
    match then_tok_x(s, e, ',') {
        None => e,
        Some(k) => {
            let j = skip_ws_x(s, k);
            match parse_id(s, j) {
                None => e,
                Some((e2, p)) => {
                    let ghost before = children@;
                    children.push(p);
                    proof {
                        lemma_trees_push(before, p);
                    }
                    let r = id_tail(s, e2, children);
                    proof {
                        lemma_push_then(trees_of(before), tree_of(p), ts_id_tail(s@, e2 as int));
                    }
                    r
                },
            }
        },
    }
}

fn parse_mult_vars(s: &Vec<char>, i: usize) -> (r: Option<(usize, Pair)>)
    requires
        i <= s@.len(),
    ensures
        r matches Some((_, p)) ==> tree_of(p) == t_mult_vars(s@, i as int),
        parsed(r, p_mult_vars(s@, i as int), Rule::MULT_VARS, i, s@.len()),
        r matches Some((e, _)) ==> e > i,
{
    proof {
        reveal(t_mult_vars);
    }
    let (e, id) = match parse_id(s, i) {
        Some(x) => x,
        None => {
            return None;
        },
    };
    let mut children = one(id);
    let e1 = id_tail(s, e, &mut children);
    let k = match then_tok_x(s, e1, ':') {
        Some(k) => k,
        None => {
            return None;
        },
    };
    let j = skip_ws_x(s, k);
    let (e2, t) = match parse_type(s, j) {
        Some(x) => x,
        None => {
            return None;
        },
    };
    let ghost before = children@;
    children.push(t);
    proof {
        lemma_trees_push(before, t);
    }
    match then_tok_x(s, e2, ';') {
        Some(e3) => Some((e3, node(Rule::MULT_VARS, i, e3, children))),
        None => None,
    }
}

fn mult_tail(s: &Vec<char>, e: usize, children: &mut Vec<Pair>) -> (r: usize)
    requires
        e <= s@.len(),
    ensures
        trees_of(final(children)@) == trees_of(old(children)@) + ts_mult_tail(s@, e as int),
        r == p_mult_tail(s@, e as int),
        e <= r <= s@.len(),
    decreases s@.len() - e,
{
    proof {
        lemma_unfold_ts_mult_tail(s@, e as int);
    }
    proof {
        lemma_add_none(trees_of(children@));
    }
    let j = skip_ws_x(s, e);
    match parse_mult_vars(s, j) {
        None => e,
        Some((e2, p)) => {
            let ghost before = children@;
            children.push(p);
            proof {
                lemma_trees_push(before, p);
            }
            let r = mult_tail(s, e2, children);
            proof {
                lemma_push_then(trees_of(before), tree_of(p), ts_mult_tail(s@, e2 as int));
            }
            r
        },
    }
}

fn parse_vars(s: &Vec<char>, i: usize) -> (r: Option<(usize, Pair)>)
    requires
        i <= s@.len(),
    ensures
        r matches Some((_, p)) ==> tree_of(p) == t_vars(s@, i as int),
        parsed(r, p_vars(s@, i as int), Rule::VARS, i, s@.len()),
{
    proof {
        reveal(t_vars);
    }
    let k = match lit_x(s, i, "vars") {
        Some(k) => k,
        None => {
            return None;
        },
    };
    let j = skip_ws_x(s, k);
    match parse_mult_vars(s, j) {
        Some((e, p)) => {
            let mut children = one(p);
            let e2 = mult_tail(s, e, &mut children);
            Some((e2, node(Rule::VARS, i, e2, children)))
        },
        None => None,
    }
}

fn parse_single_vars(s: &Vec<char>, i: usize) -> (r: Option<(usize, Pair)>)
    requires
        i <= s@.len(),
    ensures
        r matches Some((_, p)) ==> tree_of(p) == t_single_vars(s@, i as int),
        parsed(r, p_single_vars(s@, i as int), Rule::SINGLE_VARS, i, s@.len()),
        r matches Some((e, p)) ==> e > i && p.children@.len() == 2,
{
    proof {
        reveal(t_single_vars);
    }
    let (e, id) = match parse_id(s, i) {
        Some(x) => x,
        None => {
            return None;
        },
    };
    let mut children = one(id);
    let k = match then_tok_x(s, e, ':') {
        Some(k) => k,
        None => {
            return None;
        },
    };
    let j = skip_ws_x(s, k);
    match parse_type(s, j) {
        Some((e2, t)) => {
            children.push(t);
            proof {
                lemma_trees_push(seq![id], t);
                assert(seq![tree_of(id)].push(tree_of(t)) =~= seq![tree_of(id), tree_of(t)]);
            }
            Some((e2, node(Rule::SINGLE_VARS, i, e2, children)))
        },
        None => None,
    }
}

fn param_tail(s: &Vec<char>, e: usize, children: &mut Vec<Pair>) -> (r: usize)
    requires
        e <= s@.len(),
    ensures
        trees_of(final(children)@) == trees_of(old(children)@) + ts_param_tail(s@, e as int),
        r == p_param_tail(s@, e as int),
        e <= r <= s@.len(),
        final(children)@.len() >= old(children)@.len(),
        forall|k: int| 0 <= k < old(children)@.len() ==> final(children)@[k] == old(children)@[k],
        forall|k: int| old(children)@.len() <= k < final(children)@.len() ==> (#[trigger] final(children)@[k]).rule
            == Rule::SINGLE_VARS && final(children)@[k].children@.len() == 2,
    decreases s@.len() - e,
{
    proof {
        lemma_unfold_ts_param_tail(s@, e as int);
    }
    proof {
        lemma_add_none(trees_of(children@));
    }
    match then_tok_x(s, e, ',') {
        None => e,
        Some(k) => {
            let j = skip_ws_x(s, k);
            match parse_single_vars(s, j) {
                None => e,
                Some((e2, p)) => {
                    let ghost before = children@;
                    children.push(p);
                    proof {
                        lemma_trees_push(before, p);
                    }
                    let r = param_tail(s, e2, children);
                    proof {
                        lemma_push_then(trees_of(before), tree_of(p), ts_param_tail(s@, e2 as int));
                    }
                    r
                },
            }
        },
    }
}

fn parse_return_stmt(s: &Vec<char>, i: usize) -> (r: Option<(usize, Pair)>)
    requires
        i <= s@.len(),
    ensures
        r matches Some((_, p)) ==> tree_of(p) == t_return_stmt(s@, i as int),
        parsed(r, p_return_stmt(s@, i as int), Rule::RETURN_STMT, i, s@.len()),
{
    proof {
        reveal(t_return_stmt);
    }
    let k = match lit_x(s, i, "return") {
        Some(k) => k,
        None => {
            return None;
        },
    };
    let j = skip_ws_x(s, k);
    match parse_expresion(s, j) {
        Some((e, p)) => match then_tok_x(s, e, ';') {
            Some(e2) => Some((e2, node(Rule::RETURN_STMT, i, e2, one(p)))),
            None => None,
        },
        None => None,
    }
}

#[verifier::rlimit(60)]
fn parse_funcs(s: &Vec<char>, i: usize) -> (r: Option<(usize, Pair)>)
    requires
        i <= s@.len(),
    ensures
        r matches Some((_, p)) ==> tree_of(p) == t_funcs(s@, i as int),
        parsed(r, p_funcs(s@, i as int), Rule::FUNCS, i, s@.len()),
        r matches Some((e, p)) ==> e > i && funcs_shaped(p),
{
    proof {
        reveal(t_funcs);
    }
    let (e0, tf) = match parse_type_func(s, i) {
        Some(x) => x,
        None => {
            return None;
        },
    };
    let mut children = one(tf);
    let j = skip_ws_x(s, e0);
    let (e1, id) = match parse_id(s, j) {
        Some(x) => x,
        None => {
            return None;
        },
    };
    children.push(id);
    proof {
        lemma_trees_push(seq![tf], id);
        assert(seq![tree_of(tf)].push(tree_of(id)) =~= seq![tree_of(tf), tree_of(id)]);
    }
    let ghost head = seq![tree_of(tf), tree_of(id)];
    let k = match then_tok_x(s, e1, '(') {
        Some(k) => k,
        None => {
            return None;
        },
    };
    let j2 = skip_ws_x(s, k);
    let ghost params = match p_single_vars(s@, j2 as int) {
        Some(e2) => seq![t_single_vars(s@, j2 as int)] + ts_param_tail(s@, e2),
        None => Seq::<Tree>::empty(),
    };
    let pe = match parse_single_vars(s, j2) {
        Some((e2, p)) => {
            let ghost c0 = children@;
            children.push(p);
            proof {
                lemma_trees_push(c0, p);
            }
            let r = param_tail(s, e2, &mut children);
            proof {
                lemma_push_then(head, tree_of(p), ts_param_tail(s@, e2 as int));
            }
            r
        },
        None => {
            proof {
                lemma_add_none(head);
            }
            k
        },
    };
    assert(trees_of(children@) == head + params);
    assert(children@.len() >= 2);
    assert(forall|m: int| 2 <= m < children@.len() ==> (#[trigger] children@[m]).rule == Rule::SINGLE_VARS && children@[m].children@.len() == 2);
    let ghost n_params = children@.len();
    let ghost with_params = head + params;
    let k2 = match then_tok_x(s, pe, ')') {
        Some(k2) => k2,
        None => {
            return None;
        },
    };
    let k3 = match then_tok_x(s, k2, '{') {
        Some(k3) => k3,
        None => {
            return None;
        },
    };
    let j3 = skip_ws_x(s, k3);
    let ghost vt = opt_tree(p_vars(s@, j3 as int), t_vars(s@, j3 as int));
    let ve = match parse_vars(s, j3) {
        Some((e3, p)) => {
            let ghost c1 = children@;
            children.push(p);
            proof {
                lemma_trees_push(c1, p);
                assert(with_params.push(tree_of(p)) =~= with_params + seq![tree_of(p)]);
            }
            e3
        },
        None => {
            proof {
                lemma_add_none(with_params);
            }
            k3
        },
    };
    assert(trees_of(children@) == with_params + vt);
    let ghost with_vars = with_params + vt;
    let j4 = skip_ws_x(s, ve);
    let (be, b) = match parse_body(s, j4) {
        Some(x) => x,
        None => {
            return None;
        },
    };
    let ghost c2 = children@;
    children.push(b);
    proof {
        lemma_trees_push(c2, b);
        assert(with_vars.push(tree_of(b)) =~= with_vars + seq![tree_of(b)]);
    }
    let ghost with_body = with_vars + seq![tree_of(b)];
    let j5 = skip_ws_x(s, be);
    let ghost rt = opt_tree(p_return_stmt(s@, j5 as int), t_return_stmt(s@, j5 as int));
    let re = match parse_return_stmt(s, j5) {
        Some((e4, p)) => {
            let ghost c3 = children@;
            children.push(p);
            proof {
                lemma_trees_push(c3, p);
                assert(with_body.push(tree_of(p)) =~= with_body + seq![tree_of(p)]);
            }
            e4
        },
        None => {
            proof {
                lemma_add_none(with_body);
            }
            be
        },
    };
    assert(trees_of(children@) == with_body + rt);
    let k4 = match then_tok_x(s, re, '}') {
        Some(k4) => k4,
        None => {
            return None;
        },
    };
    assert(forall|m: int| 2 <= m < n_params ==> (#[trigger] children@[m]).rule == Rule::SINGLE_VARS && children@[m].children@.len() == 2);
    match then_tok_x(s, k4, ';') {
        Some(e5) => Some((e5, node(Rule::FUNCS, i, e5, children))),
        None => None,
    }
}

fn funcs_tail(s: &Vec<char>, e: usize, children: &mut Vec<Pair>) -> (r: usize)
    requires
        e <= s@.len(),
    ensures
        trees_of(final(children)@) == trees_of(old(children)@) + ts_funcs_tail(s@, e as int),
        r == p_funcs_tail(s@, e as int),
        e <= r <= s@.len(),
        final(children)@.len() >= old(children)@.len(),
        forall|k: int| 0 <= k < old(children)@.len() ==> final(children)@[k] == old(children)@[k],
        forall|k: int| old(children)@.len() <= k < final(children)@.len() ==> (#[trigger] final(children)@[k]).rule
            == Rule::FUNCS && funcs_shaped(final(children)@[k]),
    decreases s@.len() - e,
{
    proof {
        lemma_unfold_ts_funcs_tail(s@, e as int);
    }
    proof {
        lemma_add_none(trees_of(children@));
    }
    let j = skip_ws_x(s, e);
    match parse_funcs(s, j) {
        None => e,
        Some((e2, p)) => {
            let ghost before = children@;
            children.push(p);
            proof {
                lemma_trees_push(before, p);
            }
            let r = funcs_tail(s, e2, children);
            proof {
                lemma_push_then(trees_of(before), tree_of(p), ts_funcs_tail(s@, e2 as int));
            }
            r
        },
    }
}

#[verifier::rlimit(60)]
fn parse_program(s: &Vec<char>, i: usize) -> (r: Option<(usize, Pair)>)
    requires
        i <= s@.len(),
    ensures
        r matches Some((_, p)) ==> tree_of(p) == t_program(s@, i as int),
        parsed(r, p_program(s@, i as int), Rule::PROGRAM, i, s@.len()),
        r matches Some((_, p)) ==> program_shaped(p),
{
    proof {
        reveal(t_program);
    }
    let k = match lit_x(s, i, "programa") {
        Some(k) => k,
        None => {
            return None;
        },
    };
    let j = skip_ws_x(s, k);
    let (e1, id) = match parse_id(s, j) {
        Some(x) => x,
        None => {
            return None;
        },
    };
    let mut children = one(id);
    let ghost head = seq![tree_of(id)];
    let k2 = match then_tok_x(s, e1, ';') {
        Some(k2) => k2,
        None => {
            return None;
        },
    };
    let j2 = skip_ws_x(s, k2);
    let ghost vt = opt_tree(p_vars(s@, j2 as int), t_vars(s@, j2 as int));
    let ve = match parse_vars(s, j2) {
        Some((e2, p)) => {
            children.push(p);
            proof {
                lemma_trees_push(seq![id], p);
                assert(head.push(tree_of(p)) =~= head + seq![tree_of(p)]);
            }
            e2
        },
        None => {
            proof {
                lemma_add_none(head);
            }
            k2
        },
    };
    assert(trees_of(children@) == head + vt);
    let ghost with_vars = head + vt;
    let fe = funcs_tail(s, ve, &mut children);
    let ghost with_funcs = with_vars + ts_funcs_tail(s@, ve as int);
    let j3 = skip_ws_x(s, fe);
    let k3 = match lit_x(s, j3, "inicio") {
        Some(k3) => k3,
        None => {
            return None;
        },
    };
    let j4 = skip_ws_x(s, k3);
    let (be, b) = match parse_body(s, j4) {
        Some(x) => x,
        None => {
            return None;
        },
    };
    let ghost c = children@;
    children.push(b);
    proof {
        lemma_trees_push(c, b);
        assert(with_funcs.push(tree_of(b)) =~= with_funcs + seq![tree_of(b)]);
    }
    let j5 = skip_ws_x(s, be);
    match lit_x(s, j5, "fin") {
        Some(e) => Some((e, node(Rule::PROGRAM, i, e, children))),
        None => None,
    }
}

/// The rule that `rule` parses: the `TEST_*` rules stand for the rule they test.
pub open spec fn inner_rule(rule: Rule) -> Rule {
    match rule {
        Rule::TEST_ESTATUTO => Rule::ESTATUTO,
        Rule::TEST_IMPRIME => Rule::IMPRIME,
        Rule::TEST_FUNCS => Rule::FUNCS,
        Rule::TEST_CICLO => Rule::CICLO,
        Rule::TEST_CONDICION => Rule::CONDICION,
        Rule::TEST_EXPRESION => Rule::EXPRESION,
        _ => rule,
    }
}

/// Whether `rule` must cover the whole input.
pub open spec fn is_whole(rule: Rule) -> bool {
    rule == Rule::PROGRAM || inner_rule(rule) != rule
}

/// End of the match of `rule` (not a `TEST_*` rule) at `i`.
pub open spec fn rule_at(rule: Rule, s: Seq<char>, i: int) -> Option<int> {
    match rule {
        Rule::PROGRAM => p_program(s, i),
        Rule::VARS => p_vars(s, i),
        Rule::MULT_VARS => p_mult_vars(s, i),
        Rule::SINGLE_VARS => p_single_vars(s, i),
        Rule::TYPE => p_type(s, i),
        Rule::TYPE_FUNC => p_type_func(s, i),
        Rule::FUNCS => p_funcs(s, i),
        Rule::RETURN_STMT => p_return_stmt(s, i),
        Rule::BODY => p_body(s, i),
        Rule::ESTATUTO => p_estatuto(s, i),
        Rule::BLOCK => p_block(s, i),
        Rule::ASIGNA => p_asigna(s, i),
        Rule::CONDICION => p_condicion(s, i),
        Rule::CICLO => p_ciclo(s, i),
        Rule::CALL => p_call(s, i),
        Rule::IMPRIME => p_imprime(s, i),
        Rule::PRINT_STATEMENT => p_print_statement(s, i),
        Rule::LETRERO => p_letrero(s, i),
        Rule::EXPRESION => p_expresion(s, i),
        Rule::EXPR => p_expr(s, i),
        Rule::TERM => p_term(s, i),
        Rule::FACTOR => p_factor(s, i),
        Rule::SINGLE_EXPR => p_single_expr(s, i),
        Rule::SINGLE_FACTOR => p_single_factor(s, i),
        Rule::ID => p_id(s, i),
        Rule::CTE => p_cte(s, i),
        Rule::REL_OP => p_rel_op(s, i),
        Rule::ADD_OP => p_add_op(s, i),
        Rule::MUL_OP => p_mul_op(s, i),
        Rule::SIGN => p_add_op(s, i),
        _ => None,
    }
}

/// End of the match of `rule` on input `s`, if `rule` accepts `s`. A whole-input rule
/// matches after leading whitespace and must be followed only by whitespace; any
/// other rule matches a prefix of `s`.
pub open spec fn accepts(rule: Rule, s: Seq<char>) -> Option<int> {
    if is_whole(rule) {
        match rule_at(inner_rule(rule), s, skip_ws(s, 0)) {
            Some(e) => if 0 <= e <= s.len() && skip_ws(s, e) == s.len() {
                Some(e)
            } else {
                None
            },
            None => None,
        }
    } else {
        rule_at(rule, s, 0)
    }
}

fn parse_rule_at(rule: Rule, s: &Vec<char>, i: usize) -> (r: Option<(usize, Pair)>)
    requires
        i <= s@.len(),
    ensures
        parsed(r, rule_at(rule, s@, i as int), rule, i, s@.len()),
        r matches Some((_, p)) ==> tree_of(p) == tree_at(rule, s@, i as int),
{
    match rule {
        Rule::PROGRAM => parse_program(s, i),
        Rule::VARS => parse_vars(s, i),
        Rule::MULT_VARS => parse_mult_vars(s, i),
        Rule::SINGLE_VARS => parse_single_vars(s, i),
        Rule::TYPE => parse_type(s, i),
        Rule::TYPE_FUNC => parse_type_func(s, i),
        Rule::FUNCS => parse_funcs(s, i),
        Rule::RETURN_STMT => parse_return_stmt(s, i),
        Rule::BODY => parse_body(s, i),
        Rule::ESTATUTO => parse_estatuto(s, i),
        Rule::BLOCK => parse_block(s, i),
        Rule::ASIGNA => parse_asigna(s, i),
        Rule::CONDICION => parse_condicion(s, i),
        Rule::CICLO => parse_ciclo(s, i),
        Rule::CALL => parse_call(s, i),
        Rule::IMPRIME => parse_imprime(s, i),
        Rule::PRINT_STATEMENT => parse_print_statement(s, i),
        Rule::LETRERO => parse_letrero(s, i),
        Rule::EXPRESION => parse_expresion(s, i),
        Rule::EXPR => parse_expr(s, i),
        Rule::TERM => parse_term(s, i),
        Rule::FACTOR => parse_factor(s, i),
        Rule::SINGLE_EXPR => parse_single_expr(s, i),
        Rule::SINGLE_FACTOR => parse_single_factor(s, i),
        Rule::ID => parse_id(s, i),
        Rule::CTE => parse_cte(s, i),
        Rule::REL_OP => parse_rel_op(s, i),
        Rule::ADD_OP => parse_two(s, i, '+', '-', Rule::ADD_OP),
        Rule::MUL_OP => parse_two(s, i, '*', '/', Rule::MUL_OP),
        Rule::SIGN => parse_two(s, i, '+', '-', Rule::SIGN),
        _ => None,
    }
}

/// Where parsing a program stops: the start of its first part that does not match —
/// the keyword `programa`, the name, the `;`, the place where `inicio` is expected
/// after the variables and functions that parse (so a function or a declaration with
/// an error is pointed at), inside the main body the first statement that does not
/// parse (or the missing `}`), the `fin`, or the text after `fin`.
pub open spec fn program_stop(s: Seq<char>) -> int {
    let i0 = skip_ws(s, 0);
    match lit(s, i0, "programa"@) {
        None => i0,
        Some(k) => match p_id(s, skip_ws(s, k)) {
            None => skip_ws(s, k),
            Some(e1) => match tok(s, skip_ws(s, e1), ';') {
                None => skip_ws(s, e1),
                Some(k2) => {
                    let ve = opt_after(s, k2, p_vars(s, skip_ws(s, k2)));
                    let j3 = skip_ws(s, p_funcs_tail(s, ve));
                    match lit(s, j3, "inicio"@) {
                        None => j3,
                        Some(k3) => {
                            let j4 = skip_ws(s, k3);
                            match p_body(s, j4) {
                                None => if 0 <= j4 < s.len() && s[j4] == '{' {
                                    skip_ws(s, p_stmts(s, j4 + 1))
                                } else {
                                    j4
                                },
                                Some(be) => match lit(s, skip_ws(s, be), "fin"@) {
                                    None => skip_ws(s, be),
                                    Some(e) => skip_ws(s, e),
                                },
                            }
                        },
                    }
                },
            },
        },
    }
}

/// The lines ended before position `n` of `s`, and the characters after the last of
/// them (the line and column of `n`, each counted from 0).
pub open spec fn lines_and_column(s: Seq<char>, n: int) -> (int, int)
    decreases n,
{
    if n <= 0 {
        (0, 0)
    } else {
        let lc = lines_and_column(s, n - 1);
        if s[n - 1] == '\n' {
            (lc.0 + 1, 0)
        } else {
            (lc.0, lc.1 + 1)
        }
    }
}

/// Where parsing `input` as a program stops.
fn program_stop_x(s: &Vec<char>) -> (p: usize)
    ensures
        p == program_stop(s@),
        p <= s@.len(),
{
    let i0 = skip_ws_x(s, 0);
    let k = match lit_x(s, i0, "programa") {
        Some(k) => k,
        None => {
            return i0;
        },
    };
    let j = skip_ws_x(s, k);
    let e1 = match parse_id(s, j) {
        Some((e1, _)) => e1,
        None => {
            return j;
        },
    };
    let j1 = skip_ws_x(s, e1);
    let k2 = match tok_x(s, j1, ';') {
        Some(k2) => k2,
        None => {
            return j1;
        },
    };
    let j2 = skip_ws_x(s, k2);
    let ve = match parse_vars(s, j2) {
        Some((e2, _)) => e2,
        None => k2,
    };
    let mut funcs: Vec<Pair> = Vec::new();
    let fe = funcs_tail(s, ve, &mut funcs);
    let j3 = skip_ws_x(s, fe);
    let k3 = match lit_x(s, j3, "inicio") {
        Some(k3) => k3,
        None => {
            return j3;
        },
    };
    let j4 = skip_ws_x(s, k3);
    match parse_body(s, j4) {
        None => {
            if j4 < s.len() && s[j4] == '{' {
                let mut stmts: Vec<Pair> = Vec::new();
                let e = parse_stmts(s, j4 + 1, &mut stmts);
                skip_ws_x(s, e)
            } else {
                j4
            }
        },
        Some((be, _)) => {
            let j5 = skip_ws_x(s, be);
            match lit_x(s, j5, "fin") {
                Some(e) => skip_ws_x(s, e),
                None => j5,
            }
        },
    }
}

/// The line and column (each counted from 0) at which parsing `input` as a program
/// stops.
pub fn program_error_position(input: &str) -> (lc: (usize, usize))
    ensures
        (lc.0 as int, lc.1 as int) == lines_and_column(input@, program_stop(input@)),
{
    let s = to_chars(input);
    let n = program_stop_x(&s);
    let mut line: usize = 0;
    let mut col: usize = 0;
    let mut k: usize = 0;
    while k < n
        invariant
            k <= n <= s@.len(),
            s@ == input@,
            n == program_stop(input@),
            (line as int, col as int) == lines_and_column(s@, k as int),
            line + col <= k,
        decreases n - k,
    {
        if s[k] == '\n' {
            line = line + 1;
            col = 0;
        } else {
            col = col + 1;
        }
        k = k + 1;
    }
    (line, col)
}

/// The characters of a string.
pub fn to_chars(input: &str) -> (v: Vec<char>)
    ensures
        v@ == input@,
{
    let n = input.unicode_len();
    let mut v: Vec<char> = Vec::new();
    let mut k: usize = 0;
    while k < n
        invariant
            n == input@.len(),
            k <= n,
            v@ == input@.subrange(0, k as int),
        decreases n - k,
    {
        v.push(input.get_char(k));
        k = k + 1;
        assert(v@ =~= input@.subrange(0, k as int));
    }
    assert(input@.subrange(0, n as int) =~= input@);
    v
}

/// The input did not match the rule that was asked for.
#[derive(Debug, PartialEq, Eq)]
pub struct ParseError {
    pub rule: Rule,
}

/// The parser of the language.
pub struct CSVParser;

impl CSVParser {
    /// Parses `input` with `rule`. On success the tree's root is a node of `rule`; a
    /// whole-input rule's root spans the whole input, any other rule's root spans the
    /// prefix it matched, and the whole tree is the one that `accepted_tree` gives.
    pub fn parse(rule: Rule, input: &str) -> (r: Result<Pair, ParseError>)
        ensures
            match accepts(rule, input@) {
                Some(e) => r matches Ok(p) && p.rule == rule && p.start == 0 && p.end == (
                if is_whole(rule) {
                    input@.len() as int
                } else {
                    e
                }),
                None => r == Err::<Pair, ParseError>(ParseError { rule }),
            },
            r matches Ok(p) ==> tree_of(p) == accepted_tree(rule, input@),
            rule == Rule::PROGRAM ==> (r matches Ok(p) ==> program_shaped(p)),
    {
        let s = to_chars(input);
        if rule == Rule::PROGRAM {
            let j = skip_ws_x(&s, 0);
            return match parse_program(&s, j) {
                Some((e, p)) => {
                    if skip_ws_x(&s, e) == s.len() {
                        Ok(Pair { rule, start: 0, end: s.len(), children: p.children })
                    } else {
                        Err(ParseError { rule })
                    }
                },
                None => Err(ParseError { rule }),
            };
        }
        let inner = match rule {
            Rule::TEST_ESTATUTO => Rule::ESTATUTO,
            Rule::TEST_IMPRIME => Rule::IMPRIME,
            Rule::TEST_FUNCS => Rule::FUNCS,
            Rule::TEST_CICLO => Rule::CICLO,
            Rule::TEST_CONDICION => Rule::CONDICION,
            Rule::TEST_EXPRESION => Rule::EXPRESION,
            _ => rule,
        };
        let whole = match rule {
            Rule::PROGRAM => true,
            _ => inner != rule,
        };
        if whole {
            let j = skip_ws_x(&s, 0);
            match parse_rule_at(inner, &s, j) {
                Some((e, p)) => {
                    if skip_ws_x(&s, e) == s.len() {
                        if inner == rule {
                            Ok(Pair { rule, start: 0, end: s.len(), children: p.children })
                        } else {
                            Ok(node(rule, 0, s.len(), one(p)))
                        }
                    } else {
                        Err(ParseError { rule })
                    }
                },
                None => Err(ParseError { rule }),
            }
        } else {
            match parse_rule_at(rule, &s, 0) {
                Some((_, p)) => Ok(p),
                None => Err(ParseError { rule }),
            }
        }
    }
}

} // verus!
