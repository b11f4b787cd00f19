//! The text of an object file: the table of constants, the function directory and
//! the quadruples, each in a section of its own:
//!
//! ```text
//! %%CONSTANTS   value|address                      (by address)
//! %%FUNCTIONS   name|type|start_quad|int|float|temp_int|temp_float|params(csv)
//!                                                  (by start quad, then name)
//! %%QUADRUPLES  index|operator|left|right|result
//! %%END
//! ```
use vstd::prelude::*;

use crate::directory::{DirFunc, FuncEntry};
use crate::name_map::{distinct_names, NameMap};
use crate::quadruples::{Quad, QuadV, Quadruples};
use crate::text::{decimal, join, seq_join, strs, usize_to_string};

verus! {

/// `a` comes before `b` in the order of characters.
pub open spec fn lex_lt(a: Seq<char>, b: Seq<char>) -> bool
    decreases a.len(),
{
    if b.len() == 0 {
        false
    } else if a.len() == 0 {
        true
    } else if a[0] != b[0] {
        a[0] < b[0]
    } else {
        lex_lt(a.drop_first(), b.drop_first())
    }
}

pub proof fn lemma_lex_lt_transitive(a: Seq<char>, b: Seq<char>, c: Seq<char>)
    requires
        lex_lt(a, b),
        lex_lt(b, c),
    ensures
        lex_lt(a, c),
    decreases a.len(),
{
    if a.len() > 0 && b.len() > 0 && c.len() > 0 && a[0] == b[0] && b[0] == c[0] {
        lemma_lex_lt_transitive(a.drop_first(), b.drop_first(), c.drop_first());
    }
}

pub proof fn lemma_lex_lt_irreflexive(a: Seq<char>)
    ensures
        !lex_lt(a, a),
    decreases a.len(),
{
    if a.len() > 0 {
        lemma_lex_lt_irreflexive(a.drop_first());
    }
}

/// Of two different strings, one comes before the other.
pub proof fn lemma_lex_lt_total(a: Seq<char>, b: Seq<char>)
    requires
        a != b,
    ensures
        lex_lt(a, b) || lex_lt(b, a),
    decreases a.len(),
{
    if a.len() > 0 && b.len() > 0 && a[0] == b[0] {
        if a.drop_first() == b.drop_first() {
            assert(a =~= seq![a[0]] + a.drop_first());
            assert(b =~= seq![b[0]] + b.drop_first());
        }
        lemma_lex_lt_total(a.drop_first(), b.drop_first());
    } else if a.len() == 0 && b.len() == 0 {
        assert(a =~= b);
    }
}

/// A sort key: a number, then a name.
pub type Key = (usize, Seq<char>);

/// `a` comes strictly before `b`.
pub open spec fn key_lt(a: Key, b: Key) -> bool {
    a.0 < b.0 || (a.0 == b.0 && lex_lt(a.1, b.1))
}

pub proof fn lemma_key_lt_transitive(a: Key, b: Key, c: Key)
    requires
        key_lt(a, b),
        key_lt(b, c),
    ensures
        key_lt(a, c),
{
    if a.0 == b.0 && b.0 == c.0 {
        lemma_lex_lt_transitive(a.1, b.1, c.1);
    }
}

/// `order` holds each index below `n` once.
pub open spec fn is_perm(order: Seq<usize>, n: nat) -> bool {
    &&& order.len() == n
    &&& forall|i: int| 0 <= i < order.len() ==> order[i] < n
    &&& forall|i: int, j: int| 0 <= i < j < order.len() ==> order[i] != order[j]
    &&& forall|j: int| 0 <= j < n ==> #[trigger] occurs_in(order, j)
}

/// `j` is one of the indices in `order`.
pub open spec fn occurs_in(order: Seq<usize>, j: int) -> bool {
    exists|i: int| 0 <= i < order.len() && order[i] == j
}

/// The keys at the indices in `order` never decrease.
pub open spec fn sorted_by(order: Seq<usize>, keys: Seq<Key>) -> bool {
    forall|i: int, j: int| 0 <= i < j < order.len() ==> !key_lt(keys[order[j] as int], keys[order[i] as int])
}

fn lex_lt_x(a: &str, b: &str) -> (r: bool)
    ensures
        r == lex_lt(a@, b@),
{
    let na = a.unicode_len();
    let nb = b.unicode_len();
    let mut k: usize = 0;
    assert(a@.subrange(0, na as int) =~= a@);
    assert(b@.subrange(0, nb as int) =~= b@);
    while k < na && k < nb && a.get_char(k) == b.get_char(k)
        invariant
            na == a@.len(),
            nb == b@.len(),
            k <= na,
            k <= nb,
            lex_lt(a@.subrange(k as int, na as int), b@.subrange(k as int, nb as int)) == lex_lt(a@, b@),
        decreases na - k,
    {
        proof {
            let sa = a@.subrange(k as int, na as int);
            let sb = b@.subrange(k as int, nb as int);
            assert(sa.drop_first() =~= a@.subrange(k + 1, na as int));
            assert(sb.drop_first() =~= b@.subrange(k + 1, nb as int));
        }
        k = k + 1;
    }
    let ghost sa = a@.subrange(k as int, na as int);
    let ghost sb = b@.subrange(k as int, nb as int);
    if k == nb {
        assert(sb.len() == 0);
        false
    } else if k == na {
        assert(sa.len() == 0);
        true
    } else {
        assert(sa[0] == a@[k as int] && sb[0] == b@[k as int]);
        a.get_char(k) < b.get_char(k)
    }
}

fn key_lt_x(a: &(usize, String), b: &(usize, String)) -> (r: bool)
    ensures
        r == key_lt((a.0, a.1@), (b.0, b.1@)),
{
    a.0 < b.0 || (a.0 == b.0 && lex_lt_x(a.1.as_str(), b.1.as_str()))
}

/// The keys as text.
pub open spec fn keys_view(keys: Seq<(usize, String)>) -> Seq<Key> {
    keys.map_values(|k: (usize, String)| (k.0, k.1@))
}

/// The indices of `keys`, ordered by key; equal keys keep their order.
fn sort_indices(keys: &Vec<(usize, String)>) -> (order: Vec<usize>)
    ensures
        is_perm(order@, keys@.len()),
        sorted_by(order@, keys_view(keys@)),
{
    let ghost kv = keys_view(keys@);
    let mut order: Vec<usize> = Vec::new();
    let mut k: usize = 0;
    while k < keys.len()
        invariant
            k <= keys@.len(),
            kv == keys_view(keys@),
            is_perm(order@, k as nat),
            sorted_by(order@, kv),
        decreases keys@.len() - k,
    {
        let mut p: usize = 0;
        while p < order.len() && !key_lt_x(&keys[k], &keys[order[p]])
            invariant
                p <= order@.len(),
                k < keys@.len(),
                kv == keys_view(keys@),
                is_perm(order@, k as nat),
                forall|i: int| 0 <= i < p ==> !key_lt(kv[k as int], kv[order@[i] as int]),
            decreases order@.len() - p,
        {
            p = p + 1;
        }
        let ghost old_order = order@;
        order.insert(p, k);
        proof {
            assert(order@ == old_order.insert(p as int, k));
            assert(order@[p as int] == k);
            assert forall|j: int| 0 <= j < k + 1 implies #[trigger] occurs_in(order@, j) by {
                if j < k {
                    assert(occurs_in(old_order, j));
                    let i = choose|i: int| 0 <= i < old_order.len() && old_order[i] == j;
                    if i < p {
                        assert(order@[i] == j);
                    } else {
                        assert(order@[i + 1] == j);
                    }
                } else {
                    assert(order@[p as int] == j);
                }
            }
            assert forall|i: int, j: int| 0 <= i < j < order@.len() implies !key_lt(
                kv[order@[j] as int],
                kv[order@[i] as int],
            ) by {
                if i == p && j > p {
                    let x = kv[k as int];
                    let y = kv[old_order[j - 1] as int];
                    let z = kv[old_order[p as int] as int];
                    assert(key_lt(x, z));
                    if j - 1 > p {
                        assert(!key_lt(y, z));
                    } else {
                        assert(z == y);
                        lemma_lex_lt_irreflexive(y.1);
                    }
                    if key_lt(y, x) {
                        lemma_key_lt_transitive(y, x, z);
                    }
                } else if i < p && j > p {
                    assert(order@[i] == old_order[i]);
                    assert(order@[j] == old_order[j - 1]);
                } else if i > p {
                    assert(order@[i] == old_order[i - 1]);
                    assert(order@[j] == old_order[j - 1]);
                }
            }
        }
        k = k + 1;
    }
    order
}

/// The text of a constant's line: `value|address`.
pub open spec fn const_content(p: (String, usize)) -> Seq<char> {
    p.0@ + "|"@ + decimal(p.1 as nat)
}

/// The text of a function's line: `name|type|start_quad|int|float|temp_int|temp_float|params`.
pub open spec fn func_content(p: (String, FuncEntry)) -> Seq<char> {
    let e = p.1;
    p.0@ + "|"@ + e.func_type@ + "|"@ + decimal(e.starting_quad as nat) + "|"@ + decimal(e.int_count as nat)
        + "|"@ + decimal(e.float_count as nat) + "|"@ + decimal(e.temp_int_count as nat) + "|"@
        + decimal(e.temp_float_count as nat) + "|"@ + seq_join(strs(e.parameters@), ","@)
}

/// The text of the line of quadruple number `i`: `index|operator|left|right|result`.
pub open spec fn quad_content(i: nat, q: QuadV) -> Seq<char> {
    decimal(i) + "|"@ + q.0 + "|"@ + q.1 + "|"@ + q.2 + "|"@ + q.3
}

/// The line of a constant.
pub open spec fn const_line(p: (String, usize)) -> Seq<char> {
    const_content(p) + "\n"@
}

/// The line of a function.
pub open spec fn func_line(p: (String, FuncEntry)) -> Seq<char> {
    func_content(p) + "\n"@
}

/// The line of quadruple number `i`.
pub open spec fn quad_line(i: nat, q: QuadV) -> Seq<char> {
    quad_content(i, q) + "\n"@
}

/// The lines of the constants in `pairs`, in `order`.
pub open spec fn const_lines(pairs: Seq<(String, usize)>, order: Seq<usize>) -> Seq<char>
    decreases order.len(),
{
    if order.len() == 0 {
        Seq::empty()
    } else {
        const_lines(pairs, order.drop_last()) + const_line(pairs[order.last() as int])
    }
}

/// The lines of the functions in `pairs`, in `order`.
pub open spec fn func_lines(pairs: Seq<(String, FuncEntry)>, order: Seq<usize>) -> Seq<char>
    decreases order.len(),
{
    if order.len() == 0 {
        Seq::empty()
    } else {
        func_lines(pairs, order.drop_last()) + func_line(pairs[order.last() as int])
    }
}

/// The lines of the quadruples of `code`, from the first.
pub open spec fn quad_lines(code: Seq<QuadV>) -> Seq<char>
    decreases code.len(),
{
    if code.len() == 0 {
        Seq::empty()
    } else {
        quad_lines(code.drop_last()) + quad_line((code.len() - 1) as nat, code.last())
    }
}

/// Sort keys of constants: their addresses.
pub open spec fn const_keys(pairs: Seq<(String, usize)>) -> Seq<Key> {
    pairs.map_values(|p: (String, usize)| (p.1, Seq::<char>::empty()))
}

/// Sort keys of functions: their starting quadruple, then their name.
pub open spec fn func_keys(pairs: Seq<(String, FuncEntry)>) -> Seq<Key> {
    pairs.map_values(|p: (String, FuncEntry)| (p.1.starting_quad, p.0@))
}

/// The constants section, with the constants in an `order` sorted by address.
pub open spec fn constants_text(pairs: Seq<(String, usize)>, order: Seq<usize>) -> Seq<char> {
    "%%CONSTANTS\n"@ + const_lines(pairs, order)
}

/// The functions section, with the functions in an `order` sorted by starting
/// quadruple and name.
pub open spec fn functions_text(pairs: Seq<(String, FuncEntry)>, order: Seq<usize>) -> Seq<char> {
    "%%FUNCTIONS\n"@ + func_lines(pairs, order)
}

/// The quadruples section.
pub open spec fn quadruples_text(code: Seq<QuadV>) -> Seq<char> {
    "%%QUADRUPLES\n"@ + quad_lines(code)
}

/// The line of the function `name` with the entry `e`.
fn function_line(name: &String, e: &FuncEntry) -> (s: String)
    ensures
        s@ == func_line((*name, *e)),
{
    let mut line = name.clone();
    line.append("|");
    line.append(e.func_type.as_str());
    line.append("|");
    line.append(usize_to_string(e.starting_quad).as_str());
    line.append("|");
    line.append(usize_to_string(e.int_count).as_str());
    line.append("|");
    line.append(usize_to_string(e.float_count).as_str());
    line.append("|");
    line.append(usize_to_string(e.temp_int_count).as_str());
    line.append("|");
    line.append(usize_to_string(e.temp_float_count).as_str());
    line.append("|");
    line.append(join(&e.parameters, ",").as_str());
    line.append("\n");
    line
}

/// The whole object file: the constants in `corder`, the functions in `forder`, the
/// quadruples of `code`, then `%%END`.
pub open spec fn object_text(
    constants: Seq<(String, usize)>,
    corder: Seq<usize>,
    functions: Seq<(String, FuncEntry)>,
    forder: Seq<usize>,
    code: Seq<QuadV>,
) -> Seq<char> {
    constants_text(constants, corder) + functions_text(functions, forder) + quadruples_text(code)
        + "%%END\n"@
}

/// Writes the object file of a compiled program: its directory and quadruples.
pub struct ObjWriter<'a> {
    pub directory: &'a DirFunc,
    pub quads: &'a Quadruples,
}

impl<'a> ObjWriter<'a> {
    pub fn new(directory: &'a DirFunc, quads: &'a Quadruples) -> (w: Self)
        ensures
            w.directory == directory,
            w.quads == quads,
    {
        ObjWriter { directory, quads }
    }

    /// %%CONSTANTS: one line per constant, by address.
    fn constants_section(&self) -> (s: String)
        ensures
            exists|order: Seq<usize>| #![trigger constants_text(self.directory.constants.pairs(), order)]
                is_perm(order, self.directory.constants.pairs().len())
                && sorted_by(order, const_keys(self.directory.constants.pairs()))
                && s@ == constants_text(self.directory.constants.pairs(), order),
    {
        let constants: &NameMap<usize> = &self.directory.constants;
        let ghost pairs = constants.pairs();
        let mut keys: Vec<(usize, String)> = Vec::new();
        let mut i: usize = 0;
        while i < constants.len()
            invariant
                pairs == constants.pairs(),
                i <= pairs.len(),
                keys@.len() == i,
                keys_view(keys@) == const_keys(pairs).subrange(0, i as int),
            decreases pairs.len() - i,
        {
            let ghost before = keys@;
            let v = *constants.value_at(i);
            let e = String::new();
            keys.push((v, e));
            proof {
                assert(keys@ == before.push((v, e)));
                assert(keys_view(keys@)[i as int] == (v, Seq::<char>::empty()));
                assert(const_keys(pairs)[i as int] == (v, Seq::<char>::empty()));
                assert forall|j: int| 0 <= j < i implies keys_view(keys@)[j] == keys_view(before)[j] by {
                    assert(keys@[j] == before[j]);
                }
                assert(keys_view(keys@) =~= const_keys(pairs).subrange(0, i + 1));
            }
            i = i + 1;
        }
        assert(const_keys(pairs).subrange(0, i as int) =~= const_keys(pairs));
        let order = sort_indices(&keys);
        let mut section = "%%CONSTANTS\n".to_owned();
        let mut k: usize = 0;
        while k < order.len()
            invariant
                pairs == constants.pairs(),
                is_perm(order@, pairs.len()),
                k <= order@.len(),
                section@ == "%%CONSTANTS\n"@ + const_lines(pairs, order@.subrange(0, k as int)),
            decreases order@.len() - k,
        {
            let idx = order[k];
            section.append(constants.key_at(idx).as_str());
            section.append("|");
            section.append(usize_to_string(*constants.value_at(idx)).as_str());
            section.append("\n");
            proof {
                assert(order@.subrange(0, k + 1).drop_last() =~= order@.subrange(0, k as int));
            }
            k = k + 1;
        }
        assert(order@.subrange(0, k as int) =~= order@);
        assert(section@ == constants_text(pairs, order@));
        section
    }

    /// %%FUNCTIONS: one line per function, by starting quadruple, then by name.
    fn functions_section(&self) -> (s: String)
        ensures
            exists|order: Seq<usize>| #![trigger functions_text(self.directory.functions.pairs(), order)]
                is_perm(order, self.directory.functions.pairs().len())
                && sorted_by(order, func_keys(self.directory.functions.pairs()))
                && s@ == functions_text(self.directory.functions.pairs(), order),
    {
        let functions: &NameMap<FuncEntry> = &self.directory.functions;
        let ghost pairs = functions.pairs();
        let mut keys: Vec<(usize, String)> = Vec::new();
        let mut i: usize = 0;
        while i < functions.len()
            invariant
                pairs == functions.pairs(),
                i <= pairs.len(),
                keys@.len() == i,
                keys_view(keys@) == func_keys(pairs).subrange(0, i as int),
            decreases pairs.len() - i,
        {
            let ghost before = keys@;
            let q = functions.value_at(i).starting_quad;
            let name = functions.key_at(i).clone();
            keys.push((q, name));
            proof {
                assert(keys@ == before.push((q, name)));
                assert(keys_view(keys@)[i as int] == func_keys(pairs)[i as int]);
                assert forall|j: int| 0 <= j < i implies keys_view(keys@)[j] == keys_view(before)[j] by {
                    assert(keys@[j] == before[j]);
                }
                assert(keys_view(keys@) =~= func_keys(pairs).subrange(0, i + 1));
            }
            i = i + 1;
        }
        assert(func_keys(pairs).subrange(0, i as int) =~= func_keys(pairs));
        let order = sort_indices(&keys);
        let mut section = "%%FUNCTIONS\n".to_owned();
        let mut k: usize = 0;
        while k < order.len()
            invariant
                pairs == functions.pairs(),
                is_perm(order@, pairs.len()),
                k <= order@.len(),
                section@ == "%%FUNCTIONS\n"@ + func_lines(pairs, order@.subrange(0, k as int)),
            decreases order@.len() - k,
        {
            let idx = order[k];
            let line = function_line(functions.key_at(idx), functions.value_at(idx));
            section.append(line.as_str());
            proof {
                assert(order@.subrange(0, k + 1).drop_last() =~= order@.subrange(0, k as int));
            }
            k = k + 1;
        }
        assert(order@.subrange(0, k as int) =~= order@);
        assert(section@ == functions_text(pairs, order@));
        section
    }

    /// %%QUADRUPLES: one line per quadruple, with its index.
    fn quadruples_section(&self) -> (s: String)
        ensures
            s@ == quadruples_text(self.quads.code()),
    {
        let quads: &Vec<Quad> = &self.quads.quads;
        let ghost code = self.quads.code();
        let mut section = "%%QUADRUPLES\n".to_owned();
        let mut k: usize = 0;
        while k < quads.len()
            invariant
                code == self.quads.code(),
                quads == &self.quads.quads,
                k <= quads@.len(),
                section@ == "%%QUADRUPLES\n"@ + quad_lines(code.subrange(0, k as int)),
            decreases quads@.len() - k,
        {
            let q = &quads[k];
            let ghost before = section@;
            section.append(usize_to_string(k).as_str());
            section.append("|");
            section.append(q.operator.as_str());
            section.append("|");
            section.append(q.left.as_str());
            section.append("|");
            section.append(q.right.as_str());
            section.append("|");
            section.append(q.result.as_str());
            section.append("\n");
            proof {
                let c = code.subrange(0, k + 1);
                assert(c.drop_last() =~= code.subrange(0, k as int));
                assert(c.last() == q@);
                assert(section@ =~= before + quad_line(k as nat, q@));
            }
            k = k + 1;
        }
        assert(code.subrange(0, k as int) =~= code);
        section
    }

    /// The whole object file: constants, functions and quadruples, then `%%END`.
    pub fn build_content(&self) -> (s: String)
        ensures
            distinct_names(self.directory.constants.pairs()),
            distinct_names(self.directory.functions.pairs()),
            exists|corder: Seq<usize>, forder: Seq<usize>|
                #![trigger object_text(self.directory.constants.pairs(), corder, self.directory.functions.pairs(), forder, self.quads.code())]
                is_perm(corder, self.directory.constants.pairs().len())
                && sorted_by(corder, const_keys(self.directory.constants.pairs()))
                && is_perm(forder, self.directory.functions.pairs().len())
                && sorted_by(forder, func_keys(self.directory.functions.pairs()))
                && s@ == object_text(
                    self.directory.constants.pairs(),
                    corder,
                    self.directory.functions.pairs(),
                    forder,
                    self.quads.code(),
                ),
    {
        proof {
            use_type_invariant(&self.directory.constants);
            use_type_invariant(&self.directory.functions);
        }
        let c = self.constants_section();
        let f = self.functions_section();
        let q = self.quadruples_section();
        let mut out = String::new();
        out.append(c.as_str());
        out.append(f.as_str());
        out.append(q.as_str());
        out.append("%%END\n");
        let ghost cpairs = self.directory.constants.pairs();
        let ghost fpairs = self.directory.functions.pairs();
        let ghost corder = choose|order: Seq<usize>| #![trigger constants_text(cpairs, order)]
            is_perm(order, cpairs.len()) && sorted_by(order, const_keys(cpairs))
            && c@ == constants_text(cpairs, order);
        let ghost forder = choose|order: Seq<usize>| #![trigger functions_text(fpairs, order)]
            is_perm(order, fpairs.len()) && sorted_by(order, func_keys(fpairs))
            && f@ == functions_text(fpairs, order);
        assert(out@ =~= object_text(cpairs, corder, fpairs, forder, self.quads.code()));
        out
    }
}

} // verus!
