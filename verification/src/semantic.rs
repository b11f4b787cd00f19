//! A compiler stage that builds the directory of functions and the quadruples of a
//! program from its parse tree.
use vstd::prelude::*;

use crate::constants::{DIV, EQUAL, MORE, LESS, MULTP, NOT_EQUAL, PLUS, SUBS};
use crate::grammar::{
    accepts, funcs_shaped, lines_and_column, program_error_position, program_shaped, program_stop, CSVParser, Pair, Rule,
};
use crate::parse_tree::{accepted_tree, tree_of, Tree};
use crate::name_map::NameMap;
use crate::quadruples::{cube, QuadV};
use crate::text::{concat2, concat3, decimal, join, seq_join, str_eq, strs, succ_to_string, usize_to_string};

verus! {

broadcast use crate::parse_tree::group_tree_of;

/// The type of `l op r` by the semantic cube, or `"err"` when it is not defined.
pub open spec fn cube_or_err(l: Seq<char>, r: Seq<char>, op: Seq<char>) -> Seq<char> {
    match cube(l, r, op) {
        Some(t) => t,
        None => "err"@,
    }
}

/// Semantic cube: the type of `left_op op right_op`, or `"err"`.
pub fn obtain_type(left_op: &str, right_op: &str, op: &str) -> (r: &'static str)
    ensures
        r@ == cube_or_err(left_op@, right_op@, op@),
{
    match crate::quadruples::Quadruples::obtain_type(left_op, right_op, op) {
        Ok(_) => {
            if str_eq(left_op, "entero") && str_eq(right_op, "entero") {
                "entero"
            } else if str_eq(op, MORE) || str_eq(op, LESS) || str_eq(op, NOT_EQUAL) || str_eq(op, EQUAL) {
                "entero"
            } else {
                "flotante"
            }
        },
        Err(_) => "err",
    }
}

/// A variable of the symbol table: its type.
pub struct VarEntry {
    pub tipo: String,
}

/// A function of the symbol table: its return type and its variables.
pub struct FuncEntry {
    pub tipo: String,
    pub vars: NameMap<VarEntry>,
}

/// A function as text: its type and the type of each of its variables.
pub type FuncModel = (Seq<char>, Map<Seq<char>, Seq<char>>);

impl View for FuncEntry {
    type V = FuncModel;

    open spec fn view(&self) -> FuncModel {
        (self.tipo@, self.vars@.map_values(|v: VarEntry| v.tipo@))
    }
}

/// The symbol table of a program: its functions by name.
pub struct DirFunc {
    pub funciones: NameMap<FuncEntry>,
}

impl View for DirFunc {
    type V = Map<Seq<char>, FuncModel>;

    open spec fn view(&self) -> Map<Seq<char>, FuncModel> {
        self.funciones@.map_values(|f: FuncEntry| f@)
    }
}

/// Type of variable `v` seen from function `f`: `f`'s own variables first, then the
/// global ones.
pub open spec fn type_in(funcs: Map<Seq<char>, FuncModel>, f: Seq<char>, v: Seq<char>) -> Option<Seq<char>> {
    if funcs.contains_key(f) && funcs[f].1.contains_key(v) {
        Some(funcs[f].1[v])
    } else if funcs.contains_key("global"@) && funcs["global"@].1.contains_key(v) {
        Some(funcs["global"@].1[v])
    } else {
        None
    }
}

/// A variable declared in function `f` is seen from `f` with the type declared there,
/// whatever the global scope holds; a name `f` does not declare is seen with its
/// global type; any other name is not found.
pub proof fn law_own_scope_first(funcs: Map<Seq<char>, FuncModel>, f: Seq<char>, v: Seq<char>)
    ensures
        funcs.contains_key(f) && funcs[f].1.contains_key(v) ==> type_in(funcs, f, v) == Some(funcs[f].1[v]),
        !(funcs.contains_key(f) && funcs[f].1.contains_key(v)) && funcs.contains_key("global"@)
            && funcs["global"@].1.contains_key(v) ==> type_in(funcs, f, v) == Some(funcs["global"@].1[v]),
        type_in(funcs, f, v) is None <==> !(funcs.contains_key(f) && funcs[f].1.contains_key(v))
            && !(funcs.contains_key("global"@) && funcs["global"@].1.contains_key(v)),
{
}

/// Once `agregar_variable` has added variable `v` of type `t` to function `f`, `v`
/// is seen from `f` with type `t`, whatever the global scope holds.
pub proof fn law_added_variable_type(d: Map<Seq<char>, FuncModel>, f: Seq<char>, v: Seq<char>, t: Seq<char>)
    requires
        d.contains_key(f),
        !d[f].1.contains_key(v),
    ensures
        type_in(d.insert(f, (d[f].0, d[f].1.insert(v, t))), f, v) == Some(t),
{
}

impl DirFunc {
    pub fn new() -> (d: Self)
        ensures
            d@ == Map::<Seq<char>, FuncModel>::empty(),
    {
        let d = DirFunc { funciones: NameMap::new() };
        assert(d@ =~= Map::<Seq<char>, FuncModel>::empty());
        d
    }

    /// Adds a function with no variables; a name can be added only once.
    pub fn agregar_funcion(&mut self, nombre: &str, tipo: &str) -> (r: Result<(), String>)
        ensures
            old(self)@.contains_key(nombre@) ==> (r matches Err(m) && m@ == "ERROR: funcion '"@
                + nombre@ + "' ya fue declarada"@ && final(self)@ == old(self)@),
            !old(self)@.contains_key(nombre@) ==> (r is Ok && final(self)@ == old(self)@.insert(
                nombre@,
                (tipo@, Map::<Seq<char>, Seq<char>>::empty()),
            )),
    {
        if self.funciones.contains_key(nombre) {
            let mut m = "ERROR: funcion '".to_owned();
            m.append(nombre);
            m.append("' ya fue declarada");
            return Err(m);
        }
        let vars = NameMap::new();
        let entry = FuncEntry { tipo: tipo.to_owned(), vars };
        proof {
            assert(entry@.1 =~= Map::<Seq<char>, Seq<char>>::empty());
        }
        self.funciones.insert(nombre.to_owned(), entry);
        proof {
            assert(self@ =~= old(self)@.insert(nombre@, (tipo@, Map::<Seq<char>, Seq<char>>::empty())));
        }
        Ok(())
    }

    /// Adds a variable to a function that is in the table; a name can be declared
    /// once in each function.
    pub fn agregar_variable(&mut self, func: &str, nombre: &str, tipo: &str) -> (r: Result<(), String>)
        requires
            old(self)@.contains_key(func@),
        ensures
            old(self)@[func@].1.contains_key(nombre@) ==> (r matches Err(m) && m@
                == "ERROR: variable '"@ + nombre@ + "' ya fue declarada en '"@ + func@ + "'"@
                && final(self)@ == old(self)@),
            !old(self)@[func@].1.contains_key(nombre@) ==> (r is Ok && final(self)@ == old(
                self,
            )@.insert(func@, (old(self)@[func@].0, old(self)@[func@].1.insert(nombre@, tipo@)))),
    {
        let i = self.funciones.find(func).unwrap();
        let vacia = FuncEntry { tipo: String::new(), vars: NameMap::new() };
        let mut entry = self.funciones.replace_at(i, vacia);
        if entry.vars.contains_key(nombre) {
            let _ = self.funciones.replace_at(i, entry);
            proof {
                assert(self@ =~= old(self)@);
            }
            let mut m = "ERROR: variable '".to_owned();
            m.append(nombre);
            m.append("' ya fue declarada en '");
            m.append(func);
            m.append("'");
            return Err(m);
        }
        let ghost e0 = entry;
        entry.vars.insert(nombre.to_owned(), VarEntry { tipo: tipo.to_owned() });
        proof {
            assert(entry@.1 =~= e0@.1.insert(nombre@, tipo@));
        }
        let _ = self.funciones.replace_at(i, entry);
        proof {
            assert(self@ =~= old(self)@.insert(func@, (old(self)@[func@].0, old(self)@[func@].1.insert(nombre@, tipo@))));
        }
        Ok(())
    }

    /// Type of a variable seen from a function: its own scope, then the global one.
    pub fn tipo_de(&self, func: &str, nombre: &str) -> (r: Option<&str>)
        ensures
            match type_in(self@, func@, nombre@) {
                Some(t) => r matches Some(s) && s@ == t,
                None => r is None,
            },
    {
        if let Some(entry) = self.funciones.get(func) {
            if let Some(v) = entry.vars.get(nombre) {
                return Some(v.tipo.as_str());
            }
        }
        if let Some(entry) = self.funciones.get("global") {
            if let Some(v) = entry.vars.get(nombre) {
                return Some(v.tipo.as_str());
            }
        }
        None
    }
}

/// A quadruple: operator, left operand, right operand, result.
pub struct Quad {
    pub op: String,
    pub left: String,
    pub right: String,
    pub result: String,
}

impl View for Quad {
    type V = QuadV;

    open spec fn view(&self) -> QuadV {
        (self.op@, self.left@, self.right@, self.result@)
    }
}

/// `t` followed by spaces up to `width` characters.
pub open spec fn pad_to(t: Seq<char>, width: nat) -> Seq<char> {
    if t.len() >= width {
        t
    } else {
        t + Seq::new((width - t.len()) as nat, |i: int| ' ')
    }
}

/// The text of a quadruple: `(op  , left      , right     , result)`, with the operator
/// padded to 4 characters and the operands to 10.
pub open spec fn quad_text(q: QuadV) -> Seq<char> {
    "("@ + pad_to(q.0, 4) + ", "@ + pad_to(q.1, 10) + ", "@ + pad_to(q.2, 10) + ", "@ + q.3 + ")"@
}

fn append_padded(out: &mut String, t: &str, width: usize)
    ensures
        final(out)@ == old(out)@ + pad_to(t@, width as nat),
{
    let n = t.unicode_len();
    out.append(t);
    let mut k = n;
    let ghost base = out@;
    while k < width
        invariant
            n == t@.len(),
            n <= k <= width || (k == n && n >= width),
            out@ == base + Seq::new((k - n) as nat, |i: int| ' '),
        decreases width - k,
    {
        proof {
            reveal_strlit(" ");
        }
        out.append(" ");
        k = k + 1;
        assert(out@ =~= base + Seq::new((k - n) as nat, |i: int| ' '));
    }
    proof {
        if n >= width {
            assert(out@ =~= base);
        } else {
            assert(k == width);
        }
        assert(base =~= old(out)@ + t@);
    }
}

impl Quad {
    fn new(op: &str, left: &str, right: &str, result: &str) -> (q: Self)
        ensures
            q@ == (op@, left@, right@, result@),
    {
        Quad {
            op: op.to_owned(),
            left: left.to_owned(),
            right: right.to_owned(),
            result: result.to_owned(),
        }
    }

    /// The text of the quadruple.
    pub fn to_text(&self) -> (s: String)
        ensures
            s@ == quad_text(self@),
    {
        let mut s = "(".to_owned();
        append_padded(&mut s, self.op.as_str(), 4);
        s.append(", ");
        append_padded(&mut s, self.left.as_str(), 10);
        s.append(", ");
        append_padded(&mut s, self.right.as_str(), 10);
        s.append(", ");
        s.append(self.result.as_str());
        s.append(")");
        s
    }
}

/// The state of the compiler as text.
pub struct CState {
    pub funcs: Map<Seq<char>, FuncModel>,
    pub quads: Seq<QuadV>,
    pub poper: Seq<Seq<char>>,
    pub pila_o: Seq<Seq<char>>,
    pub p_types: Seq<Seq<char>>,
    pub temp_count: usize,
    pub errors: Seq<Seq<char>>,
    pub current_func: Seq<char>,
}

/// The compiler: symbol table, quadruples, the operator, operand and type stacks,
/// the errors found and the scope being compiled.
pub struct Compiler {
    pub dir: DirFunc,
    pub quads: Vec<Quad>,
    pub poper: Vec<String>,
    pub pila_o: Vec<String>,
    pub p_types: Vec<String>,
    pub temp_count: usize,
    pub errors: Vec<String>,
    pub current_func: String,
}

impl View for Compiler {
    type V = CState;

    open spec fn view(&self) -> CState {
        CState {
            funcs: self.dir@,
            quads: self.quads@.map_values(|q: Quad| q@),
            poper: strs(self.poper@),
            pila_o: strs(self.pila_o@),
            p_types: strs(self.p_types@),
            temp_count: self.temp_count,
            errors: strs(self.errors@),
            current_func: self.current_func@,
        }
    }
}

/// Every operand on the stack has its type on the type stack.
pub open spec fn st_wf(c: CState) -> bool {
    c.pila_o.len() == c.p_types.len()
}

/// Name of temporary number `n`.
pub open spec fn temp_name(n: nat) -> Seq<char> {
    "t"@ + decimal(n)
}

/// Whether `name` is written as a number.
pub open spec fn is_number_text(name: Seq<char>) -> bool {
    name.len() > 0 && '0' <= name[0] && name[0] <= '9'
}

/// Type of an operand: a number with a point is a float, another number an integer;
/// a name has the type it is declared with, or integer when it is not declared.
pub open spec fn type_of_spec(c: CState, name: Seq<char>) -> Seq<char> {
    if name.contains('.') {
        "flotante"@
    } else if is_number_text(name) {
        "entero"@
    } else {
        match type_in(c.funcs, c.current_func, name) {
            Some(t) => t,
            None => "entero"@,
        }
    }
}

/// `c` with quadruple `(op, l, r, res)` appended.
pub open spec fn st_emit(c: CState, op: Seq<char>, l: Seq<char>, r: Seq<char>, res: Seq<char>) -> CState {
    CState { quads: c.quads.push((op, l, r, res)), ..c }
}

/// `c` with operand `v` of type `t` pushed.
pub open spec fn st_push(c: CState, v: Seq<char>, t: Seq<char>) -> CState {
    CState { pila_o: c.pila_o.push(v), p_types: c.p_types.push(t), ..c }
}

/// `c` with error `m` recorded.
pub open spec fn st_error(c: CState, m: Seq<char>) -> CState {
    CState { errors: c.errors.push(m), ..c }
}

/// `c` with variable `v` of type `t` declared in the current function, if that
/// function is in the table.
pub open spec fn st_declare(c: CState, v: Seq<char>, t: Seq<char>) -> CState {
    if c.funcs.contains_key(c.current_func) {
        CState {
            funcs: c.funcs.insert(
                c.current_func,
                (c.funcs[c.current_func].0, c.funcs[c.current_func].1.insert(v, t)),
            ),
            ..c
        }
    } else {
        c
    }
}

/// `c` with a new temporary counted (the count wraps around at the end of its range);
/// its name is `temp_name` of the new count.
pub open spec fn st_new_temp(c: CState) -> CState {
    CState { temp_count: if c.temp_count < usize::MAX { (c.temp_count + 1) as usize } else { 0 }, ..c }
}

/// Applies the operator on top of the stack to the two operands below it: the
/// result goes to a new temporary (declared in the current function), which is pushed;
/// an operation the semantic cube does not define records an error instead.
/// Nothing happens with fewer than two operands or no operator.
pub open spec fn st_resolve_top(c: CState) -> CState {
    if c.pila_o.len() < 2 || c.poper.len() == 0 {
        c
    } else {
        let n = c.pila_o.len();
        let right_val = c.pila_o[n - 1];
        let right_type = c.p_types[n - 1];
        let left_val = c.pila_o[n - 2];
        let left_type = c.p_types[n - 2];
        let op = c.poper.last();
        let c1 = CState {
            pila_o: c.pila_o.subrange(0, n - 2),
            p_types: c.p_types.subrange(0, n - 2),
            poper: c.poper.drop_last(),
            ..c
        };
        let res = cube_or_err(left_type, right_type, op);
        if res == "err"@ {
            st_error(c1, "Type mismatch: "@ + left_type + " "@ + op + " "@ + right_type)
        } else {
            let c2 = st_new_temp(c1);
            let temp = temp_name(c2.temp_count as nat);
            st_push(st_emit(st_declare(c2, temp, res), op, left_val, right_val, temp), temp, res)
        }
    }
}

/// Whether the operator on top of the stack is one of `ops`.
pub open spec fn top_in(c: CState, ops: Seq<Seq<char>>) -> bool {
    c.poper.len() > 0 && ops.contains(c.poper.last())
}

/// The additive operators.
pub open spec fn add_ops() -> Seq<Seq<char>> {
    seq![PLUS@, SUBS@]
}

/// The multiplicative operators.
pub open spec fn mul_ops() -> Seq<Seq<char>> {
    seq![MULTP@, DIV@]
}

/// The arithmetic operators.
pub open spec fn arith_ops() -> Seq<Seq<char>> {
    seq![PLUS@, SUBS@, MULTP@, DIV@]
}

/// The relational operators.
pub open spec fn rel_ops() -> Seq<Seq<char>> {
    seq![MORE@, LESS@, NOT_EQUAL@, EQUAL@]
}

pub open spec fn st_resolve_if_top_in(c: CState, ops: Seq<Seq<char>>) -> CState {
    if top_in(c, ops) {
        st_resolve_top(c)
    } else {
        c
    }
}

/// Resolves operators while the one on top is one of `ops` (all of them up to the
/// nearest `(` when `until_paren`), as long as two operands are there to apply it to.
/// With fewer than two operands under such an operator (left so by an earlier type
/// error) it stops and leaves the operator on the stack: applying it could not make
/// progress, and resolving would only retry it forever.
pub open spec fn st_flush(c: CState, ops: Seq<Seq<char>>, until_paren: bool) -> CState
    decreases c.poper.len(),
{
    if c.poper.len() > 0 && c.pila_o.len() >= 2 && (if until_paren {
        c.poper.last() != "("@
    } else {
        ops.contains(c.poper.last())
    }) {
        st_flush(st_resolve_top(c), ops, until_paren)
    } else {
        c
    }
}

impl Compiler {
    pub fn new(dir: DirFunc) -> (c: Self)
        ensures
            c@ == (CState {
                funcs: dir@,
                quads: Seq::empty(),
                poper: Seq::empty(),
                pila_o: Seq::empty(),
                p_types: Seq::empty(),
                temp_count: 0,
                errors: Seq::empty(),
                current_func: "global"@,
            }),
    {
        let c = Compiler {
            dir,
            quads: Vec::new(),
            poper: Vec::new(),
            pila_o: Vec::new(),
            p_types: Vec::new(),
            temp_count: 0,
            errors: Vec::new(),
            current_func: "global".to_owned(),
        };
        proof {
            assert(c@.quads =~= Seq::empty());
            assert(c@.poper =~= Seq::empty());
            assert(c@.pila_o =~= Seq::empty());
            assert(c@.p_types =~= Seq::empty());
            assert(c@.errors =~= Seq::empty());
        }
        c
    }

    fn new_temp(&mut self) -> (t: String)
        ensures
            final(self)@ == st_new_temp(old(self)@),
            t@ == temp_name(final(self).temp_count as nat),
    {
        if self.temp_count < usize::MAX {
            self.temp_count = self.temp_count + 1;
        } else {
            self.temp_count = 0;
        }
        concat2("t", usize_to_string(self.temp_count).as_str())
    }

    fn emit(&mut self, op: &str, left: &str, right: &str, result: &str)
        ensures
            final(self)@ == st_emit(old(self)@, op@, left@, right@, result@),
    {
        self.quads.push(Quad::new(op, left, right, result));
        proof {
            assert(self@.quads =~= old(self)@.quads.push((op@, left@, right@, result@)));
        }
    }

    fn push_operand(&mut self, v: String, t: String)
        ensures
            final(self)@ == st_push(old(self)@, v@, t@),
    {
        let ghost vv = v@;
        let ghost tv = t@;
        self.pila_o.push(v);
        self.p_types.push(t);
        proof {
            assert(self@.pila_o =~= old(self)@.pila_o.push(vv));
            assert(self@.p_types =~= old(self)@.p_types.push(tv));
        }
    }

    fn push_error(&mut self, m: String)
        ensures
            final(self)@ == st_error(old(self)@, m@),
    {
        let ghost mv = m@;
        self.errors.push(m);
        proof {
            assert(self@.errors =~= old(self)@.errors.push(mv));
        }
    }

    /// Declares a variable in the current function, if it is in the table.
    fn declare_in_current(&mut self, v: String, t: &str)
        ensures
            final(self)@ == st_declare(old(self)@, v@, t@),
    {
        match self.dir.funciones.find(self.current_func.as_str()) {
            None => {},
            Some(i) => {
                let vacia = FuncEntry { tipo: String::new(), vars: NameMap::new() };
                let mut entry = self.dir.funciones.replace_at(i, vacia);
                let ghost e0 = entry;
                let ghost vv = v@;
                entry.vars.insert(v, VarEntry { tipo: t.to_owned() });
                proof {
                    assert(entry@.1 =~= e0@.1.insert(vv, t@));
                }
                let _ = self.dir.funciones.replace_at(i, entry);
                proof {
                    let c = old(self)@;
                    assert(self.dir@ =~= c.funcs.insert(
                        c.current_func,
                        (c.funcs[c.current_func].0, c.funcs[c.current_func].1.insert(vv, t@)),
                    ));
                }
            },
        }
    }

    fn type_of(&self, name: &str) -> (t: String)
        ensures
            t@ == type_of_spec(self@, name@),
    {
        let n = name.unicode_len();
        let mut k: usize = 0;
        while k < n
            invariant
                n == name@.len(),
                k <= n,
                forall|m: int| 0 <= m < k ==> name@[m] != '.',
            decreases n - k,
        {
            if name.get_char(k) == '.' {
                return "flotante".to_owned();
            }
            k = k + 1;
        }
        if n > 0 {
            let c = name.get_char(0);
            if '0' <= c && c <= '9' {
                return "entero".to_owned();
            }
        }
        match self.dir.tipo_de(self.current_func.as_str(), name) {
            Some(t) => t.to_owned(),
            None => "entero".to_owned(),
        }
    }

    /// Pops the operand on top, with its type.
    fn pop_operand(&mut self) -> (r: (String, String))
        requires
            st_wf(old(self)@),
            old(self)@.pila_o.len() > 0,
        ensures
            r.0@ == old(self)@.pila_o.last(),
            r.1@ == old(self)@.p_types.last(),
            final(self)@ == (CState {
                pila_o: old(self)@.pila_o.drop_last(),
                p_types: old(self)@.p_types.drop_last(),
                ..old(self)@
            }),
    {
        let v = self.pila_o.pop().unwrap();
        let t = self.p_types.pop().unwrap();
        proof {
            assert(self@.pila_o =~= old(self)@.pila_o.drop_last());
            assert(self@.p_types =~= old(self)@.p_types.drop_last());
        }
        (v, t)
    }

    fn resolve_top(&mut self)
        requires
            st_wf(old(self)@),
        ensures
            st_wf(final(self)@),
            final(self)@ == st_resolve_top(old(self)@),
    {
        if self.pila_o.len() < 2 || self.poper.len() == 0 {
            return;
        }
        let (right_val, right_type) = self.pop_operand();
        let (left_val, left_type) = self.pop_operand();
        let op = self.poper.pop().unwrap();
        proof {
            let c = old(self)@;
            let n = c.pila_o.len();
            assert(self@.poper =~= c.poper.drop_last());
            assert(self@.pila_o =~= c.pila_o.subrange(0, n - 2));
            assert(self@.p_types =~= c.p_types.subrange(0, n - 2));
        }
        let res_type = obtain_type(left_type.as_str(), right_type.as_str(), op.as_str());
        if str_eq(res_type, "err") {
            let mut m = "Type mismatch: ".to_owned();
            m.append(left_type.as_str());
            m.append(" ");
            m.append(op.as_str());
            m.append(" ");
            m.append(right_type.as_str());
            self.push_error(m);
            return;
        }
        let temp = self.new_temp();
        self.declare_in_current(temp.clone(), res_type);
        self.emit(op.as_str(), left_val.as_str(), right_val.as_str(), temp.as_str());
        self.push_operand(temp, res_type.to_owned());
    }
}

/// A list of words as text.
pub open spec fn words(ops: Seq<&str>) -> Seq<Seq<char>> {
    ops.map_values(|o: &str| o@)
}

pub open spec fn st_pop_operand(c: CState) -> CState {
    CState { pila_o: c.pila_o.drop_last(), p_types: c.p_types.drop_last(), ..c }
}

pub open spec fn st_push_op(c: CState, op: Seq<char>) -> CState {
    CState { poper: c.poper.push(op), ..c }
}

/// Pushes an operand with its type.
pub open spec fn st_a1(c: CState, name: Seq<char>) -> CState {
    st_push(c, name, type_of_spec(c, name))
}

/// Pushes `+` or `-`, first resolving an additive operator on top.
pub open spec fn st_a2(c: CState, op: Seq<char>) -> CState {
    st_push_op(st_resolve_if_top_in(c, add_ops()), op)
}

/// Pushes `*` or `/`, first resolving a multiplicative operator on top.
pub open spec fn st_a3(c: CState, op: Seq<char>) -> CState {
    st_push_op(st_resolve_if_top_in(c, mul_ops()), op)
}

/// Pushes a relational operator, first resolving the arithmetic operators on top and
/// then a relational one.
pub open spec fn st_a4(c: CState, op: Seq<char>) -> CState {
    st_push_op(st_resolve_if_top_in(st_flush(c, arith_ops(), false), rel_ops()), op)
}

/// Pushes the bottom mark of a parenthesis.
pub open spec fn st_a5(c: CState) -> CState {
    st_push_op(c, "("@)
}

/// Resolves up to the nearest `(` and drops it.
pub open spec fn st_a6(c: CState) -> CState {
    let c1 = st_flush(c, Seq::empty(), true);
    if c1.poper.len() > 0 {
        CState { poper: c1.poper.drop_last(), ..c1 }
    } else {
        c1
    }
}

/// Assigns the operand on top to variable `var`, when the types allow it: the same
/// type, or an integer into a float.
pub open spec fn st_a7(c: CState, var: Seq<char>) -> CState {
    if c.pila_o.len() == 0 {
        st_error(c, "Assignment error: empty stack for '"@ + var + "'"@)
    } else {
        let rhs_val = c.pila_o.last();
        let rhs_type = c.p_types.last();
        let c1 = st_pop_operand(c);
        let lhs_type = type_of_spec(c1, var);
        if lhs_type != rhs_type && !(lhs_type == "flotante"@ && rhs_type == "entero"@) {
            st_error(
                c1,
                "Type mismatch: cannot assign "@ + rhs_type + " to "@ + lhs_type + " ('"@ + var + "')"@,
            )
        } else {
            st_emit(c1, "="@, rhs_val, "_"@, var)
        }
    }
}

/// Prints the operand on top, if there is one.
pub open spec fn st_a8(c: CState) -> CState {
    if c.pila_o.len() == 0 {
        c
    } else {
        st_emit(st_pop_operand(c), "escribe"@, c.pila_o.last(), "_"@, "_"@)
    }
}

/// Prints a string literal.
pub open spec fn st_a9(c: CState, s: Seq<char>) -> CState {
    st_emit(c, "escribe"@, s, "_"@, "_"@)
}

impl Compiler {
    fn push_op(&mut self, op: &str)
        ensures
            final(self)@ == st_push_op(old(self)@, op@),
    {
        self.poper.push(op.to_owned());
        proof {
            assert(self@.poper =~= old(self)@.poper.push(op@));
        }
    }

    fn top_is_in(&self, ops: &[&str]) -> (b: bool)
        ensures
            b == top_in(self@, words(ops@)),
    {
        let n = self.poper.len();
        if n == 0 {
            return false;
        }
        let top = self.poper[n - 1].as_str();
        let mut k: usize = 0;
        while k < ops.len()
            invariant
                k <= ops@.len(),
                n == self@.poper.len(),
                n > 0,
                top@ == self@.poper.last(),
                forall|m: int| 0 <= m < k ==> ops@[m]@ != top@,
            decreases ops@.len() - k,
        {
            if str_eq(ops[k], top) {
                assert(words(ops@)[k as int] == top@);
                assert(words(ops@).contains(top@));
                return true;
            }
            k = k + 1;
        }
        proof {
            if words(ops@).contains(top@) {
                let m = choose|m: int| 0 <= m < words(ops@).len() && words(ops@)[m] == top@;
                assert(ops@[m]@ == top@);
            }
        }
        false
    }

    fn resolve_if_top_in(&mut self, ops: &[&str])
        requires
            st_wf(old(self)@),
        ensures
            st_wf(final(self)@),
            final(self)@ == st_resolve_if_top_in(old(self)@, words(ops@)),
    {
        if self.top_is_in(ops) {
            self.resolve_top();
        }
    }

    /// Resolves the arithmetic operators on top of the stack; it stops, as `flush_all`
    /// does, where fewer than two operands remain.
    fn flush_arithmetic(&mut self)
        requires
            st_wf(old(self)@),
        ensures
            st_wf(final(self)@),
            final(self)@ == st_flush(old(self)@, arith_ops(), false),
    {
        let ops: [&str; 4] = [PLUS, SUBS, MULTP, DIV];
        assert(words(ops@) =~= arith_ops());
        while self.top_is_in(&ops) && self.pila_o.len() >= 2
            invariant
                st_wf(self@),
                words(ops@) == arith_ops(),
                st_flush(self@, arith_ops(), false) == st_flush(old(self)@, arith_ops(), false),
            decreases self@.poper.len(),
        {
            self.resolve_top();
        }
    }

    /// Resolves the operators on top of the stack down to the nearest `(`. It stops,
    /// leaving the operator in place, where fewer than two operands remain under an
    /// operator that is not `(` (as after a type error, e.g. `x = f() + 1 + 2;` with
    /// `f` returning nothing), since no operator can be applied there.
    pub fn flush_all(&mut self)
        requires
            st_wf(old(self)@),
        ensures
            st_wf(final(self)@),
            final(self)@ == st_flush(old(self)@, Seq::empty(), true),
    {
        while self.poper.len() > 0 && !str_eq(self.poper[self.poper.len() - 1].as_str(), "(")
            && self.pila_o.len() >= 2
            invariant
                st_wf(self@),
                st_flush(self@, Seq::empty(), true) == st_flush(old(self)@, Seq::empty(), true),
            decreases self@.poper.len(),
        {
            self.resolve_top();
        }
    }

    fn a1_push_operand(&mut self, name: &str)
        requires
            st_wf(old(self)@),
        ensures
            st_wf(final(self)@),
            final(self)@ == st_a1(old(self)@, name@),
    {
        let t = self.type_of(name);
        self.push_operand(name.to_owned(), t);
    }

    fn a2_push_add_sub(&mut self, op: &str)
        requires
            st_wf(old(self)@),
        ensures
            st_wf(final(self)@),
            final(self)@ == st_a2(old(self)@, op@),
    {
        let ops: [&str; 2] = [PLUS, SUBS];
        assert(words(ops@) =~= add_ops());
        self.resolve_if_top_in(&ops);
        self.push_op(op);
    }

    fn a3_push_mult_div(&mut self, op: &str)
        requires
            st_wf(old(self)@),
        ensures
            st_wf(final(self)@),
            final(self)@ == st_a3(old(self)@, op@),
    {
        let ops: [&str; 2] = [MULTP, DIV];
        assert(words(ops@) =~= mul_ops());
        self.resolve_if_top_in(&ops);
        self.push_op(op);
    }

    fn a4_push_relational(&mut self, op: &str)
        requires
            st_wf(old(self)@),
        ensures
            st_wf(final(self)@),
            final(self)@ == st_a4(old(self)@, op@),
    {
        self.flush_arithmetic();
        let ops: [&str; 4] = [MORE, LESS, NOT_EQUAL, EQUAL];
        assert(words(ops@) =~= rel_ops());
        self.resolve_if_top_in(&ops);
        self.push_op(op);
    }

    fn a5_open_paren(&mut self)
        ensures
            final(self)@ == st_a5(old(self)@),
    {
        self.push_op("(");
    }

    fn a6_close_paren(&mut self)
        requires
            st_wf(old(self)@),
        ensures
            st_wf(final(self)@),
            final(self)@ == st_a6(old(self)@),
    {
        self.flush_all();
        let ghost c1 = self@;
        if self.poper.len() > 0 {
            self.poper.pop();
            proof {
                assert(self@.poper =~= c1.poper.drop_last());
            }
        }
    }

    fn a7_assignment(&mut self, var_name: &str)
        requires
            st_wf(old(self)@),
        ensures
            st_wf(final(self)@),
            final(self)@ == st_a7(old(self)@, var_name@),
    {
        if self.pila_o.len() == 0 {
            let mut m = "Assignment error: empty stack for '".to_owned();
            m.append(var_name);
            m.append("'");
            self.push_error(m);
            return;
        }
        let (rhs_val, rhs_type) = self.pop_operand();
        let lhs_type = self.type_of(var_name);
        if !(lhs_type == rhs_type) && !(str_eq(lhs_type.as_str(), "flotante") && str_eq(rhs_type.as_str(), "entero")) {
            let mut m = "Type mismatch: cannot assign ".to_owned();
            m.append(rhs_type.as_str());
            m.append(" to ");
            m.append(lhs_type.as_str());
            m.append(" ('");
            m.append(var_name);
            m.append("')");
            self.push_error(m);
            return;
        }
        self.emit("=", rhs_val.as_str(), "_", var_name);
    }

    fn a8_write(&mut self)
        requires
            st_wf(old(self)@),
        ensures
            st_wf(final(self)@),
            final(self)@ == st_a8(old(self)@),
    {
        if self.pila_o.len() == 0 {
            return;
        }
        let (dato, _) = self.pop_operand();
        self.emit("escribe", dato.as_str(), "_", "_");
    }

    fn a9_write_literal(&mut self, s: &str)
        ensures
            final(self)@ == st_a9(old(self)@, s@),
    {
        self.emit("escribe", s, "_", "_");
    }
}

/// The text of the input that node `p` covers.
pub open spec fn text(src: Seq<char>, p: Tree) -> Seq<char> {
    if 0 <= p.start <= p.end <= src.len() {
        src.subrange(p.start as int, p.end as int)
    } else {
        Seq::empty()
    }
}

/// `c` with the target of the jump at quadruple `idx` set to `target`.
pub open spec fn st_patch(c: CState, idx: int, target: nat) -> CState {
    if 0 <= idx < c.quads.len() {
        let q = c.quads[idx];
        CState { quads: c.quads.update(idx, (q.0, q.1, q.2, decimal(target))), ..c }
    } else {
        c
    }
}

/// `c` with the operand on top popped, if there is one (and its type, if there is one).
pub open spec fn st_pop_any(c: CState) -> CState {
    CState {
        pila_o: if c.pila_o.len() > 0 { c.pila_o.drop_last() } else { c.pila_o },
        p_types: if c.p_types.len() > 0 { c.p_types.drop_last() } else { c.p_types },
        ..c
    }
}

/// The operand on top, or `_` when there is none.
pub open spec fn top_or_blank(c: CState) -> Seq<char> {
    if c.pila_o.len() > 0 { c.pila_o.last() } else { "_"@ }
}

/// EXPRESION: the first child and the other expressions are walked as EXPR, a
/// relational operator is pushed; then everything down to the nearest `(` is resolved.
pub open spec fn st_walk_expresion(c: CState, p: Tree, src: Seq<char>) -> CState
    decreases p, 1nat, 0int,
{
    st_flush(st_expresion_items(c, p, src, 0), Seq::empty(), true)
}

pub open spec fn st_expresion_items(c: CState, p: Tree, src: Seq<char>, k: int) -> CState
    decreases p, 0nat, p.children.len() - k,
{
    if 0 <= k < p.children.len() {
        let ch = p.children[k];
        let c1 = if k == 0 || ch.rule == Rule::EXPR {
            st_walk_expr(c, ch, src)
        } else {
            st_a4(c, text(src, ch))
        };
        st_expresion_items(c1, p, src, k + 1)
    } else {
        c
    }
}

/// EXPR: each TERM is walked, the `+` or `-` before it being pushed first.
pub open spec fn st_walk_expr(c: CState, p: Tree, src: Seq<char>) -> CState
    decreases p, 1nat, 0int,
{
    st_expr_items(c, p, src, 0, None)
}

pub open spec fn st_expr_items(c: CState, p: Tree, src: Seq<char>, k: int, pending: Option<Seq<char>>) -> CState
    decreases p, 0nat, p.children.len() - k,
{
    if 0 <= k < p.children.len() {
        let ch = p.children[k];
        if ch.rule == Rule::TERM {
            let c1 = match pending {
                Some(op) => st_a2(c, op),
                None => c,
            };
            st_expr_items(st_walk_term(c1, ch, src), p, src, k + 1, None)
        } else {
            st_expr_items(c, p, src, k + 1, Some(text(src, ch)))
        }
    } else {
        c
    }
}

/// TERM: each FACTOR is walked, the `*` or `/` before it being pushed first.
pub open spec fn st_walk_term(c: CState, p: Tree, src: Seq<char>) -> CState
    decreases p, 1nat, 0int,
{
    st_term_items(c, p, src, 0, None)
}

pub open spec fn st_term_items(c: CState, p: Tree, src: Seq<char>, k: int, pending: Option<Seq<char>>) -> CState
    decreases p, 0nat, p.children.len() - k,
{
    if 0 <= k < p.children.len() {
        let ch = p.children[k];
        if ch.rule == Rule::FACTOR {
            let c1 = match pending {
                Some(op) => st_a3(c, op),
                None => c,
            };
            st_term_items(st_walk_factor(c1, ch, src), p, src, k + 1, None)
        } else {
            st_term_items(c, p, src, k + 1, Some(text(src, ch)))
        }
    } else {
        c
    }
}

/// FACTOR: its single child is walked by its rule.
pub open spec fn st_walk_factor(c: CState, p: Tree, src: Seq<char>) -> CState
    decreases p, 1nat, 0int,
{
    if p.children.len() == 0 {
        c
    } else {
        let inner = p.children[0];
        match inner.rule {
            Rule::SINGLE_EXPR => st_walk_single_expr(c, inner, src),
            Rule::CALL => st_walk_call(c, inner, src),
            Rule::SINGLE_FACTOR => st_walk_single_factor(c, inner, src),
            _ => c,
        }
    }
}

/// SINGLE_EXPR: a `(` mark, the inner expression, and the closing of the mark.
pub open spec fn st_walk_single_expr(c: CState, p: Tree, src: Seq<char>) -> CState
    decreases p, 1nat, 0int,
{
    st_a6(st_single_expr_items(st_a5(c), p, src, 0))
}

pub open spec fn st_single_expr_items(c: CState, p: Tree, src: Seq<char>, k: int) -> CState
    decreases p, 0nat, p.children.len() - k,
{
    if 0 <= k < p.children.len() {
        let ch = p.children[k];
        let c1 = if ch.rule == Rule::EXPRESION {
            st_walk_expresion(c, ch, src)
        } else {
            c
        };
        st_single_expr_items(c1, p, src, k + 1)
    } else {
        c
    }
}

/// SINGLE_FACTOR: an operand. A `+` before it changes nothing. A `-` before a name
/// becomes `0 - name`, computed at once into a temporary that is pushed in its place
/// (an operator already waiting on the stack is left alone); a `-` before a number
/// negates the number.
pub open spec fn st_walk_single_factor(c: CState, p: Tree, src: Seq<char>) -> CState {
    st_single_factor_items(c, p, src, 0, None)
}

pub open spec fn st_single_factor_items(c: CState, p: Tree, src: Seq<char>, k: int, unary: Option<Seq<char>>) -> CState
    decreases p.children.len() - k,
{
    if 0 <= k < p.children.len() {
        let ch = p.children[k];
        let t = text(src, ch);
        if ch.rule == Rule::ID {
            let c1 = match unary {
                Some(u) => if u == "-"@ {
                    st_resolve_top(st_push_op(st_a1(st_a1(c, "0"@), t), "-"@))
                } else {
                    st_a1(c, t)
                },
                None => st_a1(c, t),
            };
            st_single_factor_items(c1, p, src, k + 1, None)
        } else if ch.rule == Rule::CTE {
            let c0 = st_a1(c, t);
            let c1 = match unary {
                Some(u) => if u == "-"@ {
                    let ty = c0.p_types.last();
                    st_push(st_pop_operand(c0), "-"@ + t, ty)
                } else {
                    c0
                },
                None => c0,
            };
            st_single_factor_items(c1, p, src, k + 1, None)
        } else {
            st_single_factor_items(c, p, src, k + 1, Some(t))
        }
    } else {
        c
    }
}

/// A sign before a constant: with `-` the operand pushed is the constant's text with a
/// `-` in front, with `+` it is the constant's text; either way it has the constant's
/// type, and nothing else changes (no quadruple, no operator, no error).
pub proof fn law_signed_constant(c: CState, p: Tree, src: Seq<char>)
    requires
        p.children.len() == 2,
        p.children[0].rule == Rule::SIGN,
        p.children[1].rule == Rule::CTE,
    ensures
        ({
            let t = text(src, p.children[1]);
            let r = st_walk_single_factor(c, p, src);
            &&& r.pila_o == c.pila_o.push(if text(src, p.children[0]) == "-"@ { "-"@ + t } else { t })
            &&& r.p_types == c.p_types.push(type_of_spec(c, t))
            &&& r.quads == c.quads
            &&& r.poper == c.poper
            &&& r.errors == c.errors
            &&& r.funcs == c.funcs
        }),
{
    let t = text(src, p.children[1]);
    let s = text(src, p.children[0]);
    let c1 = st_single_factor_items(c, p, src, 1, Some(s));
    assert(st_walk_single_factor(c, p, src) == c1);
    let c0 = st_a1(c, t);
    assert(c0.pila_o.drop_last() =~= c.pila_o);
    assert(c0.p_types.drop_last() =~= c.p_types);
    assert(c0.p_types.last() == type_of_spec(c, t));
    let c2 = if s == "-"@ {
        st_push(st_pop_operand(c0), "-"@ + t, c0.p_types.last())
    } else {
        c0
    };
    assert(c1 == st_single_factor_items(c2, p, src, 2, None));
}

/// A `+` before a name changes nothing: the name is pushed with its type, as it is
/// without the sign, and nothing else changes.
pub proof fn law_plus_name(c: CState, p: Tree, src: Seq<char>)
    requires
        p.children.len() == 2,
        p.children[0].rule == Rule::SIGN,
        text(src, p.children[0]) == "+"@,
        p.children[1].rule == Rule::ID,
    ensures
        st_walk_single_factor(c, p, src) == st_a1(c, text(src, p.children[1])),
{
    reveal_strlit("+");
    reveal_strlit("-");
    assert("+"@[0] != "-"@[0]);
    let s = text(src, p.children[0]);
    let c1 = st_single_factor_items(c, p, src, 1, Some(s));
    assert(st_walk_single_factor(c, p, src) == c1);
    assert(c1 == st_single_factor_items(st_a1(c, text(src, p.children[1])), p, src, 2, None));
}

/// Emits a PARAM-style quadruple for each argument value.
pub open spec fn st_emit_params(c: CState, vals: Seq<Seq<char>>) -> CState
    decreases vals.len(),
{
    if vals.len() == 0 {
        c
    } else {
        st_emit_params(st_emit(c, "param"@, vals[0], "_"@, "_"@), vals.drop_first())
    }
}

/// Return type of function `f`, or integer when it is not in the table.
pub open spec fn ret_type(c: CState, f: Seq<char>) -> Seq<char> {
    if c.funcs.contains_key(f) { c.funcs[f].0 } else { "entero"@ }
}

/// CALL: each argument is walked and taken off the stack; then one `param` per
/// argument, a `gosub` into a new temporary, which is pushed with the function's type.
pub open spec fn st_walk_call(c: CState, p: Tree, src: Seq<char>) -> CState
    decreases p, 1nat, 0int,
{
    if p.children.len() == 0 {
        c
    } else {
        let name = text(src, p.children[0]);
        let (c1, vals) = st_call_items(c, p, src, 1, Seq::empty());
        let c2 = st_new_temp(st_emit_params(c1, vals));
        let temp = temp_name(c2.temp_count as nat);
        let rt = ret_type(c2, name);
        st_push(st_emit(st_declare(c2, temp, rt), "gosub"@, name, "_"@, temp), temp, rt)
    }
}

pub open spec fn st_call_items(c: CState, p: Tree, src: Seq<char>, k: int, vals: Seq<Seq<char>>) -> (CState, Seq<Seq<char>>)
    decreases p, 0nat, p.children.len() - k,
{
    if 0 <= k < p.children.len() {
        let ch = p.children[k];
        if ch.rule == Rule::EXPRESION {
            let c1 = st_walk_expresion(c, ch, src);
            if c1.pila_o.len() > 0 && c1.p_types.len() > 0 {
                st_call_items(st_pop_operand(c1), p, src, k + 1, vals.push(c1.pila_o.last()))
            } else {
                st_call_items(st_pop_any(c1), p, src, k + 1, vals)
            }
        } else {
            st_call_items(c, p, src, k + 1, vals)
        }
    } else {
        (c, vals)
    }
}

/// ASIGNA: the expression, then the assignment to the variable.
pub open spec fn st_walk_asigna(c: CState, p: Tree, src: Seq<char>) -> CState
    decreases p, 1nat, 0int,
{
    if p.children.len() < 2 {
        c
    } else {
        st_a7(st_walk_expresion(c, p.children[1], src), text(src, p.children[0]))
    }
}

/// IMPRIME: each expression is walked and printed; each string literal is printed.
pub open spec fn st_walk_imprime(c: CState, p: Tree, src: Seq<char>) -> CState
    decreases p, 1nat, 0int,
{
    st_imprime_items(c, p, src, 0)
}

pub open spec fn st_imprime_items(c: CState, p: Tree, src: Seq<char>, k: int) -> CState
    decreases p, 0nat, p.children.len() - k,
{
    if 0 <= k < p.children.len() {
        let ch = p.children[k];
        let c1 = if ch.rule == Rule::PRINT_STATEMENT && ch.children.len() > 0 {
            let inner = ch.children[0];
            if inner.rule == Rule::EXPRESION {
                proof {
                    assert(decreases_to!(p => inner));
                }
                st_a8(st_walk_expresion(c, inner, src))
            } else if inner.rule == Rule::LETRERO {
                st_a9(c, text(src, inner))
            } else {
                c
            }
        } else {
            c
        };
        st_imprime_items(c1, p, src, k + 1)
    } else {
        c
    }
}

/// CONDICION: the condition, a conditional jump over the true branch; with an else
/// branch, a jump over it at the end of the true branch. Jumps go to the index of the
/// quadruple after what they skip.
pub open spec fn st_walk_condicion(c: CState, p: Tree, src: Seq<char>) -> CState
    decreases p, 1nat, 0int,
{
    if p.children.len() < 2 {
        c
    } else {
        let c1 = st_walk_expresion(c, p.children[0], src);
        let cond = top_or_blank(c1);
        let c2 = st_pop_any(c1);
        let gotof_idx = c2.quads.len();
        let c3 = st_walk_body(st_emit(c2, "GotoF"@, cond, "_"@, "?"@), p.children[1], src);
        if p.children.len() > 2 {
            let goto_idx = c3.quads.len();
            let c4 = st_emit(c3, "Goto"@, "_"@, "_"@, "?"@);
            let c5 = st_patch(c4, gotof_idx as int, c4.quads.len());
            let c6 = st_walk_body(c5, p.children[2], src);
            st_patch(c6, goto_idx as int, c6.quads.len())
        } else {
            st_patch(c3, gotof_idx as int, c3.quads.len())
        }
    }
}

/// CICLO: the condition, a conditional jump out, the body, and a jump back to the
/// condition.
pub open spec fn st_walk_ciclo(c: CState, p: Tree, src: Seq<char>) -> CState
    decreases p, 1nat, 0int,
{
    if p.children.len() < 2 {
        c
    } else {
        let loop_start = c.quads.len();
        let c1 = st_walk_expresion(c, p.children[0], src);
        let cond = top_or_blank(c1);
        let c2 = st_pop_any(c1);
        let gotof_idx = c2.quads.len();
        let c3 = st_walk_body(st_emit(c2, "GotoF"@, cond, "_"@, "?"@), p.children[1], src);
        let c4 = st_emit(c3, "Goto"@, "_"@, "_"@, decimal(loop_start));
        st_patch(c4, gotof_idx as int, c4.quads.len())
    }
}

/// BODY: each statement in turn.
pub open spec fn st_walk_body(c: CState, p: Tree, src: Seq<char>) -> CState
    decreases p, 1nat, 0int,
{
    st_body_items(c, p, src, 0)
}

pub open spec fn st_body_items(c: CState, p: Tree, src: Seq<char>, k: int) -> CState
    decreases p, 0nat, p.children.len() - k,
{
    if 0 <= k < p.children.len() {
        let ch = p.children[k];
        let c1 = if ch.rule == Rule::ESTATUTO {
            st_walk_estatuto(c, ch, src)
        } else {
            c
        };
        st_body_items(c1, p, src, k + 1)
    } else {
        c
    }
}

/// ESTATUTO: its single child is walked by its rule; a block walks its statements.
pub open spec fn st_walk_estatuto(c: CState, p: Tree, src: Seq<char>) -> CState
    decreases p, 1nat, 0int,
{
    if p.children.len() == 0 {
        c
    } else {
        let inner = p.children[0];
        match inner.rule {
            Rule::ASIGNA => st_walk_asigna(c, inner, src),
            Rule::CONDICION => st_walk_condicion(c, inner, src),
            Rule::CICLO => st_walk_ciclo(c, inner, src),
            Rule::CALL => st_walk_call(c, inner, src),
            Rule::IMPRIME => st_walk_imprime(c, inner, src),
            _ => st_body_items(c, inner, src, 0),
        }
    }
}

/// The text of the input that node `p` covers.
pub fn pair_text(src: &str, p: &Pair) -> (t: String)
    ensures
        t@ == text(src@, tree_of(*p)),
{
    let n = src.unicode_len();
    if p.start <= p.end && p.end <= n {
        src.substring_char(p.start, p.end).to_owned()
    } else {
        String::new()
    }
}

impl Compiler {
    fn pop_any(&mut self)
        requires
            st_wf(old(self)@),
        ensures
            st_wf(final(self)@),
            final(self)@ == st_pop_any(old(self)@),
    {
        if self.pila_o.len() > 0 {
            let _ = self.pop_operand();
        }
    }

    fn patch(&mut self, idx: usize)
        ensures
            final(self)@ == st_patch(old(self)@, idx as int, old(self)@.quads.len()),
    {
        if idx < self.quads.len() {
            let target = usize_to_string(self.quads.len());
            self.quads[idx].result = target;
            proof {
                let c = old(self)@;
                let q = c.quads[idx as int];
                assert(self@.quads =~= c.quads.update(idx as int, (q.0, q.1, q.2, decimal(c.quads.len()))));
            }
        }
    }

    /// Walks an EXPRESION node.
    pub fn walk_expresion(&mut self, pair: &Pair, src: &str)
        requires
            st_wf(old(self)@),
        ensures
            st_wf(final(self)@),
            final(self)@ == st_walk_expresion(old(self)@, tree_of(*pair), src@),
        decreases *pair,
    {
        let ghost c0 = self@;
        let mut k: usize = 0;
        while k < pair.children.len()
            invariant
                k <= pair.children@.len(),
                st_wf(self@),
                st_expresion_items(self@, tree_of(*pair), src@, k as int) == st_expresion_items(c0, tree_of(*pair), src@, 0),
            decreases pair.children@.len() - k,
        {
            let ch = &pair.children[k];
            if k == 0 || ch.rule == Rule::EXPR {
                self.walk_expr(ch, src);
            } else {
                let t = pair_text(src, ch);
                self.a4_push_relational(t.as_str());
            }
            k = k + 1;
        }
        self.flush_all();
    }

    fn walk_expr(&mut self, pair: &Pair, src: &str)
        requires
            st_wf(old(self)@),
        ensures
            st_wf(final(self)@),
            final(self)@ == st_walk_expr(old(self)@, tree_of(*pair), src@),
        decreases *pair,
    {
        let ghost c0 = self@;
        let mut pending: Option<String> = None;
        let mut k: usize = 0;
        while k < pair.children.len()
            invariant
                k <= pair.children@.len(),
                st_wf(self@),
                st_expr_items(self@, tree_of(*pair), src@, k as int, match pending { Some(o) => Some(o@), None => None })
                    == st_expr_items(c0, tree_of(*pair), src@, 0, None),
            decreases pair.children@.len() - k,
        {
            let ch = &pair.children[k];
            if ch.rule == Rule::TERM {
                match pending {
                    Some(op) => {
                        self.a2_push_add_sub(op.as_str());
                    },
                    None => {},
                }
                pending = None;
                self.walk_term(ch, src);
            } else {
                pending = Some(pair_text(src, ch));
            }
            k = k + 1;
        }
    }

    fn walk_term(&mut self, pair: &Pair, src: &str)
        requires
            st_wf(old(self)@),
        ensures
            st_wf(final(self)@),
            final(self)@ == st_walk_term(old(self)@, tree_of(*pair), src@),
        decreases *pair,
    {
        let ghost c0 = self@;
        let mut pending: Option<String> = None;
        let mut k: usize = 0;
        while k < pair.children.len()
            invariant
                k <= pair.children@.len(),
                st_wf(self@),
                st_term_items(self@, tree_of(*pair), src@, k as int, match pending { Some(o) => Some(o@), None => None })
                    == st_term_items(c0, tree_of(*pair), src@, 0, None),
            decreases pair.children@.len() - k,
        {
            let ch = &pair.children[k];
            if ch.rule == Rule::FACTOR {
                match pending {
                    Some(op) => {
                        self.a3_push_mult_div(op.as_str());
                    },
                    None => {},
                }
                pending = None;
                self.walk_factor(ch, src);
            } else {
                pending = Some(pair_text(src, ch));
            }
            k = k + 1;
        }
    }

    fn walk_factor(&mut self, pair: &Pair, src: &str)
        requires
            st_wf(old(self)@),
        ensures
            st_wf(final(self)@),
            final(self)@ == st_walk_factor(old(self)@, tree_of(*pair), src@),
        decreases *pair,
    {
        if pair.children.len() == 0 {
            return;
        }
        let inner = &pair.children[0];
        match inner.rule {
            Rule::SINGLE_EXPR => self.walk_single_expr(inner, src),
            Rule::CALL => self.walk_call(inner, src),
            Rule::SINGLE_FACTOR => self.walk_single_factor(inner, src),
            _ => {},
        }
    }

    fn walk_single_expr(&mut self, pair: &Pair, src: &str)
        requires
            st_wf(old(self)@),
        ensures
            st_wf(final(self)@),
            final(self)@ == st_walk_single_expr(old(self)@, tree_of(*pair), src@),
        decreases *pair,
    {
        self.a5_open_paren();
        let ghost c0 = self@;
        let mut k: usize = 0;
        while k < pair.children.len()
            invariant
                k <= pair.children@.len(),
                st_wf(self@),
                st_single_expr_items(self@, tree_of(*pair), src@, k as int) == st_single_expr_items(c0, tree_of(*pair), src@, 0),
            decreases pair.children@.len() - k,
        {
            let ch = &pair.children[k];
            if ch.rule == Rule::EXPRESION {
                self.walk_expresion(ch, src);
            }
            k = k + 1;
        }
        self.a6_close_paren();
    }

    fn walk_single_factor(&mut self, pair: &Pair, src: &str)
        requires
            st_wf(old(self)@),
        ensures
            st_wf(final(self)@),
            final(self)@ == st_walk_single_factor(old(self)@, tree_of(*pair), src@),
    {
        let ghost c0 = self@;
        let mut unary: Option<String> = None;
        let mut k: usize = 0;
        while k < pair.children.len()
            invariant
                k <= pair.children@.len(),
                st_wf(self@),
                st_single_factor_items(self@, tree_of(*pair), src@, k as int, match unary { Some(o) => Some(o@), None => None })
                    == st_single_factor_items(c0, tree_of(*pair), src@, 0, None),
            decreases pair.children@.len() - k,
        {
            let ch = &pair.children[k];
            let t = pair_text(src, ch);
            if ch.rule == Rule::ID {
                let negated = match &unary {
                    Some(u) => str_eq(u.as_str(), "-"),
                    None => false,
                };
                if negated {
                    self.a1_push_operand("0");
                    self.a1_push_operand(t.as_str());
                    self.push_op("-");
                    self.resolve_top();
                } else {
                    self.a1_push_operand(t.as_str());
                }
                unary = None;
            } else if ch.rule == Rule::CTE {
                self.a1_push_operand(t.as_str());
                match unary {
                    Some(u) => {
                        if str_eq(u.as_str(), "-") {
                            let (_, ty) = self.pop_operand();
                            let neg = concat2("-", t.as_str());
                            self.push_operand(neg, ty);
                        }
                    },
                    None => {},
                }
                unary = None;
            } else {
                unary = Some(t);
            }
            k = k + 1;
        }
    }

    fn emit_params(&mut self, vals: &Vec<String>)
        ensures
            final(self)@ == st_emit_params(old(self)@, strs(vals@)),
            final(self)@.pila_o == old(self)@.pila_o,
            final(self)@.p_types == old(self)@.p_types,
    {
        let mut k: usize = 0;
        assert(strs(vals@).subrange(0, vals@.len() as int) =~= strs(vals@));
        while k < vals.len()
            invariant
                k <= vals@.len(),
                self@.pila_o == old(self)@.pila_o,
                self@.p_types == old(self)@.p_types,
                st_emit_params(self@, strs(vals@).subrange(k as int, vals@.len() as int))
                    == st_emit_params(old(self)@, strs(vals@)),
            decreases vals@.len() - k,
        {
            proof {
                let rest = strs(vals@).subrange(k as int, vals@.len() as int);
                assert(rest.drop_first() =~= strs(vals@).subrange(k + 1, vals@.len() as int));
            }
            self.emit("param", vals[k].as_str(), "_", "_");
            k = k + 1;
        }
        proof {
            assert(strs(vals@).subrange(k as int, vals@.len() as int) =~= Seq::<Seq<char>>::empty());
            assert(strs(vals@).subrange(0, vals@.len() as int) =~= strs(vals@));
        }
    }

    fn walk_call(&mut self, pair: &Pair, src: &str)
        requires
            st_wf(old(self)@),
        ensures
            st_wf(final(self)@),
            final(self)@ == st_walk_call(old(self)@, tree_of(*pair), src@),
        decreases *pair,
    {
        if pair.children.len() == 0 {
            return;
        }
        let func_name = pair_text(src, &pair.children[0]);
        let ghost c0 = self@;
        let mut params: Vec<String> = Vec::new();
        assert(strs(params@) =~= Seq::<Seq<char>>::empty());
        let mut k: usize = 1;
        while k < pair.children.len()
            invariant
                1 <= k <= pair.children@.len(),
                st_wf(self@),
                st_call_items(self@, tree_of(*pair), src@, k as int, strs(params@)) == st_call_items(c0, tree_of(*pair), src@, 1, Seq::empty()),
            decreases pair.children@.len() - k,
        {
            let ch = &pair.children[k];
            if ch.rule == Rule::EXPRESION {
                self.walk_expresion(ch, src);
                if self.pila_o.len() > 0 {
                    let (val, _) = self.pop_operand();
                    let ghost before = strs(params@);
                    params.push(val);
                    proof {
                        assert(strs(params@) =~= before.push(val@));
                    }
                } else {
                    self.pop_any();
                }
            }
            k = k + 1;
        }
        proof {
            assert(strs(Seq::<String>::empty()) =~= Seq::<Seq<char>>::empty());
        }
        self.emit_params(&params);
        let temp = self.new_temp();
        let ret = match self.dir.funciones.get(func_name.as_str()) {
            Some(f) => f.tipo.clone(),
            None => "entero".to_owned(),
        };
        self.declare_in_current(temp.clone(), ret.as_str());
        self.emit("gosub", func_name.as_str(), "_", temp.as_str());
        self.push_operand(temp, ret);
    }
}

impl Compiler {
    /// Walks an ASIGNA node.
    pub fn walk_asigna(&mut self, pair: &Pair, src: &str)
        requires
            st_wf(old(self)@),
        ensures
            st_wf(final(self)@),
            final(self)@ == st_walk_asigna(old(self)@, tree_of(*pair), src@),
        decreases *pair,
    {
        if pair.children.len() < 2 {
            return;
        }
        let var_name = pair_text(src, &pair.children[0]);
        self.walk_expresion(&pair.children[1], src);
        self.a7_assignment(var_name.as_str());
    }

    /// Walks an IMPRIME node.
    pub fn walk_imprime(&mut self, pair: &Pair, src: &str)
        requires
            st_wf(old(self)@),
        ensures
            st_wf(final(self)@),
            final(self)@ == st_walk_imprime(old(self)@, tree_of(*pair), src@),
        decreases *pair,
    {
        let ghost c0 = self@;
        let mut k: usize = 0;
        while k < pair.children.len()
            invariant
                k <= pair.children@.len(),
                st_wf(self@),
                st_imprime_items(self@, tree_of(*pair), src@, k as int) == st_imprime_items(c0, tree_of(*pair), src@, 0),
            decreases pair.children@.len() - k,
        {
            let ch = &pair.children[k];
            if ch.rule == Rule::PRINT_STATEMENT && ch.children.len() > 0 {
                let inner = &ch.children[0];
                if inner.rule == Rule::EXPRESION {
                    proof {
                        assert(decreases_to!(*pair => *inner));
                    }
                    self.walk_expresion(inner, src);
                    self.a8_write();
                } else if inner.rule == Rule::LETRERO {
                    let t = pair_text(src, inner);
                    self.a9_write_literal(t.as_str());
                }
            }
            k = k + 1;
        }
    }

    /// Walks a CONDICION node.
    pub fn walk_condicion(&mut self, pair: &Pair, src: &str)
        requires
            st_wf(old(self)@),
        ensures
            st_wf(final(self)@),
            final(self)@ == st_walk_condicion(old(self)@, tree_of(*pair), src@),
        decreases *pair,
    {
        if pair.children.len() < 2 {
            return;
        }
        self.walk_expresion(&pair.children[0], src);
        let cond = if self.pila_o.len() > 0 {
            self.pila_o[self.pila_o.len() - 1].clone()
        } else {
            "_".to_owned()
        };
        self.pop_any();
        let gotof_idx = self.quads.len();
        self.emit("GotoF", cond.as_str(), "_", "?");
        self.walk_body(&pair.children[1], src);
        if pair.children.len() > 2 {
            let goto_idx = self.quads.len();
            self.emit("Goto", "_", "_", "?");
            self.patch(gotof_idx);
            self.walk_body(&pair.children[2], src);
            self.patch(goto_idx);
        } else {
            self.patch(gotof_idx);
        }
    }

    /// Walks a CICLO node.
    pub fn walk_ciclo(&mut self, pair: &Pair, src: &str)
        requires
            st_wf(old(self)@),
        ensures
            st_wf(final(self)@),
            final(self)@ == st_walk_ciclo(old(self)@, tree_of(*pair), src@),
        decreases *pair,
    {
        if pair.children.len() < 2 {
            return;
        }
        let loop_start = self.quads.len();
        self.walk_expresion(&pair.children[0], src);
        let cond = if self.pila_o.len() > 0 {
            self.pila_o[self.pila_o.len() - 1].clone()
        } else {
            "_".to_owned()
        };
        self.pop_any();
        let gotof_idx = self.quads.len();
        self.emit("GotoF", cond.as_str(), "_", "?");
        self.walk_body(&pair.children[1], src);
        let start = usize_to_string(loop_start);
        self.emit("Goto", "_", "_", start.as_str());
        self.patch(gotof_idx);
    }

    /// Walks a BODY node.
    pub fn walk_body(&mut self, pair: &Pair, src: &str)
        requires
            st_wf(old(self)@),
        ensures
            st_wf(final(self)@),
            final(self)@ == st_walk_body(old(self)@, tree_of(*pair), src@),
        decreases *pair,
    {
        let ghost c0 = self@;
        let mut k: usize = 0;
        while k < pair.children.len()
            invariant
                k <= pair.children@.len(),
                st_wf(self@),
                st_body_items(self@, tree_of(*pair), src@, k as int) == st_body_items(c0, tree_of(*pair), src@, 0),
            decreases pair.children@.len() - k,
        {
            let ch = &pair.children[k];
            if ch.rule == Rule::ESTATUTO {
                self.walk_estatuto(ch, src);
            }
            k = k + 1;
        }
    }

    /// Walks an ESTATUTO node.
    pub fn walk_estatuto(&mut self, pair: &Pair, src: &str)
        requires
            st_wf(old(self)@),
        ensures
            st_wf(final(self)@),
            final(self)@ == st_walk_estatuto(old(self)@, tree_of(*pair), src@),
        decreases *pair,
    {
        if pair.children.len() == 0 {
            return;
        }
        let inner = &pair.children[0];
        match inner.rule {
            Rule::ASIGNA => self.walk_asigna(inner, src),
            Rule::CONDICION => self.walk_condicion(inner, src),
            Rule::CICLO => self.walk_ciclo(inner, src),
            Rule::CALL => self.walk_call(inner, src),
            Rule::IMPRIME => self.walk_imprime(inner, src),
            _ => {
                let ghost c0 = self@;
                let mut k: usize = 0;
                while k < inner.children.len()
                    invariant
                        k <= inner.children@.len(),
                        pair.children@.len() > 0,
                        *inner == pair.children@[0],
                        st_wf(self@),
                        st_body_items(self@, tree_of(*inner), src@, k as int) == st_body_items(c0, tree_of(*inner), src@, 0),
                    decreases inner.children@.len() - k,
                {
                    let ch = &inner.children[k];
                    if ch.rule == Rule::ESTATUTO {
                        proof {
                            assert(decreases_to!(*pair => *inner));
                            assert(decreases_to!(*inner => *ch));
                            assert(decreases_to!(*pair => *ch));
                        }
                        self.walk_estatuto(ch, src);
                    }
                    k = k + 1;
                }
            },
        }
    }
}

/// The symbol table as text: functions by name.
pub type FuncsMap = Map<Seq<char>, FuncModel>;

/// Adding function `name` of type `t` to `d`.
pub open spec fn st_add_func(d: FuncsMap, name: Seq<char>, t: Seq<char>) -> Result<FuncsMap, Seq<char>> {
    if d.contains_key(name) {
        Err("ERROR: funcion '"@ + name + "' ya fue declarada"@)
    } else {
        Ok(d.insert(name, (t, Map::empty())))
    }
}

/// Adding variable `v` of type `t` to function `f` of `d`.
pub open spec fn st_add_var(d: FuncsMap, f: Seq<char>, v: Seq<char>, t: Seq<char>) -> Result<FuncsMap, Seq<char>> {
    if d[f].1.contains_key(v) {
        Err("ERROR: variable '"@ + v + "' ya fue declarada en '"@ + f + "'"@)
    } else {
        Ok(d.insert(f, (d[f].0, d[f].1.insert(v, t))))
    }
}

/// Adding the variables `ids`, all of type `t`, to function `f`, in order, stopping at
/// the first error.
pub open spec fn st_add_vars(d: FuncsMap, f: Seq<char>, ids: Seq<Seq<char>>, t: Seq<char>) -> Result<FuncsMap, Seq<char>>
    decreases ids.len(),
{
    if ids.len() == 0 {
        Ok(d)
    } else {
        match st_add_var(d, f, ids[0], t) {
            Ok(d1) => st_add_vars(d1, f, ids.drop_first(), t),
            Err(m) => Err(m),
        }
    }
}

/// The names of the ID nodes among the children of `m` from `k` on.
pub open spec fn mult_ids(src: Seq<char>, m: Tree, k: int) -> Seq<Seq<char>>
    decreases m.children.len() - k,
{
    if 0 <= k < m.children.len() {
        let rest = mult_ids(src, m, k + 1);
        if m.children[k].rule == Rule::ID {
            seq![text(src, m.children[k])] + rest
        } else {
            rest
        }
    } else {
        Seq::empty()
    }
}

/// The text of the last TYPE node among the children of `m` from `k` on, or `acc`.
pub open spec fn mult_type(src: Seq<char>, m: Tree, k: int, acc: Seq<char>) -> Seq<char>
    decreases m.children.len() - k,
{
    if 0 <= k < m.children.len() {
        let acc1 = if m.children[k].rule == Rule::TYPE { text(src, m.children[k]) } else { acc };
        mult_type(src, m, k + 1, acc1)
    } else {
        acc
    }
}

/// The declarations of a VARS node, from child `k` on, added to function `f`.
pub open spec fn st_procesar_vars(d: FuncsMap, p: Tree, src: Seq<char>, f: Seq<char>, k: int) -> Result<FuncsMap, Seq<char>>
    decreases p.children.len() - k,
{
    if 0 <= k < p.children.len() {
        let ch = p.children[k];
        if ch.rule == Rule::MULT_VARS {
            match st_add_vars(d, f, mult_ids(src, ch, 0), mult_type(src, ch, 0, Seq::empty())) {
                Ok(d1) => st_procesar_vars(d1, p, src, f, k + 1),
                Err(m) => Err(m),
            }
        } else {
            st_procesar_vars(d, p, src, f, k + 1)
        }
    } else {
        Ok(d)
    }
}

/// The parameters and variables of a FUNCS node, from child `k` on, added to
/// function `name`.
pub open spec fn st_funcs_items(d: FuncsMap, fp: Tree, src: Seq<char>, name: Seq<char>, k: int) -> Result<FuncsMap, Seq<char>>
    decreases fp.children.len() - k,
{
    if 0 <= k < fp.children.len() {
        let ch = fp.children[k];
        if ch.rule == Rule::SINGLE_VARS {
            match st_add_var(d, name, text(src, ch.children[0]), text(src, ch.children[1])) {
                Ok(d1) => st_funcs_items(d1, fp, src, name, k + 1),
                Err(m) => Err(m),
            }
        } else if ch.rule == Rule::VARS {
            match st_procesar_vars(d, ch, src, name, 0) {
                Ok(d1) => st_funcs_items(d1, fp, src, name, k + 1),
                Err(m) => Err(m),
            }
        } else {
            st_funcs_items(d, fp, src, name, k + 1)
        }
    } else {
        Ok(d)
    }
}

/// A FUNCS node: the function, then its parameters and variables.
pub open spec fn st_funcs_decl(d: FuncsMap, fp: Tree, src: Seq<char>) -> Result<FuncsMap, Seq<char>> {
    let name = text(src, fp.children[1]);
    match st_add_func(d, name, text(src, fp.children[0])) {
        Ok(d1) => st_funcs_items(d1, fp, src, name, 2),
        Err(m) => Err(m),
    }
}

/// The children of a PROGRAM node from `k` on: the program's name creates the global
/// scope, global variables go to it, and each function is declared.
pub open spec fn st_dir_items(d: FuncsMap, p: Tree, src: Seq<char>, k: int) -> Result<FuncsMap, Seq<char>>
    decreases p.children.len() - k,
{
    if 0 <= k < p.children.len() {
        let ch = p.children[k];
        let r = if ch.rule == Rule::ID {
            st_add_func(d, "global"@, "void"@)
        } else if ch.rule == Rule::VARS {
            st_procesar_vars(d, ch, src, "global"@, 0)
        } else if ch.rule == Rule::FUNCS {
            st_funcs_decl(d, ch, src)
        } else {
            Ok(d)
        };
        match r {
            Ok(d1) => st_dir_items(d1, p, src, k + 1),
            Err(m) => Err(m),
        }
    } else {
        Ok(d)
    }
}

/// The symbol table of a program's parse tree.
pub open spec fn st_dir_program(p: Tree, src: Seq<char>) -> Result<FuncsMap, Seq<char>> {
    st_dir_items(Map::empty(), p, src, 0)
}

/// The message for a program that does not parse: where parsing stopped, as line and
/// column counted from 1 (as the grammar's error begins), and what went wrong.
pub open spec fn syntax_error_msg(src: Seq<char>) -> Seq<char> {
    let lc = lines_and_column(src, program_stop(src));
    "Error de sintaxis: --> "@ + decimal((lc.0 + 1) as nat) + ":"@ + decimal((lc.1 + 1) as nat)
        + ": el programa no sigue la gramatica"@
}

/// The message for a program that does not parse, with the line and column (counted
/// from 1) where parsing it stopped.
fn syntax_error(source: &str) -> (m: String)
    ensures
        m@ == syntax_error_msg(source@),
{
    let (line, col) = program_error_position(source);
    let l = succ_to_string(line);
    let c = succ_to_string(col);
    let head = concat3("Error de sintaxis: --> ", l.as_str(), ":");
    let tail = concat2(c.as_str(), ": el programa no sigue la gramatica");
    let m = concat2(head.as_str(), tail.as_str());
    proof {
        assert(m@ =~= syntax_error_msg(source@));
    }
    m
}

/// Adds the declarations of a VARS node to function `func`.
fn procesar_vars(dir: &mut DirFunc, vars_pair: &Pair, src: &str, func: &str) -> (r: Result<(), String>)
    requires
        old(dir)@.contains_key(func@),
    ensures
        match st_procesar_vars(old(dir)@, tree_of(*vars_pair), src@, func@, 0) {
            Ok(d) => r is Ok && final(dir)@ == d,
            Err(m) => r matches Err(e) && e@ == m,
        },
        forall|f: Seq<char>| old(dir)@.contains_key(f) ==> #[trigger] final(dir)@.contains_key(f),
{
    let mut k: usize = 0;
    while k < vars_pair.children.len()
        invariant
            k <= vars_pair.children@.len(),
            dir@.contains_key(func@),
            forall|f: Seq<char>| old(dir)@.contains_key(f) ==> #[trigger] dir@.contains_key(f),
            st_procesar_vars(dir@, tree_of(*vars_pair), src@, func@, k as int) == st_procesar_vars(old(dir)@, tree_of(*vars_pair), src@, func@, 0),
        decreases vars_pair.children@.len() - k,
    {
        let mult = &vars_pair.children[k];
        if mult.rule == Rule::MULT_VARS {
            let mut ids: Vec<String> = Vec::new();
            let mut tipo = String::new();
            let mut j: usize = 0;
            while j < mult.children.len()
                invariant
                    j <= mult.children@.len(),
                    strs(ids@) + mult_ids(src@, tree_of(*mult), j as int) == mult_ids(src@, tree_of(*mult), 0),
                    mult_type(src@, tree_of(*mult), j as int, tipo@) == mult_type(src@, tree_of(*mult), 0, Seq::empty()),
                decreases mult.children@.len() - j,
            {
                let t = &mult.children[j];
                if t.rule == Rule::ID {
                    let ghost before = strs(ids@);
                    let name = pair_text(src, t);
                    let ghost nv = name@;
                    ids.push(name);
                    proof {
                        assert(strs(ids@) =~= before.push(nv));
                        assert(mult_ids(src@, tree_of(*mult), j as int) =~= seq![nv] + mult_ids(src@, tree_of(*mult), j + 1));
                        assert(before + mult_ids(src@, tree_of(*mult), j as int) =~= strs(ids@) + mult_ids(src@, tree_of(*mult), j + 1));
                    }
                } else if t.rule == Rule::TYPE {
                    tipo = pair_text(src, t);
                }
                j = j + 1;
            }
            proof {
                assert(mult_ids(src@, tree_of(*mult), j as int) =~= Seq::<Seq<char>>::empty());
                assert(strs(ids@) =~= mult_ids(src@, tree_of(*mult), 0));
            }
            let ghost d0 = dir@;
            let mut m: usize = 0;
            assert(strs(ids@).subrange(0, ids@.len() as int) =~= strs(ids@));
            while m < ids.len()
                invariant
                    m <= ids@.len(),
                    dir@.contains_key(func@),
                    forall|f: Seq<char>| old(dir)@.contains_key(f) ==> #[trigger] dir@.contains_key(f),
                    k < vars_pair.children@.len(),
                    *mult == vars_pair.children@[k as int],
                    mult.rule == Rule::MULT_VARS,
                    strs(ids@) == mult_ids(src@, tree_of(*mult), 0),
                    tipo@ == mult_type(src@, tree_of(*mult), 0, Seq::empty()),
                    st_procesar_vars(d0, tree_of(*vars_pair), src@, func@, k as int) == st_procesar_vars(old(dir)@, tree_of(*vars_pair), src@, func@, 0),
                    st_add_vars(dir@, func@, strs(ids@).subrange(m as int, ids@.len() as int), tipo@)
                        == st_add_vars(d0, func@, strs(ids@), tipo@),
                decreases ids@.len() - m,
            {
                proof {
                    let rest = strs(ids@).subrange(m as int, ids@.len() as int);
                    assert(rest.drop_first() =~= strs(ids@).subrange(m + 1, ids@.len() as int));
                }
                match dir.agregar_variable(func, ids[m].as_str(), tipo.as_str()) {
                    Ok(()) => {},
                    Err(e) => {
                        return Err(e);
                    },
                }
                m = m + 1;
            }
            proof {
                assert(strs(ids@).subrange(m as int, ids@.len() as int) =~= Seq::<Seq<char>>::empty());
                assert(st_add_vars(d0, func@, strs(ids@), tipo@) == Ok::<FuncsMap, Seq<char>>(dir@));
            }
        }
        k = k + 1;
    }
    Ok(())
}

/// Declarations of a FUNCS node: the function, its parameters and its variables.
fn declare_funcs(dir: &mut DirFunc, fp: &Pair, src: &str) -> (r: Result<(), String>)
    requires
        funcs_shaped(*fp),
    ensures
        match st_funcs_decl(old(dir)@, tree_of(*fp), src@) {
            Ok(d) => r is Ok && final(dir)@ == d,
            Err(m) => r matches Err(e) && e@ == m,
        },
        forall|f: Seq<char>| old(dir)@.contains_key(f) ==> #[trigger] final(dir)@.contains_key(f),
{
    let tipo_ret = pair_text(src, &fp.children[0]);
    let nombre = pair_text(src, &fp.children[1]);
    match dir.agregar_funcion(nombre.as_str(), tipo_ret.as_str()) {
        Ok(()) => {},
        Err(e) => {
            return Err(e);
        },
    }
    let ghost d1 = dir@;
    let mut k: usize = 2;
    while k < fp.children.len()
        invariant
            2 <= k <= fp.children@.len(),
            funcs_shaped(*fp),
            forall|f: Seq<char>| old(dir)@.contains_key(f) ==> #[trigger] dir@.contains_key(f),
            dir@.contains_key(nombre@),
            nombre@ == text(src@, tree_of(fp.children@[1])),
            st_add_func(old(dir)@, nombre@, text(src@, tree_of(fp.children@[0]))) == Ok::<FuncsMap, Seq<char>>(d1),
            st_funcs_items(dir@, tree_of(*fp), src@, nombre@, k as int) == st_funcs_items(d1, tree_of(*fp), src@, nombre@, 2),
        decreases fp.children@.len() - k,
    {
        let ch = &fp.children[k];
        if ch.rule == Rule::SINGLE_VARS {
            let id = pair_text(src, &ch.children[0]);
            let tipo = pair_text(src, &ch.children[1]);
            match dir.agregar_variable(nombre.as_str(), id.as_str(), tipo.as_str()) {
                Ok(()) => {},
                Err(e) => {
                    return Err(e);
                },
            }
        } else if ch.rule == Rule::VARS {
            match procesar_vars(dir, ch, src, nombre.as_str()) {
                Ok(()) => {},
                Err(e) => {
                    return Err(e);
                },
            }
        }
        k = k + 1;
    }
    Ok(())
}

/// The symbol table of a program's parse tree: the global scope with the global
/// variables, and each function with its parameters and variables.
pub fn dir_func_from_tree(program: &Pair, src: &str) -> (r: Result<DirFunc, String>)
    requires
        program_shaped(*program),
    ensures
        match st_dir_program(tree_of(*program), src@) {
            Ok(d) => r matches Ok(dir) && dir@ == d,
            Err(m) => r matches Err(e) && e@ == m,
        },
{
    let mut dir = DirFunc::new();
    let mut k: usize = 0;
    while k < program.children.len()
        invariant
            k <= program.children@.len(),
            program_shaped(*program),
            k >= 1 ==> dir@.contains_key("global"@),
            st_dir_items(dir@, tree_of(*program), src@, k as int) == st_dir_program(tree_of(*program), src@),
        decreases program.children@.len() - k,
    {
        let ch = &program.children[k];
        if ch.rule == Rule::ID {
            match dir.agregar_funcion("global", "void") {
                Ok(()) => {},
                Err(e) => {
                    return Err(e);
                },
            }
        } else if ch.rule == Rule::VARS {
            match procesar_vars(&mut dir, ch, src, "global") {
                Ok(()) => {},
                Err(e) => {
                    return Err(e);
                },
            }
        } else if ch.rule == Rule::FUNCS {
            match declare_funcs(&mut dir, ch, src) {
                Ok(()) => {},
                Err(e) => {
                    return Err(e);
                },
            }
        }
        k = k + 1;
    }
    Ok(dir)
}

/// Parses a program and builds its symbol table.
pub fn build_dir_func(source: &str) -> (r: Result<DirFunc, String>)
    ensures
        accepts(Rule::PROGRAM, source@) is None ==> (r matches Err(e) && e@ == syntax_error_msg(source@)),
        accepts(Rule::PROGRAM, source@) is Some ==> match st_dir_program(
            accepted_tree(Rule::PROGRAM, source@),
            source@,
        ) {
            Ok(d) => r matches Ok(dir) && dir@ == d,
            Err(m) => r matches Err(e) && e@ == m,
        },
{
    match CSVParser::parse(Rule::PROGRAM, source) {
        Err(_) => Err(syntax_error(source)),
        Ok(p) => {
            let r = dir_func_from_tree(&p, source);
            proof {
                assert(program_shaped(p));
            }
            r
        },
    }
}

/// `c` compiling inside scope `f`.
pub open spec fn st_scope(c: CState, f: Seq<char>) -> CState {
    CState { current_func: f, ..c }
}

/// The bodies among the children of a FUNCS node from `k` on.
pub open spec fn st_funcs_bodies(c: CState, fp: Tree, src: Seq<char>, k: int) -> CState
    decreases fp.children.len() - k,
{
    if 0 <= k < fp.children.len() {
        let ch = fp.children[k];
        let c1 = if ch.rule == Rule::BODY { st_walk_body(c, ch, src) } else { c };
        st_funcs_bodies(c1, fp, src, k + 1)
    } else {
        c
    }
}

/// The children of a PROGRAM node from `k` on: each function body is compiled in the
/// function's scope, the main body in the global scope.
pub open spec fn st_compile_items(c: CState, p: Tree, src: Seq<char>, k: int) -> CState
    decreases p.children.len() - k,
{
    if 0 <= k < p.children.len() {
        let ch = p.children[k];
        let c1 = if ch.rule == Rule::FUNCS {
            let name = text(src, ch.children[1]);
            st_scope(st_funcs_bodies(st_scope(c, name), ch, src, 2), "global"@)
        } else if ch.rule == Rule::BODY {
            st_walk_body(st_scope(c, "global"@), ch, src)
        } else {
            c
        };
        st_compile_items(c1, p, src, k + 1)
    } else {
        c
    }
}

/// The state of a new compiler over symbol table `d`.
pub open spec fn st_initial(d: FuncsMap) -> CState {
    CState {
        funcs: d,
        quads: Seq::empty(),
        poper: Seq::empty(),
        pila_o: Seq::empty(),
        p_types: Seq::empty(),
        temp_count: 0,
        errors: Seq::empty(),
        current_func: "global"@,
    }
}

/// The compiler state after compiling a program's parse tree over symbol table `d`.
pub open spec fn st_compile_program(d: FuncsMap, p: Tree, src: Seq<char>) -> CState {
    st_compile_items(st_initial(d), p, src, 0)
}

/// Compiles a program's parse tree over its symbol table. The result is the
/// compiler, or the errors found, one per line.
pub fn compiler_from_tree(dir: DirFunc, program: &Pair, src: &str) -> (r: Result<Compiler, String>)
    requires
        program_shaped(*program),
    ensures
        ({
            let c = st_compile_program(dir@, tree_of(*program), src@);
            if c.errors.len() > 0 {
                r matches Err(e) && e@ == seq_join(c.errors, "\n"@)
            } else {
                r matches Ok(comp) && comp@ == c
            }
        }),
{
    let mut compiler = Compiler::new(dir);
    let mut k: usize = 0;
    while k < program.children.len()
        invariant
            k <= program.children@.len(),
            program_shaped(*program),
            st_wf(compiler@),
            st_compile_items(compiler@, tree_of(*program), src@, k as int) == st_compile_program(dir@, tree_of(*program), src@),
        decreases program.children@.len() - k,
    {
        let node = &program.children[k];
        if node.rule == Rule::FUNCS {
            let nombre = pair_text(src, &node.children[1]);
            compiler.current_func = nombre;
            let ghost c1 = compiler@;
            let mut j: usize = 2;
            while j < node.children.len()
                invariant
                    2 <= j <= node.children@.len(),
                    st_wf(compiler@),
                    st_funcs_bodies(compiler@, tree_of(*node), src@, j as int) == st_funcs_bodies(c1, tree_of(*node), src@, 2),
                decreases node.children@.len() - j,
            {
                let sub = &node.children[j];
                if sub.rule == Rule::BODY {
                    compiler.walk_body(sub, src);
                }
                j = j + 1;
            }
            compiler.current_func = "global".to_owned();
        } else if node.rule == Rule::BODY {
            compiler.current_func = "global".to_owned();
            compiler.walk_body(node, src);
        }
        k = k + 1;
    }
    if compiler.errors.len() > 0 {
        return Err(join(&compiler.errors, "\n"));
    }
    Ok(compiler)
}

/// Parses a program, builds its symbol table and compiles it.
pub fn build_compiler(source: &str) -> (r: Result<Compiler, String>)
    ensures
        accepts(Rule::PROGRAM, source@) is None ==> (r matches Err(e) && e@ == syntax_error_msg(source@)),
        accepts(Rule::PROGRAM, source@) is Some ==> match st_dir_program(
            accepted_tree(Rule::PROGRAM, source@),
            source@,
        ) {
            Err(m) => r matches Err(e) && e@ == m,
            Ok(d) => {
                let c = st_compile_program(d, accepted_tree(Rule::PROGRAM, source@), source@);
                if c.errors.len() > 0 {
                    r matches Err(e) && e@ == seq_join(c.errors, "\n"@)
                } else {
                    &&& r matches Ok(comp) && comp@ == c
                    &&& c.funcs.dom() == d.dom()
                    &&& forall|f: Seq<char>| #[trigger] d.contains_key(f) ==> c.funcs[f].0 == d[f].0
                }
            },
        },
{
    match CSVParser::parse(Rule::PROGRAM, source) {
        Err(_) => Err(syntax_error(source)),
        Ok(p) => {
            proof {
                assert(program_shaped(p));
                let t = accepted_tree(Rule::PROGRAM, source@);
                if let Ok(d) = st_dir_program(t, source@) {
                    crate::jumps::law_compile_keeps_functions(d, t, source@);
                }
            }
            match dir_func_from_tree(&p, source) {
                Err(e) => Err(e),
                Ok(dir) => compiler_from_tree(dir, &p, source),
            }
        },
    }
}

} // verus!
