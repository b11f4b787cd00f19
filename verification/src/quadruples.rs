//! Generation of quadruples: the operand, operator and jump stacks, temporaries,
//! and the list of quadruples itself.
use vstd::prelude::*;

use crate::constants::{
    lemma_type_names_differ, ASSIGN, DIV, END, END_F, ENTERO_TYPE, EQUAL, ERA, FLOTANTE_TYPE,
    GOSUB, GOTO, GOTOF, LESS, MORE, MULTP, NOT_EQUAL, PARAM, PLUS, PRINT, RETURN, SUBS,
    TEMP_FLOAT_START, TEMP_INT_START,
};
use crate::text::{decimal, str_eq, usize_to_string};

verus! {

/// A quadruple as text: operator, left operand, right operand, result.
pub type QuadV = (Seq<char>, Seq<char>, Seq<char>, Seq<char>);

/// One quadruple: `operator left right result`.
#[derive(Debug, PartialEq)]
pub struct Quad {
    pub operator: String,
    pub left: String,
    pub right: String,
    pub result: String,
}

impl View for Quad {
    type V = QuadV;

    open spec fn view(&self) -> QuadV {
        (self.operator@, self.left@, self.right@, self.result@)
    }
}

impl Quad {
    pub fn new(operator: String, left: String, right: String, result: String) -> (q: Self)
        ensures
            q.operator == operator,
            q.left == left,
            q.right == right,
            q.result == result,
    {
        Quad { operator, left, right, result }
    }
}

/// Whether `op` is one of the arithmetic operators.
pub open spec fn is_arith_op(op: Seq<char>) -> bool {
    op == PLUS@ || op == SUBS@ || op == MULTP@ || op == DIV@
}

/// Whether `op` is one of the relational operators.
pub open spec fn is_rel_op(op: Seq<char>) -> bool {
    op == MORE@ || op == LESS@ || op == NOT_EQUAL@ || op == EQUAL@
}

/// Whether `t` is a numeric type.
pub open spec fn is_num_type(t: Seq<char>) -> bool {
    t == ENTERO_TYPE@ || t == FLOTANTE_TYPE@
}

/// The semantic cube: the type of `l op r`, or `None` when the operation is not
/// defined. Arithmetic gives an integer when both sides are integers and a float
/// otherwise; a comparison gives an integer.
pub open spec fn cube(l: Seq<char>, r: Seq<char>, op: Seq<char>) -> Option<Seq<char>> {
    if !is_num_type(l) || !is_num_type(r) {
        None
    } else if is_rel_op(op) {
        Some(ENTERO_TYPE@)
    } else if is_arith_op(op) {
        if l == ENTERO_TYPE@ && r == ENTERO_TYPE@ {
            Some(ENTERO_TYPE@)
        } else {
            Some(FLOTANTE_TYPE@)
        }
    } else {
        None
    }
}

/// Arithmetic (`+`, `-`, `*`, `/`) on two numbers gives an integer exactly when both
/// are integers, and a float when either is a float; a comparison (`<`, `>`, `==`,
/// `!=`) of two numbers gives an integer.
pub proof fn law_cube_of_numbers(l: Seq<char>, r: Seq<char>, op: Seq<char>)
    requires
        l == "entero"@ || l == "flotante"@,
        r == "entero"@ || r == "flotante"@,
    ensures
        (op == "+"@ || op == "-"@ || op == "*"@ || op == "/"@) ==> cube(l, r, op) == Some(
            if l == "entero"@ && r == "entero"@ { "entero"@ } else { "flotante"@ },
        ),
        (op == "<"@ || op == ">"@ || op == "=="@ || op == "!="@) ==> cube(l, r, op) == Some("entero"@),
{
    reveal_strlit("+");
    reveal_strlit("-");
    reveal_strlit("*");
    reveal_strlit("/");
    reveal_strlit("<");
    reveal_strlit(">");
    reveal_strlit("==");
    reveal_strlit("!=");
    let arith = seq!["+"@, "-"@, "*"@, "/"@];
    let rel = seq!["<"@, ">"@, "=="@, "!="@];
    assert forall|a: int, b: int| 0 <= a < 4 && 0 <= b < 4 implies #[trigger] arith[a] != #[trigger] rel[b] by {
        assert(arith[a][0] != rel[b][0]);
    }
    assert(arith[0] == "+"@ && arith[1] == "-"@ && arith[2] == "*"@ && arith[3] == "/"@);
    assert(rel[0] == "<"@ && rel[1] == ">"@ && rel[2] == "=="@ && rel[3] == "!="@);
}

/// The type of `l op r` does not depend on the order of the operands.
pub proof fn law_cube_symmetric(l: Seq<char>, r: Seq<char>, op: Seq<char>)
    ensures
        cube(l, r, op) == cube(r, l, op),
{
}

/// The quadruple `(op, l, r, res)` as text.
pub open spec fn quad_v(op: Seq<char>, l: Seq<char>, r: Seq<char>, res: Seq<char>) -> QuadV {
    (op, l, r, res)
}

/// The state of quadruple generation.
#[derive(Debug)]
pub struct Quadruples {
    /// The quadruples generated so far.
    pub quads: Vec<Quad>,
    /// Operands waiting for an operator: (address, type).
    pub stack_vars: Vec<(String, String)>,
    /// Operators waiting for their operands.
    pub stack_op: Vec<String>,
    /// Indices of quadruples whose jump target is still to be filled in.
    pub stack_jump: Vec<usize>,
    pub temp_int_count: usize,
    pub temp_float_count: usize,
    pub curr_scope: String,
}

/// An operand as text: (address, type).
pub open spec fn operand_v(p: (String, String)) -> (Seq<char>, Seq<char>) {
    (p.0@, p.1@)
}

/// Message for an assignment between different types.
pub open spec fn assign_mismatch_msg(from: Seq<char>, to: Seq<char>) -> Seq<char> {
    "Type mismatch: cannot assign "@ + from + " to "@ + to
}

/// Message for an argument beyond the parameters of a function.
pub open spec fn too_many_args_msg(n: nat) -> Seq<char> {
    "Too many arguments: parameter #"@ + decimal(n) + " doesn't exist"@
}

/// Message for an argument of the wrong type.
pub open spec fn param_mismatch_msg(n: nat, expected: Seq<char>, got: Seq<char>) -> Seq<char> {
    "Type mismatch on parameter #"@ + decimal(n) + ": expected "@ + expected + ", got "@ + got
}

/// Message for a returned value of the wrong type.
pub open spec fn return_mismatch_msg(expected: Seq<char>, got: Seq<char>) -> Seq<char> {
    "Return type mismatch: function expects "@ + expected + ", but return expression is "@ + got
}

impl Quadruples {
    /// The quadruples as text.
    pub open spec fn code(&self) -> Seq<QuadV> {
        self.quads@.map_values(|q: Quad| q@)
    }

    /// The operand stack as text, bottom first.
    pub open spec fn operands(&self) -> Seq<(Seq<char>, Seq<char>)> {
        self.stack_vars@.map_values(|p: (String, String)| operand_v(p))
    }

    /// The operator stack as text, bottom first.
    pub open spec fn operators(&self) -> Seq<Seq<char>> {
        self.stack_op@.map_values(|s: String| s@)
    }

    /// Address the next temporary of type `t` gets.
    pub open spec fn next_temp(&self, t: Seq<char>) -> Option<int> {
        if t == ENTERO_TYPE@ {
            Some(TEMP_INT_START + self.temp_int_count)
        } else if t == FLOTANTE_TYPE@ {
            Some(TEMP_FLOAT_START + self.temp_float_count)
        } else {
            None
        }
    }

    /// Whether the next temporary of type `t`, and the count after it, fit in a `usize`.
    pub open spec fn temp_room(&self, t: Seq<char>) -> bool {
        &&& t == ENTERO_TYPE@ ==> self.temp_int_count + TEMP_INT_START < usize::MAX
        &&& t == FLOTANTE_TYPE@ ==> self.temp_float_count + TEMP_FLOAT_START < usize::MAX
    }

    /// `new` is `self` with one more temporary of type `t` counted.
    pub open spec fn temp_counted(&self, new: &Quadruples, t: Seq<char>) -> bool {
        &&& new.temp_int_count == self.temp_int_count + (if t == ENTERO_TYPE@ { 1int } else { 0 })
        &&& new.temp_float_count == self.temp_float_count + (if t == FLOTANTE_TYPE@ {
            1int
        } else {
            0
        })
    }

    /// `new` has the stacks, counts and scope of `self`.
    pub open spec fn same_state(&self, new: &Quadruples) -> bool {
        &&& new.stack_vars == self.stack_vars
        &&& new.stack_op == self.stack_op
        &&& new.stack_jump == self.stack_jump
        &&& new.temp_int_count == self.temp_int_count
        &&& new.temp_float_count == self.temp_float_count
        &&& new.curr_scope == self.curr_scope
    }

    /// `new` is `self` with quadruple `q` appended and nothing else changed.
    pub open spec fn appended(&self, new: &Quadruples, q: QuadV) -> bool {
        &&& new.code() == self.code().push(q)
        &&& self.same_state(new)
    }

    pub fn new() -> (q: Self)
        ensures
            q.code() == Seq::<QuadV>::empty(),
            q.operands() == Seq::<(Seq<char>, Seq<char>)>::empty(),
            q.operators() == Seq::<Seq<char>>::empty(),
            q.stack_jump@ == Seq::<usize>::empty(),
            q.temp_int_count == 0,
            q.temp_float_count == 0,
            q.curr_scope@ == Seq::<char>::empty(),
    {
        let q = Quadruples {
            quads: Vec::new(),
            stack_vars: Vec::new(),
            stack_op: Vec::new(),
            stack_jump: Vec::new(),
            temp_int_count: 0,
            temp_float_count: 0,
            curr_scope: String::new(),
        };
        assert(q.code() =~= Seq::<QuadV>::empty());
        assert(q.operands() =~= Seq::<(Seq<char>, Seq<char>)>::empty());
        assert(q.operators() =~= Seq::<Seq<char>>::empty());
        q
    }

    fn push_quad(&mut self, q: Quad)
        ensures
            old(self).appended(final(self), q@),
            final(self).quads@ == old(self).quads@.push(q),
    {
        self.quads.push(q);
        assert(self.code() =~= old(self).code().push(q@));
    }

    fn pop_var(&mut self) -> (p: (String, String))
        requires
            old(self).stack_vars@.len() > 0,
        ensures
            operand_v(p) == old(self).operands().last(),
            final(self).operands() == old(self).operands().drop_last(),
            final(self).stack_vars@ == old(self).stack_vars@.drop_last(),
            final(self).quads == old(self).quads,
            final(self).stack_op == old(self).stack_op,
            final(self).stack_jump == old(self).stack_jump,
            final(self).temp_int_count == old(self).temp_int_count,
            final(self).temp_float_count == old(self).temp_float_count,
            final(self).curr_scope == old(self).curr_scope,
    {
        let p = self.stack_vars.pop().unwrap();
        assert(self.operands() =~= old(self).operands().drop_last());
        p
    }

    /// Semantic cube: the type that `left_type operand right_type` gives.
    pub fn obtain_type(left_type: &str, right_type: &str, operand: &str) -> (r: Result<String, String>)
        ensures
            match cube(left_type@, right_type@, operand@) {
                Some(t) => r matches Ok(s) && s@ == t,
                None => r matches Err(m) && m@ == "Invalid type"@,
            },
    {
        proof {
            lemma_type_names_differ();
        }
        let left_int = str_eq(left_type, ENTERO_TYPE);
        let left_float = str_eq(left_type, FLOTANTE_TYPE);
        let right_int = str_eq(right_type, ENTERO_TYPE);
        let right_float = str_eq(right_type, FLOTANTE_TYPE);
        if !(left_int || left_float) || !(right_int || right_float) {
            return Err("Invalid type".to_owned());
        }
        let arith = str_eq(operand, PLUS) || str_eq(operand, SUBS) || str_eq(operand, MULTP)
            || str_eq(operand, DIV);
        let rel = str_eq(operand, MORE) || str_eq(operand, LESS) || str_eq(operand, NOT_EQUAL)
            || str_eq(operand, EQUAL);
        if rel {
            Ok(ENTERO_TYPE.to_owned())
        } else if arith {
            if left_int && right_int {
                Ok(ENTERO_TYPE.to_owned())
            } else {
                Ok(FLOTANTE_TYPE.to_owned())
            }
        } else {
            Err("Invalid type".to_owned())
        }
    }

    /// The next temporary of a type, as decimal text of its address.
    pub fn get_next_temp(&mut self, var_type: &str) -> (r: Result<String, String>)
        requires
            old(self).temp_room(var_type@),
        ensures
            match old(self).next_temp(var_type@) {
                Some(a) => r matches Ok(s) && s@ == decimal(a as nat) && old(self).temp_counted(
                    final(self),
                    var_type@,
                ),
                None => r matches Err(m) && m@ == "Wront type of variable"@ && *final(self)
                    == *old(self),
            },
            final(self).quads == old(self).quads,
            final(self).stack_vars == old(self).stack_vars,
            final(self).stack_op == old(self).stack_op,
            final(self).stack_jump == old(self).stack_jump,
            final(self).curr_scope == old(self).curr_scope,
    {
        proof {
            lemma_type_names_differ();
        }
        let new_temp;
        if str_eq(var_type, ENTERO_TYPE) {
            new_temp = self.temp_int_count + TEMP_INT_START;
            self.temp_int_count = self.temp_int_count + 1;
        } else if str_eq(var_type, FLOTANTE_TYPE) {
            new_temp = self.temp_float_count + TEMP_FLOAT_START;
            self.temp_float_count = self.temp_float_count + 1;
        } else {
            return Err("Wront type of variable".to_owned());
        }
        Ok(usize_to_string(new_temp))
    }

    /// Pushes an operand (address, type).
    pub fn push_var(&mut self, address: String, var_type: String)
        ensures
            final(self).operands() == old(self).operands().push((address@, var_type@)),
            final(self).stack_vars@ == old(self).stack_vars@.push((address, var_type)),
            final(self).quads == old(self).quads,
            final(self).stack_op == old(self).stack_op,
            final(self).stack_jump == old(self).stack_jump,
            final(self).temp_int_count == old(self).temp_int_count,
            final(self).temp_float_count == old(self).temp_float_count,
            final(self).curr_scope == old(self).curr_scope,
    {
        self.stack_vars.push((address, var_type));
        assert(self.operands() =~= old(self).operands().push((address@, var_type@)));
    }

    /// Takes the two operands and the operator on top of the stacks and generates the
    /// quadruple for them. An assignment copies the right operand into the left one;
    /// any other operator stores its result in a new temporary, which is pushed as an
    /// operand.
    pub fn resolve(&mut self) -> (r: Result<(), String>)
        requires
            old(self).stack_vars@.len() >= 2,
            old(self).stack_op@.len() >= 1,
            ({
                let n = old(self).operands().len();
                cube(old(self).operands()[n - 2].1, old(self).operands()[n - 1].1, old(self).operators().last())
                    matches Some(t) ==> old(self).temp_room(t)
            }),
        ensures
            ({
                let n = old(self).operands().len();
                let right = old(self).operands()[n - 1];
                let left = old(self).operands()[n - 2];
                let rest = old(self).operands().subrange(0, n - 2);
                let op = old(self).operators().last();
                &&& final(self).operators() == old(self).operators().drop_last()
                &&& final(self).stack_jump == old(self).stack_jump
                &&& final(self).curr_scope == old(self).curr_scope
                &&& if op == ASSIGN@ {
                    &&& final(self).operands() == rest
                    &&& final(self).temp_int_count == old(self).temp_int_count
                    &&& final(self).temp_float_count == old(self).temp_float_count
                    &&& if right.1 != left.1 {
                        &&& r matches Err(m) && m@ == assign_mismatch_msg(right.1, left.1)
                        &&& final(self).code() == old(self).code()
                    } else {
                        &&& r is Ok
                        &&& final(self).code() == old(self).code().push(
                            quad_v(ASSIGN@, right.0, Seq::empty(), left.0),
                        )
                    }
                } else {
                    match cube(left.1, right.1, op) {
                        None => {
                            &&& r matches Err(m) && m@ == "Invalid type"@
                            &&& final(self).operands() == rest
                            &&& final(self).code() == old(self).code()
                            &&& final(self).temp_int_count == old(self).temp_int_count
                            &&& final(self).temp_float_count == old(self).temp_float_count
                        },
                        Some(t) => {
                            let temp = decimal(old(self).next_temp(t).unwrap() as nat);
                            &&& r is Ok
                            &&& old(self).temp_counted(final(self), t)
                            &&& final(self).code() == old(self).code().push(
                                quad_v(op, left.0, right.0, temp),
                            )
                            &&& final(self).operands() == rest.push((temp, t))
                        },
                    }
                }
            }),
    {
        proof {
            lemma_type_names_differ();
        }
        let ghost n = self.operands().len();
        let right = self.pop_var();
        let left = self.pop_var();
        let op = self.stack_op.pop().unwrap();
        proof {
            assert(self.operators() =~= old(self).operators().drop_last());
            assert(self.operands() =~= old(self).operands().subrange(0, n - 2));
        }
        if str_eq(op.as_str(), ASSIGN) {
            if !(right.1 == left.1) {
                let mut m = "Type mismatch: cannot assign ".to_owned();
                m.append(right.1.as_str());
                m.append(" to ");
                m.append(left.1.as_str());
                return Err(m);
            }
            self.push_quad(Quad::new(ASSIGN.to_owned(), right.0, String::new(), left.0));
            return Ok(());
        }
        let temp_type = match Quadruples::obtain_type(left.1.as_str(), right.1.as_str(), op.as_str()) {
            Ok(t) => t,
            Err(e) => {
                return Err(e);
            },
        };
        let temp = match self.get_next_temp(temp_type.as_str()) {
            Ok(t) => t,
            Err(e) => {
                return Err(e);
            },
        };
        let temp_copy = temp.clone();
        self.push_quad(Quad::new(op, left.0, right.0, temp));
        self.push_var(temp_copy, temp_type);
        Ok(())
    }

    /// Generates the print of the operand on top of the stack.
    pub fn generate_print_expr(&mut self)
        requires
            old(self).stack_vars@.len() > 0,
        ensures
            final(self).code() == old(self).code().push(
                quad_v(PRINT@, Seq::empty(), Seq::empty(), old(self).operands().last().0),
            ),
            final(self).operands() == old(self).operands().drop_last(),
            final(self).stack_op == old(self).stack_op,
            final(self).stack_jump == old(self).stack_jump,
            final(self).temp_int_count == old(self).temp_int_count,
            final(self).temp_float_count == old(self).temp_float_count,
            final(self).curr_scope == old(self).curr_scope,
    {
        let value = self.pop_var();
        self.push_quad(Quad::new(PRINT.to_owned(), String::new(), String::new(), value.0));
    }

    /// Generates the print of the value at an address.
    pub fn generate_print_litr(&mut self, address: &str)
        ensures
            old(self).appended(final(self), quad_v(PRINT@, Seq::empty(), Seq::empty(), address@)),
    {
        self.push_quad(Quad::new(PRINT.to_owned(), String::new(), String::new(), address.to_owned()));
    }

    /// Generates the activation record of a call to `funct_name`.
    pub fn create_era(&mut self, funct_name: &str)
        ensures
            old(self).appended(final(self), quad_v(ERA@, Seq::empty(), Seq::empty(), funct_name@)),
    {
        self.push_quad(Quad::new(ERA.to_owned(), String::new(), String::new(), funct_name.to_owned()));
    }

    /// Generates the passing of the operand on top of the stack as argument number
    /// `param_counter` (counted from 1) of a call, checking it against the types of
    /// the parameters.
    pub fn create_param(&mut self, param_counter: usize, parameters: &Vec<String>) -> (r: Result<
        (),
        String,
    >)
        requires
            old(self).stack_vars@.len() > 0,
            param_counter >= 1,
        ensures
            ({
                let arg = old(self).operands().last();
                &&& final(self).operands() == old(self).operands().drop_last()
                &&& final(self).stack_op == old(self).stack_op
                &&& final(self).stack_jump == old(self).stack_jump
                &&& final(self).temp_int_count == old(self).temp_int_count
                &&& final(self).temp_float_count == old(self).temp_float_count
                &&& final(self).curr_scope == old(self).curr_scope
                &&& if param_counter > parameters@.len() {
                    &&& r matches Err(m) && m@ == too_many_args_msg(param_counter as nat)
                    &&& final(self).code() == old(self).code()
                } else if arg.1 != parameters@[param_counter - 1]@ {
                    &&& r matches Err(m) && m@ == param_mismatch_msg(
                        param_counter as nat,
                        parameters@[param_counter - 1]@,
                        arg.1,
                    )
                    &&& final(self).code() == old(self).code()
                } else {
                    &&& r is Ok
                    &&& final(self).code() == old(self).code().push(
                        quad_v(PARAM@, arg.0, Seq::empty(), decimal(param_counter as nat)),
                    )
                }
            }),
    {
        let parameter = self.pop_var();
        if param_counter > parameters.len() {
            let mut m = "Too many arguments: parameter #".to_owned();
            m.append(usize_to_string(param_counter).as_str());
            m.append(" doesn't exist");
            return Err(m);
        }
        let expected = &parameters[param_counter - 1];
        if !(parameter.1 == *expected) {
            let mut m = "Type mismatch on parameter #".to_owned();
            m.append(usize_to_string(param_counter).as_str());
            m.append(": expected ");
            m.append(expected.as_str());
            m.append(", got ");
            m.append(parameter.1.as_str());
            return Err(m);
        }
        self.push_quad(Quad::new(PARAM.to_owned(), parameter.0, String::new(), usize_to_string(param_counter)));
        Ok(())
    }

    /// Generates the jump into the code of `funct_name`.
    pub fn create_gosub(&mut self, funct_name: &str)
        ensures
            old(self).appended(final(self), quad_v(GOSUB@, Seq::empty(), Seq::empty(), funct_name@)),
    {
        self.push_quad(Quad::new(GOSUB.to_owned(), String::new(), String::new(), funct_name.to_owned()));
    }

    /// Generates the return of the operand on top of the stack into the global
    /// variable of the function, checking it against the function's type.
    pub fn create_return(&mut self, funct_type: &str, global_address: &str) -> (r: Result<(), String>)
        requires
            old(self).stack_vars@.len() > 0,
        ensures
            ({
                let v = old(self).operands().last();
                &&& final(self).operands() == old(self).operands().drop_last()
                &&& final(self).stack_op == old(self).stack_op
                &&& final(self).stack_jump == old(self).stack_jump
                &&& final(self).temp_int_count == old(self).temp_int_count
                &&& final(self).temp_float_count == old(self).temp_float_count
                &&& final(self).curr_scope == old(self).curr_scope
                &&& if v.1 != funct_type@ {
                    &&& r matches Err(m) && m@ == return_mismatch_msg(funct_type@, v.1)
                    &&& final(self).code() == old(self).code()
                } else {
                    &&& r is Ok
                    &&& final(self).code() == old(self).code().push(
                        quad_v(RETURN@, v.0, Seq::empty(), global_address@),
                    )
                }
            }),
    {
        let var_return = self.pop_var();
        if !str_eq(var_return.1.as_str(), funct_type) {
            let mut m = "Return type mismatch: function expects ".to_owned();
            m.append(funct_type);
            m.append(", but return expression is ");
            m.append(var_return.1.as_str());
            return Err(m);
        }
        self.push_quad(Quad::new(RETURN.to_owned(), var_return.0, String::new(), global_address.to_owned()));
        Ok(())
    }

    /// Copies the global variable of a function into a new temporary and pushes the
    /// temporary as an operand.
    pub fn push_function_temp(&mut self, address: &str, funct_type: &str) -> (r: Result<(), String>)
        requires
            old(self).temp_room(funct_type@),
        ensures
            match old(self).next_temp(funct_type@) {
                Some(a) => {
                    &&& r is Ok
                    &&& old(self).temp_counted(final(self), funct_type@)
                    &&& final(self).code() == old(self).code().push(
                        quad_v(ASSIGN@, address@, Seq::empty(), decimal(a as nat)),
                    )
                    &&& final(self).operands() == old(self).operands().push(
                        (decimal(a as nat), funct_type@),
                    )
                    &&& final(self).stack_op == old(self).stack_op
                    &&& final(self).stack_jump == old(self).stack_jump
                    &&& final(self).curr_scope == old(self).curr_scope
                },
                None => r matches Err(m) && m@ == "Wront type of variable"@ && *final(self)
                    == *old(self),
            },
    {
        let temp = match self.get_next_temp(funct_type) {
            Ok(t) => t,
            Err(e) => {
                return Err(e);
            },
        };
        let temp_copy = temp.clone();
        self.push_quad(Quad::new(ASSIGN.to_owned(), address.to_owned(), String::new(), temp));
        self.push_var(temp_copy, funct_type.to_owned());
        Ok(())
    }

    /// Pushes an operator.
    pub fn push_op(&mut self, op: String)
        ensures
            final(self).operators() == old(self).operators().push(op@),
            final(self).stack_op@ == old(self).stack_op@.push(op),
            final(self).quads == old(self).quads,
            final(self).stack_vars == old(self).stack_vars,
            final(self).stack_jump == old(self).stack_jump,
            final(self).temp_int_count == old(self).temp_int_count,
            final(self).temp_float_count == old(self).temp_float_count,
            final(self).curr_scope == old(self).curr_scope,
    {
        self.stack_op.push(op);
        assert(self.operators() =~= old(self).operators().push(op@));
    }

    /// Remembers the index of the next quadruple as a pending jump.
    pub fn push_jump(&mut self)
        ensures
            final(self).stack_jump@ == old(self).stack_jump@.push(old(self).quads@.len() as usize),
            final(self).quads == old(self).quads,
            final(self).stack_vars == old(self).stack_vars,
            final(self).stack_op == old(self).stack_op,
            final(self).temp_int_count == old(self).temp_int_count,
            final(self).temp_float_count == old(self).temp_float_count,
            final(self).curr_scope == old(self).curr_scope,
    {
        self.stack_jump.push(self.quads.len())
    }

    /// Generates a conditional jump on the operand on top of the stack, with its
    /// target left to fill in later; its index becomes a pending jump.
    pub fn add_gotof(&mut self)
        requires
            old(self).stack_vars@.len() > 0,
        ensures
            final(self).code() == old(self).code().push(
                quad_v(GOTOF@, old(self).operands().last().0, Seq::empty(), Seq::empty()),
            ),
            final(self).stack_jump@ == old(self).stack_jump@.push(old(self).quads@.len() as usize),
            final(self).operands() == old(self).operands().drop_last(),
            final(self).stack_op == old(self).stack_op,
            final(self).temp_int_count == old(self).temp_int_count,
            final(self).temp_float_count == old(self).temp_float_count,
            final(self).curr_scope == old(self).curr_scope,
    {
        self.push_jump();
        let condition_result = self.pop_var();
        self.push_quad(Quad::new(GOTOF.to_owned(), condition_result.0, String::new(), String::new()));
    }

    /// Fills in the pending jump on top of the jump stack with the index of the next
    /// quadruple.
    pub fn update_gotox(&mut self)
        requires
            old(self).stack_jump@.len() > 0,
            old(self).stack_jump@.last() < old(self).quads@.len(),
        ensures
            ({
                let j = old(self).stack_jump@.last() as int;
                let q = old(self).code()[j];
                final(self).code() == old(self).code().update(
                    j,
                    quad_v(q.0, q.1, q.2, decimal(old(self).quads@.len() as nat)),
                )
            }),
            final(self).stack_jump@ == old(self).stack_jump@.drop_last(),
            final(self).stack_vars == old(self).stack_vars,
            final(self).stack_op == old(self).stack_op,
            final(self).temp_int_count == old(self).temp_int_count,
            final(self).temp_float_count == old(self).temp_float_count,
            final(self).curr_scope == old(self).curr_scope,
    {
        let jump_indx = self.stack_jump.pop().unwrap();
        let target = usize_to_string(self.quads.len());
        self.quads[jump_indx].result = target;
        proof {
            let j = jump_indx as int;
            let q = old(self).code()[j];
            assert(self.code() =~= old(self).code().update(
                j,
                quad_v(q.0, q.1, q.2, decimal(old(self).quads@.len() as nat)),
            ));
        }
    }

    /// At the end of the true branch of an `if` with an `else`: generates a jump over
    /// the `else`, fills in the pending conditional jump with the start of the `else`,
    /// and makes the new jump the pending one.
    pub fn add_goto_if(&mut self)
        requires
            old(self).stack_jump@.len() > 0,
            old(self).stack_jump@.last() <= old(self).quads@.len(),
        ensures
            ({
                let n = old(self).quads@.len();
                let j = old(self).stack_jump@.last() as int;
                let code1 = old(self).code().push(quad_v(GOTO@, Seq::empty(), Seq::empty(), Seq::empty()));
                let q = code1[j];
                &&& final(self).code() == code1.update(j, quad_v(q.0, q.1, q.2, decimal(n + 1)))
                &&& final(self).stack_jump@ == old(self).stack_jump@.drop_last().push(n as usize)
            }),
            final(self).stack_vars == old(self).stack_vars,
            final(self).stack_op == old(self).stack_op,
            final(self).temp_int_count == old(self).temp_int_count,
            final(self).temp_float_count == old(self).temp_float_count,
            final(self).curr_scope == old(self).curr_scope,
    {
        let goto_index = self.quads.len();
        self.push_quad(Quad::new(GOTO.to_owned(), String::new(), String::new(), String::new()));
        self.update_gotox();
        self.stack_jump.push(goto_index);
    }

    /// At the end of a loop: generates the jump back to the condition and fills in the
    /// loop's conditional jump with the index after it.
    pub fn add_goto_while(&mut self)
        requires
            old(self).stack_jump@.len() >= 2,
            old(self).stack_jump@.last() <= old(self).quads@.len(),
        ensures
            ({
                let n = old(self).quads@.len();
                let k = old(self).stack_jump@.len();
                let gotof = old(self).stack_jump@[k - 1] as int;
                let start = old(self).stack_jump@[k - 2];
                let code1 = old(self).code().push(
                    quad_v(GOTO@, Seq::empty(), Seq::empty(), decimal(start as nat)),
                );
                let q = code1[gotof];
                &&& final(self).code() == code1.update(gotof, quad_v(q.0, q.1, q.2, decimal(n + 1)))
                &&& final(self).stack_jump@ == old(self).stack_jump@.subrange(0, k - 2)
            }),
            final(self).stack_vars == old(self).stack_vars,
            final(self).stack_op == old(self).stack_op,
            final(self).temp_int_count == old(self).temp_int_count,
            final(self).temp_float_count == old(self).temp_float_count,
            final(self).curr_scope == old(self).curr_scope,
    {
        let gotof_indx = self.stack_jump.pop().unwrap();
        let expression_indx = self.stack_jump.pop().unwrap();
        self.push_quad(Quad::new(GOTO.to_owned(), String::new(), String::new(), usize_to_string(expression_indx)));
        let target = usize_to_string(self.quads.len());
        self.quads[gotof_indx].result = target;
        proof {
            let n = old(self).quads@.len();
            let code1 = old(self).code().push(
                quad_v(GOTO@, Seq::empty(), Seq::empty(), decimal(expression_indx as nat)),
            );
            let q = code1[gotof_indx as int];
            assert(self.code() =~= code1.update(gotof_indx as int, quad_v(q.0, q.1, q.2, decimal(n + 1))));
            assert(self.stack_jump@ =~= old(self).stack_jump@.subrange(0, old(self).stack_jump@.len() - 2));
        }
    }

    /// Drops the operator on top of the stack, if any.
    pub fn pop_op(&mut self)
        ensures
            final(self).operators() == (if old(self).operators().len() > 0 {
                old(self).operators().drop_last()
            } else {
                old(self).operators()
            }),
            final(self).quads == old(self).quads,
            final(self).stack_vars == old(self).stack_vars,
            final(self).stack_jump == old(self).stack_jump,
            final(self).temp_int_count == old(self).temp_int_count,
            final(self).temp_float_count == old(self).temp_float_count,
            final(self).curr_scope == old(self).curr_scope,
    {
        self.stack_op.pop();
        assert(self.operators() =~= (if old(self).operators().len() > 0 {
            old(self).operators().drop_last()
        } else {
            old(self).operators()
        }));
    }

    /// The operator on top of the stack.
    pub fn stack_op_last(&self) -> (r: Option<&String>)
        ensures
            match r {
                Some(s) => self.operators().len() > 0 && s@ == self.operators().last(),
                None => self.operators().len() == 0,
            },
    {
        if self.stack_op.len() == 0 {
            None
        } else {
            Some(&self.stack_op[self.stack_op.len() - 1])
        }
    }

    /// Name of the scope being compiled.
    pub fn get_scope(&self) -> (s: &str)
        ensures
            s@ == self.curr_scope@,
    {
        self.curr_scope.as_str()
    }

    /// Enters a scope: temporaries are counted from zero again.
    pub fn set_scope_to(&mut self, scope: &str)
        ensures
            final(self).curr_scope@ == scope@,
            final(self).temp_int_count == 0,
            final(self).temp_float_count == 0,
            final(self).quads == old(self).quads,
            final(self).stack_vars == old(self).stack_vars,
            final(self).stack_op == old(self).stack_op,
            final(self).stack_jump == old(self).stack_jump,
    {
        self.curr_scope = scope.to_owned();
        self.temp_int_count = 0;
        self.temp_float_count = 0;
    }

    /// How many temporary integers and floats the current scope has used.
    pub fn get_temporal_counts(&self) -> (r: (usize, usize))
        ensures
            r == (self.temp_int_count, self.temp_float_count),
    {
        (self.temp_int_count, self.temp_float_count)
    }

    /// Generates the end of a function body.
    pub fn push_end_f(&mut self)
        ensures
            old(self).appended(final(self), quad_v(END_F@, Seq::empty(), Seq::empty(), Seq::empty())),
    {
        self.push_quad(Quad::new(END_F.to_owned(), String::new(), String::new(), String::new()));
    }

    /// Generates the end of the program.
    pub fn push_end(&mut self)
        ensures
            old(self).appended(final(self), quad_v(END@, Seq::empty(), Seq::empty(), Seq::empty())),
    {
        self.push_quad(Quad::new(END.to_owned(), String::new(), String::new(), String::new()));
    }
}

/// Temporaries of a type are handed out at consecutive addresses of its segment, so
/// no two are the same; the next temporary of any other type does not move.
pub proof fn law_consecutive_temporaries(q: Quadruples, q2: Quadruples, t: Seq<char>)
    requires
        q.next_temp(t) is Some,
        q.temp_counted(&q2, t),
    ensures
        q2.next_temp(t) == Some(q.next_temp(t)->Some_0 + 1),
        forall|u: Seq<char>| u != t ==> #[trigger] q2.next_temp(u) == q.next_temp(u),
{
    lemma_type_names_differ();
}

/// A conditional jump is filled in with the index of the quadruple that follows the
/// code generated after it: `add_gotof` leaves its target empty and pending, code
/// is added, and `update_gotox` makes the target the next index.
pub proof fn law_gotof_backpatched(q1: Quadruples, q2: Quadruples, q3: Quadruples, q4: Quadruples)
    requires
        q1.stack_vars@.len() > 0,
        q1.quads@.len() <= usize::MAX,
        q2.code() == q1.code().push(quad_v(GOTOF@, q1.operands().last().0, Seq::empty(), Seq::empty())),
        q2.stack_jump@ == q1.stack_jump@.push(q1.quads@.len() as usize),
        q3.code().len() >= q2.code().len(),
        q3.code().subrange(0, q2.code().len() as int) == q2.code(),
        q3.stack_jump == q2.stack_jump,
        ({
            let j = q3.stack_jump@.last() as int;
            let q = q3.code()[j];
            q4.code() == q3.code().update(j, quad_v(q.0, q.1, q.2, decimal(q3.quads@.len() as nat)))
        }),
        q4.stack_jump@ == q3.stack_jump@.drop_last(),
    ensures
        q4.code()[q1.quads@.len() as int] == quad_v(
            GOTOF@,
            q1.operands().last().0,
            Seq::empty(),
            decimal(q4.quads@.len() as nat),
        ),
        q4.stack_jump@ == q1.stack_jump@,
{
    let j = q1.quads@.len() as int;
    assert(q3.stack_jump@.last() == j);
    assert(q1.code().len() == j);
    assert(q2.code()[j] == q3.code().subrange(0, q2.code().len() as int)[j]);
    assert(q4.code().len() == q3.code().len());
    assert(q4.quads@.len() == q3.quads@.len());
    assert(q4.stack_jump@ =~= q1.stack_jump@);
}

} // verus!
