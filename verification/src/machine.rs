//! What the virtual machine decides as it runs an object program: the kind of each
//! quadruple, the memory an address lives in, the kind of a constant by its
//! address, the address each parameter of a call goes to, the stacks of calls and
//! returns, arithmetic and comparisons on integers, and where a `GotoF` goes.
use vstd::prelude::*;

use crate::constants::{
    ASSIGN, CTE_FLOAT_START, CTE_INT_START, CTE_LITERAL_START, DIV, END, END_F, ENTERO_TYPE, EQUAL,
    ERA, GOSUB, GOTO, GOTOF, LESS, LOCAL_FLOAT_START, LOCAL_INT_START, MORE, MULTP, NOT_EQUAL, PARAM,
    PLUS, PRINT, RETURN, SUBS,
};
use crate::directory::{missing_function_msg, FuncEntry};
use crate::obj_reader::ObjProgram;
use crate::text::{concat3, decimal, parse_usize, parse_usize_spec, str_eq, strs, usize_to_string};

verus! {

/// What a quadruple does, by its operator.
#[derive(Debug, Clone, Copy, PartialEq, Eq, Structural)]
pub enum OpKind {
    Arithmetic,
    Relational,
    Assign,
    Goto,
    GotoF,
    Print,
    Era,
    Param,
    Gosub,
    Return,
    EndF,
    End,
    Unknown,
}

/// The kind of the operator `op`.
pub open spec fn op_kind(op: Seq<char>) -> OpKind {
    if op == PLUS@ || op == SUBS@ || op == MULTP@ || op == DIV@ {
        OpKind::Arithmetic
    } else if op == LESS@ || op == MORE@ || op == EQUAL@ || op == NOT_EQUAL@ {
        OpKind::Relational
    } else if op == ASSIGN@ {
        OpKind::Assign
    } else if op == GOTO@ {
        OpKind::Goto
    } else if op == GOTOF@ {
        OpKind::GotoF
    } else if op == PRINT@ {
        OpKind::Print
    } else if op == ERA@ {
        OpKind::Era
    } else if op == PARAM@ {
        OpKind::Param
    } else if op == GOSUB@ {
        OpKind::Gosub
    } else if op == RETURN@ {
        OpKind::Return
    } else if op == END_F@ {
        OpKind::EndF
    } else if op == END@ {
        OpKind::End
    } else {
        OpKind::Unknown
    }
}

/// The arithmetic operators of the language (`+`, `-`, `*`, `/`) are exactly the
/// operators classified as arithmetic, and its relational operators (`<`, `>`, `==`,
/// `!=`) exactly those classified as relational.
pub proof fn law_operator_kinds(op: Seq<char>)
    ensures
        (op_kind(op) == OpKind::Arithmetic) <==> (op == "+"@ || op == "-"@ || op == "*"@ || op == "/"@),
        (op_kind(op) == OpKind::Relational) <==> (op == "<"@ || op == ">"@ || op == "=="@ || op == "!="@),
{
    reveal_strlit("+");
    reveal_strlit("-");
    reveal_strlit("*");
    reveal_strlit("/");
    reveal_strlit("<");
    reveal_strlit(">");
    reveal_strlit("==");
    reveal_strlit("!=");
    let arith = seq!["+"@, "-"@, "*"@, "/"@];
    let rel = seq!["<"@, ">"@, "=="@, "!="@];
    assert forall|a: int, b: int| 0 <= a < 4 && 0 <= b < 4 implies #[trigger] arith[a] != #[trigger] rel[b] by {
        assert(arith[a][0] != rel[b][0]);
    }
    assert(arith[0] == "+"@ && arith[1] == "-"@ && arith[2] == "*"@ && arith[3] == "/"@);
    assert(rel[0] == "<"@ && rel[1] == ">"@ && rel[2] == "=="@ && rel[3] == "!="@);
}

/// The kind of a quadruple by its operator.
pub fn classify(operator: &str) -> (k: OpKind)
    ensures
        k == op_kind(operator@),
{
    if str_eq(operator, PLUS) || str_eq(operator, SUBS) || str_eq(operator, MULTP) || str_eq(operator, DIV) {
        OpKind::Arithmetic
    } else if str_eq(operator, LESS) || str_eq(operator, MORE) || str_eq(operator, EQUAL) || str_eq(
        operator,
        NOT_EQUAL,
    ) {
        OpKind::Relational
    } else if str_eq(operator, ASSIGN) {
        OpKind::Assign
    } else if str_eq(operator, GOTO) {
        OpKind::Goto
    } else if str_eq(operator, GOTOF) {
        OpKind::GotoF
    } else if str_eq(operator, PRINT) {
        OpKind::Print
    } else if str_eq(operator, ERA) {
        OpKind::Era
    } else if str_eq(operator, PARAM) {
        OpKind::Param
    } else if str_eq(operator, GOSUB) {
        OpKind::Gosub
    } else if str_eq(operator, RETURN) {
        OpKind::Return
    } else if str_eq(operator, END_F) {
        OpKind::EndF
    } else if str_eq(operator, END) {
        OpKind::End
    } else {
        OpKind::Unknown
    }
}

/// The memory an address lives in.
#[derive(Debug, Clone, Copy, PartialEq, Eq, Structural)]
pub enum Segment {
    /// Global variables: below the constants.
    Global,
    /// Constants, which are only read.
    Constant,
    /// Locals and temporaries of the running function.
    Local,
}

/// The memory of `address`.
pub open spec fn segment_spec(address: usize) -> Segment {
    if address < CTE_INT_START {
        Segment::Global
    } else if address < LOCAL_INT_START {
        Segment::Constant
    } else {
        Segment::Local
    }
}

/// The memory of `address`.
pub fn segment_of(address: usize) -> (s: Segment)
    ensures
        s == segment_spec(address),
{
    if address < CTE_INT_START {
        Segment::Global
    } else if address < LOCAL_INT_START {
        Segment::Constant
    } else {
        Segment::Local
    }
}

/// The kind of a constant.
#[derive(Debug, Clone, Copy, PartialEq, Eq, Structural)]
pub enum ConstKind {
    Int,
    Float,
    Literal,
}

/// The kind of the constant at `address`, by the segment it lies in.
pub open spec fn constant_kind_spec(address: usize) -> Option<ConstKind> {
    if CTE_INT_START <= address < CTE_FLOAT_START {
        Some(ConstKind::Int)
    } else if CTE_FLOAT_START <= address < CTE_LITERAL_START {
        Some(ConstKind::Float)
    } else if CTE_LITERAL_START <= address < LOCAL_INT_START {
        Some(ConstKind::Literal)
    } else {
        None
    }
}

/// The kind of the constant at `address`; an address out of the constant segments
/// is an error.
pub fn constant_kind(address: usize) -> (r: Result<ConstKind, String>)
    ensures
        match constant_kind_spec(address) {
            Some(k) => r == Ok::<ConstKind, String>(k),
            None => r matches Err(m) && m@ == "Wrong addresses for the constant"@,
        },
{
    if address >= CTE_INT_START && address < CTE_FLOAT_START {
        Ok(ConstKind::Int)
    } else if address >= CTE_FLOAT_START && address < CTE_LITERAL_START {
        Ok(ConstKind::Float)
    } else if address >= CTE_LITERAL_START && address < LOCAL_INT_START {
        Ok(ConstKind::Literal)
    } else {
        Err("Wrong addresses for the constant".to_owned())
    }
}

/// Reads the address a quadruple names.
pub fn get_address(address: &str) -> (r: Result<usize, String>)
    ensures
        match parse_usize_spec(address@) {
            Some(a) => r == Ok::<usize, String>(a),
            None => r matches Err(m) && m@ == "Invalid address '"@ + address@ + "'"@,
        },
{
    match parse_usize(address) {
        Some(a) => Ok(a),
        None => Err(concat3("Invalid address '", address, "'")),
    }
}

/// How many of `params` are `t`.
pub open spec fn count_of(params: Seq<Seq<char>>, t: Seq<char>) -> nat
    decreases params.len(),
{
    if params.len() == 0 {
        0
    } else {
        count_of(params.drop_last(), t) + if params.last() == t { 1nat } else { 0nat }
    }
}

/// The address of parameter `k` (from 0) of a function with parameter types
/// `params`: integers fill the local integers in order, the others the local floats.
pub open spec fn param_slot(params: Seq<Seq<char>>, k: int) -> int {
    let ints = count_of(params.take(k), ENTERO_TYPE@);
    if params[k] == ENTERO_TYPE@ {
        LOCAL_INT_START + ints
    } else {
        LOCAL_FLOAT_START + (k - ints)
    }
}

proof fn lemma_count_of_le(params: Seq<Seq<char>>, t: Seq<char>)
    ensures
        count_of(params, t) <= params.len(),
    decreases params.len(),
{
    if params.len() > 0 {
        lemma_count_of_le(params.drop_last(), t);
    }
}

impl ObjProgram {
    /// Where function `funct_name` starts.
    pub fn function_start(&self, funct_name: &str) -> (r: Result<usize, String>)
        ensures
            self.directory.functions@.contains_key(funct_name@) ==> r == Ok::<usize, String>(
                self.directory.functions@[funct_name@].starting_quad,
            ),
            !self.directory.functions@.contains_key(funct_name@) ==> (r matches Err(m) && m@
                == missing_function_msg(funct_name@)),
    {
        match self.directory.functions.get(funct_name) {
            Some(f) => Ok(f.starting_quad),
            None => Err(concat3("Function '", funct_name, "' doesn't exist")),
        }
    }

    /// The address that parameter number `param_number` (from 1) of function
    /// `funct_name` takes in the function's frame.
    pub fn param_address(&self, funct_name: &str, param_number: usize) -> (r: Result<usize, String>)
        requires
            self.directory.functions@.contains_key(funct_name@) ==> self.directory.functions@[funct_name@].parameters@.len()
                + LOCAL_FLOAT_START <= usize::MAX,
        ensures
            !self.directory.functions@.contains_key(funct_name@) ==> (r matches Err(m) && m@
                == missing_function_msg(funct_name@)),
            self.directory.functions@.contains_key(funct_name@) ==> ({
                let params = strs(self.directory.functions@[funct_name@].parameters@);
                if 1 <= param_number <= params.len() {
                    r == Ok::<usize, String>(param_slot(params, param_number - 1) as usize)
                } else {
                    r matches Err(m) && m@ == "Function '"@ + funct_name@ + "' has no parameter #"@
                        + decimal(param_number as nat)
                }
            }),
    {
        let function: &FuncEntry = match self.directory.functions.get(funct_name) {
            Some(f) => f,
            None => {
                return Err(concat3("Function '", funct_name, "' doesn't exist"));
            },
        };
        let ghost params = strs(function.parameters@);
        let mut int_count: usize = 0;
        let mut float_count: usize = 0;
        let mut i: usize = 0;
        while i < function.parameters.len()
            invariant
                self.directory.functions@.contains_key(funct_name@),
                *function == self.directory.functions@[funct_name@],
                params == strs(function.parameters@),
                function.parameters@.len() + LOCAL_FLOAT_START <= usize::MAX,
                i <= params.len(),
                int_count == count_of(params.take(i as int), ENTERO_TYPE@),
                int_count + float_count == i,
                !(1 <= param_number <= i),
            decreases params.len() - i,
        {
            proof {
                assert(params.take(i + 1).drop_last() =~= params.take(i as int));
                assert(params[i as int] == function.parameters@[i as int]@);
                lemma_count_of_le(params.take(i as int), ENTERO_TYPE@);
            }
            let address;
            if str_eq(function.parameters[i].as_str(), ENTERO_TYPE) {
                address = LOCAL_INT_START + int_count;
                int_count = int_count + 1;
            } else {
                address = LOCAL_FLOAT_START + float_count;
                float_count = float_count + 1;
            }
            if i + 1 == param_number {
                return Ok(address);
            }
            i = i + 1;
        }
        let mut m = "Function '".to_owned();
        m.append(funct_name);
        m.append("' has no parameter #");
        m.append(usize_to_string(param_number).as_str());
        Err(m)
    }
}

/// The stacks of a running program: the frames of the functions running, innermost
/// last; the quadruples to go back to when each returns; and the frames being
/// built for calls that have not started yet, each with its function's name.
pub struct CallStack<F> {
    pub frames: Vec<F>,
    pub returns: Vec<usize>,
    pub pending: Vec<(String, F)>,
}

impl<F> CallStack<F> {
    /// Stacks with one frame, that of the global scope.
    pub fn new(global_frame: F) -> (s: Self)
        ensures
            s.frames@ == seq![global_frame],
            s.returns@ == Seq::<usize>::empty(),
            s.pending@ == Seq::<(String, F)>::empty(),
    {
        let mut frames: Vec<F> = Vec::new();
        frames.push(global_frame);
        CallStack { frames, returns: Vec::new(), pending: Vec::new() }
    }

    /// `ERA`: starts building the frame of a call to `funct_name`.
    pub fn era(&mut self, funct_name: String, frame: F)
        ensures
            final(self).pending@ == old(self).pending@.push((funct_name, frame)),
            final(self).frames == old(self).frames,
            final(self).returns == old(self).returns,
    {
        self.pending.push((funct_name, frame));
    }

    /// `PARAM`: the function whose frame is being built, which the parameter goes to.
    pub fn pending_function(&self) -> (r: Result<String, String>)
        ensures
            self.pending@.len() > 0 ==> r == Ok::<String, String>(self.pending@.last().0),
            self.pending@.len() == 0 ==> (r matches Err(m) && m@ == "PARAM with no pending function"@),
    {
        let n = self.pending.len();
        if n == 0 {
            Err("PARAM with no pending function".to_owned())
        } else {
            Ok(self.pending[n - 1].0.clone())
        }
    }

    /// `GOSUB` at quadruple `ip`: remembers to come back to the next quadruple and
    /// makes the frame built last the running one.
    pub fn gosub(&mut self, ip: usize) -> (r: Result<(), String>)
        requires
            ip < usize::MAX,
        ensures
            final(self).returns@ == old(self).returns@.push((ip + 1) as usize),
            old(self).pending@.len() > 0 ==> {
                &&& r is Ok
                &&& final(self).pending@ == old(self).pending@.drop_last()
                &&& final(self).frames@ == old(self).frames@.push(old(self).pending@.last().1)
            },
            old(self).pending@.len() == 0 ==> {
                &&& r matches Err(m) && m@ == "GOSUB with no pending frame"@
                &&& final(self).pending == old(self).pending
                &&& final(self).frames == old(self).frames
            },
    {
        self.returns.push(ip + 1);
        if self.pending.len() == 0 {
            return Err("GOSUB with no pending frame".to_owned());
        }
        let (_, frame) = self.pending.pop().unwrap();
        self.frames.push(frame);
        Ok(())
    }

    /// Leaves the running function: drops its frame, and gives the quadruple to go
    /// back to, or `None` when no call is there to go back to.
    fn leave(&mut self) -> (r: Option<usize>)
        ensures
            final(self).frames@ == (if old(self).frames@.len() > 0 {
                old(self).frames@.drop_last()
            } else {
                old(self).frames@
            }),
            final(self).pending == old(self).pending,
            old(self).returns@.len() > 0 ==> r == Some(old(self).returns@.last()) && final(self).returns@
                == old(self).returns@.drop_last(),
            old(self).returns@.len() == 0 ==> r is None && final(self).returns == old(self).returns,
    {
        if self.frames.len() > 0 {
            let _ = self.frames.pop();
        }
        if self.returns.len() > 0 {
            self.returns.pop()
        } else {
            None
        }
    }

    /// `RETURN`, once the value is stored: leaves the function and gives the quadruple
    /// to go back to.
    pub fn return_from_call(&mut self) -> (r: Result<usize, String>)
        ensures
            final(self).frames@ == (if old(self).frames@.len() > 0 {
                old(self).frames@.drop_last()
            } else {
                old(self).frames@
            }),
            final(self).pending == old(self).pending,
            old(self).returns@.len() > 0 ==> r == Ok::<usize, String>(old(self).returns@.last())
                && final(self).returns@ == old(self).returns@.drop_last(),
            old(self).returns@.len() == 0 ==> (r matches Err(m) && m@ == "Return with no caller to go back to"@
                && final(self).returns == old(self).returns),
    {
        match self.leave() {
            Some(ip) => Ok(ip),
            None => Err("Return with no caller to go back to".to_owned()),
        }
    }

    /// `END_F`: leaves the function and gives the quadruple to go back to.
    pub fn end_function(&mut self) -> (r: Result<usize, String>)
        ensures
            final(self).frames@ == (if old(self).frames@.len() > 0 {
                old(self).frames@.drop_last()
            } else {
                old(self).frames@
            }),
            final(self).pending == old(self).pending,
            old(self).returns@.len() > 0 ==> r == Ok::<usize, String>(old(self).returns@.last())
                && final(self).returns@ == old(self).returns@.drop_last(),
            old(self).returns@.len() == 0 ==> (r matches Err(m) && m@
                == "End of function with no caller to go back to"@ && final(self).returns
                == old(self).returns),
    {
        match self.leave() {
            Some(ip) => Ok(ip),
            None => Err("End of function with no caller to go back to".to_owned()),
        }
    }
}

proof fn lemma_count_step(params: Seq<Seq<char>>, t: Seq<char>, k: int)
    requires
        0 <= k < params.len(),
    ensures
        count_of(params.take(k + 1), t) == count_of(params.take(k), t) + if params[k] == t { 1nat } else { 0nat },
{
    assert(params.take(k + 1).drop_last() =~= params.take(k));
}

/// Counting over longer prefixes: the count does not fall, and neither does the number
/// of the others.
proof fn lemma_count_grows(params: Seq<Seq<char>>, t: Seq<char>, a: int, b: int)
    requires
        0 <= a <= b <= params.len(),
    ensures
        count_of(params.take(a), t) <= count_of(params.take(b), t),
        a - count_of(params.take(a), t) <= b - count_of(params.take(b), t),
    decreases b - a,
{
    if a < b {
        lemma_count_grows(params, t, a, b - 1);
        lemma_count_step(params, t, b - 1);
    }
}

/// No two parameters of a function go to the same address of its frame, as long as it
/// has at most 1,000 parameters: integers and the others fill their own segments in
/// order.
pub proof fn law_param_slots_distinct(params: Seq<Seq<char>>, k1: int, k2: int)
    requires
        0 <= k1 < k2 < params.len(),
        params.len() <= 1000,
    ensures
        param_slot(params, k1) != param_slot(params, k2),
{
    let e = ENTERO_TYPE@;
    lemma_count_step(params, e, k1);
    lemma_count_grows(params, e, k1 + 1, k2);
    lemma_count_of_le(params.take(k1), e);
    lemma_count_of_le(params.take(k2), e);
    assert(params.take(k1).len() == k1);
    assert(params.take(k2).len() == k2);
}

/// A call comes back to the quadruple after its `GOSUB`, with the frames, the return
/// addresses and the frames being built as they were before its `ERA`.
pub proof fn law_call_returns<F>(
    s0: CallStack<F>,
    s1: CallStack<F>,
    s2: CallStack<F>,
    s3: CallStack<F>,
    name: String,
    frame: F,
    ip: usize,
    r: Result<usize, String>,
)
    requires
        s1.pending@ == s0.pending@.push((name, frame)),
        s1.frames == s0.frames,
        s1.returns == s0.returns,
        ip < usize::MAX,
        s2.returns@ == s1.returns@.push((ip + 1) as usize),
        s2.pending@ == s1.pending@.drop_last(),
        s2.frames@ == s1.frames@.push(s1.pending@.last().1),
        s3.frames@ == s2.frames@.drop_last(),
        s3.pending == s2.pending,
        s3.returns@ == s2.returns@.drop_last(),
        r == Ok::<usize, String>(s2.returns@.last()),
    ensures
        r == Ok::<usize, String>((ip + 1) as usize),
        s3.frames@ == s0.frames@,
        s3.returns@ == s0.returns@,
        s3.pending@ == s0.pending@,
{
    assert(s3.frames@ =~= s0.frames@);
    assert(s3.returns@ =~= s0.returns@);
    assert(s3.pending@ =~= s0.pending@);
}

/// `|a|`.
pub open spec fn abs_int(a: int) -> int {
    if a < 0 { -a } else { a }
}

/// Integer division as the machine does it: the quotient of the magnitudes,
/// negative when the signs differ (it truncates toward zero).
pub open spec fn trunc_div(a: int, b: int) -> int {
    if (a < 0) == (b < 0) {
        abs_int(a) / abs_int(b)
    } else {
        -(abs_int(a) / abs_int(b))
    }
}

/// The value that the arithmetic operator `op` gives on two integers.
pub open spec fn int_arith_value(op: Seq<char>, a: int, b: int) -> int {
    if op == PLUS@ {
        a + b
    } else if op == SUBS@ {
        a - b
    } else if op == MULTP@ {
        a * b
    } else {
        trunc_div(a, b)
    }
}

/// Whether `op` on two integers stays within `i32` (and, for a division, has a
/// divisor other than 0 that does not overflow).
pub open spec fn int_arith_fits(op: Seq<char>, a: i32, b: i32) -> bool {
    &&& (op == PLUS@ || op == SUBS@ || op == MULTP@) ==> i32::MIN <= int_arith_value(op, a as int, b as int)
        <= i32::MAX
    &&& op == DIV@ ==> b != 0 && !(a == i32::MIN && b == -1)
}

/// `|a|` as an unsigned number.
fn magnitude(a: i32) -> (m: u32)
    ensures
        m == abs_int(a as int),
{
    if a < 0 {
        (0i64 - (a as i64)) as u32
    } else {
        a as u32
    }
}

/// The integer quotient `a / b`, truncated toward zero.
fn int_div(a: i32, b: i32) -> (q: i32)
    requires
        b != 0,
        !(a == i32::MIN && b == -1),
    ensures
        q == trunc_div(a as int, b as int),
{
    let ua = magnitude(a);
    let ub = magnitude(b);
    let m = ua / ub;
    assert(m <= ua) by (nonlinear_arith)
        requires
            ub >= 1,
            m == ua / ub,
    ;
    if ub >= 2 {
        assert(m <= ua / 2) by (nonlinear_arith)
            requires
                ub >= 2,
                m == ua / ub,
        ;
    }
    if (a < 0) == (b < 0) {
        m as i32
    } else {
        (0i64 - (m as i64)) as i32
    }
}

/// An arithmetic quadruple on two integers: `+`, `-`, `*`, or `/` truncated toward
/// zero; any other operator is refused.
pub fn int_arith(a: i32, b: i32, op: &str) -> (r: Result<i32, String>)
    requires
        int_arith_fits(op@, a, b),
    ensures
        (op@ == PLUS@ || op@ == SUBS@ || op@ == MULTP@ || op@ == DIV@) ==> (r matches Ok(v) && v
            == int_arith_value(op@, a as int, b as int)),
        !(op@ == PLUS@ || op@ == SUBS@ || op@ == MULTP@ || op@ == DIV@) ==> (r matches Err(e) && e@
            == "Unknown arithmetic op '"@ + op@ + "'"@),
{
    if str_eq(op, PLUS) {
        Ok(a + b)
    } else if str_eq(op, SUBS) {
        Ok(a - b)
    } else if str_eq(op, MULTP) {
        Ok(a * b)
    } else if str_eq(op, DIV) {
        Ok(int_div(a, b))
    } else {
        Err(concat3("Unknown arithmetic op '", op, "'"))
    }
}

/// Whether the relational operator `op` holds between two integers.
pub open spec fn int_compare_value(op: Seq<char>, a: int, b: int) -> bool {
    if op == LESS@ {
        a < b
    } else if op == MORE@ {
        a > b
    } else if op == EQUAL@ {
        a == b
    } else {
        a != b
    }
}

/// A relational quadruple on two integers: `<`, `>`, `==` or `!=`; any other
/// operator is refused.
pub fn int_compare(a: i32, b: i32, op: &str) -> (r: Result<bool, String>)
    ensures
        (op@ == LESS@ || op@ == MORE@ || op@ == EQUAL@ || op@ == NOT_EQUAL@) ==> r == Ok::<bool, String>(
            int_compare_value(op@, a as int, b as int),
        ),
        !(op@ == LESS@ || op@ == MORE@ || op@ == EQUAL@ || op@ == NOT_EQUAL@) ==> (r matches Err(e) && e@
            == "Unknown relational op '"@ + op@ + "'"@),
{
    if str_eq(op, LESS) {
        Ok(a < b)
    } else if str_eq(op, MORE) {
        Ok(a > b)
    } else if str_eq(op, EQUAL) {
        Ok(a == b)
    } else if str_eq(op, NOT_EQUAL) {
        Ok(a != b)
    } else {
        Err(concat3("Unknown relational op '", op, "'"))
    }
}

/// Whether a quadruple of kind `k` leaves the stacks of calls alone and goes on either
/// to the next quadruple or, for a `Goto`, to the one its result names.
pub open spec fn plain_step(k: OpKind) -> bool {
    k == OpKind::Arithmetic || k == OpKind::Relational || k == OpKind::Assign || k == OpKind::Print
        || k == OpKind::Era || k == OpKind::Param || k == OpKind::Goto
}

/// The quadruple that runs after one of kind `kind` at `ip` that leaves the stacks of
/// calls alone: the one its result names, for a `Goto`; the next one otherwise.
pub fn next_ip(ip: usize, kind: OpKind, result: &str) -> (r: Result<usize, String>)
    requires
        ip < usize::MAX,
        plain_step(kind),
    ensures
        kind != OpKind::Goto ==> r == Ok::<usize, String>((ip + 1) as usize),
        kind == OpKind::Goto ==> match parse_usize_spec(result@) {
            Some(a) => r == Ok::<usize, String>(a),
            None => r matches Err(m) && m@ == "Invalid address '"@ + result@ + "'"@,
        },
{
    match kind {
        OpKind::Goto => get_address(result),
        _ => Ok(ip + 1),
    }
}

/// The quadruple that runs after a `GotoF` at `ip` whose condition holds `cond`: the
/// one its result names when the condition is false (0), the next one otherwise. The
/// result is read only when the jump is taken.
pub fn gotof_next(ip: usize, cond: i32, result: &str) -> (r: Result<usize, String>)
    requires
        ip < usize::MAX,
    ensures
        cond != 0 ==> r == Ok::<usize, String>((ip + 1) as usize),
        cond == 0 ==> match parse_usize_spec(result@) {
            Some(a) => r == Ok::<usize, String>(a),
            None => r matches Err(m) && m@ == "Invalid address '"@ + result@ + "'"@,
        },
{
    if cond == 0 {
        get_address(result)
    } else {
        Ok(ip + 1)
    }
}

} // verus!
