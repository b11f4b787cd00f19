//! The function directory: functions, their variables and parameters, and the
//! table of constants, with the virtual address each of them is given.
use vstd::prelude::*;

use crate::constants::{
    lemma_type_names_differ,
    CTE_FLOAT_START, CTE_INT_START, CTE_LITERAL_START, ENTERO_TYPE, FLOTANTE_TYPE, GLOBAL,
    GLOBAL_FLOAT_START, GLOBAL_INT_START, LITERAL_TYPE, LOCAL_FLOAT_START, LOCAL_INT_START,
};
use crate::name_map::{NameMap, last_index, lemma_same_names};
use crate::text::{concat3, decimal, str_eq, usize_to_string};

verus! {

/// Message for a name that is declared a second time.
pub open spec fn already_declared_msg(name: Seq<char>) -> Seq<char> {
    "Variable '"@ + name + "' already declared"@
}

/// Message for a function that is not in the directory.
pub open spec fn missing_function_msg(name: Seq<char>) -> Seq<char> {
    "Function '"@ + name + "' doesn't exist"@
}

/// Message for a variable that is in no scope that is searched.
pub open spec fn missing_variable_msg(name: Seq<char>) -> Seq<char> {
    "Variable '"@ + name + "' doesn't exist"@
}

/// A variable: its type and its virtual address.
#[derive(Debug, PartialEq)]
pub struct VarEntry {
    pub var_type: String,
    pub address: usize,
}

impl VarEntry {
    pub fn new(var_type: &str, address: usize) -> (e: Self)
        ensures
            e.var_type@ == var_type@,
            e.address == address,
    {
        VarEntry { var_type: var_type.to_owned(), address: address }
    }
}

/// A function: its return type, its variables, the types of its parameters, the
/// quadruple where its code starts and how many variables of each kind it uses.
#[derive(Debug)]
pub struct FuncEntry {
    pub func_type: String,
    pub var_directory: NameMap<VarEntry>,
    pub parameters: Vec<String>,
    pub starting_quad: usize,
    pub int_count: usize,
    pub float_count: usize,
    pub temp_int_count: usize,
    pub temp_float_count: usize,
}

/// Start of the segment where a variable of type `t` is placed, global or local;
/// `None` for a type that has no segment.
pub open spec fn var_segment(t: Seq<char>, is_global: bool) -> Option<int> {
    if t == FLOTANTE_TYPE@ {
        Some(if is_global { GLOBAL_FLOAT_START as int } else { LOCAL_FLOAT_START as int })
    } else if t == ENTERO_TYPE@ {
        Some(if is_global { GLOBAL_INT_START as int } else { LOCAL_INT_START as int })
    } else {
        None
    }
}

impl FuncEntry {
    /// The address the next variable of type `t` gets: the start of its segment plus
    /// the number of variables of that type placed so far.
    pub open spec fn next_address(&self, t: Seq<char>, is_global: bool) -> Option<int> {
        match var_segment(t, is_global) {
            Some(start) => Some(
                start + if t == FLOTANTE_TYPE@ {
                    self.float_count as int
                } else {
                    self.int_count as int
                },
            ),
            None => None,
        }
    }

    /// Whether the next address of type `t`, and the count after it, fit in a `usize`.
    pub open spec fn has_room(&self, t: Seq<char>, is_global: bool) -> bool {
        &&& self.next_address(t, is_global) matches Some(a) ==> a < usize::MAX
        &&& t == FLOTANTE_TYPE@ ==> self.float_count < usize::MAX
        &&& t == ENTERO_TYPE@ ==> self.int_count < usize::MAX
    }

    /// `e` is `self` after one more variable of type `t` was placed.
    pub open spec fn counted(&self, e: FuncEntry, t: Seq<char>) -> bool {
        &&& e.func_type == self.func_type
        &&& e.var_directory == self.var_directory
        &&& e.parameters == self.parameters
        &&& e.starting_quad == self.starting_quad
        &&& e.temp_int_count == self.temp_int_count
        &&& e.temp_float_count == self.temp_float_count
        &&& e.float_count == (if t == FLOTANTE_TYPE@ {
            self.float_count + 1
        } else {
            self.float_count as int
        })
        &&& e.int_count == (if t == ENTERO_TYPE@ {
            self.int_count + 1
        } else {
            self.int_count as int
        })
    }

    /// `self` is a new function of type `t`: no variables, no parameters, all counts 0.
    pub open spec fn is_fresh(&self, t: Seq<char>) -> bool {
        &&& self.func_type@ == t
        &&& self.var_directory@ == Map::<Seq<char>, VarEntry>::empty()
        &&& self.parameters@.len() == 0
        &&& self.starting_quad == 0
        &&& self.int_count == 0
        &&& self.float_count == 0
        &&& self.temp_int_count == 0
        &&& self.temp_float_count == 0
    }

    pub fn new(func_type: &str) -> (e: Self)
        ensures
            e.is_fresh(func_type@),
    {
        FuncEntry {
            func_type: func_type.to_owned(),
            var_directory: NameMap::new(),
            parameters: Vec::new(),
            starting_quad: 0,
            int_count: 0,
            float_count: 0,
            temp_int_count: 0,
            temp_float_count: 0,
        }
    }

    pub fn new_with_vars(func_type: &str, vars: NameMap<VarEntry>, parameters: Vec<String>) -> (e:
        Self)
        ensures
            e.func_type@ == func_type@,
            e.var_directory == vars,
            e.parameters == parameters,
            e.starting_quad == 0,
            e.int_count == 0,
            e.float_count == 0,
            e.temp_int_count == 0,
            e.temp_float_count == 0,
    {
        FuncEntry {
            func_type: func_type.to_owned(),
            var_directory: vars,
            parameters: parameters,
            starting_quad: 0,
            int_count: 0,
            float_count: 0,
            temp_int_count: 0,
            temp_float_count: 0,
        }
    }

    /// Gives the address for a new variable of type `var_type`: the next free address
    /// of the global or local segment of that type.
    pub fn get_address(&mut self, var_type: &str, is_global: bool) -> (r: Result<usize, String>)
        requires
            old(self).has_room(var_type@, is_global),
        ensures
            match old(self).next_address(var_type@, is_global) {
                Some(a) => r == Ok::<usize, String>(a as usize) && old(self).counted(
                    *final(self),
                    var_type@,
                ),
                None => r matches Err(m) && m@ == "Invalid type"@ && *final(self) == *old(self),
            },
    {
        proof {
            lemma_type_names_differ();
        }
        let address;
        if is_global {
            if str_eq(var_type, FLOTANTE_TYPE) {
                address = self.float_count + GLOBAL_FLOAT_START;
                self.float_count = self.float_count + 1;
            } else if str_eq(var_type, ENTERO_TYPE) {
                address = self.int_count + GLOBAL_INT_START;
                self.int_count = self.int_count + 1;
            } else {
                return Err("Invalid type".to_owned());
            }
        } else {
            if str_eq(var_type, FLOTANTE_TYPE) {
                address = self.float_count + LOCAL_FLOAT_START;
                self.float_count = self.float_count + 1;
            } else if str_eq(var_type, ENTERO_TYPE) {
                address = self.int_count + LOCAL_INT_START;
                self.int_count = self.int_count + 1;
            } else {
                return Err("Invalid type".to_owned());
            }
        }
        Ok(address)
    }

    /// Adds a variable to the scope of the function, at the next address of its type.
    pub fn add_variable(&mut self, var_name: String, var_entry: VarEntry, is_global: bool) -> (r:
        Result<(), String>)
        requires
            old(self).has_room(var_entry.var_type@, is_global),
        ensures
            old(self).var_directory@.contains_key(var_name@) ==> (r matches Err(m) && m@
                == already_declared_msg(var_name@) && *final(self) == *old(self)),
            !old(self).var_directory@.contains_key(var_name@) ==> match old(self).next_address(
                var_entry.var_type@,
                is_global,
            ) {
                Some(a) => r is Ok && final(self).var_directory@ == old(self).var_directory@.insert(
                    var_name@,
                    VarEntry { var_type: var_entry.var_type, address: a as usize },
                ) && old(self).counted(
                    FuncEntry { var_directory: old(self).var_directory, ..*final(self) },
                    var_entry.var_type@,
                ),
                None => r matches Err(m) && m@ == "Invalid type"@ && *final(self) == *old(self),
            },
    {
        if self.var_directory.contains_key(var_name.as_str()) {
            return Err(concat3("Variable '", var_name.as_str(), "' already declared"));
        }
        let mut var_entry = var_entry;
        let address = self.get_address(var_entry.var_type.as_str(), is_global);
        match address {
            Ok(a) => {
                var_entry.address = a;
                self.var_directory.insert(var_name, var_entry);
                Ok(())
            },
            Err(e) => Err(e),
        }
    }

    /// Adds the type of one more parameter.
    pub fn add_param(&mut self, param_type: &str)
        ensures
            final(self).parameters.deep_view() == old(self).parameters.deep_view().push(
                param_type@,
            ),
            *final(self) == (FuncEntry { parameters: final(self).parameters, ..*old(self) }),
    {
        self.parameters.push(param_type.to_owned());
        assert(self.parameters.deep_view() =~= old(self).parameters.deep_view().push(
            param_type@,
        ));
    }
}

} // verus!

verus! {

/// Result of looking up variable `v` from function `f`: first in `f`'s own scope,
/// then in the global scope. The error is the message that is reported.
pub open spec fn var_lookup(functions: Map<Seq<char>, FuncEntry>, f: Seq<char>, v: Seq<char>) -> Result<
    VarEntry,
    Seq<char>,
> {
    if !functions.contains_key(f) {
        Err(missing_function_msg(f))
    } else if functions[f].var_directory@.contains_key(v) {
        Ok(functions[f].var_directory@[v])
    } else if !functions.contains_key(GLOBAL@) {
        Err(missing_function_msg(f))
    } else if functions[GLOBAL@].var_directory@.contains_key(v) {
        Ok(functions[GLOBAL@].var_directory@[v])
    } else {
        Err(missing_variable_msg(v))
    }
}

/// Start of the constant segment of type `t`, if it has one.
pub open spec fn const_segment(t: Seq<char>) -> Option<int> {
    if t == ENTERO_TYPE@ {
        Some(CTE_INT_START as int)
    } else if t == FLOTANTE_TYPE@ {
        Some(CTE_FLOAT_START as int)
    } else if t == LITERAL_TYPE@ {
        Some(CTE_LITERAL_START as int)
    } else {
        None
    }
}

/// The directory of functions and the table of constants of a program.
pub struct DirFunc {
    pub functions: NameMap<FuncEntry>,
    pub constants: NameMap<usize>,
    pub cte_int: usize,
    pub cte_float: usize,
    pub cte_literal: usize,
}

/// `d2` and `r` are what adding variable `v` of type `t` to function `f_name` of
/// `d` gives: an error when the function does not exist, when it already has a
/// variable of that name, or when the type has no segment; else the variable, at the
/// next address of its type in the function's scope.
pub open spec fn adds_variable(d: DirFunc, d2: DirFunc, f_name: Seq<char>, v: Seq<char>, t: Seq<char>, r: Result<(), String>) -> bool {
    let f = f_name;
    let g = f == GLOBAL@;
    let e = d.functions@[f];
    let e2 = d2.functions@[f];
    if !d.functions@.contains_key(f) {
        &&& r matches Err(m) && m@ == missing_function_msg(f)
        &&& d2.functions@ == d.functions@
        &&& d.same_constants(&d2)
    } else if e.var_directory@.contains_key(v) {
        &&& r matches Err(m) && m@ == already_declared_msg(v)
        &&& d2.functions@ == d.functions@
        &&& d.same_constants(&d2)
    } else {
        match e.next_address(t, g) {
            Some(a) => {
                &&& r is Ok
                &&& d.updates_function(&d2, f)
                &&& e2.var_directory@ == e.var_directory@.insert(
                    v,
                    e2.var_directory@[v],
                )
                &&& e2.var_directory@[v].var_type@ == t
                &&& e2.var_directory@[v].address == a
                &&& e.counted(FuncEntry { var_directory: e.var_directory, ..e2 }, t)
            },
            None => {
                &&& r matches Err(m) && m@ == "Invalid type"@
                &&& d2.functions@ == d.functions@
                &&& d.same_constants(&d2)
            },
        }
    }
}

/// `d2` and `r` are what saving constant `value` of type `t` in `d` gives: a value
/// in the table keeps its address and changes nothing; a new one of a type with a
/// segment gets the next address of that type; any other is an error.
pub open spec fn saves_constant(d: DirFunc, d2: DirFunc, t: Seq<char>, value: Seq<char>, r: Result<usize, String>) -> bool {
    if d.constants@.contains_key(value) {
        &&& r == Ok::<usize, String>(d.constants@[value])
        &&& d2.functions@ == d.functions@
        &&& d.same_constants(&d2)
    } else {
        match d.next_constant(t) {
            Some(a) => {
                &&& r == Ok::<usize, String>(a as usize)
                &&& d2.constants@ == d.constants@.insert(value, a as usize)
                &&& d.cte_counted(&d2, t)
                &&& d2.functions@ == d.functions@
            },
            None => {
                &&& r matches Err(m) && m@ == "Wrong constant type"@
                &&& d2.functions@ == d.functions@
                &&& d.same_constants(&d2)
            },
        }
    }
}

impl DirFunc {
    /// How many constants of each type (integer, float, string) have been saved.
    pub open spec fn cte_counts(&self) -> (usize, usize, usize) {
        (self.cte_int, self.cte_float, self.cte_literal)
    }

    /// How many constants of type `t` have been saved.
    pub open spec fn cte_count_of(&self, t: Seq<char>) -> int {
        if t == ENTERO_TYPE@ {
            self.cte_counts().0 as int
        } else if t == FLOTANTE_TYPE@ {
            self.cte_counts().1 as int
        } else {
            self.cte_counts().2 as int
        }
    }

    /// The address the next constant of type `t` gets.
    pub open spec fn next_constant(&self, t: Seq<char>) -> Option<int> {
        match const_segment(t) {
            Some(start) => Some(start + self.cte_count_of(t)),
            None => None,
        }
    }

    /// `new` is `self` after one more constant of type `t` was counted.
    pub open spec fn cte_counted(&self, new: &DirFunc, t: Seq<char>) -> bool {
        &&& new.cte_counts().0 == self.cte_counts().0 + (if t == ENTERO_TYPE@ { 1int } else { 0 })
        &&& new.cte_counts().1 == self.cte_counts().1 + (if t == FLOTANTE_TYPE@ { 1int } else { 0 })
        &&& new.cte_counts().2 == self.cte_counts().2 + (if t == LITERAL_TYPE@ { 1int } else { 0 })
    }

    /// The constants part of `new` is the one of `self`.
    pub open spec fn same_constants(&self, new: &DirFunc) -> bool {
        &&& new.constants@ == self.constants@
        &&& new.cte_counts() == self.cte_counts()
    }

    /// `new` differs from `self` at most in the entry of function `f`.
    pub open spec fn updates_function(&self, new: &DirFunc, f: Seq<char>) -> bool {
        &&& self.same_constants(new)
        &&& new.functions@.contains_key(f)
        &&& new.functions@ == self.functions@.insert(f, new.functions@[f])
    }

    /// An empty directory.
    pub fn new() -> (d: Self)
        ensures
            d.functions@ == Map::<Seq<char>, FuncEntry>::empty(),
            d.constants@ == Map::<Seq<char>, usize>::empty(),
            d.cte_counts() == (0usize, 0usize, 0usize),
    {
        DirFunc {
            functions: NameMap::new(),
            constants: NameMap::new(),
            cte_int: 0,
            cte_float: 0,
            cte_literal: 0,
        }
    }

    /// Creates a function in the directory; a name can be created only once.
    pub fn create_function(&mut self, function_name: &str, function_type: &str) -> (r: Result<
        (),
        String,
    >)
        ensures
            old(self).functions@.contains_key(function_name@) ==> (r matches Err(m) && m@
                == already_declared_msg(function_type@) && final(self).functions@ == old(self).functions@ && old(self).same_constants(final(self))),
            !old(self).functions@.contains_key(function_name@) ==> (r is Ok && old(self).updates_function(final(self), function_name@)
                && final(self).functions@[function_name@].is_fresh(function_type@)),
    {
        if self.functions.contains_key(function_name) {
            return Err(concat3("Variable '", function_type, "' already declared"));
        }
        self.functions.insert(function_name.to_owned(), FuncEntry::new(function_type));
        proof {
            assert(self.functions@ =~= old(self).functions@.insert(
                function_name@,
                self.functions@[function_name@],
            ));
        }
        Ok(())
    }

    /// Adds a parameter type to the signature of a function.
    pub fn add_param_to_function(&mut self, function_name: &str, param_type: &str) -> (r: Result<
        (),
        String,
    >)
        ensures
            !old(self).functions@.contains_key(function_name@) ==> (r matches Err(m) && m@
                == missing_function_msg(function_name@) && final(self).functions@ == old(self).functions@ && old(self).same_constants(final(self))),
            old(self).functions@.contains_key(function_name@) ==> ({
                let e = old(self).functions@[function_name@];
                let e2 = final(self).functions@[function_name@];
                &&& r is Ok
                &&& old(self).updates_function(final(self), function_name@)
                &&& e2.parameters.deep_view() == e.parameters.deep_view().push(param_type@)
                &&& e2 == (FuncEntry { parameters: e2.parameters, ..e })
            }),
    {
        match self.functions.find(function_name) {
            None => Err(concat3("Function '", function_name, "' doesn't exist")),
            Some(i) => {
                let mut e = self.functions.replace_at(i, FuncEntry::new(""));
                e.add_param(param_type);
                let _ = self.functions.replace_at(i, e);
                proof {
                    assert(self.functions@ =~= old(self).functions@.insert(function_name@, e));
                }
                Ok(())
            },
        }
    }

    /// Records the quadruple where the code of a function starts.
    pub fn set_function_starting_point(&mut self, function_name: &str, starting_point: usize) -> (r:
        Result<(), String>)
        ensures
            !old(self).functions@.contains_key(function_name@) ==> (r matches Err(m) && m@
                == missing_function_msg(function_name@) && final(self).functions@ == old(self).functions@ && old(self).same_constants(final(self))),
            old(self).functions@.contains_key(function_name@) ==> (r is Ok && old(self).updates_function(final(self), function_name@) && final(self).functions@[function_name@] == (FuncEntry {
                starting_quad: starting_point,
                ..old(self).functions@[function_name@]
            })),
    {
        match self.functions.find(function_name) {
            None => Err(concat3("Function '", function_name, "' doesn't exist")),
            Some(i) => {
                let mut e = self.functions.replace_at(i, FuncEntry::new(""));
                e.starting_quad = starting_point;
                let _ = self.functions.replace_at(i, e);
                proof {
                    assert(self.functions@ =~= old(self).functions@.insert(function_name@, e));
                }
                Ok(())
            },
        }
    }

    /// Adds a variable to a function; in the global scope it gets a global address,
    /// elsewhere a local one.
    pub fn add_variable_to_function(&mut self, function_name: &str, var_name: &str, var_type: &str) -> (r:
        Result<(), String>)
        requires
            old(self).functions@.contains_key(function_name@) ==> old(self).functions@[function_name@].has_room(var_type@, function_name@ == GLOBAL@),
        ensures
            adds_variable(*old(self), *final(self), function_name@, var_name@, var_type@, r),
    {
        match self.functions.find(function_name) {
            None => Err(concat3("Function '", function_name, "' doesn't exist")),
            Some(i) => {
                let var_entry = VarEntry { var_type: var_type.to_owned(), address: 0 };
                let is_global = str_eq(function_name, GLOBAL);
                let mut e = self.functions.replace_at(i, FuncEntry::new(""));
                let r = e.add_variable(var_name.to_owned(), var_entry, is_global);
                let _ = self.functions.replace_at(i, e);
                proof {
                    assert(self.functions@ =~= old(self).functions@.insert(function_name@, e));
                    if r is Err {
                        assert(self.functions@ =~= old(self).functions@);
                    }
                }
                r
            },
        }
    }

    /// Address of a variable seen from a function (its own scope, then the global one),
    /// as decimal text.
    pub fn get_var_address_of(&self, function_name: &str, var_name: &str) -> (r: Result<
        String,
        String,
    >)
        ensures
            match var_lookup(self.functions@, function_name@, var_name@) {
                Ok(e) => r matches Ok(s) && s@ == decimal(e.address as nat),
                Err(m) => r matches Err(s) && s@ == m,
            },
    {
        let function = match self.functions.get(function_name) {
            Some(f) => f,
            None => {
                return Err(concat3("Function '", function_name, "' doesn't exist"));
            },
        };
        if let Some(var_entry) = function.var_directory.get(var_name) {
            return Ok(usize_to_string(var_entry.address));
        }
        let global = match self.functions.get(GLOBAL) {
            Some(f) => f,
            None => {
                return Err(concat3("Function '", function_name, "' doesn't exist"));
            },
        };
        match global.var_directory.get(var_name) {
            Some(var_entry) => Ok(usize_to_string(var_entry.address)),
            None => Err(concat3("Variable '", var_name, "' doesn't exist")),
        }
    }

    /// Type of a variable seen from a function (its own scope, then the global one).
    pub fn get_var_type_of(&self, function_name: &str, var_name: &str) -> (r: Result<
        String,
        String,
    >)
        ensures
            match var_lookup(self.functions@, function_name@, var_name@) {
                Ok(e) => r matches Ok(s) && s@ == e.var_type@,
                Err(m) => r matches Err(s) && s@ == m,
            },
    {
        let function = match self.functions.get(function_name) {
            Some(f) => f,
            None => {
                return Err(concat3("Function '", function_name, "' doesn't exist"));
            },
        };
        if let Some(var_entry) = function.var_directory.get(var_name) {
            return Ok(var_entry.var_type.clone());
        }
        let global = match self.functions.get(GLOBAL) {
            Some(f) => f,
            None => {
                return Err(concat3("Function '", function_name, "' doesn't exist"));
            },
        };
        match global.var_directory.get(var_name) {
            Some(var_entry) => Ok(var_entry.var_type.clone()),
            None => Err(concat3("Variable '", var_name, "' doesn't exist")),
        }
    }

    /// Saves a constant in the table of constants. A value that was saved before
    /// keeps its address; a new one gets the next address of its type.
    pub fn save_constant(&mut self, var_type: &str, value: &str) -> (r: Result<usize, String>)
        requires
            !old(self).constants@.contains_key(value@) ==> (old(self).next_constant(var_type@) matches Some(a) ==> a < usize::MAX),
        ensures
            saves_constant(*old(self), *final(self), var_type@, value@, r),
    {
        proof {
            lemma_type_names_differ();
        }
        if let Some(address) = self.constants.get(value) {
            return Ok(*address);
        }
        let address: usize;
        if str_eq(var_type, ENTERO_TYPE) {
            address = self.cte_int + CTE_INT_START;
            self.cte_int = self.cte_int + 1;
        } else if str_eq(var_type, FLOTANTE_TYPE) {
            address = self.cte_float + CTE_FLOAT_START;
            self.cte_float = self.cte_float + 1;
        } else if str_eq(var_type, LITERAL_TYPE) {
            address = self.cte_literal + CTE_LITERAL_START;
            self.cte_literal = self.cte_literal + 1;
        } else {
            return Err("Wrong constant type".to_owned());
        }
        self.constants.insert(value.to_owned(), address);
        Ok(address)
    }

    /// Records how many temporary integers and floats a function uses.
    pub fn set_temporal_count(&mut self, function_name: &str, temp_int_count: usize, temp_float_count: usize) -> (r:
        Result<(), String>)
        ensures
            !old(self).functions@.contains_key(function_name@) ==> (r matches Err(m) && m@
                == missing_function_msg(function_name@) && final(self).functions@ == old(self).functions@ && old(self).same_constants(final(self))),
            old(self).functions@.contains_key(function_name@) ==> (r is Ok && old(self).updates_function(final(self), function_name@) && final(self).functions@[function_name@] == (FuncEntry {
                temp_int_count: temp_int_count,
                temp_float_count: temp_float_count,
                ..old(self).functions@[function_name@]
            })),
    {
        match self.functions.find(function_name) {
            None => Err(concat3("Function '", function_name, "' doesn't exist")),
            Some(i) => {
                let mut e = self.functions.replace_at(i, FuncEntry::new(""));
                e.temp_int_count = temp_int_count;
                e.temp_float_count = temp_float_count;
                let _ = self.functions.replace_at(i, e);
                proof {
                    assert(self.functions@ =~= old(self).functions@.insert(function_name@, e));
                }
                Ok(())
            },
        }
    }

    /// Whether a function is in the directory.
    pub fn function_exists(&self, function_name: &str) -> (b: bool)
        ensures
            b == self.functions@.contains_key(function_name@),
    {
        self.functions.contains_key(function_name)
    }
}

/// A variable added to a function is found from that function afterwards, with
/// its type and the address it was given; every other variable name is found, or
/// not, as before.
pub proof fn law_added_variable_is_found(
    d: DirFunc,
    d2: DirFunc,
    f: Seq<char>,
    v: Seq<char>,
    t: Seq<char>,
    r: Result<(), String>,
)
    requires
        adds_variable(d, d2, f, v, t, r),
        r is Ok,
    ensures
        var_lookup(d2.functions@, f, v) matches Ok(e) && e.var_type@ == t && Some(e.address as int)
            == d.functions@[f].next_address(t, f == GLOBAL@),
        forall|g: Seq<char>, w: Seq<char>| w != v ==> #[trigger] var_lookup(d2.functions@, g, w) == var_lookup(
            d.functions@,
            g,
            w,
        ),
{
    let e = d.functions@[f];
    let e2 = d2.functions@[f];
    assert(d.functions@.contains_key(f));
    assert(d2.functions@.contains_key(f));
    assert forall|g: Seq<char>, w: Seq<char>| w != v implies #[trigger] var_lookup(d2.functions@, g, w) == var_lookup(
        d.functions@,
        g,
        w,
    ) by {
        assert(d2.functions@.dom() == d.functions@.dom().insert(f));
        if g == f {
            assert(e2.var_directory@.contains_key(w) == e.var_directory@.contains_key(w));
        }
        if f == GLOBAL@ {
            assert(e2.var_directory@.contains_key(w) == e.var_directory@.contains_key(w));
        }
    }
}

/// Saving a constant that was just saved gives the same address again and changes
/// nothing.
pub proof fn law_constant_saved_again(
    d: DirFunc,
    d2: DirFunc,
    d3: DirFunc,
    t1: Seq<char>,
    t2: Seq<char>,
    value: Seq<char>,
    r1: Result<usize, String>,
    r2: Result<usize, String>,
)
    requires
        saves_constant(d, d2, t1, value, r1),
        r1 is Ok,
        saves_constant(d2, d3, t2, value, r2),
    ensures
        r2 == r1,
        d3.constants@ == d2.constants@,
        d3.cte_counts() == d2.cte_counts(),
        d3.functions@ == d2.functions@,
{
    assert(d2.constants@.contains_key(value));
}

/// `a` lies in the part of a constant segment that has been handed out.
pub open spec fn handed_out(d: DirFunc, a: usize) -> bool {
    ||| CTE_INT_START <= a < CTE_INT_START + d.cte_int
    ||| CTE_FLOAT_START <= a < CTE_FLOAT_START + d.cte_float
    ||| CTE_LITERAL_START <= a < CTE_LITERAL_START + d.cte_literal
}

/// The constant table is sound: each constant lies in the handed-out part of a
/// constant segment, no two constants share an address, and no segment has run over
/// its 1,000 addresses.
pub open spec fn constants_sound(d: DirFunc) -> bool {
    &&& d.cte_int <= 1000 && d.cte_float <= 1000 && d.cte_literal <= 1000
    &&& forall|x: Seq<char>| #[trigger] d.constants@.contains_key(x) ==> handed_out(d, d.constants@[x])
    &&& forall|x: Seq<char>, y: Seq<char>| #[trigger] d.constants@.contains_key(x) && #[trigger] d.constants@.contains_key(y)
        && x != y ==> d.constants@[x] != d.constants@[y]
}

/// Saving a constant keeps the constant table sound as long as no segment runs
/// over: distinct constants never share an address, and each stays in the segment
/// of its type.
pub proof fn law_constants_stay_sound(
    d: DirFunc,
    d2: DirFunc,
    t: Seq<char>,
    value: Seq<char>,
    r: Result<usize, String>,
)
    requires
        constants_sound(d),
        saves_constant(d, d2, t, value, r),
        d2.cte_int <= 1000 && d2.cte_float <= 1000 && d2.cte_literal <= 1000,
    ensures
        constants_sound(d2),
{
    lemma_type_names_differ();
    if !d.constants@.contains_key(value) && d.next_constant(t) is Some {
        let a = d.next_constant(t)->Some_0 as usize;
        assert forall|x: Seq<char>| #[trigger] d2.constants@.contains_key(x) implies handed_out(d2, d2.constants@[x]) by {
            if x != value {
                assert(d.constants@.contains_key(x));
                assert(handed_out(d, d.constants@[x]));
            }
        }
        assert forall|x: Seq<char>, y: Seq<char>| #[trigger] d2.constants@.contains_key(x) && #[trigger] d2.constants@.contains_key(y)
            && x != y implies d2.constants@[x] != d2.constants@[y] by {
            if x != value && y != value {
                assert(d.constants@.contains_key(x) && d.constants@.contains_key(y));
            } else if x == value {
                assert(d.constants@.contains_key(y));
                assert(handed_out(d, d.constants@[y]));
            } else {
                assert(d.constants@.contains_key(x));
                assert(handed_out(d, d.constants@[x]));
            }
        }
    }
}

/// The constant table of a new directory is sound.
pub proof fn law_new_constants_sound(d: DirFunc)
    requires
        d.constants@ == Map::<Seq<char>, usize>::empty(),
        d.cte_counts() == (0usize, 0usize, 0usize),
    ensures
        constants_sound(d),
{
}

/// `a` lies in the part of a variable segment of a function that has been handed out:
/// its integers from the integer start, its floats from the float start, global or
/// local.
pub open spec fn var_handed_out(e: FuncEntry, is_global: bool, a: usize) -> bool {
    let ints = var_segment(ENTERO_TYPE@, is_global)->Some_0;
    let floats = var_segment(FLOTANTE_TYPE@, is_global)->Some_0;
    ||| ints <= a < ints + e.int_count
    ||| floats <= a < floats + e.float_count
}

/// The variables of a function are sound: each lies in the handed-out part of a
/// segment of its scope, no two share an address, and no segment has run over its
/// 1,000 addresses.
pub open spec fn vars_sound(e: FuncEntry, is_global: bool) -> bool {
    &&& e.int_count <= 1000 && e.float_count <= 1000
    &&& forall|x: Seq<char>| #[trigger] e.var_directory@.contains_key(x) ==> var_handed_out(
        e,
        is_global,
        e.var_directory@[x].address,
    )
    &&& forall|x: Seq<char>, y: Seq<char>| #[trigger] e.var_directory@.contains_key(x)
        && #[trigger] e.var_directory@.contains_key(y) && x != y ==> e.var_directory@[x].address
        != e.var_directory@[y].address
}

/// Adding a variable to a function keeps its variables sound as long as no segment
/// runs over: two variables of a function never share an address, and each stays
/// in the segment of its type and scope.
pub proof fn law_vars_stay_sound(
    d: DirFunc,
    d2: DirFunc,
    f: Seq<char>,
    v: Seq<char>,
    t: Seq<char>,
    r: Result<(), String>,
)
    requires
        d.functions@.contains_key(f),
        vars_sound(d.functions@[f], f == GLOBAL@),
        adds_variable(d, d2, f, v, t, r),
        d2.functions@[f].int_count <= 1000 && d2.functions@[f].float_count <= 1000,
    ensures
        d2.functions@.contains_key(f),
        vars_sound(d2.functions@[f], f == GLOBAL@),
{
    lemma_type_names_differ();
    let g = f == GLOBAL@;
    let e = d.functions@[f];
    let e2 = d2.functions@[f];
    if r is Ok {
        assert(!e.var_directory@.contains_key(v));
        assert forall|x: Seq<char>| #[trigger] e2.var_directory@.contains_key(x) implies var_handed_out(
            e2,
            g,
            e2.var_directory@[x].address,
        ) by {
            if x != v {
                assert(e.var_directory@.contains_key(x));
                assert(var_handed_out(e, g, e.var_directory@[x].address));
            }
        }
        assert forall|x: Seq<char>, y: Seq<char>| #[trigger] e2.var_directory@.contains_key(x)
            && #[trigger] e2.var_directory@.contains_key(y) && x != y implies e2.var_directory@[x].address
            != e2.var_directory@[y].address by {
            if x != v && y != v {
                assert(e.var_directory@.contains_key(x) && e.var_directory@.contains_key(y));
            } else if x == v {
                assert(e.var_directory@.contains_key(y));
                assert(var_handed_out(e, g, e.var_directory@[y].address));
            } else {
                assert(e.var_directory@.contains_key(x));
                assert(var_handed_out(e, g, e.var_directory@[x].address));
            }
        }
    }
}

/// A new function's variables are sound.
pub proof fn law_fresh_function_vars_sound(e: FuncEntry, t: Seq<char>, is_global: bool)
    requires
        e.is_fresh(t),
    ensures
        vars_sound(e, is_global),
{
}

} // verus!
