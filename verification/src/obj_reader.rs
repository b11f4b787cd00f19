//! Reading an object file back: the text that `ObjWriter` writes becomes the
//! function directory, the constant table and the quadruples that the virtual
//! machine runs.
//!
//! Lines are read one by one. An empty line is skipped, a line that starts with
//! `%%` opens a section, and any other line is read by the section it stands in:
//!
//! ```text
//! %%CONSTANTS   value|address
//! %%FUNCTIONS   name|type|start_quad|int|float|temp_int|temp_float|params(csv)
//! %%QUADRUPLES  index|operator|left|right|result
//! ```
//!
//! A line of any other section (such as `%%END`) is ignored.
use vstd::prelude::*;

use crate::directory::{DirFunc, FuncEntry};
use crate::quadruples::{Quad, QuadV};
use crate::text::{
    concat3, decimal, lines_of, parse_usize, parse_usize_spec, split_on, split_str, str_eq, strs,
    text_lines, usize_to_string,
};

verus! {

/// What the object file says of a function.
pub struct FuncRecord {
    pub func_type: Seq<char>,
    pub starting_quad: usize,
    pub int_count: usize,
    pub float_count: usize,
    pub temp_int_count: usize,
    pub temp_float_count: usize,
    pub parameters: Seq<Seq<char>>,
}

/// The part of a function entry that the object file holds.
pub open spec fn record_of(e: FuncEntry) -> FuncRecord {
    FuncRecord {
        func_type: e.func_type@,
        starting_quad: e.starting_quad,
        int_count: e.int_count,
        float_count: e.float_count,
        temp_int_count: e.temp_int_count,
        temp_float_count: e.temp_float_count,
        parameters: strs(e.parameters@),
    }
}

/// `e` is the entry that reading `r` makes: it holds `r` and no variables.
pub open spec fn entry_from(e: FuncEntry, r: FuncRecord) -> bool {
    &&& record_of(e) == r
    &&& e.var_directory@ == Map::<Seq<char>, crate::directory::VarEntry>::empty()
}

pub open spec fn malformed_constant_msg(line: Seq<char>) -> Seq<char> {
    "Malformed constant line: '"@ + line + "'"@
}

pub open spec fn bad_constant_address_msg(line: Seq<char>) -> Seq<char> {
    "Invalid constant address in line: '"@ + line + "'"@
}

pub open spec fn malformed_function_msg(line: Seq<char>) -> Seq<char> {
    "Malformed function line: '"@ + line + "'"@
}

pub open spec fn malformed_quadruple_msg(line: Seq<char>) -> Seq<char> {
    "Malformed quadruple line: '"@ + line + "'"@
}

pub open spec fn invalid_number_msg(value: Seq<char>, line: Seq<char>) -> Seq<char> {
    "Invalid number '"@ + value + "' in line: '"@ + line + "'"@
}

pub open spec fn out_of_order_msg(expected: nat, got: nat, line: Seq<char>) -> Seq<char> {
    "Quadruple out of order: expected index "@ + decimal(expected) + ", got "@ + decimal(got)
        + " in line '"@ + line + "'"@
}

/// A number field of `line`.
pub open spec fn number_field(value: Seq<char>, line: Seq<char>) -> Result<usize, Seq<char>> {
    match parse_usize_spec(value) {
        Some(n) => Ok(n),
        None => Err(invalid_number_msg(value, line)),
    }
}

/// A constant line: its value and its address.
pub open spec fn constant_line_spec(line: Seq<char>) -> Result<(Seq<char>, usize), Seq<char>> {
    let parts = split_on(line, '|');
    if parts.len() != 2 {
        Err(malformed_constant_msg(line))
    } else {
        match parse_usize_spec(parts[1]) {
            Some(a) => Ok((parts[0], a)),
            None => Err(bad_constant_address_msg(line)),
        }
    }
}

/// The parameter types of a function line: none when the field is empty.
pub open spec fn params_field(field: Seq<char>) -> Seq<Seq<char>> {
    if field.len() == 0 {
        Seq::empty()
    } else {
        split_on(field, ',')
    }
}

/// A function line: its name and what it says of the function. The number fields
/// are read in order, and the first that is no number is the error.
pub open spec fn function_line_spec(line: Seq<char>) -> Result<(Seq<char>, FuncRecord), Seq<char>> {
    let p = split_on(line, '|');
    if p.len() != 8 {
        Err(malformed_function_msg(line))
    } else {
        match number_field(p[2], line) {
            Err(m) => Err(m),
            Ok(start) => match number_field(p[3], line) {
                Err(m) => Err(m),
                Ok(ints) => match number_field(p[4], line) {
                    Err(m) => Err(m),
                    Ok(floats) => match number_field(p[5], line) {
                        Err(m) => Err(m),
                        Ok(temp_ints) => match number_field(p[6], line) {
                            Err(m) => Err(m),
                            Ok(temp_floats) => Ok(
                                (
                                    p[0],
                                    FuncRecord {
                                        func_type: p[1],
                                        starting_quad: start,
                                        int_count: ints,
                                        float_count: floats,
                                        temp_int_count: temp_ints,
                                        temp_float_count: temp_floats,
                                        parameters: params_field(p[7]),
                                    },
                                ),
                            ),
                        },
                    },
                },
            },
        }
    }
}

/// A quadruple line, which must carry the index `expected`.
pub open spec fn quadruple_line_spec(line: Seq<char>, expected: nat) -> Result<QuadV, Seq<char>> {
    let p = split_on(line, '|');
    if p.len() != 5 {
        Err(malformed_quadruple_msg(line))
    } else {
        match number_field(p[0], line) {
            Err(m) => Err(m),
            Ok(index) => if index != expected {
                Err(out_of_order_msg(expected, index as nat, line))
            } else {
                Ok((p[1], p[2], p[3], p[4]))
            },
        }
    }
}

/// What has been read so far: the section being read, and the constants, functions
/// and quadruples read in it, in the order of the file.
pub struct LoadState {
    pub section: Seq<char>,
    pub constants: Map<Seq<char>, usize>,
    pub functions: Map<Seq<char>, FuncRecord>,
    pub quads: Seq<QuadV>,
}

/// Nothing read yet.
pub open spec fn load_start() -> LoadState {
    LoadState {
        section: Seq::empty(),
        constants: Map::empty(),
        functions: Map::empty(),
        quads: Seq::empty(),
    }
}

/// Whether `line` opens a section.
pub open spec fn is_header(line: Seq<char>) -> bool {
    line.len() >= 2 && line[0] == '%' && line[1] == '%'
}

/// Reads one line, where `base` quadruples were there before the file was read.
pub open spec fn load_line(st: LoadState, line: Seq<char>, base: nat) -> Result<LoadState, Seq<char>> {
    if line.len() == 0 {
        Ok(st)
    } else if is_header(line) {
        Ok(LoadState { section: line, ..st })
    } else if st.section == "%%CONSTANTS"@ {
        match constant_line_spec(line) {
            Ok((v, a)) => Ok(LoadState { constants: st.constants.insert(v, a), ..st }),
            Err(m) => Err(m),
        }
    } else if st.section == "%%FUNCTIONS"@ {
        match function_line_spec(line) {
            Ok((n, r)) => Ok(LoadState { functions: st.functions.insert(n, r), ..st }),
            Err(m) => Err(m),
        }
    } else if st.section == "%%QUADRUPLES"@ {
        match quadruple_line_spec(line, base + st.quads.len()) {
            Ok(q) => Ok(LoadState { quads: st.quads.push(q), ..st }),
            Err(m) => Err(m),
        }
    } else {
        Ok(st)
    }
}

/// Reads `lines` from `st` until the end or the first line that cannot be read:
/// the state reached, and the error of that line if there is one.
pub open spec fn load_lines(st: LoadState, lines: Seq<Seq<char>>, base: nat) -> (LoadState, Option<Seq<char>>)
    decreases lines.len(),
{
    if lines.len() == 0 {
        (st, None)
    } else {
        let (s, e) = load_lines(st, lines.drop_last(), base);
        if e is Some {
            (s, e)
        } else {
            match load_line(s, lines.last(), base) {
                Ok(s2) => (s2, None),
                Err(m) => (s, Some(m)),
            }
        }
    }
}

/// Once a line cannot be read, reading more lines changes nothing.
pub proof fn lemma_load_error_sticks(st: LoadState, ls: Seq<Seq<char>>, j: nat, i: nat, base: nat)
    requires
        j <= i <= ls.len(),
        load_lines(st, ls.take(j as int), base).1 is Some,
    ensures
        load_lines(st, ls.take(i as int), base) == load_lines(st, ls.take(j as int), base),
    decreases i,
{
    if i > j {
        lemma_load_error_sticks(st, ls, j, (i - 1) as nat, base);
        assert(ls.take(i as int).drop_last() =~= ls.take(i - 1));
    }
}

/// Whether `line` opens a section.
fn is_header_str(line: &str) -> (b: bool)
    ensures
        b == is_header(line@),
{
    line.unicode_len() >= 2 && line.get_char(0) == '%' && line.get_char(1) == '%'
}

/// A program as the virtual machine loads it from an object file.
pub struct ObjProgram {
    pub directory: DirFunc,
    pub quads: Vec<Quad>,
}

impl ObjProgram {
    /// The quadruples as text.
    pub open spec fn code(&self) -> Seq<QuadV> {
        self.quads@.map_values(|q: Quad| q@)
    }

    /// `self` is `old` with what `st` read added to it.
    pub open spec fn loaded(&self, old: &ObjProgram, st: LoadState) -> bool {
        &&& self.directory.constants@ == old.directory.constants@.union_prefer_right(st.constants)
        &&& self.directory.functions@.dom() == old.directory.functions@.dom().union(st.functions.dom())
        &&& forall|k: Seq<char>| #[trigger] st.functions.contains_key(k) ==> entry_from(
            self.directory.functions@[k],
            st.functions[k],
        )
        &&& forall|k: Seq<char>| #[trigger] old.directory.functions@.contains_key(k)
            && !st.functions.contains_key(k) ==> self.directory.functions@[k]
            == old.directory.functions@[k]
        &&& self.directory.cte_counts() == old.directory.cte_counts()
        &&& self.code() == old.code() + st.quads
    }

    /// An empty program.
    pub fn new() -> (p: Self)
        ensures
            p.directory.functions@ == Map::<Seq<char>, FuncEntry>::empty(),
            p.directory.constants@ == Map::<Seq<char>, usize>::empty(),
            p.directory.cte_counts() == (0usize, 0usize, 0usize),
            p.code() == Seq::<QuadV>::empty(),
    {
        let p = ObjProgram { directory: DirFunc::new(), quads: Vec::new() };
        assert(p.code() =~= Seq::<QuadV>::empty());
        p
    }

    /// Reads a number field of `line`.
    pub fn to_usize(value: &str, line: &str) -> (r: Result<usize, String>)
        ensures
            match number_field(value@, line@) {
                Ok(n) => r == Ok::<usize, String>(n),
                Err(m) => r matches Err(s) && s@ == m,
            },
    {
        match parse_usize(value) {
            Some(n) => Ok(n),
            None => {
                let mut m = "Invalid number '".to_owned();
                m.append(value);
                m.append("' in line: '");
                m.append(line);
                m.append("'");
                Err(m)
            },
        }
    }

    /// Reads a line of the constants section, `value|address`, into the constant
    /// table.
    pub fn parse_constant_line(&mut self, line: &str) -> (r: Result<(), String>)
        ensures
            match constant_line_spec(line@) {
                Ok((v, a)) => {
                    &&& r is Ok
                    &&& final(self).directory.constants@ == old(self).directory.constants@.insert(v, a)
                    &&& final(self).directory.functions == old(self).directory.functions
                    &&& final(self).directory.cte_counts() == old(self).directory.cte_counts()
                    &&& final(self).quads == old(self).quads
                },
                Err(m) => r matches Err(s) && s@ == m && *final(self) == *old(self),
            },
    {
        let parts = split_str(line, '|');
        if parts.len() != 2 {
            return Err(concat3("Malformed constant line: '", line, "'"));
        }
        assert(strs(parts@)[0] == parts@[0]@ && strs(parts@)[1] == parts@[1]@);
        let address = match parse_usize(parts[1].as_str()) {
            Some(a) => a,
            None => {
                return Err(concat3("Invalid constant address in line: '", line, "'"));
            },
        };
        let value = parts[0].clone();
        self.directory.constants.insert(value, address);
        Ok(())
    }

    /// Reads a line of the functions section,
    /// `name|type|start_quad|int|float|temp_int|temp_float|params`, into the function
    /// directory.
    pub fn parse_function_line(&mut self, line: &str) -> (r: Result<(), String>)
        ensures
            match function_line_spec(line@) {
                Ok((n, rec)) => {
                    &&& r is Ok
                    &&& final(self).directory.functions@.dom() == old(self).directory.functions@.dom().insert(n)
                    &&& entry_from(final(self).directory.functions@[n], rec)
                    &&& forall|k: Seq<char>| k != n && #[trigger] old(self).directory.functions@.contains_key(k)
                        ==> final(self).directory.functions@[k] == old(self).directory.functions@[k]
                    &&& final(self).directory.constants == old(self).directory.constants
                    &&& final(self).directory.cte_counts() == old(self).directory.cte_counts()
                    &&& final(self).quads == old(self).quads
                },
                Err(m) => r matches Err(s) && s@ == m && *final(self) == *old(self),
            },
    {
        let p = split_str(line, '|');
        if p.len() != 8 {
            return Err(concat3("Malformed function line: '", line, "'"));
        }
        assert(forall|i: int| 0 <= i < 8 ==> #[trigger] strs(p@)[i] == p@[i]@);
        let mut entry = FuncEntry::new(p[1].as_str());
        entry.starting_quad = match Self::to_usize(p[2].as_str(), line) {
            Ok(n) => n,
            Err(m) => {
                return Err(m);
            },
        };
        entry.int_count = match Self::to_usize(p[3].as_str(), line) {
            Ok(n) => n,
            Err(m) => {
                return Err(m);
            },
        };
        entry.float_count = match Self::to_usize(p[4].as_str(), line) {
            Ok(n) => n,
            Err(m) => {
                return Err(m);
            },
        };
        entry.temp_int_count = match Self::to_usize(p[5].as_str(), line) {
            Ok(n) => n,
            Err(m) => {
                return Err(m);
            },
        };
        entry.temp_float_count = match Self::to_usize(p[6].as_str(), line) {
            Ok(n) => n,
            Err(m) => {
                return Err(m);
            },
        };
        if p[7].unicode_len() > 0 {
            entry.parameters = split_str(p[7].as_str(), ',');
        }
        assert(strs(entry.parameters@) =~= params_field(p@[7]@));
        let name = p[0].clone();
        let ghost e = entry;
        self.directory.functions.insert(name, entry);
        proof {
            assert(self.directory.functions@[name@] == e);
        }
        Ok(())
    }

    /// Reads a line of the quadruples section, `index|operator|left|right|result`,
    /// whose index must be the number of quadruples read before it.
    pub fn parse_quadruple_line(&mut self, line: &str) -> (r: Result<(), String>)
        ensures
            match quadruple_line_spec(line@, old(self).quads@.len()) {
                Ok(q) => {
                    &&& r is Ok
                    &&& final(self).code() == old(self).code().push(q)
                    &&& final(self).directory == old(self).directory
                },
                Err(m) => r matches Err(s) && s@ == m && *final(self) == *old(self),
            },
    {
        let p = split_str(line, '|');
        if p.len() != 5 {
            return Err(concat3("Malformed quadruple line: '", line, "'"));
        }
        assert(forall|i: int| 0 <= i < 5 ==> #[trigger] strs(p@)[i] == p@[i]@);
        let index = match Self::to_usize(p[0].as_str(), line) {
            Ok(n) => n,
            Err(m) => {
                return Err(m);
            },
        };
        if index != self.quads.len() {
            let mut m = "Quadruple out of order: expected index ".to_owned();
            m.append(usize_to_string(self.quads.len()).as_str());
            m.append(", got ");
            m.append(usize_to_string(index).as_str());
            m.append(" in line '");
            m.append(line);
            m.append("'");
            return Err(m);
        }
        let quad = Quad::new(p[1].clone(), p[2].clone(), p[3].clone(), p[4].clone());
        self.quads.push(quad);
        assert(self.code() =~= old(self).code().push(quad@));
        Ok(())
    }

    /// Reads one line of an object file, where `section` is the section being read.
    fn read_line(&mut self, section: &mut String, line: &str, Ghost(orig): Ghost<ObjProgram>, Ghost(st): Ghost<LoadState>) -> (r: Result<(), String>)
        requires
            old(self).loaded(&orig, st),
            st.section == old(section)@,
        ensures
            match load_line(st, line@, orig.quads@.len() as nat) {
                Ok(st2) => r is Ok && final(section)@ == st2.section && final(self).loaded(&orig, st2),
                Err(m) => r matches Err(s) && s@ == m && *final(self) == *old(self),
            },
    {
        let ghost base = orig.quads@.len() as nat;
        if line.unicode_len() == 0 {
            Ok(())
        } else if is_header_str(line) {
            *section = line.to_owned();
            Ok(())
        } else if str_eq(section.as_str(), "%%CONSTANTS") {
            let r = self.parse_constant_line(line);
            proof {
                if r is Ok {
                    let (v, a) = constant_line_spec(line@)->Ok_0;
                    assert(self.directory.constants@ =~= orig.directory.constants@.union_prefer_right(
                        st.constants.insert(v, a),
                    ));
                }
            }
            r
        } else if str_eq(section.as_str(), "%%FUNCTIONS") {
            let ghost prev = *self;
            let r = self.parse_function_line(line);
            proof {
                if r is Ok {
                    let (n, rec) = function_line_spec(line@)->Ok_0;
                    let st2 = LoadState { functions: st.functions.insert(n, rec), ..st };
                    assert(self.directory.functions@.dom() =~= orig.directory.functions@.dom().union(
                        st2.functions.dom(),
                    ));
                    assert forall|x: Seq<char>| #[trigger] st2.functions.contains_key(x) implies entry_from(
                        self.directory.functions@[x],
                        st2.functions[x],
                    ) by {
                        if x != n {
                            assert(prev.directory.functions@.contains_key(x));
                        }
                    }
                }
            }
            r
        } else if str_eq(section.as_str(), "%%QUADRUPLES") {
            let r = self.parse_quadruple_line(line);
            proof {
                if r is Ok {
                    let q = quadruple_line_spec(line@, base + st.quads.len())->Ok_0;
                    assert(self.code() =~= orig.code() + st.quads.push(q));
                }
            }
            r
        } else {
            Ok(())
        }
    }

    /// Reads an object file's text into the program: its constants, functions and
    /// quadruples, line by line, up to the first line that cannot be read.
    pub fn fill_values_with(&mut self, content: &str) -> (r: Result<(), String>)
        ensures
            ({
                let (st, err) = load_lines(load_start(), text_lines(content@), old(self).quads@.len() as nat);
                &&& final(self).loaded(old(self), st)
                &&& match err {
                    None => r is Ok,
                    Some(m) => r matches Err(s) && s@ == m,
                }
            }),
    {
        let lines = lines_of(content);
        let ghost ls = text_lines(content@);
        let ghost orig = *self;
        let ghost base = self.quads@.len() as nat;
        let mut section = String::new();
        let mut k: usize = 0;
        proof {
            assert(ls.take(0) =~= Seq::<Seq<char>>::empty());
            assert(self.directory.constants@ =~= orig.directory.constants@.union_prefer_right(
                Map::<Seq<char>, usize>::empty(),
            ));
            assert(self.directory.functions@.dom() =~= orig.directory.functions@.dom().union(
                Map::<Seq<char>, FuncRecord>::empty().dom(),
            ));
            assert(self.code() =~= orig.code() + Seq::<QuadV>::empty());
        }
        while k < lines.len()
            invariant
                strs(lines@) == ls,
                ls == text_lines(content@),
                k <= lines@.len(),
                orig == *old(self),
                base == orig.quads@.len(),
                ({
                    let (st, err) = load_lines(load_start(), ls.take(k as int), base);
                    &&& err is None
                    &&& st.section == section@
                    &&& self.loaded(&orig, st)
                }),
            decreases lines@.len() - k,
        {
            let ghost st = load_lines(load_start(), ls.take(k as int), base).0;
            proof {
                assert(ls.take(k + 1).drop_last() =~= ls.take(k as int));
                assert(strs(lines@)[k as int] == lines@[k as int]@);
            }
            match self.read_line(&mut section, lines[k].as_str(), Ghost(orig), Ghost(st)) {
                Ok(()) => {},
                Err(m) => {
                    proof {
                        lemma_load_error_sticks(load_start(), ls, (k + 1) as nat, ls.len(), base);
                        assert(ls.take(ls.len() as int) =~= ls);
                    }
                    return Err(m);
                },
            }
            k = k + 1;
        }
        assert(ls.take(k as int) =~= ls);
        Ok(())
    }
}

} // verus!
