//! Names, operators and memory segments shared by the compiler stages.
use vstd::prelude::*;

verus! {

// Function and variable types.
/// Name of the global scope in the function directory.
pub const GLOBAL: &'static str = "global";
/// Return type of a function that gives back nothing.
pub const NULA_TYPE: &'static str = "nula";
/// Integer type.
pub const ENTERO_TYPE: &'static str = "entero";
/// Floating-point type.
pub const FLOTANTE_TYPE: &'static str = "flotante";
/// Type of string literals.
pub const LITERAL_TYPE: &'static str = "string";

// Arithmetic operators.
pub const PLUS: &'static str = "+";
pub const SUBS: &'static str = "-";
pub const MULTP: &'static str = "*";
pub const DIV: &'static str = "/";

// Relational operators and the assignment.
pub const LESS: &'static str = "<";
pub const MORE: &'static str = ">";
pub const EQUAL: &'static str = "==";
pub const NOT_EQUAL: &'static str = "!=";
pub const ASSIGN: &'static str = "=";
pub const PARENTHESIS: &'static str = "(";

// Quadruple operators for control flow and calls.
pub const GOTOF: &'static str = "GOTO_F";
pub const GOTO: &'static str = "GOTO";
pub const PRINT: &'static str = "PRINT";
pub const ERA: &'static str = "ERA";
pub const PARAM: &'static str = "PARAM";
pub const GOSUB: &'static str = "GOSUB";
pub const RETURN: &'static str = "RETURN";
pub const END_F: &'static str = "END_F";
pub const END: &'static str = "END";

// Start address of each memory segment; each segment holds 1,000 addresses.
/// Global integers: 0 to 999.
pub const GLOBAL_INT_START: usize = 0;
/// Global floats: 1,000 to 1,999.
pub const GLOBAL_FLOAT_START: usize = 1000;
/// Integer constants: 2,000 to 2,999.
pub const CTE_INT_START: usize = 2000;
/// Float constants: 3,000 to 3,999.
pub const CTE_FLOAT_START: usize = 3000;
/// String constants: 4,000 to 4,999.
pub const CTE_LITERAL_START: usize = 4000;
/// Local integers: 5,000 to 5,999.
pub const LOCAL_INT_START: usize = 5000;
/// Local floats: 6,000 to 6,999.
pub const LOCAL_FLOAT_START: usize = 6000;
/// Temporary integers: 7,000 to 7,999.
pub const TEMP_INT_START: usize = 7000;
/// Temporary floats: 8,000 to 8,999.
pub const TEMP_FLOAT_START: usize = 8000;

/// The type names are pairwise different.
pub proof fn lemma_type_names_differ()
    ensures
        ENTERO_TYPE@ != FLOTANTE_TYPE@,
        ENTERO_TYPE@ != LITERAL_TYPE@,
        FLOTANTE_TYPE@ != LITERAL_TYPE@,
{
    reveal_strlit("entero");
    reveal_strlit("flotante");
    reveal_strlit("string");
    assert(ENTERO_TYPE@[0] != FLOTANTE_TYPE@[0]);
    assert(ENTERO_TYPE@[0] != LITERAL_TYPE@[0]);
    assert(FLOTANTE_TYPE@[0] != LITERAL_TYPE@[0]);
}

} // verus!
