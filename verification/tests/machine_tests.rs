use compiler::machine::{
    classify, constant_kind, get_address, gotof_next, int_arith, int_compare, next_ip, segment_of, CallStack, ConstKind,
    OpKind,
    Segment,
};
use compiler::obj_reader::ObjProgram;

#[test]
fn operators_are_classified() {
    assert_eq!(classify("+"), OpKind::Arithmetic);
    assert_eq!(classify("/"), OpKind::Arithmetic);
    assert_eq!(classify("!="), OpKind::Relational);
    assert_eq!(classify("<"), OpKind::Relational);
    assert_eq!(classify("="), OpKind::Assign);
    assert_eq!(classify("GOTO"), OpKind::Goto);
    assert_eq!(classify("GOTO_F"), OpKind::GotoF);
    assert_eq!(classify("PRINT"), OpKind::Print);
    assert_eq!(classify("ERA"), OpKind::Era);
    assert_eq!(classify("PARAM"), OpKind::Param);
    assert_eq!(classify("GOSUB"), OpKind::Gosub);
    assert_eq!(classify("RETURN"), OpKind::Return);
    assert_eq!(classify("END_F"), OpKind::EndF);
    assert_eq!(classify("END"), OpKind::End);
    assert_eq!(classify("escribe"), OpKind::Unknown);
}

#[test]
fn addresses_fall_in_segments() {
    assert_eq!(segment_of(0), Segment::Global);
    assert_eq!(segment_of(1999), Segment::Global);
    assert_eq!(segment_of(2000), Segment::Constant);
    assert_eq!(segment_of(4999), Segment::Constant);
    assert_eq!(segment_of(5000), Segment::Local);
    assert_eq!(segment_of(8500), Segment::Local);
}

#[test]
fn constant_kinds() {
    assert_eq!(constant_kind(2000), Ok(ConstKind::Int));
    assert_eq!(constant_kind(3999), Ok(ConstKind::Float));
    assert_eq!(constant_kind(4000), Ok(ConstKind::Literal));
    assert_eq!(constant_kind(1999), Err("Wrong addresses for the constant".to_string()));
    assert_eq!(constant_kind(5000), Err("Wrong addresses for the constant".to_string()));
}

#[test]
fn quadruple_addresses() {
    assert_eq!(get_address("5001"), Ok(5001));
    assert_eq!(get_address("+12"), Ok(12));
    assert_eq!(get_address(""), Err("Invalid address ''".to_string()));
    assert_eq!(get_address("t1"), Err("Invalid address 't1'".to_string()));
}

#[test]
fn parameters_take_frame_slots_in_order() {
    let mut p = ObjProgram::new();
    p.parse_function_line("f|entero|4|0|0|0|0|entero,flotante,entero,flotante,flotante").unwrap();
    assert_eq!(p.param_address("f", 1), Ok(5000));
    assert_eq!(p.param_address("f", 2), Ok(6000));
    assert_eq!(p.param_address("f", 3), Ok(5001));
    assert_eq!(p.param_address("f", 4), Ok(6001));
    assert_eq!(p.param_address("f", 5), Ok(6002));
    assert_eq!(p.param_address("f", 6), Err("Function 'f' has no parameter #6".to_string()));
    assert_eq!(p.param_address("f", 0), Err("Function 'f' has no parameter #0".to_string()));
    assert_eq!(p.param_address("g", 1), Err("Function 'g' doesn't exist".to_string()));
    assert_eq!(p.function_start("f"), Ok(4));
    assert_eq!(p.function_start("g"), Err("Function 'g' doesn't exist".to_string()));
}

#[test]
fn calls_and_returns_nest() {
    let mut s: CallStack<u32> = CallStack::new(0);
    assert_eq!(s.pending_function(), Err("PARAM with no pending function".to_string()));
    s.era("f".to_string(), 1);
    s.era("g".to_string(), 2);
    assert_eq!(s.pending_function(), Ok("g".to_string()));
    assert_eq!(s.gosub(10), Ok(()));
    assert_eq!(s.frames, vec![0, 2]);
    assert_eq!(s.pending_function(), Ok("f".to_string()));
    assert_eq!(s.gosub(20), Ok(()));
    assert_eq!(s.frames, vec![0, 2, 1]);
    assert_eq!(s.return_from_call(), Ok(21));
    assert_eq!(s.end_function(), Ok(11));
    assert_eq!(s.frames, vec![0]);
    assert!(s.pending.is_empty());
    assert!(s.returns.is_empty());
}

#[test]
fn call_errors() {
    let mut s: CallStack<u32> = CallStack::new(0);
    assert_eq!(s.gosub(3), Err("GOSUB with no pending frame".to_string()));
    let mut s: CallStack<u32> = CallStack::new(0);
    assert_eq!(s.return_from_call(), Err("Return with no caller to go back to".to_string()));
    let mut s: CallStack<u32> = CallStack::new(0);
    assert_eq!(s.end_function(), Err("End of function with no caller to go back to".to_string()));
}

#[test]
fn integer_arithmetic_of_the_machine() {
    assert_eq!(int_arith(3, 4, "+"), Ok(7));
    assert_eq!(int_arith(3, 4, "-"), Ok(-1));
    assert_eq!(int_arith(-3, 4, "*"), Ok(-12));
    assert_eq!(int_arith(7, 2, "/"), Ok(3));
    assert_eq!(int_arith(-7, 2, "/"), Ok(-3));
    assert_eq!(int_arith(7, -2, "/"), Ok(-3));
    assert_eq!(int_arith(-7, -2, "/"), Ok(3));
    assert_eq!(int_arith(i32::MIN, 1, "/"), Ok(i32::MIN));
    assert_eq!(int_arith(i32::MIN, 2, "/"), Ok(i32::MIN / 2));
    assert_eq!(int_arith(1, 2, "%"), Err("Unknown arithmetic op '%'".to_string()));
}

#[test]
fn integer_comparisons_of_the_machine() {
    assert_eq!(int_compare(1, 2, "<"), Ok(true));
    assert_eq!(int_compare(1, 2, ">"), Ok(false));
    assert_eq!(int_compare(2, 2, "=="), Ok(true));
    assert_eq!(int_compare(2, 2, "!="), Ok(false));
    assert_eq!(int_compare(1, 2, "<="), Err("Unknown relational op '<='".to_string()));
}

#[test]
fn gotof_jumps_only_when_false() {
    assert_eq!(gotof_next(4, 0, "9"), Ok(9));
    assert_eq!(gotof_next(4, 1, "9"), Ok(5));
    assert_eq!(gotof_next(4, 1, "?"), Ok(5));
    assert_eq!(gotof_next(4, 0, "?"), Err("Invalid address '?'".to_string()));
}

#[test]
fn plain_steps_go_on_and_goto_jumps() {
    assert_eq!(next_ip(4, OpKind::Arithmetic, "1001"), Ok(5));
    assert_eq!(next_ip(4, OpKind::Print, "_"), Ok(5));
    assert_eq!(next_ip(4, OpKind::Goto, "2"), Ok(2));
    assert_eq!(next_ip(4, OpKind::Goto, "x"), Err("Invalid address 'x'".to_string()));
}
