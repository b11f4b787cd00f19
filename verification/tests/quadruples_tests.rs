use compiler::quadruples::{Quad, Quadruples};

fn quad(op: &str, l: &str, r: &str, res: &str) -> Quad {
    Quad::new(op.to_string(), l.to_string(), r.to_string(), res.to_string())
}

#[test]
fn semantic_cube() {
    assert_eq!(Quadruples::obtain_type("entero", "entero", "+"), Ok("entero".to_string()));
    assert_eq!(Quadruples::obtain_type("entero", "flotante", "*"), Ok("flotante".to_string()));
    assert_eq!(Quadruples::obtain_type("flotante", "entero", "/"), Ok("flotante".to_string()));
    assert_eq!(Quadruples::obtain_type("flotante", "flotante", "-"), Ok("flotante".to_string()));
    assert_eq!(Quadruples::obtain_type("flotante", "flotante", "<"), Ok("entero".to_string()));
    assert_eq!(Quadruples::obtain_type("entero", "flotante", "!="), Ok("entero".to_string()));
    assert_eq!(Quadruples::obtain_type("string", "entero", "+"), Err("Invalid type".to_string()));
    assert_eq!(Quadruples::obtain_type("entero", "entero", "="), Err("Invalid type".to_string()));
}

#[test]
fn temporaries_are_consecutive_per_type() {
    let mut q = Quadruples::new();
    assert_eq!(q.get_next_temp("entero"), Ok("7000".to_string()));
    assert_eq!(q.get_next_temp("entero"), Ok("7001".to_string()));
    assert_eq!(q.get_next_temp("flotante"), Ok("8000".to_string()));
    assert_eq!(q.get_next_temp("entero"), Ok("7002".to_string()));
    assert_eq!(q.get_next_temp("string"), Err("Wront type of variable".to_string()));
    assert_eq!(q.get_temporal_counts(), (3, 1));
    q.set_scope_to("f");
    assert_eq!(q.get_scope(), "f");
    assert_eq!(q.get_temporal_counts(), (0, 0));
    assert_eq!(q.get_next_temp("entero"), Ok("7000".to_string()));
}

#[test]
fn resolve_generates_operation_into_temporary() {
    let mut q = Quadruples::new();
    q.push_var("0".to_string(), "entero".to_string());
    q.push_var("1000".to_string(), "flotante".to_string());
    q.push_op("+".to_string());
    assert_eq!(q.resolve(), Ok(()));
    assert_eq!(q.quads, vec![quad("+", "0", "1000", "8000")]);
    // An assignment: the target is pushed first, then the value.
    let mut q2 = Quadruples::new();
    q2.push_var("1001".to_string(), "flotante".to_string());
    q2.push_var("8000".to_string(), "flotante".to_string());
    q2.push_op("=".to_string());
    assert_eq!(q2.resolve(), Ok(()));
    assert_eq!(q2.quads, vec![quad("=", "8000", "", "1001")]);
}

#[test]
fn resolve_errors() {
    let mut q = Quadruples::new();
    q.push_var("0".to_string(), "entero".to_string());
    q.push_var("1000".to_string(), "flotante".to_string());
    q.push_op("=".to_string());
    assert_eq!(q.resolve(), Err("Type mismatch: cannot assign flotante to entero".to_string()));
    let mut q = Quadruples::new();
    q.push_var("0".to_string(), "entero".to_string());
    q.push_var("4000".to_string(), "string".to_string());
    q.push_op("+".to_string());
    assert_eq!(q.resolve(), Err("Invalid type".to_string()));
}

#[test]
fn print_quads() {
    let mut q = Quadruples::new();
    q.push_var("7".to_string(), "entero".to_string());
    q.generate_print_expr();
    q.generate_print_litr("4000");
    assert_eq!(q.quads, vec![quad("PRINT", "", "", "7"), quad("PRINT", "", "", "4000")]);
}

#[test]
fn call_quads() {
    let mut q = Quadruples::new();
    let params = vec!["entero".to_string(), "flotante".to_string()];
    q.create_era("f");
    q.push_var("2000".to_string(), "entero".to_string());
    assert_eq!(q.create_param(1, &params), Ok(()));
    q.push_var("3000".to_string(), "entero".to_string());
    assert_eq!(
        q.create_param(2, &params),
        Err("Type mismatch on parameter #2: expected flotante, got entero".to_string())
    );
    q.push_var("3000".to_string(), "flotante".to_string());
    assert_eq!(
        q.create_param(3, &params),
        Err("Too many arguments: parameter #3 doesn't exist".to_string())
    );
    q.create_gosub("f");
    assert_eq!(q.push_function_temp("3", "entero"), Ok(()));
    assert_eq!(
        q.quads,
        vec![
            quad("ERA", "", "", "f"),
            quad("PARAM", "2000", "", "1"),
            quad("GOSUB", "", "", "f"),
            quad("=", "3", "", "7000"),
        ]
    );
}

#[test]
fn return_quads() {
    let mut q = Quadruples::new();
    q.push_var("5000".to_string(), "entero".to_string());
    assert_eq!(q.create_return("entero", "3"), Ok(()));
    q.push_var("6000".to_string(), "flotante".to_string());
    assert_eq!(
        q.create_return("entero", "3"),
        Err("Return type mismatch: function expects entero, but return expression is flotante".to_string())
    );
    assert_eq!(q.quads, vec![quad("RETURN", "5000", "", "3")]);
}

#[test]
fn if_without_else_jumps_past_body() {
    let mut q = Quadruples::new();
    q.push_var("7000".to_string(), "entero".to_string());
    q.add_gotof();
    q.generate_print_litr("4000");
    q.update_gotox();
    assert_eq!(q.quads, vec![quad("GOTO_F", "7000", "", "2"), quad("PRINT", "", "", "4000")]);
}

#[test]
fn if_with_else_jumps() {
    let mut q = Quadruples::new();
    q.push_var("7000".to_string(), "entero".to_string());
    q.add_gotof();
    q.generate_print_litr("4000");
    q.add_goto_if();
    q.generate_print_litr("4001");
    q.update_gotox();
    assert_eq!(
        q.quads,
        vec![
            quad("GOTO_F", "7000", "", "3"),
            quad("PRINT", "", "", "4000"),
            quad("GOTO", "", "", "4"),
            quad("PRINT", "", "", "4001"),
        ]
    );
}

#[test]
fn while_jumps_back_to_condition() {
    let mut q = Quadruples::new();
    q.generate_print_litr("4000");
    q.push_jump();
    q.push_var("0".to_string(), "entero".to_string());
    q.push_var("2000".to_string(), "entero".to_string());
    q.push_op("<".to_string());
    q.resolve().unwrap();
    q.add_gotof();
    q.generate_print_litr("4001");
    q.add_goto_while();
    q.push_end();
    assert_eq!(
        q.quads,
        vec![
            quad("PRINT", "", "", "4000"),
            quad("<", "0", "2000", "7000"),
            quad("GOTO_F", "7000", "", "5"),
            quad("PRINT", "", "", "4001"),
            quad("GOTO", "", "", "1"),
            quad("END", "", "", ""),
        ]
    );
}

#[test]
fn operator_stack() {
    let mut q = Quadruples::new();
    assert_eq!(q.stack_op_last(), None);
    q.push_op("(".to_string());
    q.push_op("*".to_string());
    assert_eq!(q.stack_op_last(), Some(&"*".to_string()));
    q.pop_op();
    assert_eq!(q.stack_op_last(), Some(&"(".to_string()));
    q.pop_op();
    q.pop_op();
    assert_eq!(q.stack_op_last(), None);
    q.push_end_f();
    assert_eq!(q.quads, vec![quad("END_F", "", "", "")]);
}
