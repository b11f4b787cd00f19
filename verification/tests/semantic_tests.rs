use compiler::semantic::{build_compiler, build_dir_func, obtain_type, DirFunc, Quad};

fn texts(quads: &Vec<Quad>) -> Vec<(String, String, String, String)> {
    quads
        .iter()
        .map(|q| (q.op.clone(), q.left.clone(), q.right.clone(), q.result.clone()))
        .collect()
}

fn t(op: &str, l: &str, r: &str, res: &str) -> (String, String, String, String) {
    (op.to_string(), l.to_string(), r.to_string(), res.to_string())
}

#[test]
fn semantic_cube_of_the_front_end() {
    assert_eq!(obtain_type("entero", "entero", "+"), "entero");
    assert_eq!(obtain_type("entero", "flotante", "/"), "flotante");
    assert_eq!(obtain_type("flotante", "flotante", "=="), "entero");
    assert_eq!(obtain_type("entero", "entero", "="), "err");
    assert_eq!(obtain_type("string", "entero", "+"), "err");
}

#[test]
fn symbol_table() {
    let mut d = DirFunc::new();
    assert_eq!(d.agregar_funcion("global", "void"), Ok(()));
    assert_eq!(
        d.agregar_funcion("global", "void"),
        Err("ERROR: funcion 'global' ya fue declarada".to_string())
    );
    assert_eq!(d.agregar_funcion("f", "entero"), Ok(()));
    assert_eq!(d.agregar_variable("global", "x", "flotante"), Ok(()));
    assert_eq!(d.agregar_variable("f", "y", "entero"), Ok(()));
    assert_eq!(
        d.agregar_variable("f", "y", "flotante"),
        Err("ERROR: variable 'y' ya fue declarada en 'f'".to_string())
    );
    assert_eq!(d.tipo_de("f", "y"), Some("entero"));
    assert_eq!(d.tipo_de("f", "x"), Some("flotante"));
    assert_eq!(d.tipo_de("global", "y"), None);
    assert_eq!(d.tipo_de("nada", "x"), Some("flotante"));
}

#[test]
fn directory_of_a_program() {
    let d = build_dir_func(
        "programa p; vars a, b : entero; c : flotante; entero f(n : entero) { vars k : flotante; { k = 1; } }; inicio { a = 1; } fin",
    )
    .unwrap();
    assert_eq!(d.tipo_de("global", "c"), Some("flotante"));
    assert_eq!(d.tipo_de("f", "n"), Some("entero"));
    assert_eq!(d.tipo_de("f", "k"), Some("flotante"));
    assert_eq!(d.tipo_de("f", "a"), Some("entero"));
}

#[test]
fn directory_errors() {
    assert_eq!(
        build_dir_func("programa p; vars a, a : entero; inicio { } fin").err(),
        Some("ERROR: variable 'a' ya fue declarada en 'global'".to_string())
    );
    assert_eq!(
        build_dir_func("programa p inicio { } fin").err(),
        Some("Error de sintaxis: --> 1:12: el programa no sigue la gramatica".to_string())
    );
}

#[test]
fn expression_quadruples_follow_precedence() {
    let c = build_compiler("programa p; vars a : entero; inicio { a = 2 + 3 * 4; escribe(a); } fin").unwrap();
    assert_eq!(
        texts(&c.quads),
        vec![
            t("*", "3", "4", "t1"),
            t("+", "2", "t1", "t2"),
            t("=", "t2", "_", "a"),
            t("escribe", "a", "_", "_"),
        ]
    );
}

#[test]
fn parentheses_group_first() {
    let c = build_compiler("programa p; vars a : entero; inicio { a = (2 + 3) * 4; } fin").unwrap();
    assert_eq!(
        texts(&c.quads),
        vec![t("+", "2", "3", "t1"), t("*", "t1", "4", "t2"), t("=", "t2", "_", "a")]
    );
}

#[test]
fn if_else_is_backpatched() {
    let c = build_compiler(
        "programa p; vars a : entero; inicio { si (a > 1) { a = 1; } sino { a = 2; }; } fin",
    )
    .unwrap();
    assert_eq!(
        texts(&c.quads),
        vec![
            t(">", "a", "1", "t1"),
            t("GotoF", "t1", "_", "4"),
            t("=", "1", "_", "a"),
            t("Goto", "_", "_", "5"),
            t("=", "2", "_", "a"),
        ]
    );
}

#[test]
fn loop_jumps_back() {
    let c = build_compiler(
        "programa p; vars i : entero; inicio { mientras (i < 3) haz { i = i + 1; }; escribe('fin'); } fin",
    )
    .unwrap();
    assert_eq!(
        texts(&c.quads),
        vec![
            t("<", "i", "3", "t1"),
            t("GotoF", "t1", "_", "5"),
            t("+", "i", "1", "t2"),
            t("=", "t2", "_", "i"),
            t("Goto", "_", "_", "0"),
            t("escribe", "'fin'", "_", "_"),
        ]
    );
}

#[test]
fn type_mismatch_is_reported() {
    let r = build_compiler("programa p; vars a : entero; b : flotante; inicio { a = b; } fin");
    assert_eq!(r.err(), Some("Type mismatch: cannot assign flotante to entero ('a')".to_string()));
}

#[test]
fn int_to_float_assignment_is_allowed() {
    let c = build_compiler("programa p; vars a : entero; b : flotante; inicio { b = a; } fin").unwrap();
    assert_eq!(texts(&c.quads), vec![t("=", "a", "_", "b")]);
}

#[test]
fn quadruple_text_is_padded() {
    let q = Quad { op: "+".to_string(), left: "a".to_string(), right: "b".to_string(), result: "t1".to_string() };
    assert_eq!(q.to_text(), "(+   , a         , b         , t1)");
}

#[test]
fn every_jump_gets_its_target() {
    let c = build_compiler(
        "programa p; vars a, b : entero; inicio { mientras (a < 10) haz { si (a > b) { b = a; } sino { si (b > 3) { a = a + 2; }; }; a = a + 1; }; } fin",
    )
    .unwrap();
    let n = c.quads.len();
    for q in &c.quads {
        if q.op == "GotoF" || q.op == "Goto" {
            let target: usize = q.result.parse().expect("a jump target is a number");
            assert!(target <= n);
        }
    }
}

#[test]
fn unary_plus_before_a_name_changes_nothing() {
    let c = build_compiler("programa p; vars a, b : entero; inicio { a = a * +b; } fin").unwrap();
    assert_eq!(texts(&c.quads), vec![t("*", "a", "b", "t1"), t("=", "t1", "_", "a")]);
    let plain = build_compiler("programa p; vars a, b : entero; inicio { a = a * b; } fin").unwrap();
    assert_eq!(texts(&c.quads), texts(&plain.quads));
}

#[test]
fn unary_minus_before_a_name_is_zero_minus_the_name() {
    let c = build_compiler("programa p; vars a, b : entero; inicio { a = a + -b; } fin").unwrap();
    assert_eq!(
        texts(&c.quads),
        vec![t("-", "0", "b", "t1"), t("+", "a", "t1", "t2"), t("=", "t2", "_", "a")]
    );
    let d = build_compiler("programa p; vars a, b : entero; inicio { a = a * -b; } fin").unwrap();
    assert_eq!(
        texts(&d.quads),
        vec![t("-", "0", "b", "t1"), t("*", "a", "t1", "t2"), t("=", "t2", "_", "a")]
    );
}

#[test]
fn gotof_jumps_forward_and_no_jump_stays_open() {
    let c = build_compiler(
        "programa p; vars a, b : entero; inicio { mientras (a < 10) haz { si (a > b) { b = a; } sino { a = a + 2; }; }; } fin",
    )
    .unwrap();
    for (i, q) in c.quads.iter().enumerate() {
        if q.op == "GotoF" {
            let target: usize = q.result.parse().unwrap();
            assert!(target > i);
        }
        if q.op == "GotoF" || q.op == "Goto" {
            assert_ne!(q.result, "?");
        }
    }
}

#[test]
fn compiling_keeps_the_functions_of_the_table() {
    let src = "programa p; vars a : entero; entero f(n : entero) { { a = n * 2; } }; inicio { a = 1 + a * 3; } fin";
    let d = build_dir_func(src).unwrap();
    let c = build_compiler(src).unwrap();
    let names = |t: &DirFunc| -> Vec<String> { (0..t.funciones.len()).map(|i| t.funciones.key_at(i).clone()).collect() };
    assert_eq!(names(&c.dir), names(&d));
    assert_eq!(c.dir.funciones.len(), 2);
}

#[test]
fn syntax_errors_say_where_parsing_stopped() {
    assert_eq!(
        build_compiler("programa p;\ninicio {\n  a = 1;\n  a = ;\n} fin").err(),
        Some("Error de sintaxis: --> 4:3: el programa no sigue la gramatica".to_string())
    );
    assert_eq!(
        build_dir_func("programa p; nula f() { { a = ; } }; inicio { } fin").err(),
        Some("Error de sintaxis: --> 1:13: el programa no sigue la gramatica".to_string())
    );
    assert_eq!(
        build_dir_func("programa p; inicio { } fin x").err(),
        Some("Error de sintaxis: --> 1:28: el programa no sigue la gramatica".to_string())
    );
    assert_eq!(
        build_dir_func("  programo p;").err(),
        Some("Error de sintaxis: --> 1:3: el programa no sigue la gramatica".to_string())
    );
}
