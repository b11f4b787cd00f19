use compiler::constants::GLOBAL;
use compiler::directory::{DirFunc, FuncEntry, VarEntry};

fn directory_with_global() -> DirFunc {
    let mut d = DirFunc::new();
    d.create_function(GLOBAL, "nula").unwrap();
    d
}

#[test]
fn create_function_twice_is_an_error() {
    let mut d = directory_with_global();
    assert!(d.create_function("fact", "entero").is_ok());
    assert!(d.function_exists("fact"));
    assert!(!d.function_exists("fib"));
    // The message names the type that was asked for.
    assert_eq!(
        d.create_function("fact", "flotante"),
        Err("Variable 'flotante' already declared".to_string())
    );
    assert_eq!(d.functions.get("fact").unwrap().func_type, "entero");
}

#[test]
fn new_function_entry_is_empty() {
    let e = FuncEntry::new("entero");
    assert_eq!(e.func_type, "entero");
    assert_eq!(e.var_directory.len(), 0);
    assert!(e.parameters.is_empty());
    assert_eq!(e.starting_quad, 0);
    assert_eq!(e.int_count, 0);
    assert_eq!(e.float_count, 0);
}

#[test]
fn global_variables_take_global_addresses() {
    let mut d = directory_with_global();
    d.add_variable_to_function(GLOBAL, "a", "entero").unwrap();
    d.add_variable_to_function(GLOBAL, "b", "entero").unwrap();
    d.add_variable_to_function(GLOBAL, "x", "flotante").unwrap();
    assert_eq!(d.get_var_address_of(GLOBAL, "a"), Ok("0".to_string()));
    assert_eq!(d.get_var_address_of(GLOBAL, "b"), Ok("1".to_string()));
    assert_eq!(d.get_var_address_of(GLOBAL, "x"), Ok("1000".to_string()));
    let g = d.functions.get(GLOBAL).unwrap();
    assert_eq!(g.int_count, 2);
    assert_eq!(g.float_count, 1);
    assert_eq!(
        g.var_directory.get("x"),
        Some(&VarEntry { var_type: "flotante".to_string(), address: 1000 })
    );
}

#[test]
fn local_variables_take_local_addresses() {
    let mut d = directory_with_global();
    d.create_function("f", "entero").unwrap();
    d.add_variable_to_function("f", "i", "entero").unwrap();
    d.add_variable_to_function("f", "r", "flotante").unwrap();
    d.add_variable_to_function("f", "j", "entero").unwrap();
    assert_eq!(d.get_var_address_of("f", "i"), Ok("5000".to_string()));
    assert_eq!(d.get_var_address_of("f", "r"), Ok("6000".to_string()));
    assert_eq!(d.get_var_address_of("f", "j"), Ok("5001".to_string()));
    assert_eq!(d.get_var_type_of("f", "r"), Ok("flotante".to_string()));
}

#[test]
fn lookup_falls_back_to_global() {
    let mut d = directory_with_global();
    d.create_function("f", "entero").unwrap();
    d.add_variable_to_function(GLOBAL, "g", "flotante").unwrap();
    d.add_variable_to_function("f", "g2", "entero").unwrap();
    assert_eq!(d.get_var_address_of("f", "g"), Ok("1000".to_string()));
    assert_eq!(d.get_var_type_of("f", "g"), Ok("flotante".to_string()));
    // A local of `f` is not seen from the global scope.
    assert_eq!(
        d.get_var_address_of(GLOBAL, "g2"),
        Err("Variable 'g2' doesn't exist".to_string())
    );
}

#[test]
fn variable_errors() {
    let mut d = directory_with_global();
    assert_eq!(
        d.add_variable_to_function("nope", "a", "entero"),
        Err("Function 'nope' doesn't exist".to_string())
    );
    d.add_variable_to_function(GLOBAL, "a", "entero").unwrap();
    assert_eq!(
        d.add_variable_to_function(GLOBAL, "a", "flotante"),
        Err("Variable 'a' already declared".to_string())
    );
    assert_eq!(
        d.add_variable_to_function(GLOBAL, "s", "string"),
        Err("Invalid type".to_string())
    );
    assert_eq!(d.get_var_type_of("nope", "a"), Err("Function 'nope' doesn't exist".to_string()));
    assert_eq!(d.get_var_type_of(GLOBAL, "zz"), Err("Variable 'zz' doesn't exist".to_string()));
}

#[test]
fn lookup_without_global_scope() {
    let mut d = DirFunc::new();
    d.create_function("f", "entero").unwrap();
    assert_eq!(d.get_var_address_of("f", "x"), Err("Function 'f' doesn't exist".to_string()));
}

#[test]
fn constants_get_addresses_by_type() {
    let mut d = DirFunc::new();
    assert_eq!(d.save_constant("entero", "5"), Ok(2000));
    assert_eq!(d.save_constant("entero", "7"), Ok(2001));
    assert_eq!(d.save_constant("flotante", "3.5"), Ok(3000));
    assert_eq!(d.save_constant("string", "'hola'"), Ok(4000));
    assert_eq!(d.constants.get("7"), Some(&2001));
    assert_eq!(d.constants.len(), 4);
}

#[test]
fn constant_saved_again_keeps_its_address() {
    let mut d = DirFunc::new();
    assert_eq!(d.save_constant("entero", "5"), Ok(2000));
    assert_eq!(d.save_constant("entero", "5"), Ok(2000));
    // Even asked with another type, a known value keeps its address.
    assert_eq!(d.save_constant("flotante", "5"), Ok(2000));
    assert_eq!(d.save_constant("entero", "6"), Ok(2001));
    assert_eq!(d.constants.len(), 2);
}

#[test]
fn constant_of_unknown_type_is_an_error() {
    let mut d = DirFunc::new();
    assert_eq!(d.save_constant("booleano", "true"), Err("Wrong constant type".to_string()));
    assert_eq!(d.constants.len(), 0);
}

#[test]
fn function_attributes() {
    let mut d = directory_with_global();
    d.create_function("f", "entero").unwrap();
    d.add_param_to_function("f", "entero").unwrap();
    d.add_param_to_function("f", "flotante").unwrap();
    d.set_function_starting_point("f", 12).unwrap();
    d.set_temporal_count("f", 3, 4).unwrap();
    let f = d.functions.get("f").unwrap();
    assert_eq!(f.parameters, vec!["entero".to_string(), "flotante".to_string()]);
    assert_eq!(f.starting_quad, 12);
    assert_eq!(f.temp_int_count, 3);
    assert_eq!(f.temp_float_count, 4);
    assert_eq!(d.add_param_to_function("g", "entero"), Err("Function 'g' doesn't exist".to_string()));
    assert_eq!(d.set_function_starting_point("g", 1), Err("Function 'g' doesn't exist".to_string()));
    assert_eq!(d.set_temporal_count("g", 1, 1), Err("Function 'g' doesn't exist".to_string()));
}

#[test]
fn function_entry_with_vars() {
    let mut e = FuncEntry::new("flotante");
    assert_eq!(e.get_address("entero", false), Ok(5000));
    assert_eq!(e.get_address("flotante", true), Ok(1000));
    assert_eq!(e.get_address("string", true), Err("Invalid type".to_string()));
    e.add_param("entero");
    assert_eq!(e.parameters, vec!["entero".to_string()]);
    let e2 = FuncEntry::new_with_vars("entero", e.var_directory, vec!["flotante".to_string()]);
    assert_eq!(e2.func_type, "entero");
    assert_eq!(e2.parameters, vec!["flotante".to_string()]);
    assert_eq!(e2.int_count, 0);
}

#[test]
fn added_variable_is_found_and_others_unchanged() {
    // The law: after adding, the variable is found with its address; others as before.
    let mut d = directory_with_global();
    d.create_function("f", "entero").unwrap();
    d.add_variable_to_function(GLOBAL, "x", "entero").unwrap();
    let before = d.get_var_address_of("f", "x");
    d.add_variable_to_function("f", "y", "flotante").unwrap();
    assert_eq!(d.get_var_address_of("f", "y"), Ok("6000".to_string()));
    assert_eq!(d.get_var_address_of("f", "x"), before);
}

#[test]
fn constants_never_share_an_address() {
    let mut d = DirFunc::new();
    let mut seen = Vec::new();
    for i in 0..50 {
        let a = d.save_constant("entero", &i.to_string()).unwrap();
        let b = d.save_constant("flotante", &format!("{}.5", i)).unwrap();
        let c = d.save_constant("string", &format!("'{}'", i)).unwrap();
        assert!((2000..2050).contains(&a));
        assert!((3000..3050).contains(&b));
        assert!((4000..4050).contains(&c));
        seen.push(a);
        seen.push(b);
        seen.push(c);
    }
    let mut sorted = seen.clone();
    sorted.sort();
    sorted.dedup();
    assert_eq!(sorted.len(), seen.len());
}

#[test]
fn variables_never_share_an_address() {
    let mut d = directory_with_global();
    d.create_function("f", "nula").unwrap();
    let mut seen = Vec::new();
    for i in 0..30 {
        let t = if i % 3 == 0 { "flotante" } else { "entero" };
        let name = format!("v{}", i);
        d.add_variable_to_function("f", &name, t).unwrap();
        let a: usize = d.get_var_address_of("f", &name).unwrap().parse().unwrap();
        if t == "entero" {
            assert!((5000..6000).contains(&a));
        } else {
            assert!((6000..7000).contains(&a));
        }
        seen.push(a);
    }
    let mut sorted = seen.clone();
    sorted.sort();
    sorted.dedup();
    assert_eq!(sorted.len(), seen.len());
}
