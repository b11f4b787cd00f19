use compiler::directory::DirFunc;
use compiler::obj_reader::ObjProgram;
use compiler::obj_writer::ObjWriter;
use compiler::quadruples::{Quad, Quadruples};

fn sample() -> (DirFunc, Quadruples) {
    let mut d = DirFunc::new();
    d.create_function("global", "nula").unwrap();
    d.create_function("fact", "entero").unwrap();
    d.set_function_starting_point("fact", 1).unwrap();
    d.add_param_to_function("fact", "entero").unwrap();
    d.add_param_to_function("fact", "flotante").unwrap();
    d.add_variable_to_function("fact", "n", "entero").unwrap();
    d.set_temporal_count("fact", 2, 1).unwrap();
    assert_eq!(d.save_constant("string", "'hola'"), Ok(4000));
    assert_eq!(d.save_constant("entero", "5"), Ok(2000));
    let mut q = Quadruples::new();
    q.push_var("2000".to_string(), "entero".to_string());
    q.generate_print_expr();
    q.generate_print_litr("4000");
    q.push_end();
    (d, q)
}

const SAMPLE_TEXT: &str = "%%CONSTANTS\n5|2000\n'hola'|4000\n%%FUNCTIONS\nglobal|nula|0|0|0|0|0|\nfact|entero|1|1|0|2|1|entero,flotante\n%%QUADRUPLES\n0|PRINT|||2000\n1|PRINT|||4000\n2|END|||\n%%END\n";

#[test]
fn obj_writer_builds_all_sections() {
    let (d, q) = sample();
    let text = ObjWriter::new(&d, &q).build_content();
    assert!(text.contains("%%CONSTANTS"));
    assert!(text.contains("%%FUNCTIONS"));
    assert!(text.contains("%%QUADRUPLES"));
    assert!(text.contains("%%END"));
    assert!(text.contains("5|2000"));
    assert_eq!(text, SAMPLE_TEXT);
}

#[test]
fn obj_writer_orders_functions_by_start_then_name() {
    let mut d = DirFunc::new();
    d.create_function("zeta", "nula").unwrap();
    d.create_function("alfa", "nula").unwrap();
    d.create_function("beta", "nula").unwrap();
    d.set_function_starting_point("zeta", 0).unwrap();
    d.set_function_starting_point("alfa", 4).unwrap();
    d.set_function_starting_point("beta", 4).unwrap();
    let q = Quadruples::new();
    let text = ObjWriter::new(&d, &q).build_content();
    assert_eq!(
        text,
        "%%CONSTANTS\n%%FUNCTIONS\nzeta|nula|0|0|0|0|0|\nalfa|nula|4|0|0|0|0|\nbeta|nula|4|0|0|0|0|\n%%QUADRUPLES\n%%END\n"
    );
}

#[test]
fn obj_writer_orders_constants_by_address() {
    let mut d = DirFunc::new();
    d.save_constant("flotante", "2.5").unwrap();
    d.save_constant("entero", "9").unwrap();
    d.save_constant("entero", "1").unwrap();
    let q = Quadruples::new();
    let text = ObjWriter::new(&d, &q).build_content();
    assert_eq!(text, "%%CONSTANTS\n9|2000\n1|2001\n2.5|3000\n%%FUNCTIONS\n%%QUADRUPLES\n%%END\n");
}

#[test]
fn object_file_reads_back() {
    let (d, q) = sample();
    let text = ObjWriter::new(&d, &q).build_content();
    let mut p = ObjProgram::new();
    assert_eq!(p.fill_values_with(&text), Ok(()));
    assert_eq!(p.directory.constants.len(), 2);
    assert_eq!(p.directory.constants.get("5"), Some(&2000));
    assert_eq!(p.directory.constants.get("'hola'"), Some(&4000));
    let fact = p.directory.functions.get("fact").unwrap();
    assert_eq!(fact.func_type, "entero");
    assert_eq!(fact.starting_quad, 1);
    assert_eq!(fact.int_count, 1);
    assert_eq!(fact.float_count, 0);
    assert_eq!(fact.temp_int_count, 2);
    assert_eq!(fact.temp_float_count, 1);
    assert_eq!(fact.parameters, vec!["entero".to_string(), "flotante".to_string()]);
    assert_eq!(fact.var_directory.len(), 0);
    let global = p.directory.functions.get("global").unwrap();
    assert!(global.parameters.is_empty());
    assert_eq!(p.quads, q.quads);
}

#[test]
fn reading_skips_blank_lines_and_other_sections() {
    let mut p = ObjProgram::new();
    let text = "garbage before\n\n%%CONSTANTS\r\n7|+2001\r\n\n%%END\nnot|read\n";
    assert_eq!(p.fill_values_with(text), Ok(()));
    assert_eq!(p.directory.constants.get("7"), Some(&2001));
    assert_eq!(p.directory.constants.len(), 1);
}

#[test]
fn reading_errors() {
    let cases = [
        ("%%CONSTANTS\n5\n", "Malformed constant line: '5'"),
        ("%%CONSTANTS\n5|x\n", "Invalid constant address in line: '5|x'"),
        ("%%CONSTANTS\n5|-1\n", "Invalid constant address in line: '5|-1'"),
        ("%%FUNCTIONS\nf|entero|1|2\n", "Malformed function line: 'f|entero|1|2'"),
        ("%%FUNCTIONS\nf|entero|1|a|0|0|0|\n", "Invalid number 'a' in line: 'f|entero|1|a|0|0|0|'"),
        ("%%FUNCTIONS\nf|entero||0|0|0|0|\n", "Invalid number '' in line: 'f|entero||0|0|0|0|'"),
        ("%%QUADRUPLES\n0|GOTO||0\n", "Malformed quadruple line: '0|GOTO||0'"),
        ("%%QUADRUPLES\nx|GOTO|||0\n", "Invalid number 'x' in line: 'x|GOTO|||0'"),
        ("%%QUADRUPLES\n1|GOTO|||0\n", "Quadruple out of order: expected index 0, got 1 in line '1|GOTO|||0'"),
    ];
    for (text, message) in cases.iter() {
        let mut p = ObjProgram::new();
        assert_eq!(p.fill_values_with(text), Err(message.to_string()));
    }
}

#[test]
fn reading_stops_at_first_bad_line() {
    let mut p = ObjProgram::new();
    let text = "%%CONSTANTS\n5|2000\nbad\n6|2001\n";
    assert_eq!(p.fill_values_with(text), Err("Malformed constant line: 'bad'".to_string()));
    assert_eq!(p.directory.constants.get("5"), Some(&2000));
    assert_eq!(p.directory.constants.get("6"), None);
}

#[test]
fn quadruple_lines_continue_the_count() {
    let mut p = ObjProgram::new();
    assert_eq!(p.parse_quadruple_line("0|GOTO|||3"), Ok(()));
    assert_eq!(p.parse_quadruple_line("1|END|||"), Ok(()));
    assert_eq!(
        p.quads,
        vec![
            Quad::new("GOTO".to_string(), String::new(), String::new(), "3".to_string()),
            Quad::new("END".to_string(), String::new(), String::new(), String::new()),
        ]
    );
    assert_eq!(
        p.parse_quadruple_line("0|END|||"),
        Err("Quadruple out of order: expected index 2, got 0 in line '0|END|||'".to_string())
    );
}

#[test]
fn line_parsers() {
    let mut p = ObjProgram::new();
    assert_eq!(p.parse_constant_line("'a b'|4000"), Ok(()));
    assert_eq!(p.directory.constants.get("'a b'"), Some(&4000));
    assert_eq!(p.parse_function_line("main|nula|3|1|2|0|0|"), Ok(()));
    let f = p.directory.functions.get("main").unwrap();
    assert_eq!(f.starting_quad, 3);
    assert_eq!(f.float_count, 2);
    assert!(f.parameters.is_empty());
    assert_eq!(ObjProgram::to_usize("12", "l"), Ok(12));
    assert_eq!(ObjProgram::to_usize("1.5", "l"), Err("Invalid number '1.5' in line: 'l'".to_string()));
    assert_eq!(
        ObjProgram::to_usize("99999999999999999999999", "l"),
        Err("Invalid number '99999999999999999999999' in line: 'l'".to_string())
    );
}

#[test]
fn object_file_does_not_depend_on_filling_order() {
    let mut d1 = DirFunc::new();
    d1.create_function("b", "nula").unwrap();
    d1.create_function("a", "entero").unwrap();
    d1.save_constant("entero", "1").unwrap();
    d1.save_constant("flotante", "0.5").unwrap();
    let mut d2 = DirFunc::new();
    d2.save_constant("entero", "1").unwrap();
    d2.create_function("a", "entero").unwrap();
    d2.save_constant("flotante", "0.5").unwrap();
    d2.create_function("b", "nula").unwrap();
    let q = Quadruples::new();
    let t1 = ObjWriter::new(&d1, &q).build_content();
    let t2 = ObjWriter::new(&d2, &q).build_content();
    assert_eq!(t1, t2);
    assert_eq!(t1, "%%CONSTANTS\n1|2000\n0.5|3000\n%%FUNCTIONS\na|entero|0|0|0|0|0|\nb|nula|0|0|0|0|0|\n%%QUADRUPLES\n%%END\n");
}
