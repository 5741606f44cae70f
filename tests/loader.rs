use toirs::loader::{load, parse_constant, parse_constants, parse_function, parse_instructions, parse_strings, parse_variables};
use toirs::vm::run;
use toirs::numeral::{parse_signed, parse_unsigned};
use toirs::program::{Constant, ErrorKind};

fn lines(text: &str) -> Vec<String> {
    text.lines().map(|l| l.to_string()).collect()
}

fn block(header: &str, items: &[&str]) -> String {
    let mut s = format!("{}\n{}\n", header, items.len());
    for i in items {
        s.push_str(i);
        s.push('\n');
    }
    s
}

fn bytes(code: &[u8]) -> Vec<String> {
    code.iter().map(|b| b.to_string()).collect()
}

fn factorial_text() -> String {
    let body = bytes(&[
        8, 0, 6, 2, 1, 7, 3, 0, 7, 6, 1, 9, 1, 4, 0, 14, 8, 0, 8, 0, 6, 1, 1, 1, 11, 0, 1, 2, 9, 1,
    ]);
    let body: Vec<&str> = body.iter().map(|s| s.as_str()).collect();
    let main = bytes(&[7, 1, 11, 0, 9, 0, 8, 0, 12, 1, 0]);
    let main: Vec<&str> = main.iter().map(|s| s.as_str()).collect();
    let mut text = block("constants", &["string:fact", "int:6"]);
    text.push_str(&block("functions", &["fact"]));
    text.push_str("1\n");
    text.push_str(&block("parameters", &["n"]));
    text.push_str(&block("variables", &["n", "result"]));
    text.push_str(&block("instructions", &body));
    text.push_str(&block("variables", &["x"]));
    text.push_str(&block("instructions", &main));
    text
}

#[test]
fn loads_and_runs_a_program() {
    let program = load(&lines(&factorial_text())).unwrap();
    assert_eq!(program.constants.len(), 2);
    assert!(matches!(&program.constants[0], Constant::Text(t) if t == "fact"));
    assert!(matches!(program.constants[1], Constant::Number(6)));
    assert_eq!(program.functions.len(), 1);
    let f = &program.functions[0];
    assert_eq!(f.name, "fact");
    assert!(f.has_out_var);
    assert_eq!(f.parameters, vec!["n".to_string()]);
    assert_eq!(f.variables, vec!["n".to_string(), "result".to_string()]);
    assert_eq!(f.instructions.len(), 30);
    assert_eq!(program.variables, vec!["x".to_string()]);
    assert_eq!(program.instructions, vec![7, 1, 11, 0, 9, 0, 8, 0, 12, 1, 0]);
    let mut out = Vec::new();
    let state = run(&program.instructions, &program.constants, &program.variables, &program.functions, &mut out).unwrap();
    assert_eq!(out, vec![vec![720]]);
    assert_eq!(state.variables, vec![720]);
    assert!(state.stack.is_empty());
}

#[test]
fn empty_sections_load() {
    let text = "constants\n0\nfunctions\n0\nvariables\n0\ninstructions\n0\n";
    let program = load(&lines(text)).unwrap();
    assert!(program.constants.is_empty() && program.functions.is_empty());
    assert!(program.variables.is_empty() && program.instructions.is_empty());
}

#[test]
fn empty_text_is_malformed() {
    assert_eq!(load(&[]).unwrap_err().kind, ErrorKind::MalformedProgram);
}

#[test]
fn unknown_section_header_is_malformed() {
    let text = "constant\n0\nfunctions\n0\nvariables\n0\ninstructions\n0\n";
    let e = load(&lines(text)).unwrap_err();
    assert_eq!(e.kind, ErrorKind::MalformedProgram);
    assert_eq!(e.position, 0);
    let text = "constants\n0\nfunctions\n0\nvariables\n0\ncode\n0\n";
    assert_eq!(load(&lines(text)).unwrap_err().position, 6);
}

#[test]
fn count_mismatch_is_malformed() {
    // one constant announced, none given: the next header is read as one
    let text = "constants\n1\nfunctions\n0\nvariables\n0\ninstructions\n0\n";
    assert_eq!(load(&lines(text)).unwrap_err().kind, ErrorKind::MalformedProgram);
    // more bytes announced than lines left
    let text = "constants\n0\nfunctions\n0\nvariables\n0\ninstructions\n3\n6\n1\n";
    assert_eq!(load(&lines(text)).unwrap_err().kind, ErrorKind::MalformedProgram);
    // a count that is not a number
    let text = "constants\nzero\nfunctions\n0\nvariables\n0\ninstructions\n0\n";
    let e = load(&lines(text)).unwrap_err();
    assert_eq!((e.kind, e.position), (ErrorKind::MalformedProgram, 1));
}

#[test]
fn trailing_lines_are_malformed() {
    let text = "constants\n0\nfunctions\n0\nvariables\n0\ninstructions\n0\nextra\n";
    let e = load(&lines(text)).unwrap_err();
    assert_eq!((e.kind, e.position), (ErrorKind::MalformedProgram, 8));
}

#[test]
fn bad_values_are_malformed() {
    let bad_byte = "constants\n0\nfunctions\n0\nvariables\n0\ninstructions\n1\n256\n";
    assert_eq!(load(&lines(bad_byte)).unwrap_err().position, 8);
    let bad_int = "constants\n1\nint:12x\nfunctions\n0\nvariables\n0\ninstructions\n0\n";
    assert_eq!(load(&lines(bad_int)).unwrap_err().position, 2);
    let bad_tag = "constants\n1\nfloat:1\nfunctions\n0\nvariables\n0\ninstructions\n0\n";
    assert_eq!(load(&lines(bad_tag)).unwrap_err().position, 2);
}

#[test]
fn constant_lines() {
    assert!(matches!(parse_constant(&"int:42".to_string()), Some(Constant::Number(42))));
    assert!(matches!(parse_constant(&"int:-9223372036854775808".to_string()), Some(Constant::Number(i64::MIN))));
    assert!(matches!(parse_constant(&"int:+7:ignored".to_string()), Some(Constant::Number(7))));
    assert!(parse_constant(&"int:9223372036854775808".to_string()).is_none());
    assert!(parse_constant(&"int:".to_string()).is_none());
    assert!(parse_constant(&"int".to_string()).is_none());
    assert!(parse_constant(&"Int:1".to_string()).is_none());
    assert!(matches!(parse_constant(&"string:héllo wörld".to_string()), Some(Constant::Text(t)) if t == "héllo wörld"));
    assert!(matches!(parse_constant(&"string:a:b".to_string()), Some(Constant::Text(t)) if t == "a"));
    assert!(matches!(parse_constant(&"string:".to_string()), Some(Constant::Text(t)) if t.is_empty()));
}

#[test]
fn constants_block() {
    let text = lines("constants\n3\nint:1\nstring:main\nint:-2\nrest");
    let (cs, next) = parse_constants(&text, 0).unwrap();
    assert_eq!(next, 5);
    assert!(matches!(cs[0], Constant::Number(1)));
    assert!(matches!(&cs[1], Constant::Text(t) if t == "main"));
    assert!(matches!(cs[2], Constant::Number(-2)));
}

#[test]
fn name_and_byte_blocks() {
    let text = lines("parameters\n2\na\nb\nvariables\n1\nz\ninstructions\n2\n6\n+255");
    let (ps, p) = parse_strings("parameters", &text, 0).unwrap();
    assert_eq!((ps, p), (vec!["a".to_string(), "b".to_string()], 4));
    let (vs, v) = parse_variables(&text, p).unwrap();
    assert_eq!((vs, v), (vec!["z".to_string()], 7));
    let (code, end) = parse_instructions(&text, v).unwrap();
    assert_eq!((code, end), (vec![6, 255], 11));
    assert!(parse_strings("variables", &text, 0).is_err());
}

#[test]
fn function_blocks() {
    let good = lines("f\n0\nparameters\n1\na\nvariables\n2\na\nb\ninstructions\n0");
    let (f, next) = parse_function(&good, 0).unwrap();
    assert_eq!((f.name.as_str(), f.has_out_var, next), ("f", false, 11));
    let flag_one = lines("f\n1\nparameters\n0\nvariables\n1\nr\ninstructions\n0");
    assert!(parse_function(&flag_one, 0).unwrap().0.has_out_var);
    for flag in ["true", "false", "yes", "", "2", "01"] {
        let text = lines(&format!("f\n{}\nparameters\n0\nvariables\n1\nr\ninstructions\n0", flag));
        let e = parse_function(&text, 0).unwrap_err();
        assert_eq!((e.kind, e.position), (ErrorKind::MalformedProgram, 1));
    }
    let bad_flag = lines("f\n2\nparameters\n0\nvariables\n0\ninstructions\n0");
    assert!(parse_function(&bad_flag, 0).is_err());
    let wrong_order = lines("f\n0\nparameters\n1\na\nvariables\n2\nb\na\ninstructions\n0");
    assert!(parse_function(&wrong_order, 0).is_err());
    let no_out_slot = lines("f\n1\nparameters\n0\nvariables\n0\ninstructions\n0");
    assert!(parse_function(&no_out_slot, 0).is_err());
}

#[test]
fn numerals() {
    assert_eq!(parse_unsigned(b"0", 255), Some(0));
    assert_eq!(parse_unsigned(b"+255", 255), Some(255));
    assert_eq!(parse_unsigned(b"256", 255), None);
    assert_eq!(parse_unsigned(b"-1", 255), None);
    assert_eq!(parse_unsigned(b"", 255), None);
    assert_eq!(parse_unsigned(b"+", 255), None);
    assert_eq!(parse_unsigned(b"18446744073709551615", u64::MAX), Some(u64::MAX));
    assert_eq!(parse_unsigned(b"18446744073709551616", u64::MAX), None);
    assert_eq!(parse_signed(b"-0"), Some(0));
    assert_eq!(parse_signed(b"9223372036854775807"), Some(i64::MAX));
    assert_eq!(parse_signed(b"-9223372036854775809"), None);
    assert_eq!(parse_signed(b" 1"), None);
}
