use drk::zkas::output::bincode_output;
use drk::zkas::parser::{parse_lines, Syntax};
use drk::zkas::state::{Constants, Line};
use drk::zkas::types::{function_formats, AllowedTypes, FuncFormat};

fn line(tokens: &[&str], number: u32) -> Line {
    let owned: Vec<String> = tokens.iter().map(|t| t.to_string()).collect();
    let orig = tokens.join(" ");
    Line::new(owned, orig, number)
}

#[test]
fn syntax_starts_empty() {
    let syntax = Syntax::new();
    assert!(syntax.contracts.is_empty());
    assert!(syntax.circuits.is_empty());
    assert!(syntax.constants.table.is_empty());
}

#[test]
fn parse_contract_and_circuit_blocks() {
    let lines = vec![
        line(&["constant", "G", "EcFixedPoint"], 1),
        line(&["contract", "Mint", "{"], 2),
        line(&["param", "value", "Base"], 3),
        line(&["param", "serial", "Base"], 4),
        line(&["}"], 5),
        line(&["circuit", "MintCircuit", "{"], 6),
        line(&["poseidon_hash", "C", "value", "serial"], 7),
        line(&["}"], 8),
    ];
    let syntax = parse_lines(lines);
    assert_eq!(syntax.contracts.len(), 1);
    assert_eq!(syntax.contracts[0].0, "Mint");
    assert_eq!(syntax.contracts[0].1.len(), 2);
    assert_eq!(syntax.contracts[0].1[0].tokens, vec!["param", "value", "Base"]);
    assert_eq!(syntax.contracts[0].1[1].number, 4);
    assert_eq!(syntax.circuits.len(), 1);
    assert_eq!(syntax.circuits[0].0, "MintCircuit");
    assert_eq!(syntax.circuits[0].1.len(), 1);
}

#[test]
fn parse_handles_empty_blocks() {
    let lines = vec![line(&["contract", "Empty", "{"], 1), line(&["}"], 2)];
    let syntax = parse_lines(lines);
    assert_eq!(syntax.contracts.len(), 1);
    assert!(syntax.contracts[0].1.is_empty());
}

#[test]
fn constants_add_and_lookup() {
    let mut constants = Constants::new();
    constants.add(String::from("G"), 3);
    constants.add(String::from("H"), 1);
    assert_eq!(constants.lookup(&String::from("G")), Some(3));
    assert_eq!(constants.lookup(&String::from("H")), Some(1));
    assert_eq!(constants.lookup(&String::from("missing")), None);
    // Redeclaring repoints the name at the new slot.
    constants.add(String::from("G"), 2);
    assert_eq!(constants.lookup(&String::from("G")), Some(2));
    let names = constants.variables();
    assert_eq!(names, vec![String::from("G"), String::from("H")]);
}

#[test]
fn line_duplicate_preserves_contents() {
    let original = line(&["contract", "Mint", "{"], 42);
    let copy = original.duplicate();
    assert_eq!(copy.tokens, original.tokens);
    assert_eq!(copy.orig, original.orig);
    assert_eq!(copy.number, 42);
}

#[test]
fn func_format_counts_arguments() {
    let format = FuncFormat::new(0, vec![1], vec![2, 3]);
    assert_eq!(format.total_arguments(), 3);
    assert_eq!(format.func_id, 0);
}

#[test]
fn builtin_function_table_is_complete() {
    let formats = function_formats();
    assert_eq!(formats.len(), 8);
    assert_eq!(formats[0].0, "poseidon_hash");
    assert_eq!(formats[0].1.total_arguments(), 3);
    assert_eq!(formats[2].0, "constrain_instance");
    assert_eq!(formats[2].1.total_arguments(), 2);
}

#[test]
fn allowed_types_cover_declarations() {
    let kinds = [AllowedTypes::Base, AllowedTypes::Scalar, AllowedTypes::EcFixedPoint];
    assert_eq!(kinds.len(), 3);
    assert_eq!(kinds[0], AllowedTypes::Base);
}

#[test]
fn bincode_output_reports_success() {
    let constants = Constants::new();
    assert!(bincode_output("mint.zk.bin", Vec::new(), constants).is_ok());
}

#[test]
fn clean_line_trims_and_splits() {
    let cleaned = drk::zkas::parser::clean_line("  contract Mint { # opens the block", 3)
        .expect("line survives cleaning");
    assert_eq!(cleaned.tokens, vec!["contract", "Mint", "{", ""]);
    assert_eq!(cleaned.orig, "contract Mint { # opens the block");
    assert_eq!(cleaned.number, 3);
}

#[test]
fn clean_line_drops_blank_and_comment_lines() {
    assert!(drk::zkas::parser::clean_line("", 1).is_none());
    assert!(drk::zkas::parser::clean_line("   \t ", 2).is_none());
    assert!(drk::zkas::parser::clean_line("# only a comment", 3).is_none());
}

#[test]
fn cleaned_source_parses() {
    let source = ["contract Mint {", "param value Base", "}", "", "# trailing note"];
    let mut lines = Vec::new();
    for (i, raw) in source.iter().enumerate() {
        if let Some(line) = drk::zkas::parser::clean_line(raw, (i + 1) as u32) {
            lines.push(line);
        }
    }
    let syntax = drk::zkas::parser::parse_lines(lines);
    assert_eq!(syntax.contracts.len(), 1);
    assert_eq!(syntax.contracts[0].1.len(), 1);
}
