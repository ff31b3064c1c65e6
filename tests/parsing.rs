use godotdoc::error::ErrorKind;
use godotdoc::model::{DocumentationData, EntryType, Symbol, SymbolArgs};
use godotdoc::parser::parse_file;

fn lines(v: &[&str]) -> Vec<String> {
    v.iter().map(|s| s.to_string()).collect()
}

fn parse(v: &[&str], show_private: bool) -> DocumentationData {
    parse_file("test.gd", lines(v), show_private).expect("parse failed")
}

fn entry<'a>(d: &'a DocumentationData, t: EntryType) -> &'a Vec<Symbol> {
    &d.entries.iter().find(|e| e.entry_type == t).expect("missing entry").symbols
}

#[test]
fn init_signature_with_inherited_call() {
    let d = parse(&["# Builds the node.", "func _init(a: int, b).( c ) -> void:", "\tpass"], true);
    let funcs = entry(&d, EntryType::FUNC);
    assert_eq!(funcs.len(), 1);
    let f = &funcs[0];
    assert_eq!(f.name, "_init");
    assert_eq!(f.text, vec!["Builds the node.".to_string()]);
    match &f.args {
        Some(SymbolArgs::FunctionArgs(a)) => {
            assert_eq!(a.arguments.len(), 2);
            assert_eq!(a.arguments[0].name, "a");
            assert_eq!(a.arguments[0].value_type.as_deref(), Some("int"));
            assert_eq!(a.arguments[0].default_value, None);
            assert_eq!(a.arguments[1].name, "b");
            assert_eq!(a.arguments[1].value_type, None);
            assert_eq!(a.arguments[1].default_value, None);
            let sup = a.super_arguments.as_ref().expect("inherited call");
            assert_eq!(sup.len(), 1);
            assert_eq!(sup[0].name, "c");
            assert_eq!(sup[0].value_type, None);
            assert_eq!(sup[0].default_value, None);
            assert_eq!(a.return_type.as_deref(), Some("void"));
        }
        other => panic!("unexpected payload {:?}", other),
    }
}

#[test]
fn export_with_options_and_setter() {
    let d = parse(&["export(int, \"A\",\"B\") var mode = 2 setget set_mode"], false);
    let exports = entry(&d, EntryType::EXPORT);
    assert_eq!(exports.len(), 1);
    assert_eq!(exports[0].name, "mode");
    match &exports[0].args {
        Some(SymbolArgs::ExportArgs(e)) => {
            assert_eq!(e.value_type.as_deref(), Some("int"));
            assert_eq!(e.options, vec!["\"A\"".to_string(), "\"B\"".to_string()]);
            assert_eq!(e.assignment.as_deref(), Some("2"));
            assert_eq!(e.setter.as_deref(), Some("set_mode"));
            assert_eq!(e.getter, None);
        }
        other => panic!("unexpected payload {:?}", other),
    }
}

#[test]
fn multi_line_enum_values() {
    let d = parse(&["enum E {", "\tA, B=5, C", "}"], false);
    let enums = entry(&d, EntryType::ENUM);
    assert_eq!(enums.len(), 1);
    assert_eq!(enums[0].name, "E");
    match &enums[0].args {
        Some(SymbolArgs::EnumArgs(v)) => {
            let got: Vec<(String, isize)> = v.iter().map(|x| (x.name.clone(), x.value)).collect();
            assert_eq!(
                got,
                vec![("A".to_string(), 0), ("B".to_string(), 5), ("C".to_string(), 6)]
            );
        }
        other => panic!("unexpected payload {:?}", other),
    }
}

#[test]
fn nested_class_closes_on_dedent() {
    let d = parse(&["class Inner:", "\tvar x = 1", "var y = 2"], false);
    let classes = entry(&d, EntryType::CLASS);
    assert_eq!(classes.len(), 1);
    assert_eq!(classes[0].name, "Inner");
    match &classes[0].args {
        Some(SymbolArgs::ClassArgs(entries)) => {
            assert_eq!(entries.len(), 1);
            assert_eq!(entries[0].entry_type, EntryType::VAR);
            assert_eq!(entries[0].symbols.len(), 1);
            assert_eq!(entries[0].symbols[0].name, "x");
        }
        other => panic!("unexpected payload {:?}", other),
    }
    let vars = entry(&d, EntryType::VAR);
    assert_eq!(vars.len(), 1);
    assert_eq!(vars[0].name, "y");
}

#[test]
fn categories_in_fixed_order() {
    let d = parse(
        &[
            "var v",
            "func f():",
            "const C = 1",
            "export var e",
            "signal s",
            "enum K {A}",
            "class Q:",
            "\tvar inner",
        ],
        false,
    );
    let order: Vec<EntryType> = d.entries.iter().map(|e| e.entry_type).collect();
    assert_eq!(
        order,
        vec![
            EntryType::CLASS,
            EntryType::ENUM,
            EntryType::SIGNAL,
            EntryType::EXPORT,
            EntryType::CONST,
            EntryType::FUNC,
            EntryType::VAR,
        ]
    );
    assert_eq!(d.source_file, "test.gd");
}

#[test]
fn private_symbols_hidden_unless_shown() {
    let d = parse(&["var _hidden", "var shown"], false);
    let vars = entry(&d, EntryType::VAR);
    assert_eq!(vars.len(), 1);
    assert_eq!(vars[0].name, "shown");

    let d = parse(&["var _hidden", "var shown"], true);
    assert_eq!(entry(&d, EntryType::VAR).len(), 2);

    let d = parse(&["# [Show]", "var _forced", "var _other"], false);
    let vars = entry(&d, EntryType::VAR);
    assert_eq!(vars.len(), 1);
    assert_eq!(vars[0].name, "_forced");

    let d = parse(&["# [Hide]", "var gone", "var kept"], false);
    let vars = entry(&d, EntryType::VAR);
    assert_eq!(vars.len(), 1);
    assert_eq!(vars[0].name, "kept");
}

#[test]
fn enum_values_count_from_zero_and_follow_explicit_ones() {
    let d = parse(&["enum Dir {UP, DOWN = -3, LEFT, RIGHT = 10, ,}"], false);
    match &entry(&d, EntryType::ENUM)[0].args {
        Some(SymbolArgs::EnumArgs(v)) => {
            let got: Vec<isize> = v.iter().map(|x| x.value).collect();
            assert_eq!(got, vec![0, -3, -2, 10]);
        }
        other => panic!("unexpected payload {:?}", other),
    }
}

#[test]
fn comment_attaches_only_to_next_declaration() {
    let d = parse(&["# about a", "var a", "# orphan", "x = 1", "var b"], false);
    let vars = entry(&d, EntryType::VAR);
    assert_eq!(vars[0].text, vec!["about a".to_string()]);
    assert!(vars[1].text.is_empty());
}

#[test]
fn warning_ignore_comment_is_dropped() {
    let d = parse(&["# warning-ignore:unused", "# kept", "var a"], false);
    assert_eq!(entry(&d, EntryType::VAR)[0].text, vec!["kept".to_string()]);
}

#[test]
fn hash_inside_string_is_not_a_comment() {
    let d = parse(&["var s = \"a # b\" # note", "var t"], false);
    let vars = entry(&d, EntryType::VAR);
    match &vars[0].args {
        Some(SymbolArgs::VariableArgs(v)) => {
            assert_eq!(v.assignment.as_deref(), Some("\"a # b\""));
        }
        other => panic!("unexpected payload {:?}", other),
    }
}

#[test]
fn continuation_lines_are_joined() {
    let d = parse(&["var long = 1 + \\", "2"], false);
    match &entry(&d, EntryType::VAR)[0].args {
        Some(SymbolArgs::VariableArgs(v)) => assert_eq!(v.assignment.as_deref(), Some("1 + 2")),
        other => panic!("unexpected payload {:?}", other),
    }
}

#[test]
fn variable_with_type_value_and_accessors() {
    let d = parse(&["var speed: float = 1.5 setget set_speed, get_speed"], false);
    match &entry(&d, EntryType::VAR)[0].args {
        Some(SymbolArgs::VariableArgs(v)) => {
            assert_eq!(v.value_type.as_deref(), Some("float"));
            assert_eq!(v.assignment.as_deref(), Some("1.5"));
            assert_eq!(v.setter.as_deref(), Some("set_speed"));
            assert_eq!(v.getter.as_deref(), Some("get_speed"));
        }
        other => panic!("unexpected payload {:?}", other),
    }
    let d = parse(&["var hp setget , get_hp"], false);
    match &entry(&d, EntryType::VAR)[0].args {
        Some(SymbolArgs::VariableArgs(v)) => {
            assert_eq!(v.setter, None);
            assert_eq!(v.getter.as_deref(), Some("get_hp"));
        }
        other => panic!("unexpected payload {:?}", other),
    }
}

#[test]
fn function_defaults_and_return_type() {
    let d = parse(&["func add(x: int = 1, y = -2) -> int:"], false);
    match &entry(&d, EntryType::FUNC)[0].args {
        Some(SymbolArgs::FunctionArgs(f)) => {
            assert_eq!(f.arguments.len(), 2);
            assert_eq!(f.arguments[0].default_value.as_deref(), Some("1"));
            assert_eq!(f.arguments[1].name, "y");
            assert_eq!(f.arguments[1].default_value.as_deref(), Some("-2"));
            assert_eq!(f.super_arguments.is_none(), true);
            assert_eq!(f.return_type.as_deref(), Some("int"));
        }
        other => panic!("unexpected payload {:?}", other),
    }
}

#[test]
fn error_bracket_mismatch() {
    let e = parse_file("m.gd", lines(&["var a = (]"]), false).unwrap_err();
    assert_eq!(e.kind, ErrorKind::BracketMismatch);
    assert_eq!(e.file, "m.gd");
    assert_eq!(e.line, 1);
}

#[test]
fn error_extra_closing_bracket() {
    let e = parse_file("m.gd", lines(&["var a", "var b = 1)"]), false).unwrap_err();
    assert_eq!(e.kind, ErrorKind::ExtraClosingBracket(')'));
    assert_eq!(e.line, 2);
}

#[test]
fn error_unterminated_continuation() {
    let e = parse_file("m.gd", lines(&["var a = \\"]), false).unwrap_err();
    assert_eq!(e.kind, ErrorKind::UnterminatedContinuation);
}

#[test]
fn error_indentation_expected() {
    let e = parse_file("m.gd", lines(&["class A:", "var b"]), false).unwrap_err();
    assert_eq!(e.kind, ErrorKind::IndentationExpected);
    assert_eq!(e.line, 2);
}

#[test]
fn error_invalid_syntax() {
    let e = parse_file("m.gd", lines(&["var a = 1: int"]), false).unwrap_err();
    assert_eq!(e.kind, ErrorKind::InvalidSyntax);
    let e = parse_file("m.gd", lines(&["func f(a)(b)(c):"]), false).unwrap_err();
    assert_eq!(e.kind, ErrorKind::InvalidSyntax);
    let e = parse_file("m.gd", lines(&["export(int) mode"]), false).unwrap_err();
    assert_eq!(e.kind, ErrorKind::InvalidSyntax);
}

#[test]
fn empty_file_has_no_entries() {
    let d = parse(&[], false);
    assert!(d.entries.is_empty());
}

#[test]
fn dedent_closes_two_levels_and_keeps_the_line() {
    let d = parse(&["class A:", "\tclass B:", "\t\tvar x", "var y"], false);
    let classes = entry(&d, EntryType::CLASS);
    assert_eq!(classes.len(), 1);
    assert_eq!(classes[0].name, "A");
    match &classes[0].args {
        Some(SymbolArgs::ClassArgs(entries)) => {
            assert_eq!(entries.len(), 1);
            assert_eq!(entries[0].entry_type, EntryType::CLASS);
            assert_eq!(entries[0].symbols[0].name, "B");
            match &entries[0].symbols[0].args {
                Some(SymbolArgs::ClassArgs(inner)) => {
                    assert_eq!(inner[0].entry_type, EntryType::VAR);
                    assert_eq!(inner[0].symbols[0].name, "x");
                }
                other => panic!("unexpected payload {:?}", other),
            }
        }
        other => panic!("unexpected payload {:?}", other),
    }
    assert_eq!(entry(&d, EntryType::VAR)[0].name, "y");
}

#[test]
fn hidden_class_takes_its_members_along() {
    let d = parse(&["class _Private:", "\tvar z", "var y"], false);
    assert_eq!(d.entries.len(), 1);
    assert_eq!(d.entries[0].entry_type, EntryType::VAR);
    assert_eq!(d.entries[0].symbols[0].name, "y");
}

#[test]
fn enum_value_comments_in_a_body() {
    let d = parse(&["# Directions.", "enum E {", "\tA, # first", "\tB", "}"], false);
    let e = &entry(&d, EntryType::ENUM)[0];
    assert_eq!(e.text, Vec::<String>::new());
    match &e.args {
        Some(SymbolArgs::EnumArgs(v)) => {
            assert_eq!(v[0].text, vec!["first".to_string()]);
            assert!(v[1].text.is_empty());
        }
        other => panic!("unexpected payload {:?}", other),
    }
}

#[test]
fn class_doc_comment_and_members() {
    let d = parse(&["# A thing.", "class Thing:", "", "\tsignal done", "\tfunc run():"], false);
    let c = &entry(&d, EntryType::CLASS)[0];
    assert_eq!(c.text, vec!["A thing.".to_string()]);
    match &c.args {
        Some(SymbolArgs::ClassArgs(entries)) => {
            let order: Vec<EntryType> = entries.iter().map(|e| e.entry_type).collect();
            assert_eq!(order, vec![EntryType::SIGNAL, EntryType::FUNC]);
        }
        other => panic!("unexpected payload {:?}", other),
    }
}

#[test]
fn dictionary_initializer_keeps_its_colon() {
    let d = parse(&["var d = {\"a\": 1}", "const K = {1: 2}"], false);
    match &entry(&d, EntryType::VAR)[0].args {
        Some(SymbolArgs::VariableArgs(v)) => {
            assert_eq!(v.value_type, None);
            assert_eq!(v.assignment.as_deref(), Some("{\"a\": 1}"));
        }
        other => panic!("unexpected payload {:?}", other),
    }
    assert_eq!(entry(&d, EntryType::CONST)[0].name, "K");
}

#[test]
fn unmatched_closing_paren_in_signature_is_an_error() {
    let e = godotdoc::function::parse_function("m.gd", 3, &" f):".chars().collect()).unwrap_err();
    assert_eq!(e.kind, ErrorKind::InvalidSyntax);
    assert_eq!(e.line, 3);
    let e = parse_file("m.gd", lines(&["func f):"]), false).unwrap_err();
    assert_eq!(e.kind, ErrorKind::ExtraClosingBracket(')'));
}

#[test]
fn open_class_is_folded_at_end_of_input() {
    let d = parse(&["class Inner:", "\tvar x = 1"], false);
    let classes = entry(&d, EntryType::CLASS);
    assert_eq!(classes[0].name, "Inner");
    match &classes[0].args {
        Some(SymbolArgs::ClassArgs(entries)) => {
            assert_eq!(entries[0].entry_type, EntryType::VAR);
            assert_eq!(entries[0].symbols[0].name, "x");
        }
        other => panic!("unexpected payload {:?}", other),
    }
}

#[test]
fn dedent_to_plain_code_closes_the_class() {
    let d = parse(&["class Inner:", "\tvar x = 1", "x = 2"], false);
    assert_eq!(d.entries.len(), 1);
    assert_eq!(d.entries[0].entry_type, EntryType::CLASS);
}

#[test]
fn stale_comment_is_cleared_by_code() {
    let d = parse(&["# stale", "x = 1", "# doc", "var a"], false);
    assert_eq!(entry(&d, EntryType::VAR)[0].text, vec!["doc".to_string()]);
}
