use godotdoc::markdown::{
    format_comments, join, sanitize_markdown, sanitize_markdown_quoted, MarkdownBackend,
};
use godotdoc::model::{EntryType, FunctionArgument};
use godotdoc::parser::get_indentation_level;
use godotdoc::scanner::{find, Matcher};

fn chars(s: &str) -> Vec<char> {
    s.chars().collect()
}

#[test]
fn balanced_line_returns_the_stack_it_was_given() {
    let (pos, st) = find("f", 1, &chars("call(a, [b], {c: 'x)'})"), &Matcher::Char('#'), true, vec!['{', '('])
        .unwrap();
    assert_eq!(pos, None);
    assert_eq!(st, vec!['{', '(']);
}

#[test]
fn open_brackets_carry_to_the_next_line() {
    let (pos, st) = find("f", 1, &chars("enum E {"), &Matcher::Char('#'), true, Vec::new()).unwrap();
    assert_eq!(pos, None);
    assert_eq!(st, vec!['{']);
    let (_, st) = find("f", 2, &chars("}"), &Matcher::Char('#'), true, st).unwrap();
    assert!(st.is_empty());
}

#[test]
fn text_pattern_outside_quotes() {
    let m = Matcher::Text(chars(" setget "));
    let (pos, _) = find("f", 1, &chars("x = \" setget \" setget a"), &m, false, Vec::new()).unwrap();
    assert_eq!(pos, Some(14));
}

#[test]
fn indentation_counts_leading_tabs_only() {
    assert_eq!(get_indentation_level(&chars("\t\tvar a")), 2);
    assert_eq!(get_indentation_level(&chars("\t \tvar a")), 1);
    assert_eq!(get_indentation_level(&chars("")), 0);
}

#[test]
fn markdown_escaping() {
    assert_eq!(sanitize_markdown("a_b*[c]".to_string()), "a\\_b\\*\\[c\\]");
    assert_eq!(sanitize_markdown("\\#`()".to_string()), "\\\\\\#\\`\\(\\)");
    assert_eq!(sanitize_markdown_quoted("a_*`".to_string()), "a_\\*\\`");
}

#[test]
fn comment_blocks() {
    assert_eq!(format_comments(&"".to_string(), Vec::new()), "  \n");
    assert_eq!(
        format_comments(&"  ".to_string(), vec!["one".to_string(), "two".to_string()]),
        "  \n      ```\n      one\n      two\n      ```\n\n"
    );
}

#[test]
fn joined_arguments() {
    let args = vec![
        FunctionArgument { name: "a_b".to_string(), value_type: Some("int".to_string()), default_value: None },
        FunctionArgument { name: "c".to_string(), value_type: None, default_value: Some("2".to_string()) },
    ];
    assert_eq!(join(&args, ", "), "a\\_b: int, c = 2");
}

#[test]
fn titles_and_extension() {
    assert_eq!(EntryType::CLASS.title(), "Classes");
    assert_eq!(EntryType::VAR.title(), "Variables");
    assert_eq!(MarkdownBackend::new().get_extension(), "md");
}

#[test]
fn markdown_report_of_a_file() {
    let d = godotdoc::parser::parse_file(
        "player.gd",
        vec![
            "# The speed.".to_string(),
            "var speed: float = 1.5 setget set_speed".to_string(),
            "func jump(h = 2) -> void:".to_string(),
            "enum State {IDLE, RUN = -1}".to_string(),
            "class Inner:".to_string(),
            "\tsignal hit".to_string(),
        ],
        false,
    )
    .unwrap();
    let out = MarkdownBackend::new().generate_output(&d);
    let expected = [
        "## player.gd\n\n",
        "### Classes:  \n",
        "* Inner  \n  \n  \n",
        "    * **Signals**:  \n",
        "        * hit  \n",
        "  \n",
        "### Enums:  \n",
        "* State  \n    **Values**:  \n    * IDLE = 0  \n    * RUN = -1  \n  \n",
        "  \n",
        "### Functions:  \n",
        "* jump(h = 2) -> void  \n  \n",
        "  \n",
        "### Variables:  \n",
        "* speed: float = `1.5`  \n**Setter**: set\\_speed  \n",
        "  \n    ```\n    The speed.\n    ```\n\n",
        "  \n",
    ]
    .concat();
    assert_eq!(out, expected);
}

#[test]
fn markdown_report_of_one_signal() {
    let d = godotdoc::parser::parse_file("s.gd", vec!["signal hit".to_string()], false).unwrap();
    assert_eq!(
        MarkdownBackend::new().generate_output(&d),
        "## s.gd\n\n### Signals:  \n* hit  \n  \n  \n"
    );
}

#[test]
fn markers_inside_brackets_are_skipped() {
    let m = Matcher::Char(':');
    let (pos, _) = find("f", 1, &chars("d = {1: 2}"), &m, false, Vec::new()).unwrap();
    assert_eq!(pos, None);
    let (pos, _) = find("f", 1, &chars("d = {1: 2}"), &m, true, Vec::new()).unwrap();
    assert_eq!(pos, Some(6));
}
