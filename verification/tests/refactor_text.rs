use gd::refactor::edit::diff_line_count;
use gd::refactor::extract_method;
use gd::refactor::inline_method::replace_self_references;
use gd::refactor::invert_if::{apply_de_morgan, flip_comparison};
use gd::refactor::normalize_blank_lines;

#[test]
fn refactor_normalize_collapses_excess() {
    let mut s = "a\n\n\n\n\nb".to_string();
    normalize_blank_lines(&mut s);
    assert_eq!(s, "a\n\n\nb");
}

#[test]
fn refactor_normalize_keeps_two_blank_lines() {
    let mut s = "a\n\n\nb".to_string();
    normalize_blank_lines(&mut s);
    assert_eq!(s, "a\n\n\nb");
}

#[test]
fn mod_normalize_collapses_excess() {
    let mut s = "a\n\n\n\n\nb".to_string();
    normalize_blank_lines(&mut s);
    assert_eq!(s, "a\n\n\nb");
}

#[test]
fn mod_normalize_keeps_two_blank_lines() {
    let mut s = "a\n\n\nb".to_string();
    normalize_blank_lines(&mut s);
    assert_eq!(s, "a\n\n\nb");
}

#[test]
fn refactor_re_indent_strips_common_prefix() {
    let text = "\t\tvar x = 1\n\t\tprint(x)";
    let result = gd::refactor::re_indent(text);
    assert_eq!(result, "\tvar x = 1\n\tprint(x)");
}

#[test]
fn refactor_re_indent_single_line() {
    let text = "\tprint(42)";
    let result = gd::refactor::re_indent(text);
    assert_eq!(result, "\tprint(42)");
}

#[test]
fn extract_method_re_indent_strips_common_prefix() {
    let text = "\t\tvar x = 1\n\t\tprint(x)";
    let result = extract_method::re_indent(text);
    assert_eq!(result, "\tvar x = 1\n\tprint(x)");
}

#[test]
fn extract_method_re_indent_single_line() {
    let text = "\tprint(42)";
    let result = extract_method::re_indent(text);
    assert_eq!(result, "\tprint(42)");
}

#[test]
fn diff_line_count_empty_to_content() {
    assert_eq!(diff_line_count("", "extends Node\nvar x = 1\n"), 2);
}

#[test]
fn replace_self_dot_references() {
    let text = "self.health -= amount\nself.emit_signal(\"damaged\")";
    let result = replace_self_references(text, "enemy");
    assert_eq!(
        result,
        "enemy.health -= amount\nenemy.emit_signal(\"damaged\")"
    );
}

#[test]
fn replace_self_bare_reference() {
    let text = "some_func(self)";
    let result = replace_self_references(text, "target");
    assert_eq!(result, "some_func(target)");
}

#[test]
fn replace_self_no_false_positives() {
    let text = "myself.health\nnotself.x\nself_damage = 10";
    let result = replace_self_references(text, "enemy");
    assert_eq!(result, "myself.health\nnotself.x\nself_damage = 10");
}

#[test]
fn negate_comparison_operators() {
    assert_eq!(flip_comparison("x == 1"), Some("x != 1".to_string()));
    assert_eq!(flip_comparison("x != 1"), Some("x == 1".to_string()));
    assert_eq!(flip_comparison("x < 10"), Some("x >= 10".to_string()));
    assert_eq!(flip_comparison("x > 10"), Some("x <= 10".to_string()));
    assert_eq!(flip_comparison("x <= 10"), Some("x > 10".to_string()));
    assert_eq!(flip_comparison("x >= 10"), Some("x < 10".to_string()));
    assert_eq!(flip_comparison("is_alive"), None);
}

#[test]
fn negate_de_morgan_text() {
    assert_eq!(
        apply_de_morgan("a and b"),
        Some("not a or not b".to_string())
    );
    assert_eq!(
        apply_de_morgan("a or b"),
        Some("not a and not b".to_string())
    );
    assert_eq!(
        apply_de_morgan("not a and b"),
        Some("a or not b".to_string())
    );
    assert_eq!(
        apply_de_morgan("(a and b) or c"),
        Some("not (a and b) and not c".to_string())
    );
}
