use gd::refactor::invert_if::apply_de_morgan;
use gd::refactor::change_signature::rename_identifier_in_text;
use gd::refactor::inline_method::replace_self_references;
use gd::edits::sort_edits_desc;
use gd::refactor::change_signature::{apply_param_changes, ParamInfo};
use gd::refactor::convert_node_path::{convert_node, extract_dollar_path, find_get_node_or_call};
use gd::refactor::convert_signal::{
    add_to_ready, append_connection_line, build_connect_call, find_connect_call_in_source, res_relative, SignalError,
};
use gd::refactor::edit::diff_line_count;
use gd::refactor::introduce_variable::{collect_replacements, MatchSite};
use gd::refactor::invert_if::{flip_comparison, negate_simple};
use gd::refactor::move_file::{replace_all, to_res_path};
use gd::refactor::normalize_blank_lines;
use gd::syntax::SyntaxNode;

fn convert(cursor: &mut tree_sitter::TreeCursor, field: Option<&str>) -> SyntaxNode {
    let node = cursor.node();
    let mut children = Vec::new();
    if cursor.goto_first_child() {
        loop {
            let f = cursor.field_name();
            children.push(convert(cursor, f));
            if !cursor.goto_next_sibling() {
                break;
            }
        }
        cursor.goto_parent();
    }
    SyntaxNode {
        kind: node.kind().to_string(),
        is_named: node.is_named(),
        field: field.map(|f| f.to_string()),
        start_byte: node.start_byte(),
        end_byte: node.end_byte(),
        start_row: node.start_position().row,
        start_column: node.start_position().column,
        end_row: node.end_position().row,
        end_column: node.end_position().column,
        children,
    }
}

fn parse(src: &str) -> SyntaxNode {
    let mut parser = tree_sitter::Parser::new();
    parser.set_language(&tree_sitter_gdscript::LANGUAGE.into()).expect("load grammar");
    let tree = parser.parse(src, None).expect("parse");
    let mut cursor = tree.walk();
    convert(&mut cursor, None)
}

fn copy(n: &SyntaxNode) -> SyntaxNode {
    SyntaxNode {
        kind: n.kind.clone(),
        is_named: n.is_named,
        field: n.field.clone(),
        start_byte: n.start_byte,
        end_byte: n.end_byte,
        start_row: n.start_row,
        start_column: n.start_column,
        end_row: n.end_row,
        end_column: n.end_column,
        children: n.children.iter().map(copy).collect(),
    }
}

fn chain_at(root: &SyntaxNode, row: usize, col: usize) -> Vec<SyntaxNode> {
    let mut chain = vec![copy(root)];
    let mut cur = root;
    loop {
        let p = (row, col);
        let next = cur.children.iter().find(|c| (c.start_row, c.start_column) <= p && p < (c.end_row, c.end_column));
        match next {
            Some(c) => {
                chain.push(copy(c));
                cur = c;
            }
            None => break,
        }
    }
    chain.reverse();
    chain
}

#[test]
fn normalizing_twice_changes_nothing_more() {
    for input in ["a\n\n\n\n\n\nb\n\n\n\n", "\n\n\n\n", "x", "a\n\nb\n\n\n\nc"] {
        let mut once = input.to_string();
        normalize_blank_lines(&mut once);
        let mut twice = once.clone();
        normalize_blank_lines(&mut twice);
        assert_eq!(once, twice);
        assert!(!once.contains("\n\n\n\n"), "got: {once:?}");
    }
}

#[test]
fn no_diff_against_itself() {
    let s = "func a():\n\tpass\n\nfunc b():\n\tpass\n";
    assert_eq!(diff_line_count(s, s), 0);
}

#[test]
fn replacing_pattern_with_itself() {
    let s = "res://a.gd and res://a.gd";
    assert_eq!(replace_all(s, "res://a.gd", "res://a.gd"), s);
}

#[test]
fn res_path_round_trip() {
    let p = to_res_path("scenes/main.tscn");
    assert_eq!(p, "res://scenes/main.tscn");
    assert_eq!(res_relative(&p).as_deref(), Some("scenes/main.tscn"));
}

#[test]
fn dollar_form_reads_back() {
    let src = "func _ready():\n\tget_node(\"Player/Sprite2D\").show()\n\tget_node(\"Label\").hide()\n";
    let root = parse(src);
    for (row, col, path) in [(1usize, 2usize, "Player/Sprite2D"), (2, 2, "Label")] {
        let chain = chain_at(&root, row, col);
        let (i, d) = find_get_node_or_call(&chain, src).expect("a get_node call");
        let e = convert_node(src, &chain[i], d).expect("convertible");
        assert_eq!(extract_dollar_path(&e.converted), path);
    }
}

#[test]
fn appending_a_connection_twice_is_refused() {
    let scene = "[gd_scene format=3]\n\n[node name=\"Main\" type=\"Node2D\"]\n";
    let once = append_connection_line(scene, "pressed", "Button", ".", "_go").unwrap();
    assert!(once.contains("[connection signal=\"pressed\" from=\"Button\" to=\".\" method=\"_go\"]"));
    assert!(matches!(
        append_connection_line(&once, "pressed", "Button", ".", "_go"),
        Err(SignalError::ConnectionExists)
    ));
}

#[test]
fn connect_call_added_to_ready_is_found() {
    for script in ["func _ready():\n\tpass\n", "func _ready():\n\tprint(1)\n", "extends Node\n"] {
        let root = parse(script);
        let call = build_connect_call("Button", "pressed", "_go");
        let out = add_to_ready(script, &root, &call).unwrap();
        assert!(find_connect_call_in_source(&out, "Button", "pressed", "_go"), "got: {out}");
    }
}

#[test]
fn flipping_a_comparison_twice() {
    for (t, f) in [
        ("x == y", "x != y"),
        ("x != y", "x == y"),
        ("a < b", "a >= b"),
        ("a >= b", "a < b"),
        ("hp > 0", "hp <= 0"),
        ("hp <= 0", "hp > 0"),
    ] {
        let once = flip_comparison(t).unwrap();
        assert_eq!(once, f);
        assert_eq!(flip_comparison(&once).unwrap(), t);
    }
}

#[test]
fn negating_a_plain_operand_twice() {
    for t in ["is_alive", "true", "false", "ready()"] {
        assert_eq!(negate_simple(&negate_simple(t)), t);
    }
}

fn param(name: &str) -> ParamInfo {
    ParamInfo { name: name.to_string(), type_hint: None, default: None }
}

#[test]
fn no_change_keeps_parameters() {
    let (ps, pairs) = apply_param_changes(vec![param("a"), param("b")], &[], &[], &[], None).unwrap();
    let names: Vec<&str> = ps.iter().map(|p| p.name.as_str()).collect();
    assert_eq!(names, vec!["a", "b"]);
    assert!(pairs.is_empty());
}

#[test]
fn reordering_keeps_every_parameter() {
    let (ps, _) = apply_param_changes(vec![param("a"), param("b"), param("c")], &[], &[], &[], Some("c,a")).unwrap();
    let names: Vec<&str> = ps.iter().map(|p| p.name.as_str()).collect();
    assert_eq!(names, vec!["c", "a", "b"]);
}

#[test]
fn edits_sorted_last_first() {
    let es = vec![(3, 4, "x".to_string()), (10, 12, "y".to_string()), (0, 1, "z".to_string()), (10, 11, "w".to_string())];
    let s = sort_edits_desc(es);
    let starts: Vec<usize> = s.iter().map(|e| e.0).collect();
    assert_eq!(starts, vec![10, 10, 3, 0]);
    assert_eq!(s[0].2, "y");
    assert_eq!(s[1].2, "w");
}

#[test]
fn replacements_ordered_and_hold_the_selection() {
    let ms = vec![
        MatchSite { start: 30, end: 35, assignment_target: false, statement_row: Some(3) },
        MatchSite { start: 5, end: 10, assignment_target: false, statement_row: Some(1) },
        MatchSite { start: 5, end: 10, assignment_target: false, statement_row: Some(1) },
    ];
    let (reps, row) = collect_replacements(true, 20, 25, 2, &ms);
    assert_eq!(reps, vec![(5, 10), (20, 25), (30, 35)]);
    assert_eq!(row, 1);
}

#[test]
fn de_morgan_negates_mixed_operators() {
    assert_eq!(apply_de_morgan("a and b or c"), Some("not (a and b) and not c".to_string()));
    assert_eq!(apply_de_morgan("a or b and c"), Some("not a and not (b and c)".to_string()));
    assert_eq!(apply_de_morgan("a and b and c"), Some("not a or not (b and c)".to_string()));
    assert_eq!(apply_de_morgan("é and b"), Some("not é or not b".to_string()));
}

#[test]
fn rename_keeps_other_characters() {
    assert_eq!(rename_identifier_in_text("max_x + x", "x", "y"), "max_x + y");
    assert_eq!(rename_identifier_in_text("s = \"é\" + x", "x", "y"), "s = \"é\" + y");
}

#[test]
fn self_references_keep_other_characters() {
    assert_eq!(replace_self_references("print(\"é\", self.hp)", "enemy"), "print(\"é\", enemy.hp)");
}

#[test]
fn lines_only_in_the_longer_text_count() {
    assert_eq!(diff_line_count("a\n", "a\n\nb\n"), 2);
    assert_eq!(diff_line_count("", "extends Node\nvar x = 1\n"), 2);
}
