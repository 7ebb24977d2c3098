use gd::refactor::{declaration_full_range, find_declaration_by_line, find_declaration_by_name, get_declaration_name};
use gd::syntax::SyntaxNode;

fn convert(cursor: &mut tree_sitter::TreeCursor, field: Option<&str>) -> SyntaxNode {
    let node = cursor.node();
    let mut children = Vec::new();
    if cursor.goto_first_child() {
        loop {
            let f = cursor.field_name();
            children.push(convert(cursor, f));
            if !cursor.goto_next_sibling() {
                break;
            }
        }
        cursor.goto_parent();
    }
    SyntaxNode {
        kind: node.kind().to_string(),
        is_named: node.is_named(),
        field: field.map(|f| f.to_string()),
        start_byte: node.start_byte(),
        end_byte: node.end_byte(),
        start_row: node.start_position().row,
        start_column: node.start_position().column,
        end_row: node.end_position().row,
        end_column: node.end_position().column,
        children,
    }
}

fn parse(src: &str) -> SyntaxNode {
    let mut parser = tree_sitter::Parser::new();
    parser.set_language(&tree_sitter_gdscript::LANGUAGE.into()).expect("load grammar");
    let tree = parser.parse(src, None).expect("parse");
    let mut cursor = tree.walk();
    convert(&mut cursor, None)
}

#[test]
fn refactor_find_function_by_name() {
    let src = "func foo():\n\tpass\n";
    let root = parse(src);
    let node = find_declaration_by_name(&root, src, "foo");
    assert!(node.is_some());
    assert_eq!(node.unwrap().kind, "function_definition");
}

#[test]
fn mod_find_function_by_name() {
    let src = "func foo():\n\tpass\n";
    let root = parse(src);
    let node = find_declaration_by_name(&root, src, "foo");
    assert!(node.is_some());
    assert_eq!(node.unwrap().kind, "function_definition");
}

#[test]
fn refactor_find_variable_by_name() {
    let src = "var speed = 10\n";
    let root = parse(src);
    let node = find_declaration_by_name(&root, src, "speed");
    assert!(node.is_some());
    assert_eq!(node.unwrap().kind, "variable_statement");
}

#[test]
fn mod_find_variable_by_name() {
    let src = "var speed = 10\n";
    let root = parse(src);
    let node = find_declaration_by_name(&root, src, "speed");
    assert!(node.is_some());
    assert_eq!(node.unwrap().kind, "variable_statement");
}

#[test]
fn refactor_find_const_by_name() {
    let src = "const MAX_HP = 200\n";
    let root = parse(src);
    let node = find_declaration_by_name(&root, src, "MAX_HP");
    assert!(node.is_some());
    assert_eq!(node.unwrap().kind, "const_statement");
}

#[test]
fn mod_find_const_by_name() {
    let src = "const MAX_HP = 200\n";
    let root = parse(src);
    let node = find_declaration_by_name(&root, src, "MAX_HP");
    assert!(node.is_some());
    assert_eq!(node.unwrap().kind, "const_statement");
}

#[test]
fn refactor_find_signal_by_name() {
    let src = "signal died\n";
    let root = parse(src);
    let node = find_declaration_by_name(&root, src, "died");
    assert!(node.is_some());
    assert_eq!(node.unwrap().kind, "signal_statement");
}

#[test]
fn mod_find_signal_by_name() {
    let src = "signal died\n";
    let root = parse(src);
    let node = find_declaration_by_name(&root, src, "died");
    assert!(node.is_some());
    assert_eq!(node.unwrap().kind, "signal_statement");
}

#[test]
fn refactor_find_enum_by_name() {
    let src = "enum State { IDLE, RUN }\n";
    let root = parse(src);
    let node = find_declaration_by_name(&root, src, "State");
    assert!(node.is_some());
    assert_eq!(node.unwrap().kind, "enum_definition");
}

#[test]
fn mod_find_enum_by_name() {
    let src = "enum State { IDLE, RUN }\n";
    let root = parse(src);
    let node = find_declaration_by_name(&root, src, "State");
    assert!(node.is_some());
    assert_eq!(node.unwrap().kind, "enum_definition");
}

#[test]
fn refactor_find_class_by_name() {
    let src = "class Inner:\n\tvar x = 1\n";
    let root = parse(src);
    let node = find_declaration_by_name(&root, src, "Inner");
    assert!(node.is_some());
    assert_eq!(node.unwrap().kind, "class_definition");
}

#[test]
fn mod_find_class_by_name() {
    let src = "class Inner:\n\tvar x = 1\n";
    let root = parse(src);
    let node = find_declaration_by_name(&root, src, "Inner");
    assert!(node.is_some());
    assert_eq!(node.unwrap().kind, "class_definition");
}

#[test]
fn refactor_find_constructor() {
    let src = "func _init():\n\tpass\n";
    let root = parse(src);
    let node = find_declaration_by_name(&root, src, "_init");
    assert!(node.is_some());
}

#[test]
fn mod_find_constructor() {
    let src = "func _init():\n\tpass\n";
    let root = parse(src);
    let node = find_declaration_by_name(&root, src, "_init");
    assert!(node.is_some());
}

#[test]
fn refactor_find_not_found() {
    let src = "var speed = 10\n";
    let root = parse(src);
    let node = find_declaration_by_name(&root, src, "nonexistent");
    assert!(node.is_none());
}

#[test]
fn mod_find_not_found() {
    let src = "var speed = 10\n";
    let root = parse(src);
    let node = find_declaration_by_name(&root, src, "nonexistent");
    assert!(node.is_none());
}

#[test]
fn refactor_find_decl_by_line() {
    let src = "var a = 1\nvar b = 2\n\n\nfunc foo():\n\tpass\n";
    let root = parse(src);
    let node = find_declaration_by_line(&root, 4);
    assert!(node.is_some());
    assert_eq!(get_declaration_name(node.unwrap(), src), Some("foo".to_string()));
}

#[test]
fn mod_find_decl_by_line() {
    let src = "var a = 1\nvar b = 2\n\n\nfunc foo():\n\tpass\n";
    let root = parse(src);
    let node = find_declaration_by_line(&root, 4);
    assert!(node.is_some());
    assert_eq!(get_declaration_name(node.unwrap(), src), Some("foo".to_string()));
}

#[test]
fn find_decl_by_line_body_does_not_match() {
    let src = "func foo():\n\tvar x = 1\n\tpass\n";
    let root = parse(src);
    assert!(find_declaration_by_line(&root, 1).is_none());
}

#[test]
fn refactor_full_range_without_comments() {
    let src = "var a = 1\n\nfunc foo():\n\tpass\n";
    let root = parse(src);
    let node = find_declaration_by_name(&root, src, "foo").unwrap();
    let (start, end) = declaration_full_range(node, src);
    assert_eq!(&src[start..end], "func foo():\n\tpass\n");
}

#[test]
fn mod_full_range_without_comments() {
    let src = "var a = 1\n\nfunc foo():\n\tpass\n";
    let root = parse(src);
    let node = find_declaration_by_name(&root, src, "foo").unwrap();
    let (start, end) = declaration_full_range(node, src);
    assert_eq!(&src[start..end], "func foo():\n\tpass\n");
}

#[test]
fn refactor_full_range_with_comments() {
    let src = "var a = 1\n\n## Documentation\n# More docs\nfunc foo():\n\tpass\n";
    let root = parse(src);
    let node = find_declaration_by_name(&root, src, "foo").unwrap();
    let (start, end) = declaration_full_range(node, src);
    assert_eq!(&src[start..end], "## Documentation\n# More docs\nfunc foo():\n\tpass\n");
}

#[test]
fn mod_full_range_with_comments() {
    let src = "var a = 1\n\n## Documentation\n# More docs\nfunc foo():\n\tpass\n";
    let root = parse(src);
    let node = find_declaration_by_name(&root, src, "foo").unwrap();
    let (start, end) = declaration_full_range(node, src);
    assert_eq!(&src[start..end], "## Documentation\n# More docs\nfunc foo():\n\tpass\n");
}

#[test]
fn refactor_full_range_comment_stops_at_blank_line() {
    let src = "# Unrelated comment\n\n# Doc comment\nfunc foo():\n\tpass\n";
    let root = parse(src);
    let node = find_declaration_by_name(&root, src, "foo").unwrap();
    let (start, end) = declaration_full_range(node, src);
    assert_eq!(&src[start..end], "# Doc comment\nfunc foo():\n\tpass\n");
}

#[test]
fn mod_full_range_comment_stops_at_blank_line() {
    let src = "# Unrelated comment\n\n# Doc comment\nfunc foo():\n\tpass\n";
    let root = parse(src);
    let node = find_declaration_by_name(&root, src, "foo").unwrap();
    let (start, end) = declaration_full_range(node, src);
    assert_eq!(&src[start..end], "# Doc comment\nfunc foo():\n\tpass\n");
}

#[test]
fn full_range_annotation() {
    let src = "@export var speed = 10\n";
    let root = parse(src);
    let node = find_declaration_by_name(&root, src, "speed").unwrap();
    let (start, end) = declaration_full_range(node, src);
    assert_eq!(&src[start..end], "@export var speed = 10\n");
}

// ── delete-symbol ──────────────────────────────────────────────────────────

use gd::refactor::delete_symbol::{
    delete_applies, external_references, plan_delete_enum_member, plan_delete_symbol,
    split_enum_member, DeleteErrorKind, DeletePlan, ReferenceHit,
};

fn delete(src: &str, name: Option<&str>, line: Option<usize>, class: Option<&str>) -> Result<DeletePlan, gd::refactor::delete_symbol::DeleteError> {
    let root = parse(src);
    if let Some(n) = name {
        if let Some((e, m)) = split_enum_member(n) {
            return plan_delete_enum_member(src, &root, &e, &m);
        }
    }
    plan_delete_symbol(src, &root, name, line, class)
}

#[test]
fn delete_function() {
    let p = delete("var health = 100\n\n\nfunc unused():\n\tpass\n\n\nfunc _ready():\n\tpass\n", Some("unused"), None, None).unwrap();
    assert!(delete_applies(false, false, false));
    assert_eq!(p.kind, "function");
    assert!(!p.new_source.contains("unused"));
    assert!(p.new_source.contains("health"));
    assert!(p.new_source.contains("_ready"));
}

#[test]
fn delete_variable() {
    let p = delete("var unused_var = 1\nvar keep = 2\n", Some("unused_var"), None, None).unwrap();
    assert_eq!(p.kind, "variable");
    assert!(!p.new_source.contains("unused_var"));
    assert!(p.new_source.contains("keep"));
}

#[test]
fn delete_constant() {
    let p = delete("const OLD = 1\nconst KEEP = 2\n", Some("OLD"), None, None).unwrap();
    assert_eq!(p.kind, "constant");
}

#[test]
fn delete_signal() {
    let p = delete("signal unused\nsignal keep\n", Some("unused"), None, None).unwrap();
    assert_eq!(p.kind, "signal");
}

#[test]
fn delete_enum() {
    let p = delete("enum OldState { A, B }\nenum State { C, D }\n", Some("OldState"), None, None).unwrap();
    assert_eq!(p.kind, "enum");
}

#[test]
fn delete_class() {
    let p = delete("class Unused:\n\tvar x = 1\n\nclass Keep:\n\tvar y = 2\n", Some("Unused"), None, None).unwrap();
    assert_eq!(p.kind, "class");
}

#[test]
fn delete_with_doc_comments() {
    let p = delete("## This is documented\n## More docs\nfunc documented():\n\tpass\n", Some("documented"), None, None).unwrap();
    assert!(!p.new_source.contains("documented"), "function should be removed");
    assert!(!p.new_source.contains("## This is documented"), "doc comments should be removed");
}

#[test]
fn delete_by_line() {
    let p = delete("var a = 1\n\n\nfunc target():\n\tpass\n\n\nfunc keep():\n\tpass\n", None, Some(4), None).unwrap();
    assert_eq!(p.symbol, "target");
}

#[test]
fn delete_not_found() {
    let r = delete("var x = 1\n", Some("nonexistent"), None, None);
    assert!(r.is_err());
    let e = r.err().unwrap();
    assert!(e.kind == DeleteErrorKind::NotFound);
    assert_eq!(e.message(), "no declaration named 'nonexistent' found at top level");
}

#[test]
fn delete_blocked_by_references() {
    let src = "var speed = 10\n\n\nfunc run():\n\tprint(speed)\n";
    let p = delete(src, Some("speed"), None, None).unwrap();
    // The workspace search finds `speed` on line 4 of the same file.
    let hits = vec![ReferenceHit {
        file: "player.gd".to_string(),
        same_file: true,
        line: 4,
        character: 7,
        end_line: 4,
        end_character: 12,
    }];
    let refs = external_references(&hits, p.own_rows);
    assert!(!delete_applies(!refs.is_empty(), false, false), "should not delete when references exist");
    assert!(!refs.is_empty(), "should list external references");
    assert_eq!(refs[0].line, 5);
    assert_eq!(refs[0].column, 8);
}

#[test]
fn delete_force_with_references() {
    let src = "var speed = 10\n\n\nfunc run():\n\tprint(speed)\n";
    let p = delete(src, Some("speed"), None, None).unwrap();
    assert!(delete_applies(true, true, false), "force should override reference check");
    assert!(!p.new_source.contains("var speed"), "should be deleted");
}

#[test]
fn delete_dry_run() {
    let src = "func unused():\n\tpass\n\n\nfunc keep():\n\tpass\n";
    let p = delete(src, Some("unused"), None, None).unwrap();
    assert!(!delete_applies(false, false, true));
    assert!(p.new_source.contains("keep"));
}

#[test]
fn delete_from_inner_class() {
    let p = delete("class Inner:\n\tvar keep = 1\n\tfunc remove_me():\n\t\tpass\n", Some("remove_me"), None, Some("Inner")).unwrap();
    assert_eq!(p.kind, "function");
    assert!(!p.new_source.contains("remove_me"));
    assert!(p.new_source.contains("keep"));
}

#[test]
fn delete_var_from_inner_class() {
    let p = delete("class Inner:\n\tvar old = 1\n\tvar keep = 2\n", Some("old"), None, Some("Inner")).unwrap();
    assert_eq!(p.kind, "variable");
    assert!(!p.new_source.contains("old"));
    assert!(p.new_source.contains("keep"));
}

#[test]
fn delete_class_not_found() {
    let r = delete("var x = 1\n", Some("foo"), None, Some("NonExistent"));
    assert!(r.is_err());
    assert_eq!(r.err().unwrap().message(), "no inner class named 'NonExistent' found");
}

#[test]
fn delete_enum_member_first() {
    let p = delete("enum State { IDLE, RUN, JUMP }\n", Some("State.IDLE"), None, None).unwrap();
    assert_eq!(p.kind, "enum_member");
    assert!(!p.new_source.contains("IDLE"), "IDLE should be removed");
    assert!(p.new_source.contains("RUN"), "RUN should remain");
    assert!(p.new_source.contains("JUMP"), "JUMP should remain");
    assert_eq!(p.new_source, "enum State { RUN, JUMP }\n");
}

#[test]
fn delete_enum_member_last() {
    let p = delete("enum State { IDLE, RUN, JUMP }\n", Some("State.JUMP"), None, None).unwrap();
    assert!(!p.new_source.contains("JUMP"), "JUMP should be removed");
    assert!(p.new_source.contains("IDLE"), "IDLE should remain");
    assert!(p.new_source.contains("RUN"), "RUN should remain");
    assert_eq!(p.new_source, "enum State { IDLE, RUN, }\n");
}

#[test]
fn delete_enum_member_middle() {
    let p = delete("enum State { IDLE, RUN, JUMP }\n", Some("State.RUN"), None, None).unwrap();
    assert!(!p.new_source.contains("RUN"), "RUN should be removed");
    assert!(p.new_source.contains("IDLE"), "IDLE should remain");
    assert!(p.new_source.contains("JUMP"), "JUMP should remain");
    assert_eq!(p.symbol, "State.RUN");
}

#[test]
fn delete_enum_member_with_value() {
    let p = delete("enum State { IDLE = 0, RUN = 1, JUMP = 2 }\n", Some("State.RUN"), None, None).unwrap();
    assert!(!p.new_source.contains("RUN"), "RUN should be removed");
}

#[test]
fn delete_enum_member_last_one_error() {
    let r = delete("enum State { ONLY }\n", Some("State.ONLY"), None, None);
    assert!(r.is_err());
    let err = r.err().unwrap().message();
    assert!(err.contains("last member"), "should error: {err}");
}

#[test]
fn delete_enum_member_not_found() {
    let r = delete("enum State { IDLE, RUN }\n", Some("State.JUMP"), None, None);
    assert!(r.is_err());
    assert_eq!(r.err().unwrap().message(), "no member 'JUMP' in enum 'State'");
}

// ── move-symbol ────────────────────────────────────────────────────────────

use gd::refactor::move_symbol::{
    find_preloads_to_file, moved_target, plan_move_symbol, MovePlan, MoveSymbolError, WorkspaceFile,
};

/// Runs the move's planning; gives the plan and the target file's new text.
fn move_sym(
    name: &str,
    src: &str,
    target: Option<&str>,
    class: Option<&str>,
    target_class: Option<&str>,
) -> Result<(MovePlan, String), MoveSymbolError> {
    let root = parse(src);
    let troot = target.map(parse);
    let t = match (target, troot.as_ref()) {
        (Some(ts), Some(tr)) => Some((ts, tr)),
        _ => None,
    };
    let plan = plan_move_symbol(src, &root, name, class, target_class, t, &[])?;
    let new_target = moved_target(t, target_class, &plan.node_kind, &plan.block)?;
    Ok((plan, new_target))
}

#[test]
fn refactor_move_to_new_file() {
    let (p, target) = move_sym("helper", "var keep = 1\n\n\nfunc helper():\n\tpass\n", None, None, None).unwrap();
    assert_eq!(p.kind, "function");
    assert!(target.contains("func helper()"));
    assert!(!p.new_source.contains("helper"));
    assert!(p.new_source.contains("keep"));
}

#[test]
fn move_symbol_move_to_new_file() {
    let (p, target) = move_sym("helper", "var keep = 1\n\n\nfunc helper():\n\tpass\n", None, None, None).unwrap();
    assert_eq!(p.kind, "function");
    assert!(target.contains("func helper()"));
    assert!(!p.new_source.contains("helper"));
    assert!(p.new_source.contains("keep"));
}

#[test]
fn refactor_move_to_existing_file() {
    let (_, target) = move_sym(
        "to_move",
        "func to_move():\n\tpass\n\n\nfunc stay():\n\tpass\n",
        Some("func existing():\n\tpass\n"),
        None,
        None,
    )
    .unwrap();
    assert!(target.contains("func existing()"));
    assert!(target.contains("func to_move()"));
}

#[test]
fn move_symbol_move_to_existing_file() {
    let (_, target) = move_sym(
        "to_move",
        "func to_move():\n\tpass\n\n\nfunc stay():\n\tpass\n",
        Some("func existing():\n\tpass\n"),
        None,
        None,
    )
    .unwrap();
    assert!(target.contains("func existing()"));
    assert!(target.contains("func to_move()"));
}

#[test]
fn refactor_move_constant() {
    let (p, _) = move_sym("A", "const A = 1\nconst B = 2\n", None, None, None).unwrap();
    assert_eq!(p.kind, "constant");
}

#[test]
fn move_symbol_move_constant() {
    let (p, _) = move_sym("A", "const A = 1\nconst B = 2\n", None, None, None).unwrap();
    assert_eq!(p.kind, "constant");
}

#[test]
fn refactor_move_signal() {
    let (p, _) = move_sym("moved", "signal moved\nsignal stay\n", None, None, None).unwrap();
    assert_eq!(p.kind, "signal");
}

#[test]
fn move_symbol_move_signal() {
    let (p, _) = move_sym("moved", "signal moved\nsignal stay\n", None, None, None).unwrap();
    assert_eq!(p.kind, "signal");
}

#[test]
fn refactor_move_class() {
    let (p, _) = move_sym("Helper", "class Helper:\n\tvar x = 1\n\nvar keep = 2\n", None, None, None).unwrap();
    assert_eq!(p.kind, "class");
}

#[test]
fn move_symbol_move_class() {
    let (p, _) = move_sym("Helper", "class Helper:\n\tvar x = 1\n\nvar keep = 2\n", None, None, None).unwrap();
    assert_eq!(p.kind, "class");
}

#[test]
fn refactor_move_duplicate_error() {
    let r = move_sym("helper", "func helper():\n\tpass\n", Some("func helper():\n\treturn 1\n"), None, None);
    assert!(r.is_err());
    assert_eq!(r.err().unwrap().message(), "target already contains a declaration named 'helper'");
}

#[test]
fn move_symbol_move_duplicate_error() {
    let r = move_sym("helper", "func helper():\n\tpass\n", Some("func helper():\n\treturn 1\n"), None, None);
    assert!(r.is_err());
    assert_eq!(r.err().unwrap().message(), "target already contains a declaration named 'helper'");
}

#[test]
fn refactor_move_dry_run() {
    let src = "func helper():\n\tpass\n\n\nfunc keep():\n\tpass\n";
    let root = parse(src);
    let p = plan_move_symbol(src, &root, "helper", None, None, None, &[]).unwrap();
    assert!(p.new_source.contains("keep"));
    assert!(src.contains("helper"), "planning leaves the source as it was");
}

#[test]
fn move_symbol_move_dry_run() {
    let src = "func helper():\n\tpass\n\n\nfunc keep():\n\tpass\n";
    let root = parse(src);
    let p = plan_move_symbol(src, &root, "helper", None, None, None, &[]).unwrap();
    assert!(p.new_source.contains("keep"));
    assert!(src.contains("helper"), "planning leaves the source as it was");
}

#[test]
fn refactor_move_correct_spacing() {
    let (_, target) = move_sym("moved", "func moved():\n\tpass\n", Some("var x = 1\n"), None, None).unwrap();
    assert!(
        target.contains("\n\n\nfunc moved()"),
        "should have 2 blank lines before function, got: {:?}",
        target
    );
}

#[test]
fn move_symbol_move_correct_spacing() {
    let (_, target) = move_sym("moved", "func moved():\n\tpass\n", Some("var x = 1\n"), None, None).unwrap();
    assert!(
        target.contains("\n\n\nfunc moved()"),
        "should have 2 blank lines before function, got: {:?}",
        target
    );
}

#[test]
fn refactor_move_from_inner_class_to_top_level() {
    let (_, target) = move_sym(
        "helper",
        "class Inner:\n\tvar keep = 1\n\tfunc helper():\n\t\tpass\n",
        None,
        Some("Inner"),
        None,
    )
    .unwrap();
    assert!(target.contains("func helper():"), "should be at top-level indent, got: {target}");
    assert!(!target.contains("\tfunc helper"), "should NOT have tab-indented func, got: {target}");
}

#[test]
fn move_symbol_move_from_inner_class_to_top_level() {
    let (_, target) = move_sym(
        "helper",
        "class Inner:\n\tvar keep = 1\n\tfunc helper():\n\t\tpass\n",
        None,
        Some("Inner"),
        None,
    )
    .unwrap();
    assert!(target.contains("func helper():"), "should be at top-level indent, got: {target}");
    assert!(!target.contains("\tfunc helper"), "should NOT have tab-indented func, got: {target}");
}

#[test]
fn refactor_move_top_level_into_class() {
    let (_, target) = move_sym(
        "helper",
        "func helper():\n\tpass\n",
        Some("class Target:\n\tvar x = 1\n"),
        None,
        Some("Target"),
    )
    .unwrap();
    assert!(target.contains("\tfunc helper():"), "should be indented in class, got: {target}");
}

#[test]
fn move_symbol_move_top_level_into_class() {
    let (_, target) = move_sym(
        "helper",
        "func helper():\n\tpass\n",
        Some("class Target:\n\tvar x = 1\n"),
        None,
        Some("Target"),
    )
    .unwrap();
    assert!(target.contains("\tfunc helper():"), "should be indented in class, got: {target}");
}

fn workspace(files: &[(&str, &str)]) -> Vec<WorkspaceFile> {
    files
        .iter()
        .map(|(p, s)| WorkspaceFile { relative_path: p.to_string(), source: s.to_string(), root: Some(parse(s)) })
        .collect()
}

#[test]
fn refactor_move_detects_preloads_to_source_file() {
    let files = workspace(&[
        ("source.gd", "func helper():\n\tpass\n"),
        ("other.gd", "var x = preload(\"res://source.gd\")\nfunc _ready():\n\tpass\n"),
    ]);
    let preloads = find_preloads_to_file("res://source.gd", &files);
    assert!(!preloads.is_empty(), "should detect preload to source file");
    assert_eq!(preloads[0].path, "res://source.gd");
    assert_eq!(preloads[0].file, "other.gd");
    assert_eq!(preloads[0].line, 1);
}

#[test]
fn move_symbol_move_detects_preloads_to_source_file() {
    let files = workspace(&[
        ("source.gd", "func helper():\n\tpass\n"),
        ("other.gd", "var x = preload(\"res://source.gd\")\nfunc _ready():\n\tpass\n"),
    ]);
    let preloads = find_preloads_to_file("res://source.gd", &files);
    assert!(!preloads.is_empty(), "should detect preload to source file");
    assert_eq!(preloads[0].path, "res://source.gd");
    assert_eq!(preloads[0].file, "other.gd");
    assert_eq!(preloads[0].line, 1);
}

#[test]
fn refactor_move_no_preloads_unrelated() {
    let files = workspace(&[
        ("source.gd", "func helper():\n\tpass\n"),
        ("other.gd", "var x = preload(\"res://other_thing.gd\")\n"),
    ]);
    assert!(find_preloads_to_file("res://source.gd", &files).is_empty(), "should not list unrelated preloads");
}

#[test]
fn move_symbol_move_no_preloads_unrelated() {
    let files = workspace(&[
        ("source.gd", "func helper():\n\tpass\n"),
        ("other.gd", "var x = preload(\"res://other_thing.gd\")\n"),
    ]);
    assert!(find_preloads_to_file("res://source.gd", &files).is_empty(), "should not list unrelated preloads");
}

#[test]
fn refactor_move_self_ref_warning_missing_member() {
    let src = "class Src:\n\tvar health = 100\n\tfunc take_damage():\n\t\tself.health -= 10\n";
    let tsrc = "class Dst:\n\tvar armor = 50\n";
    let (root, troot) = (parse(src), parse(tsrc));
    let p = plan_move_symbol(src, &root, "take_damage", Some("Src"), Some("Dst"), Some((tsrc, &troot)), &[]).unwrap();
    assert!(
        p.warnings.iter().any(|w| w.contains("self.health")),
        "should warn about missing self.health, got: {:?}",
        p.warnings
    );
}

#[test]
fn move_symbol_move_self_ref_warning_missing_member() {
    let src = "class Src:\n\tvar health = 100\n\tfunc take_damage():\n\t\tself.health -= 10\n";
    let tsrc = "class Dst:\n\tvar armor = 50\n";
    let (root, troot) = (parse(src), parse(tsrc));
    let p = plan_move_symbol(src, &root, "take_damage", Some("Src"), Some("Dst"), Some((tsrc, &troot)), &[]).unwrap();
    assert!(
        p.warnings.iter().any(|w| w.contains("self.health")),
        "should warn about missing self.health, got: {:?}",
        p.warnings
    );
}

#[test]
fn refactor_move_self_ref_no_warning_when_present() {
    let src = "class Src:\n\tvar health = 100\n\tfunc take_damage():\n\t\tself.health -= 10\n";
    let tsrc = "class Dst:\n\tvar health = 200\n";
    let (root, troot) = (parse(src), parse(tsrc));
    let p = plan_move_symbol(src, &root, "take_damage", Some("Src"), Some("Dst"), Some((tsrc, &troot)), &[]).unwrap();
    assert!(
        !p.warnings.iter().any(|w| w.contains("self.health")),
        "should NOT warn when member exists, got: {:?}",
        p.warnings
    );
}

#[test]
fn move_symbol_move_self_ref_no_warning_when_present() {
    let src = "class Src:\n\tvar health = 100\n\tfunc take_damage():\n\t\tself.health -= 10\n";
    let tsrc = "class Dst:\n\tvar health = 200\n";
    let (root, troot) = (parse(src), parse(tsrc));
    let p = plan_move_symbol(src, &root, "take_damage", Some("Src"), Some("Dst"), Some((tsrc, &troot)), &[]).unwrap();
    assert!(
        !p.warnings.iter().any(|w| w.contains("self.health")),
        "should NOT warn when member exists, got: {:?}",
        p.warnings
    );
}

#[test]
fn refactor_move_no_self_refs_no_warning() {
    let src = "class Src:\n\tfunc helper():\n\t\tprint(\"hello\")\n";
    let tsrc = "class Dst:\n\tvar x = 1\n";
    let (root, troot) = (parse(src), parse(tsrc));
    let p = plan_move_symbol(src, &root, "helper", Some("Src"), Some("Dst"), Some((tsrc, &troot)), &[]).unwrap();
    assert!(!p.warnings.iter().any(|w| w.contains("self.")), "no self refs means no self-ref warnings");
}

#[test]
fn move_symbol_move_no_self_refs_no_warning() {
    let src = "class Src:\n\tfunc helper():\n\t\tprint(\"hello\")\n";
    let tsrc = "class Dst:\n\tvar x = 1\n";
    let (root, troot) = (parse(src), parse(tsrc));
    let p = plan_move_symbol(src, &root, "helper", Some("Src"), Some("Dst"), Some((tsrc, &troot)), &[]).unwrap();
    assert!(!p.warnings.iter().any(|w| w.contains("self.")), "no self refs means no self-ref warnings");
}

// ── invert-if ──────────────────────────────────────────────────────────────

use gd::refactor::invert_if::{invert_if_source, negate_condition, InvertIfError};

fn invert(src: &str, line: usize) -> Result<String, InvertIfError> {
    let root = parse(src);
    let p = invert_if_source(src, &root, line, false)?;
    Ok(p.new_source.unwrap())
}

#[test]
fn invert_simple_if_else() {
    let content = invert("func foo():\n\tif not is_alive:\n\t\treturn\n\telse:\n\t\ttake_damage(10)\n", 2).unwrap();
    assert!(content.contains("if is_alive:"), "should negate `not is_alive` to `is_alive`, got:\n{content}");
}

#[test]
fn invert_comparison() {
    let content = invert(
        "func foo(x):\n\tif x > 0:\n\t\tprint(\"positive\")\n\telse:\n\t\tprint(\"non-positive\")\n",
        2,
    )
    .unwrap();
    assert!(content.contains("if x <= 0:"), "should flip > to <=, got:\n{content}");
    let lines: Vec<&str> = content.lines().collect();
    let if_idx = lines.iter().position(|l| l.contains("if x <= 0:")).unwrap();
    assert!(lines[if_idx + 1].contains("non-positive"), "if body should now have old else content, got:\n{content}");
}

#[test]
fn invert_de_morgan_and() {
    let content = invert("func foo(a, b):\n\tif a and b:\n\t\tprint(\"both\")\n\telse:\n\t\tprint(\"not both\")\n", 2).unwrap();
    assert!(content.contains("if not a or not b:"), "should apply De Morgan's law, got:\n{content}");
}

#[test]
fn invert_de_morgan_or() {
    let content = invert("func foo(a, b):\n\tif a or b:\n\t\tprint(\"either\")\n\telse:\n\t\tprint(\"neither\")\n", 2).unwrap();
    assert!(content.contains("if not a and not b:"), "should apply De Morgan for or, got:\n{content}");
}

#[test]
fn invert_dry_run() {
    let src = "func foo():\n\tif true:\n\t\tpass\n\telse:\n\t\tpass\n";
    let root = parse(src);
    let p = invert_if_source(src, &root, 2, true).unwrap();
    assert!(p.new_source.is_none());
    assert_eq!(p.original_condition, "true");
    assert_eq!(p.inverted_condition, "false");
}

#[test]
fn invert_no_else_errors() {
    let r = invert("func foo():\n\tif true:\n\t\tpass\n", 2);
    assert!(r.is_err());
}

#[test]
fn invert_elif_chain() {
    let content = invert(
        "func foo(x):\n\tif x == 1:\n\t\tprint(\"one\")\n\telif x == 2:\n\t\tprint(\"two\")\n\telse:\n\t\tprint(\"other\")\n",
        2,
    )
    .unwrap();
    assert!(content.contains("if x == 2:"), "first elif should become new if, got:\n{content}");
    assert!(content.contains("elif x == 1:"), "original if should become elif, got:\n{content}");
}

#[test]
fn invert_boolean_literals() {
    let content = invert("func foo():\n\tif true:\n\t\tprint(\"yes\")\n\telse:\n\t\tprint(\"no\")\n", 2).unwrap();
    assert!(content.contains("if false:"), "true should become false, got:\n{content}");
}

#[test]
fn invert_not_equals() {
    let content = invert("func foo(x):\n\tif x != null:\n\t\tuse(x)\n\telse:\n\t\tprint(\"null\")\n", 2).unwrap();
    assert!(content.contains("if x == null:"), "!= should become ==, got:\n{content}");
}

#[test]
fn invert_top_level_if() {
    let content = invert("if Engine.is_editor_hint():\n\tpass\nelse:\n\trun_game()\n", 1).unwrap();
    assert!(content.contains("if not Engine.is_editor_hint():"), "should negate call, got:\n{content}");
}

#[test]
fn negate_double_not() {
    let full_source = "if not x:\n\tpass\nelse:\n\tpass\n";
    let root = parse(full_source);
    let if_node = &root.children[0];
    let condition = if_node
        .children
        .iter()
        .find(|c| c.is_named && !matches!(c.kind.as_str(), "body" | "elif_clause" | "else_clause" | "comment"))
        .unwrap();
    assert_eq!(negate_condition(condition, full_source), "x");
}

// ── name collisions ────────────────────────────────────────────────────────

use gd::refactor::collision::{check_collision, collect_scope_names, CollisionKind, ScopeNames};

/// The top-level function whose rows hold `row`, as the enclosing function.
fn scope_at(src: &str, row: usize) -> ScopeNames {
    let root = parse(src);
    let func = root
        .children
        .iter()
        .find(|c| c.kind == "function_definition" && c.start_row <= row && row <= c.end_row);
    collect_scope_names(&root, src, func, row)
}

#[test]
fn detects_local_collision() {
    let scope = scope_at("func foo():\n\tvar speed = 10\n\tprint(speed)\n", 2);
    assert_eq!(check_collision("speed", &scope), Some(CollisionKind::Local));
    assert_eq!(check_collision("unused", &scope), None);
}

#[test]
fn detects_param_collision() {
    let scope = scope_at("func foo(delta):\n\tpass\n", 1);
    assert_eq!(check_collision("delta", &scope), Some(CollisionKind::Local));
}

#[test]
fn detects_file_level_collision() {
    let scope = scope_at("var health = 100\nfunc foo():\n\tpass\n", 2);
    assert_eq!(check_collision("health", &scope), Some(CollisionKind::FileLevel));
    assert_eq!(check_collision("foo", &scope), Some(CollisionKind::FileLevel));
}

#[test]
fn detects_builtin_collision() {
    let scope = scope_at("func foo():\n\tpass\n", 1);
    assert_eq!(check_collision("Vector2", &scope), Some(CollisionKind::Builtin));
    assert_eq!(check_collision("Node", &scope), Some(CollisionKind::Builtin));
    assert_eq!(check_collision("self", &scope), Some(CollisionKind::Builtin));
}

#[test]
fn locals_respect_position() {
    let scope = scope_at("func foo():\n\tvar a = 1\n\tvar b = 2\n\tvar c = 3\n", 2);
    assert!(scope.locals.contains(&"a".to_string()));
    assert!(scope.locals.contains(&"b".to_string()));
    assert!(!scope.locals.contains(&"c".to_string()));
}

#[test]
fn for_iterator_is_local() {
    let scope = scope_at("func foo():\n\tfor item in items:\n\t\tpass\n", 2);
    assert!(scope.locals.contains(&"item".to_string()));
}

#[test]
fn no_collision_returns_none() {
    let scope = scope_at("func foo():\n\tvar x = 1\n", 1);
    assert_eq!(check_collision("totally_unique_name", &scope), None);
}

#[test]
fn enum_members_collected() {
    let scope = scope_at("enum State { IDLE, RUN }\nfunc foo():\n\tpass\n", 2);
    assert!(scope.file_level.contains(&"State".to_string()));
}

#[test]
fn outside_function_no_locals() {
    let scope = scope_at("var top = 1\n", 0);
    assert!(scope.locals.is_empty());
    assert!(scope.file_level.contains(&"top".to_string()));
}

// ── convert-node-path ──────────────────────────────────────────────────────

use gd::refactor::convert_node_path::{convert_node, find_get_node_or_call};

/// The node at a 0-based position and its ancestors, innermost first.
fn copy(n: &SyntaxNode) -> SyntaxNode {
    SyntaxNode {
        kind: n.kind.clone(),
        is_named: n.is_named,
        field: n.field.clone(),
        start_byte: n.start_byte,
        end_byte: n.end_byte,
        start_row: n.start_row,
        start_column: n.start_column,
        end_row: n.end_row,
        end_column: n.end_column,
        children: n.children.iter().map(copy).collect(),
    }
}

fn chain_at(root: &SyntaxNode, row: usize, col: usize) -> Vec<SyntaxNode> {
    let mut chain = vec![copy(root)];
    let mut cur = root;
    loop {
        let p = (row, col);
        let next = cur.children.iter().find(|c| {
            (c.start_row, c.start_column) <= p && p < (c.end_row, c.end_column)
        });
        match next {
            Some(c) => {
                chain.push(copy(c));
                cur = c;
            }
            None => break,
        }
    }
    chain.reverse();
    chain
}

/// Converts the node path at a 1-based line and column.
fn convert_at(src: &str, line: usize, column: usize) -> (String, String, String, String) {
    let root = parse(src);
    let chain = chain_at(&root, line - 1, column - 1);
    let (i, d) = find_get_node_or_call(&chain, src).expect("a node path at the position");
    let e = convert_node(src, &chain[i], d).expect("convertible");
    (e.original, e.converted, d.name().to_string(), e.new_source)
}

#[test]
fn dollar_to_get_node_simple() {
    let (_, converted, direction, content) = convert_at("func foo():\n\tvar node = $Sprite2D\n", 2, 13);
    assert_eq!(direction, "to-call");
    assert_eq!(converted, "get_node(\"Sprite2D\")");
    assert!(content.contains("get_node(\"Sprite2D\")"), "should convert $ to get_node(), got:\n{content}");
}

#[test]
fn dollar_to_get_node_quoted() {
    let (_, converted, direction, content) = convert_at("func foo():\n\tvar node = $\"Player/Sprite2D\"\n", 2, 13);
    assert_eq!(direction, "to-call");
    assert_eq!(converted, "get_node(\"Player/Sprite2D\")");
    assert!(content.contains("get_node(\"Player/Sprite2D\")"), "got:\n{content}");
}

#[test]
fn get_node_to_dollar_simple() {
    let (_, converted, direction, content) = convert_at("func foo():\n\tvar node = get_node(\"Sprite2D\")\n", 2, 13);
    assert_eq!(direction, "to-dollar");
    assert_eq!(converted, "$Sprite2D");
    assert!(content.contains("$Sprite2D"), "got:\n{content}");
}

#[test]
fn get_node_to_dollar_path() {
    let (_, converted, direction, content) =
        convert_at("func foo():\n\tvar node = get_node(\"Player/Sprite2D\")\n", 2, 13);
    assert_eq!(direction, "to-dollar");
    assert_eq!(converted, "$\"Player/Sprite2D\"");
    assert!(content.contains("$\"Player/Sprite2D\""), "got:\n{content}");
}

#[test]
fn get_node_to_dollar_relative() {
    let (_, converted, direction, content) = convert_at("func foo():\n\tvar node = get_node(\"../Sibling\")\n", 2, 13);
    assert_eq!(direction, "to-dollar");
    assert_eq!(converted, "$\"../Sibling\"");
    assert!(content.contains("$\"../Sibling\""), "got:\n{content}");
}

#[test]
fn convert_node_path_dry_run_no_modify() {
    let original = "func foo():\n\tvar node = $Sprite2D\n";
    let (orig_text, converted, direction, _) = convert_at(original, 2, 13);
    assert_eq!(direction, "to-call");
    assert_eq!(converted, "get_node(\"Sprite2D\")");
    assert_eq!(orig_text, "$Sprite2D");
}

// ── editing primitives ─────────────────────────────────────────────────────

use gd::refactor::edit::{edit_range, insert, replace_body, replace_symbol, EditError};

fn body_of(src: &str, name: &str, class: Option<&str>, new_body: &str) -> Result<String, EditError> {
    let root = parse(src);
    replace_body(src, &root, name, class, new_body)
}

fn symbol_of(src: &str, name: &str, class: Option<&str>, new_content: &str) -> Result<String, EditError> {
    let root = parse(src);
    replace_symbol(src, &root, name, class, new_content)
}

#[test]
fn replace_body_basic() {
    let content = body_of("extends Node\n\n\nfunc _ready():\n\tpass\n", "_ready", None, "\tprint(\"hello\")\n").unwrap();
    assert!(content.contains("print(\"hello\")"));
    assert!(!content.contains("\tpass"));
    assert!(content.contains("func _ready():"));
    assert_eq!(content, "extends Node\n\n\nfunc _ready():\n\tprint(\"hello\")\n\n");
}

#[test]
fn replace_body_dry_run() {
    let src = "extends Node\n\n\nfunc _ready():\n\tpass\n";
    let _ = body_of(src, "_ready", None, "\tprint(\"hello\")\n").unwrap();
    assert!(src.contains("\tpass"), "planning does not modify the source");
}

#[test]
fn replace_body_multiline() {
    let content =
        body_of("extends Node\n\n\nfunc move(delta):\n\tpass\n", "move", None, "\tvar speed = 10\n\tposition += speed * delta\n")
            .unwrap();
    assert!(content.contains("\tvar speed = 10"));
    assert!(content.contains("\tposition += speed * delta"));
}

#[test]
fn replace_body_in_class() {
    let content =
        body_of("extends Node\n\n\nclass Inner:\n\tfunc foo():\n\t\tpass\n", "foo", Some("Inner"), "\t\tprint(1)\n").unwrap();
    assert!(content.contains("\t\tprint(1)"));
}

#[test]
fn replace_body_non_function_rejected() {
    let r = body_of("extends Node\nvar speed = 10\n", "speed", None, "\t42\n");
    assert!(r.is_err());
    let msg = r.err().unwrap().message("player.gd");
    assert!(msg.contains("variable"));
}

#[test]
fn replace_body_constructor() {
    let content = body_of("extends Node\n\n\nfunc _init():\n\tpass\n", "_init", None, "\tprint(\"init\")\n").unwrap();
    assert!(content.contains("print(\"init\")"));
}

#[test]
fn replace_body_reindents_from_zero() {
    let content =
        body_of("extends Node\n\n\nfunc _ready():\n\tpass\n", "_ready", None, "print(\"hello\")\nprint(\"world\")\n").unwrap();
    assert!(content.contains("\tprint(\"hello\")"));
    assert!(content.contains("\tprint(\"world\")"));
}

#[test]
fn replace_body_rejects_signature_in_input() {
    let r = body_of("extends Node\n\n\nfunc _ready():\n\tpass\n", "_ready", None, "func _ready():\n\tprint(\"hello\")\n");
    assert!(r.is_err());
    let msg = r.err().unwrap().message("player.gd");
    assert!(msg.contains("function signature"), "expected signature error, got: {msg}");
}

#[test]
fn replace_body_rejects_static_func_signature() {
    let r = body_of("extends Node\n\n\nstatic func helper():\n\tpass\n", "helper", None, "static func helper():\n\tprint(1)\n");
    assert!(r.is_err());
    let msg = r.err().unwrap().message("player.gd");
    assert!(msg.contains("function signature"), "expected signature error, got: {msg}");
}

#[test]
fn insert_after() {
    let src = "extends Node\n\n\nfunc _ready():\n\tpass\n";
    let root = parse(src);
    let content = insert(src, &root, "_ready", true, None, "\nfunc _process(delta):\n\tpass\n").unwrap();
    assert!(content.contains("func _process(delta):"));
    let ready_pos = content.find("func _ready()").unwrap();
    let process_pos = content.find("func _process(delta)").unwrap();
    assert!(process_pos > ready_pos);
}

#[test]
fn insert_before() {
    let src = "extends Node\n\n\nfunc _ready():\n\tpass\n";
    let root = parse(src);
    let content = insert(src, &root, "_ready", false, None, "var speed = 10\n").unwrap();
    assert!(content.contains("var speed = 10"));
    let var_pos = content.find("var speed").unwrap();
    let ready_pos = content.find("func _ready()").unwrap();
    assert!(var_pos < ready_pos);
}

#[test]
fn insert_dry_run() {
    let src = "extends Node\n\n\nfunc _ready():\n\tpass\n";
    let root = parse(src);
    let content = insert(src, &root, "_ready", true, None, "\nfunc foo():\n\tpass\n").unwrap();
    assert!(content.contains("func foo()"));
    assert!(!src.contains("func foo()"), "planning does not modify the source");
}

#[test]
fn replace_symbol_var() {
    let content =
        symbol_of("extends Node\nvar speed = 10\n\n\nfunc _ready():\n\tpass\n", "speed", None, "var speed: float = 42.0\n").unwrap();
    assert!(content.contains("var speed: float = 42.0"));
    assert!(!content.contains("var speed = 10"));
}

#[test]
fn replace_symbol_function() {
    let content = symbol_of(
        "extends Node\n\n\nfunc old_func():\n\tvar x = 1\n\tprint(x)\n",
        "old_func",
        None,
        "func new_func():\n\tprint(\"replaced\")\n",
    )
    .unwrap();
    assert!(content.contains("func new_func():"));
    assert!(content.contains("print(\"replaced\")"));
    assert!(!content.contains("old_func"));
}

#[test]
fn replace_symbol_class_name_replaces_whole_file() {
    let content = symbol_of(
        "class_name Npc\nextends Node\n\n\nvar speed = 100\n\n\nfunc _ready():\n\tpass\n",
        "Npc",
        None,
        "class_name Npc\nextends Node\n\n\nvar speed = 200\n\n\nfunc _ready():\n\tprint(1)\n",
    )
    .unwrap();
    assert!(content.contains("var speed = 200"));
    assert!(content.contains("print(1)"));
    assert!(!content.contains("var speed = 100"));
    assert!(!content.contains("\tpass"));
}

#[test]
fn replace_symbol_inner_class_preserves_indent() {
    let content = symbol_of(
        "extends RefCounted\n\n\nclass Inner:\n\tvar name: String = \"\"\n\tvar value: int = 0\n\n\tfunc get_name() -> String:\n\t\treturn name\n\n\tfunc get_value() -> int:\n\t\treturn value\n\n\tfunc set_value(v: int) -> void:\n\t\tvalue = v\n\n\nfunc outer_func() -> void:\n\tpass\n",
        "get_name",
        Some("Inner"),
        "func get_name() -> Variant:\n\treturn name\n",
    )
    .unwrap();
    assert!(content.contains("\tfunc get_name() -> Variant:"), "got:\n{content}");
    assert!(content.contains("\t\treturn name"), "got:\n{content}");
    assert!(content.contains("\tfunc get_value() -> int:"), "got:\n{content}");
    assert!(content.contains("\tfunc set_value(v: int) -> void:"), "got:\n{content}");
    assert!(content.contains("\nfunc outer_func() -> void:"), "got:\n{content}");
}

#[test]
fn replace_symbol_dry_run() {
    let src = "extends Node\nvar speed = 10\n";
    let content = symbol_of(src, "speed", None, "var speed = 99\n").unwrap();
    assert!(content.contains("var speed = 99"));
    assert!(src.contains("var speed = 10"));
}

#[test]
fn edit_range_basic() {
    let content = edit_range("extends Node\nvar a = 1\nvar b = 2\nvar c = 3\n", 2, 3, "var x = 10\nvar y = 20\n").unwrap();
    assert!(content.contains("var x = 10"));
    assert!(content.contains("var y = 20"));
    assert!(!content.contains("var a = 1"));
    assert!(!content.contains("var b = 2"));
    assert!(content.contains("var c = 3"));
    assert_eq!(content, "extends Node\nvar x = 10\nvar y = 20\nvar c = 3\n");
}

#[test]
fn edit_range_dry_run() {
    let src = "extends Node\nvar a = 1\nvar b = 2\n";
    let content = edit_range(src, 2, 2, "var replaced = 99\n").unwrap();
    assert!(content.contains("var replaced = 99"));
    assert!(src.contains("var a = 1"));
}

#[test]
fn edit_range_invalid_lines() {
    let r = edit_range("extends Node\nvar a = 1\n", 3, 1, "x\n");
    assert!(r.is_err());
    assert_eq!(r.err().unwrap().message("player.gd"), "start-line (3) must be <= end-line (1)");
}

#[test]
fn edit_range_zero_line() {
    let r = edit_range("extends Node\nvar a = 1\n", 0, 1, "x\n");
    assert!(r.is_err());
    assert_eq!(r.err().unwrap().message("player.gd"), "line numbers are 1-based");
}

#[test]
fn edit_range_empty_file() {
    let content = edit_range("", 1, 1, "extends Node\n").unwrap();
    assert!(content.contains("extends Node"));
}

#[test]
fn edit_range_newline_only_file() {
    let content = edit_range("\n", 1, 1, "extends Node\nvar x = 1\n").unwrap();
    assert!(content.contains("extends Node"));
    assert!(content.contains("var x = 1"));
}

#[test]
fn edit_range_past_end_errors() {
    let r = edit_range("extends Node\n", 5, 6, "x\n");
    assert_eq!(r.err().unwrap().message("player.gd"), "start-line 5 exceeds file length (2 lines)");
}
