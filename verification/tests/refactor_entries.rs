use gd::refactor::convert_node_path::convert_node_path_at;
use gd::refactor::introduce_parameter::plan_introduce_parameter_at;
use gd::refactor::bulk_rename::{record_rename, RenameRecord};
use gd::refactor::encapsulate_field::plan_encapsulation_in;
use gd::refactor::edit::{insert_in, replace_body_in, replace_symbol_in};
use gd::refactor::invert_if::invert_if_in;
use gd::refactor::extract_method::{plan_extract_method_at, ExtractAtError};
use gd::refactor::inline_method::{call_target_at, plan_inline_at};
use gd::parse::{nodes_at, parse_fitting, parse_gdscript, tree_fits};
use gd::refactor::change_signature::{
    apply_signature_to_override, apply_signature_to_override_in, call_site_edits_in, override_files, ParamInfo, plan_change_signature_in, rename_in_body, IndexedClass,
};
use gd::refactor::convert_signal::{add_to_ready_in, ensure_ready_has_body_in};
use gd::refactor::delete_symbol::{plan_delete_in, remove_definition_in};
use gd::refactor::extract_class::{check_target_conflicts_in, find_extractions_in};
use gd::refactor::inline_delegate::plan_inline_delegate_in;
use gd::refactor::inline_variable::plan_inline_variable_at;
use gd::refactor::move_symbol::{moved_target_in, plan_move_symbol_in, update_caller_after_move};

fn class(name: Option<&str>, extends: Option<&str>, functions: &[&str]) -> IndexedClass {
    IndexedClass {
        class_name: name.map(|n| n.to_string()),
        extends: extends.map(|e| e.to_string()),
        functions: functions.iter().map(|f| f.to_string()).collect(),
    }
}

#[test]
fn parsed_tree_fits_its_text() {
    let src = "extends Node\nfunc _ready():\n\tprint(\"é\")\n";
    let root = parse_fitting(src).expect("a tree that fits");
    assert_eq!(root.kind, "source");
    assert!(tree_fits(src, &root));
    let raw = parse_gdscript(src).expect("a tree");
    assert_eq!(raw.end_byte, src.len());
}

#[test]
fn a_tree_of_another_text_does_not_fit() {
    let long = "func a():\n\tpass\n\nfunc b():\n\tpass\n";
    let root = parse_fitting(long).unwrap();
    assert!(!tree_fits("func a():\n", &root));
}

#[test]
fn chain_at_a_position_is_innermost_first() {
    let src = "func f():\n\tvar x = 1\n";
    let chain = nodes_at(src, 1, 5, 1, 5).expect("a chain");
    assert_eq!(chain[0].kind, "name");
    assert_eq!(chain.last().unwrap().kind, "source");
}

#[test]
fn change_sig_propagates_to_child_override() {
    let parent = "class_name Parent\nextends Node\nfunc attack(damage):\n\tprint(damage)\n";
    let child = "class_name Child\nextends Parent\nfunc attack(damage):\n\tprint(damage * 2)\n";
    let adds = vec!["multiplier: float = 1.0".to_string()];
    let plan = plan_change_signature_in(parent, "attack", None, &adds, &[], &[], None).unwrap().unwrap();
    let index = vec![
        class(Some("Parent"), Some("Node"), &["attack"]),
        class(Some("Child"), Some("Parent"), &["attack"]),
    ];
    let overrides = override_files(&index, 0, "attack", None);
    assert_eq!(overrides, vec![1]);
    let root = parse_fitting(child).unwrap();
    let changed = apply_signature_to_override(child, &root, "attack", &plan.params).unwrap();
    let child = rename_in_body(&changed, "attack", &plan.renames).unwrap();
    assert!(
        child.contains("func attack(damage, multiplier: float = 1.0)"),
        "child override should get new param, got: {child}"
    );
}

#[test]
fn change_sig_no_override_for_non_class_file() {
    let index = vec![class(None, Some("Node"), &["attack"])];
    assert!(override_files(&index, 0, "attack", None).is_empty());
}

#[test]
fn overrides_follow_the_extends_chain() {
    let index = vec![
        class(Some("Base"), Some("Node"), &["hit"]),
        class(Some("Mid"), Some("Base"), &[]),
        class(None, Some("Mid"), &["hit"]),
        class(Some("Other"), Some("Node"), &["hit"]),
    ];
    assert_eq!(override_files(&index, 0, "hit", None), vec![2]);
    assert!(override_files(&index, 0, "hit", Some("Inner")).is_empty());
    assert!(override_files(&index, 9, "hit", None).is_empty());
}

#[test]
fn overrides_stop_on_an_extends_cycle() {
    let index = vec![
        class(Some("A"), Some("B"), &["f"]),
        class(Some("B"), Some("A"), &["f"]),
        class(Some("T"), Some("Node"), &["f"]),
    ];
    assert!(override_files(&index, 2, "f", None).is_empty());
}

#[test]
fn renaming_in_body_leaves_the_signature() {
    let src = "func f(a):\n\treturn a + 1\n";
    let pairs = vec![("a".to_string(), "b".to_string())];
    assert_eq!(rename_in_body(src, "f", &pairs).unwrap(), "func f(a):\n\treturn b + 1\n");
    assert_eq!(rename_in_body(src, "g", &pairs).unwrap(), src);
    assert_eq!(rename_in_body(src, "f", &[]).unwrap(), src);
}

#[test]
fn deleting_in_a_text_parses_it() {
    let src = "var a = 1\n\nfunc f():\n\tpass\n";
    let plan = plan_delete_in(src, Some("f"), None, None).unwrap().unwrap();
    assert_eq!(plan.symbol, "f");
    assert_eq!(plan.new_source, "var a = 1\n\n");
    let e = plan_delete_in(src, Some("g"), None, None).unwrap();
    assert!(e.is_err());
}

#[test]
fn deleting_an_enum_member_in_a_text() {
    let src = "enum State { IDLE, RUN, JUMP }\n";
    let plan = plan_delete_in(src, Some("State.RUN"), None, None).unwrap().unwrap();
    assert_eq!(plan.symbol, "State.RUN");
    assert_eq!(plan.kind, "enum_member");
    assert!(!plan.new_source.contains("RUN"));
}

#[test]
fn removing_a_definition_in_a_text() {
    let src = "func f():\n\tpass\n\n\nfunc g():\n\tpass\n";
    assert_eq!(remove_definition_in(src, "f").unwrap(), "\n\nfunc g():\n\tpass\n");
}

#[test]
fn inline_delegate_in_a_text() {
    let src = "func f(x):\n\treturn g(x)\n\nfunc g(x):\n\treturn x\n\nfunc h():\n\tf(1)\n";
    let plan = plan_inline_delegate_in(src, "f", &[], false).unwrap().unwrap();
    assert_eq!(plan.delegate_target, "g");
    assert_eq!(plan.call_sites_replaced, 1);
    assert!(plan.function_deleted);
}

#[test]
fn extract_class_in_a_text() {
    let src = "var hp = 3\n\nfunc heal():\n\thp += 1\n";
    let names = vec!["heal".to_string()];
    let ex = find_extractions_in(src, &names).unwrap().unwrap();
    assert_eq!(ex.len(), 1);
    assert_eq!(ex[0].kind, "function");
    let conflict = check_target_conflicts_in("func heal():\n\tpass\n", &ex).unwrap();
    assert_eq!(conflict.unwrap_err(), "target already contains a declaration named 'heal'");
    assert!(check_target_conflicts_in("var x = 1\n", &ex).unwrap().is_ok());
}

#[test]
fn move_in_texts() {
    let src = "func a():\n\tpass\n\nfunc b():\n\tpass\n";
    let plan = plan_move_symbol_in(src, "b", None, None, Some("var z = 1\n"), &[]).unwrap().unwrap();
    assert_eq!(plan.new_source, "func a():\n\tpass\n\n");
    let target = moved_target_in(Some("var z = 1\n"), None, &plan.node_kind, &plan.block).unwrap().unwrap();
    assert!(target.starts_with("var z = 1\n"));
    assert!(target.contains("func b():\n\tpass\n"));
    let dup = plan_move_symbol_in(src, "b", None, None, Some("func b():\n\tpass\n"), &[]).unwrap();
    assert!(dup.is_err());
}

#[test]
fn inline_variable_at_a_position() {
    let src = "func f():\n\tvar x = 2\n\tprint(x)\n";
    let plan = plan_inline_variable_at(src, 2, 6).unwrap().unwrap();
    assert_eq!(plan.variable, "x");
    assert_eq!(plan.expression, "2");
    assert_eq!(plan.reference_count, 1);
    assert!(plan.new_source.contains("print(2)"));
}

#[test]
fn ready_edits_in_a_text() {
    let src = "func _ready():\n\tpass\n";
    let added = add_to_ready_in(src, "a.connect(b)").unwrap().unwrap();
    assert!(added.contains("\ta.connect(b)"));
    let bare = "func _ready():\n";
    let filled = ensure_ready_has_body_in(bare).unwrap();
    assert!(filled.contains("pass"));
}

#[test]
fn caller_gets_the_new_preload_after_the_old() {
    let content = "const A = preload(\"res://a.gd\")\nvar x = 1\n";
    let (text, added) = update_caller_after_move(content, 1, "res://a.gd", "res://b.gd").unwrap();
    assert_eq!(added, "const A = preload(\"res://b.gd\")");
    assert_eq!(text, "const A = preload(\"res://a.gd\")\nconst A = preload(\"res://b.gd\")\nvar x = 1\n");
    assert!(update_caller_after_move(content, 2, "res://a.gd", "res://b.gd").is_none());
    assert!(update_caller_after_move(content, 9, "res://a.gd", "res://b.gd").is_none());
}

#[test]
fn extract_method_at_lines() {
    let src = "func f():\n\tvar a = 1\n\tprint(a)\n";
    let found = plan_extract_method_at(src, 3, 3, "show").unwrap().unwrap();
    assert_eq!(found.extraction.params.len(), 1);
    assert_eq!(found.extraction.params[0].name, "a");
    assert_eq!(found.plan.call_site.trim(), "show(a)");
    assert!(found.plan.new_source.contains("func show(a):\n\tprint(a)\n"));
    let outside = "var top = 1\n";
    match plan_extract_method_at(outside, 1, 1, "g").unwrap() {
        Err(ExtractAtError::NoFunction) => {}
        _ => panic!("no function encloses line 1"),
    }
}

#[test]
fn inline_method_at_a_call() {
    let src = "func add(a, b):\n\treturn a + b\n\nfunc main():\n\tvar x = add(1, 2)\n";
    let target = call_target_at(src, 5, 10).unwrap().unwrap();
    assert_eq!(target.method_name, "add");
    let found = plan_inline_at(src, 5, 10, None, None, &[]).unwrap().unwrap();
    assert!(found.plan.new_source.contains("var x = 1 + 2"));
    assert!(found.can_delete);
    let miss = call_target_at(src, 2, 2).unwrap();
    assert!(miss.is_err());
}

#[test]
fn call_sites_of_a_file_get_the_new_arguments() {
    let cs = "func main():\n\tattack(1)\n\tattack(2)\n";
    let old = vec![ParamInfo { name: "damage".to_string(), type_hint: None, default: None }];
    let new = vec![
        ParamInfo { name: "damage".to_string(), type_hint: None, default: None },
        ParamInfo { name: "multiplier".to_string(), type_hint: Some("float".to_string()), default: Some("1.0".to_string()) },
    ];
    let adds = vec!["multiplier: float = 1.0".to_string()];
    let (edits, _warnings) = call_site_edits_in(cs, &[(1, 1), (2, 1), (0, 0)], &old, &new, &[], &adds, &[], None);
    assert_eq!(edits.len(), 2);
    assert!(edits[0].0 > edits[1].0);
    let out = override_source_after(cs, &edits);
    assert!(out.contains("attack(1, 1.0)"), "got: {out}");
    assert!(out.contains("attack(2, 1.0)"), "got: {out}");
}

fn override_source_after(cs: &str, edits: &[(usize, usize, String)]) -> String {
    gd::edits::apply_edits(cs, edits)
}

#[test]
fn override_in_a_text_gets_the_new_parameters() {
    let child = "class_name Child\nextends Parent\nfunc attack(damage):\n\tpass\n";
    let out = apply_signature_to_override_in(child, "attack", "damage, bonus").unwrap().unwrap();
    assert!(out.contains("func attack(damage, bonus):"));
}

#[test]
fn edits_in_a_text_parse_it() {
    let src = "func f():\n\tpass\n";
    let body = replace_body_in(src, "f", None, "return 1").unwrap().unwrap();
    assert!(body.starts_with("func f():\n\treturn 1\n"));
    assert!(!body.contains("pass"));
    let added = insert_in(src, "f", false, None, "var a = 1").unwrap().unwrap();
    assert!(added.starts_with("var a = 1\n"));
    let replaced = replace_symbol_in(src, "f", None, "func f():\n\treturn 2").unwrap().unwrap();
    assert!(replaced.contains("return 2"));
}

#[test]
fn invert_if_in_a_text() {
    let src = "func f(x):\n\tif x > 1:\n\t\ta()\n\telse:\n\t\tb()\n";
    let plan = invert_if_in(src, 2, false).unwrap().unwrap();
    assert_eq!(plan.original_condition, "x > 1");
    assert_eq!(plan.inverted_condition, "x <= 1");
    assert!(plan.new_source.unwrap().contains("if x <= 1:"));
}

#[test]
fn encapsulate_in_a_text() {
    let src = "var speed = 10\n";
    let (line, plan) = plan_encapsulation_in(src, "speed", false).unwrap().unwrap();
    assert_eq!(line, 1);
    assert!(plan.new_source.contains("set(value):"));
    assert!(plan_encapsulation_in(src, "missing", false).unwrap().is_err());
}

#[test]
fn bulk_rename_records_each_pair() {
    let skipped = record_rename("a", "b", &Err("symbol 'a' not found".to_string()), None).unwrap();
    assert!(matches!(skipped, RenameRecord::Skipped(ref k) if k.reason == "symbol 'a' not found"));
    let none = record_rename("a", "b", &Ok((0, 4)), None).unwrap();
    assert!(matches!(none, RenameRecord::Skipped(ref k) if k.reason == "no renameable symbol 'a' found"));
    let made = record_rename("a", "b", &Ok((0, 4)), Some(&[2, 3])).unwrap();
    assert!(matches!(made, RenameRecord::Renamed(ref e) if e.occurrences == 5 && e.new_name == "b"));
    assert!(record_rename("a", "b", &Ok((0, 4)), Some(&[u32::MAX as usize, 1])).is_none());
}

#[test]
fn node_path_at_a_position() {
    let src = "func _ready():\n\tvar n = $Player\n";
    let (_, converted) = convert_node_path_at(src, 2, 11).unwrap().expect("a node path");
    let edit = converted.unwrap();
    assert_eq!(edit.original, "$Player");
    assert!(edit.new_source.contains("get_node(\"Player\")"));
    assert!(convert_node_path_at(src, 1, 1).unwrap().is_none());
}

#[test]
fn introduce_parameter_at_a_selection() {
    let src = "func attack():\n\tvar hp = 42\n";
    let plan = plan_introduce_parameter_at(src, 2, 11, 13, "damage", None, None).unwrap().unwrap();
    assert_eq!(plan.expression, "42");
    assert!(plan.replaced_source.contains("var hp = damage"));
}

#[test]
fn overrides_never_list_the_changed_script() {
    let index = vec![class(Some("T"), Some("T"), &["f"]), class(Some("U"), Some("T"), &["f"])];
    assert_eq!(override_files(&index, 0, "f", None), vec![1]);
}
