use gd::edits::edits_applicable;
use gd::refactor::bulk_rename::{count_distinct_files, count_occurrences, no_renameable_symbol, rename_position};
use gd::refactor::convert_signal::{find_connection, new_connect_call, SceneConnection};
use gd::refactor::delete_symbol::{remove_named_definition, ReferenceHit};
use gd::refactor::inline_delegate::{plan_inline_delegate, replace_call_sites};
use gd::refactor::introduce_parameter::{add_parameter, can_add_parameter, plan_introduce_parameter};
use gd::refactor::introduce_variable::{
    apply_introduce, build_declaration, can_introduce, collect_matching_expressions, collect_replacements,
    find_containing_statement, is_assignment_target, is_upper_snake_case, locate_expression, replace_all_scope,
    replacement_count, variable_warnings, MatchSite,
};
use gd::refactor::collision::CollisionKind;
use gd::refactor::{declaration_full_range, find_declaration_by_name};
use gd::syntax::SyntaxNode;

fn convert(cursor: &mut tree_sitter::TreeCursor, field: Option<&str>) -> SyntaxNode {
    let node = cursor.node();
    let mut children = Vec::new();
    if cursor.goto_first_child() {
        loop {
            let f = cursor.field_name();
            children.push(convert(cursor, f));
            if !cursor.goto_next_sibling() {
                break;
            }
        }
        cursor.goto_parent();
    }
    SyntaxNode {
        kind: node.kind().to_string(),
        is_named: node.is_named(),
        field: field.map(|f| f.to_string()),
        start_byte: node.start_byte(),
        end_byte: node.end_byte(),
        start_row: node.start_position().row,
        start_column: node.start_position().column,
        end_row: node.end_position().row,
        end_column: node.end_position().column,
        children,
    }
}

fn parse(src: &str) -> SyntaxNode {
    let mut parser = tree_sitter::Parser::new();
    parser.set_language(&tree_sitter_gdscript::LANGUAGE.into()).expect("load grammar");
    let tree = parser.parse(src, None).expect("parse");
    let mut cursor = tree.walk();
    convert(&mut cursor, None)
}

fn copy(n: &SyntaxNode) -> SyntaxNode {
    SyntaxNode {
        kind: n.kind.clone(),
        is_named: n.is_named,
        field: n.field.clone(),
        start_byte: n.start_byte,
        end_byte: n.end_byte,
        start_row: n.start_row,
        start_column: n.start_column,
        end_row: n.end_row,
        end_column: n.end_column,
        children: n.children.iter().map(copy).collect(),
    }
}

/// The nodes that span the 0-based range on `row` from `col` to `end_col`,
/// innermost first.
fn chain_for_range(root: &SyntaxNode, row: usize, col: usize, end_col: usize) -> Vec<SyntaxNode> {
    let mut chain = vec![copy(root)];
    let mut cur = root;
    loop {
        let next = cur.children.iter().find(|c| {
            (c.start_row, c.start_column) <= (row, col)
                && (row, end_col) <= (c.end_row, c.end_column)
                && (row, col) < (c.end_row, c.end_column)
        });
        match next {
            Some(c) => {
                chain.push(copy(c));
                cur = c;
            }
            None => break,
        }
    }
    chain.reverse();
    chain
}

// ── Declaration ranges with annotations ────────────────────────────────────

fn full_range_text(src: &str, name: &str) -> String {
    let root = parse(src);
    let node = find_declaration_by_name(&root, src, name).expect("declared");
    let (start, end) = declaration_full_range(node, src);
    src[start..end].to_string()
}

#[test]
fn full_range_annotation_inline() {
    let src = "@export var speed = 10\n";
    assert_eq!(full_range_text(src, "speed"), "@export var speed = 10\n");
}

#[test]
fn full_range_annotation_separate_line() {
    let src = "@rpc(\"any_peer\")\nfunc sync_pos(pos):\n\tpass\n";
    assert_eq!(full_range_text(src, "sync_pos"), "@rpc(\"any_peer\")\nfunc sync_pos(pos):\n\tpass\n");
}

#[test]
fn full_range_doc_comment_then_annotation() {
    let src = "## Speed property\n@export\nvar speed = 10\n";
    assert_eq!(full_range_text(src, "speed"), "## Speed property\n@export\nvar speed = 10\n");
}

#[test]
fn full_range_multiple_annotations() {
    let src = "@export\n@onready\nvar timer = null\n";
    assert_eq!(full_range_text(src, "timer"), "@export\n@onready\nvar timer = null\n");
}

// ── inline-delegate ────────────────────────────────────────────────────────

/// Inline the delegate `name`: the plan, and the source left (unchanged on a dry run).
fn inline_delegate_in(src: &str, name: &str, dry_run: bool) -> Result<(gd::refactor::inline_delegate::DelegatePlan, String), String> {
    let root = parse(src);
    let plan = plan_inline_delegate(src, &root, name, &[], dry_run)?;
    if dry_run {
        return Ok((plan, src.to_string()));
    }
    assert!(edits_applicable(src, &plan.edits));
    let replaced = replace_call_sites(src, &plan.edits);
    let root2 = parse(&replaced);
    let out = remove_named_definition(&replaced, &root2, name);
    Ok((plan, out))
}

#[test]
fn inline_void_delegate() {
    let src = "var weapon = null\n\n\nfunc attack():\n\tweapon.fire()\n\n\nfunc _ready():\n\tattack()\n";
    let (plan, content) = inline_delegate_in(src, "attack", false).unwrap();
    assert_eq!(plan.delegate_target, "weapon.fire");
    assert_eq!(plan.call_sites_replaced, 1);
    assert!(plan.function_deleted);
    assert!(content.contains("weapon.fire()"), "should replace with delegate target, got: {content}");
    assert!(!content.contains("func attack()"), "delegate should be deleted, got: {content}");
}

#[test]
fn inline_return_delegate() {
    let src = "var stats = null\n\n\nfunc get_health():\n\treturn stats.get_health()\n\n\nfunc _ready():\n\tvar h = get_health()\n";
    let (plan, content) = inline_delegate_in(src, "get_health", false).unwrap();
    assert_eq!(plan.delegate_target, "stats.get_health");
    assert!(content.contains("var h = stats.get_health()"), "should replace call with delegate, got: {content}");
}

#[test]
fn inline_delegate_with_args() {
    let src = "var dmg = null\n\n\nfunc take_damage(amount, type):\n\tdmg.apply(amount, type)\n\n\nfunc _ready():\n\ttake_damage(10, \"fire\")\n";
    let (plan, content) = inline_delegate_in(src, "take_damage", false).unwrap();
    assert_eq!(plan.delegate_target, "dmg.apply");
    assert!(content.contains("dmg.apply(10, \"fire\")"), "should replace call with delegate args, got: {content}");
}

#[test]
fn inline_delegate_not_passthrough() {
    let src = "func foo(a, b):\n\treturn bar.baz(b, a)\n\n\nfunc _ready():\n\tfoo(1, 2)\n";
    let result = inline_delegate_in(src, "foo", false);
    assert!(result.is_err(), "reordered args should not be a delegate");
    assert_eq!(result.err().unwrap(), "not a pure delegate: arguments are not forwarded in order");
}

#[test]
fn inline_delegate_not_single_statement() {
    let src = "func foo():\n\tprint(1)\n\tbar.baz()\n\n\nfunc _ready():\n\tfoo()\n";
    let result = inline_delegate_in(src, "foo", false);
    assert!(result.is_err(), "multi-statement should not be a delegate");
    assert_eq!(result.err().unwrap(), "not a delegate: function has 2 statement(s), expected 1");
}

#[test]
fn inline_delegate_dry_run() {
    let src = "var w = null\n\n\nfunc attack():\n\tw.fire()\n\n\nfunc _ready():\n\tattack()\n";
    let (plan, content) = inline_delegate_in(src, "attack", true).unwrap();
    assert!(!plan.function_deleted);
    assert!(content.contains("func attack()"), "dry run should not modify");
}

#[test]
fn inline_delegate_warns_without_call_sites() {
    let src = "var w = null\n\n\nfunc attack():\n\tw.fire()\n";
    let root = parse(src);
    let refs = vec![ReferenceHit {
        file: "enemy.gd".to_string(),
        same_file: false,
        line: 3,
        character: 1,
        end_line: 3,
        end_character: 7,
    }];
    let plan = plan_inline_delegate(src, &root, "attack", &refs, false).unwrap();
    assert_eq!(plan.call_sites_replaced, 0);
    assert!(!plan.function_deleted);
    assert_eq!(
        plan.warnings,
        vec!["no call sites found in this file".to_string(), "1 cross-file reference(s) not updated".to_string()]
    );
}

#[test]
fn inline_delegate_not_a_function() {
    let src = "var attack = 3\n";
    let root = parse(src);
    let result = plan_inline_delegate(src, &root, "attack", &[], false);
    assert_eq!(result.err().unwrap(), "'attack' is not a function");
    let missing = plan_inline_delegate(src, &root, "defend", &[], false);
    assert_eq!(missing.err().unwrap(), "no function named 'defend' found");
}

#[test]
fn remove_named_definition_keeps_source_without_it() {
    let src = "var a = 1\n\n\n\n\nvar b = 2\n";
    let root = parse(src);
    assert_eq!(remove_named_definition(src, &root, "missing"), "var a = 1\n\n\nvar b = 2\n");
}

// ── bulk-rename ────────────────────────────────────────────────────────────

#[test]
fn bulk_rename_some_not_found() {
    let src = "var speed = 10\n";
    let root = parse(src);
    let renames = [("speed", "velocity"), ("nonexistent", "whatever")];
    let mut done = Vec::new();
    let mut skipped = Vec::new();
    for (old, new) in renames {
        match rename_position(&root, src, old) {
            Ok(pos) => done.push((old, new, pos)),
            Err(reason) => skipped.push((old, new, reason)),
        }
    }
    assert_eq!(done.len(), 1);
    assert_eq!(done[0].2, (0, 4));
    assert_eq!(skipped.len(), 1);
    assert_eq!(skipped[0].0, "nonexistent");
    assert_eq!(skipped[0].2, "symbol 'nonexistent' not found");
}

#[test]
fn bulk_rename_skips_constructor() {
    let src = "func _init():\n\tpass\n";
    let root = parse(src);
    assert_eq!(rename_position(&root, src, "_init").err().unwrap(), "cannot rename constructor (_init)");
    assert_eq!(no_renameable_symbol("x"), "no renameable symbol 'x' found");
}

#[test]
fn bulk_rename_tallies() {
    assert_eq!(count_occurrences(&[2, 3, 0]), 5);
    let files = vec!["a.gd".to_string(), "b.gd".to_string(), "a.gd".to_string()];
    assert_eq!(count_distinct_files(&files), 2);
}

// ── convert-signal ─────────────────────────────────────────────────────────

fn basic_connections() -> Vec<SceneConnection> {
    vec![SceneConnection {
        signal: "pressed".to_string(),
        from: "Button".to_string(),
        to: ".".to_string(),
        method: "_on_button_pressed".to_string(),
    }]
}

#[test]
fn to_code_rejects_duplicate_connect() {
    let conns = basic_connections();
    let i = find_connection(&conns, "pressed", "Button", "_on_button_pressed").unwrap();
    assert_eq!(conns[i].to, ".");
    let script = "func _ready():\n\t$Button.pressed.connect(_on_button_pressed)\n\nfunc _on_button_pressed():\n\tprint(\"pressed\")\n";
    let result = new_connect_call(script, "Button", "pressed", "_on_button_pressed");
    assert!(result.is_err());
    let msg = result.unwrap_err();
    assert!(msg.contains("duplicate"), "expected duplicate error, got: {msg}");
}

#[test]
fn missing_connection_errors() {
    let conns = basic_connections();
    let result = find_connection(&conns, "nonexistent", "Button", "_handler");
    assert!(result.is_err());
    assert_eq!(result.unwrap_err(), "connection not found: Button.nonexistent \u{2192} _handler");
}

#[test]
fn new_connect_call_when_absent() {
    let script = "func _ready():\n\tpass\n";
    assert_eq!(new_connect_call(script, "Button", "pressed", "_go").unwrap(), "$Button.pressed.connect(_go)");
}

// ── introduce-variable ─────────────────────────────────────────────────────

/// The nodes that contain the byte range `s..e`, innermost first.
fn chain_for_bytes(root: &SyntaxNode, s: usize, e: usize) -> Vec<SyntaxNode> {
    let mut chain = vec![copy(root)];
    let mut cur = root;
    loop {
        let next = cur.children.iter().find(|c| c.start_byte <= s && e <= c.end_byte);
        match next {
            Some(c) => {
                chain.push(copy(c));
                cur = c;
            }
            None => break,
        }
    }
    chain.reverse();
    chain
}

struct Introduced {
    expression: String,
    replacements: u32,
    warnings: Vec<String>,
    content: String,
}

#[allow(clippy::too_many_arguments)]
fn introduce_in(
    src: &str,
    line: usize,
    column: usize,
    end_column: usize,
    name: &str,
    as_const: bool,
    replace_all: bool,
    inferred: Option<&str>,
) -> Result<Introduced, String> {
    let root = parse(src);
    let chain = chain_for_range(&root, line - 1, column - 1, end_column - 1);
    let site = locate_expression(src, &chain, line, column, end_column)?;
    let mut matches = Vec::new();
    if replace_all {
        let scope = replace_all_scope(&chain, &root);
        let mut spans = Vec::new();
        collect_matching_expressions(scope, &site.kind, &site.expression, src, &mut spans);
        for (s, e) in spans {
            let c = chain_for_bytes(&root, s, e);
            let target = is_assignment_target(c.get(1), s, e);
            let statement_row = find_containing_statement(&c, 0).map(|i| c[i].start_row);
            matches.push(MatchSite { start: s, end: e, assignment_target: target, statement_row });
        }
    }
    let (reps, row) = collect_replacements(replace_all, site.start, site.end, site.statement_row, &matches);
    let func = gd::refactor::introduce_parameter::enclosing_function(&chain).map(|i| &chain[i]);
    let scope = gd::refactor::collision::collect_scope_names(&root, src, func, line - 1);
    let collision = gd::refactor::collision::check_collision(name, &scope);
    let warnings = variable_warnings(name, collision, as_const);
    let indent = gd::refactor::extract_method::get_indent(src, row);
    let decl = build_declaration(&indent, as_const, name, inferred, &site.expression);
    assert!(can_introduce(src, &reps, name, row));
    let content = apply_introduce(src, &reps, name, row, &decl);
    Ok(Introduced { expression: site.expression, replacements: replacement_count(reps.len()), warnings, content })
}

#[test]
fn introduce_simple_expression() {
    let src = "func process(delta):\n\tposition.x += speed * delta\n";
    let r = introduce_in(src, 2, 17, 29, "velocity", false, false, None).unwrap();
    assert_eq!(r.expression, "speed * delta");
    assert!(r.content.contains("var velocity = speed * delta"), "should insert variable, got: {}", r.content);
    assert!(r.content.contains("position.x += velocity"), "should replace expression, got: {}", r.content);
}

#[test]
fn introduce_as_const_literal() {
    let src = "func calc():\n\tvar x = speed * 0.15\n";
    let r = introduce_in(src, 2, 18, 22, "RATIO", true, false, Some("float")).unwrap();
    assert_eq!(r.expression, "0.15");
    assert!(r.content.contains("const RATIO: float = 0.15"), "should insert typed const, got: {}", r.content);
    assert!(r.content.contains("speed * RATIO"), "should replace expression, got: {}", r.content);
}

#[test]
fn introduce_as_const_naming_warning() {
    let src = "func calc():\n\tvar x = speed * 0.15\n";
    let r = introduce_in(src, 2, 18, 22, "ratio", true, false, Some("float")).unwrap();
    assert!(r.warnings.iter().any(|w| w.contains("UPPER_SNAKE_CASE")), "should warn about naming: {:?}", r.warnings);
}

#[test]
fn introduce_as_const_output_fields() {
    let src = "func calc():\n\tvar x = speed * 0.15\n";
    let r = introduce_in(src, 2, 18, 22, "RATIO", true, false, Some("float")).unwrap();
    assert_eq!(r.expression, "0.15");
    assert!(r.warnings.is_empty());
}

#[test]
fn introduce_call_expression() {
    let src = "func _ready():\n\tprint(get_health())\n";
    let r = introduce_in(src, 2, 8, 20, "hp", false, false, None).unwrap();
    assert!(r.content.contains("var hp = get_health()"), "should extract call, got: {}", r.content);
    assert!(r.content.contains("print(hp)"), "should replace with var, got: {}", r.content);
}

#[test]
fn replace_all_replaces_all_occurrences() {
    let src = "func calc(a, b):\n\tvar x = a + b\n\tvar y = a + b\n\tprint(a + b)\n";
    let r = introduce_in(src, 2, 10, 15, "sum", false, true, None).unwrap();
    assert_eq!(r.replacements, 3);
    assert!(r.content.contains("var sum = a + b"), "should have declaration, got: {}", r.content);
    assert_eq!(r.content.matches("sum").count(), 4, "got: {}", r.content);
    assert_eq!(r.content.matches("a + b").count(), 1, "got: {}", r.content);
}

#[test]
fn replace_all_false_only_replaces_selected() {
    let src = "func calc(a, b):\n\tvar x = a + b\n\tvar y = a + b\n\tprint(a + b)\n";
    let r = introduce_in(src, 2, 10, 15, "sum", false, false, None).unwrap();
    assert_eq!(r.replacements, 1);
    assert_eq!(r.content.matches("a + b").count(), 3, "got: {}", r.content);
}

#[test]
fn replace_all_declaration_before_earliest() {
    let src = "func calc(a, b):\n\tprint(a + b)\n\tvar x = a + b\n\tprint(a + b)\n";
    let r = introduce_in(src, 3, 10, 15, "sum", false, true, None).unwrap();
    assert_eq!(r.replacements, 3);
    let decl_pos = r.content.find("var sum").expect("should have declaration");
    let first_use = r.content.find("print(sum)").expect("should have first usage");
    assert!(decl_pos < first_use, "declaration should be before first use, got: {}", r.content);
}

#[test]
fn replace_all_respects_function_scope() {
    let src = "func calc(a, b):\n\tprint(a + b)\n\nfunc other(a, b):\n\tprint(a + b)\n";
    let r = introduce_in(src, 2, 8, 13, "sum", false, true, None).unwrap();
    assert_eq!(r.replacements, 1);
    assert!(r.content.contains("func other(a, b):\n\tprint(a + b)"), "got: {}", r.content);
}

#[test]
fn introduce_no_expression_error() {
    let src = "func calc():\n\tpass\n";
    let r = introduce_in(src, 2, 2, 6, "x", false, false, None);
    assert_eq!(r.err().unwrap(), "no expression found at 2:2-6");
}

#[test]
fn upper_snake_case_names() {
    assert!(is_upper_snake_case("MAX_SPEED"));
    assert!(is_upper_snake_case("PI"));
    assert!(is_upper_snake_case("A1_B2"));
    assert!(!is_upper_snake_case("max_speed"));
    assert!(!is_upper_snake_case("_MAX"));
    assert!(!is_upper_snake_case("1A"));
    assert!(!is_upper_snake_case(""));
    assert!(!is_upper_snake_case("ÄB"));
}

#[test]
fn collision_warning_text() {
    let w = variable_warnings("print", Some(CollisionKind::Builtin), false);
    assert_eq!(w, vec!["'print' collides with a GDScript builtin".to_string()]);
}

#[test]
fn replacement_count_saturates() {
    assert_eq!(replacement_count(3), 3);
    assert_eq!(replacement_count(usize::MAX), u32::MAX);
}

#[test]
fn collect_replacements_skips_targets_and_repeats() {
    let ms = vec![
        MatchSite { start: 10, end: 15, assignment_target: false, statement_row: Some(2) },
        MatchSite { start: 3, end: 8, assignment_target: false, statement_row: Some(1) },
        MatchSite { start: 20, end: 25, assignment_target: true, statement_row: Some(0) },
        MatchSite { start: 3, end: 8, assignment_target: false, statement_row: None },
    ];
    let (reps, row) = collect_replacements(true, 10, 15, 2, &ms);
    assert_eq!(reps, vec![(3, 8), (10, 15)]);
    assert_eq!(row, 1);
    let (only, row0) = collect_replacements(false, 10, 15, 2, &ms);
    assert_eq!(only, vec![(10, 15)]);
    assert_eq!(row0, 2);
}

// ── introduce-parameter ────────────────────────────────────────────────────

fn introduce_param_in(
    src: &str,
    line: usize,
    column: usize,
    end_column: usize,
    name: &str,
    hint: Option<&str>,
    inferred: Option<&str>,
) -> Result<(gd::refactor::introduce_parameter::ParameterPlan, String), String> {
    let root = parse(src);
    let chain = chain_for_range(&root, line - 1, column - 1, end_column - 1);
    let plan = plan_introduce_parameter(src, &chain, line, column, end_column, name, hint, inferred)?;
    let replaced = plan.replaced_source.clone();
    let root2 = parse(&replaced);
    assert!(can_add_parameter(&replaced, &root2, &plan.function));
    let content = add_parameter(&replaced, &root2, &plan.function, &plan.parameter)?;
    Ok((plan, content))
}

#[test]
fn introduce_param_literal() {
    let src = "func move(delta):\n\tposition.x += 100.0 * delta\n";
    let (plan, content) = introduce_param_in(src, 2, 16, 21, "speed", Some("float"), None).unwrap();
    assert_eq!(plan.expression, "100.0");
    assert!(plan.parameter.contains("speed: float = 100.0"));
    assert!(content.contains("func move(delta, speed: float = 100.0)"), "should add parameter, got: {content}");
    assert!(content.contains("position.x += speed * delta"), "should replace literal, got: {content}");
}

#[test]
fn introduce_param_unknown_expression_no_type() {
    let src = "func greet():\n\tprint(some_call())\n";
    let (plan, content) = introduce_param_in(src, 2, 8, 19, "msg", None, None).unwrap();
    assert_eq!(plan.parameter, "msg = some_call()");
    assert_eq!(plan.function, "greet");
    assert!(content.contains("func greet(msg = some_call()):"), "got: {content}");
    assert!(content.contains("print(msg)"), "got: {content}");
}

#[test]
fn introduce_param_explicit_type_overrides_inference() {
    let src = "func calc():\n\tprint(42)\n";
    let (plan, _) = introduce_param_in(src, 2, 8, 10, "n", Some("float"), Some("int")).unwrap();
    assert_eq!(plan.parameter, "n: float = 42");
}

#[test]
fn introduce_param_outside_function_errors() {
    let src = "var x = 42\n";
    let root = parse(src);
    let chain = chain_for_range(&root, 0, 8, 10);
    let r = plan_introduce_parameter(src, &chain, 1, 9, 11, "n", None, None);
    assert_eq!(r.err().unwrap(), "no enclosing function at line 1");
}

// ── extract-method ─────────────────────────────────────────────────────────

use gd::refactor::extract_method::{analyze_extraction, check_extraction, extraction_warnings, plan_extract_method};

struct Extracted {
    params: Vec<(String, Option<String>)>,
    returns: Option<String>,
    return_vars: Vec<String>,
    warnings: Vec<String>,
    content: String,
}

fn extract_in(src: &str, start_line: usize, end_line: usize, name: &str) -> Result<Extracted, String> {
    let root = parse(src);
    let chain = chain_for_range(&root, start_line - 1, 0, 0);
    let fi = gd::refactor::introduce_parameter::enclosing_function(&chain)
        .ok_or(format!("no enclosing function at line {start_line}"))?;
    let func = &chain[fi];
    let (body, idx) = check_extraction(func, start_line - 1, end_line - 1).map_err(|e| e.message())?;
    let warnings = extraction_warnings(&root, src, func, start_line - 1, name, body, &idx);
    let ex = analyze_extraction(func, body, &idx, src);
    let plan = plan_extract_method(src, body, func.start_row, &ex, name, start_line - 1, end_line - 1);
    Ok(Extracted {
        params: ex.params.iter().map(|p| (p.name.clone(), p.type_hint.clone())).collect(),
        returns: plan.returned,
        return_vars: plan.return_vars,
        warnings,
        content: plan.new_source,
    })
}

fn check_read_params() {
    let src = "func process():\n\tvar health = 100\n\tvar armor = 50\n\tprint(health)\n\tprint(armor)\n\tprint(\"end\")\n";
    let r = extract_in(src, 4, 5, "show_stats").unwrap();
    assert_eq!(r.params.len(), 2);
    assert!(r.returns.is_none());
    let names: Vec<&str> = r.params.iter().map(|p| p.0.as_str()).collect();
    assert!(names.contains(&"health"));
    assert!(names.contains(&"armor"));
}

#[test]
fn refactor_extract_with_read_params() {
    check_read_params();
}

#[test]
fn extract_method_extract_with_read_params() {
    check_read_params();
}

fn check_three_return_vars() {
    let src = "func process():\n\tvar a = 1\n\tvar b = 2\n\tvar c = 3\n\ta += 1\n\tb += 1\n\tc += 1\n\tprint(a)\n\tprint(b)\n\tprint(c)\n";
    let r = extract_in(src, 5, 7, "update_all").unwrap();
    assert_eq!(r.return_vars.len(), 3);
}

#[test]
fn refactor_extract_three_return_vars() {
    check_three_return_vars();
}

#[test]
fn extract_method_extract_three_return_vars() {
    check_three_return_vars();
}

fn check_contains_return_error() {
    let src = "func process():\n\tvar x = 1\n\treturn x\n";
    let r = extract_in(src, 3, 3, "helper");
    assert!(r.is_err());
    let err = r.err().unwrap();
    assert!(err.contains("return"), "should error on return: {err}");
}

#[test]
fn refactor_extract_contains_return_error() {
    check_contains_return_error();
}

#[test]
fn extract_method_extract_contains_return_error() {
    check_contains_return_error();
}

fn check_outside_function_error() {
    let src = "var x = 1\nvar y = 2\n";
    assert!(extract_in(src, 1, 1, "helper").is_err());
}

#[test]
fn refactor_extract_outside_function_error() {
    check_outside_function_error();
}

#[test]
fn extract_method_extract_outside_function_error() {
    check_outside_function_error();
}

fn check_type_hints() {
    let src = "func process():\n\tvar health: int = 100\n\tprint(health)\n\tprint(\"end\")\n";
    let r = extract_in(src, 3, 3, "show_health").unwrap();
    assert_eq!(r.params.len(), 1);
    assert_eq!(r.params[0].0, "health");
    assert_eq!(r.params[0].1.as_deref(), Some("int"));
}

#[test]
fn refactor_extract_type_hints() {
    check_type_hints();
}

#[test]
fn extract_method_extract_type_hints() {
    check_type_hints();
}

fn check_await_warns() {
    let src = "func process():\n\tawait get_tree().create_timer(1.0).timeout\n\tprint(\"done\")\n";
    let r = extract_in(src, 2, 2, "wait_a_bit").unwrap();
    assert!(!r.warnings.is_empty(), "should warn about await");
    assert!(r.warnings[0].contains("await"));
}

#[test]
fn refactor_extract_with_await_warns() {
    check_await_warns();
}

#[test]
fn extract_method_extract_with_await_warns() {
    check_await_warns();
}

fn check_without_await() {
    let src = "func process():\n\tprint(\"hello\")\n\tprint(\"world\")\n";
    let r = extract_in(src, 2, 2, "greet").unwrap();
    assert!(r.warnings.is_empty(), "no await = no warning");
}

#[test]
fn refactor_extract_without_await_no_warning() {
    check_without_await();
}

#[test]
fn extract_method_extract_without_await_no_warning() {
    check_without_await();
}

#[test]
fn extract_break_outside_loop_error() {
    let src = "func process():\n\tvar x = 1\n\tbreak\n\tprint(x)\n";
    let err = extract_in(src, 2, 3, "helper").err().expect("should fail");
    assert!(err.contains("break"), "should error on break: {err}");
}

#[test]
fn extract_continue_outside_loop_error() {
    let src = "func process():\n\tvar x = 1\n\tcontinue\n\tprint(x)\n";
    let err = extract_in(src, 2, 3, "helper").err().expect("should fail");
    assert!(err.contains("continue"), "should error on continue: {err}");
}

#[test]
fn extract_whole_loop_with_break_ok() {
    let src = "func process():\n\tfor i in range(10):\n\t\tif i == 5:\n\t\t\tbreak\n\t\tprint(i)\n\tprint(\"done\")\n";
    let r = extract_in(src, 2, 5, "loop_work");
    assert!(r.is_ok(), "extracting entire loop with break should be allowed: {:?}", r.err());
}

#[test]
fn extract_while_with_continue_ok() {
    let src = "func process():\n\tvar i = 0\n\twhile i < 10:\n\t\ti += 1\n\t\tif i == 5:\n\t\t\tcontinue\n\t\tprint(i)\n\tprint(\"done\")\n";
    let r = extract_in(src, 3, 7, "loop_work");
    assert!(r.is_ok(), "extracting entire while-loop with continue should be allowed: {:?}", r.err());
}

#[test]
fn extract_with_return_assigns_result() {
    let src = "func process():\n\tvar health = 100\n\thealth -= 10\n\tprint(health)\n";
    let r = extract_in(src, 3, 3, "take_damage").unwrap();
    assert_eq!(r.returns.as_deref(), Some("health"));
    assert!(r.content.contains("health = take_damage(health)"), "got: {}", r.content);
    assert!(r.content.contains("return health"), "got: {}", r.content);
}

#[test]
fn extract_multiple_returns_dictionary_flow() {
    let src = "func process():\n\tvar a = 1\n\tvar b = 2\n\ta += 1\n\tb += 1\n\tprint(a)\n\tprint(b)\n";
    let r = extract_in(src, 4, 5, "update").unwrap();
    assert!(r.returns.is_none());
    assert_eq!(r.return_vars, vec!["a".to_string(), "b".to_string()]);
    assert!(r.content.contains("-> Dictionary:"), "got: {}", r.content);
    assert!(r.content.contains("var _result = update("), "got: {}", r.content);
    assert!(r.content.contains("a = _result[\"a\"]"), "got: {}", r.content);
}

// ── inline-method ──────────────────────────────────────────────────────────

use gd::refactor::inline_method::{
    check_inlinable, collect_calls_to, find_call_at, inline_notes_for, plan_inline_by_name, resolve_call_target,
    resolve_cross_file_function, CrossFileError, IndexedFile, InlineError,
};

/// The references to `name` in a single file: its call sites.
fn call_hits(src: &str, root: &SyntaxNode, name: &str) -> Vec<ReferenceHit> {
    let mut sites = Vec::new();
    collect_calls_to(root, name, src, usize::MAX, usize::MAX, &mut sites);
    sites
        .iter()
        .map(|&(row, col)| ReferenceHit {
            file: "player.gd".to_string(),
            same_file: true,
            line: row as u32,
            character: col as u32,
            end_line: row as u32,
            end_character: (col + name.len()) as u32,
        })
        .collect()
}

fn check_multiple_returns_error() {
    let src = "func helper(x):\n\tif x > 0:\n\t\treturn 1\n\treturn 0\n\n\nfunc _ready():\n\thelper(1)\n";
    let root = parse(src);
    let chain = chain_for_range(&root, 7, 1, 1);
    let ci = find_call_at(&chain).expect("call at 8:2");
    let target = resolve_call_target(&chain[ci], src, &root).unwrap();
    assert_eq!(target.method_name, "helper");
    let def = find_declaration_by_name(&root, src, "helper").unwrap();
    let r = check_inlinable(def, src, "helper");
    assert!(r.is_err());
    assert!(matches!(r.err().unwrap(), InlineError::MultipleReturns));
}

#[test]
fn refactor_inline_multiple_returns_error() {
    check_multiple_returns_error();
}

#[test]
fn inline_method_inline_multiple_returns_error() {
    check_multiple_returns_error();
}

fn check_multiple_callsites_keeps_function() {
    let src = "func helper():\n\tprint(42)\n\n\nfunc _ready():\n\thelper()\n\thelper()\n";
    let root = parse(src);
    let def = find_declaration_by_name(&root, src, "helper").unwrap();
    let hits = call_hits(src, &root, "helper");
    assert_eq!(hits.len(), 2);
    let (can_delete, warnings) = inline_notes_for(def, src, "helper", None, false, &hits);
    assert!(!can_delete, "multiple callsites should keep function");
    assert!(!warnings.is_empty(), "should warn about remaining callsites");
}

#[test]
fn refactor_inline_multiple_callsites_keeps_function() {
    check_multiple_callsites_keeps_function();
}

#[test]
fn inline_method_inline_multiple_callsites_keeps_function() {
    check_multiple_callsites_keeps_function();
}

fn check_by_name_not_found() {
    let src = "func helper():\n\tpass\n";
    let root = parse(src);
    let mut sites = Vec::new();
    collect_calls_to(&root, "nonexistent", src, usize::MAX, usize::MAX, &mut sites);
    let r = plan_inline_by_name(&sites, "nonexistent", false);
    assert!(r.is_err());
    assert_eq!(r.err().unwrap().message(), "no call sites for 'nonexistent' found in this file");
}

#[test]
fn refactor_inline_by_name_not_found() {
    check_by_name_not_found();
}

#[test]
fn inline_method_inline_by_name_not_found() {
    check_by_name_not_found();
}

fn indexed(path: &str, functions: &[&str]) -> IndexedFile {
    IndexedFile {
        path: path.to_string(),
        relative: path.to_string(),
        functions: functions.iter().map(|f| f.to_string()).collect(),
    }
}

#[test]
fn cross_file_inline_not_found_anywhere() {
    let files = vec![indexed("player.gd", &["_ready"])];
    let err = resolve_cross_file_function("nonexistent", "player.gd", &files).err().unwrap();
    let msg = err.message();
    assert!(msg.contains("cannot find definition"), "should report not found, got: {msg}");
}

#[test]
fn cross_file_inline_ambiguous() {
    let files = vec![indexed("a.gd", &["helper"]), indexed("b.gd", &["helper"]), indexed("player.gd", &["_ready"])];
    let err = resolve_cross_file_function("helper", "player.gd", &files).err().unwrap();
    assert!(matches!(err, CrossFileError::Ambiguous(_, _)));
    let msg = err.message();
    assert!(msg.contains("ambiguous"), "should report ambiguity, got: {msg}");
    assert_eq!(msg, "'helper' found in 2 files (ambiguous): a.gd, b.gd");
}

#[test]
fn cross_file_inline_self_warning() {
    let utils = "func get_hp():\n\treturn self.hp\n";
    let files = vec![indexed("utils.gd", &["get_hp"]), indexed("player.gd", &["_ready"])];
    let i = resolve_cross_file_function("get_hp", "player.gd", &files).unwrap();
    assert_eq!(files[i].relative, "utils.gd");
    let root = parse(utils);
    let def = find_declaration_by_name(&root, utils, "get_hp").unwrap();
    let (can_delete, warnings) = inline_notes_for(def, utils, "get_hp", Some("utils.gd"), false, &[]);
    assert!(!can_delete);
    assert!(warnings.iter().any(|w| w.contains("self.")), "should warn about self references, got: {:?}", warnings);
}

#[test]
fn cross_file_inline_by_name_not_found_anywhere() {
    let src = "func _ready():\n\tpass\n";
    let root = parse(src);
    let mut sites = Vec::new();
    collect_calls_to(&root, "nonexistent", src, usize::MAX, usize::MAX, &mut sites);
    assert!(plan_inline_by_name(&sites, "nonexistent", false).is_err());
    let files = vec![indexed("player.gd", &["_ready"])];
    assert!(resolve_cross_file_function("nonexistent", "player.gd", &files).is_err());
}

#[test]
fn inline_typed_var_unresolvable_type_error() {
    let src = "var enemy\n\n\nfunc _ready():\n\tenemy.take_damage(10)\n";
    let root = parse(src);
    let chain = chain_for_range(&root, 4, 1, 1);
    let ci = find_call_at(&chain).expect("call at 5:2");
    let r = resolve_call_target(&chain[ci], src, &root);
    assert!(r.is_err(), "should error when type cannot be resolved");
}

// ── change-signature ───────────────────────────────────────────────────────

use gd::refactor::change_signature::{check_tscn_connections, plan_change_signature};

fn change_sig(src: &str, name: &str, adds: &[&str], removes: &[&str], renames: &[&str]) -> Result<gd::refactor::change_signature::SignaturePlan, String> {
    let root = parse(src);
    let adds: Vec<String> = adds.iter().map(|s| s.to_string()).collect();
    let removes: Vec<String> = removes.iter().map(|s| s.to_string()).collect();
    let renames: Vec<String> = renames.iter().map(|s| s.to_string()).collect();
    plan_change_signature(src, &root, name, None, &adds, &removes, &renames, None).map_err(|e| e.message)
}

fn check_remove_nonexistent() {
    let r = change_sig("func greet(name):\n\tpass\n", "greet", &[], &["nonexistent"], &[]);
    assert_eq!(r.err().unwrap(), "parameter 'nonexistent' not found");
}

#[test]
fn refactor_change_sig_remove_nonexistent_error() {
    check_remove_nonexistent();
}

#[test]
fn change_signature_change_sig_remove_nonexistent_error() {
    check_remove_nonexistent();
}

fn check_add_duplicate() {
    let r = change_sig("func greet(name):\n\tpass\n", "greet", &["name"], &[], &[]);
    assert_eq!(r.err().unwrap(), "parameter 'name' already exists");
}

#[test]
fn refactor_change_sig_add_duplicate_error() {
    check_add_duplicate();
}

#[test]
fn change_signature_change_sig_add_duplicate_error() {
    check_add_duplicate();
}

fn check_rename_nonexistent() {
    let r = change_sig("func greet(name):\n\tpass\n", "greet", &[], &[], &["nonexistent=new_name"]);
    assert_eq!(r.err().unwrap(), "parameter 'nonexistent' not found for rename");
}

#[test]
fn refactor_change_sig_rename_nonexistent_error() {
    check_rename_nonexistent();
}

#[test]
fn change_signature_change_sig_rename_nonexistent_error() {
    check_rename_nonexistent();
}

#[test]
fn change_sig_warns_about_tscn_connections() {
    let src = "func _on_hit(damage):\n\tprint(damage)\n";
    let plan = change_sig(src, "_on_hit", &["extra"], &[], &[]).unwrap();
    assert_eq!(plan.new_signature, "func _on_hit(damage, extra)");
    let scene = "[gd_scene format=3]\n\n[node name=\"Root\" type=\"Node2D\"]\n\n[connection signal=\"body_entered\" from=\"Area\" to=\".\" method=\"_on_hit\"]\n";
    let w = check_tscn_connections(scene, "_on_hit", "level.tscn").expect("a warning");
    assert!(w.contains("signal connection") && w.contains("_on_hit") && w.contains("level.tscn"), "got: {w}");
}

#[test]
fn change_sig_no_tscn_warning_when_no_connections() {
    let src = "func attack(damage):\n\tprint(damage)\n";
    assert!(change_sig(src, "attack", &["extra"], &[], &[]).is_ok());
    let scene = "[gd_scene format=3]\n\n[node name=\"Root\" type=\"Node2D\"]\n";
    assert!(check_tscn_connections(scene, "attack", "level.tscn").is_none());
}

// ── encapsulate-field ──────────────────────────────────────────────────────

use gd::refactor::encapsulate_field::{find_encapsulation_target, plan_encapsulation, EncapsulateError};

fn encapsulate(src: &str, name: &str, backing: bool) -> Result<String, EncapsulateError> {
    let root = parse(src);
    let var = find_encapsulation_target(&root, src, name)?;
    plan_encapsulation(src, &root, var, name, backing).map(|p| p.new_source)
}

#[test]
fn backing_field_collision_errors() {
    let r = encapsulate("var health = 100\nvar _health = 50\n", "health", true);
    assert!(matches!(r, Err(EncapsulateError::BackingExists(_))));
}

#[test]
fn not_a_variable_errors() {
    let r = encapsulate("func health():\n\tpass\n", "health", false);
    assert!(matches!(r, Err(EncapsulateError::NotVariable(_))));
}

#[test]
fn not_found_errors() {
    let r = encapsulate("var speed = 10\n", "nonexistent", false);
    assert!(matches!(r, Err(EncapsulateError::NotFound(_))));
}

// ── extract-class ──────────────────────────────────────────────────────────

use gd::refactor::extract_class::{check_target_conflicts, find_extractions};

#[test]
fn extract_duplicate_error() {
    let src = "func helper():\n\tpass\n";
    let target = "func helper():\n\treturn 1\n";
    let root = parse(src);
    let names = vec!["helper".to_string()];
    let ex = find_extractions(&root, src, &names).unwrap();
    let troot = parse(target);
    let r = check_target_conflicts(&troot, target, &ex);
    assert_eq!(r.err().unwrap(), "target already contains a declaration named 'helper'");
}

#[test]
fn extract_not_found_error() {
    let src = "var x = 1\n";
    let root = parse(src);
    let names = vec!["nonexistent".to_string()];
    let r = find_extractions(&root, src, &names);
    assert_eq!(r.err().unwrap(), "symbols not found: nonexistent");
}

// ── inline-variable ────────────────────────────────────────────────────────

use gd::refactor::inline_variable::plan_inline_variable;

fn inline_var(src: &str, line: usize, column: usize) -> Result<gd::refactor::inline_variable::InlineVarPlan, String> {
    let root = parse(src);
    let chain = chain_for_range(&root, line - 1, column - 1, column - 1);
    let func = gd::refactor::introduce_parameter::enclosing_function(&chain).map(|i| &chain[i]);
    plan_inline_variable(&root, src, &chain[0], func, line, column)
}

#[test]
fn rejects_const() {
    assert!(inline_var("func _ready():\n\tconst MAX = 100\n\tprint(MAX)\n", 2, 8).is_err());
}

#[test]
fn rejects_reassigned() {
    assert!(inline_var("func _ready():\n\tvar x = 1\n\tx = 2\n\tprint(x)\n", 2, 6).is_err());
}

#[test]
fn rejects_no_initializer() {
    assert!(inline_var("func _ready():\n\tvar x\n\tprint(x)\n", 2, 6).is_err());
}

#[test]
fn inline_from_usage_site() {
    let p = inline_var("func _ready():\n\tvar speed = 10\n\tprint(speed)\n", 3, 8).unwrap();
    assert_eq!(p.variable, "speed");
}

fn assert_onready_refused(src: &str, line: usize, column: usize) {
    let r = inline_var(src, line, column);
    assert!(r.is_err());
    let msg = r.err().unwrap();
    assert!(msg.contains("@onready"), "error should mention @onready, got: {msg}");
}

#[test]
fn rejects_onready_variable() {
    assert_onready_refused("@onready var sprite = $Sprite2D\n\nfunc _ready():\n\tprint(sprite)\n", 1, 14);
}

#[test]
fn rejects_onready_with_type() {
    assert_onready_refused("@onready var sprite: Sprite2D = $Sprite2D\n\nfunc _ready():\n\tprint(sprite)\n", 1, 14);
}

#[test]
fn rejects_onready_multiline_annotation() {
    assert_onready_refused("@export\n@onready\nvar sprite = $Sprite2D\n\nfunc _ready():\n\tprint(sprite)\n", 3, 5);
}

#[test]
fn no_type_warning_without_annotation() {
    let p = inline_var("func _ready():\n\tvar x = get_value()\n\tprint(x)\n", 2, 6).unwrap();
    assert!(!p.warnings.iter().any(|w| w.contains("type annotation")), "got: {:?}", p.warnings);
}

#[test]
fn no_type_warning_for_inferred() {
    let p = inline_var("func _ready():\n\tvar x := 42\n\tprint(x)\n", 2, 6).unwrap();
    assert!(!p.warnings.iter().any(|w| w.contains("type annotation")), "got: {:?}", p.warnings);
}

#[test]
fn warns_on_complex_type_annotation() {
    let p = inline_var("func _ready():\n\tvar items: Array[String] = get_items()\n\tprint(items)\n", 2, 6).unwrap();
    assert!(p.warnings.iter().any(|w| w.contains("Array[String]")), "got: {:?}", p.warnings);
}

#[test]
fn warns_on_type_annotation_loss_flow() {
    let p = inline_var("func _ready():\n\tvar x: int = get_value()\n\tprint(x)\n", 2, 6).unwrap();
    assert_eq!(p.reference_count, 1);
    assert!(p.warnings.iter().any(|w| w.contains("int")), "got: {:?}", p.warnings);
    assert!(p.new_source.contains("print(get_value())"), "got: {}", p.new_source);
}
