use cakecutter::context::Context;
use cakecutter::errors::GenerateFilesError;
use cakecutter::generate::{
    create_dir, find_child_dir, find_project_dir_name, generate_files, is_copy_only_path,
    render_rel_path, Action, EntryKind, SrcEntry,
};
use cakecutter::template::Template;
use cakecutter::value::Value;

fn dir(path: &str) -> SrcEntry {
    SrcEntry { rel_path: path.to_string(), kind: EntryKind::Dir }
}

fn file(path: &str, bytes: &[u8]) -> SrcEntry {
    SrcEntry { rel_path: path.to_string(), kind: EntryKind::File(bytes.to_vec()) }
}

fn demo_template(extra: &[(&str, Value)]) -> Template {
    let mut c = Context::new();
    c.insert_if_absent("project_name".to_string(), Value::Str("demo".to_string()));
    c.insert_if_absent("name".to_string(), Value::Str("World".to_string()));
    for (k, v) in extra {
        c.insert_if_absent(k.to_string(), clone_value_for_test(v));
    }
    Template::new(c, "tpl".to_string())
}

fn clone_value_for_test(v: &Value) -> Value {
    cakecutter::value::clone_value(v)
}

#[test]
fn renders_readme_into_destination() {
    let template = demo_template(&[]);
    let tree = vec![
        dir("{{project_name}}"),
        file("{{project_name}}/README.md", b"Hello {{name}}"),
    ];
    let plan = generate_files(&template, &tree, &None, false, false, false).unwrap();
    assert_eq!(plan.dest_root, "demo");
    assert!(plan.delete_on_failure);
    assert_eq!(plan.actions.len(), 1);
    match &plan.actions[0] {
        Action::WriteText(path, text) => {
            assert_eq!(path, "demo/README.md");
            assert_eq!(text, "Hello World");
        },
        _ => panic!("the file must be rendered, not copied"),
    }
}

#[test]
fn copy_only_file_is_byte_identical() {
    let patterns = Value::Arr(vec![Value::Str("*.bin".to_string())]);
    let template = demo_template(&[("_copy_without_render", patterns)]);
    let raw: Vec<u8> = vec![0, 159, 146, 150, 123, 123];
    let tree = vec![
        dir("{{project_name}}"),
        file("{{project_name}}/asset.bin", &raw),
    ];
    let plan = generate_files(&template, &tree, &None, false, false, false).unwrap();
    assert_eq!(plan.actions.len(), 1);
    match &plan.actions[0] {
        Action::CopyBytes(path, bytes) => {
            assert_eq!(path, "demo/asset.bin");
            assert_eq!(bytes, &raw);
        },
        _ => panic!("an excluded file must be copied verbatim"),
    }
}

#[test]
fn existing_destination_without_overwrite_fails() {
    let template = demo_template(&[]);
    let tree = vec![
        dir("{{project_name}}"),
        file("{{project_name}}/README.md", b"Hello {{name}}"),
    ];
    match generate_files(&template, &tree, &None, false, true, false) {
        Err(GenerateFilesError::DirectoryExists(d)) => assert_eq!(d, "demo"),
        _ => panic!("an existing destination must stop the run before any write"),
    }
}

#[test]
fn existing_destination_with_overwrite_proceeds() {
    let template = demo_template(&[]);
    let tree = vec![
        dir("{{project_name}}"),
        file("{{project_name}}/README.md", b"Hello {{name}}"),
    ];
    let plan = generate_files(&template, &tree, &None, true, true, false).unwrap();
    assert_eq!(plan.actions.len(), 1);
}

#[test]
fn missing_key_in_body_fails_whole_run() {
    let template = demo_template(&[]);
    let tree = vec![
        dir("{{project_name}}"),
        file("{{project_name}}/good.txt", b"fine"),
        file("{{project_name}}/bad.txt", b"{{missing_key}}"),
    ];
    match generate_files(&template, &tree, &None, false, false, false) {
        Err(GenerateFilesError::RenderFailure(_)) => {},
        _ => panic!("an unresolved placeholder must fail the run with no plan"),
    }
}

#[test]
fn missing_key_in_path_fails_whole_run() {
    let template = demo_template(&[]);
    let tree = vec![
        dir("{{project_name}}"),
        file("{{project_name}}/{{missing_key}}.txt", b"body"),
    ];
    assert!(matches!(
        generate_files(&template, &tree, &None, false, false, false),
        Err(GenerateFilesError::RenderFailure(_))
    ));
}

#[test]
fn non_utf8_body_that_must_render_fails() {
    let template = demo_template(&[]);
    let tree = vec![
        dir("{{project_name}}"),
        file("{{project_name}}/raw.bin", &[0xff, 0xfe, 0x00]),
    ];
    assert!(matches!(
        generate_files(&template, &tree, &None, false, false, false),
        Err(GenerateFilesError::IoError(_))
    ));
}

#[test]
fn tree_without_marker_directory_fails() {
    let template = demo_template(&[]);
    let tree = vec![dir("plain"), file("plain/README.md", b"x")];
    assert!(matches!(
        generate_files(&template, &tree, &None, false, false, false),
        Err(GenerateFilesError::NoOutputDirPattern)
    ));
}

#[test]
fn entries_outside_marker_are_not_generated() {
    let template = demo_template(&[]);
    let tree = vec![
        file("cakecutter.json", b"{}"),
        dir("{{project_name}}"),
        dir("{{project_name}}/src"),
        file("{{project_name}}/src/main.txt", b"of {{name}}"),
    ];
    let plan = generate_files(&template, &tree, &None, false, false, false).unwrap();
    assert_eq!(plan.actions.len(), 2);
    match &plan.actions[0] {
        Action::MkDir(p) => assert_eq!(p, "demo/src"),
        _ => panic!("the nested directory must be created"),
    }
    match &plan.actions[1] {
        Action::WriteText(p, t) => {
            assert_eq!(p, "demo/src/main.txt");
            assert_eq!(t, "of World");
        },
        _ => panic!("the nested file must be rendered"),
    }
}

#[test]
fn output_base_directory_is_joined() {
    let template = demo_template(&[]);
    let tree = vec![
        dir("{{project_name}}"),
        file("{{project_name}}/a.txt", b"a"),
    ];
    let base = Some("out".to_string());
    let plan = generate_files(&template, &tree, &base, false, false, false).unwrap();
    assert_eq!(plan.dest_root, "out/demo");
    match &plan.actions[0] {
        Action::WriteText(p, _) => assert_eq!(p, "out/demo/a.txt"),
        _ => panic!("the file must land under the output base"),
    }
}

#[test]
fn keep_on_failure_is_carried_in_the_plan() {
    let template = demo_template(&[]);
    let tree = vec![dir("{{project_name}}")];
    let plan = generate_files(&template, &tree, &None, false, false, true).unwrap();
    assert!(!plan.delete_on_failure);
    assert_eq!(plan.actions.len(), 0);
}

#[test]
fn rendered_names_in_paths() {
    let template = demo_template(&[]);
    let tree = vec![
        dir("{{project_name}}"),
        file("{{project_name}}/{{name}}.txt", b"hi"),
    ];
    let plan = generate_files(&template, &tree, &None, false, false, false).unwrap();
    match &plan.actions[0] {
        Action::WriteText(p, _) => assert_eq!(p, "demo/World.txt"),
        _ => panic!("path segments must be rendered"),
    }
}

#[test]
fn helper_functions_resolve_destination() {
    let template = demo_template(&[]);
    let tree = vec![dir("{{project_name}}"), file("{{project_name}}/x", b"x")];
    assert_eq!(find_child_dir(&tree).unwrap(), "{{project_name}}");
    assert_eq!(find_project_dir_name(&template, &tree).unwrap(), "demo");
    assert_eq!(
        render_rel_path("{{project_name}}/x", &template.template).unwrap(),
        "demo/x"
    );
    assert_eq!(
        create_dir(&template, &tree, &Some("base".to_string()), false, false).unwrap(),
        "base/demo"
    );
    assert!(matches!(
        create_dir(&template, &tree, &None, false, true),
        Err(GenerateFilesError::DirectoryExists(_))
    ));
}

#[test]
fn copy_only_routing_uses_configured_patterns() {
    let patterns = Value::Arr(vec![Value::Int(3), Value::Str("*.bin".to_string())]);
    let template = demo_template(&[("_copy_without_render", patterns)]);
    assert!(is_copy_only_path("{{project_name}}/asset.bin", &template));
    assert!(!is_copy_only_path("{{project_name}}/readme.txt", &template));
    let bare = demo_template(&[]);
    assert!(!is_copy_only_path("{{project_name}}/asset.bin", &bare));
}
