use cakecutter::context::Context;
use cakecutter::errors::GenerateFilesError;
use cakecutter::glob::{glob_match, is_excluded};
use cakecutter::render::render;
use cakecutter::template::{is_git_repo, is_zip_file, parse_template_input, Template, TemplateType};
use cakecutter::user_config::{get_default_config, get_default_context};
use cakecutter::value::Value;

fn ctx(pairs: &[(&str, &str)]) -> Context {
    let mut c = Context::new();
    for (k, v) in pairs {
        c.insert_if_absent(k.to_string(), Value::Str(v.to_string()));
    }
    c
}

#[test]
fn merge_declared_wins_collisions() {
    let mut defaults = Context::new();
    defaults.insert_if_absent("a".to_string(), Value::Str("from-default".to_string()));
    defaults.insert_if_absent("b".to_string(), Value::Str("default-b".to_string()));
    let mut declared = Context::new();
    declared.insert_if_absent("b".to_string(), Value::Str("declared-b".to_string()));
    declared.insert_if_absent("c".to_string(), Value::Str("declared-c".to_string()));
    let merged = Context::merge(defaults, declared);
    match merged.get("b") {
        Some(Value::Str(s)) => assert_eq!(s, "declared-b"),
        _ => panic!("declared value must win the collision"),
    }
    match merged.get("a") {
        Some(Value::Str(s)) => assert_eq!(s, "from-default"),
        _ => panic!("default-only key must be present"),
    }
    match merged.get("c") {
        Some(Value::Str(s)) => assert_eq!(s, "declared-c"),
        _ => panic!("declared-only key must be present"),
    }
    assert!(merged.get("d").is_none());
}

#[test]
fn merge_inserts_only_absent_keys() {
    let mut c = Context::new();
    c.insert_if_absent("k".to_string(), Value::Str("first".to_string()));
    c.insert_if_absent("k".to_string(), Value::Str("second".to_string()));
    match c.get("k") {
        Some(Value::Str(s)) => assert_eq!(s, "first"),
        _ => panic!("first writer must win"),
    }
}

#[test]
fn snapshot_excludes_reserved_keys() {
    let mut c = Context::new();
    c.insert_if_absent("name".to_string(), Value::Str("World".to_string()));
    c.insert_if_absent(
        "_copy_without_render".to_string(),
        Value::Arr(vec![Value::Str("*.bin".to_string())]),
    );
    let snap = c.snapshot_original();
    assert!(snap.get("name").is_some());
    assert!(snap.get("_copy_without_render").is_none());
}

#[test]
fn original_context_captured_on_template() {
    let mut c = Context::new();
    c.insert_if_absent("_internal".to_string(), Value::Bool(true));
    c.insert_if_absent("visible".to_string(), Value::Int(7));
    let mut t = Template::new(c, "root".to_string());
    t.generate_original_context();
    assert!(t.template_original.get("visible").is_some());
    assert!(t.template_original.get("_internal").is_none());
}

#[test]
fn render_simple_substitution() {
    let c = ctx(&[("name", "World")]);
    let out = render("Hello {{name}}", &c).unwrap();
    assert_eq!(out, "Hello World");
}

#[test]
fn render_trims_spaces_in_placeholder() {
    let c = ctx(&[("project_name", "demo")]);
    let out = render("{{ project_name }}", &c).unwrap();
    assert_eq!(out, "demo");
}

#[test]
fn render_is_deterministic() {
    let c = ctx(&[("a", "x"), ("b", "y")]);
    let t = "{{a}}-{{b}}-{{a}}";
    let first = render(t, &c).unwrap();
    let second = render(t, &c).unwrap();
    assert_eq!(first, second);
    assert_eq!(first, "x-y-x");
}

#[test]
fn render_without_placeholders_is_identity() {
    let c = ctx(&[("unused", "v")]);
    let text = "no placeholders here { } }} only braces";
    assert_eq!(render(text, &c).unwrap(), text);
}

#[test]
fn render_missing_key_fails() {
    let c = ctx(&[("present", "v")]);
    match render("{{missing_key}}", &c) {
        Err(GenerateFilesError::RenderFailure(m)) => assert_eq!(m, "{{missing_key}}"),
        _ => panic!("an undefined key must be a render failure"),
    }
}

#[test]
fn render_unterminated_placeholder_fails() {
    let c = ctx(&[("name", "v")]);
    assert!(matches!(
        render("oops {{name", &c),
        Err(GenerateFilesError::RenderFailure(_))
    ));
}

#[test]
fn render_integer_and_boolean_values() {
    let mut c = Context::new();
    c.insert_if_absent("n".to_string(), Value::Int(-42));
    c.insert_if_absent("m".to_string(), Value::Int(1005));
    c.insert_if_absent("flag".to_string(), Value::Bool(true));
    c.insert_if_absent("off".to_string(), Value::Bool(false));
    assert_eq!(render("{{n}}/{{m}}/{{flag}}/{{off}}", &c).unwrap(), "-42/1005/true/false");
}

#[test]
fn render_non_scalar_value_fails() {
    let mut c = Context::new();
    c.insert_if_absent("list".to_string(), Value::Arr(vec![Value::Int(1)]));
    assert!(matches!(
        render("{{list}}", &c),
        Err(GenerateFilesError::RenderFailure(_))
    ));
}

#[test]
fn glob_star_and_question() {
    assert!(glob_match("*.bin", "asset.bin"));
    assert!(glob_match("a?c", "abc"));
    assert!(!glob_match("a?c", "ac"));
    assert!(glob_match("*", ""));
    assert!(!glob_match("*.bin", "asset.txt"));
}

#[test]
fn glob_is_case_sensitive() {
    assert!(!glob_match("A*", "abc"));
    assert!(glob_match("A*", "Abc"));
}

#[test]
fn glob_character_classes() {
    assert!(glob_match("[a-c]x", "bx"));
    assert!(!glob_match("[a-c]x", "dx"));
    assert!(glob_match("[!a]x", "bx"));
    assert!(!glob_match("[!a]x", "ax"));
    assert!(glob_match("[].]x", "]x"));
}

#[test]
fn glob_unclosed_class_matches_nothing() {
    assert!(!glob_match("[ab", "a"));
    assert!(!glob_match("[ab", "[ab"));
}

#[test]
fn glob_no_implicit_separator_boundary() {
    assert!(glob_match("*.bin", "dir/asset.bin"));
}

#[test]
fn excluded_when_any_pattern_matches() {
    let pats = vec!["*.txt".to_string(), "*.bin".to_string()];
    assert!(is_excluded("a/b/c.bin", &pats));
    assert!(!is_excluded("a/b/c.rs", &pats));
    assert!(!is_excluded("anything", &Vec::new()));
}

#[test]
fn zip_extension_detection() {
    assert!(is_zip_file(&"archive.zip".to_string()));
    assert!(is_zip_file(&"a/b/archive.ZIP".to_string()));
    assert!(!is_zip_file(&".zip".to_string()));
    assert!(!is_zip_file(&"dir/.zip".to_string()));
    assert!(!is_zip_file(&"archive.tar".to_string()));
}

#[test]
fn git_repo_detection() {
    assert!(is_git_repo("https://example.com/repo.git"));
    assert!(is_git_repo("ssh://git@example.com/repo.git"));
    assert!(is_git_repo("git@github.com:owner/repo.git"));
    assert!(!is_git_repo("just a sentence"));
    assert!(!is_git_repo("file:///tmp/repo"));
}

#[test]
fn template_input_classification() {
    match parse_template_input("t.zip".to_string(), true, false, None, false) {
        Ok(TemplateType::ZipPath(p)) => assert_eq!(p, "t.zip"),
        _ => panic!("an existing zip path must classify as a zip template"),
    }
    match parse_template_input("tpl".to_string(), true, false, None, false) {
        Ok(TemplateType::Path(p)) => assert_eq!(p, "tpl"),
        _ => panic!("an existing directory must classify as a path template"),
    }
    match parse_template_input(
        "tpl".to_string(),
        true,
        false,
        Some("other".to_string()),
        true,
    ) {
        Ok(TemplateType::Path(p)) => assert_eq!(p, "other"),
        _ => panic!("a present directory override must be used"),
    }
    assert!(matches!(
        parse_template_input("tpl".to_string(), true, false, Some("gone".to_string()), false),
        Err(GenerateFilesError::SourceConfig(_))
    ));
    assert!(matches!(
        parse_template_input("tpl".to_string(), true, true, None, false),
        Err(GenerateFilesError::SourceConfig(_))
    ));
    match parse_template_input(
        "https://example.com/repo.git".to_string(),
        false,
        false,
        None,
        false,
    ) {
        Ok(TemplateType::RepoURL(u)) => assert_eq!(u, "https://example.com/repo.git"),
        _ => panic!("a missing input that is a git URL must classify as a repository"),
    }
    assert!(matches!(
        parse_template_input("nonsense".to_string(), false, false, None, false),
        Err(GenerateFilesError::SourceConfig(_))
    ));
}

#[test]
fn cleanup_only_for_zip_sources() {
    let t = Template::new(Context::new(), "root".to_string());
    assert!(!t.should_cleanup_dir(&TemplateType::Path("p".to_string())));
    assert!(t.should_cleanup_dir(&TemplateType::ZipPath("p.zip".to_string())));
    assert!(!t.should_cleanup_dir(&TemplateType::RepoURL("u".to_string())));
}

#[test]
fn default_configuration_values() {
    let c = get_default_config();
    match c.get("abbreviation_file") {
        Some(Value::Str(s)) => assert_eq!(s, ".abv.json"),
        _ => panic!("the default abbreviation file must be set"),
    }
    match c.get("extensions") {
        Some(Value::Str(s)) => assert_eq!(s, "None"),
        _ => panic!("the default extensions entry must be set"),
    }
    assert!(get_default_context().get("anything").is_none());
}

#[test]
fn abbreviations_default_to_empty() {
    let mut t = Template::new(Context::new(), "root".to_string());
    t.set_abbreviations(None);
    assert!(t.abbreviations.get("gh").is_none());
    let mut loaded = Context::new();
    loaded.insert_if_absent("gh".to_string(), Value::Str("https://github.com/".to_string()));
    t.set_abbreviations(Some(loaded));
    assert!(t.abbreviations.get("gh").is_some());
}

#[test]
fn error_kinds_have_stable_names() {
    assert_eq!(
        GenerateFilesError::DirectoryExists("demo".to_string()).kind_name(),
        "destination exists"
    );
    assert_eq!(
        GenerateFilesError::DirectoryExists("demo".to_string()).detail(),
        "demo"
    );
    assert_eq!(
        GenerateFilesError::NoOutputDirPattern.kind_name(),
        "no output directory pattern found"
    );
    assert_eq!(
        GenerateFilesError::RenderFailure("t".to_string()).kind_name(),
        "render failure"
    );
    assert_eq!(
        GenerateFilesError::SourceConfig("c".to_string()).kind_name(),
        "source configuration error"
    );
    assert_eq!(GenerateFilesError::IoError("f".to_string()).kind_name(), "io error");
}
