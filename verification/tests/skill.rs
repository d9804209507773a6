use molo::json::{parse_json, Json, JsonMap};
use molo::skill::error::SkillError;
use molo::skill::load::LoadSkillTool;
use molo::skill::registry::SkillRegistry;
use molo::skill::{format_skill_content, AllowedTool, FoundFile, Skill};
use molo::tool::{ToolError, ToolMemoryPolicy, ToolResult};

fn minimal(name: &str) -> Skill {
    Skill::parse(&format!(
        "---\nname: {name}\ndescription: description\n---\nbody"
    ))
    .unwrap()
}

fn skill_text(name: &str, description: &str, body: &str) -> String {
    format!("---\nname: {name}\ndescription: {description}\n---\n{body}")
}

fn in_dir(name: &str, description: &str, body: &str, resources: Vec<String>) -> Skill {
    Skill::from_dir(
        &format!("/skills/{name}"),
        name,
        FoundFile::Text(skill_text(name, description, body)),
        resources,
    )
    .unwrap()
}

#[test]
fn parse_minimal() {
    let skill = Skill::parse("---\nname: greet\ndescription: Say hello\n---\nHello!").unwrap();
    assert_eq!(skill.name(), "greet");
    assert_eq!(skill.description(), "Say hello");
    assert_eq!(skill.body(), "Hello!");
    assert!(skill.license().is_none());
    assert!(skill.metadata().is_empty());
    assert!(skill.allowed_tools().is_empty());
    assert!(skill.resources().is_empty());
}

#[test]
fn parse_full_fields() {
    let content = r#"---
name: code-review
description: Review code changes
license: MIT
compatibility: rust-1.80+
metadata:
  author: team
  public: true
allowed-tools:
  - Bash(git:*)
  - Python
user-invocable: true
---
Review steps.
"#;
    let skill = Skill::parse(content).unwrap();
    assert_eq!(skill.name(), "code-review");
    assert_eq!(skill.license(), Some("MIT"));
    assert_eq!(skill.compatibility(), Some("rust-1.80+"));
    assert_eq!(
        skill.metadata(),
        &[
            ("author".to_string(), "team".to_string()),
            ("public".to_string(), "true".to_string()),
            ("user-invocable".to_string(), "true".to_string()),
        ]
    );
    assert_eq!(
        skill.allowed_tools(),
        &[
            AllowedTool {
                name: "Bash".into(),
                scope: Some("git:*".into())
            },
            AllowedTool {
                name: "Python".into(),
                scope: None
            },
        ]
    );
}

#[test]
fn parse_allowed_tools_string_form() {
    let skill = Skill::parse(
        "---\nname: a\ndescription: description\nallowed-tools: Bash(git:*) Python\n---\nbody",
    )
    .unwrap();
    assert_eq!(skill.allowed_tools().len(), 2);
    assert_eq!(skill.allowed_tools()[0].name, "Bash");
    assert_eq!(skill.allowed_tools()[0].scope.as_deref(), Some("git:*"));
    assert_eq!(skill.allowed_tools()[1].name, "Python");
}

#[test]
fn parse_allowed_tools_flow_list_form() {
    let skill = Skill::parse(
        "---\nname: a\ndescription: description\nallowed-tools: [Bash, Python]\n---\nbody",
    )
    .unwrap();
    assert_eq!(skill.allowed_tools().len(), 2);
    assert_eq!(skill.allowed_tools()[0].name, "Bash");
    assert_eq!(skill.allowed_tools()[1].name, "Python");
}

#[test]
fn parse_allowed_tools_flow_list_unbalanced_brackets_rejected() {
    let err =
        Skill::parse("---\nname: a\ndescription: description\nallowed-tools: [Bash\n---\nbody")
            .unwrap_err();
    assert!(err.message().contains("unbalanced brackets"));
}

#[test]
fn frontmatter_underscore_keys_tolerated_into_metadata() {
    let skill =
        Skill::parse("---\nname: a\ndescription: description\nuser_invocable: true\n---\nbody")
            .unwrap();
    assert_eq!(
        skill.metadata(),
        &[("user_invocable".to_string(), "true".to_string())]
    );
}

#[test]
fn parse_body_with_blank_line_after_delimiter() {
    let skill = Skill::parse(
        "---\nname: a\ndescription: description\n---\n\nfirst body line\n\nsecond body line",
    )
    .unwrap();
    assert_eq!(skill.body(), "first body line\n\nsecond body line");
}

#[test]
fn parse_empty_body_allowed() {
    let skill = Skill::parse("---\nname: a\ndescription: description\n---").unwrap();
    assert_eq!(skill.body(), "");
}

#[test]
fn parse_bom_and_leading_blank_lines_tolerated() {
    let content = "\u{feff}\n\n---\nname: a\ndescription: description\n---\nbody";
    let skill = Skill::parse(content).unwrap();
    assert_eq!(skill.name(), "a");
}

#[test]
fn parse_quoted_values_stripped() {
    let skill = Skill::parse("---\nname: a\ndescription: \"quoted description\"\n---\n").unwrap();
    assert_eq!(skill.description(), "quoted description");
}

#[test]
fn parse_comments_and_blank_lines_ignored() {
    let content = "---\n# this is a comment\n\nname: a\ndescription: description\n---\nbody";
    let skill = Skill::parse(content).unwrap();
    assert_eq!(skill.name(), "a");
}

#[test]
fn parse_duplicate_field_last_wins() {
    let content = "---\nname: a\ndescription: first\ndescription: second\n---\n";
    let skill = Skill::parse(content).unwrap();
    assert_eq!(skill.description(), "second");
}

#[test]
fn parse_missing_frontmatter() {
    let err = Skill::parse("plain text, no frontmatter").unwrap_err();
    assert!(matches!(err, SkillError::InvalidFrontmatter(_)));
}

#[test]
fn parse_missing_end_delimiter() {
    let err = Skill::parse("---\nname: a\ndescription: description\nbody without end delimiter")
        .unwrap_err();
    assert!(matches!(err, SkillError::InvalidFrontmatter(_)));
}

#[test]
fn parse_missing_name() {
    let err = Skill::parse("---\ndescription: description\n---\n").unwrap_err();
    assert!(matches!(err, SkillError::InvalidName(_)));
}

#[test]
fn parse_invalid_names() {
    for bad in [
        "Bad-name",
        "bad_name",
        "bad name",
        &"a".repeat(65),
        "-bad",
        "bad-",
        "ba--d",
    ] {
        let content = format!("---\nname: {bad}\ndescription: description\n---\n");
        assert!(
            matches!(Skill::parse(&content), Err(SkillError::InvalidName(_))),
            "name should be rejected: {bad}"
        );
    }
}

#[test]
fn parse_invalid_descriptions() {
    let missing = Skill::parse("---\nname: a\n---\n").unwrap_err();
    assert!(matches!(missing, SkillError::InvalidDescription(_)));

    let long = Skill::parse(&format!(
        "---\nname: a\ndescription: {}\n---\n",
        "x".repeat(1025)
    ))
    .unwrap_err();
    assert!(matches!(long, SkillError::InvalidDescription(_)));
}

#[test]
fn parse_compatibility_too_long() {
    let err = Skill::parse(&format!(
        "---\nname: a\ndescription: description\ncompatibility: {}\n---\n",
        "x".repeat(501)
    ))
    .unwrap_err();
    assert!(matches!(err, SkillError::InvalidFrontmatter(_)));
}

#[test]
fn parse_metadata_nested_rejected() {
    let content = "---\nname: a\ndescription: description\nmetadata:\n  tags:\n    - x\n---\n";
    let err = Skill::parse(content).unwrap_err();
    assert!(matches!(err, SkillError::InvalidFrontmatter(_)));
}

#[test]
fn list_under_an_unknown_field_rejected() {
    let content = "---\nname: a\ndescription: d\ntags:\n  - x\n---\n";
    assert_eq!(
        Skill::parse(content).unwrap_err(),
        SkillError::InvalidFrontmatter("unsupported nested structure: - x".into())
    );
    let content = "---\n  - x\nname: a\ndescription: d\n---\n";
    assert_eq!(
        Skill::parse(content).unwrap_err(),
        SkillError::InvalidFrontmatter("unsupported nested structure: - x".into())
    );
    let content = "---\nname: a\ndescription: d\nmetadata:\n  - x\n---\n";
    assert_eq!(
        Skill::parse(content).unwrap_err(),
        SkillError::InvalidFrontmatter("metadata does not support nested lists".into())
    );
}

#[test]
fn parse_metadata_inline_value_rejected() {
    let err =
        Skill::parse("---\nname: a\ndescription: description\nmetadata: foo\n---\n").unwrap_err();
    assert!(matches!(err, SkillError::InvalidFrontmatter(_)));
}

#[test]
fn parse_unknown_field_empty_value() {
    let skill =
        Skill::parse("---\nname: a\ndescription: description\nuser-invocable:\n---\n").unwrap();
    assert_eq!(
        skill.metadata(),
        &[("user-invocable".to_string(), String::new())]
    );
}

#[test]
fn parse_invalid_allowed_tool_entries() {
    for bad in ["Bash(git:*", "Bash)git:*", "()", "(x)"] {
        let content =
            format!("---\nname: a\ndescription: description\nallowed-tools: {bad}\n---\n");
        assert!(
            matches!(
                Skill::parse(&content),
                Err(SkillError::InvalidFrontmatter(_))
            ),
            "entry should be rejected: {bad}"
        );
    }
}

#[test]
fn body_size_limit_is_in_characters() {
    let fits = skill_text("a", "description", &"é".repeat(262_144));
    assert_eq!(Skill::parse(&fits).unwrap().body().chars().count(), 262_144);
    let err = Skill::parse(&skill_text("a", "description", &"é".repeat(262_145))).unwrap_err();
    assert_eq!(
        err,
        SkillError::InvalidBody("body exceeds size limit (262144 chars)".into())
    );
}

#[test]
fn from_dir_ok_with_resources() {
    let skill = in_dir(
        "code-review",
        "Review code",
        "Step one",
        vec![
            "scripts/run.sh".into(),
            "references/style.md".into(),
            "references/nested/check.md".into(),
        ],
    );
    assert_eq!(skill.name(), "code-review");
    assert_eq!(skill.body(), "Step one");
    assert_eq!(
        skill.resources(),
        &[
            "references/nested/check.md".to_string(),
            "references/style.md".to_string(),
            "scripts/run.sh".to_string(),
        ]
    );
    assert_eq!(skill.base_dir(), Some("/skills/code-review"));
}

#[test]
fn resources_are_ordered_by_path_components() {
    let skill = in_dir(
        "a",
        "description",
        "body",
        vec!["references-x/b".into(), "references/z".into()],
    );
    assert_eq!(
        skill.resources(),
        &["references/z".to_string(), "references-x/b".to_string()]
    );
}

#[test]
fn from_dir_name_mismatch() {
    let err = Skill::from_dir(
        "/skills/wrong-dir",
        "wrong-dir",
        FoundFile::Text("---\nname: right-name\ndescription: description\n---\nbody".into()),
        vec![],
    )
    .unwrap_err();
    assert!(matches!(
        &err,
        SkillError::NameMismatch { name, dir: _ } if name == "right-name"
    ));
}

#[test]
fn from_dir_missing_skill_md() {
    let err =
        Skill::from_dir("/skills/empty", "empty", FoundFile::Missing, vec![]).unwrap_err();
    assert_eq!(
        err,
        SkillError::NotFound("no SKILL.md in directory: /skills/empty".into())
    );
}

#[test]
fn from_dir_rejects_symlinked_skill_md() {
    let err = Skill::from_dir("/skills/a", "a", FoundFile::Outside, vec![]).unwrap_err();
    assert!(matches!(err, SkillError::NotFound(_)));
}

#[test]
fn from_dir_reports_file_system_failures() {
    let err = Skill::from_dir("/s/a", "a", FoundFile::Unreadable("denied".into()), vec![])
        .unwrap_err();
    assert_eq!(err, SkillError::Io("denied".into()));
    let err = Skill::from_dir("/s/a", "a", FoundFile::RootUnresolved("loop".into()), vec![])
        .unwrap_err();
    assert_eq!(err, SkillError::Io("cannot resolve skill root: loop".into()));
    let big = FoundFile::Text("x".repeat(1_048_577));
    let err = Skill::from_dir("/s/a", "a", big, vec![]).unwrap_err();
    assert!(matches!(err, SkillError::InvalidBody(_)));
}

#[test]
fn load_reference_ok() {
    let skill = in_dir("a", "description", "body", vec!["references/style.md".into()]);
    assert_eq!(
        skill
            .load_reference("references/style.md", FoundFile::Text("style content".into()))
            .unwrap(),
        "style content"
    );
}

#[test]
fn load_reference_missing_or_invalid() {
    let skill = in_dir("a", "description", "body", vec![]);
    let text = || FoundFile::Text("secret".to_string());

    let err = skill.load_reference("nope.md", FoundFile::Missing).unwrap_err();
    assert_eq!(err, SkillError::NotFound("resource not found: nope.md".into()));
    let err = skill.load_reference("../SKILL.md", text()).unwrap_err();
    assert!(matches!(err, SkillError::NotFound(_)));
    let err = skill.load_reference("/etc/passwd", text()).unwrap_err();
    assert!(matches!(err, SkillError::NotFound(_)));
    let err = skill.load_reference("references/../../x", text()).unwrap_err();
    assert!(matches!(err, SkillError::NotFound(_)));

    let parsed = Skill::parse("---\nname: a\ndescription: description\n---\nbody").unwrap();
    let err = parsed.load_reference("x.md", text()).unwrap_err();
    assert!(matches!(err, SkillError::NotFound(_)));
}

#[test]
fn load_reference_rejects_symlink_escape() {
    let skill = in_dir("a", "description", "body", vec!["references/leak".into()]);
    let err = skill
        .load_reference("references/leak", FoundFile::Outside)
        .unwrap_err();
    assert!(matches!(err, SkillError::NotFound(_)));
}

#[test]
fn registry_add_get_remove() {
    let mut registry = SkillRegistry::new();
    assert!(registry.get("a").is_none());

    registry.add(minimal("a"));
    assert_eq!(registry.get("a").unwrap().name(), "a");
    assert!(registry.remove("a"));
    assert!(registry.get("a").is_none());
    assert!(!registry.remove("a"));
}

#[test]
fn registry_add_duplicate_replaces_in_place() {
    let mut registry = SkillRegistry::new();
    registry
        .add(minimal("a"))
        .add(minimal("b"))
        .add(minimal("c"));

    let v2 = Skill::parse("---\nname: b\ndescription: new description\n---\nnew body").unwrap();
    registry.add(v2);
    let names: Vec<String> = registry
        .skills()
        .iter()
        .map(|s| s.name().to_string())
        .collect();
    assert_eq!(names, vec!["a", "b", "c"]);
    assert_eq!(registry.get("b").unwrap().body(), "new body");
}

#[test]
fn registry_menu_format() {
    let mut registry = SkillRegistry::new();
    registry.add(minimal("a")).add(minimal("b"));
    assert_eq!(registry.menu(), "- a: description\n- b: description");
    assert_eq!(SkillRegistry::new().menu(), "");
}

#[test]
fn registry_hot_swap_add_remove() {
    let mut registry = SkillRegistry::new();
    registry.add(minimal("a"));
    assert!(registry.get("a").is_some());
    registry.remove("a");
    assert!(registry.get("a").is_none());
}

#[test]
fn registry_removal_keeps_the_order_of_the_others() {
    let mut registry = SkillRegistry::new();
    registry
        .add(minimal("a"))
        .add(minimal("b"))
        .add(minimal("c"));
    assert!(registry.remove("a"));
    assert_eq!(registry.menu(), "- b: description\n- c: description");
}

#[test]
fn registry_from_dir_skips_bad_skills() {
    let scan = Ok(vec![
        Ok(minimal("good")),
        Err(SkillError::NotFound("no SKILL.md".into())),
        Skill::parse("no frontmatter"),
    ]);
    let registry = SkillRegistry::from_dir(scan).unwrap();
    assert_eq!(registry.skills().len(), 1);
    assert!(registry.get("good").is_some());
}

#[test]
fn registry_from_dir_root_io_error() {
    let registry = SkillRegistry::from_dir(Err("no such directory".to_string()));
    assert!(matches!(registry, Err(SkillError::Io(e)) if e == "no such directory"));
}

fn source(skills: Vec<Skill>) -> Result<SkillRegistry, SkillError> {
    SkillRegistry::from_dir(Ok(skills.into_iter().map(Ok).collect()))
}

#[test]
fn from_dirs_merges_with_later_override() {
    let user = source(vec![
        in_dir("greet", "user version", "user body", vec![]),
        in_dir("user-only", "user only", "body", vec![]),
    ]);
    let project = source(vec![
        in_dir("greet", "project version", "project body", vec![]),
        in_dir("project-only", "project only", "body", vec![]),
    ]);
    let registry = SkillRegistry::from_dirs(vec![user, project]);
    let names: Vec<String> = registry
        .skills()
        .iter()
        .map(|s| s.name().to_string())
        .collect();
    assert_eq!(names, vec!["greet", "user-only", "project-only"]);
    assert_eq!(registry.get("greet").unwrap().body(), "project body");
    assert_eq!(registry.get("user-only").unwrap().body(), "body");
}

#[test]
fn from_dirs_skips_missing_sources() {
    let missing = || SkillRegistry::from_dir(Err("missing".to_string()));
    let registry =
        SkillRegistry::from_dirs(vec![missing(), source(vec![minimal("a")]), missing()]);
    assert_eq!(registry.skills().len(), 1);
    let empty = SkillRegistry::from_dirs(vec![missing(), missing()]);
    assert!(empty.skills().is_empty());
}

#[test]
fn from_dirs_empty_list() {
    assert!(SkillRegistry::from_dirs(vec![]).skills().is_empty());
}

#[test]
fn allowed_tool_permits_rules() {
    let bash_git = AllowedTool {
        name: "Bash".into(),
        scope: Some("git:*".into()),
    };
    assert!(bash_git.permits("Bash", "git:diff --stat"));
    assert!(bash_git.permits("Bash", "git:log"));
    assert!(!bash_git.permits("Bash", "rm -rf /"));
    assert!(!bash_git.permits("Python", "git:log"));

    let exact = AllowedTool {
        name: "Bash".into(),
        scope: Some("git:status".into()),
    };
    assert!(exact.permits("Bash", "git:status"));
    assert!(!exact.permits("Bash", "git:log"));

    let python = AllowedTool {
        name: "Python".into(),
        scope: None,
    };
    assert!(python.permits("Python", "print('hello')"));
    assert!(!python.permits("Bash", "echo hi"));
}

fn named(name: &str) -> Json {
    Json::object(JsonMap::new().put("name".to_string(), Json::text(name.to_string())))
}

fn text_of(result: Result<ToolResult, ToolError>) -> String {
    result.unwrap().message()
}

#[test]
fn load_skill_returns_wrapped_body() {
    let mut registry = SkillRegistry::new();
    registry.add(minimal("a"));
    let mut tool = LoadSkillTool::new(None);
    let result = tool.call(&registry, &named("a"));
    assert_eq!(
        text_of(result),
        "<skill_content name=\"a\">\nbody\n</skill_content>"
    );
}

#[test]
fn load_skill_deduplicates_activations() {
    let mut registry = SkillRegistry::new();
    registry.add(minimal("a"));
    let mut tool = LoadSkillTool::new(None);

    let first = text_of(tool.call(&registry, &named("a")));
    assert!(first.contains("body"));
    let second = text_of(tool.call(&registry, &named("a")));
    assert!(second.contains("already active"));
    assert!(!second.contains("body"));
    let mut fresh = LoadSkillTool::new(None);
    let again = text_of(fresh.call(&registry, &named("a")));
    assert!(again.contains("body"));
}

#[test]
fn load_skill_output_is_protected() {
    let mut registry = SkillRegistry::new();
    registry.add(minimal("a"));
    let mut tool = LoadSkillTool::new(None);
    for _ in 0..2 {
        let result = tool.call(&registry, &named("a"));
        assert!(matches!(
            result,
            Ok(ToolResult::Output(output)) if output.memory_policy == ToolMemoryPolicy::Protected
        ));
    }
}

#[test]
fn load_skill_schema_enum_lists_enabled_skills() {
    let mut registry = SkillRegistry::new();
    registry
        .add(minimal("a"))
        .add(minimal("b"))
        .add(minimal("c"));
    let tool = LoadSkillTool::new(Some(vec!["a".to_string(), "b".to_string()]));
    let base = parse_json(
        r#"{"type":"object","properties":{"name":{"type":"string"}},"required":["name"]}"#,
    )
    .unwrap();
    let schema = tool.schema(&registry, &base);
    assert_eq!(schema.name, "load_skill");
    let property = schema.parameters.get("properties").unwrap().get("name").unwrap();
    assert_eq!(property.get("type").unwrap().as_str(), Some("string"));
    let names: Vec<&str> = property
        .get("enum")
        .unwrap()
        .as_array()
        .unwrap()
        .iter()
        .map(|v| v.as_str().unwrap())
        .collect();
    assert_eq!(names, vec!["a", "b"]);
    assert_eq!(schema.parameters.get("type").unwrap().as_str(), Some("object"));
    assert_eq!(schema.policy.memory_policy, ToolMemoryPolicy::Protected);
}

#[test]
fn load_skill_content_lists_resources() {
    let skill = in_dir("a", "description", "body", vec!["references/style.md".into()]);
    let content = format_skill_content(&skill);
    assert_eq!(
        content,
        "<skill_content name=\"a\">\nbody\n\nRelative paths in this skill are relative to the skill directory.\n\n<skill_resources>\n  <file>references/style.md</file>\n</skill_resources>\n</skill_content>"
    );
    assert!(!content.contains("/skills/a"));
}

#[test]
fn load_skill_not_found() {
    let registry = SkillRegistry::new();
    let mut tool = LoadSkillTool::new(None);
    let err = tool.call(&registry, &named("ghost")).unwrap_err();
    assert!(err.message().contains("not found"));
}

#[test]
fn load_skill_not_enabled() {
    let mut registry = SkillRegistry::new();
    registry.add(minimal("a")).add(minimal("b"));
    let mut tool = LoadSkillTool::new(Some(vec!["a".to_string()]));
    let err = tool.call(&registry, &named("b")).unwrap_err();
    assert!(err.message().contains("not enabled"));
    let ok = text_of(tool.call(&registry, &named("a")));
    assert!(ok.contains("body"));
}

#[test]
fn load_skill_reports_a_missing_skill_before_the_allowlist() {
    let registry = SkillRegistry::new();
    let mut tool = LoadSkillTool::new(Some(vec!["a".to_string()]));
    let err = tool.call(&registry, &named("ghost")).unwrap_err();
    assert_eq!(err, ToolError::Execution("skill 'ghost' not found".into()));
}

#[test]
fn load_skill_missing_name_argument() {
    let registry = SkillRegistry::new();
    let mut tool = LoadSkillTool::new(None);
    let err = tool
        .call(&registry, &Json::object(JsonMap::new()))
        .unwrap_err();
    assert!(matches!(err, ToolError::InvalidArguments(_)));
}

#[test]
fn refused_arguments_are_named_in_the_error() {
    let registry = SkillRegistry::new();
    let mut tool = LoadSkillTool::new(None);
    for (arguments, fault) in [
        (r#"{}"#, "missing field `name`"),
        (r#"{"other": 1}"#, "missing field `name`"),
        (r#"{"name": 5}"#, "invalid type: integer `5`, expected a string"),
        (r#"{"name": null}"#, "invalid type: null, expected a string"),
        (r#"{"name": 1.5}"#, "invalid type: floating point `1.5`, expected a string"),
        (r#"{"name": ["a"]}"#, "invalid type: sequence, expected a string"),
        (r#"[{}]"#, "invalid type: map, expected a string"),
        (r#"[]"#, "invalid length 0, expected struct LoadSkillArgs with 1 element"),
        (r#"["a", "b"]"#, "invalid length 2, expected fewer elements in array"),
        (r#""a""#, "invalid type: string \"a\", expected struct LoadSkillArgs"),
        (r#"true"#, "invalid type: boolean `true`, expected struct LoadSkillArgs"),
        (r#"null"#, "invalid type: null, expected struct LoadSkillArgs"),
    ] {
        let err = tool.call(&registry, &parse_json(arguments).unwrap()).unwrap_err();
        assert_eq!(err, ToolError::InvalidArguments(fault.into()), "{arguments}");
    }
}
