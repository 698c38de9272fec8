use cargo_rail_action::audit::{Audit, Finding, Interface, Severity};
use cargo_rail_action::json::Json;
use cargo_rail_action::workflow_audit::audit_file;

fn to_json(value: &serde_json::Value) -> Json {
    match value {
        serde_json::Value::Null => Json::Null,
        serde_json::Value::Bool(b) => Json::Bool(*b),
        serde_json::Value::Number(n) => {
            if let Some(u) = n.as_u64() {
                Json::UInt(u)
            } else if let Some(i) = n.as_i64() {
                Json::NegInt(i)
            } else {
                Json::Float(n.to_string())
            }
        }
        serde_json::Value::String(s) => Json::Str(s.clone()),
        serde_json::Value::Array(items) => Json::Array(items.iter().map(to_json).collect()),
        serde_json::Value::Object(entries) => {
            Json::Object(entries.iter().map(|(k, v)| (k.clone(), to_json(v))).collect())
        }
    }
}

fn names(values: &[&str]) -> Vec<String> {
    values.iter().map(|value| value.to_string()).collect()
}

/// The declared surfaces of the planner, cache and setup actions.
fn interfaces() -> Vec<Interface> {
    vec![
        Interface {
            action: String::new(),
            inputs: names(&[
                "all",
                "components",
                "evidence",
                "repository-token",
                "runtime-source",
                "since",
                "version",
                "working-directory",
            ]),
            outputs: names(&["plan-file", "required-work", "version"]),
        },
        Interface {
            action: "cache".to_string(),
            inputs: names(&[
                "local-dir",
                "max-size",
                "mode",
                "remote",
                "root-portability",
                "runtime-source",
                "verify-remote",
                "version",
                "working-directory",
            ]),
            outputs: names(&["status", "version"]),
        },
        Interface {
            action: "setup".to_string(),
            inputs: names(&["runtime-source", "version"]),
            outputs: names(&["version"]),
        },
    ]
}

fn audit(files: &[(&str, &str)]) -> Audit {
    let interfaces = interfaces();
    let mut audit = Audit::new();
    for (path, text) in files {
        let parsed = serde_saphyr::from_str::<serde_json::Value>(text)
            .map(|value| to_json(&value))
            .map_err(|error| error.to_string());
        audit_file(&mut audit, path, text, &parsed, &interfaces);
    }
    audit.sort_findings();
    audit
}

const CURRENT: &str = "\
on: pull_request
jobs:
  plan:
    runs-on: ubuntu-latest
    outputs:
      required-work: ${{ steps.rail.outputs.required-work }}
    steps:
      - uses: loadingalias/cargo-rail-action@v10
        id: rail
        with:
          since: origin/main
  test:
    needs: plan
    if: contains(fromJSON(needs.plan.outputs.required-work), 'cargo.test')
    runs-on: ubuntu-latest
    steps:
      - run: cargo test
";

fn messages(audit: &Audit) -> Vec<(usize, String)> {
    audit
        .findings
        .iter()
        .map(|finding| (finding.line, finding.message.clone()))
        .collect()
}

#[test]
fn a_complete_current_migration_has_no_findings() {
    let audit = audit(&[(".github/workflows/ci.yml", CURRENT)]);
    assert!(audit.findings.is_empty(), "{:?}", messages(&audit));
    assert_eq!(audit.references.len(), 1);
    assert_eq!(audit.conditions.len(), 1);
    let rendered = audit.render();
    assert!(rendered.contains(".github/workflows/ci.yml:8  loadingalias/cargo-rail-action@v10 (v10, mutable)"));
    assert!(rendered.contains("inputs: since"));
    assert!(rendered.contains("job test: contains(fromJSON(needs.plan.outputs.required-work), 'cargo.test')"));
}

#[test]
fn every_planner_integration_is_found_including_unlisted_files() {
    let composite = "\
runs:
  using: composite
  steps:
    - uses: loadingalias/cargo-rail-action@v10
      id: rail
";
    let audit = audit(&[
        (".github/workflows/a.yml", CURRENT),
        (".github/workflows/b.yml", CURRENT),
        (".github/workflows/c.yaml", CURRENT),
        (".github/actions/route/action.yml", composite),
    ]);
    assert_eq!(audit.references.len(), 4);
    assert!(audit.findings.is_empty(), "{:?}", messages(&audit));
}

#[test]
fn mixed_versions_fail_with_exact_locations() {
    let legacy = "\
jobs:
  plan:
    runs-on: ubuntu-latest
    steps:
      - uses: loadingalias/cargo-rail-action@3d3c42e5aac5ba805825da76410c181273ba90b1 # v6.1.2
        id: rail
";
    let audit = audit(&[
        (".github/workflows/ci.yml", CURRENT),
        (".github/workflows/old.yml", legacy),
    ]);
    assert_eq!(audit.errors(), 1, "{:?}", messages(&audit));
    let finding = &audit.findings[0];
    assert_eq!((finding.file.as_str(), finding.line), (".github/workflows/old.yml", 5));
    assert!(finding
        .message
        .contains("is v6; migrate every Cargo-Rail Action reference to v10 together"));
    assert!(audit.render().contains("(v6, immutable)"));
}

#[test]
fn legacy_boolean_consumers_fail_before_execution() {
    let workflow = "\
jobs:
  plan:
    runs-on: ubuntu-latest
    outputs:
      test: ${{ steps.rail.outputs.test }}
      required-work: ${{ steps.rail.outputs.required-work }}
    steps:
      - uses: loadingalias/cargo-rail-action@v10
        id: rail
      - if: steps.rail.outputs.docs == 'true'
        run: cargo doc
  test:
    needs: [plan]
    if: needs.plan.outputs.build == 'true' || needs.plan.outputs.test == 'true'
    runs-on: ubuntu-latest
    steps:
      - run: cargo test
";
    let audit = audit(&[(".github/workflows/ci.yml", workflow)]);
    let located = messages(&audit);
    assert_eq!(audit.errors(), 3, "{located:?}");
    assert!(located
        .iter()
        .any(|(line, message)| *line == 5 && message.contains("has no output test")));
    assert!(located
        .iter()
        .any(|(line, message)| *line == 10 && message.contains("has no output docs")));
    assert!(located.iter().any(|(line, message)| *line == 14
        && message.contains("needs.plan.outputs.build, which job plan does not export")));
}

#[test]
fn outputs_of_other_steps_remain_valid_exports() {
    let workflow = "\
jobs:
  plan:
    runs-on: ubuntu-latest
    outputs:
      host-tests: ${{ steps.scope.outputs.required }}
    steps:
      - uses: loadingalias/cargo-rail-action@v10
        id: rail
      - id: scope
        run: echo required=true >> \"$GITHUB_OUTPUT\"
  test:
    needs: plan
    if: needs.plan.outputs.host-tests == 'true'
    runs-on: ubuntu-latest
    steps:
      - run: cargo test
";
    let audit = audit(&[(".github/workflows/ci.yml", workflow)]);
    assert!(audit.findings.is_empty(), "{:?}", messages(&audit));
}

#[test]
fn unknown_inputs_and_actions_are_errors() {
    let workflow = "\
jobs:
  plan:
    runs-on: ubuntu-latest
    steps:
      - uses: loadingalias/cargo-rail-action@v10
        with:
          confidence-profile: strict
      - uses: loadingalias/cargo-rail-action/removed@v10
";
    let audit = audit(&[(".github/workflows/ci.yml", workflow)]);
    let messages = messages(&audit);
    assert_eq!(audit.errors(), 2, "{messages:?}");
    assert!(messages
        .iter()
        .any(|(line, message)| *line == 7 && message.contains("has no input confidence-profile")));
    assert!(messages
        .iter()
        .any(|(line, message)| *line == 8 && message.contains("removed is not an action")));
}

#[test]
fn plan_transfer_hazards_are_warnings() {
    let workflow = "\
jobs:
  plan:
    runs-on: ubuntu-latest
    outputs:
      plan: ${{ steps.rail.outputs.plan-file }}
      required-work: ${{ steps.rail.outputs.required-work }}
    steps:
      - uses: loadingalias/cargo-rail-action@v10
        id: rail
  macos:
    needs: plan
    runs-on: macos-latest
    steps:
      - uses: loadingalias/cargo-rail-action/setup@v10
      - run: cargo-rail-action plan cargo-args \"$PLAN_FILE\" cargo.test
  linux:
    needs: plan
    runs-on: ubuntu-latest
    steps:
      - run: cargo-rail-action plan cargo-args \"$PLAN_FILE\" cargo.test
  replanned:
    needs: plan
    runs-on: windows-latest
    steps:
      - uses: loadingalias/cargo-rail-action@v10
      - run: cargo-rail-action plan cargo-args \"$PLAN_FILE\" cargo.test
";
    let audit = audit(&[(".github/workflows/ci.yml", workflow)]);
    assert_eq!(audit.errors(), 0, "{:?}", messages(&audit));
    let warnings = messages(&audit);
    assert_eq!(warnings.len(), 2, "{warnings:?}");
    assert!(warnings
        .iter()
        .any(|(line, message)| *line == 5 && message.contains("exports plan-file")));
    assert!(warnings.iter().any(|(line, message)| *line == 12
        && message.contains("job macos reads a plan from job plan, which runs on ubuntu-latest")));
}

#[test]
fn unparseable_references_are_never_skipped_silently() {
    let audit = audit(&[(
        ".github/workflows/broken.yml",
        "jobs: [\n  uses: loadingalias/cargo-rail-action@v10\n",
    )]);
    assert_eq!(audit.errors(), 1);
    assert!(audit.findings[0].message.contains("is not valid YAML"));
}

#[test]
fn annotations_carry_file_and_line() {
    let mut audit = Audit::new();
    audit.findings.push(Finding {
        file: "a,b:c.yml".to_string(),
        line: 3,
        severity: Severity::Warning,
        message: "100%\nnext".to_string(),
    });
    assert_eq!(
        audit.annotations(),
        "::warning file=a%2Cb%3Ac.yml,line=3::100%25%0Anext\n"
    );
}

#[test]
fn listed_yaml_paths_are_sorted_unique_and_nonempty() {
    let listing = b".github/workflows/z.yml\0action.yml\0\0.github/workflows/a.yaml\0action.yml\0";
    assert_eq!(
        cargo_rail_action::audit::listing_paths(listing),
        vec![".github/workflows/a.yaml".to_string(), ".github/workflows/z.yml".to_string(), "action.yml".to_string()]
    );
    assert!(cargo_rail_action::audit::listing_paths(b"").is_empty());
    assert_eq!(
        cargo_rail_action::audit::git_failure("cannot list repository YAML files", b" fatal: not a repository \n").message,
        "cannot list repository YAML files: fatal: not a repository"
    );
}
