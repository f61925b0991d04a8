use argocd_diff_preview::argocd::decode_admin_password;
use argocd_diff_preview::branch::Branch;
use argocd_diff_preview::branch::BranchType;
use argocd_diff_preview::codec::parse_doc;
use argocd_diff_preview::codec::render_doc;
use argocd_diff_preview::command::cluster_exists;
use argocd_diff_preview::command::is_installed;
use argocd_diff_preview::command::CommandOutput;
use argocd_diff_preview::diff::generate_diff;
use argocd_diff_preview::diff::markdown_template_length;
use argocd_diff_preview::diff::print_diff;
use argocd_diff_preview::naming::str_le;
use argocd_diff_preview::naming::unique_names;
use argocd_diff_preview::parsing::select_yaml_files;
use argocd_diff_preview::reconcile::classify_app;
use argocd_diff_preview::reconcile::classify_message;
use argocd_diff_preview::reconcile::decide_cycle;
use argocd_diff_preview::reconcile::poll_should_stop;
use argocd_diff_preview::reconcile::AppStatus;
use argocd_diff_preview::reconcile::ConditionVerdict;
use argocd_diff_preview::reconcile::MessageClass;
use argocd_diff_preview::reconcile::PollStep;
use argocd_diff_preview::report::generate_markdown;
use argocd_diff_preview::report::get_message;
use argocd_diff_preview::resource::ArgoResource;
use argocd_diff_preview::resource::K8sResource;
use argocd_diff_preview::selector::Operator;
use argocd_diff_preview::selector::Selector;
use argocd_diff_preview::strutil;
use argocd_diff_preview::yaml::Yaml;

fn ekv(k: &str, v: Yaml) -> (String, Yaml) {
    (k.to_string(), v)
}

fn estr(s: &str) -> Yaml {
    Yaml::Str(s.to_string())
}

#[test]
fn string_helpers_behave() {
    assert!(strutil::eq_str("abc", "abc"));
    assert!(!strutil::eq_str("abc", "abd"));
    assert!(strutil::contains_sub("hello world", "lo wo"));
    assert!(!strutil::contains_sub("hello", "z"));
    assert!(strutil::ends_with_sub("a/b.yaml", ".yaml"));
    assert_eq!(strutil::trim("  a b \t"), "a b");
    let parts = strutil::split_all("a,b,,c", ",");
    assert_eq!(parts, vec!["a", "b", "", "c"]);
    assert_eq!(strutil::join_with(&parts, "-"), "a-b--c");
    assert_eq!(strutil::u64_to_dec(0), "0");
    assert_eq!(strutil::u64_to_dec(907), "907");
    assert_eq!(strutil::replace_all("x%y%z", "%", "__"), "x__y__z");
    assert!(str_le("abc", "abd"));
    assert!(str_le("ab", "abc"));
    assert!(!str_le("b", "abc"));
}

#[test]
fn codec_round_trips_a_document() {
    let doc = parse_doc("a: hi\nb:\n  - x\n  - true\nn: 7\n").expect("should parse");
    assert_eq!(doc.get_str("a").map(|s| s.as_str()), Some("hi"));
    assert!(matches!(doc.get("n"), Some(argocd_diff_preview::yaml::Yaml::Num(t)) if t == "7"));
    let rendered = render_doc(&doc).expect("should render");
    let again = parse_doc(&rendered).expect("rendered text should parse");
    assert!(doc.deep_eq(&again));
}

#[test]
fn yaml_operations_behave() {
    let m = Yaml::Mapping(vec![ekv("a", estr("1")), ekv("b", estr("2"))]);
    assert!(m.has("a"));
    let m = m.set("a", estr("9"));
    assert_eq!(m.get_str("a").map(|s| s.as_str()), Some("9"));
    let m = m.remove("b");
    assert!(!m.has("b"));
    assert!(m.has("a"));
}

// A status message reporting an i/o timeout is retryable, never permanent.
#[test]
fn io_timeout_is_retryable() {
    let c = classify_message(
        "rpc error: code = Unknown: dial tcp 1.2.3.4:443: i/o timeout",
    );
    assert!(matches!(c, MessageClass::Retryable));
}

#[test]
fn permanent_errors_classify_first() {
    assert!(matches!(
        classify_message("authentication required for repo"),
        MessageClass::Permanent
    ));
    // A message holding entries of both tables is taken by the permanent
    // table first.
    assert!(matches!(
        classify_message("authentication required after i/o timeout"),
        MessageClass::Permanent
    ));
    assert!(matches!(
        classify_message("some new error nobody knows"),
        MessageClass::Other
    ));
}

fn app_item(name: &str, status: &str, conditions: Vec<Yaml>) -> Yaml {
    Yaml::Mapping(vec![
        ekv("metadata", Yaml::Mapping(vec![ekv("name", estr(name))])),
        ekv(
            "status",
            Yaml::Mapping(vec![
                ekv("sync", Yaml::Mapping(vec![ekv("status", estr(status))])),
                ekv("conditions", Yaml::List(conditions)),
            ]),
        ),
    ])
}

#[test]
fn synced_and_out_of_sync_apps_are_ready() {
    assert!(matches!(
        classify_app(&app_item("a", "Synced", vec![])),
        AppStatus::Ready
    ));
    assert!(matches!(
        classify_app(&app_item("a", "OutOfSync", vec![])),
        AppStatus::Ready
    ));
    assert!(matches!(
        classify_app(&app_item("a", "Progressing", vec![])),
        AppStatus::Waiting
    ));
}

#[test]
fn unknown_apps_get_condition_verdicts() {
    let item = app_item(
        "a",
        "Unknown",
        vec![
            Yaml::Mapping(vec![
                ekv("type", estr("ComparisonError")),
                ekv("message", estr("x: i/o timeout")),
            ]),
            Yaml::Mapping(vec![
                ekv("type", estr("ComparisonError")),
                ekv("message", estr("path does not exist")),
            ]),
            Yaml::Mapping(vec![
                ekv("type", estr("Healthy")),
                ekv("message", estr("ignored, not an error type")),
            ]),
        ],
    );
    match classify_app(&item) {
        AppStatus::Blocked(vs) => {
            assert_eq!(vs.len(), 2);
            assert!(matches!(&vs[0], ConditionVerdict::Retryable(m) if m.contains("timeout")));
            assert!(matches!(&vs[1], ConditionVerdict::Permanent(m) if m.contains("path")));
        }
        _ => panic!("an Unknown app should be blocked"),
    }
}

#[test]
fn obstructive_finalizers_are_found() {
    let item = Yaml::Mapping(vec![ekv(
        "metadata",
        Yaml::Mapping(vec![
            ekv("name", estr("a")),
            ekv("namespace", estr("ns")),
            ekv(
                "finalizers",
                Yaml::List(vec![
                    estr("something-else"),
                    estr("post-delete-finalizer.argocd.argoproj.io"),
                ]),
            ),
        ]),
    )]);
    let hit = argocd_diff_preview::reconcile::finalizers_to_clear(&item);
    assert_eq!(hit, Some(("a".to_string(), "ns".to_string())));

    let clean = Yaml::Mapping(vec![ekv(
        "metadata",
        Yaml::Mapping(vec![
            ekv("name", estr("a")),
            ekv("namespace", estr("ns")),
            ekv("finalizers", Yaml::List(vec![estr("something-else")])),
        ]),
    )]);
    assert!(argocd_diff_preview::reconcile::finalizers_to_clear(&clean).is_none());
}

#[test]
fn poll_loop_decisions() {
    let items = vec![app_item("a", "Synced", vec![])];
    assert!(!poll_should_stop(Some(&items), 0));
    assert!(poll_should_stop(Some(&items), 1));
    assert!(poll_should_stop(Some(&Vec::new()), 0));
    assert!(poll_should_stop(None, 0));

    assert!(matches!(decide_cycle(3, 1, 2, 0, 60), PollStep::FailPermanent));
    assert!(matches!(decide_cycle(3, 3, 0, 99, 60), PollStep::Continue));
    assert!(matches!(decide_cycle(3, 1, 0, 61, 60), PollStep::FailTimeout));
    assert!(matches!(decide_cycle(3, 1, 0, 10, 60), PollStep::Continue));
}

fn named_app(name: &str, path_value: &str) -> ArgoResource {
    let doc = Yaml::Mapping(vec![
        ekv("kind", estr("Application")),
        ekv("metadata", Yaml::Mapping(vec![ekv("name", estr(name))])),
        ekv(
            "spec",
            Yaml::Mapping(vec![ekv("path", estr(path_value))]),
        ),
    ]);
    ArgoResource::from_k8s_resource(K8sResource {
        file_name: "f.yaml".to_string(),
        yaml: doc,
    })
    .unwrap()
}

// Duplicate names get deterministic -1/-2 suffixes, ordered by the
// documents' rendered text.
#[test]
fn duplicate_names_are_suffixed_in_rendered_order() {
    let a = named_app("demo", "zzz");
    let b = named_app("demo", "aaa");
    let out = unique_names(vec![a, b]);
    assert_eq!(out.len(), 2);
    // The document holding "aaa" renders below the one holding "zzz".
    assert_eq!(out[0].name, "demo-1");
    assert_eq!(out[1].name, "demo-2");
    assert_eq!(
        out[0].yaml.get("spec").unwrap().get_str("path").map(|s| s.as_str()),
        Some("aaa")
    );
    assert_eq!(
        out[0]
            .yaml
            .get("metadata")
            .unwrap()
            .get_str("name")
            .map(|s| s.as_str()),
        Some("demo-1")
    );
}

// The assignment does not depend on the order the resources arrive in.
#[test]
fn name_assignment_is_order_independent() {
    let run1 = unique_names(vec![
        named_app("demo", "zzz"),
        named_app("demo", "aaa"),
        named_app("solo", "s"),
    ]);
    let run2 = unique_names(vec![
        named_app("solo", "s"),
        named_app("demo", "aaa"),
        named_app("demo", "zzz"),
    ]);
    let mut names1: Vec<(String, String)> = run1
        .iter()
        .map(|a| {
            (
                a.name.clone(),
                a.yaml.get("spec").unwrap().get_str("path").unwrap().clone(),
            )
        })
        .collect();
    let mut names2: Vec<(String, String)> = run2
        .iter()
        .map(|a| {
            (
                a.name.clone(),
                a.yaml.get("spec").unwrap().get_str("path").unwrap().clone(),
            )
        })
        .collect();
    names1.sort();
    names2.sort();
    assert_eq!(names1, names2);
}

#[test]
fn unique_groups_pass_through_unchanged() {
    let out = unique_names(vec![named_app("one", "a"), named_app("two", "b")]);
    assert_eq!(out[0].name, "one");
    assert_eq!(out[1].name, "two");
}

#[test]
fn yaml_files_are_selected_by_extension_and_regex() {
    let paths = vec![
        "apps/a.yaml".to_string(),
        "apps/b.yml".to_string(),
        "apps/c.txt".to_string(),
        "other/d.yaml".to_string(),
    ];
    let all = select_yaml_files(&paths, &None);
    assert_eq!(all, vec!["apps/a.yaml", "apps/b.yml", "other/d.yaml"]);
    let re = regex::Regex::new("^apps/").unwrap();
    let only_apps = select_yaml_files(&paths, &Some(re));
    assert_eq!(only_apps, vec!["apps/a.yaml", "apps/b.yml"]);
}

#[test]
fn admin_password_decodes() {
    assert_eq!(decode_admin_password("aGVsbG8=").unwrap(), "hello");
    assert!(decode_admin_password("!!!").is_none());
}

#[test]
fn cluster_probes_decide_from_command_results() {
    let ok = Ok(CommandOutput { stdout: "argocd-diff-preview\n".to_string(), stderr: String::new() });
    let wrong = Ok(CommandOutput { stdout: "other\n".to_string(), stderr: String::new() });
    let failed: Result<CommandOutput, CommandOutput> =
        Err(CommandOutput { stdout: String::new(), stderr: "boom".to_string() });
    assert!(cluster_exists("argocd-diff-preview", &ok));
    assert!(!cluster_exists("argocd-diff-preview", &wrong));
    assert!(!cluster_exists("argocd-diff-preview", &failed));
    assert!(is_installed(&ok));
    assert!(!is_installed(&failed));
}

#[test]
fn branch_names_and_files() {
    let b = Branch { name: "main".to_string(), branch_type: BranchType::Base };
    let t = Branch { name: "x".to_string(), branch_type: BranchType::Target };
    assert_eq!(b.app_file(), "apps_base_branch.yaml");
    assert_eq!(t.app_file(), "apps_target_branch.yaml");
    assert_eq!(b.folder_name(), "base-branch");
    assert_eq!(t.folder_name(), "target-branch");
    assert_eq!(b.branch_type.to_string(), "base");
    assert_eq!(t.branch_type.to_string(), "target");
}

#[test]
fn no_apps_messages_name_what_was_asked() {
    let sel = Some(vec![Selector {
        key: "team".to_string(),
        value: "a".to_string(),
        operator: Operator::Eq,
    }]);
    let files = Some(vec!["a.yaml".to_string(), "b.yaml".to_string()]);
    assert_eq!(
        get_message(&sel, &files),
        "Found no changed Applications that matched 'team=a' and watched these files: 'a.yaml`, `b.yaml'"
    );
    assert_eq!(
        get_message(&sel, &None),
        "Found no changed Applications that matched 'team=a'"
    );
    assert_eq!(
        get_message(&None, &files),
        "Found no changed Applications that watched these files: 'a.yaml`, `b.yaml'"
    );
    assert_eq!(get_message(&None, &None), "Found no Applications");
    let md = generate_markdown("Found no Applications");
    assert!(md.starts_with("## Argo CD Diff Preview"));
    assert!(md.contains("Found no Applications"));
}

fn out_ok(stdout: &str) -> Result<CommandOutput, CommandOutput> {
    Ok(CommandOutput { stdout: stdout.to_string(), stderr: String::new() })
}

#[test]
fn diff_report_is_framed() {
    let md = generate_diff(&out_ok("1 file changed"), &out_ok("+new line"), None).unwrap();
    assert!(md.starts_with("## Argo CD Diff Preview"));
    assert!(md.contains("1 file changed"));
    assert!(md.contains("+new line"));
}

#[test]
fn empty_diff_reads_as_no_changes() {
    let md = generate_diff(&out_ok("  \n"), &out_ok(""), None).unwrap();
    assert!(md.contains("No changes found"));
}

#[test]
fn stderr_output_fails_the_report() {
    let bad: Result<CommandOutput, CommandOutput> =
        Err(CommandOutput { stdout: String::new(), stderr: "fatal: bad".to_string() });
    let e = generate_diff(&bad, &out_ok(""), None).unwrap_err();
    assert!(e.contains("Error running command"));
    assert!(e.contains("fatal: bad"));
}

#[test]
fn long_diffs_are_truncated_with_a_warning() {
    let long_diff = "x".repeat(4000);
    let budget = 800 + markdown_template_length();
    let md = generate_diff(&out_ok("s"), &out_ok(&long_diff), Some(budget)).unwrap();
    assert!(md.contains("Diff is too long. Truncated to"));
    let tiny = generate_diff(&out_ok("s"), &out_ok(&long_diff), Some(10));
    assert!(tiny.is_err());
}

#[test]
fn markdown_frame_places_both_parts() {
    let md = print_diff("SUM", "DIFF");
    assert!(md.contains("SUM"));
    assert!(md.contains("DIFF"));
    assert!(md.contains("<details>"));
}
