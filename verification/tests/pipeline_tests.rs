use argocd_diff_preview::branch::Branch;
use argocd_diff_preview::branch::BranchType;
use argocd_diff_preview::parsing::apps_from_generate_output;
use argocd_diff_preview::parsing::get_applications;
use argocd_diff_preview::parsing::get_applications_for_branches;
use argocd_diff_preview::parsing::parse_yaml;
use argocd_diff_preview::parsing::patch_application;
use argocd_diff_preview::parsing::split_chunks;
use argocd_diff_preview::resource::ApplicationKind;
use argocd_diff_preview::resource::ArgoResource;
use argocd_diff_preview::resource::K8sResource;
use argocd_diff_preview::resource::PatchError;
use argocd_diff_preview::yaml::Yaml;

fn kv(k: &str, v: Yaml) -> (String, Yaml) {
    (k.to_string(), v)
}

fn ystr(s: &str) -> Yaml {
    Yaml::Str(s.to_string())
}

fn demo_app_doc(repo_url: &str, extra_value: &str) -> Yaml {
    Yaml::Mapping(vec![
        kv("apiVersion", ystr("argoproj.io/v1alpha1")),
        kv("kind", ystr("Application")),
        kv("metadata", Yaml::Mapping(vec![kv("name", ystr("demo"))])),
        kv(
            "spec",
            Yaml::Mapping(vec![
                kv("project", ystr("team")),
                kv(
                    "syncPolicy",
                    Yaml::Mapping(vec![kv("automated", Yaml::Mapping(vec![]))]),
                ),
                kv(
                    "destination",
                    Yaml::Mapping(vec![
                        kv("server", ystr("https://kubernetes.default.svc")),
                        kv("namespace", ystr("default")),
                    ]),
                ),
                kv(
                    "source",
                    Yaml::Mapping(vec![
                        kv("repoURL", ystr(repo_url)),
                        kv("targetRevision", ystr("HEAD")),
                        kv("path", ystr(extra_value)),
                    ]),
                ),
            ]),
        ),
    ])
}

fn demo_resource(repo_url: &str, extra_value: &str) -> ArgoResource {
    ArgoResource::from_k8s_resource(K8sResource {
        file_name: "apps/demo.yaml".to_string(),
        yaml: demo_app_doc(repo_url, extra_value),
    })
    .expect("document should classify")
}

fn get_str<'a>(doc: &'a Yaml, path: &[&str]) -> Option<&'a String> {
    let mut cur = doc;
    for (i, key) in path.iter().enumerate() {
        if i + 1 == path.len() {
            return cur.get_str(key);
        }
        cur = cur.get(key)?;
    }
    None
}

fn base_branch() -> Branch {
    Branch { name: "main".to_string(), branch_type: BranchType::Base }
}

fn target_branch() -> Branch {
    Branch { name: "feature-1".to_string(), branch_type: BranchType::Target }
}

#[test]
fn classify_keeps_applications_only() {
    let not_app = Yaml::Mapping(vec![
        kv("kind", ystr("ConfigMap")),
        kv("metadata", Yaml::Mapping(vec![kv("name", ystr("cm"))])),
    ]);
    assert!(ArgoResource::from_k8s_resource(K8sResource {
        file_name: "f.yaml".to_string(),
        yaml: not_app,
    })
    .is_none());

    let app = demo_resource("https://github.com/acme/app.git", "x");
    assert_eq!(app.name, "demo");
    assert_eq!(app.namespace, "default");
    assert!(matches!(app.kind, ApplicationKind::Application));
}

#[test]
fn classify_rejects_empty_name() {
    let doc = Yaml::Mapping(vec![
        kv("kind", ystr("Application")),
        kv("metadata", Yaml::Mapping(vec![kv("name", ystr(""))])),
    ]);
    assert!(ArgoResource::from_k8s_resource(K8sResource {
        file_name: "f.yaml".to_string(),
        yaml: doc,
    })
    .is_none());
}

// Both branches see the same patch result: project forced to default, the
// destination renamed to the shared cluster, the sync policy gone, and the
// target revision pointing at each branch's own name.
#[test]
fn end_to_end_patch_for_both_branches() {
    for branch in [base_branch(), target_branch()] {
        let app = demo_resource("https://github.com/acme/app.git", "x");
        let patched = patch_application("argocd", app, &branch, "acme/app")
            .expect("patching should succeed");
        let doc = &patched.yaml;
        assert_eq!(
            get_str(doc, &["spec", "project"]).unwrap(),
            "default"
        );
        assert_eq!(
            get_str(doc, &["spec", "destination", "name"]).unwrap(),
            "in-cluster"
        );
        assert!(get_str(doc, &["spec", "destination", "server"]).is_none());
        assert!(doc.get("spec").unwrap().get("syncPolicy").is_none());
        assert_eq!(
            get_str(doc, &["spec", "source", "targetRevision"]).unwrap(),
            &branch.name
        );
        assert_eq!(
            get_str(doc, &["metadata", "namespace"]).unwrap(),
            "argocd"
        );
        assert_eq!(patched.namespace, "argocd");
    }
}

#[test]
fn chart_source_survives_patching_untouched() {
    let doc = Yaml::Mapping(vec![
        kv("kind", ystr("Application")),
        kv("metadata", Yaml::Mapping(vec![kv("name", ystr("helmapp"))])),
        kv(
            "spec",
            Yaml::Mapping(vec![
                kv("destination", Yaml::Mapping(vec![kv("server", ystr("x"))])),
                kv(
                    "source",
                    Yaml::Mapping(vec![
                        kv("chart", ystr("nginx")),
                        kv("repoURL", ystr("https://github.com/acme/app.git")),
                        kv("targetRevision", ystr("9.9.9")),
                    ]),
                ),
            ]),
        ),
    ]);
    let app = ArgoResource::from_k8s_resource(K8sResource {
        file_name: "f.yaml".to_string(),
        yaml: doc,
    })
    .unwrap();
    let patched = patch_application("argocd", app, &base_branch(), "acme/app").unwrap();
    assert_eq!(
        get_str(&patched.yaml, &["spec", "source", "targetRevision"]).unwrap(),
        "9.9.9"
    );
}

#[test]
fn repo_match_is_case_insensitive() {
    let app = demo_resource("https://github.com/ACME/APP.git", "x");
    let patched = patch_application("argocd", app, &target_branch(), "acme/app").unwrap();
    assert_eq!(
        get_str(&patched.yaml, &["spec", "source", "targetRevision"]).unwrap(),
        "feature-1"
    );
}

#[test]
fn unrelated_repo_is_left_alone() {
    let app = demo_resource("https://github.com/other/thing.git", "x");
    let patched = patch_application("argocd", app, &target_branch(), "acme/app").unwrap();
    assert_eq!(
        get_str(&patched.yaml, &["spec", "source", "targetRevision"]).unwrap(),
        "HEAD"
    );
}

#[test]
fn sources_list_entries_are_redirected_one_by_one() {
    let doc = Yaml::Mapping(vec![
        kv("kind", ystr("Application")),
        kv("metadata", Yaml::Mapping(vec![kv("name", ystr("multi"))])),
        kv(
            "spec",
            Yaml::Mapping(vec![
                kv("destination", Yaml::Mapping(vec![kv("server", ystr("x"))])),
                kv(
                    "sources",
                    Yaml::List(vec![
                        Yaml::Mapping(vec![
                            kv("repoURL", ystr("https://github.com/acme/app.git")),
                            kv("targetRevision", ystr("HEAD")),
                        ]),
                        Yaml::Mapping(vec![
                            kv("chart", ystr("nginx")),
                            kv("repoURL", ystr("https://github.com/acme/app.git")),
                            kv("targetRevision", ystr("1.2.3")),
                        ]),
                        Yaml::Mapping(vec![
                            kv("repoURL", ystr("https://github.com/other/x.git")),
                            kv("targetRevision", ystr("HEAD")),
                        ]),
                    ]),
                ),
            ]),
        ),
    ]);
    let app = ArgoResource::from_k8s_resource(K8sResource {
        file_name: "f.yaml".to_string(),
        yaml: doc,
    })
    .unwrap();
    let patched = patch_application("argocd", app, &target_branch(), "acme/app").unwrap();
    let sources = patched.yaml.get("spec").unwrap().get("sources").unwrap();
    match sources {
        Yaml::List(items) => {
            assert_eq!(
                get_str(&items[0], &["targetRevision"]).unwrap(),
                "feature-1"
            );
            // The chart entry keeps its pinned version.
            assert_eq!(get_str(&items[1], &["targetRevision"]).unwrap(), "1.2.3");
            // The unrelated repository is left alone.
            assert_eq!(get_str(&items[2], &["targetRevision"]).unwrap(), "HEAD");
        }
        _ => panic!("sources should stay a list"),
    }
}

#[test]
fn missing_spec_is_a_structural_error() {
    let doc = Yaml::Mapping(vec![
        kv("kind", ystr("Application")),
        kv("metadata", Yaml::Mapping(vec![kv("name", ystr("broken"))])),
    ]);
    let app = ArgoResource::from_k8s_resource(K8sResource {
        file_name: "f.yaml".to_string(),
        yaml: doc,
    })
    .unwrap();
    match patch_application("argocd", app, &base_branch(), "acme/app") {
        Err(PatchError::MissingSpec(name)) => assert_eq!(name, "broken"),
        other => panic!("expected a missing-spec error, got {:?}", other.is_ok()),
    }
}

#[test]
fn missing_destination_is_a_structural_error() {
    let doc = Yaml::Mapping(vec![
        kv("kind", ystr("Application")),
        kv("metadata", Yaml::Mapping(vec![kv("name", ystr("nodest"))])),
        kv(
            "spec",
            Yaml::Mapping(vec![kv(
                "source",
                Yaml::Mapping(vec![kv("repoURL", ystr("u"))]),
            )]),
        ),
    ]);
    let app = ArgoResource::from_k8s_resource(K8sResource {
        file_name: "f.yaml".to_string(),
        yaml: doc,
    })
    .unwrap();
    match patch_application("argocd", app, &base_branch(), "acme/app") {
        Err(PatchError::MissingDestination(name)) => assert_eq!(name, "nodest"),
        _ => panic!("expected a missing-destination error"),
    }
}

#[test]
fn appset_generators_are_redirected() {
    let doc = Yaml::Mapping(vec![
        kv("kind", ystr("ApplicationSet")),
        kv("metadata", Yaml::Mapping(vec![kv("name", ystr("set"))])),
        kv(
            "spec",
            Yaml::Mapping(vec![
                kv(
                    "generators",
                    Yaml::List(vec![
                        Yaml::Mapping(vec![kv(
                            "git",
                            Yaml::Mapping(vec![
                                kv("repoURL", ystr("https://github.com/acme/app.git")),
                                kv("revision", ystr("HEAD")),
                            ]),
                        )]),
                        Yaml::Mapping(vec![kv(
                            "matrix",
                            Yaml::Mapping(vec![kv(
                                "generators",
                                Yaml::List(vec![Yaml::Mapping(vec![kv(
                                    "git",
                                    Yaml::Mapping(vec![kv(
                                        "repoURL",
                                        ystr("https://github.com/acme/app.git"),
                                    )]),
                                )])]),
                            )]),
                        )]),
                    ]),
                ),
                kv(
                    "template",
                    Yaml::Mapping(vec![kv(
                        "spec",
                        Yaml::Mapping(vec![
                            kv("destination", Yaml::Mapping(vec![])),
                            kv(
                                "source",
                                Yaml::Mapping(vec![kv(
                                    "repoURL",
                                    ystr("https://github.com/acme/app.git"),
                                )]),
                            ),
                        ]),
                    )]),
                ),
            ]),
        ),
    ]);
    let app = ArgoResource::from_k8s_resource(K8sResource {
        file_name: "set.yaml".to_string(),
        yaml: doc,
    })
    .unwrap();
    assert!(matches!(app.kind, ApplicationKind::ApplicationSet));
    let patched = patch_application("argocd", app, &target_branch(), "acme/app").unwrap();
    let gens = patched
        .yaml
        .get("spec")
        .unwrap()
        .get("generators")
        .unwrap();
    match gens {
        Yaml::List(items) => {
            assert_eq!(
                get_str(&items[0], &["git", "revision"]).unwrap(),
                "feature-1"
            );
            match &items[1] {
                Yaml::Mapping(_) => {
                    let inner = items[1].get("matrix").unwrap().get("generators").unwrap();
                    match inner {
                        Yaml::List(inner_items) => {
                            assert_eq!(
                                get_str(&inner_items[0], &["git", "revision"]).unwrap(),
                                "feature-1"
                            );
                        }
                        _ => panic!("matrix generators should stay a list"),
                    }
                }
                _ => panic!("matrix generator should stay a mapping"),
            }
        }
        _ => panic!("generators should stay a list"),
    }
    // The ApplicationSet template's own revision is redirected too.
    assert_eq!(
        get_str(
            &patched.yaml,
            &["spec", "template", "spec", "source", "targetRevision"]
        )
        .unwrap(),
        "feature-1"
    );
}

#[test]
fn chunks_split_on_whole_lines_only() {
    let content = "a: one\n---\nb: 'x---y'\nc: three";
    let chunks = split_chunks(content);
    assert_eq!(chunks.len(), 2);
    let rs = parse_yaml(&vec![("f.yaml".to_string(), content.to_string())]);
    assert_eq!(rs.len(), 2);
    assert_eq!(rs[0].yaml.get_str("a").map(|s| s.as_str()), Some("one"));
    assert_eq!(
        rs[1].yaml.get_str("b").map(|s| s.as_str()),
        Some("x---y")
    );
}

#[test]
fn unparsable_chunk_becomes_null_document() {
    let rs = parse_yaml(&vec![(
        "f.yaml".to_string(),
        ": : :\n---\nkind: Application".to_string(),
    )]);
    assert_eq!(rs.len(), 2);
    assert!(matches!(rs[0].yaml, Yaml::Null));
    assert_eq!(rs[1].yaml.get_str("kind").map(|s| s.as_str()), Some("Application"));
}

fn branch_file(repo_url: &str) -> (String, String) {
    (
        "apps/demo.yaml".to_string(),
        format!(
            "kind: Application\nmetadata:\n  name: demo\nspec:\n  syncPolicy: {{}}\n  destination:\n    server: x\n  source:\n    repoURL: {}\n    targetRevision: HEAD\n",
            repo_url
        ),
    )
}

#[test]
fn branch_run_resolves_and_patches() {
    let files = vec![branch_file("https://github.com/acme/app.git")];
    let apps = get_applications("argocd", &base_branch(), &files, &None, &None, "acme/app", false)
        .expect("the branch run should succeed");
    assert_eq!(apps.len(), 1);
    assert_eq!(
        get_str(&apps[0].yaml, &["spec", "source", "targetRevision"]).unwrap(),
        "main"
    );
}

// A resource unchanged between the branches (same name, same patched
// document) is dropped on both sides.
#[test]
fn unchanged_resources_are_skipped_on_both_branches() {
    let files = vec![branch_file("https://github.com/other/repo.git")];
    let (base, target) = get_applications_for_branches(
        "argocd",
        &base_branch(),
        &target_branch(),
        &files,
        &files,
        &None,
        &None,
        "acme/app",
        false,
    )
    .expect("both branch runs should succeed");
    assert_eq!(base.len(), 0);
    assert_eq!(target.len(), 0);
}

#[test]
fn changed_resources_are_kept_on_both_branches() {
    let base_files = vec![branch_file("https://github.com/acme/app.git")];
    let (base, target) = get_applications_for_branches(
        "argocd",
        &base_branch(),
        &target_branch(),
        &base_files,
        &base_files,
        &None,
        &None,
        "acme/app",
        false,
    )
    .expect("both branch runs should succeed");
    // The two patched documents differ in their target revision, so both
    // survive.
    assert_eq!(base.len(), 1);
    assert_eq!(target.len(), 1);
}

#[test]
fn generate_output_list_becomes_applications() {
    let app_set_doc = Yaml::Mapping(vec![
        kv("kind", ystr("ApplicationSet")),
        kv("metadata", Yaml::Mapping(vec![kv("name", ystr("set"))])),
        kv(
            "spec",
            Yaml::Mapping(vec![kv(
                "template",
                Yaml::Mapping(vec![kv("spec", Yaml::Mapping(vec![]))]),
            )]),
        ),
    ]);
    let app_set = ArgoResource::from_k8s_resource(K8sResource {
        file_name: "set.yaml".to_string(),
        yaml: app_set_doc,
    })
    .unwrap();
    let output = "- kind: Application\n  metadata:\n    name: one\n  spec:\n    destination:\n      server: x\n    source:\n      repoURL: https://github.com/acme/app.git\n- kind: Application\n  metadata:\n    name: two\n  spec:\n    destination:\n      server: x\n    source:\n      repoURL: https://github.com/acme/app.git\n";
    let apps = apps_from_generate_output(&app_set, output, "argocd", &target_branch(), "acme/app")
        .expect("expansion should succeed")
        .expect("the output should hold applications");
    assert_eq!(apps.len(), 2);
    assert_eq!(apps[0].name, "one");
    assert_eq!(apps[1].name, "two");
    assert_eq!(apps[0].file_name, "set.yaml");
    assert_eq!(
        get_str(&apps[1].yaml, &["spec", "source", "targetRevision"]).unwrap(),
        "feature-1"
    );
}

#[test]
fn generate_output_that_does_not_parse_is_skipped() {
    let app_set = demo_resource("https://github.com/acme/app.git", "x");
    let r = apps_from_generate_output(&app_set, ": : :", "argocd", &base_branch(), "acme/app")
        .expect("an unparsable output is not fatal");
    assert!(r.is_none());
}
