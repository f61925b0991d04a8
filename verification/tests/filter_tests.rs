use argocd_diff_preview::resource::ArgoResource;
use argocd_diff_preview::resource::FilterError;
use argocd_diff_preview::resource::K8sResource;
use argocd_diff_preview::selector::Operator;
use argocd_diff_preview::selector::Selector;
use argocd_diff_preview::yaml::Yaml;

fn fkv(k: &str, v: Yaml) -> (String, Yaml) {
    (k.to_string(), v)
}

fn fstr(s: &str) -> Yaml {
    Yaml::Str(s.to_string())
}

fn app_with_metadata(extra: Vec<(String, Yaml)>) -> ArgoResource {
    let mut metadata = vec![fkv("name", fstr("demo"))];
    metadata.extend(extra);
    let doc = Yaml::Mapping(vec![
        fkv("kind", fstr("Application")),
        fkv("metadata", Yaml::Mapping(metadata)),
        fkv("spec", Yaml::Mapping(vec![])),
    ]);
    ArgoResource::from_k8s_resource(K8sResource {
        file_name: "apps/demo.yaml".to_string(),
        yaml: doc,
    })
    .unwrap()
}

fn annotations(pairs: Vec<(&str, &str)>) -> (String, Yaml) {
    fkv(
        "annotations",
        Yaml::Mapping(pairs.into_iter().map(|(k, v)| fkv(k, fstr(v))).collect()),
    )
}

fn labels(pairs: Vec<(&str, &str)>) -> (String, Yaml) {
    fkv(
        "labels",
        Yaml::Mapping(pairs.into_iter().map(|(k, v)| fkv(k, fstr(v))).collect()),
    )
}

// The ignore annotation wins over everything else.
#[test]
fn ignore_annotation_excludes_unconditionally() {
    let app = app_with_metadata(vec![
        annotations(vec![
            ("argocd-diff-preview/ignore", "true"),
            ("argocd-diff-preview/watch-pattern", ".*"),
        ]),
        labels(vec![("team", "a")]),
    ]);
    let sel = Some(vec![Selector {
        key: "team".to_string(),
        value: "a".to_string(),
        operator: Operator::Eq,
    }]);
    let changed = Some(vec!["apps/demo.yaml".to_string()]);
    let r = app.filter(&sel, &changed, false).unwrap();
    assert!(r.is_none());
}

// A resource whose own file changed is kept even without a watch pattern.
#[test]
fn own_file_change_includes_without_watch_pattern() {
    let app = app_with_metadata(vec![]);
    let changed = Some(vec!["a.yaml".to_string(), "apps/demo.yaml".to_string()]);
    let r = app.filter(&None, &changed, false).unwrap();
    assert!(r.is_some());
}

#[test]
fn no_watch_pattern_and_unrelated_change_excludes() {
    let app = app_with_metadata(vec![]);
    let changed = Some(vec!["other.yaml".to_string()]);
    let r = app.filter(&None, &changed, false).unwrap();
    assert!(r.is_none());
}

#[test]
fn watch_pattern_match_includes() {
    let app = app_with_metadata(vec![annotations(vec![(
        "argocd-diff-preview/watch-pattern",
        "charts/.*, docs/.*",
    )])]);
    let changed = Some(vec!["charts/app/values.yaml".to_string()]);
    let r = app.filter(&None, &changed, false).unwrap();
    assert!(r.is_some());
}

#[test]
fn watch_pattern_mismatch_excludes() {
    let app = app_with_metadata(vec![annotations(vec![(
        "argocd-diff-preview/watch-pattern",
        "charts/.*",
    )])]);
    let changed = Some(vec!["docs/readme.md".to_string()]);
    let r = app.filter(&None, &changed, false).unwrap();
    assert!(r.is_none());
}

#[test]
fn no_changed_files_includes_everything_not_ignored() {
    let app = app_with_metadata(vec![]);
    let r = app.filter(&None, &None, false).unwrap();
    assert!(r.is_some());
}

// An invalid watch pattern aborts the run unless ignoring was chosen.
#[test]
fn invalid_watch_pattern_is_fatal_by_default() {
    let app = app_with_metadata(vec![annotations(vec![(
        "argocd-diff-preview/watch-pattern",
        "[",
    )])]);
    match app.filter(&None, &None, false) {
        Err(FilterError::InvalidPattern { name, segment }) => {
            assert_eq!(name, "demo");
            assert_eq!(segment, "[");
        }
        _ => panic!("an invalid pattern must abort the run"),
    }
}

#[test]
fn invalid_watch_pattern_can_be_ignored() {
    let app = app_with_metadata(vec![annotations(vec![(
        "argocd-diff-preview/watch-pattern",
        "[",
    )])]);
    let r = app.filter(&None, &None, true).unwrap();
    assert!(r.is_none());
}

#[test]
fn selector_eq_must_match_a_label() {
    let app = app_with_metadata(vec![labels(vec![("team", "a"), ("tier", "web")])]);
    let yes = Some(vec![Selector {
        key: "team".to_string(),
        value: "a".to_string(),
        operator: Operator::Eq,
    }]);
    let app2 = app_with_metadata(vec![labels(vec![("team", "a"), ("tier", "web")])]);
    let no = Some(vec![Selector {
        key: "team".to_string(),
        value: "b".to_string(),
        operator: Operator::Eq,
    }]);
    assert!(app.filter(&yes, &None, false).unwrap().is_some());
    assert!(app2.filter(&no, &None, false).unwrap().is_none());
}

#[test]
fn selector_ne_must_miss_every_label() {
    let app = app_with_metadata(vec![labels(vec![("team", "a")])]);
    let sel = Some(vec![Selector {
        key: "team".to_string(),
        value: "a".to_string(),
        operator: Operator::Ne,
    }]);
    assert!(app.filter(&sel, &None, false).unwrap().is_none());
}

#[test]
fn selector_clauses_are_all_required() {
    let app = app_with_metadata(vec![labels(vec![("team", "a"), ("tier", "web")])]);
    let sel = Some(vec![
        Selector {
            key: "team".to_string(),
            value: "a".to_string(),
            operator: Operator::Eq,
        },
        Selector {
            key: "tier".to_string(),
            value: "db".to_string(),
            operator: Operator::Eq,
        },
    ]);
    assert!(app.filter(&sel, &None, false).unwrap().is_none());
}

#[test]
fn selector_parses_the_three_forms() {
    let s = Selector::from("team=a").unwrap();
    assert_eq!(s.key, "team");
    assert_eq!(s.value, "a");
    assert!(matches!(s.operator, Operator::Eq));

    let s = Selector::from(" team == a ").unwrap();
    assert_eq!(s.key, "team");
    assert_eq!(s.value, "a");
    assert!(matches!(s.operator, Operator::Eq));

    let s = Selector::from("team!=a").unwrap();
    assert!(matches!(s.operator, Operator::Ne));
    assert_eq!(s.to_string(), "team!=a");
}

#[test]
fn selector_rejects_malformed_clauses() {
    assert!(Selector::from("plain").is_none());
    assert!(Selector::from("=v").is_none());
    assert!(Selector::from("k=").is_none());
    assert!(Selector::from("a=b=c").is_none());
    assert!(Selector::from("").is_none());
}
