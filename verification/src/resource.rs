//! Argo CD resources and the patch pipeline.
//!
//! A document that declares an `Application` or `ApplicationSet` is carried
//! as an [`ArgoResource`].  The patch operations rewrite it, in a fixed
//! order, into a form safe to apply against a throwaway cluster; every
//! operation works on the *effective spec* — `spec` for an `Application`,
//! `spec.template.spec` for an `ApplicationSet` — through one shared
//! accessor pair.

use vstd::prelude::*;
use vstd::string::StringExecFns;

use crate::strutil::eq_str;
use crate::yaml::get3_v;
use crate::yaml::get_str_v;
use crate::yaml::get_v;
use crate::yaml::lemma_get_set_other;
use crate::yaml::lemma_get_set_same;
use crate::yaml::lemma_set_self;
use crate::yaml::lemma_set_set;
use crate::yaml::set_v;
use crate::yaml::Yaml;
use crate::yaml::YamlV;

verus! {

#[derive(Clone, Copy, PartialEq, Eq, Structural, Debug)]
pub enum ApplicationKind {
    Application,
    ApplicationSet,
}

/// One raw document, tagged with the file it came from.
pub struct K8sResource {
    pub file_name: String,
    pub yaml: Yaml,
}

/// One classified GitOps resource.
pub struct ArgoResource {
    pub yaml: Yaml,
    pub kind: ApplicationKind,
    pub name: String,
    pub namespace: String,
    /// Where the resource was found.
    pub file_name: String,
}

/// A structural failure while patching one resource; fatal for the
/// branch run that holds the resource.
#[derive(Debug)]
pub enum PatchError {
    /// The effective spec mapping is missing: a structurally invalid
    /// resource.
    MissingSpec(String),
    /// `spec.destination` is missing where it must be rewritten.
    MissingDestination(String),
    /// `spec.destination` is present but is neither a mapping nor null.
    InvalidDestination(String),
    /// Neither `spec.source` nor `spec.sources` is present.
    MissingSource(String),
}

impl PatchError {
    /// The diagnostic the original run would print.
    pub fn message(&self) -> String {
        let mut out = match self {
            PatchError::MissingSpec(_) => String::from_str("No 'spec' key found in Application: "),
            PatchError::MissingDestination(_) => String::from_str(
                "No 'spec.destination' key found in Application: ",
            ),
            PatchError::InvalidDestination(_) => String::from_str(
                "Invalid 'spec.destination' value in Application: ",
            ),
            PatchError::MissingSource(_) => String::from_str(
                "No 'spec.source' or 'spec.sources' key found in Application: ",
            ),
        };
        let name = match self {
            PatchError::MissingSpec(n) => n,
            PatchError::MissingDestination(n) => n,
            PatchError::InvalidDestination(n) => n,
            PatchError::MissingSource(n) => n,
        };
        out.append(name.as_str());
        out
    }
}

/// The effective spec of a document: `spec` for an `Application`,
/// `spec.template.spec` for an `ApplicationSet`.
pub open spec fn eff_v(doc: YamlV, kind: ApplicationKind) -> Option<YamlV> {
    match kind {
        ApplicationKind::Application => get_v(doc, "spec"@),
        ApplicationKind::ApplicationSet => get3_v(doc, "spec"@, "template"@, "spec"@),
    }
}

/// Whether the effective spec exists and is a mapping that can be patched.
pub open spec fn eff_map_ok(doc: YamlV, kind: ApplicationKind) -> bool {
    match eff_v(doc, kind) {
        Some(s) => s is Mapping,
        None => false,
    }
}

/// The document with its effective spec replaced by `s` (meaningful when
/// the effective-spec path exists).
pub open spec fn eff_replace(doc: YamlV, kind: ApplicationKind, s: YamlV) -> YamlV {
    match kind {
        ApplicationKind::Application => set_v(doc, "spec"@, s),
        ApplicationKind::ApplicationSet => {
            let sp = get_v(doc, "spec"@).unwrap();
            let tpl = get_v(sp, "template"@).unwrap();
            set_v(doc, "spec"@, set_v(sp, "template"@, set_v(tpl, "spec"@, s)))
        },
    }
}

/// Take the effective spec out of the document.  On success the first
/// component is the document with a null in the effective spec's place,
/// ready for [`eff_put`]; replacing into the holed document is the same as
/// replacing into the original.
fn eff_take(doc: Yaml, kind: &ApplicationKind) -> (r: (Yaml, Option<Yaml>))
    ensures
        match r.1 {
            Some(s) => {
                &&& eff_v(doc@, *kind) == Some(s@)
                &&& eff_v(r.0@, *kind) == Some(YamlV::Null)
                &&& forall|x: YamlV| eff_replace(r.0@, *kind, x) == eff_replace(doc@, *kind, x)
            },
            None => r.0@ == doc@ && eff_v(doc@, *kind) is None,
        },
{
    match kind {
        ApplicationKind::Application => {
            let (hole, v) = doc.take("spec");
            proof {
                if get_v(doc@, "spec"@) is Some {
                    lemma_get_set_same(doc@, "spec"@, YamlV::Null);
                    assert forall|x: YamlV|
                        eff_replace(hole@, ApplicationKind::Application, x) == eff_replace(
                            doc@,
                            ApplicationKind::Application,
                            x,
                        ) by {
                        lemma_set_set(doc@, "spec"@, YamlV::Null, x);
                    }
                }
            }
            (hole, v)
        },
        ApplicationKind::ApplicationSet => {
            let ghost doc0 = doc@;
            let (hole1, sp_opt) = doc.take("spec");
            match sp_opt {
                None => (hole1, None),
                Some(sp) => {
                    let ghost sp0 = sp@;
                    let (sphole, tpl_opt) = sp.take("template");
                    match tpl_opt {
                        None => {
                            let restored = hole1.set("spec", sphole);
                            proof {
                                lemma_set_set(doc0, "spec"@, YamlV::Null, sp0);
                                lemma_set_self(doc0, "spec"@);
                            }
                            (restored, None)
                        },
                        Some(tpl) => {
                            let ghost tpl0 = tpl@;
                            let (tplhole, s_opt) = tpl.take("spec");
                            match s_opt {
                                None => {
                                    let sp_back = sphole.set("template", tplhole);
                                    let restored = hole1.set("spec", sp_back);
                                    proof {
                                        lemma_set_set(sp0, "template"@, YamlV::Null, tpl0);
                                        lemma_set_self(sp0, "template"@);
                                        lemma_set_set(doc0, "spec"@, YamlV::Null, sp0);
                                        lemma_set_self(doc0, "spec"@);
                                    }
                                    (restored, None)
                                },
                                Some(s) => {
                                    let inner = sphole.set("template", tplhole);
                                    let hole = hole1.set("spec", inner);
                                    proof {
                                        let k = ApplicationKind::ApplicationSet;
                                        lemma_set_set(sp0, "template"@, YamlV::Null, tplhole@);
                                        // inner@ == set_v(sp0, "template", tplhole@)
                                        lemma_set_set(doc0, "spec"@, YamlV::Null, inner@);
                                        // hole@ == set_v(doc0, "spec", inner@)
                                        lemma_get_set_same(doc0, "spec"@, inner@);
                                        lemma_get_set_same(sp0, "template"@, tplhole@);
                                        lemma_get_set_same(tpl0, "spec"@, YamlV::Null);
                                        assert(eff_v(hole@, k) == Some(YamlV::Null));
                                        assert forall|x: YamlV|
                                            eff_replace(hole@, k, x) == eff_replace(doc0, k, x) by {
                                            lemma_set_set(doc0, "spec"@, inner@, set_v(
                                                inner@,
                                                "template"@,
                                                set_v(tplhole@, "spec"@, x),
                                            ));
                                            lemma_set_set(sp0, "template"@, tplhole@, set_v(
                                                tplhole@,
                                                "spec"@,
                                                x,
                                            ));
                                            lemma_set_set(tpl0, "spec"@, YamlV::Null, x);
                                        }
                                    }
                                    (hole, Some(s))
                                },
                            }
                        },
                    }
                },
            }
        },
    }
}

/// Write `s` back as the effective spec of a document whose
/// effective-spec path exists.
fn eff_put(doc: Yaml, kind: &ApplicationKind, s: Yaml) -> (r: Yaml)
    requires
        eff_v(doc@, *kind) is Some,
    ensures
        r@ == eff_replace(doc@, *kind, s@),
{
    match kind {
        ApplicationKind::Application => doc.set("spec", s),
        ApplicationKind::ApplicationSet => {
            let ghost doc0 = doc@;
            let (hole1, sp_opt) = doc.take("spec");
            match sp_opt {
                None => {
                    proof {
                        assert(false);
                    }
                    Yaml::Null
                },
                Some(sp) => {
                    let ghost sp0 = sp@;
                    let (sphole, tpl_opt) = sp.take("template");
                    match tpl_opt {
                        None => {
                            proof {
                                assert(false);
                            }
                            Yaml::Null
                        },
                        Some(tpl) => {
                            let ghost tpl0 = tpl@;
                            let newtpl = tpl.set("spec", s);
                            let newsp = sphole.set("template", newtpl);
                            let out = hole1.set("spec", newsp);
                            proof {
                                let k = ApplicationKind::ApplicationSet;
                                // newsp@ == set_v(sp0, "template", newtpl@)
                                lemma_set_set(sp0, "template"@, YamlV::Null, newtpl@);
                                // out@ == set_v(doc0, "spec", newsp@)
                                lemma_set_set(doc0, "spec"@, YamlV::Null, newsp@);
                            }
                            out
                        },
                    }
                },
            }
        },
    }
}

/// Replacing the effective spec by the value it already holds changes
/// nothing.
pub proof fn lemma_eff_replace_self(doc: YamlV, kind: ApplicationKind)
    requires
        eff_v(doc, kind) is Some,
    ensures
        eff_replace(doc, kind, eff_v(doc, kind).unwrap()) == doc,
{
    match kind {
        ApplicationKind::Application => {
            lemma_set_self(doc, "spec"@);
        },
        ApplicationKind::ApplicationSet => {
            let sp = get_v(doc, "spec"@).unwrap();
            let tpl = get_v(sp, "template"@).unwrap();
            lemma_set_self(tpl, "spec"@);
            lemma_set_self(sp, "template"@);
            lemma_set_self(doc, "spec"@);
        },
    }
}

/// After replacing the effective spec, reading it back gives the new
/// value.
pub proof fn lemma_eff_replace_get(doc: YamlV, kind: ApplicationKind, s: YamlV)
    requires
        eff_v(doc, kind) is Some,
    ensures
        eff_v(eff_replace(doc, kind, s), kind) == Some(s),
{
    match kind {
        ApplicationKind::Application => {
            lemma_get_set_same(doc, "spec"@, s);
        },
        ApplicationKind::ApplicationSet => {
            let sp = get_v(doc, "spec"@).unwrap();
            let tpl = get_v(sp, "template"@).unwrap();
            lemma_get_set_same(doc, "spec"@, set_v(sp, "template"@, set_v(tpl, "spec"@, s)));
            lemma_get_set_same(sp, "template"@, set_v(tpl, "spec"@, s));
            lemma_get_set_same(tpl, "spec"@, s);
        },
    }
}

/// Replacing the effective spec twice keeps the last value.
pub proof fn lemma_eff_replace_replace(doc: YamlV, kind: ApplicationKind, x: YamlV, s: YamlV)
    requires
        eff_v(doc, kind) is Some,
    ensures
        eff_replace(eff_replace(doc, kind, x), kind, s) == eff_replace(doc, kind, s),
{
    match kind {
        ApplicationKind::Application => {
            lemma_set_set(doc, "spec"@, x, s);
        },
        ApplicationKind::ApplicationSet => {
            let sp = get_v(doc, "spec"@).unwrap();
            let tpl = get_v(sp, "template"@).unwrap();
            let sp1 = set_v(sp, "template"@, set_v(tpl, "spec"@, x));
            lemma_get_set_same(doc, "spec"@, sp1);
            lemma_get_set_same(sp, "template"@, set_v(tpl, "spec"@, x));
            lemma_set_set(doc, "spec"@, sp1, set_v(sp1, "template"@, set_v(set_v(tpl, "spec"@, x), "spec"@, s)));
            lemma_set_set(sp, "template"@, set_v(tpl, "spec"@, x), set_v(set_v(tpl, "spec"@, x), "spec"@, s));
            lemma_set_set(tpl, "spec"@, x, s);
        },
    }
}

/// Writing `metadata` never touches the effective spec.
pub proof fn lemma_eff_unchanged_by_metadata(doc: YamlV, kind: ApplicationKind, md: YamlV)
    ensures
        eff_v(set_v(doc, "metadata"@, md), kind) == eff_v(doc, kind),
{
    reveal_strlit("spec");
    reveal_strlit("metadata");
    assert("spec"@ != "metadata"@) by {
        assert("spec"@.len() == 4);
        assert("metadata"@.len() == 8);
    }
    lemma_get_set_other(doc, "metadata"@, "spec"@, md);
}

/// The effective spec lives under the `spec` key, so patching it never
/// touches `metadata`; well-formedness survives every patch operation.
proof fn lemma_eff_replace_wf(doc: YamlV, kind: ApplicationKind, s: YamlV)
    requires
        doc is Mapping,
        match get_v(doc, "metadata"@) {
            Some(md) => md is Mapping,
            None => false,
        },
    ensures
        eff_replace(doc, kind, s) is Mapping,
        match get_v(eff_replace(doc, kind, s), "metadata"@) {
            Some(md) => md is Mapping,
            None => false,
        },
{
    reveal_strlit("spec");
    reveal_strlit("metadata");
    assert("spec"@ != "metadata"@) by {
        assert("spec"@.len() == 4);
        assert("metadata"@.len() == 8);
    }
    match kind {
        ApplicationKind::Application => {
            lemma_get_set_other(doc, "spec"@, "metadata"@, s);
        },
        ApplicationKind::ApplicationSet => {
            let sp = get_v(doc, "spec"@).unwrap();
            let tpl = get_v(sp, "template"@).unwrap();
            lemma_get_set_other(doc, "spec"@, "metadata"@, set_v(sp, "template"@, set_v(tpl, "spec"@, s)));
        },
    }
}

/// What `metadata.name` holds, when it is a string under a mapping.
pub open spec fn metadata_name(doc: YamlV) -> Option<Seq<char>> {
    match get_v(doc, "metadata"@) {
        Some(md) => get_str_v(md, "name"@),
        None => None,
    }
}

/// What `metadata.namespace` holds, or `default` when absent.
pub open spec fn metadata_namespace(doc: YamlV) -> Seq<char> {
    match get_v(doc, "metadata"@) {
        Some(md) => match get_str_v(md, "namespace"@) {
            Some(ns) => ns,
            None => "default"@,
        },
        None => "default"@,
    }
}

/// The resource kind a document declares, read from its `kind` string.
pub open spec fn classified_kind(doc: YamlV) -> Option<ApplicationKind> {
    match get_str_v(doc, "kind"@) {
        Some(k) => if k == "Application"@ {
            Some(ApplicationKind::Application)
        } else if k == "ApplicationSet"@ {
            Some(ApplicationKind::ApplicationSet)
        } else {
            None
        },
        None => None,
    }
}

/// The annotation value under `metadata.annotations`, when it is a string.
pub open spec fn annotation_v(doc: YamlV, key: Seq<char>) -> Option<Seq<char>> {
    match crate::yaml::get2_v(doc, "metadata"@, "annotations"@) {
        Some(a) => get_str_v(a, key),
        None => None,
    }
}

/// Whether the resource opted out of comparison.
pub open spec fn ignored_v(doc: YamlV) -> bool {
    annotation_v(doc, "argocd-diff-preview/ignore"@) == Some("true"@)
}

/// The comma-separated watch-pattern annotation, if present.
pub open spec fn watch_annotation(doc: YamlV) -> Option<Seq<char>> {
    annotation_v(doc, "argocd-diff-preview/watch-pattern"@)
}

/// The string-valued label pairs of a mapping's entries, in order.
pub open spec fn label_pairs(m: Seq<(Seq<char>, YamlV)>) -> Seq<(Seq<char>, Seq<char>)>
    decreases m.len(),
{
    if m.len() == 0 {
        Seq::empty()
    } else {
        let rest = label_pairs(m.drop_first());
        match m[0].1 {
            YamlV::Str(v) => seq![(m[0].0, v)] + rest,
            _ => rest,
        }
    }
}

/// The label pairs of `metadata.labels`; an absent or malformed block
/// yields none.
pub open spec fn labels_v(doc: YamlV) -> Seq<(Seq<char>, Seq<char>)> {
    match crate::yaml::get2_v(doc, "metadata"@, "labels"@) {
        Some(l) => match l {
            YamlV::Mapping(m) => label_pairs(m),
            _ => Seq::empty(),
        },
        _ => Seq::empty(),
    }
}

/// The views of a vector of owned label pairs.
pub open spec fn pairs_of(v: Seq<(String, String)>) -> Seq<(Seq<char>, Seq<char>)> {
    Seq::new(
        v.len(),
        |i: int|
            if 0 <= i < v.len() {
                (v[i].0@, v[i].1@)
            } else {
                (Seq::empty(), Seq::empty())
            },
    )
}

/// The views of a vector of selector clauses.
pub open spec fn selectors_v(v: Seq<crate::selector::Selector>) -> Seq<crate::selector::SelectorV> {
    Seq::new(
        v.len(),
        |i: int|
            if 0 <= i < v.len() {
                v[i]@
            } else {
                crate::selector::SelectorV {
                    key: Seq::empty(),
                    value: Seq::empty(),
                    operator: crate::selector::Operator::Eq,
                }
            },
    )
}

/// One selector clause against the label pairs: an `Eq` clause holds when
/// some pair equals it, a `Ne` clause when no pair does.
pub open spec fn selector_clause_holds(
    labels: Seq<(Seq<char>, Seq<char>)>,
    c: crate::selector::SelectorV,
) -> bool {
    match c.operator {
        crate::selector::Operator::Eq => exists|i: int|
            0 <= i < labels.len() && labels[i].0 == c.key && labels[i].1 == c.value,
        crate::selector::Operator::Ne => forall|i: int|
            0 <= i < labels.len() ==> !(labels[i].0 == c.key && labels[i].1 == c.value),
    }
}

/// All clauses must hold.
pub open spec fn selector_holds(
    labels: Seq<(Seq<char>, Seq<char>)>,
    sel: Seq<crate::selector::SelectorV>,
) -> bool {
    forall|i: int| 0 <= i < sel.len() ==> selector_clause_holds(labels, sel[i])
}

/// The watch annotation's segments: split on commas, each trimmed.
pub open spec fn pattern_segments(w: Seq<char>) -> Seq<Seq<char>> {
    let parts = crate::strutil::split_s(w, ","@);
    Seq::new(
        parts.len(),
        |i: int|
            if 0 <= i < parts.len() {
                crate::strutil::trimmed(parts[i])
            } else {
                Seq::empty()
            },
    )
}

/// Every segment compiles.
pub open spec fn segments_valid(segs: Seq<Seq<char>>) -> bool {
    forall|i: int| 0 <= i < segs.len() ==> crate::patterns::regex_valid(segs[i])
}

/// Some segment matches some changed file.
pub open spec fn any_match(segs: Seq<Seq<char>>, files: Seq<Seq<char>>) -> bool {
    exists|i: int, j: int|
        0 <= i < segs.len() && 0 <= j < files.len() && crate::patterns::regex_match(
            segs[i],
            files[j],
        )
}

/// What the filter engine decides for one resource.
pub enum FilterVerdict {
    /// In scope for comparison.
    Keep,
    /// Excluded, with the run going on.
    Drop,
    /// An invalid watch pattern that must abort the whole run.
    Invalid,
}

/// A configuration failure found while filtering; fatal for the run
/// unless the caller opted into ignoring it.
#[derive(Debug)]
pub enum FilterError {
    /// A watch-pattern segment that the regex library rejects.
    InvalidPattern { name: String, segment: String },
}

/// The filter engine's decision, checked in this order: the ignore
/// annotation, the label selector, the watch-pattern syntax, and — only
/// when a changed-file list was supplied — the changed-file gate, which
/// keeps a resource whose own file changed or whose patterns match a
/// changed file.
pub open spec fn filter_verdict(
    doc: YamlV,
    file_name: Seq<char>,
    sel: Option<Seq<crate::selector::SelectorV>>,
    files: Option<Seq<Seq<char>>>,
    ignore_invalid: bool,
) -> FilterVerdict {
    if ignored_v(doc) {
        FilterVerdict::Drop
    } else if match sel {
        Some(s) => !selector_holds(labels_v(doc), s),
        None => false,
    } {
        FilterVerdict::Drop
    } else {
        match watch_annotation(doc) {
            Some(w) => {
                let segs = pattern_segments(w);
                if !segments_valid(segs) {
                    if ignore_invalid {
                        FilterVerdict::Drop
                    } else {
                        FilterVerdict::Invalid
                    }
                } else {
                    match files {
                        None => FilterVerdict::Keep,
                        Some(fs) => if fs.contains(file_name) || any_match(segs, fs) {
                            FilterVerdict::Keep
                        } else {
                            FilterVerdict::Drop
                        },
                    }
                }
            },
            None => match files {
                None => FilterVerdict::Keep,
                Some(fs) => if fs.contains(file_name) {
                    FilterVerdict::Keep
                } else {
                    FilterVerdict::Drop
                },
            },
        }
    }
}

/// The ghost view of a resource: the document tree and the plain fields.
pub struct ArgoResourceV {
    pub yaml: YamlV,
    pub kind: ApplicationKind,
    pub name: Seq<char>,
    pub namespace: Seq<char>,
    pub file_name: Seq<char>,
}

impl View for ArgoResource {
    type V = ArgoResourceV;

    open spec fn view(&self) -> ArgoResourceV {
        ArgoResourceV {
            yaml: self.yaml@,
            kind: self.kind,
            name: self.name@,
            namespace: self.namespace@,
            file_name: self.file_name@,
        }
    }
}

/// A classified resource is a mapping document whose `metadata` is a
/// mapping; classification establishes this and every patch operation
/// preserves it.
pub open spec fn wf_v(a: ArgoResourceV) -> bool {
    &&& a.yaml is Mapping
    &&& match get_v(a.yaml, "metadata"@) {
        Some(md) => md is Mapping,
        None => false,
    }
}

/// What classifying one raw document yields: the resource, when the
/// document declares one of the two kinds and carries a non-empty name.
pub open spec fn classify_v(file_name: Seq<char>, doc: YamlV) -> Option<ArgoResourceV> {
    match classified_kind(doc) {
        Some(k) => match metadata_name(doc) {
            Some(n) => if n.len() > 0 {
                Some(
                    ArgoResourceV {
                        yaml: doc,
                        kind: k,
                        name: n,
                        namespace: metadata_namespace(doc),
                        file_name,
                    },
                )
            } else {
                None
            },
            None => None,
        },
        None => None,
    }
}

/// The views of a vector of resources.
pub open spec fn argo_views(s: Seq<ArgoResource>) -> Seq<ArgoResourceV> {
    Seq::new(
        s.len(),
        |i: int|
            if 0 <= i < s.len() {
                s[i]@
            } else {
                ArgoResourceV {
                    yaml: YamlV::Null,
                    kind: ApplicationKind::Application,
                    name: Seq::empty(),
                    namespace: Seq::empty(),
                    file_name: Seq::empty(),
                }
            },
    )
}

/// A classified resource is well formed.
pub proof fn lemma_classify_wf(file_name: Seq<char>, doc: YamlV)
    requires
        classify_v(file_name, doc) is Some,
    ensures
        wf_v(classify_v(file_name, doc).unwrap()),
{
}

impl ArgoResource {
    /// See [`wf_v`].
    pub open spec fn wf(self) -> bool {
        wf_v(self@)
    }

    /// Classify one raw document: kept exactly when it declares an
    /// `Application` or `ApplicationSet` and carries a non-empty
    /// `metadata.name`; everything else is dropped silently.
    pub fn from_k8s_resource(k8s_resource: K8sResource) -> (r: Option<ArgoResource>)
        ensures
            r is Some <==> (classified_kind(k8s_resource.yaml@) is Some && match metadata_name(
                k8s_resource.yaml@,
            ) {
                Some(n) => n.len() > 0,
                None => false,
            }),
            match r {
                Some(a) => {
                    &&& Some(a.kind) == classified_kind(k8s_resource.yaml@)
                    &&& Some(a.name@) == metadata_name(k8s_resource.yaml@)
                    &&& a.namespace@ == metadata_namespace(k8s_resource.yaml@)
                    &&& a.file_name == k8s_resource.file_name
                    &&& a.yaml == k8s_resource.yaml
                    &&& a.wf()
                    &&& classify_v(k8s_resource.file_name@, k8s_resource.yaml@) == Some(a@)
                },
                None => classify_v(k8s_resource.file_name@, k8s_resource.yaml@) is None,
            },
    {
        let kind = match k8s_resource.yaml.get_str("kind") {
            Some(ks) => {
                if eq_str(ks.as_str(), "Application") {
                    ApplicationKind::Application
                } else if eq_str(ks.as_str(), "ApplicationSet") {
                    ApplicationKind::ApplicationSet
                } else {
                    return None;
                }
            },
            None => {
                return None;
            },
        };
        let name = match k8s_resource.yaml.get("metadata") {
            Some(md) => match md.get_str("name") {
                Some(n) => n.clone(),
                None => {
                    return None;
                },
            },
            None => {
                return None;
            },
        };
        if name.as_str().is_empty() {
            return None;
        }
        let namespace = match k8s_resource.yaml.get("metadata") {
            Some(md) => match md.get_str("namespace") {
                Some(ns) => ns.clone(),
                None => String::from_str("default"),
            },
            None => String::from_str("default"),
        };
        Some(
            ArgoResource {
                kind,
                file_name: k8s_resource.file_name,
                name,
                namespace,
                yaml: k8s_resource.yaml,
            },
        )
    }

    /// Patch operation: delete `spec.syncPolicy` if present, so the
    /// controller attempts no real sync actions against the throwaway
    /// cluster.  A resource without a patchable effective spec is left as
    /// it is.
    pub fn remove_sync_policy(self) -> (r: ArgoResource)
        ensures
            r.yaml@ == if eff_map_ok(self.yaml@, self.kind) {
                eff_replace(
                    self.yaml@,
                    self.kind,
                    crate::yaml::remove_v(eff_v(self.yaml@, self.kind).unwrap(), "syncPolicy"@),
                )
            } else {
                self.yaml@
            },
            r.name == self.name,
            r.kind == self.kind,
            r.namespace == self.namespace,
            r.file_name == self.file_name,
            self.wf() ==> r.wf(),
    {
        let ArgoResource { yaml, kind, name, namespace, file_name } = self;
        let ghost doc0 = yaml@;
        let ghost wf0 = self.wf();
        let (hole, sp_opt) = eff_take(yaml, &kind);
        let yaml2 = match sp_opt {
            Some(s) => {
                if s.is_mapping() {
                    let s2 = s.remove("syncPolicy");
                    let out = eff_put(hole, &kind, s2);
                    proof {
                        if wf0 {
                            lemma_eff_replace_wf(doc0, kind, s2@);
                        }
                    }
                    out
                } else {
                    let out = eff_put(hole, &kind, s);
                    proof {
                        lemma_eff_replace_self(doc0, kind);
                    }
                    out
                }
            },
            None => hole,
        };
        ArgoResource { yaml: yaml2, kind, name, namespace, file_name }
    }

    /// Patch operation: force `spec.project` to `default`.  Fails when no
    /// effective spec mapping exists (a structurally invalid resource).
    pub fn set_project_to_default(self) -> (r: Result<ArgoResource, PatchError>)
        ensures
            r is Ok <==> eff_map_ok(self.yaml@, self.kind),
            match r {
                Ok(a) => {
                    &&& a.yaml@ == eff_replace(
                        self.yaml@,
                        self.kind,
                        set_v(
                            eff_v(self.yaml@, self.kind).unwrap(),
                            "project"@,
                            YamlV::Str("default"@),
                        ),
                    )
                    &&& a.name == self.name
                    &&& a.kind == self.kind
                    &&& a.namespace == self.namespace
                    &&& a.file_name == self.file_name
                    &&& self.wf() ==> a.wf()
                },
                Err(e) => e == PatchError::MissingSpec(self.name),
            },
    {
        let ArgoResource { yaml, kind, name, namespace, file_name } = self;
        let ghost doc0 = yaml@;
        let ghost wf0 = self.wf();
        let (hole, sp_opt) = eff_take(yaml, &kind);
        match sp_opt {
            Some(s) => {
                if s.is_mapping() {
                    let s2 = s.set("project", Yaml::Str(String::from_str("default")));
                    let out = eff_put(hole, &kind, s2);
                    proof {
                        if wf0 {
                            lemma_eff_replace_wf(doc0, kind, s2@);
                        }
                    }
                    Ok(ArgoResource { yaml: out, kind, name, namespace, file_name })
                } else {
                    Err(PatchError::MissingSpec(name))
                }
            },
            None => Err(PatchError::MissingSpec(name)),
        }
    }
}

/// Equality of two kind tags.
fn kind_eq(a: &ApplicationKind, b: &ApplicationKind) -> (r: bool)
    ensures
        r == (a == b),
{
    match (a, b) {
        (ApplicationKind::Application, ApplicationKind::Application) => true,
        (ApplicationKind::ApplicationSet, ApplicationKind::ApplicationSet) => true,
        _ => false,
    }
}

/// How one source entry is rewritten: a Helm `chart` source is left
/// untouched (chart sources are not git-revision-addressable); otherwise,
/// when `repoURL` case-insensitively contains the target repository,
/// `targetRevision` is set to the branch; any other source is left as it
/// is.
pub open spec fn source_redirected(src: YamlV, repo: Seq<char>, branch: Seq<char>) -> YamlV {
    if get_str_v(src, "chart"@) is Some {
        src
    } else if match get_str_v(src, "repoURL"@) {
        Some(u) => crate::strutil::ci_contains(u, repo),
        None => false,
    } {
        set_v(src, "targetRevision"@, YamlV::Str(branch))
    } else {
        src
    }
}

/// [`source_redirected`], applied to every entry of a `sources` list.
pub open spec fn sources_redirected(xs: Seq<YamlV>, repo: Seq<char>, branch: Seq<char>) -> Seq<
    YamlV,
> {
    Seq::new(
        xs.len(),
        |i: int|
            if 0 <= i < xs.len() {
                source_redirected(xs[i], repo, branch)
            } else {
                YamlV::Null
            },
    )
}

/// How an effective spec's sources are rewritten: the single `source` if
/// present, else each entry of the `sources` list.
pub open spec fn spec_sources_redirected(s: YamlV, repo: Seq<char>, branch: Seq<char>) -> YamlV {
    if crate::yaml::has_v(s, "source"@) {
        set_v(s, "source"@, source_redirected(get_v(s, "source"@).unwrap(), repo, branch))
    } else if crate::yaml::has_v(s, "sources"@) {
        match get_v(s, "sources"@).unwrap() {
            YamlV::List(xs) => set_v(
                s,
                "sources"@,
                YamlV::List(sources_redirected(xs, repo, branch)),
            ),
            _ => s,
        }
    } else {
        s
    }
}

/// Rewrite one source entry as [`source_redirected`] says.
fn redirect_one_source(src: Yaml, repo: &str, branch: &str) -> (r: Yaml)
    ensures
        r@ == source_redirected(src@, repo@, branch@),
{
    if src.get_str("chart").is_some() {
        return src;
    }
    let matched = match src.get_str("repoURL") {
        Some(u) => crate::strutil::ci_contains_str(u.as_str(), repo),
        None => false,
    };
    if matched {
        src.set("targetRevision", Yaml::Str(String::from_str(branch)))
    } else {
        src
    }
}

/// How one entry of a `generators` list is rewritten: when it holds a
/// `git` mapping with a `repoURL` that case-insensitively contains the
/// target repository, the generator's `revision` is set to the branch.
pub open spec fn git_gen_redirected(g: YamlV, repo: Seq<char>, branch: Seq<char>) -> YamlV {
    match get_v(g, "git"@) {
        Some(git) => if match get_str_v(git, "repoURL"@) {
            Some(u) => crate::strutil::ci_contains(u, repo),
            None => false,
        } {
            set_v(g, "git"@, set_v(git, "revision"@, YamlV::Str(branch)))
        } else {
            g
        },
        None => g,
    }
}

/// [`git_gen_redirected`], applied to every entry of a `generators` list.
pub open spec fn gens_redirected(xs: Seq<YamlV>, repo: Seq<char>, branch: Seq<char>) -> Seq<
    YamlV,
> {
    Seq::new(
        xs.len(),
        |i: int|
            if 0 <= i < xs.len() {
                git_gen_redirected(xs[i], repo, branch)
            } else {
                YamlV::Null
            },
    )
}

/// How a mapping that may hold a `generators` list is rewritten: each of
/// its git generators is redirected.
pub open spec fn container_gits_redirected(c: YamlV, repo: Seq<char>, branch: Seq<char>) -> YamlV {
    if crate::yaml::has_v(c, "generators"@) {
        match get_v(c, "generators"@).unwrap() {
            YamlV::List(xs) => set_v(c, "generators"@, YamlV::List(gens_redirected(xs, repo, branch))),
            _ => c,
        }
    } else {
        c
    }
}

/// How one generator's nested `matrix` block is rewritten: its own
/// `generators` list goes through [`container_gits_redirected`], one
/// level deep.
pub open spec fn matrix_gen_redirected(g: YamlV, repo: Seq<char>, branch: Seq<char>) -> YamlV {
    match get_v(g, "matrix"@) {
        Some(mm) => if mm is Mapping {
            set_v(g, "matrix"@, container_gits_redirected(mm, repo, branch))
        } else {
            g
        },
        None => g,
    }
}

/// [`matrix_gen_redirected`], applied to every entry of a `generators`
/// list.
pub open spec fn matrix_gens_redirected(xs: Seq<YamlV>, repo: Seq<char>, branch: Seq<char>) -> Seq<
    YamlV,
> {
    Seq::new(
        xs.len(),
        |i: int|
            if 0 <= i < xs.len() {
                matrix_gen_redirected(xs[i], repo, branch)
            } else {
                YamlV::Null
            },
    )
}

/// How an `ApplicationSet` spec's generators are rewritten: first every
/// direct git generator, then every `matrix` generator's nested list.
pub open spec fn appset_spec_redirected(sp: YamlV, repo: Seq<char>, branch: Seq<char>) -> YamlV {
    if crate::yaml::has_v(sp, "generators"@) {
        let sp1 = container_gits_redirected(sp, repo, branch);
        match get_v(sp1, "generators"@) {
            Some(v) => match v {
                YamlV::List(xs) => set_v(
                    sp1,
                    "generators"@,
                    YamlV::List(matrix_gens_redirected(xs, repo, branch)),
                ),
                _ => sp1,
            },
            None => sp1,
        }
    } else {
        sp
    }
}

/// Rewrite one generator entry as [`git_gen_redirected`] says.
fn redirect_git_gen(g: Yaml, repo: &str, branch: &str) -> (r: Yaml)
    ensures
        r@ == git_gen_redirected(g@, repo@, branch@),
{
    let ghost g0 = g@;
    let (ghole, git_opt) = g.take("git");
    match git_opt {
        Some(git) => {
            let matched = match git.get_str("repoURL") {
                Some(u) => crate::strutil::ci_contains_str(u.as_str(), repo),
                None => false,
            };
            if matched {
                let git2 = git.set("revision", Yaml::Str(String::from_str(branch)));
                let out = ghole.set("git", git2);
                proof {
                    lemma_set_set(g0, "git"@, YamlV::Null, git2@);
                }
                out
            } else {
                let out = ghole.set("git", git);
                proof {
                    lemma_set_set(g0, "git"@, YamlV::Null, get_v(g0, "git"@).unwrap());
                    lemma_set_self(g0, "git"@);
                }
                out
            }
        },
        None => ghole,
    }
}

/// Rewrite every git generator directly under a container's `generators`
/// list, as [`container_gits_redirected`] says.
fn redirect_container_gits(c: Yaml, repo: &str, branch: &str) -> (r: Yaml)
    ensures
        r@ == container_gits_redirected(c@, repo@, branch@),
{
    let ghost c0 = c@;
    if !c.has("generators") {
        return c;
    }
    let (chole, gens_opt) = c.take("generators");
    match gens_opt {
        Some(Yaml::List(mut xs)) => {
            let ghost xs0 = xs@;
            let mut i: usize = 0;
            while i < xs.len()
                invariant
                    xs@.len() == xs0.len(),
                    i <= xs0.len(),
                    forall|j: int|
                        0 <= j < i ==> xs@[j]@ == git_gen_redirected(xs0[j]@, repo@, branch@),
                    forall|j: int| i <= j < xs0.len() ==> xs@[j] == xs0[j],
                decreases xs0.len() - i,
            {
                let x = xs.remove(i);
                let x2 = redirect_git_gen(x, repo, branch);
                xs.insert(i, x2);
                i += 1;
            }
            proof {
                assert(crate::yaml::elems_of(xs@) =~= gens_redirected(
                    crate::yaml::elems_of(xs0),
                    repo@,
                    branch@,
                ));
            }
            let out = chole.set("generators", Yaml::List(xs));
            proof {
                lemma_set_set(c0, "generators"@, YamlV::Null, YamlV::List(
                    gens_redirected(crate::yaml::elems_of(xs0), repo@, branch@),
                ));
            }
            out
        },
        Some(other) => {
            let out = chole.set("generators", other);
            proof {
                lemma_set_set(c0, "generators"@, YamlV::Null, get_v(c0, "generators"@).unwrap());
                lemma_set_self(c0, "generators"@);
            }
            out
        },
        None => {
            proof {
                assert(false);
            }
            chole
        },
    }
}

/// Rewrite one generator's nested `matrix` block, as
/// [`matrix_gen_redirected`] says.
fn redirect_matrix_gen(g: Yaml, repo: &str, branch: &str) -> (r: Yaml)
    ensures
        r@ == matrix_gen_redirected(g@, repo@, branch@),
{
    let ghost g0 = g@;
    let (ghole, mm_opt) = g.take("matrix");
    match mm_opt {
        Some(mm) => {
            if mm.is_mapping() {
                let mm2 = redirect_container_gits(mm, repo, branch);
                let out = ghole.set("matrix", mm2);
                proof {
                    lemma_set_set(g0, "matrix"@, YamlV::Null, mm2@);
                }
                out
            } else {
                let out = ghole.set("matrix", mm);
                proof {
                    lemma_set_set(g0, "matrix"@, YamlV::Null, get_v(g0, "matrix"@).unwrap());
                    lemma_set_self(g0, "matrix"@);
                }
                out
            }
        },
        None => ghole,
    }
}

/// How `spec.destination` is rewritten: `name` forced to `in-cluster`,
/// `server` dropped; an absent mapping (a null) becomes one that only
/// names the cluster.
pub open spec fn dest_patched(d: YamlV) -> YamlV {
    match d {
        YamlV::Mapping(_) => crate::yaml::remove_v(
            set_v(d, "name"@, YamlV::Str("in-cluster"@)),
            "server"@,
        ),
        _ => YamlV::Mapping(seq![("name"@, YamlV::Str("in-cluster"@))]),
    }
}

/// Whether `spec.destination` has a shape the rewrite accepts.
pub open spec fn dest_ok(s: YamlV) -> bool {
    match get_v(s, "destination"@) {
        Some(d) => d is Mapping || d is Null,
        None => false,
    }
}

impl ArgoResource {
    /// Patch operation: point `spec.destination` at the shared throwaway
    /// cluster.  Fails when the effective spec or the `destination` key is
    /// missing, or when `destination` has a shape that cannot be
    /// rewritten.
    pub fn point_destination_to_in_cluster(self) -> (r: Result<ArgoResource, PatchError>)
        ensures
            r is Ok <==> (eff_map_ok(self.yaml@, self.kind) && dest_ok(
                eff_v(self.yaml@, self.kind).unwrap(),
            )),
            match r {
                Ok(a) => {
                    &&& a.yaml@ == eff_replace(
                        self.yaml@,
                        self.kind,
                        set_v(
                            eff_v(self.yaml@, self.kind).unwrap(),
                            "destination"@,
                            dest_patched(
                                get_v(
                                    eff_v(self.yaml@, self.kind).unwrap(),
                                    "destination"@,
                                ).unwrap(),
                            ),
                        ),
                    )
                    &&& a.name == self.name
                    &&& a.kind == self.kind
                    &&& a.namespace == self.namespace
                    &&& a.file_name == self.file_name
                    &&& self.wf() ==> a.wf()
                },
                Err(e) => if !eff_map_ok(self.yaml@, self.kind) {
                    e == PatchError::MissingSpec(self.name)
                } else if !crate::yaml::has_v(eff_v(self.yaml@, self.kind).unwrap(), "destination"@) {
                    e == PatchError::MissingDestination(self.name)
                } else {
                    e == PatchError::InvalidDestination(self.name)
                },
            },
    {
        let ArgoResource { yaml, kind, name, namespace, file_name } = self;
        let ghost doc0 = yaml@;
        let ghost wf0 = self.wf();
        let (hole, sp_opt) = eff_take(yaml, &kind);
        match sp_opt {
            Some(s) => {
                if !s.is_mapping() {
                    return Err(PatchError::MissingSpec(name));
                }
                let ghost s0 = s@;
                let (shole, d_opt) = s.take("destination");
                match d_opt {
                    Some(d) => {
                        let d2 = match d {
                            Yaml::Mapping(dm) => {
                                let dd = Yaml::Mapping(dm);
                                let dd2 = dd.set(
                                    "name",
                                    Yaml::Str(String::from_str("in-cluster")),
                                );
                                dd2.remove("server")
                            },
                            Yaml::Null => {
                                let one: Vec<(String, Yaml)> = vec![
                                    (
                                        String::from_str("name"),
                                        Yaml::Str(String::from_str("in-cluster")),
                                    ),
                                ];
                                proof {
                                    assert(crate::yaml::ents_of(one@) =~= seq![
                                        ("name"@, YamlV::Str("in-cluster"@)),
                                    ]);
                                }
                                Yaml::Mapping(one)
                            },
                            _ => {
                                return Err(PatchError::InvalidDestination(name));
                            },
                        };
                        let s2 = shole.set("destination", d2);
                        proof {
                            lemma_set_set(s0, "destination"@, YamlV::Null, d2@);
                        }
                        let out = eff_put(hole, &kind, s2);
                        proof {
                            if wf0 {
                                lemma_eff_replace_wf(doc0, kind, s2@);
                            }
                        }
                        Ok(ArgoResource { yaml: out, kind, name, namespace, file_name })
                    },
                    None => Err(PatchError::MissingDestination(name)),
                }
            },
            None => Err(PatchError::MissingSpec(name)),
        }
    }

    /// Patch operation: redirect the git sources of the effective spec to
    /// the branch under comparison (see [`source_redirected`]).  Fails
    /// when the effective spec mapping, or both `source` and `sources`,
    /// are missing.
    pub fn redirect_sources(self, repo: &str, branch: &str) -> (r: Result<
        ArgoResource,
        PatchError,
    >)
        ensures
            r is Ok <==> (eff_map_ok(self.yaml@, self.kind) && (crate::yaml::has_v(
                eff_v(self.yaml@, self.kind).unwrap(),
                "source"@,
            ) || crate::yaml::has_v(eff_v(self.yaml@, self.kind).unwrap(), "sources"@))),
            match r {
                Ok(a) => {
                    &&& a.yaml@ == eff_replace(
                        self.yaml@,
                        self.kind,
                        spec_sources_redirected(
                            eff_v(self.yaml@, self.kind).unwrap(),
                            repo@,
                            branch@,
                        ),
                    )
                    &&& a.name == self.name
                    &&& a.kind == self.kind
                    &&& a.namespace == self.namespace
                    &&& a.file_name == self.file_name
                    &&& self.wf() ==> a.wf()
                },
                Err(e) => if !eff_map_ok(self.yaml@, self.kind) {
                    e == PatchError::MissingSpec(self.name)
                } else {
                    e == PatchError::MissingSource(self.name)
                },
            },
    {
        let ArgoResource { yaml, kind, name, namespace, file_name } = self;
        let ghost doc0 = yaml@;
        let ghost wf0 = self.wf();
        let (hole, sp_opt) = eff_take(yaml, &kind);
        match sp_opt {
            Some(s) => {
                if !s.is_mapping() {
                    return Err(PatchError::MissingSpec(name));
                }
                let ghost s0 = s@;
                if s.has("source") {
                    let (shole, src_opt) = s.take("source");
                    match src_opt {
                        Some(src) => {
                            let src2 = redirect_one_source(src, repo, branch);
                            let s2 = shole.set("source", src2);
                            proof {
                                lemma_set_set(s0, "source"@, YamlV::Null, src2@);
                            }
                            let out = eff_put(hole, &kind, s2);
                            proof {
                                if wf0 {
                                    lemma_eff_replace_wf(doc0, kind, s2@);
                                }
                            }
                            Ok(ArgoResource { yaml: out, kind, name, namespace, file_name })
                        },
                        None => {
                            proof {
                                assert(false);
                            }
                            Err(PatchError::MissingSource(name))
                        },
                    }
                } else if s.has("sources") {
                    let (shole, xs_opt) = s.take("sources");
                    match xs_opt {
                        Some(Yaml::List(mut xs)) => {
                            let ghost xs0 = xs@;
                            let mut i: usize = 0;
                            while i < xs.len()
                                invariant
                                    xs@.len() == xs0.len(),
                                    i <= xs0.len(),
                                    forall|j: int|
                                        0 <= j < i ==> xs@[j]@ == source_redirected(
                                            xs0[j]@,
                                            repo@,
                                            branch@,
                                        ),
                                    forall|j: int| i <= j < xs0.len() ==> xs@[j] == xs0[j],
                                decreases xs0.len() - i,
                            {
                                let x = xs.remove(i);
                                let x2 = redirect_one_source(x, repo, branch);
                                xs.insert(i, x2);
                                i += 1;
                            }
                            proof {
                                assert(crate::yaml::elems_of(xs@) =~= sources_redirected(
                                    crate::yaml::elems_of(xs0),
                                    repo@,
                                    branch@,
                                ));
                            }
                            let s2 = shole.set("sources", Yaml::List(xs));
                            proof {
                                lemma_set_set(s0, "sources"@, YamlV::Null, YamlV::List(
                                    sources_redirected(crate::yaml::elems_of(xs0), repo@, branch@),
                                ));
                            }
                            let out = eff_put(hole, &kind, s2);
                            proof {
                                if wf0 {
                                    lemma_eff_replace_wf(doc0, kind, s2@);
                                }
                            }
                            Ok(ArgoResource { yaml: out, kind, name, namespace, file_name })
                        },
                        Some(other) => {
                            let s2 = shole.set("sources", other);
                            proof {
                                lemma_set_set(s0, "sources"@, YamlV::Null, get_v(
                                    s0,
                                    "sources"@,
                                ).unwrap());
                                crate::yaml::lemma_set_self(s0, "sources"@);
                            }
                            let out = eff_put(hole, &kind, s2);
                            proof {
                                lemma_eff_replace_self(doc0, kind);
                            }
                            Ok(ArgoResource { yaml: out, kind, name, namespace, file_name })
                        },
                        None => {
                            proof {
                                assert(false);
                            }
                            Err(PatchError::MissingSource(name))
                        },
                    }
                } else {
                    Err(PatchError::MissingSource(name))
                }
            },
            None => Err(PatchError::MissingSpec(name)),
        }
    }

    /// Patch operation (`ApplicationSet` only): redirect every git
    /// generator's `revision` under `spec.generators[]` and, one level
    /// deeper, under each `matrix` generator's nested list.  An
    /// `Application` passes through unchanged.
    pub fn redirect_generators(self, repo: &str, branch: &str) -> (r: Result<
        ArgoResource,
        PatchError,
    >)
        ensures
            self.kind == ApplicationKind::Application ==> r == Ok::<ArgoResource, PatchError>(
                self,
            ),
            self.kind == ApplicationKind::ApplicationSet ==> {
                &&& r is Ok <==> (match get_v(self.yaml@, "spec"@) {
                    Some(sp) => sp is Mapping,
                    None => false,
                })
                &&& match r {
                    Ok(a) => {
                        &&& a.yaml@ == set_v(
                            self.yaml@,
                            "spec"@,
                            appset_spec_redirected(
                                get_v(self.yaml@, "spec"@).unwrap(),
                                repo@,
                                branch@,
                            ),
                        )
                        &&& a.name == self.name
                        &&& a.kind == self.kind
                        &&& a.namespace == self.namespace
                        &&& a.file_name == self.file_name
                        &&& self.wf() ==> a.wf()
                    },
                    Err(e) => e == PatchError::MissingSpec(self.name),
                }
            },
    {
        if kind_eq(&self.kind, &ApplicationKind::Application) {
            return Ok(self);
        }
        let ArgoResource { yaml, kind, name, namespace, file_name } = self;
        let ghost doc0 = yaml@;
        let ghost wf0 = self.wf();
        let (hole, sp_opt) = yaml.take("spec");
        match sp_opt {
            Some(sp) => {
                if !sp.is_mapping() {
                    return Err(PatchError::MissingSpec(name));
                }
                let ghost sp0 = sp@;
                let sp1 = redirect_container_gits(sp, repo, branch);
                let (s1hole, gens_opt) = sp1.take("generators");
                let ghost spc = sp1@;
                let sp2 = match gens_opt {
                    Some(gens) => {
                        match gens {
                            Yaml::List(mut xs) => {
                                let ghost xs0 = xs@;
                                let mut i: usize = 0;
                                while i < xs.len()
                                    invariant
                                        xs@.len() == xs0.len(),
                                        i <= xs0.len(),
                                        forall|j: int|
                                            0 <= j < i ==> xs@[j]@ == matrix_gen_redirected(
                                                xs0[j]@,
                                                repo@,
                                                branch@,
                                            ),
                                        forall|j: int| i <= j < xs0.len() ==> xs@[j] == xs0[j],
                                    decreases xs0.len() - i,
                                {
                                    let x = xs.remove(i);
                                    let x2 = redirect_matrix_gen(x, repo, branch);
                                    xs.insert(i, x2);
                                    i += 1;
                                }
                                proof {
                                    assert(crate::yaml::elems_of(xs@) =~= matrix_gens_redirected(
                                        crate::yaml::elems_of(xs0),
                                        repo@,
                                        branch@,
                                    ));
                                }
                                let out = s1hole.set("generators", Yaml::List(xs));
                                proof {
                                    lemma_set_set(spc, "generators"@, YamlV::Null, YamlV::List(
                                        matrix_gens_redirected(
                                            crate::yaml::elems_of(xs0),
                                            repo@,
                                            branch@,
                                        ),
                                    ));
                                }
                                out
                            },
                            other => {
                                let out = s1hole.set("generators", other);
                                proof {
                                    lemma_set_set(spc, "generators"@, YamlV::Null, get_v(
                                        spc,
                                        "generators"@,
                                    ).unwrap());
                                    lemma_set_self(spc, "generators"@);
                                }
                                out
                            },
                        }
                    },
                    None => s1hole,
                };
                let out = hole.set("spec", sp2);
                proof {
                    lemma_set_set(doc0, "spec"@, YamlV::Null, sp2@);
                    if wf0 {
                        lemma_eff_replace_wf(doc0, ApplicationKind::Application, sp2@);
                    }
                }
                Ok(ArgoResource { yaml: out, kind, name, namespace, file_name })
            },
            None => Err(PatchError::MissingSpec(name)),
        }
    }

    /// Patch operation: write `metadata.namespace`.
    pub fn set_namespace(self, namespace: &str) -> (r: ArgoResource)
        requires
            self.wf(),
        ensures
            r.yaml@ == set_v(
                self.yaml@,
                "metadata"@,
                set_v(
                    get_v(self.yaml@, "metadata"@).unwrap(),
                    "namespace"@,
                    YamlV::Str(namespace@),
                ),
            ),
            r.namespace@ == namespace@,
            r.name == self.name,
            r.kind == self.kind,
            r.file_name == self.file_name,
            r.wf(),
    {
        let ArgoResource { yaml, kind, name, namespace: _, file_name } = self;
        let ghost doc0 = yaml@;
        let (hole, md_opt) = yaml.take("metadata");
        match md_opt {
            Some(md) => {
                let md2 = md.set("namespace", Yaml::Str(String::from_str(namespace)));
                let yaml2 = hole.set("metadata", md2);
                proof {
                    lemma_set_set(doc0, "metadata"@, YamlV::Null, md2@);
                    lemma_get_set_same(doc0, "metadata"@, md2@);
                }
                ArgoResource {
                    yaml: yaml2,
                    kind,
                    name,
                    namespace: String::from_str(namespace),
                    file_name,
                }
            },
            None => {
                proof {
                    assert(false);
                }
                ArgoResource {
                    yaml: Yaml::Null,
                    kind,
                    name,
                    namespace: String::from_str(namespace),
                    file_name,
                }
            },
        }
    }
}

/// A source that declares a Helm chart keeps its `targetRevision`
/// untouched by redirection, whatever its `repoURL` holds.
pub proof fn lemma_chart_source_untouched(src: YamlV, repo: Seq<char>, branch: Seq<char>)
    requires
        get_str_v(src, "chart"@) is Some,
    ensures
        get_v(source_redirected(src, repo, branch), "targetRevision"@) == get_v(
            src,
            "targetRevision"@,
        ),
{
}

/// A chartless source whose `repoURL` case-insensitively contains the
/// target repository has its `targetRevision` set to the branch by
/// redirection.
pub proof fn lemma_matching_source_redirected(src: YamlV, repo: Seq<char>, branch: Seq<char>)
    requires
        get_str_v(src, "chart"@) is None,
        match get_str_v(src, "repoURL"@) {
            Some(u) => crate::strutil::ci_contains(u, repo),
            None => false,
        },
    ensures
        get_str_v(source_redirected(src, repo, branch), "targetRevision"@) == Some(branch),
{
    lemma_get_set_same(src, "targetRevision"@, YamlV::Str(branch));
}

/// A resource annotated `argocd-diff-preview/ignore: "true"` is excluded,
/// whatever its other annotations, labels or the changed files say.
pub proof fn lemma_ignore_annotation_excludes(
    doc: YamlV,
    file_name: Seq<char>,
    sel: Option<Seq<crate::selector::SelectorV>>,
    files: Option<Seq<Seq<char>>>,
    ign: bool,
)
    requires
        ignored_v(doc),
    ensures
        filter_verdict(doc, file_name, sel, files, ign) == FilterVerdict::Drop,
{
}

/// A resource whose own source file is among the changed files is kept,
/// even without a watch-pattern annotation, provided it is not ignored
/// and the selector accepts it.
pub proof fn lemma_own_file_change_includes(
    doc: YamlV,
    file_name: Seq<char>,
    sel: Option<Seq<crate::selector::SelectorV>>,
    files: Seq<Seq<char>>,
    ign: bool,
)
    requires
        !ignored_v(doc),
        match sel {
            Some(s) => selector_holds(labels_v(doc), s),
            None => true,
        },
        match watch_annotation(doc) {
            Some(w) => segments_valid(pattern_segments(w)),
            None => true,
        },
        files.contains(file_name),
    ensures
        filter_verdict(doc, file_name, sel, Some(files), ign) == FilterVerdict::Keep,
{
}

/// An invalid watch pattern is fatal when the caller did not opt into
/// ignoring it: the run must stop before any further resource is
/// processed.
pub proof fn lemma_invalid_pattern_fatal(
    doc: YamlV,
    file_name: Seq<char>,
    sel: Option<Seq<crate::selector::SelectorV>>,
    files: Option<Seq<Seq<char>>>,
)
    requires
        !ignored_v(doc),
        match sel {
            Some(s) => selector_holds(labels_v(doc), s),
            None => true,
        },
        match watch_annotation(doc) {
            Some(w) => !segments_valid(pattern_segments(w)),
            None => false,
        },
    ensures
        filter_verdict(doc, file_name, sel, files, false) == FilterVerdict::Invalid,
{
}

/// Materialize the string-valued label pairs of `metadata.labels`.
fn collect_labels(doc: &Yaml) -> (r: Vec<(String, String)>)
    ensures
        pairs_of(r@) == labels_v(doc@),
{
    let mut out: Vec<(String, String)> = Vec::new();
    let lm: &Vec<(String, Yaml)> = match doc.get("metadata") {
        Some(md) => match md.get("labels") {
            Some(l) => match l {
                Yaml::Mapping(m) => m,
                _ => {
                    proof {
                        assert(pairs_of(out@) =~= labels_v(doc@));
                    }
                    return out;
                },
            },
            None => {
                proof {
                    assert(pairs_of(out@) =~= labels_v(doc@));
                }
                return out;
            },
        },
        None => {
            proof {
                assert(pairs_of(out@) =~= labels_v(doc@));
            }
            return out;
        },
    };
    let ghost ents = crate::yaml::ents_of(lm@);
    proof {
        assert(labels_v(doc@) == label_pairs(ents));
        assert(ents.skip(0) =~= ents);
    }
    let mut i: usize = 0;
    while i < lm.len()
        invariant
            ents == crate::yaml::ents_of(lm@),
            lm@.len() == ents.len(),
            i <= ents.len(),
            labels_v(doc@) == label_pairs(ents),
            label_pairs(ents) =~= pairs_of(out@) + label_pairs(ents.skip(i as int)),
        decreases ents.len() - i,
    {
        let ghost pre = out@;
        proof {
            assert(ents.skip(i as int).drop_first() =~= ents.skip(i + 1));
            assert(ents.skip(i as int)[0] == ents[i as int]);
        }
        let entry = &lm[i];
        proof {
            assert(*entry == lm@[i as int]);
        }
        match &entry.1 {
            Yaml::Str(v) => {
                proof {
                    crate::yaml::lemma_ents_index(lm@, i as int);
                    assert(lm@[i as int].1@ == YamlV::Str(v@));
                    let s = ents.skip(i as int);
                    assert(s.len() > 0);
                    assert(s[0] == ents[i as int]);
                    assert(s[0].1 == YamlV::Str(v@));
                    assert(label_pairs(s) == seq![(s[0].0, v@)] + label_pairs(s.drop_first()));
                    assert(label_pairs(ents.skip(i as int)) =~= seq![
                        (lm@[i as int].0@, v@),
                    ] + label_pairs(ents.skip(i + 1)));
                }
                out.push((entry.0.clone(), v.clone()));
                proof {
                    assert(pairs_of(out@) =~= pairs_of(pre).push((lm@[i as int].0@, v@)));
                    assert(pairs_of(out@) + label_pairs(ents.skip(i + 1)) =~= pairs_of(pre)
                        + label_pairs(ents.skip(i as int)));
                }
            },
            _ => {
                proof {
                    crate::yaml::lemma_ents_index(lm@, i as int);
                    let s = ents.skip(i as int);
                    assert(s.len() > 0);
                    assert(s[0] == ents[i as int]);
                    assert(!(s[0].1 is Str));
                    assert(label_pairs(s) == label_pairs(s.drop_first()));
                    assert(label_pairs(ents.skip(i as int)) =~= label_pairs(ents.skip(i + 1)));
                }
            },
        }
        i += 1;
    }
    proof {
        assert(label_pairs(ents.skip(ents.len() as int)) =~= Seq::<(Seq<char>, Seq<char>)>::empty());
        assert(pairs_of(out@) + label_pairs(ents.skip(ents.len() as int)) =~= pairs_of(out@));
    }
    out
}

/// Whether one clause holds of the label pairs.
fn clause_holds(labels: &Vec<(String, String)>, c: &crate::selector::Selector) -> (r: bool)
    ensures
        r == selector_clause_holds(pairs_of(labels@), c@),
{
    match c.operator {
        crate::selector::Operator::Eq => {
            let mut i: usize = 0;
            while i < labels.len()
                invariant
                    c.operator == crate::selector::Operator::Eq,
                    i <= labels@.len(),
                    forall|j: int|
                        0 <= j < i ==> !(pairs_of(labels@)[j].0 == c@.key && pairs_of(
                            labels@,
                        )[j].1 == c@.value),
                decreases labels@.len() - i,
            {
                if eq_str(labels[i].0.as_str(), c.key.as_str()) && eq_str(
                    labels[i].1.as_str(),
                    c.value.as_str(),
                ) {
                    proof {
                        assert(pairs_of(labels@)[i as int].0 == labels@[i as int].0@);
                        assert(pairs_of(labels@)[i as int].1 == labels@[i as int].1@);
                    }
                    return true;
                }
                proof {
                    assert(pairs_of(labels@)[i as int].0 == labels@[i as int].0@);
                    assert(pairs_of(labels@)[i as int].1 == labels@[i as int].1@);
                }
                i += 1;
            }
            false
        },
        crate::selector::Operator::Ne => {
            let mut i: usize = 0;
            while i < labels.len()
                invariant
                    c.operator == crate::selector::Operator::Ne,
                    i <= labels@.len(),
                    forall|j: int|
                        0 <= j < i ==> !(pairs_of(labels@)[j].0 == c@.key && pairs_of(
                            labels@,
                        )[j].1 == c@.value),
                decreases labels@.len() - i,
            {
                if eq_str(labels[i].0.as_str(), c.key.as_str()) && eq_str(
                    labels[i].1.as_str(),
                    c.value.as_str(),
                ) {
                    proof {
                        assert(pairs_of(labels@)[i as int].0 == labels@[i as int].0@);
                        assert(pairs_of(labels@)[i as int].1 == labels@[i as int].1@);
                    }
                    return false;
                }
                proof {
                    assert(pairs_of(labels@)[i as int].0 == labels@[i as int].0@);
                    assert(pairs_of(labels@)[i as int].1 == labels@[i as int].1@);
                }
                i += 1;
            }
            true
        },
    }
}

/// Whether every clause holds.
fn all_clauses_hold(labels: &Vec<(String, String)>, sel: &Vec<crate::selector::Selector>) -> (r:
    bool)
    ensures
        r == selector_holds(pairs_of(labels@), selectors_v(sel@)),
{
    let mut i: usize = 0;
    while i < sel.len()
        invariant
            i <= sel@.len(),
            forall|j: int|
                0 <= j < i ==> selector_clause_holds(pairs_of(labels@), selectors_v(sel@)[j]),
        decreases sel@.len() - i,
    {
        proof {
            assert(selectors_v(sel@)[i as int] == sel@[i as int]@);
        }
        if !clause_holds(labels, &sel[i]) {
            return false;
        }
        i += 1;
    }
    true
}

/// Split the watch annotation on commas and trim each segment.
fn watch_segments(w: &str) -> (r: Vec<String>)
    ensures
        r.deep_view() == pattern_segments(w@),
{
    proof {
        reveal_strlit(",");
    }
    let parts = crate::strutil::split_all(w, ",");
    let mut out: Vec<String> = Vec::new();
    let mut i: usize = 0;
    while i < parts.len()
        invariant
            i <= parts@.len(),
            parts.deep_view() == crate::strutil::split_s(w@, ","@),
            out@.len() == i,
            forall|j: int| 0 <= j < i ==> out.deep_view()[j] == pattern_segments(w@)[j],
        decreases parts@.len() - i,
    {
        let ghost pre = out.deep_view();
        out.push(crate::strutil::trim(parts[i].as_str()).to_owned());
        proof {
            assert(parts.deep_view()[i as int] == parts@[i as int]@);
            assert(out.deep_view() =~= pre.push(
                crate::strutil::trimmed(parts@[i as int]@),
            ));
        }
        i += 1;
    }
    proof {
        assert(out.deep_view() =~= pattern_segments(w@));
    }
    out
}

/// Compile every segment; on the first one the library rejects, report
/// it.
fn compile_segments(segs: &Vec<String>) -> (r: Result<Vec<regex::Regex>, String>)
    ensures
        match r {
            Ok(regs) => {
                &&& segments_valid(segs.deep_view())
                &&& regs@.len() == segs@.len()
                &&& forall|j: int|
                    0 <= j < segs@.len() ==> crate::patterns::re_pattern(regs@[j])
                        == segs.deep_view()[j]
            },
            Err(bad) => !crate::patterns::regex_valid(bad@) && exists|i: int|
                0 <= i < segs@.len() && segs.deep_view()[i] == bad@,
        },
{
    let mut regs: Vec<regex::Regex> = Vec::new();
    let mut i: usize = 0;
    while i < segs.len()
        invariant
            i <= segs@.len(),
            regs@.len() == i,
            forall|j: int|
                0 <= j < i ==> crate::patterns::re_pattern(regs@[j]) == segs.deep_view()[j],
            forall|j: int| 0 <= j < i ==> crate::patterns::regex_valid(segs.deep_view()[j]),
        decreases segs@.len() - i,
    {
        proof {
            assert(segs.deep_view()[i as int] == segs@[i as int]@);
        }
        match crate::patterns::regex_new(segs[i].as_str()) {
            Some(re) => {
                let ghost pre = regs@;
                regs.push(re);
                proof {
                    assert(regs@ =~= pre.push(re));
                }
            },
            None => {
                return Err(segs[i].clone());
            },
        }
        i += 1;
    }
    Ok(regs)
}

/// Whether any compiled pattern matches any changed file.
fn any_pattern_matches(
    regs: &Vec<regex::Regex>,
    files: &Vec<String>,
    Ghost(segs): Ghost<Seq<Seq<char>>>,
) -> (r: bool)
    requires
        regs@.len() == segs.len(),
        forall|j: int| 0 <= j < segs.len() ==> crate::patterns::re_pattern(regs@[j]) == segs[j],
    ensures
        r == any_match(segs, files.deep_view()),
{
    let mut j: usize = 0;
    while j < files.len()
        invariant
            j <= files@.len(),
            regs@.len() == segs.len(),
            forall|k: int| 0 <= k < segs.len() ==> crate::patterns::re_pattern(regs@[k]) == segs[k],
            forall|jj: int, i: int|
                0 <= jj < j && 0 <= i < segs.len() ==> !crate::patterns::regex_match(
                    segs[i],
                    files.deep_view()[jj],
                ),
        decreases files@.len() - j,
    {
        let mut i: usize = 0;
        while i < regs.len()
            invariant
                j < files@.len(),
                i <= regs@.len(),
                regs@.len() == segs.len(),
                forall|k: int|
                    0 <= k < segs.len() ==> crate::patterns::re_pattern(regs@[k]) == segs[k],
                forall|ii: int|
                    0 <= ii < i ==> !crate::patterns::regex_match(
                        segs[ii],
                        files.deep_view()[j as int],
                    ),
            decreases regs@.len() - i,
        {
            if crate::patterns::regex_is_match(&regs[i], files[j].as_str()) {
                proof {
                    assert(files.deep_view()[j as int] == files@[j as int]@);
                    assert(crate::patterns::regex_match(
                        segs[i as int],
                        files.deep_view()[j as int],
                    ));
                }
                return true;
            }
            proof {
                assert(files.deep_view()[j as int] == files@[j as int]@);
            }
            i += 1;
        }
        j += 1;
    }
    false
}

impl ArgoResource {
    /// The resource rendered as YAML text, when it can be serialized.
    pub fn as_string(&self) -> (r: Option<String>)
        ensures
            match r {
                Some(s) => crate::codec::rendered_doc(self.yaml@) == Some(s@),
                None => crate::codec::rendered_doc(self.yaml@) is None,
            },
    {
        crate::codec::render_doc(&self.yaml)
    }

    /// The filter engine: decide whether this resource is in scope for
    /// comparison (see [`filter_verdict`] for the order of the checks).
    /// An invalid watch pattern aborts the run unless
    /// `ignore_invalid_watch_pattern` was chosen, in which case the
    /// resource alone is excluded.
    pub fn filter(
        self,
        selector: &Option<Vec<crate::selector::Selector>>,
        files_changed: &Option<Vec<String>>,
        ignore_invalid_watch_pattern: bool,
    ) -> (r: Result<Option<ArgoResource>, FilterError>)
        ensures
            ({
                let sv = match selector {
                    Some(v) => Some(selectors_v(v@)),
                    None => None,
                };
                let fv = match files_changed {
                    Some(f) => Some(f.deep_view()),
                    None => None,
                };
                match filter_verdict(
                    self.yaml@,
                    self.file_name@,
                    sv,
                    fv,
                    ignore_invalid_watch_pattern,
                ) {
                    FilterVerdict::Keep => r == Ok::<Option<ArgoResource>, FilterError>(
                        Some(self),
                    ),
                    FilterVerdict::Drop => r == Ok::<Option<ArgoResource>, FilterError>(None),
                    FilterVerdict::Invalid => match r {
                        Err(e) => match e {
                            FilterError::InvalidPattern { name, segment } => {
                                &&& name == self.name
                                &&& !crate::patterns::regex_valid(segment@)
                                &&& exists|i: int|
                                    0 <= i < pattern_segments(
                                        watch_annotation(self.yaml@).unwrap(),
                                    ).len() && pattern_segments(
                                        watch_annotation(self.yaml@).unwrap(),
                                    )[i] == segment@
                            },
                        },
                        Ok(_) => false,
                    },
                }
            }),
    {
        let ignore_set = match self.yaml.get("metadata") {
            Some(md) => match md.get("annotations") {
                Some(an) => match an.get_str("argocd-diff-preview/ignore") {
                    Some(v) => eq_str(v.as_str(), "true"),
                    None => false,
                },
                None => false,
            },
            None => false,
        };
        if ignore_set {
            return Ok(None);
        }
        match selector {
            Some(sel) => {
                let labels = collect_labels(&self.yaml);
                if !all_clauses_hold(&labels, sel) {
                    return Ok(None);
                }
            },
            None => (),
        }
        let wopt: Option<String> = match self.yaml.get("metadata") {
            Some(md) => match md.get("annotations") {
                Some(an) => match an.get_str("argocd-diff-preview/watch-pattern") {
                    Some(w) => Some(w.clone()),
                    None => None,
                },
                None => None,
            },
            None => None,
        };
        match wopt {
            Some(w) => {
                let segs = watch_segments(w.as_str());
                match compile_segments(&segs) {
                    Err(bad) => {
                        if ignore_invalid_watch_pattern {
                            Ok(None)
                        } else {
                            let name = self.name.clone();
                            Err(FilterError::InvalidPattern { name, segment: bad })
                        }
                    },
                    Ok(regs) => {
                        match files_changed {
                            None => Ok(Some(self)),
                            Some(fs) => {
                                if crate::strutil::contains_string(fs, self.file_name.as_str()) {
                                    return Ok(Some(self));
                                }
                                if any_pattern_matches(
                                    &regs,
                                    fs,
                                    Ghost(segs.deep_view()),
                                ) {
                                    Ok(Some(self))
                                } else {
                                    Ok(None)
                                }
                            },
                        }
                    },
                }
            },
            None => {
                match files_changed {
                    None => Ok(Some(self)),
                    Some(fs) => {
                        if crate::strutil::contains_string(fs, self.file_name.as_str()) {
                            Ok(Some(self))
                        } else {
                            Ok(None)
                        }
                    },
                }
            },
        }
    }
}

} // verus!
