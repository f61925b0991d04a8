//! The resolution pipeline: from raw file text to patched resources.
//!
//! Files are split into `---`-separated chunks on whole lines only, each
//! chunk is parsed independently (an unparsable chunk becomes a null
//! document, never a fatal error), documents are classified and filtered,
//! and the survivors go through the patch pipeline in its fixed order.

use vstd::prelude::*;
use vstd::string::StrSliceExecFns;
use vstd::string::StringExecFns;

use crate::codec::parse_doc;
use crate::codec::parsed_doc;
use crate::resource::ArgoResource;
use crate::resource::ArgoResourceV;
use crate::resource::K8sResource;
use crate::strutil::split_s;
use crate::yaml::Yaml;
use crate::yaml::YamlV;

verus! {

/// One trailing carriage return is stripped from a line, as reading lines
/// of text strips it.
pub open spec fn strip_cr(l: Seq<char>) -> Seq<char> {
    if l.len() > 0 && l.last() == '\r' {
        l.drop_last()
    } else {
        l
    }
}

/// The lines of a file: split on newlines, each stripped of one trailing
/// carriage return.
pub open spec fn lines_of(s: Seq<char>) -> Seq<Seq<char>> {
    let parts = split_s(s, "\n"@);
    Seq::new(
        parts.len(),
        |i: int|
            if 0 <= i < parts.len() {
                strip_cr(parts[i])
            } else {
                Seq::empty()
            },
    )
}

/// Folding the lines into chunks: a line that is exactly `---` closes the
/// chunk under construction, any other line is appended to it behind a
/// newline.
pub open spec fn chunks_rec(
    lines: Seq<Seq<char>>,
    cur: Seq<char>,
    done: Seq<Seq<char>>,
) -> Seq<Seq<char>>
    decreases lines.len(),
{
    if lines.len() == 0 {
        done.push(cur)
    } else if lines[0] == "---"@ {
        chunks_rec(lines.drop_first(), Seq::empty(), done.push(cur))
    } else {
        chunks_rec(lines.drop_first(), cur + "\n"@ + lines[0], done)
    }
}

/// The raw chunks of one file's content.
pub open spec fn chunks_of(content: Seq<char>) -> Seq<Seq<char>> {
    chunks_rec(lines_of(content), Seq::empty(), Seq::empty())
}

/// Split one file's lines.
fn split_lines(content: &str) -> (r: Vec<String>)
    ensures
        r.deep_view() == lines_of(content@),
{
    proof {
        reveal_strlit("\n");
    }
    let parts = crate::strutil::split_all(content, "\n");
    let mut out: Vec<String> = Vec::new();
    let mut i: usize = 0;
    while i < parts.len()
        invariant
            parts.deep_view() == split_s(content@, "\n"@),
            i <= parts@.len(),
            out@.len() == i,
            forall|j: int| 0 <= j < i ==> out.deep_view()[j] == lines_of(content@)[j],
        decreases parts@.len() - i,
    {
        let ghost pre = out.deep_view();
        let p = parts[i].as_str();
        let plen = p.unicode_len();
        let stripped: String = if plen > 0 && p.get_char(plen - 1) == '\r' {
            proof {
                assert(p@.subrange(0, plen - 1) =~= p@.drop_last());
            }
            p.substring_char(0, plen - 1).to_owned()
        } else {
            p.to_owned()
        };
        proof {
            assert(parts.deep_view()[i as int] == parts@[i as int]@);
            assert(stripped@ == strip_cr(parts@[i as int]@));
        }
        out.push(stripped);
        proof {
            assert(out.deep_view() =~= pre.push(strip_cr(parts@[i as int]@)));
        }
        i += 1;
    }
    proof {
        assert(out.deep_view() =~= lines_of(content@));
    }
    out
}

/// Split one file's content into its `---`-separated chunks; only a line
/// that is exactly `---` separates, so a `---` inside a line's text does
/// not.
pub fn split_chunks(content: &str) -> (r: Vec<String>)
    ensures
        r.deep_view() == chunks_of(content@),
{
    let lines = split_lines(content);
    let ghost lv = lines_of(content@);
    let mut done: Vec<String> = Vec::new();
    let mut cur = String::new();
    let mut i: usize = 0;
    proof {
        assert(lv.skip(0) =~= lv);
        assert(done.deep_view() =~= Seq::<Seq<char>>::empty());
    }
    while i < lines.len()
        invariant
            lines.deep_view() == lv,
            i <= lv.len(),
            chunks_of(content@) == chunks_rec(lv.skip(i as int), cur@, done.deep_view()),
        decreases lv.len() - i,
    {
        let ghost pre_done = done.deep_view();
        let ghost pre_cur = cur@;
        proof {
            assert(lv.skip(i as int).drop_first() =~= lv.skip(i + 1));
            assert(lv.skip(i as int)[0] == lv[i as int]);
            assert(lines.deep_view()[i as int] == lines@[i as int]@);
        }
        if crate::strutil::eq_str(lines[i].as_str(), "---") {
            done.push(cur);
            cur = String::new();
            proof {
                assert(done.deep_view() =~= pre_done.push(pre_cur));
            }
        } else {
            cur.append("\n");
            cur.append(lines[i].as_str());
            proof {
                assert(cur@ == pre_cur + "\n"@ + lv[i as int]);
            }
        }
        i += 1;
    }
    proof {
        assert(lv.skip(lv.len() as int) =~= Seq::<Seq<char>>::empty());
    }
    done.push(cur);
    done
}

/// What one parsed chunk yields: its document, or a null marker when the
/// text does not parse.
pub open spec fn parsed_chunk(c: Seq<char>) -> YamlV {
    match parsed_doc(c) {
        Some(y) => y,
        None => YamlV::Null,
    }
}

/// The views of a list of raw resources.
pub open spec fn k8s_views(rs: Seq<K8sResource>) -> Seq<(Seq<char>, YamlV)> {
    Seq::new(
        rs.len(),
        |i: int|
            if 0 <= i < rs.len() {
                (rs[i].file_name@, rs[i].yaml@)
            } else {
                (Seq::empty(), YamlV::Null)
            },
    )
}

/// The raw resources one file contributes: one per chunk, each tagged
/// with the file's name.
pub open spec fn file_resources(file_name: Seq<char>, content: Seq<char>) -> Seq<
    (Seq<char>, YamlV),
> {
    let cs = chunks_of(content);
    Seq::new(
        cs.len(),
        |i: int|
            if 0 <= i < cs.len() {
                (file_name, parsed_chunk(cs[i]))
            } else {
                (Seq::empty(), YamlV::Null)
            },
    )
}

/// The views of the name/content pairs handed in by the caller.
pub open spec fn files_views(files: Seq<(String, String)>) -> Seq<(Seq<char>, Seq<char>)> {
    Seq::new(
        files.len(),
        |i: int|
            if 0 <= i < files.len() {
                (files[i].0@, files[i].1@)
            } else {
                (Seq::empty(), Seq::empty())
            },
    )
}

/// All raw resources of all files, in file order.
pub open spec fn all_resources(files: Seq<(Seq<char>, Seq<char>)>) -> Seq<(Seq<char>, YamlV)>
    decreases files.len(),
{
    if files.len() == 0 {
        Seq::empty()
    } else {
        file_resources(files[0].0, files[0].1) + all_resources(files.drop_first())
    }
}

/// Parse one file into its raw resources.
fn parse_file(name: &String, content: &String) -> (r: Vec<K8sResource>)
    ensures
        k8s_views(r@) == file_resources(name@, content@),
{
    let chunks = split_chunks(content.as_str());
    let mut out: Vec<K8sResource> = Vec::new();
    let mut i: usize = 0;
    while i < chunks.len()
        invariant
            chunks.deep_view() == chunks_of(content@),
            i <= chunks@.len(),
            out@.len() == i,
            forall|j: int|
                0 <= j < i ==> k8s_views(out@)[j] == file_resources(name@, content@)[j],
        decreases chunks@.len() - i,
    {
        let ghost pre = out@;
        proof {
            assert(chunks.deep_view()[i as int] == chunks@[i as int]@);
        }
        let yaml = match parse_doc(chunks[i].as_str()) {
            Some(y) => y,
            None => Yaml::Null,
        };
        out.push(K8sResource { file_name: name.clone(), yaml });
        proof {
            assert(k8s_views(out@) =~= k8s_views(pre).push((name@, parsed_chunk(chunks@[i as int]@))));
        }
        i += 1;
    }
    proof {
        assert(k8s_views(out@) =~= file_resources(name@, content@));
    }
    out
}

/// Parse every file into raw resources; a chunk that fails to parse
/// becomes a null document, filtered out later by classification.
pub fn parse_yaml(files: &Vec<(String, String)>) -> (r: Vec<K8sResource>)
    ensures
        k8s_views(r@) == all_resources(files_views(files@)),
{
    let ghost fv = files_views(files@);
    let mut out: Vec<K8sResource> = Vec::new();
    let mut i: usize = 0;
    proof {
        assert(fv.skip(0) =~= fv);
        assert(k8s_views(out@) =~= Seq::<(Seq<char>, YamlV)>::empty());
        assert(k8s_views(out@) + all_resources(fv) =~= all_resources(fv));
    }
    while i < files.len()
        invariant
            fv == files_views(files@),
            files@.len() == fv.len(),
            i <= fv.len(),
            all_resources(fv) =~= k8s_views(out@) + all_resources(fv.skip(i as int)),
        decreases fv.len() - i,
    {
        let ghost pre = out@;
        proof {
            assert(fv.skip(i as int).drop_first() =~= fv.skip(i + 1));
            assert(fv.skip(i as int)[0] == fv[i as int]);
            assert(fv[i as int] == (files@[i as int].0@, files@[i as int].1@));
        }
        let mut part = parse_file(&files[i].0, &files[i].1);
        let ghost part_views = k8s_views(part@);
        out.append(&mut part);
        proof {
            assert(k8s_views(out@) =~= k8s_views(pre) + part_views);
            assert(k8s_views(pre) + part_views + all_resources(fv.skip(i + 1)) =~= k8s_views(pre)
                + all_resources(fv.skip(i as int)));
        }
        i += 1;
    }
    proof {
        assert(all_resources(fv.skip(fv.len() as int)) =~= Seq::<(Seq<char>, YamlV)>::empty());
        assert(k8s_views(out@) + all_resources(fv.skip(fv.len() as int)) =~= k8s_views(out@));
    }
    out
}

/// Whether a path names a YAML file.
pub open spec fn is_yaml_path(p: Seq<char>) -> bool {
    ||| (p.len() >= 5 && p.subrange(p.len() - 5, p.len() as int) == ".yaml"@)
    ||| (p.len() >= 4 && p.subrange(p.len() - 4, p.len() as int) == ".yml"@)
}

/// The paths that survive the extension check and the optional
/// file-regex filter.
pub open spec fn kept_paths(ps: Seq<Seq<char>>, pat: Option<Seq<char>>) -> Seq<Seq<char>>
    decreases ps.len(),
{
    if ps.len() == 0 {
        Seq::empty()
    } else {
        let rest = kept_paths(ps.drop_first(), pat);
        let keep = is_yaml_path(ps[0]) && match pat {
            Some(q) => crate::patterns::regex_match(q, ps[0]),
            None => true,
        };
        if keep {
            seq![ps[0]] + rest
        } else {
            rest
        }
    }
}

/// Keep the paths of YAML files, and among them — when a file regex was
/// supplied — only those the regex matches.
pub fn select_yaml_files(paths: &Vec<String>, regex: &Option<regex::Regex>) -> (r: Vec<String>)
    ensures
        r.deep_view() == kept_paths(
            paths.deep_view(),
            match regex {
                Some(re) => Some(crate::patterns::re_pattern(*re)),
                None => None,
            },
        ),
{
    let ghost pv = paths.deep_view();
    let ghost pat: Option<Seq<char>> = match regex {
        Some(re) => Some(crate::patterns::re_pattern(*re)),
        None => None,
    };
    let mut out: Vec<String> = Vec::new();
    let mut i: usize = 0;
    proof {
        assert(pv.skip(0) =~= pv);
        assert(out.deep_view() =~= Seq::<Seq<char>>::empty());
        assert(out.deep_view() + kept_paths(pv, pat) =~= kept_paths(pv, pat));
    }
    while i < paths.len()
        invariant
            pv == paths.deep_view(),
            pat == match regex {
                Some(re) => Some(crate::patterns::re_pattern(*re)),
                None => None,
            },
            paths@.len() == pv.len(),
            i <= pv.len(),
            kept_paths(pv, pat) =~= out.deep_view() + kept_paths(pv.skip(i as int), pat),
        decreases pv.len() - i,
    {
        let ghost pre = out.deep_view();
        proof {
            assert(pv.skip(i as int).drop_first() =~= pv.skip(i + 1));
            assert(pv.skip(i as int)[0] == pv[i as int]);
            assert(pv[i as int] == paths@[i as int]@);
        }
        let p = paths[i].as_str();
        let is_yaml = crate::strutil::ends_with_sub(p, ".yaml") || crate::strutil::ends_with_sub(
            p,
            ".yml",
        );
        let keep = is_yaml && match regex {
            Some(re) => crate::patterns::regex_is_match(re, p),
            None => true,
        };
        proof {
            reveal_strlit(".yaml");
            reveal_strlit(".yml");
        }
        if keep {
            out.push(paths[i].clone());
            proof {
                assert(out.deep_view() =~= pre.push(pv[i as int]));
                assert(pre.push(pv[i as int]) + kept_paths(pv.skip(i + 1), pat) =~= pre
                    + kept_paths(pv.skip(i as int), pat));
            }
        } else {
            proof {
                assert(kept_paths(pv.skip(i as int), pat) =~= kept_paths(pv.skip(i + 1), pat));
            }
        }
        i += 1;
    }
    proof {
        assert(kept_paths(pv.skip(pv.len() as int), pat) =~= Seq::<Seq<char>>::empty());
        assert(out.deep_view() + kept_paths(pv.skip(pv.len() as int), pat) =~= out.deep_view());
    }
    out
}

/// The resources kept by classification and filtering, in order; exact
/// when no invalid watch pattern aborts the run.
pub open spec fn pipeline_apps(
    rs: Seq<(Seq<char>, YamlV)>,
    sel: Option<Seq<crate::selector::SelectorV>>,
    files: Option<Seq<Seq<char>>>,
    ign: bool,
) -> Seq<ArgoResourceV>
    decreases rs.len(),
{
    if rs.len() == 0 {
        Seq::empty()
    } else {
        let rest = pipeline_apps(rs.drop_first(), sel, files, ign);
        match crate::resource::classify_v(rs[0].0, rs[0].1) {
            Some(a) => if crate::resource::filter_verdict(a.yaml, a.file_name, sel, files, ign)
                == crate::resource::FilterVerdict::Keep {
                seq![a] + rest
            } else {
                rest
            },
            None => rest,
        }
    }
}

/// Whether some classified resource carries an invalid watch pattern that
/// must abort the run.
pub open spec fn pipeline_invalid(
    rs: Seq<(Seq<char>, YamlV)>,
    sel: Option<Seq<crate::selector::SelectorV>>,
    files: Option<Seq<Seq<char>>>,
    ign: bool,
) -> bool
    decreases rs.len(),
{
    if rs.len() == 0 {
        false
    } else {
        let rest = pipeline_invalid(rs.drop_first(), sel, files, ign);
        match crate::resource::classify_v(rs[0].0, rs[0].1) {
            Some(a) => crate::resource::filter_verdict(a.yaml, a.file_name, sel, files, ign)
                == crate::resource::FilterVerdict::Invalid || rest,
            None => rest,
        }
    }
}

/// Classify every raw document and run the filter engine over the
/// survivors; an invalid watch pattern aborts the whole run unless the
/// caller opted into ignoring it.
pub fn from_resource_to_application(
    k8s_resources: Vec<K8sResource>,
    selector: &Option<Vec<crate::selector::Selector>>,
    files_changed: &Option<Vec<String>>,
    ignore_invalid_watch_pattern: bool,
) -> (r: Result<Vec<ArgoResource>, crate::resource::FilterError>)
    ensures
        ({
            let rs = k8s_views(k8s_resources@);
            let sv = match selector {
                Some(v) => Some(crate::resource::selectors_v(v@)),
                None => None,
            };
            let fv = match files_changed {
                Some(f) => Some(f.deep_view()),
                None => None,
            };
            match r {
                Ok(apps) => {
                    &&& !pipeline_invalid(rs, sv, fv, ignore_invalid_watch_pattern)
                    &&& crate::resource::argo_views(apps@) == pipeline_apps(
                        rs,
                        sv,
                        fv,
                        ignore_invalid_watch_pattern,
                    )
                    &&& forall|j: int| 0 <= j < apps@.len() ==> (#[trigger] apps@[j]).wf()
                },
                Err(_) => pipeline_invalid(rs, sv, fv, ignore_invalid_watch_pattern),
            }
        }),
{
    let ghost rs0 = k8s_views(k8s_resources@);
    let ghost sv = match selector {
        Some(v) => Some(crate::resource::selectors_v(v@)),
        None => None,
    };
    let ghost fv = match files_changed {
        Some(f) => Some(f.deep_view()),
        None => None,
    };
    let ign = ignore_invalid_watch_pattern;
    let mut rest = k8s_resources;
    let mut out: Vec<ArgoResource> = Vec::new();
    proof {
        assert(rs0.skip(0) =~= rs0);
        assert(rs0.len() == k8s_resources@.len());
        assert(crate::resource::argo_views(out@) =~= Seq::<ArgoResourceV>::empty());
        assert(crate::resource::argo_views(out@) + pipeline_apps(rs0, sv, fv, ign)
            =~= pipeline_apps(rs0, sv, fv, ign));
    }
    let initial_len = rest.len();
    proof {
        assert(initial_len == rs0.len());
    }
    let ghost total = rs0.len();
    let mut i: usize = 0;
    while rest.len() > 0
        invariant
            sv == match selector {
                Some(v) => Some(crate::resource::selectors_v(v@)),
                None => None,
            },
            fv == match files_changed {
                Some(f) => Some(f.deep_view()),
                None => None,
            },
            ign == ignore_invalid_watch_pattern,
            rs0 == k8s_views(k8s_resources@),
            i + rest@.len() == total == rs0.len(),
            total <= usize::MAX,
            k8s_views(rest@) =~= rs0.skip(i as int),
            pipeline_apps(rs0, sv, fv, ign) =~= crate::resource::argo_views(out@)
                + pipeline_apps(rs0.skip(i as int), sv, fv, ign),
            pipeline_invalid(rs0, sv, fv, ign) == pipeline_invalid(
                rs0.skip(i as int),
                sv,
                fv,
                ign,
            ),
            forall|j: int| 0 <= j < out@.len() ==> (#[trigger] out@[j]).wf(),
        decreases rest@.len(),
    {
        let ghost pre = out@;
        proof {
            assert(rs0.skip(i as int).drop_first() =~= rs0.skip(i + 1));
            assert(rs0.skip(i as int)[0] == rs0[i as int]);
            assert(k8s_views(rest@)[0] == (rest@[0].file_name@, rest@[0].yaml@));
        }
        let item = rest.remove(0);
        proof {
            assert(k8s_views(rest@) =~= rs0.skip(i + 1));
        }
        let processed = ArgoResource::from_k8s_resource(item);
        match processed {
            Some(a) => {
                let ghost av = a@;
                match a.filter(selector, files_changed, ign) {
                    Ok(Some(kept)) => {
                        out.push(kept);
                        proof {
                            assert(crate::resource::argo_views(out@) =~= crate::resource::argo_views(
                                pre,
                            ).push(out@[pre.len() as int]@));
                            assert(crate::resource::argo_views(pre).push(out@[pre.len() as int]@)
                                + pipeline_apps(rs0.skip(i + 1), sv, fv, ign)
                                =~= crate::resource::argo_views(pre) + pipeline_apps(
                                rs0.skip(i as int),
                                sv,
                                fv,
                                ign,
                            ));
                        }
                    },
                    Ok(None) => (),
                    Err(e) => {
                        proof {
                            assert(crate::resource::filter_verdict(av.yaml, av.file_name, sv, fv, ign)
                                == crate::resource::FilterVerdict::Invalid);
                            assert(pipeline_invalid(rs0.skip(i as int), sv, fv, ign));
                        }
                        return Err(e);
                    },
                }
            },
            None => (),
        }
        i += 1;
    }
    proof {
        assert(rs0.skip(total as int) =~= Seq::<(Seq<char>, YamlV)>::empty());
        assert(crate::resource::argo_views(out@) + pipeline_apps(
            rs0.skip(total as int),
            sv,
            fv,
            ign,
        ) =~= crate::resource::argo_views(out@));
    }
    Ok(out)
}

/// The first structural failure the patch pipeline meets on a document,
/// if any, in the pipeline's fixed order.
#[derive(Clone, Copy, PartialEq, Eq, Structural, Debug)]
pub enum PatchFailure {
    MissingSpec,
    MissingDestination,
    InvalidDestination,
    MissingSource,
}

pub open spec fn patch_failure(
    doc: YamlV,
    kind: crate::resource::ApplicationKind,
) -> Option<PatchFailure> {
    if !crate::resource::eff_map_ok(doc, kind) {
        Some(PatchFailure::MissingSpec)
    } else {
        let e3 = crate::yaml::set_v(
            crate::yaml::remove_v(crate::resource::eff_v(doc, kind).unwrap(), "syncPolicy"@),
            "project"@,
            YamlV::Str("default"@),
        );
        match crate::yaml::get_v(e3, "destination"@) {
            None => Some(PatchFailure::MissingDestination),
            Some(d) => if !(d is Mapping || d is Null) {
                Some(PatchFailure::InvalidDestination)
            } else {
                let e4 = crate::yaml::set_v(
                    e3,
                    "destination"@,
                    crate::resource::dest_patched(d),
                );
                if crate::yaml::has_v(e4, "source"@) || crate::yaml::has_v(e4, "sources"@) {
                    None
                } else {
                    Some(PatchFailure::MissingSource)
                }
            },
        }
    }
}

/// The generator redirection that ends the pipeline: the identity on an
/// `Application`.
pub open spec fn generators_applied(
    doc: YamlV,
    kind: crate::resource::ApplicationKind,
    repo: Seq<char>,
    branch: Seq<char>,
) -> YamlV {
    match kind {
        crate::resource::ApplicationKind::Application => doc,
        crate::resource::ApplicationKind::ApplicationSet => crate::yaml::set_v(
            doc,
            "spec"@,
            crate::resource::appset_spec_redirected(
                crate::yaml::get_v(doc, "spec"@).unwrap(),
                repo,
                branch,
            ),
        ),
    }
}

/// The document after the whole patch pipeline, in its fixed order:
/// namespace, sync policy, project, destination, sources, generators.
/// Meaningful when [`patch_failure`] is `None`.
pub open spec fn patched_doc(
    doc: YamlV,
    kind: crate::resource::ApplicationKind,
    ns: Seq<char>,
    repo: Seq<char>,
    branch: Seq<char>,
) -> YamlV {
    let d1 = crate::yaml::set_v(
        doc,
        "metadata"@,
        crate::yaml::set_v(
            crate::yaml::get_v(doc, "metadata"@).unwrap(),
            "namespace"@,
            YamlV::Str(ns),
        ),
    );
    let e = crate::resource::eff_v(doc, kind).unwrap();
    let e2 = crate::yaml::remove_v(e, "syncPolicy"@);
    let e3 = crate::yaml::set_v(e2, "project"@, YamlV::Str("default"@));
    let e4 = crate::yaml::set_v(
        e3,
        "destination"@,
        crate::resource::dest_patched(crate::yaml::get_v(e3, "destination"@).unwrap()),
    );
    let e5 = crate::resource::spec_sources_redirected(e4, repo, branch);
    generators_applied(crate::resource::eff_replace(d1, kind, e5), kind, repo, branch)
}

/// The whole resource after patching: the rewritten document, the
/// controller's namespace, the other fields kept.
pub open spec fn patched_app_v(
    a: ArgoResourceV,
    ns: Seq<char>,
    repo: Seq<char>,
    branch: Seq<char>,
) -> ArgoResourceV {
    ArgoResourceV {
        yaml: patched_doc(a.yaml, a.kind, ns, repo, branch),
        kind: a.kind,
        name: a.name,
        namespace: ns,
        file_name: a.file_name,
    }
}

/// The error a failure reports, naming the resource.
pub open spec fn patch_err_of(f: PatchFailure, name: String) -> crate::resource::PatchError {
    match f {
        PatchFailure::MissingSpec => crate::resource::PatchError::MissingSpec(name),
        PatchFailure::MissingDestination => crate::resource::PatchError::MissingDestination(name),
        PatchFailure::InvalidDestination => crate::resource::PatchError::InvalidDestination(name),
        PatchFailure::MissingSource => crate::resource::PatchError::MissingSource(name),
    }
}

/// Run the patch pipeline over one resource, short-circuiting on the
/// first structural failure.
pub fn patch_application(
    argo_cd_namespace: &str,
    application: ArgoResource,
    branch: &crate::branch::Branch,
    repo: &str,
) -> (r: Result<ArgoResource, crate::resource::PatchError>)
    requires
        application.wf(),
    ensures
        match patch_failure(application.yaml@, application.kind) {
            None => match r {
                Ok(a) => a@ == patched_app_v(
                    application@,
                    argo_cd_namespace@,
                    repo@,
                    branch.name@,
                ) && a.wf(),
                Err(_) => false,
            },
            Some(f) => r == Err::<ArgoResource, crate::resource::PatchError>(
                patch_err_of(f, application.name),
            ),
        },
{
    let ghost doc0 = application.yaml@;
    let ghost kind0 = application.kind;
    let ghost name0 = application.name;
    let ghost ns = argo_cd_namespace@;
    let ghost e = crate::resource::eff_v(doc0, kind0).unwrap();
    let a1 = application.set_namespace(argo_cd_namespace);
    let ghost d1 = a1.yaml@;
    proof {
        crate::resource::lemma_eff_unchanged_by_metadata(
            doc0,
            kind0,
            crate::yaml::set_v(
                crate::yaml::get_v(doc0, "metadata"@).unwrap(),
                "namespace"@,
                YamlV::Str(ns),
            ),
        );
    }
    let a2 = a1.remove_sync_policy();
    let ghost e2 = crate::yaml::remove_v(e, "syncPolicy"@);
    proof {
        if crate::resource::eff_map_ok(doc0, kind0) {
            crate::resource::lemma_eff_replace_get(d1, kind0, e2);
        }
    }
    let a3 = match a2.set_project_to_default() {
        Ok(a) => a,
        Err(pe) => {
            return Err(pe);
        },
    };
    let ghost e3 = crate::yaml::set_v(e2, "project"@, YamlV::Str("default"@));
    proof {
        crate::resource::lemma_eff_replace_replace(d1, kind0, e2, e3);
        crate::resource::lemma_eff_replace_get(d1, kind0, e3);
    }
    let a4 = match a3.point_destination_to_in_cluster() {
        Ok(a) => a,
        Err(pe) => {
            return Err(pe);
        },
    };
    let ghost e4 = crate::yaml::set_v(
        e3,
        "destination"@,
        crate::resource::dest_patched(crate::yaml::get_v(e3, "destination"@).unwrap()),
    );
    proof {
        crate::resource::lemma_eff_replace_replace(d1, kind0, e3, e4);
        crate::resource::lemma_eff_replace_get(d1, kind0, e4);
    }
    let a5 = match a4.redirect_sources(repo, branch.name.as_str()) {
        Ok(a) => a,
        Err(pe) => {
            return Err(pe);
        },
    };
    let ghost e5 = crate::resource::spec_sources_redirected(e4, repo@, branch.name@);
    proof {
        crate::resource::lemma_eff_replace_replace(d1, kind0, e4, e5);
        crate::resource::lemma_eff_replace_get(d1, kind0, e5);
        if kind0 == crate::resource::ApplicationKind::ApplicationSet {
            let sp1 = crate::yaml::get_v(d1, "spec"@).unwrap();
            crate::yaml::lemma_get_set_same(
                d1,
                "spec"@,
                crate::yaml::set_v(
                    sp1,
                    "template"@,
                    crate::yaml::set_v(
                        crate::yaml::get_v(sp1, "template"@).unwrap(),
                        "spec"@,
                        e5,
                    ),
                ),
            );
        }
    }
    let a6 = match a5.redirect_generators(repo, branch.name.as_str()) {
        Ok(a) => a,
        Err(pe) => {
            proof {
                assert(false);
            }
            return Err(pe);
        },
    };
    Ok(a6)
}

/// Whether the pipeline succeeds on every resource of the list.
pub open spec fn all_patch_ok(apps: Seq<ArgoResourceV>) -> bool {
    forall|i: int|
        0 <= i < apps.len() ==> patch_failure(#[trigger] apps[i].yaml, apps[i].kind) is None
}

/// The views after patching every resource.
pub open spec fn patched_views(
    apps: Seq<ArgoResourceV>,
    ns: Seq<char>,
    repo: Seq<char>,
    branch: Seq<char>,
) -> Seq<ArgoResourceV> {
    Seq::new(
        apps.len(),
        |i: int|
            if 0 <= i < apps.len() {
                patched_app_v(apps[i], ns, repo, branch)
            } else {
                apps[i]
            },
    )
}

/// Patch a whole batch, short-circuiting on the first resource that
/// fails.
pub fn patch_applications(
    argo_cd_namespace: &str,
    applications: Vec<ArgoResource>,
    branch: &crate::branch::Branch,
    repo: &str,
) -> (r: Result<Vec<ArgoResource>, crate::resource::PatchError>)
    requires
        forall|i: int| 0 <= i < applications@.len() ==> (#[trigger] applications@[i]).wf(),
    ensures
        match r {
            Ok(out) => {
                &&& all_patch_ok(crate::resource::argo_views(applications@))
                &&& crate::resource::argo_views(out@) == patched_views(
                    crate::resource::argo_views(applications@),
                    argo_cd_namespace@,
                    repo@,
                    branch.name@,
                )
                &&& forall|j: int| 0 <= j < out@.len() ==> (#[trigger] out@[j]).wf()
            },
            Err(e) => !all_patch_ok(crate::resource::argo_views(applications@)) && exists|i: int|
                0 <= i < applications@.len() && patch_failure(
                    #[trigger] applications@[i]@.yaml,
                    applications@[i]@.kind,
                ) is Some && e == patch_err_of(
                    patch_failure(applications@[i]@.yaml, applications@[i]@.kind).unwrap(),
                    applications@[i].name,
                ),
        },
{
    let ghost av = crate::resource::argo_views(applications@);
    let mut rest = applications;
    let mut out: Vec<ArgoResource> = Vec::new();
    let initial_len = rest.len();
    proof {
        assert(initial_len == av.len());
        assert(av.len() == applications@.len());
    }
    let ghost total = av.len();
    let mut i: usize = 0;
    while rest.len() > 0
        invariant
            av == crate::resource::argo_views(applications@),
            av.len() == applications@.len(),
            i + rest@.len() == total == av.len(),
            total <= usize::MAX,
            forall|j: int| 0 <= j < rest@.len() ==> #[trigger] rest@[j] == applications@[i + j],
            forall|j: int| 0 <= j < applications@.len() ==> (#[trigger] applications@[j]).wf(),
            out@.len() == i,
            forall|j: int|
                0 <= j < i ==> patch_failure(#[trigger] av[j].yaml, av[j].kind) is None,
            forall|j: int|
                0 <= j < i ==> crate::resource::argo_views(out@)[j] == patched_views(
                    av,
                    argo_cd_namespace@,
                    repo@,
                    branch.name@,
                )[j],
            forall|j: int| 0 <= j < out@.len() ==> (#[trigger] out@[j]).wf(),
        decreases rest@.len(),
    {
        let ghost old_rest = rest@;
        let item = rest.remove(0);
        proof {
            assert(rest@ =~= old_rest.drop_first());
            assert(item == applications@[i as int]);
            assert(av[i as int] == applications@[i as int]@);
            assert(forall|j: int|
                0 <= j < rest@.len() ==> #[trigger] rest@[j] == old_rest[j + 1]);
        }
        match patch_application(argo_cd_namespace, item, branch, repo) {
            Ok(a) => {
                let ghost pre = out@;
                out.push(a);
                proof {
                    assert(crate::resource::argo_views(out@)[i as int] == out@[i as int]@);
                    assert(patched_views(av, argo_cd_namespace@, repo@, branch.name@)[i as int]
                        == patched_app_v(av[i as int], argo_cd_namespace@, repo@, branch.name@));
                    assert forall|j: int| 0 <= j <= i implies crate::resource::argo_views(
                        out@,
                    )[j] == patched_views(av, argo_cd_namespace@, repo@, branch.name@)[j] by {
                        if j < i {
                            assert(crate::resource::argo_views(out@)[j]
                                == crate::resource::argo_views(pre)[j]);
                        }
                    }
                }
            },
            Err(e) => {
                proof {
                    assert(patch_failure(applications@[i as int]@.yaml, applications@[i as int]@.kind) is Some);
                    assert(av[i as int] == applications@[i as int]@);
                    assert(!all_patch_ok(av));
                }
                return Err(e);
            },
        }
        i += 1;
    }
    proof {
        assert(crate::resource::argo_views(out@) =~= patched_views(
            av,
            argo_cd_namespace@,
            repo@,
            branch.name@,
        ));
    }
    Ok(out)
}

/// Whether one branch's whole run — classify, filter, patch — succeeds.
pub open spec fn branch_ok(
    files: Seq<(Seq<char>, Seq<char>)>,
    sel: Option<Seq<crate::selector::SelectorV>>,
    fv: Option<Seq<Seq<char>>>,
    ign: bool,
) -> bool {
    &&& !pipeline_invalid(all_resources(files), sel, fv, ign)
    &&& all_patch_ok(pipeline_apps(all_resources(files), sel, fv, ign))
}

/// One branch's resolved applications: every kept resource, patched.
pub open spec fn branch_apps(
    files: Seq<(Seq<char>, Seq<char>)>,
    sel: Option<Seq<crate::selector::SelectorV>>,
    fv: Option<Seq<Seq<char>>>,
    ign: bool,
    ns: Seq<char>,
    repo: Seq<char>,
    branch_name: Seq<char>,
) -> Seq<ArgoResourceV> {
    patched_views(
        pipeline_apps(all_resources(files), sel, fv, ign),
        ns,
        repo,
        branch_name,
    )
}

/// A failure that ends one branch's run.
#[derive(Debug)]
pub enum RunError {
    Filter(crate::resource::FilterError),
    Patch(crate::resource::PatchError),
}

/// Resolve one branch: parse the given files, classify and filter the
/// documents, and patch every kept resource.
pub fn get_applications(
    argo_cd_namespace: &str,
    branch: &crate::branch::Branch,
    files: &Vec<(String, String)>,
    selector: &Option<Vec<crate::selector::Selector>>,
    files_changed: &Option<Vec<String>>,
    repo: &str,
    ignore_invalid_watch_pattern: bool,
) -> (r: Result<Vec<ArgoResource>, RunError>)
    ensures
        ({
            let fvs = files_views(files@);
            let sv = match selector {
                Some(v) => Some(crate::resource::selectors_v(v@)),
                None => None,
            };
            let fv = match files_changed {
                Some(f) => Some(f.deep_view()),
                None => None,
            };
            match r {
                Ok(out) => {
                    &&& branch_ok(fvs, sv, fv, ignore_invalid_watch_pattern)
                    &&& crate::resource::argo_views(out@) == branch_apps(
                        fvs,
                        sv,
                        fv,
                        ignore_invalid_watch_pattern,
                        argo_cd_namespace@,
                        repo@,
                        branch.name@,
                    )
                    &&& forall|j: int| 0 <= j < out@.len() ==> (#[trigger] out@[j]).wf()
                },
                Err(_) => !branch_ok(fvs, sv, fv, ignore_invalid_watch_pattern),
            }
        }),
{
    let k8s_resources = parse_yaml(files);
    let applications = match from_resource_to_application(
        k8s_resources,
        selector,
        files_changed,
        ignore_invalid_watch_pattern,
    ) {
        Ok(apps) => apps,
        Err(e) => {
            return Err(RunError::Filter(e));
        },
    };
    let ghost apps_v = crate::resource::argo_views(applications@);
    match patch_applications(argo_cd_namespace, applications, branch, repo) {
        Ok(out) => {
            proof {
                assert(crate::resource::argo_views(out@) =~= patched_views(
                    pipeline_apps(
                        all_resources(files_views(files@)),
                        match selector {
                            Some(v) => Some(crate::resource::selectors_v(v@)),
                            None => None,
                        },
                        match files_changed {
                            Some(f) => Some(f.deep_view()),
                            None => None,
                        },
                        ignore_invalid_watch_pattern,
                    ),
                    argo_cd_namespace@,
                    repo@,
                    branch.name@,
                ));
            }
            Ok(out)
        },
        Err(e) => {
            proof {
                assert(!all_patch_ok(apps_v));
            }
            Err(RunError::Patch(e))
        },
    }
}

/// The generated documents that classify as resources, each tagged with
/// the origin file of the `ApplicationSet` they came from.
pub open spec fn classified_gen(file: Seq<char>, xs: Seq<YamlV>) -> Seq<ArgoResourceV>
    decreases xs.len(),
{
    if xs.len() == 0 {
        Seq::empty()
    } else {
        let rest = classified_gen(file, xs.drop_first());
        match crate::resource::classify_v(file, xs[0]) {
            Some(a) => seq![a] + rest,
            None => rest,
        }
    }
}

/// Turn one `ApplicationSet`'s generate output into concrete, patched
/// `Application` resources.  Output that does not parse, or that is
/// neither a list nor a single resource document, is skipped (`Ok(None)`);
/// a patch failure on a generated resource is fatal.
pub fn apps_from_generate_output(
    app_set: &ArgoResource,
    output: &str,
    argo_cd_namespace: &str,
    branch: &crate::branch::Branch,
    repo: &str,
) -> (r: Result<Option<Vec<ArgoResource>>, crate::resource::PatchError>)
    ensures
        ({
            match parsed_doc(output@) {
                None => r == Ok::<Option<Vec<ArgoResource>>, crate::resource::PatchError>(None),
                Some(y) => match y {
                    YamlV::List(xs) => {
                        let apps = classified_gen(app_set.file_name@, xs);
                        if all_patch_ok(apps) {
                            match r {
                                Ok(o) => match o {
                                    Some(out) => crate::resource::argo_views(out@)
                                        == patched_views(
                                        apps,
                                        argo_cd_namespace@,
                                        repo@,
                                        branch.name@,
                                    ),
                                    None => false,
                                },
                                Err(_) => false,
                            }
                        } else {
                            r is Err
                        }
                    },
                    YamlV::Mapping(m) => match crate::resource::classify_v(
                        app_set.file_name@,
                        y,
                    ) {
                        Some(a) => if patch_failure(a.yaml, a.kind) is None {
                            match r {
                                Ok(o) => match o {
                                    Some(out) => crate::resource::argo_views(out@) == seq![
                                        patched_app_v(
                                            a,
                                            argo_cd_namespace@,
                                            repo@,
                                            branch.name@,
                                        ),
                                    ],
                                    None => false,
                                },
                                Err(_) => false,
                            }
                        } else {
                            r is Err
                        },
                        None => r == Ok::<
                            Option<Vec<ArgoResource>>,
                            crate::resource::PatchError,
                        >(None),
                    },
                    _ => r == Ok::<Option<Vec<ArgoResource>>, crate::resource::PatchError>(None),
                },
            }
        }),
{
    let parsed = match parse_doc(output) {
        Some(y) => y,
        None => {
            return Ok(None);
        },
    };
    match parsed {
        Yaml::List(mut xs) => {
            let ghost xv = crate::yaml::elems_of(xs@);
            let mut apps: Vec<ArgoResource> = Vec::new();
            let initial_len = xs.len();
            proof {
                assert(initial_len == xv.len());
                assert(xv.skip(0) =~= xv);
                assert(crate::resource::argo_views(apps@) =~= Seq::<ArgoResourceV>::empty());
                assert(crate::resource::argo_views(apps@) + classified_gen(
                    app_set.file_name@,
                    xv,
                ) =~= classified_gen(app_set.file_name@, xv));
            }
            let ghost total = xv.len();
            let mut i: usize = 0;
            while xs.len() > 0
                invariant
                    i + xs@.len() == total == xv.len(),
                    total <= usize::MAX,
                    crate::yaml::elems_of(xs@) =~= xv.skip(i as int),
                    classified_gen(app_set.file_name@, xv) =~= crate::resource::argo_views(
                        apps@,
                    ) + classified_gen(app_set.file_name@, xv.skip(i as int)),
                    forall|j: int| 0 <= j < apps@.len() ==> (#[trigger] apps@[j]).wf(),
                decreases xs@.len(),
            {
                let ghost old_xs = xs@;
                proof {
                    assert(xv.skip(i as int).drop_first() =~= xv.skip(i + 1));
                    assert(xv.skip(i as int)[0] == xv[i as int]);
                    crate::yaml::lemma_elems_index(old_xs, 0);
                }
                let x = xs.remove(0);
                proof {
                    assert(xs@ =~= old_xs.drop_first());
                    assert(crate::yaml::elems_of(xs@) =~= crate::yaml::elems_of(
                        old_xs,
                    ).drop_first());
                    assert(x@ == xv[i as int]);
                }
                let candidate = K8sResource { file_name: app_set.file_name.clone(), yaml: x };
                match ArgoResource::from_k8s_resource(candidate) {
                    Some(a) => {
                        let ghost pre = apps@;
                        apps.push(a);
                        proof {
                            assert(crate::resource::argo_views(apps@)
                                =~= crate::resource::argo_views(pre).push(
                                apps@[pre.len() as int]@,
                            ));
                            assert(crate::resource::argo_views(pre).push(
                                apps@[pre.len() as int]@,
                            ) + classified_gen(app_set.file_name@, xv.skip(i + 1))
                                =~= crate::resource::argo_views(pre) + classified_gen(
                                app_set.file_name@,
                                xv.skip(i as int),
                            ));
                        }
                    },
                    None => (),
                }
                i += 1;
            }
            proof {
                assert(xv.skip(total as int) =~= Seq::<YamlV>::empty());
                assert(crate::resource::argo_views(apps@) + classified_gen(
                    app_set.file_name@,
                    xv.skip(total as int),
                ) =~= crate::resource::argo_views(apps@));
            }
            match patch_applications(argo_cd_namespace, apps, branch, repo) {
                Ok(out) => Ok(Some(out)),
                Err(e) => Err(e),
            }
        },
        Yaml::Mapping(m) => {
            let candidate = K8sResource {
                file_name: app_set.file_name.clone(),
                yaml: Yaml::Mapping(m),
            };
            match ArgoResource::from_k8s_resource(candidate) {
                Some(a) => {
                    match patch_application(argo_cd_namespace, a, branch, repo) {
                        Ok(p) => {
                            let mut out: Vec<ArgoResource> = Vec::new();
                            let ghost pv = p@;
                            out.push(p);
                            proof {
                                assert(crate::resource::argo_views(out@) =~= seq![pv]);
                            }
                            Ok(Some(out))
                        },
                        Err(e) => Err(e),
                    }
                },
                None => Ok(None),
            }
        },
        _ => Ok(None),
    }
}

/// Whether some member of `ts` carries this name.
pub open spec fn name_among(ts: Seq<ArgoResourceV>, n: Seq<char>) -> bool {
    exists|i: int| 0 <= i < ts.len() && ts[i].name == n
}

/// Whether some member of `ts` carries this document.
pub open spec fn yaml_among(ts: Seq<ArgoResourceV>, y: YamlV) -> bool {
    exists|i: int| 0 <= i < ts.len() && ts[i].yaml == y
}

/// The documents of the base-branch resources that also appear, by name
/// and by content, on the target branch: those resources have not changed
/// and are skipped on both sides.
pub open spec fn dup_yamls(base: Seq<ArgoResourceV>, target: Seq<ArgoResourceV>) -> Seq<YamlV>
    decreases base.len(),
{
    if base.len() == 0 {
        Seq::empty()
    } else {
        let rest = dup_yamls(base.drop_first(), target);
        if name_among(target, base[0].name) && yaml_among(target, base[0].yaml) {
            seq![base[0].yaml] + rest
        } else {
            rest
        }
    }
}

/// The members whose document is not among the given ones.
pub open spec fn strip_dups(s: Seq<ArgoResourceV>, ys: Seq<YamlV>) -> Seq<ArgoResourceV>
    decreases s.len(),
{
    if s.len() == 0 {
        Seq::empty()
    } else {
        let rest = strip_dups(s.drop_first(), ys);
        if ys.contains(s[0].yaml) {
            rest
        } else {
            seq![s[0]] + rest
        }
    }
}

/// Whether any member of `ts` carries the given name.
fn name_in(ts: &Vec<ArgoResource>, n: &String) -> (r: bool)
    ensures
        r == name_among(crate::resource::argo_views(ts@), n@),
{
    let mut i: usize = 0;
    while i < ts.len()
        invariant
            i <= ts@.len(),
            forall|j: int| 0 <= j < i ==> crate::resource::argo_views(ts@)[j].name != n@,
        decreases ts@.len() - i,
    {
        if crate::strutil::eq_str(ts[i].name.as_str(), n.as_str()) {
            proof {
                assert(crate::resource::argo_views(ts@)[i as int] == ts@[i as int]@);
            }
            return true;
        }
        proof {
            assert(crate::resource::argo_views(ts@)[i as int] == ts@[i as int]@);
        }
        i += 1;
    }
    false
}

/// Whether any member of `ts` carries the given document.
fn yaml_in_resources(ts: &Vec<ArgoResource>, y: &Yaml) -> (r: bool)
    ensures
        r == yaml_among(crate::resource::argo_views(ts@), y@),
{
    let mut i: usize = 0;
    while i < ts.len()
        invariant
            i <= ts@.len(),
            forall|j: int| 0 <= j < i ==> crate::resource::argo_views(ts@)[j].yaml != y@,
        decreases ts@.len() - i,
    {
        if ts[i].yaml.deep_eq(y) {
            proof {
                assert(crate::resource::argo_views(ts@)[i as int] == ts@[i as int]@);
            }
            return true;
        }
        proof {
            assert(crate::resource::argo_views(ts@)[i as int] == ts@[i as int]@);
        }
        i += 1;
    }
    false
}

/// Whether the list holds a tree with this view.
fn yaml_in_list(ys: &Vec<Yaml>, y: &Yaml) -> (r: bool)
    ensures
        r == crate::yaml::elems_of(ys@).contains(y@),
{
    let mut i: usize = 0;
    while i < ys.len()
        invariant
            i <= ys@.len(),
            forall|j: int| 0 <= j < i ==> crate::yaml::elems_of(ys@)[j] != y@,
        decreases ys@.len() - i,
    {
        if ys[i].deep_eq(y) {
            proof {
                crate::yaml::lemma_elems_index(ys@, i as int);
            }
            return true;
        }
        proof {
            crate::yaml::lemma_elems_index(ys@, i as int);
        }
        i += 1;
    }
    false
}

/// Collect the documents unchanged between the two branches.
fn collect_dup_yamls(base: &Vec<ArgoResource>, target: &Vec<ArgoResource>) -> (r: Vec<Yaml>)
    ensures
        crate::yaml::elems_of(r@) == dup_yamls(
            crate::resource::argo_views(base@),
            crate::resource::argo_views(target@),
        ),
{
    let ghost bv = crate::resource::argo_views(base@);
    let ghost tv = crate::resource::argo_views(target@);
    let mut out: Vec<Yaml> = Vec::new();
    let mut i: usize = 0;
    proof {
        assert(bv.skip(0) =~= bv);
        assert(crate::yaml::elems_of(out@) =~= Seq::<YamlV>::empty());
        assert(crate::yaml::elems_of(out@) + dup_yamls(bv, tv) =~= dup_yamls(bv, tv));
    }
    while i < base.len()
        invariant
            bv == crate::resource::argo_views(base@),
            tv == crate::resource::argo_views(target@),
            i <= bv.len(),
            bv.len() == base@.len(),
            dup_yamls(bv, tv) =~= crate::yaml::elems_of(out@) + dup_yamls(bv.skip(i as int), tv),
        decreases bv.len() - i,
    {
        let ghost pre = out@;
        proof {
            assert(bv.skip(i as int).drop_first() =~= bv.skip(i + 1));
            assert(bv.skip(i as int)[0] == bv[i as int]);
            assert(bv[i as int] == base@[i as int]@);
        }
        if name_in(target, &base[i].name) && yaml_in_resources(target, &base[i].yaml) {
            out.push(base[i].yaml.deep_clone());
            proof {
                assert(crate::yaml::elems_of(out@) =~= crate::yaml::elems_of(pre).push(
                    bv[i as int].yaml,
                ));
                assert(crate::yaml::elems_of(pre).push(bv[i as int].yaml) + dup_yamls(
                    bv.skip(i + 1),
                    tv,
                ) =~= crate::yaml::elems_of(pre) + dup_yamls(bv.skip(i as int), tv));
            }
        } else {
            proof {
                assert(dup_yamls(bv.skip(i as int), tv) =~= dup_yamls(bv.skip(i + 1), tv));
            }
        }
        i += 1;
    }
    proof {
        assert(bv.skip(bv.len() as int) =~= Seq::<ArgoResourceV>::empty());
        assert(crate::yaml::elems_of(out@) + dup_yamls(bv.skip(bv.len() as int), tv)
            =~= crate::yaml::elems_of(out@));
    }
    out
}

/// Keep the resources whose document is not among the unchanged ones.
fn strip_dup_apps(apps: Vec<ArgoResource>, ys: &Vec<Yaml>) -> (r: Vec<ArgoResource>)
    requires
        forall|i: int| 0 <= i < apps@.len() ==> (#[trigger] apps@[i]).wf(),
    ensures
        crate::resource::argo_views(r@) == strip_dups(
            crate::resource::argo_views(apps@),
            crate::yaml::elems_of(ys@),
        ),
        forall|i: int| 0 <= i < r@.len() ==> (#[trigger] r@[i]).wf(),
{
    let ghost av = crate::resource::argo_views(apps@);
    let ghost yv = crate::yaml::elems_of(ys@);
    let mut rest = apps;
    let mut out: Vec<ArgoResource> = Vec::new();
    let initial_len = rest.len();
    proof {
        assert(av.skip(0) =~= av);
        assert(initial_len == av.len());
        assert(crate::resource::argo_views(out@) =~= Seq::<ArgoResourceV>::empty());
        assert(crate::resource::argo_views(out@) + strip_dups(av, yv) =~= strip_dups(av, yv));
    }
    let ghost total = av.len();
    let mut i: usize = 0;
    while rest.len() > 0
        invariant
            av == crate::resource::argo_views(apps@),
            yv == crate::yaml::elems_of(ys@),
            i + rest@.len() == total == av.len(),
            total <= usize::MAX,
            crate::resource::argo_views(rest@) =~= av.skip(i as int),
            strip_dups(av, yv) =~= crate::resource::argo_views(out@) + strip_dups(
                av.skip(i as int),
                yv,
            ),
            forall|j: int| 0 <= j < rest@.len() ==> (#[trigger] rest@[j]).wf(),
            forall|j: int| 0 <= j < out@.len() ==> (#[trigger] out@[j]).wf(),
        decreases rest@.len(),
    {
        let ghost old_rest = rest@;
        proof {
            assert(av.skip(i as int).drop_first() =~= av.skip(i + 1));
            assert(av.skip(i as int)[0] == av[i as int]);
            assert(crate::resource::argo_views(old_rest)[0] == old_rest[0]@);
        }
        let x = rest.remove(0);
        proof {
            assert(rest@ =~= old_rest.drop_first());
            assert(crate::resource::argo_views(rest@) =~= crate::resource::argo_views(
                old_rest,
            ).drop_first());
            assert(x@ == av[i as int]);
            assert(forall|j: int|
                0 <= j < rest@.len() ==> #[trigger] rest@[j] == old_rest[j + 1]);
        }
        if yaml_in_list(ys, &x.yaml) {
            proof {
                assert(strip_dups(av.skip(i as int), yv) =~= strip_dups(av.skip(i + 1), yv));
            }
        } else {
            let ghost pre = out@;
            out.push(x);
            proof {
                assert(crate::resource::argo_views(out@) =~= crate::resource::argo_views(
                    pre,
                ).push(av[i as int]));
                assert(crate::resource::argo_views(pre).push(av[i as int]) + strip_dups(
                    av.skip(i + 1),
                    yv,
                ) =~= crate::resource::argo_views(pre) + strip_dups(av.skip(i as int), yv));
            }
        }
        i += 1;
    }
    proof {
        assert(av.skip(total as int) =~= Seq::<ArgoResourceV>::empty());
        assert(crate::resource::argo_views(out@) + strip_dups(av.skip(total as int), yv)
            =~= crate::resource::argo_views(out@));
    }
    out
}

/// Resolve both branches and drop, on both sides, every resource that is
/// unchanged between them: a resource on the base branch whose name and
/// whose patched document both appear on the target branch contributes
/// nothing to the diff.
pub fn get_applications_for_branches(
    argo_cd_namespace: &str,
    base_branch: &crate::branch::Branch,
    target_branch: &crate::branch::Branch,
    base_files: &Vec<(String, String)>,
    target_files: &Vec<(String, String)>,
    selector: &Option<Vec<crate::selector::Selector>>,
    files_changed: &Option<Vec<String>>,
    repo: &str,
    ignore_invalid_watch_pattern: bool,
) -> (r: Result<(Vec<ArgoResource>, Vec<ArgoResource>), RunError>)
    ensures
        ({
            let sv = match selector {
                Some(v) => Some(crate::resource::selectors_v(v@)),
                None => None,
            };
            let fv = match files_changed {
                Some(f) => Some(f.deep_view()),
                None => None,
            };
            let bfv = files_views(base_files@);
            let tfv = files_views(target_files@);
            match r {
                Ok(pair) => {
                    let base = branch_apps(
                        bfv,
                        sv,
                        fv,
                        ignore_invalid_watch_pattern,
                        argo_cd_namespace@,
                        repo@,
                        base_branch.name@,
                    );
                    let target = branch_apps(
                        tfv,
                        sv,
                        fv,
                        ignore_invalid_watch_pattern,
                        argo_cd_namespace@,
                        repo@,
                        target_branch.name@,
                    );
                    let dups = dup_yamls(base, target);
                    &&& branch_ok(bfv, sv, fv, ignore_invalid_watch_pattern)
                    &&& branch_ok(tfv, sv, fv, ignore_invalid_watch_pattern)
                    &&& crate::resource::argo_views(pair.0@) == strip_dups(base, dups)
                    &&& crate::resource::argo_views(pair.1@) == strip_dups(target, dups)
                    &&& forall|j: int| 0 <= j < pair.0@.len() ==> (#[trigger] pair.0@[j]).wf()
                    &&& forall|j: int| 0 <= j < pair.1@.len() ==> (#[trigger] pair.1@[j]).wf()
                },
                Err(_) => !branch_ok(bfv, sv, fv, ignore_invalid_watch_pattern) || !branch_ok(
                    tfv,
                    sv,
                    fv,
                    ignore_invalid_watch_pattern,
                ),
            }
        }),
{
    let base_apps = match get_applications(
        argo_cd_namespace,
        base_branch,
        base_files,
        selector,
        files_changed,
        repo,
        ignore_invalid_watch_pattern,
    ) {
        Ok(apps) => apps,
        Err(e) => {
            return Err(e);
        },
    };
    let target_apps = match get_applications(
        argo_cd_namespace,
        target_branch,
        target_files,
        selector,
        files_changed,
        repo,
        ignore_invalid_watch_pattern,
    ) {
        Ok(apps) => apps,
        Err(e) => {
            return Err(e);
        },
    };
    let dups = collect_dup_yamls(&base_apps, &target_apps);
    let base_kept = strip_dup_apps(base_apps, &dups);
    let target_kept = strip_dup_apps(target_apps, &dups);
    Ok((base_kept, target_kept))
}

} // verus!
