//! Classifying the sync states the controller reports.
//!
//! Each poll cycle the caller fetches a snapshot of every application's
//! status; this module decides, per application, whether its rendered
//! manifests can be extracted, whether it failed for good, or whether it
//! should be refreshed and waited for.  The two classification tables —
//! permanent-error substrings and transient-timeout substrings — are part
//! of the engine's contract and are reproduced verbatim.

use vstd::prelude::*;
use vstd::string::StringExecFns;

use crate::strutil::contains_seq;
use crate::strutil::contains_sub;
use crate::strutil::lower_of;
use crate::yaml::get_str_v;
use crate::yaml::get_v;
use crate::yaml::Yaml;
use crate::yaml::YamlV;

verus! {

/// A status message that matches the permanent-error table: the
/// application can never become healthy in this run.
pub open spec fn permanent_msg(m: Seq<char>) -> bool {
    ||| contains_seq(m, "helm template ."@)
    ||| contains_seq(m, "authentication required"@)
    ||| contains_seq(m, "authentication failed"@)
    ||| contains_seq(m, "path does not exist"@)
    ||| contains_seq(m, "error converting YAML to JSON"@)
    ||| contains_seq(m, "Unknown desc = `helm template ."@)
    ||| contains_seq(m, "Unknown desc = `kustomize build"@)
    ||| contains_seq(m, "Unknown desc = Unable to resolve"@)
    ||| contains_seq(m, "is not a valid chart repository or cannot be reached"@)
    ||| contains_seq(m, "Unknown desc = repository not found"@)
    ||| contains_seq(m, "InvalidSpecError: Namespace for"@)
}

/// A status message that matches the transient-timeout table: the
/// application may recover after a refresh.
pub open spec fn timeout_msg(m: Seq<char>) -> bool {
    ||| contains_seq(m, "Client.Timeout"@)
    ||| contains_seq(m, "failed to get git client for repo"@)
    ||| contains_seq(m, "rpc error: code = Unknown desc = Get \"https"@)
    ||| contains_seq(m, "i/o timeout"@)
    ||| contains_seq(m, "Could not resolve host: github.com"@)
    ||| contains_seq(m, ":8081: connect: connection refused"@)
    ||| contains_seq(m, "Temporary failure in name resolution"@)
    ||| contains_seq(m, "info/refs?service=git-upload-pack"@)
}

#[derive(Clone, Copy, PartialEq, Eq, Structural, Debug)]
pub enum MessageClass {
    /// Matches the permanent-error table.
    Permanent,
    /// Matches the timeout table: worth a refresh and another cycle.
    Retryable,
    /// Neither: logged and left pending.
    Other,
}

/// How a condition message classifies: the permanent table is consulted
/// first, then the timeout table.
pub open spec fn classified_message(m: Seq<char>) -> MessageClass {
    if permanent_msg(m) {
        MessageClass::Permanent
    } else if timeout_msg(m) {
        MessageClass::Retryable
    } else {
        MessageClass::Other
    }
}

/// Classify one condition message against the two tables.
pub fn classify_message(msg: &str) -> (r: MessageClass)
    ensures
        r == classified_message(msg@),
{
    if contains_sub(msg, "helm template .") || contains_sub(msg, "authentication required")
        || contains_sub(msg, "authentication failed") || contains_sub(msg, "path does not exist")
        || contains_sub(msg, "error converting YAML to JSON") || contains_sub(
        msg,
        "Unknown desc = `helm template .",
    ) || contains_sub(msg, "Unknown desc = `kustomize build") || contains_sub(
        msg,
        "Unknown desc = Unable to resolve",
    ) || contains_sub(msg, "is not a valid chart repository or cannot be reached")
        || contains_sub(msg, "Unknown desc = repository not found") || contains_sub(
        msg,
        "InvalidSpecError: Namespace for",
    ) {
        MessageClass::Permanent
    } else if contains_sub(msg, "Client.Timeout") || contains_sub(
        msg,
        "failed to get git client for repo",
    ) || contains_sub(msg, "rpc error: code = Unknown desc = Get \"https") || contains_sub(
        msg,
        "i/o timeout",
    ) || contains_sub(msg, "Could not resolve host: github.com") || contains_sub(
        msg,
        ":8081: connect: connection refused",
    ) || contains_sub(msg, "Temporary failure in name resolution") || contains_sub(
        msg,
        "info/refs?service=git-upload-pack",
    ) {
        MessageClass::Retryable
    } else {
        MessageClass::Other
    }
}

/// A message that reports an i/o timeout classifies as retryable, never as
/// permanent — whatever the condition's type says — provided it matches
/// none of the permanent table's entries (a message holding entries of
/// both tables is taken by the permanent one first).
pub proof fn lemma_io_timeout_is_retryable(m: Seq<char>)
    requires
        contains_seq(m, "i/o timeout"@),
        !permanent_msg(m),
    ensures
        classified_message(m) == MessageClass::Retryable,
{
}

/// The verdict on one error condition of an application, with the
/// condition's message.
pub enum ConditionVerdict {
    /// The application failed for good.
    Permanent(String),
    /// The application timed out and should be refreshed.
    Retryable(String),
    /// An error the tables do not know; logged, the application stays
    /// pending.
    Other(String),
}

/// The class and message text carried by one condition's outcome.
pub open spec fn verdict_view(v: ConditionVerdict) -> (MessageClass, Seq<char>) {
    match v {
        ConditionVerdict::Permanent(m) => (MessageClass::Permanent, m@),
        ConditionVerdict::Retryable(m) => (MessageClass::Retryable, m@),
        ConditionVerdict::Other(m) => (MessageClass::Other, m@),
    }
}

pub open spec fn verdict_views(vs: Seq<ConditionVerdict>) -> Seq<(MessageClass, Seq<char>)> {
    Seq::new(
        vs.len(),
        |i: int|
            if 0 <= i < vs.len() {
                verdict_view(vs[i])
            } else {
                (MessageClass::Other, Seq::empty())
            },
    )
}

/// Whether a condition's `type` marks it as an error condition: its
/// lowercased text contains `error`.
pub open spec fn cond_is_error(c: YamlV) -> bool {
    match get_str_v(c, "type"@) {
        Some(t) => contains_seq(lower_of(t), "error"@),
        None => false,
    }
}

/// The classified messages of the error conditions, in order: one entry
/// for each error-typed condition that carries a string message.
pub open spec fn cond_entries(cs: Seq<YamlV>) -> Seq<(MessageClass, Seq<char>)>
    decreases cs.len(),
{
    if cs.len() == 0 {
        Seq::empty()
    } else {
        let rest = cond_entries(cs.drop_first());
        if cond_is_error(cs[0]) {
            match get_str_v(cs[0], "message"@) {
                Some(m) => seq![(classified_message(m), m)] + rest,
                None => rest,
            }
        } else {
            rest
        }
    }
}

/// What one poll cycle should do with one application.
pub enum AppStatus {
    /// `status.sync.status` is `Synced` or `OutOfSync`: fetch the rendered
    /// manifests and mark the application done.
    Ready,
    /// `status.sync.status` is `Unknown`: the verdicts on its error
    /// conditions, in order.
    Blocked(Vec<ConditionVerdict>),
    /// Anything else: leave the application pending this cycle.
    Waiting,
    /// The item carries no name: it cannot be tracked and is skipped.
    Nameless,
}

/// The sync status string of an application item.
pub open spec fn sync_status(item: YamlV) -> Option<Seq<char>> {
    match crate::yaml::get2_v(item, "status"@, "sync"@) {
        Some(sync) => get_str_v(sync, "status"@),
        None => None,
    }
}

/// The condition list of an application item, when it has one.
pub open spec fn conditions_of(item: YamlV) -> Seq<YamlV> {
    match crate::yaml::get2_v(item, "status"@, "conditions"@) {
        Some(v) => match v {
            YamlV::List(cs) => cs,
            _ => Seq::empty(),
        },
        None => Seq::empty(),
    }
}

/// The shape of a cycle's decision on one item, without its payload.
#[derive(Clone, Copy, PartialEq, Eq, Structural, Debug)]
pub enum AppStatusKind {
    Ready,
    Blocked,
    Waiting,
    Nameless,
}

/// What the cycle should do with this item, as a function of its reported
/// state; the second component carries the condition verdicts of a
/// blocked item.
pub open spec fn classified_app(item: YamlV) -> (AppStatusKind, Seq<(MessageClass, Seq<char>)>) {
    if crate::resource::metadata_name(item) is None {
        (AppStatusKind::Nameless, Seq::empty())
    } else {
        match sync_status(item) {
            Some(st) => if st == "Synced"@ || st == "OutOfSync"@ {
                (AppStatusKind::Ready, Seq::empty())
            } else if st == "Unknown"@ {
                (AppStatusKind::Blocked, cond_entries(conditions_of(item)))
            } else {
                (AppStatusKind::Waiting, Seq::empty())
            },
            None => (AppStatusKind::Waiting, Seq::empty()),
        }
    }
}

/// Classify one application item from the controller's snapshot.  The
/// second component of [`classified_app`] gives the verdict views carried
/// in the `Blocked` arm.
pub fn classify_app(item: &Yaml) -> (r: AppStatus)
    ensures
        match r {
            AppStatus::Blocked(vs) => classified_app(item@).0 == AppStatusKind::Blocked
                && verdict_views(vs@) == classified_app(item@).1,
            AppStatus::Ready => classified_app(item@).0 == AppStatusKind::Ready,
            AppStatus::Waiting => classified_app(item@).0 == AppStatusKind::Waiting,
            AppStatus::Nameless => classified_app(item@).0 == AppStatusKind::Nameless,
        },
{
    let has_name = match item.get("metadata") {
        Some(md) => md.get_str("name").is_some(),
        None => false,
    };
    if !has_name {
        return AppStatus::Nameless;
    }
    let status: Option<&String> = match item.get("status") {
        Some(st) => match st.get("sync") {
            Some(sy) => sy.get_str("status"),
            None => None,
        },
        None => None,
    };
    match status {
        Some(st) => {
            if crate::strutil::eq_str(st.as_str(), "Synced") || crate::strutil::eq_str(
                st.as_str(),
                "OutOfSync",
            ) {
                AppStatus::Ready
            } else if crate::strutil::eq_str(st.as_str(), "Unknown") {
                let verdicts = classify_conditions(item);
                AppStatus::Blocked(verdicts)
            } else {
                AppStatus::Waiting
            }
        },
        None => AppStatus::Waiting,
    }
}

/// Walk the error conditions of an `Unknown` application and classify
/// each message.
fn classify_conditions(item: &Yaml) -> (r: Vec<ConditionVerdict>)
    ensures
        verdict_views(r@) == cond_entries(conditions_of(item@)),
{
    let mut out: Vec<ConditionVerdict> = Vec::new();
    let cs: &Vec<Yaml> = match item.get("status") {
        Some(st) => match st.get("conditions") {
            Some(c) => match c {
                Yaml::List(cs) => cs,
                _ => {
                    proof {
                        assert(verdict_views(out@) =~= cond_entries(conditions_of(item@)));
                    }
                    return out;
                },
            },
            None => {
                proof {
                    assert(verdict_views(out@) =~= cond_entries(conditions_of(item@)));
                }
                return out;
            },
        },
        None => {
            proof {
                assert(verdict_views(out@) =~= cond_entries(conditions_of(item@)));
            }
            return out;
        },
    };
    let ghost elems = crate::yaml::elems_of(cs@);
    proof {
        assert(conditions_of(item@) == elems);
        assert(elems.skip(0) =~= elems);
    }
    let mut i: usize = 0;
    while i < cs.len()
        invariant
            elems == crate::yaml::elems_of(cs@),
            conditions_of(item@) == elems,
            cs@.len() == elems.len(),
            i <= elems.len(),
            cond_entries(elems) =~= verdict_views(out@) + cond_entries(elems.skip(i as int)),
        decreases elems.len() - i,
    {
        let ghost pre = out@;
        proof {
            crate::yaml::lemma_elems_index(cs@, i as int);
            assert(elems.skip(i as int).drop_first() =~= elems.skip(i + 1));
            assert(elems.skip(i as int)[0] == elems[i as int]);
        }
        let c = &cs[i];
        let is_err = match c.get_str("type") {
            Some(t) => contains_sub(crate::strutil::lowercase(t.as_str()).as_str(), "error"),
            None => false,
        };
        if is_err {
            match c.get_str("message") {
                Some(m) => {
                    let msg = m.clone();
                    let verdict = match classify_message(msg.as_str()) {
                        MessageClass::Permanent => ConditionVerdict::Permanent(msg),
                        MessageClass::Retryable => ConditionVerdict::Retryable(msg),
                        MessageClass::Other => ConditionVerdict::Other(msg),
                    };
                    out.push(verdict);
                    proof {
                        assert(verdict_views(out@) =~= verdict_views(pre).push(
                            (classified_message(m@), m@),
                        ));
                        assert(verdict_views(pre).push((classified_message(m@), m@))
                            + cond_entries(elems.skip(i + 1)) =~= verdict_views(pre)
                            + cond_entries(elems.skip(i as int)));
                    }
                },
                None => (),
            }
        }
        i += 1;
    }
    proof {
        assert(cond_entries(elems.skip(elems.len() as int)) =~= Seq::<
            (MessageClass, Seq<char>),
        >::empty());
        assert(verdict_views(out@) + cond_entries(elems.skip(elems.len() as int)) =~= verdict_views(
            out@,
        ));
    }
    out
}

/// Whether a finalizer entry is one of the two that prevent deletion.
pub open spec fn obstructive_finalizer(f: YamlV) -> bool {
    ||| f == YamlV::Str("post-delete-finalizer.argocd.argoproj.io"@)
    ||| f == YamlV::Str("post-delete-finalizer.argoproj.io/cleanup"@)
}

/// Whether some entry of the list is an obstructive finalizer.
pub open spec fn any_obstructive(fs: Seq<YamlV>) -> bool
    decreases fs.len(),
{
    if fs.len() == 0 {
        false
    } else {
        obstructive_finalizer(fs[0]) || any_obstructive(fs.drop_first())
    }
}

/// Whether an application item carries a finalizer that would block its
/// deletion.
pub open spec fn has_obstructive_finalizer(item: YamlV) -> bool {
    match crate::yaml::get2_v(item, "metadata"@, "finalizers"@) {
        Some(v) => match v {
            YamlV::List(fs) => any_obstructive(fs),
            _ => false,
        },
        None => false,
    }
}

/// Decide whether this application must have its finalizers cleared
/// before deletion, and under which name and namespace.
pub fn finalizers_to_clear(item: &Yaml) -> (r: Option<(String, String)>)
    ensures
        match r {
            Some(p) => {
                &&& crate::resource::metadata_name(item@) == Some(p.0@)
                &&& crate::yaml::get_str_v(
                    crate::yaml::get_v(item@, "metadata"@).unwrap(),
                    "namespace"@,
                ) == Some(p.1@)
                &&& has_obstructive_finalizer(item@)
            },
            None => !(has_obstructive_finalizer(item@)
                && crate::resource::metadata_name(item@) is Some && (match crate::yaml::get_v(
                item@,
                "metadata"@,
            ) {
                Some(md) => crate::yaml::get_str_v(md, "namespace"@) is Some,
                None => false,
            })),
        },
{
    let md = match item.get("metadata") {
        Some(md) => md,
        None => {
            return None;
        },
    };
    let name = match md.get_str("name") {
        Some(n) => n.clone(),
        None => {
            return None;
        },
    };
    let namespace = match md.get_str("namespace") {
        Some(n) => n.clone(),
        None => {
            return None;
        },
    };
    let fs: &Vec<Yaml> = match md.get("finalizers") {
        Some(v) => match v {
            Yaml::List(fs) => fs,
            _ => {
                return None;
            },
        },
        None => {
            return None;
        },
    };
    let ghost fv = crate::yaml::elems_of(fs@);
    let mut i: usize = 0;
    proof {
        assert(fv.skip(0) =~= fv);
    }
    while i < fs.len()
        invariant
            fv == crate::yaml::elems_of(fs@),
            fv.len() == fs@.len(),
            i <= fv.len(),
            crate::resource::metadata_name(item@) == Some(name@),
            get_str_v(get_v(item@, "metadata"@).unwrap(), "namespace"@) == Some(namespace@),
            crate::yaml::get2_v(item@, "metadata"@, "finalizers"@) == Some(YamlV::List(fv)),
            any_obstructive(fv) == any_obstructive(fv.skip(i as int)),
        decreases fv.len() - i,
    {
        proof {
            crate::yaml::lemma_elems_index(fs@, i as int);
            assert(fv.skip(i as int).drop_first() =~= fv.skip(i + 1));
            assert(fv.skip(i as int)[0] == fv[i as int]);
        }
        let hit = match &fs[i] {
            Yaml::Str(f) => crate::strutil::eq_str(
                f.as_str(),
                "post-delete-finalizer.argocd.argoproj.io",
            ) || crate::strutil::eq_str(f.as_str(), "post-delete-finalizer.argoproj.io/cleanup"),
            _ => false,
        };
        if hit {
            proof {
                assert(obstructive_finalizer(fv[i as int]));
                assert(any_obstructive(fv.skip(i as int)));
                assert(has_obstructive_finalizer(item@));
            }
            return Some((name, namespace));
        }
        i += 1;
    }
    proof {
        assert(fv.skip(fv.len() as int) =~= Seq::<YamlV>::empty());
    }
    None
}

/// Whether the poll loop should stop before this cycle's work: there is
/// no item list, it is empty, or everything known has been extracted.
pub fn poll_should_stop(items: Option<&Vec<Yaml>>, processed_count: usize) -> (r: bool)
    ensures
        r == match items {
            Some(v) => v@.len() == 0 || v@.len() == processed_count,
            None => true,
        },
{
    match items {
        Some(v) => v.len() == 0 || v.len() == processed_count,
        None => true,
    }
}

/// How one cycle ends.
#[derive(Clone, Copy, PartialEq, Eq, Structural, Debug)]
pub enum PollStep {
    /// At least one application failed for good: aggregate and abort.
    FailPermanent,
    /// Out of time with applications still pending: abort.
    FailTimeout,
    /// Refresh the timed-out applications, sleep, and poll again.
    Continue,
}

/// The decision at the end of one cycle: permanent failures abort first;
/// a cycle that saw every item already processed just waits; otherwise
/// the wall clock decides between timing out and going on.
pub fn decide_cycle(
    items_count: usize,
    processed_count: usize,
    failed_count: usize,
    elapsed: u64,
    timeout: u64,
) -> (r: PollStep)
    ensures
        r == if failed_count > 0 {
            PollStep::FailPermanent
        } else if items_count == processed_count {
            PollStep::Continue
        } else if elapsed > timeout {
            PollStep::FailTimeout
        } else {
            PollStep::Continue
        },
{
    if failed_count > 0 {
        PollStep::FailPermanent
    } else if items_count == processed_count {
        PollStep::Continue
    } else if elapsed > timeout {
        PollStep::FailTimeout
    } else {
        PollStep::Continue
    }
}

} // verus!
