//! The message written when no applications were found to compare.

use vstd::prelude::*;
use vstd::string::StringExecFns;

use crate::selector::selector_text;
use crate::selector::Selector;
use crate::selector::SelectorV;
use crate::strutil::join_s;
use crate::strutil::split_s;
use crate::strutil::trim_front_s;

verus! {

/// The texts of the clauses, in order.
pub open spec fn selector_texts(s: Seq<SelectorV>) -> Seq<Seq<char>> {
    Seq::new(
        s.len(),
        |i: int|
            if 0 <= i < s.len() {
                selector_text(s[i])
            } else {
                Seq::empty()
            },
    )
}

/// The selector list joined with commas, as it is printed.
pub open spec fn selector_list_text(s: Seq<SelectorV>) -> Seq<char> {
    join_s(selector_texts(s), ","@)
}

/// The message explaining why nothing was compared, for each combination
/// of a selector and a changed-file list.
pub open spec fn no_apps_message(
    sel: Option<Seq<SelectorV>>,
    files: Option<Seq<Seq<char>>>,
) -> Seq<char> {
    match (sel, files) {
        (Some(s), Some(f)) => "Found no changed Applications that matched '"@
            + selector_list_text(s) + "' and watched these files: '"@ + join_s(f, "`, `"@)
            + "'"@,
        (Some(s), None) => "Found no changed Applications that matched '"@ + selector_list_text(s)
            + "'"@,
        (None, Some(f)) => "Found no changed Applications that watched these files: '"@ + join_s(
            f,
            "`, `"@,
        ) + "'"@,
        (None, None) => "Found no Applications"@,
    }
}

/// Render the clause texts of a selector list.
fn selector_strings(s: &Vec<Selector>) -> (r: Vec<String>)
    ensures
        r.deep_view() == selector_texts(crate::resource::selectors_v(s@)),
{
    let mut out: Vec<String> = Vec::new();
    let mut i: usize = 0;
    while i < s.len()
        invariant
            i <= s@.len(),
            out@.len() == i,
            forall|j: int|
                0 <= j < i ==> out.deep_view()[j] == selector_texts(
                    crate::resource::selectors_v(s@),
                )[j],
        decreases s@.len() - i,
    {
        let ghost pre = out.deep_view();
        out.push(s[i].to_string());
        proof {
            assert(out.deep_view() =~= pre.push(selector_text(s@[i as int]@)));
            assert(crate::resource::selectors_v(s@)[i as int] == s@[i as int]@);
        }
        i += 1;
    }
    proof {
        assert(out.deep_view() =~= selector_texts(crate::resource::selectors_v(s@)));
    }
    out
}

/// The message shown when no applications were found, naming the selector
/// and the changed files that were in force.
pub fn get_message(
    selector: &Option<Vec<Selector>>,
    changed_files: &Option<Vec<String>>,
) -> (r: String)
    ensures
        r@ == no_apps_message(
            match selector {
                Some(s) => Some(crate::resource::selectors_v(s@)),
                None => None,
            },
            match changed_files {
                Some(f) => Some(f.deep_view()),
                None => None,
            },
        ),
{
    match (selector, changed_files) {
        (Some(s), Some(f)) => {
            let mut out = String::from_str("Found no changed Applications that matched '");
            out.append(crate::strutil::join_with(&selector_strings(s), ",").as_str());
            out.append("' and watched these files: '");
            out.append(crate::strutil::join_with(f, "`, `").as_str());
            out.append("'");
            out
        },
        (Some(s), None) => {
            let mut out = String::from_str("Found no changed Applications that matched '");
            out.append(crate::strutil::join_with(&selector_strings(s), ",").as_str());
            out.append("'");
            out
        },
        (None, Some(f)) => {
            let mut out = String::from_str(
                "Found no changed Applications that watched these files: '",
            );
            out.append(crate::strutil::join_with(f, "`, `").as_str());
            out.append("'");
            out
        },
        (None, None) => String::from_str("Found no Applications"),
    }
}

/// The frame the message is shown in.
pub open spec fn no_apps_markdown(message: Seq<char>) -> Seq<char> {
    trim_front_s(join_s(split_s("\n## Argo CD Diff Preview\n\n%message%\n"@, "%message%"@), message))
}

/// Put the message into its markdown frame.
pub fn generate_markdown(message: &str) -> (r: String)
    ensures
        r@ == no_apps_markdown(message@),
{
    proof {
        reveal_strlit("%message%");
    }
    let body = crate::strutil::replace_all(
        "\n## Argo CD Diff Preview\n\n%message%\n",
        "%message%",
        message,
    );
    crate::strutil::trim_start(body.as_str()).to_owned()
}

} // verus!
