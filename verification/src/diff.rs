//! Building the markdown diff report from the raw diff command output.
//!
//! The caller runs the two diff commands and hands in what they printed;
//! this module normalizes the output, truncates an over-long diff to the
//! message budget, and frames the result as markdown.  Lengths and
//! truncation work in characters.

use vstd::prelude::*;
use vstd::string::StrSliceExecFns;
use vstd::string::StringExecFns;

use crate::command::CommandOutput;
use crate::command::CommandOutputV;
use crate::strutil::dec_str;
use crate::strutil::join_s;
use crate::strutil::split_s;
use crate::strutil::trim_back_s;
use crate::strutil::trim_front_s;
use crate::strutil::trimmed;

verus! {

/// The frame of the report.
pub const MARKDOWN_TEMPLATE: &'static str = "\n## Argo CD Diff Preview\n\nSummary:\n```bash\n%summary%\n```\n\n<details>\n<summary>Diff:</summary>\n<br>\n\n```diff\n%diff%\n```\n\n</details>\n";

/// How one diff command's output is read: output on stderr is a failure;
/// otherwise what was printed, its trailing whitespace stripped, stands,
/// and blank output reads as `No changes found`.
pub open spec fn diff_output_text(o: Result<CommandOutputV, CommandOutputV>) -> Result<
    Seq<char>,
    Seq<char>,
> {
    let picked = match o {
        Ok(e) => Some(e.stdout),
        Err(e) => if trimmed(e.stderr).len() > 0 {
            None
        } else {
            Some(e.stdout)
        },
    };
    match picked {
        None => Err("Error running command: "@ + (o->Err_0).stderr),
        Some(out) => {
            let t = trim_back_s(out);
            if trimmed(t).len() == 0 {
                Ok("No changes found"@)
            } else {
                Ok(t)
            }
        },
    }
}

/// Normalize one diff command's output.
pub fn parse_diff_output(output: &Result<CommandOutput, CommandOutput>) -> (r: Result<
    String,
    String,
>)
    ensures
        match r {
            Ok(s) => diff_output_text(
                match output {
                    Ok(o) => Ok::<CommandOutputV, CommandOutputV>(o@),
                    Err(o) => Err(o@),
                },
            ) == Ok::<Seq<char>, Seq<char>>(s@),
            Err(s) => diff_output_text(
                match output {
                    Ok(o) => Ok::<CommandOutputV, CommandOutputV>(o@),
                    Err(o) => Err(o@),
                },
            ) == Err::<Seq<char>, Seq<char>>(s@),
        },
{
    let stdout: &String = match output {
        Ok(e) => &e.stdout,
        Err(e) => {
            if crate::strutil::trim(e.stderr.as_str()).unicode_len() > 0 {
                let mut msg = String::from_str("Error running command: ");
                msg.append(e.stderr.as_str());
                return Err(msg);
            }
            &e.stdout
        },
    };
    let t = crate::strutil::trim_end(stdout.as_str());
    if crate::strutil::trim(t).unicode_len() == 0 {
        Ok(String::from_str("No changes found"))
    } else {
        Ok(t.to_owned())
    }
}

/// The template with the two holes emptied, whose length is the frame's
/// overhead.
pub open spec fn template_overhead() -> Seq<char> {
    join_s(
        split_s(
            join_s(split_s(MARKDOWN_TEMPLATE@, "%summary%"@), Seq::<char>::empty()),
            "%diff%"@,
        ),
        Seq::<char>::empty(),
    )
}

/// The length of the markdown frame around the two texts.
pub fn markdown_template_length() -> (r: usize)
    ensures
        r == template_overhead().len(),
{
    proof {
        reveal_strlit("%summary%");
        reveal_strlit("%diff%");
        reveal_strlit("");
        assert(""@ =~= Seq::<char>::empty());
    }
    let a = crate::strutil::replace_all(MARKDOWN_TEMPLATE, "%summary%", "");
    let b = crate::strutil::replace_all(a.as_str(), "%diff%", "");
    b.as_str().unicode_len()
}

/// The report with the summary and the diff in their places.
pub open spec fn framed_report(summary: Seq<char>, diff: Seq<char>) -> Seq<char> {
    trim_front_s(
        join_s(split_s(join_s(split_s(MARKDOWN_TEMPLATE@, "%summary%"@), summary), "%diff%"@), diff),
    )
}

/// Frame the summary and the diff as markdown.
pub fn print_diff(summary: &str, diff: &str) -> (r: String)
    ensures
        r@ == framed_report(summary@, diff@),
{
    proof {
        reveal_strlit("%summary%");
        reveal_strlit("%diff%");
    }
    let a = crate::strutil::replace_all(MARKDOWN_TEMPLATE, "%summary%", summary);
    let b = crate::strutil::replace_all(a.as_str(), "%diff%", diff);
    crate::strutil::trim_start(b.as_str()).to_owned()
}

/// The warning appended to a truncated diff, naming the budget.
pub open spec fn truncation_warning(max: nat) -> Seq<char> {
    "\n\n \u{26a0}\u{fe0f}\u{26a0}\u{fe0f}\u{26a0}\u{fe0f} Diff is too long. Truncated to "@
        + dec_str(max) + " characters. This can be adjusted with the `--max-diff-length` flag"@
}

/// What the whole report generation yields: the framed report, with the
/// diff truncated to the character budget when needed, or a failure when
/// a command failed or nothing fits.
pub open spec fn report_of(
    summary_output: Result<CommandOutputV, CommandOutputV>,
    diff_output: Result<CommandOutputV, CommandOutputV>,
    max: nat,
) -> Result<Seq<char>, Seq<char>> {
    match diff_output_text(summary_output) {
        Err(e) => Err(e),
        Ok(summary) => match diff_output_text(diff_output) {
            Err(e) => Err(e),
            Ok(diff) => {
                let overhead = template_overhead().len() + summary.len();
                let remaining: int = if max >= overhead {
                    max - overhead
                } else {
                    0
                };
                let warning = truncation_warning(max);
                if remaining > diff.len() {
                    Ok(framed_report(summary, diff))
                } else if remaining > warning.len() {
                    Ok(
                        framed_report(
                            summary,
                            diff.take(remaining - warning.len()) + warning,
                        ),
                    )
                } else {
                    Err(
                        "Diff is too long and cannot be truncated. Increase the max length with `--max-diff-length`"@,
                    )
                }
            },
        },
    }
}

/// Build the markdown report from the two diff commands' captured output.
/// The summary always fits or the run fails; the diff is truncated to the
/// budget with a warning in its tail when it is too long.
pub fn generate_diff(
    summary_output: &Result<CommandOutput, CommandOutput>,
    diff_output: &Result<CommandOutput, CommandOutput>,
    max_char_count: Option<usize>,
) -> (r: Result<String, String>)
    ensures
        ({
            let so = match summary_output {
                Ok(o) => Ok::<CommandOutputV, CommandOutputV>(o@),
                Err(o) => Err(o@),
            };
            let dv = match diff_output {
                Ok(o) => Ok::<CommandOutputV, CommandOutputV>(o@),
                Err(o) => Err(o@),
            };
            let max = match max_char_count {
                Some(m) => m as nat,
                None => 65536 as nat,
            };
            match r {
                Ok(s) => report_of(so, dv, max) == Ok::<Seq<char>, Seq<char>>(s@),
                Err(s) => report_of(so, dv, max) == Err::<Seq<char>, Seq<char>>(s@),
            }
        }),
{
    let max: usize = match max_char_count {
        Some(m) => m,
        None => 65536,
    };
    let summary = match parse_diff_output(summary_output) {
        Ok(s) => s,
        Err(e) => {
            return Err(e);
        },
    };
    let diff = match parse_diff_output(diff_output) {
        Ok(s) => s,
        Err(e) => {
            return Err(e);
        },
    };
    let overhead_tpl = markdown_template_length();
    let summary_len = summary.as_str().unicode_len();
    let remaining: usize = if max >= overhead_tpl && max - overhead_tpl >= summary_len {
        max - overhead_tpl - summary_len
    } else {
        0
    };
    let mut warning = String::from_str(
        "\n\n \u{26a0}\u{fe0f}\u{26a0}\u{fe0f}\u{26a0}\u{fe0f} Diff is too long. Truncated to ",
    );
    warning.append(crate::strutil::u64_to_dec(max as u64).as_str());
    warning.append(" characters. This can be adjusted with the `--max-diff-length` flag");
    let diff_len = diff.as_str().unicode_len();
    let warning_len = warning.as_str().unicode_len();
    if remaining > diff_len {
        Ok(print_diff(summary.as_str(), diff.as_str()))
    } else if remaining > warning_len {
        let mut cut = diff.as_str().substring_char(0, remaining - warning_len).to_owned();
        proof {
            assert(cut@ =~= diff@.take(remaining - warning_len));
        }
        cut.append(warning.as_str());
        Ok(print_diff(summary.as_str(), cut.as_str()))
    } else {
        Err(
            String::from_str(
                "Diff is too long and cannot be truncated. Increase the max length with `--max-diff-length`",
            ),
        )
    }
}

} // verus!
