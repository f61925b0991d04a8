//! Label selectors: `key=value`, `key==value` and `key!=value` clauses.

use vstd::prelude::*;
use vstd::string::StringExecFns;

use crate::strutil::contains_seq;
use crate::strutil::split_s;
use crate::strutil::trimmed;

verus! {

#[derive(Clone, Copy, PartialEq, Eq, Structural, Debug)]
pub enum Operator {
    Eq,
    Ne,
}

/// One selector clause, compared against a resource's label pairs.
pub struct Selector {
    pub key: String,
    pub value: String,
    pub operator: Operator,
}

/// The ghost view of a clause.
pub struct SelectorV {
    pub key: Seq<char>,
    pub value: Seq<char>,
    pub operator: Operator,
}

impl View for Selector {
    type V = SelectorV;

    open spec fn view(&self) -> SelectorV {
        SelectorV { key: self.key@, value: self.value@, operator: self.operator }
    }
}

/// A parsed clause part is usable when both sides are non-empty and hold
/// neither `!` nor `=`.
pub open spec fn clause_ok(key: Seq<char>, value: Seq<char>) -> bool {
    &&& key.len() > 0
    &&& value.len() > 0
    &&& !contains_seq(key, "!"@)
    &&& !contains_seq(key, "="@)
    &&& !contains_seq(value, "!"@)
    &&& !contains_seq(value, "="@)
}

/// What parsing one selector clause from `l` yields: the first of the
/// separators `!=`, `==`, `=` that splits `l` in exactly two decides the
/// operator; both sides are trimmed, and an unusable clause is rejected.
pub open spec fn parsed_selector(l: Seq<char>) -> Option<SelectorV> {
    let ne = split_s(l, "!="@);
    let ed = split_s(l, "=="@);
    let es = split_s(l, "="@);
    let cand = if ne.len() == 2 {
        Some(
            SelectorV {
                key: trimmed(ne[0]),
                value: trimmed(ne[1]),
                operator: Operator::Ne,
            },
        )
    } else if ed.len() == 2 {
        Some(
            SelectorV {
                key: trimmed(ed[0]),
                value: trimmed(ed[1]),
                operator: Operator::Eq,
            },
        )
    } else if es.len() == 2 {
        Some(
            SelectorV {
                key: trimmed(es[0]),
                value: trimmed(es[1]),
                operator: Operator::Eq,
            },
        )
    } else {
        None
    };
    match cand {
        Some(s) => if clause_ok(s.key, s.value) {
            Some(s)
        } else {
            None
        },
        None => None,
    }
}

/// The text a clause prints as: `key=value` or `key!=value`.
pub open spec fn selector_text(s: SelectorV) -> Seq<char> {
    match s.operator {
        Operator::Eq => s.key + "="@ + s.value,
        Operator::Ne => s.key + "!="@ + s.value,
    }
}

impl Selector {
    /// Parse one selector clause; `None` on a malformed one (where the
    /// original configuration would be rejected).
    pub fn from(l: &str) -> (r: Option<Selector>)
        ensures
            match r {
                Some(s) => parsed_selector(l@) == Some(s@),
                None => parsed_selector(l@) is None,
            },
    {
        proof {
            reveal_strlit("!=");
            reveal_strlit("==");
            reveal_strlit("=");
            reveal_strlit("!");
        }
        let not_equal = crate::strutil::split_all(l, "!=");
        let equal_double = crate::strutil::split_all(l, "==");
        let equal_single = crate::strutil::split_all(l, "=");
        let (key, value, operator) = if not_equal.len() == 2 {
            (
                crate::strutil::trim(not_equal[0].as_str()).to_owned(),
                crate::strutil::trim(not_equal[1].as_str()).to_owned(),
                Operator::Ne,
            )
        } else if equal_double.len() == 2 {
            (
                crate::strutil::trim(equal_double[0].as_str()).to_owned(),
                crate::strutil::trim(equal_double[1].as_str()).to_owned(),
                Operator::Eq,
            )
        } else if equal_single.len() == 2 {
            (
                crate::strutil::trim(equal_single[0].as_str()).to_owned(),
                crate::strutil::trim(equal_single[1].as_str()).to_owned(),
                Operator::Eq,
            )
        } else {
            return None;
        };
        if key.as_str().is_empty() || value.as_str().is_empty() {
            return None;
        }
        if crate::strutil::contains_sub(key.as_str(), "!") || crate::strutil::contains_sub(
            key.as_str(),
            "=",
        ) {
            return None;
        }
        if crate::strutil::contains_sub(value.as_str(), "!") || crate::strutil::contains_sub(
            value.as_str(),
            "=",
        ) {
            return None;
        }
        Some(Selector { key, value, operator })
    }

    /// The clause's text, as the original printed it.
    pub fn to_string(&self) -> (r: String)
        ensures
            r@ == selector_text(self@),
    {
        let mut out = String::from_str(self.key.as_str());
        match self.operator {
            Operator::Eq => out.append("="),
            Operator::Ne => out.append("!="),
        }
        out.append(self.value.as_str());
        out
    }
}

} // verus!
