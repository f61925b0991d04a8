//! Assigning stable, collision-free names for one branch's resources.
//!
//! Resources are grouped by name in first-occurrence order.  A group of
//! one passes through unchanged; a larger group is sorted by its members'
//! rendered document text — for determinism — and renamed `name-1`,
//! `name-2`, … in that order, `metadata.name` rewritten to match.

use vstd::multiset::Multiset;
use vstd::prelude::*;
use vstd::string::StrSliceExecFns;
use vstd::string::StringExecFns;

use crate::resource::argo_views;
use crate::resource::ArgoResource;
use crate::resource::ArgoResourceV;
use crate::yaml::get_v;
use crate::yaml::set_v;
use crate::yaml::Yaml;
use crate::yaml::YamlV;

verus! {

/// The sort key of a resource: its rendered document text, or empty when
/// it cannot be rendered.
pub open spec fn render_key(a: ArgoResourceV) -> Seq<char> {
    match crate::codec::rendered_doc(a.yaml) {
        Some(t) => t,
        None => Seq::empty(),
    }
}

/// Lexicographic order on text, by character scalar value.
pub open spec fn lex_le(a: Seq<char>, b: Seq<char>) -> bool
    decreases a.len(),
{
    if a.len() == 0 {
        true
    } else if b.len() == 0 {
        false
    } else if a[0] == b[0] {
        lex_le(a.drop_first(), b.drop_first())
    } else {
        (a[0] as u32) < (b[0] as u32)
    }
}

/// Decide [`lex_le`] on two strings.
pub fn str_le(a: &str, b: &str) -> (r: bool)
    ensures
        r == lex_le(a@, b@),
{
    let alen = a.unicode_len();
    let blen = b.unicode_len();
    let mut i: usize = 0;
    proof {
        assert(a@.skip(0) =~= a@);
        assert(b@.skip(0) =~= b@);
    }
    while i < alen && i < blen
        invariant
            alen == a@.len(),
            blen == b@.len(),
            i <= alen,
            i <= blen,
            lex_le(a@, b@) == lex_le(a@.skip(i as int), b@.skip(i as int)),
        decreases alen - i,
    {
        let ca = a.get_char(i);
        let cb = b.get_char(i);
        proof {
            assert(a@.skip(i as int).drop_first() =~= a@.skip(i + 1));
            assert(b@.skip(i as int).drop_first() =~= b@.skip(i + 1));
            assert(a@.skip(i as int)[0] == a@[i as int]);
            assert(b@.skip(i as int)[0] == b@[i as int]);
        }
        if ca != cb {
            return (ca as u32) < (cb as u32);
        }
        i += 1;
    }
    proof {
        if i >= alen {
            assert(a@.skip(i as int).len() == 0);
        } else {
            assert(b@.skip(i as int).len() == 0);
            assert(a@.skip(i as int).len() > 0);
        }
    }
    i >= alen
}

/// The members of `s` bound to name `n`, in order.
pub open spec fn group_of(s: Seq<ArgoResourceV>, n: Seq<char>) -> Seq<ArgoResourceV>
    decreases s.len(),
{
    if s.len() == 0 {
        Seq::empty()
    } else {
        let rest = group_of(s.drop_first(), n);
        if s[0].name == n {
            seq![s[0]] + rest
        } else {
            rest
        }
    }
}

/// The members of `s` not bound to name `n`, in order.
pub open spec fn without_name(s: Seq<ArgoResourceV>, n: Seq<char>) -> Seq<ArgoResourceV>
    decreases s.len(),
{
    if s.len() == 0 {
        Seq::empty()
    } else {
        let rest = without_name(s.drop_first(), n);
        if s[0].name == n {
            rest
        } else {
            seq![s[0]] + rest
        }
    }
}

pub proof fn lemma_without_name_len(s: Seq<ArgoResourceV>, n: Seq<char>)
    ensures
        without_name(s, n).len() <= s.len(),
        s.len() > 0 && s[0].name == n ==> without_name(s, n).len() < s.len(),
    decreases s.len(),
{
    if s.len() > 0 {
        lemma_without_name_len(s.drop_first(), n);
    }
}

/// Insert behind every member whose key is not above the new one: a
/// stable insertion.
pub open spec fn ins_sorted(x: ArgoResourceV, s: Seq<ArgoResourceV>) -> Seq<ArgoResourceV>
    decreases s.len(),
{
    if s.len() == 0 {
        seq![x]
    } else if lex_le(render_key(s[0]), render_key(x)) {
        seq![s[0]] + ins_sorted(x, s.drop_first())
    } else {
        seq![x] + s
    }
}

/// Insertion sort by rendered text, taking members left to right.
pub open spec fn sort_rec(s: Seq<ArgoResourceV>, acc: Seq<ArgoResourceV>) -> Seq<ArgoResourceV>
    decreases s.len(),
{
    if s.len() == 0 {
        acc
    } else {
        sort_rec(s.drop_first(), ins_sorted(s[0], acc))
    }
}

pub open spec fn sort_by_render(s: Seq<ArgoResourceV>) -> Seq<ArgoResourceV> {
    sort_rec(s, Seq::empty())
}

/// The suffixed name a duplicate receives.
pub open spec fn indexed_name(n: Seq<char>, i: nat) -> Seq<char> {
    n + "-"@ + crate::strutil::dec_str(i)
}

/// One resource renamed: the field and `metadata.name` both rewritten.
pub open spec fn renamed_v(a: ArgoResourceV, new_name: Seq<char>) -> ArgoResourceV {
    ArgoResourceV {
        yaml: set_v(
            a.yaml,
            "metadata"@,
            set_v(get_v(a.yaml, "metadata"@).unwrap(), "name"@, YamlV::Str(new_name)),
        ),
        kind: a.kind,
        name: new_name,
        namespace: a.namespace,
        file_name: a.file_name,
    }
}

/// What one name group becomes: a single member passes through; a larger
/// group is sorted by rendered text and renamed `n-1`, `n-2`, … in that
/// order.
pub open spec fn renamed_group(g: Seq<ArgoResourceV>, n: Seq<char>) -> Seq<ArgoResourceV> {
    if g.len() == 1 {
        g
    } else {
        let sorted = sort_by_render(g);
        Seq::new(
            sorted.len(),
            |i: int|
                if 0 <= i < sorted.len() {
                    renamed_v(sorted[i], indexed_name(n, (i + 1) as nat))
                } else {
                    sorted[i]
                },
        )
    }
}

/// The whole assignment: groups in first-occurrence order of their names,
/// each renamed as [`renamed_group`] says.
pub open spec fn unique_names_v(s: Seq<ArgoResourceV>) -> Seq<ArgoResourceV>
    decreases s.len(),
    via unique_names_v_decreases
{
    if s.len() == 0 {
        Seq::empty()
    } else {
        let n = s[0].name;
        renamed_group(group_of(s, n), n) + unique_names_v(without_name(s, n))
    }
}

#[via_fn]
proof fn unique_names_v_decreases(s: Seq<ArgoResourceV>) {
    if s.len() > 0 {
        lemma_without_name_len(s, s[0].name);
    }
}

/// The order on text is reflexive.
pub proof fn lemma_lex_le_refl(a: Seq<char>)
    ensures
        lex_le(a, a),
    decreases a.len(),
{
    if a.len() > 0 {
        lemma_lex_le_refl(a.drop_first());
    }
}

/// The order on text is total.
pub proof fn lemma_lex_le_total(a: Seq<char>, b: Seq<char>)
    ensures
        lex_le(a, b) || lex_le(b, a),
    decreases a.len(),
{
    if a.len() > 0 && b.len() > 0 {
        if a[0] == b[0] {
            lemma_lex_le_total(a.drop_first(), b.drop_first());
        } else {
            vstd::utf8::char_u32_cast(a[0], a[0] as u32);
            vstd::utf8::char_u32_cast(b[0], b[0] as u32);
            assert((a[0] as u32) != (b[0] as u32));
        }
    }
}

/// The order on text is antisymmetric.
pub proof fn lemma_lex_le_antisym(a: Seq<char>, b: Seq<char>)
    requires
        lex_le(a, b),
        lex_le(b, a),
    ensures
        a == b,
    decreases a.len(),
{
    if a.len() == 0 {
        assert(b.len() == 0);
        assert(a =~= b);
    } else {
        assert(b.len() > 0);
        assert(a[0] == b[0]) by {
            vstd::utf8::char_u32_cast(a[0], a[0] as u32);
            vstd::utf8::char_u32_cast(b[0], b[0] as u32);
        }
        lemma_lex_le_antisym(a.drop_first(), b.drop_first());
        assert forall|i: int| 0 <= i < a.len() implies a[i] == b[i] by {
            if i > 0 {
                assert(a.drop_first()[i - 1] == b.drop_first()[i - 1]);
            }
        }
        assert(a.len() == b.len());
        assert(a =~= b);
    }
}

/// The order on text is transitive.
pub proof fn lemma_lex_le_trans(a: Seq<char>, b: Seq<char>, c: Seq<char>)
    requires
        lex_le(a, b),
        lex_le(b, c),
    ensures
        lex_le(a, c),
    decreases a.len(),
{
    if a.len() > 0 && b.len() > 0 && c.len() > 0 && a[0] == b[0] && b[0] == c[0] {
        lemma_lex_le_trans(a.drop_first(), b.drop_first(), c.drop_first());
    }
}

/// The members stand in rendered-text order.
pub open spec fn key_sorted(s: Seq<ArgoResourceV>) -> bool {
    forall|i: int, j: int|
        0 <= i < j < s.len() ==> lex_le(render_key(#[trigger] s[i]), render_key(#[trigger] s[j]))
}

/// Inserting into a sorted sequence keeps it sorted and adds exactly the
/// new member.
proof fn lemma_ins_sorted_ensures(x: ArgoResourceV, s: Seq<ArgoResourceV>)
    requires
        key_sorted(s),
    ensures
        key_sorted(ins_sorted(x, s)),
        ins_sorted(x, s).to_multiset() =~= s.to_multiset().insert(x),
        ins_sorted(x, s).len() == s.len() + 1,
    decreases s.len(),
{
    broadcast use vstd::seq_lib::group_to_multiset_ensures;

    if s.len() == 0 {
        assert(seq![x] =~= Seq::<ArgoResourceV>::empty().push(x));
        assert(s.to_multiset() =~= Multiset::<ArgoResourceV>::empty());
    } else if lex_le(render_key(s[0]), render_key(x)) {
        assert(key_sorted(s.drop_first()));
        lemma_ins_sorted_ensures(x, s.drop_first());
        let r = seq![s[0]] + ins_sorted(x, s.drop_first());
        assert forall|i: int, j: int| 0 <= i < j < r.len() implies lex_le(
            render_key(r[i]),
            render_key(r[j]),
        ) by {
            if i == 0 {
                let t = ins_sorted(x, s.drop_first());
                assert(r[j] == t[j - 1]);
                if t[j - 1] == x {
                } else {
                    assert(t.to_multiset().count(t[j - 1]) > 0);
                    if s.drop_first().to_multiset().count(t[j - 1]) > 0 {
                        let k = choose|k: int|
                            0 <= k < s.drop_first().len() && s.drop_first()[k] == t[j - 1];
                        assert(s[k + 1] == t[j - 1]);
                        assert(lex_le(render_key(s[0]), render_key(s[k + 1])));
                    } else {
                        assert(t[j - 1] == x);
                    }
                }
            }
        }
        assert(r.drop_first() =~= ins_sorted(x, s.drop_first()));
        assert(r =~= ins_sorted(x, s.drop_first()).insert(0, s[0]));
        assert(seq![s[0]] + s.drop_first() =~= s);
        assert(r.to_multiset() =~= s.to_multiset().insert(x)) by {
            let t = ins_sorted(x, s.drop_first());
            assert(r =~= t.insert(0, s[0]));
            assert(t.insert(0, s[0]) =~= (seq![s[0]] + t));
            assert((seq![s[0]] + t).to_multiset() =~= t.to_multiset().insert(s[0])) by {
                lemma_cons_multiset(s[0], t);
            }
            assert(s.to_multiset() =~= s.drop_first().to_multiset().insert(s[0])) by {
                lemma_cons_multiset(s[0], s.drop_first());
                assert(seq![s[0]] + s.drop_first() =~= s);
            }
        }
    } else {
        assert(ins_sorted(x, s) == seq![x] + s);
        let r = seq![x] + s;
        lemma_lex_le_total(render_key(s[0]), render_key(x));
        assert(lex_le(render_key(x), render_key(s[0])));
        assert forall|i: int, j: int| 0 <= i < j < r.len() implies lex_le(
            render_key(r[i]),
            render_key(r[j]),
        ) by {
            if i == 0 {
                if j > 1 {
                    lemma_lex_le_trans(
                        render_key(x),
                        render_key(s[0]),
                        render_key(s[j - 1]),
                    );
                }
            }
        }
        lemma_cons_multiset(x, s);
    }
}

/// Prepending one member inserts it into the multiset.
proof fn lemma_cons_multiset(x: ArgoResourceV, s: Seq<ArgoResourceV>)
    ensures
        (seq![x] + s).to_multiset() =~= s.to_multiset().insert(x),
    decreases s.len(),
{
    broadcast use vstd::seq_lib::group_to_multiset_ensures;

    if s.len() == 0 {
        assert(seq![x] + s =~= Seq::<ArgoResourceV>::empty().push(x));
    } else {
        lemma_cons_multiset(x, s.drop_last());
        assert((seq![x] + s.drop_last()).push(s.last()) =~= seq![x] + s);
        assert(s.drop_last().push(s.last()) =~= s);
    }
}

/// The insertion sort yields a sorted permutation.
proof fn lemma_sort_rec_ensures(s: Seq<ArgoResourceV>, acc: Seq<ArgoResourceV>)
    requires
        key_sorted(acc),
    ensures
        key_sorted(sort_rec(s, acc)),
        sort_rec(s, acc).to_multiset() =~= acc.to_multiset().add(s.to_multiset()),
    decreases s.len(),
{
    broadcast use vstd::seq_lib::group_to_multiset_ensures;

    if s.len() == 0 {
        assert(s.to_multiset() =~= Multiset::<ArgoResourceV>::empty());
    } else {
        lemma_ins_sorted_ensures(s[0], acc);
        lemma_sort_rec_ensures(s.drop_first(), ins_sorted(s[0], acc));
        lemma_cons_multiset(s[0], s.drop_first());
        assert(seq![s[0]] + s.drop_first() =~= s);
        assert(sort_rec(s, acc).to_multiset() =~= acc.to_multiset().insert(s[0]).add(
            s.drop_first().to_multiset(),
        ));
    }
}

/// The sort of a group: sorted, and the same members.
pub proof fn lemma_sort_by_render_ensures(g: Seq<ArgoResourceV>)
    ensures
        key_sorted(sort_by_render(g)),
        sort_by_render(g).to_multiset() =~= g.to_multiset(),
        sort_by_render(g).len() == g.len(),
{
    broadcast use vstd::seq_lib::group_to_multiset_ensures;

    assert(key_sorted(Seq::<ArgoResourceV>::empty()));
    lemma_sort_rec_ensures(g, Seq::<ArgoResourceV>::empty());
    assert(sort_by_render(g) == sort_rec(g, Seq::<ArgoResourceV>::empty()));
    assert(Seq::<ArgoResourceV>::empty().to_multiset() =~= Multiset::<ArgoResourceV>::empty());
    assert(Multiset::<ArgoResourceV>::empty().add(g.to_multiset()) =~= g.to_multiset());
    assert(sort_by_render(g).to_multiset() =~= g.to_multiset());
    assert(sort_by_render(g).len() == sort_by_render(g).to_multiset().len());
    assert(g.len() == g.to_multiset().len());
}

/// No two members share a rendered text.
pub open spec fn distinct_keys(s: Seq<ArgoResourceV>) -> bool {
    forall|i: int, j: int|
        0 <= i < j < s.len() ==> render_key(#[trigger] s[i]) != render_key(#[trigger] s[j])
}

/// Two sorted sequences over the same members with pairwise distinct
/// rendered texts are equal.
proof fn lemma_sorted_unique(s1: Seq<ArgoResourceV>, s2: Seq<ArgoResourceV>)
    requires
        key_sorted(s1),
        key_sorted(s2),
        distinct_keys(s1),
        s1.to_multiset() =~= s2.to_multiset(),
    ensures
        s1 =~= s2,
    decreases s1.len(),
{
    broadcast use vstd::seq_lib::group_to_multiset_ensures;

    if s1.len() == 0 {
        assert(s2.to_multiset().len() == 0);
    } else {
        assert(s2.to_multiset().len() == s1.len());
        assert(s2.len() == s1.len());
        // The two heads carry the least key, and a key names one member.
        assert(s2.to_multiset().count(s1[0]) > 0);
        assert(s2.contains(s1[0]));
        let i2 = choose|i: int| 0 <= i < s2.len() && s2[i] == s1[0];
        if i2 == 0 {
            lemma_lex_le_refl(render_key(s1[0]));
        } else {
            assert(lex_le(render_key(s2[0]), render_key(s2[i2])));
        }
        assert(lex_le(render_key(s2[0]), render_key(s1[0])));
        assert(s1.to_multiset().count(s2[0]) > 0);
        assert(s1.contains(s2[0]));
        let i1 = choose|i: int| 0 <= i < s1.len() && s1[i] == s2[0];
        if i1 == 0 {
            lemma_lex_le_refl(render_key(s2[0]));
        } else {
            assert(lex_le(render_key(s1[0]), render_key(s1[i1])));
        }
        assert(lex_le(render_key(s1[0]), render_key(s2[0])));
        lemma_lex_le_antisym(render_key(s1[0]), render_key(s2[0]));
        assert(render_key(s1[i1]) == render_key(s1[0]));
        if i1 != 0 {
            assert(render_key(s1[0]) != render_key(s1[i1]));
        }
        assert(i1 == 0);
        assert(s1[0] == s2[0]);
        let t1 = s1.drop_first();
        let t2 = s2.drop_first();
        assert(t1 =~= s1.remove(0));
        assert(t2 =~= s2.remove(0));
        assert(t1.to_multiset() =~= s1.to_multiset().remove(s1[0]));
        assert(t2.to_multiset() =~= s2.to_multiset().remove(s2[0]));
        assert(key_sorted(t1)) by {
            assert forall|i: int, j: int| 0 <= i < j < t1.len() implies lex_le(
                render_key(t1[i]),
                render_key(t1[j]),
            ) by {
                assert(lex_le(render_key(s1[i + 1]), render_key(s1[j + 1])));
            }
        }
        assert(key_sorted(t2)) by {
            assert forall|i: int, j: int| 0 <= i < j < t2.len() implies lex_le(
                render_key(t2[i]),
                render_key(t2[j]),
            ) by {
                assert(lex_le(render_key(s2[i + 1]), render_key(s2[j + 1])));
            }
        }
        assert(distinct_keys(t1)) by {
            assert forall|i: int, j: int| 0 <= i < j < t1.len() implies render_key(t1[i])
                != render_key(t1[j]) by {
                assert(render_key(s1[i + 1]) != render_key(s1[j + 1]));
            }
        }
        assert(t1.to_multiset() =~= t2.to_multiset());
        lemma_sorted_unique(t1, t2);
        assert forall|i: int| 0 <= i < s1.len() implies s1[i] == s2[i] by {
            if i > 0 {
                assert(t1[i - 1] == t2[i - 1]);
            }
        }
        assert(s1 =~= s2);
    }
}

/// Name deduplication is deterministic: what one duplicate group is
/// renamed to does not depend on the order its members arrived in, as
/// long as their rendered texts are pairwise distinct.  Since grouping by
/// name partitions the input, the whole assignment is a function of the
/// input set alone.
pub proof fn lemma_renamed_group_order_independent(
    g1: Seq<ArgoResourceV>,
    g2: Seq<ArgoResourceV>,
    n: Seq<char>,
)
    requires
        g1.to_multiset() =~= g2.to_multiset(),
        distinct_keys(g1),
        g1.len() != 1,
    ensures
        renamed_group(g1, n) =~= renamed_group(g2, n),
{
    broadcast use vstd::seq_lib::group_to_multiset_ensures;

    assert(g2.to_multiset().len() == g1.len());
    assert(g2.len() == g1.len());
    lemma_sort_by_render_ensures(g1);
    lemma_sort_by_render_ensures(g2);
    assert(distinct_keys(sort_by_render(g1))) by {
        let s = sort_by_render(g1);
        assert forall|i: int, j: int|
            0 <= i < j < s.len() implies render_key(#[trigger] s[i]) != render_key(
            #[trigger] s[j],
        ) by {
            if render_key(s[i]) == render_key(s[j]) {
                if s[i] == s[j] {
                    lemma_dup_in_seq(s, i, j);
                    assert(g1.to_multiset().count(s[i]) >= 2);
                    lemma_count_two_gives_dup(g1, s[i]);
                } else {
                    assert(g1.to_multiset().count(s[i]) > 0);
                    assert(g1.to_multiset().count(s[j]) > 0);
                    assert(g1.contains(s[i]));
                    assert(g1.contains(s[j]));
                    let a = choose|k: int| 0 <= k < g1.len() && g1[k] == s[i];
                    let b = choose|k: int| 0 <= k < g1.len() && g1[k] == s[j];
                    assert(a != b);
                }
            }
        }
    }
    lemma_sorted_unique(sort_by_render(g1), sort_by_render(g2));
}

/// A member at two places counts at least twice.
proof fn lemma_dup_in_seq(s: Seq<ArgoResourceV>, i: int, j: int)
    requires
        0 <= i < j < s.len(),
        s[i] == s[j],
    ensures
        s.to_multiset().count(s[i]) >= 2,
{
    broadcast use vstd::seq_lib::group_to_multiset_ensures;

    let t = s.remove(j);
    assert(t.to_multiset() =~= s.to_multiset().remove(s[j]));
    assert(t[i] == s[i]);
    assert(t.contains(s[i]));
    assert(t.to_multiset().count(s[i]) > 0);
}

/// A member counted twice sits at two places.
proof fn lemma_count_two_gives_dup(s: Seq<ArgoResourceV>, x: ArgoResourceV)
    requires
        s.to_multiset().count(x) >= 2,
    ensures
        exists|i: int, j: int| 0 <= i < j < s.len() && s[i] == x && s[j] == x,
{
    broadcast use vstd::seq_lib::group_to_multiset_ensures;

    assert(s.contains(x));
    let i = choose|i: int| 0 <= i < s.len() && s[i] == x;
    let t = s.remove(i);
    assert(t.to_multiset() =~= s.to_multiset().remove(x));
    assert(t.to_multiset().count(x) >= 1);
    assert(t.contains(x));
    let j = choose|j: int| 0 <= j < t.len() && t[j] == x;
    if j < i {
        assert(s[j] == t[j]);
        assert(0 <= j < i < s.len() && s[j] == x && s[i] == x);
    } else {
        assert(s[j + 1] == t[j]);
        assert(0 <= i < j + 1 < s.len() && s[i] == x && s[j + 1] == x);
    }
}

/// The group members are the name's occurrences.
proof fn lemma_group_of_multiset(s: Seq<ArgoResourceV>, n: Seq<char>)
    ensures
        group_of(s, n).to_multiset() =~= s.to_multiset().filter(
            |a: ArgoResourceV| a.name == n,
        ),
    decreases s.len(),
{
    broadcast use vstd::seq_lib::group_to_multiset_ensures;
    broadcast use vstd::multiset::group_multiset_axioms;

    if s.len() == 0 {
    } else {
        lemma_group_of_multiset(s.drop_first(), n);
        lemma_cons_multiset(s[0], s.drop_first());
        assert(seq![s[0]] + s.drop_first() =~= s);
        if s[0].name == n {
            lemma_cons_multiset(s[0], group_of(s.drop_first(), n));
        }
    }
}

/// The remainder holds everything but the name's occurrences.
proof fn lemma_without_name_multiset(s: Seq<ArgoResourceV>, n: Seq<char>)
    ensures
        without_name(s, n).to_multiset() =~= s.to_multiset().filter(
            |a: ArgoResourceV| a.name != n,
        ),
    decreases s.len(),
{
    broadcast use vstd::seq_lib::group_to_multiset_ensures;
    broadcast use vstd::multiset::group_multiset_axioms;

    if s.len() == 0 {
    } else {
        lemma_without_name_multiset(s.drop_first(), n);
        lemma_cons_multiset(s[0], s.drop_first());
        assert(seq![s[0]] + s.drop_first() =~= s);
        if s[0].name != n {
            lemma_cons_multiset(s[0], without_name(s.drop_first(), n));
        }
    }
}

/// Dropping one name's members leaves another name's group alone.
proof fn lemma_group_of_skips_other(s: Seq<ArgoResourceV>, m: Seq<char>, n: Seq<char>)
    requires
        m != n,
    ensures
        group_of(without_name(s, m), n) =~= group_of(s, n),
    decreases s.len(),
{
    if s.len() > 0 {
        lemma_group_of_skips_other(s.drop_first(), m, n);
        if s[0].name != m {
            assert((seq![s[0]] + without_name(s.drop_first(), m)).drop_first()
                =~= without_name(s.drop_first(), m));
        }
    }
}

/// A name's group vanishes from its own remainder.
proof fn lemma_group_of_without_same(s: Seq<ArgoResourceV>, n: Seq<char>)
    ensures
        group_of(without_name(s, n), n) =~= Seq::<ArgoResourceV>::empty(),
    decreases s.len(),
{
    if s.len() > 0 {
        lemma_group_of_without_same(s.drop_first(), n);
        if s[0].name != n {
            assert((seq![s[0]] + without_name(s.drop_first(), n)).drop_first()
                =~= without_name(s.drop_first(), n));
        }
    }
}

/// Dropping two names commutes.
proof fn lemma_without_name_commutes(s: Seq<ArgoResourceV>, m: Seq<char>, n: Seq<char>)
    ensures
        without_name(without_name(s, m), n) =~= without_name(without_name(s, n), m),
    decreases s.len(),
{
    if s.len() > 0 {
        lemma_without_name_commutes(s.drop_first(), m, n);
        if s[0].name != m && s[0].name != n {
            assert((seq![s[0]] + without_name(s.drop_first(), m)).drop_first()
                =~= without_name(s.drop_first(), m));
            assert((seq![s[0]] + without_name(s.drop_first(), n)).drop_first()
                =~= without_name(s.drop_first(), n));
            assert(seq![s[0]] + without_name(without_name(s.drop_first(), m), n)
                =~= without_name(without_name(s, m), n));
        } else if s[0].name != m {
            assert((seq![s[0]] + without_name(s.drop_first(), m)).drop_first()
                =~= without_name(s.drop_first(), m));
        } else if s[0].name != n {
            assert((seq![s[0]] + without_name(s.drop_first(), n)).drop_first()
                =~= without_name(s.drop_first(), n));
        }
    }
}

/// Any present name's group can be taken out first: the assignment's
/// members do not depend on which name the recursion meets first.
proof fn lemma_unique_names_extract(s: Seq<ArgoResourceV>, n: Seq<char>)
    requires
        group_of(s, n).len() > 0,
    ensures
        unique_names_v(s).to_multiset() =~= renamed_group(
            group_of(s, n),
            n,
        ).to_multiset().add(unique_names_v(without_name(s, n)).to_multiset()),
    decreases s.len(),
{
    broadcast use vstd::seq_lib::group_to_multiset_ensures;
    broadcast use vstd::multiset::group_multiset_axioms;

    let m = s[0].name;
    if m == n {
        vstd::seq_lib::lemma_multiset_commutative(
            renamed_group(group_of(s, n), n),
            unique_names_v(without_name(s, n)),
        );
    } else {
        let w_m = without_name(s, m);
        let g_n = group_of(s, n);
        let g_m = group_of(s, m);
        assert(group_of(s.drop_first(), n) =~= g_n);
        lemma_group_of_skips_other(s, m, n);
        assert(group_of(w_m, n) =~= g_n);
        lemma_without_name_len(s, m);
        lemma_unique_names_extract(w_m, n);
        lemma_without_name_commutes(s, m, n);
        let ww = without_name(w_m, n);
        vstd::seq_lib::lemma_multiset_commutative(
            renamed_group(g_m, m),
            unique_names_v(w_m),
        );
        // The target side starts with this resource's own name.
        let w_n = without_name(s, n);
        assert(w_n =~= seq![s[0]] + without_name(s.drop_first(), n));
        assert(w_n[0].name == m);
        assert(w_n.len() > 0);
        lemma_group_of_skips_other(s, n, m);
        assert(group_of(w_n, m) =~= g_m);
        assert(unique_names_v(w_n) == renamed_group(group_of(w_n, w_n[0].name), w_n[0].name)
            + unique_names_v(without_name(w_n, w_n[0].name)));
        vstd::seq_lib::lemma_multiset_commutative(
            renamed_group(group_of(w_n, m), m),
            unique_names_v(without_name(w_n, m)),
        );
        assert(without_name(w_n, m) =~= ww);
    }
}

/// Whether every name group has pairwise distinct rendered texts: the
/// one input shape on which renaming could depend on arrival order.
pub open spec fn groups_have_distinct_keys(s: Seq<ArgoResourceV>) -> bool {
    forall|n: Seq<char>| #[trigger] distinct_keys(group_of(s, n))
}

/// Name deduplication is deterministic: two inputs holding the same
/// resources — in any order — are assigned the same names, as long as no
/// name group holds two members with the same rendered text.  (Two such
/// members would be told apart only by arrival order.)
pub proof fn lemma_unique_names_deterministic(s1: Seq<ArgoResourceV>, s2: Seq<ArgoResourceV>)
    requires
        s1.to_multiset() =~= s2.to_multiset(),
        groups_have_distinct_keys(s1),
    ensures
        unique_names_v(s1).to_multiset() =~= unique_names_v(s2).to_multiset(),
    decreases s1.len(),
{
    broadcast use vstd::seq_lib::group_to_multiset_ensures;
    broadcast use vstd::multiset::group_multiset_axioms;

    if s1.len() == 0 {
        assert(s2.to_multiset().len() == 0);
        assert(s2.len() == 0);
    } else {
        let n = s1[0].name;
        let g1 = group_of(s1, n);
        let g2 = group_of(s2, n);
        lemma_group_of_multiset(s1, n);
        lemma_group_of_multiset(s2, n);
        assert(g1.to_multiset() =~= g2.to_multiset());
        assert(g1.len() > 0);
        assert(g2.len() == g2.to_multiset().len());
        assert(g1.len() == g1.to_multiset().len());
        assert(g2.len() > 0);
        lemma_unique_names_extract(s2, n);
        // The group is renamed the same way on both sides.
        if g1.len() == 1 {
            assert(g2.to_multiset().count(g1[0]) > 0);
            assert(g2.contains(g1[0]));
            assert(g2 =~= g1);
        } else {
            assert(distinct_keys(group_of(s1, n)));
            lemma_renamed_group_order_independent(g1, g2, n);
        }
        assert(renamed_group(g1, n).to_multiset() =~= renamed_group(g2, n).to_multiset());
        // The remainders hold the same resources.
        let w1 = without_name(s1, n);
        let w2 = without_name(s2, n);
        lemma_without_name_multiset(s1, n);
        lemma_without_name_multiset(s2, n);
        assert(w1.to_multiset() =~= w2.to_multiset());
        assert(groups_have_distinct_keys(w1)) by {
            assert forall|nn: Seq<char>| #[trigger]
                distinct_keys(group_of(w1, nn)) by {
                if nn == n {
                    lemma_group_of_without_same(s1, n);
                } else {
                    lemma_group_of_skips_other(s1, n, nn);
                    assert(distinct_keys(group_of(s1, nn)));
                }
            }
        }
        lemma_without_name_len(s1, n);
        lemma_unique_names_deterministic(w1, w2);
        vstd::seq_lib::lemma_multiset_commutative(renamed_group(g1, n), unique_names_v(w1));
    }
}

/// The rendered text a resource sorts by.
fn render_key_of(a: &ArgoResource) -> (r: String)
    ensures
        r@ == render_key(a@),
{
    match a.as_string() {
        Some(s) => s,
        None => String::new(),
    }
}

/// Where a stable insertion puts `x`: behind every member whose key is
/// not above `x`'s.
proof fn lemma_ins_sorted_at(x: ArgoResourceV, s: Seq<ArgoResourceV>, j: int)
    requires
        0 <= j <= s.len(),
        forall|k: int| 0 <= k < j ==> lex_le(render_key(#[trigger] s[k]), render_key(x)),
        j < s.len() ==> !lex_le(render_key(s[j]), render_key(x)),
    ensures
        ins_sorted(x, s) =~= s.take(j) + seq![x] + s.skip(j),
    decreases j,
{
    if j == 0 {
        if s.len() == 0 {
            assert(s.take(0) + seq![x] + s.skip(0) =~= seq![x]);
        } else {
            assert(s.take(0) + seq![x] + s.skip(0) =~= seq![x] + s);
        }
    } else {
        lemma_ins_sorted_at(x, s.drop_first(), j - 1);
        assert(s.drop_first().take(j - 1) =~= s.take(j).drop_first());
        assert(s.drop_first().skip(j - 1) =~= s.skip(j));
        assert(seq![s[0]] + (s.take(j).drop_first() + seq![x] + s.skip(j)) =~= s.take(j)
            + seq![x] + s.skip(j));
    }
}

/// Rename one resource, rewriting its `metadata.name`.
fn rename_resource(a: ArgoResource, new_name: String) -> (r: ArgoResource)
    requires
        a.wf(),
    ensures
        r@ == renamed_v(a@, new_name@),
        r.wf(),
{
    let ArgoResource { yaml, kind, name: _, namespace, file_name } = a;
    let ghost doc0 = yaml@;
    let (hole, md_opt) = yaml.take("metadata");
    match md_opt {
        Some(md) => {
            let md2 = md.set("name", Yaml::Str(new_name.clone()));
            let y2 = hole.set("metadata", md2);
            proof {
                crate::yaml::lemma_set_set(doc0, "metadata"@, YamlV::Null, md2@);
                crate::yaml::lemma_get_set_same(doc0, "metadata"@, md2@);
            }
            ArgoResource { yaml: y2, kind, name: new_name, namespace, file_name }
        },
        None => {
            proof {
                assert(false);
            }
            ArgoResource { yaml: hole, kind, name: new_name, namespace, file_name }
        },
    }
}

/// Give every resource of one branch a collision-free name (see the
/// module description): deterministic given the branch's resources.
pub fn unique_names(apps: Vec<ArgoResource>) -> (r: Vec<ArgoResource>)
    requires
        forall|i: int| 0 <= i < apps@.len() ==> (#[trigger] apps@[i]).wf(),
    ensures
        argo_views(r@) == unique_names_v(argo_views(apps@)),
{
    let ghost s0 = argo_views(apps@);
    let mut rest = apps;
    let mut out: Vec<ArgoResource> = Vec::new();
    proof {
        assert(argo_views(out@) =~= Seq::<ArgoResourceV>::empty());
        assert(argo_views(out@) + unique_names_v(s0) =~= unique_names_v(s0));
        assert(argo_views(rest@) =~= s0);
    }
    while rest.len() > 0
        invariant
            unique_names_v(s0) =~= argo_views(out@) + unique_names_v(argo_views(rest@)),
            forall|i: int| 0 <= i < rest@.len() ==> (#[trigger] rest@[i]).wf(),
        decreases rest@.len(),
    {
        let ghost rv = argo_views(rest@);
        let n = rest[0].name.clone();
        proof {
            assert(rv[0] == rest@[0]@);
            assert(n@ == rv[0].name);
        }
        // Partition the remainder into this name's group and the rest.
        let mut group: Vec<ArgoResource> = Vec::new();
        let mut leftover: Vec<ArgoResource> = Vec::new();
        proof {
            assert(argo_views(group@) =~= Seq::<ArgoResourceV>::empty());
            assert(argo_views(leftover@) =~= Seq::<ArgoResourceV>::empty());
            assert(rv.skip(0) =~= rv);
            assert(argo_views(group@) + group_of(rv, n@) =~= group_of(rv, n@));
            assert(argo_views(leftover@) + without_name(rv, n@) =~= without_name(rv, n@));
        }
        let ghost total = rv.len();
        let mut i: usize = 0;
        while rest.len() > 0
            invariant
                n@ == rv[0].name,
                i + rest@.len() == total == rv.len(),
                total <= usize::MAX,
                argo_views(rest@) =~= rv.skip(i as int),
                group_of(rv, n@) =~= argo_views(group@) + group_of(rv.skip(i as int), n@),
                without_name(rv, n@) =~= argo_views(leftover@) + without_name(
                    rv.skip(i as int),
                    n@,
                ),
                forall|j: int| 0 <= j < rest@.len() ==> (#[trigger] rest@[j]).wf(),
                forall|j: int| 0 <= j < group@.len() ==> (#[trigger] group@[j]).wf(),
                forall|j: int| 0 <= j < leftover@.len() ==> (#[trigger] leftover@[j]).wf(),
            decreases rest@.len(),
        {
            let ghost old_rest = rest@;
            proof {
                assert(rv.skip(i as int).drop_first() =~= rv.skip(i + 1));
                assert(rv.skip(i as int)[0] == rv[i as int]);
                assert(argo_views(old_rest)[0] == old_rest[0]@);
            }
            let x = rest.remove(0);
            proof {
                assert(rest@ =~= old_rest.drop_first());
                assert(argo_views(rest@) =~= argo_views(old_rest).drop_first());
                assert(x@ == rv[i as int]);
            }
            if crate::strutil::eq_str(x.name.as_str(), n.as_str()) {
                let ghost pre = group@;
                group.push(x);
                proof {
                    assert(argo_views(group@) =~= argo_views(pre).push(rv[i as int]));
                    assert(argo_views(pre).push(rv[i as int]) + group_of(rv.skip(i + 1), n@)
                        =~= argo_views(pre) + group_of(rv.skip(i as int), n@));
                    assert(without_name(rv.skip(i as int), n@) =~= without_name(
                        rv.skip(i + 1),
                        n@,
                    ));
                }
            } else {
                let ghost pre = leftover@;
                leftover.push(x);
                proof {
                    assert(argo_views(leftover@) =~= argo_views(pre).push(rv[i as int]));
                    assert(argo_views(pre).push(rv[i as int]) + without_name(
                        rv.skip(i + 1),
                        n@,
                    ) =~= argo_views(pre) + without_name(rv.skip(i as int), n@));
                    assert(group_of(rv.skip(i as int), n@) =~= group_of(rv.skip(i + 1), n@));
                }
            }
            i += 1;
        }
        proof {
            assert(rv.skip(total as int) =~= Seq::<ArgoResourceV>::empty());
            assert(argo_views(group@) =~= group_of(rv, n@));
            assert(argo_views(leftover@) =~= without_name(rv, n@));
        }
        let ghost gv = argo_views(group@);
        let ghost pre_out = out@;
        if group.len() == 1 {
            match group.pop() {
                Some(single) => {
                    out.push(single);
                    proof {
                        assert(argo_views(out@) =~= argo_views(pre_out).push(gv[0]));
                        assert(renamed_group(gv, n@) =~= seq![gv[0]]);
                        assert(argo_views(pre_out).push(gv[0]) =~= argo_views(pre_out)
                            + renamed_group(gv, n@));
                    }
                },
                None => {
                    proof {
                        assert(false);
                    }
                },
            }
        } else {
            // Sort the group by rendered text, stably.
            let mut sorted: Vec<ArgoResource> = Vec::new();
            proof {
                assert(argo_views(sorted@) =~= Seq::<ArgoResourceV>::empty());
                assert(sort_rec(gv, argo_views(sorted@)) == sort_by_render(gv));
                assert(argo_views(group@) =~= gv.skip(0));
            }
            let ghost gtotal = gv.len();
            let mut gi: usize = 0;
            while group.len() > 0
                invariant
                    gi + group@.len() == gtotal == gv.len(),
                    gtotal <= usize::MAX,
                    argo_views(group@) =~= gv.skip(gi as int),
                    sort_rec(gv.skip(gi as int), argo_views(sorted@)) == sort_by_render(gv),
                    forall|j: int| 0 <= j < group@.len() ==> (#[trigger] group@[j]).wf(),
                    forall|j: int| 0 <= j < sorted@.len() ==> (#[trigger] sorted@[j]).wf(),
                decreases group@.len(),
            {
                let ghost old_group = group@;
                proof {
                    assert(gv.skip(gi as int).drop_first() =~= gv.skip(gi + 1));
                    assert(gv.skip(gi as int)[0] == gv[gi as int]);
                    assert(argo_views(old_group)[0] == old_group[0]@);
                }
                let x = group.remove(0);
                proof {
                    assert(group@ =~= old_group.drop_first());
                    assert(argo_views(group@) =~= argo_views(old_group).drop_first());
                    assert(x@ == gv[gi as int]);
                }
                let xkey = render_key_of(&x);
                let mut j: usize = 0;
                while j < sorted.len()
                    invariant
                        xkey@ == render_key(x@),
                        j <= sorted@.len(),
                        forall|k: int|
                            0 <= k < j ==> lex_le(
                                render_key(#[trigger] argo_views(sorted@)[k]),
                                render_key(x@),
                            ),
                    ensures
                        j <= sorted@.len(),
                        forall|k: int|
                            0 <= k < j ==> lex_le(
                                render_key(#[trigger] argo_views(sorted@)[k]),
                                render_key(x@),
                            ),
                        j < sorted@.len() ==> !lex_le(
                            render_key(argo_views(sorted@)[j as int]),
                            render_key(x@),
                        ),
                    decreases sorted@.len() - j,
                {
                    proof {
                        assert(argo_views(sorted@)[j as int] == sorted@[j as int]@);
                    }
                    let jkey = render_key_of(&sorted[j]);
                    if !str_le(jkey.as_str(), xkey.as_str()) {
                        break;
                    }
                    j += 1;
                }
                let ghost pre_sorted = argo_views(sorted@);
                proof {
                    lemma_ins_sorted_at(x@, pre_sorted, j as int);
                }
                sorted.insert(j, x);
                proof {
                    assert(argo_views(sorted@) =~= pre_sorted.take(j as int) + seq![x@]
                        + pre_sorted.skip(j as int));
                    assert(argo_views(sorted@) =~= ins_sorted(gv[gi as int], pre_sorted));
                }
                gi += 1;
            }
            proof {
                assert(gv.skip(gtotal as int) =~= Seq::<ArgoResourceV>::empty());
                assert(argo_views(sorted@) == sort_by_render(gv));
            }
            // Rename in sorted order.
            let ghost sv = argo_views(sorted@);
            let sorted_count = sorted.len();
            proof {
                assert(sorted_count == sv.len());
                assert(argo_views(sorted@) =~= sv.skip(0));
            }
            let ghost stotal = sv.len();
            let mut si: usize = 0;
            while sorted.len() > 0
                invariant
                    si + sorted@.len() == stotal == sv.len(),
                    stotal <= usize::MAX,
                    argo_views(sorted@) =~= sv.skip(si as int),
                    sv == sort_by_render(gv),
                    n@ == rv[0].name,
                    gv.len() != 1,
                    out@.len() == pre_out.len() + si,
                    forall|j: int|
                        0 <= j < pre_out.len() ==> #[trigger] argo_views(out@)[j] == argo_views(
                            pre_out,
                        )[j],
                    forall|j: int|
                        0 <= j < si ==> #[trigger] argo_views(out@)[pre_out.len() + j]
                            == renamed_v(sv[j], indexed_name(n@, (j + 1) as nat)),
                    forall|j: int| 0 <= j < sorted@.len() ==> (#[trigger] sorted@[j]).wf(),
                decreases sorted@.len(),
            {
                let ghost old_sorted = sorted@;
                proof {
                    assert(sv.skip(si as int).drop_first() =~= sv.skip(si + 1));
                    assert(sv.skip(si as int)[0] == sv[si as int]);
                    assert(argo_views(old_sorted)[0] == old_sorted[0]@);
                }
                let x = sorted.remove(0);
                proof {
                    assert(sorted@ =~= old_sorted.drop_first());
                    assert(argo_views(sorted@) =~= argo_views(old_sorted).drop_first());
                    assert(x@ == sv[si as int]);
                }
                let mut new_name = n.clone();
                new_name.append("-");
                new_name.append(crate::strutil::u64_to_dec((si as u64) + 1).as_str());
                proof {
                    assert(new_name@ == indexed_name(n@, (si + 1) as nat));
                }
                let ghost before = out@;
                let renamed = rename_resource(x, new_name);
                out.push(renamed);
                proof {
                    assert(argo_views(out@)[before.len() as int] == out@[before.len() as int]@);
                    assert(forall|j: int|
                        0 <= j < before.len() ==> #[trigger] argo_views(out@)[j] == argo_views(
                            before,
                        )[j]);
                }
                si += 1;
            }
            proof {
                assert(sv.skip(stotal as int) =~= Seq::<ArgoResourceV>::empty());
                assert(renamed_group(gv, n@).len() == sv.len());
                assert forall|k: int|
                    0 <= k < argo_views(out@).len() implies argo_views(out@)[k] == (argo_views(
                    pre_out,
                ) + renamed_group(gv, n@))[k] by {
                    if k >= pre_out.len() {
                        let j = k - pre_out.len();
                        assert(argo_views(out@)[pre_out.len() + j] == renamed_v(
                            sv[j],
                            indexed_name(n@, (j + 1) as nat),
                        ));
                        assert(renamed_group(gv, n@)[j] == renamed_v(
                            sv[j],
                            indexed_name(n@, (j + 1) as nat),
                        ));
                    }
                }
                assert(argo_views(out@) =~= argo_views(pre_out) + renamed_group(gv, n@));
            }
        }
        rest = leftover;
        proof {
            lemma_without_name_len(rv, n@);
            assert(unique_names_v(rv) =~= renamed_group(group_of(rv, n@), rv[0].name)
                + unique_names_v(without_name(rv, n@)));
            assert(argo_views(out@) + unique_names_v(argo_views(rest@)) =~= argo_views(pre_out)
                + renamed_group(gv, n@) + unique_names_v(without_name(rv, n@)));
        }
    }
    proof {
        assert(unique_names_v(argo_views(rest@)) =~= Seq::<ArgoResourceV>::empty());
        assert(argo_views(out@) + unique_names_v(argo_views(rest@)) =~= argo_views(out@));
    }
    out
}

} // verus!
