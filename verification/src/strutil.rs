//! Verified text helpers.
//!
//! The engine compares, searches, trims, splits and joins pieces of text
//! taken from YAML documents and configuration strings.  Every helper here
//! is specified against a direct mathematical statement over `Seq<char>`.

use vstd::prelude::*;
use vstd::string::StrSliceExecFns;
use vstd::string::StringExecFns;

verus! {

/// `n` occurs in `h` starting at position `i`.
pub open spec fn matches_at(h: Seq<char>, n: Seq<char>, i: int) -> bool {
    0 <= i && i + n.len() <= h.len() && h.subrange(i, i + n.len()) == n
}

/// `n` occurs somewhere in `h`.
pub open spec fn contains_seq(h: Seq<char>, n: Seq<char>) -> bool {
    exists|i: int| matches_at(h, n, i)
}

/// Equality of two string slices, decided character by character.
pub fn eq_str(a: &str, b: &str) -> (r: bool)
    ensures
        r == (a@ == b@),
{
    let alen = a.unicode_len();
    let blen = b.unicode_len();
    if alen != blen {
        return false;
    }
    let mut i: usize = 0;
    while i < alen
        invariant
            alen == a@.len(),
            alen == b@.len(),
            i <= alen,
            forall|j: int| 0 <= j < i ==> a@[j] == b@[j],
        decreases alen - i,
    {
        if a.get_char(i) != b.get_char(i) {
            return false;
        }
        i += 1;
    }
    proof {
        assert(a@ =~= b@);
    }
    true
}

/// Whether `n` occurs in `h` at position `i`.
fn match_at(h: &str, n: &str, i: usize, hlen: usize, nlen: usize) -> (r: bool)
    requires
        hlen == h@.len(),
        nlen == n@.len(),
        i + nlen <= hlen,
    ensures
        r == matches_at(h@, n@, i as int),
{
    let mut j: usize = 0;
    while j < nlen
        invariant
            hlen == h@.len(),
            nlen == n@.len(),
            i + nlen <= hlen,
            j <= nlen,
            forall|k: int| 0 <= k < j ==> h@[i + k] == n@[k],
        decreases nlen - j,
    {
        if h.get_char(i + j) != n.get_char(j) {
            assert(h@.subrange(i as int, i + n@.len())[j as int] != n@[j as int]);
            return false;
        }
        j += 1;
    }
    proof {
        assert(h@.subrange(i as int, i + n@.len()) =~= n@);
    }
    true
}

/// Substring search: whether `n` occurs anywhere in `h`.
pub fn contains_sub(h: &str, n: &str) -> (r: bool)
    ensures
        r == contains_seq(h@, n@),
{
    let hlen = h.unicode_len();
    let nlen = n.unicode_len();
    if nlen > hlen {
        return false;
    }
    if nlen == 0 {
        proof {
            assert(matches_at(h@, n@, 0)) by {
                assert(h@.subrange(0, 0) =~= n@);
            }
        }
        return true;
    }
    let mut i: usize = 0;
    while i <= hlen - nlen
        invariant
            hlen == h@.len(),
            nlen == n@.len(),
            0 < nlen <= hlen,
            i <= hlen - nlen + 1,
            forall|k: int| 0 <= k < i ==> !matches_at(h@, n@, k),
        decreases hlen - nlen - i + 1,
    {
        if match_at(h, n, i, hlen, nlen) {
            return true;
        }
        i += 1;
    }
    false
}

/// Whether `h` ends with `n`.
pub fn ends_with_sub(h: &str, n: &str) -> (r: bool)
    ensures
        r == (h@.len() >= n@.len() && h@.subrange(h@.len() - n@.len(), h@.len() as int) == n@),
{
    let hlen = h.unicode_len();
    let nlen = n.unicode_len();
    if nlen > hlen {
        return false;
    }
    match_at(h, n, hlen - nlen, hlen, nlen)
}

/// Whether the vector holds a string with the given text.
pub fn contains_string(v: &Vec<String>, s: &str) -> (r: bool)
    ensures
        r == v.deep_view().contains(s@),
{
    let mut i: usize = 0;
    while i < v.len()
        invariant
            i <= v@.len(),
            forall|j: int| 0 <= j < i ==> v.deep_view()[j] != s@,
        decreases v@.len() - i,
    {
        if eq_str(v[i].as_str(), s) {
            assert(v.deep_view()[i as int] == s@);
            return true;
        }
        i += 1;
    }
    false
}

/// The characters that `str::trim` strips: the Unicode `White_Space` set.
pub open spec fn is_ws(c: char) -> bool {
    c == ' ' || c == '\t' || c == '\n' || c == '\u{000B}' || c == '\u{000C}' || c == '\r'
        || c == '\u{0085}' || c == '\u{00A0}' || c == '\u{1680}' || c == '\u{2000}'
        || c == '\u{2001}' || c == '\u{2002}' || c == '\u{2003}' || c == '\u{2004}'
        || c == '\u{2005}' || c == '\u{2006}' || c == '\u{2007}' || c == '\u{2008}'
        || c == '\u{2009}' || c == '\u{200A}' || c == '\u{2028}' || c == '\u{2029}'
        || c == '\u{202F}' || c == '\u{205F}' || c == '\u{3000}'
}

pub open spec fn trim_front_s(s: Seq<char>) -> Seq<char>
    decreases s.len(),
{
    if s.len() > 0 && is_ws(s[0]) {
        trim_front_s(s.drop_first())
    } else {
        s
    }
}

pub open spec fn trim_back_s(s: Seq<char>) -> Seq<char>
    decreases s.len(),
{
    if s.len() > 0 && is_ws(s.last()) {
        trim_back_s(s.drop_last())
    } else {
        s
    }
}

/// What `str::trim` returns: the text with leading and trailing whitespace
/// stripped.
pub open spec fn trimmed(s: Seq<char>) -> Seq<char> {
    trim_back_s(trim_front_s(s))
}

fn is_ws_char(c: char) -> (r: bool)
    ensures
        r == is_ws(c),
{
    c == ' ' || c == '\t' || c == '\n' || c == '\u{000B}' || c == '\u{000C}' || c == '\r'
        || c == '\u{0085}' || c == '\u{00A0}' || c == '\u{1680}' || c == '\u{2000}'
        || c == '\u{2001}' || c == '\u{2002}' || c == '\u{2003}' || c == '\u{2004}'
        || c == '\u{2005}' || c == '\u{2006}' || c == '\u{2007}' || c == '\u{2008}'
        || c == '\u{2009}' || c == '\u{200A}' || c == '\u{2028}' || c == '\u{2029}'
        || c == '\u{202F}' || c == '\u{205F}' || c == '\u{3000}'
}

/// Strip leading and trailing whitespace.
pub fn trim(s: &str) -> (r: &str)
    ensures
        r@ == trimmed(s@),
{
    let len = s.unicode_len();
    let mut a: usize = 0;
    proof {
        assert(s@.skip(0) =~= s@);
    }
    while a < len && is_ws_char(s.get_char(a))
        invariant
            len == s@.len(),
            a <= len,
            trim_front_s(s@) == trim_front_s(s@.skip(a as int)),
        decreases len - a,
    {
        proof {
            assert(s@.skip(a as int).drop_first() =~= s@.skip(a + 1));
        }
        a += 1;
    }
    proof {
        assert(trim_front_s(s@.skip(a as int)) == s@.skip(a as int));
    }
    let mut b: usize = len;
    while b > a && is_ws_char(s.get_char(b - 1))
        invariant
            len == s@.len(),
            a <= b <= len,
            trim_front_s(s@) == trim_front_s(s@.skip(a as int)),
            trim_front_s(s@.skip(a as int)) == s@.skip(a as int),
            trim_back_s(s@.subrange(a as int, len as int)) == trim_back_s(
                s@.subrange(a as int, b as int),
            ),
        decreases b,
    {
        proof {
            assert(s@.subrange(a as int, b as int).drop_last() =~= s@.subrange(
                a as int,
                b - 1,
            ));
        }
        b -= 1;
    }
    proof {
        assert(s@.skip(a as int) =~= s@.subrange(a as int, len as int));
        assert(trim_back_s(s@.subrange(a as int, b as int)) == s@.subrange(a as int, b as int));
    }
    s.substring_char(a, b)
}

/// Strip leading whitespace only.
pub fn trim_start(s: &str) -> (r: &str)
    ensures
        r@ == trim_front_s(s@),
{
    let len = s.unicode_len();
    let mut a: usize = 0;
    proof {
        assert(s@.skip(0) =~= s@);
    }
    while a < len && is_ws_char(s.get_char(a))
        invariant
            len == s@.len(),
            a <= len,
            trim_front_s(s@) == trim_front_s(s@.skip(a as int)),
        decreases len - a,
    {
        proof {
            assert(s@.skip(a as int).drop_first() =~= s@.skip(a + 1));
        }
        a += 1;
    }
    proof {
        assert(trim_front_s(s@.skip(a as int)) == s@.skip(a as int));
        assert(s@.skip(a as int) =~= s@.subrange(a as int, len as int));
    }
    s.substring_char(a, len)
}

/// Strip trailing whitespace only.
pub fn trim_end(s: &str) -> (r: &str)
    ensures
        r@ == trim_back_s(s@),
{
    let len = s.unicode_len();
    let mut b: usize = len;
    proof {
        assert(s@.subrange(0, len as int) =~= s@);
    }
    while b > 0 && is_ws_char(s.get_char(b - 1))
        invariant
            len == s@.len(),
            b <= len,
            trim_back_s(s@) == trim_back_s(s@.subrange(0, b as int)),
        decreases b,
    {
        proof {
            assert(s@.subrange(0, b as int).drop_last() =~= s@.subrange(0, b - 1));
        }
        b -= 1;
    }
    proof {
        assert(trim_back_s(s@.subrange(0, b as int)) == s@.subrange(0, b as int));
    }
    s.substring_char(0, b)
}

/// Splitting on a non-empty pattern, leftmost match first, no overlap:
/// the parts between the occurrences of `pat`, in order.
pub open spec fn split_s(s: Seq<char>, pat: Seq<char>) -> Seq<Seq<char>>
    decreases s.len(),
    when pat.len() > 0
{
    if s.len() < pat.len() {
        seq![s]
    } else if s.subrange(0, pat.len() as int) == pat {
        seq![Seq::empty()] + split_s(s.skip(pat.len() as int), pat)
    } else {
        let rest = split_s(s.drop_first(), pat);
        seq![seq![s[0]] + rest[0]] + rest.drop_first()
    }
}

pub proof fn lemma_split_len(s: Seq<char>, pat: Seq<char>)
    requires
        pat.len() > 0,
    ensures
        split_s(s, pat).len() >= 1,
    decreases s.len(),
{
    if s.len() < pat.len() {
    } else if s.subrange(0, pat.len() as int) == pat {
        lemma_split_len(s.skip(pat.len() as int), pat);
    } else {
        lemma_split_len(s.drop_first(), pat);
    }
}

/// A sequence with no occurrence of `pat` splits into itself alone.
proof fn lemma_split_no_match(s: Seq<char>, pat: Seq<char>)
    requires
        pat.len() > 0,
        forall|i: int| !matches_at(s, pat, i),
    ensures
        split_s(s, pat) =~= seq![s],
    decreases s.len(),
{
    if s.len() < pat.len() {
    } else if s.subrange(0, pat.len() as int) == pat {
        assert(matches_at(s, pat, 0));
    } else {
        assert forall|i: int| !matches_at(s.drop_first(), pat, i) by {
            if matches_at(s.drop_first(), pat, i) {
                assert(s.drop_first().subrange(i, i + pat.len()) =~= s.subrange(
                    i + 1,
                    i + 1 + pat.len(),
                ));
                assert(matches_at(s, pat, i + 1));
            }
        }
        lemma_split_no_match(s.drop_first(), pat);
        assert(seq![s[0]] + s.drop_first() =~= s);
    }
}

/// Splitting at the first occurrence of `pat`.
proof fn lemma_split_first(s: Seq<char>, pat: Seq<char>, i: int)
    requires
        pat.len() > 0,
        matches_at(s, pat, i),
        forall|j: int| 0 <= j < i ==> !matches_at(s, pat, j),
    ensures
        split_s(s, pat) =~= seq![s.take(i)] + split_s(s.skip(i + pat.len()), pat),
    decreases s.len(),
{
    if i == 0 {
        assert(s.subrange(0, pat.len() as int) == pat);
        assert(s.take(0) =~= Seq::<char>::empty());
    } else {
        assert(!matches_at(s, pat, 0));
        if s.len() >= pat.len() {
            assert(s.subrange(0, pat.len() as int) != pat);
        }
        let t = s.drop_first();
        assert(t.subrange(i - 1, i - 1 + pat.len()) =~= s.subrange(i, i + pat.len()));
        assert(matches_at(t, pat, i - 1));
        assert forall|j: int| 0 <= j < i - 1 implies !matches_at(t, pat, j) by {
            if matches_at(t, pat, j) {
                assert(t.subrange(j, j + pat.len()) =~= s.subrange(j + 1, j + 1 + pat.len()));
                assert(matches_at(s, pat, j + 1));
            }
        }
        lemma_split_first(t, pat, i - 1);
        lemma_split_len(t.skip(i - 1 + pat.len()), pat);
        assert(t.take(i - 1) =~= s.take(i).drop_first());
        assert(t.skip(i - 1 + pat.len()) =~= s.skip(i + pat.len()));
        assert(seq![s[0]] + s.take(i).drop_first() =~= s.take(i));
    }
}

/// Find the first occurrence of `pat` in `s` at or after `from`.
fn find_from(s: &str, pat: &str, from: usize, len: usize, plen: usize) -> (r: Option<usize>)
    requires
        len == s@.len(),
        plen == pat@.len(),
        plen > 0,
        from <= len,
    ensures
        match r {
            Some(i) => from <= i && matches_at(s@, pat@, i as int) && forall|j: int|
                from <= j < i ==> !matches_at(s@, pat@, j),
            None => forall|j: int| from <= j ==> !matches_at(s@, pat@, j),
        },
    decreases len - from,
{
    if plen > len - from {
        return None;
    }
    let mut i: usize = from;
    while i <= len - plen
        invariant
            len == s@.len(),
            plen == pat@.len(),
            0 < plen <= len - from,
            from <= i <= len - plen + 1,
            forall|j: int| from <= j < i ==> !matches_at(s@, pat@, j),
        decreases len - plen - i + 1,
    {
        if match_at(s, pat, i, len, plen) {
            return Some(i);
        }
        i += 1;
    }
    None
}

/// Split `s` on every occurrence of the non-empty pattern `pat`.
pub fn split_all(s: &str, pat: &str) -> (r: Vec<String>)
    requires
        pat@.len() > 0,
    ensures
        r.deep_view() == split_s(s@, pat@),
{
    let len = s.unicode_len();
    let plen = pat.unicode_len();
    let mut parts: Vec<String> = Vec::new();
    let mut from: usize = 0;
    proof {
        assert(parts.deep_view() =~= Seq::<Seq<char>>::empty());
        assert(s@.skip(0) =~= s@);
        assert(parts.deep_view() + split_s(s@, pat@) =~= split_s(s@, pat@));
    }
    loop
        invariant
            len == s@.len(),
            plen == pat@.len(),
            plen > 0,
            from <= len,
            split_s(s@, pat@) =~= parts.deep_view() + split_s(s@.skip(from as int), pat@),
        decreases len - from,
    {
        match find_from(s, pat, from, len, plen) {
            None => {
                let tail = s.substring_char(from, len);
                let ghost old_parts = parts.deep_view();
                parts.push(tail.to_owned());
                proof {
                    let t = s@.skip(from as int);
                    assert forall|j: int| !matches_at(t, pat@, j) by {
                        if matches_at(t, pat@, j) {
                            assert(t.subrange(j, j + pat@.len()) =~= s@.subrange(
                                from + j,
                                from + j + pat@.len(),
                            ));
                            assert(matches_at(s@, pat@, from + j));
                        }
                    }
                    lemma_split_no_match(t, pat@);
                    assert(t =~= s@.subrange(from as int, len as int));
                    assert(parts.deep_view() =~= old_parts + seq![t]);
                }
                return parts;
            },
            Some(i) => {
                let part = s.substring_char(from, i);
                let ghost old_parts = parts.deep_view();
                parts.push(part.to_owned());
                proof {
                    let t = s@.skip(from as int);
                    assert(t.subrange(i - from, i - from + pat@.len()) =~= s@.subrange(
                        i as int,
                        i + pat@.len(),
                    ));
                    assert(matches_at(t, pat@, i - from));
                    assert forall|j: int| 0 <= j < i - from implies !matches_at(t, pat@, j) by {
                        if matches_at(t, pat@, j) {
                            assert(t.subrange(j, j + pat@.len()) =~= s@.subrange(
                                from + j,
                                from + j + pat@.len(),
                            ));
                            assert(matches_at(s@, pat@, from + j));
                        }
                    }
                    lemma_split_first(t, pat@, i - from);
                    assert(t.take(i - from) =~= s@.subrange(from as int, i as int));
                    assert(t.skip(i - from + pat@.len()) =~= s@.skip(i + pat@.len()));
                    assert(parts.deep_view() =~= old_parts + seq![s@.subrange(
                        from as int,
                        i as int,
                    )]);
                }
                from = i + plen;
            },
        }
    }
}

/// Replace every occurrence of `pat` by `rep`: the parts between the
/// occurrences, joined with the replacement.
pub fn replace_all(s: &str, pat: &str, rep: &str) -> (r: String)
    requires
        pat@.len() > 0,
    ensures
        r@ == join_s(split_s(s@, pat@), rep@),
{
    let parts = split_all(s, pat);
    join_with(&parts, rep)
}

/// Joining parts with a separator, the inverse shape of [`split_s`].
pub open spec fn join_s(parts: Seq<Seq<char>>, sep: Seq<char>) -> Seq<char>
    decreases parts.len(),
{
    if parts.len() == 0 {
        Seq::empty()
    } else if parts.len() == 1 {
        parts[0]
    } else {
        parts[0] + sep + join_s(parts.drop_first(), sep)
    }
}

proof fn lemma_join_push(parts: Seq<Seq<char>>, sep: Seq<char>, x: Seq<char>)
    requires
        parts.len() > 0,
    ensures
        join_s(parts.push(x), sep) =~= join_s(parts, sep) + sep + x,
    decreases parts.len(),
{
    if parts.len() == 1 {
        assert(parts.push(x).drop_first() =~= seq![x]);
        assert(parts.push(x)[0] == parts[0]);
        assert(join_s(seq![x], sep) == seq![x][0]);
        assert(seq![x][0] == x);
    } else {
        lemma_join_push(parts.drop_first(), sep, x);
        assert(parts.push(x).drop_first() =~= parts.drop_first().push(x));
        assert(parts.push(x)[0] == parts[0]);
    }
}

/// Join the given parts with a separator.
pub fn join_with(v: &Vec<String>, sep: &str) -> (r: String)
    ensures
        r@ == join_s(v.deep_view(), sep@),
{
    let mut out = String::new();
    let mut i: usize = 0;
    while i < v.len()
        invariant
            i <= v.len(),
            out@ == join_s(v.deep_view().take(i as int), sep@),
        decreases v.len() - i,
    {
        let ghost done = v.deep_view().take(i as int);
        if i > 0 {
            out.append(sep);
        }
        out.append(v[i].as_str());
        proof {
            if i == 0 {
                assert(v.deep_view().take(1)[0] == v.deep_view()[0]);
            } else {
                lemma_join_push(done, sep@, v.deep_view()[i as int]);
            }
            assert(v.deep_view().take(i + 1) =~= done.push(v.deep_view()[i as int]));
        }
        i += 1;
    }
    proof {
        assert(v.deep_view().take(v.len() as int) =~= v.deep_view());
    }
    out
}

pub open spec fn dec_digit(d: int) -> char {
    if d == 0 {
        '0'
    } else if d == 1 {
        '1'
    } else if d == 2 {
        '2'
    } else if d == 3 {
        '3'
    } else if d == 4 {
        '4'
    } else if d == 5 {
        '5'
    } else if d == 6 {
        '6'
    } else if d == 7 {
        '7'
    } else if d == 8 {
        '8'
    } else {
        '9'
    }
}

/// The decimal rendering of `n`, most significant digit first.
pub open spec fn dec_str(n: nat) -> Seq<char>
    decreases n,
{
    if n < 10 {
        seq![dec_digit(n as int)]
    } else {
        dec_str(n / 10).push(dec_digit((n % 10) as int))
    }
}

fn digit_str(d: u64) -> (r: &'static str)
    requires
        d < 10,
    ensures
        r@ =~= seq![dec_digit(d as int)],
{
    proof {
        reveal_strlit("0");
        reveal_strlit("1");
        reveal_strlit("2");
        reveal_strlit("3");
        reveal_strlit("4");
        reveal_strlit("5");
        reveal_strlit("6");
        reveal_strlit("7");
        reveal_strlit("8");
        reveal_strlit("9");
    }
    if d == 0 {
        "0"
    } else if d == 1 {
        "1"
    } else if d == 2 {
        "2"
    } else if d == 3 {
        "3"
    } else if d == 4 {
        "4"
    } else if d == 5 {
        "5"
    } else if d == 6 {
        "6"
    } else if d == 7 {
        "7"
    } else if d == 8 {
        "8"
    } else {
        "9"
    }
}

/// Render `n` in decimal.
pub fn u64_to_dec(n: u64) -> (r: String)
    ensures
        r@ == dec_str(n as nat),
    decreases n,
{
    if n < 10 {
        digit_str(n).to_owned()
    } else {
        let mut s = u64_to_dec(n / 10);
        s.append(digit_str(n % 10));
        proof {
            assert(s@ =~= dec_str((n / 10) as nat).push(dec_digit((n % 10) as int)));
        }
        s
    }
}

/// What `str::to_lowercase` returns; the result depends on the characters
/// alone.
pub uninterp spec fn lower_of(s: Seq<char>) -> Seq<char>;

/// Relies on `str::to_lowercase`: Unicode lowercasing of the text.
#[verifier::external_body]
pub(crate) fn lowercase(s: &str) -> (r: String)
    ensures
        r@ == lower_of(s@),
{
    s.to_lowercase()
}

/// Case-insensitive containment, written the way the engine uses it: the
/// lowercased needle occurs somewhere in the lowercased haystack.
pub open spec fn ci_contains(h: Seq<char>, n: Seq<char>) -> bool {
    contains_seq(lower_of(h), lower_of(n))
}

pub fn ci_contains_str(h: &str, n: &str) -> (r: bool)
    ensures
        r == ci_contains(h@, n@),
{
    let hl = lowercase(h);
    let nl = lowercase(n);
    contains_sub(hl.as_str(), nl.as_str())
}

} // verus!
