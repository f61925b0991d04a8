//! A typed YAML document tree and its mathematical model.
//!
//! The engine works on semi-structured Kubernetes manifests.  Instead of
//! indexing an untyped outside value, documents are held in the [`Yaml`]
//! enum, whose ghost counterpart [`YamlV`] (reached through `@`) carries the
//! same tree over `Seq<char>` keys, so that contracts can speak about
//! lookups and updates directly.
//!
//! Mapping entries keep their textual key and preserve insertion order;
//! lookups find the first entry with a matching key.

use vstd::prelude::*;
use vstd::string::StringExecFns;

verus! {

/// One YAML document (or a subtree of one).
///
/// Scalar numbers are kept as their decimal text: the engine never computes
/// with them, it only carries them through.
pub enum Yaml {
    Null,
    Bool(bool),
    Num(String),
    Str(String),
    List(Vec<Yaml>),
    Mapping(Vec<(String, Yaml)>),
}

/// The ghost view of a [`Yaml`] tree: the same shape over sequences.
pub enum YamlV {
    Null,
    Bool(bool),
    Num(Seq<char>),
    Str(Seq<char>),
    List(Seq<YamlV>),
    Mapping(Seq<(Seq<char>, YamlV)>),
}

/// The views of the elements of a list of subtrees.
pub open spec fn elems_of(xs: Seq<Yaml>) -> Seq<YamlV>
    decreases xs,
{
    Seq::new(
        xs.len(),
        |i: int|
            if 0 <= i < xs.len() {
                xs[i]@
            } else {
                YamlV::Null
            },
    )
}

/// The views of the entries of a mapping.
pub open spec fn ents_of(m: Seq<(String, Yaml)>) -> Seq<(Seq<char>, YamlV)>
    decreases m,
{
    Seq::new(
        m.len(),
        |i: int|
            if 0 <= i < m.len() {
                (m[i].0@, m[i].1@)
            } else {
                (Seq::empty(), YamlV::Null)
            },
    )
}

impl View for Yaml {
    type V = YamlV;

    open spec fn view(&self) -> YamlV
        decreases self,
    {
        match self {
            Yaml::Null => YamlV::Null,
            Yaml::Bool(b) => YamlV::Bool(*b),
            Yaml::Num(s) => YamlV::Num(s@),
            Yaml::Str(s) => YamlV::Str(s@),
            Yaml::List(xs) => YamlV::List(elems_of(xs@)),
            Yaml::Mapping(m) => YamlV::Mapping(ents_of(m@)),
        }
    }
}

/// The value bound to key `k`: the first entry whose key matches.
pub open spec fn m_get_v(m: Seq<(Seq<char>, YamlV)>, k: Seq<char>) -> Option<YamlV>
    decreases m.len(),
{
    if m.len() == 0 {
        None
    } else if m[0].0 == k {
        Some(m[0].1)
    } else {
        m_get_v(m.drop_first(), k)
    }
}

/// The entries with the binding of `k` replaced by `v`, or appended if the
/// key was absent.
pub open spec fn m_set_v(m: Seq<(Seq<char>, YamlV)>, k: Seq<char>, v: YamlV) -> Seq<
    (Seq<char>, YamlV),
>
    decreases m.len(),
{
    if m.len() == 0 {
        seq![(k, v)]
    } else if m[0].0 == k {
        seq![(m[0].0, v)] + m.drop_first()
    } else {
        seq![m[0]] + m_set_v(m.drop_first(), k, v)
    }
}

/// The entries with the binding of `k` removed (the first one, which is the
/// only one in a document with unique keys).
pub open spec fn m_remove_v(m: Seq<(Seq<char>, YamlV)>, k: Seq<char>) -> Seq<(Seq<char>, YamlV)>
    decreases m.len(),
{
    if m.len() == 0 {
        m
    } else if m[0].0 == k {
        m.drop_first()
    } else {
        seq![m[0]] + m_remove_v(m.drop_first(), k)
    }
}

/// Lookup of key `k` in a tree: `None` on anything but a mapping.
pub open spec fn get_v(y: YamlV, k: Seq<char>) -> Option<YamlV> {
    match y {
        YamlV::Mapping(m) => m_get_v(m, k),
        _ => None,
    }
}

pub open spec fn has_v(y: YamlV, k: Seq<char>) -> bool {
    get_v(y, k) is Some
}

/// The tree with the binding of `k` set to `v`; anything but a mapping is
/// left as it is.
pub open spec fn set_v(y: YamlV, k: Seq<char>, v: YamlV) -> YamlV {
    match y {
        YamlV::Mapping(m) => YamlV::Mapping(m_set_v(m, k, v)),
        _ => y,
    }
}

/// The tree with the binding of `k` removed; anything but a mapping is left
/// as it is.
pub open spec fn remove_v(y: YamlV, k: Seq<char>) -> YamlV {
    match y {
        YamlV::Mapping(m) => YamlV::Mapping(m_remove_v(m, k)),
        _ => y,
    }
}

/// The text of a string scalar.
pub open spec fn str_v(y: YamlV) -> Option<Seq<char>> {
    match y {
        YamlV::Str(s) => Some(s),
        _ => None,
    }
}

/// Lookup of `k` expecting a string scalar.
pub open spec fn get_str_v(y: YamlV, k: Seq<char>) -> Option<Seq<char>> {
    match get_v(y, k) {
        Some(v) => str_v(v),
        None => None,
    }
}

/// Lookup two levels deep.
pub open spec fn get2_v(y: YamlV, k1: Seq<char>, k2: Seq<char>) -> Option<YamlV> {
    match get_v(y, k1) {
        Some(v) => get_v(v, k2),
        None => None,
    }
}

/// Lookup three levels deep.
pub open spec fn get3_v(y: YamlV, k1: Seq<char>, k2: Seq<char>, k3: Seq<char>) -> Option<YamlV> {
    match get2_v(y, k1, k2) {
        Some(v) => get_v(v, k3),
        None => None,
    }
}

proof fn lemma_m_get_found(m: Seq<(Seq<char>, YamlV)>, k: Seq<char>, i: int)
    requires
        0 <= i < m.len(),
        m[i].0 == k,
        forall|j: int| 0 <= j < i ==> m[j].0 != k,
    ensures
        m_get_v(m, k) == Some(m[i].1),
    decreases i,
{
    if i > 0 {
        lemma_m_get_found(m.drop_first(), k, i - 1);
    }
}

proof fn lemma_m_get_none(m: Seq<(Seq<char>, YamlV)>, k: Seq<char>)
    requires
        forall|j: int| 0 <= j < m.len() ==> m[j].0 != k,
    ensures
        m_get_v(m, k) is None,
    decreases m.len(),
{
    if m.len() > 0 {
        lemma_m_get_none(m.drop_first(), k);
    }
}

proof fn lemma_m_set_found(m: Seq<(Seq<char>, YamlV)>, k: Seq<char>, v: YamlV, i: int)
    requires
        0 <= i < m.len(),
        m[i].0 == k,
        forall|j: int| 0 <= j < i ==> m[j].0 != k,
    ensures
        m_set_v(m, k, v) =~= m.update(i, (m[i].0, v)),
    decreases i,
{
    if i == 0 {
        assert(seq![(m[0].0, v)] + m.drop_first() =~= m.update(0, (m[0].0, v)));
    } else {
        lemma_m_set_found(m.drop_first(), k, v, i - 1);
        assert(seq![m[0]] + m.drop_first().update(i - 1, (m[i].0, v)) =~= m.update(
            i,
            (m[i].0, v),
        ));
    }
}

proof fn lemma_m_set_none(m: Seq<(Seq<char>, YamlV)>, k: Seq<char>, v: YamlV)
    requires
        forall|j: int| 0 <= j < m.len() ==> m[j].0 != k,
    ensures
        m_set_v(m, k, v) =~= m.push((k, v)),
    decreases m.len(),
{
    if m.len() == 0 {
        assert(m_set_v(m, k, v) =~= m.push((k, v)));
    } else {
        lemma_m_set_none(m.drop_first(), k, v);
        assert(seq![m[0]] + m.drop_first().push((k, v)) =~= m.push((k, v)));
    }
}

proof fn lemma_m_remove_found(m: Seq<(Seq<char>, YamlV)>, k: Seq<char>, i: int)
    requires
        0 <= i < m.len(),
        m[i].0 == k,
        forall|j: int| 0 <= j < i ==> m[j].0 != k,
    ensures
        m_remove_v(m, k) =~= m.remove(i),
    decreases i,
{
    if i == 0 {
        assert(m.drop_first() =~= m.remove(0));
    } else {
        lemma_m_remove_found(m.drop_first(), k, i - 1);
        assert(seq![m[0]] + m.drop_first().remove(i - 1) =~= m.remove(i));
    }
}

proof fn lemma_m_remove_none(m: Seq<(Seq<char>, YamlV)>, k: Seq<char>)
    requires
        forall|j: int| 0 <= j < m.len() ==> m[j].0 != k,
    ensures
        m_remove_v(m, k) =~= m,
    decreases m.len(),
{
    if m.len() > 0 {
        lemma_m_remove_none(m.drop_first(), k);
        assert(seq![m[0]] + m.drop_first() =~= m);
    }
}

/// Setting a key makes it readable.
pub proof fn lemma_m_get_set_same(m: Seq<(Seq<char>, YamlV)>, k: Seq<char>, v: YamlV)
    ensures
        m_get_v(m_set_v(m, k, v), k) == Some(v),
    decreases m.len(),
{
    if m.len() > 0 && m[0].0 != k {
        lemma_m_get_set_same(m.drop_first(), k, v);
        assert((seq![m[0]] + m_set_v(m.drop_first(), k, v)).drop_first() =~= m_set_v(
            m.drop_first(),
            k,
            v,
        ));
    }
}

/// Setting one key leaves every other key's binding alone.
pub proof fn lemma_m_get_set_other(m: Seq<(Seq<char>, YamlV)>, k1: Seq<char>, k2: Seq<char>, v: YamlV)
    requires
        k1 != k2,
    ensures
        m_get_v(m_set_v(m, k1, v), k2) == m_get_v(m, k2),
    decreases m.len(),
{
    if m.len() == 0 {
        let one = seq![(k1, v)];
        assert(m_set_v(m, k1, v) == one);
        assert(one.drop_first() =~= Seq::<(Seq<char>, YamlV)>::empty());
        assert(m_get_v(one.drop_first(), k2) is None);
        assert(m_get_v(one, k2) is None);
    } else {
        if m[0].0 == k1 {
            assert((seq![(m[0].0, v)] + m.drop_first()).drop_first() =~= m.drop_first());
        } else {
            lemma_m_get_set_other(m.drop_first(), k1, k2, v);
            assert((seq![m[0]] + m_set_v(m.drop_first(), k1, v)).drop_first() =~= m_set_v(
                m.drop_first(),
                k1,
                v,
            ));
        }
    }
}

/// Setting the same key twice keeps the last value.
pub proof fn lemma_m_set_set(m: Seq<(Seq<char>, YamlV)>, k: Seq<char>, x: YamlV, v: YamlV)
    ensures
        m_set_v(m_set_v(m, k, x), k, v) =~= m_set_v(m, k, v),
    decreases m.len(),
{
    if m.len() == 0 {
    } else if m[0].0 == k {
        assert((seq![(m[0].0, x)] + m.drop_first()).drop_first() =~= m.drop_first());
    } else {
        lemma_m_set_set(m.drop_first(), k, x, v);
        assert((seq![m[0]] + m_set_v(m.drop_first(), k, x)).drop_first() =~= m_set_v(
            m.drop_first(),
            k,
            x,
        ));
    }
}

/// Writing back the value a key already has changes nothing.
pub proof fn lemma_m_set_self(m: Seq<(Seq<char>, YamlV)>, k: Seq<char>, v: YamlV)
    requires
        m_get_v(m, k) == Some(v),
    ensures
        m_set_v(m, k, v) =~= m,
    decreases m.len(),
{
    if m.len() > 0 && m[0].0 != k {
        lemma_m_set_self(m.drop_first(), k, v);
        assert(seq![m[0]] + m.drop_first() =~= m);
    }
}

/// Removing one key leaves every other key's binding alone.
pub proof fn lemma_m_get_remove_other(m: Seq<(Seq<char>, YamlV)>, k1: Seq<char>, k2: Seq<char>)
    requires
        k1 != k2,
    ensures
        m_get_v(m_remove_v(m, k1), k2) == m_get_v(m, k2),
    decreases m.len(),
{
    if m.len() > 0 {
        if m[0].0 == k1 {
        } else {
            lemma_m_get_remove_other(m.drop_first(), k1, k2);
            assert((seq![m[0]] + m_remove_v(m.drop_first(), k1)).drop_first() =~= m_remove_v(
                m.drop_first(),
                k1,
            ));
        }
    }
}

/// The tree-level counterpart of [`lemma_m_get_set_same`].
pub proof fn lemma_get_set_same(y: YamlV, k: Seq<char>, v: YamlV)
    requires
        y is Mapping,
    ensures
        get_v(set_v(y, k, v), k) == Some(v),
{
    match y {
        YamlV::Mapping(m) => lemma_m_get_set_same(m, k, v),
        _ => (),
    }
}

/// The tree-level counterpart of [`lemma_m_get_set_other`].
pub proof fn lemma_get_set_other(y: YamlV, k1: Seq<char>, k2: Seq<char>, v: YamlV)
    requires
        k1 != k2,
    ensures
        get_v(set_v(y, k1, v), k2) == get_v(y, k2),
{
    match y {
        YamlV::Mapping(m) => lemma_m_get_set_other(m, k1, k2, v),
        _ => (),
    }
}

/// The tree-level counterpart of [`lemma_m_get_remove_other`].
pub proof fn lemma_get_remove_other(y: YamlV, k1: Seq<char>, k2: Seq<char>)
    requires
        k1 != k2,
    ensures
        get_v(remove_v(y, k1), k2) == get_v(y, k2),
{
    match y {
        YamlV::Mapping(m) => lemma_m_get_remove_other(m, k1, k2),
        _ => (),
    }
}

/// The tree-level counterpart of [`lemma_m_set_set`].
pub proof fn lemma_set_set(y: YamlV, k: Seq<char>, x: YamlV, v: YamlV)
    ensures
        set_v(set_v(y, k, x), k, v) == set_v(y, k, v),
{
    match y {
        YamlV::Mapping(m) => {
            lemma_m_set_set(m, k, x, v);
            assert(m_set_v(m_set_v(m, k, x), k, v) == m_set_v(m, k, v));
        },
        _ => (),
    }
}

/// The tree-level counterpart of [`lemma_m_set_self`].
pub proof fn lemma_set_self(y: YamlV, k: Seq<char>)
    requires
        get_v(y, k) is Some,
    ensures
        set_v(y, k, get_v(y, k).unwrap()) == y,
{
    match y {
        YamlV::Mapping(m) => {
            lemma_m_set_self(m, k, get_v(y, k).unwrap());
            assert(m_set_v(m, k, m_get_v(m, k).unwrap()) == m);
        },
        _ => (),
    }
}

/// The index of the first entry bound to `key`, if any.
fn key_find(m: &Vec<(String, Yaml)>, key: &str) -> (r: Option<usize>)
    ensures
        match r {
            Some(i) => 0 <= i < m@.len() && m@[i as int].0@ == key@ && forall|j: int|
                0 <= j < i ==> m@[j].0@ != key@,
            None => forall|j: int| 0 <= j < m@.len() ==> m@[j].0@ != key@,
        },
{
    let mut i: usize = 0;
    while i < m.len()
        invariant
            i <= m@.len(),
            forall|j: int| 0 <= j < i ==> m@[j].0@ != key@,
        decreases m@.len() - i,
    {
        if crate::strutil::eq_str(m[i].0.as_str(), key) {
            return Some(i);
        }
        i += 1;
    }
    None
}

impl Yaml {
    /// The text of a string scalar, or `None` on any other shape.
    pub fn str_of(&self) -> (r: Option<&String>)
        ensures
            match r {
                Some(s) => str_v(self@) == Some(s@),
                None => str_v(self@) is None,
            },
    {
        match self {
            Yaml::Str(s) => Some(s),
            _ => None,
        }
    }

    /// Whether the tree is a mapping.
    pub fn is_mapping(&self) -> (r: bool)
        ensures
            r == (self@ is Mapping),
    {
        match self {
            Yaml::Mapping(_) => true,
            _ => false,
        }
    }

    /// The value bound to `key`, or `None` when absent or when this is not
    /// a mapping.
    pub fn get<'a>(&'a self, key: &str) -> (r: Option<&'a Yaml>)
        ensures
            match r {
                Some(v) => get_v(self@, key@) == Some(v@),
                None => get_v(self@, key@) is None,
            },
    {
        match self {
            Yaml::Mapping(m) => {
                match key_find(m, key) {
                    Some(i) => {
                        proof {
                            lemma_m_get_found(ents_of(m@), key@, i as int);
                        }
                        Some(&m[i].1)
                    },
                    None => {
                        proof {
                            lemma_m_get_none(ents_of(m@), key@);
                        }
                        None
                    },
                }
            },
            _ => None,
        }
    }

    /// The string bound to `key`, or `None` when absent or not a string.
    pub fn get_str<'a>(&'a self, key: &str) -> (r: Option<&'a String>)
        ensures
            match r {
                Some(s) => get_str_v(self@, key@) == Some(s@),
                None => get_str_v(self@, key@) is None,
            },
    {
        match self.get(key) {
            Some(v) => v.str_of(),
            None => None,
        }
    }

    /// Whether the tree is a mapping holding `key`.
    pub fn has(&self, key: &str) -> (r: bool)
        ensures
            r == has_v(self@, key@),
    {
        self.get(key).is_some()
    }

    /// Bind `key` to `val`: replace the first matching entry, or append one.
    /// On anything but a mapping the tree is returned unchanged.
    pub fn set(self, key: &str, val: Yaml) -> (r: Yaml)
        ensures
            r@ == set_v(self@, key@, val@),
    {
        match self {
            Yaml::Mapping(mut m) => {
                let ghost old_m = m@;
                match key_find(&m, key) {
                    Some(i) => {
                        proof {
                            lemma_m_set_found(ents_of(old_m), key@, val@, i as int);
                        }
                        let entry = &mut m[i];
                        entry.1 = val;
                        proof {
                            assert(ents_of(m@) =~= m_set_v(ents_of(old_m), key@, val@));
                        }
                        Yaml::Mapping(m)
                    },
                    None => {
                        proof {
                            lemma_m_set_none(ents_of(old_m), key@, val@);
                        }
                        m.push((String::from_str(key), val));
                        proof {
                            assert(ents_of(m@) =~= m_set_v(ents_of(old_m), key@, val@));
                        }
                        Yaml::Mapping(m)
                    },
                }
            },
            _ => self,
        }
    }

    /// A copy of the tree with the same view.
    pub fn deep_clone(&self) -> (r: Yaml)
        ensures
            r@ == self@,
        decreases *self,
    {
        match self {
            Yaml::Null => Yaml::Null,
            Yaml::Bool(b) => Yaml::Bool(*b),
            Yaml::Num(s) => Yaml::Num(s.clone()),
            Yaml::Str(s) => Yaml::Str(s.clone()),
            Yaml::List(xs) => {
                let mut out: Vec<Yaml> = Vec::new();
                let mut i: usize = 0;
                while i < xs.len()
                    invariant
                        *self == Yaml::List(*xs),
                        i <= xs@.len(),
                        out@.len() == i,
                        forall|j: int| 0 <= j < i ==> elems_of(out@)[j] == elems_of(xs@)[j],
                    decreases xs@.len() - i,
                {
                    proof {
                        broadcast use vstd::std_specs::vec::axiom_vec_index_decreases;

                        assert(decreases_to!(*self => self->List_0));
                        assert(self->List_0 == *xs);
                        assert(decreases_to!(*xs => xs@[i as int]));
                    }
                    let c = xs[i].deep_clone();
                    out.push(c);
                    i += 1;
                }
                proof {
                    assert(elems_of(out@) =~= elems_of(xs@));
                }
                Yaml::List(out)
            },
            Yaml::Mapping(m) => {
                let mut out: Vec<(String, Yaml)> = Vec::new();
                let mut i: usize = 0;
                while i < m.len()
                    invariant
                        *self == Yaml::Mapping(*m),
                        i <= m@.len(),
                        out@.len() == i,
                        forall|j: int| 0 <= j < i ==> ents_of(out@)[j] == ents_of(m@)[j],
                    decreases m@.len() - i,
                {
                    proof {
                        broadcast use vstd::std_specs::vec::axiom_vec_index_decreases;

                        assert(decreases_to!(*self => self->Mapping_0));
                        assert(self->Mapping_0 == *m);
                        assert(decreases_to!(*m => m@[i as int]));
                        assert(decreases_to!(m@[i as int] => m@[i as int].1));
                    }
                    let c = m[i].1.deep_clone();
                    let k = m[i].0.clone();
                    out.push((k, c));
                    i += 1;
                }
                proof {
                    assert(ents_of(out@) =~= ents_of(m@));
                }
                Yaml::Mapping(out)
            },
        }
    }

    /// Structural equality of two trees, decided recursively.
    pub fn deep_eq(&self, other: &Yaml) -> (r: bool)
        ensures
            r == (self@ == other@),
        decreases *self,
    {
        match (self, other) {
            (Yaml::Null, Yaml::Null) => true,
            (Yaml::Bool(a), Yaml::Bool(b)) => a == b,
            (Yaml::Num(a), Yaml::Num(b)) => crate::strutil::eq_str(a.as_str(), b.as_str()),
            (Yaml::Str(a), Yaml::Str(b)) => crate::strutil::eq_str(a.as_str(), b.as_str()),
            (Yaml::List(xs), Yaml::List(ys)) => {
                if xs.len() != ys.len() {
                    proof {
                        assert(elems_of(xs@).len() != elems_of(ys@).len());
                    }
                    return false;
                }
                let mut i: usize = 0;
                while i < xs.len()
                    invariant
                        xs@.len() == ys@.len(),
                        i <= xs@.len(),
                        *self == Yaml::List(*xs),
                        self@ == YamlV::List(elems_of(xs@)),
                        other@ == YamlV::List(elems_of(ys@)),
                        forall|j: int| 0 <= j < i ==> elems_of(xs@)[j] == elems_of(ys@)[j],
                    decreases xs@.len() - i,
                {
                    proof {
                        broadcast use vstd::std_specs::vec::axiom_vec_index_decreases;

                        assert(decreases_to!(*self => *xs));
                        assert(decreases_to!(*xs => xs@[i as int]));
                    }
                    if !xs[i].deep_eq(&ys[i]) {
                        proof {
                            assert(elems_of(xs@)[i as int] == xs@[i as int]@);
                            assert(elems_of(ys@)[i as int] == ys@[i as int]@);
                        }
                        return false;
                    }
                    i += 1;
                }
                proof {
                    assert(elems_of(xs@) =~= elems_of(ys@));
                }
                true
            },
            (Yaml::Mapping(xs), Yaml::Mapping(ys)) => {
                if xs.len() != ys.len() {
                    proof {
                        assert(ents_of(xs@).len() != ents_of(ys@).len());
                    }
                    return false;
                }
                let mut i: usize = 0;
                while i < xs.len()
                    invariant
                        xs@.len() == ys@.len(),
                        i <= xs@.len(),
                        *self == Yaml::Mapping(*xs),
                        self@ == YamlV::Mapping(ents_of(xs@)),
                        other@ == YamlV::Mapping(ents_of(ys@)),
                        forall|j: int| 0 <= j < i ==> ents_of(xs@)[j] == ents_of(ys@)[j],
                    decreases xs@.len() - i,
                {
                    if !crate::strutil::eq_str(xs[i].0.as_str(), ys[i].0.as_str()) {
                        proof {
                            assert(ents_of(xs@)[i as int].0 == xs@[i as int].0@);
                            assert(ents_of(ys@)[i as int].0 == ys@[i as int].0@);
                        }
                        return false;
                    }
                    proof {
                        broadcast use vstd::std_specs::vec::axiom_vec_index_decreases;

                        assert(decreases_to!(*self => *xs));
                        assert(decreases_to!(*xs => xs@[i as int]));
                        assert(decreases_to!(xs@[i as int] => xs@[i as int].1));
                    }
                    if !xs[i].1.deep_eq(&ys[i].1) {
                        proof {
                            assert(ents_of(xs@)[i as int].1 == xs@[i as int].1@);
                            assert(ents_of(ys@)[i as int].1 == ys@[i as int].1@);
                        }
                        return false;
                    }
                    i += 1;
                }
                proof {
                    assert(ents_of(xs@) =~= ents_of(ys@));
                }
                true
            },
            _ => false,
        }
    }

    /// Remove the binding of `key` from a mapping; anything else is
    /// returned unchanged.
    /// Take the value bound to `key` out of a mapping, leaving a null in
    /// its place so the binding (and its position) survives.
    pub fn take(self, key: &str) -> (r: (Yaml, Option<Yaml>))
        ensures
            match r.1 {
                Some(v) => get_v(self@, key@) == Some(v@) && r.0@ == set_v(
                    self@,
                    key@,
                    YamlV::Null,
                ),
                None => r.0 == self && get_v(self@, key@) is None,
            },
    {
        match self {
            Yaml::Mapping(mut m) => {
                let ghost old_m = m@;
                match key_find(&m, key) {
                    Some(i) => {
                        proof {
                            lemma_m_get_found(ents_of(old_m), key@, i as int);
                            lemma_m_set_found(ents_of(old_m), key@, YamlV::Null, i as int);
                        }
                        let (k0, v) = m.remove(i);
                        m.insert(i, (k0, Yaml::Null));
                        proof {
                            assert(m@ =~= old_m.remove(i as int).insert(i as int, (old_m[i as int].0, Yaml::Null)));
                            assert(m@ =~= old_m.update(i as int, (old_m[i as int].0, Yaml::Null)));
                            assert(ents_of(m@) =~= m_set_v(ents_of(old_m), key@, YamlV::Null));
                        }
                        (Yaml::Mapping(m), Some(v))
                    },
                    None => {
                        proof {
                            lemma_m_get_none(ents_of(old_m), key@);
                        }
                        (Yaml::Mapping(m), None)
                    },
                }
            },
            _ => (self, None),
        }
    }

    pub fn remove(self, key: &str) -> (r: Yaml)
        ensures
            r@ == remove_v(self@, key@),
    {
        match self {
            Yaml::Mapping(mut m) => {
                let ghost old_m = m@;
                match key_find(&m, key) {
                    Some(i) => {
                        proof {
                            lemma_m_remove_found(ents_of(old_m), key@, i as int);
                        }
                        let _ = m.remove(i);
                        proof {
                            assert(ents_of(m@) =~= m_remove_v(ents_of(old_m), key@));
                        }
                        Yaml::Mapping(m)
                    },
                    None => {
                        proof {
                            lemma_m_remove_none(ents_of(old_m), key@);
                        }
                        Yaml::Mapping(m)
                    },
                }
            },
            _ => self,
        }
    }
}

/// Indexing the entry views of a mapping.
pub proof fn lemma_ents_index(m: Seq<(String, Yaml)>, i: int)
    requires
        0 <= i < m.len(),
    ensures
        ents_of(m)[i] == (m[i].0@, m[i].1@),
{
}

/// Indexing the element views of a list.
pub proof fn lemma_elems_index(xs: Seq<Yaml>, i: int)
    requires
        0 <= i < xs.len(),
    ensures
        elems_of(xs)[i] == xs[i]@,
{
}

} // verus!
