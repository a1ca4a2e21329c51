//! Metric labels: validated name/value pairs kept sorted and unique by name.
use vstd::prelude::*;

use crate::error::{Error, ErrorKind};
use crate::order::{lemma_lex_connex, lemma_lex_trans, lex_lt, str_eq, str_lt};

verus! {

/// Whether `c` may open a label name.
pub open spec fn name_start_char(c: char) -> bool {
    ('a' <= c && c <= 'z') || ('A' <= c && c <= 'Z') || c == '_'
}

/// Whether `c` may continue a label name.
pub open spec fn name_char(c: char) -> bool {
    name_start_char(c) || ('0' <= c && c <= '9')
}

/// A valid label name: non-empty, made of ASCII letters, digits and
/// underscores, not starting with a digit, and not reserved (two leading
/// underscores).
pub open spec fn valid_label_name(s: Seq<char>) -> bool {
    &&& s.len() > 0
    &&& name_start_char(s[0])
    &&& forall|i: int| 1 <= i < s.len() ==> name_char(#[trigger] s[i])
    &&& !(s.len() >= 2 && s[0] == '_' && s[1] == '_')
}

/// Checks `name` against the label-name rules.
pub fn validate_label_name(name: &str) -> (r: Result<(), Error>)
    ensures
        r is Ok <==> valid_label_name(name@),
        r is Err ==> r->Err_0.kind == ErrorKind::InvalidInput,
{
    let len = name.unicode_len();
    if len == 0 {
        return Err(Error::invalid_input());
    }
    let c0 = name.get_char(0);
    if !(('a' <= c0 && c0 <= 'z') || ('A' <= c0 && c0 <= 'Z') || c0 == '_') {
        return Err(Error::invalid_input());
    }
    if len >= 2 && c0 == '_' && name.get_char(1) == '_' {
        return Err(Error::invalid_input());
    }
    let mut i: usize = 1;
    while i < len
        invariant
            1 <= i <= len,
            len == name@.len(),
            name_start_char(name@[0]),
            !(name@.len() >= 2 && name@[0] == '_' && name@[1] == '_'),
            forall|k: int| 1 <= k < i ==> name_char(#[trigger] name@[k]),
        decreases len - i,
    {
        let c = name.get_char(i);
        if !(('a' <= c && c <= 'z') || ('A' <= c && c <= 'Z') || c == '_' || ('0' <= c && c
            <= '9')) {
            return Err(Error::invalid_input());
        }
        i = i + 1;
    }
    Ok(())
}

/// A metric label: a name/value pair.
///
/// The name obeys `valid_label_name` when the label was made by `new`; the
/// value may hold any characters (they are escaped on render).
#[derive(Debug, Clone)]
pub struct Label {
    /// The label name.
    pub name: String,
    /// The label value.
    pub value: String,
}

impl Label {
    /// Makes a label, rejecting an invalid name.
    pub fn new(name: &str, value: &str) -> (r: Result<Self, Error>)
        ensures
            match r {
                Result::Ok(l) => valid_label_name(name@) && l.name@ == name@ && l.value@
                    == value@,
                Result::Err(e) => !valid_label_name(name@) && e.kind == ErrorKind::InvalidInput,
            },
    {
        validate_label_name(name)?;
        Ok(Label { name: name.to_owned(), value: value.to_owned() })
    }

    /// Returns the name of this label.
    pub fn name(&self) -> (r: &str)
        ensures
            r@ == self.name@,
    {
        self.name.as_str()
    }

    /// Returns the value of this label.
    pub fn value(&self) -> (r: &str)
        ensures
            r@ == self.value@,
    {
        self.value.as_str()
    }
}

/// Whether the labels are strictly sorted by name (so also unique by name).
pub open spec fn labels_sorted(s: Seq<Label>) -> bool {
    forall|i: int, j: int|
        0 <= i < j < s.len() ==> lex_lt(#[trigger] s[i].name@, #[trigger] s[j].name@)
}

/// Whether every label name in the sequence is valid.
pub open spec fn labels_named(s: Seq<Label>) -> bool {
    forall|i: int| 0 <= i < s.len() ==> valid_label_name(#[trigger] s[i].name@)
}

/// The well-formedness of a label map.
pub open spec fn labels_wf(s: Seq<Label>) -> bool {
    labels_sorted(s) && labels_named(s)
}

/// Whether some label in `s` has the name `n`.
pub open spec fn has_name(s: Seq<Label>, n: Seq<char>) -> bool {
    exists|i: int| 0 <= i < s.len() && (#[trigger] s[i].name@) == n
}

/// Whether some label in `s` has the name `n` and the value `v`.
pub open spec fn has_pair(s: Seq<Label>, n: Seq<char>, v: Seq<char>) -> bool {
    exists|i: int| 0 <= i < s.len() && (#[trigger] s[i].name@) == n && s[i].value@ == v
}

/// The name/value views of a label sequence; two label maps with equal views
/// render identically.
pub open spec fn labels_view(s: Seq<Label>) -> Seq<(Seq<char>, Seq<char>)> {
    s.map_values(|l: Label| (l.name@, l.value@))
}

/// A sorted map of labels, unique by name.
#[derive(Debug, Clone)]
pub struct Labels {
    /// The labels, strictly sorted by name.
    pub entries: Vec<Label>,
}

impl Labels {
    /// Makes an empty label map.
    pub fn new() -> (r: Self)
        ensures
            r.entries@.len() == 0,
    {
        Labels { entries: Vec::new() }
    }

    /// Returns the number of labels contained in this map.
    pub fn len(&self) -> (r: usize)
        ensures
            r == self.entries@.len(),
    {
        self.entries.len()
    }

    /// Returns `true` if this map has no labels, otherwise `false`.
    pub fn is_empty(&self) -> (r: bool)
        ensures
            r == (self.entries@.len() == 0),
    {
        self.entries.len() == 0
    }

    /// Returns the label which has the name `name`.
    pub fn get(&self, name: &str) -> (r: Option<&Label>)
        ensures
            match r {
                Option::Some(l) => l.name@ == name@ && has_pair(
                    self.entries@,
                    name@,
                    l.value@,
                ),
                Option::None => !has_name(self.entries@, name@),
            },
    {
        let mut i: usize = 0;
        while i < self.entries.len()
            invariant
                i <= self.entries@.len(),
                forall|k: int| 0 <= k < i ==> (#[trigger] self.entries@[k].name@) != name@,
            decreases self.entries@.len() - i,
        {
            if str_eq(self.entries[i].name.as_str(), name) {
                return Some(&self.entries[i]);
            }
            i = i + 1;
        }
        None
    }

    /// Returns a snapshot cursor over the labels.
    pub fn iter(&self) -> (r: Iter)
        ensures
            r.items@ == self.entries@,
            r.pos == 0,
    {
        let mut items: Vec<Label> = Vec::new();
        let mut i: usize = 0;
        while i < self.entries.len()
            invariant
                i <= self.entries@.len(),
                items@.len() == i as int,
                forall|k: int| 0 <= k < i ==> items@[k] == self.entries@[k],
            decreases self.entries@.len() - i,
        {
            let l = &self.entries[i];
            items.push(Label { name: l.name.clone(), value: l.value.clone() });
            i = i + 1;
        }
        proof {
            assert(items@ =~= self.entries@);
        }
        Iter { items, pos: 0 }
    }

    /// Inserts the label, replacing any label of the same name and keeping
    /// the map sorted; a reserved name and an invalid name are rejected and
    /// leave the map unchanged.
    pub fn insert(&mut self, name: &str, value: &str, reserved: Option<&str>) -> (r: Result<
        (),
        Error,
    >)
        requires
            labels_wf(old(self).entries@),
        ensures
            labels_wf(final(self).entries@),
            match r {
                Result::Ok(_) => {
                    &&& valid_label_name(name@)
                    &&& (reserved is Some ==> reserved->0@ != name@)
                    &&& has_pair(final(self).entries@, name@, value@)
                    &&& forall|n: Seq<char>, v: Seq<char>|
                        n != name@ ==> (has_pair(final(self).entries@, n, v) <==> has_pair(
                            old(self).entries@,
                            n,
                            v,
                        ))
                    &&& forall|v: Seq<char>|
                        has_pair(final(self).entries@, name@, v) ==> v == value@
                },
                Result::Err(e) => {
                    &&& e.kind == ErrorKind::InvalidInput
                    &&& (!valid_label_name(name@) || (reserved is Some && reserved->0@
                        == name@))
                    &&& final(self).entries@ == old(self).entries@
                },
            },
    {
        if let Some(res) = reserved {
            if str_eq(res, name) {
                return Err(Error::invalid_input());
            }
        }
        let label = match Label::new(name, value) {
            Ok(l) => l,
            Err(e) => {
                return Err(e);
            },
        };
        // Drop any label of the same name, then place the new one at its
        // sorted position.
        self.remove(name);
        let ghost s1 = self.entries@;
        let mut j: usize = 0;
        loop
            invariant
                j <= self.entries@.len(),
                self.entries@ == s1,
                forall|k: int| 0 <= k < j ==> lex_lt((#[trigger] s1[k].name@), name@),
            ensures
                j <= s1.len(),
                forall|k: int| 0 <= k < j ==> lex_lt((#[trigger] s1[k].name@), name@),
                j < s1.len() ==> !lex_lt(s1[j as int].name@, name@),
            decreases self.entries@.len() - j,
        {
            if j >= self.entries.len() {
                break ;
            }
            if !str_lt(self.entries[j].name.as_str(), name) {
                break ;
            }
            j = j + 1;
        }
        self.entries.insert(j, label);
        proof {
            let s2 = self.entries@;
            // Every name left differs from the new one, so the new entry
            // sorts strictly between its neighbours.
            assert forall|k: int, l: int| 0 <= k < l < s2.len() implies lex_lt(
                s2[k].name@,
                s2[l].name@,
            ) by {
                if l == j as int {
                    assert(s2[k] == s1[k]);
                } else if k == j as int {
                    assert(s2[l] == s1[l - 1]);
                    assert(s1[l - 1].name@ != name@);
                    if l - 1 == j as int {
                        lemma_lex_connex(name@, s1[l - 1].name@);
                    } else {
                        lemma_lex_connex(name@, s1[j as int].name@);
                        lemma_lex_trans(name@, s1[j as int].name@, s1[l - 1].name@);
                    }
                } else if k < j as int && l > j as int {
                    assert(s2[k] == s1[k]);
                    assert(s2[l] == s1[l - 1]);
                    if l - 1 == k {
                        assert(lex_lt(s1[k].name@, name@));
                        lemma_lex_connex(name@, s1[j as int].name@);
                    }
                } else if l < j as int {
                    assert(s2[k] == s1[k] && s2[l] == s1[l]);
                } else {
                    assert(s2[k] == s1[k - 1] && s2[l] == s1[l - 1]);
                }
            }
            lemma_insert_pairs(s1, j as int, label);
        }
        Ok(())
    }

    /// Removes the label which has the name `name` if it exists.
    pub fn remove(&mut self, name: &str)
        requires
            labels_wf(old(self).entries@),
        ensures
            labels_wf(final(self).entries@),
            !has_name(final(self).entries@, name@),
            forall|n: Seq<char>, v: Seq<char>|
                n != name@ ==> (has_pair(final(self).entries@, n, v) <==> has_pair(
                    old(self).entries@,
                    n,
                    v,
                )),
    {
        let mut i: usize = 0;
        while i < self.entries.len()
            invariant
                i <= self.entries@.len(),
                labels_wf(self.entries@),
                forall|k: int| 0 <= k < i ==> (#[trigger] self.entries@[k].name@) != name@,
                forall|n: Seq<char>, v: Seq<char>|
                    has_pair(self.entries@, n, v) ==> has_pair(old(self).entries@, n, v),
                forall|n: Seq<char>, v: Seq<char>|
                    n != name@ && has_pair(old(self).entries@, n, v) ==> has_pair(self.entries@, n, v),
            decreases self.entries@.len() - i,
        {
            if str_eq(self.entries[i].name.as_str(), name) {
                let ghost before = self.entries@;
                self.entries.remove(i);
                proof {
                    lemma_remove_pairs(before, i as int);
                    assert(before[i as int].name@ == name@);
                    assert forall|k: int|
                        0 <= k < self.entries@.len() implies (
                    #[trigger] self.entries@[k].name@) != name@ by {
                        if k >= i {
                            assert(self.entries@[k] == before[k + 1]);
                            lemma_lex_connex(before[i as int].name@, before[k + 1].name@);
                        }
                    }
                    assert(!has_name(self.entries@, name@));
                    assert forall|n: Seq<char>, v: Seq<char>| n != name@ implies (has_pair(
                        self.entries@,
                        n,
                        v,
                    ) <==> has_pair(old(self).entries@, n, v)) by {
                        assert(self.entries@ == before.remove(i as int));
                        if has_pair(self.entries@, n, v) {
                            assert(has_pair(before, n, v));
                            assert(has_pair(old(self).entries@, n, v));
                        }
                        if n != name@ && has_pair(old(self).entries@, n, v) {
                            assert(has_pair(before, n, v));
                            assert(!(before[i as int].name@ == n && before[i as int].value@ == v));
                            assert(has_pair(before.remove(i as int), n, v));
                        }
                    }
                }
                return ;
            }
            i = i + 1;
        }
        proof {
            assert(!has_name(self.entries@, name@));
        }
    }

    /// Clears the all labels.
    pub fn clear(&mut self)
        ensures
            final(self).entries@.len() == 0,
    {
        self.entries.clear();
    }
}

/// Removing an index changes membership by exactly the dropped entry.
proof fn lemma_remove_pairs(s: Seq<Label>, i: int)
    requires
        0 <= i < s.len(),
    ensures
        forall|n: Seq<char>, v: Seq<char>|
            has_pair(s.remove(i), n, v) ==> has_pair(s, n, v),
        forall|n: Seq<char>, v: Seq<char>|
            has_pair(s, n, v) && !(s[i].name@ == n && s[i].value@ == v) ==> has_pair(
                s.remove(i),
                n,
                v,
            ),
{
    let t = s.remove(i);
    assert forall|n: Seq<char>, v: Seq<char>| has_pair(t, n, v) implies has_pair(s, n, v) by {
        let k = choose|k: int| 0 <= k < t.len() && (#[trigger] t[k].name@) == n && t[k].value@ == v;
        if k < i {
            assert(s[k].name@ == n && s[k].value@ == v);
        } else {
            assert(s[k + 1].name@ == n && s[k + 1].value@ == v);
        }
    }
    assert forall|n: Seq<char>, v: Seq<char>|
        has_pair(s, n, v) && !(s[i].name@ == n && s[i].value@ == v) implies has_pair(
        t,
        n,
        v,
    ) by {
        let k = choose|k: int| 0 <= k < s.len() && (#[trigger] s[k].name@) == n && s[k].value@ == v;
        if k < i {
            assert(t[k].name@ == n && t[k].value@ == v);
        } else {
            assert(t[k - 1].name@ == n && t[k - 1].value@ == v);
        }
    }
}

/// Inserting at an index adds exactly the new entry to the membership.
proof fn lemma_insert_pairs(s: Seq<Label>, i: int, l: Label)
    requires
        0 <= i <= s.len(),
    ensures
        has_pair(s.insert(i, l), l.name@, l.value@),
        forall|n: Seq<char>, v: Seq<char>|
            has_pair(s.insert(i, l), n, v) ==> has_pair(s, n, v) || (l.name@ == n && l.value@
                == v),
        forall|n: Seq<char>, v: Seq<char>| has_pair(s, n, v) ==> has_pair(s.insert(i, l), n, v),
{
    let t = s.insert(i, l);
    assert(t[i] == l);
    assert forall|n: Seq<char>, v: Seq<char>|
        has_pair(t, n, v) implies has_pair(s, n, v) || (l.name@ == n && l.value@ == v) by {
        let k = choose|k: int| 0 <= k < t.len() && (#[trigger] t[k].name@) == n && t[k].value@ == v;
        if k < i {
            assert(s[k].name@ == n && s[k].value@ == v);
        } else if k > i {
            assert(s[k - 1].name@ == n && s[k - 1].value@ == v);
        }
    }
    assert forall|n: Seq<char>, v: Seq<char>| has_pair(s, n, v) implies has_pair(t, n, v) by {
        let k = choose|k: int| 0 <= k < s.len() && (#[trigger] s[k].name@) == n && s[k].value@ == v;
        if k < i {
            assert(t[k].name@ == n && t[k].value@ == v);
        } else {
            assert(t[k + 1].name@ == n && t[k + 1].value@ == v);
        }
    }
}

/// The name/value views of raw label pairs.
pub open spec fn pairs_view(ps: Seq<(String, String)>) -> Seq<(Seq<char>, Seq<char>)> {
    ps.map_values(|p: (String, String)| (p.0@, p.1@))
}

/// Whether the pair `(n, v)` is the last pair named `n` in `ps`.
pub open spec fn pair_wins(ps: Seq<(Seq<char>, Seq<char>)>, n: Seq<char>, v: Seq<char>) -> bool {
    exists|i: int|
        0 <= i < ps.len() && (#[trigger] ps[i]) == (n, v) && (forall|j: int|
            i < j < ps.len() ==> (#[trigger] ps[j]).0 != n)
}

/// Whether `out` holds exactly the winning pair of each name in `ps`.
pub open spec fn labels_from_pairs(ps: Seq<(Seq<char>, Seq<char>)>, out: Seq<Label>) -> bool {
    forall|n: Seq<char>, v: Seq<char>| #[trigger] has_pair(out, n, v) <==> pair_wins(ps, n, v)
}

/// Builds a label map from raw pairs, validating every name; on a repeated
/// name the last pair wins.
pub fn build_labels(pairs: &Vec<(String, String)>, reserved: Option<&str>) -> (r: Result<
    Labels,
    Error,
>)
    ensures
        match r {
            Result::Ok(ls) => {
                &&& labels_wf(ls.entries@)
                &&& labels_from_pairs(pairs_view(pairs@), ls.entries@)
                &&& forall|i: int|
                    0 <= i < pairs@.len() ==> valid_label_name((#[trigger] pairs@[i]).0@) && (
                    match reserved {
                        Option::Some(res) => pairs@[i].0@ != res@,
                        Option::None => true,
                    })
            },
            Result::Err(e) => {
                &&& e.kind == ErrorKind::InvalidInput
                &&& exists|i: int|
                    0 <= i < pairs@.len() && (!valid_label_name((#[trigger] pairs@[i]).0@) || (
                    match reserved {
                        Option::Some(res) => pairs@[i].0@ == res@,
                        Option::None => false,
                    }))
            },
        },
{
    let ghost ps = pairs_view(pairs@);
    let mut out = Labels::new();
    let mut i: usize = 0;
    proof {
        assert forall|n: Seq<char>, v: Seq<char>| #[trigger]
            has_pair(out.entries@, n, v) == pair_wins(ps.take(0), n, v) by {
            assert(!has_pair(out.entries@, n, v));
            assert(!pair_wins(ps.take(0), n, v));
        }
    }
    while i < pairs.len()
        invariant
            i <= pairs@.len(),
            ps == pairs_view(pairs@),
            ps.len() == pairs@.len(),
            labels_wf(out.entries@),
            forall|n: Seq<char>, v: Seq<char>| #[trigger]
                has_pair(out.entries@, n, v) == pair_wins(ps.take(i as int), n, v),
            forall|k: int|
                0 <= k < i ==> valid_label_name((#[trigger] pairs@[k]).0@) && (match reserved {
                    Option::Some(res) => pairs@[k].0@ != res@,
                    Option::None => true,
                }),
        decreases pairs@.len() - i,
    {
        let ghost pre = out.entries@;
        let name = pairs[i].0.as_str();
        let value = pairs[i].1.as_str();
        let res = out.insert(name, value, reserved);
        if let Err(e) = res {
            proof {
                assert(ps[i as int].0 == pairs@[i as int].0@);
            }
            return Err(e);
        }
        proof {
            let ii = i as int;
            assert(ps[ii] == (pairs@[ii].0@, pairs@[ii].1@));
            assert forall|n: Seq<char>, v: Seq<char>| #[trigger]
                has_pair(out.entries@, n, v) == pair_wins(ps.take(ii + 1), n, v) by {
                if n == pairs@[ii].0@ {
                    if has_pair(out.entries@, n, v) {
                        assert(v == pairs@[ii].1@);
                        assert(ps.take(ii + 1)[ii] == (n, v));
                        assert(pair_wins(ps.take(ii + 1), n, v));
                    }
                    if pair_wins(ps.take(ii + 1), n, v) {
                        let w = choose|w: int|
                            0 <= w < ps.take(ii + 1).len() && (#[trigger] ps.take(ii + 1)[w]) == (
                            n,
                            v,
                            ) && (forall|j: int|
                                w < j < ps.take(ii + 1).len() ==> (#[trigger] ps.take(
                                    ii + 1,
                                )[j]).0 != n);
                        if w < ii {
                            assert(ps.take(ii + 1)[ii].0 == n);
                            assert(false);
                        }
                        assert(v == pairs@[ii].1@);
                        assert(has_pair(out.entries@, n, v));
                    }
                } else {
                    assert(has_pair(out.entries@, n, v) == has_pair(pre, n, v));
                    if pair_wins(ps.take(ii), n, v) {
                        let w = choose|w: int|
                            0 <= w < ps.take(ii).len() && (#[trigger] ps.take(ii)[w]) == (n, v) && (
                            forall|j: int|
                                w < j < ps.take(ii).len() ==> (#[trigger] ps.take(ii)[j]).0 != n);
                        assert(ps.take(ii + 1)[w] == (n, v));
                        assert forall|j: int|
                            w < j < ps.take(ii + 1).len() implies (#[trigger] ps.take(
                            ii + 1,
                        )[j]).0 != n by {
                            if j < ii {
                                assert(ps.take(ii)[j].0 != n);
                            }
                        }
                        assert(pair_wins(ps.take(ii + 1), n, v));
                    }
                    if pair_wins(ps.take(ii + 1), n, v) {
                        let w = choose|w: int|
                            0 <= w < ps.take(ii + 1).len() && (#[trigger] ps.take(ii + 1)[w]) == (
                            n,
                            v,
                            ) && (forall|j: int|
                                w < j < ps.take(ii + 1).len() ==> (#[trigger] ps.take(
                                    ii + 1,
                                )[j]).0 != n);
                        assert(w != ii);
                        assert(ps.take(ii)[w] == (n, v));
                        assert forall|j: int|
                            w < j < ps.take(ii).len() implies (#[trigger] ps.take(ii)[j]).0
                            != n by {
                            assert(ps.take(ii + 1)[j].0 != n);
                        }
                        assert(pair_wins(ps.take(ii), n, v));
                    }
                }
            }
        }
        i = i + 1;
    }
    proof {
        assert(ps.take(pairs@.len() as int) =~= ps);
    }
    Ok(out)
}

/// A snapshot cursor over the labels of a `Labels`.
#[derive(Debug)]
pub struct Iter {
    /// The snapshot.
    pub items: Vec<Label>,
    /// The position of the next label to hand out.
    pub pos: usize,
}

impl Iter {
    /// Hands out the next label of the snapshot, if one is left.
    pub fn next(&mut self) -> (r: Option<Label>)
        ensures
            match r {
                Option::Some(l) => {
                    &&& old(self).pos < old(self).items@.len()
                    &&& l.name@ == old(self).items@[old(self).pos as int].name@
                    &&& l.value@ == old(self).items@[old(self).pos as int].value@
                    &&& final(self).pos == old(self).pos + 1
                },
                Option::None => {
                    &&& old(self).pos >= old(self).items@.len()
                    &&& final(self).pos == old(self).pos
                },
            },
            final(self).items@ == old(self).items@,
    {
        if self.pos < self.items.len() {
            let l = &self.items[self.pos];
            let out = Label { name: l.name.clone(), value: l.value.clone() };
            self.pos = self.pos + 1;
            Some(out)
        } else {
            None
        }
    }
}


/// Two well-formed label maps holding the same pairs are the same map.
pub proof fn lemma_labels_unique(a: Seq<Label>, b: Seq<Label>)
    requires
        labels_wf(a),
        labels_wf(b),
        forall|n: Seq<char>, v: Seq<char>| has_pair(a, n, v) <==> has_pair(b, n, v),
    ensures
        labels_view(a) == labels_view(b),
    decreases a.len(),
{
    if a.len() == 0 {
        if b.len() > 0 {
            assert(has_pair(b, b[0].name@, b[0].value@));
            assert(has_pair(a, b[0].name@, b[0].value@));
            assert(false);
        }
        assert(labels_view(a) =~= labels_view(b));
    } else if b.len() == 0 {
        assert(has_pair(a, a[0].name@, a[0].value@));
        assert(has_pair(b, a[0].name@, a[0].value@));
        assert(false);
    } else {
        // The heads carry the least name of the shared name set, with its
        // single value.
        assert(has_pair(a, a[0].name@, a[0].value@));
        assert(has_pair(b, a[0].name@, a[0].value@));
        let jb = choose|j: int|
            0 <= j < b.len() && (#[trigger] b[j].name@) == a[0].name@ && b[j].value@
                == a[0].value@;
        assert(has_pair(b, b[0].name@, b[0].value@));
        assert(has_pair(a, b[0].name@, b[0].value@));
        let ja = choose|j: int|
            0 <= j < a.len() && (#[trigger] a[j].name@) == b[0].name@ && a[j].value@
                == b[0].value@;
        crate::order::lemma_lex_connex(a[0].name@, b[0].name@);
        if jb > 0 {
            assert(lex_lt(b[0].name@, b[jb].name@));
        }
        if ja > 0 {
            assert(lex_lt(a[0].name@, a[ja].name@));
        }
        assert(a[0].name@ == b[0].name@) by {
            if lex_lt(a[0].name@, b[0].name@) {
                if jb > 0 {
                    crate::order::lemma_lex_trans(a[0].name@, b[0].name@, b[jb].name@);
                    crate::order::lemma_lex_irrefl(a[0].name@);
                } else {
                }
            }
            if lex_lt(b[0].name@, a[0].name@) {
                if ja > 0 {
                    crate::order::lemma_lex_trans(b[0].name@, a[0].name@, a[ja].name@);
                    crate::order::lemma_lex_irrefl(b[0].name@);
                } else {
                }
            }
        }
        assert(a[0].value@ == b[0].value@) by {
            if jb > 0 {
                assert(lex_lt(b[0].name@, b[jb].name@));
                crate::order::lemma_lex_irrefl(b[0].name@);
            }
        }
        // The tails hold exactly the remaining pairs.
        assert forall|n: Seq<char>, v: Seq<char>| has_pair(a.drop_first(), n, v) implies has_pair(
            b.drop_first(),
            n,
            v,
        ) by {
            lemma_tail_pair(a, b, n, v);
        }
        assert forall|n: Seq<char>, v: Seq<char>| has_pair(b.drop_first(), n, v) implies has_pair(
            a.drop_first(),
            n,
            v,
        ) by {
            lemma_tail_pair(b, a, n, v);
        }
        assert(labels_wf(a.drop_first())) by {
            assert forall|i: int, j: int|
                0 <= i < j < a.drop_first().len() implies lex_lt(
                (#[trigger] a.drop_first()[i]).name@,
                (#[trigger] a.drop_first()[j]).name@,
            ) by {
                assert(a.drop_first()[i] == a[i + 1]);
                assert(a.drop_first()[j] == a[j + 1]);
            }
            assert forall|i: int|
                0 <= i < a.drop_first().len() implies valid_label_name(
                (#[trigger] a.drop_first()[i]).name@,
            ) by {
                assert(a.drop_first()[i] == a[i + 1]);
            }
        }
        assert(labels_wf(b.drop_first())) by {
            assert forall|i: int, j: int|
                0 <= i < j < b.drop_first().len() implies lex_lt(
                (#[trigger] b.drop_first()[i]).name@,
                (#[trigger] b.drop_first()[j]).name@,
            ) by {
                assert(b.drop_first()[i] == b[i + 1]);
                assert(b.drop_first()[j] == b[j + 1]);
            }
            assert forall|i: int|
                0 <= i < b.drop_first().len() implies valid_label_name(
                (#[trigger] b.drop_first()[i]).name@,
            ) by {
                assert(b.drop_first()[i] == b[i + 1]);
            }
        }
        lemma_labels_unique(a.drop_first(), b.drop_first());
        assert(labels_view(a) =~= labels_view(b)) by {
            assert(labels_view(a.drop_first()).len() == a.drop_first().len());
            assert(labels_view(b.drop_first()).len() == b.drop_first().len());
            assert(a.len() == b.len());
            assert(labels_view(a).len() == a.len());
            assert(labels_view(b).len() == b.len());
            assert forall|k: int| 0 <= k < labels_view(a).len() implies labels_view(a)[k]
                == labels_view(b)[k] by {
                if k == 0 {
                } else {
                    assert(labels_view(a.drop_first())[k - 1] == labels_view(b.drop_first())[k
                        - 1]);
                    assert(labels_view(a.drop_first())[k - 1] == (a[k].name@, a[k].value@));
                    assert(labels_view(b.drop_first())[k - 1] == (b[k].name@, b[k].value@));
                    assert(labels_view(a)[k] == (a[k].name@, a[k].value@));
                    assert(labels_view(b)[k] == (b[k].name@, b[k].value@));
                }
            }
        }
    }
}

/// A pair found in the tail of `a` is found in the tail of `b`, when the
/// whole maps agree and the heads share their name.
proof fn lemma_tail_pair(a: Seq<Label>, b: Seq<Label>, n: Seq<char>, v: Seq<char>)
    requires
        labels_wf(a),
        labels_wf(b),
        a.len() > 0,
        b.len() > 0,
        a[0].name@ == b[0].name@,
        forall|m: Seq<char>, w: Seq<char>| has_pair(a, m, w) <==> has_pair(b, m, w),
        has_pair(a.drop_first(), n, v),
    ensures
        has_pair(b.drop_first(), n, v),
{
    let i = choose|i: int|
        0 <= i < a.drop_first().len() && (#[trigger] a.drop_first()[i].name@) == n
            && a.drop_first()[i].value@ == v;
    assert(a.drop_first()[i] == a[i + 1]);
    assert(lex_lt(a[0].name@, a[i + 1].name@));
    crate::order::lemma_lex_irrefl(a[0].name@);
    assert(n != a[0].name@);
    assert(has_pair(a, n, v));
    assert(has_pair(b, n, v));
    let j = choose|j: int| 0 <= j < b.len() && (#[trigger] b[j].name@) == n && b[j].value@ == v;
    assert(j != 0);
    assert(b.drop_first()[j - 1] == b[j]);
    assert(has_pair(b.drop_first(), n, v));
}

/// Inserting a label and then removing it restores the label map exactly,
/// so the rendered output is restored with it.  `before` is any
/// well-formed map without the name; `inserted` is what `insert` made of
/// it; `after` is what `remove` of the same name made of that.
pub proof fn lemma_insert_remove_round_trip(
    before: Seq<Label>,
    inserted: Seq<Label>,
    after: Seq<Label>,
    n: Seq<char>,
    v: Seq<char>,
)
    requires
        labels_wf(before),
        !has_name(before, n),
        labels_wf(inserted),
        has_pair(inserted, n, v),
        forall|m: Seq<char>, w: Seq<char>|
            m != n ==> (has_pair(inserted, m, w) <==> has_pair(before, m, w)),
        labels_wf(after),
        !has_name(after, n),
        forall|m: Seq<char>, w: Seq<char>|
            m != n ==> (has_pair(after, m, w) <==> has_pair(inserted, m, w)),
    ensures
        labels_view(after) == labels_view(before),
{
    assert forall|m: Seq<char>, w: Seq<char>| has_pair(after, m, w) <==> has_pair(
        before,
        m,
        w,
    ) by {
        if m == n {
            if has_pair(after, m, w) {
                let i = choose|i: int|
                    0 <= i < after.len() && (#[trigger] after[i].name@) == m && after[i].value@
                        == w;
                assert(false);
            }
            if has_pair(before, m, w) {
                let i = choose|i: int|
                    0 <= i < before.len() && (#[trigger] before[i].name@) == m
                        && before[i].value@ == w;
                assert(false);
            }
        }
    }
    lemma_labels_unique(after, before);
}


/// Whether two label maps render the same: equal name/value views.
pub fn labels_view_eq(a: &Labels, b: &Labels) -> (r: bool)
    ensures
        r == (labels_view(a.entries@) == labels_view(b.entries@)),
{
    let ghost av = labels_view(a.entries@);
    let ghost bv = labels_view(b.entries@);
    if a.entries.len() != b.entries.len() {
        proof {
            assert(av.len() == a.entries@.len());
            assert(bv.len() == b.entries@.len());
        }
        return false;
    }
    let mut i: usize = 0;
    while i < a.entries.len()
        invariant
            i <= a.entries@.len(),
            a.entries@.len() == b.entries@.len(),
            av == labels_view(a.entries@),
            bv == labels_view(b.entries@),
            forall|k: int| 0 <= k < i ==> av[k] == bv[k],
        decreases a.entries@.len() - i,
    {
        let la = &a.entries[i];
        let lb = &b.entries[i];
        if !str_eq(la.name.as_str(), lb.name.as_str()) || !str_eq(
            la.value.as_str(),
            lb.value.as_str(),
        ) {
            proof {
                assert(av[i as int] == (la.name@, la.value@));
                assert(bv[i as int] == (lb.name@, lb.value@));
            }
            return false;
        }
        proof {
            assert(av[i as int] == (la.name@, la.value@));
            assert(bv[i as int] == (lb.name@, lb.value@));
        }
        i = i + 1;
    }
    proof {
        assert(av =~= bv);
    }
    true
}

} // verus!
