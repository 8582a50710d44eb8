//! Parameter bindings of a running sequence: a map from parameter names to
//! values, kept in ascending name order.
use vstd::prelude::*;

use crate::text::{chars_of, string_of};

verus! {

broadcast use vstd::string::group_string_axioms;

/// A bound parameter value and whether it must be masked in output.
#[derive(Debug, Clone, PartialEq, Eq)]
pub struct BoundParam {
    pub value: String,
    pub sensitive: bool,
}

/// Lexicographic order by code point, the order of `String`'s `Ord`.
pub open spec fn seq_less(a: Seq<char>, b: Seq<char>) -> bool
    decreases a.len(),
{
    if a.len() == 0 {
        b.len() > 0
    } else if b.len() == 0 {
        false
    } else if a[0] != b[0] {
        a[0] < b[0]
    } else {
        seq_less(a.drop_first(), b.drop_first())
    }
}

pub proof fn lemma_less_irreflexive(a: Seq<char>)
    ensures
        !seq_less(a, a),
    decreases a.len(),
{
    if a.len() > 0 {
        lemma_less_irreflexive(a.drop_first());
    }
}

pub proof fn lemma_less_total(a: Seq<char>, b: Seq<char>)
    requires
        a != b,
    ensures
        seq_less(a, b) || seq_less(b, a),
    decreases a.len(),
{
    if a.len() > 0 && b.len() > 0 && a[0] == b[0] {
        if a.drop_first() == b.drop_first() {
            assert(a =~= seq![a[0]] + a.drop_first());
            assert(b =~= seq![b[0]] + b.drop_first());
        }
        lemma_less_total(a.drop_first(), b.drop_first());
    } else if a.len() == 0 && b.len() == 0 {
        assert(a =~= b);
    }
}

pub proof fn lemma_less_asymmetric(a: Seq<char>, b: Seq<char>)
    requires
        seq_less(a, b),
    ensures
        !seq_less(b, a),
        a != b,
    decreases a.len(),
{
    if a.len() > 0 && b.len() > 0 && a[0] == b[0] {
        lemma_less_asymmetric(a.drop_first(), b.drop_first());
    }
    if a == b {
        lemma_less_irreflexive(a);
    }
}

/// Whether `a` sorts before `b`.
pub fn less_chars(a: &Vec<char>, b: &Vec<char>) -> (r: bool)
    ensures
        r == seq_less(a@, b@),
{
    let mut i: usize = 0;
    assert(a@.skip(0) =~= a@);
    assert(b@.skip(0) =~= b@);
    loop
        invariant
            i <= a.len(),
            i <= b.len(),
            seq_less(a@.skip(i as int), b@.skip(i as int)) == seq_less(a@, b@),
        decreases a.len() - i,
    {
        let ghost sa = a@.skip(i as int);
        let ghost sb = b@.skip(i as int);
        if i == a.len() {
            return i < b.len();
        }
        if i == b.len() {
            return false;
        }
        assert(sa[0] == a@[i as int]);
        assert(sb[0] == b@[i as int]);
        if a[i] != b[i] {
            return a[i] < b[i];
        }
        assert(sa.drop_first() =~= a@.skip(i + 1));
        assert(sb.drop_first() =~= b@.skip(i + 1));
        i += 1;
    }
}

/// One binding as plain values: name, value, sensitive.
pub type BindingView = (Seq<char>, Seq<char>, bool);

/// A binding name and its bound parameter.
#[derive(Debug, Clone, PartialEq, Eq)]
pub struct BindingEntry {
    pub name: String,
    pub param: BoundParam,
}

pub open spec fn entry_view(e: BindingEntry) -> BindingView {
    (e.name@, e.param.value@, e.param.sensitive)
}

pub open spec fn entries_view(es: Seq<BindingEntry>) -> Seq<BindingView> {
    es.map_values(|e: BindingEntry| entry_view(e))
}

/// Names in strictly ascending order.
pub open spec fn sorted_names(v: Seq<BindingView>) -> bool {
    &&& forall|i: int| 0 <= i < v.len() - 1 ==> seq_less(#[trigger] v[i].0, v[i + 1].0)
    &&& forall|i: int, j: int| 0 <= i < j < v.len() ==> #[trigger] v[i].0 != #[trigger] v[j].0
}

/// The position of `name`, if bound.
pub open spec fn find_name(v: Seq<BindingView>, name: Seq<char>) -> Option<int>
    decreases v.len(),
{
    if v.len() == 0 {
        None
    } else if v.last().0 == name {
        Some(v.len() - 1)
    } else {
        find_name(v.drop_last(), name)
    }
}

pub proof fn lemma_find_name(v: Seq<BindingView>, name: Seq<char>)
    ensures
        find_name(v, name) matches Some(i) ==> 0 <= i < v.len() && v[i].0 == name,
        find_name(v, name) is None ==> forall|i: int| 0 <= i < v.len() ==> v[i].0 != name,
    decreases v.len(),
{
    if v.len() > 0 && v.last().0 != name {
        let w = v.drop_last();
        lemma_find_name(w, name);
        assert(v.last() == v[v.len() - 1]);
        if find_name(v, name) is None {
            assert forall|i: int| 0 <= i < v.len() implies v[i].0 != name by {
                if i < v.len() - 1 {
                    assert(v[i] == w[i]);
                }
            }
        }
        if find_name(v, name) is Some {
            let i = find_name(w, name)->0;
            assert(v[i] == w[i]);
        }
    }
}

pub proof fn lemma_find_name_is(v: Seq<BindingView>, name: Seq<char>, i: int)
    requires
        sorted_names(v),
        0 <= i < v.len(),
        v[i].0 == name,
    ensures
        find_name(v, name) == Some(i),
    decreases v.len(),
{
    if i < v.len() - 1 {
        assert(v.last().0 != name);
        let w = v.drop_last();
        assert(sorted_names(w)) by {
            assert forall|a: int| 0 <= a < w.len() - 1 implies seq_less(#[trigger] w[a].0, w[a + 1].0) by {
                assert(w[a] == v[a] && w[a + 1] == v[a + 1]);
            }
            assert forall|a: int, b: int| 0 <= a < b < w.len() implies #[trigger] w[a].0 != #[trigger] w[b].0 by {
                assert(w[a] == v[a] && w[b] == v[b]);
            }
        }
        lemma_find_name_is(w, name, i);
    }
}

/// The value and sensitivity bound to `name`, if any.
pub open spec fn lookup(v: Seq<BindingView>, name: Seq<char>) -> Option<(Seq<char>, bool)> {
    match find_name(v, name) {
        Some(i) => Some((v[i].1, v[i].2)),
        None => None,
    }
}

/// How many names sort before `name`.
pub open spec fn insert_pos(v: Seq<BindingView>, name: Seq<char>) -> int
    decreases v.len(),
{
    if v.len() == 0 {
        0
    } else if seq_less(v.last().0, name) {
        v.len() as int
    } else {
        insert_pos(v.drop_last(), name)
    }
}

/// Binds `e.0` to `e`'s value: replaces an existing binding in place, or
/// inserts a new one where its name sorts.
pub open spec fn upsert(v: Seq<BindingView>, e: BindingView) -> Seq<BindingView> {
    match find_name(v, e.0) {
        Some(i) => v.update(i, e),
        None => v.insert(insert_pos(v, e.0), e),
    }
}

/// Parameter bindings, in ascending name order without repeated names.
#[derive(Debug)]
pub struct Bindings {
    entries: Vec<BindingEntry>,
}

impl View for Bindings {
    type V = Seq<BindingView>;

    closed spec fn view(&self) -> Seq<BindingView> {
        entries_view(self.entries@)
    }
}

impl Bindings {
    #[verifier::type_invariant]
    closed spec fn wf(self) -> bool {
        sorted_names(entries_view(self.entries@))
    }

    /// No bindings.
    pub fn new() -> (r: Self)
        ensures
            r@.len() == 0,
    {
        let r = Bindings { entries: Vec::new() };
        assert(entries_view(r.entries@) =~= Seq::<BindingView>::empty());
        r
    }

    /// The number of bindings; they are sorted and free of repeated names.
    pub fn len(&self) -> (n: usize)
        ensures
            n == self@.len(),
            sorted_names(self@),
    {
        proof {
            use_type_invariant(self);
        }
        self.entries.len()
    }

    /// The binding at position `i`.
    pub fn entry(&self, i: usize) -> (r: &BindingEntry)
        requires
            i < self@.len(),
        ensures
            entry_view(*r) == self@[i as int],
    {
        &self.entries[i]
    }

    /// The parameter bound to `name`.
    pub fn get(&self, name: &str) -> (r: Option<&BoundParam>)
        ensures
            match lookup(self@, name@) {
                Some(b) => r matches Some(p) && p.value@ == b.0 && p.sensitive == b.1,
                None => r is None,
            },
    {
        let key = chars_of(name);
        self.get_chars(&key)
    }

    /// The parameter bound to the name `key`.
    pub fn get_chars(&self, key: &Vec<char>) -> (r: Option<&BoundParam>)
        ensures
            match lookup(self@, key@) {
                Some(b) => r matches Some(p) && p.value@ == b.0 && p.sensitive == b.1,
                None => r is None,
            },
    {
        proof {
            use_type_invariant(self);
            lemma_find_name(self@, key@);
        }
        let mut i: usize = 0;
        while i < self.entries.len()
            invariant
                i <= self.entries.len(),
                sorted_names(self@),
                self@.len() == self.entries.len(),
                forall|k: int| 0 <= k < i ==> self@[k].0 != key@,
            decreases self.entries.len() - i,
        {
            let e = &self.entries[i];
            let name = chars_of(e.name.as_str());
            assert(self@[i as int] == entry_view(self.entries@[i as int]));
            if crate::text::chars_eq(&name, key) {
                proof {
                    lemma_find_name_is(self@, key@, i as int);
                }
                return Some(&e.param);
            }
            i += 1;
        }
        None
    }

    /// Binds `name` to `param`, replacing an earlier binding of the name.
    pub fn insert(&mut self, name: String, param: BoundParam)
        ensures
            final(self)@ == upsert(old(self)@, (name@, param.value@, param.sensitive)),
    {
        proof {
            use_type_invariant(&*self);
        }
        let ghost v = self@;
        let ghost e = (name@, param.value@, param.sensitive);
        let key = chars_of(name.as_str());
        proof {
            lemma_find_name(v, key@);
        }
        // Replace in place when the name is already bound.
        let mut i: usize = 0;
        while i < self.entries.len()
            invariant
                i <= self.entries.len(),
                v == entries_view(self.entries@),
                sorted_names(v),
                forall|k: int| 0 <= k < i ==> v[k].0 != key@,
                e == (name@, param.value@, param.sensitive),
                key@ == name@,
                v == old(self)@,
                find_name(v, key@) is None ==> forall|k: int| 0 <= k < v.len() ==> v[k].0 != key@,
            decreases self.entries.len() - i,
        {
            let current = chars_of(self.entries[i].name.as_str());
            assert(v[i as int] == entry_view(self.entries@[i as int]));
            if crate::text::chars_eq(&current, &key) {
                proof {
                    lemma_find_name_is(v, key@, i as int);
                }
                let mut entries: Vec<BindingEntry> = Vec::new();
                std::mem::swap(&mut entries, &mut self.entries);
                assert(entries_view(entries@) == v);
                let ghost before = entries@;
                entries.set(i, BindingEntry { name, param });
                assert(entries@ == before.update(i as int, entries@[i as int]));
                assert(entry_view(entries@[i as int]) == e);
                proof {
                    assert(entries_view(entries@) =~= v.update(i as int, e));
                    assert(sorted_names(entries_view(entries@))) by {
                        let w = entries_view(entries@);
                        assert forall|a: int| 0 <= a < w.len() - 1 implies seq_less(#[trigger] w[a].0, w[a + 1].0) by {
                            assert(w[a].0 == v[a].0 && w[a + 1].0 == v[a + 1].0);
                        }
                        assert forall|a: int, b: int| 0 <= a < b < w.len() implies #[trigger] w[a].0 != #[trigger] w[b].0 by {
                            assert(w[a].0 == v[a].0 && w[b].0 == v[b].0);
                        }
                    }
                }
                self.entries = entries;
                return;
            }
            i += 1;
        }
        assert(find_name(v, key@) is None);
        // Otherwise insert before the first name that sorts after it.
        let mut p: usize = 0;
        while p < self.entries.len() && less_chars(&chars_of(self.entries[p].name.as_str()), &key)
            invariant
                p <= self.entries.len(),
                v == entries_view(self.entries@),
                sorted_names(v),
                forall|k: int| 0 <= k < p ==> seq_less(#[trigger] v[k].0, key@),
                e == (name@, param.value@, param.sensitive),
                key@ == name@,
            decreases self.entries.len() - p,
        {
            assert(v[p as int] == entry_view(self.entries@[p as int]));
            p += 1;
        }
        proof {
            if p < v.len() {
                assert(v[p as int] == entry_view(self.entries@[p as int]));
                assert(!seq_less(v[p as int].0, key@));
                assert(v[p as int].0 != key@);
                lemma_less_total(v[p as int].0, key@);
            }
            lemma_insert_pos(v, key@, p as int);
        }
        let mut entries: Vec<BindingEntry> = Vec::new();
        std::mem::swap(&mut entries, &mut self.entries);
        entries.insert(p, BindingEntry { name, param });
        proof {
            let w = entries_view(entries@);
            assert(w =~= v.insert(p as int, e));
            lemma_insert_sorted(v, e, p as int);
        }
        self.entries = entries;
    }
}

/// `insert_pos` is the first position whose name does not sort before
/// `name`.
pub proof fn lemma_insert_pos(v: Seq<BindingView>, name: Seq<char>, p: int)
    requires
        sorted_names(v),
        0 <= p <= v.len(),
        forall|k: int| 0 <= k < p ==> seq_less(#[trigger] v[k].0, name),
        p == v.len() || seq_less(name, v[p].0),
    ensures
        insert_pos(v, name) == p,
    decreases v.len(),
{
    if v.len() > 0 && p < v.len() {
        lemma_less_asymmetric(name, v[p].0);
        if p == v.len() - 1 {
            assert(!seq_less(v.last().0, name));
        } else {
            // the last name sorts after `name` too
            lemma_sorted_after(v, name, p);
            lemma_less_asymmetric(name, v.last().0);
        }
        let w = v.drop_last();
        assert(sorted_names(w)) by {
            assert forall|a: int| 0 <= a < w.len() - 1 implies seq_less(#[trigger] w[a].0, w[a + 1].0) by {
                assert(w[a] == v[a] && w[a + 1] == v[a + 1]);
            }
            assert forall|a: int, b: int| 0 <= a < b < w.len() implies #[trigger] w[a].0 != #[trigger] w[b].0 by {
                assert(w[a] == v[a] && w[b] == v[b]);
            }
        }
        assert forall|k: int| 0 <= k < p implies seq_less(#[trigger] w[k].0, name) by {
            assert(w[k] == v[k]);
        }
        if p < w.len() {
            assert(w[p] == v[p]);
        }
        lemma_insert_pos(w, name, p);
    }
}

/// Every name after position `p` sorts after `name` when `v[p]` does.
pub proof fn lemma_sorted_after(v: Seq<BindingView>, name: Seq<char>, p: int)
    requires
        sorted_names(v),
        0 <= p < v.len(),
        seq_less(name, v[p].0),
    ensures
        forall|k: int| p <= k < v.len() ==> seq_less(name, #[trigger] v[k].0),
    decreases v.len() - p,
{
    if p + 1 < v.len() {
        assert(seq_less(v[p].0, v[p + 1].0));
        lemma_less_transitive(name, v[p].0, v[p + 1].0);
        lemma_sorted_after(v, name, p + 1);
    }
}

pub proof fn lemma_less_transitive(a: Seq<char>, b: Seq<char>, c: Seq<char>)
    requires
        seq_less(a, b),
        seq_less(b, c),
    ensures
        seq_less(a, c),
    decreases a.len(),
{
    if a.len() > 0 && b.len() > 0 && c.len() > 0 && a[0] == b[0] && b[0] == c[0] {
        lemma_less_transitive(a.drop_first(), b.drop_first(), c.drop_first());
    }
}

/// Inserting a new name at its sorted position keeps the names sorted and
/// distinct.
pub proof fn lemma_insert_sorted(v: Seq<BindingView>, e: BindingView, p: int)
    requires
        sorted_names(v),
        0 <= p <= v.len(),
        forall|k: int| 0 <= k < p ==> seq_less(#[trigger] v[k].0, e.0),
        p == v.len() || seq_less(e.0, v[p].0),
    ensures
        sorted_names(v.insert(p, e)),
{
    let w = v.insert(p, e);
    if p < v.len() {
        lemma_sorted_after(v, e.0, p);
    }
    assert forall|a: int| 0 <= a < w.len() - 1 implies seq_less(#[trigger] w[a].0, w[a + 1].0) by {
        if a < p - 1 {
            assert(w[a] == v[a] && w[a + 1] == v[a + 1]);
        } else if a == p - 1 {
            assert(w[a] == v[a] && w[a + 1] == e);
        } else if a == p {
            assert(w[a] == e && w[a + 1] == v[a]);
        } else {
            assert(w[a] == v[a - 1] && w[a + 1] == v[a]);
        }
    }
    assert forall|a: int, b: int| 0 <= a < b < w.len() implies #[trigger] w[a].0 != #[trigger] w[b].0 by {
        if b < p {
            assert(w[a] == v[a] && w[b] == v[b]);
        } else if b == p {
            assert(w[a] == v[a] && w[b] == e);
            lemma_less_asymmetric(v[a].0, e.0);
        } else if a == p {
            assert(w[a] == e && w[b] == v[b - 1]);
            lemma_less_asymmetric(e.0, v[b - 1].0);
        } else if a < p {
            assert(w[a] == v[a] && w[b] == v[b - 1]);
        } else {
            assert(w[a] == v[a - 1] && w[b] == v[b - 1]);
        }
    }
}

/// After binding a name, looking it up gives the new value, and every other
/// name keeps its value.
pub proof fn law_lookup_after_upsert(v: Seq<BindingView>, e: BindingView, other: Seq<char>)
    requires
        sorted_names(v),
        sorted_names(upsert(v, e)),
    ensures
        lookup(upsert(v, e), e.0) == Some((e.1, e.2)),
        other != e.0 ==> lookup(upsert(v, e), other) == lookup(v, other),
{
    let w = upsert(v, e);
    lemma_find_name(v, e.0);
    lemma_find_name(v, other);
    lemma_find_name(w, other);
    match find_name(v, e.0) {
        Some(i) => {
            lemma_find_name_is(w, e.0, i);
            if other != e.0 {
                match find_name(v, other) {
                    Some(j) => {
                        assert(w[j] == v[j]);
                        lemma_find_name_is(w, other, j);
                    },
                    None => {
                        assert forall|k: int| 0 <= k < w.len() implies w[k].0 != other by {
                            if k != i {
                                assert(w[k] == v[k]);
                            }
                        }
                        lemma_find_name_none(w, other);
                    },
                }
            }
        },
        None => {
            let p = insert_pos(v, e.0);
            lemma_insert_pos_range(v, e.0);
            assert(w[p] == e);
            lemma_find_name_is(w, e.0, p);
            if other != e.0 {
                match find_name(v, other) {
                    Some(j) => {
                        let jj = if j < p {
                            j
                        } else {
                            j + 1
                        };
                        assert(w[jj] == v[j]);
                        lemma_find_name_is(w, other, jj);
                    },
                    None => {
                        assert forall|k: int| 0 <= k < w.len() implies w[k].0 != other by {
                            if k < p {
                                assert(w[k] == v[k]);
                            } else if k > p {
                                assert(w[k] == v[k - 1]);
                            }
                        }
                        lemma_find_name_none(w, other);
                    },
                }
            }
        },
    }
}

/// Where a name that is not bound would go: every name before it sorts
/// before the new name, and the one at it after.
pub proof fn lemma_insert_pos_props(v: Seq<BindingView>, name: Seq<char>)
    requires
        sorted_names(v),
        forall|k: int| 0 <= k < v.len() ==> v[k].0 != name,
    ensures
        0 <= insert_pos(v, name) <= v.len(),
        forall|k: int| 0 <= k < insert_pos(v, name) ==> seq_less(#[trigger] v[k].0, name),
        insert_pos(v, name) < v.len() ==> seq_less(name, v[insert_pos(v, name)].0),
    decreases v.len(),
{
    lemma_insert_pos_range(v, name);
    if v.len() > 0 {
        let w = v.drop_last();
        let n = v.len() - 1;
        assert(v.last() == v[n]);
        assert(sorted_names(w)) by {
            assert forall|a: int| 0 <= a < w.len() - 1 implies seq_less(#[trigger] w[a].0, w[a + 1].0) by {
                assert(w[a] == v[a] && w[a + 1] == v[a + 1]);
            }
            assert forall|a: int, b: int| 0 <= a < b < w.len() implies #[trigger] w[a].0 != #[trigger] w[b].0 by {
                assert(w[a] == v[a] && w[b] == v[b]);
            }
        }
        assert forall|k: int| 0 <= k < w.len() implies w[k].0 != name by {
            assert(w[k] == v[k]);
        }
        lemma_insert_pos_props(w, name);
        let pw = insert_pos(w, name);
        if seq_less(v.last().0, name) {
            if pw < w.len() {
                assert(w[pw] == v[pw]);
                lemma_sorted_after(v, name, pw);
                lemma_less_asymmetric(name, v[n].0);
            }
            assert forall|k: int| 0 <= k < v.len() implies seq_less(#[trigger] v[k].0, name) by {
                if k < n {
                    assert(w[k] == v[k]);
                }
            }
        } else {
            assert forall|k: int| 0 <= k < pw implies seq_less(#[trigger] v[k].0, name) by {
                assert(w[k] == v[k]);
            }
            if pw < w.len() {
                assert(w[pw] == v[pw]);
            } else {
                lemma_less_total(v[n].0, name);
            }
        }
    }
}

/// Binding a name keeps the names sorted and distinct.
pub proof fn lemma_upsert_sorted(v: Seq<BindingView>, e: BindingView)
    requires
        sorted_names(v),
    ensures
        sorted_names(upsert(v, e)),
        forall|k: int|
            0 <= k < upsert(v, e).len() ==> #[trigger] upsert(v, e)[k] == e || exists|m: int|
                0 <= m < v.len() && v[m] == upsert(v, e)[k],
{
    let w = upsert(v, e);
    lemma_find_name(v, e.0);
    match find_name(v, e.0) {
        Some(i) => {
            assert forall|a: int| 0 <= a < w.len() implies #[trigger] w[a].0 == v[a].0 by {}
            assert forall|k: int| 0 <= k < w.len() implies #[trigger] w[k] == e || exists|m: int|
                0 <= m < v.len() && v[m] == w[k] by {
                if k != i {
                    assert(v[k] == w[k]);
                }
            }
        },
        None => {
            let p = insert_pos(v, e.0);
            lemma_insert_pos_props(v, e.0);
            lemma_insert_sorted(v, e, p);
            assert forall|k: int| 0 <= k < w.len() implies #[trigger] w[k] == e || exists|m: int|
                0 <= m < v.len() && v[m] == w[k] by {
                if k < p {
                    assert(v[k] == w[k]);
                } else if k > p {
                    assert(v[k - 1] == w[k]);
                }
            }
        },
    }
}

pub proof fn lemma_insert_pos_range(v: Seq<BindingView>, name: Seq<char>)
    ensures
        0 <= insert_pos(v, name) <= v.len(),
    decreases v.len(),
{
    if v.len() > 0 && !seq_less(v.last().0, name) {
        lemma_insert_pos_range(v.drop_last(), name);
    }
}

pub proof fn lemma_find_name_none(v: Seq<BindingView>, name: Seq<char>)
    requires
        forall|k: int| 0 <= k < v.len() ==> v[k].0 != name,
    ensures
        find_name(v, name) is None,
    decreases v.len(),
{
    if v.len() > 0 {
        assert(v.last() == v[v.len() - 1]);
        let w = v.drop_last();
        assert forall|k: int| 0 <= k < w.len() implies w[k].0 != name by {
            assert(w[k] == v[k]);
        }
        lemma_find_name_none(w, name);
    }
}

/// Bytes in the UTF-8 encoding of a character.
pub open spec fn utf8_width(c: char) -> nat {
    if (c as u32) < 0x80 {
        1
    } else if (c as u32) < 0x800 {
        2
    } else if (c as u32) < 0x10000 {
        3
    } else {
        4
    }
}

/// Bytes in the UTF-8 encoding of a text (`str::len`).
pub open spec fn utf8_len(s: Seq<char>) -> nat
    decreases s.len(),
{
    if s.len() == 0 {
        0
    } else {
        utf8_len(s.drop_last()) + utf8_width(s.last())
    }
}

/// `str::len` of the text of `v`.
pub fn utf8_len_exec(v: &Vec<char>) -> (n: u128)
    ensures
        n == utf8_len(v@),
{
    let mut n: u128 = 0;
    let mut i: usize = 0;
    while i < v.len()
        invariant
            i <= v.len(),
            n == utf8_len(v@.take(i as int)),
            n <= 4 * i,
        decreases v.len() - i,
    {
        proof {
            assert(v@.take(i + 1).drop_last() =~= v@.take(i as int));
        }
        let c = v[i] as u32;
        let w: u128 = if c < 0x80 {
            1
        } else if c < 0x800 {
            2
        } else if c < 0x10000 {
            3
        } else {
            4
        };
        n = n + w;
        i += 1;
    }
    assert(v@.take(i as int) =~= v@);
    n
}

pub proof fn lemma_utf8_len_prefix(s: Seq<char>, k: int)
    requires
        0 <= k <= s.len(),
    ensures
        utf8_len(s.take(k)) <= utf8_len(s),
    decreases s.len(),
{
    if k < s.len() {
        assert(s.drop_last().take(k) =~= s.take(k));
        lemma_utf8_len_prefix(s.drop_last(), k);
    } else {
        assert(s.take(k) =~= s);
    }
}

} // verus!
