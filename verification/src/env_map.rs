//! An ordered map from variable names to values.
//!
//! It keeps its entries in ascending order of their names and never holds a
//! name twice, which is what a `BTreeMap<String, String>` keeps; its iteration
//! order is therefore that of a `BTreeMap`.
use vstd::prelude::*;
use crate::text::{chars_of, same_text};

verus! {

/// The order of `str`'s `Ord`: lexicographic, by code point.
pub open spec fn text_less(a: Seq<char>, b: Seq<char>) -> bool
    decreases a.len(),
{
    if a.len() == 0 {
        b.len() > 0
    } else if b.len() == 0 {
        false
    } else if a[0] != b[0] {
        a[0] < b[0]
    } else {
        text_less(a.drop_first(), b.drop_first())
    }
}

pub proof fn lemma_text_less_irreflexive(a: Seq<char>)
    ensures
        !text_less(a, a),
    decreases a.len(),
{
    if a.len() > 0 {
        lemma_text_less_irreflexive(a.drop_first());
    }
}

pub proof fn lemma_text_less_total(a: Seq<char>, b: Seq<char>)
    ensures
        a == b || text_less(a, b) || text_less(b, a),
        !(text_less(a, b) && text_less(b, a)),
    decreases a.len(),
{
    if a.len() > 0 && b.len() > 0 && a[0] == b[0] {
        lemma_text_less_total(a.drop_first(), b.drop_first());
        if a.drop_first() == b.drop_first() {
            assert(a =~= seq![a[0]] + a.drop_first());
            assert(b =~= seq![b[0]] + b.drop_first());
        }
    }
    if a.len() == 0 && b.len() == 0 {
        assert(a =~= b);
    }
}

pub proof fn lemma_text_less_transitive(a: Seq<char>, b: Seq<char>, c: Seq<char>)
    requires
        text_less(a, b),
        text_less(b, c),
    ensures
        text_less(a, c),
    decreases a.len(),
{
    if a.len() > 0 && b.len() > 0 && c.len() > 0 && a[0] == b[0] && b[0] == c[0] {
        lemma_text_less_transitive(a.drop_first(), b.drop_first(), c.drop_first());
    }
}

/// `a < b` for two strings.
pub fn text_less_exec(a: &Vec<char>, b: &Vec<char>) -> (r: bool)
    ensures
        r == text_less(a@, b@),
{
    let mut i: usize = 0;
    assert(a@.skip(0) =~= a@);
    assert(b@.skip(0) =~= b@);
    while i < a.len() && i < b.len()
        invariant
            i <= a@.len(),
            i <= b@.len(),
            text_less(a@, b@) == text_less(a@.skip(i as int), b@.skip(i as int)),
        decreases a.len() - i,
    {
        if a[i] != b[i] {
            return a[i] < b[i];
        }
        assert(a@.skip(i as int).drop_first() =~= a@.skip(i + 1));
        assert(b@.skip(i as int).drop_first() =~= b@.skip(i + 1));
        i += 1;
    }
    i == a.len() && i < b.len()
}

/// The names of the entries are in strictly ascending order.
pub open spec fn sorted_keys(p: Seq<(Seq<char>, Seq<char>)>) -> bool {
    forall|i: int, j: int| 0 <= i < j < p.len() ==> text_less(#[trigger] p[i].0, #[trigger] p[j].0)
}

/// Whether some entry has the name `k`.
pub open spec fn has_key(p: Seq<(Seq<char>, Seq<char>)>, k: Seq<char>) -> bool {
    exists|i: int| 0 <= i < p.len() && (#[trigger] p[i]).0 == k
}

/// The value of the entry named `k`.
pub open spec fn value_of(p: Seq<(Seq<char>, Seq<char>)>, k: Seq<char>) -> Seq<char> {
    p[key_index(p, k)].1
}

/// An index of the entry named `k`.
pub open spec fn key_index(p: Seq<(Seq<char>, Seq<char>)>, k: Seq<char>) -> int {
    choose|i: int| 0 <= i < p.len() && (#[trigger] p[i]).0 == k
}

/// The map that a list of entries with distinct names denotes.
pub open spec fn map_of(p: Seq<(Seq<char>, Seq<char>)>) -> Map<Seq<char>, Seq<char>> {
    Map::new(|k: Seq<char>| has_key(p, k), |k: Seq<char>| value_of(p, k))
}

/// In a list sorted by name, the entry at `i` is the one named `p[i].0`.
pub proof fn lemma_value_at(p: Seq<(Seq<char>, Seq<char>)>, n: int)
    requires
        sorted_keys(p),
        0 <= n < p.len(),
    ensures
        has_key(p, p[n].0),
        value_of(p, p[n].0) == p[n].1,
{
    let k = p[n].0;
    assert(0 <= n < p.len() && p[n].0 == k);
    let c = key_index(p, k);
    if c < n {
        assert(text_less(p[c].0, p[n].0));
        lemma_text_less_irreflexive(k);
    } else if c > n {
        assert(text_less(p[n].0, p[c].0));
        lemma_text_less_irreflexive(k);
    }
    assert(c == n);
}

/// `m` with the entries of `p` inserted in order, later ones winning.
pub open spec fn insert_all(m: Map<Seq<char>, Seq<char>>, p: Seq<(Seq<char>, Seq<char>)>) -> Map<Seq<char>, Seq<char>>
    decreases p.len(),
{
    if p.len() == 0 {
        m
    } else {
        insert_all(m, p.drop_last()).insert(p.last().0, p.last().1)
    }
}

/// Inserting the entries of a sorted list one by one builds the map it denotes.
pub proof fn lemma_insert_all_sorted(p: Seq<(Seq<char>, Seq<char>)>)
    requires
        sorted_keys(p),
    ensures
        insert_all(Map::empty(), p) == map_of(p),
    decreases p.len(),
{
    if p.len() == 0 {
        assert(map_of(p) =~= Map::<Seq<char>, Seq<char>>::empty());
    } else {
        let init = p.drop_last();
        let n = p.len() - 1;
        assert(sorted_keys(init)) by {
            assert forall|i: int, j: int| 0 <= i < j < init.len() implies text_less(#[trigger] init[i].0, #[trigger] init[j].0) by {
                assert(init[i] == p[i] && init[j] == p[j]);
            }
        }
        lemma_insert_all_sorted(init);
        let target = map_of(init).insert(p[n].0, p[n].1);
        assert forall|q: Seq<char>| #[trigger] map_of(p).contains_key(q) <==> target.contains_key(q) by {
            if has_key(p, q) {
                let j = choose|j: int| 0 <= j < p.len() && (#[trigger] p[j]).0 == q;
                if j < n {
                    assert(init[j] == p[j]);
                }
            }
            if has_key(init, q) {
                let j = choose|j: int| 0 <= j < init.len() && (#[trigger] init[j]).0 == q;
                assert(p[j] == init[j]);
            }
            if q == p[n].0 {
                assert(p[n].0 == q);
            }
        }
        assert forall|q: Seq<char>| #[trigger] map_of(p).contains_key(q) implies map_of(p)[q] == target[q] by {
            let j = choose|j: int| 0 <= j < p.len() && (#[trigger] p[j]).0 == q;
            lemma_value_at(p, j);
            if j < n {
                assert(text_less(p[j].0, p[n].0));
                if q == p[n].0 {
                    lemma_text_less_irreflexive(q);
                }
                assert(init[j] == p[j]);
                lemma_value_at(init, j);
            }
        }
        assert(map_of(p) =~= target);
    }
}

/// An ordered map from names to values.
#[derive(Debug, PartialEq, Eq)]
pub struct EnvMap {
    entries: Vec<(String, String)>,
}

impl EnvMap {
    /// The entries, as pairs of character sequences, in ascending order of names.
    pub closed spec fn pairs(&self) -> Seq<(Seq<char>, Seq<char>)> {
        self.entries@.map_values(|e: (String, String)| (e.0@, e.1@))
    }

    #[verifier::type_invariant]
    closed spec fn inv(self) -> bool {
        sorted_keys(self.pairs())
    }

    /// An empty map.
    pub fn new() -> (m: Self)
        ensures
            m.pairs() == Seq::<(Seq<char>, Seq<char>)>::empty(),
            m@ == Map::<Seq<char>, Seq<char>>::empty(),
    {
        let m = EnvMap { entries: Vec::new() };
        assert(m.pairs() =~= Seq::<(Seq<char>, Seq<char>)>::empty());
        assert(m@ =~= Map::<Seq<char>, Seq<char>>::empty());
        m
    }

    /// The number of entries.
    pub fn len(&self) -> (n: usize)
        ensures
            n == self.pairs().len(),
    {
        self.entries.len()
    }

    /// Whether the map has no entry.
    pub fn is_empty(&self) -> (b: bool)
        ensures
            b == (self.pairs().len() == 0),
    {
        self.entries.len() == 0
    }

    /// The entries in ascending order of names.
    pub fn entries(&self) -> (r: &Vec<(String, String)>)
        ensures
            r@.map_values(|e: (String, String)| (e.0@, e.1@)) == self.pairs(),
            sorted_keys(self.pairs()),
    {
        proof {
            use_type_invariant(self);
        }
        &self.entries
    }

    /// The index of the entry named `key`, or the index at which it would go.
    fn position(&self, key: &Vec<char>) -> (r: (usize, bool))
        ensures
            r.0 <= self.pairs().len(),
            forall|j: int| 0 <= j < r.0 ==> text_less(#[trigger] self.pairs()[j].0, key@),
            r.1 ==> r.0 < self.pairs().len() && self.pairs()[r.0 as int].0 == key@,
            !r.1 ==> forall|j: int|
                r.0 <= j < self.pairs().len() ==> text_less(key@, #[trigger] self.pairs()[j].0),
    {
        proof {
            use_type_invariant(self);
        }
        let mut i: usize = 0;
        while i < self.entries.len()
            invariant
                i <= self.entries@.len(),
                sorted_keys(self.pairs()),
                self.pairs().len() == self.entries@.len(),
                forall|j: int| 0 <= j < i ==> text_less(#[trigger] self.pairs()[j].0, key@),
            decreases self.entries.len() - i,
        {
            let name = chars_of(self.entries[i].0.as_str());
            assert(name@ == self.pairs()[i as int].0);
            if !text_less_exec(&name, key) {
                proof {
                    lemma_text_less_total(name@, key@);
                }
                if same_text(&name, key) {
                    return (i, true);
                }
                proof {
                    assert forall|j: int| i <= j < self.pairs().len() implies text_less(
                        key@,
                        #[trigger] self.pairs()[j].0,
                    ) by {
                        if j > i {
                            lemma_text_less_transitive(key@, name@, self.pairs()[j].0);
                        }
                    }
                }
                return (i, false);
            }
            i += 1;
        }
        (i, false)
    }

    /// The value of the entry named `key` (`BTreeMap::get`).
    pub fn get(&self, key: &str) -> (r: Option<&String>)
        ensures
            match r {
                Some(v) => self@.contains_key(key@) && self@[key@] == v@,
                None => !self@.contains_key(key@),
            },
    {
        proof {
            use_type_invariant(self);
        }
        let k = chars_of(key);
        let (i, found) = self.position(&k);
        if found {
            proof {
                lemma_value_at(self.pairs(), i as int);
            }
            Some(&self.entries[i].1)
        } else {
            proof {
                if has_key(self.pairs(), key@) {
                    let j = choose|j: int| 0 <= j < self.pairs().len() && (#[trigger] self.pairs()[j]).0 == key@;
                    if j < i {
                        lemma_text_less_irreflexive(key@);
                    } else {
                        lemma_text_less_irreflexive(key@);
                    }
                }
            }
            None
        }
    }

    /// Sets the value of `key`, in place of any earlier one (`BTreeMap::insert`).
    pub fn insert(&mut self, key: String, value: String)
        ensures
            final(self)@ == old(self)@.insert(key@, value@),
    {
        proof {
            use_type_invariant(&*self);
        }
        let k = chars_of(key.as_str());
        let (i, found) = self.position(&k);
        let ghost old_p = self.pairs();
        let mut entries = Vec::new();
        std::mem::swap(&mut entries, &mut self.entries);
        assert(entries@.map_values(|e: (String, String)| (e.0@, e.1@)) == old_p);
        if found {
            entries.set(i, (key, value));
        } else {
            entries.insert(i, (key, value));
        }
        let ghost new_p = entries@.map_values(|e: (String, String)| (e.0@, e.1@));
        proof {
            if found {
                assert(new_p =~= old_p.update(i as int, (k@, value@)));
                assert forall|a: int, b: int| 0 <= a < b < new_p.len() implies text_less(
                    #[trigger] new_p[a].0,
                    #[trigger] new_p[b].0,
                ) by {
                    assert(text_less(old_p[a].0, old_p[b].0));
                }
            } else {
                assert(new_p =~= old_p.insert(i as int, (k@, value@)));
                assert forall|a: int, b: int| 0 <= a < b < new_p.len() implies text_less(
                    #[trigger] new_p[a].0,
                    #[trigger] new_p[b].0,
                ) by {
                    if b < i {
                        assert(text_less(old_p[a].0, old_p[b].0));
                    } else if b == i {
                        assert(text_less(old_p[a].0, k@));
                    } else if a < i {
                        assert(text_less(old_p[a].0, k@));
                        assert(text_less(k@, old_p[b - 1].0));
                        lemma_text_less_transitive(old_p[a].0, k@, old_p[b - 1].0);
                    } else if a == i {
                        assert(text_less(k@, old_p[b - 1].0));
                    } else {
                        assert(text_less(old_p[a - 1].0, old_p[b - 1].0));
                    }
                }
            }
            assert(sorted_keys(new_p));
            let target = map_of(old_p).insert(k@, value@);
            assert forall|q: Seq<char>| #[trigger] map_of(new_p).contains_key(q) <==> target.contains_key(q) by {
                if has_key(new_p, q) {
                    let j = choose|j: int| 0 <= j < new_p.len() && (#[trigger] new_p[j]).0 == q;
                    if q != k@ {
                        if found {
                            assert(old_p[j].0 == q);
                        } else if j < i {
                            assert(old_p[j].0 == q);
                        } else {
                            assert(old_p[j - 1].0 == q);
                        }
                    }
                }
                if has_key(old_p, q) && q != k@ {
                    let j = choose|j: int| 0 <= j < old_p.len() && (#[trigger] old_p[j]).0 == q;
                    if found {
                        assert(new_p[j].0 == q);
                    } else if j < i {
                        assert(new_p[j].0 == q);
                    } else {
                        assert(new_p[j + 1].0 == q);
                    }
                }
                if q == k@ {
                    assert(new_p[i as int].0 == q);
                }
            }
            assert forall|q: Seq<char>| #[trigger] map_of(new_p).contains_key(q) implies map_of(new_p)[q] == target[q] by {
                let j = choose|j: int| 0 <= j < new_p.len() && (#[trigger] new_p[j]).0 == q;
                lemma_value_at(new_p, j);
                if q == k@ {
                    if j != i {
                        if j < i {
                            lemma_text_less_irreflexive(q);
                        } else if found {
                            assert(text_less(new_p[i as int].0, new_p[j].0));
                            lemma_text_less_irreflexive(q);
                        } else {
                            assert(text_less(new_p[i as int].0, new_p[j].0));
                            lemma_text_less_irreflexive(q);
                        }
                    }
                } else {
                    if found || j < i {
                        assert(old_p[j] == new_p[j]);
                        lemma_value_at(old_p, j);
                    } else {
                        assert(old_p[j - 1] == new_p[j]);
                        lemma_value_at(old_p, j - 1);
                    }
                }
            }
            assert(map_of(new_p) =~= target);
        }
        self.entries = entries;
    }

    /// A map holding the given pairs, later ones in place of earlier ones with the same name.
    pub fn from_pairs(pairs: Vec<(String, String)>) -> (m: Self)
        ensures
            m@ == insert_all(Map::empty(), pairs@.map_values(|e: (String, String)| (e.0@, e.1@))),
    {
        let ghost p = pairs@.map_values(|e: (String, String)| (e.0@, e.1@));
        let mut m = EnvMap::new();
        let mut i: usize = 0;
        assert(p.take(0) =~= Seq::<(Seq<char>, Seq<char>)>::empty());
        while i < pairs.len()
            invariant
                i <= pairs@.len(),
                p == pairs@.map_values(|e: (String, String)| (e.0@, e.1@)),
                m@ == insert_all(Map::empty(), p.take(i as int)),
            decreases pairs.len() - i,
        {
            let k = pairs[i].0.clone();
            let v = pairs[i].1.clone();
            m.insert(k, v);
            assert(p.take(i + 1).drop_last() =~= p.take(i as int));
            assert(p[i as int] == (pairs@[i as int].0@, pairs@[i as int].1@));
            i += 1;
        }
        assert(p.take(pairs@.len() as int) =~= p);
        m
    }
}

impl Clone for EnvMap {
    fn clone(&self) -> (m: Self)
        ensures
            m.pairs() == self.pairs(),
            m@ == self@,
    {
        proof {
            use_type_invariant(self);
        }
        let mut entries: Vec<(String, String)> = Vec::new();
        let mut i: usize = 0;
        while i < self.entries.len()
            invariant
                i <= self.entries@.len(),
                entries@.len() == i,
                forall|j: int| 0 <= j < i ==> (#[trigger] entries@[j]).0@ == self.entries@[j].0@
                    && entries@[j].1@ == self.entries@[j].1@,
            decreases self.entries.len() - i,
        {
            let k = self.entries[i].0.clone();
            let v = self.entries[i].1.clone();
            entries.push((k, v));
            i += 1;
        }
        assert(entries@.map_values(|e: (String, String)| (e.0@, e.1@)) =~= self.pairs());
        let m = EnvMap { entries };
        m
    }
}

impl View for EnvMap {
    type V = Map<Seq<char>, Seq<char>>;

    open spec fn view(&self) -> Map<Seq<char>, Seq<char>> {
        map_of(self.pairs())
    }
}

} // verus!
