use vstd::prelude::*;

use crate::raft::server::raft_cluster::Id;

verus! {

broadcast use vstd::set::group_set_axioms, vstd::seq_lib::seq_to_set_is_finite;

/// The ids of a sequence are strictly increasing.
pub open spec fn ascending(s: Seq<Id>) -> bool {
    forall|i: int, j: int| 0 <= i < j < s.len() ==> s[i].id < s[j].id
}

/// A strictly increasing sequence holds no id twice.
pub proof fn lemma_ascending_no_duplicates(s: Seq<Id>)
    requires
        ascending(s),
    ensures
        s.no_duplicates(),
        s.to_set().len() == s.len(),
{
    assert forall|i: int, j: int| 0 <= i < s.len() && 0 <= j < s.len() && i != j implies s[i]
        != s[j] by {
        if i < j {
            assert(s[i].id < s[j].id);
        } else {
            assert(s[j].id < s[i].id);
        }
    }
    s.unique_seq_to_set();
}

/// A prefix one longer holds exactly one more id.
proof fn lemma_take_succ_to_set(s: Seq<Id>, i: int)
    requires
        0 <= i < s.len(),
    ensures
        s.take(i + 1).to_set() =~= s.take(i).to_set().insert(s[i]),
{
    assert(s.take(i + 1) =~= s.take(i).push(s[i]));
    s.take(i).lemma_push_to_set_commute(s[i]);
}


/// The members of a finite set of ids, by increasing id.
pub open spec fn sorted_ids(s: Set<Id>) -> Seq<Id> {
    choose|q: Seq<Id>| ascending(q) && q.to_set() == s
}

/// Two increasing sequences with the same members are the same sequence.
pub proof fn lemma_ascending_unique(a: Seq<Id>, b: Seq<Id>)
    requires
        ascending(a),
        ascending(b),
        a.to_set() == b.to_set(),
    ensures
        a == b,
    decreases a.len(),
{
    if a.len() == 0 {
        if b.len() > 0 {
            assert(b.to_set().contains(b[0]));
        }
        assert(a =~= b);
    } else {
        assert(a.to_set().contains(a[0]));
        assert(b.len() > 0) by {
            if b.len() == 0 {
                assert(b.to_set() =~= Set::<Id>::empty());
            }
        }
        assert(b.to_set().contains(b[0]));
        let i = choose|i: int| 0 <= i < b.len() && b[i] == a[0];
        let j = choose|j: int| 0 <= j < a.len() && a[j] == b[0];
        if i > 0 {
            assert(b[0].id < b[i].id);
            if j > 0 {
                assert(a[0].id < a[j].id);
            }
        }
        if j > 0 {
            assert(a[0].id < a[j].id);
        }
        assert(a[0] == b[0]);
        let a1 = a.drop_first();
        let b1 = b.drop_first();
        assert(ascending(a1));
        assert(ascending(b1));
        assert forall|x: Id| a1.to_set().contains(x) <==> b1.to_set().contains(x) by {
            if a1.to_set().contains(x) {
                let k = choose|k: int| 0 <= k < a1.len() && a1[k] == x;
                assert(a[k + 1] == x);
                assert(a[0].id < a[k + 1].id);
                assert(a.to_set().contains(x));
                let m = choose|m: int| 0 <= m < b.len() && b[m] == x;
                assert(m != 0);
                assert(b1[m - 1] == x);
            }
            if b1.to_set().contains(x) {
                let k = choose|k: int| 0 <= k < b1.len() && b1[k] == x;
                assert(b[k + 1] == x);
                assert(b[0].id < b[k + 1].id);
                assert(b.to_set().contains(x));
                let m = choose|m: int| 0 <= m < a.len() && a[m] == x;
                assert(m != 0);
                assert(a1[m - 1] == x);
            }
        }
        assert(a1.to_set() =~= b1.to_set());
        lemma_ascending_unique(a1, b1);
        assert(a =~= b) by {
            assert forall|k: int| 0 <= k < a.len() implies a[k] == b[k] by {
                if k > 0 {
                    assert(a[k] == a1[k - 1]);
                    assert(b[k] == b1[k - 1]);
                }
            }
        }
    }
}

/// An increasing sequence is the sorted form of its members.
pub proof fn lemma_sorted_ids(q: Seq<Id>)
    requires
        ascending(q),
    ensures
        sorted_ids(q.to_set()) == q,
{
    let s = q.to_set();
    assert(exists|r: Seq<Id>| ascending(r) && r.to_set() == s);
    let r = sorted_ids(s);
    lemma_ascending_unique(r, q);
}

/// A finite set of ids, held in strictly increasing order.
///
/// Two well-formed sets with the same members are equal values, and walking
/// one gives its members from the smallest id up.
#[derive(Debug, PartialEq, Eq, Default)]
pub struct IdSet {
    pub ids: Vec<Id>,
}

impl View for IdSet {
    type V = Set<Id>;

    open spec fn view(&self) -> Set<Id> {
        self.ids@.to_set()
    }
}

impl IdSet {
    pub open spec fn wf(&self) -> bool {
        ascending(self.ids@)
    }

    pub fn new() -> (r: IdSet)
        ensures
            r.wf(),
            r@ == Set::<Id>::empty(),
    {
        let r = IdSet { ids: Vec::new() };
        assert(r@ =~= Set::<Id>::empty());
        r
    }

}

impl Clone for IdSet {
    fn clone(&self) -> (r: IdSet)
        ensures
            r.ids@ == self.ids@,
    {
        let mut ids: Vec<Id> = Vec::new();
        let mut i: usize = 0;
        while i < self.ids.len()
            invariant
                i <= self.ids.len(),
                ids@ == self.ids@.take(i as int),
            decreases self.ids.len() - i,
        {
            ids.push(self.ids[i]);
            i += 1;
            assert(ids@ =~= self.ids@.take(i as int));
        }
        assert(self.ids@.take(i as int) =~= self.ids@);
        IdSet { ids }
    }
}

impl IdSet {
    pub fn len(&self) -> (r: usize)
        requires
            self.wf(),
        ensures
            r == self@.len(),
    {
        proof {
            lemma_ascending_no_duplicates(self.ids@);
        }
        self.ids.len()
    }

    pub fn contains(&self, id: Id) -> (r: bool)
        ensures
            r == self@.contains(id),
    {
        let mut i: usize = 0;
        while i < self.ids.len()
            invariant
                i <= self.ids.len(),
                forall|j: int| 0 <= j < i ==> self.ids@[j] != id,
            decreases self.ids.len() - i,
        {
            if self.ids[i] == id {
                assert(self.ids@.contains(id));
                return true;
            }
            i += 1;
        }
        false
    }

    /// Adds `id`, keeping the ids in increasing order.
    pub fn insert(&mut self, id: Id)
        requires
            old(self).wf(),
        ensures
            final(self).wf(),
            final(self)@ == old(self)@.insert(id),
    {
        let ghost s = self.ids@;
        let mut pos: usize = 0;
        while pos < self.ids.len() && self.ids[pos].id < id.id
            invariant
                pos <= self.ids.len(),
                self.ids@ == s,
                ascending(s),
                forall|j: int| 0 <= j < pos ==> s[j].id < id.id,
            decreases self.ids.len() - pos,
        {
            pos += 1;
        }
        if pos < self.ids.len() && self.ids[pos].id == id.id {
            assert(self.ids@[pos as int] == id);
            assert(self@ =~= s.to_set().insert(id));
            return;
        }
        self.ids.insert(pos, id);
        proof {
            let t = s.insert(pos as int, id);
            assert(self.ids@ == t);
            assert forall|i: int, j: int| 0 <= i < j < t.len() implies t[i].id < t[j].id by {
                if j < pos {
                } else if j == pos {
                } else if i < pos {
                    assert(t[j] == s[j - 1]);
                    if pos < s.len() {
                        assert(s[pos as int].id > id.id);
                        if j - 1 > pos {
                            assert(s[pos as int].id < s[j - 1].id);
                        }
                    }
                } else if i == pos {
                    assert(t[j] == s[j - 1]);
                    assert(s[pos as int].id > id.id);
                    if j - 1 > pos {
                        assert(s[pos as int].id < s[j - 1].id);
                    }
                } else {
                    assert(t[i] == s[i - 1]);
                    assert(t[j] == s[j - 1]);
                }
            }
            assert forall|x: Id| t.contains(x) <==> s.contains(x) || x == id by {
                if t.contains(x) {
                    let k = choose|k: int| 0 <= k < t.len() && t[k] == x;
                    if k < pos {
                        assert(s[k] == x);
                    } else if k > pos {
                        assert(s[k - 1] == x);
                    }
                }
                if s.contains(x) {
                    let k = choose|k: int| 0 <= k < s.len() && s[k] == x;
                    if k < pos {
                        assert(t[k] == x);
                    } else {
                        assert(t[k + 1] == x);
                    }
                }
                if x == id {
                    assert(t[pos as int] == id);
                }
            }
            assert(self@ =~= s.to_set().insert(id));
        }
    }

    /// The union of two sets.
    pub fn union(&self, other: &IdSet) -> (r: IdSet)
        requires
            self.wf(),
            other.wf(),
        ensures
            r.wf(),
            r@ == self@.union(other@),
    {
        let mut r = self.clone();
        let mut i: usize = 0;
        while i < other.ids.len()
            invariant
                i <= other.ids.len(),
                r.wf(),
                r@ == self@.union(other.ids@.take(i as int).to_set()),
            decreases other.ids.len() - i,
        {
            proof {
                lemma_take_succ_to_set(other.ids@, i as int);
            }
            r.insert(other.ids[i]);
            i += 1;
            assert(r@ =~= self@.union(other.ids@.take(i as int).to_set()));
        }
        assert(other.ids@.take(i as int) =~= other.ids@);
        assert(r@ =~= self@.union(other@));
        r
    }

    /// How many ids the two sets share.
    pub fn count_common(&self, other: &IdSet) -> (r: usize)
        requires
            self.wf(),
        ensures
            r == self@.intersect(other@).len(),
    {
        let mut count: usize = 0;
        let mut i: usize = 0;
        proof {
            lemma_ascending_no_duplicates(self.ids@);
            assert(self.ids@.take(0).to_set().intersect(other@) =~= Set::<Id>::empty());
        }
        while i < self.ids.len()
            invariant
                i <= self.ids.len(),
                ascending(self.ids@),
                count <= i,
                count == self.ids@.take(i as int).to_set().intersect(other@).len(),
            decreases self.ids.len() - i,
        {
            let ghost before = self.ids@.take(i as int).to_set().intersect(other@);
            let x = self.ids[i];
            proof {
                lemma_take_succ_to_set(self.ids@, i as int);
                assert(!self.ids@.take(i as int).contains(x)) by {
                    if self.ids@.take(i as int).contains(x) {
                        let k = choose|k: int| 0 <= k < i && self.ids@.take(i as int)[k] == x;
                        assert(self.ids@[k].id < self.ids@[i as int].id);
                    }
                }
            }
            if other.contains(x) {
                assert(self.ids@.take(i + 1).to_set().intersect(other@) =~= before.insert(x));
                count += 1;
            } else {
                assert(self.ids@.take(i + 1).to_set().intersect(other@) =~= before);
            }
            i += 1;
        }
        assert(self.ids@.take(i as int) =~= self.ids@);
        count
    }
}


/// The keys of a sequence of pairs are strictly increasing.
pub open spec fn ascending_keys(s: Seq<(Id, usize)>) -> bool {
    forall|i: int, j: int| 0 <= i < j < s.len() ==> s[i].0.id < s[j].0.id
}

/// The position of `k` among the keys of `s`, where it occurs.
pub open spec fn key_index(s: Seq<(Id, usize)>, k: Id) -> int {
    choose|i: int| 0 <= i < s.len() && s[i].0 == k
}

pub open spec fn has_key(s: Seq<(Id, usize)>, k: Id) -> bool {
    exists|i: int| 0 <= i < s.len() && s[i].0 == k
}

/// The map that a sequence of (key, value) pairs with distinct keys stands for.
pub open spec fn map_of(s: Seq<(Id, usize)>) -> Map<Id, usize> {
    Map::new(|k: Id| has_key(s, k), |k: Id| s[key_index(s, k)].1)
}

/// In a sequence with increasing keys, the pair at `i` is what the map holds for its key.
pub proof fn lemma_map_of_at(s: Seq<(Id, usize)>, i: int)
    requires
        ascending_keys(s),
        0 <= i < s.len(),
    ensures
        map_of(s).contains_key(s[i].0),
        map_of(s)[s[i].0] == s[i].1,
        key_index(s, s[i].0) == i,
{
    let k = s[i].0;
    assert(has_key(s, k));
    let j = key_index(s, k);
    if j < i {
        assert(s[j].0.id < s[i].0.id);
    } else if j > i {
        assert(s[i].0.id < s[j].0.id);
    }
}

/// A finite map from ids to indices, held as pairs in strictly increasing key order.
#[derive(Debug, PartialEq, Eq, Default)]
pub struct IdMap {
    pub entries: Vec<(Id, usize)>,
}

impl View for IdMap {
    type V = Map<Id, usize>;

    open spec fn view(&self) -> Map<Id, usize> {
        map_of(self.entries@)
    }
}

impl Clone for IdMap {
    fn clone(&self) -> (r: IdMap)
        ensures
            r.entries@ == self.entries@,
    {
        let mut entries: Vec<(Id, usize)> = Vec::new();
        let mut i: usize = 0;
        while i < self.entries.len()
            invariant
                i <= self.entries.len(),
                entries@ == self.entries@.take(i as int),
            decreases self.entries.len() - i,
        {
            entries.push(self.entries[i]);
            i += 1;
            assert(entries@ =~= self.entries@.take(i as int));
        }
        assert(self.entries@.take(i as int) =~= self.entries@);
        IdMap { entries }
    }
}

impl IdMap {
    pub open spec fn wf(&self) -> bool {
        ascending_keys(self.entries@)
    }

    /// The map that sends each of `keys` to `value`.
    pub fn from_keys(keys: &Vec<Id>, value: usize) -> (r: IdMap)
        requires
            ascending(keys@),
        ensures
            r.wf(),
            r@ == Map::new(|k: Id| keys@.contains(k), |k: Id| value),
    {
        let mut entries: Vec<(Id, usize)> = Vec::new();
        let mut i: usize = 0;
        while i < keys.len()
            invariant
                i <= keys.len(),
                entries.len() == i,
                forall|j: int| 0 <= j < i ==> #[trigger] entries@[j] == (keys@[j], value),
            decreases keys.len() - i,
        {
            entries.push((keys[i], value));
            i += 1;
        }
        let r = IdMap { entries };
        proof {
            assert forall|k: Id| #[trigger] keys@.contains(k) <==> has_key(r.entries@, k) by {
                if keys@.contains(k) {
                    let j = choose|j: int| 0 <= j < keys.len() && keys@[j] == k;
                    assert(r.entries@[j].0 == k);
                }
            }
            assert forall|k: Id| #[trigger] r@.contains_key(k) implies r@[k] == value by {
                let j = key_index(r.entries@, k);
                assert(r.entries@[j] == (keys@[j], value));
            }
            assert(r@ =~= Map::new(|k: Id| keys@.contains(k), |k: Id| value));
        }
        r
    }

    /// The value held for `k`, if any.
    pub fn get(&self, k: Id) -> (r: Option<usize>)
        requires
            self.wf(),
        ensures
            r == (if self@.contains_key(k) {
                Some(self@[k])
            } else {
                None
            }),
    {
        let mut i: usize = 0;
        while i < self.entries.len()
            invariant
                i <= self.entries.len(),
                self.wf(),
                forall|j: int| 0 <= j < i ==> self.entries@[j].0 != k,
            decreases self.entries.len() - i,
        {
            if self.entries[i].0 == k {
                proof {
                    lemma_map_of_at(self.entries@, i as int);
                }
                return Some(self.entries[i].1);
            }
            i += 1;
        }
        assert(!has_key(self.entries@, k));
        None
    }

    /// Sets the value held for `k`, adding `k` where it is missing.
    pub fn insert(&mut self, k: Id, v: usize)
        requires
            old(self).wf(),
        ensures
            final(self).wf(),
            final(self)@ == old(self)@.insert(k, v),
    {
        let ghost s = self.entries@;
        let mut pos: usize = 0;
        while pos < self.entries.len() && self.entries[pos].0.id < k.id
            invariant
                pos <= self.entries.len(),
                self.entries@ == s,
                ascending_keys(s),
                forall|j: int| 0 <= j < pos ==> s[j].0.id < k.id,
            decreases self.entries.len() - pos,
        {
            pos += 1;
        }
        if pos < self.entries.len() && self.entries[pos].0.id == k.id {
            self.entries.set(pos, (k, v));
            proof {
                let t = s.update(pos as int, (k, v));
                assert(self.entries@ == t);
                assert(s[pos as int].0 == k);
                assert forall|i: int, j: int| 0 <= i < j < t.len() implies t[i].0.id
                    < t[j].0.id by {
                    assert(s[i].0.id < s[j].0.id);
                }
                assert forall|x: Id| has_key(t, x) <==> has_key(s, x) by {
                    if has_key(t, x) {
                        let j = choose|j: int| 0 <= j < t.len() && t[j].0 == x;
                        assert(s[j].0 == x);
                    }
                    if has_key(s, x) {
                        let j = choose|j: int| 0 <= j < s.len() && s[j].0 == x;
                        assert(t[j].0 == x);
                    }
                }
                assert forall|x: Id| has_key(t, x) implies map_of(t)[x] == (if x == k {
                    v
                } else {
                    map_of(s)[x]
                }) by {
                    let j = choose|j: int| 0 <= j < t.len() && t[j].0 == x;
                    lemma_map_of_at(t, j);
                    if j != pos {
                        assert(s[j] == t[j]);
                        lemma_map_of_at(s, j);
                    }
                }
                assert(self@ =~= map_of(s).insert(k, v));
            }
            return;
        }
        self.entries.insert(pos, (k, v));
        proof {
            let t = s.insert(pos as int, (k, v));
            assert(self.entries@ == t);
            assert forall|i: int, j: int| 0 <= i < j < t.len() implies t[i].0.id < t[j].0.id by {
                if j < pos {
                } else if j == pos {
                } else if i < pos {
                    assert(t[j] == s[j - 1]);
                    if pos < s.len() {
                        assert(s[pos as int].0.id > k.id);
                        if j - 1 > pos {
                            assert(s[pos as int].0.id < s[j - 1].0.id);
                        }
                    }
                } else if i == pos {
                    assert(t[j] == s[j - 1]);
                    assert(s[pos as int].0.id > k.id);
                    if j - 1 > pos {
                        assert(s[pos as int].0.id < s[j - 1].0.id);
                    }
                } else {
                    assert(t[i] == s[i - 1]);
                    assert(t[j] == s[j - 1]);
                }
            }
            assert forall|x: Id| has_key(t, x) <==> has_key(s, x) || x == k by {
                if has_key(t, x) {
                    let j = choose|j: int| 0 <= j < t.len() && t[j].0 == x;
                    if j < pos {
                        assert(s[j].0 == x);
                    } else if j > pos {
                        assert(s[j - 1].0 == x);
                    }
                }
                if has_key(s, x) {
                    let j = choose|j: int| 0 <= j < s.len() && s[j].0 == x;
                    if j < pos {
                        assert(t[j].0 == x);
                    } else {
                        assert(t[j + 1].0 == x);
                    }
                }
                if x == k {
                    assert(t[pos as int].0 == k);
                }
            }
            assert forall|x: Id| has_key(t, x) implies map_of(t)[x] == (if x == k {
                v
            } else {
                map_of(s)[x]
            }) by {
                let j = choose|j: int| 0 <= j < t.len() && t[j].0 == x;
                lemma_map_of_at(t, j);
                if j < pos {
                    assert(s[j] == t[j]);
                    lemma_map_of_at(s, j);
                } else if j > pos {
                    assert(s[j - 1] == t[j]);
                    lemma_map_of_at(s, j - 1);
                }
            }
            assert(self@ =~= map_of(s).insert(k, v));
        }
    }

    /// The keys whose value is at least `n`.
    pub fn keys_at_least(&self, n: usize) -> (r: IdSet)
        requires
            self.wf(),
        ensures
            r.wf(),
            r@ == Set::new(|k: Id| self@.contains_key(k) && self@[k] >= n),
    {
        let mut ids: Vec<Id> = Vec::new();
        let mut i: usize = 0;
        while i < self.entries.len()
            invariant
                i <= self.entries.len(),
                self.wf(),
                ascending(ids@),
                forall|j: int, m: int|
                    0 <= j < ids.len() && i <= m < self.entries.len() ==> #[trigger] ids@[j].id
                        < #[trigger] self.entries@[m].0.id,
                forall|m: int| 0 <= m < i && self.entries@[m].1 >= n ==> ids@.contains(
                    #[trigger] self.entries@[m].0,
                ),
                forall|x: Id| #[trigger] ids@.contains(x) ==> exists|m: int|
                    0 <= m < i && self.entries@[m].0 == x && self.entries@[m].1 >= n,
            decreases self.entries.len() - i,
        {
            let (k, v) = self.entries[i];
            if v >= n {
                let ghost before = ids@;
                ids.push(k);
                proof {
                    assert forall|a: int, b: int| 0 <= a < b < ids.len() implies ids@[a].id
                        < ids@[b].id by {
                        if b == ids.len() - 1 {
                            assert(before[a].id < self.entries@[i as int].0.id);
                        } else {
                            assert(before[a].id < before[b].id);
                        }
                    }
                    assert forall|j: int, m: int|
                        0 <= j < ids.len() && i + 1 <= m < self.entries.len() implies #[trigger] ids@[j].id
                        < #[trigger] self.entries@[m].0.id by {
                        if j < before.len() {
                            assert(before[j].id < self.entries@[m].0.id);
                        } else {
                            assert(self.entries@[i as int].0.id < self.entries@[m].0.id);
                        }
                    }
                    assert forall|x: Id| #[trigger] ids@.contains(x) implies exists|m: int|
                        0 <= m < i + 1 && self.entries@[m].0 == x && self.entries@[m].1 >= n by {
                        let j = choose|j: int| 0 <= j < ids.len() && ids@[j] == x;
                        if j < before.len() {
                            assert(before.contains(x));
                        } else {
                            assert(self.entries@[i as int].0 == x);
                        }
                    }
                    assert forall|m: int| 0 <= m < i + 1 && self.entries@[m].1 >= n implies ids@.contains(
                        #[trigger] self.entries@[m].0,
                    ) by {
                        if m < i {
                            assert(before.contains(self.entries@[m].0));
                            let j = choose|j: int| 0 <= j < before.len() && before[j] == self.entries@[m].0;
                            assert(ids@[j] == self.entries@[m].0);
                        } else {
                            assert(ids@[ids.len() - 1] == self.entries@[m].0);
                        }
                    }
                }
            }
            i += 1;
        }
        let r = IdSet { ids };
        proof {
            assert forall|x: Id| r@.contains(x) <==> (self@.contains_key(x) && self@[x] >= n) by {
                if r@.contains(x) {
                    let m = choose|m: int|
                        0 <= m < i && self.entries@[m].0 == x && self.entries@[m].1 >= n;
                    lemma_map_of_at(self.entries@, m);
                }
                if self@.contains_key(x) && self@[x] >= n {
                    let m = key_index(self.entries@, x);
                    assert(self.entries@[m].0 == x);
                    assert(ids@.contains(self.entries@[m].0));
                }
            }
            assert(r@ =~= Set::new(|k: Id| self@.contains_key(k) && self@[k] >= n));
        }
        r
    }
}

} // verus!
