use vstd::prelude::*;

use crate::value::bytes_eq;

verus! {

/// The bindings of an association list, later entries overriding earlier ones.
pub open spec fn assoc_map<V: View>(s: Seq<(Vec<u8>, V)>) -> Map<Seq<u8>, V::V>
    decreases s.len(),
{
    if s.len() == 0 {
        Map::empty()
    } else {
        assoc_map(s.drop_last()).insert(s.last().0@, s.last().1@)
    }
}

/// No two entries bind the same key.
pub open spec fn assoc_unique<V>(s: Seq<(Vec<u8>, V)>) -> bool {
    forall|i: int, j: int| 0 <= i < j < s.len() ==> (#[trigger] s[i].0@) != (#[trigger] s[j].0@)
}

pub proof fn lemma_assoc_contains<V: View>(s: Seq<(Vec<u8>, V)>, k: Seq<u8>)
    ensures
        assoc_map(s).contains_key(k) <==> exists|i: int| 0 <= i < s.len()
            && (#[trigger] s[i].0@) == k,
    decreases s.len(),
{
    if s.len() > 0 {
        lemma_assoc_contains(s.drop_last(), k);
        if s.last().0@ == k {
            assert(s[s.len() - 1].0@ == k);
        } else if assoc_map(s).contains_key(k) {
            let i = choose|i: int| 0 <= i < s.drop_last().len()
                && (#[trigger] s.drop_last()[i].0@) == k;
            assert(s[i].0@ == k);
        } else {
            assert forall|i: int| 0 <= i < s.len() implies (#[trigger] s[i].0@) != k by {
                if i < s.len() - 1 {
                    assert(s.drop_last()[i].0@ == s[i].0@);
                }
            }
        }
    }
}

pub proof fn lemma_assoc_find<V: View>(s: Seq<(Vec<u8>, V)>, i: int)
    requires
        assoc_unique(s),
        0 <= i < s.len(),
    ensures
        assoc_map(s).contains_key(s[i].0@),
        assoc_map(s)[s[i].0@] == s[i].1@,
    decreases s.len(),
{
    if i == s.len() - 1 {
    } else {
        assert(assoc_unique(s.drop_last())) by {
            assert forall|a: int, b: int| 0 <= a < b < s.drop_last().len() implies (
            #[trigger] s.drop_last()[a].0@) != (#[trigger] s.drop_last()[b].0@) by {
                assert(s[a].0@ != s[b].0@);
            }
        }
        assert(s.drop_last()[i] == s[i]);
        lemma_assoc_find(s.drop_last(), i);
        assert(s[i].0@ != s.last().0@);
    }
}

pub proof fn lemma_assoc_unique_drop_last<V>(s: Seq<(Vec<u8>, V)>)
    requires
        assoc_unique(s),
        s.len() > 0,
    ensures
        assoc_unique(s.drop_last()),
{
    assert forall|a: int, b: int| 0 <= a < b < s.drop_last().len() implies (
    #[trigger] s.drop_last()[a].0@) != (#[trigger] s.drop_last()[b].0@) by {
        assert(s[a].0@ != s[b].0@);
    }
}

pub proof fn lemma_assoc_remove<V: View>(s: Seq<(Vec<u8>, V)>, i: int)
    requires
        assoc_unique(s),
        0 <= i < s.len(),
    ensures
        assoc_unique(s.remove(i)),
        assoc_map(s.remove(i)) == assoc_map(s).remove(s[i].0@),
    decreases s.len(),
{
    let k = s[i].0@;
    assert(assoc_unique(s.remove(i))) by {
        assert forall|a: int, b: int| 0 <= a < b < s.remove(i).len() implies (
        #[trigger] s.remove(i)[a].0@) != (#[trigger] s.remove(i)[b].0@) by {
            let a0: int = if a < i { a } else { a + 1 };
            let b0: int = if b < i { b } else { b + 1 };
            assert(s.remove(i)[a] == s[a0] && s.remove(i)[b] == s[b0]);
            assert(s[a0].0@ != s[b0].0@);
        }
    }
    if i == s.len() - 1 {
        assert(s.remove(i) =~= s.drop_last());
        lemma_assoc_contains(s.drop_last(), k);
        assert forall|j: int| 0 <= j < s.drop_last().len() implies (
        #[trigger] s.drop_last()[j].0@) != k by {
            assert(s[j].0@ != s[s.len() - 1].0@);
        }
        assert(!assoc_map(s.drop_last()).contains_key(k));
        assert(assoc_map(s.drop_last()) =~= assoc_map(s.drop_last()).insert(k,
            s.last().1@).remove(k));
    } else {
        let dl = s.drop_last();
        lemma_assoc_unique_drop_last(s);
        lemma_assoc_remove(dl, i);
        assert(s.remove(i) =~= dl.remove(i).push(s.last()));
        assert(dl.remove(i).push(s.last()).drop_last() =~= dl.remove(i));
        assert(assoc_map(s.remove(i)) == assoc_map(dl.remove(i)).insert(s.last().0@,
            s.last().1@));
        assert(s[i].0@ == dl[i].0@);
        assert(s.last().0@ != k);
        assert(assoc_map(dl).remove(k).insert(s.last().0@, s.last().1@) =~= assoc_map(
            dl,
        ).insert(s.last().0@, s.last().1@).remove(k));
    }
}

pub proof fn lemma_assoc_push<V: View>(s: Seq<(Vec<u8>, V)>, key: Vec<u8>, val: V)
    requires
        assoc_unique(s),
        forall|i: int| 0 <= i < s.len() ==> (#[trigger] s[i].0@) != key@,
    ensures
        assoc_unique(s.push((key, val))),
        assoc_map(s.push((key, val))) == assoc_map(s).insert(key@, val@),
{
    let w = s.push((key, val));
    assert(w.drop_last() =~= s);
    assert(assoc_unique(w)) by {
        assert forall|a: int, b: int| 0 <= a < b < w.len() implies (#[trigger] w[a].0@) != (
        #[trigger] w[b].0@) by {
            if b < s.len() {
                assert(w[a] == s[a] && w[b] == s[b]);
            } else {
                assert(w[a] == s[a] && w[b] == (key, val));
            }
        }
    }
}

/// The keyspace: the main key/value bindings and the parallel expiry
/// deadlines, in milliseconds since the Unix epoch.
///
/// Keys and payloads are the byte contents of bulk strings. Every key with a
/// deadline is also bound in the main store; a key without a deadline never
/// expires.
pub struct Store {
    main: Vec<(Vec<u8>, Vec<u8>)>,
    expiry: Vec<(Vec<u8>, u64)>,
}

impl Store {
    /// The main key/value bindings.
    pub closed spec fn main_view(&self) -> Map<Seq<u8>, Seq<u8>> {
        assoc_map(self.main@)
    }

    /// The expiry deadlines.
    pub closed spec fn expiry_view(&self) -> Map<Seq<u8>, u64> {
        assoc_map(self.expiry@)
    }

    /// Internal consistency: one binding per key, and deadlines only for
    /// bound keys.
    pub closed spec fn wf(&self) -> bool {
        &&& assoc_unique(self.main@)
        &&& assoc_unique(self.expiry@)
        &&& forall|k: Seq<u8>| self.expiry_view().contains_key(k)
            ==> self.main_view().contains_key(k)
    }

    /// The key is bound and its deadline, if any, has not passed.
    pub open spec fn spec_live(&self, k: Seq<u8>, now: u64) -> bool {
        &&& self.main_view().contains_key(k)
        &&& (self.expiry_view().contains_key(k) ==> self.expiry_view()[k] > now)
    }

    pub fn new() -> (s: Store)
        ensures
            s.wf(),
            s.main_view() == Map::<Seq<u8>, Seq<u8>>::empty(),
            s.expiry_view() == Map::<Seq<u8>, u64>::empty(),
    {
        Store { main: Vec::new(), expiry: Vec::new() }
    }

    fn find_main(&self, key: &Vec<u8>) -> (r: Option<usize>)
        ensures
            (match r {
                Option::Some(i) => i < self.main@.len() && self.main@[i as int].0@ == key@,
                Option::None => forall|i: int| 0 <= i < self.main@.len()
                    ==> (#[trigger] self.main@[i].0@) != key@,
            }),
    {
        let mut i: usize = 0;
        while i < self.main.len()
            invariant
                i <= self.main@.len(),
                forall|j: int| 0 <= j < i ==> (#[trigger] self.main@[j].0@) != key@,
            decreases self.main@.len() - i,
        {
            if bytes_eq(&self.main[i].0, key) {
                return Option::Some(i);
            }
            i += 1;
        }
        Option::None
    }

    fn find_expiry(&self, key: &Vec<u8>) -> (r: Option<usize>)
        ensures
            (match r {
                Option::Some(i) => i < self.expiry@.len() && self.expiry@[i as int].0@ == key@,
                Option::None => forall|i: int| 0 <= i < self.expiry@.len()
                    ==> (#[trigger] self.expiry@[i].0@) != key@,
            }),
    {
        let mut i: usize = 0;
        while i < self.expiry.len()
            invariant
                i <= self.expiry@.len(),
                forall|j: int| 0 <= j < i ==> (#[trigger] self.expiry@[j].0@) != key@,
            decreases self.expiry@.len() - i,
        {
            if bytes_eq(&self.expiry[i].0, key) {
                return Option::Some(i);
            }
            i += 1;
        }
        Option::None
    }

    /// Binds `key` to `val`; with a deadline, also records it. Without one,
    /// any prior deadline is left in place.
    pub fn set(&mut self, key: Vec<u8>, val: Vec<u8>, deadline: Option<u64>)
        requires
            old(self).wf(),
        ensures
            final(self).wf(),
            final(self).main_view() == old(self).main_view().insert(key@, val@),
            (match deadline {
                Option::Some(d) => final(self).expiry_view() == old(self).expiry_view().insert(
                    key@,
                    d,
                ),
                Option::None => final(self).expiry_view() == old(self).expiry_view(),
            }),
    {
        let key2 = crate::serde::copy_range(&key, 0, key.len());
        proof {
            assert(key2@ =~= key@);
        }
        match self.find_main(&key) {
            Option::Some(i) => {
                proof {
                    lemma_assoc_remove(self.main@, i as int);
                }
                self.main.remove(i);
                proof {
                    lemma_assoc_contains(self.main@, key@);
                    assert(forall|j: int| 0 <= j < self.main@.len()
                        ==> (#[trigger] self.main@[j].0@) != key@) by {
                        lemma_assoc_contains(self.main@, key@);
                        assert(!assoc_map(self.main@).contains_key(key@));
                    }
                }
            },
            Option::None => {},
        }
        proof {
            lemma_assoc_push(self.main@, key, val);
            assert(assoc_map(self.main@).remove(key@).insert(key@, val@) =~= assoc_map(
                self.main@,
            ).insert(key@, val@));
        }
        self.main.push((key, val));
        match deadline {
            Option::Some(d) => {
                match self.find_expiry(&key2) {
                    Option::Some(i) => {
                        proof {
                            lemma_assoc_remove(self.expiry@, i as int);
                        }
                        self.expiry.remove(i);
                        proof {
                            lemma_assoc_contains(self.expiry@, key2@);
                            assert(!assoc_map(self.expiry@).contains_key(key2@));
                        }
                    },
                    Option::None => {},
                }
                proof {
                    lemma_assoc_push(self.expiry@, key2, d);
                    assert(assoc_map(self.expiry@).remove(key2@).insert(key2@, d) =~= assoc_map(
                        self.expiry@,
                    ).insert(key2@, d));
                }
                self.expiry.push((key2, d));
            },
            Option::None => {},
        }
        proof {
            assert forall|k: Seq<u8>| final(self).expiry_view().contains_key(k)
                implies final(self).main_view().contains_key(k) by {
                if k != key2@ {
                    assert(old(self).expiry_view().contains_key(k));
                }
            }
        }
    }

    /// Looks `key` up. An entry whose deadline has passed is removed from
    /// both stores and reported as absent.
    pub fn get(&mut self, key: &Vec<u8>, now: u64) -> (r: Option<Vec<u8>>)
        requires
            old(self).wf(),
        ensures
            final(self).wf(),
            old(self).spec_live(key@, now) ==> (r matches Option::Some(v)
                && v@ == old(self).main_view()[key@]
                && final(self).main_view() == old(self).main_view()
                && final(self).expiry_view() == old(self).expiry_view()),
            (old(self).main_view().contains_key(key@) && !old(self).spec_live(key@, now)) ==> (
            r is None
                && final(self).main_view() == old(self).main_view().remove(key@)
                && final(self).expiry_view() == old(self).expiry_view().remove(key@)),
            !old(self).main_view().contains_key(key@) ==> (r is None
                && final(self).main_view() == old(self).main_view()
                && final(self).expiry_view() == old(self).expiry_view()),
    {
        let idx = match self.find_main(key) {
            Option::None => {
                proof {
                    lemma_assoc_contains(self.main@, key@);
                }
                return Option::None;
            },
            Option::Some(i) => i,
        };
        proof {
            lemma_assoc_find(self.main@, idx as int);
        }
        let expired: bool = match self.find_expiry(key) {
            Option::Some(j) => {
                proof {
                    lemma_assoc_find(self.expiry@, j as int);
                }
                self.expiry[j].1 <= now
            },
            Option::None => {
                proof {
                    lemma_assoc_contains(self.expiry@, key@);
                }
                false
            },
        };
        if expired {
            proof {
                lemma_assoc_remove(self.main@, idx as int);
            }
            self.main.remove(idx);
            match self.find_expiry(key) {
                Option::Some(j) => {
                    proof {
                        lemma_assoc_remove(self.expiry@, j as int);
                    }
                    self.expiry.remove(j);
                },
                Option::None => {
                    proof {
                        lemma_assoc_contains(self.expiry@, key@);
                        assert(self.expiry_view() =~= self.expiry_view().remove(key@));
                    }
                },
            }
            proof {
                assert forall|k: Seq<u8>| final(self).expiry_view().contains_key(k)
                    implies final(self).main_view().contains_key(k) by {
                    assert(old(self).expiry_view().contains_key(k));
                    assert(k != key@);
                }
            }
            Option::None
        } else {
            let entry_val = &self.main[idx].1;
            let out = crate::serde::copy_range(entry_val, 0, entry_val.len());
            proof {
                assert(out@ =~= self.main@[idx as int].1@);
            }
            Option::Some(out)
        }
    }

    /// Every live key: those bound in the main store whose deadline, if any,
    /// has not passed. No key appears twice.
    pub fn keys(&self, now: u64) -> (r: Vec<Vec<u8>>)
        requires
            self.wf(),
        ensures
            forall|i: int| 0 <= i < r@.len() ==> self.spec_live(#[trigger] r@[i]@, now),
            forall|k: Seq<u8>| self.spec_live(k, now) ==> exists|i: int| 0 <= i < r@.len()
                && (#[trigger] r@[i]@) == k,
            forall|i: int, j: int| 0 <= i < j < r@.len()
                ==> (#[trigger] r@[i]@) != (#[trigger] r@[j]@),
    {
        let mut out: Vec<Vec<u8>> = Vec::new();
        let mut i: usize = 0;
        while i < self.main.len()
            invariant
                self.wf(),
                i <= self.main@.len(),
                forall|a: int| 0 <= a < out@.len() ==> self.spec_live(#[trigger] out@[a]@, now),
                forall|j: int| 0 <= j < i && self.spec_live(#[trigger] self.main@[j].0@, now)
                    ==> exists|a: int| 0 <= a < out@.len() && (#[trigger] out@[a]@)
                        == self.main@[j].0@,
                forall|a: int, b: int| 0 <= a < b < out@.len()
                    ==> (#[trigger] out@[a]@) != (#[trigger] out@[b]@),
                forall|a: int| 0 <= a < out@.len() ==> exists|j: int| 0 <= j < i
                    && (#[trigger] out@[a]@) == self.main@[j].0@,
            decreases self.main@.len() - i,
        {
            let entry_key = &self.main[i].0;
            proof {
                lemma_assoc_find(self.main@, i as int);
            }
            let live: bool = match self.find_expiry(entry_key) {
                Option::Some(j) => {
                    proof {
                        lemma_assoc_find(self.expiry@, j as int);
                    }
                    self.expiry[j].1 > now
                },
                Option::None => {
                    proof {
                        lemma_assoc_contains(self.expiry@, entry_key@);
                    }
                    true
                },
            };
            if live {
                let ghost pre = out@;
                let k2 = crate::serde::copy_range(entry_key, 0, entry_key.len());
                proof {
                    assert(k2@ =~= self.main@[i as int].0@);
                    assert forall|a: int| 0 <= a < pre.len() implies (#[trigger] pre[a]@)
                        != k2@ by {
                        let j = choose|j: int| 0 <= j < i && (#[trigger] pre[a]@)
                            == self.main@[j].0@;
                        assert(self.main@[j].0@ != self.main@[i as int].0@);
                    }
                }
                out.push(k2);
                proof {
                    assert(out@ == pre.push(k2));
                    assert(out@[pre.len() as int]@ == self.main@[i as int].0@);
                    assert forall|a: int| 0 <= a < pre.len() implies out@[a] == pre[a] by {}
                    assert forall|j: int| 0 <= j < i + 1 && self.spec_live(
                        #[trigger] self.main@[j].0@,
                        now,
                    ) implies exists|a: int| 0 <= a < out@.len() && (#[trigger] out@[a]@)
                        == self.main@[j].0@ by {
                        if j < i {
                            let a = choose|a: int| 0 <= a < pre.len() && (#[trigger] pre[a]@)
                                == self.main@[j].0@;
                            assert(out@[a]@ == self.main@[j].0@);
                        }
                    }
                    assert forall|a: int, b: int| 0 <= a < b < out@.len() implies (
                    #[trigger] out@[a]@) != (#[trigger] out@[b]@) by {
                        if b < pre.len() {
                            assert(pre[a]@ != pre[b]@);
                        } else {
                            assert(pre[a]@ != k2@);
                        }
                    }
                    assert forall|a: int| 0 <= a < out@.len() implies exists|j: int| 0 <= j < i + 1
                        && (#[trigger] out@[a]@) == self.main@[j].0@ by {
                        if a < pre.len() {
                            let j = choose|j: int| 0 <= j < i && (#[trigger] pre[a]@)
                                == self.main@[j].0@;
                            assert(out@[a]@ == self.main@[j].0@);
                        } else {
                            assert(out@[a]@ == self.main@[i as int].0@);
                        }
                    }
                }
            } else {
                proof {
                    assert(!self.spec_live(self.main@[i as int].0@, now));
                    assert forall|j: int| 0 <= j < i + 1 && self.spec_live(
                        #[trigger] self.main@[j].0@,
                        now,
                    ) implies exists|a: int| 0 <= a < out@.len() && (#[trigger] out@[a]@)
                        == self.main@[j].0@ by {
                        assert(j < i);
                    }
                }
            }
            i += 1;
        }
        proof {
            assert forall|k: Seq<u8>| self.spec_live(k, now) implies exists|a: int| 0 <= a
                < out@.len() && (#[trigger] out@[a]@) == k by {
                lemma_assoc_contains(self.main@, k);
                let j = choose|j: int| 0 <= j < self.main@.len()
                    && (#[trigger] self.main@[j].0@) == k;
            }
        }
        out
    }
}

/// A GET that follows SETs without expiry returns the value last written.
///
/// `s1` is any store in which `k` carries no deadline — as after any run of
/// SET/GET without PX on a fresh store. `s2` and `s3` are the stores that
/// `set`'s contract yields for `SET k v` and then `SET k v2`. The key is then
/// live with the value just written, which is what `get`'s contract replies.
pub proof fn lemma_set_then_get(s1: Store, s2: Store, s3: Store, k: Seq<u8>, v: Seq<u8>,
    v2: Seq<u8>, now: u64)
    requires
        !s1.expiry_view().contains_key(k),
        s2.main_view() == s1.main_view().insert(k, v),
        s2.expiry_view() == s1.expiry_view(),
        s3.main_view() == s2.main_view().insert(k, v2),
        s3.expiry_view() == s2.expiry_view(),
    ensures
        s2.spec_live(k, now),
        s2.main_view()[k] == v,
        s3.spec_live(k, now),
        s3.main_view()[k] == v2,
{
}

/// A GET after a SET with expiry, once the deadline has passed, replies the
/// null bulk string and leaves `k` in neither map.
///
/// `s2` is the store that `set`'s contract yields for `SET k v PX …` with
/// absolute deadline `d`; at any later instant `now2 >= d` the key is not
/// live, so `get`'s contract replies the null bulk string and yields `s3`,
/// which no longer contains `k`.
pub proof fn lemma_set_px_expires(s1: Store, s2: Store, s3: Store, k: Seq<u8>, v: Seq<u8>,
    d: u64, now2: u64)
    requires
        s2.main_view() == s1.main_view().insert(k, v),
        s2.expiry_view() == s1.expiry_view().insert(k, d),
        now2 >= d,
        s3.main_view() == s2.main_view().remove(k),
        s3.expiry_view() == s2.expiry_view().remove(k),
    ensures
        s2.main_view().contains_key(k),
        !s2.spec_live(k, now2),
        !s3.main_view().contains_key(k),
        !s3.expiry_view().contains_key(k),
{
}

} // verus!
