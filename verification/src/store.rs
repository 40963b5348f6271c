use vstd::prelude::*;
use crate::time::Timestamp;

verus! {

/// The per-feed watermark map: each feed URL maps to the last confirmed
/// publication instant. Held as an association list with unique keys.
#[derive(Debug)]
pub struct Store {
    pub entries: Vec<(String, Timestamp)>,
}

/// No two entries share a feed URL.
pub open spec fn keys_unique(s: Seq<(String, Timestamp)>) -> bool {
    forall|i: int, j: int|
        0 <= i < s.len() && 0 <= j < s.len() && i != j ==> (#[trigger] s[i]).0@ != (
        #[trigger] s[j]).0@
}

impl Store {
    /// The store's invariant.
    pub open spec fn wf(self) -> bool {
        keys_unique(self.entries@)
    }

    /// The mathematical map this store denotes.
    pub open spec fn map_view(self) -> Map<Seq<char>, i64> {
        Map::new(
            |k: Seq<char>|
                exists|i: int| 0 <= i < self.entries@.len() && (#[trigger] self.entries@[i]).0@ == k,
            |k: Seq<char>|
                self.entries@[choose|i: int|
                    0 <= i < self.entries@.len() && (#[trigger] self.entries@[i]).0@ == k].1.secs,
        )
    }

    /// An empty store.
    pub fn new() -> (r: Store)
        ensures
            r.wf(),
            r.map_view() == Map::<Seq<char>, i64>::empty(),
            r.entries@.len() == 0,
    {
        let r = Store { entries: Vec::new() };
        proof {
            assert(r.map_view() =~= Map::<Seq<char>, i64>::empty());
        }
        r
    }

    /// The watermark recorded for a feed; a feed never seen before answers
    /// with the epoch.
    pub fn get(&self, feed: &String) -> (r: Timestamp)
        requires
            self.wf(),
        ensures
            self.map_view().contains_key(feed@) ==> r.secs == self.map_view()[feed@],
            !self.map_view().contains_key(feed@) ==> r.secs == 0,
    {
        let n = self.entries.len();
        let mut idx: usize = 0;
        while idx < n
            invariant
                self.wf(),
                n == self.entries@.len(),
                0 <= idx <= n,
                forall|i: int| 0 <= i < idx ==> (#[trigger] self.entries@[i]).0@ != feed@,
            decreases n - idx,
        {
            if self.entries[idx].0 == *feed {
                proof {
                    let w = choose|i: int|
                        0 <= i < self.entries@.len() && (#[trigger] self.entries@[i]).0@ == feed@;
                    assert(self.entries@[idx as int].0@ == feed@);
                    assert(w == idx as int);
                }
                return self.entries[idx].1;
            }
            idx += 1;
        }
        Timestamp::epoch()
    }

    /// Record the watermark for a feed, replacing any earlier entry.
    pub fn set(&mut self, feed: &String, t: Timestamp)
        requires
            old(self).wf(),
        ensures
            final(self).wf(),
            final(self).map_view() == old(self).map_view().insert(feed@, t.secs),
    {
        let ghost pre: Seq<(String, Timestamp)> = self.entries@;
        let n = self.entries.len();
        let mut idx: usize = 0;
        let mut found: bool = false;
        while idx < n && !found
            invariant
                n == self.entries@.len(),
                0 <= idx <= n,
                self.entries@ == pre,
                !found ==> forall|i: int| 0 <= i < idx ==> (#[trigger] pre[i]).0@ != feed@,
                found ==> idx < n && pre[idx as int].0@ == feed@,
            decreases n - idx + (if found { 0int } else { 1int }),
        {
            if self.entries[idx].0 == *feed {
                found = true;
            } else {
                idx += 1;
            }
        }
        if found {
            self.entries.remove(idx);
            proof {
                assert(self.entries@ =~= pre.remove(idx as int));
            }
        }
        let ghost mid: Seq<(String, Timestamp)> = self.entries@;
        proof {
            assert(forall|i: int| 0 <= i < mid.len() ==> (#[trigger] mid[i]).0@ != feed@) by {
                if found {
                    assert(forall|i: int|
                        0 <= i < mid.len() ==> #[trigger] mid[i] == (if i < idx as int {
                            pre[i]
                        } else {
                            pre[i + 1]
                        }));
                } else {
                }
            }
            assert(keys_unique(mid)) by {
                if found {
                    assert(forall|i: int|
                        0 <= i < mid.len() ==> #[trigger] mid[i] == (if i < idx as int {
                            pre[i]
                        } else {
                            pre[i + 1]
                        }));
                }
            }
        }
        let key = clone_string(feed);
        self.entries.push((key, t));
        proof {
            let post = self.entries@;
            assert(post.drop_last() =~= mid);
            assert(forall|i: int| 0 <= i < mid.len() ==> #[trigger] post[i] == mid[i]);
            assert(post[post.len() - 1].0@ == feed@);
            assert forall|i: int, j: int|
                0 <= i < post.len() && 0 <= j < post.len() && i != j implies (
            #[trigger] post[i]).0@ != (#[trigger] post[j]).0@ by {
                if i < mid.len() && j < mid.len() {
                    assert(post[i] == mid[i] && post[j] == mid[j]);
                } else if i < mid.len() {
                    assert(mid[i].0@ != feed@);
                } else {
                    assert(mid[j].0@ != feed@);
                }
            }
            lemma_set_map_view(
                *old(self),
                *self,
                if found {
                    Some(idx as int)
                } else {
                    None::<int>
                },
                feed@,
                t,
            );
        }
    }
}

proof fn lemma_set_map_view(s0: Store, s1: Store, removed: Option<int>, k: Seq<char>, t: Timestamp)
    requires
        keys_unique(s0.entries@),
        keys_unique(s1.entries@),
        s1.entries@.len() >= 1,
        s1.entries@.last().0@ == k,
        s1.entries@.last().1 == t,
        match removed {
            Some(idx) => 0 <= idx < s0.entries@.len() && s0.entries@[idx].0@ == k
                && s1.entries@.drop_last() == s0.entries@.remove(idx),
            None => (forall|i: int|
                0 <= i < s0.entries@.len() ==> (#[trigger] s0.entries@[i]).0@ != k)
                && s1.entries@.drop_last() == s0.entries@,
        },
    ensures
        s1.map_view() == s0.map_view().insert(k, t.secs),
{
    let pre = s0.entries@;
    let post = s1.entries@;
    let mid = post.drop_last();
    let m0 = s0.map_view();
    let m1 = s1.map_view();
    if removed is Some {
        let idx = removed.unwrap();
        assert(forall|j: int|
            0 <= j < mid.len() ==> #[trigger] mid[j] == (if j < idx {
                pre[j]
            } else {
                pre[j + 1]
            }));
    }
    assert(forall|i: int| 0 <= i < mid.len() ==> (#[trigger] mid[i]).0@ != k);
    assert forall|kk: Seq<char>| #[trigger]
        m1.contains_key(kk) implies m0.insert(k, t.secs).contains_key(kk) by {
        if kk != k {
            let i = choose|i: int| 0 <= i < post.len() && (#[trigger] post[i]).0@ == kk;
            assert(i < mid.len());
            assert(mid[i].0@ == kk);
            if removed is Some {
                let idx = removed.unwrap();
                if i < idx {
                    assert(pre[i].0@ == kk);
                } else {
                    assert(pre[i + 1].0@ == kk);
                }
            } else {
                assert(pre[i].0@ == kk);
            }
        }
    }
    assert forall|kk: Seq<char>| #[trigger]
        m0.insert(k, t.secs).contains_key(kk) implies m1.contains_key(kk) by {
        if kk == k {
            assert(post[post.len() - 1].0@ == kk);
        } else {
            let i = choose|i: int| 0 <= i < pre.len() && (#[trigger] pre[i]).0@ == kk;
            if removed is Some {
                let idx = removed.unwrap();
                if i < idx {
                    assert(mid[i] == pre[i]);
                    assert(post[i] == mid[i]);
                    assert(post[i].0@ == kk);
                } else {
                    assert(i != idx);
                    assert(mid[i - 1] == pre[i]);
                    assert(post[i - 1] == mid[i - 1]);
                    assert(post[i - 1].0@ == kk);
                }
            } else {
                assert(post[i].0@ == kk);
            }
        }
    }
    assert forall|kk: Seq<char>| m1.contains_key(kk) implies m1[kk] == m0.insert(
        k,
        t.secs,
    )[kk] by {
        let w = choose|i: int| 0 <= i < post.len() && (#[trigger] post[i]).0@ == kk;
        if kk == k {
            assert(w == post.len() - 1);
            assert(m1[kk] == t.secs);
        } else {
            assert(w < mid.len());
            let j: int = if removed is Some {
                if w < removed.unwrap() {
                    w
                } else {
                    w + 1
                }
            } else {
                w
            };
            assert(post[w] == mid[w]);
            if removed is Some {
                let idx = removed.unwrap();
                if w < idx {
                    assert(mid[w] == pre[w]);
                } else {
                    assert(mid[w] == pre[w + 1]);
                }
            }
            assert(pre[j].0@ == kk);
            assert(pre[j].1 == post[w].1);
            let w0 = choose|i: int| 0 <= i < pre.len() && (#[trigger] pre[i]).0@ == kk;
            assert(w0 == j);
            assert(m0[kk] == pre[j].1.secs);
        }
    }
    assert(m1 =~= m0.insert(k, t.secs));
}

/// Two well-formed stores whose entries agree pairwise denote the same
/// map. With the snapshot codec's round trip, a store reloaded from its
/// own saved snapshot denotes the map that was saved.
pub proof fn lemma_same_entries_same_map(a: Store, b: Store)
    requires
        a.wf(),
        a.entries@.len() == b.entries@.len(),
        forall|i: int|
            0 <= i < a.entries@.len() ==> (#[trigger] a.entries@[i]).0@ == b.entries@[i].0@
                && a.entries@[i].1.secs == b.entries@[i].1.secs,
    ensures
        a.map_view() == b.map_view(),
{
    assert forall|kk: Seq<char>| #[trigger]
        a.map_view().contains_key(kk) implies b.map_view().contains_key(kk) by {
        let i = choose|i: int| 0 <= i < a.entries@.len() && (#[trigger] a.entries@[i]).0@ == kk;
        assert(b.entries@[i].0@ == kk);
    }
    assert forall|kk: Seq<char>| #[trigger]
        b.map_view().contains_key(kk) implies a.map_view().contains_key(kk) by {
        let i = choose|i: int| 0 <= i < b.entries@.len() && (#[trigger] b.entries@[i]).0@ == kk;
        assert(a.entries@[i].0@ == kk);
    }
    assert forall|kk: Seq<char>| a.map_view().contains_key(kk) implies a.map_view()[kk]
        == b.map_view()[kk] by {
        let wa = choose|i: int| 0 <= i < a.entries@.len() && (#[trigger] a.entries@[i]).0@ == kk;
        let wb = choose|i: int| 0 <= i < b.entries@.len() && (#[trigger] b.entries@[i]).0@ == kk;
        assert(a.entries@[wb].0@ == kk);
        assert(wa == wb);
        assert(a.entries@[wa].1.secs == b.entries@[wb].1.secs);
    }
    assert(a.map_view() =~= b.map_view());
}

/// Relies on `String::clone` via vstd's specification: the copy reads the
/// same characters.
pub fn clone_string(s: &String) -> (r: String)
    ensures
        r@ == s@,
{
    s.clone()
}

} // verus!
