//! The function switches of a group: which of the bot's functions are on,
//! each function once; a function never set is on.
use vstd::prelude::*;
use crate::freq::{keys_distinct, lemma_pairs_map_has, lemma_pairs_map_update, pairs_map};
use crate::text::{str_eq, views};

verus! {

/// The switches of one group: each function's name and whether it is on.
pub struct FuncSwitch {
    pub entries: Vec<(String, bool)>,
}

pub open spec fn entry_views(v: Seq<(String, bool)>) -> Seq<(Seq<char>, bool)> {
    v.map_values(|e: (String, bool)| (e.0@, e.1))
}

impl FuncSwitch {
    /// Each function is listed once.
    pub open spec fn wf(&self) -> bool {
        keys_distinct(entry_views(self.entries@))
    }
}

impl View for FuncSwitch {
    type V = Map<Seq<char>, bool>;

    open spec fn view(&self) -> Map<Seq<char>, bool> {
        pairs_map(entry_views(self.entries@))
    }
}

/// The value of a key that occurs once is the value it is listed with.
proof fn lemma_pairs_map_get<K, V>(s: Seq<(K, V)>, i: int)
    requires
        keys_distinct(s),
        0 <= i < s.len(),
    ensures
        pairs_map(s).contains_key(s[i].0),
        pairs_map(s)[s[i].0] == s[i].1,
    decreases s.len(),
{
    if i < s.len() - 1 {
        assert(keys_distinct(s.drop_last()));
        lemma_pairs_map_get(s.drop_last(), i);
        assert(s.last().0 != s[i].0);
        assert(s.drop_last()[i] == s[i]);
    }
}

/// The names of the functions of a template.
pub open spec fn name_set(names: Seq<String>) -> Set<Seq<char>> {
    Set::new(|k: Seq<char>| views(names).contains(k))
}

impl FuncSwitch {
    fn position(&self, name: &str) -> (r: Option<usize>)
        ensures
            match r {
                Some(i) => i < self.entries@.len() && entry_views(self.entries@)[i as int].0 == name@,
                None => forall|i: int|
                    0 <= i < self.entries@.len() ==> #[trigger] entry_views(self.entries@)[i].0 != name@,
            },
    {
        let mut i: usize = 0;
        while i < self.entries.len()
            invariant
                i <= self.entries@.len(),
                forall|j: int| 0 <= j < i ==> #[trigger] entry_views(self.entries@)[j].0 != name@,
            decreases self.entries.len() - i,
        {
            if str_eq(self.entries[i].0.as_str(), name) {
                return Some(i);
            }
            i = i + 1;
        }
        None
    }

    /// A group's first switches: every function of the template on.
    pub fn init(names: &[String]) -> (r: FuncSwitch)
        ensures
            r.wf(),
            r@.dom() == name_set(names@),
            forall|k: Seq<char>| #[trigger] r@.contains_key(k) ==> r@[k],
    {
        let mut r = FuncSwitch { entries: Vec::new() };
        let mut i: usize = 0;
        proof {
            assert(entry_views(r.entries@) =~= Seq::empty());
        }
        while i < names.len()
            invariant
                i <= names@.len(),
                r.wf(),
                forall|k: Seq<char>| #[trigger] r@.contains_key(k) <==> views(names@.take(i as int)).contains(k),
                forall|k: Seq<char>| #[trigger] r@.contains_key(k) ==> r@[k],
            decreases names.len() - i,
        {
            let ghost before = r@;
            let ghost n = names@[i as int]@;
            let ghost prev = views(names@.take(i as int));
            proof {
                assert(views(names@.take(i + 1)) =~= prev.push(n));
            }
            if r.position(names[i].as_str()).is_none() {
                let ghost ev = entry_views(r.entries@);
                r.entries.push((String::from_str(names[i].as_str()), true));
                proof {
                    assert(entry_views(r.entries@) =~= ev.push((n, true)));
                    assert(entry_views(r.entries@).drop_last() =~= ev);
                }
            } else {
                proof {
                    lemma_pairs_map_has(entry_views(r.entries@), n);
                }
            }
            i = i + 1;
            proof {
                let cur = prev.push(n);
                assert forall|k: Seq<char>| #[trigger] r@.contains_key(k) <==> cur.contains(k) by {
                    if cur.contains(k) && k != n {
                        let j = choose|j: int| 0 <= j < cur.len() && #[trigger] cur[j] == k;
                        assert(prev[j] == k);
                    }
                    if k != n && before.contains_key(k) {
                        let j = choose|j: int| 0 <= j < prev.len() && #[trigger] prev[j] == k;
                        assert(cur[j] == k);
                    }
                    if k == n {
                        assert(cur[prev.len() as int] == k);
                    }
                }
            }
        }
        proof {
            assert(names@.take(names@.len() as int) =~= names@);
            assert(r@.dom() =~= name_set(names@));
        }
        r
    }

    /// A function switched on or off.
    pub fn set_status(&mut self, name: &str, status: bool)
        requires
            old(self).wf(),
        ensures
            final(self).wf(),
            final(self)@ == old(self)@.insert(name@, status),
    {
        let ghost ev = entry_views(self.entries@);
        match self.position(name) {
            Some(i) => {
                self.entries.set(i, (String::from_str(name), status));
                proof {
                    assert(entry_views(self.entries@) =~= ev.update(i as int, (ev[i as int].0, status)));
                    lemma_pairs_map_update(ev, i as int, status);
                }
            },
            None => {
                self.entries.push((String::from_str(name), status));
                proof {
                    assert(entry_views(self.entries@) =~= ev.push((name@, status)));
                    assert(entry_views(self.entries@).drop_last() =~= ev);
                }
            },
        }
    }

    /// Whether a function is on; a function never set is on, and is then
    /// recorded as on.
    pub fn get_status(&mut self, name: &str) -> (r: bool)
        requires
            old(self).wf(),
        ensures
            final(self).wf(),
            r == (if old(self)@.contains_key(name@) {
                old(self)@[name@]
            } else {
                true
            }),
            final(self)@ == old(self)@.insert(name@, r),
    {
        let ghost ev = entry_views(self.entries@);
        match self.position(name) {
            Some(i) => {
                let on = self.entries[i].1;
                proof {
                    lemma_pairs_map_get(ev, i as int);
                    assert(self@.insert(name@, on) =~= self@);
                }
                on
            },
            None => {
                proof {
                    lemma_pairs_map_has(ev, name@);
                }
                self.entries.push((String::from_str(name), true));
                proof {
                    assert(entry_views(self.entries@) =~= ev.push((name@, true)));
                    assert(entry_views(self.entries@).drop_last() =~= ev);
                }
                true
            },
        }
    }
}

} // verus!
