use vstd::prelude::*;
use crate::key_order::compare_keys;
use crate::key_order::key_lt;
use crate::key_order::lemma_bytes_lt_irreflexive;
use crate::key_order::lemma_bytes_lt_transitive;
use crate::language::Language;
use crate::language::LanguageView;

verus! {

/// The registry: each key names one `Language`; entries are kept sorted by
/// key, so that the registry has one representation and serialises the same
/// way every time.
#[derive(Debug)]
pub struct Registry {
    entries: Vec<(String, Language)>,
}

/// The result of merging `l` under `key`: a new key is inserted whole; for a
/// key that is present only the pinned commit is taken from `l`.
pub open spec fn merged(m: Map<Seq<char>, LanguageView>, key: Seq<char>, l: LanguageView) -> Map<
    Seq<char>,
    LanguageView,
> {
    if m.contains_key(key) {
        m.insert(key, LanguageView { name: m[key].name, git: m[key].git, hash: l.hash })
    } else {
        m.insert(key, l)
    }
}

pub open spec fn entry_view(e: (String, Language)) -> (Seq<char>, LanguageView) {
    (e.0@, e.1@)
}

/// Keys strictly increasing, hence unique.
pub open spec fn sorted_by_key(s: Seq<(Seq<char>, LanguageView)>) -> bool {
    forall|i: int, j: int| 0 <= i < j < s.len() ==> key_lt(#[trigger] s[i].0, #[trigger] s[j].0)
}

pub open spec fn map_of(s: Seq<(Seq<char>, LanguageView)>) -> Map<Seq<char>, LanguageView> {
    Map::new(
        |k: Seq<char>| exists|i: int| 0 <= i < s.len() && s[i].0 == k,
        |k: Seq<char>| s[key_index(s, k)].1,
    )
}

/// The place of an entry with key `k`, where there is one.
pub open spec fn key_index(s: Seq<(Seq<char>, LanguageView)>, k: Seq<char>) -> int {
    choose|i: int| 0 <= i < s.len() && s[i].0 == k
}

pub proof fn lemma_sorted_keys_unique(s: Seq<(Seq<char>, LanguageView)>, i: int, j: int)
    requires
        sorted_by_key(s),
        0 <= i < s.len(),
        0 <= j < s.len(),
        s[i].0 == s[j].0,
    ensures
        i == j,
{
    if i < j {
        assert(key_lt(s[i].0, s[j].0));
        lemma_bytes_lt_irreflexive(vstd::utf8::encode_utf8(s[i].0));
    } else if j < i {
        assert(key_lt(s[j].0, s[i].0));
        lemma_bytes_lt_irreflexive(vstd::utf8::encode_utf8(s[i].0));
    }
}

pub proof fn lemma_map_of_at(s: Seq<(Seq<char>, LanguageView)>, i: int)
    requires
        sorted_by_key(s),
        0 <= i < s.len(),
    ensures
        map_of(s).contains_key(s[i].0),
        map_of(s)[s[i].0] == s[i].1,
{
    let k = s[i].0;
    assert(exists|j: int| 0 <= j < s.len() && s[j].0 == k);
    let j = key_index(s, k);
    lemma_sorted_keys_unique(s, i, j);
}

impl Registry {
    /// The entries as (key, language) values, in key order.
    pub closed spec fn entries_view(&self) -> Seq<(Seq<char>, LanguageView)> {
        self.entries@.map_values(|e: (String, Language)| entry_view(e))
    }

    pub open spec fn wf(&self) -> bool {
        sorted_by_key(self.entries_view())
    }

    /// An empty registry.
    pub fn new() -> (r: Registry)
        ensures
            r.wf(),
            r@ == Map::<Seq<char>, LanguageView>::empty(),
            r.entries_view().len() == 0,
    {
        let r = Registry { entries: Vec::new() };
        assert(r@ =~= Map::<Seq<char>, LanguageView>::empty());
        r
    }

    /// The number of entries.
    pub fn len(&self) -> (r: usize)
        requires
            self.wf(),
        ensures
            r == self@.len(),
            r == self.entries_view().len(),
    {
        proof {
            self.lemma_view_len();
        }
        self.entries.len()
    }

    /// The entries, in key order.
    pub fn entries(&self) -> (r: &Vec<(String, Language)>)
        ensures
            r@.map_values(|e: (String, Language)| entry_view(e)) == self.entries_view(),
    {
        &self.entries
    }

    proof fn lemma_view_len(&self)
        requires
            self.wf(),
        ensures
            self@.len() == self.entries_view().len(),
    {
        let s = self.entries_view();
        let keys = Seq::new(s.len(), |i: int| s[i].0);
        assert forall|i: int, j: int| 0 <= i < keys.len() && 0 <= j < keys.len() && i != j
            implies keys[i] != keys[j] by {
            if keys[i] == keys[j] {
                lemma_sorted_keys_unique(s, i, j);
            }
        }
        keys.unique_seq_to_set();
        assert(self@.dom() =~= keys.to_set()) by {
            assert forall|k: Seq<char>| self@.dom().contains(k) implies keys.to_set().contains(k) by {
                let i = choose|i: int| 0 <= i < s.len() && s[i].0 == k;
                assert(keys[i] == k);
            }
            assert forall|k: Seq<char>| keys.to_set().contains(k) implies self@.dom().contains(k) by {
                let i = choose|i: int| 0 <= i < keys.len() && keys[i] == k;
                assert(s[i].0 == k);
            }
        }
    }

    /// Where `key` stands or would stand: every earlier key is smaller; the
    /// flag tells whether the entry at that place has `key`.
    fn position(&self, key: &String) -> (r: (usize, bool))
        requires
            self.wf(),
        ensures
            r.0 <= self.entries_view().len(),
            forall|i: int| 0 <= i < r.0 ==> key_lt(#[trigger] self.entries_view()[i].0, key@),
            r.1 ==> r.0 < self.entries_view().len() && self.entries_view()[r.0 as int].0 == key@,
            !r.1 ==> (r.0 < self.entries_view().len() ==> key_lt(
                key@,
                self.entries_view()[r.0 as int].0,
            )),
    {
        let mut p: usize = 0;
        while p < self.entries.len()
            invariant
                p <= self.entries@.len(),
                forall|i: int| 0 <= i < p ==> key_lt(#[trigger] self.entries_view()[i].0, key@),
            decreases self.entries@.len() - p,
        {
            let c = compare_keys(&self.entries[p].0, key);
            if c == 0 {
                return (p, true);
            }
            if c > 0 {
                return (p, false);
            }
            p = p + 1;
        }
        (p, false)
    }

    /// The language registered under `key`, if any.
    pub fn get(&self, key: &String) -> (r: Option<&Language>)
        requires
            self.wf(),
        ensures
            r.is_some() == self@.contains_key(key@),
            r.is_some() ==> r.unwrap()@ == self@[key@],
    {
        let (p, found) = self.position(key);
        proof {
            let s = self.entries_view();
            if found {
                lemma_map_of_at(s, p as int);
            } else if self@.contains_key(key@) {
                let j = choose|j: int| 0 <= j < s.len() && s[j].0 == key@;
                if j < p {
                    assert(key_lt(s[j].0, key@));
                    lemma_bytes_lt_irreflexive(vstd::utf8::encode_utf8(key@));
                } else {
                    if j > p {
                        assert(key_lt(s[p as int].0, s[j].0));
                        lemma_bytes_lt_transitive(
                            vstd::utf8::encode_utf8(key@),
                            vstd::utf8::encode_utf8(s[p as int].0),
                            vstd::utf8::encode_utf8(s[j].0),
                        );
                    }
                    lemma_bytes_lt_irreflexive(vstd::utf8::encode_utf8(key@));
                }
            }
        }
        if found {
            Some(&self.entries[p].1)
        } else {
            None
        }
    }

    proof fn lemma_update_at(&self, p: int, e: (String, Language), new_self: &Registry)
        requires
            self.wf(),
            0 <= p < self.entries_view().len(),
            e.0@ == self.entries_view()[p].0,
            new_self.entries@ == self.entries@.update(p, e),
        ensures
            new_self.wf(),
            new_self@ == self@.insert(e.0@, e.1@),
    {
        let s = self.entries_view();
        let t = new_self.entries_view();
        assert(t =~= s.update(p, entry_view(e)));
        assert(new_self.wf());
        assert forall|k: Seq<char>| #[trigger] new_self@.contains_key(k) == self@.insert(
            e.0@,
            e.1@,
        ).contains_key(k) by {
            if new_self@.contains_key(k) {
                let j = key_index(t, k);
                assert(s[j].0 == k);
            }
            if self@.contains_key(k) {
                let j = key_index(s, k);
                assert(t[j].0 == k);
            }
        }
        assert forall|k: Seq<char>| #[trigger] new_self@.contains_key(k) implies new_self@[k]
            == self@.insert(e.0@, e.1@)[k] by {
            let j = key_index(t, k);
            lemma_map_of_at(t, j);
            if j != p {
                lemma_map_of_at(s, j);
                if k == e.0@ {
                    lemma_sorted_keys_unique(t, j, p);
                }
            }
        }
        assert(new_self@ =~= self@.insert(e.0@, e.1@));
    }

    proof fn lemma_insert_at(&self, p: int, e: (String, Language), new_self: &Registry)
        requires
            self.wf(),
            0 <= p <= self.entries_view().len(),
            forall|i: int| 0 <= i < p ==> key_lt(#[trigger] self.entries_view()[i].0, e.0@),
            p < self.entries_view().len() ==> key_lt(e.0@, self.entries_view()[p].0),
            new_self.entries@ == self.entries@.insert(p, e),
        ensures
            new_self.wf(),
            new_self@ == self@.insert(e.0@, e.1@),
            !self@.contains_key(e.0@),
    {
        let s = self.entries_view();
        let t = new_self.entries_view();
        let k0 = e.0@;
        assert(t =~= s.insert(p, entry_view(e)));
        assert forall|i: int, j: int| 0 <= i < j < t.len() implies key_lt(
            #[trigger] t[i].0,
            #[trigger] t[j].0,
        ) by {
            if j == p {
                assert(key_lt(s[i].0, k0));
            } else if i == p {
                if j - 1 > p {
                    assert(key_lt(s[p].0, s[j - 1].0));
                    lemma_bytes_lt_transitive(
                        vstd::utf8::encode_utf8(k0),
                        vstd::utf8::encode_utf8(s[p].0),
                        vstd::utf8::encode_utf8(s[j - 1].0),
                    );
                }
            } else if i < p && j > p {
                assert(key_lt(s[i].0, s[j - 1].0));
            } else if i > p {
                assert(key_lt(s[i - 1].0, s[j - 1].0));
            } else {
                assert(key_lt(s[i].0, s[j].0));
            }
        }
        assert(new_self.wf());
        if self@.contains_key(k0) {
            let j = key_index(s, k0);
            if j < p {
                assert(key_lt(s[j].0, k0));
            } else if j == p {
                assert(key_lt(k0, s[j].0));
            } else {
                assert(key_lt(s[p].0, s[j].0));
                lemma_bytes_lt_transitive(
                    vstd::utf8::encode_utf8(k0),
                    vstd::utf8::encode_utf8(s[p].0),
                    vstd::utf8::encode_utf8(s[j].0),
                );
            }
            lemma_bytes_lt_irreflexive(vstd::utf8::encode_utf8(k0));
        }
        assert forall|k: Seq<char>| #[trigger] new_self@.contains_key(k) == self@.insert(
            k0,
            e.1@,
        ).contains_key(k) by {
            if new_self@.contains_key(k) {
                let j = key_index(t, k);
                if j < p {
                    assert(s[j].0 == k);
                } else if j > p {
                    assert(s[j - 1].0 == k);
                }
            }
            if self@.contains_key(k) {
                let j = key_index(s, k);
                if j < p {
                    assert(t[j].0 == k);
                } else {
                    assert(t[j + 1].0 == k);
                }
            }
            if k == k0 {
                assert(t[p].0 == k);
            }
        }
        assert forall|k: Seq<char>| #[trigger] new_self@.contains_key(k) implies new_self@[k]
            == self@.insert(k0, e.1@)[k] by {
            let j = key_index(t, k);
            lemma_map_of_at(t, j);
            if j < p {
                lemma_map_of_at(s, j);
            } else if j > p {
                lemma_map_of_at(s, j - 1);
            }
        }
        assert(new_self@ =~= self@.insert(k0, e.1@));
    }

    /// Puts `language` under `key`, replacing what was there.
    pub fn insert(&mut self, key: String, language: Language)
        requires
            old(self).wf(),
        ensures
            final(self).wf(),
            final(self)@ == old(self)@.insert(key@, language@),
    {
        let (p, found) = self.position(&key);
        let ghost before = *self;
        if found {
            self.entries.remove(p);
            self.entries.insert(p, (key, language));
            proof {
                assert(self.entries@ =~= before.entries@.update(p as int, self.entries@[p as int]));
                before.lemma_update_at(p as int, self.entries@[p as int], self);
            }
        } else {
            self.entries.insert(p, (key, language));
            proof {
                before.lemma_insert_at(p as int, self.entries@[p as int], self);
            }
        }
    }

    /// Merges `language` under `key`: a new key is added with the whole
    /// language; for a key already present only the pinned commit is
    /// replaced, and everything else of that entry is kept.
    pub fn merge(&mut self, key: String, language: Language)
        requires
            old(self).wf(),
        ensures
            final(self).wf(),
            final(self)@ == merged(old(self)@, key@, language@),
    {
        let (p, found) = self.position(&key);
        let ghost before = *self;
        if found {
            let (k, mut existing) = self.entries.remove(p);
            proof {
                lemma_map_of_at(before.entries_view(), p as int);
            }
            existing.hash = language.hash;
            self.entries.insert(p, (k, existing));
            proof {
                assert(self.entries@ =~= before.entries@.update(p as int, self.entries@[p as int]));
                before.lemma_update_at(p as int, self.entries@[p as int], self);
            }
        } else {
            self.entries.insert(p, (key, language));
            proof {
                before.lemma_insert_at(p as int, self.entries@[p as int], self);
            }
        }
    }
}

impl View for Registry {
    type V = Map<Seq<char>, LanguageView>;

    open spec fn view(&self) -> Map<Seq<char>, LanguageView> {
        map_of(self.entries_view())
    }
}

} // verus!
