use vstd::prelude::*;
use crate::key_order::key_lt;
use crate::key_order::lemma_bytes_lt_asymmetric;
use crate::language::LanguageView;
use crate::registry::key_index;
use crate::registry::lemma_map_of_at;
use crate::registry::lemma_sorted_keys_unique;
use crate::registry::map_of;
use crate::registry::merged;
use crate::registry::sorted_by_key;
use crate::registry::Registry;

verus! {

/// Merging under a key that is absent adds exactly one entry and leaves every
/// other entry as it was.
pub proof fn lemma_merge_new_key(
    m: Map<Seq<char>, LanguageView>,
    key: Seq<char>,
    l: LanguageView,
)
    requires
        m.dom().finite(),
        !m.contains_key(key),
    ensures
        merged(m, key, l).len() == m.len() + 1,
        merged(m, key, l)[key] == l,
        forall|k: Seq<char>| #[trigger]
            m.contains_key(k) ==> merged(m, key, l).contains_key(k) && merged(m, key, l)[k]
                == m[k],
{
}

/// Merging under a key that is present changes only that entry's pinned
/// commit: its name and source, and all other entries, stay as they were,
/// and no entry is added.
pub proof fn lemma_merge_existing_key(
    m: Map<Seq<char>, LanguageView>,
    key: Seq<char>,
    l: LanguageView,
)
    requires
        m.dom().finite(),
        m.contains_key(key),
    ensures
        merged(m, key, l).dom() == m.dom(),
        merged(m, key, l).len() == m.len(),
        merged(m, key, l)[key].hash == l.hash,
        merged(m, key, l)[key].name == m[key].name,
        merged(m, key, l)[key].git == m[key].git,
        forall|k: Seq<char>| #[trigger]
            m.contains_key(k) && k != key ==> merged(m, key, l)[k] == m[k],
{
    assert(merged(m, key, l).dom() =~= m.dom());
}

/// Merging an entry whose pinned commit is already the registered one leaves
/// the registry as it was.
pub proof fn lemma_merge_unmodified(
    m: Map<Seq<char>, LanguageView>,
    key: Seq<char>,
    l: LanguageView,
)
    requires
        m.contains_key(key),
        m[key].hash == l.hash,
    ensures
        merged(m, key, l) == m,
{
    assert(merged(m, key, l) =~= m);
}

proof fn lemma_map_of_drop_first(s: Seq<(Seq<char>, LanguageView)>)
    requires
        sorted_by_key(s),
        s.len() > 0,
    ensures
        sorted_by_key(s.drop_first()),
        map_of(s.drop_first()) == map_of(s).remove(s[0].0),
{
    let t = s.drop_first();
    assert(sorted_by_key(t)) by {
        assert forall|i: int, j: int| 0 <= i < j < t.len() implies key_lt(
            #[trigger] t[i].0,
            #[trigger] t[j].0,
        ) by {
            assert(key_lt(s[i + 1].0, s[j + 1].0));
        }
    }
    assert forall|k: Seq<char>| #[trigger] map_of(t).contains_key(k) == map_of(s).remove(
        s[0].0,
    ).contains_key(k) by {
        if map_of(t).contains_key(k) {
            let j = key_index(t, k);
            assert(s[j + 1].0 == k);
            if k == s[0].0 {
                lemma_sorted_keys_unique(s, 0, j + 1);
            }
        }
        if map_of(s).contains_key(k) && k != s[0].0 {
            let j = key_index(s, k);
            assert(t[j - 1].0 == k);
        }
    }
    assert forall|k: Seq<char>| #[trigger] map_of(t).contains_key(k) implies map_of(t)[k]
        == map_of(s).remove(s[0].0)[k] by {
        let j = key_index(t, k);
        lemma_map_of_at(t, j);
        lemma_map_of_at(s, j + 1);
    }
    assert(map_of(t) =~= map_of(s).remove(s[0].0));
}

proof fn lemma_sorted_same_map(s1: Seq<(Seq<char>, LanguageView)>, s2: Seq<(Seq<char>, LanguageView)>)
    requires
        sorted_by_key(s1),
        sorted_by_key(s2),
        map_of(s1) == map_of(s2),
    ensures
        s1 == s2,
    decreases s1.len(),
{
    if s1.len() == 0 {
        if s2.len() > 0 {
            lemma_map_of_at(s2, 0);
        }
        assert(s1 =~= s2);
    } else {
        lemma_map_of_at(s1, 0);
        if s2.len() == 0 {
            assert(!map_of(s2).contains_key(s1[0].0));
        } else {
            lemma_map_of_at(s2, 0);
            let a = s1[0].0;
            let b = s2[0].0;
            let j = key_index(s2, a);
            let i = key_index(s1, b);
            if a != b {
                assert(key_lt(b, s2[j].0));
                assert(key_lt(a, s1[i].0));
                lemma_bytes_lt_asymmetric(
                    vstd::utf8::encode_utf8(a),
                    vstd::utf8::encode_utf8(b),
                );
            }
            lemma_map_of_drop_first(s1);
            lemma_map_of_drop_first(s2);
            lemma_sorted_same_map(s1.drop_first(), s2.drop_first());
            assert(s1 =~= seq![s1[0]] + s1.drop_first());
            assert(s2 =~= seq![s2[0]] + s2.drop_first());
        }
    }
}

/// A registry is determined by its contents: two registries that hold the
/// same entries keep them in the same order, so writing out a registry that
/// was not modified gives the same result every time.
pub proof fn lemma_representation_unique(r1: &Registry, r2: &Registry)
    requires
        r1.wf(),
        r2.wf(),
        r1@ == r2@,
    ensures
        r1.entries_view() == r2.entries_view(),
{
    lemma_sorted_same_map(r1.entries_view(), r2.entries_view());
}

} // verus!
