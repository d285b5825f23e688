//! The projects that the server knows, by key.

use crate::order::{in_order, law_sorted, sort, sorted, views};
use crate::text::{find, lemma_find, texts};
use vstd::prelude::*;

verus! {

#[derive(Debug)]
pub struct ProjectConfig {
    /// The directory that holds the project.
    pub root: String,
}

/// Projects by key. No key stands for two projects.
pub struct Projects {
    entries: Vec<(String, ProjectConfig)>,
}

spec fn keys_of(entries: Seq<(String, ProjectConfig)>) -> Seq<Seq<char>> {
    entries.map_values(|e: (String, ProjectConfig)| e.0@)
}

spec fn map_of(entries: Seq<(String, ProjectConfig)>) -> Map<Seq<char>, Seq<char>> {
    Map::new(
        |k: Seq<char>| keys_of(entries).contains(k),
        |k: Seq<char>| entries[find(keys_of(entries), k)].1.root@,
    )
}

impl View for Projects {
    type V = Map<Seq<char>, Seq<char>>;

    /// The root directory of the project with each key.
    closed spec fn view(&self) -> Map<Seq<char>, Seq<char>> {
        map_of(self.entries@)
    }
}

fn position(entries: &Vec<(String, ProjectConfig)>, key: &str) -> (r: usize)
    ensures
        r == find(keys_of(entries@), key@),
        r <= entries@.len(),
{
    let ghost keys = keys_of(entries@);
    let wanted = key.to_owned();
    let mut k: usize = 0;
    assert(keys.skip(0) =~= keys);
    while k < entries.len()
        invariant
            k <= entries@.len(),
            keys == keys_of(entries@),
            wanted@ == key@,
            find(keys, key@) == k + find(keys.skip(k as int), key@),
        decreases entries@.len() - k,
    {
        assert(keys.skip(k as int)[0] == entries@[k as int].0@);
        if entries[k].0 == wanted {
            return k;
        }
        assert(keys.skip(k as int).skip(1) =~= keys.skip(k + 1));
        k += 1;
    }
    k
}

proof fn lemma_replaced(
    before: Seq<(String, ProjectConfig)>,
    after: Seq<(String, ProjectConfig)>,
    key: Seq<char>,
    root: Seq<char>,
    at: int,
)
    requires
        at == find(keys_of(before), key),
        after.len() == if at < before.len() { before.len() } else { before.len() + 1 },
        forall|i: int| 0 <= i < before.len() && i != at ==> after[i] == before[i],
        after[at].0@ == key,
        after[at].1.root@ == root,
    ensures
        map_of(after) == map_of(before).insert(key, root),
{
    let kb = keys_of(before);
    let ka = keys_of(after);
    lemma_find(kb, key);
    lemma_find(ka, key);
    assert forall|i: int| 0 <= i < kb.len() implies ka[i] == kb[i] by {}
    assert(ka[at] == key);
    assert(find(ka, key) == at);
    assert forall|k: Seq<char>| k != key implies ka.contains(k) == kb.contains(k) && (kb.contains(k)
        ==> find(ka, k) == find(kb, k)) by {
        lemma_find(ka, k);
        lemma_find(kb, k);
        if kb.contains(k) {
            assert(ka[find(kb, k)] == k);
        }
    }
    assert forall|k: Seq<char>| k != key && kb.contains(k) implies after[find(ka, k)]
        == before[find(kb, k)] by {
        lemma_find(kb, k);
        if find(kb, k) == at {
            assert(kb[at] == key);
        }
    }
    let m = map_of(after);
    let n = map_of(before).insert(key, root);
    assert forall|k: Seq<char>| m.dom().contains(k) <==> n.dom().contains(k) by {
        assert(ka.contains(k) == (k == key || kb.contains(k)));
    }
    assert(m.dom() =~= n.dom());
    assert forall|k: Seq<char>| m.dom().contains(k) implies m[k] == n[k] by {
        if k != key {
            assert(kb.contains(k));
        }
    }
    assert(m =~= n);
}

impl Projects {
    #[verifier::type_invariant]
    spec fn distinct_keys(self) -> bool {
        keys_of(self.entries@).no_duplicates()
    }

    /// No project.
    pub fn new() -> (r: Self)
        ensures
            r@ == Map::<Seq<char>, Seq<char>>::empty(),
    {
        let r = Projects { entries: Vec::new() };
        assert(r@ =~= Map::<Seq<char>, Seq<char>>::empty());
        r
    }

    /// Makes the key stand for the project, whatever it stood for.
    pub fn insert(&mut self, key: String, config: ProjectConfig)
        ensures
            final(self)@ == old(self)@.insert(key@, config.root@),
    {
        proof {
            use_type_invariant(&*self);
        }
        let mut entries: Vec<(String, ProjectConfig)> = Vec::new();
        std::mem::swap(&mut entries, &mut self.entries);
        let ghost before = entries@;
        let at: usize = position(&entries, key.as_str());
        proof {
            lemma_find(keys_of(before), key@);
        }
        let ghost k = key@;
        let ghost root = config.root@;
        if at < entries.len() {
            entries.set(at, (key, config));
            proof {
                assert(keys_of(entries@) =~= keys_of(before));
                lemma_replaced(before, entries@, k, root, at as int);
            }
        } else {
            entries.push((key, config));
            proof {
                assert(keys_of(entries@) =~= keys_of(before).push(k));
                lemma_replaced(before, entries@, k, root, at as int);
            }
        }
        self.entries = entries;
    }

    /// The project that the key stands for.
    pub fn get(&self, key: &str) -> (r: Option<&ProjectConfig>)
        ensures
            r is Some <==> self@.dom().contains(key@),
            r matches Some(config) ==> config.root@ == self@[key@],
    {
        let at: usize = position(&self.entries, key);
        proof {
            lemma_find(keys_of(self.entries@), key@);
        }
        if at < self.entries.len() {
            Some(&self.entries[at].1)
        } else {
            None
        }
    }

    /// The keys, in their order.
    pub fn sorted_keys(&self) -> (r: Vec<String>)
        ensures
            in_order::<String>(texts(r@)),
            texts(r@).no_duplicates(),
            forall|k: Seq<char>| texts(r@).contains(k) <==> self@.dom().contains(k),
    {
        proof {
            use_type_invariant(self);
        }
        let mut keys: Vec<String> = Vec::new();
        let mut k: usize = 0;
        while k < self.entries.len()
            invariant
                k <= self.entries@.len(),
                views(keys@) == keys_of(self.entries@).take(k as int),
            decreases self.entries@.len() - k,
        {
            let ghost before = keys@;
            keys.push(self.entries[k].0.clone());
            k += 1;
            proof {
                let all = keys_of(self.entries@);
                assert(all[k - 1] == self.entries@[k - 1].0@);
                assert(views(keys@) =~= views(before).push(all[k - 1]));
                assert(all.take(k as int) =~= all.take(k - 1).push(all[k - 1]));
            }
        }
        let ghost all = keys_of(self.entries@);
        assert(all.take(k as int) =~= all);
        let r = sort(keys);
        proof {
            broadcast use vstd::seq_lib::group_to_multiset_ensures;

            law_sorted::<String>(all);
            assert(texts(r@) =~= views(r@));
            let s = sorted::<String>(all);
            all.lemma_multiset_has_no_duplicates();
            s.lemma_multiset_has_no_duplicates_conv();
            assert forall|k: Seq<char>| s.contains(k) <==> all.contains(k) by {
                assert(s.contains(k) <==> s.to_multiset().count(k) > 0);
                assert(all.contains(k) <==> all.to_multiset().count(k) > 0);
            }
        }
        r
    }
}

} // verus!
