use crate::text::str_eq;
use vstd::prelude::*;

verus! {

/// Index of an entry keyed `k` in `s`, when one exists.
pub open spec fn key_index(s: Seq<(String, String)>, k: Seq<char>) -> int {
    choose|i: int| 0 <= i < s.len() && s[i].0@ == k
}

/// Some pair of `s` has alias `k`.
pub open spec fn has_key(s: Seq<(String, String)>, k: Seq<char>) -> bool {
    exists|i: int| 0 <= i < s.len() && s[i].0@ == k
}

/// The mapping that a sequence of `(alias, descriptor)` pairs with distinct aliases stands for.
pub open spec fn entries_map(s: Seq<(String, String)>) -> Map<Seq<char>, Seq<char>> {
    Map::new(|k: Seq<char>| has_key(s, k), |k: Seq<char>| s[key_index(s, k)].1@)
}

/// No two pairs of `s` share an alias.
pub open spec fn keys_unique(s: Seq<(String, String)>) -> bool {
    forall|i: int, j: int| 0 <= i < s.len() && 0 <= j < s.len() && s[i].0@ == s[j].0@ ==> i == j
}

proof fn lemma_entry_in_map(s: Seq<(String, String)>, i: int)
    requires
        keys_unique(s),
        0 <= i < s.len(),
    ensures
        entries_map(s).contains_key(s[i].0@),
        entries_map(s)[s[i].0@] == s[i].1@,
{
    let k = s[i].0@;
    assert(has_key(s, k));
    let j = key_index(s, k);
    assert(0 <= j < s.len() && s[j].0@ == k);
}

/// An exact-match store from alias to descriptor; each alias has at most one descriptor.
#[derive(Clone, Debug)]
pub struct SridRegistry {
    entries: Vec<(String, String)>,
}

impl View for SridRegistry {
    type V = Map<Seq<char>, Seq<char>>;

    closed spec fn view(&self) -> Map<Seq<char>, Seq<char>> {
        entries_map(self.entries@)
    }
}

impl SridRegistry {
    /// Aliases are unique, so the view is well defined.
    pub closed spec fn wf(&self) -> bool {
        keys_unique(self.entries@)
    }

    pub fn new() -> (r: SridRegistry)
        ensures
            r.wf(),
            r@ == Map::<Seq<char>, Seq<char>>::empty(),
    {
        let r = SridRegistry { entries: Vec::new() };
        assert(r@ =~= Map::<Seq<char>, Seq<char>>::empty());
        r
    }

    /// A registry that knows the alias of the default shard.
    pub fn with_defaults() -> (r: SridRegistry)
        ensures
            r.wf(),
            r@ == Map::<Seq<char>, Seq<char>>::empty().insert(
                "0xDA12"@,
                "SHARD_12.DA_PLANE.ROCKBASE.VN.v1"@,
            ),
    {
        let mut reg = SridRegistry::new();
        reg.insert("0xDA12".to_owned(), "SHARD_12.DA_PLANE.ROCKBASE.VN.v1".to_owned());
        reg
    }

    /// Binds `alias` to `descriptor`, replacing any earlier descriptor of `alias`.
    pub fn insert(&mut self, alias: String, descriptor: String)
        requires
            old(self).wf(),
        ensures
            final(self).wf(),
            final(self)@ == old(self)@.insert(alias@, descriptor@),
    {
        let ghost old_entries = self.entries@;
        let n = self.entries.len();
        let mut i: usize = 0;
        while i < n
            invariant
                i <= n,
                n == self.entries@.len(),
                self.entries@ == old_entries,
                old(self).entries@ == old_entries,
                keys_unique(old_entries),
                forall|j: int| 0 <= j < i ==> self.entries@[j].0@ != alias@,
            decreases n - i,
        {
            if str_eq(self.entries[i].0.as_str(), alias.as_str()) {
                let ghost key = alias@;
                let ghost value = descriptor@;
                self.entries.set(i, (alias, descriptor));
                proof {
                    let s = self.entries@;
                    assert forall|a: int, b: int|
                        0 <= a < s.len() && 0 <= b < s.len() && s[a].0@ == s[b].0@ implies a == b by {
                        assert(s[a].0@ == old_entries[a].0@);
                        assert(s[b].0@ == old_entries[b].0@);
                    }
                    assert forall|k: Seq<char>| #[trigger] has_key(s, k) == has_key(old_entries, k) by {
                        if has_key(s, k) {
                            let a = choose|a: int| 0 <= a < s.len() && s[a].0@ == k;
                            assert(old_entries[a].0@ == k);
                        }
                        if has_key(old_entries, k) {
                            let a = choose|a: int| 0 <= a < old_entries.len() && old_entries[a].0@ == k;
                            assert(s[a].0@ == k);
                        }
                    }
                    assert forall|k: Seq<char>| has_key(s, k) implies entries_map(s)[k] == entries_map(
                        old_entries,
                    ).insert(key, value)[k] by {
                        let a = key_index(s, k);
                        lemma_entry_in_map(s, a);
                        if k != key {
                            lemma_entry_in_map(old_entries, a);
                        } else {
                            assert(s[i as int].0@ == key);
                            assert(s[a].0@ == key);
                        }
                    }
                    assert(has_key(old_entries, key)) by {
                        assert(old_entries[i as int].0@ == key);
                    }
                    assert(entries_map(s) =~= entries_map(old_entries).insert(key, value));
                }
                return;
            }
            i = i + 1;
        }
        let ghost key = alias@;
        let ghost value = descriptor@;
        self.entries.push((alias, descriptor));
        proof {
            let s = self.entries@;
            assert(s.len() == n + 1);
            assert forall|k: Seq<char>| #[trigger] has_key(s, k) == (has_key(old_entries, k) || k == key) by {
                if has_key(s, k) {
                    let a = choose|a: int| 0 <= a < s.len() && s[a].0@ == k;
                    if a < n {
                        assert(old_entries[a].0@ == k);
                    }
                }
                if has_key(old_entries, k) {
                    let a = choose|a: int| 0 <= a < old_entries.len() && old_entries[a].0@ == k;
                    assert(s[a].0@ == k);
                }
                if k == key {
                    assert(s[n as int].0@ == k);
                }
            }
            assert forall|k: Seq<char>| has_key(s, k) implies entries_map(s)[k] == entries_map(
                old_entries,
            ).insert(key, value)[k] by {
                let a = key_index(s, k);
                lemma_entry_in_map(s, a);
                if a < n {
                    lemma_entry_in_map(old_entries, a);
                }
            }
            assert(entries_map(s) =~= entries_map(old_entries).insert(key, value));
        }
    }

    /// The descriptor bound to `alias`, if any.
    pub fn resolve(&self, alias: &str) -> (r: Option<String>)
        requires
            self.wf(),
        ensures
            r is Some <==> self@.contains_key(alias@),
            r matches Some(d) ==> d@ == self@[alias@],
    {
        let n = self.entries.len();
        let mut i: usize = 0;
        while i < n
            invariant
                i <= n,
                n == self.entries@.len(),
                self.wf(),
                forall|j: int| 0 <= j < i ==> self.entries@[j].0@ != alias@,
            decreases n - i,
        {
            if str_eq(self.entries[i].0.as_str(), alias) {
                proof {
                    lemma_entry_in_map(self.entries@, i as int);
                }
                return Some(self.entries[i].1.clone());
            }
            i = i + 1;
        }
        None
    }
}

} // verus!
