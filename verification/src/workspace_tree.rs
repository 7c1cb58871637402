//! A map from workspace names to workspaces that keeps its entries in the
//! order of their names, as a `BTreeMap<String, _>` does.

use vstd::prelude::*;

use crate::lexical::{lemma_lt_irreflexive, lemma_lt_total, lemma_lt_transitive, seq_lt, str_eq, str_lt};
use crate::model::Workspace;

verus! {

/// Workspaces keyed by name, one entry per name.
#[derive(Debug)]
pub struct WorkspaceTree {
    entries: Vec<(String, Workspace)>,
}

/// The names of `e` come in strictly increasing order.
pub open spec fn names_increasing(e: Seq<(String, Workspace)>) -> bool {
    forall|i: int, j: int| 0 <= i < j < e.len() ==> seq_lt(#[trigger] e[i].0@, #[trigger] e[j].0@)
}

/// The map that a list of entries stands for, each entry binding its name.
pub open spec fn entries_map(e: Seq<(String, Workspace)>) -> Map<Seq<char>, Workspace>
    decreases e.len(),
{
    if e.len() == 0 {
        Map::empty()
    } else {
        entries_map(e.drop_last()).insert(e.last().0@, e.last().1)
    }
}

/// In a list of entries with increasing names, the map binds exactly the
/// names of the entries, each to its entry's workspace.
pub proof fn lemma_entries_map(e: Seq<(String, Workspace)>)
    requires
        names_increasing(e),
    ensures
        forall|k: Seq<char>| #[trigger] entries_map(e).contains_key(k) <==> exists|i: int| 0 <= i < e.len() && e[i].0@ == k,
        forall|i: int| 0 <= i < e.len() ==> entries_map(e)[#[trigger] e[i].0@] == e[i].1,
    decreases e.len(),
{
    if e.len() > 0 {
        let d = e.drop_last();
        assert(names_increasing(d)) by {
            assert forall|i: int, j: int| 0 <= i < j < d.len() implies seq_lt(#[trigger] d[i].0@, #[trigger] d[j].0@) by {
                assert(d[i] == e[i] && d[j] == e[j]);
            }
        }
        lemma_entries_map(d);
        let last = e.len() - 1;
        assert forall|k: Seq<char>| #[trigger] entries_map(e).contains_key(k) implies exists|i: int| 0 <= i < e.len() && e[i].0@ == k by {
            if k != e.last().0@ {
                assert(entries_map(d).contains_key(k));
                let i = choose|i: int| 0 <= i < d.len() && d[i].0@ == k;
                assert(e[i] == d[i]);
            } else {
                assert(e[last].0@ == k);
            }
        }
        assert forall|k: Seq<char>| (exists|i: int| 0 <= i < e.len() && e[i].0@ == k) implies #[trigger] entries_map(e).contains_key(k) by {
            let i = choose|i: int| 0 <= i < e.len() && e[i].0@ == k;
            if i < last {
                assert(d[i] == e[i]);
            }
        }
        assert forall|i: int| 0 <= i < e.len() implies entries_map(e)[#[trigger] e[i].0@] == e[i].1 by {
            if i < last {
                assert(d[i] == e[i]);
                assert(seq_lt(e[i].0@, e[last].0@));
                lemma_lt_irreflexive(e[i].0@);
            }
        }
    }
}

/// After `insert(name, w)`, looking `name` up gives `w`, and every other
/// name gives what it gave before.
pub proof fn law_lookup_after_insert(
    before: Map<Seq<char>, Workspace>,
    after: Map<Seq<char>, Workspace>,
    name: Seq<char>,
    w: Workspace,
    other: Seq<char>,
)
    requires
        after == before.insert(name, w),
    ensures
        after.contains_key(name) && after[name] == w,
        other != name ==> (after.contains_key(other) == before.contains_key(other) && (before.contains_key(other) ==> after[other] == before[other])),
{
}

impl WorkspaceTree {
    #[verifier::type_invariant]
    spec fn names_in_order(self) -> bool {
        names_increasing(self.entries@)
    }

    /// An empty table.
    pub fn new() -> (tree: Self)
        ensures
            tree@ == Map::<Seq<char>, Workspace>::empty(),
    {
        let tree = WorkspaceTree { entries: Vec::new() };
        assert(tree@ =~= Map::<Seq<char>, Workspace>::empty());
        tree
    }

    /// Binds `name` to `workspace`, replacing what the name was bound to.
    pub fn insert(&mut self, name: String, workspace: Workspace)
        ensures
            final(self)@ == old(self)@.insert(name@, workspace),
    {
        proof {
            use_type_invariant(&*self);
        }
        let ghost before = self.entries@;
        let mut entries: Vec<(String, Workspace)> = Vec::new();
        std::mem::swap(&mut entries, &mut self.entries);
        assert(entries@ == before);
        proof {
            lemma_entries_map(before);
        }
        let n = entries.len();
        let mut p: usize = 0;
        while p < n && str_lt(entries[p].0.as_str(), name.as_str())
            invariant
                p <= n,
                n == entries@.len(),
                entries@ == before,
                forall|i: int| 0 <= i < p ==> seq_lt(#[trigger] before[i].0@, name@),
            decreases n - p,
        {
            p = p + 1;
        }
        let ghost k = name@;
        let ghost m = entries_map(before);
        if p < n && str_eq(entries[p].0.as_str(), name.as_str()) {
            entries.set(p, (name, workspace));
            let ghost after = entries@;
            assert(names_increasing(after)) by {
                assert forall|i: int, j: int| 0 <= i < j < after.len() implies seq_lt(#[trigger] after[i].0@, #[trigger] after[j].0@) by {
                    assert(seq_lt(before[i].0@, before[j].0@));
                }
            }
            proof {
                lemma_entries_map(after);
            }
            assert forall|key: Seq<char>| #[trigger] entries_map(after).contains_key(key) == m.insert(k, workspace).contains_key(key) by {
                if entries_map(after).contains_key(key) {
                    let i = choose|i: int| 0 <= i < after.len() && after[i].0@ == key;
                    if i != p {
                        assert(before[i].0@ == key);
                    }
                }
                if m.contains_key(key) {
                    let i = choose|i: int| 0 <= i < before.len() && before[i].0@ == key;
                    if i != p {
                        assert(after[i].0@ == key);
                    } else {
                        assert(after[p as int].0@ == key);
                    }
                }
                if key == k {
                    assert(after[p as int].0@ == key);
                }
            }
            assert forall|key: Seq<char>| #[trigger] entries_map(after).contains_key(key) implies entries_map(after)[key] == m.insert(k, workspace)[key] by {
                let i = choose|i: int| 0 <= i < after.len() && after[i].0@ == key;
                if i != p {
                    assert(before[i] == after[i]);
                }
            }
            assert(entries_map(after) =~= m.insert(k, workspace));
        } else {
            proof {
                if p < n {
                    lemma_lt_total(before[p as int].0@, k);
                }
            }
            entries.insert(p, (name, workspace));
            let ghost after = entries@;
            assert(names_increasing(after)) by {
                assert forall|i: int, j: int| 0 <= i < j < after.len() implies seq_lt(#[trigger] after[i].0@, #[trigger] after[j].0@) by {
                    if j < p {
                        assert(seq_lt(before[i].0@, before[j].0@));
                    } else if j == p {
                    } else if i < p {
                        assert(after[j] == before[j - 1]);
                        if j - 1 > p {
                            assert(seq_lt(before[p as int].0@, before[j - 1].0@));
                            lemma_lt_transitive(k, before[p as int].0@, before[j - 1].0@);
                        }
                        lemma_lt_transitive(before[i].0@, k, before[j - 1].0@);
                    } else if i == p {
                        assert(after[j] == before[j - 1]);
                        if j - 1 > p {
                            assert(seq_lt(before[p as int].0@, before[j - 1].0@));
                            lemma_lt_transitive(k, before[p as int].0@, before[j - 1].0@);
                        }
                    } else {
                        assert(seq_lt(before[i - 1].0@, before[j - 1].0@));
                    }
                }
            }
            proof {
                lemma_entries_map(after);
            }
            assert forall|key: Seq<char>| #[trigger] entries_map(after).contains_key(key) == m.insert(k, workspace).contains_key(key) by {
                if entries_map(after).contains_key(key) {
                    let i = choose|i: int| 0 <= i < after.len() && after[i].0@ == key;
                    if i < p {
                        assert(before[i].0@ == key);
                    } else if i > p {
                        assert(before[i - 1].0@ == key);
                    }
                }
                if m.contains_key(key) {
                    let i = choose|i: int| 0 <= i < before.len() && before[i].0@ == key;
                    if i < p {
                        assert(after[i].0@ == key);
                    } else {
                        assert(after[i + 1].0@ == key);
                    }
                }
                if key == k {
                    assert(after[p as int].0@ == key);
                }
            }
            assert forall|key: Seq<char>| #[trigger] entries_map(after).contains_key(key) implies entries_map(after)[key] == m.insert(k, workspace)[key] by {
                let i = choose|i: int| 0 <= i < after.len() && after[i].0@ == key;
                if i < p {
                    assert(before[i] == after[i]);
                    assert(seq_lt(before[i].0@, k));
                    lemma_lt_irreflexive(k);
                } else if i > p {
                    assert(before[i - 1] == after[i]);
                    assert(after[p as int].0@ == k);
                    assert(seq_lt(after[p as int].0@, after[i].0@));
                    lemma_lt_irreflexive(k);
                }
            }
            assert(entries_map(after) =~= m.insert(k, workspace));
        }
        self.entries = entries;
    }

    /// The workspace bound to `name`, if any.
    pub fn get(&self, name: &str) -> (res: Option<&Workspace>)
        ensures
            match res {
                Some(w) => self@.contains_key(name@) && *w == self@[name@],
                None => !self@.contains_key(name@),
            },
    {
        proof {
            use_type_invariant(self);
            lemma_entries_map(self.entries@);
        }
        let n = self.entries.len();
        let mut i: usize = 0;
        while i < n
            invariant
                i <= n,
                n == self.entries@.len(),
                forall|j: int| 0 <= j < i ==> self.entries@[j].0@ != name@,
            decreases n - i,
        {
            if str_eq(self.entries[i].0.as_str(), name) {
                proof {
                    use_type_invariant(self);
                    lemma_entries_map(self.entries@);
                }
                return Some(&self.entries[i].1);
            }
            i = i + 1;
        }
        None
    }
}

impl Clone for WorkspaceTree {
    /// A copy with the same names bound to the same workspaces.
    fn clone(&self) -> (res: Self)
        ensures
            res@ == self@,
    {
        proof {
            use_type_invariant(self);
        }
        let n = self.entries.len();
        let mut entries: Vec<(String, Workspace)> = Vec::new();
        let mut i: usize = 0;
        while i < n
            invariant
                i <= n,
                n == self.entries@.len(),
                names_increasing(self.entries@),
                entries@.len() == i,
                forall|j: int| 0 <= j < i ==> #[trigger] entries@[j] == self.entries@[j],
            decreases n - i,
        {
            let name = self.entries[i].0.clone();
            let workspace = self.entries[i].1;
            entries.push((name, workspace));
            i = i + 1;
        }
        assert(entries@ =~= self.entries@);
        WorkspaceTree { entries }
    }
}

impl View for WorkspaceTree {
    type V = Map<Seq<char>, Workspace>;

    closed spec fn view(&self) -> Map<Seq<char>, Workspace> {
        entries_map(self.entries@)
    }
}

} // verus!
