//! The configuration: which repository lies in which folder.
//!
//! The mappings are kept in the order of the repository names, one for each
//! name.

use crate::text::{lemma_lex_lt_connected, lemma_lex_lt_transitive, lex_lt, str_eq, str_less};
use vstd::prelude::*;

verus! {

/// The mappings from repository names to folder paths.
#[derive(Debug)]
pub struct Config {
    repositories: Vec<(String, String)>,
}

/// The names and paths that a vector of pairs holds.
pub open spec fn pair_views(v: Seq<(String, String)>) -> Seq<(Seq<char>, Seq<char>)> {
    v.map_values(|p: (String, String)| (p.0@, p.1@))
}

/// Whether the names of the pairs strictly ascend.
pub open spec fn ascending(s: Seq<(Seq<char>, Seq<char>)>) -> bool {
    forall|i: int, j: int| 0 <= i < j < s.len() ==> lex_lt((#[trigger] s[i]).0, (#[trigger] s[j]).0)
}

/// The mapping that the pairs make up.
pub open spec fn mapping_of(s: Seq<(Seq<char>, Seq<char>)>) -> Map<Seq<char>, Seq<char>> {
    Map::new(
        |name: Seq<char>| exists|i: int| 0 <= i < s.len() && (#[trigger] s[i]).0 == name,
        |name: Seq<char>| s[choose|i: int| 0 <= i < s.len() && (#[trigger] s[i]).0 == name].1,
    )
}

/// Pairs with ascending names hold every name once, and the mapping holds
/// each pair.
pub proof fn lemma_mapping_of(s: Seq<(Seq<char>, Seq<char>)>)
    requires
        ascending(s),
    ensures
        forall|i: int, j: int|
            0 <= i < s.len() && 0 <= j < s.len() && (#[trigger] s[i]).0 == (#[trigger] s[j]).0
                ==> i == j,
        forall|i: int|
            0 <= i < s.len() ==> mapping_of(s).contains_key((#[trigger] s[i]).0) && mapping_of(
                s,
            )[s[i].0] == s[i].1,
{
    assert forall|i: int, j: int|
        0 <= i < s.len() && 0 <= j < s.len() && (#[trigger] s[i]).0 == (#[trigger] s[j]).0 implies i
        == j by {
        lemma_lex_lt_connected(s[i].0, s[j].0);
        if i < j {
            assert(lex_lt(s[i].0, s[j].0));
        } else if j < i {
            assert(lex_lt(s[j].0, s[i].0));
        }
    }
    assert forall|i: int| 0 <= i < s.len() implies mapping_of(s).contains_key((#[trigger] s[i]).0)
        && mapping_of(s)[s[i].0] == s[i].1 by {
        let name = s[i].0;
        let k = choose|k: int| 0 <= k < s.len() && (#[trigger] s[k]).0 == name;
        assert(s[k].0 == s[i].0);
    }
}

impl View for Config {
    type V = Map<Seq<char>, Seq<char>>;

    closed spec fn view(&self) -> Map<Seq<char>, Seq<char>> {
        mapping_of(pair_views(self.repositories@))
    }
}

impl Config {
    #[verifier::type_invariant]
    spec fn well_formed(self) -> bool {
        ascending(pair_views(self.repositories@))
    }

    /// A configuration without mappings.
    pub fn new() -> (config: Config)
        ensures
            config@ == Map::<Seq<char>, Seq<char>>::empty(),
    {
        let config = Config { repositories: Vec::new() };
        assert(config@ =~= Map::<Seq<char>, Seq<char>>::empty());
        config
    }

    /// The position of the first mapping whose name does not come before
    /// `name`.
    fn position(&self, name: &str) -> (p: usize)
        ensures
            p <= self.repositories@.len(),
            forall|i: int| 0 <= i < p ==> lex_lt((#[trigger] pair_views(self.repositories@)[i]).0, name@),
            p < self.repositories@.len() ==> !lex_lt(
                pair_views(self.repositories@)[p as int].0,
                name@,
            ),
    {
        let mut p: usize = 0;
        while p < self.repositories.len() && str_less(self.repositories[p].0.as_str(), name)
            invariant
                p <= self.repositories@.len(),
                forall|i: int|
                    0 <= i < p ==> lex_lt((#[trigger] pair_views(self.repositories@)[i]).0, name@),
            decreases self.repositories@.len() - p,
        {
            p += 1;
        }
        p
    }

    /// The folder of the repository `name`, where one is configured.
    pub fn get(&self, name: &str) -> (path: Option<&String>)
        ensures
            match path {
                Some(p) => self@.contains_key(name@) && self@[name@] == p@,
                None => !self@.contains_key(name@),
            },
    {
        proof {
            use_type_invariant(self);
            lemma_mapping_of(pair_views(self.repositories@));
        }
        let ghost s = pair_views(self.repositories@);
        let p = self.position(name);
        if p < self.repositories.len() && str_eq(self.repositories[p].0.as_str(), name) {
            assert(s[p as int].0 == name@);
            Some(&self.repositories[p].1)
        } else {
            proof {
                if self@.contains_key(name@) {
                    let k = choose|k: int| 0 <= k < s.len() && (#[trigger] s[k]).0 == name@;
                    lemma_lex_lt_connected(s[k].0, name@);
                    if k > p {
                        assert(lex_lt(s[p as int].0, s[k].0));
                    }
                }
            }
            None
        }
    }

    /// Maps the repository `name` to the folder `path`, in place of the
    /// folder that it was mapped to, if any.
    pub fn set(&mut self, name: &str, path: &str)
        ensures
            final(self)@ == old(self)@.insert(name@, path@),
    {
        proof {
            use_type_invariant(&*self);
            lemma_mapping_of(pair_views(self.repositories@));
        }
        let ghost before = pair_views(self.repositories@);
        let p = self.position(name);
        let replace = p < self.repositories.len() && str_eq(self.repositories[p].0.as_str(), name);
        let mut taken = Config::new();
        std::mem::swap(self, &mut taken);
        let Config { repositories: mut pairs } = taken;
        if replace {
            pairs.remove(p);
        }
        pairs.insert(p, (String::from_str(name), String::from_str(path)));
        let ghost after = pair_views(pairs@);
        proof {
            let gap = if replace {
                1int
            } else {
                0int
            };
            assert forall|i: int| 0 <= i < after.len() implies #[trigger] after[i] == (if i < p {
                before[i]
            } else if i == p {
                (name@, path@)
            } else {
                before[i - 1 + gap]
            }) by {}
            assert forall|i: int, j: int| 0 <= i < j < after.len() implies lex_lt(
                (#[trigger] after[i]).0,
                (#[trigger] after[j]).0,
            ) by {
                if j == p {
                } else if i == p {
                    let y = before[j - 1 + gap];
                    lemma_lex_lt_connected(name@, y.0);
                    if !replace {
                        lemma_lex_lt_connected(name@, before[p as int].0);
                        if j - 1 > p {
                            assert(lex_lt(before[p as int].0, y.0));
                            if lex_lt(y.0, name@) {
                                lemma_lex_lt_transitive(before[p as int].0, y.0, name@);
                            }
                        }
                    } else {
                        assert(lex_lt(before[p as int].0, y.0));
                    }
                } else {
                }
            }
        }
        *self = Config { repositories: pairs };
        proof {
            lemma_mapping_of(after);
            let goal = mapping_of(before).insert(name@, path@);
            assert forall|k: Seq<char>| mapping_of(after).contains_key(k) <==> goal.contains_key(
                k,
            ) by {
                if mapping_of(after).contains_key(k) {
                    let i = choose|i: int| 0 <= i < after.len() && (#[trigger] after[i]).0 == k;
                    if i < p {
                        assert(before[i].0 == k);
                    } else if i > p {
                        assert(before[i - 1 + (if replace {
                            1int
                        } else {
                            0int
                        })].0 == k);
                    }
                }
                if goal.contains_key(k) && k != name@ {
                    let i = choose|i: int| 0 <= i < before.len() && (#[trigger] before[i]).0 == k;
                    if i < p {
                        assert(after[i].0 == k);
                    } else {
                        assert(!(replace && i == p));
                        let j = if replace {
                            i
                        } else {
                            i + 1
                        };
                        assert(after[j].0 == k);
                    }
                }
                if k == name@ {
                    assert(after[p as int].0 == k);
                }
            }
            assert forall|k: Seq<char>| mapping_of(after).contains_key(k) implies mapping_of(
                after,
            )[k] == goal[k] by {
                let i = choose|i: int| 0 <= i < after.len() && (#[trigger] after[i]).0 == k;
                assert(mapping_of(after)[after[i].0] == after[i].1);
                if i < p {
                    assert(mapping_of(before)[before[i].0] == before[i].1);
                    lemma_lex_lt_connected(k, name@);
                    assert(lex_lt(after[i].0, after[p as int].0));
                } else if i > p {
                    let j = i - 1 + (if replace {
                        1int
                    } else {
                        0int
                    });
                    assert(mapping_of(before)[before[j].0] == before[j].1);
                    assert(before[j].0 == k);
                    lemma_lex_lt_connected(name@, k);
                    assert(lex_lt(after[p as int].0, after[i].0));
                }
            }
            assert(mapping_of(after) =~= goal);
        }
    }

    /// Takes out the mapping of the repository `name`. Returns whether there
    /// was one.
    pub fn remove(&mut self, name: &str) -> (removed: bool)
        ensures
            removed == old(self)@.contains_key(name@),
            final(self)@ == old(self)@.remove(name@),
    {
        proof {
            use_type_invariant(&*self);
            lemma_mapping_of(pair_views(self.repositories@));
        }
        let ghost before = pair_views(self.repositories@);
        let p = self.position(name);
        let found = p < self.repositories.len() && str_eq(self.repositories[p].0.as_str(), name);
        if !found {
            proof {
                if self@.contains_key(name@) {
                    let k = choose|k: int|
                        0 <= k < before.len() && (#[trigger] before[k]).0 == name@;
                    lemma_lex_lt_connected(before[k].0, name@);
                    if k > p {
                        assert(lex_lt(before[p as int].0, before[k].0));
                    }
                }
                assert(self@ =~= self@.remove(name@));
            }
            return false;
        }
        let mut taken = Config::new();
        std::mem::swap(self, &mut taken);
        let Config { repositories: mut pairs } = taken;
        pairs.remove(p);
        let ghost after = pair_views(pairs@);
        proof {
            assert forall|i: int| 0 <= i < after.len() implies #[trigger] after[i] == (if i < p {
                before[i]
            } else {
                before[i + 1]
            }) by {}
            assert(ascending(after));
        }
        *self = Config { repositories: pairs };
        proof {
            lemma_mapping_of(after);
            let goal = mapping_of(before).remove(name@);
            assert forall|k: Seq<char>| mapping_of(after).contains_key(k) <==> goal.contains_key(
                k,
            ) by {
                if mapping_of(after).contains_key(k) {
                    let i = choose|i: int| 0 <= i < after.len() && (#[trigger] after[i]).0 == k;
                    let j = if i < p {
                        i
                    } else {
                        i + 1
                    };
                    assert(before[j].0 == k);
                }
                if goal.contains_key(k) {
                    let i = choose|i: int| 0 <= i < before.len() && (#[trigger] before[i]).0 == k;
                    let j = if i < p {
                        i
                    } else {
                        i - 1
                    };
                    assert(after[j].0 == k);
                }
            }
            assert forall|k: Seq<char>| mapping_of(after).contains_key(k) implies mapping_of(
                after,
            )[k] == goal[k] by {
                let i = choose|i: int| 0 <= i < after.len() && (#[trigger] after[i]).0 == k;
                assert(mapping_of(after)[after[i].0] == after[i].1);
                let j = if i < p {
                    i
                } else {
                    i + 1
                };
                assert(mapping_of(before)[before[j].0] == before[j].1);
            }
            assert(mapping_of(after) =~= goal);
        }
        true
    }

    /// The mappings, in the order of the repository names.
    pub fn entries(&self) -> (pairs: &Vec<(String, String)>)
        ensures
            ascending(pair_views(pairs@)),
            mapping_of(pair_views(pairs@)) == self@,
    {
        proof {
            use_type_invariant(self);
        }
        &self.repositories
    }

    /// Whether there are no mappings.
    pub fn is_empty(&self) -> (empty: bool)
        ensures
            empty <==> self@ == Map::<Seq<char>, Seq<char>>::empty(),
    {
        proof {
            use_type_invariant(self);
            lemma_mapping_of(pair_views(self.repositories@));
            let s = pair_views(self.repositories@);
            if s.len() > 0 {
                assert(self@.contains_key(s[0].0));
            } else {
                assert(self@ =~= Map::<Seq<char>, Seq<char>>::empty());
            }
        }
        self.repositories.len() == 0
    }
}

impl Default for Config {
    fn default() -> (config: Config)
        ensures
            config@ == Map::<Seq<char>, Seq<char>>::empty(),
    {
        Config::new()
    }
}

} // verus!
