//! The staleness-aware environment cache: a map from canonical path to
//! environment record, kept as a vector sorted by key so that iteration
//! order is the key order, with the staleness test and the background
//! synchronization decision.

use vstd::prelude::*;
use vstd::string::*;

use crate::error::VenvError;
use crate::model::{join_path_spec, latest_modification_spec, Venv};
use crate::strutil::{lemma_lex_le_antisym, lemma_lex_le_total, lemma_lex_le_trans, lex_le, str_le};

verus! {

/// What the background synchronization reports to the interface, an ordered
/// stream: `Started` first, `Finished` last, the rest in between.
#[derive(Debug)]
pub enum SyncMsg {
    Started,
    Progress(String),
    VenvUpdated(String),
    Error(String),
    Finished,
}

/// What the synchronization sweep does with one cached entry.
#[derive(Debug, PartialEq, Eq, Structural)]
pub enum SyncAction {
    Remove,
    Reparse,
    Keep,
}

/// Index of the first entry keyed `k`, or the length if the key is absent.
pub open spec fn cache_index_of(c: Seq<(String, Venv)>, k: Seq<char>) -> int
    decreases c,
{
    if c.len() == 0 {
        0
    } else if c[0].0@ == k {
        0
    } else {
        1 + cache_index_of(c.drop_first(), k)
    }
}

/// Does the cache hold an entry keyed `k`?
pub open spec fn cache_has(c: Seq<(String, Venv)>, k: Seq<char>) -> bool {
    cache_index_of(c, k) < c.len()
}

pub proof fn lemma_cache_index_of(c: Seq<(String, Venv)>, k: Seq<char>)
    ensures
        0 <= cache_index_of(c, k) <= c.len(),
        cache_index_of(c, k) < c.len() ==> c[cache_index_of(c, k)].0@ == k,
        forall|j: int| 0 <= j < cache_index_of(c, k) ==> (#[trigger] c[j]).0@ != k,
    decreases c,
{
    if c.len() > 0 && c[0].0@ != k {
        lemma_cache_index_of(c.drop_first(), k);
        assert forall|j: int| 0 <= j < cache_index_of(c, k) implies (#[trigger] c[j]).0@ != k by {
            if j > 0 {
                assert(c.drop_first()[j - 1] == c[j]);
            }
        }
    }
}

proof fn lemma_cache_index_of_skip(c: Seq<(String, Venv)>, k: Seq<char>, i: int)
    requires
        0 <= i <= c.len(),
        forall|j: int| 0 <= j < i ==> (#[trigger] c[j]).0@ != k,
    ensures
        cache_index_of(c, k) == i + cache_index_of(c.skip(i), k),
    decreases i,
{
    if i > 0 {
        assert(forall|j: int| 0 <= j < i - 1 ==> (#[trigger] c.drop_first()[j]).0@ != k);
        lemma_cache_index_of_skip(c.drop_first(), k, i - 1);
        assert(c.drop_first().skip(i - 1) =~= c.skip(i));
    } else {
        assert(c.skip(0) =~= c);
    }
}

/// The position a new key belongs at: before the first key not below it.
pub open spec fn insert_pos_spec(c: Seq<(String, Venv)>, k: Seq<char>) -> int
    decreases c,
{
    if c.len() == 0 {
        0
    } else if lex_le(k, c[0].0@) {
        0
    } else {
        1 + insert_pos_spec(c.drop_first(), k)
    }
}

proof fn lemma_insert_pos_at(c: Seq<(String, Venv)>, k: Seq<char>, p: int)
    requires
        0 <= p <= c.len(),
        forall|j: int| 0 <= j < p ==> !lex_le(k, (#[trigger] c[j]).0@),
        p < c.len() ==> lex_le(k, c[p].0@),
    ensures
        insert_pos_spec(c, k) == p,
    decreases c,
{
    if c.len() > 0 && !lex_le(k, c[0].0@) {
        assert(forall|j: int| 0 <= j < p - 1 ==> !lex_le(k, (#[trigger] c.drop_first()[j]).0@));
        lemma_insert_pos_at(c.drop_first(), k, p - 1);
    }
}

/// The in-memory cache and the directory its persisted files live under.
pub struct VenvManager {
    pub cache: Vec<(String, Venv)>,
    pub cache_path: String,
}

impl VenvManager {
    /// The keys are strictly increasing: sorted, with no key twice.
    pub open spec fn wf(&self) -> bool {
        forall|i: int, j: int|
            0 <= i < j < self.cache@.len() ==> lex_le(
                (#[trigger] self.cache@[i]).0@,
                (#[trigger] self.cache@[j]).0@,
            ) && self.cache@[i].0@ != self.cache@[j].0@
    }

    /// An empty cache over the given cache directory.
    pub fn new(cache_path: String) -> (r: Self)
        ensures
            r.cache@.len() == 0,
            r.cache_path@ == cache_path@,
            r.wf(),
    {
        VenvManager { cache: Vec::new(), cache_path }
    }

    /// Snapshots of every cached record, in key order.
    pub fn get_venvs(&self) -> (r: Vec<Venv>)
        ensures
            r@.len() == self.cache@.len(),
            forall|i: int| 0 <= i < r@.len() ==> (#[trigger] r@[i])@ == self.cache@[i].1@,
    {
        let mut r: Vec<Venv> = Vec::new();
        let mut i: usize = 0;
        while i < self.cache.len()
            invariant
                0 <= i <= self.cache@.len(),
                r@.len() == i,
                forall|j: int| 0 <= j < i ==> (#[trigger] r@[j])@ == self.cache@[j].1@,
            decreases self.cache@.len() - i,
        {
            r.push(self.cache[i].1.clone());
            i = i + 1;
        }
        r
    }

    /// The paths of every cached entry, in key order.
    pub fn cached_paths(&self) -> (r: Vec<String>)
        ensures
            r@.len() == self.cache@.len(),
            forall|i: int| 0 <= i < r@.len() ==> (#[trigger] r@[i])@ == self.cache@[i].0@,
    {
        let mut r: Vec<String> = Vec::new();
        let mut i: usize = 0;
        while i < self.cache.len()
            invariant
                0 <= i <= self.cache@.len(),
                r@.len() == i,
                forall|j: int| 0 <= j < i ==> (#[trigger] r@[j])@ == self.cache@[j].0@,
            decreases self.cache@.len() - i,
        {
            r.push(self.cache[i].0.clone());
            i = i + 1;
        }
        r
    }

    /// The cached record under `p`, if any.
    pub fn lookup<'a>(&'a self, p: &str) -> (r: Option<&'a Venv>)
        ensures
            match r {
                Some(v) => cache_has(self.cache@, p@) && *v == self.cache@[cache_index_of(
                    self.cache@,
                    p@,
                )].1,
                None => !cache_has(self.cache@, p@),
            },
    {
        let mut i: usize = 0;
        while i < self.cache.len()
            invariant
                0 <= i <= self.cache@.len(),
                forall|j: int| 0 <= j < i ==> (#[trigger] self.cache@[j]).0@ != p@,
            decreases self.cache@.len() - i,
        {
            if crate::strutil::eq_str(self.cache[i].0.as_str(), p) {
                proof {
                    lemma_cache_index_of_skip(self.cache@, p@, i as int);
                    assert(self.cache@.skip(i as int)[0] == self.cache@[i as int]);
                }
                return Some(&self.cache[i].1);
            }
            i = i + 1;
        }
        proof {
            lemma_cache_index_of_skip(self.cache@, p@, i as int);
        }
        None
    }

    /// Installs a record under `p`: replaces an existing entry in place, or
    /// inserts a new entry at its sorted position.
    pub fn insert_venv(&mut self, p: String, v: Venv)
        requires
            old(self).wf(),
        ensures
            final(self).wf(),
            final(self).cache_path == old(self).cache_path,
            final(self).cache@ == if cache_has(old(self).cache@, p@) {
                old(self).cache@.update(cache_index_of(old(self).cache@, p@), (p, v))
            } else {
                old(self).cache@.insert(insert_pos_spec(old(self).cache@, p@), (p, v))
            },
    {
        let ghost c0 = self.cache@;
        proof {
            assert forall|x: int, y: int|
                0 <= x < y < c0.len() implies lex_le((#[trigger] c0[x]).0@, (#[trigger] c0[y]).0@)
                && c0[x].0@ != c0[y].0@ by {
                assert(old(self).cache@[x] == c0[x]);
                assert(old(self).cache@[y] == c0[y]);
                assert(lex_le((old(self).cache@[x]).0@, (old(self).cache@[y]).0@) && (old(
                    self,
                ).cache@[x]).0@ != (old(self).cache@[y]).0@);
            }
        }
        let mut i: usize = 0;
        while i < self.cache.len() && !str_le(p.as_str(), self.cache[i].0.as_str())
            invariant
                0 <= i <= self.cache@.len(),
                self.cache@ == c0,
                self.cache_path == old(self).cache_path,
                forall|x: int, y: int|
                    0 <= x < y < c0.len() ==> lex_le((#[trigger] c0[x]).0@, (#[trigger] c0[y]).0@)
                        && c0[x].0@ != c0[y].0@,
                forall|j: int| 0 <= j < i ==> !lex_le(p@, (#[trigger] self.cache@[j]).0@),
            decreases self.cache@.len() - i,
        {
            i = i + 1;
        }
        proof {
            lemma_insert_pos_at(c0, p@, i as int);
            assert forall|j: int| 0 <= j < i implies (#[trigger] c0[j]).0@ != p@ by {
                lemma_lex_le_total(p@, c0[j].0@);
                if c0[j].0@ == p@ {
                    assert(lex_le(p@, c0[j].0@)) by {
                        lemma_lex_le_total(p@, p@);
                    }
                }
            }
        }
        if i < self.cache.len() && crate::strutil::eq_str(self.cache[i].0.as_str(), p.as_str()) {
            proof {
                lemma_cache_index_of_skip(c0, p@, i as int);
                assert(c0.skip(i as int)[0] == c0[i as int]);
                assert(cache_index_of(c0, p@) == i);
            }
            self.cache.set(i, (p, v));
            proof {
                assert forall|a: int, b: int|
                    0 <= a < b < self.cache@.len() implies lex_le(
                    (#[trigger] self.cache@[a]).0@,
                    (#[trigger] self.cache@[b]).0@,
                ) && self.cache@[a].0@ != self.cache@[b].0@ by {
                    assert(c0[a].0@ == self.cache@[a].0@ || a == i);
                    assert(c0[b].0@ == self.cache@[b].0@ || b == i);
                    assert(self.cache@[i as int].0@ == c0[i as int].0@);
                    assert(lex_le(c0[a].0@, c0[b].0@) && c0[a].0@ != c0[b].0@);
                }
            }
        } else {
            proof {
                if i < c0.len() {
                    assert(c0[i as int].0@ != p@);
                }
                assert forall|j: int| i <= j < c0.len() implies !((#[trigger] c0[j]).0@
                    == p@) by {
                    if j > i {
                        assert(lex_le(c0[i as int].0@, c0[j].0@));
                        if c0[j].0@ == p@ {
                            assert(lex_le(p@, c0[i as int].0@));
                            lemma_lex_le_antisym(p@, c0[i as int].0@);
                        }
                    }
                }
                assert(!cache_has(c0, p@)) by {
                    lemma_cache_index_of(c0, p@);
                    if cache_has(c0, p@) {
                        let ix = cache_index_of(c0, p@);
                        assert(c0[ix].0@ == p@);
                    }
                }
            }
            let ghost pv = p@;
            self.cache.insert(i, (p, v));
            proof {
                assert(self.cache@ =~= c0.insert(i as int, (p, v)));
                assert forall|a: int, b: int|
                    0 <= a < b < self.cache@.len() implies lex_le(
                    (#[trigger] self.cache@[a]).0@,
                    (#[trigger] self.cache@[b]).0@,
                ) && self.cache@[a].0@ != self.cache@[b].0@ by {
                    let ka = self.cache@[a].0@;
                    let kb = self.cache@[b].0@;
                    if a == i {
                        assert(ka == pv);
                        assert(kb == c0[b - 1].0@);
                        assert(lex_le(pv, c0[i as int].0@));
                        if b - 1 > i {
                            lemma_lex_le_trans(pv, c0[i as int].0@, c0[b - 1].0@);
                        }
                        assert(c0[b - 1].0@ != pv);
                    } else if b == i {
                        assert(kb == pv);
                        assert(ka == c0[a].0@);
                        assert(!lex_le(pv, c0[a].0@));
                        lemma_lex_le_total(pv, c0[a].0@);
                        assert(lex_le(c0[a].0@, pv));
                        if c0[a].0@ == pv {
                            lemma_lex_le_antisym(pv, c0[a].0@);
                        }
                    } else {
                        let a0 = if a < i {
                            a
                        } else {
                            a - 1
                        };
                        let b0 = if b < i {
                            b
                        } else {
                            b - 1
                        };
                        assert(ka == c0[a0].0@);
                        assert(kb == c0[b0].0@);
                        if a0 == b0 {
                            assert(false);
                        }
                    }
                }
            }
        }
    }

    /// Evicts the entry under `p`, if present.
    pub fn remove_venv(&mut self, p: &str)
        requires
            old(self).wf(),
        ensures
            final(self).wf(),
            final(self).cache_path == old(self).cache_path,
            final(self).cache@ == if cache_has(old(self).cache@, p@) {
                old(self).cache@.remove(cache_index_of(old(self).cache@, p@))
            } else {
                old(self).cache@
            },
    {
        let ghost c0 = self.cache@;
        proof {
            assert forall|x: int, y: int|
                0 <= x < y < c0.len() implies lex_le((#[trigger] c0[x]).0@, (#[trigger] c0[y]).0@)
                && c0[x].0@ != c0[y].0@ by {
                assert(old(self).cache@[x] == c0[x]);
                assert(old(self).cache@[y] == c0[y]);
                assert(lex_le((old(self).cache@[x]).0@, (old(self).cache@[y]).0@) && (old(
                    self,
                ).cache@[x]).0@ != (old(self).cache@[y]).0@);
            }
        }
        let mut i: usize = 0;
        while i < self.cache.len()
            invariant
                0 <= i <= self.cache@.len(),
                self.cache@ == c0,
                c0 == old(self).cache@,
                self.cache_path == old(self).cache_path,
                forall|x: int, y: int|
                    0 <= x < y < c0.len() ==> lex_le((#[trigger] c0[x]).0@, (#[trigger] c0[y]).0@)
                        && c0[x].0@ != c0[y].0@,
                forall|j: int| 0 <= j < i ==> (#[trigger] self.cache@[j]).0@ != p@,
            decreases self.cache@.len() - i,
        {
            if crate::strutil::eq_str(self.cache[i].0.as_str(), p) {
                proof {
                    lemma_cache_index_of_skip(c0, p@, i as int);
                    assert(c0.skip(i as int)[0] == c0[i as int]);
                    assert(cache_index_of(c0, p@) == i);
                }
                let _ = self.cache.remove(i);
                proof {
                    assert(self.cache@ =~= c0.remove(i as int));
                    assert forall|a: int, b: int|
                        0 <= a < b < self.cache@.len() implies lex_le(
                        (#[trigger] self.cache@[a]).0@,
                        (#[trigger] self.cache@[b]).0@,
                    ) && self.cache@[a].0@ != self.cache@[b].0@ by {
                        let a0 = if a < i {
                            a
                        } else {
                            a + 1
                        };
                        let b0 = if b < i {
                            b
                        } else {
                            b + 1
                        };
                        assert(self.cache@[a].0@ == c0[a0].0@);
                        assert(self.cache@[b].0@ == c0[b0].0@);
                    }
                }
                return ;
            }
            i = i + 1;
        }
        proof {
            lemma_cache_index_of_skip(c0, p@, i as int);
        }
    }

    /// Is the record cached under `p` out of date against the probe value
    /// `probe`? A path that is not cached at all counts as stale.
    pub fn is_venv_stale(&self, p: &str, probe: u64) -> (r: bool)
        ensures
            r == stale_spec(self.cache@, p@, probe),
    {
        match self.lookup(p) {
            Some(v) => {
                let latest = v.latest_package_modification();
                latest < probe
            },
            None => true,
        }
    }
}

/// The staleness test: an uncached path is stale, a cached one is stale
/// exactly when its newest recorded package modification is older than the
/// probe's answer.
pub open spec fn stale_spec(c: Seq<(String, Venv)>, k: Seq<char>, probe: u64) -> bool {
    !cache_has(c, k) || latest_modification_spec(c[cache_index_of(c, k)].1@.packages) < probe
}

/// What the synchronization sweep does with one entry, given the cached
/// record and the probe's outcome: a failed probe evicts the entry, a probe
/// that outruns the record reparses it, anything else keeps it.
pub fn sync_step(cached: &Venv, probe: &Result<u64, VenvError>) -> (r: SyncAction)
    ensures
        r is Remove <==> probe is Err,
        r is Reparse <==> (probe matches Ok(t) && latest_modification_spec(cached@.packages) < *t),
        r is Keep <==> (probe matches Ok(t) && latest_modification_spec(cached@.packages) >= *t),
{
    match probe {
        Err(_) => SyncAction::Remove,
        Ok(t) => {
            let latest = cached.latest_package_modification();
            if latest < *t {
                SyncAction::Reparse
            } else {
                SyncAction::Keep
            }
        },
    }
}

/// The file a record is persisted under: the environment directory's name
/// with the cache extension, inside the cache directory.
pub fn to_cache_path(venv_path: &str, cache_dir: &str) -> (r: Option<String>)
    ensures
        r matches Some(s) && s@ == join_path_spec(
            cache_dir@,
            crate::parser::base_name_spec(venv_path@) + ".bin"@,
        ),
{
    let base = crate::parser::base_name(venv_path);
    let mut fname = base.to_owned();
    fname.append(".bin");
    Some(crate::model::join_path(cache_dir, fname.as_str()))
}

} // verus!
