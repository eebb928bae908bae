use vstd::prelude::*;

use crate::changes::index_of;

verus! {

/// A memoized directory size and the directory's modification time when it was measured,
/// in nanoseconds from the Unix epoch.
#[derive(Clone, Copy, Debug, PartialEq, Eq)]
pub struct CachedSize {
    pub size: u64,
    pub mtime: i128,
}

/// Directory sizes keyed by path, valid only while the directory's modification time
/// is the one recorded with them.
pub struct SizeCache {
    entries: Vec<(String, CachedSize)>,
}

pub open spec fn cache_lookup(m: Seq<(Seq<char>, CachedSize)>, path: Seq<char>) -> Option<CachedSize> {
    let k = index_of(m, path);
    if k >= 0 {
        Some(m[k].1)
    } else {
        None
    }
}

/// What a lookup yields when the directory's modification time now reads `current`.
pub open spec fn valid_size(
    m: Seq<(Seq<char>, CachedSize)>,
    path: Seq<char>,
    current: Option<i128>,
) -> Option<u64> {
    match (cache_lookup(m, path), current) {
        (Some(c), Some(t)) => if c.mtime == t {
            Some(c.size)
        } else {
            None
        },
        _ => None,
    }
}

pub open spec fn cache_store(
    m: Seq<(Seq<char>, CachedSize)>,
    path: Seq<char>,
    c: CachedSize,
) -> Seq<(Seq<char>, CachedSize)> {
    let k = index_of(m, path);
    if k >= 0 {
        m.update(k, (path, c))
    } else {
        m.push((path, c))
    }
}

pub open spec fn keys_unique(m: Seq<(Seq<char>, CachedSize)>) -> bool {
    forall|i: int, j: int| 0 <= i < j < m.len() ==> m[i].0 != m[j].0
}

impl View for SizeCache {
    type V = Seq<(Seq<char>, CachedSize)>;

    closed spec fn view(&self) -> Seq<(Seq<char>, CachedSize)> {
        self.entries@.map_values(|e: (String, CachedSize)| (e.0@, e.1))
    }
}

impl SizeCache {
    pub open spec fn wf(&self) -> bool {
        keys_unique(self@)
    }

    pub fn new() -> (r: SizeCache)
        ensures
            r@ == Seq::<(Seq<char>, CachedSize)>::empty(),
            r.wf(),
    {
        let r = SizeCache { entries: Vec::new() };
        assert(r@ =~= Seq::<(Seq<char>, CachedSize)>::empty());
        r
    }

    fn position(&self, path: &String) -> (r: Option<usize>)
        ensures
            match r {
                Some(k) => k as int == index_of(self@, path@) && k < self@.len(),
                None => index_of(self@, path@) == -1,
            },
    {
        let mut k = self.entries.len();
        assert(self@.subrange(0, k as int) =~= self@);
        while k > 0
            invariant
                k <= self.entries.len(),
                index_of(self@, path@) == index_of(self@.subrange(0, k as int), path@),
            decreases k,
        {
            assert(self@.subrange(0, k as int).drop_last() =~= self@.subrange(0, k - 1));
            if self.entries[k - 1].0 == *path {
                return Some(k - 1);
            }
            k = k - 1;
        }
        None
    }

    /// The cached size of `path`, provided its modification time now reads as it did
    /// when the size was stored. A mismatch is a miss and leaves the entry in place.
    pub fn get(&self, path: &String, current_mtime: Option<i128>) -> (r: Option<u64>)
        ensures
            r == valid_size(self@, path@, current_mtime),
    {
        match self.position(path) {
            Some(k) => match current_mtime {
                Some(t) => {
                    if self.entries[k].1.mtime == t {
                        Some(self.entries[k].1.size)
                    } else {
                        None
                    }
                },
                None => None,
            },
            None => None,
        }
    }

    /// Stores `size` for `path` with the modification time just read; when that read
    /// failed nothing is stored.
    pub fn set(&mut self, path: String, size: u64, mtime: Option<i128>)
        ensures
            final(self)@ == (match mtime {
                Some(t) => cache_store(old(self)@, path@, CachedSize { size, mtime: t }),
                None => old(self)@,
            }),
            old(self).wf() ==> final(self).wf(),
    {
        match mtime {
            Some(t) => {
                let c = CachedSize { size, mtime: t };
                match self.position(&path) {
                    Some(k) => {
                        self.entries.set(k, (path, c));
                    },
                    None => {
                        self.entries.push((path, c));
                    },
                }
                assert(final(self)@ =~= cache_store(old(self)@, path@, c));
                proof {
                    lemma_key_found(old(self)@, path@);
                }
            },
            None => {},
        }
    }

    /// Drops every entry.
    pub fn clear(&mut self)
        ensures
            final(self)@ == Seq::<(Seq<char>, CachedSize)>::empty(),
            final(self).wf(),
    {
        self.entries.clear();
        assert(final(self)@ =~= Seq::<(Seq<char>, CachedSize)>::empty());
    }

    /// The number of entries.
    pub fn size(&self) -> (r: usize)
        ensures
            r == self@.len(),
    {
        self.entries.len()
    }

    /// Drops the entry for `path`, if any.
    pub fn invalidate(&mut self, path: &String)
        ensures
            final(self)@ == (if index_of(old(self)@, path@) >= 0 {
                old(self)@.remove(index_of(old(self)@, path@))
            } else {
                old(self)@
            }),
            old(self).wf() ==> final(self).wf(),
            old(self).wf() ==> cache_lookup(final(self)@, path@) is None,
    {
        match self.position(path) {
            Some(k) => {
                self.entries.remove(k);
                assert(self@ =~= old(self)@.remove(k as int));
                proof {
                    lemma_key_found(old(self)@, path@);
                    lemma_key_found(self@, path@);
                    if old(self).wf() && index_of(self@, path@) >= 0 {
                        let j = index_of(self@, path@);
                        if j < k {
                            assert(old(self)@[j] == self@[j]);
                        } else {
                            assert(old(self)@[j + 1] == self@[j]);
                        }
                    }
                }
            },
            None => {
                proof {
                    lemma_key_found(old(self)@, path@);
                }
            },
        }
    }
}

proof fn lemma_key_found(m: Seq<(Seq<char>, CachedSize)>, path: Seq<char>)
    ensures
        -1 <= index_of(m, path) < m.len(),
        index_of(m, path) >= 0 ==> m[index_of(m, path)].0 == path,
        index_of(m, path) == -1 ==> forall|i: int| 0 <= i < m.len() ==> m[i].0 != path,
    decreases m.len(),
{
    if m.len() > 0 {
        lemma_key_found(m.drop_last(), path);
        assert forall|i: int| 0 <= i < m.len() - 1 implies m[i] == m.drop_last()[i] by {}
    }
}

/// A size just stored is returned while the modification time is unchanged, and a
/// changed modification time turns the lookup into a miss.
pub proof fn lemma_cache_validity(
    m: Seq<(Seq<char>, CachedSize)>,
    path: Seq<char>,
    size: u64,
    stored: i128,
    later: i128,
)
    ensures
        valid_size(cache_store(m, path, CachedSize { size, mtime: stored }), path, Some(stored))
            == Some(size),
        later != stored ==> valid_size(
            cache_store(m, path, CachedSize { size, mtime: stored }),
            path,
            Some(later),
        ) is None,
        valid_size(cache_store(m, path, CachedSize { size, mtime: stored }), path, None) is None,
{
    let c = CachedSize { size, mtime: stored };
    let m2 = cache_store(m, path, c);
    lemma_key_found(m, path);
    lemma_key_found(m2, path);
    lemma_store_index(m, path, c);
}

proof fn lemma_store_index(m: Seq<(Seq<char>, CachedSize)>, path: Seq<char>, c: CachedSize)
    ensures
        index_of(cache_store(m, path, c), path) == (if index_of(m, path) >= 0 {
            index_of(m, path)
        } else {
            m.len() as int
        }),
    decreases m.len(),
{
    let k = index_of(m, path);
    if k >= 0 && m.last().0 != path {
        let m0 = m.drop_last();
        lemma_store_index(m0, path, c);
        lemma_key_found(m0, path);
        assert(m.update(k, (path, c)).drop_last() =~= m0.update(k, (path, c)));
    }
}

} // verus!
