//! Keys of the compilation caches and the counters of their use.

use vstd::prelude::*;

verus! {

/// What a cached item is filed under: its kind and its name.
#[derive(Debug, PartialEq, Eq, Hash)]
pub enum CacheKey {
    Statement(String),
    Function(String),
    Rule(String),
    Expression(String),
}

impl CacheKey {
    /// The name inside the key.
    pub open spec fn name(&self) -> Seq<char> {
        match self {
            CacheKey::Statement(s) => s@,
            CacheKey::Function(s) => s@,
            CacheKey::Rule(s) => s@,
            CacheKey::Expression(s) => s@,
        }
    }

    /// The kind of key, numbered in the order of declaration.
    pub open spec fn kind(&self) -> nat {
        match self {
            CacheKey::Statement(_) => 0,
            CacheKey::Function(_) => 1,
            CacheKey::Rule(_) => 2,
            CacheKey::Expression(_) => 3,
        }
    }

    /// The same kind and the same name.
    pub fn same(&self, other: &CacheKey) -> (r: bool)
        ensures
            r == (self.kind() == other.kind() && self.name() == other.name()),
    {
        match (self, other) {
            (CacheKey::Statement(a), CacheKey::Statement(b)) => *a == *b,
            (CacheKey::Function(a), CacheKey::Function(b)) => *a == *b,
            (CacheKey::Rule(a), CacheKey::Rule(b)) => *a == *b,
            (CacheKey::Expression(a), CacheKey::Expression(b)) => *a == *b,
            _ => false,
        }
    }
}

impl Clone for CacheKey {
    fn clone(&self) -> (r: Self)
        ensures
            r == *self,
    {
        match self {
            CacheKey::Statement(s) => CacheKey::Statement(s.clone()),
            CacheKey::Function(s) => CacheKey::Function(s.clone()),
            CacheKey::Rule(s) => CacheKey::Rule(s.clone()),
            CacheKey::Expression(s) => CacheKey::Expression(s.clone()),
        }
    }
}

/// Counters of cache use.
pub struct CacheStats {
    pub hits: usize,
    pub misses: usize,
    pub puts: usize,
    pub evictions: usize,
    pub total_size: usize,
}

impl CacheStats {
    /// All counters at zero.
    pub fn new() -> (r: Self)
        ensures
            r.hits == 0,
            r.misses == 0,
            r.puts == 0,
            r.evictions == 0,
            r.total_size == 0,
    {
        CacheStats { hits: 0, misses: 0, puts: 0, evictions: 0, total_size: 0 }
    }

    /// Sets all counters to zero.
    pub fn reset(&mut self)
        ensures
            final(self).hits == 0,
            final(self).misses == 0,
            final(self).puts == 0,
            final(self).evictions == 0,
            final(self).total_size == 0,
    {
        self.hits = 0;
        self.misses = 0;
        self.puts = 0;
        self.evictions = 0;
        self.total_size = 0;
    }

    /// Counts a lookup: a hit where something was found, else a miss. A
    /// counter stays at its greatest value once it is there.
    pub fn record_lookup(&mut self, found: bool)
        ensures
            final(self).puts == old(self).puts,
            final(self).evictions == old(self).evictions,
            final(self).total_size == old(self).total_size,
            final(self).hits == if found && old(self).hits < usize::MAX {
                old(self).hits + 1
            } else {
                old(self).hits as int
            },
            final(self).misses == if !found && old(self).misses < usize::MAX {
                old(self).misses + 1
            } else {
                old(self).misses as int
            },
    {
        if found {
            if self.hits < usize::MAX {
                self.hits = self.hits + 1;
            }
        } else {
            if self.misses < usize::MAX {
                self.misses = self.misses + 1;
            }
        }
    }

    /// Counts a store and notes the size of the cache after it.
    pub fn record_put(&mut self, size: usize)
        ensures
            final(self).hits == old(self).hits,
            final(self).misses == old(self).misses,
            final(self).evictions == old(self).evictions,
            final(self).total_size == size,
            final(self).puts == if old(self).puts < usize::MAX {
                old(self).puts + 1
            } else {
                old(self).puts as int
            },
    {
        if self.puts < usize::MAX {
            self.puts = self.puts + 1;
        }
        self.total_size = size;
    }

    /// The share of lookups that were hits, in whole percent; zero where
    /// nothing was looked up.
    pub fn hit_percent(&self) -> (p: u8)
        ensures
            self.hits + self.misses == 0 ==> p == 0,
            self.hits + self.misses > 0 ==> p == (self.hits * 100) / (self.hits + self.misses),
    {
        let hits = self.hits as u128;
        let all = hits + self.misses as u128;
        if all == 0 {
            0
        } else {
            let p = (hits * 100) / all;
            assert(p <= 100) by (nonlinear_arith)
                requires
                    p as int == (hits as int * 100) / (all as int),
                    hits <= all,
                    all > 0,
            ;
            p as u8
        }
    }
}

} // verus!
