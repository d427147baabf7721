//! Glyph meshes kept by character, depth and quality.

use std::collections::HashMap;
use vstd::prelude::*;
use vstd::std_specs::hash::*;
use crate::glyph::GlyphMesh;
use crate::text_mesh::Quality;

verus! {

broadcast use vstd::std_specs::hash::group_hash_axioms;

/// What tells one cached mesh from another: the character, the depth it was
/// given (in hundredths) and the quality it was cut at.
#[derive(Clone, Copy, Debug, PartialEq, Eq, Structural)]
pub struct CacheKey {
    pub ch: char,
    pub depth: u32,
    pub quality: Quality,
}

impl CacheKey {
    /// The key as one number: the character above the depth above the quality.
    pub open spec fn code(self) -> u64 {
        (self.ch as u64 * 0x4_0000_0000 + self.depth as u64 * 4 + self.quality.rank()) as u64
    }

    /// The key of a solid glyph.
    pub fn new_3d(ch: char, depth: u32, quality: Quality) -> (k: CacheKey)
        ensures
            k == (CacheKey { ch, depth, quality }),
    {
        CacheKey { ch, depth, quality }
    }

    /// The key as one number.
    pub fn packed(&self) -> (n: u64)
        ensures
            n == self.code(),
    {
        let q: u64 = match self.quality {
            Quality::Low => 0,
            Quality::Medium => 1,
            Quality::High => 2,
        };
        let c: u64 = self.ch as u64;
        c * 0x4_0000_0000 + self.depth as u64 * 4 + q
    }
}

/// Keys that differ in the character, the depth or the quality have
/// different numbers, so each has a cache entry of its own.
pub proof fn lemma_code_injective(a: CacheKey, b: CacheKey)
    ensures
        a.code() == b.code() <==> a == b,
{
    if a.code() == b.code() {
        let ra = a.depth as int * 4 + a.quality.rank();
        let rb = b.depth as int * 4 + b.quality.rank();
        assert(0 <= ra < 0x4_0000_0000 && 0 <= rb < 0x4_0000_0000);
        assert(a.ch as int * 0x4_0000_0000 + ra == b.ch as int * 0x4_0000_0000 + rb);
        assert(a.ch as int == b.ch as int);
        assert(a.depth == b.depth);
        assert(a.quality.rank() == b.quality.rank());
        assert(a.quality == b.quality);
    }
}

/// The meshes produced so far. Nothing is ever taken out or replaced.
pub struct MeshCache {
    meshes: HashMap<u64, GlyphMesh>,
}

impl MeshCache {
    /// The entries, by the number of their key.
    pub closed spec fn entries(&self) -> Map<u64, GlyphMesh> {
        self.meshes@
    }

    /// Whether a mesh is kept under `key`.
    pub open spec fn has(&self, key: CacheKey) -> bool {
        self.entries().contains_key(key.code())
    }

    /// The mesh that is kept under `key`.
    pub open spec fn mesh(&self, key: CacheKey) -> GlyphMesh {
        self.entries()[key.code()]
    }

    /// A cache with nothing in it.
    pub fn new() -> (c: MeshCache)
        ensures
            c.entries() == Map::<u64, GlyphMesh>::empty(),
    {
        MeshCache { meshes: HashMap::new() }
    }

    /// How many meshes are kept.
    pub fn len(&self) -> (n: usize)
        ensures
            n == self.entries().len(),
    {
        self.meshes.len()
    }

    /// Whether a mesh is kept under `key`.
    pub fn contains(&self, key: &CacheKey) -> (r: bool)
        ensures
            r == self.has(*key),
    {
        let n: u64 = key.packed();
        self.meshes.contains_key(&n)
    }

    /// The mesh that is kept under `key`, if there is one.
    pub fn get(&self, key: &CacheKey) -> (r: Option<&GlyphMesh>)
        ensures
            r.is_some() == self.has(*key),
            r matches Some(m) ==> *m == self.mesh(*key),
    {
        let n: u64 = key.packed();
        self.meshes.get(&n)
    }

    /// Keeps `mesh` under `key` unless a mesh is kept there already, and says
    /// whether it did. An entry that exists is never replaced.
    pub fn insert(&mut self, key: CacheKey, mesh: GlyphMesh) -> (added: bool)
        ensures
            added == !old(self).has(key),
            added ==> final(self).entries() == old(self).entries().insert(key.code(), mesh),
            !added ==> final(self).entries() == old(self).entries(),
    {
        let n: u64 = key.packed();
        if self.meshes.contains_key(&n) {
            false
        } else {
            self.meshes.insert(n, mesh);
            true
        }
    }

    /// The mesh kept under `key`; where there is none, `producer` is called,
    /// once, and what it makes is kept there and handed out.
    pub fn get_or_insert<F: FnOnce() -> GlyphMesh>(&mut self, key: CacheKey, producer: F) -> (r: &GlyphMesh)
        requires
            call_requires(producer, ()),
        ensures
            final(self).has(key),
            *r == final(self).mesh(key),
            old(self).has(key) ==> final(self).entries() == old(self).entries(),
            !old(self).has(key) ==> call_ensures(producer, (), final(self).mesh(key)) && final(self).entries()
                == old(self).entries().insert(key.code(), final(self).mesh(key)),
    {
        let n: u64 = key.packed();
        if !self.meshes.contains_key(&n) {
            let mesh = producer();
            self.meshes.insert(n, mesh);
        }
        let found = self.meshes.get(&n);
        found.unwrap()
    }
}

impl Default for MeshCache {
    fn default() -> (c: MeshCache)
        ensures
            c.entries() == Map::<u64, GlyphMesh>::empty(),
    {
        MeshCache::new()
    }
}

/// A mesh kept under one key is found again under that key, and the entry of
/// any other key is as it was.
pub proof fn lemma_insert_is_independent(before: MeshCache, after: MeshCache, key: CacheKey, other: CacheKey, mesh: GlyphMesh)
    requires
        after.entries() == before.entries().insert(key.code(), mesh),
        other != key,
    ensures
        after.has(key),
        after.mesh(key) == mesh,
        after.has(other) == before.has(other),
        before.has(other) ==> after.mesh(other) == before.mesh(other),
{
    lemma_code_injective(key, other);
}

} // verus!
