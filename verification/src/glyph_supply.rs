//! Finding the glyph meshes that a text needs and the cache lacks, and
//! having them made.

use vstd::prelude::*;
use crate::casing::{apply_casing, chars_of, working_text};
use crate::glyph::GlyphMesh;
use crate::layout::{layout_of, run, start, step, Assembly, LayoutError};
use crate::mesh_cache::{CacheKey, MeshCache};
use crate::text_mesh::{Quality, TextMesh, TextMeshSize, TextMeshStyle};

verus! {

/// The character that stands in for one that cannot be turned into a mesh.
pub const PLACEHOLDER: char = '?';

/// A mesh that the cache lacks: the entry it is for, the character to turn
/// into a mesh for it, and whether that character is the placeholder tried
/// after the entry's own character failed.
#[derive(Clone, Copy, Debug, PartialEq, Eq, Structural)]
pub struct GlyphRequest {
    pub key: CacheKey,
    pub ch: char,
    pub fallback: bool,
}

/// Whether `c` is drawn, which a space and a line feed are not.
pub open spec fn is_glyph(c: char) -> bool {
    c != ' ' && c != '\n'
}

/// Whether some character of `chars` is drawn.
pub open spec fn has_glyph(chars: Seq<char>) -> bool {
    exists|i: int| 0 <= i < chars.len() && is_glyph(#[trigger] chars[i])
}

/// The first drawn character of `chars` whose mesh `cache` lacks.
pub open spec fn first_missing(chars: Seq<char>, depth: u32, quality: Quality, cache: Map<u64, GlyphMesh>) -> Option<char>
    decreases chars.len(),
{
    if chars.len() == 0 {
        None
    } else if is_glyph(chars[0]) && !cache.contains_key((CacheKey { ch: chars[0], depth, quality }).code()) {
        Some(chars[0])
    } else {
        first_missing(chars.drop_first(), depth, quality, cache)
    }
}

/// The depth that the glyphs of a text get, or why there is none.
pub open spec fn depth_of(size: TextMeshSize) -> Result<u32, LayoutError> {
    match size.depth {
        None => Err(LayoutError::MissingDepth),
        Some(unit) => match unit.scalar() {
            None => Err(LayoutError::AutoDepth),
            Some(depth) => Ok(depth),
        },
    }
}

/// The depth that the glyphs of a text get, or why there is none.
pub fn resolve_depth(size: &TextMeshSize) -> (r: Result<u32, LayoutError>)
    ensures
        r == depth_of(*size),
{
    match size.depth {
        None => Err(LayoutError::MissingDepth),
        Some(unit) => match unit.as_scalar() {
            None => Err(LayoutError::AutoDepth),
            Some(d) => Ok(d),
        },
    }
}

/// The mesh that has to be produced before the text can be laid out, if any.
pub open spec fn wanted(
    text: Seq<char>,
    size: TextMeshSize,
    style: TextMeshStyle,
    cache: Map<u64, GlyphMesh>,
) -> Result<Option<GlyphRequest>, LayoutError> {
    let chars = working_text(text, style.font_style);
    if style.font_size.scalar() is None {
        Err(LayoutError::AutoFontSize)
    } else if !has_glyph(chars) {
        Ok(None)
    } else {
        match depth_of(size) {
            Err(e) => Err(e),
            Ok(depth) => match first_missing(chars, depth, style.mesh_quality, cache) {
                None => Ok(None),
                Some(c) => Ok(
                    Some(
                        GlyphRequest {
                            key: CacheKey { ch: c, depth, quality: style.mesh_quality },
                            ch: c,
                            fallback: false,
                        },
                    ),
                ),
            },
        }
    }
}

/// Whether the character at `i` is drawn and `cache` has no mesh for it;
/// where there is no depth, no drawn character has one.
pub open spec fn missing_at(
    chars: Seq<char>,
    i: int,
    depth: Result<u32, LayoutError>,
    quality: Quality,
    cache: Map<u64, GlyphMesh>,
) -> bool {
    is_glyph(chars[i]) && (depth matches Ok(d) ==> !cache.contains_key(
        (CacheKey { ch: chars[i], depth: d, quality }).code(),
    ))
}

/// The first drawn character after a run of characters that miss nothing is
/// the first that is missing.
pub proof fn lemma_first_missing_is(
    chars: Seq<char>,
    depth: u32,
    quality: Quality,
    cache: Map<u64, GlyphMesh>,
    j: int,
)
    requires
        0 <= j < chars.len(),
        missing_at(chars, j, Ok(depth), quality, cache),
        forall|k: int| 0 <= k < j ==> !missing_at(chars, k, Ok(depth), quality, cache),
    ensures
        first_missing(chars, depth, quality, cache) == Some(chars[j]),
    decreases j,
{
    if j > 0 {
        let rest = chars.drop_first();
        assert(!missing_at(chars, 0, Ok(depth), quality, cache));
        assert forall|k: int| 0 <= k < j - 1 implies !missing_at(rest, k, Ok(depth), quality, cache) by {
            assert(!missing_at(chars, k + 1, Ok(depth), quality, cache));
            assert(rest[k] == chars[k + 1]);
        }
        assert(rest[j - 1] == chars[j]);
        lemma_first_missing_is(rest, depth, quality, cache, j - 1);
    }
}

/// The place of the first character at or after `from` that is drawn and
/// has no mesh in `cache`.
pub fn scan_for_missing(
    chars: &Vec<char>,
    from: usize,
    depth: Result<u32, LayoutError>,
    quality: Quality,
    cache: &MeshCache,
) -> (r: Option<usize>)
    requires
        from <= chars@.len(),
    ensures
        match r {
            Some(j) => {
                &&& from <= j < chars@.len()
                &&& missing_at(chars@, j as int, depth, quality, cache.entries())
                &&& forall|k: int| from <= k < j ==> !missing_at(chars@, k, depth, quality, cache.entries())
            },
            None => forall|k: int| from <= k < chars@.len() ==> !missing_at(chars@, k, depth, quality, cache.entries()),
        },
{
    let n: usize = chars.len();
    let mut i: usize = from;
    while i < n
        invariant
            from <= i <= n,
            n == chars@.len(),
            forall|k: int| from <= k < i ==> !missing_at(chars@, k, depth, quality, cache.entries()),
        decreases n - i,
    {
        let c: char = chars[i];
        if c != ' ' && c != '\n' {
            match depth {
                Err(_) => {
                    return Some(i);
                },
                Ok(d) => {
                    let key = CacheKey::new_3d(c, d, quality);
                    if !cache.contains(&key) {
                        return Some(i);
                    }
                },
            }
        }
        i += 1;
    }
    None
}

/// Finds the first character of the text, in the case it is laid out in,
/// whose mesh the cache lacks, and asks for it. `None` says that the cache
/// holds every mesh the text needs.
pub fn next_glyph(text_mesh: &TextMesh, cache: &MeshCache) -> (r: Result<Option<GlyphRequest>, LayoutError>)
    ensures
        r == wanted(text_mesh.text@, text_mesh.size, text_mesh.style, cache.entries()),
{
    if text_mesh.style.font_size.as_scalar().is_none() {
        return Err(LayoutError::AutoFontSize);
    }
    let quality = text_mesh.style.mesh_quality;
    let depth: Result<u32, LayoutError> = resolve_depth(&text_mesh.size);
    let text: String = apply_casing(text_mesh.text.as_str(), text_mesh.style.font_style);
    let text: Vec<char> = chars_of(text.as_str());
    let ghost chars = text@;
    match scan_for_missing(&text, 0, depth, quality, cache) {
        None => {
            proof {
                if has_glyph(chars) {
                    let j = choose|j: int| 0 <= j < chars.len() && is_glyph(#[trigger] chars[j]);
                    assert(!missing_at(chars, j, depth, quality, cache.entries()));
                    let d = depth->Ok_0;
                    assert forall|i: int| 0 <= i < chars.len() && is_glyph(#[trigger] chars[i]) implies cache.entries().contains_key(
                        (CacheKey { ch: chars[i], depth: d, quality }).code(),
                    ) by {
                        assert(!missing_at(chars, i, depth, quality, cache.entries()));
                    }
                    lemma_all_cached_none_missing(chars, d, quality, cache.entries());
                }
            }
            Ok(None)
        },
        Some(j) => {
            let c: char = text[j];
            assert(is_glyph(chars[j as int]));
            match depth {
                Err(e) => Err(e),
                Ok(d) => {
                    proof {
                        lemma_first_missing_is(chars, d, quality, cache.entries(), j as int);
                    }
                    Ok(Some(GlyphRequest { key: CacheKey::new_3d(c, d, quality), ch: c, fallback: false }))
                },
            }
        },
    }
}

/// What to do when the mesh that `request` asked for could not be produced:
/// try the placeholder once, for the same entry, and give up when the
/// placeholder was what failed.
pub fn after_failure(request: GlyphRequest) -> (r: Result<GlyphRequest, LayoutError>)
    ensures
        request.fallback ==> r == Err::<GlyphRequest, LayoutError>(LayoutError::GlyphUnavailable(request.key.ch)),
        !request.fallback ==> r == Ok::<GlyphRequest, LayoutError>(
            GlyphRequest { key: request.key, ch: PLACEHOLDER, fallback: true },
        ),
{
    if request.fallback {
        Err(LayoutError::GlyphUnavailable(request.key.ch))
    } else {
        Ok(GlyphRequest { key: request.key, ch: PLACEHOLDER, fallback: true })
    }
}

/// A run that succeeds found a depth and a cached mesh for every drawn
/// character.
pub proof fn lemma_run_needs_nothing(
    a: Assembly,
    chars: Seq<char>,
    scalar: int,
    quality: Quality,
    size: TextMeshSize,
    cache: Map<u64, GlyphMesh>,
)
    requires
        run(a, chars, scalar, quality, size, cache) is Ok,
    ensures
        has_glyph(chars) ==> depth_of(size) is Ok,
        depth_of(size) matches Ok(d) ==> first_missing(chars, d, quality, cache) is None,
    decreases chars.len(),
{
    if chars.len() > 0 {
        let next = step(a, chars[0], scalar, quality, size, cache)->Ok_0;
        let rest = chars.drop_first();
        lemma_run_needs_nothing(next, rest, scalar, quality, size, cache);
        if has_glyph(chars) {
            let i = choose|i: int| 0 <= i < chars.len() && is_glyph(#[trigger] chars[i]);
            if i > 0 {
                assert(rest[i - 1] == chars[i]);
                assert(has_glyph(rest));
            }
        }
    }
}

/// Once a text has been laid out over a cache, laying it out again over the
/// same cache asks for no further mesh: every glyph is found.
pub proof fn lemma_laid_out_needs_nothing(
    text: Seq<char>,
    size: TextMeshSize,
    style: TextMeshStyle,
    cache: Map<u64, GlyphMesh>,
)
    requires
        layout_of(text, size, style, cache) is Ok,
    ensures
        wanted(text, size, style, cache) == Ok::<Option<GlyphRequest>, LayoutError>(None),
{
    let scalar = style.font_size.scalar()->Some_0;
    lemma_run_needs_nothing(
        start(),
        working_text(text, style.font_style),
        scalar as int,
        style.mesh_quality,
        size,
        cache,
    );
}

/// Whether `after` holds every entry of `before`, unchanged.
pub open spec fn grows(before: Map<u64, GlyphMesh>, after: Map<u64, GlyphMesh>) -> bool {
    forall|k: u64| #[trigger] before.contains_key(k) ==> after.contains_key(k) && after[k] == before[k]
}

/// Whether `mesh` is what `provider` hands out for `c` at this quality and
/// depth: its mesh for `c`, or, where it fails on `c`, its mesh for the
/// placeholder.
pub open spec fn supplies<F: Fn(char, Quality, u32) -> Option<GlyphMesh>>(
    provider: F,
    c: char,
    quality: Quality,
    depth: u32,
    mesh: GlyphMesh,
) -> bool {
    ||| call_ensures(provider, (c, quality, depth), Some(mesh))
    ||| call_ensures(provider, (c, quality, depth), None::<GlyphMesh>) && call_ensures(
        provider,
        (PLACEHOLDER, quality, depth),
        Some(mesh),
    )
}

/// Whether `k` is the number of the key of some drawn character of `chars`,
/// and `mesh` is what `provider` hands out for that character.
pub open spec fn supplied_for<F: Fn(char, Quality, u32) -> Option<GlyphMesh>>(
    provider: F,
    chars: Seq<char>,
    depth: u32,
    quality: Quality,
    k: u64,
    mesh: GlyphMesh,
) -> bool {
    exists|i: int|
        0 <= i < chars.len() && is_glyph(#[trigger] chars[i]) && k == (CacheKey { ch: chars[i], depth, quality }).code()
            && supplies(provider, chars[i], quality, depth, mesh)
}

/// Whether every entry that `after` has and `before` lacks is that of a
/// drawn character of the text, at the depth and quality asked for, and
/// holds what `provider` hands out for that character.
pub open spec fn supplied_by<F: Fn(char, Quality, u32) -> Option<GlyphMesh>>(
    provider: F,
    text: Seq<char>,
    size: TextMeshSize,
    style: TextMeshStyle,
    before: Map<u64, GlyphMesh>,
    after: Map<u64, GlyphMesh>,
) -> bool {
    forall|k: u64| #[trigger]
        after.contains_key(k) && !before.contains_key(k) ==> (depth_of(size) matches Ok(d) && supplied_for(
            provider,
            working_text(text, style.font_style),
            d,
            style.mesh_quality,
            k,
            after[k],
        ))
}

/// Whether `provider` can fail both on `c` and on the placeholder, at the
/// depth and quality that the text is laid out with, where `c` is a drawn
/// character of the text.
pub open spec fn failed_on<F: Fn(char, Quality, u32) -> Option<GlyphMesh>>(
    provider: F,
    text: Seq<char>,
    size: TextMeshSize,
    style: TextMeshStyle,
    c: char,
) -> bool {
    &&& depth_of(size) matches Ok(d) && call_ensures(provider, (c, style.mesh_quality, d), None::<GlyphMesh>)
        && call_ensures(provider, (PLACEHOLDER, style.mesh_quality, d), None::<GlyphMesh>)
    &&& working_text(text, style.font_style).contains(c)
    &&& is_glyph(c)
}

/// Where no drawn character is missing, each of them is cached.
pub proof fn lemma_none_missing_all_cached(
    chars: Seq<char>,
    depth: u32,
    quality: Quality,
    cache: Map<u64, GlyphMesh>,
    i: int,
)
    requires
        first_missing(chars, depth, quality, cache) is None,
        0 <= i < chars.len(),
        is_glyph(chars[i]),
    ensures
        cache.contains_key((CacheKey { ch: chars[i], depth, quality }).code()),
    decreases chars.len(),
{
    if i > 0 {
        lemma_none_missing_all_cached(chars.drop_first(), depth, quality, cache, i - 1);
    }
}

/// Where each drawn character is cached, none is missing.
pub proof fn lemma_all_cached_none_missing(
    chars: Seq<char>,
    depth: u32,
    quality: Quality,
    cache: Map<u64, GlyphMesh>,
)
    requires
        forall|i: int| 0 <= i < chars.len() && is_glyph(#[trigger] chars[i]) ==> cache.contains_key(
            (CacheKey { ch: chars[i], depth, quality }).code(),
        ),
    ensures
        first_missing(chars, depth, quality, cache) is None,
    decreases chars.len(),
{
    if chars.len() > 0 {
        let rest = chars.drop_first();
        assert forall|i: int| 0 <= i < rest.len() && is_glyph(#[trigger] rest[i]) implies cache.contains_key(
            (CacheKey { ch: rest[i], depth, quality }).code(),
        ) by {
            assert(rest[i] == chars[i + 1]);
        }
        lemma_all_cached_none_missing(rest, depth, quality, cache);
        assert(is_glyph(chars[0]) ==> cache.contains_key((CacheKey { ch: chars[0], depth, quality }).code()));
    }
}

/// Where no drawn character is missing, or there is no depth, a run never
/// fails for want of a cached mesh.
pub proof fn lemma_run_finds_glyphs(
    a: Assembly,
    chars: Seq<char>,
    scalar: int,
    quality: Quality,
    size: TextMeshSize,
    cache: Map<u64, GlyphMesh>,
)
    requires
        depth_of(size) matches Ok(d) ==> first_missing(chars, d, quality, cache) is None,
    ensures
        !(run(a, chars, scalar, quality, size, cache) matches Err(LayoutError::GlyphNotCached(_))),
    decreases chars.len(),
{
    if chars.len() > 0 {
        let first = step(a, chars[0], scalar, quality, size, cache);
        if first is Ok {
            lemma_run_finds_glyphs(first->Ok_0, chars.drop_first(), scalar, quality, size, cache);
        }
    }
}

/// A layout fails for want of a cached mesh only where a mesh is wanted: over
/// a cache that holds every glyph of the text it never does.
pub proof fn lemma_layout_misses_only_wanted(
    text: Seq<char>,
    size: TextMeshSize,
    style: TextMeshStyle,
    cache: Map<u64, GlyphMesh>,
)
    requires
        layout_of(text, size, style, cache) matches Err(LayoutError::GlyphNotCached(_)),
    ensures
        wanted(text, size, style, cache) matches Ok(Some(_)),
{
    let chars = working_text(text, style.font_style);
    let scalar = style.font_size.scalar()->Some_0;
    if depth_of(size) is Ok {
        let d = depth_of(size)->Ok_0;
        if first_missing(chars, d, style.mesh_quality, cache) is None {
            lemma_run_finds_glyphs(start(), chars, scalar as int, style.mesh_quality, size, cache);
        }
        if !has_glyph(chars) {
            lemma_all_cached_none_missing(chars, d, style.mesh_quality, cache);
        }
    } else {
        lemma_run_finds_glyphs(start(), chars, scalar as int, style.mesh_quality, size, cache);
    }
}

/// Has `provider` make the mesh that `request` asks for, and on each failure
/// does what `after_failure` says: the placeholder is tried once, and a
/// second failure is the end.
pub fn obtain_glyph<F: Fn(char, Quality, u32) -> Option<GlyphMesh>>(provider: &F, request: GlyphRequest) -> (r: Result<
    GlyphMesh,
    LayoutError,
>)
    requires
        forall|c: char, q: Quality, d: u32| call_requires(*provider, (c, q, d)),
    ensures
        match r {
            Ok(mesh) => if request.fallback {
                call_ensures(*provider, (request.ch, request.key.quality, request.key.depth), Some(mesh))
            } else {
                supplies(*provider, request.ch, request.key.quality, request.key.depth, mesh)
            },
            Err(e) => {
                &&& e == LayoutError::GlyphUnavailable(request.key.ch)
                &&& call_ensures(
                    *provider,
                    (request.ch, request.key.quality, request.key.depth),
                    None::<GlyphMesh>,
                )
                &&& !request.fallback ==> call_ensures(
                    *provider,
                    (PLACEHOLDER, request.key.quality, request.key.depth),
                    None::<GlyphMesh>,
                )
            },
        },
{
    let quality = request.key.quality;
    let depth: u32 = request.key.depth;
    let mut current = request;
    loop
        invariant
            forall|c: char, q: Quality, d: u32| call_requires(*provider, (c, q, d)),
            quality == request.key.quality,
            depth == request.key.depth,
            current.key == request.key,
            current == request || (!request.fallback && current.fallback && current.ch == PLACEHOLDER
                && call_ensures(*provider, (request.ch, quality, depth), None::<GlyphMesh>)),
        decreases
                (if current.fallback {
                    0int
                } else {
                    1int
                }),
    {
        match provider(current.ch, quality, depth) {
            Some(mesh) => {
                return Ok(mesh);
            },
            None => match after_failure(current) {
                Err(e) => {
                    return Err(e);
                },
                Ok(next) => {
                    current = next;
                },
            },
        }
    }
}

/// Goes through the text once, from one missing glyph to the next, and has
/// `provider` make each mesh that the cache lacks, the placeholder's where
/// the character's own cannot be made.
/// What is in the cache is never made again and never replaced.
pub fn fill_cache<F: Fn(char, Quality, u32) -> Option<GlyphMesh>>(
    text_mesh: &TextMesh,
    provider: &F,
    cache: &mut MeshCache,
) -> (r: Result<(), LayoutError>)
    requires
        forall|c: char, q: Quality, d: u32| call_requires(*provider, (c, q, d)),
    ensures
        grows(old(cache).entries(), final(cache).entries()),
        supplied_by(
            *provider,
            text_mesh.text@,
            text_mesh.size,
            text_mesh.style,
            old(cache).entries(),
            final(cache).entries(),
        ),
        wanted(text_mesh.text@, text_mesh.size, text_mesh.style, old(cache).entries()) == Ok::<
            Option<GlyphRequest>,
            LayoutError,
        >(None) ==> r is Ok && final(cache).entries() == old(cache).entries(),
        r is Ok ==> wanted(text_mesh.text@, text_mesh.size, text_mesh.style, final(cache).entries()) == Ok::<
            Option<GlyphRequest>,
            LayoutError,
        >(None),
        r matches Err(LayoutError::GlyphUnavailable(c)) ==> failed_on(
            *provider,
            text_mesh.text@,
            text_mesh.size,
            text_mesh.style,
            c,
        ),
        r matches Err(e) ==> (if e is GlyphUnavailable {
            wanted(text_mesh.text@, text_mesh.size, text_mesh.style, old(cache).entries()) matches Ok(Some(_))
        } else {
            wanted(text_mesh.text@, text_mesh.size, text_mesh.style, old(cache).entries()) == Err::<
                Option<GlyphRequest>,
                LayoutError,
            >(e)
        }),
{
    if text_mesh.style.font_size.as_scalar().is_none() {
        return Err(LayoutError::AutoFontSize);
    }
    let quality = text_mesh.style.mesh_quality;
    let depth: Result<u32, LayoutError> = resolve_depth(&text_mesh.size);
    let text: String = apply_casing(text_mesh.text.as_str(), text_mesh.style.font_style);
    let text: Vec<char> = chars_of(text.as_str());
    let n: usize = text.len();
    let ghost chars = text@;
    let ghost before = cache.entries();
    let mut from: usize = 0;
    loop
        invariant
            from <= n,
            n == chars.len(),
            chars == text@,
            chars == working_text(text_mesh.text@, text_mesh.style.font_style),
            text_mesh.style.font_size.scalar() is Some,
            quality == text_mesh.style.mesh_quality,
            depth == depth_of(text_mesh.size),
            before == old(cache).entries(),
            forall|c: char, q: Quality, d: u32| call_requires(*provider, (c, q, d)),
            grows(before, cache.entries()),
            supplied_by(*provider, text_mesh.text@, text_mesh.size, text_mesh.style, before, cache.entries()),
            forall|k: int| 0 <= k < from ==> !missing_at(chars, k, depth, quality, cache.entries()),
            cache.entries() != before ==> (depth matches Ok(d) && first_missing(chars, d, quality, before) is Some),
        ensures
            forall|k: int| 0 <= k < n ==> !missing_at(chars, k, depth, quality, cache.entries()),
        decreases n - from,
    {
        let j: usize = match scan_for_missing(&text, from, depth, quality, cache) {
            None => {
                break ;
            },
            Some(j) => j,
        };
        let c: char = text[j];
        assert(is_glyph(chars[j as int]));
        let d: u32 = match depth {
            Err(e) => {
                return Err(e);
            },
            Ok(d) => d,
        };
        let key = CacheKey::new_3d(c, d, quality);
        proof {
            if first_missing(chars, d, quality, before) is None {
                lemma_none_missing_all_cached(chars, d, quality, before, j as int);
            }
        }
        let mesh: GlyphMesh = match obtain_glyph(provider, GlyphRequest { key, ch: c, fallback: false }) {
            Err(e) => {
                return Err(e);
            },
            Ok(m) => m,
        };
        let ghost mid = cache.entries();
        cache.insert(key, mesh);
        proof {
            assert(cache.entries() == mid.insert(key.code(), mesh));
            assert(supplied_for(*provider, chars, d, quality, key.code(), mesh));
            assert forall|k: int| 0 <= k < j + 1 implies !missing_at(chars, k, depth, quality, cache.entries()) by {
                if k < j {
                    assert(!missing_at(chars, k, depth, quality, mid));
                }
            }
        }
        from = j + 1;
    }
    proof {
        if has_glyph(chars) {
            let j = choose|j: int| 0 <= j < chars.len() && is_glyph(#[trigger] chars[j]);
            assert(!missing_at(chars, j, depth, quality, cache.entries()));
            let d = depth->Ok_0;
            assert forall|i: int| 0 <= i < chars.len() && is_glyph(#[trigger] chars[i]) implies cache.entries().contains_key(
                (CacheKey { ch: chars[i], depth: d, quality }).code(),
            ) by {
                assert(!missing_at(chars, i, depth, quality, cache.entries()));
            }
            lemma_all_cached_none_missing(chars, d, quality, cache.entries());
        }
        if cache.entries() != before {
            assert(has_glyph(chars)) by {
                let d = depth->Ok_0;
                if !has_glyph(chars) {
                    lemma_all_cached_none_missing(chars, d, quality, before);
                }
            }
        }
    }
    Ok(())
}

} // verus!
