//! Joining the meshes of the glyphs of a text into one.

use vstd::prelude::*;
use crate::casing::{apply_casing, chars_of, working_text};
use crate::glyph::{lemma_bounds_in_range, Bounds, GlyphMesh, Point3, COORD_LIMIT};
use crate::glyph_supply::{
    failed_on, fill_cache, grows, lemma_layout_misses_only_wanted, supplied_by, wanted, GlyphRequest,
};
use crate::layout::{
    after_break, after_glyph, after_space, layout_of, lemma_run_only_reads, placed, run, shifted, start, step,
    Assembly, LayoutError, Position, PEN_LIMIT,
};
use crate::mesh_cache::{CacheKey, MeshCache};
use crate::text_mesh::{Quality, TextMesh};

verus! {

/// A texture coordinate, in whole units.
#[derive(Clone, Copy, Debug, PartialEq, Eq, Structural)]
pub struct Uv {
    pub u: i32,
    pub v: i32,
}

/// The mesh of a whole text: positions, one normal and one texture
/// coordinate for each, and triangles as triples of indices into them.
#[derive(Debug, PartialEq, Eq)]
pub struct MeshData {
    pub vertices: Vec<Position>,
    pub normals: Vec<Point3>,
    pub indices: Vec<u32>,
    pub uvs: Vec<Uv>,
}

/// Whether every entry of `indices` is below `n`.
pub open spec fn indices_below(indices: Seq<u32>, n: int) -> bool {
    forall|k: int| 0 <= k < indices.len() ==> (#[trigger] indices[k]) < n
}

impl MeshData {
    /// The buffers fit together: as many normals and texture coordinates as
    /// vertices, whole triangles only, and no index past the vertices.
    pub open spec fn wf(&self) -> bool {
        &&& self.vertices@.len() == self.normals@.len()
        &&& self.vertices@.len() == self.uvs@.len()
        &&& self.indices@.len() % 3 == 0
        &&& indices_below(self.indices@, self.vertices@.len() as int)
    }
}

/// One texture coordinate for each of `n` vertices: all the same.
pub open spec fn blank_uvs(n: nat) -> Seq<Uv> {
    Seq::new(n, |i: int| Uv { u: 0, v: 1 })
}

/// Whether `m` holds the buffers of the layout `a`, with one blank texture
/// coordinate for each vertex.
pub open spec fn is_mesh_of(m: MeshData, a: Assembly) -> bool {
    &&& m.vertices@ == a.vertices
    &&& m.normals@ == a.normals
    &&& m.indices@ == a.indices
    &&& m.uvs@ == blank_uvs(a.vertices.len())
}

/// Whether `r` is what a layout that ended in `l` gives: its error, or a
/// well-formed mesh that holds its buffers.
pub open spec fn is_result_of(r: Result<MeshData, LayoutError>, l: Result<Assembly, LayoutError>) -> bool {
    match l {
        Err(e) => r == Err::<MeshData, LayoutError>(e),
        Ok(a) => r matches Ok(m) && is_mesh_of(m, a) && m.wf(),
    }
}

/// Two meshes of one layout agree in every buffer: what is generated
/// depends on the request and on the cached glyphs alone.
pub proof fn lemma_same_layout_same_mesh(m1: MeshData, m2: MeshData, a: Assembly)
    requires
        is_mesh_of(m1, a),
        is_mesh_of(m2, a),
    ensures
        m1.vertices@ == m2.vertices@,
        m1.normals@ == m2.normals@,
        m1.indices@ == m2.indices@,
        m1.uvs@ == m2.uvs@,
{
}

/// A coordinate within `limit` of zero, scaled by a 32-bit size, stays
/// within `limit` times the largest such size.
proof fn lemma_scaled(v: int, s: int, limit: int)
    by (nonlinear_arith)
    requires
        -limit <= v <= limit,
        0 <= s <= 0xffff_ffff,
    ensures
        -limit * 0xffff_ffff <= v * s <= limit * 0xffff_ffff,
{
}

/// Appends the vertices of `g`, scaled and moved to the pen at `(x, y)`.
fn place_vertices(out: &mut Vec<Position>, g: &GlyphMesh, scalar: u32, x: i64, y: i64, xmin: i32)
    requires
        g.wf(),
        -PEN_LIMIT <= x <= PEN_LIMIT,
        -PEN_LIMIT <= y <= PEN_LIMIT,
        -COORD_LIMIT <= xmin <= COORD_LIMIT,
    ensures
        final(out)@ == old(out)@ + placed(g.vertices(), scalar as int, x as int, y as int, xmin as int),
{
    let n: usize = g.vertex_count();
    let s: i64 = scalar as i64;
    let ghost before = out@;
    let ghost target = placed(g.vertices(), scalar as int, x as int, y as int, xmin as int);
    proof {
        lemma_scaled(xmin as int, s as int, COORD_LIMIT as int);
    }
    let shift: i64 = xmin as i64 * s;
    let mut i: usize = 0;
    while i < n
        invariant
            i <= n,
            n == g.vertices().len(),
            g.wf(),
            s == scalar,
            shift == xmin * s,
            -COORD_LIMIT * 0xffff_ffff <= shift <= COORD_LIMIT * 0xffff_ffff,
            -PEN_LIMIT <= x <= PEN_LIMIT,
            -PEN_LIMIT <= y <= PEN_LIMIT,
            target == placed(g.vertices(), scalar as int, x as int, y as int, xmin as int),
            out@ == before + target.take(i as int),
        decreases n - i,
    {
        let p = g.vertex(i);
        proof {
            assert(crate::glyph::point_in_range(g.vertices()[i as int]));
            lemma_scaled(p.x as int, s as int, COORD_LIMIT as int);
            lemma_scaled(p.y as int, s as int, COORD_LIMIT as int);
            lemma_scaled(p.z as int, s as int, COORD_LIMIT as int);
        }
        let q = Position { x: p.x as i64 * s + x - shift, y: p.y as i64 * s + y, z: p.z as i64 * s };
        out.push(q);
        proof {
            assert(q == target[i as int]);
            assert(target.take(i + 1) =~= target.take(i as int).push(q));
            assert(out@ =~= before + target.take(i + 1));
        }
        i += 1;
    }
    proof {
        assert(target.take(n as int) =~= target);
    }
}

/// Appends the normals of `g` as they are.
fn copy_normals(out: &mut Vec<Point3>, g: &GlyphMesh)
    ensures
        final(out)@ == old(out)@ + g.normals(),
{
    let n: usize = g.normal_count();
    let ghost before = out@;
    let mut i: usize = 0;
    while i < n
        invariant
            i <= n,
            n == g.normals().len(),
            out@ == before + g.normals().take(i as int),
        decreases n - i,
    {
        let p = g.normal(i);
        out.push(p);
        proof {
            assert(g.normals().take(i + 1) =~= g.normals().take(i as int).push(p));
            assert(out@ =~= before + g.normals().take(i + 1));
        }
        i += 1;
    }
    proof {
        assert(g.normals().take(n as int) =~= g.normals());
    }
}

/// Appends the corners of the faces of `g`, each raised by `offset`.
fn shift_faces(out: &mut Vec<u32>, g: &GlyphMesh, offset: u32)
    requires
        g.wf(),
        offset + g.vertices().len() <= u32::MAX,
        old(out)@.len() % 3 == 0,
        indices_below(old(out)@, offset as int),
    ensures
        final(out)@ == old(out)@ + shifted(g.faces(), offset as int),
        final(out)@.len() % 3 == 0,
        indices_below(final(out)@, offset + g.vertices().len()),
{
    let n: usize = g.face_count();
    let ghost before = out@;
    let ghost target = shifted(g.faces(), offset as int);
    let ghost bound = offset + g.vertices().len();
    let mut i: usize = 0;
    while i < n
        invariant
            i <= n,
            n == g.faces().len(),
            g.wf(),
            bound == offset + g.vertices().len(),
            bound <= u32::MAX,
            before.len() % 3 == 0,
            target == shifted(g.faces(), offset as int),
            out@ == before + target.take(3 * i),
            indices_below(out@, bound),
        decreases n - i,
    {
        let f = g.face(i);
        proof {
            assert(crate::glyph::face_in_range(g.faces()[i as int], g.vertices().len() as int));
        }
        let a: u32 = f.a + offset;
        let b: u32 = f.b + offset;
        let c: u32 = f.c + offset;
        out.push(a);
        out.push(b);
        out.push(c);
        proof {
            let k = 3 * i;
            assert(k / 3 == i && (k + 1) / 3 == i && (k + 2) / 3 == i);
            assert(k % 3 == 0 && (k + 1) % 3 == 1 && (k + 2) % 3 == 2);
            assert(target[k] == a && target[k + 1] == b && target[k + 2] == c);
            assert(target.take(k + 3) =~= target.take(k).push(a).push(b).push(c));
            assert(out@ =~= before + target.take(3 * (i + 1)));
        }
        i += 1;
    }
    proof {
        assert(target.take(3 * n) =~= target);
    }
}

/// Lays `text_mesh` out over the glyph meshes in `cache` and joins them into
/// one mesh. The cache is only read: a character whose mesh it lacks is an
/// error, as is a size that is needed and not given.
pub fn assemble_text_mesh(text_mesh: &TextMesh, cache: &MeshCache) -> (r: Result<MeshData, LayoutError>)
    ensures
        is_result_of(r, layout_of(text_mesh.text@, text_mesh.size, text_mesh.style, cache.entries())),
{
    let scalar: u32 = match text_mesh.style.font_size.as_scalar() {
        Some(v) => v,
        None => {
            return Err(LayoutError::AutoFontSize);
        },
    };
    let quality = text_mesh.style.mesh_quality;
    let size = text_mesh.size;
    let text: String = apply_casing(text_mesh.text.as_str(), text_mesh.style.font_style);
    let text: Vec<char> = chars_of(text.as_str());
    let n: usize = text.len();
    let s: i64 = scalar as i64;
    let h_gap: i64 = 80 * s;
    let v_gap: i64 = 100 * s;
    let space: i64 = 200 * s;
    let mut x: i64 = 0;
    let mut y: i64 = 0;
    let mut row_max: i64 = 0;
    let mut vertices: Vec<Position> = Vec::new();
    let mut normals: Vec<Point3> = Vec::new();
    let mut indices: Vec<u32> = Vec::new();
    let ghost chars = text@;
    let ghost entries = cache.entries();
    let ghost goal = run(start(), chars, s as int, quality, size, entries);
    let ghost mut a = start();
    let mut i: usize = 0;
    proof {
        assert(chars.skip(0) =~= chars);
    }
    while i < n
        invariant
            i <= n,
            n == chars.len(),
            chars == text@,
            entries == cache.entries(),
            goal == layout_of(text_mesh.text@, text_mesh.size, text_mesh.style, cache.entries()),
            quality == text_mesh.style.mesh_quality,
            size == text_mesh.size,
            s == scalar,
            h_gap == 80 * s,
            v_gap == 100 * s,
            space == 200 * s,
            a.x == x,
            a.y == y,
            a.row_max == row_max,
            a.vertices == vertices@,
            a.normals == normals@,
            a.indices == indices@,
            0 <= x <= PEN_LIMIT,
            -PEN_LIMIT <= y <= 0,
            0 <= row_max <= 2 * COORD_LIMIT * 0xffff_ffff,
            vertices@.len() == normals@.len(),
            vertices@.len() <= u32::MAX,
            indices@.len() % 3 == 0,
            indices_below(indices@, vertices@.len() as int),
            run(a, chars.skip(i as int), s as int, quality, size, entries) == goal,
        decreases n - i,
    {
        let c: char = text[i];
        let ghost prev = a;
        proof {
            assert(chars.skip(i as int)[0] == c);
            assert(chars.skip(i as int).drop_first() =~= chars.skip(i + 1));
        }
        if c == ' ' {
            x = x + space + h_gap;
            proof {
                a = after_space(prev, s as int);
            }
            if x > PEN_LIMIT {
                return Err(LayoutError::OutOfRange);
            }
        } else if c == '\n' {
            x = 0;
            y = y - (row_max + v_gap);
            proof {
                a = after_break(prev, s as int);
            }
            if y < -PEN_LIMIT {
                return Err(LayoutError::OutOfRange);
            }
        } else {
            let depth: u32 = match size.depth {
                None => {
                    return Err(LayoutError::MissingDepth);
                },
                Some(unit) => match unit.as_scalar() {
                    None => {
                        return Err(LayoutError::AutoDepth);
                    },
                    Some(d) => d,
                },
            };
            let key = CacheKey::new_3d(c, depth, quality);
            let g: &GlyphMesh = match cache.get(&key) {
                None => {
                    return Err(LayoutError::GlyphNotCached(c));
                },
                Some(m) => m,
            };
            let count: usize = g.vertex_count();
            if count > 0xffff_ffff - vertices.len() {
                return Err(LayoutError::MeshTooLarge);
            }
            let b: Bounds = g.bounds();
            proof {
                lemma_bounds_in_range(g.vertices());
                lemma_scaled(b.ymax - b.ymin, s as int, 2 * COORD_LIMIT);
                lemma_scaled(b.xmax - b.xmin, s as int, 2 * COORD_LIMIT);
            }
            let height: i64 = (b.ymax as i64 - b.ymin as i64) * s;
            if row_max < height {
                row_max = height;
            }
            let offset: u32 = vertices.len() as u32;
            place_vertices(&mut vertices, g, scalar, x, y, b.xmin);
            copy_normals(&mut normals, g);
            shift_faces(&mut indices, g, offset);
            x = x + (b.xmax as i64 - b.xmin as i64) * s + h_gap;
            proof {
                a = after_glyph(prev, *g, s as int);
                assert(placed(g.vertices(), s as int, prev.x, prev.y, b.xmin as int).len() == count);
            }
            if x > PEN_LIMIT {
                return Err(LayoutError::OutOfRange);
            }
            if size.wrapping {
                let width: u32 = match size.width.as_scalar() {
                    None => {
                        return Err(LayoutError::AutoWidth);
                    },
                    Some(w) => w,
                };
                if x + 1000 * s + h_gap > 1000 * (width as i64) {
                    let ghost mid = a;
                    x = 0;
                    y = y - (row_max + v_gap);
                    proof {
                        a = after_break(mid, s as int);
                    }
                    if y < -PEN_LIMIT {
                        return Err(LayoutError::OutOfRange);
                    }
                }
            }
        }
        proof {
            assert(step(prev, c, s as int, quality, size, entries) == Ok::<Assembly, LayoutError>(a));
        }
        i += 1;
    }
    proof {
        assert(chars.skip(n as int).len() == 0);
    }
    let total: usize = vertices.len();
    let mut uvs: Vec<Uv> = Vec::new();
    let mut k: usize = 0;
    while k < total
        invariant
            k <= total,
            uvs@ == blank_uvs(k as nat),
        decreases total - k,
    {
        uvs.push(Uv { u: 0, v: 1 });
        proof {
            assert(uvs@ =~= blank_uvs((k + 1) as nat));
        }
        k += 1;
    }
    Ok(MeshData { vertices, normals, indices, uvs })
}

/// Turns a text into one mesh: has `provider` make the glyph meshes that
/// `cache` lacks, keeps them there, and lays the text out over the cache.
pub fn generate_text_mesh<F: Fn(char, Quality, u32) -> Option<GlyphMesh>>(
    text_mesh: &TextMesh,
    provider: &F,
    cache: &mut MeshCache,
) -> (r: Result<MeshData, LayoutError>)
    requires
        forall|c: char, q: Quality, d: u32| call_requires(*provider, (c, q, d)),
    ensures
        grows(old(cache).entries(), final(cache).entries()),
        supplied_by(
            *provider,
            text_mesh.text@,
            text_mesh.size,
            text_mesh.style,
            old(cache).entries(),
            final(cache).entries(),
        ),
        !(r matches Err(LayoutError::GlyphUnavailable(_))) ==> !(wanted(
            text_mesh.text@,
            text_mesh.size,
            text_mesh.style,
            final(cache).entries(),
        ) matches Ok(Some(_))),
        !(r matches Err(LayoutError::GlyphNotCached(_))),
        wanted(text_mesh.text@, text_mesh.size, text_mesh.style, old(cache).entries()) == Ok::<
            Option<GlyphRequest>,
            LayoutError,
        >(None) ==> final(cache).entries() == old(cache).entries(),
        r matches Err(LayoutError::GlyphUnavailable(_)) ==> wanted(
            text_mesh.text@,
            text_mesh.size,
            text_mesh.style,
            old(cache).entries(),
        ) matches Ok(Some(_)),
        r matches Err(LayoutError::GlyphUnavailable(c)) ==> failed_on(
            *provider,
            text_mesh.text@,
            text_mesh.size,
            text_mesh.style,
            c,
        ),
        !(r matches Err(LayoutError::GlyphUnavailable(_))) ==> is_result_of(
            r,
            layout_of(text_mesh.text@, text_mesh.size, text_mesh.style, final(cache).entries()),
        ),
{
    match fill_cache(text_mesh, provider, cache) {
        Err(LayoutError::GlyphUnavailable(c)) => Err(LayoutError::GlyphUnavailable(c)),
        _ => {
            proof {
                if layout_of(text_mesh.text@, text_mesh.size, text_mesh.style, cache.entries()) matches Err(
                    LayoutError::GlyphNotCached(_),
                ) {
                    lemma_layout_misses_only_wanted(
                        text_mesh.text@,
                        text_mesh.size,
                        text_mesh.style,
                        cache.entries(),
                    );
                }
                if text_mesh.style.font_size.scalar() is Some {
                    lemma_run_only_reads(
                        start(),
                        working_text(text_mesh.text@, text_mesh.style.font_style),
                        text_mesh.style.font_size.scalar()->Some_0 as int,
                        text_mesh.style.mesh_quality,
                        text_mesh.size,
                        cache.entries(),
                    );
                }
            }
            assemble_text_mesh(text_mesh, cache)
        },
    }
}

/// Turns a text into one mesh with a cache of its own, which is dropped
/// afterwards.
pub fn generate_text_mesh_uncached<F: Fn(char, Quality, u32) -> Option<GlyphMesh>>(
    text_mesh: &TextMesh,
    provider: &F,
) -> (r: Result<MeshData, LayoutError>)
    requires
        forall|c: char, q: Quality, d: u32| call_requires(*provider, (c, q, d)),
    ensures
        !(r matches Err(LayoutError::GlyphNotCached(_))),
        r matches Err(LayoutError::GlyphUnavailable(c)) ==> failed_on(
            *provider,
            text_mesh.text@,
            text_mesh.size,
            text_mesh.style,
            c,
        ),
        !(r matches Err(LayoutError::GlyphUnavailable(_))) ==> exists|cache: Map<u64, GlyphMesh>|
            #![trigger layout_of(text_mesh.text@, text_mesh.size, text_mesh.style, cache)]
            {
                &&& supplied_by(
                    *provider,
                    text_mesh.text@,
                    text_mesh.size,
                    text_mesh.style,
                    Map::<u64, GlyphMesh>::empty(),
                    cache,
                )
                &&& !(wanted(text_mesh.text@, text_mesh.size, text_mesh.style, cache) matches Ok(Some(_)))
                &&& is_result_of(r, layout_of(text_mesh.text@, text_mesh.size, text_mesh.style, cache))
            },
{
    let mut cache = MeshCache::new();
    generate_text_mesh(text_mesh, provider, &mut cache)
}

} // verus!
