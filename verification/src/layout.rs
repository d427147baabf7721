//! Where each glyph of a text goes: the pen, the lines, and the buffers that
//! the placed glyphs fill.

use vstd::prelude::*;
use crate::casing::{lowercase_of, uppercase_of, working_text};
use crate::glyph::{
    bounds_of, lemma_bounds_in_range, lemma_bounds_tight, point_in_range, Face, GlyphMesh, Point3, COORD_LIMIT,
};
use crate::mesh_cache::CacheKey;
use crate::text_mesh::{FontStyle, Quality, TextMeshSize, TextMeshStyle};

verus! {

/// How far from the origin the pen may go, in hundred-thousandths of a unit.
pub const PEN_LIMIT: i64 = 0x4000_0000_0000_0000;

/// A vertex of the assembled mesh, in hundred-thousandths of a unit.
#[derive(Clone, Copy, Debug, PartialEq, Eq, Structural)]
pub struct Position {
    pub x: i64,
    pub y: i64,
    pub z: i64,
}

/// Why a text could not be laid out.
#[derive(Clone, Copy, Debug, PartialEq, Eq, Structural)]
pub enum LayoutError {
    /// The font size is left to the layout, which cannot choose one.
    AutoFontSize,
    /// No depth is given, and flat glyphs are not supported.
    MissingDepth,
    /// The depth is left to the layout, which cannot choose one.
    AutoDepth,
    /// Lines are to be broken at a width that is left to the layout.
    AutoWidth,
    /// The cache holds no mesh for this character of the text.
    GlyphNotCached(char),
    /// Neither this character nor the placeholder could be turned into a mesh.
    GlyphUnavailable(char),
    /// The mesh would have more vertices than a 32-bit index can address.
    MeshTooLarge,
    /// The pen would leave the range of positions.
    OutOfRange,
}

/// The gap between two glyphs for a font size of `scalar` hundredths.
pub open spec fn h_spacing(scalar: int) -> int {
    80 * scalar
}

/// The gap between two lines.
pub open spec fn v_spacing(scalar: int) -> int {
    100 * scalar
}

/// The width of a space.
pub open spec fn space_width(scalar: int) -> int {
    200 * scalar
}

/// Where the layout stands: the pen, the height of the tallest glyph placed
/// so far, and the buffers filled so far.
pub struct Assembly {
    pub x: int,
    pub y: int,
    pub row_max: int,
    pub vertices: Seq<Position>,
    pub normals: Seq<Point3>,
    pub indices: Seq<u32>,
}

/// The layout before the first character.
pub open spec fn start() -> Assembly {
    Assembly { x: 0, y: 0, row_max: 0, vertices: Seq::empty(), normals: Seq::empty(), indices: Seq::empty() }
}

/// Whether the pen is within `PEN_LIMIT` of the origin.
pub open spec fn in_reach(a: Assembly) -> bool {
    -PEN_LIMIT <= a.x <= PEN_LIMIT && -PEN_LIMIT <= a.y <= PEN_LIMIT
}

/// `a` where its pen is in reach, the error where it is not.
pub open spec fn reached(a: Assembly) -> Result<Assembly, LayoutError> {
    if in_reach(a) {
        Ok(a)
    } else {
        Err(LayoutError::OutOfRange)
    }
}

/// A glyph vertex scaled and moved to the pen at `(x, y)`, so that the
/// glyph's left edge `xmin` comes to lie on the pen.
pub open spec fn place(p: Point3, scalar: int, x: int, y: int, xmin: int) -> Position {
    Position {
        x: (p.x * scalar + x - xmin * scalar) as i64,
        y: (p.y * scalar + y) as i64,
        z: (p.z * scalar) as i64,
    }
}

/// Every vertex of a glyph placed at the pen.
pub open spec fn placed(points: Seq<Point3>, scalar: int, x: int, y: int, xmin: int) -> Seq<Position> {
    Seq::new(points.len(), |i: int| place(points[i], scalar, x, y, xmin))
}

/// The corner of `f` that `k` selects: 0, 1 or 2.
pub open spec fn corner(f: Face, k: int) -> u32 {
    if k == 0 {
        f.a
    } else if k == 1 {
        f.b
    } else {
        f.c
    }
}

/// The faces of a glyph as a flat list of indices, each raised by `offset`.
pub open spec fn shifted(faces: Seq<Face>, offset: int) -> Seq<u32> {
    Seq::new(3 * faces.len(), |i: int| (corner(faces[i / 3], i % 3) + offset) as u32)
}

/// The layout after a space: the pen moves right, nothing is emitted.
pub open spec fn after_space(a: Assembly, scalar: int) -> Assembly {
    Assembly { x: a.x + space_width(scalar) + h_spacing(scalar), ..a }
}

/// The layout after a line break: the pen returns to the left and drops by
/// the tallest glyph so far and the line gap.
pub open spec fn after_break(a: Assembly, scalar: int) -> Assembly {
    Assembly { x: 0, y: a.y - (a.row_max + v_spacing(scalar)), ..a }
}

/// The layout after the glyph `g` is placed at the pen.
pub open spec fn after_glyph(a: Assembly, g: GlyphMesh, scalar: int) -> Assembly {
    let b = bounds_of(g.vertices());
    let height = (b.ymax - b.ymin) * scalar;
    Assembly {
        x: a.x + (b.xmax - b.xmin) * scalar + h_spacing(scalar),
        y: a.y,
        row_max: if a.row_max < height { height } else { a.row_max },
        vertices: a.vertices + placed(g.vertices(), scalar, a.x, a.y, b.xmin as int),
        normals: a.normals + g.normals(),
        indices: a.indices + shifted(g.faces(), a.vertices.len() as int),
    }
}

/// Whether a pen at `x` is so far right that the line is broken: one font
/// size and one gap further would pass `width` hundredths.
pub open spec fn wraps(x: int, scalar: int, width: int) -> bool {
    x + 1000 * scalar + h_spacing(scalar) > 1000 * width
}

/// The layout after one character, or why it cannot be placed.
pub open spec fn step(
    a: Assembly,
    c: char,
    scalar: int,
    quality: Quality,
    size: TextMeshSize,
    cache: Map<u64, GlyphMesh>,
) -> Result<Assembly, LayoutError> {
    if c == ' ' {
        reached(after_space(a, scalar))
    } else if c == '\n' {
        reached(after_break(a, scalar))
    } else {
        match size.depth {
            None => Err(LayoutError::MissingDepth),
            Some(unit) => match unit.scalar() {
                None => Err(LayoutError::AutoDepth),
                Some(depth) => {
                    let code = (CacheKey { ch: c, depth, quality }).code();
                    if !cache.contains_key(code) {
                        Err(LayoutError::GlyphNotCached(c))
                    } else if a.vertices.len() + cache[code].vertices().len() > u32::MAX {
                        Err(LayoutError::MeshTooLarge)
                    } else {
                        let b = after_glyph(a, cache[code], scalar);
                        if !in_reach(b) {
                            Err(LayoutError::OutOfRange)
                        } else if !size.wrapping {
                            Ok(b)
                        } else {
                            match size.width.scalar() {
                                None => Err(LayoutError::AutoWidth),
                                Some(width) => if wraps(b.x, scalar, width as int) {
                                    reached(after_break(b, scalar))
                                } else {
                                    Ok(b)
                                },
                            }
                        }
                    }
                },
            },
        }
    }
}

/// The layout after every character of `chars`, from left to right, or the
/// first error on the way.
pub open spec fn run(
    a: Assembly,
    chars: Seq<char>,
    scalar: int,
    quality: Quality,
    size: TextMeshSize,
    cache: Map<u64, GlyphMesh>,
) -> Result<Assembly, LayoutError>
    decreases chars.len(),
{
    if chars.len() == 0 {
        Ok(a)
    } else {
        match step(a, chars[0], scalar, quality, size, cache) {
            Err(e) => Err(e),
            Ok(next) => run(next, chars.drop_first(), scalar, quality, size, cache),
        }
    }
}

/// The layout of a whole text with a given style and size, over the glyphs
/// of `cache`.
pub open spec fn layout_of(
    text: Seq<char>,
    size: TextMeshSize,
    style: TextMeshStyle,
    cache: Map<u64, GlyphMesh>,
) -> Result<Assembly, LayoutError> {
    match style.font_size.scalar() {
        None => Err(LayoutError::AutoFontSize),
        Some(scalar) => run(
            start(),
            working_text(text, style.font_style),
            scalar as int,
            style.mesh_quality,
            size,
            cache,
        ),
    }
}

/// A layout never fails for want of a mesh that could not be made: it only
/// reads the cache.
pub proof fn lemma_run_only_reads(
    a: Assembly,
    chars: Seq<char>,
    scalar: int,
    quality: Quality,
    size: TextMeshSize,
    cache: Map<u64, GlyphMesh>,
)
    ensures
        !(run(a, chars, scalar, quality, size, cache) matches Err(LayoutError::GlyphUnavailable(_))),
    decreases chars.len(),
{
    if chars.len() > 0 {
        let first = step(a, chars[0], scalar, quality, size, cache);
        if first is Ok {
            lemma_run_only_reads(first->Ok_0, chars.drop_first(), scalar, quality, size, cache);
        }
    }
}

/// A space moves the pen right by its width and one gap, and leaves the
/// line and the buffers as they are.
pub proof fn lemma_space_moves_pen(
    a: Assembly,
    scalar: int,
    quality: Quality,
    size: TextMeshSize,
    cache: Map<u64, GlyphMesh>,
)
    requires
        step(a, ' ', scalar, quality, size, cache) is Ok,
    ensures
        ({
            let b = step(a, ' ', scalar, quality, size, cache)->Ok_0;
            &&& b.x == a.x + 280 * scalar
            &&& scalar > 0 ==> b.x > a.x
            &&& b.y == a.y
            &&& b.row_max == a.row_max
            &&& b.vertices == a.vertices
            &&& b.normals == a.normals
            &&& b.indices == a.indices
        }),
{
}

/// A line feed puts the pen back at the left and lowers it by the height of
/// the tallest glyph so far and the line gap; the buffers stay as they are.
pub proof fn lemma_newline_drops_pen(
    a: Assembly,
    scalar: int,
    quality: Quality,
    size: TextMeshSize,
    cache: Map<u64, GlyphMesh>,
)
    requires
        scalar >= 0,
        step(a, '\n', scalar, quality, size, cache) is Ok,
    ensures
        ({
            let b = step(a, '\n', scalar, quality, size, cache)->Ok_0;
            &&& b.x == 0
            &&& b.y == a.y - a.row_max - 100 * scalar
            &&& b.y <= a.y - a.row_max
            &&& b.vertices == a.vertices
            &&& b.normals == a.normals
            &&& b.indices == a.indices
        }),
{
}

/// A placed glyph starts at the pen: no vertex lies left of the pen, and one
/// lies on it, wherever the glyph's own origin is.
pub proof fn lemma_left_edge_on_pen(points: Seq<Point3>, scalar: int, x: int)
    requires
        points.len() > 0,
        scalar >= 0,
    ensures
        forall|i: int| 0 <= i < points.len() ==> (#[trigger] points[i]).x * scalar + x - bounds_of(points).xmin
            * scalar >= x,
        exists|i: int| 0 <= i < points.len() && (#[trigger] points[i]).x * scalar + x - bounds_of(points).xmin
            * scalar == x,
{
    lemma_bounds_tight(points);
    let xmin = bounds_of(points).xmin as int;
    assert forall|i: int| 0 <= i < points.len() implies (#[trigger] points[i]).x * scalar + x - xmin * scalar
        >= x by {
        let v = points[i].x as int;
        assert(v >= xmin);
        assert(v * scalar >= xmin * scalar) by (nonlinear_arith)
            requires
                v >= xmin,
                scalar >= 0,
        ;
    }
    let j = choose|j: int| 0 <= j < points.len() && (#[trigger] points[j]).x == bounds_of(points).xmin;
    assert(points[j].x * scalar + x - xmin * scalar == x);
}

/// After a glyph is placed, the tallest height so far is at least that
/// glyph's scaled height, and no smaller than it was.
pub proof fn lemma_glyph_raises_row_max(a: Assembly, g: GlyphMesh, scalar: int)
    ensures
        after_glyph(a, g, scalar).row_max >= a.row_max,
        after_glyph(a, g, scalar).row_max >= (bounds_of(g.vertices()).ymax - bounds_of(g.vertices()).ymin)
            * scalar,
{
}

/// Asking for upper or lower case gives the layout of the text that is
/// already in that case and asks for no change.
pub proof fn lemma_casing_is_precasing(
    text: Seq<char>,
    size: TextMeshSize,
    style: TextMeshStyle,
    cache: Map<u64, GlyphMesh>,
)
    ensures
        ({
            let plain = TextMeshStyle { font_style: FontStyle { uppercase: false, lowercase: false }, ..style };
            &&& style.font_style.uppercase ==> layout_of(text, size, style, cache) == layout_of(
                uppercase_of(text),
                size,
                plain,
                cache,
            )
            &&& !style.font_style.uppercase && style.font_style.lowercase ==> layout_of(
                text,
                size,
                style,
                cache,
            ) == layout_of(lowercase_of(text), size, plain, cache)
        }),
{
}

/// The mesh that a drawn character `c` is placed with, where the cache
/// holds one.
pub open spec fn glyph_for(c: char, quality: Quality, size: TextMeshSize, cache: Map<u64, GlyphMesh>) -> GlyphMesh {
    cache[(CacheKey { ch: c, depth: size.depth->Some_0.scalar()->Some_0, quality }).code()]
}

/// The scaled height of the glyph that `c` is placed with; 0 for a space
/// and a line feed.
pub open spec fn height_of(c: char, scalar: int, quality: Quality, size: TextMeshSize, cache: Map<u64, GlyphMesh>) -> int {
    if c == ' ' || c == '\n' {
        0
    } else {
        let b = bounds_of(glyph_for(c, quality, size, cache).vertices());
        (b.ymax - b.ymin) * scalar
    }
}

/// The scaled height of the tallest glyph among `chars`; 0 where none is
/// taller than that.
pub open spec fn tallest(chars: Seq<char>, scalar: int, quality: Quality, size: TextMeshSize, cache: Map<u64, GlyphMesh>) -> int
    decreases chars.len(),
{
    if chars.len() == 0 {
        0
    } else {
        let first = height_of(chars[0], scalar, quality, size, cache);
        let rest = tallest(chars.drop_first(), scalar, quality, size, cache);
        if first > rest {
            first
        } else {
            rest
        }
    }
}

/// Running over two texts in a row is running over the first and then, from
/// where that ended, over the second.
pub proof fn lemma_run_concat(
    a: Assembly,
    u: Seq<char>,
    v: Seq<char>,
    scalar: int,
    quality: Quality,
    size: TextMeshSize,
    cache: Map<u64, GlyphMesh>,
)
    ensures
        run(a, u + v, scalar, quality, size, cache) == (match run(a, u, scalar, quality, size, cache) {
            Err(e) => Err::<Assembly, LayoutError>(e),
            Ok(m) => run(m, v, scalar, quality, size, cache),
        }),
    decreases u.len(),
{
    if u.len() == 0 {
        assert(u + v =~= v);
    } else {
        assert((u + v)[0] == u[0]);
        assert((u + v).drop_first() =~= u.drop_first() + v);
        let first = step(a, u[0], scalar, quality, size, cache);
        if first is Ok {
            lemma_run_concat(first->Ok_0, u.drop_first(), v, scalar, quality, size, cache);
        }
    }
}

/// What has been placed stays where it is: the vertices before a run are the
/// first vertices after it.
pub proof fn lemma_run_keeps_vertices(
    a: Assembly,
    chars: Seq<char>,
    scalar: int,
    quality: Quality,
    size: TextMeshSize,
    cache: Map<u64, GlyphMesh>,
)
    requires
        run(a, chars, scalar, quality, size, cache) is Ok,
    ensures
        a.vertices.len() <= run(a, chars, scalar, quality, size, cache)->Ok_0.vertices.len(),
        run(a, chars, scalar, quality, size, cache)->Ok_0.vertices.take(a.vertices.len() as int) == a.vertices,
    decreases chars.len(),
{
    let r = run(a, chars, scalar, quality, size, cache)->Ok_0;
    if chars.len() == 0 {
        assert(r.vertices.take(a.vertices.len() as int) =~= a.vertices);
    } else {
        let next = step(a, chars[0], scalar, quality, size, cache)->Ok_0;
        lemma_run_keeps_vertices(next, chars.drop_first(), scalar, quality, size, cache);
        assert(next.vertices.take(a.vertices.len() as int) =~= a.vertices);
        assert(r.vertices.take(a.vertices.len() as int) =~= r.vertices.take(next.vertices.len() as int).take(
            a.vertices.len() as int,
        ));
    }
}

/// Over a text without a line feed, and without wrapping, the pen stays on
/// its line, and the tallest height afterwards is that of the tallest glyph
/// of the text, or what it was before where that is more.
pub proof fn lemma_line_height(
    a: Assembly,
    chars: Seq<char>,
    scalar: int,
    quality: Quality,
    size: TextMeshSize,
    cache: Map<u64, GlyphMesh>,
)
    requires
        !size.wrapping,
        a.row_max >= 0,
        forall|i: int| 0 <= i < chars.len() ==> chars[i] != '\n',
        run(a, chars, scalar, quality, size, cache) is Ok,
    ensures
        tallest(chars, scalar, quality, size, cache) >= 0,
        run(a, chars, scalar, quality, size, cache)->Ok_0.y == a.y,
        run(a, chars, scalar, quality, size, cache)->Ok_0.row_max == (if a.row_max > tallest(
            chars,
            scalar,
            quality,
            size,
            cache,
        ) {
            a.row_max
        } else {
            tallest(chars, scalar, quality, size, cache)
        }),
    decreases chars.len(),
{
    if chars.len() > 0 {
        let next = step(a, chars[0], scalar, quality, size, cache)->Ok_0;
        let rest = chars.drop_first();
        assert(chars[0] != '\n');
        assert forall|i: int| 0 <= i < rest.len() implies rest[i] != '\n' by {
            assert(rest[i] == chars[i + 1]);
        }
        lemma_line_height(next, rest, scalar, quality, size, cache);
    }
}

/// The glyph after a line feed: where a line without wrapping is followed by
/// a line feed and a drawn character, the line's glyphs lie where they lie
/// for the line alone, and the character's glyph is placed with the pen at
/// the left, lowered by the line's tallest glyph and the line gap.
pub proof fn lemma_glyph_after_line_feed(
    line: Seq<char>,
    c: char,
    more: Seq<char>,
    scalar: int,
    quality: Quality,
    size: TextMeshSize,
    cache: Map<u64, GlyphMesh>,
)
    requires
        !size.wrapping,
        forall|i: int| 0 <= i < line.len() ==> line[i] != '\n',
        c != ' ' && c != '\n',
        run(start(), line + seq!['\n', c] + more, scalar, quality, size, cache) is Ok,
    ensures
        run(start(), line, scalar, quality, size, cache) is Ok,
        ({
            let alone = run(start(), line, scalar, quality, size, cache)->Ok_0;
            let whole = run(start(), line + seq!['\n', c] + more, scalar, quality, size, cache)->Ok_0;
            let g = glyph_for(c, quality, size, cache);
            let n = alone.vertices.len() as int;
            let drop = tallest(line, scalar, quality, size, cache) + v_spacing(scalar);
            &&& drop >= v_spacing(scalar)
            &&& n + g.vertices().len() <= whole.vertices.len()
            &&& whole.vertices.take(n) == alone.vertices
            &&& whole.vertices.subrange(n, n + g.vertices().len()) == placed(
                g.vertices(),
                scalar,
                0,
                -drop,
                bounds_of(g.vertices()).xmin as int,
            )
        }),
{
    let tail = seq!['\n', c] + more;
    let text = line + seq!['\n', c] + more;
    assert(text =~= line + tail);
    lemma_run_concat(start(), line, tail, scalar, quality, size, cache);
    let alone = run(start(), line, scalar, quality, size, cache)->Ok_0;
    lemma_line_height(start(), line, scalar, quality, size, cache);
    assert(tail[0] == '\n');
    let after_feed = seq![c] + more;
    assert(tail.drop_first() =~= after_feed);
    let fed = step(alone, '\n', scalar, quality, size, cache)->Ok_0;
    assert(run(alone, tail, scalar, quality, size, cache) == run(fed, after_feed, scalar, quality, size, cache));
    assert(after_feed[0] == c);
    assert(after_feed.drop_first() =~= more);
    let g = glyph_for(c, quality, size, cache);
    let put = step(fed, c, scalar, quality, size, cache)->Ok_0;
    assert(run(fed, after_feed, scalar, quality, size, cache) == run(put, more, scalar, quality, size, cache));
    assert(put == after_glyph(fed, g, scalar));
    lemma_run_keeps_vertices(put, more, scalar, quality, size, cache);
    let whole = run(put, more, scalar, quality, size, cache)->Ok_0;
    let n = alone.vertices.len() as int;
    let k = g.vertices().len() as int;
    let drop = tallest(line, scalar, quality, size, cache) + v_spacing(scalar);
    let group = placed(g.vertices(), scalar, 0, -drop, bounds_of(g.vertices()).xmin as int);
    assert(fed.x == 0 && fed.y == -drop);
    assert(put.vertices =~= alone.vertices + group);
    assert(whole.vertices.take(n + k) == put.vertices);
    assert(whole.vertices.take(n) =~= whole.vertices.take(n + k).take(n));
    assert(whole.vertices.take(n) =~= alone.vertices);
    assert(whole.vertices.subrange(n, n + k) =~= whole.vertices.take(n + k).subrange(n, n + k));
    assert(whole.vertices.subrange(n, n + k) =~= group);
}

/// Whether `b` is `a` with the pen, and every vertex from index `from` on,
/// moved right by `dx`, and all else the same.
pub open spec fn moved_right(a: Assembly, b: Assembly, from: int, dx: int) -> bool {
    &&& b.x == a.x + dx
    &&& b.y == a.y
    &&& b.row_max == a.row_max
    &&& b.normals == a.normals
    &&& b.indices == a.indices
    &&& b.vertices.len() == a.vertices.len()
    &&& forall|i: int|
        0 <= i < a.vertices.len() ==> (#[trigger] b.vertices[i]).x == a.vertices[i].x + (if i < from {
            0
        } else {
            dx
        }) && b.vertices[i].y == a.vertices[i].y && b.vertices[i].z == a.vertices[i].z
}

/// Whether every mesh in `cache` is well formed.
pub open spec fn all_well_formed(cache: Map<u64, GlyphMesh>) -> bool {
    forall|k: u64| #[trigger] cache.contains_key(k) ==> cache[k].wf()
}

/// A coordinate within the limit, scaled by a 32-bit size, stays within the
/// limit times the largest such size.
proof fn lemma_scaled_coordinate(v: int, s: int)
    by (nonlinear_arith)
    requires
        -COORD_LIMIT <= v <= COORD_LIMIT,
        0 <= s <= 0xffff_ffff,
    ensures
        -COORD_LIMIT * 0xffff_ffff <= v * s <= COORD_LIMIT * 0xffff_ffff,
{
}

/// A run that succeeds from a pen in reach ends with the pen in reach.
pub proof fn lemma_run_stays_in_reach(
    a: Assembly,
    chars: Seq<char>,
    scalar: int,
    quality: Quality,
    size: TextMeshSize,
    cache: Map<u64, GlyphMesh>,
)
    requires
        in_reach(a),
        run(a, chars, scalar, quality, size, cache) is Ok,
    ensures
        in_reach(run(a, chars, scalar, quality, size, cache)->Ok_0),
    decreases chars.len(),
{
    if chars.len() > 0 {
        let next = step(a, chars[0], scalar, quality, size, cache)->Ok_0;
        lemma_run_stays_in_reach(next, chars.drop_first(), scalar, quality, size, cache);
    }
}

/// Two layouts that differ by a move to the right still differ by that move
/// after the same text, where it has no line feed and lines are not wrapped.
pub proof fn lemma_run_moved_right(
    a: Assembly,
    b: Assembly,
    from: int,
    dx: int,
    chars: Seq<char>,
    scalar: int,
    quality: Quality,
    size: TextMeshSize,
    cache: Map<u64, GlyphMesh>,
)
    requires
        !size.wrapping,
        forall|i: int| 0 <= i < chars.len() ==> chars[i] != '\n',
        0 <= scalar <= u32::MAX,
        all_well_formed(cache),
        in_reach(a),
        in_reach(b),
        moved_right(a, b, from, dx),
        0 <= from <= a.vertices.len(),
        run(a, chars, scalar, quality, size, cache) is Ok,
        run(b, chars, scalar, quality, size, cache) is Ok,
    ensures
        moved_right(
            run(a, chars, scalar, quality, size, cache)->Ok_0,
            run(b, chars, scalar, quality, size, cache)->Ok_0,
            from,
            dx,
        ),
    decreases chars.len(),
{
    if chars.len() > 0 {
        let c = chars[0];
        let rest = chars.drop_first();
        let a1 = step(a, c, scalar, quality, size, cache)->Ok_0;
        let b1 = step(b, c, scalar, quality, size, cache)->Ok_0;
        assert(c != '\n');
        assert forall|i: int| 0 <= i < rest.len() implies rest[i] != '\n' by {
            assert(rest[i] == chars[i + 1]);
        }
        if c != ' ' {
            let g = glyph_for(c, quality, size, cache);
            assert(a1 == after_glyph(a, g, scalar));
            assert(b1 == after_glyph(b, g, scalar));
            assert(g.wf());
            lemma_bounds_in_range(g.vertices());
            let xmin = bounds_of(g.vertices()).xmin as int;
            lemma_scaled_coordinate(xmin, scalar);
            let n = a.vertices.len() as int;
            assert forall|i: int| 0 <= i < a1.vertices.len() implies (#[trigger] b1.vertices[i]).x
                == a1.vertices[i].x + (if i < from {
                0
            } else {
                dx
            }) && b1.vertices[i].y == a1.vertices[i].y && b1.vertices[i].z == a1.vertices[i].z by {
                if i < n {
                    assert(a1.vertices[i] == a.vertices[i]);
                    assert(b1.vertices[i] == b.vertices[i]);
                } else {
                    let p = g.vertices()[i - n];
                    assert(point_in_range(p));
                    lemma_scaled_coordinate(p.x as int, scalar);
                    lemma_scaled_coordinate(p.y as int, scalar);
                    lemma_scaled_coordinate(p.z as int, scalar);
                    assert(a1.vertices[i] == place(p, scalar, a.x, a.y, xmin));
                    assert(b1.vertices[i] == place(p, scalar, b.x, b.y, xmin));
                }
            }
        }
        lemma_run_moved_right(a1, b1, from, dx, rest, scalar, quality, size, cache);
    }
}

/// A space put into a text moves what follows it on its line to the right
/// by the width of a space and one gap, and changes nothing else: no vertex
/// is added, and what stands before the space stays where it was.
pub proof fn lemma_space_shifts_what_follows(
    before: Seq<char>,
    after: Seq<char>,
    scalar: int,
    quality: Quality,
    size: TextMeshSize,
    cache: Map<u64, GlyphMesh>,
)
    requires
        !size.wrapping,
        forall|i: int| 0 <= i < after.len() ==> after[i] != '\n',
        0 <= scalar <= u32::MAX,
        all_well_formed(cache),
        run(start(), before + after, scalar, quality, size, cache) is Ok,
        run(start(), before + seq![' '] + after, scalar, quality, size, cache) is Ok,
    ensures
        run(start(), before, scalar, quality, size, cache) is Ok,
        moved_right(
            run(start(), before + after, scalar, quality, size, cache)->Ok_0,
            run(start(), before + seq![' '] + after, scalar, quality, size, cache)->Ok_0,
            run(start(), before, scalar, quality, size, cache)->Ok_0.vertices.len() as int,
            space_width(scalar) + h_spacing(scalar),
        ),
{
    let tail = seq![' '] + after;
    assert(before + seq![' '] + after =~= before + tail);
    lemma_run_concat(start(), before, after, scalar, quality, size, cache);
    lemma_run_concat(start(), before, tail, scalar, quality, size, cache);
    let m = run(start(), before, scalar, quality, size, cache)->Ok_0;
    lemma_run_stays_in_reach(start(), before, scalar, quality, size, cache);
    assert(tail[0] == ' ');
    assert(tail.drop_first() =~= after);
    let spaced = step(m, ' ', scalar, quality, size, cache)->Ok_0;
    assert(run(m, tail, scalar, quality, size, cache) == run(spaced, after, scalar, quality, size, cache));
    lemma_run_moved_right(
        m,
        spaced,
        m.vertices.len() as int,
        space_width(scalar) + h_spacing(scalar),
        after,
        scalar,
        quality,
        size,
        cache,
    );
}

} // verus!
