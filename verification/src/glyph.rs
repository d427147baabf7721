//! The mesh of one glyph, and the box that bounds it.

use vstd::prelude::*;

verus! {

/// Largest magnitude of a glyph coordinate, in thousandths of an em.
pub const COORD_LIMIT: i32 = 1_048_576;

/// A point or a direction, in thousandths.
#[derive(Clone, Copy, Debug, PartialEq, Eq, Structural)]
pub struct Point3 {
    pub x: i32,
    pub y: i32,
    pub z: i32,
}

/// One triangle: three indices into the vertices of the glyph it belongs to.
#[derive(Clone, Copy, Debug, PartialEq, Eq, Structural)]
pub struct Face {
    pub a: u32,
    pub b: u32,
    pub c: u32,
}

/// The smallest and largest x and y among a glyph's vertices.
#[derive(Clone, Copy, Debug, PartialEq, Eq, Structural)]
pub struct Bounds {
    pub xmin: i32,
    pub xmax: i32,
    pub ymin: i32,
    pub ymax: i32,
}

/// Whether every coordinate of `p` is within `COORD_LIMIT` of zero.
pub open spec fn point_in_range(p: Point3) -> bool {
    &&& -COORD_LIMIT <= p.x <= COORD_LIMIT
    &&& -COORD_LIMIT <= p.y <= COORD_LIMIT
    &&& -COORD_LIMIT <= p.z <= COORD_LIMIT
}

/// Whether every index of `f` is below `n`.
pub open spec fn face_in_range(f: Face, n: int) -> bool {
    f.a < n && f.b < n && f.c < n
}

/// What makes three lists the mesh of a glyph: one normal for each vertex,
/// coordinates within the limit, faces that index existing vertices, and a
/// vertex count that a 32-bit index can address.
pub open spec fn mesh_parts_ok(vertices: Seq<Point3>, normals: Seq<Point3>, faces: Seq<Face>) -> bool {
    &&& vertices.len() == normals.len()
    &&& vertices.len() <= u32::MAX
    &&& forall|i: int| 0 <= i < vertices.len() ==> point_in_range(#[trigger] vertices[i])
    &&& forall|i: int| 0 <= i < faces.len() ==> face_in_range(#[trigger] faces[i], vertices.len() as int)
}

/// The box that bounds the one point `p`.
pub open spec fn bounds_of_point(p: Point3) -> Bounds {
    Bounds { xmin: p.x, xmax: p.x, ymin: p.y, ymax: p.y }
}

/// The box `b` grown to hold `p`.
pub open spec fn bounds_with(b: Bounds, p: Point3) -> Bounds {
    Bounds {
        xmin: if p.x < b.xmin { p.x } else { b.xmin },
        xmax: if p.x > b.xmax { p.x } else { b.xmax },
        ymin: if p.y < b.ymin { p.y } else { b.ymin },
        ymax: if p.y > b.ymax { p.y } else { b.ymax },
    }
}

/// The box that bounds `points`; the box at the origin where there are none.
pub open spec fn bounds_of(points: Seq<Point3>) -> Bounds
    decreases points.len(),
{
    if points.len() == 0 {
        Bounds { xmin: 0, xmax: 0, ymin: 0, ymax: 0 }
    } else if points.len() == 1 {
        bounds_of_point(points[0])
    } else {
        bounds_with(bounds_of(points.drop_last()), points.last())
    }
}

/// The box of a non-empty list is tight: it holds every point, and each of
/// its four sides touches one.
pub proof fn lemma_bounds_tight(points: Seq<Point3>)
    requires
        points.len() > 0,
    ensures
        forall|i: int| 0 <= i < points.len() ==> {
            &&& bounds_of(points).xmin <= (#[trigger] points[i]).x <= bounds_of(points).xmax
            &&& bounds_of(points).ymin <= points[i].y <= bounds_of(points).ymax
        },
        exists|i: int| 0 <= i < points.len() && (#[trigger] points[i]).x == bounds_of(points).xmin,
        exists|i: int| 0 <= i < points.len() && (#[trigger] points[i]).x == bounds_of(points).xmax,
        exists|i: int| 0 <= i < points.len() && (#[trigger] points[i]).y == bounds_of(points).ymin,
        exists|i: int| 0 <= i < points.len() && (#[trigger] points[i]).y == bounds_of(points).ymax,
    decreases points.len(),
{
    if points.len() == 1 {
        assert(points[0].x == bounds_of(points).xmin);
        assert(points[0].x == bounds_of(points).xmax);
        assert(points[0].y == bounds_of(points).ymin);
        assert(points[0].y == bounds_of(points).ymax);
    } else {
        let front = points.drop_last();
        let n = points.len() - 1;
        lemma_bounds_tight(front);
        let b = bounds_of(front);
        let r = bounds_of(points);
        assert forall|i: int| 0 <= i < points.len() implies {
            &&& r.xmin <= (#[trigger] points[i]).x <= r.xmax
            &&& r.ymin <= points[i].y <= r.ymax
        } by {
            if i < n {
                assert(points[i] == front[i]);
            }
        }
        let ix0 = choose|i: int| 0 <= i < front.len() && (#[trigger] front[i]).x == b.xmin;
        let ix1 = choose|i: int| 0 <= i < front.len() && (#[trigger] front[i]).x == b.xmax;
        let iy0 = choose|i: int| 0 <= i < front.len() && (#[trigger] front[i]).y == b.ymin;
        let iy1 = choose|i: int| 0 <= i < front.len() && (#[trigger] front[i]).y == b.ymax;
        let jx0 = if points[n].x < b.xmin { n } else { ix0 };
        let jx1 = if points[n].x > b.xmax { n } else { ix1 };
        let jy0 = if points[n].y < b.ymin { n } else { iy0 };
        let jy1 = if points[n].y > b.ymax { n } else { iy1 };
        assert(points[ix0] == front[ix0] && points[ix1] == front[ix1]);
        assert(points[iy0] == front[iy0] && points[iy1] == front[iy1]);
        assert(points[jx0].x == r.xmin);
        assert(points[jx1].x == r.xmax);
        assert(points[jy0].y == r.ymin);
        assert(points[jy1].y == r.ymax);
    }
}

/// The box of points within the coordinate limit is within it too.
pub proof fn lemma_bounds_in_range(points: Seq<Point3>)
    requires
        forall|i: int| 0 <= i < points.len() ==> point_in_range(#[trigger] points[i]),
    ensures
        -COORD_LIMIT <= bounds_of(points).xmin <= bounds_of(points).xmax <= COORD_LIMIT,
        -COORD_LIMIT <= bounds_of(points).ymin <= bounds_of(points).ymax <= COORD_LIMIT,
        forall|i: int| 0 <= i < points.len() ==> bounds_of(points).xmin <= (#[trigger] points[i]).x,
{
    if points.len() > 0 {
        lemma_bounds_tight(points);
        assert(point_in_range(points[0]));
        let b = bounds_of(points);
        let ix0 = choose|i: int| 0 <= i < points.len() && (#[trigger] points[i]).x == b.xmin;
        let ix1 = choose|i: int| 0 <= i < points.len() && (#[trigger] points[i]).x == b.xmax;
        let iy0 = choose|i: int| 0 <= i < points.len() && (#[trigger] points[i]).y == b.ymin;
        let iy1 = choose|i: int| 0 <= i < points.len() && (#[trigger] points[i]).y == b.ymax;
        assert(point_in_range(points[ix0]) && point_in_range(points[ix1]));
        assert(point_in_range(points[iy0]) && point_in_range(points[iy1]));
    }
}

/// An indexed triangle mesh for one glyph. Its lists cannot be changed once
/// it is built, and every mesh that exists is well formed.
#[derive(Debug)]
pub struct GlyphMesh {
    vertices: Vec<Point3>,
    normals: Vec<Point3>,
    faces: Vec<Face>,
}

impl GlyphMesh {
    /// The vertex positions.
    pub closed spec fn vertices(&self) -> Seq<Point3> {
        self.vertices@
    }

    /// The normals, one for each vertex.
    pub closed spec fn normals(&self) -> Seq<Point3> {
        self.normals@
    }

    /// The triangles.
    pub closed spec fn faces(&self) -> Seq<Face> {
        self.faces@
    }

    /// Whether the lists of this mesh fit together.
    pub open spec fn wf(&self) -> bool {
        mesh_parts_ok(self.vertices(), self.normals(), self.faces())
    }

    #[verifier::type_invariant]
    closed spec fn inv(&self) -> bool {
        mesh_parts_ok(self.vertices@, self.normals@, self.faces@)
    }

    /// Builds a mesh from its three lists, or nothing where they do not fit
    /// together.
    pub fn new(vertices: Vec<Point3>, normals: Vec<Point3>, faces: Vec<Face>) -> (r: Option<GlyphMesh>)
        ensures
            r.is_some() == mesh_parts_ok(vertices@, normals@, faces@),
            r matches Some(m) ==> m.wf() && m.vertices() == vertices@ && m.normals() == normals@
                && m.faces() == faces@,
    {
        if vertices.len() != normals.len() || vertices.len() > 0xffff_ffff {
            return None;
        }
        let mut i: usize = 0;
        while i < vertices.len()
            invariant
                i <= vertices.len(),
                forall|k: int| 0 <= k < i ==> point_in_range(#[trigger] vertices@[k]),
            decreases vertices.len() - i,
        {
            let p = vertices[i];
            if p.x < -COORD_LIMIT || p.x > COORD_LIMIT || p.y < -COORD_LIMIT || p.y > COORD_LIMIT
                || p.z < -COORD_LIMIT || p.z > COORD_LIMIT {
                assert(!point_in_range(vertices@[i as int]));
                return None;
            }
            i += 1;
        }
        let n: usize = vertices.len();
        let mut j: usize = 0;
        while j < faces.len()
            invariant
                j <= faces.len(),
                n == vertices@.len(),
                n <= u32::MAX,
                forall|k: int| 0 <= k < j ==> face_in_range(#[trigger] faces@[k], n as int),
            decreases faces.len() - j,
        {
            let f = faces[j];
            if f.a as usize >= n || f.b as usize >= n || f.c as usize >= n {
                assert(!face_in_range(faces@[j as int], n as int));
                return None;
            }
            j += 1;
        }
        Some(GlyphMesh { vertices, normals, faces })
    }

    /// How many vertices the mesh has. The mesh in hand is well formed.
    pub fn vertex_count(&self) -> (n: usize)
        ensures
            n == self.vertices().len(),
            self.wf(),
    {
        proof {
            use_type_invariant(self);
        }
        self.vertices.len()
    }

    /// How many normals the mesh has.
    pub fn normal_count(&self) -> (n: usize)
        ensures
            n == self.normals().len(),
    {
        self.normals.len()
    }

    /// How many triangles the mesh has.
    pub fn face_count(&self) -> (n: usize)
        ensures
            n == self.faces().len(),
    {
        self.faces.len()
    }

    /// The vertex at `i`.
    pub fn vertex(&self, i: usize) -> (p: Point3)
        requires
            i < self.vertices().len(),
        ensures
            p == self.vertices()[i as int],
    {
        self.vertices[i]
    }

    /// The normal at `i`.
    pub fn normal(&self, i: usize) -> (p: Point3)
        requires
            i < self.normals().len(),
        ensures
            p == self.normals()[i as int],
    {
        self.normals[i]
    }

    /// The triangle at `i`.
    pub fn face(&self, i: usize) -> (f: Face)
        requires
            i < self.faces().len(),
        ensures
            f == self.faces()[i as int],
    {
        self.faces[i]
    }

    /// The box that bounds the vertices, found by looking at each of them.
    pub fn bounds(&self) -> (b: Bounds)
        ensures
            b == bounds_of(self.vertices()),
    {
        let n: usize = self.vertices.len();
        if n == 0 {
            return Bounds { xmin: 0, xmax: 0, ymin: 0, ymax: 0 };
        }
        let first = self.vertices[0];
        let mut b = Bounds { xmin: first.x, xmax: first.x, ymin: first.y, ymax: first.y };
        let mut i: usize = 1;
        assert(self.vertices@.take(1).len() == 1 && self.vertices@.take(1)[0] == first);
        while i < n
            invariant
                1 <= i <= n,
                n == self.vertices@.len(),
                b == bounds_of(self.vertices@.take(i as int)),
            decreases n - i,
        {
            let p = self.vertices[i];
            proof {
                let next = self.vertices@.take(i + 1);
                assert(next.drop_last() =~= self.vertices@.take(i as int));
                assert(next.last() == p);
            }
            if p.x < b.xmin {
                b.xmin = p.x;
            }
            if p.x > b.xmax {
                b.xmax = p.x;
            }
            if p.y < b.ymin {
                b.ymin = p.y;
            }
            if p.y > b.ymax {
                b.ymax = p.y;
            }
            i += 1;
        }
        assert(self.vertices@.take(n as int) =~= self.vertices@);
        b
    }
}

} // verus!
