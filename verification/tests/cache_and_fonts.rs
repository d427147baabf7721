use std::cell::Cell;

use text_mesh::font_loader::{FontLoader, FontLoaderError, TextMeshFont};
use text_mesh::glyph::{Bounds, Face, GlyphMesh, Point3, COORD_LIMIT};
use text_mesh::mesh_cache::{CacheKey, MeshCache};
use text_mesh::text_mesh::{Quality, SizeUnit};

fn point(x: i32, y: i32, z: i32) -> Point3 {
    Point3 { x, y, z }
}

fn triangle(shift: i32) -> GlyphMesh {
    let vertices = vec![point(shift, -3, 0), point(shift + 7, 5, 1), point(shift - 2, 11, 2)];
    let normals = vec![point(0, 0, 1000); 3];
    GlyphMesh::new(vertices, normals, vec![Face { a: 0, b: 1, c: 2 }]).unwrap()
}

#[test]
fn a_mesh_needs_lists_that_fit() {
    let n = point(0, 0, 1000);
    assert!(GlyphMesh::new(vec![], vec![], vec![]).is_some());
    assert!(GlyphMesh::new(vec![point(0, 0, 0)], vec![], vec![]).is_none());
    assert!(GlyphMesh::new(vec![point(0, 0, 0)], vec![n], vec![Face { a: 0, b: 0, c: 1 }]).is_none());
    assert!(GlyphMesh::new(vec![point(0, 0, 0)], vec![n], vec![Face { a: 0, b: 0, c: 0 }]).is_some());
    assert!(GlyphMesh::new(vec![point(COORD_LIMIT, -COORD_LIMIT, 0)], vec![n], vec![]).is_some());
    assert!(GlyphMesh::new(vec![point(COORD_LIMIT + 1, 0, 0)], vec![n], vec![]).is_none());
    assert!(GlyphMesh::new(vec![point(0, 0, -COORD_LIMIT - 1)], vec![n], vec![]).is_none());
}

#[test]
fn a_mesh_hands_out_what_it_was_built_from() {
    let mesh = triangle(10);
    assert_eq!(mesh.vertex_count(), 3);
    assert_eq!(mesh.normal_count(), 3);
    assert_eq!(mesh.face_count(), 1);
    assert_eq!(mesh.vertex(1), point(17, 5, 1));
    assert_eq!(mesh.normal(2), point(0, 0, 1000));
    assert_eq!(mesh.face(0), Face { a: 0, b: 1, c: 2 });
}

#[test]
fn bounds_are_the_extremes_of_the_vertices() {
    assert_eq!(triangle(10).bounds(), Bounds { xmin: 8, xmax: 17, ymin: -3, ymax: 11 });
    let empty = GlyphMesh::new(vec![], vec![], vec![]).unwrap();
    assert_eq!(empty.bounds(), Bounds { xmin: 0, xmax: 0, ymin: 0, ymax: 0 });
    let one = GlyphMesh::new(vec![point(-4, 9, 1)], vec![point(0, 0, 1)], vec![]).unwrap();
    assert_eq!(one.bounds(), Bounds { xmin: -4, xmax: -4, ymin: 9, ymax: 9 });
}

#[test]
fn keys_differ_where_a_part_differs() {
    let base = CacheKey::new_3d('a', 8, Quality::Low);
    assert_eq!(base.packed(), 97 * 0x4_0000_0000 + 8 * 4);
    assert_ne!(base.packed(), CacheKey::new_3d('b', 8, Quality::Low).packed());
    assert_ne!(base.packed(), CacheKey::new_3d('a', 9, Quality::Low).packed());
    assert_ne!(base.packed(), CacheKey::new_3d('a', 8, Quality::Medium).packed());
    assert_eq!(CacheKey::new_3d('\u{10FFFF}', u32::MAX, Quality::High).packed(), 0x10FFFF * 0x4_0000_0000 + 0xffff_ffff * 4 + 2);
}

#[test]
fn the_cache_never_replaces_an_entry() {
    let mut cache = MeshCache::default();
    let key = CacheKey::new_3d('a', 8, Quality::Low);
    assert_eq!(cache.len(), 0);
    assert!(!cache.contains(&key));
    assert!(cache.get(&key).is_none());
    assert!(cache.insert(key, triangle(0)));
    assert!(!cache.insert(key, triangle(100)));
    assert_eq!(cache.len(), 1);
    assert_eq!(cache.get(&key).unwrap().vertex(0), point(0, -3, 0));
    let other = CacheKey::new_3d('a', 9, Quality::Low);
    assert!(cache.insert(other, triangle(100)));
    assert_eq!(cache.get(&other).unwrap().vertex(0), point(100, -3, 0));
    assert_eq!(cache.get(&key).unwrap().vertex(0), point(0, -3, 0));
    assert_eq!(cache.len(), 2);
}

#[test]
fn a_cached_mesh_is_made_once() {
    let calls = Cell::new(0u32);
    let mut cache = MeshCache::new();
    let key = CacheKey::new_3d('a', 8, Quality::Low);
    let first = cache
        .get_or_insert(key, || {
            calls.set(calls.get() + 1);
            triangle(0)
        })
        .vertex(0);
    let second = cache
        .get_or_insert(key, || {
            calls.set(calls.get() + 1);
            triangle(100)
        })
        .vertex(0);
    assert_eq!(calls.get(), 1);
    assert_eq!(first, point(0, -3, 0));
    assert_eq!(second, first);
    assert_eq!(cache.len(), 1);
    let other = CacheKey::new_3d('a', 8, Quality::High);
    assert_eq!(cache.get_or_insert(other, || triangle(100)).vertex(0), point(100, -3, 0));
    assert_eq!(calls.get(), 1);
    assert_eq!(cache.len(), 2);
}

#[test]
fn each_quality_has_its_number_of_pieces() {
    assert_eq!(Quality::Low.subdivisions(), 10);
    assert_eq!(Quality::Medium.subdivisions(), 20);
    assert_eq!(Quality::High.subdivisions(), 50);
}

#[test]
fn a_size_is_given_or_not() {
    assert_eq!(SizeUnit::NonStandard(1800).as_scalar(), Some(1800));
    assert_eq!(SizeUnit::Auto.as_scalar(), None);
}

#[test]
fn bytes_that_are_no_font_are_refused() {
    let loader = FontLoader::default();
    let bytes = b"not a font".to_vec();
    assert_eq!(loader.load(bytes.clone()).err(), Some(FontLoaderError));
    assert_eq!(loader.load(Vec::new()).err(), Some(FontLoaderError));
    let font = TextMeshFont::new(bytes.clone());
    assert!(matches!(font.get_font(), Err(fontmesh::FontMeshError::ParseError(_))));
    assert_eq!(font.bytes(), &bytes);
}

#[test]
fn the_loader_is_for_ttf_files() {
    assert_eq!(FontLoader.extensions(), vec!["ttf"]);
    assert_eq!(TextMeshFont::new(vec![1, 2, 3]).describe(), "TextMeshFont<>");
}
