use std::cell::Cell;

use text_mesh::glyph::{Face, GlyphMesh, Point3};
use text_mesh::mesh_cache::{CacheKey, MeshCache};
use text_mesh::casing::{apply_casing, chars_of};
use text_mesh::glyph_supply::{
    after_failure, fill_cache, next_glyph, obtain_glyph, resolve_depth, scan_for_missing, GlyphRequest,
};
use text_mesh::layout::{LayoutError, Position};
use text_mesh::mesh_data_generator::{
    assemble_text_mesh, generate_text_mesh, generate_text_mesh_uncached, MeshData, Uv,
};
use text_mesh::text_mesh::{FontStyle, Quality, SizeUnit, TextMesh, TextMeshSize, TextMeshStyle};

fn quad(x0: i32, w: i32, h: i32, depth: u32) -> GlyphMesh {
    let z = depth as i32 * 5;
    let vertices = vec![
        Point3 { x: x0, y: 0, z },
        Point3 { x: x0 + w, y: 0, z },
        Point3 { x: x0 + w, y: h, z },
        Point3 { x: x0, y: h, z },
    ];
    let up = Point3 { x: 0, y: 0, z: 1000 };
    let normals = vec![up, up, up, up];
    let faces = vec![Face { a: 0, b: 1, c: 2 }, Face { a: 0, b: 2, c: 3 }];
    GlyphMesh::new(vertices, normals, faces).unwrap()
}

fn stub(c: char, _quality: Quality, depth: u32) -> Option<GlyphMesh> {
    match c {
        'a' => Some(quad(50, 500, 600, depth)),
        'b' => Some(quad(30, 550, 900, depth)),
        'A' => Some(quad(10, 650, 800, depth)),
        'B' => Some(quad(20, 640, 810, depth)),
        '?' => Some(quad(0, 400, 700, depth)),
        'T' => Some(quad(0, 10, 1_048_576, depth)),
        'x' => None,
        _ if c.is_ascii_graphic() => Some(quad(40, 500, 600, depth)),
        _ => None,
    }
}

fn request(text: &str, wrapping: bool, width: u32) -> TextMesh {
    TextMesh {
        text: text.to_string(),
        size: TextMeshSize {
            width: SizeUnit::NonStandard(width),
            height: SizeUnit::NonStandard(18000),
            depth: Some(SizeUnit::NonStandard(8)),
            wrapping,
        },
        style: TextMeshStyle {
            font_size: SizeUnit::NonStandard(1800),
            font_style: FontStyle::none(),
            mesh_quality: Quality::Low,
        },
    }
}

fn assert_invariants(mesh: &MeshData) {
    assert_eq!(mesh.vertices.len(), mesh.normals.len());
    assert_eq!(mesh.vertices.len(), mesh.uvs.len());
    assert_eq!(mesh.indices.len() % 3, 0);
    for index in mesh.indices.iter() {
        assert!((*index as usize) < mesh.vertices.len());
    }
}

#[test]
fn test_generate_mesh() {
    let mut mesh_cache = MeshCache::default();
    let text_mesh = TextMesh {
        text: "hello world!".to_string(),
        size: TextMeshSize {
            width: SizeUnit::NonStandard(36 * 2 * 100),
            height: SizeUnit::NonStandard(36 * 5 * 100),
            depth: Some(SizeUnit::NonStandard(8)),
            wrapping: true,
        },
        style: TextMeshStyle {
            font_size: SizeUnit::NonStandard(18 * 100),
            font_style: FontStyle::default(),
            mesh_quality: Quality::Low,
        },
    };
    let mesh = generate_text_mesh(&text_mesh, &stub, &mut mesh_cache).unwrap();
    assert_invariants(&mesh);
    assert_eq!(mesh.vertices.len(), 11 * 4);
    assert_eq!(mesh.indices.len(), 11 * 6);
    assert_eq!(mesh_cache.len(), 8);
}

#[test]
fn two_letters_are_joined_left_to_right() {
    let mut cache = MeshCache::new();
    let mesh = generate_text_mesh(&request("ab", false, 0), &stub, &mut cache).unwrap();
    assert_invariants(&mesh);
    let expected = vec![
        Position { x: 0, y: 0, z: 72_000 },
        Position { x: 900_000, y: 0, z: 72_000 },
        Position { x: 900_000, y: 1_080_000, z: 72_000 },
        Position { x: 0, y: 1_080_000, z: 72_000 },
        Position { x: 1_044_000, y: 0, z: 72_000 },
        Position { x: 2_034_000, y: 0, z: 72_000 },
        Position { x: 2_034_000, y: 1_620_000, z: 72_000 },
        Position { x: 1_044_000, y: 1_620_000, z: 72_000 },
    ];
    assert_eq!(mesh.vertices, expected);
    assert_eq!(mesh.indices, vec![0, 1, 2, 0, 2, 3, 4, 5, 6, 4, 6, 7]);
    assert_eq!(mesh.normals, vec![Point3 { x: 0, y: 0, z: 1000 }; 8]);
    assert_eq!(mesh.uvs, vec![Uv { u: 0, v: 1 }; 8]);
}

#[test]
fn a_space_moves_the_pen_and_draws_nothing() {
    let mut cache = MeshCache::new();
    let mesh = generate_text_mesh(&request("a a", false, 0), &stub, &mut cache).unwrap();
    assert_eq!(mesh.vertices.len(), 8);
    assert_eq!(mesh.indices.len(), 12);
    assert_eq!(mesh.vertices[4].x, 1_548_000);
    assert!(mesh.vertices[4].x > 900_000 + 360_000 + 144_000);
    assert_eq!(mesh.vertices[4].y, 0);
    assert_eq!(cache.len(), 1);
}

#[test]
fn a_space_put_in_moves_what_follows() {
    let plain = generate_text_mesh_uncached(&request("abba", false, 0), &stub).unwrap();
    let spaced = generate_text_mesh_uncached(&request("ab ba", false, 0), &stub).unwrap();
    assert_eq!(spaced.indices, plain.indices);
    assert_eq!(spaced.normals, plain.normals);
    assert_eq!(spaced.vertices.len(), plain.vertices.len());
    assert_eq!(spaced.vertices[..8], plain.vertices[..8]);
    for i in 8..16 {
        assert_eq!(spaced.vertices[i].x, plain.vertices[i].x + 504_000);
        assert_eq!(spaced.vertices[i].y, plain.vertices[i].y);
        assert_eq!(spaced.vertices[i].z, plain.vertices[i].z);
    }
}

#[test]
fn the_glyph_after_a_line_feed_lies_under_the_line() {
    let line = generate_text_mesh_uncached(&request("a b", false, 0), &stub).unwrap();
    let whole = generate_text_mesh_uncached(&request("a b\naa", false, 0), &stub).unwrap();
    assert_eq!(whole.vertices[..8], line.vertices[..]);
    let drop = 900 * 1800 + 100 * 1800;
    assert_eq!(whole.vertices[8], Position { x: 0, y: -drop, z: 72_000 });
    assert_eq!(whole.vertices[10], Position { x: 900_000, y: 1_080_000 - drop, z: 72_000 });
}

#[test]
fn only_spaces_give_an_empty_mesh() {
    let mut cache = MeshCache::new();
    let mesh = generate_text_mesh(&request("   ", false, 0), &stub, &mut cache).unwrap();
    assert!(mesh.vertices.is_empty());
    assert!(mesh.normals.is_empty());
    assert!(mesh.indices.is_empty());
    assert!(mesh.uvs.is_empty());
    assert_eq!(cache.len(), 0);
}

#[test]
fn empty_text_gives_an_empty_mesh() {
    let mesh = generate_text_mesh_uncached(&request("", true, 100), &stub).unwrap();
    assert!(mesh.vertices.is_empty());
    assert!(mesh.indices.is_empty());
}

#[test]
fn a_line_feed_starts_a_new_line() {
    let mut cache = MeshCache::new();
    let mesh = generate_text_mesh(&request("a\nb", false, 0), &stub, &mut cache).unwrap();
    assert_eq!(mesh.vertices[4], Position { x: 0, y: -1_260_000, z: 72_000 });
    assert_eq!(mesh.vertices[6], Position { x: 990_000, y: -1_260_000 + 1_620_000, z: 72_000 });
}

#[test]
fn the_tallest_glyph_so_far_sets_the_line_height() {
    let mut cache = MeshCache::new();
    let mesh = generate_text_mesh(&request("b\na\na", false, 0), &stub, &mut cache).unwrap();
    assert_eq!(mesh.vertices[4].y, -(1_620_000 + 180_000));
    assert_eq!(mesh.vertices[8].y, -2 * (1_620_000 + 180_000));
}

#[test]
fn a_narrow_box_breaks_the_line() {
    let wrapped = generate_text_mesh_uncached(&request("aaa", true, 1500), &stub).unwrap();
    let unwrapped = generate_text_mesh_uncached(&request("aaa", false, 1500), &stub).unwrap();
    assert_eq!(unwrapped.vertices[4], Position { x: 1_044_000, y: 0, z: 72_000 });
    assert_eq!(unwrapped.vertices[8], Position { x: 2_088_000, y: 0, z: 72_000 });
    assert_eq!(wrapped.vertices[4], Position { x: 0, y: -1_260_000, z: 72_000 });
    assert_eq!(wrapped.vertices[8], Position { x: 0, y: -2_520_000, z: 72_000 });
    assert_eq!(wrapped.indices, unwrapped.indices);
}

#[test]
fn a_wide_box_keeps_the_line() {
    let wrapped = generate_text_mesh_uncached(&request("ab", true, 2988), &stub).unwrap();
    assert_eq!(wrapped.vertices[4], Position { x: 1_044_000, y: 0, z: 72_000 });
    let edge = generate_text_mesh_uncached(&request("ab", true, 2987), &stub).unwrap();
    assert_eq!(edge.vertices[4], Position { x: 0, y: -1_260_000, z: 72_000 });
}

#[test]
fn a_second_run_makes_no_mesh() {
    let calls = Cell::new(0u32);
    let counting = |c: char, q: Quality, d: u32| {
        calls.set(calls.get() + 1);
        stub(c, q, d)
    };
    let mut cache = MeshCache::new();
    let job = request("abba ab", true, 7200);
    let first = generate_text_mesh(&job, &counting, &mut cache).unwrap();
    assert_eq!(calls.get(), 2);
    let second = generate_text_mesh(&job, &counting, &mut cache).unwrap();
    assert_eq!(calls.get(), 2);
    assert_eq!(first, second);
    assert_eq!(cache.len(), 2);
    assert_eq!(next_glyph(&job, &cache), Ok(None));
    assert_eq!(assemble_text_mesh(&job, &cache).unwrap(), first);
}

#[test]
fn each_depth_has_its_own_entry() {
    let mut cache = MeshCache::new();
    let mut job = request("a", false, 0);
    let thin = generate_text_mesh(&job, &stub, &mut cache).unwrap();
    job.size.depth = Some(SizeUnit::NonStandard(20));
    let thick = generate_text_mesh(&job, &stub, &mut cache).unwrap();
    assert_eq!(cache.len(), 2);
    assert!(cache.contains(&CacheKey::new_3d('a', 8, Quality::Low)));
    assert!(cache.contains(&CacheKey::new_3d('a', 20, Quality::Low)));
    assert!(!cache.contains(&CacheKey::new_3d('a', 20, Quality::High)));
    assert_eq!(thin.vertices[0].z, 72_000);
    assert_eq!(thick.vertices[0].z, 180_000);
}

#[test]
fn casing_is_applied_before_layout() {
    let mut upper = request("aB", false, 0);
    upper.style.font_style = FontStyle::upper();
    let cased = generate_text_mesh_uncached(&upper, &stub).unwrap();
    let plain = generate_text_mesh_uncached(&request("AB", false, 0), &stub).unwrap();
    assert_eq!(cased, plain);
    assert_eq!(cased.vertices[1].x, 650 * 1800);

    let mut lower = request("Ab", false, 0);
    lower.style.font_style = FontStyle::lower();
    let cased = generate_text_mesh_uncached(&lower, &stub).unwrap();
    let plain = generate_text_mesh_uncached(&request("ab", false, 0), &stub).unwrap();
    assert_eq!(cased, plain);
}

#[test]
fn upper_case_wins_over_lower_case() {
    let both = FontStyle { uppercase: true, lowercase: true };
    assert_eq!(apply_casing("aBc", both), "ABC");
    assert_eq!(apply_casing("aBc", FontStyle::lower()), "abc");
    assert_eq!(apply_casing("aBc", FontStyle::none()), "aBc");
    assert_eq!(apply_casing("stra\u{df}e", FontStyle::upper()), "STRASSE");
}

#[test]
fn the_characters_of_a_text_come_in_order() {
    assert_eq!(chars_of("a\u{e9}\n"), vec!['a', '\u{e9}', '\n']);
    assert_eq!(chars_of(""), Vec::<char>::new());
}

#[test]
fn the_placeholder_stands_in_for_a_failed_glyph() {
    let mut cache = MeshCache::new();
    let mesh = generate_text_mesh(&request("x", false, 0), &stub, &mut cache).unwrap();
    assert_eq!(mesh.vertices[2], Position { x: 400 * 1800, y: 700 * 1800, z: 72_000 });
    assert!(cache.contains(&CacheKey::new_3d('x', 8, Quality::Low)));
    assert!(!cache.contains(&CacheKey::new_3d('?', 8, Quality::Low)));
}

#[test]
fn a_failed_placeholder_is_an_error() {
    let nothing = |_c: char, _q: Quality, _d: u32| -> Option<GlyphMesh> { None };
    let mut cache = MeshCache::new();
    let r = generate_text_mesh(&request("ab", false, 0), &nothing, &mut cache);
    assert_eq!(r, Err(LayoutError::GlyphUnavailable('a')));
    assert_eq!(cache.len(), 0);
    assert_eq!(fill_cache(&request(" b", false, 0), &nothing, &mut cache), Err(LayoutError::GlyphUnavailable('b')));
}

#[test]
fn failure_is_retried_once() {
    let key = CacheKey::new_3d('x', 8, Quality::Low);
    let first = GlyphRequest { key, ch: 'x', fallback: false };
    let second = after_failure(first);
    assert_eq!(second, Ok(GlyphRequest { key, ch: '?', fallback: true }));
    assert_eq!(after_failure(second.unwrap()), Err(LayoutError::GlyphUnavailable('x')));
}

#[test]
fn a_glyph_is_obtained_with_one_retry() {
    let key = CacheKey::new_3d('x', 8, Quality::Low);
    let asked = std::cell::RefCell::new(Vec::new());
    let recording = |c: char, q: Quality, d: u32| {
        asked.borrow_mut().push((c, d));
        stub(c, q, d)
    };
    let mesh = obtain_glyph(&recording, GlyphRequest { key, ch: 'x', fallback: false }).unwrap();
    assert_eq!(mesh.vertex(2), Point3 { x: 400, y: 700, z: 40 });
    assert_eq!(*asked.borrow(), vec![('x', 8), ('?', 8)]);
    asked.borrow_mut().clear();
    let key_a = CacheKey::new_3d('a', 20, Quality::Low);
    let mesh = obtain_glyph(&recording, GlyphRequest { key: key_a, ch: 'a', fallback: false }).unwrap();
    assert_eq!(mesh.vertex(2), Point3 { x: 550, y: 600, z: 100 });
    assert_eq!(*asked.borrow(), vec![('a', 20)]);
    let nothing = |_c: char, _q: Quality, _d: u32| -> Option<GlyphMesh> { None };
    assert_eq!(
        obtain_glyph(&nothing, GlyphRequest { key, ch: 'x', fallback: false }).err(),
        Some(LayoutError::GlyphUnavailable('x'))
    );
}

#[test]
fn the_scan_stops_at_what_is_missing() {
    let mut cache = MeshCache::new();
    let chars = vec!['a', ' ', 'b', '\n', 'a', 'c'];
    assert_eq!(scan_for_missing(&chars, 0, Ok(8), Quality::Low, &cache), Some(0));
    assert!(cache.insert(CacheKey::new_3d('a', 8, Quality::Low), quad(50, 500, 600, 8)));
    assert_eq!(scan_for_missing(&chars, 0, Ok(8), Quality::Low, &cache), Some(2));
    assert_eq!(scan_for_missing(&chars, 3, Ok(8), Quality::Low, &cache), Some(5));
    assert_eq!(scan_for_missing(&chars, 6, Ok(8), Quality::Low, &cache), None);
    assert_eq!(scan_for_missing(&chars, 0, Ok(9), Quality::Low, &cache), Some(0));
    assert_eq!(scan_for_missing(&chars, 1, Err(LayoutError::MissingDepth), Quality::Low, &cache), Some(2));
    assert_eq!(scan_for_missing(&vec![' ', '\n'], 0, Err(LayoutError::MissingDepth), Quality::Low, &cache), None);
}

#[test]
fn a_depth_is_given_or_not() {
    let mut size = request("", false, 0).size;
    assert_eq!(resolve_depth(&size), Ok(8));
    size.depth = None;
    assert_eq!(resolve_depth(&size), Err(LayoutError::MissingDepth));
    size.depth = Some(SizeUnit::Auto);
    assert_eq!(resolve_depth(&size), Err(LayoutError::AutoDepth));
}

#[test]
fn the_first_missing_glyph_is_asked_for() {
    let mut cache = MeshCache::new();
    let job = request("a b\na", false, 0);
    let key_a = CacheKey::new_3d('a', 8, Quality::Low);
    let key_b = CacheKey::new_3d('b', 8, Quality::Low);
    assert_eq!(next_glyph(&job, &cache), Ok(Some(GlyphRequest { key: key_a, ch: 'a', fallback: false })));
    assert!(cache.insert(key_a, quad(50, 500, 600, 8)));
    assert_eq!(next_glyph(&job, &cache), Ok(Some(GlyphRequest { key: key_b, ch: 'b', fallback: false })));
    assert_eq!(assemble_text_mesh(&job, &cache), Err(LayoutError::GlyphNotCached('b')));
    assert!(cache.insert(key_b, quad(30, 550, 900, 8)));
    assert_eq!(next_glyph(&job, &cache), Ok(None));
    assert!(assemble_text_mesh(&job, &cache).is_ok());
}

#[test]
fn a_font_size_must_be_given() {
    let mut job = request("a", false, 0);
    job.style.font_size = SizeUnit::Auto;
    assert_eq!(generate_text_mesh_uncached(&job, &stub), Err(LayoutError::AutoFontSize));
    assert_eq!(next_glyph(&job, &MeshCache::new()), Err(LayoutError::AutoFontSize));
    job.text = String::new();
    assert_eq!(assemble_text_mesh(&job, &MeshCache::new()), Err(LayoutError::AutoFontSize));
}

#[test]
fn a_depth_must_be_given_for_glyphs() {
    let mut job = request("a", false, 0);
    job.size.depth = None;
    assert_eq!(generate_text_mesh_uncached(&job, &stub), Err(LayoutError::MissingDepth));
    assert_eq!(next_glyph(&job, &MeshCache::new()), Err(LayoutError::MissingDepth));
    job.size.depth = Some(SizeUnit::Auto);
    assert_eq!(generate_text_mesh_uncached(&job, &stub), Err(LayoutError::AutoDepth));
    assert_eq!(next_glyph(&job, &MeshCache::new()), Err(LayoutError::AutoDepth));
    job.text = " \n ".to_string();
    assert!(generate_text_mesh_uncached(&job, &stub).is_ok());
    assert_eq!(next_glyph(&job, &MeshCache::new()), Ok(None));
}

#[test]
fn a_width_must_be_given_for_wrapping() {
    let mut job = request("a", true, 0);
    job.size.width = SizeUnit::Auto;
    assert_eq!(generate_text_mesh_uncached(&job, &stub), Err(LayoutError::AutoWidth));
    job.size.wrapping = false;
    assert!(generate_text_mesh_uncached(&job, &stub).is_ok());
    job.size.wrapping = true;
    job.text = "  ".to_string();
    assert!(generate_text_mesh_uncached(&job, &stub).is_ok());
}

#[test]
fn the_pen_cannot_leave_its_range() {
    let mut job = request("", false, 0);
    job.style.font_size = SizeUnit::NonStandard(u32::MAX);
    job.text = format!("T{}", "\n".repeat(1000));
    assert!(generate_text_mesh_uncached(&job, &stub).is_ok());
    job.text = format!("T{}", "\n".repeat(1100));
    assert_eq!(generate_text_mesh_uncached(&job, &stub), Err(LayoutError::OutOfRange));
}
