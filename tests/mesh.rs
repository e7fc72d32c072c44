use raster3d::cube::{unit_cube, GridPoint, GridTriangle};
use raster3d::obj::{parse_obj, Face, ObjError, ObjMesh};

fn lines(text: &[&str]) -> Vec<String> {
    text.iter().map(|l| l.to_string()).collect()
}

fn quad_file() -> Vec<String> {
    lines(&["v 0 0 0", "v 1 0 0", "v 1 1 0", "v 0 1 0", "f 1 2 3 4"])
}

fn face(a: usize, b: usize, c: usize) -> Face {
    Face { a, b, c }
}

#[test]
fn cube_has_twelve_triangles_over_the_eight_corners() {
    let cube = unit_cube();
    assert_eq!(cube.len(), 12);
    let mut seen: Vec<GridPoint> = Vec::new();
    for t in &cube {
        for p in [t.a, t.b, t.c] {
            assert!(p.x == 0 || p.x == 1);
            assert!(p.y == 0 || p.y == 1);
            assert!(p.z == 0 || p.z == 1);
            if !seen.contains(&p) {
                seen.push(p);
            }
        }
    }
    assert_eq!(seen.len(), 8);
}

#[test]
fn cube_first_face_is_the_south_face() {
    let cube = unit_cube();
    assert_eq!(
        cube[0],
        GridTriangle::new(GridPoint::new(0, 0, 0), GridPoint::new(0, 1, 0), GridPoint::new(1, 1, 0))
    );
    assert_eq!(
        cube[11],
        GridTriangle::new(GridPoint::new(1, 0, 1), GridPoint::new(0, 0, 0), GridPoint::new(1, 0, 0))
    );
}

#[test]
fn cube_normals_point_outward() {
    for t in unit_cube() {
        let u = (t.b.x - t.a.x, t.b.y - t.a.y, t.b.z - t.a.z);
        let v = (t.c.x - t.a.x, t.c.y - t.a.y, t.c.z - t.a.z);
        let n = (u.1 * v.2 - u.2 * v.1, u.2 * v.0 - u.0 * v.2, u.0 * v.1 - u.1 * v.0);
        for p in [t.a, t.b, t.c] {
            assert_eq!(n.0 * (2 * p.x - 1) + n.1 * (2 * p.y - 1) + n.2 * (2 * p.z - 1), 1);
        }
    }
}

#[test]
fn quad_face_uses_sliding_window() {
    let mesh = parse_obj(&quad_file()).unwrap();
    assert_eq!(mesh.vertices.len(), 4);
    assert_eq!(mesh.faces, vec![face(0, 1, 2), face(0, 2, 3)]);
}

#[test]
fn pentagon_face_is_not_a_vertex_zero_fan() {
    let text = lines(&["v 0 0 0", "v 1 0 0", "v 2 1 0", "v 1 2 0", "v 0 1 0", "f 1 2 3 4 5"]);
    let mesh = parse_obj(&text).unwrap();
    assert_eq!(mesh.faces, vec![face(0, 1, 2), face(0, 2, 3), face(1, 3, 4)]);
}

#[test]
fn triangle_face_gives_one_triangle() {
    let text = lines(&["v 0 0 0", "v 1 0 0", "v 0 1 0", "f 3 1 2"]);
    let mesh = parse_obj(&text).unwrap();
    assert_eq!(mesh.faces, vec![face(2, 0, 1)]);
}

#[test]
fn vertex_tokens_are_kept_as_written() {
    let text = lines(&["v  1.5\t-2 3e1 7", "v 0 0 0"]);
    let mesh = parse_obj(&text).unwrap();
    assert_eq!(mesh.vertices[0], vec!["1.5", "-2", "3e1", "7"]);
    assert_eq!(mesh.vertices[1], vec!["0", "0", "0"]);
    assert!(mesh.faces.is_empty());
}

#[test]
fn two_index_face_fails() {
    let text = lines(&["v 0 0 0", "v 1 0 0", "v 0 1 0", "f 1 2", "f 1 2 3"]);
    assert_eq!(parse_obj(&text).err(), Some(ObjError::ShortFace { line: 4, count: 2 }));
}

#[test]
fn empty_face_fails() {
    let text = lines(&["f"]);
    assert_eq!(parse_obj(&text).err(), Some(ObjError::ShortFace { line: 1, count: 0 }));
}

#[test]
fn index_past_the_vertices_fails() {
    let text = lines(&["v 0 0 0", "v 1 0 0", "v 0 1 0", "f 1 2 5"]);
    assert_eq!(parse_obj(&text).err(), Some(ObjError::IndexOutOfRange { line: 4, index: 5 }));
}

#[test]
fn index_zero_and_negative_fail() {
    let text = lines(&["v 0 0 0", "v 1 0 0", "v 0 1 0", "f 0 1 2"]);
    assert_eq!(parse_obj(&text).err(), Some(ObjError::IndexOutOfRange { line: 4, index: 0 }));
    let text = lines(&["v 0 0 0", "v 1 0 0", "v 0 1 0", "f 1 -1 2"]);
    assert_eq!(parse_obj(&text).err(), Some(ObjError::IndexOutOfRange { line: 4, index: -1 }));
}

#[test]
fn face_before_its_vertices_fails() {
    let text = lines(&["v 0 0 0", "v 1 0 0", "f 1 2 3", "v 0 1 0"]);
    assert_eq!(parse_obj(&text).err(), Some(ObjError::IndexOutOfRange { line: 3, index: 3 }));
}

#[test]
fn malformed_index_fails() {
    let text = lines(&["v 0 0 0", "v 1 0 0", "v 0 1 0", "f 1/1 2/2 3/3"]);
    assert_eq!(parse_obj(&text).err(), Some(ObjError::BadIndex { line: 4 }));
    let text = lines(&["f 1 2 40000"]);
    assert_eq!(parse_obj(&text).err(), Some(ObjError::BadIndex { line: 1 }));
}

#[test]
fn short_vertex_fails() {
    let text = lines(&["v 0 0 0", "v 1 2"]);
    assert_eq!(parse_obj(&text).err(), Some(ObjError::MissingCoordinate { line: 2 }));
}

#[test]
fn other_lines_are_skipped() {
    let text = lines(&[
        "# a comment",
        "",
        "vt 0.5 0.5",
        "o object",
        "v 0 0 0",
        "s off",
        "v 1 0 0",
        "v 0 1 0",
        "f +1 2 3",
    ]);
    let mesh = parse_obj(&text).unwrap();
    assert_eq!(mesh.vertices.len(), 3);
    assert_eq!(mesh.faces, vec![face(0, 1, 2)]);
}

#[test]
fn normal_lines_are_read_as_vertices() {
    let text = lines(&["vn 0 0 1"]);
    let mesh = parse_obj(&text).unwrap();
    assert_eq!(mesh.vertices[0], vec!["n", "0", "0", "1"]);
}

#[test]
fn directive_without_space_is_read() {
    let text = lines(&["v1 2 3", "v4 5 6", "v7 8 9", "f1 2 3"]);
    let mesh = parse_obj(&text).unwrap();
    assert_eq!(mesh.vertices[0], vec!["1", "2", "3"]);
    assert_eq!(mesh.faces, vec![face(0, 1, 2)]);
}

#[test]
fn unicode_whitespace_separates_tokens() {
    let text = lines(&["v 1\u{00a0}2\u{3000}3"]);
    let mesh = parse_obj(&text).unwrap();
    assert_eq!(mesh.vertices[0], vec!["1", "2", "3"]);
}

#[test]
fn lines_can_be_fed_one_at_a_time() {
    let mut mesh = ObjMesh::new();
    for (i, line) in quad_file().iter().enumerate() {
        mesh.add_line(line, i + 1).unwrap();
    }
    assert_eq!(mesh.faces, vec![face(0, 1, 2), face(0, 2, 3)]);
    assert_eq!(mesh.add_line("f 9 1 2", 6), Err(ObjError::IndexOutOfRange { line: 6, index: 9 }));
}
