use geoprim::base::Vector;
use geoprim::base::geometry::{Line, Polygon, Polyhedron};
use geoprim::base::utils::HeapArray;

fn point(x: i64, y: i64) -> Vector {
    Vector::new(vec![x, y])
}

#[test]
fn lexicographic_comparison_is_x_major() {
    let p = point(2, 0);
    let q = point(1, 9);
    assert_eq!(p.xy_lexicographical_comp(&q), 1);
    assert_eq!(q.xy_lexicographical_comp(&p), -1);
    let r = point(1, 3);
    assert_eq!(q.xy_lexicographical_comp(&r), 1);
    assert_eq!(r.xy_lexicographical_comp(&q), -1);
    assert_eq!(r.xy_lexicographical_comp(&point(1, 3)), 0);
}

#[test]
fn half_plane_point_left_of_vertical_line() {
    let line = Line::new(point(1, -1), point(1, 1));
    assert!(point(0, 0).is_on_left_of(&line));
}

#[test]
fn half_plane_point_on_line_is_not_left() {
    let line = Line::new(point(1, -1), point(1, 1));
    assert!(!point(1, 0).is_on_left_of(&line));
}

#[test]
fn half_plane_point_right_of_line() {
    let line = Line::new(point(1, -1), point(1, 1));
    assert!(!point(2, 0).is_on_left_of(&line));
}

#[test]
fn line_holds_its_endpoints() {
    let line = Line::new(point(3, 4), point(5, 6));
    assert_eq!(line.a.coords, vec![3i64, 4]);
    assert_eq!(line.b.coords, vec![5i64, 6]);
}

#[test]
fn cyclic_index_wraps_around() {
    let poly = Polygon::new(vec![point(0, 0), point(1, 0), point(1, 1), point(0, 1)]);
    assert_eq!(poly.index(4).coords, poly.index(0).coords);
    assert_eq!(poly.index(-1).coords, poly.index(3).coords);
    assert_eq!(poly.index(7).coords, poly.index(3).coords);
    assert_eq!(poly.index(-4).coords, poly.index(0).coords);
}

#[test]
fn triangle_never_self_intersecting() {
    let tri = Polygon::new(vec![point(0, 0), point(5, 0), point(0, 5)]);
    assert!(!tri.self_intersecting());
}

#[test]
fn degenerate_triangle_never_self_intersecting() {
    let collinear = Polygon::new(vec![point(0, 0), point(1, 1), point(2, 2)]);
    assert!(!collinear.self_intersecting());
    let coincident = Polygon::new(vec![point(3, 3), point(3, 3), point(3, 3)]);
    assert!(!coincident.self_intersecting());
}

#[test]
fn square_not_self_intersecting() {
    let square = Polygon::new(vec![point(0, 0), point(1, 0), point(1, 1), point(0, 1)]);
    assert!(!square.self_intersecting());
}

#[test]
fn rectangle_not_self_intersecting() {
    let rect = Polygon::new(vec![point(0, 0), point(2, 0), point(2, 1), point(0, 1)]);
    assert!(!rect.self_intersecting());
}

#[test]
fn turning_sign_flip_is_reported() {
    // At (0,0) the edge vectors make an acute angle, at (2,0) an obtuse
    // one: the indicator signs differ, so the scan reports a flip.
    let para = Polygon::new(vec![point(0, 0), point(2, 0), point(3, 1), point(1, 1)]);
    assert!(para.self_intersecting());
}

#[test]
fn bowtie_quad_has_no_sign_flip() {
    // The crossed quad's edge vectors make an acute angle at every vertex,
    // so the turning-sign heuristic does not flag it: it watches the local
    // bend only and misses this crossing.
    let bowtie = Polygon::new(vec![point(0, 0), point(1, 1), point(1, 0), point(0, 1)]);
    assert!(!bowtie.self_intersecting());
}

#[test]
fn polyhedron_holds_vertices_and_faces() {
    let vertices = vec![point(0, 0), point(1, 0), point(0, 1)];
    let faces = vec![HeapArray::new_with_vec(vec![0usize, 1, 2])];
    let solid = Polyhedron::new(vertices, faces);
    assert_eq!(solid.vertices.len(), 3);
    assert_eq!(solid.faces.len(), 1);
    assert_eq!(solid.faces[0].size(), 3);
    assert_eq!(*solid.faces[0].index(2), 2);
}
