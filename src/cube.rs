use vstd::prelude::*;

verus! {

/// A point of the integer grid. The unit cube's corners are the points whose
/// coordinates all lie in `{0, 1}`.
#[derive(Clone, Copy, Debug, PartialEq, Eq, Structural)]
pub struct GridPoint {
    pub x: i32,
    pub y: i32,
    pub z: i32,
}

/// A triangle over grid points, wound so that its cross-product normal
/// `(b - a) x (c - a)` points to the side it is seen from.
#[derive(Clone, Copy, Debug, PartialEq, Eq, Structural)]
pub struct GridTriangle {
    pub a: GridPoint,
    pub b: GridPoint,
    pub c: GridPoint,
}

impl GridPoint {
    pub fn new(x: i32, y: i32, z: i32) -> (r: GridPoint)
        ensures
            r == (GridPoint { x, y, z }),
    {
        GridPoint { x, y, z }
    }
}

impl GridTriangle {
    pub fn new(a: GridPoint, b: GridPoint, c: GridPoint) -> (r: GridTriangle)
        ensures
            r == (GridTriangle { a, b, c }),
    {
        GridTriangle { a, b, c }
    }
}

pub open spec fn gp(x: i32, y: i32, z: i32) -> GridPoint {
    GridPoint { x, y, z }
}

pub open spec fn gt(a: GridPoint, b: GridPoint, c: GridPoint) -> GridTriangle {
    GridTriangle { a, b, c }
}

/// The cube's faces, two triangles each, in the order south, east, north,
/// west, top, bottom.
pub open spec fn cube_table() -> Seq<GridTriangle> {
    seq![
        gt(gp(0, 0, 0), gp(0, 1, 0), gp(1, 1, 0)),
        gt(gp(0, 0, 0), gp(1, 1, 0), gp(1, 0, 0)),
        gt(gp(1, 0, 0), gp(1, 1, 0), gp(1, 1, 1)),
        gt(gp(1, 0, 0), gp(1, 1, 1), gp(1, 0, 1)),
        gt(gp(1, 0, 1), gp(1, 1, 1), gp(0, 1, 1)),
        gt(gp(1, 0, 1), gp(0, 1, 1), gp(0, 0, 1)),
        gt(gp(0, 0, 1), gp(0, 1, 1), gp(0, 1, 0)),
        gt(gp(0, 0, 1), gp(0, 1, 0), gp(0, 0, 0)),
        gt(gp(0, 1, 0), gp(0, 1, 1), gp(1, 1, 1)),
        gt(gp(0, 1, 0), gp(1, 1, 1), gp(1, 1, 0)),
        gt(gp(1, 0, 1), gp(0, 0, 1), gp(0, 0, 0)),
        gt(gp(1, 0, 1), gp(0, 0, 0), gp(1, 0, 0)),
    ]
}

/// Every point that is a vertex of some triangle of `m`.
pub open spec fn mesh_vertices(m: Seq<GridTriangle>) -> Set<GridPoint> {
    Set::new(
        |p: GridPoint|
            exists|i: int| 0 <= i < m.len() && (m[i].a == p || m[i].b == p || m[i].c == p),
    )
}

pub open spec fn is_bit(v: i32) -> bool {
    v == 0 || v == 1
}

/// The eight corners of the unit cube.
pub open spec fn unit_corners() -> Set<GridPoint> {
    Set::new(|p: GridPoint| is_bit(p.x) && is_bit(p.y) && is_bit(p.z))
}

/// Cross product of the triangle's edges `b - a` and `c - a`.
pub open spec fn cross(t: GridTriangle) -> (int, int, int) {
    let (ux, uy, uz) = (t.b.x - t.a.x, t.b.y - t.a.y, t.b.z - t.a.z);
    let (vx, vy, vz) = (t.c.x - t.a.x, t.c.y - t.a.y, t.c.z - t.a.z);
    (uy * vz - uz * vy, uz * vx - ux * vz, ux * vy - uy * vx)
}

/// `n` is one of the six unit axis directions.
pub open spec fn is_axis(n: (int, int, int)) -> bool {
    ||| (n.0 == 1 || n.0 == -1) && n.1 == 0 && n.2 == 0
    ||| n.0 == 0 && (n.1 == 1 || n.1 == -1) && n.2 == 0
    ||| n.0 == 0 && n.1 == 0 && (n.2 == 1 || n.2 == -1)
}

/// `p` lies on the far side, along `n`, of the plane through the cube's
/// centre that is normal to `n`, at half the cube's width: on the face of the
/// unit cube that `n` points out of. Coordinates are doubled to stay integral.
pub open spec fn on_face_towards(n: (int, int, int), p: GridPoint) -> bool {
    n.0 * (2 * p.x - 1) + n.1 * (2 * p.y - 1) + n.2 * (2 * p.z - 1) == 1
}

/// The built-in unit cube: twelve triangles, two per face, each wound so that
/// its normal points out of the cube.
pub fn unit_cube() -> (r: Vec<GridTriangle>)
    ensures
        r@ == cube_table(),
{
    let mut r: Vec<GridTriangle> = Vec::new();
    // south
    r.push(GridTriangle::new(GridPoint::new(0, 0, 0), GridPoint::new(0, 1, 0), GridPoint::new(1, 1, 0)));
    r.push(GridTriangle::new(GridPoint::new(0, 0, 0), GridPoint::new(1, 1, 0), GridPoint::new(1, 0, 0)));
    // east
    r.push(GridTriangle::new(GridPoint::new(1, 0, 0), GridPoint::new(1, 1, 0), GridPoint::new(1, 1, 1)));
    r.push(GridTriangle::new(GridPoint::new(1, 0, 0), GridPoint::new(1, 1, 1), GridPoint::new(1, 0, 1)));
    // north
    r.push(GridTriangle::new(GridPoint::new(1, 0, 1), GridPoint::new(1, 1, 1), GridPoint::new(0, 1, 1)));
    r.push(GridTriangle::new(GridPoint::new(1, 0, 1), GridPoint::new(0, 1, 1), GridPoint::new(0, 0, 1)));
    // west
    r.push(GridTriangle::new(GridPoint::new(0, 0, 1), GridPoint::new(0, 1, 1), GridPoint::new(0, 1, 0)));
    r.push(GridTriangle::new(GridPoint::new(0, 0, 1), GridPoint::new(0, 1, 0), GridPoint::new(0, 0, 0)));
    // top
    r.push(GridTriangle::new(GridPoint::new(0, 1, 0), GridPoint::new(0, 1, 1), GridPoint::new(1, 1, 1)));
    r.push(GridTriangle::new(GridPoint::new(0, 1, 0), GridPoint::new(1, 1, 1), GridPoint::new(1, 1, 0)));
    // bottom
    r.push(GridTriangle::new(GridPoint::new(1, 0, 1), GridPoint::new(0, 0, 1), GridPoint::new(0, 0, 0)));
    r.push(GridTriangle::new(GridPoint::new(1, 0, 1), GridPoint::new(0, 0, 0), GridPoint::new(1, 0, 0)));
    assert(r@ =~= cube_table());
    r
}

/// The unit cube has exactly twelve triangles, and the vertices they use are
/// exactly the eight corners of the unit cube.
pub proof fn lemma_unit_cube_corners()
    ensures
        cube_table().len() == 12,
        mesh_vertices(cube_table()) == unit_corners(),
        unit_corners().len() == 8,
{
    let m = cube_table();
    let corners = set![
        gp(0, 0, 0), gp(0, 0, 1), gp(0, 1, 0), gp(0, 1, 1),
        gp(1, 0, 0), gp(1, 0, 1), gp(1, 1, 0), gp(1, 1, 1),
    ];
    assert forall|p: GridPoint| mesh_vertices(m).contains(p) implies unit_corners().contains(p) by {
        let i = choose|i: int| 0 <= i < m.len() && (m[i].a == p || m[i].b == p || m[i].c == p);
        assert(0 <= i < 12);
    }
    assert forall|p: GridPoint| unit_corners().contains(p) implies mesh_vertices(m).contains(p) by {
        if p == gp(0, 0, 0) { assert(m[0].a == p); }
        else if p == gp(0, 1, 0) { assert(m[0].b == p); }
        else if p == gp(1, 1, 0) { assert(m[0].c == p); }
        else if p == gp(1, 0, 0) { assert(m[1].c == p); }
        else if p == gp(1, 1, 1) { assert(m[2].c == p); }
        else if p == gp(1, 0, 1) { assert(m[3].c == p); }
        else if p == gp(0, 1, 1) { assert(m[4].c == p); }
        else { assert(p == gp(0, 0, 1)); assert(m[5].c == p); }
    }
    assert(mesh_vertices(m) =~= unit_corners());
    assert(unit_corners() =~= corners);
    assert(corners.len() == 8);
}

/// Every triangle of the unit cube has an axis-aligned unit normal, and all
/// three of its vertices lie on the face of the cube that the normal points
/// out of: each triangle faces away from the cube's interior.
pub proof fn lemma_unit_cube_faces_outward()
    ensures
        forall|i: int|
            0 <= i < cube_table().len() ==> {
                let t = #[trigger] cube_table()[i];
                &&& is_axis(cross(t))
                &&& on_face_towards(cross(t), t.a)
                &&& on_face_towards(cross(t), t.b)
                &&& on_face_towards(cross(t), t.c)
            },
{
    let m = cube_table();
    assert forall|i: int| 0 <= i < m.len() implies {
        let t = #[trigger] m[i];
        &&& is_axis(cross(t))
        &&& on_face_towards(cross(t), t.a)
        &&& on_face_towards(cross(t), t.b)
        &&& on_face_towards(cross(t), t.c)
    } by {
        if i == 0 {
            let t = gt(gp(0, 0, 0), gp(0, 1, 0), gp(1, 1, 0));
            assert(m[0] == t);
            assert(cross(t) == (0int, 0int, -1int)) by (nonlinear_arith)
                requires t == gt(gp(0, 0, 0), gp(0, 1, 0), gp(1, 1, 0));
        } else if i == 1 {
            let t = gt(gp(0, 0, 0), gp(1, 1, 0), gp(1, 0, 0));
            assert(m[1] == t);
            assert(cross(t) == (0int, 0int, -1int)) by (nonlinear_arith)
                requires t == gt(gp(0, 0, 0), gp(1, 1, 0), gp(1, 0, 0));
        } else if i == 2 {
            let t = gt(gp(1, 0, 0), gp(1, 1, 0), gp(1, 1, 1));
            assert(m[2] == t);
            assert(cross(t) == (1int, 0int, 0int)) by (nonlinear_arith)
                requires t == gt(gp(1, 0, 0), gp(1, 1, 0), gp(1, 1, 1));
        } else if i == 3 {
            let t = gt(gp(1, 0, 0), gp(1, 1, 1), gp(1, 0, 1));
            assert(m[3] == t);
            assert(cross(t) == (1int, 0int, 0int)) by (nonlinear_arith)
                requires t == gt(gp(1, 0, 0), gp(1, 1, 1), gp(1, 0, 1));
        } else if i == 4 {
            let t = gt(gp(1, 0, 1), gp(1, 1, 1), gp(0, 1, 1));
            assert(m[4] == t);
            assert(cross(t) == (0int, 0int, 1int)) by (nonlinear_arith)
                requires t == gt(gp(1, 0, 1), gp(1, 1, 1), gp(0, 1, 1));
        } else if i == 5 {
            let t = gt(gp(1, 0, 1), gp(0, 1, 1), gp(0, 0, 1));
            assert(m[5] == t);
            assert(cross(t) == (0int, 0int, 1int)) by (nonlinear_arith)
                requires t == gt(gp(1, 0, 1), gp(0, 1, 1), gp(0, 0, 1));
        } else if i == 6 {
            let t = gt(gp(0, 0, 1), gp(0, 1, 1), gp(0, 1, 0));
            assert(m[6] == t);
            assert(cross(t) == (-1int, 0int, 0int)) by (nonlinear_arith)
                requires t == gt(gp(0, 0, 1), gp(0, 1, 1), gp(0, 1, 0));
        } else if i == 7 {
            let t = gt(gp(0, 0, 1), gp(0, 1, 0), gp(0, 0, 0));
            assert(m[7] == t);
            assert(cross(t) == (-1int, 0int, 0int)) by (nonlinear_arith)
                requires t == gt(gp(0, 0, 1), gp(0, 1, 0), gp(0, 0, 0));
        } else if i == 8 {
            let t = gt(gp(0, 1, 0), gp(0, 1, 1), gp(1, 1, 1));
            assert(m[8] == t);
            assert(cross(t) == (0int, 1int, 0int)) by (nonlinear_arith)
                requires t == gt(gp(0, 1, 0), gp(0, 1, 1), gp(1, 1, 1));
        } else if i == 9 {
            let t = gt(gp(0, 1, 0), gp(1, 1, 1), gp(1, 1, 0));
            assert(m[9] == t);
            assert(cross(t) == (0int, 1int, 0int)) by (nonlinear_arith)
                requires t == gt(gp(0, 1, 0), gp(1, 1, 1), gp(1, 1, 0));
        } else if i == 10 {
            let t = gt(gp(1, 0, 1), gp(0, 0, 1), gp(0, 0, 0));
            assert(m[10] == t);
            assert(cross(t) == (0int, -1int, 0int)) by (nonlinear_arith)
                requires t == gt(gp(1, 0, 1), gp(0, 0, 1), gp(0, 0, 0));
        } else if i == 11 {
            let t = gt(gp(1, 0, 1), gp(0, 0, 0), gp(1, 0, 0));
            assert(m[11] == t);
            assert(cross(t) == (0int, -1int, 0int)) by (nonlinear_arith)
                requires t == gt(gp(1, 0, 1), gp(0, 0, 0), gp(1, 0, 0));
        }
    }
}

} // verus!
