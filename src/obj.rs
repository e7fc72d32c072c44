use vstd::prelude::*;
use vstd::string::*;

use crate::text::{parse_i16, parse_i16_spec, span_texts, spans_within, token_spans, tokens};

verus! {

/// A triangle of a parsed mesh, as three 0-based positions in its vertex list.
#[derive(Clone, Copy, Debug, PartialEq, Eq, Structural)]
pub struct Face {
    pub a: usize,
    pub b: usize,
    pub c: usize,
}

/// Why a mesh file was rejected. `line` is the 1-based number of the line at
/// fault.
#[derive(Clone, Copy, Debug, PartialEq, Eq, Structural)]
pub enum ObjError {
    /// A `v` line with fewer than three coordinates.
    MissingCoordinate { line: usize },
    /// A token of an `f` line that is not a 16-bit signed integer.
    BadIndex { line: usize },
    /// An `f` line with fewer than three indices; `count` is how many it had.
    ShortFace { line: usize, count: usize },
    /// The first index of an `f` line that names no vertex read so far.
    IndexOutOfRange { line: usize, index: i16 },
}

/// A mesh read from OBJ text. Each vertex is kept as the coordinate tokens of
/// its `v` line (three or more, as written), for the caller to read as
/// numbers; each face of three or more indices has become triangles over
/// 0-based vertex positions.
pub struct ObjMesh {
    pub vertices: Vec<Vec<String>>,
    pub faces: Vec<Face>,
}

/// The abstract content of a mesh: the vertices' coordinate texts and the
/// triangles.
pub struct MeshModel {
    pub vertices: Seq<Seq<Seq<char>>>,
    pub faces: Seq<Face>,
}

pub open spec fn strings_view(v: Seq<String>) -> Seq<Seq<char>> {
    v.map_values(|s: String| s@)
}

impl ObjMesh {
    pub open spec fn view(&self) -> MeshModel {
        MeshModel {
            vertices: self.vertices@.map_values(|v: Vec<String>| strings_view(v@)),
            faces: self.faces@,
        }
    }
}

pub open spec fn face_within(f: Face, n: int) -> bool {
    f.a < n && f.b < n && f.c < n
}

/// Every vertex has at least three coordinates, and every triangle names
/// vertices that exist.
pub open spec fn model_wf(m: MeshModel) -> bool {
    &&& forall|v: int| 0 <= v < m.vertices.len() ==> (#[trigger] m.vertices[v]).len() >= 3
    &&& forall|f: int| 0 <= f < m.faces.len() ==> face_within(#[trigger] m.faces[f], m.vertices.len() as int)
}

impl ObjMesh {
    pub open spec fn wf(&self) -> bool {
        model_wf(self@)
    }
}

pub open spec fn empty_model() -> MeshModel {
    MeshModel { vertices: seq![], faces: seq![] }
}

/// The indices of a face's tokens, if every token parses as an `i16`.
pub open spec fn face_indices(toks: Seq<Seq<char>>) -> Option<Seq<i16>> {
    if forall|k: int| 0 <= k < toks.len() ==> (#[trigger] parse_i16_spec(toks[k])) is Some {
        Some(toks.map_values(|t: Seq<char>| parse_i16_spec(t)->0))
    } else {
        None
    }
}

pub open spec fn in_range(i: i16, n: int) -> bool {
    1 <= i <= n
}

/// The first of `idx` that is no 1-based position in a list of `n` vertices.
pub open spec fn first_out_of_range(idx: Seq<i16>, n: int) -> Option<i16>
    decreases idx.len(),
{
    if idx.len() == 0 {
        None
    } else if !in_range(idx[0], n) {
        Some(idx[0])
    } else {
        first_out_of_range(idx.drop_first(), n)
    }
}

pub open spec fn face_of(i: i16, j: i16, k: i16) -> Face {
    Face { a: (i - 1) as usize, b: (j - 1) as usize, c: (k - 1) as usize }
}

/// Triangulation of a face with 1-based indices `idx` (three or more): the
/// first triangle takes the first three indices, and for each further index
/// at position `i` the triangle `(i - 3, i - 1, i)` follows.
pub open spec fn fan(idx: Seq<i16>) -> Seq<Face> {
    Seq::new(
        (idx.len() - 2) as nat,
        |t: int|
            if t == 0 {
                face_of(idx[0], idx[1], idx[2])
            } else {
                face_of(idx[t - 1], idx[t + 1], idx[t + 2])
            },
    )
}

/// What one line, numbered `num`, does to the mesh read so far.
pub open spec fn step(m: MeshModel, line: Seq<char>, num: usize) -> Result<MeshModel, ObjError> {
    if line.len() > 0 && line[0] == 'v' && !(line.len() >= 2 && line[1] == 't') {
        let toks = tokens(line.drop_first());
        if toks.len() < 3 {
            Err(ObjError::MissingCoordinate { line: num })
        } else {
            Ok(MeshModel { vertices: m.vertices.push(toks), faces: m.faces })
        }
    } else if line.len() > 0 && line[0] == 'f' {
        let toks = tokens(line.drop_first());
        match face_indices(toks) {
            None => Err(ObjError::BadIndex { line: num }),
            Some(idx) => if idx.len() < 3 {
                Err(ObjError::ShortFace { line: num, count: idx.len() as usize })
            } else {
                match first_out_of_range(idx, m.vertices.len() as int) {
                    Some(i) => Err(ObjError::IndexOutOfRange { line: num, index: i }),
                    None => Ok(MeshModel { vertices: m.vertices, faces: m.faces + fan(idx) }),
                }
            },
        }
    } else {
        Ok(m)
    }
}

/// The mesh that the lines describe, read in order from an empty mesh; the
/// first line at fault decides the error.
pub open spec fn parse_lines(lines: Seq<Seq<char>>) -> Result<MeshModel, ObjError>
    decreases lines.len(),
{
    if lines.len() == 0 {
        Ok(empty_model())
    } else {
        match parse_lines(lines.drop_last()) {
            Err(e) => Err(e),
            Ok(m) => step(m, lines.last(), lines.len() as usize),
        }
    }
}

/// The texts of `spans` in `line`, as owned strings.
fn span_strings(line: &str, spans: &Vec<(usize, usize)>) -> (r: Vec<String>)
    requires
        spans_within(spans@, 0, line@.len() as int),
    ensures
        strings_view(r@) == span_texts(line@, spans@),
{
    let mut r: Vec<String> = Vec::new();
    let mut i: usize = 0;
    while i < spans.len()
        invariant
            i <= spans.len(),
            spans_within(spans@, 0, line@.len() as int),
            strings_view(r@) == span_texts(line@, spans@.take(i as int)),
        decreases spans.len() - i,
    {
        let (a, b) = spans[i];
        assert(a <= b <= line@.len()) by {
            assert(spans_within(spans@, 0, line@.len() as int));
            assert(spans@[i as int] == (a, b));
        }
        let piece = line.substring_char(a, b).to_owned();
        let ghost before = r@;
        r.push(piece);
        assert(strings_view(r@) =~= strings_view(before).push(piece@));
        assert(spans@.take(i as int + 1) =~= spans@.take(i as int).push((a, b)));
        assert(span_texts(line@, spans@.take(i as int + 1)) =~= span_texts(
            line@,
            spans@.take(i as int),
        ).push(line@.subrange(a as int, b as int)));
        i = i + 1;
    }
    assert(spans@.take(i as int) =~= spans@);
    r
}

/// Parses every span of `line` as an `i16`; `None` if one does not parse.
fn parse_indices(line: &str, spans: &Vec<(usize, usize)>) -> (r: Option<Vec<i16>>)
    requires
        spans_within(spans@, 0, line@.len() as int),
    ensures
        match face_indices(span_texts(line@, spans@)) {
            None => r is None,
            Some(idx) => r is Some && r->0@ == idx,
        },
{
    let ghost toks = span_texts(line@, spans@);
    let mut idx: Vec<i16> = Vec::new();
    let mut i: usize = 0;
    while i < spans.len()
        invariant
            i <= spans.len(),
            spans_within(spans@, 0, line@.len() as int),
            toks == span_texts(line@, spans@),
            idx@.len() == i,
            forall|k: int| 0 <= k < i ==> (#[trigger] parse_i16_spec(toks[k])) is Some,
            forall|k: int| 0 <= k < i ==> idx@[k] == parse_i16_spec(#[trigger] toks[k])->0,
        decreases spans.len() - i,
    {
        let (a, b) = spans[i];
        assert(a <= b <= line@.len()) by {
            assert(spans_within(spans@, 0, line@.len() as int));
            assert(spans@[i as int] == (a, b));
        }
        assert(toks[i as int] == line@.subrange(a as int, b as int));
        match parse_i16(line, a, b) {
            None => {
                assert(parse_i16_spec(toks[i as int]) is None);
                return None;
            },
            Some(v) => {
                idx.push(v);
            },
        }
        i = i + 1;
    }
    assert(idx@ =~= toks.map_values(|t: Seq<char>| parse_i16_spec(t)->0));
    Some(idx)
}

/// The first of `idx` that is no 1-based position among `n` vertices.
fn find_out_of_range(idx: &Vec<i16>, n: usize) -> (r: Option<i16>)
    ensures
        r == first_out_of_range(idx@, n as int),
{
    let mut i: usize = 0;
    assert(idx@.skip(0) =~= idx@);
    while i < idx.len()
        invariant
            i <= idx.len(),
            first_out_of_range(idx@, n as int) == first_out_of_range(idx@.skip(i as int), n as int),
        decreases idx.len() - i,
    {
        let v = idx[i];
        assert(idx@.skip(i as int)[0] == v);
        if v < 1 || v as usize > n {
            return Some(v);
        }
        assert(idx@.skip(i as int).drop_first() =~= idx@.skip(i as int + 1));
        i = i + 1;
    }
    None
}

proof fn lemma_none_out_of_range(idx: Seq<i16>, n: int)
    requires
        first_out_of_range(idx, n) is None,
    ensures
        forall|k: int| 0 <= k < idx.len() ==> in_range(#[trigger] idx[k], n),
    decreases idx.len(),
{
    if idx.len() > 0 {
        lemma_none_out_of_range(idx.drop_first(), n);
        assert forall|k: int| 0 <= k < idx.len() implies in_range(#[trigger] idx[k], n) by {
            if k > 0 {
                assert(idx[k] == idx.drop_first()[k - 1]);
            }
        }
    }
}

/// Appends the triangles of the face `idx` to `faces`.
fn append_fan(faces: &mut Vec<Face>, idx: &Vec<i16>)
    requires
        idx.len() >= 3,
        forall|k: int| 0 <= k < idx.len() ==> 1 <= #[trigger] idx@[k],
    ensures
        final(faces)@ == old(faces)@ + fan(idx@),
{
    let ghost base = old(faces)@;
    let ghost f = fan(idx@);
    let first = Face { a: (idx[0] - 1) as usize, b: (idx[1] - 1) as usize, c: (idx[2] - 1) as usize };
    faces.push(first);
    assert(f[0] == first);
    let mut i: usize = 3;
    while i < idx.len()
        invariant
            3 <= i <= idx.len(),
            forall|k: int| 0 <= k < idx.len() ==> 1 <= #[trigger] idx@[k],
            f == fan(idx@),
            faces@ == base + f.take(i as int - 2),
        decreases idx.len() - i,
    {
        let t = Face {
            a: (idx[i - 3] - 1) as usize,
            b: (idx[i - 1] - 1) as usize,
            c: (idx[i] - 1) as usize,
        };
        assert(f[i - 2] == t);
        faces.push(t);
        assert(f.take(i as int - 1) =~= f.take(i as int - 2).push(t));
        i = i + 1;
    }
    assert(f.take(i as int - 2) =~= f);
}

impl ObjMesh {
    /// A mesh with no vertices and no faces.
    pub fn new() -> (r: ObjMesh)
        ensures
            r@ == empty_model(),
            r.wf(),
    {
        let r = ObjMesh { vertices: Vec::new(), faces: Vec::new() };
        assert(r@.vertices =~= empty_model().vertices);
        assert(r@.faces =~= empty_model().faces);
        r
    }

    /// Reads one line of OBJ text, numbered `num`. A `v` line (but not a `vt`
    /// line) adds a vertex; an `f` line adds its triangles; other lines,
    /// empty ones included, change nothing. On an error the mesh is not to be
    /// used further.
    pub fn add_line(&mut self, line: &str, num: usize) -> (r: Result<(), ObjError>)
        ensures
            match step(old(self)@, line@, num) {
                Ok(m) => r is Ok && final(self)@ == m,
                Err(e) => r == Err::<(), ObjError>(e),
            },
    {
        let n = line.unicode_len();
        if n == 0 {
            return Ok(());
        }
        let c0 = line.get_char(0);
        if c0 == 'v' {
            if n >= 2 && line.get_char(1) == 't' {
                return Ok(());
            }
            let spans = token_spans(line, 1);
            assert(line@.subrange(1, n as int) =~= line@.drop_first());
            if spans.len() < 3 {
                return Err(ObjError::MissingCoordinate { line: num });
            }
            let coords = span_strings(line, &spans);
            self.vertices.push(coords);
            assert(self@.vertices =~= old(self)@.vertices.push(tokens(line@.drop_first())));
            proof {
                if old(self).wf() {
                    lemma_step_wf(old(self)@, line@, num);
                }
            }
            Ok(())
        } else if c0 == 'f' {
            let spans = token_spans(line, 1);
            assert(line@.subrange(1, n as int) =~= line@.drop_first());
            let idx = match parse_indices(line, &spans) {
                None => {
                    return Err(ObjError::BadIndex { line: num });
                },
                Some(idx) => idx,
            };
            if idx.len() < 3 {
                return Err(ObjError::ShortFace { line: num, count: idx.len() });
            }
            match find_out_of_range(&idx, self.vertices.len()) {
                Some(i) => {
                    return Err(ObjError::IndexOutOfRange { line: num, index: i });
                },
                None => {},
            }
            proof {
                lemma_none_out_of_range(idx@, self.vertices@.len() as int);
            }
            append_fan(&mut self.faces, &idx);
            proof {
                if old(self).wf() {
                    lemma_step_wf(old(self)@, line@, num);
                }
            }
            Ok(())
        } else {
            Ok(())
        }
    }
}

/// Once a line is at fault, the lines after it do not change the outcome.
proof fn lemma_error_persists(lines: Seq<Seq<char>>, j: int, k: int)
    requires
        0 <= j <= k <= lines.len(),
        parse_lines(lines.take(j)) is Err,
    ensures
        parse_lines(lines.take(k)) == parse_lines(lines.take(j)),
    decreases k - j,
{
    if k > j {
        lemma_error_persists(lines, j, k - 1);
        assert(lines.take(k).drop_last() =~= lines.take(k - 1));
    }
}

proof fn lemma_step_wf(m: MeshModel, line: Seq<char>, num: usize)
    requires
        model_wf(m),
        step(m, line, num) is Ok,
    ensures
        model_wf(step(m, line, num)->Ok_0),
{
    let m2 = step(m, line, num)->Ok_0;
    if line.len() > 0 && line[0] == 'f' {
        let idx = face_indices(tokens(line.drop_first()))->0;
        let n = m.vertices.len() as int;
        lemma_none_out_of_range(idx, n);
        let f = fan(idx);
        assert forall|k: int| 0 <= k < m2.faces.len() implies face_within(#[trigger] m2.faces[k], n) by {
            if k >= m.faces.len() {
                let t = k - m.faces.len();
                assert(m2.faces[k] == f[t]);
                if t == 0 {
                    assert(in_range(idx[0], n) && in_range(idx[1], n) && in_range(idx[2], n));
                } else {
                    assert(in_range(idx[t - 1], n) && in_range(idx[t + 1], n) && in_range(idx[t + 2], n));
                }
            }
        }
    } else if line.len() > 0 && line[0] == 'v' && !(line.len() >= 2 && line[1] == 't') {
        assert forall|k: int| 0 <= k < m2.faces.len() implies face_within(
            #[trigger] m2.faces[k],
            m2.vertices.len() as int,
        ) by {
            assert(face_within(m.faces[k], m.vertices.len() as int));
        }
    }
}

/// Whatever the lines, a mesh that they parse to is well formed.
proof fn lemma_parse_wf(lines: Seq<Seq<char>>)
    requires
        parse_lines(lines) is Ok,
    ensures
        model_wf(parse_lines(lines)->Ok_0),
    decreases lines.len(),
{
    if lines.len() > 0 {
        lemma_parse_wf(lines.drop_last());
        lemma_step_wf(parse_lines(lines.drop_last())->Ok_0, lines.last(), lines.len() as usize);
    }
}

/// Reads a whole OBJ text, given as its lines, into a mesh.
pub fn parse_obj(lines: &Vec<String>) -> (r: Result<ObjMesh, ObjError>)
    ensures
        match parse_lines(strings_view(lines@)) {
            Ok(m) => r is Ok && r->Ok_0@ == m,
            Err(e) => r is Err && r->Err_0 == e,
        },
        r is Ok ==> r->Ok_0.wf(),
{
    let ghost all = strings_view(lines@);
    let mut mesh = ObjMesh::new();
    let mut i: usize = 0;
    assert(all.take(0) =~= seq![]);
    while i < lines.len()
        invariant
            i <= lines.len(),
            all == strings_view(lines@),
            parse_lines(all.take(i as int)) == Ok::<MeshModel, ObjError>(mesh@),
        decreases lines.len() - i,
    {
        assert(all.take(i as int + 1).drop_last() =~= all.take(i as int));
        assert(all.take(i as int + 1).last() == lines@[i as int]@);
        match mesh.add_line(lines[i].as_str(), i + 1) {
            Err(e) => {
                proof {
                    lemma_error_persists(all, i + 1, all.len() as int);
                    assert(all.take(all.len() as int) =~= all);
                }
                return Err(e);
            },
            Ok(()) => {},
        }
        i = i + 1;
    }
    assert(all.take(i as int) =~= all);
    proof {
        lemma_parse_wf(all);
    }
    Ok(mesh)
}

/// A face line with four valid indices `i1 i2 i3 i4` adds exactly the two
/// triangles `(i1, i2, i3)` and `(i1, i3, i4)`, and no vertex.
pub proof fn lemma_quad_face(m: MeshModel, line: Seq<char>, num: usize, i1: i16, i2: i16, i3: i16, i4: i16)
    requires
        line.len() > 0 && line[0] == 'f',
        face_indices(tokens(line.drop_first())) == Some(seq![i1, i2, i3, i4]),
        in_range(i1, m.vertices.len() as int),
        in_range(i2, m.vertices.len() as int),
        in_range(i3, m.vertices.len() as int),
        in_range(i4, m.vertices.len() as int),
    ensures
        step(m, line, num) == Ok::<MeshModel, ObjError>(
            MeshModel {
                vertices: m.vertices,
                faces: m.faces + seq![face_of(i1, i2, i3), face_of(i1, i3, i4)],
            },
        ),
{
    let idx = seq![i1, i2, i3, i4];
    let n = m.vertices.len() as int;
    assert(idx.drop_first() =~= seq![i2, i3, i4]);
    assert(seq![i2, i3, i4].drop_first() =~= seq![i3, i4]);
    assert(seq![i3, i4].drop_first() =~= seq![i4]);
    assert(seq![i4].drop_first() =~= Seq::<i16>::empty());
    assert(first_out_of_range(Seq::<i16>::empty(), n) is None);
    assert(first_out_of_range(seq![i4], n) is None);
    assert(first_out_of_range(seq![i3, i4], n) is None);
    assert(first_out_of_range(seq![i2, i3, i4], n) is None);
    assert(first_out_of_range(idx, n) is None);
    assert(fan(idx) =~= seq![face_of(i1, i2, i3), face_of(i1, i3, i4)]);
}

/// A file fails as soon as a face line gives fewer than three indices: the
/// whole parse ends in `ShortFace` for that line, whatever follows it.
pub proof fn lemma_short_face_fails(lines: Seq<Seq<char>>, j: int)
    requires
        0 <= j < lines.len(),
        lines.len() <= usize::MAX,
        parse_lines(lines.take(j)) is Ok,
        lines[j].len() > 0 && lines[j][0] == 'f',
        face_indices(tokens(lines[j].drop_first())) is Some,
        face_indices(tokens(lines[j].drop_first()))->0.len() < 3,
    ensures
        parse_lines(lines) == Err::<MeshModel, ObjError>(
            ObjError::ShortFace {
                line: (j + 1) as usize,
                count: face_indices(tokens(lines[j].drop_first()))->0.len() as usize,
            },
        ),
{
    assert(lines.take(j + 1).drop_last() =~= lines.take(j));
    assert(lines.take(j + 1).last() == lines[j]);
    lemma_error_persists(lines, j + 1, lines.len() as int);
    assert(lines.take(lines.len() as int) =~= lines);
}

} // verus!
