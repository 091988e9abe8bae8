//! A triangulated surface: vertex records laid out by an `AttribArray`, and
//! faces that name three of them; and its packing into flat buffers.
use vstd::prelude::*;
use crate::layout::{
    AttribArray, AttribType, LayoutView, lemma_attrib_in_record, is_last_named, has_no_name,
    is_first_of_type, has_no_type, missing_name_message, missing_type_message, last_named,
    first_of_type, lemma_last_named, lemma_first_of_type,
};

verus! {

/// One triangle, by the indices of its three corners.
#[derive(Clone, Copy, PartialEq, Eq, Debug, Structural)]
pub struct Face {
    v1: usize,
    v2: usize,
    v3: usize,
}

impl View for Face {
    type V = (usize, usize, usize);

    closed spec fn view(&self) -> (usize, usize, usize) {
        (self.v1, self.v2, self.v3)
    }
}

impl Face {
    pub fn new(v1: usize, v2: usize, v3: usize) -> (r: Face)
        ensures
            r@ == (v1, v2, v3),
    {
        Face { v1, v2, v3 }
    }

    pub fn v1(&self) -> (r: usize)
        ensures
            r == self@.0,
    {
        self.v1
    }

    pub fn v2(&self) -> (r: usize)
        ensures
            r == self@.1,
    {
        self.v2
    }

    pub fn v3(&self) -> (r: usize)
        ensures
            r == self@.2,
    {
        self.v3
    }
}

/// The corner indices of a list of faces.
pub open spec fn faces_view(fs: Seq<Face>) -> Seq<(usize, usize, usize)> {
    fs.map_values(|f: Face| f@)
}

/// The records' contents.
pub open spec fn records_view<T>(vs: Seq<Vec<T>>) -> Seq<Seq<T>> {
    vs.map_values(|v: Vec<T>| v@)
}

/// Every record has `stride` components.
pub open spec fn records_fit<T>(vs: Seq<Seq<T>>, stride: nat) -> bool {
    forall|i: int| 0 <= i < vs.len() ==> (#[trigger] vs[i]).len() == stride
}

/// The face names only vertices below `n`.
pub open spec fn face_fits(f: (usize, usize, usize), n: nat) -> bool {
    f.0 < n && f.1 < n && f.2 < n
}

/// Every face names only vertices below `n`.
pub open spec fn faces_fit(fs: Seq<(usize, usize, usize)>, n: nat) -> bool {
    forall|i: int| 0 <= i < fs.len() ==> face_fits(#[trigger] fs[i], n)
}

/// All records, one after another.
pub open spec fn flatten<T>(vs: Seq<Seq<T>>) -> Seq<T>
    decreases vs.len(),
{
    if vs.len() == 0 {
        Seq::empty()
    } else {
        flatten(vs.drop_last()) + vs.last()
    }
}

/// For each face in order, the records of its three corners.
pub open spec fn expanded<T>(vs: Seq<Seq<T>>, fs: Seq<(usize, usize, usize)>) -> Seq<T>
    decreases fs.len(),
{
    if fs.len() == 0 {
        Seq::empty()
    } else {
        let f = fs.last();
        expanded(vs, fs.drop_last()) + vs[f.0 as int] + vs[f.1 as int] + vs[f.2 as int]
    }
}

/// For each face in order, its three corner indices as 16-bit values.
pub open spec fn index_list(fs: Seq<(usize, usize, usize)>) -> Seq<u16>
    decreases fs.len(),
{
    if fs.len() == 0 {
        Seq::empty()
    } else {
        let f = fs.last();
        index_list(fs.drop_last()) + seq![f.0 as u16, f.1 as u16, f.2 as u16]
    }
}

/// `after` is `before` with the three components at `offset` replaced by
/// what `f` returned for them, and nothing else changed.
pub open spec fn applied_3<T, F: Fn(T, T, T) -> (T, T, T)>(
    before: Seq<T>,
    after: Seq<T>,
    offset: int,
    f: F,
) -> bool {
    &&& after.len() == before.len()
    &&& forall|c: int|
        0 <= c < before.len() && !(offset <= c < offset + 3) ==> #[trigger] after[c] == before[c]
    &&& f.ensures(
        (before[offset], before[offset + 1], before[offset + 2]),
        (after[offset], after[offset + 1], after[offset + 2]),
    )
}

/// Each record of `after` is the matching record of `before` with `f`
/// applied at `offset`.
pub open spec fn all_applied_3<T, F: Fn(T, T, T) -> (T, T, T)>(
    before: Seq<Seq<T>>,
    after: Seq<Seq<T>>,
    offset: int,
    f: F,
) -> bool {
    &&& after.len() == before.len()
    &&& forall|i: int| 0 <= i < before.len() ==> applied_3(before[i], #[trigger] after[i], offset, f)
}

/// `w` is a record that `f` may return for the record `v`.
pub open spec fn maps_record<T, F: Fn(&Vec<T>) -> Vec<T>>(f: F, v: Seq<T>, w: Seq<T>) -> bool {
    exists|a: Vec<T>, b: Vec<T>| a@ == v && b@ == w && #[trigger] f.ensures((&a,), b)
}

/// The outcome of applying `f` at the attribute `i` of `before`'s layout:
/// refused, with `after` unchanged, where it has fewer than three components;
/// otherwise `f` applied there to every record.
pub open spec fn transformed_at<T, F: Fn(T, T, T) -> (T, T, T)>(
    before: MeshView<T>,
    after: MeshView<T>,
    r: Result<(), MeshError>,
    i: int,
    f: F,
) -> bool {
    if before.layout.attribs[i].length < 3 {
        r == Err::<(), MeshError>(MeshError::ShortAttrib)
    } else {
        &&& r is Ok
        &&& after.faces == before.faces
        &&& after.layout == before.layout
        &&& all_applied_3(before.vertices, after.vertices, before.layout.attribs[i].offset as int, f)
    }
}

/// Largest vertex count that 16-bit indices can address.
pub const MAX_INDEXED_VERTICES: usize = 65535;

/// Why a mesh operation refused its input.
#[derive(PartialEq, Eq, Debug)]
pub enum MeshError {
    /// A vertex record whose length is not the layout's stride.
    VertexLength,
    /// A face that names a vertex the mesh does not hold.
    FaceIndex,
    /// An attribute lookup that found nothing, with its message.
    Attrib(String),
    /// An attribute with fewer than the three components the operation needs.
    ShortAttrib,
    /// More vertices than 16-bit indices can address.
    TooManyVertices,
}

/// What a mesh holds, as mathematical values.
pub ghost struct MeshView<T> {
    pub vertices: Seq<Seq<T>>,
    pub faces: Seq<(usize, usize, usize)>,
    pub layout: LayoutView,
}

impl<T> MeshView<T> {
    /// Every record fits the layout and every face names held vertices.
    pub open spec fn wf(self) -> bool {
        &&& self.layout.wf()
        &&& records_fit(self.vertices, self.layout.stride)
        &&& faces_fit(self.faces, self.vertices.len())
    }
}

/// Vertex records over the scalar `T` and the triangles between them.
pub struct Mesh<T> {
    vertices: Vec<Vec<T>>,
    faces: Vec<Face>,
    attribs: AttribArray,
}

impl<T> View for Mesh<T> {
    type V = MeshView<T>;

    closed spec fn view(&self) -> MeshView<T> {
        MeshView {
            vertices: records_view(self.vertices@),
            faces: faces_view(self.faces@),
            layout: self.attribs@,
        }
    }
}

impl<T: Copy> Mesh<T> {
    pub open spec fn wf(&self) -> bool {
        self@.wf()
    }

    /// A mesh of the given records and faces; refused where a record does not
    /// have the layout's stride, or else where a face names a missing vertex.
    pub fn new(vertices: Vec<Vec<T>>, faces: Vec<Face>, attribs: AttribArray) -> (r: Result<
        Mesh<T>,
        MeshError,
    >)
        ensures
            !records_fit(records_view(vertices@), attribs@.stride) ==> r
                == Err::<Mesh<T>, MeshError>(MeshError::VertexLength),
            records_fit(records_view(vertices@), attribs@.stride) && !faces_fit(
                faces_view(faces@),
                vertices@.len(),
            ) ==> r == Err::<Mesh<T>, MeshError>(MeshError::FaceIndex),
            r is Ok <==> records_fit(records_view(vertices@), attribs@.stride)
                && faces_fit(faces_view(faces@), vertices@.len()),
            r matches Ok(m) ==> m.wf() && m@ == (MeshView {
                vertices: records_view(vertices@),
                faces: faces_view(faces@),
                layout: attribs@,
            }),
    {
        proof {
            use_type_invariant(&attribs);
        }
        let stride = attribs.stride();
        let mut i: usize = 0;
        while i < vertices.len()
            invariant
                i <= vertices@.len(),
                stride == attribs@.stride,
                forall|k: int| 0 <= k < i ==> (#[trigger] vertices@[k])@.len() == stride,
            decreases vertices@.len() - i,
        {
            if vertices[i].len() != stride {
                proof {
                    assert(records_view(vertices@)[i as int].len() != stride);
                }
                return Err(MeshError::VertexLength);
            }
            i += 1;
        }
        proof {
            assert forall|k: int| 0 <= k < vertices@.len() implies (#[trigger] records_view(vertices@)[k]).len() == stride by {
                assert(vertices@[k]@.len() == stride);
            }
        }
        let n = vertices.len();
        let mut j: usize = 0;
        while j < faces.len()
            invariant
                j <= faces@.len(),
                n == vertices@.len(),
                records_fit(records_view(vertices@), attribs@.stride),
                forall|k: int| 0 <= k < j ==> face_fits((#[trigger] faces@[k])@, n as nat),
            decreases faces@.len() - j,
        {
            if !(faces[j].v1 < n && faces[j].v2 < n && faces[j].v3 < n) {
                proof {
                    assert(faces_view(faces@)[j as int] == faces@[j as int]@);
                }
                return Err(MeshError::FaceIndex);
            }
            j += 1;
        }
        proof {
            assert forall|k: int| 0 <= k < faces@.len() implies face_fits(
                #[trigger] faces_view(faces@)[k],
                n as nat,
            ) by {
                assert(faces_view(faces@)[k] == faces@[k]@);
            }
        }
        Ok(Mesh { vertices, faces, attribs })
    }

    /// A mesh with no vertex and no face.
    pub fn empty(attribs: AttribArray) -> (r: Mesh<T>)
        ensures
            r.wf(),
            r@.vertices.len() == 0,
            r@.faces.len() == 0,
            r@.layout == attribs@,
    {
        proof {
            use_type_invariant(&attribs);
        }
        let r = Mesh { vertices: Vec::new(), faces: Vec::new(), attribs };
        assert(r@.vertices =~= Seq::<Seq<T>>::empty());
        assert(r@.faces =~= Seq::<(usize, usize, usize)>::empty());
        r
    }

    pub fn attribs(&self) -> (r: &AttribArray)
        ensures
            r@ == self@.layout,
    {
        &self.attribs
    }

    pub fn faces(&self) -> (r: &Vec<Face>)
        ensures
            faces_view(r@) == self@.faces,
    {
        &self.faces
    }

    pub fn vertex(&self, index: usize) -> (r: &Vec<T>)
        requires
            index < self@.vertices.len(),
        ensures
            r@ == self@.vertices[index as int],
    {
        &self.vertices[index]
    }

    pub fn vertex_count(&self) -> (r: usize)
        ensures
            r == self@.vertices.len(),
    {
        self.vertices.len()
    }

    pub fn vertices(&self) -> (r: &Vec<Vec<T>>)
        ensures
            records_view(r@) == self@.vertices,
    {
        &self.vertices
    }

    /// Appends a record; refused, leaving the mesh as it was, unless its
    /// length is the layout's stride.
    pub fn push_vertex(&mut self, vec: Vec<T>) -> (r: Result<(), MeshError>)
        requires
            old(self).wf(),
        ensures
            final(self).wf(),
            r is Ok <==> vec@.len() == old(self)@.layout.stride,
            r is Ok ==> final(self)@ == (MeshView {
                vertices: old(self)@.vertices.push(vec@),
                ..old(self)@
            }),
            r is Err ==> r == Err::<(), MeshError>(MeshError::VertexLength) && final(self)@ == old(
                self,
            )@,
    {
        if vec.len() != self.attribs.stride() {
            return Err(MeshError::VertexLength);
        }
        let ghost before = self@;
        self.vertices.push(vec);
        proof {
            assert(self@.vertices =~= before.vertices.push(vec@));
            assert forall|k: int| 0 <= k < self@.faces.len() implies face_fits(
                #[trigger] self@.faces[k],
                self@.vertices.len(),
            ) by {
                assert(face_fits(before.faces[k], before.vertices.len()));
            }
        }
        Ok(())
    }

    /// Replaces the record at `index`; refused, leaving the mesh as it was,
    /// unless the new record's length is the layout's stride.
    pub fn set_vertex(&mut self, index: usize, vec: Vec<T>) -> (r: Result<(), MeshError>)
        requires
            old(self).wf(),
            index < old(self)@.vertices.len(),
        ensures
            final(self).wf(),
            r is Ok <==> vec@.len() == old(self)@.layout.stride,
            r is Ok ==> final(self)@ == (MeshView {
                vertices: old(self)@.vertices.update(index as int, vec@),
                ..old(self)@
            }),
            r is Err ==> r == Err::<(), MeshError>(MeshError::VertexLength) && final(self)@ == old(
                self,
            )@,
    {
        if vec.len() != self.attribs.stride() {
            return Err(MeshError::VertexLength);
        }
        let ghost before = self@;
        self.vertices.set(index, vec);
        proof {
            assert(self@.vertices =~= before.vertices.update(index as int, vec@));
            assert forall|k: int| 0 <= k < self@.faces.len() implies face_fits(
                #[trigger] self@.faces[k],
                self@.vertices.len(),
            ) by {
                assert(face_fits(before.faces[k], before.vertices.len()));
            }
        }
        Ok(())
    }

    /// Appends all records, or none where one has the wrong length.
    pub fn push_vertices(&mut self, vecs: Vec<Vec<T>>) -> (r: Result<(), MeshError>)
        requires
            old(self).wf(),
        ensures
            final(self).wf(),
            r is Ok <==> records_fit(records_view(vecs@), old(self)@.layout.stride),
            r is Ok ==> final(self)@ == (MeshView {
                vertices: old(self)@.vertices + records_view(vecs@),
                ..old(self)@
            }),
            r is Err ==> r == Err::<(), MeshError>(MeshError::VertexLength) && final(self)@ == old(
                self,
            )@,
    {
        let stride = self.attribs.stride();
        let mut i: usize = 0;
        while i < vecs.len()
            invariant
                i <= vecs@.len(),
                self@ == old(self)@,
                self.wf(),
                stride == self@.layout.stride,
                forall|k: int| 0 <= k < i ==> (#[trigger] vecs@[k])@.len() == stride,
            decreases vecs@.len() - i,
        {
            if vecs[i].len() != stride {
                proof {
                    assert(records_view(vecs@)[i as int].len() != stride);
                }
                return Err(MeshError::VertexLength);
            }
            i += 1;
        }
        let ghost before = self@;
        let ghost added = records_view(vecs@);
        let mut vecs = vecs;
        self.vertices.append(&mut vecs);
        proof {
            assert(self@.vertices =~= before.vertices + added);
            assert forall|k: int| 0 <= k < self@.vertices.len() implies (
            #[trigger] self@.vertices[k]).len() == stride by {
                if k >= before.vertices.len() {
                    assert(self@.vertices[k] == added[k - before.vertices.len()]);
                }
            }
            assert forall|k: int| 0 <= k < self@.faces.len() implies face_fits(
                #[trigger] self@.faces[k],
                self@.vertices.len(),
            ) by {
                assert(face_fits(before.faces[k], before.vertices.len()));
            }
        }
        Ok(())
    }

    /// Appends a face; refused, leaving the mesh as it was, where it names a
    /// vertex the mesh does not hold.
    pub fn push_face(&mut self, face: Face) -> (r: Result<(), MeshError>)
        requires
            old(self).wf(),
        ensures
            final(self).wf(),
            r is Ok <==> face_fits(face@, old(self)@.vertices.len()),
            r is Ok ==> final(self)@ == (MeshView { faces: old(self)@.faces.push(face@), ..old(self)@ }),
            r is Err ==> r == Err::<(), MeshError>(MeshError::FaceIndex) && final(self)@ == old(self)@,
    {
        let n = self.vertices.len();
        if !(face.v1 < n && face.v2 < n && face.v3 < n) {
            return Err(MeshError::FaceIndex);
        }
        let ghost before = self@;
        self.faces.push(face);
        assert(self@.faces =~= before.faces.push(face@));
        Ok(())
    }

    /// Appends all faces, or none where one names a vertex the mesh does not
    /// hold.
    pub fn push_faces(&mut self, vecs: Vec<Face>) -> (r: Result<(), MeshError>)
        requires
            old(self).wf(),
        ensures
            final(self).wf(),
            r is Ok <==> faces_fit(faces_view(vecs@), old(self)@.vertices.len()),
            r is Ok ==> final(self)@ == (MeshView {
                faces: old(self)@.faces + faces_view(vecs@),
                ..old(self)@
            }),
            r is Err ==> r == Err::<(), MeshError>(MeshError::FaceIndex) && final(self)@ == old(self)@,
    {
        let n = self.vertices.len();
        let mut j: usize = 0;
        while j < vecs.len()
            invariant
                j <= vecs@.len(),
                n == self@.vertices.len(),
                self@ == old(self)@,
                self.wf(),
                forall|k: int| 0 <= k < j ==> face_fits((#[trigger] vecs@[k])@, n as nat),
            decreases vecs@.len() - j,
        {
            if !(vecs[j].v1 < n && vecs[j].v2 < n && vecs[j].v3 < n) {
                assert(faces_view(vecs@)[j as int] == vecs@[j as int]@);
                return Err(MeshError::FaceIndex);
            }
            j += 1;
        }
        let ghost before = self@;
        let ghost added = faces_view(vecs@);
        assert forall|k: int| 0 <= k < vecs@.len() implies face_fits(#[trigger] added[k], n as nat) by {
            assert(added[k] == vecs@[k]@);
        }
        let mut vecs = vecs;
        self.faces.append(&mut vecs);
        assert(self@.faces =~= before.faces + added);
        assert forall|k: int| 0 <= k < self@.faces.len() implies face_fits(
            #[trigger] self@.faces[k],
            n as nat,
        ) by {
            if k < before.faces.len() {
                assert(face_fits(before.faces[k], n as nat));
            } else {
                assert(self@.faces[k] == added[k - before.faces.len()]);
            }
        }
        Ok(())
    }

    /// Replaces, in every record, the three components at `offset` by what
    /// `f` returns for them.
    pub fn apply_to_3<F: Fn(T, T, T) -> (T, T, T)>(&mut self, offset: usize, f: F)
        requires
            old(self).wf(),
            offset + 3 <= old(self)@.layout.stride,
            forall|a: T, b: T, c: T| f.requires((a, b, c)),
        ensures
            final(self).wf(),
            final(self)@.faces == old(self)@.faces,
            final(self)@.layout == old(self)@.layout,
            all_applied_3(old(self)@.vertices, final(self)@.vertices, offset as int, f),
    {
        let ghost before = self@;
        let stride = self.attribs.stride();
        let n = self.vertices.len();
        let mut i: usize = 0;
        while i < n
            invariant
                i <= n,
                n == before.vertices.len(),
                stride == before.layout.stride,
                offset + 3 <= before.layout.stride,
                forall|a: T, b: T, c: T| f.requires((a, b, c)),
                self.wf(),
                self@.faces == before.faces,
                self@.layout == before.layout,
                self@.vertices.len() == n,
                forall|k: int| 0 <= k < i ==> applied_3(before.vertices[k], #[trigger] self@.vertices[k], offset as int, f),
                forall|k: int| i <= k < n ==> #[trigger] self@.vertices[k] == before.vertices[k],
            decreases n - i,
        {
            assert(self@.vertices[i as int] == self.vertices@[i as int]@);
            let x = self.vertices[i][offset];
            let y = self.vertices[i][offset + 1];
            let z = self.vertices[i][offset + 2];
            let (a, b, c) = f(x, y, z);
            let ghost mid = self@;
            self.vertices[i][offset] = a;
            self.vertices[i][offset + 1] = b;
            self.vertices[i][offset + 2] = c;
            proof {
                assert forall|k: int| 0 <= k < n && k != i implies #[trigger] self@.vertices[k] == mid.vertices[k] by {
                    assert(self@.vertices[k] == self.vertices@[k]@);
                }
                assert(self@.vertices[i as int] == self.vertices@[i as int]@);
                assert(faces_fit(self@.faces, self@.vertices.len()));
            }
            i += 1;
        }
    }

    /// Moves every position by `shift`, which maps the three components of a
    /// position to the moved ones. Refused, leaving the mesh as it was, where
    /// the layout has no `Position` attribute or the first has fewer than
    /// three components.
    pub fn translate<F: Fn(T, T, T) -> (T, T, T)>(&mut self, shift: F) -> (r: Result<(), MeshError>)
        requires
            old(self).wf(),
            forall|a: T, b: T, c: T| shift.requires((a, b, c)),
        ensures
            final(self).wf(),
            r is Err ==> final(self)@ == old(self)@,
            has_no_type(old(self)@.layout, AttribType::Position) <==> r matches Err(
                MeshError::Attrib(_),
            ),
            r matches Err(MeshError::Attrib(m)) ==> m@ == missing_type_message(AttribType::Position),
            !has_no_type(old(self)@.layout, AttribType::Position) ==> transformed_at(
                old(self)@,
                final(self)@,
                r,
                first_of_type(old(self)@.layout, AttribType::Position),
                shift,
            ),
    {
        let offset = match self.attribs.by_type(AttribType::Position) {
            Ok(a) => {
                let ghost i = choose|i: int| is_first_of_type(self@.layout, AttribType::Position, i) && a@ == self@.layout.attribs[i];
                proof {
                    lemma_first_of_type(self@.layout, AttribType::Position, i);
                    lemma_attrib_in_record(self@.layout, i);
                }
                if a.length() < 3 {
                    return Err(MeshError::ShortAttrib);
                }
                a.offset()
            },
            Err(m) => {
                return Err(MeshError::Attrib(m));
            },
        };
        self.apply_to_3(offset, shift);
        Ok(())
    }

    /// Rescales the first three components of the attribute called
    /// `attrib_name` (the last one of that name) in every record with `unit`,
    /// which maps three components to the rescaled ones. Refused, leaving the
    /// mesh as it was, where no attribute has that name or it has fewer than
    /// three components.
    pub fn normalize<F: Fn(T, T, T) -> (T, T, T)>(&mut self, attrib_name: &str, unit: F) -> (r:
        Result<(), MeshError>)
        requires
            old(self).wf(),
            forall|a: T, b: T, c: T| unit.requires((a, b, c)),
        ensures
            final(self).wf(),
            r is Err ==> final(self)@ == old(self)@,
            has_no_name(old(self)@.layout, attrib_name@) <==> r matches Err(MeshError::Attrib(_)),
            r matches Err(MeshError::Attrib(m)) ==> m@ == missing_name_message(attrib_name@),
            !has_no_name(old(self)@.layout, attrib_name@) ==> transformed_at(
                old(self)@,
                final(self)@,
                r,
                last_named(old(self)@.layout, attrib_name@),
                unit,
            ),
    {
        let offset = match self.attribs.by_name(attrib_name) {
            Ok(a) => {
                let ghost i = choose|i: int| is_last_named(self@.layout, attrib_name@, i) && a@ == self@.layout.attribs[i];
                proof {
                    lemma_last_named(self@.layout, attrib_name@, i);
                    lemma_attrib_in_record(self@.layout, i);
                }
                if a.length() < 3 {
                    return Err(MeshError::ShortAttrib);
                }
                a.offset()
            },
            Err(m) => {
                return Err(MeshError::Attrib(m));
            },
        };
        self.apply_to_3(offset, unit);
        Ok(())
    }

    /// Replaces every record by what `f` returns for it. Refused, leaving the
    /// mesh as it was, where a returned record does not have the layout's
    /// stride.
    pub fn apply_on_vertices<F: Fn(&Vec<T>) -> Vec<T>>(&mut self, f: F) -> (r: Result<(), MeshError>)
        requires
            old(self).wf(),
            forall|v: &Vec<T>| v@.len() == old(self)@.layout.stride ==> f.requires((v,)),
        ensures
            final(self).wf(),
            r is Err ==> r == Err::<(), MeshError>(MeshError::VertexLength) && final(self)@ == old(self)@,
            r is Err ==> exists|i: int, w: Seq<T>|
                0 <= i < old(self)@.vertices.len() && w.len() != old(self)@.layout.stride
                    && #[trigger] maps_record(f, old(self)@.vertices[i], w),
            r is Ok ==> {
                &&& final(self)@.faces == old(self)@.faces
                &&& final(self)@.layout == old(self)@.layout
                &&& final(self)@.vertices.len() == old(self)@.vertices.len()
                &&& forall|i: int|
                    0 <= i < old(self)@.vertices.len() ==> maps_record(
                        f,
                        old(self)@.vertices[i],
                        #[trigger] final(self)@.vertices[i],
                    )
            },
    {
        let stride = self.attribs.stride();
        let n = self.vertices.len();
        let mut out: Vec<Vec<T>> = Vec::with_capacity(n);
        let mut i: usize = 0;
        while i < n
            invariant
                i <= n,
                n == self@.vertices.len(),
                stride == self@.layout.stride,
                self.wf(),
                self@ == old(self)@,
                forall|v: &Vec<T>| v@.len() == stride ==> f.requires((v,)),
                out@.len() == i,
                forall|k: int| 0 <= k < i ==> (#[trigger] out@[k])@.len() == stride,
                forall|k: int| 0 <= k < i ==> f.ensures((&self.vertices@[k],), #[trigger] out@[k]),
            decreases n - i,
        {
            assert(self.vertices@[i as int]@ == self@.vertices[i as int]);
            let w = f(&self.vertices[i]);
            if w.len() != stride {
                assert(maps_record(f, self@.vertices[i as int], w@));
                return Err(MeshError::VertexLength);
            }
            out.push(w);
            i += 1;
        }
        let ghost before = self@;
        let ghost old_records = self.vertices@;
        self.vertices = out;
        proof {
            assert forall|k: int| 0 <= k < n implies maps_record(f, before.vertices[k], #[trigger] self@.vertices[k]) by {
                assert(before.vertices[k] == old_records[k]@);
                assert(self@.vertices[k] == self.vertices@[k]@);
                assert(f.ensures((&old_records[k],), self.vertices@[k]));
            }
            assert forall|k: int| 0 <= k < n implies (#[trigger] self@.vertices[k]).len() == stride by {
                assert(self@.vertices[k] == self.vertices@[k]@);
            }
        }
        Ok(())
    }

    /// The same mesh with every component replaced by what `f` returns for it.
    pub fn convert<U: Copy, F: Fn(T) -> U>(&self, f: F) -> (r: Mesh<U>)
        requires
            self.wf(),
            forall|x: T| f.requires((x,)),
        ensures
            r.wf(),
            r@.faces == self@.faces,
            r@.layout == self@.layout,
            r@.vertices.len() == self@.vertices.len(),
            forall|i: int|
                0 <= i < self@.vertices.len() ==> (#[trigger] r@.vertices[i]).len()
                    == self@.vertices[i].len(),
            forall|i: int, c: int|
                0 <= i < self@.vertices.len() && 0 <= c < self@.vertices[i].len() ==> f.ensures(
                    (self@.vertices[i][c],),
                    #[trigger] r@.vertices[i][c],
                ),
    {
        let n = self.vertices.len();
        let mut vertices: Vec<Vec<U>> = Vec::with_capacity(n);
        let mut i: usize = 0;
        while i < n
            invariant
                i <= n,
                n == self@.vertices.len(),
                self.wf(),
                forall|x: T| f.requires((x,)),
                vertices@.len() == i,
                forall|k: int| 0 <= k < i ==> (#[trigger] vertices@[k])@.len() == self@.vertices[k].len(),
                forall|k: int, c: int|
                    0 <= k < i && 0 <= c < self@.vertices[k].len() ==> f.ensures(
                        (self@.vertices[k][c],),
                        #[trigger] vertices@[k]@[c],
                    ),
            decreases n - i,
        {
            let v = &self.vertices[i];
            assert(v@ == self@.vertices[i as int]);
            let mut w: Vec<U> = Vec::with_capacity(v.len());
            let mut c: usize = 0;
            while c < v.len()
                invariant
                    c <= v@.len(),
                    forall|x: T| f.requires((x,)),
                    w@.len() == c,
                    forall|d: int| 0 <= d < c ==> f.ensures((v@[d],), #[trigger] w@[d]),
                decreases v@.len() - c,
            {
                w.push(f(v[c]));
                c += 1;
            }
            vertices.push(w);
            i += 1;
        }
        let mut faces: Vec<Face> = Vec::with_capacity(self.faces.len());
        let mut j: usize = 0;
        while j < self.faces.len()
            invariant
                j <= self.faces@.len(),
                faces@ == self.faces@.take(j as int),
            decreases self.faces@.len() - j,
        {
            faces.push(self.faces[j]);
            assert(self.faces@.take(j as int + 1) =~= self.faces@.take(j as int).push(self.faces@[j as int]));
            j += 1;
        }
        assert(self.faces@.take(self.faces@.len() as int) =~= self.faces@);
        let r = Mesh { vertices, faces, attribs: self.attribs.clone() };
        proof {
            assert forall|k: int| 0 <= k < n implies (#[trigger] r@.vertices[k]).len() == r@.layout.stride by {
                assert(r@.vertices[k] == r.vertices@[k]@);
            }
            assert forall|k: int, c: int|
                0 <= k < n && 0 <= c < self@.vertices[k].len() implies f.ensures(
                    (self@.vertices[k][c],),
                    #[trigger] r@.vertices[k][c],
                ) by {
                assert(r@.vertices[k] == r.vertices@[k]@);
            }
        }
        r
    }

    /// The unindexed buffer: for each face in order, the records of its three
    /// corners, one after another.
    pub fn to_array_buffer(&self) -> (r: Vec<T>)
        requires
            self.wf(),
        ensures
            r@ == expanded(self@.vertices, self@.faces),
    {
        let mut out: Vec<T> = Vec::new();
        let mut i: usize = 0;
        while i < self.faces.len()
            invariant
                self.wf(),
                i <= self.faces@.len(),
                out@ == expanded(self@.vertices, self@.faces.take(i as int)),
            decreases self.faces@.len() - i,
        {
            let face = self.faces[i];
            assert(self@.faces[i as int] == face@);
            assert(face_fits(self@.faces[i as int], self@.vertices.len()));
            append_record(&mut out, &self.vertices[face.v1]);
            append_record(&mut out, &self.vertices[face.v2]);
            append_record(&mut out, &self.vertices[face.v3]);
            proof {
                let fs = self@.faces.take(i as int + 1);
                assert(fs.drop_last() =~= self@.faces.take(i as int));
                assert(fs.last() == face@);
                assert(self@.vertices[face.v1 as int] == self.vertices@[face.v1 as int]@);
                assert(self@.vertices[face.v2 as int] == self.vertices@[face.v2 as int]@);
                assert(self@.vertices[face.v3 as int] == self.vertices@[face.v3 as int]@);
            }
            i += 1;
        }
        assert(self@.faces.take(self@.faces.len() as int) =~= self@.faces);
        out
    }

    /// The indexed buffers: every record once, in order, and for each face its
    /// three corner indices as 16-bit values. Refused where the mesh holds
    /// more vertices than such indices can address.
    pub fn to_element_array_buffer(&self) -> (r: Result<(Vec<T>, Vec<u16>), MeshError>)
        requires
            self.wf(),
        ensures
            r is Err <==> self@.vertices.len() > MAX_INDEXED_VERTICES,
            r matches Err(e) ==> e == MeshError::TooManyVertices,
            r matches Ok(p) ==> p.0@ == flatten(self@.vertices) && p.1@ == index_list(self@.faces),
    {
        if self.vertices.len() > MAX_INDEXED_VERTICES {
            return Err(MeshError::TooManyVertices);
        }
        let mut array: Vec<T> = Vec::new();
        let mut i: usize = 0;
        while i < self.vertices.len()
            invariant
                i <= self.vertices@.len(),
                array@ == flatten(self@.vertices.take(i as int)),
            decreases self.vertices@.len() - i,
        {
            append_record(&mut array, &self.vertices[i]);
            proof {
                let vs = self@.vertices.take(i as int + 1);
                assert(vs.drop_last() =~= self@.vertices.take(i as int));
                assert(vs.last() == self.vertices@[i as int]@);
            }
            i += 1;
        }
        assert(self@.vertices.take(self@.vertices.len() as int) =~= self@.vertices);
        let mut elements: Vec<u16> = Vec::new();
        let mut j: usize = 0;
        while j < self.faces.len()
            invariant
                self.wf(),
                self@.vertices.len() <= MAX_INDEXED_VERTICES,
                j <= self.faces@.len(),
                elements@ == index_list(self@.faces.take(j as int)),
            decreases self.faces@.len() - j,
        {
            let face = self.faces[j];
            assert(self@.faces[j as int] == face@);
            assert(face_fits(self@.faces[j as int], self@.vertices.len()));
            elements.push(face.v1 as u16);
            elements.push(face.v2 as u16);
            elements.push(face.v3 as u16);
            proof {
                let fs = self@.faces.take(j as int + 1);
                assert(fs.drop_last() =~= self@.faces.take(j as int));
                assert(fs.last() == face@);
            }
            j += 1;
        }
        assert(self@.faces.take(self@.faces.len() as int) =~= self@.faces);
        Ok((array, elements))
    }
}

/// Appends the components of `v` to `out`, in order.
pub(crate) fn append_record<T: Copy>(out: &mut Vec<T>, v: &Vec<T>)
    ensures
        final(out)@ == old(out)@ + v@,
{
    let mut c: usize = 0;
    while c < v.len()
        invariant
            c <= v@.len(),
            out@ == old(out)@ + v@.take(c as int),
        decreases v@.len() - c,
    {
        out.push(v[c]);
        assert(v@.take(c as int + 1) =~= v@.take(c as int).push(v@[c as int]));
        c += 1;
    }
    assert(v@.take(v@.len() as int) =~= v@);
}

/// The index list of faces that fit below `n <= 65535` holds three entries
/// per face, and reading them back three at a time gives the faces again.
pub proof fn lemma_index_list_faces(fs: Seq<(usize, usize, usize)>, n: nat)
    requires
        faces_fit(fs, n),
        n <= MAX_INDEXED_VERTICES,
    ensures
        index_list(fs).len() == 3 * fs.len(),
        forall|i: int|
            0 <= i < fs.len() ==> (
            index_list(fs)[3 * i] as usize,
            index_list(fs)[3 * i + 1] as usize,
            index_list(fs)[3 * i + 2] as usize,
            ) == #[trigger] fs[i],
    decreases fs.len(),
{
    if fs.len() > 0 {
        let init = fs.drop_last();
        assert forall|i: int| 0 <= i < init.len() implies face_fits(#[trigger] init[i], n) by {
            assert(init[i] == fs[i]);
        }
        lemma_index_list_faces(init, n);
        assert forall|i: int|
            0 <= i < fs.len() implies (
            index_list(fs)[3 * i] as usize,
            index_list(fs)[3 * i + 1] as usize,
            index_list(fs)[3 * i + 2] as usize,
            ) == #[trigger] fs[i] by {
            assert(face_fits(fs[i], n));
            if i < init.len() {
                assert(init[i] == fs[i]);
            }
        }
    }
}

/// Records that all have `stride` components flatten to `stride` components
/// per record, record `i` starting at `i * stride`.
pub proof fn lemma_flatten<T>(vs: Seq<Seq<T>>, stride: nat)
    requires
        records_fit(vs, stride),
    ensures
        flatten(vs).len() == vs.len() * stride,
        forall|i: int, c: int|
            0 <= i < vs.len() && 0 <= c < stride ==> #[trigger] flatten(vs)[i * stride + c]
                == #[trigger] vs[i][c],
    decreases vs.len(),
{
    if vs.len() > 0 {
        let init = vs.drop_last();
        assert forall|i: int| 0 <= i < init.len() implies (#[trigger] init[i]).len() == stride by {
            assert(init[i] == vs[i]);
        }
        lemma_flatten(init, stride);
        let k = init.len();
        assert(flatten(vs).len() == vs.len() * stride) by (nonlinear_arith)
            requires
                flatten(vs).len() == k * stride + stride,
                vs.len() == k + 1,
        ;
        assert forall|i: int, c: int|
            0 <= i < vs.len() && 0 <= c < stride implies #[trigger] flatten(vs)[i * stride + c]
                == #[trigger] vs[i][c] by {
            if i < k {
                assert(i * stride + c < k * stride) by (nonlinear_arith)
                    requires
                        i < k,
                        c < stride,
                ;
                assert(init[i] == vs[i]);
            } else {
                assert(i * stride == k * stride);
            }
        }
    }
}

} // verus!
