use vstd::prelude::*;
use vstd::string::*;
use crate::error::GenerationError;

verus! {

/// `s` with every leading `/` removed.
pub open spec fn trim_leading_slashes(s: Seq<char>) -> Seq<char>
    decreases s.len(),
{
    if s.len() > 0 && s[0] == '/' {
        trim_leading_slashes(s.drop_first())
    } else {
        s
    }
}

/// The part of `s` before its first `.`; all of `s` when it has none.
pub open spec fn before_first_dot(s: Seq<char>) -> Seq<char>
    decreases s.len(),
{
    if s.len() == 0 || s[0] == '.' {
        Seq::empty()
    } else {
        seq![s[0]] + before_first_dot(s.drop_first())
    }
}

/// The model file, relative to the assets folder, that a mesh path names:
/// the path without leading slashes, cut at its first dot, with `.uemodel`.
pub open spec fn model_file_name(path: Seq<char>) -> Seq<char> {
    before_first_dot(trim_leading_slashes(path)) + ".uemodel"@
}

/// `k` is where the leading run of `/` in `s` ends, and `j` is the first `.`
/// at or after `k` (or the end of `s`).
pub open spec fn stem_bounds(s: Seq<char>, k: int, j: int) -> bool {
    &&& 0 <= k <= j <= s.len()
    &&& forall|i: int| 0 <= i < k ==> #[trigger] s[i] == '/'
    &&& (k == s.len() || s[k] != '/')
    &&& forall|i: int| k <= i < j ==> #[trigger] s[i] != '.'
    &&& (j == s.len() || s[j] == '.')
}

proof fn lemma_trim_plain(s: Seq<char>, k: int)
    requires
        0 <= k <= s.len(),
        forall|i: int| 0 <= i < k ==> #[trigger] s[i] == '/',
        k == s.len() || s[k] != '/',
    ensures
        trim_leading_slashes(s) == s.skip(k),
    decreases k,
{
    if k == 0 {
        assert(s.skip(0) =~= s);
    } else {
        let t = s.drop_first();
        assert forall|i: int| 0 <= i < k - 1 implies #[trigger] t[i] == '/' by {
            assert(t[i] == s[i + 1]);
        }
        lemma_trim_plain(t, k - 1);
        assert(t.skip(k - 1) =~= s.skip(k));
    }
}

proof fn lemma_before_plain(t: Seq<char>, d: int)
    requires
        0 <= d <= t.len(),
        forall|i: int| 0 <= i < d ==> #[trigger] t[i] != '.',
        d == t.len() || t[d] == '.',
    ensures
        before_first_dot(t) == t.take(d),
    decreases d,
{
    if d == 0 {
        assert(t.take(0) =~= Seq::<char>::empty());
    } else {
        let u = t.drop_first();
        assert forall|i: int| 0 <= i < d - 1 implies #[trigger] u[i] != '.' by {
            assert(u[i] == t[i + 1]);
        }
        lemma_before_plain(u, d - 1);
        assert(t.take(d) =~= seq![t[0]] + u.take(d - 1));
    }
}

/// The model file is the whole stretch of the path between its leading
/// slashes and its first dot, followed by `.uemodel`, however long it is.
pub proof fn lemma_model_file_name_is_stem(path: Seq<char>, k: int, j: int)
    requires
        stem_bounds(path, k, j),
    ensures
        model_file_name(path) == path.subrange(k, j) + ".uemodel"@,
        model_file_name(path).len() == (j - k) + 8,
{
    lemma_trim_plain(path, k);
    let t = path.skip(k);
    assert forall|i: int| 0 <= i < j - k implies #[trigger] t[i] != '.' by {
        assert(t[i] == path[k + i]);
    }
    lemma_before_plain(t, j - k);
    assert(t.take(j - k) =~= path.subrange(k, j));
    reveal_strlit(".uemodel");
}

proof fn lemma_trim_step(s: Seq<char>, k: int)
    requires
        0 <= k < s.len(),
        s[k] == '/',
    ensures
        trim_leading_slashes(s.skip(k)) == trim_leading_slashes(s.skip(k + 1)),
{
    assert(s.skip(k).drop_first() =~= s.skip(k + 1));
}

proof fn lemma_dot_step(s: Seq<char>, j: int)
    requires
        0 <= j < s.len(),
        s[j] != '.',
    ensures
        before_first_dot(s.skip(j)) == seq![s[j]] + before_first_dot(s.skip(j + 1)),
{
    assert(s.skip(j).drop_first() =~= s.skip(j + 1));
}

/// Computes `model_file_name`.
pub fn model_file_name_of(path: &str) -> (name: String)
    ensures
        name@ == model_file_name(path@),
        exists|k: int, j: int|
            #![trigger path@.subrange(k, j)]
            stem_bounds(path@, k, j) && name@ == path@.subrange(k, j) + ".uemodel"@,
{
    let ghost s = path@;
    let n = path.unicode_len();
    let mut k: usize = 0;
    assert(s.skip(0) =~= s);
    while k < n && path.get_char(k) == '/'
        invariant
            s == path@,
            n == s.len(),
            k <= n,
            trim_leading_slashes(s) == trim_leading_slashes(s.skip(k as int)),
            forall|i: int| 0 <= i < k ==> #[trigger] s[i] == '/',
        decreases n - k,
    {
        proof {
            lemma_trim_step(s, k as int);
        }
        k += 1;
    }
    assert(trim_leading_slashes(s) == s.skip(k as int));
    let mut j: usize = k;
    while j < n && path.get_char(j) != '.'
        invariant
            s == path@,
            n == s.len(),
            k <= j <= n,
            trim_leading_slashes(s) == s.skip(k as int),
            forall|i: int| 0 <= i < k ==> #[trigger] s[i] == '/',
            k == n || s[k as int] != '/',
            forall|i: int| k <= i < j ==> #[trigger] s[i] != '.',
            before_first_dot(s.skip(k as int)) == s.subrange(k as int, j as int)
                + before_first_dot(s.skip(j as int)),
        decreases n - j,
    {
        proof {
            lemma_dot_step(s, j as int);
            assert(s.subrange(k as int, j + 1) =~= s.subrange(k as int, j as int) + seq![s[j as int]]);
        }
        j += 1;
    }
    assert(before_first_dot(s.skip(j as int)) =~= Seq::<char>::empty());
    assert(before_first_dot(s.skip(k as int)) =~= s.subrange(k as int, j as int));
    let stem = path.substring_char(k, j);
    let name = String::from_str(stem).concat(".uemodel");
    proof {
        assert(stem_bounds(s, k as int, j as int));
        assert(name@ == path@.subrange(k as int, j as int) + ".uemodel"@);
    }
    name
}

/// What `mesh_model_path` gives for a mesh's optional asset path.
pub open spec fn mesh_model_path_result(path: Option<Seq<char>>, result: Result<Option<String>, GenerationError>) -> bool {
    match path {
        None => result matches Err(GenerationError::MeshPathMalformed(m)) && m@ == "Mesh path was None"@,
        Some(p) => if p.len() == 0 {
            result matches Ok(None)
        } else {
            result matches Ok(Some(f)) && f@ == model_file_name(p)
        },
    }
}

/// Resolves the asset path of one mesh entry: a mesh without a path is an
/// error, one with an empty path is skipped (`Ok(None)`), any other yields
/// the model file to load, relative to the assets folder.
pub fn mesh_model_path(path: &Option<String>) -> (result: Result<Option<String>, GenerationError>)
    ensures
        mesh_model_path_result(
            match path { Some(p) => Some(p@), None => None },
            result,
        ),
{
    match path {
        None => Err(GenerationError::MeshPathMalformed(String::from_str("Mesh path was None"))),
        Some(p) => {
            if p.as_str().is_empty() {
                Ok(None)
            } else {
                Ok(Some(model_file_name_of(p.as_str())))
            }
        },
    }
}

/// The faces of the whole scene, built mesh after mesh: each mesh's
/// triangles are renumbered past the vertices of the meshes before it, and
/// each face remembers the index of the mesh entry it came from.
pub struct MeshAssembly {
    faces: Vec<[usize; 3]>,
    face_meshes: Vec<usize>,
    vertex_count: usize,
}

impl MeshAssembly {
    /// The faces gathered so far, as vertex indices into the whole scene.
    pub closed spec fn faces(&self) -> Seq<[usize; 3]> {
        self.faces@
    }

    /// For each face, the index of the mesh entry it belongs to.
    pub closed spec fn face_meshes(&self) -> Seq<usize> {
        self.face_meshes@
    }

    /// The number of scene vertices placed so far.
    pub closed spec fn vertex_count(&self) -> nat {
        self.vertex_count as nat
    }

    /// Every face has exactly one owning mesh.
    pub closed spec fn wf(&self) -> bool {
        self.faces@.len() == self.face_meshes@.len()
    }

    /// Every face index names a vertex already placed.
    pub open spec fn faces_in_range(&self) -> bool {
        forall|i: int, k: int|
            0 <= i < self.faces().len() && 0 <= k < 3 ==> #[trigger] self.faces()[i][k]
                < self.vertex_count()
    }

    /// An empty scene.
    pub fn new() -> (a: Self)
        ensures
            a.wf(),
            a.faces() == Seq::<[usize; 3]>::empty(),
            a.face_meshes() == Seq::<usize>::empty(),
            a.vertex_count() == 0,
    {
        MeshAssembly { faces: Vec::new(), face_meshes: Vec::new(), vertex_count: 0 }
    }

    /// The number of scene vertices placed so far.
    pub fn vertex_total(&self) -> (n: usize)
        ensures
            n == self.vertex_count(),
    {
        self.vertex_count
    }

    /// Adds the triangles of mesh entry `mesh_index`, whose model has
    /// `vertex_count` vertices and the given triangle `indices`: each index is
    /// shifted by the number of vertices placed before, and those vertices
    /// then count `vertex_count` more.
    pub fn add_mesh(&mut self, mesh_index: usize, vertex_count: usize, indices: &Vec<[u32; 3]>)
        requires
            old(self).wf(),
            old(self).vertex_count() + vertex_count <= usize::MAX,
            forall|i: int, k: int|
                0 <= i < indices@.len() && 0 <= k < 3 ==> #[trigger] indices@[i][k]
                    + old(self).vertex_count() <= usize::MAX,
        ensures
            final(self).wf(),
            final(self).vertex_count() == old(self).vertex_count() + vertex_count,
            final(self).faces().len() == old(self).faces().len() + indices@.len(),
            final(self).faces().subrange(0, old(self).faces().len() as int) == old(self).faces(),
            forall|j: int, k: int|
                old(self).faces().len() <= j < final(self).faces().len() && 0 <= k < 3
                    ==> #[trigger] final(self).faces()[j][k] == indices@[j - old(
                    self,
                ).faces().len()][k] + old(self).vertex_count(),
            final(self).face_meshes() == old(self).face_meshes() + Seq::new(
                indices@.len(),
                |i: int| mesh_index,
            ),
            old(self).faces_in_range() && (forall|i: int, k: int|
                0 <= i < indices@.len() && 0 <= k < 3 ==> #[trigger] indices@[i][k] < vertex_count)
                ==> final(self).faces_in_range(),
    {
        let offset = self.vertex_count;
        let ghost old_faces = self.faces@;
        let ghost old_meshes = self.face_meshes@;
        let mut t: usize = 0;
        while t < indices.len()
            invariant
                offset == old(self).vertex_count(),
                self.vertex_count == offset,
                old_faces == old(self).faces(),
                old_meshes == old(self).face_meshes(),
                old_faces.len() == old_meshes.len(),
                t <= indices@.len(),
                self.faces@.len() == old_faces.len() + t,
                self.face_meshes@.len() == self.faces@.len(),
                self.faces@.subrange(0, old_faces.len() as int) == old_faces,
                forall|i: int, k: int|
                    0 <= i < indices@.len() && 0 <= k < 3 ==> #[trigger] indices@[i][k] + offset
                        <= usize::MAX,
                forall|j: int, k: int|
                    old_faces.len() <= j < self.faces@.len() && 0 <= k < 3 ==> #[trigger] self.faces@[j][k]
                        == indices@[j - old_faces.len()][k] + offset,
                self.face_meshes@ == old_meshes + Seq::new(t as nat, |i: int| mesh_index),
            decreases indices@.len() - t,
        {
            let f = indices[t];
            assert(f[0] + offset <= usize::MAX);
            assert(f[1] + offset <= usize::MAX);
            assert(f[2] + offset <= usize::MAX);
            let shifted: [usize; 3] = [f[0] as usize + offset, f[1] as usize + offset, f[2] as usize + offset];
            self.faces.push(shifted);
            self.face_meshes.push(mesh_index);
            proof {
                assert(self.face_meshes@ =~= old_meshes + Seq::new((t + 1) as nat, |i: int| mesh_index));
                assert(self.faces@.subrange(0, old_faces.len() as int) =~= old_faces);
                assert forall|j: int, k: int|
                    old_faces.len() <= j < self.faces@.len() && 0 <= k < 3 implies #[trigger] self.faces@[j][k]
                        == indices@[j - old_faces.len()][k] + offset by {
                    if j == self.faces@.len() - 1 {
                        assert(self.faces@[j] == shifted);
                    }
                }
            }
            t += 1;
        }
        self.vertex_count = offset + vertex_count;
        proof {
            if old(self).faces_in_range() && (forall|i: int, k: int|
                0 <= i < indices@.len() && 0 <= k < 3 ==> #[trigger] indices@[i][k] < vertex_count) {
                assert forall|i: int, k: int|
                    0 <= i < self.faces().len() && 0 <= k < 3 implies #[trigger] self.faces()[i][k]
                        < self.vertex_count() by {
                    if i < old_faces.len() {
                        assert(self.faces@[i] == self.faces@.subrange(0, old_faces.len() as int)[i]);
                        assert(old(self).faces()[i][k] < old(self).vertex_count());
                    } else {
                        assert(self.faces@[i][k] == indices@[i - old_faces.len()][k] + offset);
                    }
                }
            }
        }
    }

    /// Closes the scene: it is an error when no mesh contributed a vertex or
    /// no mesh contributed a face. Otherwise gives the faces and, for each
    /// face, the index of its mesh entry.
    pub fn finish(self) -> (result: Result<(Vec<[usize; 3]>, Vec<usize>), GenerationError>)
        requires
            self.wf(),
        ensures
            match result {
                Ok((faces, face_meshes)) => {
                    &&& self.vertex_count() > 0
                    &&& self.faces().len() > 0
                    &&& faces@ == self.faces()
                    &&& face_meshes@ == self.face_meshes()
                },
                Err(e) => {
                    &&& e matches GenerationError::LoadMeshError
                    &&& (self.vertex_count() == 0 || self.faces().len() == 0)
                },
            },
    {
        if self.vertex_count == 0 || self.faces.len() == 0 {
            return Err(GenerationError::LoadMeshError);
        }
        Ok((self.faces, self.face_meshes))
    }
}

} // verus!
