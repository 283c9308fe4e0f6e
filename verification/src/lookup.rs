use vstd::prelude::*;
use vstd::string::*;
use crate::text::{decimal, decimal_value, lemma_decimal_round_trip, push_decimal};

verus! {

/// Which mesh each rendered pixel shows, and the meshes shown at all.
pub struct MeshLookup {
    /// For each pixel, in pixel order, the index of the mesh entry it shows.
    pub pixel_mesh_ids: Vec<usize>,
    /// Each mesh entry shown by some pixel, once.
    pub mesh_ids: Vec<usize>,
}

/// The face id of pixel `p` names a face.
pub open spec fn face_known(faces: Seq<usize>, face_to_mesh: Seq<usize>, p: int) -> bool {
    faces[p] < face_to_mesh.len()
}

/// Every pixel before `p` names a face.
pub open spec fn known_before(faces: Seq<usize>, face_to_mesh: Seq<usize>, p: int) -> bool {
    forall|q: int| 0 <= q < p ==> face_known(faces, face_to_mesh, q)
}

/// Every mesh that the lookup reaches before it stops is one of the
/// `meshes_len` mesh entries.
pub open spec fn reached_meshes_exist(faces: Seq<usize>, face_to_mesh: Seq<usize>, meshes_len: nat) -> bool {
    forall|p: int|
        0 <= p < faces.len() && known_before(faces, face_to_mesh, p) && face_known(
            faces,
            face_to_mesh,
            p,
        ) ==> #[trigger] face_to_mesh[faces[p] as int] < meshes_len
}

/// The message for a pixel whose face id names no face.
pub open spec fn unknown_face_message(face: usize) -> Seq<char> {
    "Face id "@ + decimal(face as nat) + " out of bounds"@
}

/// Maps each pixel's face to the mesh entry the face came from. `faces[p]` is
/// the face drawn at pixel `p`, `face_to_mesh[f]` the mesh entry of face `f`.
/// Fails at the first pixel whose face id names no face, with the message
/// "Face id {id} out of bounds".
pub fn generate_mesh_lookup(faces: &Vec<usize>, face_to_mesh: &Vec<usize>, meshes_len: usize) -> (result: Result<MeshLookup, String>)
    requires
        reached_meshes_exist(faces@, face_to_mesh@, meshes_len as nat),
    ensures
        match result {
            Ok(lookup) => {
                &&& known_before(faces@, face_to_mesh@, faces@.len() as int)
                &&& lookup.pixel_mesh_ids@.len() == faces@.len()
                &&& forall|p: int|
                    0 <= p < faces@.len() ==> #[trigger] lookup.pixel_mesh_ids@[p]
                        == face_to_mesh@[faces@[p] as int]
                &&& lookup.mesh_ids@.no_duplicates()
                &&& forall|m: usize|
                    #[trigger] lookup.mesh_ids@.contains(m) <==> lookup.pixel_mesh_ids@.contains(m)
                &&& forall|i: int|
                    0 <= i < lookup.mesh_ids@.len() ==> #[trigger] lookup.mesh_ids@[i] < meshes_len
            },
            Err(message) => exists|p: int|
                0 <= p < faces@.len() && known_before(faces@, face_to_mesh@, p) && !face_known(
                    faces@,
                    face_to_mesh@,
                    p,
                ) && message@ == unknown_face_message(#[trigger] faces@[p]),
        },
{
    let mut seen: Vec<bool> = vec![false; meshes_len];
    let mut pixel_mesh_ids: Vec<usize> = Vec::new();
    let mut mesh_ids: Vec<usize> = Vec::new();
    let mut p: usize = 0;
    while p < faces.len()
        invariant
            p <= faces@.len(),
            reached_meshes_exist(faces@, face_to_mesh@, meshes_len as nat),
            known_before(faces@, face_to_mesh@, p as int),
            seen@.len() == meshes_len,
            pixel_mesh_ids@.len() == p,
            forall|q: int|
                0 <= q < p ==> #[trigger] pixel_mesh_ids@[q] == face_to_mesh@[faces@[q] as int],
            forall|q: int| 0 <= q < p ==> #[trigger] pixel_mesh_ids@[q] < meshes_len,
            mesh_ids@.no_duplicates(),
            forall|m: usize| #[trigger] mesh_ids@.contains(m) <==> pixel_mesh_ids@.contains(m),
            forall|m: int|
                0 <= m < meshes_len ==> (#[trigger] seen@[m] <==> mesh_ids@.contains(m as usize)),
            forall|i: int| 0 <= i < mesh_ids@.len() ==> #[trigger] mesh_ids@[i] < meshes_len,
        decreases faces@.len() - p,
    {
        let face = faces[p];
        if face >= face_to_mesh.len() {
            let mut message = String::from_str("Face id ");
            push_decimal(&mut message, face);
            message.append(" out of bounds");
            assert(message@ =~= unknown_face_message(faces@[p as int]));
            return Err(message);
        }
        let mesh = face_to_mesh[face];
        assert(face_known(faces@, face_to_mesh@, p as int));
        assert(face_to_mesh@[faces@[p as int] as int] < meshes_len);
        let ghost old_pixels = pixel_mesh_ids@;
        let ghost old_ids = mesh_ids@;
        pixel_mesh_ids.push(mesh);
        let was_seen = seen[mesh];
        if was_seen {
            assert(seen@[mesh as int]);
            assert(old_ids.contains(mesh));
        } else {
            seen.set(mesh, true);
            mesh_ids.push(mesh);
            proof {
                assert(mesh_ids@[old_ids.len() as int] == mesh);
                assert(!old_ids.contains(mesh));
                assert forall|i: int, j: int|
                    0 <= i < mesh_ids@.len() && 0 <= j < mesh_ids@.len() && i != j implies mesh_ids@[i]
                    != mesh_ids@[j] by {
                    if i == old_ids.len() as int {
                        assert(old_ids.contains(mesh_ids@[j]));
                    } else if j == old_ids.len() as int {
                        assert(old_ids.contains(mesh_ids@[i]));
                    }
                }
            }
        }
        proof {
            assert forall|m: usize| #[trigger] mesh_ids@.contains(m) <==> pixel_mesh_ids@.contains(m) by {
                if pixel_mesh_ids@.contains(m) {
                    let q = choose|q: int| 0 <= q < pixel_mesh_ids@.len() && pixel_mesh_ids@[q] == m;
                    if q < old_pixels.len() {
                        assert(old_pixels.contains(m));
                    }
                }
                if old_pixels.contains(m) {
                    let q = choose|q: int| 0 <= q < old_pixels.len() && old_pixels[q] == m;
                    assert(pixel_mesh_ids@[q] == m);
                }
                if m == mesh {
                    assert(pixel_mesh_ids@[p as int] == m);
                }
                if mesh_ids@.contains(m) && m != mesh {
                    let q = choose|q: int| 0 <= q < mesh_ids@.len() && mesh_ids@[q] == m;
                    assert(old_ids[q] == m);
                }
                if old_ids.contains(m) {
                    let q = choose|q: int| 0 <= q < old_ids.len() && old_ids[q] == m;
                    assert(mesh_ids@[q] == m);
                }
            }
            assert forall|m: int|
                0 <= m < meshes_len implies (#[trigger] seen@[m] <==> mesh_ids@.contains(m as usize)) by {
                if old_ids.contains(m as usize) {
                    let q = choose|q: int| 0 <= q < old_ids.len() && old_ids[q] == m as usize;
                    assert(mesh_ids@[q] == m as usize);
                }
                if mesh_ids@.contains(m as usize) && m != mesh as int {
                    let q = choose|q: int| 0 <= q < mesh_ids@.len() && mesh_ids@[q] == m as usize;
                    assert(old_ids[q] == m as usize);
                }
                if m == mesh as int {
                    assert(mesh_ids@.contains(mesh));
                }
            }
        }
        p += 1;
    }
    Ok(MeshLookup { pixel_mesh_ids, mesh_ids })
}

/// The separator written before the `i`-th id of the pixel text: nothing
/// before the first, a line break where a new row of `row_width` ids starts,
/// a space otherwise.
pub open spec fn separator(i: int, row_width: int) -> Seq<char> {
    if i == 0 {
        Seq::empty()
    } else if i % row_width == 0 {
        seq!['\n']
    } else {
        seq![' ']
    }
}

/// The pixel ids written as text: rows of `row_width` decimal ids separated
/// by spaces, the rows separated by line breaks.
pub open spec fn rows_text(ids: Seq<usize>, row_width: int) -> Seq<char>
    decreases ids.len(),
{
    if ids.len() == 0 {
        Seq::empty()
    } else {
        rows_text(ids.drop_last(), row_width) + separator(ids.len() - 1, row_width) + decimal(
            ids.last() as nat,
        )
    }
}

/// A space or a line break.
pub open spec fn is_separator_char(c: char) -> bool {
    c == ' ' || c == '\n'
}

/// Reads a text back as its pieces: the text is cut at every space and line
/// break; each piece comes with the separator that stood before it (`None`
/// for the first piece).
pub open spec fn split_parts(s: Seq<char>) -> Seq<(Option<char>, Seq<char>)>
    decreases s.len(),
{
    if s.len() == 0 {
        seq![(None, Seq::empty())]
    } else {
        let prev = split_parts(s.drop_last());
        if is_separator_char(s.last()) {
            prev.push((Some(s.last()), Seq::empty()))
        } else {
            prev.update(prev.len() - 1, (prev.last().0, prev.last().1.push(s.last())))
        }
    }
}

/// What the pixel text must read back as: the `i`-th piece is the decimal
/// text of `ids[i]`, preceded by a line break when it starts a row of
/// `row_width` ids and by a space otherwise.
pub open spec fn expected_parts(ids: Seq<usize>, row_width: int) -> Seq<(Option<char>, Seq<char>)> {
    Seq::new(
        ids.len(),
        |i: int|
            (
                if i == 0 {
                    None
                } else if i % row_width == 0 {
                    Some('\n')
                } else {
                    Some(' ')
                },
                decimal(ids[i] as nat),
            ),
    )
}

proof fn lemma_split_parts_nonempty(s: Seq<char>)
    ensures
        split_parts(s).len() >= 1,
    decreases s.len(),
{
    if s.len() > 0 {
        lemma_split_parts_nonempty(s.drop_last());
    }
}

proof fn lemma_split_parts_append_word(p: Seq<char>, d: Seq<char>)
    requires
        forall|i: int| 0 <= i < d.len() ==> !is_separator_char(#[trigger] d[i]),
    ensures
        split_parts(p + d).len() == split_parts(p).len(),
        split_parts(p + d) == split_parts(p).update(
            split_parts(p).len() - 1,
            (split_parts(p).last().0, split_parts(p).last().1 + d),
        ),
    decreases d.len(),
{
    lemma_split_parts_nonempty(p);
    if d.len() == 0 {
        assert(p + d =~= p);
        assert(split_parts(p).last().1 + d =~= split_parts(p).last().1);
        assert(split_parts(p).update(split_parts(p).len() - 1, (split_parts(p).last().0, split_parts(p).last().1 + d)) =~= split_parts(p));
    } else {
        let d0 = d.drop_last();
        lemma_split_parts_append_word(p, d0);
        assert((p + d).drop_last() =~= p + d0);
        assert((p + d).last() == d.last());
        assert(!is_separator_char(d[d.len() - 1]));
        let sp = split_parts(p);
        let prev = split_parts(p + d0);
        assert(prev == sp.update(sp.len() - 1, (sp.last().0, sp.last().1 + d0)));
        assert(prev.last() == (sp.last().0, sp.last().1 + d0));
        assert(split_parts(p + d) == prev.update(prev.len() - 1, (prev.last().0, prev.last().1.push(d.last()))));
        assert((sp.last().1 + d0).push(d.last()) =~= sp.last().1 + d);
        assert(split_parts(p + d) =~= split_parts(p).update(
            split_parts(p).len() - 1,
            (split_parts(p).last().0, split_parts(p).last().1 + d),
        ));
    }
}

proof fn lemma_decimal_has_no_separator(n: nat)
    ensures
        forall|i: int| 0 <= i < decimal(n).len() ==> !is_separator_char(#[trigger] decimal(n)[i]),
{
    lemma_decimal_round_trip(n);
}

/// The pixel text reads back exactly: cut at its spaces and line breaks it
/// gives one piece per id, in order, each the decimal text of that id (which
/// reads back as the id itself), with a line break before each piece that
/// starts a row of `row_width` ids and a space before the others. No ids give
/// the empty text.
pub proof fn lemma_rows_text_reads_back(ids: Seq<usize>, row_width: int)
    requires
        row_width > 0,
    ensures
        ids.len() == 0 ==> rows_text(ids, row_width).len() == 0,
        ids.len() > 0 ==> split_parts(rows_text(ids, row_width)) == expected_parts(ids, row_width),
        ids.len() > 0 ==> forall|i: int|
            0 <= i < ids.len() ==> decimal_value(
                #[trigger] split_parts(rows_text(ids, row_width))[i].1,
            ) == ids[i],
    decreases ids.len(),
{
    if ids.len() > 0 {
        let n = ids.len();
        let rest = ids.drop_last();
        let prev = rows_text(rest, row_width);
        let d = decimal(ids.last() as nat);
        lemma_decimal_has_no_separator(ids.last() as nat);
        lemma_rows_text_reads_back(rest, row_width);
        if n == 1 {
            assert(rest.len() == 0);
            assert(prev =~= Seq::<char>::empty());
            assert(rows_text(ids, row_width) =~= Seq::<char>::empty() + d);
            lemma_split_parts_append_word(Seq::<char>::empty(), d);
            assert(split_parts(Seq::<char>::empty()) =~= seq![(None::<char>, Seq::<char>::empty())]);
            assert(Seq::<char>::empty() + d =~= d);
            assert(split_parts(rows_text(ids, row_width)) =~= expected_parts(ids, row_width));
        } else {
            let c: char = if (n - 1) % row_width == 0 { '\n' } else { ' ' };
            assert(separator(n - 1, row_width) =~= seq![c]);
            let with_sep = prev + seq![c];
            assert(rows_text(ids, row_width) =~= with_sep + d);
            assert(with_sep.drop_last() =~= prev);
            assert(with_sep.last() == c);
            assert(split_parts(with_sep) == split_parts(prev).push((Some(c), Seq::<char>::empty())));
            lemma_split_parts_append_word(with_sep, d);
            assert(Seq::<char>::empty() + d =~= d);
            assert(split_parts(rows_text(ids, row_width)) =~= expected_parts(ids, row_width)) by {
                assert forall|i: int| 0 <= i < n implies #[trigger] split_parts(rows_text(ids, row_width))[i]
                    == expected_parts(ids, row_width)[i] by {
                    if i < n - 1 {
                        assert(split_parts(prev)[i] == expected_parts(rest, row_width)[i]);
                        assert(rest[i] == ids[i]);
                    }
                }
            }
        }
        assert forall|i: int| 0 <= i < n implies decimal_value(
            #[trigger] split_parts(rows_text(ids, row_width))[i].1,
        ) == ids[i] by {
            lemma_decimal_round_trip(ids[i] as nat);
            assert(split_parts(rows_text(ids, row_width))[i] == expected_parts(ids, row_width)[i]);
        }
    }
}

/// Writes the per-pixel mesh ids as rows of `row_width` ids.
pub fn pixel_rows_text(ids: &Vec<usize>, row_width: usize) -> (text: String)
    requires
        row_width > 0,
    ensures
        text@ == rows_text(ids@, row_width as int),
        ids@.len() == 0 ==> text@.len() == 0,
        ids@.len() > 0 ==> split_parts(text@) == expected_parts(ids@, row_width as int),
        ids@.len() > 0 ==> forall|i: int|
            0 <= i < ids@.len() ==> decimal_value(#[trigger] split_parts(text@)[i].1) == ids@[i],
{
    proof {
        lemma_rows_text_reads_back(ids@, row_width as int);
    }
    let mut text = String::new();
    let mut i: usize = 0;
    while i < ids.len()
        invariant
            row_width > 0,
            i <= ids@.len(),
            text@ == rows_text(ids@.take(i as int), row_width as int),
        decreases ids@.len() - i,
    {
        proof {
            reveal_strlit("\n");
            reveal_strlit(" ");
        }
        let ghost before = text@;
        if i > 0 {
            if i % row_width == 0 {
                text.append("\n");
            } else {
                text.append(" ");
            }
        }
        assert(text@ =~= before + separator(i as int, row_width as int));
        let ghost with_sep = text@;
        push_decimal(&mut text, ids[i]);
        proof {
            let pre = ids@.take(i + 1);
            assert(pre.drop_last() =~= ids@.take(i as int));
            assert(pre.last() == ids@[i as int]);
            assert(text@ == with_sep + decimal(ids@[i as int] as nat));
            assert(text@ =~= rows_text(pre, row_width as int));
        }
        i += 1;
    }
    assert(ids@.take(ids@.len() as int) =~= ids@);
    text
}

} // verus!
