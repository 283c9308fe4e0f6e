use vstd::prelude::*;
use vstd::string::*;
use vstd::utf8::*;
use crate::error::GenerationError;

verus! {

/// An ASCII capital letter or an ASCII digit.
pub open spec fn is_upper_or_digit(c: char) -> bool {
    ('A' <= c && c <= 'Z') || ('0' <= c && c <= '9')
}

/// Every character of `s` is an ASCII capital letter or digit.
pub open spec fn all_upper_or_digit(s: Seq<char>) -> bool {
    forall|i: int| 0 <= i < s.len() ==> is_upper_or_digit(#[trigger] s[i])
}

/// A chunk file whose name is not a 25-byte run of capitals and digits holds
/// the terrain: the other chunks carry generated 25-character names.
pub open spec fn terrain_file_name(s: Seq<char>) -> bool {
    encode_utf8(s).len() != 25 && !all_upper_or_digit(s)
}

/// The UTF-8 encoding of `s` takes between one and four bytes per character.
pub proof fn lemma_encode_len_bounds(s: Seq<char>)
    ensures
        s.len() <= encode_utf8(s).len() <= 4 * s.len(),
    decreases s.len(),
{
    if s.len() > 0 {
        lemma_encode_len_bounds(s.drop_first());
        let e = encode_scalar(s[0] as u32);
        assert(1 <= e.len() <= 4);
    }
}

/// The terrain rule spelled out: a name whose UTF-8 encoding is 25 bytes long
/// is never the terrain, nor is a name made only of ASCII capitals and digits;
/// any other name, one with some other character and a length other than 25
/// bytes, is the terrain.
pub proof fn lemma_terrain_name_rule(s: Seq<char>)
    ensures
        encode_utf8(s).len() == 25 ==> !terrain_file_name(s),
        (forall|i: int| 0 <= i < s.len() ==> ('A' <= #[trigger] s[i] <= 'Z' || '0' <= s[i] <= '9'))
            ==> !terrain_file_name(s),
        (exists|i: int|
            0 <= i < s.len() && !('A' <= #[trigger] s[i] <= 'Z' || '0' <= s[i] <= '9'))
            && encode_utf8(s).len() != 25 ==> terrain_file_name(s),
{
}

/// Decides `terrain_file_name` for one file name.
pub fn is_terrain_name(name: &str) -> (b: bool)
    ensures
        b == terrain_file_name(name@),
{
    proof {
        lemma_encode_len_bounds(name@);
    }
    let n = name.unicode_len();
    if n <= 25 && name.len() == 25 {
        return false;
    }
    assert(encode_utf8(name@).len() != 25);
    let mut i: usize = 0;
    while i < n
        invariant
            n == name@.len(),
            encode_utf8(name@).len() != 25,
            i <= n,
            forall|j: int| 0 <= j < i ==> is_upper_or_digit(#[trigger] name@[j]),
        decreases n - i,
    {
        let c = name.get_char(i);
        if !(('A' <= c && c <= 'Z') || ('0' <= c && c <= '9')) {
            return true;
        }
        i += 1;
    }
    false
}

/// The entry is a readable file name that names the terrain chunk.
pub open spec fn is_terrain_entry(entry: Option<String>) -> bool {
    match entry {
        Some(name) => terrain_file_name(name@),
        None => false,
    }
}

/// Finds the chunk that holds the terrain. `file_names[i]` is the file name of
/// the i-th chunk path, `None` where the path has none or it is not UTF-8.
/// Returns the index of the first chunk whose name is a terrain name.
pub fn get_terrain_chunk(file_names: &Vec<Option<String>>) -> (found: Option<usize>)
    ensures
        match found {
            Some(i) => {
                &&& i < file_names.len()
                &&& is_terrain_entry(file_names@[i as int])
                &&& forall|j: int| 0 <= j < i ==> !is_terrain_entry(#[trigger] file_names@[j])
            },
            None => forall|j: int|
                0 <= j < file_names.len() ==> !is_terrain_entry(#[trigger] file_names@[j]),
        },
{
    let mut i: usize = 0;
    while i < file_names.len()
        invariant
            i <= file_names.len(),
            forall|j: int| 0 <= j < i ==> !is_terrain_entry(#[trigger] file_names@[j]),
        decreases file_names.len() - i,
    {
        match &file_names[i] {
            Some(name) => {
                if is_terrain_name(name.as_str()) {
                    return Some(i);
                }
            },
            None => {},
        }
        i += 1;
    }
    None
}

/// Picks the terrain chunk before any work is done: when a separate terrain
/// map is asked for, a missing terrain chunk is an error up front.
pub fn select_terrain_chunk(file_names: &Vec<Option<String>>, save_terrain_separately: bool) -> (result: Result<Option<usize>, GenerationError>)
    ensures
        match result {
            Ok(Some(i)) => {
                &&& i < file_names.len()
                &&& is_terrain_entry(file_names@[i as int])
                &&& forall|j: int| 0 <= j < i ==> !is_terrain_entry(#[trigger] file_names@[j])
            },
            Ok(None) => {
                &&& !save_terrain_separately
                &&& forall|j: int|
                    0 <= j < file_names.len() ==> !is_terrain_entry(#[trigger] file_names@[j])
            },
            Err(e) => {
                &&& save_terrain_separately
                &&& forall|j: int|
                    0 <= j < file_names.len() ==> !is_terrain_entry(#[trigger] file_names@[j])
                &&& e matches GenerationError::ChunkError(m) && m@ == "Couldn't identify terrains chunk"@
            },
        },
{
    let found = get_terrain_chunk(file_names);
    if save_terrain_separately && found.is_none() {
        return Err(GenerationError::ChunkError(String::from_str("Couldn't identify terrains chunk")));
    }
    Ok(found)
}

/// One export of a chunk file: the meshes placed in the level.
pub struct Export<M> {
    pub meshes: Vec<M>,
}

/// A parsed chunk file: its list of exports.
pub struct ChunkFile<M> {
    pub exports: Vec<Export<M>>,
}

/// The meshes that a chunk file contributes: those of its first export, or
/// none when it has no export.
pub open spec fn chunk_meshes<M>(chunk: ChunkFile<M>) -> Seq<M> {
    if chunk.exports@.len() > 0 {
        chunk.exports@[0].meshes@
    } else {
        Seq::empty()
    }
}

/// The meshes of all chunk files, chunk after chunk, in file order.
pub open spec fn all_chunk_meshes<M>(chunks: Seq<ChunkFile<M>>) -> Seq<M>
    decreases chunks.len(),
{
    if chunks.len() == 0 {
        Seq::empty()
    } else {
        all_chunk_meshes(chunks.drop_last()) + chunk_meshes(chunks.last())
    }
}

/// A chunk file contributes every mesh of its first export, all of them and
/// in their order, and nothing when it has no export.
pub proof fn lemma_chunk_meshes_are_first_export<M>(chunk: ChunkFile<M>)
    ensures
        chunk.exports@.len() > 0 ==> chunk_meshes(chunk) == chunk.exports@[0].meshes@,
        chunk.exports@.len() > 0 ==> chunk_meshes(chunk).len() == chunk.exports@[0].meshes@.len(),
        chunk.exports@.len() == 0 ==> chunk_meshes(chunk).len() == 0,
{
}

/// Gathering two runs of chunk files gives the meshes of the first run
/// followed by those of the second; no chunk files give no meshes, and one
/// chunk file gives exactly what it contributes.
pub proof fn lemma_all_chunk_meshes_concat<M>(a: Seq<ChunkFile<M>>, b: Seq<ChunkFile<M>>)
    ensures
        all_chunk_meshes(a + b) == all_chunk_meshes(a) + all_chunk_meshes(b),
        all_chunk_meshes(Seq::<ChunkFile<M>>::empty()).len() == 0,
    decreases b.len(),
{
    if b.len() == 0 {
        assert(a + b =~= a);
        assert(all_chunk_meshes(b) =~= Seq::<M>::empty());
        assert(all_chunk_meshes(a) + Seq::<M>::empty() =~= all_chunk_meshes(a));
    } else {
        lemma_all_chunk_meshes_concat(a, b.drop_last());
        assert((a + b).drop_last() =~= a + b.drop_last());
        assert((a + b).last() == b.last());
        assert(all_chunk_meshes(a) + all_chunk_meshes(b.drop_last()) + chunk_meshes(b.last())
            =~= all_chunk_meshes(a) + (all_chunk_meshes(b.drop_last()) + chunk_meshes(b.last())));
    }
}

/// One chunk file on its own gives exactly the meshes it contributes.
pub proof fn lemma_all_chunk_meshes_single<M>(chunk: ChunkFile<M>)
    ensures
        all_chunk_meshes(seq![chunk]) == chunk_meshes(chunk),
{
    assert(seq![chunk].drop_last() =~= Seq::<ChunkFile<M>>::empty());
    assert(seq![chunk].last() == chunk);
    assert(all_chunk_meshes(Seq::<ChunkFile<M>>::empty()) =~= Seq::<M>::empty());
    assert(Seq::<M>::empty() + chunk_meshes(chunk) =~= chunk_meshes(chunk));
}

/// Gathers the meshes of the scene from the parsed chunk files: the meshes of
/// the first export of each file, in file order.
pub fn identify_meshes<M>(chunk_files: Vec<ChunkFile<M>>) -> (meshes: Vec<M>)
    ensures
        meshes@ == all_chunk_meshes(chunk_files@),
{
    let ghost all = chunk_files@;
    let mut meshes: Vec<M> = Vec::new();
    for chunk in it: chunk_files
        invariant
            it.seq() == all,
            meshes@ == all_chunk_meshes(all.take(it.index() as int)),
    {
        let ghost idx = it.index() as int;
        assert(all.take(idx + 1).drop_last() =~= all.take(idx));
        let mut exports = chunk.exports;
        if exports.len() > 0 {
            let mut first = exports.swap_remove(0);
            meshes.append(&mut first.meshes);
        }
    }
    assert(all.take(all.len() as int) =~= all);
    meshes
}

} // verus!
