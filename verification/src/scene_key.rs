//! Telling scenes apart by a hash.

use crate::geometry::{Mesh, Triangle};
use crate::math::Vec3;
use vstd::prelude::*;

verus! {

/// The BLAKE3 hash of some bytes.
pub uninterp spec fn blake3_of(bytes: Seq<u8>) -> Seq<u8>;

/// The BLAKE3 hash of some bytes.
///
/// Calls `blake3::hash`, which computes the unkeyed hash of its input, a
/// function of the input alone.  Nothing is stated of the hash but that.
#[verifier::external_body]
fn blake3_hash(bytes: &Vec<u8>) -> (hash: [u8; 32])
    ensures
        hash@ == blake3_of(bytes@),
{
    *blake3::hash(bytes).as_bytes()
}

/// The four bytes of a number, the lowest first.
pub open spec fn le_bytes(word: u32) -> Seq<u8> {
    seq![
        (word % 256) as u8,
        (word / 256 % 256) as u8,
        (word / 65_536 % 256) as u8,
        (word / 16_777_216) as u8,
    ]
}

/// The bytes of some numbers.
pub open spec fn bytes_of(words: Seq<u32>) -> Seq<u8>
    decreases words.len(),
{
    if words.len() == 0 {
        Seq::empty()
    } else {
        bytes_of(words.drop_last()) + le_bytes(words.last())
    }
}

/// The bits of the components of a vector.
pub open spec fn vec3_words(value: Vec3) -> Seq<u32> {
    seq![value.x.bits, value.y.bits, value.z.bits]
}

/// The bits of a triangle: its corners, its normal and its color.
pub open spec fn triangle_words(triangle: Triangle) -> Seq<u32> {
    vec3_words(triangle.v0) + vec3_words(triangle.v1) + vec3_words(triangle.v2) + vec3_words(
        triangle.normal,
    ) + vec3_words(triangle.color)
}

/// The bits of some triangles.
pub open spec fn triangles_words(triangles: Seq<Triangle>) -> Seq<u32>
    decreases triangles.len(),
{
    if triangles.len() == 0 {
        Seq::empty()
    } else {
        triangles_words(triangles.drop_last()) + triangle_words(triangles.last())
    }
}

/// The bits of the bounds and the tile of a scene.
pub open spec fn frame_words(mesh: Mesh) -> Seq<u32> {
    vec3_words(mesh.bounds.min) + vec3_words(mesh.bounds.max) + seq![
        mesh.tile_min_x.bits,
        mesh.tile_min_z.bits,
        mesh.tile_width.bits,
        mesh.tile_depth.bits,
    ]
}

/// The bits of all that a device holds of a scene.
pub open spec fn scene_words(mesh: Mesh) -> Seq<u32> {
    triangles_words(mesh.triangles@) + frame_words(mesh)
}

proof fn lemma_bytes_push(words: Seq<u32>, word: u32)
    ensures
        bytes_of(words.push(word)) == bytes_of(words) + le_bytes(word),
{
    assert(words.push(word).drop_last() =~= words);
}

/// Appends the bytes of a number.
fn push_word(bytes: &mut Vec<u8>, word: u32)
    ensures
        final(bytes)@ == old(bytes)@ + le_bytes(word),
{
    let ghost before = bytes@;
    bytes.push((word % 256) as u8);
    bytes.push((word / 256 % 256) as u8);
    bytes.push((word / 65_536 % 256) as u8);
    bytes.push((word / 16_777_216) as u8);
    assert(bytes@ =~= before + le_bytes(word));
}

/// Appends the bytes of a vector.
fn push_vec3(bytes: &mut Vec<u8>, value: Vec3, Ghost(words): Ghost<Seq<u32>>)
    requires
        old(bytes)@ == bytes_of(words),
    ensures
        final(bytes)@ == bytes_of(words + vec3_words(value)),
{
    push_word(bytes, value.x.bits);
    push_word(bytes, value.y.bits);
    push_word(bytes, value.z.bits);
    proof {
        let one = words.push(value.x.bits);
        let two = one.push(value.y.bits);
        lemma_bytes_push(words, value.x.bits);
        lemma_bytes_push(one, value.y.bits);
        lemma_bytes_push(two, value.z.bits);
        assert(two.push(value.z.bits) =~= words + vec3_words(value));
    }
}

/// The bytes of all that a device holds of a scene.
fn scene_bytes(mesh: &Mesh) -> (bytes: Vec<u8>)
    ensures
        bytes@ == bytes_of(scene_words(*mesh)),
{
    let mut bytes: Vec<u8> = Vec::new();
    let mut next: usize = 0;
    while next < mesh.triangles.len()
        invariant
            next <= mesh.triangles@.len(),
            bytes@ == bytes_of(triangles_words(mesh.triangles@.take(next as int))),
        decreases mesh.triangles@.len() - next,
    {
        let triangle = mesh.triangles[next];
        let ghost words = triangles_words(mesh.triangles@.take(next as int));
        push_vec3(&mut bytes, triangle.v0, Ghost(words));
        let ghost words = words + vec3_words(triangle.v0);
        push_vec3(&mut bytes, triangle.v1, Ghost(words));
        let ghost words = words + vec3_words(triangle.v1);
        push_vec3(&mut bytes, triangle.v2, Ghost(words));
        let ghost words = words + vec3_words(triangle.v2);
        push_vec3(&mut bytes, triangle.normal, Ghost(words));
        let ghost words = words + vec3_words(triangle.normal);
        push_vec3(&mut bytes, triangle.color, Ghost(words));
        proof {
            let taken = mesh.triangles@.take(next + 1);
            assert(taken.drop_last() =~= mesh.triangles@.take(next as int));
            assert(words + vec3_words(triangle.color) =~= triangles_words(taken));
        }
        next += 1;
    }
    assert(mesh.triangles@.take(next as int) =~= mesh.triangles@);
    let ghost words = triangles_words(mesh.triangles@);
    push_vec3(&mut bytes, mesh.bounds.min, Ghost(words));
    let ghost words = words + vec3_words(mesh.bounds.min);
    push_vec3(&mut bytes, mesh.bounds.max, Ghost(words));
    let ghost words = words + vec3_words(mesh.bounds.max);
    push_word(&mut bytes, mesh.tile_min_x.bits);
    push_word(&mut bytes, mesh.tile_min_z.bits);
    push_word(&mut bytes, mesh.tile_width.bits);
    push_word(&mut bytes, mesh.tile_depth.bits);
    proof {
        let one = words.push(mesh.tile_min_x.bits);
        let two = one.push(mesh.tile_min_z.bits);
        let three = two.push(mesh.tile_width.bits);
        lemma_bytes_push(words, mesh.tile_min_x.bits);
        lemma_bytes_push(one, mesh.tile_min_z.bits);
        lemma_bytes_push(two, mesh.tile_width.bits);
        lemma_bytes_push(three, mesh.tile_depth.bits);
        assert(three.push(mesh.tile_depth.bits) =~= scene_words(*mesh));
    }
    bytes
}

/// The key by which a scene is known: the hash of all that a device holds of it.
pub fn mesh_cache_key(mesh: &Mesh) -> (key: [u8; 32])
    ensures
        key@ == blake3_of(bytes_of(scene_words(*mesh))),
{
    blake3_hash(&scene_bytes(mesh))
}

/// Whether a scene that is held already is the one that is asked for.
pub fn is_cached(cached: Option<&[u8; 32]>, key: &[u8; 32]) -> (hit: bool)
    ensures
        hit == match cached {
            Some(cached) => cached@ == key@,
            None => false,
        },
{
    let held = match cached {
        Some(held) => held,
        None => return false,
    };
    let mut next: usize = 0;
    while next < 32
        invariant
            cached == Some(held),
            next <= 32,
            forall|i: int| 0 <= i < next ==> held@[i] == key@[i],
        decreases 32 - next,
    {
        if held[next] != key[next] {
            return false;
        }
        next += 1;
    }
    assert(held@ =~= key@);
    true
}

proof fn lemma_bytes_len(words: Seq<u32>)
    ensures
        bytes_of(words).len() == 4 * words.len(),
    decreases words.len(),
{
    if words.len() > 0 {
        lemma_bytes_len(words.drop_last());
    }
}

proof fn lemma_le_bytes_injective(a: u32, b: u32)
    requires
        le_bytes(a) == le_bytes(b),
    ensures
        a == b,
{
    let x = le_bytes(a);
    let y = le_bytes(b);
    assert(x[0] == y[0] && x[1] == y[1] && x[2] == y[2] && x[3] == y[3]);
    assert(a / 65_536 == (a / 256) / 256);
    assert(a / 16_777_216 == (a / 65_536) / 256);
    assert(b / 65_536 == (b / 256) / 256);
    assert(b / 16_777_216 == (b / 65_536) / 256);
}

proof fn lemma_bytes_injective(a: Seq<u32>, b: Seq<u32>)
    requires
        bytes_of(a) == bytes_of(b),
    ensures
        a == b,
    decreases a.len(),
{
    lemma_bytes_len(a);
    lemma_bytes_len(b);
    if a.len() > 0 {
        lemma_bytes_len(a.drop_last());
        lemma_bytes_len(b.drop_last());
        let n = bytes_of(a).len() - 4;
        assert(bytes_of(a).take(n) =~= bytes_of(a.drop_last()));
        assert(bytes_of(b).take(n) =~= bytes_of(b.drop_last()));
        assert(bytes_of(a).skip(n) =~= le_bytes(a.last()));
        assert(bytes_of(b).skip(n) =~= le_bytes(b.last()));
        lemma_bytes_injective(a.drop_last(), b.drop_last());
        lemma_le_bytes_injective(a.last(), b.last());
        assert(a =~= a.drop_last().push(a.last()));
        assert(b =~= b.drop_last().push(b.last()));
    } else {
        assert(a =~= b);
    }
}

proof fn lemma_triangles_words_len(triangles: Seq<Triangle>)
    ensures
        triangles_words(triangles).len() == 15 * triangles.len(),
    decreases triangles.len(),
{
    if triangles.len() > 0 {
        lemma_triangles_words_len(triangles.drop_last());
    }
}

proof fn lemma_vec3_words_injective(a: Vec3, b: Vec3)
    requires
        vec3_words(a) == vec3_words(b),
    ensures
        a == b,
{
    let x = vec3_words(a);
    let y = vec3_words(b);
    assert(x[0] == y[0] && x[1] == y[1] && x[2] == y[2]);
}

proof fn lemma_triangle_words_injective(a: Triangle, b: Triangle)
    requires
        triangle_words(a) == triangle_words(b),
    ensures
        a == b,
{
    let x = triangle_words(a);
    let y = triangle_words(b);
    assert(x.subrange(0, 3) =~= vec3_words(a.v0) && y.subrange(0, 3) =~= vec3_words(b.v0));
    assert(x.subrange(3, 6) =~= vec3_words(a.v1) && y.subrange(3, 6) =~= vec3_words(b.v1));
    assert(x.subrange(6, 9) =~= vec3_words(a.v2) && y.subrange(6, 9) =~= vec3_words(b.v2));
    assert(x.subrange(9, 12) =~= vec3_words(a.normal) && y.subrange(9, 12) =~= vec3_words(
        b.normal,
    ));
    assert(x.subrange(12, 15) =~= vec3_words(a.color) && y.subrange(12, 15) =~= vec3_words(
        b.color,
    ));
    lemma_vec3_words_injective(a.v0, b.v0);
    lemma_vec3_words_injective(a.v1, b.v1);
    lemma_vec3_words_injective(a.v2, b.v2);
    lemma_vec3_words_injective(a.normal, b.normal);
    lemma_vec3_words_injective(a.color, b.color);
}

proof fn lemma_triangles_words_injective(a: Seq<Triangle>, b: Seq<Triangle>)
    requires
        triangles_words(a) == triangles_words(b),
    ensures
        a == b,
    decreases a.len(),
{
    lemma_triangles_words_len(a);
    lemma_triangles_words_len(b);
    if a.len() > 0 {
        lemma_triangles_words_len(a.drop_last());
        lemma_triangles_words_len(b.drop_last());
        let n = triangles_words(a).len() - 15;
        assert(triangles_words(a).take(n) =~= triangles_words(a.drop_last()));
        assert(triangles_words(b).take(n) =~= triangles_words(b.drop_last()));
        assert(triangles_words(a).skip(n) =~= triangle_words(a.last()));
        assert(triangles_words(b).skip(n) =~= triangle_words(b.last()));
        lemma_triangles_words_injective(a.drop_last(), b.drop_last());
        lemma_triangle_words_injective(a.last(), b.last());
        assert(a =~= a.drop_last().push(a.last()));
        assert(b =~= b.drop_last().push(b.last()));
    } else {
        assert(a =~= b);
    }
}

/// What is hashed tells scenes apart: two scenes with the same bytes have the
/// same triangles, bounds and tile.
pub proof fn lemma_scene_bytes_identify_the_scene(a: Mesh, b: Mesh)
    requires
        bytes_of(scene_words(a)) == bytes_of(scene_words(b)),
    ensures
        a.triangles@ == b.triangles@,
        a.bounds == b.bounds,
        a.tile_min_x == b.tile_min_x,
        a.tile_min_z == b.tile_min_z,
        a.tile_width == b.tile_width,
        a.tile_depth == b.tile_depth,
{
    lemma_bytes_injective(scene_words(a), scene_words(b));
    lemma_triangles_words_len(a.triangles@);
    lemma_triangles_words_len(b.triangles@);
    let n = triangles_words(a.triangles@).len() as int;
    assert(scene_words(a).take(n) =~= triangles_words(a.triangles@));
    assert(scene_words(b).take(n) =~= triangles_words(b.triangles@));
    assert(scene_words(a).skip(n) =~= frame_words(a));
    assert(scene_words(b).skip(n) =~= frame_words(b));
    lemma_triangles_words_injective(a.triangles@, b.triangles@);
    let x = frame_words(a);
    let y = frame_words(b);
    assert(x.subrange(0, 3) =~= vec3_words(a.bounds.min));
    assert(y.subrange(0, 3) =~= vec3_words(b.bounds.min));
    assert(x.subrange(3, 6) =~= vec3_words(a.bounds.max));
    assert(y.subrange(3, 6) =~= vec3_words(b.bounds.max));
    lemma_vec3_words_injective(a.bounds.min, b.bounds.min);
    lemma_vec3_words_injective(a.bounds.max, b.bounds.max);
    assert(x[6] == y[6] && x[7] == y[7] && x[8] == y[8] && x[9] == y[9]);
}

/// Scenes with the same triangles, bounds and tile have the same bytes, wherever their
/// colors come from and wherever they were before they were moved.
pub proof fn lemma_same_scenes_have_the_same_bytes(a: Mesh, b: Mesh)
    requires
        a.triangles@ == b.triangles@,
        a.bounds == b.bounds,
        a.tile_min_x == b.tile_min_x,
        a.tile_min_z == b.tile_min_z,
        a.tile_width == b.tile_width,
        a.tile_depth == b.tile_depth,
    ensures
        bytes_of(scene_words(a)) == bytes_of(scene_words(b)),
        bytes_of(scene_words(a)).len() == 4 * (15 * a.triangles@.len() + 10),
{
    lemma_bytes_len(scene_words(a));
    lemma_triangles_words_len(a.triangles@);
}

/// A number lies in its bytes with the lowest first.
pub proof fn lemma_bytes_make_the_number(word: u32)
    ensures
        le_bytes(word).len() == 4,
        word == le_bytes(word)[0] + 256 * le_bytes(word)[1] + 65_536 * le_bytes(word)[2]
            + 16_777_216 * le_bytes(word)[3],
{
    assert(word / 65_536 == (word / 256) / 256);
    assert(word / 16_777_216 == (word / 65_536) / 256);
}

} // verus!
