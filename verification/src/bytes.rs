use vstd::prelude::*;
use vstd::utf8::{decode_utf8, encode_utf8, encode_utf8_decode_utf8, encode_utf8_valid_utf8, valid_utf8};

verus! {

/// The bytes of `slices`, one after the other.
pub open spec fn joined_bytes(slices: Seq<&[u8]>) -> Seq<u8> {
    slices.map_values(|s: &[u8]| s@).flatten()
}

/// Concatenates `slices` into an array of exactly `LEN` bytes.
///
/// The combined length of `slices` must equal `LEN`.
pub fn concat_bytes<const LEN: usize>(slices: &[&[u8]]) -> (arr: [u8; LEN])
    requires
        joined_bytes(slices@).len() == LEN,
    ensures
        arr@ == joined_bytes(slices@),
{
    let mut arr: [u8; LEN] = vstd::array::array_fill_for_copy_types(0u8);
    let mut base: usize = 0;
    let mut i: usize = 0;
    let ghost whole = joined_bytes(slices@);
    proof {
        assert(slices@.take(0) =~= Seq::<&[u8]>::empty());
        assert(slices@.skip(0) =~= slices@);
        assert(joined_bytes(Seq::<&[u8]>::empty()) =~= Seq::<u8>::empty()) by {
            assert(Seq::<&[u8]>::empty().map_values(|s: &[u8]| s@) =~= Seq::<Seq<u8>>::empty());
        }
        assert(arr@.take(0) =~= Seq::<u8>::empty());
    }
    while i < slices.len()
        invariant
            i <= slices@.len(),
            whole == joined_bytes(slices@),
            whole.len() == LEN,
            base == joined_bytes(slices@.take(i as int)).len(),
            arr@.len() == LEN,
            arr@.take(base as int) == joined_bytes(slices@.take(i as int)),
            joined_bytes(slices@.take(i as int)) + joined_bytes(slices@.skip(i as int)) == whole,
        decreases slices@.len() - i,
    {
        let slice: &[u8] = slices[i];
        proof {
            lemma_split_first(slices@.skip(i as int));
            assert(slices@.skip(i as int).drop_first() == slices@.skip(i + 1));
            assert(slices@.skip(i as int)[0] == slice);
            lemma_take_push(slices@, i as int);
        }
        let mut j: usize = 0;
        while j < slice.len()
            invariant
                j <= slice@.len(),
                base + slice@.len() <= LEN,
                arr@.len() == LEN,
                arr@.take(base + j) == joined_bytes(slices@.take(i as int)) + slice@.take(j as int),
            decreases slice@.len() - j,
        {
            let ghost before = arr@;
            arr[base + j] = slice[j];
            assert(arr@.take(base + j) =~= before.take(base + j));
            assert(arr@.take(base + j + 1) =~= arr@.take(base + j).push(slice@[j as int]));
            assert(slice@.take(j + 1) =~= slice@.take(j as int).push(slice@[j as int]));
            assert(arr@.take(base + j + 1) =~= joined_bytes(slices@.take(i as int)) + slice@.take(j + 1));
            j = j + 1;
        }
        assert(slice@.take(slice@.len() as int) =~= slice@);
        base = base + slice.len();
        i = i + 1;
    }
    assert(slices@.take(slices@.len() as int) =~= slices@);
    assert(arr@.take(LEN as int) =~= arr@);
    arr
}

/// Splitting off the first slice splits off its bytes.
proof fn lemma_split_first(slices: Seq<&[u8]>)
    requires
        slices.len() > 0,
    ensures
        joined_bytes(slices) == slices[0]@ + joined_bytes(slices.drop_first()),
{
    let m = slices.map_values(|s: &[u8]| s@);
    assert(m.drop_first() =~= slices.drop_first().map_values(|s: &[u8]| s@));
}

/// Appending a slice appends its bytes.
proof fn lemma_take_push(slices: Seq<&[u8]>, i: int)
    requires
        0 <= i < slices.len(),
    ensures
        joined_bytes(slices.take(i + 1)) == joined_bytes(slices.take(i)) + slices[i]@,
{
    let m = slices.take(i + 1).map_values(|s: &[u8]| s@);
    assert(m =~= slices.take(i).map_values(|s: &[u8]| s@).push(slices[i]@));
    slices.take(i).map_values(|s: &[u8]| s@).lemma_flatten_push(slices[i]@);
}

/// Encoding two runs of characters encodes the first, then the second.
proof fn lemma_encode_append(a: Seq<char>, b: Seq<char>)
    ensures
        encode_utf8(a + b) == encode_utf8(a) + encode_utf8(b),
    decreases a.len(),
{
    if a.len() == 0 {
        assert(a + b =~= b);
        assert(encode_utf8(a) =~= Seq::<u8>::empty());
        assert(encode_utf8(a) + encode_utf8(b) =~= encode_utf8(b));
    } else {
        lemma_encode_append(a.drop_first(), b);
        assert((a + b).drop_first() =~= a.drop_first() + b);
        assert((a + b)[0] == a[0]);
    }
}

proof fn lemma_encode_flatten(pieces: Seq<Seq<char>>)
    ensures
        pieces.map_values(|p: Seq<char>| encode_utf8(p)).flatten() == encode_utf8(pieces.flatten()),
    decreases pieces.len(),
{
    if pieces.len() > 0 {
        let m = pieces.map_values(|p: Seq<char>| encode_utf8(p));
        lemma_encode_flatten(pieces.drop_first());
        assert(m.drop_first() =~= pieces.drop_first().map_values(|p: Seq<char>| encode_utf8(p)));
        lemma_encode_append(pieces.first(), pieces.drop_first().flatten());
    } else {
        assert(pieces.map_values(|p: Seq<char>| encode_utf8(p)) =~= Seq::<Seq<u8>>::empty());
        assert(encode_utf8(Seq::<char>::empty()) =~= Seq::<u8>::empty());
    }
}

/// Joining the UTF-8 bytes of strings gives the UTF-8 bytes of the strings one
/// after the other: valid UTF-8, which decodes to the joined strings.
pub proof fn lemma_joined_utf8(slices: Seq<&[u8]>, pieces: Seq<Seq<char>>)
    requires
        slices.len() == pieces.len(),
        forall|i: int| 0 <= i < slices.len() ==> (#[trigger] slices[i])@ == encode_utf8(pieces[i]),
    ensures
        joined_bytes(slices) == encode_utf8(pieces.flatten()),
        valid_utf8(joined_bytes(slices)),
        decode_utf8(joined_bytes(slices)) == pieces.flatten(),
{
    assert(slices.map_values(|s: &[u8]| s@) =~= pieces.map_values(|p: Seq<char>| encode_utf8(p)));
    lemma_encode_flatten(pieces);
    encode_utf8_valid_utf8(pieces.flatten());
    encode_utf8_decode_utf8(pieces.flatten());
}

} // verus!
