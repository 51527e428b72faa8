//! The scene serializer: encodes a voxel volume into the two buffers of
//! the export format — a primary buffer holding the dense voxel payload
//! behind a dimension header, and an auxiliary geometry descriptor
//! holding the dimension header alone. All integers are little-endian:
//! the three dimensions as 32-bit words, each cell as a 16-bit word,
//! cells in layout order. Decoders for both buffers close the loop.

use vstd::prelude::*;
use crate::SimError;
use crate::voxel::{Volume, MAX_DIM};
use crate::world::lemma_mul_bound;

verus! {

/// The four little-endian bytes of a 32-bit value.
pub open spec fn le32(v: int) -> Seq<u8> {
    seq![
        (v % 256) as u8,
        ((v / 256) % 256) as u8,
        ((v / 65536) % 256) as u8,
        ((v / 16777216) % 256) as u8,
    ]
}

/// The two little-endian bytes of a 16-bit value.
pub open spec fn le16(v: int) -> Seq<u8> {
    seq![(v % 256) as u8, ((v / 256) % 256) as u8]
}

/// The 32-bit value little-endian encoded at `off`.
pub open spec fn u32_at(b: Seq<u8>, off: int) -> int {
    b[off] + 256 * b[off + 1] + 65536 * b[off + 2] + 16777216 * b[off + 3]
}

/// The 16-bit value little-endian encoded at `off`.
pub open spec fn u16_at(b: Seq<u8>, off: int) -> int {
    b[off] + 256 * b[off + 1]
}

/// The dimension header: width, height, depth, each as four bytes.
pub open spec fn header_bytes(w: int, h: int, d: int) -> Seq<u8> {
    le32(w) + le32(h) + le32(d)
}

/// The dense cell payload: each cell as two bytes, in layout order.
pub open spec fn cells_bytes(cs: Seq<u16>) -> Seq<u8>
    decreases cs.len(),
{
    if cs.len() == 0 {
        Seq::empty()
    } else {
        cells_bytes(cs.drop_last()) + le16(cs.last() as int)
    }
}

/// The whole primary buffer of one volume.
pub open spec fn primary_bytes(w: int, h: int, d: int, cs: Seq<u16>) -> Seq<u8> {
    header_bytes(w, h, d) + cells_bytes(cs)
}

/// The bytes parse as a primary buffer: a full header of in-cap
/// dimensions, then exactly one two-byte cell per voxel.
pub open spec fn valid_primary(b: Seq<u8>) -> bool {
    &&& b.len() >= 12
    &&& 0 <= u32_at(b, 0) <= MAX_DIM
    &&& 0 <= u32_at(b, 4) <= MAX_DIM
    &&& 0 <= u32_at(b, 8) <= MAX_DIM
    &&& b.len() == 12 + 2 * (u32_at(b, 0) * u32_at(b, 4) * u32_at(b, 8))
}

/// The bytes parse as an auxiliary descriptor: a header of in-cap
/// dimensions and nothing else.
pub open spec fn valid_aux(b: Seq<u8>) -> bool {
    &&& b.len() == 12
    &&& 0 <= u32_at(b, 0) <= MAX_DIM
    &&& 0 <= u32_at(b, 4) <= MAX_DIM
    &&& 0 <= u32_at(b, 8) <= MAX_DIM
}

/// Append the four little-endian bytes of `v`.
fn push_u32_le(out: &mut Vec<u8>, v: u32)
    ensures
        final(out)@ == old(out)@ + le32(v as int),
{
    let ghost pre = out@;
    out.push((v % 256) as u8);
    out.push(((v / 256) % 256) as u8);
    out.push(((v / 65536) % 256) as u8);
    out.push(((v / 16777216) % 256) as u8);
    proof {
        assert(out@ =~= pre + le32(v as int));
    }
}

/// Append the two little-endian bytes of `v`.
fn push_u16_le(out: &mut Vec<u8>, v: u16)
    ensures
        final(out)@ == old(out)@ + le16(v as int),
{
    let ghost pre = out@;
    out.push((v % 256) as u8);
    out.push(((v / 256) % 256) as u8);
    proof {
        assert(out@ =~= pre + le16(v as int));
    }
}

/// Serialize a volume into the export format's two buffers, the primary
/// voxel payload and the auxiliary geometry descriptor. A volume with a
/// zero dimension is rejected before any byte is written; the extent
/// cap on well-formed volumes already keeps every payload below the
/// format's addressable limit.
pub fn serialize(v: &Volume) -> (r: Result<(Vec<u8>, Vec<u8>), SimError>)
    requires
        v.wf(),
    ensures
        match r {
            Ok(bufs) => {
                &&& v.dims().0 > 0 && v.dims().1 > 0 && v.dims().2 > 0
                &&& bufs.0@ == primary_bytes(v.dims().0, v.dims().1, v.dims().2, v.cells())
                &&& bufs.1@ == header_bytes(v.dims().0, v.dims().1, v.dims().2)
            },
            Err(e) => {
                &&& e == SimError::EncodingError
                &&& (v.dims().0 == 0 || v.dims().1 == 0 || v.dims().2 == 0)
            },
        },
{
    let w = v.width();
    let h = v.height();
    let d = v.depth();
    if w == 0 || h == 0 || d == 0 {
        return Err(SimError::EncodingError);
    }
    let mut aux: Vec<u8> = Vec::new();
    push_u32_le(&mut aux, w as u32);
    push_u32_le(&mut aux, h as u32);
    push_u32_le(&mut aux, d as u32);
    proof {
        assert(aux@ =~= header_bytes(v.dims().0, v.dims().1, v.dims().2));
    }
    let mut primary: Vec<u8> = Vec::new();
    push_u32_le(&mut primary, w as u32);
    push_u32_le(&mut primary, h as u32);
    push_u32_le(&mut primary, d as u32);
    proof {
        assert(primary@ =~= header_bytes(v.dims().0, v.dims().1, v.dims().2));
        assert(v.cells().take(0) =~= Seq::<u16>::empty());
        assert(primary@ =~= header_bytes(v.dims().0, v.dims().1, v.dims().2) + cells_bytes(
            v.cells().take(0),
        ));
    }
    let n = v.len();
    let mut i: usize = 0;
    while i < n
        invariant
            v.wf(),
            n == v.cells().len(),
            i <= n,
            primary@ == header_bytes(v.dims().0, v.dims().1, v.dims().2) + cells_bytes(
                v.cells().take(i as int),
            ),
        decreases n - i,
    {
        let c = v.get_linear(i);
        push_u16_le(&mut primary, c);
        proof {
            assert(v.cells().take(i + 1).drop_last() =~= v.cells().take(i as int));
            assert(v.cells().take(i + 1).last() == v.cells()[i as int]);
            assert(cells_bytes(v.cells().take(i + 1)) == cells_bytes(v.cells().take(i as int))
                + le16(v.cells()[i as int] as int));
        }
        i += 1;
    }
    proof {
        assert(v.cells().take(n as int) =~= v.cells());
    }
    Ok((primary, aux))
}

/// Decode an auxiliary geometry descriptor back into the three
/// dimensions it encodes. Returns `None` exactly on bytes that no
/// well-formed volume's descriptor produces.
pub fn decode_aux(bytes: &Vec<u8>) -> (r: Option<(usize, usize, usize)>)
    ensures
        match r {
            Some(dims) => {
                &&& valid_aux(bytes@)
                &&& dims.0 == u32_at(bytes@, 0)
                &&& dims.1 == u32_at(bytes@, 4)
                &&& dims.2 == u32_at(bytes@, 8)
            },
            None => !valid_aux(bytes@),
        },
{
    if bytes.len() != 12 {
        return None;
    }
    let w = read_u32_le(bytes, 0);
    let h = read_u32_le(bytes, 4);
    let d = read_u32_le(bytes, 8);
    if w > MAX_DIM as u32 || h > MAX_DIM as u32 || d > MAX_DIM as u32 {
        return None;
    }
    Some((w as usize, h as usize, d as usize))
}

/// Read the 32-bit value little-endian encoded at `off`.
fn read_u32_le(bytes: &Vec<u8>, off: usize) -> (r: u32)
    requires
        off + 4 <= bytes@.len(),
    ensures
        r == u32_at(bytes@, off as int),
{
    let n = bytes.len();
    let b0 = bytes[off] as u32;
    let b1 = bytes[off + 1] as u32;
    let b2 = bytes[off + 2] as u32;
    let b3 = bytes[off + 3] as u32;
    b0 + 256 * b1 + 65536 * b2 + 16777216 * b3
}

/// Decode a primary buffer back into the volume it encodes. Returns
/// `None` exactly on bytes that no well-formed volume's primary buffer
/// produces.
pub fn decode_primary(bytes: &Vec<u8>) -> (r: Option<Volume>)
    ensures
        match r {
            Some(v) => {
                &&& valid_primary(bytes@)
                &&& v.wf()
                &&& v.dims().0 == u32_at(bytes@, 0)
                &&& v.dims().1 == u32_at(bytes@, 4)
                &&& v.dims().2 == u32_at(bytes@, 8)
                &&& forall|i: int|
                    0 <= i < v.cells().len() ==> #[trigger] v.cells()[i] == u16_at(
                        bytes@,
                        12 + 2 * i,
                    )
            },
            None => !valid_primary(bytes@),
        },
{
    if bytes.len() < 12 {
        return None;
    }
    let w = read_u32_le(bytes, 0);
    let h = read_u32_le(bytes, 4);
    let d = read_u32_le(bytes, 8);
    if w > MAX_DIM as u32 || h > MAX_DIM as u32 || d > MAX_DIM as u32 {
        return None;
    }
    proof {
        lemma_mul_bound(w as int, h as int, MAX_DIM as int, MAX_DIM as int);
        lemma_mul_bound(
            w as int * h as int,
            d as int,
            MAX_DIM as int * MAX_DIM as int,
            MAX_DIM as int,
        );
    }
    let count = (w as usize) * (h as usize) * (d as usize);
    if bytes.len() != 12 + 2 * count {
        return None;
    }
    let mut cells: Vec<u16> = Vec::new();
    let mut i: usize = 0;
    while i < count
        invariant
            bytes@.len() == 12 + 2 * count,
            count <= 1073741824,
            i <= count,
            cells@.len() == i,
            forall|k: int|
                0 <= k < i ==> #[trigger] cells@[k] == u16_at(bytes@, 12 + 2 * k),
        decreases count - i,
    {
        let lo = bytes[12 + 2 * i] as u16;
        let hi = bytes[12 + 2 * i + 1] as u16;
        cells.push(lo + 256 * hi);
        i += 1;
    }
    Some(Volume::from_parts(w as usize, h as usize, d as usize, cells))
}

/// A 16-bit value is recovered exactly from its two little-endian
/// bytes.
proof fn lemma_u16_recompose(v: int)
    requires
        0 <= v < 65536,
    ensures
        (v % 256) + 256 * ((v / 256) % 256) == v,
{
    vstd::arithmetic::div_mod::lemma_fundamental_div_mod(v, 256);
    vstd::arithmetic::div_mod::lemma_multiply_divide_lt(v, 256, 256);
    vstd::arithmetic::div_mod::lemma_div_pos_is_pos(v, 256);
    vstd::arithmetic::div_mod::lemma_small_mod((v / 256) as nat, 256);
}

/// An in-cap dimension is recovered exactly from its four
/// little-endian bytes.
proof fn lemma_dim_recompose(v: int)
    requires
        0 <= v <= MAX_DIM,
    ensures
        u32_at(le32(v), 0) == v,
{
    lemma_u16_recompose(v);
    vstd::arithmetic::div_mod::lemma_basic_div(v, 65536);
    vstd::arithmetic::div_mod::lemma_basic_div(v, 16777216);
}

/// The cell payload holds two bytes per cell.
pub proof fn lemma_cells_bytes_len(cs: Seq<u16>)
    ensures
        cells_bytes(cs).len() == 2 * cs.len(),
    decreases cs.len(),
{
    if cs.len() > 0 {
        lemma_cells_bytes_len(cs.drop_last());
    }
}

/// The two bytes of cell `i` sit at offsets `2i` and `2i + 1` of the
/// cell payload.
proof fn lemma_cells_bytes_index(cs: Seq<u16>, i: int)
    requires
        0 <= i < cs.len(),
    ensures
        cells_bytes(cs).len() == 2 * cs.len(),
        cells_bytes(cs)[2 * i] == (cs[i] as int % 256) as u8,
        cells_bytes(cs)[2 * i + 1] == ((cs[i] as int / 256) % 256) as u8,
    decreases cs.len(),
{
    lemma_cells_bytes_len(cs);
    if i == cs.len() - 1 {
        lemma_cells_bytes_len(cs.drop_last());
    } else {
        lemma_cells_bytes_index(cs.drop_last(), i);
    }
}

/// Serialization round trip: the primary buffer a well-formed volume
/// produces is itself valid, and it determines the three dimensions and
/// every cell value exactly — decoding reproduces the encoder's input.
pub proof fn lemma_primary_round_trip(w: int, h: int, d: int, cs: Seq<u16>, bytes: Seq<u8>)
    requires
        0 < w <= MAX_DIM,
        0 < h <= MAX_DIM,
        0 < d <= MAX_DIM,
        cs.len() == w * h * d,
        bytes == primary_bytes(w, h, d, cs),
    ensures
        valid_primary(bytes),
        u32_at(bytes, 0) == w,
        u32_at(bytes, 4) == h,
        u32_at(bytes, 8) == d,
        forall|i: int| 0 <= i < cs.len() ==> u16_at(bytes, 12 + 2 * i) == cs[i],
{
    lemma_cells_bytes_len(cs);
    lemma_dim_recompose(w);
    lemma_dim_recompose(h);
    lemma_dim_recompose(d);
    assert(u32_at(bytes, 0) == u32_at(le32(w), 0));
    assert(u32_at(bytes, 4) == u32_at(le32(h), 0));
    assert(u32_at(bytes, 8) == u32_at(le32(d), 0));
    assert forall|i: int| 0 <= i < cs.len() implies u16_at(bytes, 12 + 2 * i) == cs[i] by {
        lemma_cells_bytes_index(cs, i);
        assert(bytes[12 + 2 * i] == cells_bytes(cs)[2 * i]);
        assert(bytes[12 + 2 * i + 1] == cells_bytes(cs)[2 * i + 1]);
        lemma_u16_recompose(cs[i] as int);
    }
}

/// Serialization round trip for the auxiliary descriptor: it is valid
/// and determines the three dimensions exactly.
pub proof fn lemma_aux_round_trip(w: int, h: int, d: int, bytes: Seq<u8>)
    requires
        0 < w <= MAX_DIM,
        0 < h <= MAX_DIM,
        0 < d <= MAX_DIM,
        bytes == header_bytes(w, h, d),
    ensures
        valid_aux(bytes),
        u32_at(bytes, 0) == w,
        u32_at(bytes, 4) == h,
        u32_at(bytes, 8) == d,
{
    lemma_dim_recompose(w);
    lemma_dim_recompose(h);
    lemma_dim_recompose(d);
    assert(u32_at(bytes, 0) == u32_at(le32(w), 0));
    assert(u32_at(bytes, 4) == u32_at(le32(h), 0));
    assert(u32_at(bytes, 8) == u32_at(le32(d), 0));
}

} // verus!
