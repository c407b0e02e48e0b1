//! The geohash grid: the 26-bit grid numbers of a position interleave into
//! a 52-bit score, latitude in the even bits and longitude in the odd.
//! Compaction inverts the spread exactly, so decoding a score lands in the
//! grid cell it was encoded from.  Turning coordinates into grid numbers
//! and back into cell centres is floating-point work and lives with the
//! callers; everything on this side is exact.
use vstd::prelude::*;

verus! {

/// Every second bit of the result carries one bit of `v`.
pub open spec fn spread_spec(v: i64) -> i64 {
    let a = v & 0xFFFFFFFF;
    let b = (a | (a << 16)) & 0x0000FFFF0000FFFF;
    let c = (b | (b << 8)) & 0x00FF00FF00FF00FF;
    let d = (c | (c << 4)) & 0x0F0F0F0F0F0F0F0F;
    let e = (d | (d << 2)) & 0x3333333333333333;
    (e | (e << 1)) & 0x5555555555555555
}

/// The even bits of `v`, packed back together.
pub open spec fn compact_spec(v: i64) -> i64 {
    let a = v & 0x5555555555555555;
    let b = (a | (a >> 1)) & 0x3333333333333333;
    let c = (b | (b >> 2)) & 0x0F0F0F0F0F0F0F0F;
    let d = (c | (c >> 4)) & 0x00FF00FF00FF00FF;
    let e = (d | (d >> 8)) & 0x0000FFFF0000FFFF;
    (e | (e >> 16)) & 0x00000000FFFFFFFF
}

/// The interleaving of two spread grid numbers: `x` in the even bits, `y`
/// in the odd.
pub open spec fn interleave_spec(x: i64, y: i64) -> i64 {
    spread_spec(x) | (spread_spec(y) << 1)
}

/// Spread the bits of a 32-bit grid number over every second bit.
pub fn spread_i32_to_i64(v: i32) -> (r: i64)
    ensures
        r == spread_spec(v as i64),
{
    let v: i64 = v as i64 & 0xFFFFFFFF;
    let v = (v | (v << 16)) & 0x0000FFFF0000FFFF;
    let v = (v | (v << 8)) & 0x00FF00FF00FF00FF;
    let v = (v | (v << 4)) & 0x0F0F0F0F0F0F0F0F;
    let v = (v | (v << 2)) & 0x3333333333333333;
    (v | (v << 1)) & 0x5555555555555555
}

/// Pack the even bits of a spread value back into a 32-bit grid number:
/// the packed value taken as a 32-bit two's-complement word.
pub fn compact_i64_to_i32(v: i64) -> (r: i32)
    ensures
        compact_spec(v) < 0x80000000 ==> r as i64 == compact_spec(v),
        compact_spec(v) >= 0x80000000 ==> r as i64 == compact_spec(v) - 0x100000000,
{
    let ghost v0 = v;
    let v = v & 0x5555555555555555;
    let v = (v | (v >> 1)) & 0x3333333333333333;
    let v = (v | (v >> 2)) & 0x0F0F0F0F0F0F0F0F;
    let v = (v | (v >> 4)) & 0x00FF00FF00FF00FF;
    let v = (v | (v >> 8)) & 0x0000FFFF0000FFFF;
    let w = v | (v >> 16);
    let v = w & 0x00000000FFFFFFFF;
    proof {
        assert(v == compact_spec(v0));
        assert((w & 0x00000000FFFFFFFFi64) >= 0 && (w & 0x00000000FFFFFFFFi64)
            < 0x100000000i64) by (bit_vector);
    }
    if v < 0x80000000 {
        v as i32
    } else {
        (v - 0x100000000) as i32
    }
}

/// Interleave two grid numbers into one score: `x` in the even bits, `y`
/// in the odd.
pub fn interleave(x: i32, y: i32) -> (r: i64)
    ensures
        r == interleave_spec(x as i64, y as i64),
{
    let xs = spread_i32_to_i64(x);
    let ys = spread_i32_to_i64(y);
    let y_shifted = ys << 1;
    xs | y_shifted
}

/// Compacting a spread grid number gives it back whole.
proof fn lemma_spread_compact(v: i64)
    requires
        0 <= v < 0x4000000,
    ensures
        compact_spec(spread_spec(v)) == v,
{
    assert({
        let a0 = v & 0xFFFFFFFF;
        let b0 = (a0 | (a0 << 16)) & 0x0000FFFF0000FFFF;
        let c0 = (b0 | (b0 << 8)) & 0x00FF00FF00FF00FF;
        let d0 = (c0 | (c0 << 4)) & 0x0F0F0F0F0F0F0F0F;
        let e0 = (d0 | (d0 << 2)) & 0x3333333333333333;
        let s = (e0 | (e0 << 1)) & 0x5555555555555555;
        let a = s & 0x5555555555555555;
        let b = (a | (a >> 1)) & 0x3333333333333333;
        let c = (b | (b >> 2)) & 0x0F0F0F0F0F0F0F0F;
        let d = (c | (c >> 4)) & 0x00FF00FF00FF00FF;
        let e = (d | (d >> 8)) & 0x0000FFFF0000FFFF;
        ((e | (e >> 16)) & 0x00000000FFFFFFFF) == v
    }) by (bit_vector)
        requires
            0 <= v < 0x4000000,
    ;
}

/// The even bits of an interleaving are the spread of its first number;
/// shifted down one, its odd bits are the spread of the second.
proof fn lemma_interleave_parts(x: i64, y: i64)
    requires
        0 <= x < 0x4000000,
        0 <= y < 0x4000000,
    ensures
        compact_spec(interleave_spec(x, y)) == compact_spec(spread_spec(x)),
        compact_spec(interleave_spec(x, y) >> 1) == compact_spec(spread_spec(y)),
{
    assert({
        let ax = x & 0xFFFFFFFF;
        let bx = (ax | (ax << 16)) & 0x0000FFFF0000FFFF;
        let cx = (bx | (bx << 8)) & 0x00FF00FF00FF00FF;
        let dx = (cx | (cx << 4)) & 0x0F0F0F0F0F0F0F0F;
        let ex = (dx | (dx << 2)) & 0x3333333333333333;
        let sx = (ex | (ex << 1)) & 0x5555555555555555;
        let ay = y & 0xFFFFFFFF;
        let by = (ay | (ay << 16)) & 0x0000FFFF0000FFFF;
        let cy = (by | (by << 8)) & 0x00FF00FF00FF00FF;
        let dy = (cy | (cy << 4)) & 0x0F0F0F0F0F0F0F0F;
        let ey = (dy | (dy << 2)) & 0x3333333333333333;
        let sy = (ey | (ey << 1)) & 0x5555555555555555;
        let z = sx | (sy << 1);
        (z & 0x5555555555555555) == (sx & 0x5555555555555555) && ((z >> 1)
            & 0x5555555555555555) == (sy & 0x5555555555555555)
    }) by (bit_vector)
        requires
            0 <= x < 0x4000000,
            0 <= y < 0x4000000,
    ;
}

/// Geohash round trip: decoding the interleaved score of two 26-bit grid
/// numbers gives both numbers back exactly, so the decoded position lies
/// in the same grid cell as the encoded one.
pub proof fn lemma_geohash_round_trip(x: i64, y: i64)
    requires
        0 <= x < 0x4000000,
        0 <= y < 0x4000000,
    ensures
        compact_spec(interleave_spec(x, y)) == x,
        compact_spec(interleave_spec(x, y) >> 1) == y,
{
    lemma_interleave_parts(x, y);
    lemma_spread_compact(x);
    lemma_spread_compact(y);
}

/// Split a score back into its grid numbers: latitude from the even bits,
/// longitude from the odd.
pub fn decode_grid(geo_code: i64) -> (r: (i32, i32))
    ensures
        compact_spec(geo_code) < 0x80000000 ==> r.0 as i64 == compact_spec(geo_code),
        compact_spec(geo_code) >= 0x80000000 ==> r.0 as i64 == compact_spec(geo_code)
            - 0x100000000,
        compact_spec(geo_code >> 1) < 0x80000000 ==> r.1 as i64 == compact_spec(
            geo_code >> 1,
        ),
        compact_spec(geo_code >> 1) >= 0x80000000 ==> r.1 as i64 == compact_spec(
            geo_code >> 1,
        ) - 0x100000000,
{
    let x = geo_code;
    let y = geo_code >> 1;
    let grid_latitude_number = compact_i64_to_i32(x);
    let grid_longitude_number = compact_i64_to_i32(y);
    (grid_latitude_number, grid_longitude_number)
}

} // verus!
