//! Web-Mercator tile addressing: the quadtree of tile coordinates, the tiles
//! that cover a point, and Bing quadkeys.

use vstd::arithmetic::div_mod::*;
use vstd::arithmetic::mul::*;
use vstd::arithmetic::power2::*;
use vstd::bits::*;
use vstd::prelude::*;
use vstd::string::*;

verus! {

/// Deepest zoom level whose column and row numbers fit in 64 bits.
pub const MAX_ZOOM: u8 = 64;

/// Address of a Web-Mercator tile: column `x` and row `y` at zoom level `z`.
#[derive(Clone, Copy, Debug, PartialEq, Eq, Structural)]
pub struct TileCoord {
    pub x: u64,
    pub y: u64,
    pub z: u8,
}

/// Column and row both lie inside the `2^z` by `2^z` grid of level `z`.
pub open spec fn in_extent(x: u64, y: u64, z: u8) -> bool {
    (x as nat) < pow2(z as nat) && (y as nat) < pow2(z as nat)
}

/// The `k`-th root tile of level `z`, columns outermost.
pub open spec fn root_tile(z: u8, k: int) -> TileCoord {
    TileCoord { x: (k / pow2(z as nat) as int) as u64, y: (k % pow2(z as nat) as int) as u64, z }
}

impl TileCoord {
    /// A coordinate that names a tile: the level is at most `MAX_ZOOM` and the
    /// column and row lie inside its grid.
    pub open spec fn wf(self) -> bool {
        self.z <= MAX_ZOOM && in_extent(self.x, self.y, self.z)
    }

    /// The `k`-th of the four tiles one level below; `k` is the quadkey digit
    /// of the child: bit 0 picks the column, bit 1 the row.
    pub open spec fn child(self, k: int) -> TileCoord {
        TileCoord {
            x: (2 * self.x + k % 2) as u64,
            y: (2 * self.y + k / 2) as u64,
            z: (self.z + 1) as u8,
        }
    }

    /// The tile one level above that contains this one.
    pub open spec fn parent_spec(self) -> TileCoord {
        TileCoord { x: self.x / 2, y: self.y / 2, z: (self.z - 1) as u8 }
    }

    /// `p` lies inside this tile: it is this tile or one of its descendants.
    /// With `p` at the deepest level this says that the tile's square
    /// contains the grid cell `p`.
    pub open spec fn covers(self, p: TileCoord) -> bool {
        &&& self.z <= p.z
        &&& p.x as int / pow2((p.z - self.z) as nat) as int == self.x
        &&& p.y as int / pow2((p.z - self.z) as nat) as int == self.y
    }

    /// Whether column and row lie inside the grid of the tile's level. Every
    /// 64-bit column and row does from level 64 on.
    pub fn is_valid(&self) -> (ok: bool)
        ensures
            ok == in_extent(self.x, self.y, self.z),
    {
        if self.z >= 64 {
            proof {
                lemma2_to64_rest();
                if self.z > 64 {
                    lemma_pow2_strictly_increases(64, self.z as nat);
                }
            }
            true
        } else {
            let side: u64 = 1u64 << self.z;
            proof {
                lemma_side_is_pow2(self.z);
            }
            self.x < side && self.y < side
        }
    }

    /// All tiles of level `z`, column by column.
    pub fn get_root_tiles(z: u8) -> (tiles: Vec<TileCoord>)
        requires
            z < 64,
        ensures
            tiles@.len() == pow2(z as nat) * pow2(z as nat),
            forall|k: int| 0 <= k < tiles@.len() ==> #[trigger] tiles@[k] == root_tile(z, k),
            forall|k: int| 0 <= k < tiles@.len() ==> (#[trigger] tiles@[k]).wf(),
    {
        let side: u64 = 1u64 << z;
        proof {
            lemma_side_is_pow2(z);
        }
        let mut tiles: Vec<TileCoord> = Vec::new();
        let mut x: u64 = 0;
        while x < side
            invariant
                x <= side,
                side == pow2(z as nat),
                z < 64,
                tiles@.len() == x * side,
                forall|k: int| 0 <= k < tiles@.len() ==> #[trigger] tiles@[k] == root_tile(z, k),
            decreases side - x,
        {
            let mut y: u64 = 0;
            while y < side
                invariant
                    x < side,
                    y <= side,
                    side == pow2(z as nat),
                    z < 64,
                    tiles@.len() == x * side + y,
                    forall|k: int| 0 <= k < tiles@.len() ==> #[trigger] tiles@[k] == root_tile(z, k),
                decreases side - y,
            {
                proof {
                    lemma_fundamental_div_mod_converse(
                        x * side + y,
                        side as int,
                        x as int,
                        y as int,
                    );
                }
                tiles.push(TileCoord { x, y, z });
                y += 1;
            }
            proof {
                assert(x * side + side == (x + 1) * side) by (nonlinear_arith);
            }
            x += 1;
        }
        proof {
            assert forall|k: int| 0 <= k < tiles@.len() implies (#[trigger] tiles@[k]).wf() by {
                lemma_root_tile_wf(z, k);
            }
        }
        tiles
    }

    /// The four tiles one level below, in quadkey-digit order.
    pub fn children(&self) -> (kids: [TileCoord; 4])
        requires
            self.wf(),
            self.z < MAX_ZOOM,
        ensures
            forall|k: int| 0 <= k < 4 ==> #[trigger] kids[k] == self.child(k),
            forall|k: int| 0 <= k < 4 ==> (#[trigger] kids[k]).wf(),
    {
        proof {
            lemma2_to64_rest();
            if self.z < 63 {
                lemma_pow2_strictly_increases(self.z as nat, 63);
            }
            lemma_child_wf(*self, 0);
            lemma_child_wf(*self, 1);
            lemma_child_wf(*self, 2);
            lemma_child_wf(*self, 3);
        }
        let x0: u64 = 2 * self.x;
        let y0: u64 = 2 * self.y;
        let z1: u8 = self.z + 1;
        [
            TileCoord { x: x0, y: y0, z: z1 },
            TileCoord { x: x0 + 1, y: y0, z: z1 },
            TileCoord { x: x0, y: y0 + 1, z: z1 },
            TileCoord { x: x0 + 1, y: y0 + 1, z: z1 },
        ]
    }

    /// The tile one level above that contains this one; level 0 has none.
    pub fn parent(&self) -> (up: Option<TileCoord>)
        ensures
            self.z == 0 ==> up is None,
            self.z > 0 ==> up == Some(self.parent_spec()),
    {
        if self.z == 0 {
            None
        } else {
            Some(TileCoord { x: self.x / 2, y: self.y / 2, z: self.z - 1 })
        }
    }
}

/// `1 << z` is the side of the grid of level `z`.
pub proof fn lemma_side_is_pow2(z: u8)
    requires
        z < 64,
    ensures
        (1u64 << z) == pow2(z as nat),
{
    lemma2_to64_rest();
    if z < 63 {
        lemma_pow2_strictly_increases(z as nat, 63);
    }
    assert(1 * pow2(z as nat) <= u64::MAX);
    lemma_u64_shl_is_mul(1u64, z as u64);
    assert((1u64 << (z as u64)) == (1u64 << z)) by (bit_vector);
}

/// Every listed root tile names a tile.
pub proof fn lemma_root_tile_wf(z: u8, k: int)
    requires
        z < 64,
        0 <= k < pow2(z as nat) * pow2(z as nat),
    ensures
        root_tile(z, k).wf(),
        root_tile(z, k).x == k / pow2(z as nat) as int,
        root_tile(z, k).y == k % pow2(z as nat) as int,
{
    let side = pow2(z as nat) as int;
    lemma_pow2_pos(z as nat);
    lemma2_to64_rest();
    if z < 63 {
        lemma_pow2_strictly_increases(z as nat, 63);
    }
    lemma_fundamental_div_mod(k, side);
    lemma_mod_bound(k, side);
    assert(0 <= k / side < side) by (nonlinear_arith)
        requires
            0 <= k < side * side,
            side > 0,
            k == side * (k / side) + k % side,
            0 <= k % side < side,
    ;
}

/// The children of a tile are tiles.
pub proof fn lemma_child_wf(t: TileCoord, k: int)
    requires
        t.wf(),
        t.z < MAX_ZOOM,
        0 <= k < 4,
    ensures
        t.child(k).wf(),
        t.child(k).x == 2 * t.x + k % 2,
        t.child(k).y == 2 * t.y + k / 2,
        t.child(k).z == t.z + 1,
        t.child(k).parent_spec() == t,
{
    lemma_pow2_unfold((t.z + 1) as nat);
    lemma2_to64_rest();
    if t.z < 63 {
        lemma_pow2_strictly_increases((t.z + 1) as nat, 64);
    }
}


/// The quadkey digit of a column bit and a row bit.
pub open spec fn quadkey_digit(d: nat) -> char {
    if d == 0 {
        '0'
    } else if d == 1 {
        '1'
    } else if d == 2 {
        '2'
    } else {
        '3'
    }
}

/// Value of a quadkey digit; `None` for any other character.
pub open spec fn quadkey_digit_value(c: char) -> Option<nat> {
    if c == '0' {
        Some(0)
    } else if c == '1' {
        Some(1)
    } else if c == '2' {
        Some(2)
    } else if c == '3' {
        Some(3)
    } else {
        None
    }
}

/// Bing quadkey of the low `z` bits of `x` and `y`: one digit per level, the
/// coarsest level first; each digit is the column bit plus twice the row bit.
pub open spec fn bing_quadkey(x: nat, y: nat, z: nat) -> Seq<char>
    decreases z,
{
    if z == 0 {
        Seq::empty()
    } else {
        bing_quadkey(x / 2, y / 2, (z - 1) as nat).push(quadkey_digit(x % 2 + 2 * (y % 2)))
    }
}

/// Column and row spelled by a string of quadkey digits; `None` when some
/// character is no quadkey digit.
pub open spec fn quadkey_decode(s: Seq<char>) -> Option<(nat, nat)>
    decreases s.len(),
{
    if s.len() == 0 {
        Some((0, 0))
    } else {
        match (quadkey_decode(s.drop_last()), quadkey_digit_value(s.last())) {
            (Some((x, y)), Some(d)) => Some((2 * x + d % 2, 2 * y + d / 2)),
            _ => None,
        }
    }
}

/// What is left of `x` above its low `i` bits.
pub open spec fn high_bits(x: nat, i: nat) -> nat {
    x / pow2(i)
}

/// Bing quadkey of tile `(x, y)` at level `z`: `z` digits, the digit of bit
/// `i` (from `z - 1` down to 0) being `((x >> i) & 1) | (((y >> i) & 1) << 1)`.
pub fn xyz_to_bing_quadkey(x: u64, y: u64, z: u8) -> (key: String)
    requires
        z <= MAX_ZOOM,
    ensures
        key@ == bing_quadkey(x as nat, y as nat, z as nat),
        key@.len() == z,
{
    let mut key = String::new();
    let mut i: u8 = z;
    proof {
        assert(key@ =~= bing_quadkey(high_bits(x as nat, i as nat), high_bits(y as nat, i as nat), 0));
    }
    while i > 0
        invariant
            i <= z <= MAX_ZOOM,
            key@ == bing_quadkey(
                high_bits(x as nat, i as nat),
                high_bits(y as nat, i as nat),
                (z - i) as nat,
            ),
            key@.len() == z - i,
        decreases i,
    {
        let shift: u8 = i - 1;
        let xb: u64 = (x >> shift) & 1;
        let yb: u64 = (y >> shift) & 1;
        proof {
            let xs = x >> shift;
            let ys = y >> shift;
            assert((x >> (shift as u64)) == xs) by (bit_vector)
                requires
                    xs == x >> shift,
            ;
            assert((y >> (shift as u64)) == ys) by (bit_vector)
                requires
                    ys == y >> shift,
            ;
            lemma_u64_shr_is_div(x, shift as u64);
            lemma_u64_shr_is_div(y, shift as u64);
            assert(xs & 1 == xs % 2) by (bit_vector);
            assert(ys & 1 == ys % 2) by (bit_vector);
            lemma_pow2_unfold(i as nat);
            lemma_pow2_pos(shift as nat);
            lemma_div_denominator(x as int, pow2(shift as nat) as int, 2);
            lemma_div_denominator(y as int, pow2(shift as nat) as int, 2);
        }
        let d: u64 = xb + 2 * yb;
        let c: char = if d == 0 {
            '0'
        } else if d == 1 {
            '1'
        } else if d == 2 {
            '2'
        } else {
            '3'
        };
        key.push(c);
        i = shift;
    }
    proof {
        lemma2_to64();
        assert(pow2(0) == 1);
        assert((x as nat) / 1 == x as nat);
        assert((y as nat) / 1 == y as nat);
        assert(high_bits(x as nat, 0) == x as nat);
        assert(high_bits(y as nat, 0) == y as nat);
    }
    key
}

/// Reads a Bing quadkey back into `(x, y, z)`. `None` when the key is longer
/// than `MAX_ZOOM` digits or holds a character other than `0`..`3`.
pub fn bing_quadkey_to_xyz(key: &str) -> (tile: Option<(u64, u64, u8)>)
    ensures
        tile is Some <==> key@.len() <= MAX_ZOOM && quadkey_decode(key@) is Some,
        tile matches Some(t) ==> quadkey_decode(key@) == Some((t.0 as nat, t.1 as nat))
            && t.2 == key@.len() && in_extent(t.0, t.1, t.2),
{
    let n = key.unicode_len();
    if n > 64 {
        return None;
    }
    let mut x: u64 = 0;
    let mut y: u64 = 0;
    let mut i: usize = 0;
    proof {
        lemma2_to64();
        assert(key@.subrange(0, 0) =~= Seq::<char>::empty());
    }
    while i < n
        invariant
            i <= n <= 64,
            n == key@.len(),
            quadkey_decode(key@.subrange(0, i as int)) == Some((x as nat, y as nat)),
            (x as nat) < pow2(i as nat),
            (y as nat) < pow2(i as nat),
        decreases n - i,
    {
        let c = key.get_char(i);
        let d: u64 = if c == '0' {
            0
        } else if c == '1' {
            1
        } else if c == '2' {
            2
        } else if c == '3' {
            3
        } else {
            proof {
                lemma_decode_prefix_fails(key@, i as int + 1);
            }
            return None;
        };
        proof {
            let pre = key@.subrange(0, i as int + 1);
            assert(pre.drop_last() =~= key@.subrange(0, i as int));
            assert(pre.last() == c);
            lemma_pow2_unfold((i + 1) as nat);
            lemma2_to64_rest();
            if i + 1 < 64 {
                lemma_pow2_strictly_increases((i + 1) as nat, 64);
            }
        }
        x = 2 * x + d % 2;
        y = 2 * y + d / 2;
        i += 1;
    }
    proof {
        assert(key@.subrange(0, n as int) =~= key@);
    }
    Some((x, y, n as u8))
}

/// A key whose prefix does not decode does not decode.
proof fn lemma_decode_prefix_fails(s: Seq<char>, n: int)
    requires
        0 <= n <= s.len(),
        quadkey_decode(s.subrange(0, n)) is None,
    ensures
        quadkey_decode(s) is None,
    decreases s.len() - n,
{
    if n < s.len() {
        let pre = s.subrange(0, n + 1);
        assert(pre.drop_last() =~= s.subrange(0, n));
        lemma_decode_prefix_fails(s, n + 1);
    } else {
        assert(s.subrange(0, n) =~= s);
    }
}

/// Quadkey round trip, on all bits: decoding the quadkey of `(x, y, z)` gives
/// back the low `z` bits of `x` and of `y`.
pub proof fn lemma_quadkey_decode_encode(x: nat, y: nat, z: nat)
    ensures
        bing_quadkey(x, y, z).len() == z,
        quadkey_decode(bing_quadkey(x, y, z)) == Some((x % pow2(z), y % pow2(z))),
    decreases z,
{
    if z == 0 {
        lemma2_to64();
    } else {
        let rest = bing_quadkey(x / 2, y / 2, (z - 1) as nat);
        let d = x % 2 + 2 * (y % 2);
        let key = bing_quadkey(x, y, z);
        lemma_quadkey_decode_encode(x / 2, y / 2, (z - 1) as nat);
        assert(key.drop_last() =~= rest);
        assert(key.last() == quadkey_digit(d));
        assert(quadkey_digit_value(quadkey_digit(d)) == Some(d));
        let m = pow2((z - 1) as nat);
        lemma_pow2_pos((z - 1) as nat);
        lemma_pow2_unfold(z);
        lemma_mod_breakdown(x as int, 2, m as int);
        lemma_mod_breakdown(y as int, 2, m as int);
        assert(d % 2 == x % 2);
        assert(d / 2 == y % 2);
    }
}

/// Quadkey round trip: for a tile inside the grid of its level, the bit-pair
/// decode of its quadkey yields back the tile.
pub proof fn lemma_quadkey_round_trip(x: u64, y: u64, z: u8)
    requires
        z <= MAX_ZOOM,
        in_extent(x, y, z),
    ensures
        bing_quadkey(x as nat, y as nat, z as nat).len() == z,
        quadkey_decode(bing_quadkey(x as nat, y as nat, z as nat)) == Some((x as nat, y as nat)),
{
    lemma_quadkey_decode_encode(x as nat, y as nat, z as nat);
    lemma_small_mod(x as nat, pow2(z as nat));
    lemma_small_mod(y as nat, pow2(z as nat));
}

/// Cover, existence: every tile `p` at level `z0` or deeper lies inside some
/// root tile of level `z0`, so the root tiles together cover the whole
/// Mercator square.
pub proof fn lemma_root_tiles_cover(z0: u8, p: TileCoord)
    requires
        z0 < 64,
        p.wf(),
        z0 <= p.z,
    ensures
        exists|k: int|
            0 <= k < pow2(z0 as nat) * pow2(z0 as nat) && (#[trigger] root_tile(z0, k)).covers(p),
{
    let side = pow2(z0 as nat) as int;
    let step = pow2((p.z - z0) as nat) as int;
    lemma_pow2_pos(z0 as nat);
    lemma_pow2_pos((p.z - z0) as nat);
    lemma_pow2_adds(z0 as nat, (p.z - z0) as nat);
    let rx = p.x as int / step;
    let ry = p.y as int / step;
    lemma_div_pos_is_pos(p.x as int, step);
    lemma_div_pos_is_pos(p.y as int, step);
    assert(rx < side) by {
        lemma_multiply_divide_lt(p.x as int, step, side);
    }
    assert(ry < side) by {
        lemma_multiply_divide_lt(p.y as int, step, side);
    }
    let k = rx * side + ry;
    lemma_fundamental_div_mod_converse(k, side, rx, ry);
    assert(0 <= k < side * side) by (nonlinear_arith)
        requires
            0 <= rx < side,
            0 <= ry < side,
            k == rx * side + ry,
    ;
    lemma_root_tile_wf(z0, k);
    assert(root_tile(z0, k).covers(p));
}

/// Cover, disjointness: two different root tiles of one level share no tile.
pub proof fn lemma_root_tiles_disjoint(z0: u8, a: int, b: int, p: TileCoord)
    requires
        z0 < 64,
        0 <= a < pow2(z0 as nat) * pow2(z0 as nat),
        0 <= b < pow2(z0 as nat) * pow2(z0 as nat),
        a != b,
    ensures
        !(root_tile(z0, a).covers(p) && root_tile(z0, b).covers(p)),
{
    let side = pow2(z0 as nat) as int;
    lemma_pow2_pos(z0 as nat);
    lemma_root_tile_wf(z0, a);
    lemma_root_tile_wf(z0, b);
    lemma_fundamental_div_mod(a, side);
    lemma_fundamental_div_mod(b, side);
}


/// Lying inside carries on: what lies inside a tile lies inside every tile
/// that tile lies inside.
pub proof fn lemma_covers_transitive(a: TileCoord, b: TileCoord, c: TileCoord)
    requires
        a.covers(b),
        b.covers(c),
    ensures
        a.covers(c),
{
    let lo = (c.z - b.z) as nat;
    let hi = (b.z - a.z) as nat;
    lemma_pow2_pos(lo);
    lemma_pow2_pos(hi);
    lemma_pow2_adds(lo, hi);
    lemma_div_denominator(c.x as int, pow2(lo) as int, pow2(hi) as int);
    lemma_div_denominator(c.y as int, pow2(lo) as int, pow2(hi) as int);
}

/// On each level at most one tile holds a given tile inside it.
pub proof fn lemma_covers_same_level(a: TileCoord, b: TileCoord, p: TileCoord)
    requires
        a.covers(p),
        b.covers(p),
        a.z == b.z,
    ensures
        a == b,
{
}

/// A tile lies inside its parent.
pub proof fn lemma_parent_covers_child(t: TileCoord, k: int)
    requires
        t.wf(),
        t.z < MAX_ZOOM,
        0 <= k < 4,
    ensures
        t.covers(t.child(k)),
{
    lemma_child_wf(t, k);
    lemma2_to64();
}

/// The root tiles of a level are listed once each.
pub proof fn lemma_root_tile_injective(z: u8, a: int, b: int)
    requires
        z < 64,
        0 <= a < pow2(z as nat) * pow2(z as nat),
        0 <= b < pow2(z as nat) * pow2(z as nat),
        root_tile(z, a) == root_tile(z, b),
    ensures
        a == b,
{
    let side = pow2(z as nat) as int;
    lemma_pow2_pos(z as nat);
    lemma_root_tile_wf(z, a);
    lemma_root_tile_wf(z, b);
    lemma_fundamental_div_mod(a, side);
    lemma_fundamental_div_mod(b, side);
}

/// The four children of a tile split it exactly: a tile `p` that lies deeper
/// inside `t` lies inside one child of `t` and in no other.
pub proof fn lemma_children_partition(t: TileCoord, p: TileCoord)
    requires
        t.wf(),
        p.wf(),
        t.z < p.z,
        t.covers(p),
    ensures
        exists|k: int| 0 <= k < 4 && (#[trigger] t.child(k)).covers(p),
        forall|j: int, k: int|
            0 <= j < 4 && 0 <= k < 4 && (#[trigger] t.child(j)).covers(p) && (#[trigger] t.child(
                k,
            )).covers(p) ==> j == k,
{
    let e = (p.z - t.z - 1) as nat;
    let step = pow2(e) as int;
    lemma_pow2_pos(e);
    lemma_pow2_unfold((p.z - t.z) as nat);
    let cx = p.x as int / step;
    let cy = p.y as int / step;
    lemma_div_denominator(p.x as int, step, 2);
    lemma_div_denominator(p.y as int, step, 2);
    assert(step * 2 == pow2((p.z - t.z) as nat));
    assert(cx / 2 == t.x);
    assert(cy / 2 == t.y);
    let k = cx % 2 + 2 * (cy % 2);
    lemma_child_wf(t, 0);
    lemma_child_wf(t, 1);
    lemma_child_wf(t, 2);
    lemma_child_wf(t, 3);
    assert(t.child(k).covers(p));
}

} // verus!
