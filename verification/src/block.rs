//! The dose block: a validated rectilinear grid of node coordinates with one
//! dose value and one uncertainty value per voxel.

use vstd::prelude::*;

use crate::scalar::{coord_wf, num_text, Scalar};
use vstd::arithmetic::div_mod::{
    lemma_div_denominator, lemma_fundamental_div_mod, lemma_fundamental_div_mod_converse,
    lemma_mod_bound,
};

verus! {

/// Dose and uncertainty data for a 3D rectilinear hexahedral mesh.
///
/// Coordinates are exact decimal scalars in centimetres; the dose
/// (gray-centimetres squared) and fractional uncertainty of each voxel are
/// carried as their validated input tokens. Voxel data is ordered with the
/// x index varying fastest, then y, then z.
#[derive(Debug, Clone)]
pub struct DoseBlock {
    /// Node coordinates along *x*.
    pub xs: Vec<Scalar>,
    /// Node coordinates along *y*.
    pub ys: Vec<Scalar>,
    /// Node coordinates along *z*.
    pub zs: Vec<Scalar>,
    /// Per-voxel dose values, as text.
    pub doses: Vec<String>,
    /// Per-voxel fractional uncertainties, as text.
    pub uncerts: Vec<String>,
}

impl DoseBlock {
    /// The structural invariant: at least one voxel per axis, the node count
    /// fits the machine word, every coordinate is a well-formed coordinate
    /// scalar, every value token is nonempty numeric text, and both value
    /// vectors hold exactly one entry per voxel.
    pub open spec fn wf(&self) -> bool {
        &&& self.xs@.len() >= 2
        &&& self.ys@.len() >= 2
        &&& self.zs@.len() >= 2
        &&& self.xs@.len() * self.ys@.len() * self.zs@.len() <= usize::MAX
        &&& self.doses@.len() == (self.xs@.len() - 1) * (self.ys@.len() - 1) * (self.zs@.len() - 1)
        &&& self.uncerts@.len() == self.doses@.len()
        &&& forall|i: int| 0 <= i < self.xs@.len() ==> coord_wf(self.xs@[i])
        &&& forall|i: int| 0 <= i < self.ys@.len() ==> coord_wf(self.ys@[i])
        &&& forall|i: int| 0 <= i < self.zs@.len() ==> coord_wf(self.zs@[i])
        &&& forall|i: int| 0 <= i < self.doses@.len() ==> num_text(self.doses@[i]@)
        &&& forall|i: int| 0 <= i < self.uncerts@.len() ==> num_text(self.uncerts@[i]@)
    }

    /// Number of voxels along *x*.
    pub open spec fn nx(&self) -> int {
        self.xs@.len() - 1
    }

    /// Number of voxels along *y*.
    pub open spec fn ny(&self) -> int {
        self.ys@.len() - 1
    }

    /// Number of voxels along *z*.
    pub open spec fn nz(&self) -> int {
        self.zs@.len() - 1
    }

    /// Total voxel count.
    pub open spec fn voxel_total(&self) -> int {
        self.nx() * self.ny() * self.nz()
    }

    /// Total node count.
    pub open spec fn node_total(&self) -> int {
        (self.xs@.len() * self.ys@.len() * self.zs@.len()) as int
    }

    /// The flattened identifier of lattice node `(i, j, k)`: x fastest, then
    /// y, then z.
    pub open spec fn node_id(&self, i: int, j: int, k: int) -> int {
        i + self.xs@.len() * j + self.xs@.len() * self.ys@.len() * k
    }

    /// The flattened index of voxel `(i, j, k)`, in the same order as the
    /// dose and uncertainty vectors.
    pub open spec fn voxel_id(&self, i: int, j: int, k: int) -> int {
        i + self.nx() * j + self.nx() * self.ny() * k
    }

    /// Number of voxels in the *x*-direction.
    pub fn num_x(&self) -> (r: usize)
        requires
            self.wf(),
        ensures
            r == self.nx(),
    {
        self.xs.len() - 1
    }

    /// Number of voxels in the *y*-direction.
    pub fn num_y(&self) -> (r: usize)
        requires
            self.wf(),
        ensures
            r == self.ny(),
    {
        self.ys.len() - 1
    }

    /// Number of voxels in the *z*-direction.
    pub fn num_z(&self) -> (r: usize)
        requires
            self.wf(),
        ensures
            r == self.nz(),
    {
        self.zs.len() - 1
    }

    /// Total number of mesh voxels.
    pub fn num_voxels(&self) -> (r: usize)
        requires
            self.wf(),
        ensures
            r == self.voxel_total(),
    {
        proof {
            lemma_counts_bounded(self);
        }
        self.num_x() * self.num_y() * self.num_z()
    }

    /// Total number of mesh nodes.
    pub fn num_nodes(&self) -> (r: usize)
        requires
            self.wf(),
        ensures
            r == self.node_total(),
    {
        proof {
            lemma_counts_bounded(self);
        }
        self.xs.len() * self.ys.len() * self.zs.len()
    }

    /// `[i, j, k]` node list indexing.
    pub fn grid_index(&self, i: usize, j: usize, k: usize) -> (r: usize)
        requires
            self.wf(),
            i < self.xs@.len(),
            j < self.ys@.len(),
            k < self.zs@.len(),
        ensures
            r == self.node_id(i as int, j as int, k as int),
            r < self.node_total(),
    {
        proof {
            lemma_counts_bounded(self);
            lemma_node_id_bounds(
                self.xs@.len() as int,
                self.ys@.len() as int,
                self.zs@.len() as int,
                i as int,
                j as int,
                k as int,
            );
        }
        i + self.xs.len() * j + self.xs.len() * self.ys.len() * k
    }
}

/// Partial products of the grid extents stay within the machine word.
pub proof fn lemma_counts_bounded(b: &DoseBlock)
    requires
        b.wf(),
    ensures
        b.xs@.len() * b.ys@.len() <= usize::MAX,
        b.nx() * b.ny() <= usize::MAX,
        0 <= b.voxel_total() <= usize::MAX,
        0 <= b.node_total() <= usize::MAX,
{
    let x = b.xs@.len() as int;
    let y = b.ys@.len() as int;
    let z = b.zs@.len() as int;
    assert(x * y <= x * y * z) by (nonlinear_arith)
        requires
            x >= 0 && y >= 0 && z >= 1,
    ;
    assert((x - 1) * (y - 1) <= x * y) by (nonlinear_arith)
        requires
            x >= 1 && y >= 1,
    ;
    assert((x - 1) * (y - 1) * (z - 1) <= x * y * z) by (nonlinear_arith)
        requires
            x >= 1 && y >= 1 && z >= 1,
    ;
    assert((x - 1) * (y - 1) * (z - 1) >= 0) by (nonlinear_arith)
        requires
            x >= 1 && y >= 1 && z >= 1,
    ;
}

/// A node identifier lies below the node total.
proof fn lemma_node_id_bounds(x: int, y: int, z: int, i: int, j: int, k: int)
    requires
        x >= 1,
        y >= 1,
        z >= 1,
        0 <= i < x,
        0 <= j < y,
        0 <= k < z,
    ensures
        0 <= i + x * j + x * y * k,
        i + x * j + x * y * k < x * y * z,
{
    assert(x * j <= x * (y - 1)) by (nonlinear_arith)
        requires
            x >= 1 && j <= y - 1,
    ;
    assert(x * y * k <= x * y * (z - 1)) by (nonlinear_arith)
        requires
            x >= 1 && y >= 1 && k <= z - 1,
    ;
    assert((x - 1) + x * (y - 1) + x * y * (z - 1) == x * y * z - 1) by (nonlinear_arith);
    assert(x * j >= 0) by (nonlinear_arith)
        requires
            x >= 1 && j >= 0,
    ;
    assert(x * y * k >= 0) by (nonlinear_arith)
        requires
            x >= 1 && y >= 1 && k >= 0,
    ;
}

/// Two distinct node triples never share an identifier.
proof fn lemma_node_id_injective_raw(
    x: int,
    y: int,
    i1: int,
    j1: int,
    k1: int,
    i2: int,
    j2: int,
    k2: int,
)
    requires
        x >= 1,
        y >= 1,
        0 <= i1 < x,
        0 <= i2 < x,
        0 <= j1 < y,
        0 <= j2 < y,
        k1 >= 0,
        k2 >= 0,
        i1 + x * j1 + x * y * k1 == i2 + x * j2 + x * y * k2,
    ensures
        i1 == i2 && j1 == j2 && k1 == k2,
{
    let e = i1 + x * j1 + x * y * k1;
    assert(x * j1 + x * y * k1 == x * (j1 + y * k1)) by (nonlinear_arith);
    assert(x * j2 + x * y * k2 == x * (j2 + y * k2)) by (nonlinear_arith);
    assert(j1 + y * k1 >= 0) by (nonlinear_arith)
        requires
            j1 >= 0 && y >= 1 && k1 >= 0,
    ;
    assert(j2 + y * k2 >= 0) by (nonlinear_arith)
        requires
            j2 >= 0 && y >= 1 && k2 >= 0,
    ;
    assert(e == (j1 + y * k1) * x + i1) by (nonlinear_arith)
        requires
            e == i1 + x * (j1 + y * k1),
    ;
    assert(e == (j2 + y * k2) * x + i2) by (nonlinear_arith)
        requires
            e == i2 + x * (j2 + y * k2),
    ;
    lemma_fundamental_div_mod_converse(e, x, j1 + y * k1, i1);
    lemma_fundamental_div_mod_converse(e, x, j2 + y * k2, i2);
    assert(i1 == i2 && j1 + y * k1 == j2 + y * k2);
    let f = j1 + y * k1;
    assert(f == k1 * y + j1) by (nonlinear_arith)
        requires
            f == j1 + y * k1,
    ;
    assert(f == k2 * y + j2) by (nonlinear_arith)
        requires
            f == j2 + y * k2,
    ;
    lemma_fundamental_div_mod_converse(f, y, k1, j1);
    lemma_fundamental_div_mod_converse(f, y, k2, j2);
}

/// Every identifier below the node total belongs to some node triple.
pub proof fn lemma_node_id_surjective_raw(x: int, y: int, z: int, n: int)
    requires
        x >= 1,
        y >= 1,
        z >= 1,
        0 <= n < x * y * z,
    ensures
        0 <= n % x < x,
        0 <= (n / x) % y < y,
        0 <= n / x / y < z,
        n == n % x + x * ((n / x) % y) + x * y * (n / x / y),
{
    lemma_fundamental_div_mod(n, x);
    lemma_mod_bound(n, x);
    lemma_fundamental_div_mod(n / x, y);
    lemma_mod_bound(n / x, y);
    lemma_div_denominator(n, x, y);
    assert(n / x / y >= 0);
    assert(n / x / y < z) by {
        if n / x / y >= z {
            assert(n / (x * y) >= z);
            assert(x * y * (n / (x * y)) >= x * y * z) by (nonlinear_arith)
                requires
                    x * y >= 1 && n / (x * y) >= z,
            ;
            lemma_fundamental_div_mod(n, x * y);
            lemma_mod_bound(n, x * y);
            assert(x * y >= 1) by (nonlinear_arith)
                requires
                    x >= 1 && y >= 1,
            ;
        }
    }
    assert(n == x * (n / x) + n % x);
    assert(n / x == y * (n / x / y) + (n / x) % y);
    assert(x * (y * (n / x / y) + (n / x) % y) == x * y * (n / x / y) + x * ((n / x) % y))
        by (nonlinear_arith);
}

/// The eight 0-indexed corner node identifiers of voxel `(i, j, k)`, in the
/// hexahedron corner order of the mesh output: the base corner, its +x
/// neighbour, then the +y pair, then the same four shifted by +z.
pub open spec fn corner_ids(b: &DoseBlock, i: int, j: int, k: int) -> Seq<int> {
    let base = b.node_id(i, j, k);
    let x = b.xs@.len() as int;
    let xy = b.xs@.len() * b.ys@.len();
    seq![
        base,
        base + 1,
        base + x + 1,
        base + x,
        base + xy,
        base + xy + 1,
        base + xy + x + 1,
        base + xy + x,
    ]
}

/// The identifier `n` is reached from a lattice triple in range: the inverse
/// triple read off by division and remainder maps back onto `n`.
pub open spec fn node_id_onto(b: &DoseBlock, n: int) -> bool {
    let x = b.xs@.len() as int;
    let y = b.ys@.len() as int;
    let i = n % x;
    let j = (n / x) % y;
    let k = n / x / y;
    0 <= i < b.xs@.len() && 0 <= j < b.ys@.len() && 0 <= k < b.zs@.len() && b.node_id(i, j, k) == n
}

/// The node identifier map is a bijection between the lattice triples and the
/// identifiers `0 .. node_total`.
pub proof fn lemma_node_index_bijective(b: &DoseBlock)
    requires
        b.wf(),
    ensures
        forall|i: int, j: int, k: int|
            0 <= i < b.xs@.len() && 0 <= j < b.ys@.len() && 0 <= k < b.zs@.len() ==> 0 <= #[trigger] b.node_id(i, j, k) < b.node_total(),
        forall|i1: int, j1: int, k1: int, i2: int, j2: int, k2: int|
            0 <= i1 < b.xs@.len() && 0 <= j1 < b.ys@.len() && 0 <= k1 < b.zs@.len() && 0 <= i2
                < b.xs@.len() && 0 <= j2 < b.ys@.len() && 0 <= k2 < b.zs@.len() && #[trigger] b.node_id(
                i1,
                j1,
                k1,
            ) == #[trigger] b.node_id(i2, j2, k2) ==> i1 == i2 && j1 == j2 && k1 == k2,
        forall|n: int| 0 <= n < b.node_total() ==> #[trigger] node_id_onto(b, n),
{
    let x = b.xs@.len() as int;
    let y = b.ys@.len() as int;
    let z = b.zs@.len() as int;
    assert forall|i: int, j: int, k: int|
        0 <= i < x && 0 <= j < y && 0 <= k < z implies 0 <= #[trigger] b.node_id(i, j, k)
        < b.node_total() by {
        lemma_node_id_bounds(x, y, z, i, j, k);
    }
    assert forall|i1: int, j1: int, k1: int, i2: int, j2: int, k2: int|
        0 <= i1 < x && 0 <= j1 < y && 0 <= k1 < z && 0 <= i2 < x && 0 <= j2 < y && 0 <= k2 < z
            && #[trigger] b.node_id(i1, j1, k1) == #[trigger] b.node_id(
            i2,
            j2,
            k2,
        ) implies i1 == i2 && j1 == j2 && k1 == k2 by {
        lemma_node_id_injective_raw(x, y, i1, j1, k1, i2, j2, k2);
    }
    assert forall|n: int| 0 <= n < b.node_total() implies #[trigger] node_id_onto(b, n) by {
        lemma_node_id_surjective_raw(x, y, z, n);
    }
}

/// For every voxel, the eight corner identifiers are pairwise distinct and
/// all lie below the node total.
pub proof fn lemma_corner_ids_valid(b: &DoseBlock, i: int, j: int, k: int)
    requires
        b.wf(),
        0 <= i < b.nx(),
        0 <= j < b.ny(),
        0 <= k < b.nz(),
    ensures
        corner_ids(b, i, j, k).len() == 8,
        forall|c: int| 0 <= c < 8 ==> 0 <= #[trigger] corner_ids(b, i, j, k)[c] < b.node_total(),
        forall|c1: int, c2: int|
            0 <= c1 < 8 && 0 <= c2 < 8 && c1 != c2 ==> corner_ids(b, i, j, k)[c1] != corner_ids(
                b,
                i,
                j,
                k,
            )[c2],
{
    let x = b.xs@.len() as int;
    let y = b.ys@.len() as int;
    let z = b.zs@.len() as int;
    let base = b.node_id(i, j, k);
    assert(x * (j + 1) == x * j + x) by (nonlinear_arith);
    assert(x * y * (k + 1) == x * y * k + x * y) by (nonlinear_arith);
    assert(b.node_id(i + 1, j + 1, k + 1) == base + x * y + x + 1);
    lemma_node_id_bounds(x, y, z, i + 1, j + 1, k + 1);
    lemma_node_id_bounds(x, y, z, i, j, k);
    assert(x * y >= x + 2) by (nonlinear_arith)
        requires
            x >= 2 && y >= 2,
    ;
    let cs = corner_ids(b, i, j, k);
    assert(cs[0] < cs[1] < cs[3] < cs[2] < cs[4] < cs[5] < cs[7] < cs[6]);
    assert(cs[6] == b.node_id(i + 1, j + 1, k + 1));
    assert forall|c: int| 0 <= c < 8 implies 0 <= #[trigger] cs[c] < b.node_total() by {
        assert(cs[0] >= 0);
        assert(cs[6] < b.node_total());
    }
}

} // verus!
