//! Serialization of a [`DoseBlock`] as a flat per-voxel-centroid table.

use vstd::prelude::*;

use crate::block::DoseBlock;
use crate::scalar::{canon_push, canon_text, mid, mid_spec, Scalar};

verus! {

/// The header row of the table.
pub open spec fn csv_header() -> Seq<char> {
    "xc [cm],yc [cm],zc [cm],Dose [Gy cm2],Uncertainty fraction\n"@
}

/// One row of the table: the exact centroid of voxel `v` on each axis, then
/// its dose and uncertainty tokens, comma separated.
pub open spec fn csv_row(b: &DoseBlock, v: int) -> Seq<char> {
    let nx = b.nx();
    let ny = b.ny();
    let i = v % nx;
    let j = (v / nx) % ny;
    let k = v / nx / ny;
    canon_text(mid_spec(b.xs@[i], b.xs@[i + 1])) + seq![','] + canon_text(
        mid_spec(b.ys@[j], b.ys@[j + 1]),
    ) + seq![','] + canon_text(mid_spec(b.zs@[k], b.zs@[k + 1])) + seq![','] + b.doses@[v]@
        + seq![','] + b.uncerts@[v]@ + seq!['\n']
}

/// The first `n` rows.
pub open spec fn csv_rows(b: &DoseBlock, n: int) -> Seq<char>
    decreases n,
{
    if n <= 0 {
        Seq::empty()
    } else {
        csv_rows(b, n - 1) + csv_row(b, n - 1)
    }
}

/// The whole table.
pub open spec fn csv_text(b: &DoseBlock) -> Seq<char> {
    csv_header() + csv_rows(b, b.voxel_total())
}

/// Appends one comma.
fn push_comma(out: &mut String)
    ensures
        final(out)@ == old(out)@ + seq![','],
{
    proof {
        reveal_strlit(",");
    }
    out.append(",");
    proof {
        assert(out@ =~= old(out)@ + seq![',']);
    }
}

impl DoseBlock {
    /// Convert the parsed data to a comma-separated table: a header row, then
    /// one row per voxel holding the exact voxel centroid and the voxel's
    /// dose and uncertainty.
    ///
    /// The output is a function of the block alone: serializing the same
    /// block twice gives byte-identical text.
    pub fn write_csv(&self) -> (out: String)
        requires
            self.wf(),
        ensures
            out@ == csv_text(self),
    {
        let mut out: String = String::new();
        out.append("xc [cm],yc [cm],zc [cm],Dose [Gy cm2],Uncertainty fraction\n");
        let ghost head: Seq<char> = out@;
        let total: usize = self.num_voxels();
        let nx: usize = self.num_x();
        let ny: usize = self.num_y();
        let nz: usize = self.num_z();
        let mut v: usize = 0;
        while v < total
            invariant
                v <= total,
                self.wf(),
                nx == self.nx(),
                ny == self.ny(),
                nz == self.nz(),
                total == self.voxel_total(),
                head == csv_header(),
                out@ == head + csv_rows(self, v as int),
            decreases total - v,
        {
            let ghost prefix: Seq<char> = out@;
            proof {
                crate::block::lemma_node_id_surjective_raw(
                    nx as int,
                    ny as int,
                    nz as int,
                    v as int,
                );
            }
            let i: usize = v % nx;
            let j: usize = (v / nx) % ny;
            let k: usize = v / nx / ny;
            let mx: Scalar = mid(self.xs[i], self.xs[i + 1]);
            let my: Scalar = mid(self.ys[j], self.ys[j + 1]);
            let mz: Scalar = mid(self.zs[k], self.zs[k + 1]);
            canon_push(&mut out, mx);
            push_comma(&mut out);
            canon_push(&mut out, my);
            push_comma(&mut out);
            canon_push(&mut out, mz);
            push_comma(&mut out);
            let d: &String = &self.doses[v];
            out.append(d.as_str());
            push_comma(&mut out);
            let u: &String = &self.uncerts[v];
            out.append(u.as_str());
            crate::gmsh::push_nl(&mut out);
            proof {
                assert(out@ =~= prefix + csv_row(self, v as int));
                assert(csv_rows(self, v as int + 1) == csv_rows(self, v as int) + csv_row(
                    self,
                    v as int,
                ));
                assert(out@ =~= head + csv_rows(self, v as int + 1));
            }
            v = v + 1;
        }
        proof {
            assert(out@ =~= csv_text(self));
        }
        out
    }
}

} // verus!
