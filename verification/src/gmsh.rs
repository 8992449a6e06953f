//! Serialization of a [`DoseBlock`] as an indexed node/hexahedron mesh in
//! the version-2 text format.

use vstd::prelude::*;

use crate::block::{corner_ids, DoseBlock};
use crate::digits::{dec_seq, is_digit_char, lemma_dec_seq_digits, push_dec};
use crate::scalar::{canon_text, canon_push, is_canon_char, is_num_char, lemma_canon_chars,
    lemma_coord_wf_scalar_wf, num_text};

verus! {

/// The quoted display name of the dose field.
pub open spec fn dose_label() -> Seq<char> {
    "\"Dose [Gy\u{b7}cm2]\""@
}

/// The quoted display name of the uncertainty field.
pub open spec fn uncert_label() -> Seq<char> {
    "\"Uncertainty fraction\""@
}

/// The views of the stored value tokens.
pub open spec fn text_views(vals: Seq<String>) -> Seq<Seq<char>> {
    vals.map_values(|s: String| s@)
}

/// One line of the node block: the 1-indexed node identifier and the three
/// coordinates of lattice node `n`, in x-fastest order.
pub open spec fn node_line(b: &DoseBlock, n: int) -> Seq<char> {
    let x = b.xs@.len() as int;
    let y = b.ys@.len() as int;
    let i = n % x;
    let j = (n / x) % y;
    let k = n / x / y;
    dec_seq((n + 1) as nat) + seq![' '] + canon_text(b.xs@[i]) + seq![' '] + canon_text(b.ys@[j])
        + seq![' '] + canon_text(b.zs@[k]) + seq!['\n']
}

/// The first `n` node lines.
pub open spec fn node_lines(b: &DoseBlock, n: int) -> Seq<char>
    decreases n,
{
    if n <= 0 {
        Seq::empty()
    } else {
        node_lines(b, n - 1) + node_line(b, n - 1)
    }
}

/// One line of the element block: the 1-indexed element identifier, the
/// hexahedron type tag `5`, the three fixed metadata tags `2 0 0`, and the
/// eight 1-indexed corner node identifiers of voxel `v`.
pub open spec fn elt_line(b: &DoseBlock, v: int) -> Seq<char> {
    let nx = b.nx();
    let ny = b.ny();
    let i = v % nx;
    let j = (v / nx) % ny;
    let k = v / nx / ny;
    let cs = corner_ids(b, i, j, k);
    dec_seq((v + 1) as nat) + " 5 2 0 0 "@ + dec_seq((cs[0] + 1) as nat) + seq![' '] + dec_seq(
        (cs[1] + 1) as nat,
    ) + seq![' '] + dec_seq((cs[2] + 1) as nat) + seq![' '] + dec_seq((cs[3] + 1) as nat)
        + seq![' '] + dec_seq((cs[4] + 1) as nat) + seq![' '] + dec_seq((cs[5] + 1) as nat)
        + seq![' '] + dec_seq((cs[6] + 1) as nat) + seq![' '] + dec_seq((cs[7] + 1) as nat)
        + seq!['\n']
}

/// The first `n` element lines.
pub open spec fn elt_lines(b: &DoseBlock, n: int) -> Seq<char>
    decreases n,
{
    if n <= 0 {
        Seq::empty()
    } else {
        elt_lines(b, n - 1) + elt_line(b, n - 1)
    }
}

/// One line of a field block: the 1-indexed element identifier and its value.
pub open spec fn data_line(vals: Seq<Seq<char>>, i: int) -> Seq<char> {
    dec_seq((i + 1) as nat) + seq![' '] + vals[i] + seq!['\n']
}

/// The first `n` field lines.
pub open spec fn data_lines(vals: Seq<Seq<char>>, n: int) -> Seq<char>
    decreases n,
{
    if n <= 0 {
        Seq::empty()
    } else {
        data_lines(vals, n - 1) + data_line(vals, n - 1)
    }
}

/// One whole field block: the field name, the time value zero, the three
/// integer tags (time step zero, one scalar component, the element count),
/// and one value line per element.
pub open spec fn data_block(name: Seq<char>, vals: Seq<Seq<char>>) -> Seq<char> {
    "$ElementData\n1\n"@ + name + "\n1\n0.0\n3\n0\n1\n"@ + dec_seq(vals.len()) + seq!['\n']
        + data_lines(vals, vals.len() as int) + "$EndElementData\n"@
}

/// The whole mesh output: format header, node block, element block, and one
/// field block for the doses and for the uncertainties.
pub open spec fn gmsh_text(b: &DoseBlock) -> Seq<char> {
    "$MeshFormat\n2.2 0 8\n$EndMeshFormat\n"@ + "$Nodes\n"@ + dec_seq(b.node_total() as nat)
        + seq!['\n'] + node_lines(b, b.node_total()) + "$EndNodes\n"@ + "$Elements\n"@ + dec_seq(
        b.voxel_total() as nat,
    ) + seq!['\n'] + elt_lines(b, b.voxel_total()) + "$EndElements\n"@ + data_block(
        dose_label(),
        text_views(b.doses@),
    ) + data_block(uncert_label(), text_views(b.uncerts@))
}

/// Appends one space.
pub fn push_space(out: &mut String)
    ensures
        final(out)@ == old(out)@ + seq![' '],
{
    proof {
        reveal_strlit(" ");
    }
    out.append(" ");
    proof {
        assert(out@ =~= old(out)@ + seq![' ']);
    }
}

/// Appends one line feed.
pub fn push_nl(out: &mut String)
    ensures
        final(out)@ == old(out)@ + seq!['\n'],
{
    proof {
        reveal_strlit("\n");
    }
    out.append("\n");
    proof {
        assert(out@ =~= old(out)@ + seq!['\n']);
    }
}

impl DoseBlock {
    /// Appends the node lines.
    fn push_node_lines(&self, out: &mut String)
        requires
            self.wf(),
        ensures
            final(out)@ == old(out)@ + node_lines(self, self.node_total()),
    {
        let total: usize = self.num_nodes();
        let x: usize = self.xs.len();
        let y: usize = self.ys.len();
        let z: usize = self.zs.len();
        let mut n: usize = 0;
        while n < total
            invariant
                n <= total,
                self.wf(),
                x == self.xs@.len(),
                y == self.ys@.len(),
                z == self.zs@.len(),
                total == self.node_total(),
                out@ == old(out)@ + node_lines(self, n as int),
            decreases total - n,
        {
            let ghost prefix: Seq<char> = out@;
            proof {
                crate::block::lemma_node_id_surjective_raw(
                    x as int,
                    y as int,
                    z as int,
                    n as int,
                );
            }
            let i: usize = n % x;
            let j: usize = (n / x) % y;
            let k: usize = n / x / y;
            push_dec(out, (n + 1) as u128);
            push_space(out);
            proof {
                lemma_coord_wf_scalar_wf(self.xs@[i as int]);
                lemma_coord_wf_scalar_wf(self.ys@[j as int]);
                lemma_coord_wf_scalar_wf(self.zs@[k as int]);
            }
            canon_push(out, self.xs[i]);
            push_space(out);
            canon_push(out, self.ys[j]);
            push_space(out);
            canon_push(out, self.zs[k]);
            push_nl(out);
            proof {
                assert(out@ =~= prefix + node_line(self, n as int));
                assert(node_lines(self, n as int + 1) == node_lines(self, n as int) + node_line(
                    self,
                    n as int,
                ));
                assert(out@ =~= old(out)@ + node_lines(self, n as int + 1));
            }
            n = n + 1;
        }
    }

    /// Appends one element line.
    #[verifier::rlimit(100)]
    #[verifier::spinoff_prover]
    fn push_elt_line(&self, out: &mut String, v: usize)
        requires
            self.wf(),
            v < self.voxel_total(),
        ensures
            final(out)@ == old(out)@ + elt_line(self, v as int),
    {
        proof {
            crate::block::lemma_counts_bounded(self);
        }
        let nx: usize = self.num_x();
        let ny: usize = self.num_y();
        let nz: usize = self.num_z();
        proof {
            crate::block::lemma_node_id_surjective_raw(nx as int, ny as int, nz as int, v as int);
        }
        let i: usize = v % nx;
        let j: usize = (v / nx) % ny;
        let k: usize = v / nx / ny;
        proof {
            crate::block::lemma_corner_ids_valid(self, i as int, j as int, k as int);
        }
        let base: usize = self.grid_index(i, j, k);
        let x: usize = self.xs.len();
        let xy: usize = x * self.ys.len();
        let ghost cs: Seq<int> = corner_ids(self, i as int, j as int, k as int);
        assert(cs[0] == base && cs[1] == base + 1 && cs[2] == base + x + 1 && cs[3] == base + x
            && cs[4] == base + xy && cs[5] == base + xy + 1 && cs[6] == base + xy + x + 1 && cs[7]
            == base + xy + x);
        let mut line: String = String::new();
        push_dec(&mut line, (v + 1) as u128);
        proof {
            reveal_strlit(" 5 2 0 0 ");
            assert(Seq::<char>::empty() + dec_seq((v + 1) as nat) =~= dec_seq((v + 1) as nat));
        }
        line.append(" 5 2 0 0 ");
        push_dec(&mut line, (base + 1) as u128);
        push_space(&mut line);
        push_dec(&mut line, (base + 2) as u128);
        push_space(&mut line);
        push_dec(&mut line, (base + x + 2) as u128);
        push_space(&mut line);
        push_dec(&mut line, (base + x + 1) as u128);
        push_space(&mut line);
        push_dec(&mut line, (base + xy + 1) as u128);
        push_space(&mut line);
        push_dec(&mut line, (base + xy + 2) as u128);
        push_space(&mut line);
        push_dec(&mut line, (base + xy + x + 2) as u128);
        push_space(&mut line);
        push_dec(&mut line, (base + xy + x + 1) as u128);
        push_nl(&mut line);
        proof {
            assert(line@ == elt_line(self, v as int));
        }
        out.append(line.as_str());
    }

    /// Appends the element lines.
    fn push_elt_lines(&self, out: &mut String)
        requires
            self.wf(),
        ensures
            final(out)@ == old(out)@ + elt_lines(self, self.voxel_total()),
    {
        let total: usize = self.num_voxels();
        let mut v: usize = 0;
        while v < total
            invariant
                v <= total,
                self.wf(),
                total == self.voxel_total(),
                out@ == old(out)@ + elt_lines(self, v as int),
            decreases total - v,
        {
            let ghost prefix: Seq<char> = out@;
            self.push_elt_line(out, v);
            proof {
                assert(elt_lines(self, v as int + 1) == elt_lines(self, v as int) + elt_line(
                    self,
                    v as int,
                ));
                assert(out@ =~= old(out)@ + elt_lines(self, v as int + 1));
            }
            v = v + 1;
        }
    }

    /// Convert the parsed data to mesh text (version 2.2 format).
    ///
    /// The output is a function of the block alone: serializing the same
    /// block twice gives byte-identical text.
    pub fn write_gmsh(&self) -> (out: String)
        requires
            self.wf(),
        ensures
            out@ == gmsh_text(self),
    {
        let mut out: String = String::new();
        out.append("$MeshFormat\n2.2 0 8\n$EndMeshFormat\n");
        out.append("$Nodes\n");
        let nodes: usize = self.num_nodes();
        push_dec(&mut out, nodes as u128);
        push_nl(&mut out);
        self.push_node_lines(&mut out);
        out.append("$EndNodes\n");
        out.append("$Elements\n");
        let voxels: usize = self.num_voxels();
        push_dec(&mut out, voxels as u128);
        push_nl(&mut out);
        self.push_elt_lines(&mut out);
        out.append("$EndElements\n");
        push_data_block(&mut out, "\"Dose [Gy\u{b7}cm2]\"", &self.doses);
        push_data_block(&mut out, "\"Uncertainty fraction\"", &self.uncerts);
        proof {
            assert(out@ =~= gmsh_text(self));
        }
        out
    }
}

/// Appends one whole field block.
fn push_data_block(out: &mut String, name: &str, vals: &Vec<String>)
    ensures
        final(out)@ == old(out)@ + data_block(name@, text_views(vals@)),
{
    let ghost texts: Seq<Seq<char>> = text_views(vals@);
    out.append("$ElementData\n1\n");
    out.append(name);
    out.append("\n1\n0.0\n3\n0\n1\n");
    let n: usize = vals.len();
    push_dec(out, n as u128);
    push_nl(out);
    let ghost head: Seq<char> = out@;
    let mut i: usize = 0;
    while i < n
        invariant
            i <= n,
            n == vals@.len(),
            texts == text_views(vals@),
            out@ == head + data_lines(texts, i as int),
        decreases n - i,
    {
        let ghost prefix: Seq<char> = out@;
        push_dec(out, (i + 1) as u128);
        push_space(out);
        let s: &String = &vals[i];
        out.append(s.as_str());
        push_nl(out);
        proof {
            assert(texts[i as int] == vals@[i as int]@);
            assert(out@ =~= prefix + data_line(texts, i as int));
            assert(data_lines(texts, i as int + 1) == data_lines(texts, i as int) + data_line(
                texts,
                i as int,
            ));
            assert(out@ =~= head + data_lines(texts, i as int + 1));
        }
        i = i + 1;
    }
    out.append("$EndElementData\n");
    proof {
        assert(out@ =~= old(out)@ + data_block(name@, text_views(vals@)));
    }
}

} // verus!

verus! {

/// Number of line feeds in a piece of text.
pub open spec fn nl_count(s: Seq<char>) -> nat
    decreases s.len(),
{
    if s.len() == 0 {
        0
    } else {
        nl_count(s.drop_last()) + if s.last() == '\n' {
            1nat
        } else {
            0nat
        }
    }
}

pub proof fn lemma_nl_count_concat(a: Seq<char>, b: Seq<char>)
    ensures
        nl_count(a + b) == nl_count(a) + nl_count(b),
    decreases b.len(),
{
    if b.len() == 0 {
        assert(a + b =~= a);
    } else {
        assert((a + b).drop_last() =~= a + b.drop_last());
        assert((a + b).last() == b.last());
        lemma_nl_count_concat(a, b.drop_last());
    }
}

/// Text without a line feed.
pub open spec fn no_nl(s: Seq<char>) -> bool {
    forall|i: int| 0 <= i < s.len() ==> s[i] != '\n'
}

pub proof fn lemma_nl_count_none(s: Seq<char>)
    requires
        no_nl(s),
    ensures
        nl_count(s) == 0,
    decreases s.len(),
{
    if s.len() > 0 {
        assert(s.last() != '\n');
        assert(no_nl(s.drop_last())) by {
            assert(forall|i: int| 0 <= i < s.len() - 1 ==> s.drop_last()[i] == s[i]);
        }
        lemma_nl_count_none(s.drop_last());
    }
}

/// A line whose body is free of line feeds counts as one line.
proof fn lemma_nl_count_line(s: Seq<char>)
    requires
        s.len() > 0,
        s.last() == '\n',
        no_nl(s.drop_last()),
    ensures
        nl_count(s) == 1,
{
    lemma_nl_count_none(s.drop_last());
}

/// Decimal digits are free of line feeds.
proof fn lemma_dec_seq_no_nl(n: nat)
    ensures
        no_nl(dec_seq(n)),
{
    lemma_dec_seq_digits(n);
    assert forall|i: int| 0 <= i < dec_seq(n).len() implies dec_seq(n)[i] != '\n' by {
        assert(is_digit_char(dec_seq(n)[i]));
    }
}

/// Canonical scalar text is free of line feeds.
proof fn lemma_canon_no_nl(c: crate::scalar::Scalar)
    ensures
        no_nl(canon_text(c)),
{
    lemma_canon_chars(c);
    assert forall|i: int| 0 <= i < canon_text(c).len() implies canon_text(c)[i] != '\n' by {
        assert(is_canon_char(canon_text(c)[i]));
    }
}

/// Each node line holds exactly one line feed, at its end.
proof fn lemma_node_line_one(b: &DoseBlock, n: int)
    ensures
        nl_count(node_line(b, n)) == 1,
{
    let x = b.xs@.len() as int;
    let y = b.ys@.len() as int;
    let i = n % x;
    let j = (n / x) % y;
    let k = n / x / y;
    let body = dec_seq((n + 1) as nat) + seq![' '] + canon_text(b.xs@[i]) + seq![' ']
        + canon_text(b.ys@[j]) + seq![' '] + canon_text(b.zs@[k]);
    lemma_dec_seq_no_nl((n + 1) as nat);
    lemma_canon_no_nl(b.xs@[i]);
    lemma_canon_no_nl(b.ys@[j]);
    lemma_canon_no_nl(b.zs@[k]);
    assert(no_nl(body));
    assert(node_line(b, n).drop_last() =~= body);
    assert(node_line(b, n).last() == '\n');
    lemma_nl_count_line(node_line(b, n));
}

/// Each element line holds exactly one line feed, at its end.
proof fn lemma_elt_line_one(b: &DoseBlock, v: int)
    ensures
        nl_count(elt_line(b, v)) == 1,
{
    let nx = b.nx();
    let ny = b.ny();
    let i = v % nx;
    let j = (v / nx) % ny;
    let k = v / nx / ny;
    let cs = corner_ids(b, i, j, k);
    let body = dec_seq((v + 1) as nat) + " 5 2 0 0 "@ + dec_seq((cs[0] + 1) as nat) + seq![' ']
        + dec_seq((cs[1] + 1) as nat) + seq![' '] + dec_seq((cs[2] + 1) as nat) + seq![' ']
        + dec_seq((cs[3] + 1) as nat) + seq![' '] + dec_seq((cs[4] + 1) as nat) + seq![' ']
        + dec_seq((cs[5] + 1) as nat) + seq![' '] + dec_seq((cs[6] + 1) as nat) + seq![' ']
        + dec_seq((cs[7] + 1) as nat);
    lemma_dec_seq_no_nl((v + 1) as nat);
    lemma_dec_seq_no_nl((cs[0] + 1) as nat);
    lemma_dec_seq_no_nl((cs[1] + 1) as nat);
    lemma_dec_seq_no_nl((cs[2] + 1) as nat);
    lemma_dec_seq_no_nl((cs[3] + 1) as nat);
    lemma_dec_seq_no_nl((cs[4] + 1) as nat);
    lemma_dec_seq_no_nl((cs[5] + 1) as nat);
    lemma_dec_seq_no_nl((cs[6] + 1) as nat);
    lemma_dec_seq_no_nl((cs[7] + 1) as nat);
    reveal_strlit(" 5 2 0 0 ");
    assert(no_nl(" 5 2 0 0 "@));
    assert(no_nl(body));
    assert(elt_line(b, v).drop_last() =~= body);
    assert(elt_line(b, v).last() == '\n');
    lemma_nl_count_line(elt_line(b, v));
}

/// Each field line of line-feed-free values holds exactly one line feed.
proof fn lemma_data_line_one(vals: Seq<Seq<char>>, i: int)
    requires
        0 <= i < vals.len(),
        no_nl(vals[i]),
    ensures
        nl_count(data_line(vals, i)) == 1,
{
    let body = dec_seq((i + 1) as nat) + seq![' '] + vals[i];
    lemma_dec_seq_no_nl((i + 1) as nat);
    assert(no_nl(body));
    assert(data_line(vals, i).drop_last() =~= body);
    assert(data_line(vals, i).last() == '\n');
    lemma_nl_count_line(data_line(vals, i));
}

proof fn lemma_node_lines_count(b: &DoseBlock, n: int)
    requires
        0 <= n,
    ensures
        nl_count(node_lines(b, n)) == n,
    decreases n,
{
    if n > 0 {
        lemma_node_lines_count(b, n - 1);
        lemma_node_line_one(b, n - 1);
        lemma_nl_count_concat(node_lines(b, n - 1), node_line(b, n - 1));
    }
}

proof fn lemma_elt_lines_count(b: &DoseBlock, n: int)
    requires
        0 <= n,
    ensures
        nl_count(elt_lines(b, n)) == n,
    decreases n,
{
    if n > 0 {
        lemma_elt_lines_count(b, n - 1);
        lemma_elt_line_one(b, n - 1);
        lemma_nl_count_concat(elt_lines(b, n - 1), elt_line(b, n - 1));
    }
}

proof fn lemma_data_lines_count(vals: Seq<Seq<char>>, n: int)
    requires
        0 <= n <= vals.len(),
        forall|i: int| 0 <= i < vals.len() ==> no_nl(#[trigger] vals[i]),
    ensures
        nl_count(data_lines(vals, n)) == n,
    decreases n,
{
    if n > 0 {
        lemma_data_lines_count(vals, n - 1);
        lemma_data_line_one(vals, n - 1);
        lemma_nl_count_concat(data_lines(vals, n - 1), data_line(vals, n - 1));
    }
}

/// The shape of the mesh output: the node block body holds exactly one line
/// per lattice node, the element block body exactly one line per voxel, and
/// each field block body exactly one value line per voxel.
pub proof fn lemma_gmsh_shape(b: &DoseBlock)
    requires
        b.wf(),
    ensures
        nl_count(node_lines(b, b.node_total())) == b.node_total(),
        nl_count(elt_lines(b, b.voxel_total())) == b.voxel_total(),
        nl_count(data_lines(text_views(b.doses@), b.voxel_total())) == b.voxel_total(),
        nl_count(data_lines(text_views(b.uncerts@), b.voxel_total())) == b.voxel_total(),
{
    crate::block::lemma_counts_bounded(b);
    lemma_node_lines_count(b, b.node_total());
    lemma_elt_lines_count(b, b.voxel_total());
    let dv = text_views(b.doses@);
    let uv = text_views(b.uncerts@);
    assert forall|i: int| 0 <= i < dv.len() implies no_nl(#[trigger] dv[i]) by {
        assert(dv[i] == b.doses@[i]@);
        assert(num_text(b.doses@[i]@));
        assert forall|q: int| 0 <= q < dv[i].len() implies dv[i][q] != '\n' by {
            assert(is_num_char(b.doses@[i]@[q]));
        }
    }
    assert forall|i: int| 0 <= i < uv.len() implies no_nl(#[trigger] uv[i]) by {
        assert(uv[i] == b.uncerts@[i]@);
        assert(num_text(b.uncerts@[i]@));
        assert forall|q: int| 0 <= q < uv[i].len() implies uv[i][q] != '\n' by {
            assert(is_num_char(b.uncerts@[i]@[q]));
        }
    }
    lemma_data_lines_count(dv, b.voxel_total());
    lemma_data_lines_count(uv, b.voxel_total());
}

} // verus!

verus! {

proof fn lemma_node_lines_same(a: &DoseBlock, b: &DoseBlock, n: int)
    requires
        a.xs@ == b.xs@,
        a.ys@ == b.ys@,
        a.zs@ == b.zs@,
    ensures
        node_lines(a, n) == node_lines(b, n),
    decreases n,
{
    if n > 0 {
        lemma_node_lines_same(a, b, n - 1);
        assert(node_line(a, n - 1) == node_line(b, n - 1));
    }
}

proof fn lemma_elt_lines_same(a: &DoseBlock, b: &DoseBlock, n: int)
    requires
        a.xs@ == b.xs@,
        a.ys@ == b.ys@,
        a.zs@ == b.zs@,
    ensures
        elt_lines(a, n) == elt_lines(b, n),
    decreases n,
{
    if n > 0 {
        lemma_elt_lines_same(a, b, n - 1);
        assert(elt_line(a, n - 1) == elt_line(b, n - 1));
    }
}

proof fn lemma_csv_rows_same(a: &DoseBlock, b: &DoseBlock, n: int)
    requires
        a.xs@ == b.xs@,
        a.ys@ == b.ys@,
        a.zs@ == b.zs@,
        text_views(a.doses@) == text_views(b.doses@),
        text_views(a.uncerts@) == text_views(b.uncerts@),
        n <= a.doses@.len(),
        n <= a.uncerts@.len(),
    ensures
        crate::csv::csv_rows(a, n) == crate::csv::csv_rows(b, n),
    decreases n,
{
    if n > 0 {
        lemma_csv_rows_same(a, b, n - 1);
        assert(a.doses@.len() == b.doses@.len() && a.uncerts@.len() == b.uncerts@.len()) by {
            assert(text_views(a.doses@).len() == a.doses@.len());
            assert(text_views(b.doses@).len() == b.doses@.len());
            assert(text_views(a.uncerts@).len() == a.uncerts@.len());
            assert(text_views(b.uncerts@).len() == b.uncerts@.len());
        }
        assert(a.doses@[n - 1]@ == text_views(a.doses@)[n - 1]);
        assert(a.uncerts@[n - 1]@ == text_views(a.uncerts@)[n - 1]);
        assert(b.doses@[n - 1]@ == text_views(b.doses@)[n - 1]);
        assert(b.uncerts@[n - 1]@ == text_views(b.uncerts@)[n - 1]);
        assert(crate::csv::csv_row(a, n - 1) == crate::csv::csv_row(b, n - 1));
    }
}

/// Serialization is a function of the grid content alone: two blocks that
/// hold the same coordinates and the same value tokens serialize to
/// byte-identical mesh text and byte-identical table text. In particular,
/// serializing one block twice gives identical output.
pub proof fn lemma_serialization_deterministic(a: &DoseBlock, b: &DoseBlock)
    requires
        a.wf(),
        a.xs@ == b.xs@,
        a.ys@ == b.ys@,
        a.zs@ == b.zs@,
        text_views(a.doses@) == text_views(b.doses@),
        text_views(a.uncerts@) == text_views(b.uncerts@),
    ensures
        gmsh_text(a) == gmsh_text(b),
        crate::csv::csv_text(a) == crate::csv::csv_text(b),
{
    lemma_node_lines_same(a, b, a.node_total());
    lemma_elt_lines_same(a, b, a.voxel_total());
    lemma_csv_rows_same(a, b, a.voxel_total());
    assert(a.doses@.len() == b.doses@.len()) by {
        assert(text_views(a.doses@).len() == a.doses@.len());
        assert(text_views(b.doses@).len() == b.doses@.len());
    }
    assert(a.uncerts@.len() == b.uncerts@.len()) by {
        assert(text_views(a.uncerts@).len() == a.uncerts@.len());
        assert(text_views(b.uncerts@).len() == b.uncerts@.len());
    }
}

} // verus!
