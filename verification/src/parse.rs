//! Parsing the six-line `3ddose` text format into a [`DoseBlock`].

use vstd::prelude::*;

use crate::block::DoseBlock;
use crate::digits::count_val;
use crate::scalar::{
    coord_of, coord_wf, is_scalar_token, num_text, parse_coord, token_chars, token_ok, token_text,
    Scalar,
};
use crate::split::{byte_views, line_list, split_lines, token_list, tokenize};

verus! {

/// The logical field being read when an error arises.
#[derive(Clone, Copy, Debug, PartialEq, Eq, Structural)]
pub enum Field {
    /// The three voxel counts of the first line.
    VoxelCount,
    /// An x node coordinate.
    XCoord,
    /// A y node coordinate.
    YCoord,
    /// A z node coordinate.
    ZCoord,
    /// A dose value.
    Dose,
    /// An uncertainty value.
    Uncert,
}

/// A fatal parse failure. Every variant aborts the whole conversion.
#[derive(Clone, Copy, Debug, PartialEq, Eq, Structural)]
pub enum DoseError {
    /// The input ended before the line holding this field.
    MissingLine(Field),
    /// A line held fewer or more tokens than the grid demands.
    WrongCount(Field),
    /// A token could not be read as a value of this field.
    BadToken(Field),
    /// The node lattice would not be addressable in memory.
    GridTooLarge,
}

/// The name of a field, as spoken in error messages.
pub open spec fn field_text(f: Field) -> Seq<char> {
    match f {
        Field::VoxelCount => "voxel number"@,
        Field::XCoord => "x-coordinate"@,
        Field::YCoord => "y-coordinate"@,
        Field::ZCoord => "z-coordinate"@,
        Field::Dose => "dose value"@,
        Field::Uncert => "uncertainty value"@,
    }
}

/// The full text of an error.
pub open spec fn error_text(e: DoseError) -> Seq<char> {
    match e {
        DoseError::MissingLine(f) => "missing line: "@ + field_text(f),
        DoseError::WrongCount(f) => "wrong token count: "@ + field_text(f),
        DoseError::BadToken(f) => "couldn't parse "@ + field_text(f),
        DoseError::GridTooLarge => "grid too large"@,
    }
}

impl Field {
    /// The name of the field.
    pub fn name(&self) -> (r: &'static str)
        ensures
            r@ == field_text(*self),
    {
        match self {
            Field::VoxelCount => "voxel number",
            Field::XCoord => "x-coordinate",
            Field::YCoord => "y-coordinate",
            Field::ZCoord => "z-coordinate",
            Field::Dose => "dose value",
            Field::Uncert => "uncertainty value",
        }
    }
}

impl DoseError {
    /// A short description of the error, naming the field involved.
    pub fn message(&self) -> (r: String)
        ensures
            r@ == error_text(*self),
    {
        let mut s: String = String::new();
        match self {
            DoseError::MissingLine(f) => {
                s.append("missing line: ");
                s.append(f.name());
            },
            DoseError::WrongCount(f) => {
                s.append("wrong token count: ");
                s.append(f.name());
            },
            DoseError::BadToken(f) => {
                s.append("couldn't parse ");
                s.append(f.name());
            },
            DoseError::GridTooLarge => {
                s.append("grid too large");
            },
        }
        proof {
            assert(s@ =~= error_text(*self));
        }
        s
    }
}

/// What a parsed grid holds, at the specification level.
pub ghost struct GridView {
    /// Node coordinates along each axis.
    pub xs: Seq<Scalar>,
    /// Node coordinates along each axis.
    pub ys: Seq<Scalar>,
    /// Node coordinates along each axis.
    pub zs: Seq<Scalar>,
    /// Per-voxel dose tokens.
    pub doses: Seq<Seq<char>>,
    /// Per-voxel uncertainty tokens.
    pub uncerts: Seq<Seq<char>>,
}

/// Every token of the line reads as an unsigned count.
pub open spec fn all_counts(ts: Seq<Seq<u8>>) -> bool {
    forall|i: int| 0 <= i < ts.len() ==> #[trigger] count_val(ts[i]) is Some
}

/// Every token of the line reads as a coordinate scalar.
pub open spec fn all_coords(ts: Seq<Seq<u8>>) -> bool {
    forall|i: int| 0 <= i < ts.len() ==> #[trigger] coord_of(ts[i]) is Some
}

/// Every token of the line is a scalar literal.
pub open spec fn all_scalars(ts: Seq<Seq<u8>>) -> bool {
    forall|i: int| 0 <= i < ts.len() ==> #[trigger] is_scalar_token(ts[i])
}

/// What a line of counting tokens denotes: first a failing token, then a
/// wrong token count, and otherwise the counts themselves.
pub open spec fn count_line_spec(l: Seq<u8>, f: Field, c: int) -> Result<Seq<usize>, DoseError> {
    let ts = token_list(l);
    if !all_counts(ts) {
        Err(DoseError::BadToken(f))
    } else if ts.len() != c {
        Err(DoseError::WrongCount(f))
    } else {
        Ok(ts.map_values(|t: Seq<u8>| count_val(t).unwrap()))
    }
}

/// What a line of coordinate tokens denotes.
pub open spec fn coord_line_spec(l: Seq<u8>, f: Field, c: int) -> Result<Seq<Scalar>, DoseError> {
    let ts = token_list(l);
    if !all_coords(ts) {
        Err(DoseError::BadToken(f))
    } else if ts.len() != c {
        Err(DoseError::WrongCount(f))
    } else {
        Ok(ts.map_values(|t: Seq<u8>| coord_of(t).unwrap()))
    }
}

/// What a line of value tokens denotes: the tokens as text.
pub open spec fn value_line_spec(l: Seq<u8>, f: Field, c: int) -> Result<
    Seq<Seq<char>>,
    DoseError,
> {
    let ts = token_list(l);
    if !all_scalars(ts) {
        Err(DoseError::BadToken(f))
    } else if ts.len() != c {
        Err(DoseError::WrongCount(f))
    } else {
        Ok(ts.map_values(|t: Seq<u8>| token_chars(t)))
    }
}

/// Reads a line of unsigned counting tokens.
pub fn parse_count_line(line: &[u8], field: Field, expect_len: usize) -> (r: Result<
    Vec<usize>,
    DoseError,
>)
    ensures
        (match (r, count_line_spec(line@, field, expect_len as int)) {
            (Ok(v), Ok(sv)) => v@ == sv,
            (Err(e), Err(se)) => e == se,
            _ => false,
        }),
{
    let toks: Vec<Vec<u8>> = tokenize(line);
    let ghost ts: Seq<Seq<u8>> = token_list(line@);
    let n: usize = toks.len();
    let mut out: Vec<usize> = Vec::new();
    let mut i: usize = 0;
    while i < n
        invariant
            i <= n,
            n == toks@.len(),
            byte_views(toks@) == ts,
            ts == token_list(line@),
            forall|k: int| 0 <= k < i ==> #[trigger] count_val(ts[k]) is Some,
            out@.len() == i,
            forall|k: int| 0 <= k < i ==> out@[k] == count_val(ts[k]).unwrap(),
        decreases n - i,
    {
        let t: &Vec<u8> = &toks[i];
        assert(t@ == ts[i as int]);
        match crate::digits::parse_count(t.as_slice()) {
            Some(v) => {
                out.push(v);
            },
            None => {
                assert(!all_counts(ts));
                return Err(DoseError::BadToken(field));
            },
        }
        i = i + 1;
    }
    assert(all_counts(ts));
    if out.len() != expect_len {
        return Err(DoseError::WrongCount(field));
    }
    proof {
        assert(out@ =~= ts.map_values(|t: Seq<u8>| count_val(t).unwrap()));
    }
    Ok(out)
}

/// Reads a line of coordinate tokens into exact scalars.
pub fn parse_coord_line(line: &[u8], field: Field, expect_len: usize) -> (r: Result<
    Vec<Scalar>,
    DoseError,
>)
    ensures
        (match (r, coord_line_spec(line@, field, expect_len as int)) {
            (Ok(v), Ok(sv)) => v@ == sv,
            (Err(e), Err(se)) => e == se,
            _ => false,
        }),
        r is Ok ==> forall|k: int| 0 <= k < r.unwrap()@.len() ==> coord_wf(#[trigger] r.unwrap()@[k]),
{
    let toks: Vec<Vec<u8>> = tokenize(line);
    let ghost ts: Seq<Seq<u8>> = token_list(line@);
    let n: usize = toks.len();
    let mut out: Vec<Scalar> = Vec::new();
    let mut i: usize = 0;
    while i < n
        invariant
            i <= n,
            n == toks@.len(),
            byte_views(toks@) == ts,
            ts == token_list(line@),
            forall|k: int| 0 <= k < i ==> #[trigger] coord_of(ts[k]) is Some,
            out@.len() == i,
            forall|k: int| 0 <= k < i ==> out@[k] == coord_of(ts[k]).unwrap(),
            forall|k: int| 0 <= k < i ==> coord_wf(#[trigger] out@[k]),
        decreases n - i,
    {
        let t: &Vec<u8> = &toks[i];
        assert(t@ == ts[i as int]);
        match parse_coord(t.as_slice()) {
            Some(c) => {
                out.push(c);
            },
            None => {
                assert(!all_coords(ts));
                return Err(DoseError::BadToken(field));
            },
        }
        i = i + 1;
    }
    assert(all_coords(ts));
    if out.len() != expect_len {
        return Err(DoseError::WrongCount(field));
    }
    proof {
        assert(out@ =~= ts.map_values(|t: Seq<u8>| coord_of(t).unwrap()));
    }
    Ok(out)
}

/// Reads a line of scalar value tokens, keeping each token as text.
pub fn parse_simple_line(line: &[u8], field: Field, expect_len: usize) -> (r: Result<
    Vec<String>,
    DoseError,
>)
    ensures
        (match (r, value_line_spec(line@, field, expect_len as int)) {
            (Ok(v), Ok(sv)) => v@.map_values(|s: String| s@) == sv,
            (Err(e), Err(se)) => e == se,
            _ => false,
        }),
        r is Ok ==> forall|k: int|
            0 <= k < r.unwrap()@.len() ==> num_text(#[trigger] r.unwrap()@[k]@),
        r is Ok ==> r.unwrap()@.len() == expect_len,
{
    let toks: Vec<Vec<u8>> = tokenize(line);
    let ghost ts: Seq<Seq<u8>> = token_list(line@);
    let n: usize = toks.len();
    let mut out: Vec<String> = Vec::new();
    let mut i: usize = 0;
    while i < n
        invariant
            i <= n,
            n == toks@.len(),
            byte_views(toks@) == ts,
            ts == token_list(line@),
            forall|k: int| 0 <= k < i ==> #[trigger] is_scalar_token(ts[k]),
            out@.len() == i,
            forall|k: int| 0 <= k < i ==> (#[trigger] out@[k])@ == token_chars(ts[k]),
            forall|k: int| 0 <= k < i ==> num_text((#[trigger] out@[k])@),
        decreases n - i,
    {
        let t: &Vec<u8> = &toks[i];
        assert(t@ == ts[i as int]);
        if !token_ok(t.as_slice()) {
            assert(!all_scalars(ts));
            return Err(DoseError::BadToken(field));
        }
        let s: String = token_text(t.as_slice());
        out.push(s);
        i = i + 1;
    }
    assert(all_scalars(ts));
    if out.len() != expect_len {
        return Err(DoseError::WrongCount(field));
    }
    proof {
        assert(out@.map_values(|s: String| s@) =~= ts.map_values(|t: Seq<u8>| token_chars(t)));
    }
    Ok(out)
}

/// What the whole input denotes: the grid, or the first fatal error of the
/// six-line cascade.
pub open spec fn parse_spec(input: Seq<u8>) -> Result<GridView, DoseError> {
    let lines = line_list(input);
    if lines.len() < 1 {
        Err(DoseError::MissingLine(Field::VoxelCount))
    } else {
        match count_line_spec(lines[0], Field::VoxelCount, 3) {
            Err(e) => Err(e),
            Ok(cs) => {
                let nx = cs[0] as int;
                let ny = cs[1] as int;
                let nz = cs[2] as int;
                if nx == 0 || ny == 0 || nz == 0 {
                    Err(DoseError::BadToken(Field::VoxelCount))
                } else if (nx + 1) * (ny + 1) * (nz + 1) > usize::MAX {
                    Err(DoseError::GridTooLarge)
                } else if lines.len() < 2 {
                    Err(DoseError::MissingLine(Field::XCoord))
                } else {
                    match coord_line_spec(lines[1], Field::XCoord, nx + 1) {
                        Err(e) => Err(e),
                        Ok(xs) => if lines.len() < 3 {
                            Err(DoseError::MissingLine(Field::YCoord))
                        } else {
                            match coord_line_spec(lines[2], Field::YCoord, ny + 1) {
                                Err(e) => Err(e),
                                Ok(ys) => if lines.len() < 4 {
                                    Err(DoseError::MissingLine(Field::ZCoord))
                                } else {
                                    match coord_line_spec(lines[3], Field::ZCoord, nz + 1) {
                                        Err(e) => Err(e),
                                        Ok(zs) => if lines.len() < 5 {
                                            Err(DoseError::MissingLine(Field::Dose))
                                        } else {
                                            match value_line_spec(
                                                lines[4],
                                                Field::Dose,
                                                nx * ny * nz,
                                            ) {
                                                Err(e) => Err(e),
                                                Ok(doses) => if lines.len() < 6 {
                                                    Err(DoseError::MissingLine(Field::Uncert))
                                                } else {
                                                    match value_line_spec(
                                                        lines[5],
                                                        Field::Uncert,
                                                        nx * ny * nz,
                                                    ) {
                                                        Err(e) => Err(e),
                                                        Ok(uncerts) => Ok(
                                                            GridView { xs, ys, zs, doses, uncerts },
                                                        ),
                                                    }
                                                },
                                            }
                                        },
                                    }
                                },
                            }
                        },
                    }
                }
            },
        }
    }
}

/// The parsed block carries exactly what the input denotes.
pub open spec fn block_matches(b: DoseBlock, v: GridView) -> bool {
    &&& b.xs@ == v.xs
    &&& b.ys@ == v.ys
    &&& b.zs@ == v.zs
    &&& b.doses@.map_values(|s: String| s@) == v.doses
    &&& b.uncerts@.map_values(|s: String| s@) == v.uncerts
}

impl DoseBlock {
    /// Creates a `DoseBlock` by parsing the text of a `3ddose` file.
    ///
    /// The input carries six logical lines: the three positive voxel counts;
    /// the `nx+1`, `ny+1` and `nz+1` node coordinates of each axis; and the
    /// `nx*ny*nz` dose then uncertainty values. Any missing line, wrong
    /// per-line token count or unreadable token is a fatal error, and the
    /// returned block otherwise satisfies the structural invariant.
    pub fn from_3d_dose(input: &[u8]) -> (r: Result<DoseBlock, DoseError>)
        ensures
            (match (r, parse_spec(input@)) {
                (Ok(b), Ok(v)) => b.wf() && block_matches(b, v),
                (Err(e), Err(se)) => e == se,
                _ => false,
            }),
    {
        let lines: Vec<Vec<u8>> = split_lines(input);
        let ghost ls: Seq<Seq<u8>> = line_list(input@);
        if lines.len() < 1 {
            return Err(DoseError::MissingLine(Field::VoxelCount));
        }
        assert(lines@[0]@ == ls[0]);
        let counts: Vec<usize> = match parse_count_line(lines[0].as_slice(), Field::VoxelCount, 3) {
            Ok(v) => v,
            Err(e) => {
                return Err(e);
            },
        };
        let nx: usize = counts[0];
        let ny: usize = counts[1];
        let nz: usize = counts[2];
        if nx == 0 || ny == 0 || nz == 0 {
            return Err(DoseError::BadToken(Field::VoxelCount));
        }
        let xlen: usize = match nx.checked_add(1) {
            Some(v) => v,
            None => {
                proof {
                    nonlinear_grid_big(nx as int, ny as int, nz as int);
                }
                return Err(DoseError::GridTooLarge);
            },
        };
        let ylen: usize = match ny.checked_add(1) {
            Some(v) => v,
            None => {
                proof {
                    nonlinear_grid_big(nx as int, ny as int, nz as int);
                }
                return Err(DoseError::GridTooLarge);
            },
        };
        let zlen: usize = match nz.checked_add(1) {
            Some(v) => v,
            None => {
                proof {
                    nonlinear_grid_big(nx as int, ny as int, nz as int);
                }
                return Err(DoseError::GridTooLarge);
            },
        };
        let xy: usize = match xlen.checked_mul(ylen) {
            Some(v) => v,
            None => {
                proof {
                    nonlinear_grid_big2(xlen as int, ylen as int, zlen as int);
                }
                return Err(DoseError::GridTooLarge);
            },
        };
        let _total: usize = match xy.checked_mul(zlen) {
            Some(v) => v,
            None => {
                return Err(DoseError::GridTooLarge);
            },
        };
        proof {
            nonlinear_voxels_fit(xlen as int, ylen as int, zlen as int);
        }
        let nv: usize = nx * ny * nz;
        if lines.len() < 2 {
            return Err(DoseError::MissingLine(Field::XCoord));
        }
        assert(lines@[1]@ == ls[1]);
        let xs: Vec<Scalar> = match parse_coord_line(lines[1].as_slice(), Field::XCoord, xlen) {
            Ok(v) => v,
            Err(e) => {
                return Err(e);
            },
        };
        if lines.len() < 3 {
            return Err(DoseError::MissingLine(Field::YCoord));
        }
        assert(lines@[2]@ == ls[2]);
        let ys: Vec<Scalar> = match parse_coord_line(lines[2].as_slice(), Field::YCoord, ylen) {
            Ok(v) => v,
            Err(e) => {
                return Err(e);
            },
        };
        if lines.len() < 4 {
            return Err(DoseError::MissingLine(Field::ZCoord));
        }
        assert(lines@[3]@ == ls[3]);
        let zs: Vec<Scalar> = match parse_coord_line(lines[3].as_slice(), Field::ZCoord, zlen) {
            Ok(v) => v,
            Err(e) => {
                return Err(e);
            },
        };
        if lines.len() < 5 {
            return Err(DoseError::MissingLine(Field::Dose));
        }
        assert(lines@[4]@ == ls[4]);
        let doses: Vec<String> = match parse_simple_line(lines[4].as_slice(), Field::Dose, nv) {
            Ok(v) => v,
            Err(e) => {
                return Err(e);
            },
        };
        if lines.len() < 6 {
            return Err(DoseError::MissingLine(Field::Uncert));
        }
        assert(lines@[5]@ == ls[5]);
        let uncerts: Vec<String> = match parse_simple_line(
            lines[5].as_slice(),
            Field::Uncert,
            nv,
        ) {
            Ok(v) => v,
            Err(e) => {
                return Err(e);
            },
        };
        let b = DoseBlock { xs, ys, zs, doses, uncerts };
        proof {
            assert(b.doses@.len() == nv && b.uncerts@.len() == nv);
            assert(b.wf());
        }
        Ok(b)
    }
}

/// A voxel count at the machine-word limit makes the node product exceed it.
proof fn nonlinear_grid_big(nx: int, ny: int, nz: int)
    requires
        nx >= 1,
        ny >= 1,
        nz >= 1,
        nx == usize::MAX || ny == usize::MAX || nz == usize::MAX,
    ensures
        (nx + 1) * (ny + 1) * (nz + 1) > usize::MAX,
{
    let p = (nx + 1) * (ny + 1);
    assert(p >= nx + 1 && p >= ny + 1) by (nonlinear_arith)
        requires
            p == (nx + 1) * (ny + 1),
            nx >= 1 && ny >= 1,
    ;
    assert(p * (nz + 1) >= p && p * (nz + 1) >= nz + 1) by (nonlinear_arith)
        requires
            p >= 2,
            nz >= 1,
    ;
}

/// An overflowing partial product already exceeds the machine word.
proof fn nonlinear_grid_big2(xlen: int, ylen: int, zlen: int)
    requires
        xlen >= 2,
        ylen >= 2,
        zlen >= 2,
        xlen * ylen > usize::MAX,
    ensures
        xlen * ylen * zlen > usize::MAX,
{
    assert(xlen * ylen * zlen >= xlen * ylen) by (nonlinear_arith)
        requires
            xlen * ylen >= 0 && zlen >= 1,
    ;
}

/// When the node product fits, so does the voxel product.
proof fn nonlinear_voxels_fit(xlen: int, ylen: int, zlen: int)
    requires
        xlen >= 2,
        ylen >= 2,
        zlen >= 2,
        xlen * ylen <= usize::MAX,
        xlen * ylen * zlen <= usize::MAX,
    ensures
        (xlen - 1) * (ylen - 1) <= usize::MAX,
        (xlen - 1) * (ylen - 1) * (zlen - 1) <= usize::MAX,
        (xlen - 1) * (ylen - 1) >= 0,
        (xlen - 1) * (ylen - 1) * (zlen - 1) >= 0,
{
    assert((xlen - 1) * (ylen - 1) <= xlen * ylen) by (nonlinear_arith)
        requires
            xlen >= 1 && ylen >= 1,
    ;
    assert((xlen - 1) * (ylen - 1) * (zlen - 1) <= xlen * ylen * zlen) by (nonlinear_arith)
        requires
            xlen >= 1 && ylen >= 1 && zlen >= 1,
    ;
    assert((xlen - 1) * (ylen - 1) >= 0) by (nonlinear_arith)
        requires
            xlen >= 1 && ylen >= 1,
    ;
    assert((xlen - 1) * (ylen - 1) * (zlen - 1) >= 0) by (nonlinear_arith)
        requires
            xlen >= 1 && ylen >= 1 && zlen >= 1,
    ;
}

} // verus!
