use dose2gmsh::DoseBlock;

const SINGLE: &str = "1 1 1\n0.0 1.0\n0.0 1.0\n0.0 1.0\n5.0\n0.1\n";

fn single_voxel() -> DoseBlock {
    DoseBlock::from_3d_dose(SINGLE.as_bytes()).unwrap()
}

/// The lines strictly between `start` and `end` markers.
fn section<'a>(text: &'a str, start: &str, end: &str) -> Vec<&'a str> {
    let lines: Vec<&str> = text.lines().collect();
    let s = lines.iter().position(|l| *l == start).unwrap();
    let e = lines.iter().position(|l| *l == end).unwrap();
    assert!(s < e);
    lines[s + 1..e].to_vec()
}

#[test]
fn mesh_single_voxel() {
    let data = single_voxel();
    let out = data.write_gmsh();
    let nodes = section(&out, "$Nodes", "$EndNodes");
    // count line plus exactly 8 node lines
    assert_eq!(nodes[0], "8");
    assert_eq!(nodes.len(), 9);
    let elts = section(&out, "$Elements", "$EndElements");
    assert_eq!(elts[0], "1");
    assert_eq!(elts.len(), 2);
    // hexahedron corner order: 1-indexed ids {1,2,4,3,5,6,8,7}
    assert_eq!(elts[1], "1 5 2 0 0 1 2 4 3 5 6 8 7");
    // one dose field entry, echoing the dose token
    assert!(out.contains("$ElementData\n1\n\"Dose [Gy\u{b7}cm2]\"\n1\n0.0\n3\n0\n1\n1\n1 5.0\n$EndElementData\n"));
    assert!(out.contains("\"Uncertainty fraction\"\n1\n0.0\n3\n0\n1\n1\n1 0.1\n$EndElementData\n"));
    assert!(out.starts_with("$MeshFormat\n2.2 0 8\n$EndMeshFormat\n"));
}

#[test]
fn mesh_node_lines_single_voxel() {
    let out = single_voxel().write_gmsh();
    let nodes = section(&out, "$Nodes", "$EndNodes");
    assert_eq!(
        nodes[1..],
        [
            "1 0 0 0", "2 1 0 0", "3 0 1 0", "4 1 1 0", "5 0 0 1", "6 1 0 1", "7 0 1 1",
            "8 1 1 1"
        ]
    );
}

#[test]
fn csv_single_voxel() {
    let out = single_voxel().write_csv();
    assert_eq!(
        out,
        "xc [cm],yc [cm],zc [cm],Dose [Gy cm2],Uncertainty fraction\n0.5,0.5,0.5,5.0,0.1\n"
    );
}

#[test]
fn serialization_deterministic() {
    let data = single_voxel();
    assert_eq!(data.write_gmsh(), data.write_gmsh());
    assert_eq!(data.write_csv(), data.write_csv());
    let again = DoseBlock::from_3d_dose(SINGLE.as_bytes()).unwrap();
    assert_eq!(data.write_gmsh().into_bytes(), again.write_gmsh().into_bytes());
}

#[test]
fn block_line_counts() {
    // 2 x 3 x 4 voxels: 24 elements, 60 nodes
    let input = "2 3 4\n0 1 2\n0 1 2 3\n0 1 2 3 4\n".to_string()
        + &vec!["1.5"; 24].join(" ")
        + "\n"
        + &vec!["0.2"; 24].join(" ")
        + "\n";
    let data = DoseBlock::from_3d_dose(input.as_bytes()).unwrap();
    let out = data.write_gmsh();
    let nodes = section(&out, "$Nodes", "$EndNodes");
    assert_eq!(nodes.len() - 1, data.num_nodes());
    assert_eq!(nodes[0], "60");
    let elts = section(&out, "$Elements", "$EndElements");
    assert_eq!(elts.len() - 1, data.num_voxels());
    // each field block carries one value line per element
    let csv = data.write_csv();
    assert_eq!(csv.lines().count(), 1 + data.num_voxels());
}

#[test]
fn corner_ids_in_range_and_distinct() {
    let input = "2 2 2\n0 1 2\n0 1 2\n0 1 2\n".to_string() + &vec!["1.0"; 8].join(" ") + "\n"
        + &vec!["0.1"; 8].join(" ") + "\n";
    let data = DoseBlock::from_3d_dose(input.as_bytes()).unwrap();
    let out = data.write_gmsh();
    for line in section(&out, "$Elements", "$EndElements")[1..].iter() {
        let ids: Vec<usize> = line
            .split_whitespace()
            .skip(5)
            .map(|t| t.parse().unwrap())
            .collect();
        assert_eq!(ids.len(), 8);
        for (a, &x) in ids.iter().enumerate() {
            assert!(1 <= x && x <= data.num_nodes());
            for &y in ids[..a].iter() {
                assert_ne!(x, y);
            }
        }
    }
}

#[test]
fn centroid_exact() {
    // the exact midpoint of 0.1 and 0.2 is 0.15
    let input = "1 1 1\n0.1 0.2\n-0.5 0.5\n-1.5 -0.5\n2.0\n0.3\n";
    let out = DoseBlock::from_3d_dose(input.as_bytes()).unwrap().write_csv();
    assert!(out.ends_with("\n0.15,0,-1,2.0,0.3\n"));
}

#[test]
fn coordinates_canonical() {
    // trailing zeros drop, exponents fold, signs and zero are canonical
    let input = "1 1 1\n2.50 1.5e1\n-0.250 +3.\n0.0 .5\n1e0\n0.1\n";
    let out = DoseBlock::from_3d_dose(input.as_bytes()).unwrap().write_gmsh();
    let nodes = section(&out, "$Nodes", "$EndNodes");
    assert_eq!(
        nodes[1..],
        [
            "1 2.5 -0.25 0", "2 15 -0.25 0", "3 2.5 3 0", "4 15 3 0", "5 2.5 -0.25 0.5",
            "6 15 -0.25 0.5", "7 2.5 3 0.5", "8 15 3 0.5"
        ]
    );
}

#[test]
fn mesh_golden_single_voxel() {
    let out = single_voxel().write_gmsh();
    let mut expected = String::new();
    expected.push_str("$MeshFormat\n2.2 0 8\n$EndMeshFormat\n");
    expected.push_str("$Nodes\n8\n");
    expected.push_str("1 0 0 0\n2 1 0 0\n3 0 1 0\n4 1 1 0\n5 0 0 1\n6 1 0 1\n7 0 1 1\n8 1 1 1\n");
    expected.push_str("$EndNodes\n");
    expected.push_str("$Elements\n1\n");
    expected.push_str("1 5 2 0 0 1 2 4 3 5 6 8 7\n");
    expected.push_str("$EndElements\n");
    expected.push_str("$ElementData\n1\n\"Dose [Gy\u{b7}cm2]\"\n1\n0.0\n3\n0\n1\n1\n1 5.0\n$EndElementData\n");
    expected.push_str("$ElementData\n1\n\"Uncertainty fraction\"\n1\n0.0\n3\n0\n1\n1\n1 0.1\n$EndElementData\n");
    assert_eq!(out, expected);
}

#[test]
fn csv_rows_x_fastest() {
    // 2 voxels along x share y and z centroids; x varies fastest
    let input = "2 1 1\n0 1 2\n0 1\n0 1\n1.0 2.0\n0.1 0.2\n";
    let out = DoseBlock::from_3d_dose(input.as_bytes()).unwrap().write_csv();
    let rows: Vec<&str> = out.lines().skip(1).collect();
    assert_eq!(rows, ["0.5,0.5,0.5,1.0,0.1", "1.5,0.5,0.5,2.0,0.2"]);
}

#[test]
fn scalar_token_forms() {
    // every form the scalar grammar admits parses; the tokens are echoed
    let input = "6 1 1\n0 1 2 3 4 5 6\n0 1\n0 1\n1. .5 +2.5 -3e2 4E-1 5.0e+1\n0.1 0.1 0.1 0.1 0.1 0.1\n";
    let data = DoseBlock::from_3d_dose(input.as_bytes()).unwrap();
    assert_eq!(data.doses, ["1.", ".5", "+2.5", "-3e2", "4E-1", "5.0e+1"]);
}
