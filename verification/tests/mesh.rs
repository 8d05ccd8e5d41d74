use audioviz::mesh::apply;

#[test]
fn each_vertex_meets_the_bin_rotated_to_it() {
    let n = 994;
    let mut vertices: Vec<(usize, usize)> = (0..n).map(|v| (v, usize::MAX)).collect();
    let ratios: Vec<usize> = (0..n).collect();
    apply(&mut vertices, &ratios, |vertex: (usize, usize), bin: usize| (vertex.0, bin));
    for bin in 0..n {
        let slot = (bin + 768) % n;
        assert_eq!(vertices[slot], (slot, bin));
    }
}

#[test]
fn deformation_reads_the_current_vertex() {
    let mut vertices: Vec<[i32; 4]> = (0..8).map(|v| [v, 2 * v, 3 * v, 0]).collect();
    let ratios: Vec<i32> = vec![7; 8];
    for round in 1..=3 {
        apply(&mut vertices, &ratios, |vertex: [i32; 4], ratio: i32| {
            [vertex[0], vertex[1], vertex[2], vertex[3] + ratio]
        });
        for (v, vertex) in vertices.iter().enumerate() {
            let v = v as i32;
            assert_eq!(*vertex, [v, 2 * v, 3 * v, 7 * round]);
        }
    }
}

#[test]
fn vertex_count_is_kept() {
    let mut vertices: Vec<u8> = vec![1, 2, 3];
    apply(&mut vertices, &vec![10u8, 20, 30], |vertex: u8, ratio: u8| vertex + ratio);
    assert_eq!(vertices.len(), 3);
    // 768 is a multiple of 3: bin i moves vertex i.
    assert_eq!(vertices, vec![11, 22, 33]);
}

#[test]
fn surplus_ratios_are_not_used() {
    let mut vertices: Vec<u32> = vec![0; 5];
    let ratios: Vec<u32> = vec![1, 2, 3, 4, 5, 600, 700];
    apply(&mut vertices, &ratios, |vertex: u32, ratio: u32| vertex + ratio);
    // 768 % 5 == 3: bin i moves vertex (i + 3) % 5.
    assert_eq!(vertices, vec![3, 4, 5, 1, 2]);
}

#[test]
fn empty_mesh_stays_empty() {
    let mut vertices: Vec<u32> = Vec::new();
    apply(&mut vertices, &vec![1u32, 2], |vertex: u32, ratio: u32| vertex + ratio);
    assert!(vertices.is_empty());
}
