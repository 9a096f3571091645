use volume_slicer::fibers::{batches, geometry, indices, vertices, FiberError, SegmentRange, VertexColor};
use volume_slicer::inputs::Coloring;

fn lines(lens: &[usize]) -> Vec<Vec<[f32; 3]>> {
    let mut n = 0.0f32;
    lens.iter()
        .map(|&len| {
            (0..len)
                .map(|_| {
                    n += 1.0;
                    [n, 2.0 * n, 0.5]
                })
                .collect()
        })
        .collect()
}

#[test]
fn vertices_and_ranges() {
    let s = lines(&[3, 2]);
    let (v, r) = vertices(&s);
    assert_eq!(v.len(), 5);
    assert_eq!(v[3], s[1][0]);
    assert_eq!(r, vec![SegmentRange { start: 0, end: 2 }, SegmentRange { start: 3, end: 4 }]);
}

#[test]
fn indices_pair_consecutive_vertices() {
    let r = vec![SegmentRange { start: 0, end: 2 }, SegmentRange { start: 3, end: 4 }];
    assert_eq!(indices(&r), vec![0, 1, 1, 2, 3, 4]);
}

#[test]
fn geometry_counts() {
    let g = geometry(&lines(&[4, 2, 3])).unwrap();
    assert_eq!(g.vertices.len(), 9);
    assert_eq!(g.indices.len(), 2 * (3 + 1 + 2));
    assert_eq!(g.indices, vec![0, 1, 1, 2, 2, 3, 4, 5, 6, 7, 7, 8]);
}

#[test]
fn degenerate_streamlines_are_rejected() {
    assert_eq!(geometry(&lines(&[3, 1])).err(), Some(FiberError::DegenerateStreamline));
    assert_eq!(batches(&lines(&[3, 0]), 5).err(), Some(FiberError::DegenerateStreamline));
    assert_eq!(batches(&lines(&[3]), 0).err(), Some(FiberError::EmptyBatchSize));
}

#[test]
fn batching_is_lossless() {
    let s = lines(&[2, 3, 4, 5, 6]);
    let b = batches(&s, 2).unwrap();
    assert_eq!(b.len(), 3);
    let counts: Vec<usize> = b.iter().map(|g| g.vertices.len()).collect();
    assert_eq!(counts, vec![5, 9, 6]);
    assert_eq!(counts.iter().sum::<usize>(), 20);
    let index_total: usize = b.iter().map(|g| g.indices.len()).sum();
    assert_eq!(index_total, 2 * (20 - 5));
    let all: Vec<[f32; 3]> = b.iter().flat_map(|g| g.vertices.iter().copied()).collect();
    let flat: Vec<[f32; 3]> = s.iter().flatten().copied().collect();
    assert_eq!(all, flat);
    // Each batch indexes its own vertices from zero.
    assert_eq!(b[1].indices, vec![0, 1, 1, 2, 2, 3, 4, 5, 5, 6, 6, 7, 7, 8]);
}

#[test]
fn no_streamlines_no_batches() {
    let b = batches(&Vec::<Vec<[f32; 3]>>::new(), 50000).unwrap();
    assert!(b.is_empty());
}

#[test]
fn color_sources_per_policy() {
    let r = vec![SegmentRange { start: 0, end: 2 }, SegmentRange { start: 3, end: 4 }];
    let d = |from, to| VertexColor::Direction { from, to };
    assert_eq!(Coloring::Local.assign_vertex_colors(&r), vec![d(0, 1), d(1, 2), d(1, 2), d(3, 4), d(3, 4)]);
    assert_eq!(Coloring::Endpoint.assign_vertex_colors(&r), vec![d(2, 0), d(2, 0), d(2, 0), d(4, 3), d(4, 3)]);
    assert_eq!(Coloring::Uniform(9, 8, 7).assign_vertex_colors(&r), vec![VertexColor::Fixed(9, 8, 7); 5]);
}

#[test]
fn indices_reach_the_last_32_bit_vertex() {
    let top = u32::MAX as usize;
    assert_eq!(indices(&vec![SegmentRange { start: top - 1, end: top }]), vec![u32::MAX - 1, u32::MAX]);
}
