use band::npz_dataset::EgmdDataset;

#[test]
fn path_index_skips_short_tracks_and_slides() {
    let tracks = vec![("a.npz".to_string(), 100usize), ("b.npz".to_string(), 296usize)];
    let ds = EgmdDataset::index(&tracks);
    assert_eq!(ds.len(), 3);
    let items: Vec<(String, usize)> = (0..3).map(|i| ds.get(i).unwrap()).map(|c| (c.path, c.frame_offset)).collect();
    assert_eq!(items, vec![("b.npz".to_string(), 0), ("b.npz".to_string(), 20), ("b.npz".to_string(), 40)]);
    assert!(ds.get(3).is_none());
}

#[test]
fn path_index_covers_the_last_frames() {
    /* 300 frames: strided chunks end by frame 296, so one more chunk ends at frame 300 */
    let tracks = vec![("c.npz".to_string(), 300usize)];
    let ds = EgmdDataset::index(&tracks);
    let offsets: Vec<usize> = (0..ds.len()).map(|i| ds.get(i).unwrap().frame_offset).collect();
    assert_eq!(offsets, vec![0, 20, 40, 44]);
    for f in 0..300 {
        assert!(offsets.iter().any(|&o| o <= f && f < o + 256), "frame {f} in no chunk");
    }
}

fn npz_with_spec(rows: usize) -> Vec<u8> {
    let spec = ndarray::Array2::<f32>::zeros((rows, 4));
    let mut npz = ndarray_npy::NpzWriter::new(std::io::Cursor::new(Vec::new()));
    npz.add_array("spec", &spec).unwrap();
    npz.finish().unwrap().into_inner()
}

#[test]
fn npz_index_reads_frame_counts_and_skips_unreadable_files() {
    let files = vec![
        ("short.npz".to_string(), npz_with_spec(100)),
        ("broken.npz".to_string(), vec![1u8, 2, 3]),
        ("long.npz".to_string(), npz_with_spec(300)),
    ];
    let ds = EgmdDataset::index_npz::<f32>(&files);
    let items: Vec<(String, usize)> = (0..ds.len()).map(|i| ds.get(i).unwrap()).map(|c| (c.path, c.frame_offset)).collect();
    assert_eq!(
        items,
        vec![
            ("long.npz".to_string(), 0),
            ("long.npz".to_string(), 20),
            ("long.npz".to_string(), 40),
            ("long.npz".to_string(), 44),
        ]
    );
}

#[test]
fn npz_index_of_an_exact_chunk_is_one_chunk() {
    let files = vec![("one.npz".to_string(), npz_with_spec(256))];
    let ds = EgmdDataset::index_npz::<f32>(&files);
    assert_eq!(ds.len(), 1);
    assert_eq!(ds.get(0).unwrap().frame_offset, 0);
}
