use sdr::dsp::{OverlapExpand, OverlapReduce, Rechunker};

#[test]
fn test_overlap() {
    let mut overlap_expand = OverlapExpand::new(4);
    let mut overlap_reduce = OverlapReduce::new(2);

    let input: Vec<u32> = (0..24).collect();

    let overlapped = overlap_expand.process(&input);

    assert_eq!(overlapped.len(), 48);
    assert_eq!(
        overlapped[..16],
        vec![0, 0, 0, 1, 0, 1, 2, 3, 2, 3, 4, 5, 4, 5, 6, 7]
    );

    let output = overlap_reduce.process(&overlapped);
    assert_eq!(output.len(), 22);

    assert_eq!(output, (0..22).map(|i| i * 2).collect::<Vec<_>>())
}

#[test]
fn test_overlap_multiple_calls() {
    let input: Vec<u32> = (0..24).collect();

    let mut overlapped_from_chunks = vec![];
    let mut output_from_chunks = vec![];

    {
        // Process in chunks
        let mut overlap_expand = OverlapExpand::new(4);
        let mut overlap_reduce = OverlapReduce::new(2);

        for input_chunk in input.chunks_exact(4) {
            let overlapped_chunk = overlap_expand.process(&input_chunk);
            overlapped_from_chunks.extend_from_slice(&overlapped_chunk);
            let output_chunk = overlap_reduce.process(&overlapped_chunk);
            output_from_chunks.extend(output_chunk);
        }
    }

    let overlapped_bulk;
    let output_bulk;
    {
        // Process in bulk
        let mut overlap_expand = OverlapExpand::new(4);
        let mut overlap_reduce = OverlapReduce::new(2);

        overlapped_bulk = overlap_expand.process(&input);
        output_bulk = overlap_reduce.process(&overlapped_from_chunks);
    }

    assert_eq!(overlapped_from_chunks, overlapped_bulk,);
    assert_eq!(output_from_chunks, output_bulk,);
}

#[test]
fn streams_can_be_cloned() {
    let mut rechunker = Rechunker::new(3);
    assert!(rechunker.process(&[1, 2]).is_empty());
    let mut other = rechunker.clone();
    assert_eq!(
        rechunker.process(&[3, 4, 5, 6, 7]),
        other.process_iter(vec![3, 4, 5, 6, 7])
    );
    assert_eq!(rechunker.process(&[8, 9]), vec![vec![7, 8, 9]]);
    assert_eq!(other.process_iter(vec![8, 9]), vec![vec![7, 8, 9]]);

    let mut expand: OverlapExpand<i32> = OverlapExpand::new(4);
    expand.process(&[1, 2, 3, 4]);
    let mut other = expand.clone();
    assert_eq!(
        expand.process(&[5, 6, 7, 8]),
        vec![3, 4, 5, 6, 5, 6, 7, 8]
    );
    assert_eq!(
        other.process(&[5, 6, 7, 8]),
        vec![3, 4, 5, 6, 5, 6, 7, 8]
    );

    let mut reduce: OverlapReduce<i32> = OverlapReduce::new(2);
    reduce.process(&[0, 0, 1, 2]);
    let mut other = reduce.clone();
    assert_eq!(reduce.process(&[10, 20, 3, 4]), vec![11, 22]);
    assert_eq!(other.process(&[10, 20, 3, 4]), vec![11, 22]);
}

#[test]
fn reducing_gives_what_was_expanded_twice() {
    let input: Vec<i32> = (1..=12).collect();
    let mut expand: OverlapExpand<i32> = OverlapExpand::new(4);
    let windows = expand.process(&input);
    let mut reduce: OverlapReduce<i32> = OverlapReduce::new(2);
    let output = reduce.process(&windows);
    assert_eq!(output, (1..=10).map(|x| 2 * x).collect::<Vec<i32>>());
    let mut expand: OverlapExpand<i32> = OverlapExpand::new(4);
    let mut reduce: OverlapReduce<i32> = OverlapReduce::new(2);
    let mut pieces = reduce.process(&expand.process(&input[..4]));
    pieces.extend(reduce.process(&expand.process(&[])));
    pieces.extend(reduce.process(&expand.process(&input[4..])));
    assert_eq!(pieces, output);
}
