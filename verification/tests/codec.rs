use interning::codec::{decode, encode};

#[test]
fn encode_folds_consecutive_ids_into_runs() {
    let ids: Vec<u32> = vec![5, 6, 7, 10, 12, 13, 14];
    assert_eq!(encode(&ids), vec![5i64, -2, 3, 2, -2]);
}

#[test]
fn decode_inverts_the_example() {
    let tokens: Vec<i64> = vec![5, -2, 3, 2, -2];
    assert_eq!(decode(&tokens), Some(vec![5u32, 6, 7, 10, 12, 13, 14]));
}

#[test]
fn empty_sequence_has_no_tokens() {
    let ids: Vec<u32> = Vec::new();
    assert_eq!(encode(&ids), Vec::<i64>::new());
    assert_eq!(decode(&[]), Some(Vec::<u32>::new()));
}

#[test]
fn single_id_is_its_distance_from_zero() {
    assert_eq!(encode(&[0]), vec![0i64]);
    assert_eq!(encode(&[1]), vec![1i64]);
    assert_eq!(encode(&[42]), vec![42i64]);
    assert_eq!(decode(&[42]), Some(vec![42u32]));
}

#[test]
fn first_id_one_is_no_run() {
    assert_eq!(encode(&[1, 2, 3]), vec![1i64, -2]);
    assert_eq!(decode(&[1, -2]), Some(vec![1u32, 2, 3]));
}

#[test]
fn run_from_zero() {
    assert_eq!(encode(&[0, 1, 2, 3]), vec![0i64, -3]);
    assert_eq!(decode(&[0, -3]), Some(vec![0u32, 1, 2, 3]));
}

#[test]
fn repeated_ids_are_kept() {
    assert_eq!(encode(&[5, 5, 6]), vec![5i64, 0, -1]);
    assert_eq!(decode(&[5, 0, -1]), Some(vec![5u32, 5, 6]));
}

#[test]
fn largest_id_round_trips() {
    let ids: Vec<u32> = vec![0x8000_0000, 0xffff_fffe, 0xffff_ffff];
    let tokens = encode(&ids);
    assert_eq!(tokens, vec![0x8000_0000i64, 0x7fff_fffe, -1]);
    assert_eq!(decode(&tokens), Some(ids));
}

#[test]
fn round_trip_on_mixed_sequences() {
    let samples: Vec<Vec<u32>> = vec![
        vec![],
        vec![7],
        vec![0, 2, 4, 6],
        vec![3, 4, 5, 6, 7, 8],
        vec![1, 2, 4, 5, 7, 8, 100, 101, 102, 4000000000],
        vec![9, 9, 9],
    ];
    for ids in samples {
        assert_eq!(decode(&encode(&ids)), Some(ids));
    }
}

#[test]
fn decode_refuses_an_id_beyond_32_bits() {
    assert_eq!(decode(&[0xffff_ffff, 1]), None);
    assert_eq!(decode(&[0x1_0000_0000]), None);
    assert_eq!(decode(&[0xffff_fffe, -2]), None);
    assert_eq!(decode(&[i64::MIN]), None);
    assert_eq!(decode(&[i64::MAX]), None);
    assert_eq!(decode(&[0xffff_fffe, -1]), Some(vec![0xffff_fffe, 0xffff_ffff]));
}
