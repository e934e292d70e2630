use lowping::fec::{Decoder, Encoder, FecError};

#[test]
fn encode_then_decode_with_no_loss_yields_original_data() {
    let enc = Encoder::new(4, 2).unwrap();
    let data: Vec<Vec<u8>> = (0..4).map(|i| vec![i as u8 + 1; 100]).collect();
    let parity = enc.encode(&data).unwrap();
    assert_eq!(parity.len(), 2);
    // No loss: data already complete; reconstruct should be a no-op
    let dec = Decoder::new(4, 2).unwrap();
    let mut shards: Vec<Option<Vec<u8>>> = data.iter().cloned().map(Some).collect();
    shards.extend(parity.into_iter().map(Some));
    dec.reconstruct_data(&mut shards).unwrap();
    for (i, s) in shards.iter().take(4).enumerate() {
        assert_eq!(s.as_ref().unwrap(), &vec![i as u8 + 1; 100]);
    }
}

#[test]
fn recovers_one_lost_data_shard() {
    let enc = Encoder::new(4, 2).unwrap();
    let data: Vec<Vec<u8>> = (0..4).map(|i| vec![i as u8 + 10; 50]).collect();
    let parity = enc.encode(&data).unwrap();
    let dec = Decoder::new(4, 2).unwrap();

    // Lose data shard at index 1
    let mut shards: Vec<Option<Vec<u8>>> = data.iter().cloned().map(Some).collect();
    shards[1] = None;
    shards.extend(parity.into_iter().map(Some));

    dec.reconstruct_data(&mut shards).unwrap();
    assert_eq!(shards[1].as_ref().unwrap(), &vec![11u8; 50]);
}

#[test]
fn recovers_two_lost_data_shards() {
    let enc = Encoder::new(4, 2).unwrap();
    let data: Vec<Vec<u8>> = (0..4).map(|i| vec![i as u8 * 7; 30]).collect();
    let parity = enc.encode(&data).unwrap();
    let dec = Decoder::new(4, 2).unwrap();

    let mut shards: Vec<Option<Vec<u8>>> = data.iter().cloned().map(Some).collect();
    shards[0] = None;
    shards[3] = None;
    shards.extend(parity.into_iter().map(Some));

    dec.reconstruct_data(&mut shards).unwrap();
    assert_eq!(shards[0].as_ref().unwrap(), &vec![0u8; 30]);
    assert_eq!(shards[3].as_ref().unwrap(), &vec![21u8; 30]);
}

#[test]
fn three_losses_with_only_two_parity_shards_fails() {
    let enc = Encoder::new(4, 2).unwrap();
    let data: Vec<Vec<u8>> = (0..4).map(|i| vec![i as u8; 20]).collect();
    let parity = enc.encode(&data).unwrap();
    let dec = Decoder::new(4, 2).unwrap();

    let mut shards: Vec<Option<Vec<u8>>> = data.iter().cloned().map(Some).collect();
    shards[0] = None;
    shards[1] = None;
    shards[2] = None;
    shards.extend(parity.into_iter().map(Some));

    let err = dec.reconstruct_data(&mut shards).unwrap_err();
    assert!(matches!(err, FecError::InsufficientShards { .. }));
}

fn sample(n: usize, len: usize) -> Vec<Vec<u8>> {
    (0..n).map(|i| (0..len).map(|j| (i * 31 + j * 7 + 3) as u8).collect()).collect()
}

#[test]
fn any_n_of_n_plus_k_recover_the_data() {
    let (n, k) = (3, 2);
    let data = sample(n, 17);
    let parity = Encoder::new(n, k).unwrap().encode(&data).unwrap();
    let decoder = Decoder::new(n, k).unwrap();
    for kept in 0u32..1 << (n + k) {
        let mut slots: Vec<Option<Vec<u8>>> = data.iter().chain(&parity).cloned().map(Some).collect();
        for (i, slot) in slots.iter_mut().enumerate() {
            if kept & (1 << i) == 0 {
                *slot = None;
            }
        }
        let before = slots.clone();
        let outcome = decoder.reconstruct_data(&mut slots);
        if kept.count_ones() as usize >= n {
            outcome.unwrap();
            for i in 0..n {
                assert_eq!(slots[i].as_ref(), Some(&data[i]));
            }
            // Parity slots are left as they were.
            assert_eq!(&slots[n..], &before[n..]);
        } else {
            match outcome {
                Err(FecError::InsufficientShards { have, need }) => {
                    assert_eq!(have, kept.count_ones() as usize);
                    assert_eq!(need, n);
                }
                _ => panic!("recovered from too few shards"),
            }
            assert_eq!(slots, before);
        }
    }
}

#[test]
fn parity_is_not_the_data() {
    let data = sample(2, 8);
    let parity = Encoder::new(2, 2).unwrap().encode(&data).unwrap();
    assert_eq!(parity.len(), 2);
    for p in &parity {
        assert_eq!(p.len(), 8);
        assert!(!data.contains(p));
    }
}

#[test]
fn configurations_are_checked() {
    assert!(matches!(
        Encoder::new(0, 2),
        Err(FecError::InvalidConfig { data: 0, parity: 2 })
    ));
    assert!(matches!(
        Encoder::new(2, 0),
        Err(FecError::InvalidConfig { data: 2, parity: 0 })
    ));
    assert!(Encoder::new(200, 56).is_ok());
    match Encoder::new(200, 57) {
        Err(FecError::ReedSolomon(message)) => assert_eq!(
            message,
            "The number of provided shards is greater than the one in codec"
        ),
        _ => panic!("accepted 257 shards"),
    }
    match Decoder::new(0, 2) {
        Err(FecError::ReedSolomon(message)) => assert_eq!(
            message,
            "The number of provided data shards is smaller than the one in codec"
        ),
        _ => panic!("accepted no data shards"),
    }
    match Decoder::new(2, 0) {
        Err(FecError::ReedSolomon(message)) => assert_eq!(
            message,
            "The number of provided parity shards is smaller than the one in codec"
        ),
        _ => panic!("accepted no parity shards"),
    }
}

#[test]
fn encode_errors() {
    let encoder = Encoder::new(3, 2).unwrap();
    assert!(matches!(
        encoder.encode(&sample(2, 4)),
        Err(FecError::InvalidConfig { data: 2, parity: 2 })
    ));
    let mut uneven = sample(3, 4);
    uneven[1] = vec![1; 5];
    uneven[2] = vec![1; 6];
    assert!(matches!(
        encoder.encode(&uneven),
        Err(FecError::InconsistentShardSize { expected: 4, got: 5 })
    ));
    match encoder.encode(&sample(3, 0)) {
        Err(FecError::ReedSolomon(message)) => {
            assert_eq!(message, "The first shard provided is of zero length")
        }
        _ => panic!("encoded empty shards"),
    }
}

#[test]
fn reconstruct_errors_change_nothing() {
    let decoder = Decoder::new(2, 1).unwrap();
    let mut few: Vec<Option<Vec<u8>>> = vec![Some(vec![1])];
    assert!(matches!(
        decoder.reconstruct_data(&mut few),
        Err(FecError::InvalidConfig { data: 1, parity: 0 })
    ));
    let mut empty: Vec<Option<Vec<u8>>> = vec![None, Some(vec![]), Some(vec![1])];
    match decoder.reconstruct_data(&mut empty) {
        Err(FecError::ReedSolomon(message)) => {
            assert_eq!(message, "The first shard provided is of zero length")
        }
        _ => panic!("reconstructed from an empty shard"),
    }
    assert_eq!(empty, vec![None, Some(vec![]), Some(vec![1])]);
    let mut uneven: Vec<Option<Vec<u8>>> = vec![Some(vec![1]), None, Some(vec![1, 2])];
    match decoder.reconstruct_data(&mut uneven) {
        Err(FecError::ReedSolomon(message)) => assert_eq!(
            message,
            "At least one of the provided shards is not of the correct size"
        ),
        _ => panic!("reconstructed from uneven shards"),
    }
    assert_eq!(uneven, vec![Some(vec![1]), None, Some(vec![1, 2])]);
}
