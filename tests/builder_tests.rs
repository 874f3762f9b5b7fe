use simbiota_tlsh::{ColoredTLSHBuilder, TLSHBuilder, TLSHError, TLSH};

fn lcg(n: usize, seed: u64) -> Vec<u8> {
    let mut x = seed;
    let mut out = Vec::with_capacity(n);
    for _ in 0..n {
        x = (x * 1103515245 + 12345) % (1u64 << 31);
        out.push(((x >> 16) & 0xff) as u8);
    }
    out
}

fn hash_in_chunks(data: &[u8], chunk: usize) -> Result<TLSH, TLSHError> {
    let mut builder = TLSHBuilder::new();
    for piece in data.chunks(chunk) {
        builder.update(piece);
    }
    builder.finalize();
    builder.get_hash()
}

#[test]
fn test_ys() {
    let y_bytes = vec![b'Y'; 1000];
    let mut tlsh_builder = TLSHBuilder::new();
    tlsh_builder.update(&y_bytes);
    tlsh_builder.finalize();
    assert!(matches!(tlsh_builder.get_hash().unwrap_err(), TLSHError::Variety));
}

#[test]
fn test_len() {
    let smal = [0; 32];
    let mut tlsh_builder = TLSHBuilder::new();
    tlsh_builder.update(&smal);
    tlsh_builder.finalize();
    assert!(matches!(tlsh_builder.get_hash().unwrap_err(), TLSHError::Length));
}

#[test]
fn ys_leave_first_buckets_empty() {
    let mut builder = TLSHBuilder::new();
    builder.update(&vec![b'Y'; 1000]);
    let counts = builder.bucket_counts();
    assert!(counts[..128].iter().all(|&c| c == 0));
    assert_eq!(counts.iter().sum::<u64>(), 6 * 996);
}

#[test]
fn empty_input_is_too_short() {
    let mut builder = TLSHBuilder::new();
    builder.finalize();
    assert_eq!(builder.get_hash().unwrap_err(), TLSHError::Length);
}

#[test]
fn first_window_fills_one_bucket() {
    let mut builder = TLSHBuilder::new();
    builder.update(&[0x95, 0xF9, 0x32, 0xC1, 0x25]);
    let counts = builder.bucket_counts();
    assert_eq!(counts[9], 6);
    for (i, &c) in counts.iter().enumerate() {
        if i != 9 {
            assert_eq!(c, 0);
        }
    }
}

#[test]
fn first_window_across_chunks() {
    let mut builder = TLSHBuilder::new();
    builder.update(&[0x95, 0xF9]);
    builder.update(&[0x32]);
    builder.update(&[0xC1, 0x25]);
    let counts = builder.bucket_counts();
    assert_eq!(counts[9], 6);
    assert_eq!(counts.iter().sum::<u64>(), 6);
}

#[test]
fn known_digest_of_generated_bytes() {
    let data = lcg(1000, 7);
    let hash = hash_in_chunks(&data, data.len()).unwrap();
    assert_eq!(
        hash.to_digest(),
        "F811C82126E044DDF1E5CAFC0BB91F448175F05F13B15417883FB504E37DF280A12141"
    );
}

#[test]
fn known_digest_of_short_generated_bytes() {
    let data = lcg(300, 12345);
    let hash = hash_in_chunks(&data, 300).unwrap();
    assert_eq!(
        hash.to_digest(),
        "37E0E753510130D4A89345BA12353973FFC5DCAA1645531147C04443751D761D94DD15"
    );
}

#[test]
fn chunking_does_not_change_the_digest() {
    let data = lcg(1000, 7);
    let whole = hash_in_chunks(&data, data.len()).unwrap().to_digest();
    for chunk in [1usize, 2, 3, 4, 5, 7, 9, 10, 32, 100, 999] {
        assert_eq!(hash_in_chunks(&data, chunk).unwrap().to_digest(), whole, "chunk {}", chunk);
    }
}

#[test]
fn chunking_does_not_change_the_buckets() {
    let data = lcg(777, 3);
    let mut whole = TLSHBuilder::new();
    whole.update(&data);
    let mut pieces = TLSHBuilder::new();
    for piece in data.chunks(6) {
        pieces.update(piece);
    }
    assert_eq!(whole.bucket_counts(), pieces.bucket_counts());
}

#[test]
fn sequence_of_ninety_nine_hashes() {
    let data: Vec<u8> = (1..100).collect();
    let hash = hash_in_chunks(&data, data.len()).unwrap();
    assert_eq!(
        hash.to_digest(),
        "CBB01290D9C0CD8B4F0766C8E48D40ABA40357F301CD011123A10BC9CA902E4C101A0C"
    );
}

#[test]
fn forty_eight_bytes_are_too_short() {
    let data: Vec<u8> = (1..49).collect();
    assert_eq!(hash_in_chunks(&data, 48).unwrap_err(), TLSHError::Length);
}

#[test]
fn forty_nine_bytes_are_too_short_fifty_are_enough() {
    let data = lcg(50, 99);
    assert_eq!(hash_in_chunks(&data[..49], 49).unwrap_err(), TLSHError::Length);
    assert!(!matches!(hash_in_chunks(&data, 50), Err(TLSHError::Length)));
}

#[test]
fn constant_bytes_lack_variety() {
    let data = [b'A'; 64];
    let mut builder = ColoredTLSHBuilder::default();
    builder.update(&data[..40]);
    builder.update(&data[40..62]);
    builder.update(&data[62..]);
    builder.finalize();
    assert!(matches!(builder.get_hashes()[0], Err(TLSHError::Variety)));
    for c in [0u8, 1, 0x55, 0xFF] {
        assert_eq!(hash_in_chunks(&vec![c; 5000], 1000).unwrap_err(), TLSHError::Variety);
    }
}

#[test]
fn colored_builder_color_zero_matches_plain_builder() {
    let data = lcg(1000, 7);
    let mut builder = ColoredTLSHBuilder::new(&[0, 5]);
    builder.update(&data[..500]);
    builder.update(&data[500..]);
    builder.finalize();
    let hashes = builder.get_hashes();
    assert_eq!(hashes.len(), 2);
    let zero = hashes[0].unwrap();
    assert_eq!(zero.color, 0);
    assert_eq!(
        zero.tlsh.to_digest(),
        "F811C82126E044DDF1E5CAFC0BB91F448175F05F13B15417883FB504E37DF280A12141"
    );
    let five = hashes[1].unwrap();
    assert_eq!(five.color, 5);
    assert_eq!(
        five.tlsh.to_digest(),
        "F81161BCD249A34DA521632A147F8A029602816F03A624C043CA2FD05AE76FB6E3D6D6"
    );
}

#[test]
fn reset_starts_over() {
    let data = lcg(1000, 7);
    let mut builder = ColoredTLSHBuilder::new(&[0]);
    builder.update(&[1, 2, 3, 4, 5, 6, 7, 8, 9]);
    builder.reset();
    builder.update(&data);
    builder.finalize();
    assert_eq!(
        builder.get_hashes()[0].unwrap().tlsh.to_digest(),
        "F811C82126E044DDF1E5CAFC0BB91F448175F05F13B15417883FB504E37DF280A12141"
    );
}

#[test]
fn update_after_finalize_extends_the_stream() {
    let data = lcg(1000, 7);
    let mut builder = TLSHBuilder::new();
    builder.update(&data[..300]);
    builder.finalize();
    builder.update(&data[300..]);
    builder.finalize();
    assert_eq!(
        builder.get_hash().unwrap().to_digest(),
        "F811C82126E044DDF1E5CAFC0BB91F448175F05F13B15417883FB504E37DF280A12141"
    );
}
