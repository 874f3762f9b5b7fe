use simbiota_tlsh::{ColoredTLSH, TLSHDigestError, TLSH};

const HASH1: &str = "53152333A0D13738E4B172B10F6AC6135BEF7A225664750839D69F8D8E3B6C8D56932C";
const HASH2: &str = "94052217B1A73B39E46588F54EA5C09C2CFF3F222934210EB1ACA9491F7F7C0955A792";

#[test]
fn test() {
    let hash1 = "53152333A0D13738E4B172B10F6AC6135BEF7A225664750839D69F8D8E3B6C8D56932C";
    let hash2 = "94052217B1A73B39E46588F54EA5C09C2CFF3F222934210EB1ACA9491F7F7C0955A792";

    let hash1 = TLSH::from_digest(hash1);
    let hash2 = TLSH::from_digest(hash2);
    assert_eq!(TLSH::diff(&hash1, &hash2), 118);
    assert_eq!(hash1.to_digest(), "53152333A0D13738E4B172B10F6AC6135BEF7A225664750839D69F8D8E3B6C8D56932C");
    assert_eq!(hash2.to_digest(), "94052217B1A73B39E46588F54EA5C09C2CFF3F222934210EB1ACA9491F7F7C0955A792");
}

#[test]
fn digest_fields_are_nibble_swapped() {
    let h = TLSH::from_digest(HASH1);
    assert_eq!(h.checksum, 0x35);
    assert_eq!(h.lvalue, 0x51);
    assert_eq!(h.q_ratios, 0x32);
    assert_eq!(h.codes[31], 0x33);
    assert_eq!(h.codes[0], 0x2C);
}

#[test]
fn raw_round_trip() {
    let h = TLSH::from_digest(HASH2);
    let raw = h.to_raw();
    assert_eq!(raw[0], 0x94);
    assert_eq!(raw[34], 0x92);
    let back = TLSH::from_raw(&raw);
    assert_eq!(back.to_digest(), HASH2);
    assert_eq!(back.checksum, h.checksum);
    assert_eq!(back.codes, h.codes);
}

#[test]
fn lower_case_digest_reads_the_same() {
    let h = TLSH::from_digest(&HASH1.to_lowercase());
    assert_eq!(h.to_digest(), HASH1);
}

#[test]
fn versioned_digest_round_trip() {
    let h = TLSH::from_digest(HASH1);
    let versioned = h.to_digest_versioned(1);
    assert_eq!(versioned, format!("T1{}", HASH1));
    let back = TLSH::from_digest(&versioned);
    assert_eq!(back.to_digest(), HASH1);
    assert_eq!(h.to_digest_versioned(12), format!("T12{}", HASH1));
    assert_eq!(h.to_digest_versioned(-3), format!("T-3{}", HASH1));
}

#[test]
fn digest_errors() {
    assert_eq!(TLSH::try_from_digest("").unwrap_err(), TLSHDigestError::InvalidLength);
    assert_eq!(TLSH::try_from_digest(&HASH1[..68]).unwrap_err(), TLSHDigestError::InvalidLength);
    let bad = format!("G{}", &HASH1[1..]);
    assert_eq!(TLSH::try_from_digest(&bad).unwrap_err(), TLSHDigestError::InvalidHex);
    let t2 = format!("T2{}", HASH1);
    assert_eq!(TLSH::try_from_digest(&t2).unwrap_err(), TLSHDigestError::InvalidVersion);
    let colored = format!("07{}", HASH1);
    assert_eq!(TLSH::try_from_digest(&colored).unwrap_err(), TLSHDigestError::InvalidLength);
}

#[test]
fn raw_errors() {
    assert_eq!(TLSH::try_from_raw(&[0u8; 34]).unwrap_err(), TLSHDigestError::InvalidLength);
    assert_eq!(TLSH::try_from_raw(&[0u8; 36]).unwrap_err(), TLSHDigestError::InvalidLength);
    assert_eq!(ColoredTLSH::try_from_raw(&[0u8; 35]).unwrap_err(), TLSHDigestError::InvalidLength);
}

#[test]
fn colored_digest_forms() {
    let plain = ColoredTLSH::from_digest(HASH1);
    assert_eq!(plain.color, 0);
    assert_eq!(plain.tlsh.to_digest(), HASH1);
    let versioned = ColoredTLSH::from_digest(&format!("T1{}", HASH1));
    assert_eq!(versioned.color, 0);
    assert_eq!(versioned.tlsh.to_digest(), HASH1);
    let colored = ColoredTLSH::from_digest(&format!("A7{}", HASH1));
    assert_eq!(colored.color, 0xA7);
    assert_eq!(colored.tlsh.to_digest(), HASH1);
    assert_eq!(colored.to_digest(), format!("A7{}", HASH1));
    let raw = colored.to_raw();
    assert_eq!(raw[0], 0xA7);
    assert_eq!(ColoredTLSH::from_raw(&raw).to_digest(), format!("A7{}", HASH1));
}

#[test]
fn colored_digest_errors() {
    assert_eq!(
        ColoredTLSH::try_from_digest(&format!("T3{}", HASH1)).unwrap_err(),
        TLSHDigestError::InvalidVersion
    );
    assert_eq!(
        ColoredTLSH::try_from_digest(&format!("Z7{}", HASH1)).unwrap_err(),
        TLSHDigestError::InvalidHex
    );
    assert_eq!(
        ColoredTLSH::try_from_digest(&HASH1[..10]).unwrap_err(),
        TLSHDigestError::InvalidLength
    );
}
