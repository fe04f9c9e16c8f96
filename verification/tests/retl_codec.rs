use mpedb::retl_codec::{
    delta_apply, delta_encode, envelope, open_envelope, zip_join, zip_split, Kind, SpliceParts,
};
use mpedb::Error;

const OP_COPY: u8 = 0x01;

fn xorshift(s: &mut u64) -> u64 {
    *s ^= *s << 13;
    *s ^= *s >> 7;
    *s ^= *s << 17;
    *s
}

fn bytes(n: usize, seed: u64) -> Vec<u8> {
    let mut s = seed;
    (0..n).map(|_| (xorshift(&mut s) & 0xff) as u8).collect()
}

#[test]
fn envelope_round_trips_and_refuses_newer_kinds_by_number() {
    let e = envelope(Kind::DeltaV1, b"payload").unwrap();
    let (k, p) = open_envelope(&e).unwrap();
    assert_eq!(k, Kind::DeltaV1);
    assert_eq!(p, b"payload");

    let mut newer = e.clone();
    newer[0] = 7;
    let err = open_envelope(&newer).unwrap_err().message();
    assert!(err.contains('7'), "the unknown kind is NAMED: {err}");

    for n in 0..e.len() {
        assert!(open_envelope(&e[..n]).is_err(), "prefix {n} decoded");
    }
    let mut long = e.clone();
    long.push(0);
    assert!(open_envelope(&long).is_err(), "trailing bytes are corruption");
}

/// The delta contract: apply(base, encode(base, target)) == target,
/// byte-identically, across shapes chosen to stress the encoder — and the
/// test NEVER asserts encoder bytes, only round-trip equality.
#[test]
fn delta_round_trips_across_shapes() {
    let cases: Vec<(Vec<u8>, Vec<u8>)> = vec![
        // small edit in a large base
        {
            let base = bytes(50_000, 1);
            let mut t = base.clone();
            t[25_000] ^= 0xff;
            (base, t)
        },
        // insertion in the middle
        {
            let base = bytes(10_000, 2);
            let mut t = base[..5000].to_vec();
            t.extend_from_slice(b"INSERTED CONTENT");
            t.extend_from_slice(&base[5000..]);
            (base, t)
        },
        // deletion
        {
            let base = bytes(10_000, 3);
            let mut t = base[..2000].to_vec();
            t.extend_from_slice(&base[6000..]);
            (base, t)
        },
        // rearrangement
        {
            let base = bytes(8_000, 4);
            let mut t = base[4000..].to_vec();
            t.extend_from_slice(&base[..4000]);
            (base, t)
        },
        // adversarial repetition (the chain-cap case)
        (vec![0u8; 100_000], vec![0u8; 100_001]),
        // empty base (all-literal delta), empty target
        (Vec::new(), bytes(500, 5)),
        (bytes(500, 6), Vec::new()),
    ];
    for (i, (base, target)) in cases.iter().enumerate() {
        match delta_encode(base, target) {
            Some(d) => {
                let back = delta_apply(base, &d).unwrap();
                assert_eq!(&back, target, "case {i}: round trip broke");
                assert!(
                    d.len() < target.len() + 5,
                    "case {i}: a delta that is not smaller must be None"
                );
            }
            None => {
                // Legal: the encoder declines when not smaller. Raw wins.
            }
        }
    }
    // The similar-inputs case MUST produce a small delta — otherwise the
    // engine is decorative. (A bound, not a byte-assert.)
    let base = bytes(100_000, 7);
    let mut t = base.clone();
    t[1000] ^= 1;
    let d = delta_encode(&base, &t).expect("a one-byte edit must delta well");
    assert!(d.len() < 200, "one-byte edit encoded to {} bytes", d.len());
    assert_eq!(delta_apply(&base, &d).unwrap(), t);
}

#[test]
fn delta_encoder_is_deterministic() {
    let base = bytes(30_000, 8);
    let mut t = base[..10_000].to_vec();
    t.extend_from_slice(&bytes(100, 9));
    t.extend_from_slice(&base[10_000..]);
    let a = delta_encode(&base, &t);
    let b = delta_encode(&base, &t);
    assert_eq!(a, b, "same inputs, same bytes — a pure function");
}

// ------------------------------------------------------------- zip

/// Minimal STORE-method zip writer for fixtures. CRCs are zero — the
/// splicer never validates them, and reconstruction is byte-identical
/// regardless (they ride the residual verbatim).
fn store_zip(members: &[(&[u8], &[u8])]) -> Vec<u8> {
    let mut f = Vec::new();
    let mut cd = Vec::new();
    let mut offsets = Vec::new();
    for (name, data) in members {
        offsets.push(f.len() as u32);
        f.extend_from_slice(b"PK\x03\x04");
        f.extend_from_slice(&20u16.to_le_bytes()); // version needed
        f.extend_from_slice(&0u16.to_le_bytes()); // flags
        f.extend_from_slice(&0u16.to_le_bytes()); // method = store
        f.extend_from_slice(&[0; 4]); // time+date
        f.extend_from_slice(&[0; 4]); // crc
        f.extend_from_slice(&(data.len() as u32).to_le_bytes());
        f.extend_from_slice(&(data.len() as u32).to_le_bytes());
        f.extend_from_slice(&(name.len() as u16).to_le_bytes());
        f.extend_from_slice(&0u16.to_le_bytes()); // extra
        f.extend_from_slice(name);
        f.extend_from_slice(data);
    }
    let cd_start = f.len() as u32;
    for ((name, data), off) in members.iter().zip(&offsets) {
        cd.extend_from_slice(b"PK\x01\x02");
        cd.extend_from_slice(&20u16.to_le_bytes()); // made by
        cd.extend_from_slice(&20u16.to_le_bytes()); // needed
        cd.extend_from_slice(&0u16.to_le_bytes()); // flags
        cd.extend_from_slice(&0u16.to_le_bytes()); // method
        cd.extend_from_slice(&[0; 4]); // time+date
        cd.extend_from_slice(&[0; 4]); // crc
        cd.extend_from_slice(&(data.len() as u32).to_le_bytes());
        cd.extend_from_slice(&(data.len() as u32).to_le_bytes());
        cd.extend_from_slice(&(name.len() as u16).to_le_bytes());
        cd.extend_from_slice(&0u16.to_le_bytes()); // extra
        cd.extend_from_slice(&0u16.to_le_bytes()); // comment
        cd.extend_from_slice(&0u16.to_le_bytes()); // disk start
        cd.extend_from_slice(&0u16.to_le_bytes()); // internal attrs
        cd.extend_from_slice(&[0; 4]); // external attrs
        cd.extend_from_slice(&off.to_le_bytes());
        cd.extend_from_slice(name);
    }
    f.extend_from_slice(&cd);
    f.extend_from_slice(b"PK\x05\x06");
    f.extend_from_slice(&[0; 4]); // disk numbers
    f.extend_from_slice(&(members.len() as u16).to_le_bytes());
    f.extend_from_slice(&(members.len() as u16).to_le_bytes());
    f.extend_from_slice(&(cd.len() as u32).to_le_bytes());
    f.extend_from_slice(&cd_start.to_le_bytes());
    f.extend_from_slice(&0u16.to_le_bytes()); // comment len
    f
}

fn roundtrip(file: &[u8]) -> SpliceParts {
    let parts = zip_split(file).unwrap();
    let data: std::collections::HashMap<u32, Vec<u8>> = parts
        .members
        .iter()
        .map(|m| {
            (m.member_no, file[m.offset as usize..(m.offset + m.len) as usize].to_vec())
        })
        .collect();
    let back = zip_join(&parts.residual_payload, &|no| {
        data.get(&no).cloned().ok_or_else(|| Error::Corrupt("missing member".into()))
    })
    .unwrap();
    assert_eq!(back, file, "re-splice must be byte-identical");
    parts
}

#[test]
fn zip_splice_round_trips_the_quirk_battery() {
    // Plain, empty-member, empty archive, non-UTF8 name, duplicate names.
    let plain = store_zip(&[(b"a.txt", b"hello"), (b"b.bin", &bytes(3000, 20))]);
    assert_eq!(roundtrip(&plain).members.len(), 2);

    let empty_member = store_zip(&[(b"empty", b"")]);
    roundtrip(&empty_member);

    let empty_zip = store_zip(&[]);
    assert_eq!(roundtrip(&empty_zip).members.len(), 0);

    let non_utf8 = store_zip(&[(&[0xC0, 0xFF, 0x80][..], b"cp437 name")]);
    let parts = roundtrip(&non_utf8);
    assert_eq!(parts.members[0].name, vec![0xC0, 0xFF, 0x80]);

    let dupes = store_zip(&[(b"same", b"one"), (b"same", b"two")]);
    assert_eq!(roundtrip(&dupes).members.len(), 2);

    // SFX stub: bytes prepended, internal offsets NOT updated — the
    // base-offset correction absorbs it and the stub rides the residual.
    let mut sfx = b"#!/bin/sh SELF-EXTRACTING STUB\n".to_vec();
    sfx.extend_from_slice(&plain);
    roundtrip(&sfx);

    // Junk BETWEEN members (deleted entries / incremental appends):
    // build manually by splicing garbage before the second member's LFH
    // and fixing the CD offset. Cheaper: append junk after the archive's
    // last data but before the CD is not expressible with store_zip, so
    // exercise the equivalent quirk — a data-descriptor member, whose
    // descriptor bytes sit between data and the next header.
    let mut dd = store_zip(&[(b"d.txt", b"descriptor-follows")]);
    // set GP bit 3 in both headers, zero the LFH sizes, splice a
    // 16-byte descriptor after the data.
    let data_start = 30 + 5; // LFH fixed + name "d.txt"
    let data_len = b"descriptor-follows".len();
    dd[6] = 0x08; // LFH flags low byte: bit 3
    dd[18..26].fill(0); // LFH crc+sizes zeroed (descriptor carries them)
    let mut desc = b"PK\x07\x08".to_vec();
    desc.extend_from_slice(&[0; 4]); // crc
    desc.extend_from_slice(&(data_len as u32).to_le_bytes());
    desc.extend_from_slice(&(data_len as u32).to_le_bytes());
    let insert_at = data_start + data_len;
    let mut with_desc = dd[..insert_at].to_vec();
    with_desc.extend_from_slice(&desc);
    with_desc.extend_from_slice(&dd[insert_at..]);
    // fix CD: flags bit 3 + cd_offset shift (+16) in EOCD
    let cd_pos = insert_at + 16;
    with_desc[cd_pos + 8] = 0x08; // CD flags low byte
    let eocd = with_desc.len() - 22;
    let old_cd_off = u32::from_le_bytes(with_desc[eocd + 16..eocd + 20].try_into().unwrap());
    with_desc[eocd + 16..eocd + 20]
        .copy_from_slice(&(old_cd_off + 16).to_le_bytes());
    let parts = roundtrip(&with_desc);
    // The descriptor is NON-data: it rides the residual, and the cut is
    // exactly the CD's compressed_size.
    assert_eq!(parts.members[0].len as usize, data_len);
}

#[test]
fn zip_refusals_are_named() {
    let plain = store_zip(&[(b"a", b"data-a"), (b"b", b"data-b")]);

    // zip64 sentinel in the EOCD.
    let mut z64 = plain.clone();
    let eocd = z64.len() - 22;
    z64[eocd + 16..eocd + 20].copy_from_slice(&0xFFFF_FFFFu32.to_le_bytes());
    let e = zip_split(&z64).unwrap_err().message();
    assert!(e.contains("zip64"), "{e}");

    // Multi-disk.
    let mut md = plain.clone();
    let eocd = md.len() - 22;
    md[eocd + 4] = 1;
    let e = zip_split(&md).unwrap_err().message();
    assert!(e.contains("multi-disk") || e.contains("spanned"), "{e}");

    // Overlap: point member b's CD entry at member a's local header.
    let mut ov = plain.clone();
    // find second CD entry: CD starts after both members' LFH+data
    let cd_start = ov.windows(4).position(|w| w == b"PK\x01\x02").unwrap();
    let second = cd_start + 46 + 1; // entry 0 is 46 + name_len(1)
    assert_eq!(&ov[second..second + 4], b"PK\x01\x02");
    ov[second + 42..second + 46].copy_from_slice(&0u32.to_le_bytes());
    let e = zip_split(&ov).unwrap_err().message();
    assert!(e.contains("OVERLAP") || e.contains("zip bomb"), "{e}");

    // Masked central directory (bit 13).
    let mut masked = plain.clone();
    let cd_start = masked.windows(4).position(|w| w == b"PK\x01\x02").unwrap();
    masked[cd_start + 8] |= 0x20; // bit 13 = 0x2000, high byte at +9
    masked[cd_start + 9] |= 0x20;
    let e = zip_split(&masked).unwrap_err().message();
    assert!(e.contains("masked"), "{e}");

    // CD claims an LFH where there is none.
    let mut bad = plain.clone();
    let cd_start = bad.windows(4).position(|w| w == b"PK\x01\x02").unwrap();
    bad[cd_start + 42..cd_start + 46].copy_from_slice(&3u32.to_le_bytes());
    let e = zip_split(&bad).unwrap_err().message();
    assert!(e.contains("local header is not where"), "{e}");

    // Not a zip at all.
    let e = zip_split(b"just some text, no archive").unwrap_err().message();
    assert!(e.contains("not a zip"), "{e}");

    // zip_join totality: truncation at every offset of a real payload.
    let parts = zip_split(&plain).unwrap();
    for n in 0..parts.residual_payload.len().min(40) {
        assert!(
            zip_join(&parts.residual_payload[..n], &|_| Ok(Vec::new())).is_err(),
            "prefix {n} joined"
        );
    }
}

/// The eternity decoder is total: truncation at EVERY offset of a real
/// delta errors, never panics — and the resource bounds fire before any
/// allocation could.
#[test]
fn delta_apply_is_total_and_resource_bounded() {
    let base = bytes(5_000, 10);
    let mut t = base.clone();
    t.extend_from_slice(b"tail");
    let d = delta_encode(&base, &t).unwrap();
    for n in 0..d.len() {
        assert!(delta_apply(&base, &d[..n]).is_err(), "prefix {n} applied");
    }
    // Wrong base length: refused by the header check, named.
    let e = delta_apply(&base[..100], &d).unwrap_err().message();
    assert!(e.contains("wrong base"), "{e}");
    // A 2^63 COPY dies on the bounds check, not in the allocator.
    let mut evil = Vec::new();
    evil.extend_from_slice(&(base.len() as u64).to_le_bytes());
    evil.extend_from_slice(&u64::MAX.to_le_bytes()); // target_len
    evil.push(OP_COPY);
    evil.extend_from_slice(&0u64.to_le_bytes());
    evil.extend_from_slice(&(1u64 << 63).to_le_bytes());
    let e = delta_apply(&base, &evil).unwrap_err().message();
    assert!(e.contains("envelope cap") || e.contains("reaches past"), "{e}");
}
