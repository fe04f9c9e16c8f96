use mpedb::hash::hash_hex;
use mpedb::retl_codec::{delta_encode, envelope, Kind};
use mpedb::rretl_store::{
    archive_finding, archive_info, as_blob, check_resplice, is_rewritten, member_data, member_missing, next_version, pack_in, pack_out,
    prune_gate, prune_in, rewrite_as_delta, rewrite_holds, rretl_get_version, version_finding, version_info, version_size_gate,
    version_window, PutAsk, PutVersion, Rewrite, VersionRow,
};
use mpedb::{Error, Value};

fn full(ver: i64, bytes: &[u8]) -> VersionRow {
    VersionRow { ver, payload: envelope(Kind::Raw, bytes).unwrap(), content_hash: hash_hex(bytes) }
}

/// Put a version; `spoil` is what reading back makes of a delta.
fn put(rows: &mut Vec<VersionRow>, bytes: &[u8], spoil: fn(Vec<u8>) -> Vec<u8>) -> Result<String, Error> {
    let mut p = PutVersion::begin(rows.last().map(|r| r.ver), bytes);
    let last = rows.len().wrapping_sub(1);
    loop {
        match p.next() {
            PutAsk::Insert => {
                rows.push(copy(p.row()));
                p.on_inserted();
            }
            PutAsk::ReadLast => p.on_last("o", rows.get(last).map(copy))?,
            PutAsk::WriteDelta | PutAsk::Restore => {
                rows[last].payload = p.payload().clone();
                p.on_written();
            }
            PutAsk::ReadBack => {
                let delta = spoil(rows[last].payload.clone());
                p.on_read_back(&rows[last + 1].payload, &delta)?;
            }
            PutAsk::Done => return Ok(p.note().clone()),
        }
    }
}

fn copy(r: &VersionRow) -> VersionRow {
    VersionRow { ver: r.ver, payload: r.payload.clone(), content_hash: r.content_hash.clone() }
}

/// Put versions one behind the other, each older one rewritten as a delta.
fn put_all(contents: &[Vec<u8>]) -> Vec<VersionRow> {
    let mut rows: Vec<VersionRow> = Vec::new();
    for c in contents {
        assert_eq!(put(&mut rows, c, |d| d).unwrap(), "");
    }
    rows
}

fn read(rows: &[VersionRow], ver: i64) -> Result<Vec<u8>, Error> {
    let window = rows
        .iter()
        .filter(|r| r.ver >= ver)
        .map(copy)
        .collect();
    rretl_get_version("o", ver, &window)
}

#[test]
fn every_version_is_given_back() {
    let contents: Vec<Vec<u8>> =
        (0..20u8).map(|i| (0..4000u32).map(|j| (j / 7) as u8 ^ (if j == i as u32 { 0x55 } else { 0 })).collect()).collect();
    let rows = put_all(&contents);
    assert_eq!(rows[0].ver, 1);
    for (i, c) in contents.iter().enumerate() {
        assert_eq!(&read(&rows, i as i64 + 1).unwrap(), c, "version {}", i + 1);
    }
    let infos: Vec<&str> = rows.iter().map(|r| version_info(r).unwrap().stored_as).collect();
    assert_eq!(infos[0], "delta");
    assert_eq!(infos[7], "full", "every eighth version stays whole");
    assert_eq!(infos[19], "full", "the newest version is whole");
    // pruning leaves the newest readable
    let p = prune_in("o", Some((1, 20)), 5).unwrap().unwrap();
    assert_eq!((p.cutoff, p.pruned), (15, 15));
    assert_eq!(p.note, "versions 1..=15 deleted, newest 5 kept");
    let left: Vec<VersionRow> = rows.into_iter().filter(|r| r.ver > p.cutoff).collect();
    for v in 16..=20 {
        assert_eq!(read(&left, v).unwrap(), contents[v as usize - 1]);
    }
}

#[test]
fn a_put_ends_with_every_version_readable() {
    let a = b"first version of a text, ".repeat(200);
    let mut b = a.clone();
    b.extend_from_slice(b"and more");
    let mut rows = Vec::new();
    put(&mut rows, &a, |d| d).unwrap();
    let note = put(&mut rows, &b, |mut d| {
        d.pop();
        d
    })
    .unwrap();
    assert_eq!(
        note,
        "version 1 kept full: the persisted delta did not reconstruct byte-identically (encoder bug — bloat, not corruption, by design)"
    );
    assert_eq!(version_info(&rows[0]).unwrap().stored_as, "full");
    assert_eq!(read(&rows, 1).unwrap(), a);
    assert_eq!(read(&rows, 2).unwrap(), b);
    // nothing in common: the delta would not be smaller
    assert_eq!(put(&mut rows, b"x", |d| d).unwrap(), "version 2 kept full: the delta would not be smaller");
    // what is damaged is not built on
    rows[2].content_hash = hash_hex(b"y");
    assert!(put(&mut rows, b"z", |d| d).unwrap_err().message().contains("would LAUNDER the corruption"));
    let mut p = PutVersion::begin(Some(5), b"z");
    assert_eq!(p.row().ver, 6);
    p.on_inserted();
    assert_eq!(p.on_last("o", None).unwrap_err().message(), "version 5 of `o` vanished mid-transaction");
}

#[test]
fn the_decision_on_the_version_below() {
    let a = b"first version of a text, ".repeat(200);
    let mut b = a.clone();
    b.extend_from_slice(b"and more");
    assert_eq!((next_version(None), next_version(Some(4))), (1, 5));
    assert!(is_rewritten(7) && !is_rewritten(8));
    match rewrite_as_delta("o", 1, &full(1, &a).payload, &hash_hex(&a), &b).unwrap() {
        Rewrite::Delta { env, old } => {
            assert_eq!(old, a);
            assert!(rewrite_holds(&full(2, &b).payload, &env, &a).unwrap());
            assert!(!rewrite_holds(&full(2, &b).payload, &env, &b).unwrap());
        }
        Rewrite::Keep(why) => panic!("{why}"),
    }
}

#[test]
fn damaged_chains_are_refused() {
    let a = b"first version of a text, ".repeat(200);
    let mut b = a.clone();
    b.extend_from_slice(b"and more");
    let delta = envelope(Kind::DeltaV1, &delta_encode(&b, &a).unwrap()).unwrap();
    let old = |hash: String| VersionRow { ver: 1, payload: delta.clone(), content_hash: hash };
    assert_eq!(rretl_get_version("o", 1, &vec![old(hash_hex(&a)), full(2, &b)]).unwrap(), a);
    let e = rretl_get_version("o", 1, &vec![old(hash_hex(b"x")), full(2, &b)]).unwrap_err();
    assert!(e.message().contains("reconstructs to the WRONG bytes"));
    let mut bad = full(2, &b);
    bad.content_hash = hash_hex(b"x");
    let e = rretl_get_version("o", 1, &vec![old(hash_hex(&a)), bad]).unwrap_err();
    assert!(e.message().contains("corruption at rest"));
    let e = rretl_get_version("o", 1, &vec![old(hash_hex(&a))]).unwrap_err();
    assert!(e.message().contains("the chain is broken"));
    assert_eq!(rretl_get_version("o", 3, &vec![]).unwrap_err().message(), "no version 3 of `o`");
    assert!(version_window("o", 3, None).unwrap_err().message().starts_with("no version 3 of `o` — `rretl versions`"));
    assert_eq!(version_window("o", 3, Some(5)).unwrap(), 5);
    assert_eq!(version_window("o", 3, Some(50)).unwrap(), 8);
}

#[test]
fn pruning_never_drops_everything() {
    assert!(prune_gate(1).is_ok());
    assert!(prune_gate(0).unwrap_err().message().starts_with("keeping ZERO versions is a drop"));
    assert!(prune_in("o", Some((1, 3)), 3).unwrap().is_none());
    assert!(prune_in("o", Some((1, 3)), u64::MAX).unwrap().is_none(), "keeping more than there is keeps all");
    assert_eq!(
        prune_in("o", None, 3).map(|_| ()).unwrap_err().message(),
        "no versions of `o` — nothing to prune"
    );
    assert!(version_size_gate(10).is_ok());
    assert!(version_size_gate(usize::MAX).is_err());
    assert_eq!(as_blob(&Value::Blob(vec![1])).unwrap(), vec![1]);
    assert!(as_blob(&Value::Int(1)).is_err());
}

// ---------------------------------------------------------------- archives

fn le16(v: u16) -> [u8; 2] {
    v.to_le_bytes()
}

fn le32(v: u32) -> [u8; 4] {
    v.to_le_bytes()
}

fn store_zip(members: &[(&[u8], &[u8])]) -> Vec<u8> {
    let mut out = Vec::new();
    let mut dir = Vec::new();
    for (name, data) in members {
        let at = out.len() as u32;
        out.extend_from_slice(b"PK\x03\x04");
        out.extend_from_slice(&[20, 0, 0, 0, 0, 0, 0, 0, 0, 0, 0, 0, 0, 0]);
        out.extend_from_slice(&le32(data.len() as u32));
        out.extend_from_slice(&le32(data.len() as u32));
        out.extend_from_slice(&le16(name.len() as u16));
        out.extend_from_slice(&le16(0));
        out.extend_from_slice(name);
        out.extend_from_slice(data);
        dir.extend_from_slice(b"PK\x01\x02");
        dir.extend_from_slice(&[20, 0, 20, 0, 0, 0, 0, 0, 0, 0, 0, 0, 0, 0, 0, 0]);
        dir.extend_from_slice(&le32(data.len() as u32));
        dir.extend_from_slice(&le32(data.len() as u32));
        dir.extend_from_slice(&le16(name.len() as u16));
        dir.extend_from_slice(&[0; 12]);
        dir.extend_from_slice(&le32(at));
        dir.extend_from_slice(name);
    }
    let at = out.len() as u32;
    out.extend_from_slice(&dir);
    out.extend_from_slice(b"PK\x05\x06\0\0\0\0");
    out.extend_from_slice(&le16(members.len() as u16));
    out.extend_from_slice(&le16(members.len() as u16));
    out.extend_from_slice(&le32(dir.len() as u32));
    out.extend_from_slice(&le32(at));
    out.extend_from_slice(&le16(0));
    out
}

#[test]
fn an_archive_is_packed_in_and_out() {
    let file = store_zip(&[(b"a.txt", b"hello"), (b"b", b"\x00\x01\x02")]);
    let p = pack_in(&file).unwrap();
    assert_eq!(p.content_hash, hash_hex(&file));
    assert_eq!(p.members.len(), 2);
    assert_eq!((p.members[0].name.as_slice(), p.members[0].data.as_slice()), (&b"a.txt"[..], &b"hello"[..]));
    let rows: Vec<(u32, Vec<u8>)> = p.members.iter().map(|m| (m.member_no, m.data.clone())).collect();
    check_resplice("z", &p.residual, &rows, &file).unwrap();
    let out = pack_out(1, &p.residual, &p.content_hash, |no| member_data(&rows, no)).unwrap();
    assert_eq!(out, file);
    // edited data no longer gives the archive back
    let mut edited = rows.clone();
    edited[0].1[0] ^= 1;
    assert!(check_resplice("z", &p.residual, &edited, &file).is_err());
    assert!(pack_out(1, &p.residual, &p.content_hash, |no| member_data(&edited, no)).is_err());
    // a member that is missing or has another length is named
    let corrupt = |m: &str| Error::Corrupt(m.to_string());
    assert_eq!(check_resplice("z", &p.residual, &rows[..1].to_vec(), &file), Err(corrupt("member 1 not persisted")));
    let mut long = rows.clone();
    long[1].1.push(9);
    assert_eq!(
        check_resplice("z", &p.residual, &long, &file),
        Err(corrupt("zip-splice-v1: member 1's stored data is 4 bytes, the splice list says 3"))
    );
    assert!(member_data(&rows, 9).is_err());
    assert!(member_missing(1, 9).message().contains('9'));
}

#[test]
fn archives_are_listed() {
    let t = |s: &str| Value::Text(s.to_string());
    let a = archive_info(&vec![Value::Int(1), t("z.zip"), t("h"), Value::Int(2)]).unwrap();
    assert_eq!((a.archive_id, a.name.as_str(), a.content_hash.as_str(), a.members), (1, "z.zip", "h", 2));
    assert!(archive_info(&vec![Value::Int(1), t("z.zip"), t("h"), t("2")]).is_err());
    assert!(version_finding("o", 3, &Error::DbFull).contains("o"));
    assert!(archive_finding(4, &Error::DbFull).contains('4'));
}

#[test]
fn a_delta_that_does_not_read_back_is_put_back() {
    let new = envelope(Kind::Raw, b"new contents").unwrap();
    // not an envelope, not a delta, and a delta of something else
    assert!(!rewrite_holds(&new, b"rot", b"old").unwrap());
    assert!(!rewrite_holds(&new, &envelope(Kind::DeltaV1, b"rot").unwrap(), b"old").unwrap());
    let base: Vec<u8> = (0..200u32).map(|i| (i * 7 % 251) as u8).collect();
    let mut old = base.clone();
    old[100] ^= 1;
    let delta = envelope(Kind::DeltaV1, &delta_encode(&base, &old).unwrap()).unwrap();
    let full = envelope(Kind::Raw, &base).unwrap();
    assert!(rewrite_holds(&full, &delta, &old).unwrap());
    assert!(!rewrite_holds(&full, &delta, &base).unwrap());
    // a new version that does not open is no matter of the delta
    assert!(rewrite_holds(b"rot", &delta, &old).is_err());
}
