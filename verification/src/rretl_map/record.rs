//! Stored maps: one version byte and the mapping document, verbatim.

use vstd::prelude::*;
use vstd::string::StringExecFns;
use vstd::slice::slice_subrange;
use vstd::utf8::{decode_utf8, encode_utf8, valid_utf8};
use crate::bytes::put_bytes;
use crate::error::{Error, Fault, Result};
use crate::rretl_map::spec::MapSpec;
use crate::text::{dec, push_dec, quoted_in, texts};
use crate::utf8::{checked_utf8, lemma_text_round_trip, same_text};

verus! {

/// The version of a stored map.
pub const MAP_RECORD_V1: u8 = 1;

/// The record of a map.
pub fn map_record(text: &str) -> (r: Vec<u8>)
    ensures
        r@ == seq![MAP_RECORD_V1] + encode_utf8(text@),
{
    let mut v: Vec<u8> = Vec::new();
    v.push(MAP_RECORD_V1);
    put_bytes(&mut v, text.as_bytes());
    proof {
        assert(v@ =~= seq![MAP_RECORD_V1] + encode_utf8(text@));
    }
    v
}

/// The document of a stored map.
pub open spec fn map_document(name: Seq<char>, rec: Option<Seq<u8>>) -> std::result::Result<Seq<char>, Fault> {
    match rec {
        None => Err(Fault::Unsupported("no map named `"@ + name + "`"@)),
        Some(b) => if b.len() == 0 {
            Err(Fault::Corrupt("map `"@ + name + "`: empty record"@))
        } else if b[0] != MAP_RECORD_V1 {
            Err(
                Fault::Unsupported(
                    "map `"@ + name + "` uses record version "@ + dec(b[0] as nat) + "; this build reads version "@ + dec(
                        MAP_RECORD_V1 as nat,
                    ),
                ),
            )
        } else if !valid_utf8(b.skip(1)) {
            Err(Fault::Corrupt("map `"@ + name + "`: record is not UTF-8"@))
        } else {
            Ok(decode_utf8(b.skip(1)))
        },
    }
}

pub open spec fn opt_bytes(b: Option<&[u8]>) -> Option<Seq<u8>> {
    match b {
        Some(b) => Some(b@),
        None => None,
    }
}

/// The document of the map `name`, given its record.
pub fn rretl_map_show(name: &str, rec: Option<&[u8]>) -> (r: Result<String>)
    ensures
        match r {
            Ok(s) => map_document(name@, opt_bytes(rec)) == Ok::<Seq<char>, Fault>(s@),
            Err(e) => map_document(name@, opt_bytes(rec)) == Err::<Seq<char>, Fault>(e@),
        },
{
    let b = match rec {
        Some(b) => b,
        None => {
            return Err(Error::Unsupported(quoted_in("no map named `", name, "`")));
        },
    };
    if b.len() == 0 {
        return Err(Error::Corrupt(quoted_in("map `", name, "`: empty record")));
    }
    if b[0] != MAP_RECORD_V1 {
        let mut m = quoted_in("map `", name, "` uses record version ");
        push_dec(&mut m, b[0] as u128);
        m.append("; this build reads version ");
        push_dec(&mut m, MAP_RECORD_V1 as u128);
        return Err(Error::Unsupported(m));
    }
    let body = slice_subrange(b, 1, b.len());
    proof {
        assert(body@ =~= b@.skip(1));
    }
    match checked_utf8(body) {
        Some(s) => Ok(s.to_owned()),
        None => Err(Error::Corrupt(quoted_in("map `", name, "`: record is not UTF-8"))),
    }
}

/// A stored map must describe the map that it is stored as.
pub fn check_map_name(name: &str, spec: &MapSpec) -> (r: Result<()>)
    ensures
        match r {
            Ok(()) => spec.name@ == name@,
            Err(e) => spec.name@ != name@ && e@ == Fault::Corrupt(
                "map record `"@ + name@ + "` contains a spec named `"@ + spec.name@ + "`"@,
            ),
        },
{
    if same_text(spec.name.as_str(), name) {
        return Ok(());
    }
    let mut m = quoted_in("map record `", name, "` contains a spec named `");
    m.append(spec.name.as_str());
    m.append("`");
    Err(Error::Corrupt(m))
}

/// Showing a stored map gives its document back verbatim.
pub proof fn law_map_record_round_trip(name: Seq<char>, text: Seq<char>)
    ensures
        map_document(name, Some(seq![MAP_RECORD_V1] + encode_utf8(text))) == Ok::<Seq<char>, Fault>(text),
{
    let b = seq![MAP_RECORD_V1] + encode_utf8(text);
    assert(b.skip(1) =~= encode_utf8(text));
    lemma_text_round_trip(text);
}

/// The names in keys of stored maps, behind their namespace of `prefix`
/// bytes; a key that is not UTF-8 names no map.
pub open spec fn map_names(keys: Seq<Vec<u8>>, prefix: int) -> Seq<Seq<char>>
    decreases keys.len(),
{
    if keys.len() == 0 {
        Seq::empty()
    } else {
        let done = map_names(keys.drop_last(), prefix);
        let own = keys.last()@.skip(prefix);
        if valid_utf8(own) {
            done.push(decode_utf8(own))
        } else {
            done
        }
    }
}

/// The names of all stored maps, from the keys of their namespace, each of
/// which begins with `prefix` bytes of namespace.
pub fn rretl_maps(keys: &Vec<Vec<u8>>, prefix: usize) -> (r: Vec<String>)
    requires
        forall|i: int| 0 <= i < keys@.len() ==> (#[trigger] keys@[i])@.len() >= prefix,
    ensures
        texts(r@) == map_names(keys@, prefix as int),
{
    let mut out: Vec<String> = Vec::new();
    let mut i: usize = 0;
    proof {
        assert(keys@.take(0) =~= Seq::<Vec<u8>>::empty());
        assert(texts(out@) =~= map_names(keys@.take(0), prefix as int));
    }
    while i < keys.len()
        invariant
            i <= keys@.len(),
            forall|j: int| 0 <= j < keys@.len() ==> (#[trigger] keys@[j])@.len() >= prefix,
            texts(out@) == map_names(keys@.take(i as int), prefix as int),
        decreases keys@.len() - i,
    {
        assert(keys@[i as int]@.len() >= prefix);
        let key = keys[i].as_slice();
        let own = slice_subrange(key, prefix, key.len());
        proof {
            assert(keys@.take(i + 1).drop_last() =~= keys@.take(i as int));
            assert(keys@.take(i + 1).last() == keys@[i as int]);
            assert(key@.subrange(prefix as int, key@.len() as int) =~= key@.skip(prefix as int));
        }
        if let Some(s) = checked_utf8(own) {
            let ghost prev = out@;
            let name = s.to_owned();
            out.push(name);
            proof {
                assert(texts(out@) =~= texts(prev).push(name@));
            }
        }
        i += 1;
    }
    proof {
        assert(keys@.take(i as int) =~= keys@);
    }
    out
}

/// The names listed are the keys behind the prefix, in order, each that is
/// text; a single map is listed by its name.
pub proof fn law_stored_map_is_listed(keys: Seq<Vec<u8>>, key: Vec<u8>, prefix: int, name: Seq<char>)
    requires
        0 <= prefix <= key@.len(),
        key@.skip(prefix) == encode_utf8(name),
    ensures
        map_names(keys.push(key), prefix) == map_names(keys, prefix).push(name),
{
    lemma_text_round_trip(name);
    assert(keys.push(key).drop_last() =~= keys);
}

/// A record is read only in its own version, and only whole: anything else is
/// told, never guessed.
pub proof fn law_other_records_are_refused(name: Seq<char>, b: Seq<u8>)
    ensures
        map_document(name, Some(b)) is Ok <==> b.len() > 0 && b[0] == MAP_RECORD_V1 && valid_utf8(b.skip(1)),
        map_document(name, None) is Err,
{
}

} // verus!
