//! Stored SQL functions: a name record binds a name to the hash and arity of
//! a definition, whose blob is stored under that hash.

use vstd::prelude::*;
use vstd::string::StringExecFns;
use crate::bytes::{
    get_le, le_bytes, le_value, lemma_le_bytes_len, lemma_le_value_of_bytes, lemma_pow256_values, put_bytes, put_le, same_bytes,
};
use crate::error::{Error, Fault, Result};
use crate::hash::{blake3_digest, blake3_hash};
use crate::text::{dec, hex, push_dec, push_hex};
use crate::utf8::{lossy_text, lossy_utf8};
use crate::value::Value;

verus! {

/// The namespace of the name records.
pub const NS_FUNC: &'static str = "func";

/// The namespace of the definitions, keyed by hash.
pub const NS_FUNC_HASH: &'static str = "funch";

/// The instructions that one call may take. Fixed, so that a statement stops
/// at the same count in every process.
pub const FN_BUDGET_INSTRS: u64 = 250_000;

/// The source language of a stored function.
#[derive(Debug, Clone, Copy, PartialEq, Eq, Structural)]
pub enum SpellLang {
    Python,
    Rust,
}

/// One stored function as it is listed.
#[derive(Debug, Clone)]
pub struct SpellFnInfo {
    pub name: String,
    pub hash_hex: String,
    pub argc: u16,
}

/// A name record with its name.
#[derive(Debug)]
pub struct FuncBinding {
    pub name: String,
    pub hash: [u8; 32],
    pub argc: u16,
}

/// The view of a [`FuncBinding`].
pub struct BindingModel {
    pub name: Seq<char>,
    pub hash: Seq<u8>,
    pub argc: nat,
}

impl View for FuncBinding {
    type V = BindingModel;

    open spec fn view(&self) -> BindingModel {
        BindingModel { name: self.name@, hash: self.hash@, argc: self.argc as nat }
    }
}

pub open spec fn bindings(v: Seq<FuncBinding>) -> Seq<BindingModel> {
    v.map_values(|b: FuncBinding| b@)
}

// ---------------------------------------------------------------- records

/// A name record: a version byte, the hash, the arity in two bytes.
pub open spec fn func_record(hash: Seq<u8>, argc: nat) -> Seq<u8> {
    seq![1u8] + hash + le_bytes(argc, 2)
}

/// What a name record says, if it is one.
pub open spec fn func_record_parsed(b: Seq<u8>) -> Option<(Seq<u8>, nat)> {
    if b.len() != 35 || b[0] != 1 {
        None
    } else {
        Some((b.subrange(1, 33), le_value(b.subrange(33, 35))))
    }
}

/// Make a name record.
pub fn encode_func_record(hash: &[u8; 32], argc: u16) -> (r: Vec<u8>)
    ensures
        r@ == func_record(hash@, argc as nat),
{
    let mut v: Vec<u8> = Vec::with_capacity(35);
    v.push(1);
    put_bytes(&mut v, hash.as_slice());
    put_le(&mut v, argc as u64, 2);
    proof {
        assert(v@ =~= func_record(hash@, argc as nat));
    }
    v
}

/// The 32 bytes of `b` from `at` on.
pub(crate) fn hash_at(b: &[u8], at: usize) -> (r: [u8; 32])
    requires
        at + 32 <= b@.len(),
    ensures
        r@ == b@.subrange(at as int, at + 32),
{
    let mut h: [u8; 32] = [0u8; 32];
    let mut i: usize = 0;
    assert(b.len() >= at + 32);
    while i < 32
        invariant
            i <= 32,
            at + 32 <= b@.len(),
            b@.len() <= usize::MAX,
            h@.len() == 32,
            forall|j: int| 0 <= j < i ==> #[trigger] h@[j] == b@[at + j],
        decreases 32 - i,
    {
        h[i] = b[at + i];
        i += 1;
    }
    proof {
        assert(h@ =~= b@.subrange(at as int, at + 32));
    }
    h
}

/// Read a name record.
pub fn decode_func_record(bytes: &[u8]) -> (r: Option<([u8; 32], u16)>)
    ensures
        match r {
            Some((h, argc)) => func_record_parsed(bytes@) == Some((h@, argc as nat)),
            None => func_record_parsed(bytes@) is None,
        },
{
    if bytes.len() != 35 || bytes[0] != 1 {
        return None;
    }
    let hash = hash_at(bytes, 1);
    let argc: u64 = get_le(bytes, 33, 2);
    proof {
        crate::bytes::lemma_le_bytes_of_value(bytes@.subrange(33, 35));
        lemma_pow256_values();
    }
    Some((hash, argc as u16))
}

/// The bindings among the entries of a scan. A record that cannot be read
/// means that its name is not defined.
pub open spec fn scanned_bindings(entries: Seq<(Vec<u8>, Vec<u8>)>, prefix: int) -> Seq<BindingModel>
    decreases entries.len(),
{
    if entries.len() == 0 {
        Seq::empty()
    } else {
        let done = scanned_bindings(entries.drop_last(), prefix);
        match func_record_parsed(entries.last().1@) {
            Some((hash, argc)) => done.push(BindingModel { name: lossy_text(entries.last().0@.skip(prefix)), hash, argc }),
            None => done,
        }
    }
}

/// The bindings among the entries of a scan of the name records, whose keys
/// all begin with the namespace and a zero byte.
pub fn scan_func_records(entries: &Vec<(Vec<u8>, Vec<u8>)>) -> (r: Vec<FuncBinding>)
    requires
        forall|i: int| 0 <= i < entries@.len() ==> (#[trigger] entries@[i]).0@.len() >= 5,
    ensures
        bindings(r@) == scanned_bindings(entries@, 5),
{
    let mut out: Vec<FuncBinding> = Vec::new();
    let mut i: usize = 0;
    proof {
        assert(entries@.take(0) =~= Seq::<(Vec<u8>, Vec<u8>)>::empty());
        assert(bindings(out@) =~= scanned_bindings(entries@.take(0), 5));
    }
    while i < entries.len()
        invariant
            i <= entries@.len(),
            forall|j: int| 0 <= j < entries@.len() ==> (#[trigger] entries@[j]).0@.len() >= 5,
            bindings(out@) == scanned_bindings(entries@.take(i as int), 5),
        decreases entries@.len() - i,
    {
        proof {
            assert(entries@.take(i + 1).drop_last() =~= entries@.take(i as int));
            assert(entries@.take(i + 1).last() == entries@[i as int]);
        }
        if let Some((hash, argc)) = decode_func_record(entries[i].1.as_slice()) {
            assert(entries@[i as int].0@.len() >= 5);
            let key = entries[i].0.as_slice();
            let name = lossy_utf8(vstd::slice::slice_subrange(key, 5, key.len()));
            let ghost prev = out@;
            out.push(FuncBinding { name, hash, argc });
            proof {
                assert(key@.subrange(5, key@.len() as int) =~= key@.skip(5));
                assert(bindings(out@) =~= bindings(prev).push(out@.last()@));
            }
        }
        i += 1;
    }
    proof {
        assert(entries@.take(i as int) =~= entries@);
    }
    out
}

/// A stored function as it is listed.
pub fn function_info(b: &FuncBinding) -> (r: SpellFnInfo)
    ensures
        r.name@ == b@.name,
        r.hash_hex@ == hex(b@.hash),
        r.argc == b@.argc,
{
    let mut h = String::new();
    push_hex(&mut h, b.hash.as_slice());
    proof {
        assert(h@ =~= hex(b.hash@));
    }
    SpellFnInfo { name: b.name.clone(), hash_hex: h, argc: b.argc }
}

// ---------------------------------------------------------------- gates

/// Why a definition that runs SQL is refused.
pub open spec fn runs_sql_fault() -> Fault {
    Fault::Unsupported(
        "a stored SQL function cannot run SQL — use a stored procedure (`mpedb proc define`) for database work"@,
    )
}

/// A stored function runs no SQL.
pub fn function_gate(calls_sql: bool) -> (r: Result<()>)
    ensures
        match r {
            Ok(_) => !calls_sql,
            Err(e) => calls_sql && e@ == runs_sql_fault(),
        },
{
    if calls_sql {
        return Err(
            Error::Unsupported(
                String::from_str(
                    "a stored SQL function cannot run SQL — use a stored procedure (`mpedb proc define`) for database work",
                ),
            ),
        );
    }
    Ok(())
}

/// The answer to every database operation inside a stored function.
pub fn refuse_db() -> (e: Error)
    ensures
        e@ == Fault::Unsupported("a stored SQL function cannot touch the database"@),
{
    Error::Unsupported(String::from_str("a stored SQL function cannot touch the database"))
}

/// A call gives as many arguments as the function takes.
pub fn call_gate(name: &str, argc: u16, given: usize) -> (r: Result<()>)
    ensures
        match r {
            Ok(_) => given == argc,
            Err(e) => given != argc && e@ == Fault::TypeMismatch(
                name@ + "() takes "@ + dec(argc as nat) + " argument(s), got "@ + dec(given as nat),
            ),
        },
{
    if given != argc as usize {
        let mut m = String::from_str(name);
        m.append("() takes ");
        push_dec(&mut m, argc as u128);
        m.append(" argument(s), got ");
        push_dec(&mut m, given as u128);
        return Err(Error::TypeMismatch(m));
    }
    Ok(())
}

/// What a run of a stored function gave.
pub enum Returned {
    Scalar(Value),
    /// A list or a tuple, as it is shown.
    Compound(String),
}

/// The SQL value of a run: a scalar, and nothing else.
pub fn scalar_result(name: &str, v: Returned) -> (r: Result<Value>)
    ensures
        match v {
            Returned::Scalar(x) => r is Ok && r->Ok_0.model() == x.model(),
            Returned::Compound(shown) => r is Err && r->Err_0@ == Fault::TypeMismatch(
                name@ + "() returned a non-scalar ("@ + shown@ + "); a SQL function must return a scalar"@,
            ),
        },
{
    match v {
        Returned::Scalar(x) => Ok(x),
        Returned::Compound(shown) => {
            let mut m = String::from_str(name);
            m.append("() returned a non-scalar (");
            m.append(shown.as_str());
            m.append("); a SQL function must return a scalar");
            Err(Error::TypeMismatch(m))
        },
    }
}

/// Who loads a definition.
#[derive(Debug, Clone, Copy, PartialEq, Eq, Structural)]
pub enum BlobUse {
    Function,
    Operator,
}

/// How a definition is had.
#[derive(Debug, Clone, Copy, PartialEq, Eq, Structural)]
pub enum BlobStep {
    /// It was decoded before.
    UseCached,
    /// There is no blob under the hash.
    Missing,
    /// The blob is the one that was stored: decode it.
    Decode,
}

/// Why a blob that does not match its hash is refused.
pub open spec fn wrong_blob_fault(use_: BlobUse) -> Fault {
    match use_ {
        BlobUse::Function => Fault::Corrupt("stored function blob does not match its hash"@),
        BlobUse::Operator => Fault::Corrupt("stored spell blob does not match its hash"@),
    }
}

/// How a definition is had, given the blob stored under its hash. A blob with
/// another digest is refused before it is decoded.
pub fn load_step(use_: BlobUse, cached: bool, blob: Option<&Vec<u8>>, hash: &[u8; 32]) -> (r: Result<BlobStep>)
    ensures
        match r {
            Ok(s) => s == (if cached {
                BlobStep::UseCached
            } else if blob is None {
                BlobStep::Missing
            } else {
                BlobStep::Decode
            }) && (!cached && blob is Some ==> blake3_digest(blob->Some_0@) == hash@),
            Err(e) => !cached && blob is Some && blake3_digest(blob->Some_0@) != hash@ && e@ == wrong_blob_fault(use_),
        },
{
    if cached {
        return Ok(BlobStep::UseCached);
    }
    match blob {
        None => Ok(BlobStep::Missing),
        Some(b) => {
            let d = blake3_hash(b.as_slice());
            if !same_bytes(d.as_slice(), hash.as_slice()) {
                return Err(
                    match use_ {
                        BlobUse::Function => Error::Corrupt(
                            String::from_str("stored function blob does not match its hash"),
                        ),
                        BlobUse::Operator => Error::Corrupt(
                            String::from_str("stored spell blob does not match its hash"),
                        ),
                    },
                );
            }
            Ok(BlobStep::Decode)
        },
    }
}

/// A decoded definition that holds database operations is refused.
pub fn decoded_gate(use_: BlobUse, has_db_ops: bool) -> (r: Result<()>)
    ensures
        match r {
            Ok(_) => !has_db_ops,
            Err(e) => has_db_ops && e@ == (match use_ {
                BlobUse::Function => Fault::Corrupt("stored function blob contains database operations"@),
                BlobUse::Operator => Fault::Corrupt("stored spell blob contains database operations"@),
            }),
        },
{
    if has_db_ops {
        return Err(
            match use_ {
                BlobUse::Function => Error::Corrupt(
                    String::from_str("stored function blob contains database operations"),
                ),
                BlobUse::Operator => Error::Corrupt(String::from_str("stored spell blob contains database operations")),
            },
        );
    }
    Ok(())
}

// ---------------------------------------------------------------- laws

/// A name record is read back as it was made.
pub proof fn law_func_record_round_trip(hash: Seq<u8>, argc: u16)
    requires
        hash.len() == 32,
    ensures
        func_record_parsed(func_record(hash, argc as nat)) == Some((hash, argc as nat)),
{
    let b = func_record(hash, argc as nat);
    lemma_pow256_values();
    lemma_le_bytes_len(argc as nat, 2);
    lemma_le_value_of_bytes(argc as nat, 2);
    assert(b.subrange(1, 33) =~= hash);
    assert(b.subrange(33, 35) =~= le_bytes(argc as nat, 2));
}

/// A name record cut short or with anything behind it is not a name record.
pub proof fn law_func_record_exact_length(hash: Seq<u8>, argc: u16, other: Seq<u8>)
    requires
        hash.len() == 32,
        other.len() != func_record(hash, argc as nat).len(),
    ensures
        func_record_parsed(other) is None,
{
    lemma_le_bytes_len(argc as nat, 2);
}

/// A defined function is in the catalog: the entry of its record gives its
/// binding at the end of those before it.
pub proof fn law_defined_function_is_listed(before: Seq<(Vec<u8>, Vec<u8>)>, entry: (Vec<u8>, Vec<u8>), hash: Seq<u8>, argc: u16)
    requires
        hash.len() == 32,
        entry.1@ == func_record(hash, argc as nat),
    ensures
        scanned_bindings(before.push(entry), 5) == scanned_bindings(before, 5).push(
            BindingModel { name: lossy_text(entry.0@.skip(5)), hash, argc: argc as nat },
        ),
{
    law_func_record_round_trip(hash, argc);
    assert(before.push(entry).drop_last() =~= before);
}

/// Where everything stands in a function's record.
pub proof fn law_func_record_places(hash: Seq<u8>, argc: u16)
    requires
        hash.len() == 32,
    ensures
        func_record(hash, argc as nat).len() == 35,
        func_record(hash, argc as nat)[0] == 1,
        func_record(hash, argc as nat).subrange(1, 33) == hash,
        func_record(hash, argc as nat).skip(33) == le_bytes(argc as nat, 2),
{
    crate::bytes::lemma_le_bytes_len(argc as nat, 2);
    assert(func_record(hash, argc as nat).subrange(1, 33) =~= hash);
    assert(func_record(hash, argc as nat).skip(33) =~= le_bytes(argc as nat, 2));
}

/// A record that cannot be read is passed over, and the others are not.
pub proof fn law_unreadable_function_is_passed_over(before: Seq<(Vec<u8>, Vec<u8>)>, entry: (Vec<u8>, Vec<u8>))
    requires
        entry.1@.len() != 35 || entry.1@[0] != 1,
    ensures
        scanned_bindings(before.push(entry), 5) == scanned_bindings(before, 5),
{
    assert(before.push(entry).drop_last() =~= before);
}

} // verus!
