use vstd::prelude::*;
use vstd::string::StringExecFns;
use crate::errors::{LoadError, LoadErrV};
use crate::store::{spec_read, KeyStore};

verus! {

#[verifier::external_type_specification]
#[verifier::external_body]
#[verifier::reject_recursive_types(T)]
pub struct ExRsa<T>(openssl::rsa::Rsa<T>);

#[verifier::external_type_specification]
#[verifier::external_body]
pub struct ExPrivate(openssl::pkey::Private);

/// Whether `pem` is the PEM encoding of an RSA private key, as OpenSSL
/// decides it against a fixed empty passphrase.
pub uninterp spec fn pem_private_key_ok(pem: Seq<char>) -> bool;

/// Relies on `openssl::rsa::Rsa::private_key_from_pem_passphrase`, with the
/// passphrase fixed to empty: whether text decodes as a PEM-encoded RSA
/// private key then depends on the text alone. The passphrase-free form is
/// not used: on an encrypted PEM it would fall back to OpenSSL's default
/// passphrase callback, which can prompt on a terminal, so its result would
/// not be a function of the text.
#[verifier::external_body]
pub(crate) fn private_key_from_pem(pem: &str) -> (r: Result<
    openssl::rsa::Rsa<openssl::pkey::Private>,
    (),
>)
    ensures
        r is Ok <==> pem_private_key_ok(pem@),
{
    openssl::rsa::Rsa::private_key_from_pem_passphrase(pem.as_bytes(), b"").map_err(|_| ())
}

/// One validated RSA key table entry: a key identifier and the two private
/// keys it selects, both already parsed.
pub struct RsaKeyInfo {
    pub key_id: u8,
    pub encrypt_key: openssl::rsa::Rsa<openssl::pkey::Private>,
    pub signing_key: openssl::rsa::Rsa<openssl::pkey::Private>,
}

impl View for RsaKeyInfo {
    type V = u8;

    open spec fn view(&self) -> u8 {
        self.key_id
    }
}

/// The records an RSA key manifest parses to: `None` if the text is not a
/// well-formed list of `{key_id, encrypt_key, signing_key}` records, else
/// each record's identifier and two PEM texts, in manifest order.
pub uninterp spec fn manifest_records_of(text: Seq<char>) -> Option<
    Seq<(u64, Seq<char>, Seq<char>)>,
>;

pub open spec fn records_view(v: Seq<(u64, String, String)>) -> Seq<(u64, Seq<char>, Seq<char>)> {
    v.map_values(|t: (u64, String, String)| (t.0, t.1@, t.2@))
}

/// The key identifiers of a table, in table order.
pub open spec fn rsa_ids(ks: Seq<RsaKeyInfo>) -> Seq<u8> {
    ks.map_values(|k: RsaKeyInfo| k@)
}

/// Relies on `serde_json::from_str` and `serde_json::Value`'s accessors: the
/// manifest is a JSON list of records, and what it parses to depends on the
/// text alone.
#[verifier::external_body]
pub(crate) fn parse_manifest(text: &str) -> (r: Result<Vec<(u64, String, String)>, ()>)
    ensures
        r is Ok <==> manifest_records_of(text@) is Some,
        r matches Ok(v) ==> Some(records_view(v@)) == manifest_records_of(text@),
{
    let vals: Vec<serde_json::Value> = serde_json::from_str(text).map_err(|_| ())?;
    vals.iter().map(|v| {
        let id = v.get("key_id").and_then(serde_json::Value::as_u64).ok_or(())?;
        let enc = v.get("encrypt_key").and_then(serde_json::Value::as_str).ok_or(())?;
        let sig = v.get("signing_key").and_then(serde_json::Value::as_str).ok_or(())?;
        Ok((id, enc.to_owned(), sig.to_owned()))
    }).collect()
}

/// What valid UTF-8 bytes decode to: `None` on ill-formed input.
pub uninterp spec fn utf8_decode(bytes: Seq<u8>) -> Option<Seq<char>>;

/// Relies on `String::from_utf8` (std): decoding depends on the bytes alone,
/// succeeding exactly on well-formed UTF-8.
#[verifier::external_body]
pub(crate) fn bytes_to_string(bytes: Vec<u8>) -> (r: Result<String, ()>)
    ensures
        r is Ok <==> utf8_decode(bytes@) is Some,
        r matches Ok(s) ==> Some(s@) == utf8_decode(bytes@),
{
    String::from_utf8(bytes).map_err(|_| ())
}

/// The RSA key manifest of logical name `n` lives in `<n>.json`.
pub open spec fn manifest_file_name(name: Seq<char>) -> Seq<char> {
    name + ".json"@
}

/// Folding the manifest records into a table: each record's identifier must
/// fit the key-id range, both PEM texts must parse as private keys (the
/// encryption key checked first), and identifiers must be unique. The table
/// is the sequence of accepted identifiers, in manifest order.
pub open spec fn spec_build_rsa_table(
    name: Seq<char>,
    records: Seq<(u64, Seq<char>, Seq<char>)>,
    acc: Seq<u8>,
) -> Result<Seq<u8>, LoadErrV>
    decreases records.len(),
{
    if records.len() == 0 {
        Ok(acc)
    } else if records[0].0 > 255 {
        Err(LoadErrV::ManifestParse { name })
    } else if !pem_private_key_ok(records[0].1) {
        Err(LoadErrV::KeyParse { key_id: records[0].0 as u8 })
    } else if !pem_private_key_ok(records[0].2) {
        Err(LoadErrV::KeyParse { key_id: records[0].0 as u8 })
    } else if acc.contains(records[0].0 as u8) {
        Err(LoadErrV::DuplicateKeyId { key_id: records[0].0 as u8 })
    } else {
        spec_build_rsa_table(name, records.drop_first(), acc + seq![records[0].0 as u8])
    }
}

/// What loading the RSA key table of manifest name `name` yields: the
/// manifest file read and decoded, its records parsed, then folded into a
/// table whose every entry is a usable key pair.
pub open spec fn spec_load_rsa_keys(
    files: Seq<(Seq<char>, Option<Seq<u8>>)>,
    dir: Seq<char>,
    name: Seq<char>,
) -> Result<Seq<u8>, LoadErrV> {
    match spec_read(files, dir, manifest_file_name(name)) {
        Err(e) => Err(e),
        Ok(bytes) => match utf8_decode(bytes) {
            None => Err(LoadErrV::ManifestParse { name }),
            Some(text) => match manifest_records_of(text) {
                None => Err(LoadErrV::ManifestParse { name }),
                Some(records) => spec_build_rsa_table(name, records, Seq::empty()),
            },
        },
    }
}

/// Whether the table already holds `key_id`.
fn table_contains(table: &Vec<RsaKeyInfo>, key_id: u8) -> (r: bool)
    ensures
        r == rsa_ids(table@).contains(key_id),
{
    let ghost ids = rsa_ids(table@);
    let n = table.len();
    for i in 0..n
        invariant
            n == table.len(),
            ids == rsa_ids(table@),
            forall|j: int| 0 <= j < i ==> ids[j] != key_id,
    {
        if table[i].key_id == key_id {
            proof {
                assert(ids[i as int] == key_id);
            }
            return true;
        }
    }
    proof {
        if ids.contains(key_id) {
            let j = choose|j: int| 0 <= j < ids.len() && ids[j] == key_id;
            assert(ids[j] == key_id);
        }
    }
    false
}

/// Loads and validates the whole RSA key table out of the manifest named
/// `<name>.json` in the captured directory: every record's keys are parsed
/// eagerly, so a table that loads at all is a table whose every identifier is
/// immediately usable.
pub fn load_rsa_keys(store: &KeyStore, dir: &str, name: &str) -> (r: Result<
    Vec<RsaKeyInfo>,
    LoadError,
>)
    ensures
        match r {
            Ok(v) => spec_load_rsa_keys(store@, dir@, name@) == Ok::<Seq<u8>, LoadErrV>(
                rsa_ids(v@),
            ),
            Err(e) => spec_load_rsa_keys(store@, dir@, name@) == Err::<Seq<u8>, LoadErrV>(e@),
        },
{
    let file = name.to_owned().concat(".json");
    let bytes = match store.read_file(dir, file.as_str()) {
        Ok(b) => b,
        Err(e) => return Err(e),
    };
    let text = match bytes_to_string(bytes) {
        Ok(t) => t,
        Err(_) => return Err(LoadError::ManifestParse { name: name.to_owned() }),
    };
    let records = match parse_manifest(text.as_str()) {
        Ok(v) => v,
        Err(_) => return Err(LoadError::ManifestParse { name: name.to_owned() }),
    };
    let ghost recs = records_view(records@);
    let mut table: Vec<RsaKeyInfo> = Vec::new();
    let n = records.len();
    proof {
        assert(recs.skip(0) =~= recs);
        assert(rsa_ids(table@) =~= Seq::<u8>::empty());
    }
    for i in 0..n
        invariant
            n == records.len(),
            recs == records_view(records@),
            spec_load_rsa_keys(store@, dir@, name@) == spec_build_rsa_table(
                name@,
                recs.skip(i as int),
                rsa_ids(table@),
            ),
    {
        proof {
            assert(recs.skip(i as int)[0] == recs[i as int]);
            assert(recs[i as int] == (records@[i as int].0, records@[i as int].1@, records@[
                i as int
            ].2@));
            assert(recs.skip(i as int).drop_first() =~= recs.skip(i + 1));
        }
        let id64 = records[i].0;
        if id64 > 255 {
            return Err(LoadError::ManifestParse { name: name.to_owned() });
        }
        let id: u8 = id64 as u8;
        let encrypt_key = match private_key_from_pem(records[i].1.as_str()) {
            Ok(k) => k,
            Err(_) => return Err(LoadError::KeyParse { key_id: id }),
        };
        let signing_key = match private_key_from_pem(records[i].2.as_str()) {
            Ok(k) => k,
            Err(_) => return Err(LoadError::KeyParse { key_id: id }),
        };
        if table_contains(&table, id) {
            return Err(LoadError::DuplicateKeyId { key_id: id });
        }
        let ghost old_ids = rsa_ids(table@);
        table.push(RsaKeyInfo { key_id: id, encrypt_key, signing_key });
        proof {
            assert(rsa_ids(table@) =~= old_ids + seq![id]);
        }
    }
    proof {
        assert(recs.skip(n as int) =~= Seq::<(u64, Seq<char>, Seq<char>)>::empty());
    }
    Ok(table)
}

} // verus!
