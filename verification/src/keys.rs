use vstd::prelude::*;
use vstd::string::StringExecFns;
use crate::errors::{LoadError, LoadErrV};
use crate::store::{spec_read, KeyStore};

verus! {

/// An obfuscation key pair: an obfuscated blob (`ec2b`) and the XOR pad
/// (`xorpad`) that scrambles it. Both are opaque byte buffers; no length or
/// format relationship between the two is assumed here — any such contract
/// belongs to the consumer of the pair.
pub struct Ec2bKeyPair {
    pub ec2b: Vec<u8>,
    pub xorpad: Vec<u8>,
}

/// Mathematical value of an `Ec2bKeyPair`: the two byte sequences.
pub ghost struct Ec2bV {
    pub ec2b: Seq<u8>,
    pub xorpad: Seq<u8>,
}

impl View for Ec2bKeyPair {
    type V = Ec2bV;

    open spec fn view(&self) -> Ec2bV {
        Ec2bV { ec2b: self.ec2b@, xorpad: self.xorpad@ }
    }
}

/// The XOR pad of key name `n` lives in `<n>.key`.
pub open spec fn key_file_name(name: Seq<char>) -> Seq<char> {
    name + ".key"@
}

/// The obfuscated blob of key name `n` lives in `<n>.ec2b`.
pub open spec fn ec2b_file_name(name: Seq<char>) -> Seq<char> {
    name + ".ec2b"@
}

/// What loading key name `name` out of the captured directory yields: the
/// two sibling files read byte-for-byte, `<name>.key` first, with the first
/// failure reported unchanged.
pub open spec fn spec_load_keys(
    files: Seq<(Seq<char>, Option<Seq<u8>>)>,
    dir: Seq<char>,
    name: Seq<char>,
) -> Result<Ec2bV, LoadErrV> {
    match spec_read(files, dir, key_file_name(name)) {
        Err(e) => Err(e),
        Ok(xorpad) => match spec_read(files, dir, ec2b_file_name(name)) {
            Err(e) => Err(e),
            Ok(ec2b) => Ok(Ec2bV { ec2b, xorpad }),
        },
    }
}

/// Loads the obfuscation key pair of logical name `name`: a pure byte copy of
/// `<name>.key` (the XOR pad) and `<name>.ec2b` (the blob), no transformation
/// applied.
pub fn load_keys(store: &KeyStore, dir: &str, name: &str) -> (r: Result<
    Ec2bKeyPair,
    LoadError,
>)
    ensures
        match r {
            Ok(pair) => spec_load_keys(store@, dir@, name@) == Ok::<Ec2bV, LoadErrV>(pair@),
            Err(e) => spec_load_keys(store@, dir@, name@) == Err::<Ec2bV, LoadErrV>(e@),
        },
{
    let key_name = name.to_owned().concat(".key");
    let xorpad = match store.read_file(dir, key_name.as_str()) {
        Ok(b) => b,
        Err(e) => return Err(e),
    };
    let ec2b_name = name.to_owned().concat(".ec2b");
    let ec2b = match store.read_file(dir, ec2b_name.as_str()) {
        Ok(b) => b,
        Err(e) => return Err(e),
    };
    Ok(Ec2bKeyPair { ec2b, xorpad })
}

} // verus!
