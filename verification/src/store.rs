use vstd::prelude::*;
use vstd::string::StringExecFns;
use crate::errors::{LoadError, LoadErrV};

verus! {

/// What one file of the key-storage directory looked like when the directory
/// was captured: its bytes, or the fact that it exists but could not be read.
pub enum FileData {
    Bytes(Vec<u8>),
    Unreadable,
}

/// One captured file: its name within the directory, and its data.
pub struct StoredFile {
    pub name: String,
    pub data: FileData,
}

/// An in-memory capture of the key-storage directory named by the
/// configuration. The loaders look files up here by name; the capture itself
/// is made by whatever performs the actual reads, outside this library.
pub struct KeyStore {
    pub files: Vec<StoredFile>,
}

impl View for FileData {
    type V = Option<Seq<u8>>;

    open spec fn view(&self) -> Option<Seq<u8>> {
        match self {
            FileData::Bytes(b) => Some(b@),
            FileData::Unreadable => None,
        }
    }
}

impl View for StoredFile {
    type V = (Seq<char>, Option<Seq<u8>>);

    open spec fn view(&self) -> (Seq<char>, Option<Seq<u8>>) {
        (self.name@, self.data@)
    }
}

impl View for KeyStore {
    type V = Seq<(Seq<char>, Option<Seq<u8>>)>;

    open spec fn view(&self) -> Seq<(Seq<char>, Option<Seq<u8>>)> {
        self.files@.map_values(|f: StoredFile| f@)
    }
}

/// The data of the first captured file named `name`: `None` if no such file,
/// `Some(None)` if it exists but is unreadable, `Some(Some(bytes))` otherwise.
pub open spec fn file_lookup(files: Seq<(Seq<char>, Option<Seq<u8>>)>, name: Seq<char>) -> Option<
    Option<Seq<u8>>,
>
    decreases files.len(),
{
    if files.len() == 0 {
        None
    } else if files[0].0 == name {
        Some(files[0].1)
    } else {
        file_lookup(files.drop_first(), name)
    }
}

/// The path under which a file of the key-storage directory is reported in
/// error messages: `./<dir>/<file>`, as the loader spells it.
pub open spec fn path_of(dir: Seq<char>, file: Seq<char>) -> Seq<char> {
    "./"@ + dir + "/"@ + file
}

/// What reading `file` out of the captured directory yields: the bytes, a
/// `MissingFile` naming the exact path, or an `IoError` naming it.
pub open spec fn spec_read(
    files: Seq<(Seq<char>, Option<Seq<u8>>)>,
    dir: Seq<char>,
    file: Seq<char>,
) -> Result<Seq<u8>, LoadErrV> {
    match file_lookup(files, file) {
        None => Err(LoadErrV::MissingFile { path: path_of(dir, file) }),
        Some(None) => Err(LoadErrV::IoError { path: path_of(dir, file) }),
        Some(Some(b)) => Ok(b),
    }
}

/// An exact copy of a byte buffer.
fn clone_bytes(v: &Vec<u8>) -> (r: Vec<u8>)
    ensures
        r@ == v@,
{
    let mut r: Vec<u8> = Vec::new();
    let n = v.len();
    for i in 0..n
        invariant
            n == v.len(),
            r@ =~= v@.take(i as int),
    {
        r.push(v[i]);
    }
    proof {
        assert(v@.take(n as int) =~= v@);
    }
    r
}

/// The `./<dir>/<file>` path string used in error reports.
pub fn path_for(dir: &str, file: &str) -> (r: String)
    ensures
        r@ == path_of(dir@, file@),
{
    "./".to_owned().concat(dir).concat("/").concat(file)
}

impl KeyStore {
    /// Reads one captured file by name, reporting absence and unreadability
    /// as the distinct conditions the error taxonomy prescribes; `dir` is the
    /// configured directory name, used only to spell the path in errors.
    pub fn read_file(&self, dir: &str, file: &str) -> (r: Result<Vec<u8>, LoadError>)
        ensures
            match r {
                Ok(b) => spec_read(self@, dir@, file@) == Ok::<Seq<u8>, LoadErrV>(b@),
                Err(e) => spec_read(self@, dir@, file@) == Err::<Seq<u8>, LoadErrV>(e@),
            },
    {
        let want: String = file.to_owned();
        let n = self.files.len();
        proof {
            assert(self@.skip(0) =~= self@);
        }
        for i in 0..n
            invariant
                n == self.files.len(),
                want@ == file@,
                file_lookup(self@, file@) == file_lookup(self@.skip(i as int), file@),
        {
            proof {
                assert(self@.skip(i as int)[0] == self@[i as int]);
                assert(self@.skip(i as int).drop_first() =~= self@.skip(i + 1));
            }
            if self.files[i].name == want {
                return match &self.files[i].data {
                    FileData::Bytes(b) => Ok(clone_bytes(b)),
                    FileData::Unreadable => Err(LoadError::IoError { path: path_for(dir, file) }),
                };
            }
        }
        proof {
            assert(self@.skip(n as int) =~= Seq::<(Seq<char>, Option<Seq<u8>>)>::empty());
        }
        Err(LoadError::MissingFile { path: path_for(dir, file) })
    }
}

} // verus!
