use vstd::prelude::*;

verus! {

/// Everything that can go wrong while the registry is being loaded.
///
/// Loading fails fast: the first condition encountered is reported and no
/// partially built registry is ever visible.
#[derive(Debug)]
pub enum LoadError {
    /// A named key, manifest or certificate file does not exist; holds the path.
    MissingFile { path: String },
    /// A file exists but could not be read; holds the path.
    IoError { path: String },
    /// The configuration source is not well-formed INI text.
    ConfigParse,
    /// The RSA key manifest is not a well-formed list of key records;
    /// holds the logical manifest name.
    ManifestParse { name: String },
    /// A manifest record's PEM text does not parse as an RSA private key;
    /// holds the offending key identifier.
    KeyParse { key_id: u8 },
    /// Two manifest records carry the same key identifier.
    DuplicateKeyId { key_id: u8 },
    /// A referenced configuration section is absent; holds the section name.
    MissingSection { section: String },
    /// A mandatory scalar is absent from a section.
    MissingField { section: String, field: String },
    /// A scalar is present but does not convert to its target type
    /// (a non-numeric port, a non-boolean flag).
    InvalidValue { section: String, field: String },
}

/// The mathematical shadow of `LoadError`: the same cases over sequences of
/// characters, used by the loading specifications.
pub ghost enum LoadErrV {
    MissingFile { path: Seq<char> },
    IoError { path: Seq<char> },
    ConfigParse,
    ManifestParse { name: Seq<char> },
    KeyParse { key_id: u8 },
    DuplicateKeyId { key_id: u8 },
    MissingSection { section: Seq<char> },
    MissingField { section: Seq<char>, field: Seq<char> },
    InvalidValue { section: Seq<char>, field: Seq<char> },
}

impl View for LoadError {
    type V = LoadErrV;

    open spec fn view(&self) -> LoadErrV {
        match self {
            LoadError::MissingFile { path } => LoadErrV::MissingFile { path: path@ },
            LoadError::IoError { path } => LoadErrV::IoError { path: path@ },
            LoadError::ConfigParse => LoadErrV::ConfigParse,
            LoadError::ManifestParse { name } => LoadErrV::ManifestParse { name: name@ },
            LoadError::KeyParse { key_id } => LoadErrV::KeyParse { key_id: *key_id },
            LoadError::DuplicateKeyId { key_id } => LoadErrV::DuplicateKeyId { key_id: *key_id },
            LoadError::MissingSection { section } => LoadErrV::MissingSection { section: section@ },
            LoadError::MissingField { section, field } => LoadErrV::MissingField {
                section: section@,
                field: field@,
            },
            LoadError::InvalidValue { section, field } => LoadErrV::InvalidValue {
                section: section@,
                field: field@,
            },
        }
    }
}

} // verus!
