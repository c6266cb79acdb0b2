use vstd::prelude::*;
use vstd::string::StringExecFns;
use crate::errors::{LoadError, LoadErrV};
use crate::ini_model::{field_lookup, ini_doc_of, parse_ini, section_lookup, IniDoc};
use crate::keys::{load_keys, spec_load_keys, Ec2bKeyPair, Ec2bV};
use crate::parse::{
    parse_bool, parse_u32, spec_parse_bool, spec_parse_u32, split_commas, split_commas_exec,
    string_views,
};
use crate::rsa::{load_rsa_keys, rsa_ids, spec_load_rsa_keys, RsaKeyInfo};
use crate::store::{path_for, path_of, KeyStore};

verus! {

/// One region's routing and display metadata, plus the obfuscation key pair
/// it exclusively owns.
pub struct RegionConfig {
    pub name: String,
    pub title: String,
    pub r_type: String,
    pub gateserver_ip: String,
    pub gateserver_port: u32,
    pub secret_key: Ec2bKeyPair,
}

/// Mathematical value of a `RegionConfig`.
pub ghost struct RegionV {
    pub name: Seq<char>,
    pub title: Seq<char>,
    pub r_type: Seq<char>,
    pub gateserver_ip: Seq<char>,
    pub gateserver_port: u32,
    pub secret_key: Ec2bV,
}

impl View for RegionConfig {
    type V = RegionV;

    open spec fn view(&self) -> RegionV {
        RegionV {
            name: self.name@,
            title: self.title@,
            r_type: self.r_type@,
            gateserver_ip: self.gateserver_ip@,
            gateserver_port: self.gateserver_port,
            secret_key: self.secret_key@,
        }
    }
}

/// The fully loaded dispatch registry: listener settings, the client-global
/// obfuscation key pair, the RSA key table and the region table. Constructed
/// all-or-nothing by `load`; immutable thereafter.
pub struct DispatchConfig {
    pub http_port: u32,
    pub https_port: u32,
    pub ssl_cert: String,
    pub ssl_key: String,
    pub enable_login: bool,
    pub client_secret_key: Ec2bKeyPair,
    pub rsa_keys: Vec<RsaKeyInfo>,
    pub regions: Vec<RegionConfig>,
}

/// Mathematical value of a `DispatchConfig`. The RSA key table appears as
/// its sequence of key identifiers (the key objects themselves are opaque),
/// the region table as its sequence of region values, both in table order.
pub ghost struct DispatchV {
    pub http_port: u32,
    pub https_port: u32,
    pub ssl_cert: Seq<char>,
    pub ssl_key: Seq<char>,
    pub enable_login: bool,
    pub client_secret_key: Ec2bV,
    pub rsa_keys: Seq<u8>,
    pub regions: Seq<RegionV>,
}

impl View for DispatchConfig {
    type V = DispatchV;

    open spec fn view(&self) -> DispatchV {
        DispatchV {
            http_port: self.http_port,
            https_port: self.https_port,
            ssl_cert: self.ssl_cert@,
            ssl_key: self.ssl_key@,
            enable_login: self.enable_login,
            client_secret_key: self.client_secret_key@,
            rsa_keys: rsa_ids(self.rsa_keys@),
            regions: region_views(self.regions@),
        }
    }
}

/// The views of a region table, in table order.
pub open spec fn region_views(rs: Seq<RegionConfig>) -> Seq<RegionV> {
    rs.map_values(|r: RegionConfig| r@)
}

/// The region bound to `name` in the region table: first match, though a
/// well-formed table binds each name at most once.
pub open spec fn region_lookup(regions: Seq<RegionV>, name: Seq<char>) -> Option<RegionV>
    decreases regions.len(),
{
    if regions.len() == 0 {
        None
    } else if regions[0].name == name {
        Some(regions[0])
    } else {
        region_lookup(regions.drop_first(), name)
    }
}

/// Binding a region into the table: a region of the same name is replaced in
/// place, otherwise the region is appended. Later bindings therefore win,
/// and first-occurrence order is kept.
pub open spec fn region_insert(regions: Seq<RegionV>, r: RegionV) -> Seq<RegionV>
    decreases regions.len(),
{
    if regions.len() == 0 {
        seq![r]
    } else if regions[0].name == r.name {
        seq![r] + regions.drop_first()
    } else {
        seq![regions[0]] + region_insert(regions.drop_first(), r)
    }
}

/// What loading one named region yields: its section looked up by the exact
/// name, the obfuscation key pair loaded from the section's `SecretKey`
/// name, then the five scalar fields, with the gateserver port parsed as an
/// unsigned integer.
pub open spec fn spec_load_region(
    doc: Seq<(Option<Seq<char>>, Seq<(Seq<char>, Seq<char>)>)>,
    files: Seq<(Seq<char>, Option<Seq<u8>>)>,
    dir: Seq<char>,
    rname: Seq<char>,
) -> Result<RegionV, LoadErrV> {
    match section_lookup(doc, rname) {
        None => Err(LoadErrV::MissingSection { section: rname }),
        Some(sec) => match field_lookup(sec, "SecretKey"@) {
            None => Err(LoadErrV::MissingField { section: rname, field: "SecretKey"@ }),
            Some(keyname) => match spec_load_keys(files, dir, keyname) {
                Err(e) => Err(e),
                Ok(secret_key) => match field_lookup(sec, "Name"@) {
                    None => Err(LoadErrV::MissingField { section: rname, field: "Name"@ }),
                    Some(name) => match field_lookup(sec, "Title"@) {
                        None => Err(LoadErrV::MissingField { section: rname, field: "Title"@ }),
                        Some(title) => match field_lookup(sec, "Type"@) {
                            None => Err(LoadErrV::MissingField { section: rname, field: "Type"@ }),
                            Some(r_type) => match field_lookup(sec, "GateserverIp"@) {
                                None => Err(
                                    LoadErrV::MissingField {
                                        section: rname,
                                        field: "GateserverIp"@,
                                    },
                                ),
                                Some(gateserver_ip) => match field_lookup(
                                    sec,
                                    "GateserverPort"@,
                                ) {
                                    None => Err(
                                        LoadErrV::MissingField {
                                            section: rname,
                                            field: "GateserverPort"@,
                                        },
                                    ),
                                    Some(port_s) => match spec_parse_u32(port_s) {
                                        None => Err(
                                            LoadErrV::InvalidValue {
                                                section: rname,
                                                field: "GateserverPort"@,
                                            },
                                        ),
                                        Some(gateserver_port) => Ok(
                                            RegionV {
                                                name,
                                                title,
                                                r_type,
                                                gateserver_ip,
                                                gateserver_port,
                                                secret_key,
                                            },
                                        ),
                                    },
                                },
                            },
                        },
                    },
                },
            },
        },
    }
}

/// Folding the named regions into the table, in list order, failing on the
/// first region that does not load.
pub open spec fn spec_load_regions(
    doc: Seq<(Option<Seq<char>>, Seq<(Seq<char>, Seq<char>)>)>,
    files: Seq<(Seq<char>, Option<Seq<u8>>)>,
    dir: Seq<char>,
    pieces: Seq<Seq<char>>,
    acc: Seq<RegionV>,
) -> Result<Seq<RegionV>, LoadErrV>
    decreases pieces.len(),
{
    if pieces.len() == 0 {
        Ok(acc)
    } else {
        match spec_load_region(doc, files, dir, pieces[0]) {
            Err(e) => Err(e),
            Ok(r) => spec_load_regions(doc, files, dir, pieces.drop_first(), region_insert(acc, r)),
        }
    }
}

/// A mandatory scalar of the `DispatchConfig` section is absent.
pub open spec fn dc_missing(field: Seq<char>) -> LoadErrV {
    LoadErrV::MissingField { section: "DispatchConfig"@, field }
}

/// A scalar of the `DispatchConfig` section does not convert.
pub open spec fn dc_invalid(field: Seq<char>) -> LoadErrV {
    LoadErrV::InvalidValue { section: "DispatchConfig"@, field }
}

/// The body of registry loading, once the `DispatchConfig` section is in
/// hand: every field is mandatory, and the fields are read — and their
/// sub-loads performed — in the loader's fixed order, so that the first
/// error encountered is the one reported.
pub open spec fn spec_load_body(
    doc: Seq<(Option<Seq<char>>, Seq<(Seq<char>, Seq<char>)>)>,
    sec: Seq<(Seq<char>, Seq<char>)>,
    files: Seq<(Seq<char>, Option<Seq<u8>>)>,
) -> Result<DispatchV, LoadErrV> {
    match field_lookup(sec, "HttpPort"@) {
        None => Err(dc_missing("HttpPort"@)),
        Some(hp) => match spec_parse_u32(hp) {
            None => Err(dc_invalid("HttpPort"@)),
            Some(http_port) => match field_lookup(sec, "HttpsPort"@) {
                None => Err(dc_missing("HttpsPort"@)),
                Some(hps) => match spec_parse_u32(hps) {
                    None => Err(dc_invalid("HttpsPort"@)),
                    Some(https_port) => match field_lookup(sec, "EnableLogin"@) {
                        None => Err(dc_missing("EnableLogin"@)),
                        Some(el) => match field_lookup(sec, "KeyDirectory"@) {
                            None => Err(dc_missing("KeyDirectory"@)),
                            Some(dir) => match field_lookup(sec, "ClientSecretKey"@) {
                                None => Err(dc_missing("ClientSecretKey"@)),
                                Some(csk) => match spec_load_keys(files, dir, csk) {
                                    Err(e) => Err(e),
                                    Ok(client_secret_key) => match field_lookup(
                                        sec,
                                        "RsaKeyConfig"@,
                                    ) {
                                        None => Err(dc_missing("RsaKeyConfig"@)),
                                        Some(rkc) => match spec_load_rsa_keys(files, dir, rkc) {
                                            Err(e) => Err(e),
                                            Ok(rsa_keys) => match field_lookup(sec, "SslCert"@) {
                                                None => Err(dc_missing("SslCert"@)),
                                                Some(cert) => match field_lookup(sec, "SslKey"@) {
                                                    None => Err(dc_missing("SslKey"@)),
                                                    Some(key) => match field_lookup(
                                                        sec,
                                                        "Regions"@,
                                                    ) {
                                                        None => Err(dc_missing("Regions"@)),
                                                        Some(regs) => match spec_load_regions(
                                                            doc,
                                                            files,
                                                            dir,
                                                            split_commas(regs),
                                                            Seq::empty(),
                                                        ) {
                                                            Err(e) => Err(e),
                                                            Ok(regions) => match spec_parse_bool(
                                                                el,
                                                            ) {
                                                                None => Err(
                                                                    dc_invalid("EnableLogin"@),
                                                                ),
                                                                Some(enable_login) => Ok(
                                                                    DispatchV {
                                                                        http_port,
                                                                        https_port,
                                                                        ssl_cert: path_of(
                                                                            dir,
                                                                            cert,
                                                                        ),
                                                                        ssl_key: path_of(dir, key),
                                                                        enable_login,
                                                                        client_secret_key,
                                                                        rsa_keys,
                                                                        regions,
                                                                    },
                                                                ),
                                                            },
                                                        },
                                                    },
                                                },
                                            },
                                        },
                                    },
                                },
                            },
                        },
                    },
                },
            },
        },
    }
}

/// What loading the registry from configuration text and the captured key
/// directory yields: the whole pipeline, from INI parsing to the finished
/// registry, or the first error encountered.
pub open spec fn spec_load(text: Seq<char>, files: Seq<(Seq<char>, Option<Seq<u8>>)>) -> Result<
    DispatchV,
    LoadErrV,
> {
    match ini_doc_of(text) {
        None => Err(LoadErrV::ConfigParse),
        Some(doc) => match section_lookup(doc, "DispatchConfig"@) {
            None => Err(LoadErrV::MissingSection { section: "DispatchConfig"@ }),
            Some(sec) => spec_load_body(doc, sec, files),
        },
    }
}

/// Binds a freshly loaded region into the table: same name replaces in
/// place, a new name is appended.
#[verifier::loop_isolation(false)]
pub fn region_table_insert(table: &mut Vec<RegionConfig>, rc: RegionConfig)
    ensures
        region_views(final(table)@) == region_insert(region_views(old(table)@), rc@),
{
    let ghost regs = region_views(table@);
    let n = table.len();
    for i in 0..n
        invariant
            n == table.len(),
            regs == region_views(table@),
            forall|j: int| 0 <= j < i ==> regs[j].name != rc@.name,
    {
        if table[i].name == rc.name {
            proof {
                assert(regs[i as int].name == rc@.name);
                lemma_region_insert_replaces(regs, rc@, i as int);
            }
            table.remove(i);
            table.insert(i, rc);
            proof {
                assert(region_views(table@) =~= regs.update(i as int, rc@));
                assert(region_insert(regs, rc@) == regs.update(i as int, rc@));
                assert(region_views(table@) == region_insert(regs, rc@));
            }
            return ;
        }
    }
    proof {
        lemma_region_insert_appends(regs, rc@);
    }
    table.push(rc);
    proof {
        assert(region_views(table@) =~= regs + seq![rc@]);
    }
}

/// Inserting over an existing binding replaces it in place.
proof fn lemma_region_insert_replaces(regs: Seq<RegionV>, r: RegionV, i: int)
    requires
        0 <= i < regs.len(),
        regs[i].name == r.name,
        forall|j: int| 0 <= j < i ==> regs[j].name != r.name,
    ensures
        region_insert(regs, r) =~= regs.update(i, r),
    decreases i,
{
    if i == 0 {
        assert(seq![r] + regs.drop_first() =~= regs.update(0, r));
    } else {
        let d = regs.drop_first();
        assert(forall|j: int| 0 <= j < d.len() ==> d[j] == regs[j + 1]);
        lemma_region_insert_replaces(d, r, i - 1);
        assert(seq![regs[0]] + d.update(i - 1, r) =~= regs.update(i, r));
    }
}

/// Inserting a fresh name appends.
proof fn lemma_region_insert_appends(regs: Seq<RegionV>, r: RegionV)
    requires
        forall|j: int| 0 <= j < regs.len() ==> regs[j].name != r.name,
    ensures
        region_insert(regs, r) =~= regs + seq![r],
    decreases regs.len(),
{
    if regs.len() == 0 {
        assert(region_insert(regs, r) =~= seq![r]);
        assert(regs + seq![r] =~= seq![r]);
    } else {
        let d = regs.drop_first();
        assert(forall|j: int| 0 <= j < d.len() ==> d[j] == regs[j + 1]);
        lemma_region_insert_appends(d, r);
        assert(seq![regs[0]] + (d + seq![r]) =~= regs + seq![r]);
    }
}

/// Loads one region out of its configuration section.
pub fn load_region(doc: &IniDoc, store: &KeyStore, dir: &str, rname: &str) -> (r: Result<
    RegionConfig,
    LoadError,
>)
    ensures
        match r {
            Ok(rc) => spec_load_region(doc@, store@, dir@, rname@) == Ok::<RegionV, LoadErrV>(rc@),
            Err(e) => spec_load_region(doc@, store@, dir@, rname@) == Err::<RegionV, LoadErrV>(e@),
        },
{
    let sec = match doc.section(rname) {
        Some(s) => s,
        None => return Err(LoadError::MissingSection { section: rname.to_owned() }),
    };
    let keyname = match sec.get("SecretKey") {
        Some(v) => v.clone(),
        None => return Err(
            LoadError::MissingField { section: rname.to_owned(), field: "SecretKey".to_owned() },
        ),
    };
    let secret_key = match load_keys(store, dir, keyname.as_str()) {
        Ok(k) => k,
        Err(e) => return Err(e),
    };
    let name = match sec.get("Name") {
        Some(v) => v.clone(),
        None => return Err(
            LoadError::MissingField { section: rname.to_owned(), field: "Name".to_owned() },
        ),
    };
    let title = match sec.get("Title") {
        Some(v) => v.clone(),
        None => return Err(
            LoadError::MissingField { section: rname.to_owned(), field: "Title".to_owned() },
        ),
    };
    let r_type = match sec.get("Type") {
        Some(v) => v.clone(),
        None => return Err(
            LoadError::MissingField { section: rname.to_owned(), field: "Type".to_owned() },
        ),
    };
    let gateserver_ip = match sec.get("GateserverIp") {
        Some(v) => v.clone(),
        None => return Err(
            LoadError::MissingField { section: rname.to_owned(), field: "GateserverIp".to_owned() },
        ),
    };
    let port_s = match sec.get("GateserverPort") {
        Some(v) => v,
        None => return Err(
            LoadError::MissingField {
                section: rname.to_owned(),
                field: "GateserverPort".to_owned(),
            },
        ),
    };
    let gateserver_port = match parse_u32(port_s.as_str()) {
        Some(p) => p,
        None => return Err(
            LoadError::InvalidValue {
                section: rname.to_owned(),
                field: "GateserverPort".to_owned(),
            },
        ),
    };
    Ok(RegionConfig { name, title, r_type, gateserver_ip, gateserver_port, secret_key })
}

impl DispatchConfig {
    /// The key-storage directory the configuration names: what must be
    /// captured into a `KeyStore` before `load` can run.
    pub fn key_directory(conf_text: &str) -> (r: Result<String, LoadError>)
        ensures
            match r {
                Ok(d) => ini_doc_of(conf_text@) matches Some(doc) && section_lookup(
                    doc,
                    "DispatchConfig"@,
                ) matches Some(sec) && field_lookup(sec, "KeyDirectory"@) == Some(d@),
                Err(e) => match e@ {
                    LoadErrV::ConfigParse => ini_doc_of(conf_text@) is None,
                    LoadErrV::MissingSection { section } => ini_doc_of(
                        conf_text@,
                    ) matches Some(doc) && section_lookup(doc, "DispatchConfig"@) is None
                        && section == "DispatchConfig"@,
                    LoadErrV::MissingField { section, field } => ini_doc_of(
                        conf_text@,
                    ) matches Some(doc) && section_lookup(doc, "DispatchConfig"@) matches Some(sec)
                        && field_lookup(sec, "KeyDirectory"@) is None && section
                        == "DispatchConfig"@ && field == "KeyDirectory"@,
                    _ => false,
                },
            },
    {
        let doc = match parse_ini(conf_text) {
            Ok(d) => d,
            Err(_) => return Err(LoadError::ConfigParse),
        };
        let sec = match doc.section("DispatchConfig") {
            Some(s) => s,
            None => return Err(
                LoadError::MissingSection { section: "DispatchConfig".to_owned() },
            ),
        };
        match sec.get("KeyDirectory") {
            Some(v) => Ok(v.clone()),
            None => Err(
                LoadError::MissingField {
                    section: "DispatchConfig".to_owned(),
                    field: "KeyDirectory".to_owned(),
                },
            ),
        }
    }

    /// Loads the whole registry out of configuration text and the captured
    /// key-storage directory: all-or-nothing, every field mandatory, every
    /// key validated, the first error encountered reported.
    #[verifier::loop_isolation(false)]
    pub fn load(conf_text: &str, store: &KeyStore) -> (r: Result<DispatchConfig, LoadError>)
        ensures
            match r {
                Ok(c) => spec_load(conf_text@, store@) == Ok::<DispatchV, LoadErrV>(c@),
                Err(e) => spec_load(conf_text@, store@) == Err::<DispatchV, LoadErrV>(e@),
            },
    {
        let doc = match parse_ini(conf_text) {
            Ok(d) => d,
            Err(_) => return Err(LoadError::ConfigParse),
        };
        let sec = match doc.section("DispatchConfig") {
            Some(s) => s,
            None => return Err(
                LoadError::MissingSection { section: "DispatchConfig".to_owned() },
            ),
        };
        let http_port = match sec.get("HttpPort") {
            Some(v) => match parse_u32(v.as_str()) {
                Some(p) => p,
                None => return Err(Self::dc_invalid_err("HttpPort")),
            },
            None => return Err(Self::dc_missing_err("HttpPort")),
        };
        let https_port = match sec.get("HttpsPort") {
            Some(v) => match parse_u32(v.as_str()) {
                Some(p) => p,
                None => return Err(Self::dc_invalid_err("HttpsPort")),
            },
            None => return Err(Self::dc_missing_err("HttpsPort")),
        };
        let enable_login_s = match sec.get("EnableLogin") {
            Some(v) => v.clone(),
            None => return Err(Self::dc_missing_err("EnableLogin")),
        };
        let key_directory = match sec.get("KeyDirectory") {
            Some(v) => v.clone(),
            None => return Err(Self::dc_missing_err("KeyDirectory")),
        };
        let client_name = match sec.get("ClientSecretKey") {
            Some(v) => v.clone(),
            None => return Err(Self::dc_missing_err("ClientSecretKey")),
        };
        let client_secret_key = match load_keys(
            store,
            key_directory.as_str(),
            client_name.as_str(),
        ) {
            Ok(k) => k,
            Err(e) => return Err(e),
        };
        let rsa_name = match sec.get("RsaKeyConfig") {
            Some(v) => v.clone(),
            None => return Err(Self::dc_missing_err("RsaKeyConfig")),
        };
        let rsa_keys = match load_rsa_keys(store, key_directory.as_str(), rsa_name.as_str()) {
            Ok(v) => v,
            Err(e) => return Err(e),
        };
        let ssl_cert = match sec.get("SslCert") {
            Some(v) => path_for(key_directory.as_str(), v.as_str()),
            None => return Err(Self::dc_missing_err("SslCert")),
        };
        let ssl_key = match sec.get("SslKey") {
            Some(v) => path_for(key_directory.as_str(), v.as_str()),
            None => return Err(Self::dc_missing_err("SslKey")),
        };
        let regions_s = match sec.get("Regions") {
            Some(v) => v.clone(),
            None => return Err(Self::dc_missing_err("Regions")),
        };
        let pieces = split_commas_exec(regions_s.as_str());
        let ghost piecesv = string_views(pieces@);
        let mut regions: Vec<RegionConfig> = Vec::new();
        let n = pieces.len();
        proof {
            assert(piecesv.skip(0) =~= piecesv);
            assert(region_views(regions@) =~= Seq::<RegionV>::empty());
        }
        for i in 0..n
            invariant
                n == pieces.len(),
                piecesv == string_views(pieces@),
                spec_load_regions(doc@, store@, key_directory@, piecesv, Seq::empty())
                    == spec_load_regions(
                    doc@,
                    store@,
                    key_directory@,
                    piecesv.skip(i as int),
                    region_views(regions@),
                ),
        {
            proof {
                assert(piecesv.skip(i as int)[0] == piecesv[i as int]);
                assert(piecesv[i as int] == pieces@[i as int]@);
                assert(piecesv.skip(i as int).drop_first() =~= piecesv.skip(i + 1));
            }
            let rc = match load_region(&doc, store, key_directory.as_str(), pieces[i].as_str()) {
                Ok(rc) => rc,
                Err(e) => return Err(e),
            };
            region_table_insert(&mut regions, rc);
        }
        proof {
            assert(piecesv.skip(n as int) =~= Seq::<Seq<char>>::empty());
        }
        let enable_login = match parse_bool(enable_login_s.as_str()) {
            Some(b) => b,
            None => return Err(Self::dc_invalid_err("EnableLogin")),
        };
        Ok(
            DispatchConfig {
                http_port,
                https_port,
                ssl_cert,
                ssl_key,
                enable_login,
                client_secret_key,
                rsa_keys,
                regions,
            },
        )
    }

    /// A `MissingField` of the `DispatchConfig` section.
    fn dc_missing_err(field: &str) -> (e: LoadError)
        ensures
            e@ == dc_missing(field@),
    {
        LoadError::MissingField { section: "DispatchConfig".to_owned(), field: field.to_owned() }
    }

    /// An `InvalidValue` of the `DispatchConfig` section.
    fn dc_invalid_err(field: &str) -> (e: LoadError)
        ensures
            e@ == dc_invalid(field@),
    {
        LoadError::InvalidValue { section: "DispatchConfig".to_owned(), field: field.to_owned() }
    }

    /// Looks a key identifier up in the RSA key table: an explicit absence,
    /// never a failure.
    pub fn get_rsa_key(&self, key_id: u8) -> (r: Option<&RsaKeyInfo>)
        ensures
            match r {
                Some(k) => k.key_id == key_id && self@.rsa_keys.contains(key_id),
                None => !self@.rsa_keys.contains(key_id),
            },
    {
        let ghost ids = self@.rsa_keys;
        let n = self.rsa_keys.len();
        for i in 0..n
            invariant
                n == self.rsa_keys.len(),
                ids == self@.rsa_keys,
                forall|j: int| 0 <= j < i ==> ids[j] != key_id,
        {
            if self.rsa_keys[i].key_id == key_id {
                proof {
                    assert(ids[i as int] == key_id);
                }
                return Some(&self.rsa_keys[i]);
            }
        }
        proof {
            if ids.contains(key_id) {
                let j = choose|j: int| 0 <= j < ids.len() && ids[j] == key_id;
                assert(ids[j] == key_id);
            }
        }
        None
    }

    /// Looks a region up by name in the region table: an explicit absence,
    /// never a failure.
    pub fn get_region(&self, name: &str) -> (r: Option<&RegionConfig>)
        ensures
            match r {
                Some(rc) => region_lookup(self@.regions, name@) == Some(rc@),
                None => region_lookup(self@.regions, name@) is None,
            },
    {
        let want: String = name.to_owned();
        let ghost regs = self@.regions;
        let n = self.regions.len();
        proof {
            assert(regs.skip(0) =~= regs);
        }
        for i in 0..n
            invariant
                n == self.regions.len(),
                want@ == name@,
                regs == self@.regions,
                region_lookup(regs, name@) == region_lookup(regs.skip(i as int), name@),
        {
            proof {
                assert(regs.skip(i as int)[0] == regs[i as int]);
                assert(regs.skip(i as int).drop_first() =~= regs.skip(i + 1));
            }
            if self.regions[i].name == want {
                return Some(&self.regions[i]);
            }
        }
        proof {
            assert(regs.skip(n as int) =~= Seq::<RegionV>::empty());
        }
        None
    }
}

} // verus!
