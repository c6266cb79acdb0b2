use dispatch_registry::errors::LoadError;
use dispatch_registry::keys::load_keys;
use dispatch_registry::registry::DispatchConfig;
use dispatch_registry::rsa::load_rsa_keys;
use dispatch_registry::store::{FileData, KeyStore, StoredFile};

fn file(name: &str, bytes: &[u8]) -> StoredFile {
    StoredFile { name: name.to_string(), data: FileData::Bytes(bytes.to_vec()) }
}

fn store_with_manifest(manifest: &str) -> KeyStore {
    KeyStore {
        files: vec![
            file("client.key", &[1, 2, 3, 4]),
            file("client.ec2b", &[5, 6]),
            file("region1.key", &[7, 8, 9]),
            file("region1.ec2b", &[10, 11, 12, 13]),
            file("rsakeys.json", manifest.as_bytes()),
        ],
    }
}

fn base_store() -> KeyStore {
    store_with_manifest("[]")
}

const BASE_DISPATCH_FIELDS: [(&str, &str); 9] = [
    ("HttpPort", "80"),
    ("HttpsPort", "443"),
    ("EnableLogin", "true"),
    ("KeyDirectory", "keys"),
    ("ClientSecretKey", "client"),
    ("RsaKeyConfig", "rsakeys"),
    ("SslCert", "cert.pem"),
    ("SslKey", "key.pem"),
    ("Regions", "cn_gf01"),
];

const BASE_REGION_FIELDS: [(&str, &str); 6] = [
    ("Name", "cn_gf01"),
    ("Title", "Official"),
    ("Type", "PROD"),
    ("GateserverIp", "127.0.0.1"),
    ("GateserverPort", "22102"),
    ("SecretKey", "region1"),
];

fn config_text(skip_dispatch: Option<&str>, skip_region: Option<&str>) -> String {
    let mut text = String::from("[DispatchConfig]\n");
    for (k, v) in BASE_DISPATCH_FIELDS {
        if Some(k) != skip_dispatch {
            text.push_str(&format!("{}={}\n", k, v));
        }
    }
    text.push_str("[cn_gf01]\n");
    for (k, v) in BASE_REGION_FIELDS {
        if Some(k) != skip_region {
            text.push_str(&format!("{}={}\n", k, v));
        }
    }
    text
}

fn pem_of_fresh_key() -> String {
    let key = openssl::rsa::Rsa::generate(512).unwrap();
    String::from_utf8(key.private_key_to_pem().unwrap()).unwrap()
}

fn manifest_entry(key_id: u64, pem: &str) -> String {
    format!(
        "{{\"key_id\": {}, \"encrypt_key\": \"{}\", \"signing_key\": \"{}\"}}",
        key_id,
        pem.replace('\n', "\\n"),
        pem.replace('\n', "\\n"),
    )
}

#[test]
fn ec2b_round_trip_no_transformation() {
    let store = KeyStore {
        files: vec![file("alice.key", &[1, 2, 3]), file("alice.ec2b", &[9, 9])],
    };
    let pair = load_keys(&store, "keys", "alice").unwrap();
    assert_eq!(pair.xorpad, vec![1, 2, 3]);
    assert_eq!(pair.ec2b, vec![9, 9]);
}

#[test]
fn end_to_end_single_region() {
    let conf = DispatchConfig::load(&config_text(None, None), &base_store()).unwrap();
    assert_eq!(conf.http_port, 80);
    assert_eq!(conf.https_port, 443);
    assert!(conf.enable_login);
    assert_eq!(conf.ssl_cert, "./keys/cert.pem");
    assert_eq!(conf.ssl_key, "./keys/key.pem");
    assert_eq!(conf.client_secret_key.xorpad, vec![1, 2, 3, 4]);
    assert_eq!(conf.client_secret_key.ec2b, vec![5, 6]);
    assert_eq!(conf.regions.len(), 1);
    assert_eq!(conf.rsa_keys.len(), 0);
    let region = conf.get_region("cn_gf01").unwrap();
    assert_eq!(region.name, "cn_gf01");
    assert_eq!(region.title, "Official");
    assert_eq!(region.r_type, "PROD");
    assert_eq!(region.gateserver_ip, "127.0.0.1");
    assert_eq!(region.gateserver_port, 22102u32);
    assert_eq!(region.secret_key.xorpad, vec![7, 8, 9]);
    assert_eq!(region.secret_key.ec2b, vec![10, 11, 12, 13]);
}

#[test]
fn key_directory_is_read_from_config() {
    let dir = DispatchConfig::key_directory(&config_text(None, None)).unwrap();
    assert_eq!(dir, "keys");
}

#[test]
fn each_missing_dispatch_field_is_reported() {
    for (field, _) in BASE_DISPATCH_FIELDS {
        let text = config_text(Some(field), None);
        match DispatchConfig::load(&text, &base_store()) {
            Err(LoadError::MissingField { section, field: got }) => {
                assert_eq!(section, "DispatchConfig");
                assert_eq!(got, field);
            }
            other => panic!("expected MissingField for {}, got {:?}", field, other.err()),
        }
    }
}

#[test]
fn each_missing_region_field_is_reported() {
    for (field, _) in BASE_REGION_FIELDS {
        let text = config_text(None, Some(field));
        match DispatchConfig::load(&text, &base_store()) {
            Err(LoadError::MissingField { section, field: got }) => {
                assert_eq!(section, "cn_gf01");
                assert_eq!(got, field);
            }
            other => panic!("expected MissingField for {}, got {:?}", field, other.err()),
        }
    }
}

#[test]
fn invalid_pem_fails_whole_load() {
    let manifest = manifest_entry(1, "not a pem at all");
    let store = store_with_manifest(&format!("[{}]", manifest));
    match DispatchConfig::load(&config_text(None, None), &store) {
        Err(LoadError::KeyParse { key_id }) => assert_eq!(key_id, 1),
        other => panic!("expected KeyParse, got {:?}", other.err()),
    }
}

#[test]
fn valid_manifest_loads_every_key() {
    let pem_a = pem_of_fresh_key();
    let pem_b = pem_of_fresh_key();
    let manifest = format!("[{}, {}]", manifest_entry(2, &pem_a), manifest_entry(5, &pem_b));
    let store = store_with_manifest(&manifest);
    let conf = DispatchConfig::load(&config_text(None, None), &store).unwrap();
    assert_eq!(conf.rsa_keys.len(), 2);
    assert_eq!(conf.get_rsa_key(2).unwrap().key_id, 2);
    assert_eq!(conf.get_rsa_key(5).unwrap().key_id, 5);
    assert!(conf.get_rsa_key(3).is_none());
}

#[test]
fn absent_lookups_are_explicit_absences() {
    let conf = DispatchConfig::load(&config_text(None, None), &base_store()).unwrap();
    assert!(conf.get_rsa_key(7).is_none());
    assert!(conf.get_region("eu_live").is_none());
    assert!(conf.get_region("cn_gf01").is_some());
}

#[test]
fn duplicate_key_id_is_rejected() {
    let pem = pem_of_fresh_key();
    let manifest = format!("[{}, {}]", manifest_entry(3, &pem), manifest_entry(3, &pem));
    let store = store_with_manifest(&manifest);
    match DispatchConfig::load(&config_text(None, None), &store) {
        Err(LoadError::DuplicateKeyId { key_id }) => assert_eq!(key_id, 3),
        other => panic!("expected DuplicateKeyId, got {:?}", other.err()),
    }
}

#[test]
fn malformed_manifest_is_a_parse_error() {
    let store = store_with_manifest("{ not json");
    match DispatchConfig::load(&config_text(None, None), &store) {
        Err(LoadError::ManifestParse { name }) => assert_eq!(name, "rsakeys"),
        other => panic!("expected ManifestParse, got {:?}", other.err()),
    }
}

#[test]
fn manifest_record_missing_field_is_a_parse_error() {
    let store = store_with_manifest("[{\"key_id\": 1, \"encrypt_key\": \"x\"}]");
    match DispatchConfig::load(&config_text(None, None), &store) {
        Err(LoadError::ManifestParse { name }) => assert_eq!(name, "rsakeys"),
        other => panic!("expected ManifestParse, got {:?}", other.err()),
    }
}

#[test]
fn oversized_key_id_is_a_parse_error() {
    let pem = pem_of_fresh_key();
    let store = store_with_manifest(&format!("[{}]", manifest_entry(300, &pem)));
    match DispatchConfig::load(&config_text(None, None), &store) {
        Err(LoadError::ManifestParse { name }) => assert_eq!(name, "rsakeys"),
        other => panic!("expected ManifestParse, got {:?}", other.err()),
    }
}

#[test]
fn missing_manifest_names_its_path() {
    let mut store = base_store();
    store.files.retain(|f| f.name != "rsakeys.json");
    match DispatchConfig::load(&config_text(None, None), &store) {
        Err(LoadError::MissingFile { path }) => assert_eq!(path, "./keys/rsakeys.json"),
        other => panic!("expected MissingFile, got {:?}", other.err()),
    }
}

#[test]
fn missing_key_file_names_its_path() {
    let mut store = base_store();
    store.files.retain(|f| f.name != "region1.key");
    match DispatchConfig::load(&config_text(None, None), &store) {
        Err(LoadError::MissingFile { path }) => assert_eq!(path, "./keys/region1.key"),
        other => panic!("expected MissingFile, got {:?}", other.err()),
    }
}

#[test]
fn unreadable_key_file_is_an_io_error() {
    let mut store = base_store();
    store.files.retain(|f| f.name != "client.ec2b");
    store.files.push(StoredFile {
        name: "client.ec2b".to_string(),
        data: FileData::Unreadable,
    });
    match DispatchConfig::load(&config_text(None, None), &store) {
        Err(LoadError::IoError { path }) => assert_eq!(path, "./keys/client.ec2b"),
        other => panic!("expected IoError, got {:?}", other.err()),
    }
}

#[test]
fn missing_region_section_is_reported() {
    let text = config_text(None, None).replace("Regions=cn_gf01", "Regions=cn_gf01,eu_live");
    match DispatchConfig::load(&text, &base_store()) {
        Err(LoadError::MissingSection { section }) => assert_eq!(section, "eu_live"),
        other => panic!("expected MissingSection, got {:?}", other.err()),
    }
}

#[test]
fn non_numeric_port_is_invalid() {
    let text = config_text(None, None).replace("GateserverPort=22102", "GateserverPort=soon");
    match DispatchConfig::load(&text, &base_store()) {
        Err(LoadError::InvalidValue { section, field }) => {
            assert_eq!(section, "cn_gf01");
            assert_eq!(field, "GateserverPort");
        }
        other => panic!("expected InvalidValue, got {:?}", other.err()),
    }
}

#[test]
fn overflowing_http_port_is_invalid() {
    let text = config_text(None, None).replace("HttpPort=80", "HttpPort=99999999999");
    match DispatchConfig::load(&text, &base_store()) {
        Err(LoadError::InvalidValue { section, field }) => {
            assert_eq!(section, "DispatchConfig");
            assert_eq!(field, "HttpPort");
        }
        other => panic!("expected InvalidValue, got {:?}", other.err()),
    }
}

#[test]
fn non_boolean_login_flag_is_invalid() {
    let text = config_text(None, None).replace("EnableLogin=true", "EnableLogin=yes");
    match DispatchConfig::load(&text, &base_store()) {
        Err(LoadError::InvalidValue { section, field }) => {
            assert_eq!(section, "DispatchConfig");
            assert_eq!(field, "EnableLogin");
        }
        other => panic!("expected InvalidValue, got {:?}", other.err()),
    }
}

#[test]
fn plus_prefixed_port_parses_like_std() {
    let text = config_text(None, None).replace("GateserverPort=22102", "GateserverPort=+22102");
    let conf = DispatchConfig::load(&text, &base_store()).unwrap();
    assert_eq!(conf.get_region("cn_gf01").unwrap().gateserver_port, 22102u32);
}

#[test]
fn malformed_config_text_is_a_parse_error() {
    match DispatchConfig::load("[DispatchConfig\nHttpPort=80\n", &base_store()) {
        Err(LoadError::ConfigParse) => {}
        other => panic!("expected ConfigParse, got {:?}", other.err()),
    }
}

#[test]
fn duplicate_region_listing_keeps_one_entry() {
    let text = config_text(None, None).replace("Regions=cn_gf01", "Regions=cn_gf01,cn_gf01");
    let conf = DispatchConfig::load(&text, &base_store()).unwrap();
    assert_eq!(conf.regions.len(), 1);
    assert_eq!(conf.get_region("cn_gf01").unwrap().gateserver_port, 22102u32);
}

#[test]
fn rsa_table_loader_reports_key_parse_with_key_id() {
    let pem = pem_of_fresh_key();
    let manifest = format!("[{}, {}]", manifest_entry(1, &pem), manifest_entry(9, "broken"));
    let store = store_with_manifest(&manifest);
    match load_rsa_keys(&store, "keys", "rsakeys") {
        Err(LoadError::KeyParse { key_id }) => assert_eq!(key_id, 9),
        other => panic!("expected KeyParse, got {:?}", other.err()),
    }
}

#[test]
fn empty_region_list_means_one_empty_name() {
    let text = config_text(None, None).replace("Regions=cn_gf01", "Regions=");
    match DispatchConfig::load(&text, &base_store()) {
        Err(LoadError::MissingSection { section }) => assert_eq!(section, ""),
        other => panic!("expected MissingSection, got {:?}", other.err()),
    }
}
