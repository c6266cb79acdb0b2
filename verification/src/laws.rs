use vstd::prelude::*;
use crate::errors::LoadErrV;
use crate::ini_model::{field_lookup, ini_doc_of, section_lookup};
use crate::keys::spec_load_keys;
use crate::parse::{spec_parse_u32, split_commas};
use crate::registry::{
    region_insert, region_lookup, spec_load, spec_load_region, spec_load_regions, RegionV,
};
use crate::rsa::{manifest_file_name, manifest_records_of, spec_build_rsa_table, utf8_decode};
use crate::store::spec_read;

verus! {

/// The parsed configuration document of a loadable configuration.
pub open spec fn config_doc(text: Seq<char>) -> Seq<
    (Option<Seq<char>>, Seq<(Seq<char>, Seq<char>)>),
> {
    ini_doc_of(text)->Some_0
}

/// The entry list of its `DispatchConfig` section.
pub open spec fn config_dispatch_section(text: Seq<char>) -> Seq<(Seq<char>, Seq<char>)> {
    section_lookup(config_doc(text), "DispatchConfig"@)->Some_0
}

/// Its key-storage directory name.
pub open spec fn config_key_dir(text: Seq<char>) -> Seq<char> {
    field_lookup(config_dispatch_section(text), "KeyDirectory"@)->Some_0
}

/// Its declared region names: the top-level `Regions` list, comma-split.
pub open spec fn config_region_names(text: Seq<char>) -> Seq<Seq<char>> {
    split_commas(field_lookup(config_dispatch_section(text), "Regions"@)->Some_0)
}

/// The records of its RSA key manifest.
pub open spec fn config_manifest_records(
    text: Seq<char>,
    files: Seq<(Seq<char>, Option<Seq<u8>>)>,
) -> Seq<(u64, Seq<char>, Seq<char>)> {
    let name = field_lookup(config_dispatch_section(text), "RsaKeyConfig"@)->Some_0;
    manifest_records_of(
        utf8_decode(spec_read(files, config_key_dir(text), manifest_file_name(name))->Ok_0)->Some_0,
    )->Some_0
}

/// Every declared region loads, and declares the name it is listed under:
/// its section's `Name` field repeats the entry of the top-level list.
pub open spec fn regions_well_named(
    text: Seq<char>,
    files: Seq<(Seq<char>, Option<Seq<u8>>)>,
) -> bool {
    forall|i: int|
        0 <= i < config_region_names(text).len() ==> (#[trigger] spec_load_region(
            config_doc(text),
            files,
            config_key_dir(text),
            config_region_names(text)[i],
        ) matches Ok(r) && r.name == config_region_names(text)[i])
}

/// What binding a region does to every lookup: the bound name answers with
/// the new region, every other name as before.
proof fn lemma_region_insert_lookup(regs: Seq<RegionV>, r: RegionV, n: Seq<char>)
    ensures
        region_lookup(region_insert(regs, r), n) == (if n == r.name {
            Some(r)
        } else {
            region_lookup(regs, n)
        }),
    decreases regs.len(),
{
    if regs.len() == 0 {
        let s = seq![r];
        assert(region_insert(regs, r) == s);
        assert(s.len() == 1 && s[0] == r);
        assert(s.drop_first() =~= Seq::<RegionV>::empty());
        if n == r.name {
            assert(region_lookup(s, n) == Some(r));
        } else {
            assert(region_lookup(s, n) == region_lookup(s.drop_first(), n));
            assert(region_lookup(s, n) is None);
        }
    } else if regs[0].name == r.name {
        let s = seq![r] + regs.drop_first();
        assert(region_insert(regs, r) == s);
        assert(s.len() == regs.len() && s[0] == r);
        assert(s.drop_first() =~= regs.drop_first());
        if n == r.name {
            assert(region_lookup(s, n) == Some(r));
        } else {
            assert(region_lookup(s, n) == region_lookup(regs.drop_first(), n));
            assert(region_lookup(regs, n) == region_lookup(regs.drop_first(), n));
        }
    } else {
        let s = seq![regs[0]] + region_insert(regs.drop_first(), r);
        assert(region_insert(regs, r) == s);
        assert(s.len() == region_insert(regs.drop_first(), r).len() + 1 && s[0] == regs[0]);
        assert(s.drop_first() =~= region_insert(regs.drop_first(), r));
        lemma_region_insert_lookup(regs.drop_first(), r, n);
        if n == regs[0].name {
            assert(n != r.name);
            assert(region_lookup(s, n) == Some(regs[0]));
            assert(region_lookup(regs, n) == Some(regs[0]));
        } else {
            assert(region_lookup(s, n) == region_lookup(region_insert(regs.drop_first(), r), n));
            assert(region_lookup(regs, n) == region_lookup(regs.drop_first(), n));
        }
    }
}

/// Binding a fresh name grows the table by one entry; rebinding keeps its
/// size.
proof fn lemma_region_insert_len(regs: Seq<RegionV>, r: RegionV)
    ensures
        region_insert(regs, r).len() == (if region_lookup(regs, r.name) is Some {
            regs.len()
        } else {
            regs.len() + 1
        }),
    decreases regs.len(),
{
    if regs.len() > 0 && regs[0].name != r.name {
        lemma_region_insert_len(regs.drop_first(), r);
    }
}

/// Every entry of the table after a binding is the bound region or one that
/// was already there.
proof fn lemma_region_insert_member(regs: Seq<RegionV>, r: RegionV)
    ensures
        forall|k: int|
            0 <= k < region_insert(regs, r).len() ==> region_insert(regs, r)[k] == r
                || regs.contains(region_insert(regs, r)[k]),
    decreases regs.len(),
{
    if regs.len() == 0 {
    } else if regs[0].name == r.name {
        let s = seq![r] + regs.drop_first();
        assert forall|k: int| 0 <= k < s.len() implies s[k] == r || regs.contains(s[k]) by {
            if k > 0 {
                assert(s[k] == regs[k]);
            }
        }
    } else {
        let d = regs.drop_first();
        lemma_region_insert_member(d, r);
        let s = seq![regs[0]] + region_insert(d, r);
        assert forall|k: int| 0 <= k < s.len() implies s[k] == r || regs.contains(s[k]) by {
            if k == 0 {
                assert(regs.contains(regs[0]));
            } else {
                assert(s[k] == region_insert(d, r)[k - 1]);
                if region_insert(d, r)[k - 1] != r {
                    let j = choose|j: int| 0 <= j < d.len() && d[j] == region_insert(d, r)[k - 1];
                    assert(regs[j + 1] == d[j]);
                }
            }
        }
    }
}

/// Binding preserves a table in which every name is bound at most once.
proof fn lemma_region_insert_unique(regs: Seq<RegionV>, r: RegionV)
    requires
        forall|i: int, j: int| 0 <= i < j < regs.len() ==> regs[i].name != regs[j].name,
    ensures
        forall|i: int, j: int|
            0 <= i < j < region_insert(regs, r).len() ==> region_insert(regs, r)[i].name
                != region_insert(regs, r)[j].name,
    decreases regs.len(),
{
    if regs.len() == 0 {
    } else if regs[0].name == r.name {
        let s = seq![r] + regs.drop_first();
        assert forall|i: int, j: int| 0 <= i < j < s.len() implies s[i].name != s[j].name by {
            if i == 0 {
                assert(s[j] == regs[j]);
            } else {
                assert(s[i] == regs[i] && s[j] == regs[j]);
            }
        }
    } else {
        let d = regs.drop_first();
        assert(forall|j: int| 0 <= j < d.len() ==> d[j] == regs[j + 1]);
        lemma_region_insert_unique(d, r);
        lemma_region_insert_member(d, r);
        let s = seq![regs[0]] + region_insert(d, r);
        assert forall|i: int, j: int| 0 <= i < j < s.len() implies s[i].name != s[j].name by {
            if i == 0 {
                assert(s[j] == region_insert(d, r)[j - 1]);
                if region_insert(d, r)[j - 1] == r {
                } else {
                    let k = choose|k: int|
                        0 <= k < d.len() && d[k] == region_insert(d, r)[j - 1];
                    assert(regs[k + 1] == d[k]);
                }
            } else {
                assert(s[i] == region_insert(d, r)[i - 1]);
                assert(s[j] == region_insert(d, r)[j - 1]);
            }
        }
    }
}

/// Folding well-named regions: every listed name ends up bound to exactly
/// the region its section describes, and unlisted names keep their prior
/// binding.
proof fn lemma_regions_fold_lookup(
    doc: Seq<(Option<Seq<char>>, Seq<(Seq<char>, Seq<char>)>)>,
    files: Seq<(Seq<char>, Option<Seq<u8>>)>,
    dir: Seq<char>,
    pieces: Seq<Seq<char>>,
    acc: Seq<RegionV>,
)
    requires
        spec_load_regions(doc, files, dir, pieces, acc) is Ok,
        forall|i: int|
            0 <= i < pieces.len() ==> (#[trigger] spec_load_region(doc, files, dir, pieces[i]) matches Ok(
                r,
            ) && r.name == pieces[i]),
    ensures
        forall|i: int|
            0 <= i < pieces.len() ==> region_lookup(
                spec_load_regions(doc, files, dir, pieces, acc)->Ok_0,
                pieces[i],
            ) == Some(spec_load_region(doc, files, dir, pieces[i])->Ok_0),
        forall|n: Seq<char>|
            !pieces.contains(n) ==> region_lookup(
                spec_load_regions(doc, files, dir, pieces, acc)->Ok_0,
                n,
            ) == region_lookup(acc, n),
    decreases pieces.len(),
{
    if pieces.len() > 0 {
        let rest = pieces.drop_first();
        assert(forall|j: int| 0 <= j < rest.len() ==> rest[j] == pieces[j + 1]);
        let r0 = spec_load_region(doc, files, dir, pieces[0])->Ok_0;
        let acc1 = region_insert(acc, r0);
        lemma_regions_fold_lookup(doc, files, dir, rest, acc1);
        let result = spec_load_regions(doc, files, dir, pieces, acc)->Ok_0;
        assert forall|i: int|
            0 <= i < pieces.len() implies region_lookup(result, pieces[i]) == Some(
            spec_load_region(doc, files, dir, pieces[i])->Ok_0,
        ) by {
            if i == 0 {
                if rest.contains(pieces[0]) {
                    let j = choose|j: int| 0 <= j < rest.len() && rest[j] == pieces[0];
                    assert(region_lookup(result, rest[j]) == Some(
                        spec_load_region(doc, files, dir, rest[j])->Ok_0,
                    ));
                } else {
                    lemma_region_insert_lookup(acc, r0, pieces[0]);
                    assert(region_lookup(result, pieces[0]) == region_lookup(acc1, pieces[0]));
                }
            } else {
                assert(rest[i - 1] == pieces[i]);
            }
        }
        assert forall|n: Seq<char>| !pieces.contains(n) implies region_lookup(result, n)
            == region_lookup(acc, n) by {
            assert(!rest.contains(n)) by {
                if rest.contains(n) {
                    let j = choose|j: int| 0 <= j < rest.len() && rest[j] == n;
                    assert(pieces[j + 1] == n);
                }
            }
            assert(n != pieces[0]);
            lemma_region_insert_lookup(acc, r0, n);
        }
    }
}

/// Folding distinct, well-named regions into a table that binds none of them
/// yet grows it by exactly one entry per listed name.
proof fn lemma_regions_fold_count(
    doc: Seq<(Option<Seq<char>>, Seq<(Seq<char>, Seq<char>)>)>,
    files: Seq<(Seq<char>, Option<Seq<u8>>)>,
    dir: Seq<char>,
    pieces: Seq<Seq<char>>,
    acc: Seq<RegionV>,
)
    requires
        spec_load_regions(doc, files, dir, pieces, acc) is Ok,
        forall|i: int|
            0 <= i < pieces.len() ==> (#[trigger] spec_load_region(doc, files, dir, pieces[i]) matches Ok(
                r,
            ) && r.name == pieces[i]),
        forall|i: int, j: int| 0 <= i < j < pieces.len() ==> pieces[i] != pieces[j],
        forall|i: int| 0 <= i < pieces.len() ==> region_lookup(acc, pieces[i]) is None,
    ensures
        spec_load_regions(doc, files, dir, pieces, acc)->Ok_0.len() == acc.len() + pieces.len(),
    decreases pieces.len(),
{
    if pieces.len() > 0 {
        let rest = pieces.drop_first();
        assert(forall|j: int| 0 <= j < rest.len() ==> rest[j] == pieces[j + 1]);
        let r0 = spec_load_region(doc, files, dir, pieces[0])->Ok_0;
        let acc1 = region_insert(acc, r0);
        lemma_region_insert_len(acc, r0);
        assert(acc1.len() == acc.len() + 1);
        assert forall|i: int| 0 <= i < rest.len() implies region_lookup(acc1, rest[i]) is None by {
            lemma_region_insert_lookup(acc, r0, rest[i]);
            assert(rest[i] == pieces[i + 1]);
            assert(rest[i] != pieces[0]);
        }
        lemma_regions_fold_count(doc, files, dir, rest, acc1);
    }
}

/// Folding preserves unique region names.
proof fn lemma_regions_fold_unique(
    doc: Seq<(Option<Seq<char>>, Seq<(Seq<char>, Seq<char>)>)>,
    files: Seq<(Seq<char>, Option<Seq<u8>>)>,
    dir: Seq<char>,
    pieces: Seq<Seq<char>>,
    acc: Seq<RegionV>,
)
    requires
        spec_load_regions(doc, files, dir, pieces, acc) is Ok,
        forall|i: int, j: int| 0 <= i < j < acc.len() ==> acc[i].name != acc[j].name,
    ensures
        forall|i: int, j: int|
            0 <= i < j < spec_load_regions(doc, files, dir, pieces, acc)->Ok_0.len()
                ==> spec_load_regions(doc, files, dir, pieces, acc)->Ok_0[i].name
                != spec_load_regions(doc, files, dir, pieces, acc)->Ok_0[j].name,
    decreases pieces.len(),
{
    if pieces.len() > 0 {
        let r0 = spec_load_region(doc, files, dir, pieces[0])->Ok_0;
        lemma_region_insert_unique(acc, r0);
        lemma_regions_fold_unique(doc, files, dir, pieces.drop_first(), region_insert(acc, r0));
    }
}

/// A table built from a manifest holds one entry per record.
proof fn lemma_rsa_build_count(
    name: Seq<char>,
    records: Seq<(u64, Seq<char>, Seq<char>)>,
    acc: Seq<u8>,
)
    requires
        spec_build_rsa_table(name, records, acc) is Ok,
    ensures
        spec_build_rsa_table(name, records, acc)->Ok_0.len() == acc.len() + records.len(),
    decreases records.len(),
{
    if records.len() > 0 {
        lemma_rsa_build_count(
            name,
            records.drop_first(),
            acc + seq![records[0].0 as u8],
        );
    }
}

/// A table built from a manifest binds each key identifier once.
proof fn lemma_rsa_build_unique(
    name: Seq<char>,
    records: Seq<(u64, Seq<char>, Seq<char>)>,
    acc: Seq<u8>,
)
    requires
        spec_build_rsa_table(name, records, acc) is Ok,
        forall|i: int, j: int| 0 <= i < j < acc.len() ==> acc[i] != acc[j],
    ensures
        forall|i: int, j: int|
            0 <= i < j < spec_build_rsa_table(name, records, acc)->Ok_0.len()
                ==> spec_build_rsa_table(name, records, acc)->Ok_0[i]
                != spec_build_rsa_table(name, records, acc)->Ok_0[j],
    decreases records.len(),
{
    if records.len() > 0 {
        let id = records[0].0 as u8;
        let acc1 = acc + seq![id];
        assert(!acc.contains(id));
        assert forall|i: int, j: int| 0 <= i < j < acc1.len() implies acc1[i] != acc1[j] by {
            if j == acc.len() {
                assert(acc1[j] == id);
                assert(acc1[i] == acc[i]);
                assert(acc.contains(acc[i]));
            }
        }
        lemma_rsa_build_unique(name, records.drop_first(), acc1);
    }
}

/// A configuration that loads yields exactly one region table entry per name
/// in the top-level `Regions` list — provided the listed names are distinct
/// and each region's section declares the name it is listed under — and
/// exactly one RSA key table entry per manifest record.
pub proof fn lemma_load_counts(text: Seq<char>, files: Seq<(Seq<char>, Option<Seq<u8>>)>)
    requires
        spec_load(text, files) is Ok,
        regions_well_named(text, files),
        forall|i: int, j: int|
            0 <= i < j < config_region_names(text).len() ==> config_region_names(text)[i]
                != config_region_names(text)[j],
    ensures
        spec_load(text, files)->Ok_0.regions.len() == config_region_names(text).len(),
        spec_load(text, files)->Ok_0.rsa_keys.len() == config_manifest_records(text, files).len(),
{
    let doc = config_doc(text);
    let dir = config_key_dir(text);
    let names = config_region_names(text);
    assert forall|i: int| 0 <= i < names.len() implies region_lookup(
        Seq::<RegionV>::empty(),
        names[i],
    ) is None by {}
    lemma_regions_fold_count(doc, files, dir, names, Seq::empty());
    let records = config_manifest_records(text, files);
    lemma_rsa_build_count(
        field_lookup(config_dispatch_section(text), "RsaKeyConfig"@)->Some_0,
        records,
        Seq::empty(),
    );
}

/// Looking up any name declared in the top-level `Regions` list — all
/// regions well named — answers with exactly the values of that region's
/// configuration section: its name, title, type, gateserver address and
/// parsed port, and the key pair its `SecretKey` names.
pub proof fn lemma_region_lookup_matches_section(
    text: Seq<char>,
    files: Seq<(Seq<char>, Option<Seq<u8>>)>,
    m: Seq<char>,
)
    requires
        spec_load(text, files) is Ok,
        regions_well_named(text, files),
        config_region_names(text).contains(m),
    ensures
        region_lookup(spec_load(text, files)->Ok_0.regions, m) matches Some(r)
            && section_lookup(config_doc(text), m) matches Some(sec)
            && Some(r.name) == field_lookup(sec, "Name"@)
            && Some(r.title) == field_lookup(sec, "Title"@)
            && Some(r.r_type) == field_lookup(sec, "Type"@)
            && Some(r.gateserver_ip) == field_lookup(sec, "GateserverIp"@)
            && spec_parse_u32(field_lookup(sec, "GateserverPort"@)->Some_0) == Some(
            r.gateserver_port,
        )
            && spec_load_keys(files, config_key_dir(text), field_lookup(sec, "SecretKey"@)->Some_0)
            == Ok::<_, LoadErrV>(r.secret_key),
{
    let doc = config_doc(text);
    let dir = config_key_dir(text);
    let names = config_region_names(text);
    lemma_regions_fold_lookup(doc, files, dir, names, Seq::empty());
    let i = choose|i: int| 0 <= i < names.len() && names[i] == m;
    assert(region_lookup(spec_load(text, files)->Ok_0.regions, names[i]) == Some(
        spec_load_region(doc, files, dir, names[i])->Ok_0,
    ));
}

/// Once loaded, the RSA key table binds each key identifier at most once and
/// the region table each region name at most once: duplicates were either
/// rejected (key identifiers) or replaced (region rebindings).
pub proof fn lemma_load_tables_unique(text: Seq<char>, files: Seq<(Seq<char>, Option<Seq<u8>>)>)
    requires
        spec_load(text, files) is Ok,
    ensures
        forall|i: int, j: int|
            0 <= i < j < spec_load(text, files)->Ok_0.rsa_keys.len() ==> spec_load(
                text,
                files,
            )->Ok_0.rsa_keys[i] != spec_load(text, files)->Ok_0.rsa_keys[j],
        forall|i: int, j: int|
            0 <= i < j < spec_load(text, files)->Ok_0.regions.len() ==> spec_load(
                text,
                files,
            )->Ok_0.regions[i].name != spec_load(text, files)->Ok_0.regions[j].name,
{
    let doc = config_doc(text);
    let dir = config_key_dir(text);
    let names = config_region_names(text);
    lemma_rsa_build_unique(
        field_lookup(config_dispatch_section(text), "RsaKeyConfig"@)->Some_0,
        config_manifest_records(text, files),
        Seq::empty(),
    );
    lemma_regions_fold_unique(doc, files, dir, names, Seq::empty());
}

} // verus!
