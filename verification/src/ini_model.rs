use vstd::prelude::*;

verus! {

/// What INI text parses to: `None` if malformed, else the sections in file
/// order, each carrying its name (`None` for the unnamed leading section)
/// and its `key = value` entries in file order.
pub uninterp spec fn ini_doc_of(text: Seq<char>) -> Option<
    Seq<(Option<Seq<char>>, Seq<(Seq<char>, Seq<char>)>)>,
>;

/// Relies on `ini::Ini::load_from_str` and `ini::Ini::iter`: what INI text
/// parses to depends on the text alone; iteration yields the sections in
/// insertion order and each section's entries in insertion order, so a
/// first-match lookup over the converted document answers as the parser's
/// own `section` and `get` do.
#[verifier::external_body]
pub(crate) fn parse_ini(text: &str) -> (r: Result<IniDoc, ()>)
    ensures
        r is Ok <==> ini_doc_of(text@) is Some,
        r matches Ok(doc) ==> Some(doc@) == ini_doc_of(text@),
{
    let parsed = ini::Ini::load_from_str(text).map_err(|_| ())?;
    Ok(IniDoc {
        sections: parsed.iter().map(|(name, props)| IniSection {
            name: name.map(str::to_owned),
            entries: props.iter().map(|(k, v)| IniEntry { key: k.to_owned(), value: v.to_owned() })
                .collect(),
        }).collect(),
    })
}

/// One `key = value` entry of a configuration section, in file order.
pub struct IniEntry {
    pub key: String,
    pub value: String,
}

/// One configuration section: its name (`None` for the unnamed leading
/// section) and its entries in file order.
pub struct IniSection {
    pub name: Option<String>,
    pub entries: Vec<IniEntry>,
}

/// A parsed configuration source: its sections in file order.
pub struct IniDoc {
    pub sections: Vec<IniSection>,
}

impl View for IniEntry {
    type V = (Seq<char>, Seq<char>);

    open spec fn view(&self) -> (Seq<char>, Seq<char>) {
        (self.key@, self.value@)
    }
}

impl View for IniSection {
    type V = (Option<Seq<char>>, Seq<(Seq<char>, Seq<char>)>);

    open spec fn view(&self) -> (Option<Seq<char>>, Seq<(Seq<char>, Seq<char>)>) {
        (
            match self.name {
                Some(ref n) => Some(n@),
                None => None,
            },
            self.entries@.map_values(|e: IniEntry| e@),
        )
    }
}

impl View for IniDoc {
    type V = Seq<(Option<Seq<char>>, Seq<(Seq<char>, Seq<char>)>)>;

    open spec fn view(&self) -> Seq<(Option<Seq<char>>, Seq<(Seq<char>, Seq<char>)>)> {
        self.sections@.map_values(|s: IniSection| s@)
    }
}

/// The value bound to `key` in a section's entry list: the first binding in
/// file order, or `None` if the key is absent.
pub open spec fn field_lookup(entries: Seq<(Seq<char>, Seq<char>)>, key: Seq<char>) -> Option<
    Seq<char>,
>
    decreases entries.len(),
{
    if entries.len() == 0 {
        None
    } else if entries[0].0 == key {
        Some(entries[0].1)
    } else {
        field_lookup(entries.drop_first(), key)
    }
}

/// The entry list of the first section named `name`, or `None` if no section
/// carries that name.
pub open spec fn section_lookup(
    doc: Seq<(Option<Seq<char>>, Seq<(Seq<char>, Seq<char>)>)>,
    name: Seq<char>,
) -> Option<Seq<(Seq<char>, Seq<char>)>>
    decreases doc.len(),
{
    if doc.len() == 0 {
        None
    } else if doc[0].0 == Some(name) {
        Some(doc[0].1)
    } else {
        section_lookup(doc.drop_first(), name)
    }
}

impl IniSection {
    /// Looks `key` up among this section's entries; first binding wins.
    pub fn get<'a>(&'a self, key: &str) -> (r: Option<&'a String>)
        ensures
            match r {
                Some(v) => field_lookup(self@.1, key@) == Some(v@),
                None => field_lookup(self@.1, key@) is None,
            },
    {
        let want: String = key.to_owned();
        let n = self.entries.len();
        proof {
            assert(self@.1.skip(0) =~= self@.1);
        }
        for i in 0..n
            invariant
                n == self.entries.len(),
                want@ == key@,
                field_lookup(self@.1, key@) == field_lookup(
                    self@.1.skip(i as int),
                    key@,
                ),
        {
            proof {
                assert(self@.1.skip(i as int)[0] == self@.1[i as int]);
                assert(self@.1.skip(i as int).drop_first() =~= self@.1.skip(i + 1));
            }
            if self.entries[i].key == want {
                return Some(&self.entries[i].value);
            }
        }
        proof {
            assert(self@.1.skip(n as int) =~= Seq::<(Seq<char>, Seq<char>)>::empty());
        }
        None
    }
}

impl IniDoc {
    /// Looks up the first section named `name`.
    pub fn section<'a>(&'a self, name: &str) -> (r: Option<&'a IniSection>)
        ensures
            match r {
                Some(s) => section_lookup(self@, name@) == Some(s@.1) && s@.0 == Some(name@),
                None => section_lookup(self@, name@) is None,
            },
    {
        let want: String = name.to_owned();
        let n = self.sections.len();
        proof {
            assert(self@.skip(0) =~= self@);
        }
        for i in 0..n
            invariant
                n == self.sections.len(),
                want@ == name@,
                section_lookup(self@, name@) == section_lookup(self@.skip(i as int), name@),
        {
            proof {
                assert(self@.skip(i as int)[0] == self@[i as int]);
                assert(self@.skip(i as int).drop_first() =~= self@.skip(i + 1));
            }
            let hit = match self.sections[i].name {
                Some(ref sec_name) => *sec_name == want,
                None => false,
            };
            if hit {
                return Some(&self.sections[i]);
            }
        }
        proof {
            assert(self@.skip(n as int) =~= Seq::<
                (Option<Seq<char>>, Seq<(Seq<char>, Seq<char>)>),
            >::empty());
        }
        None
    }
}

} // verus!
