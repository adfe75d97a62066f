//! The records the tool reads, shows and writes.
use vstd::prelude::*;

verus! {

/// One entry of a preset or an exported configuration.
#[derive(Debug)]
pub struct AppConfig {
    pub id: String,
    pub name: String,
    pub version: String,
    pub available_in_winget: bool,
    pub note: Option<String>,
}

/// A preset or exported configuration: the list of applications.
#[derive(Debug)]
pub struct Config {
    pub apps: Vec<AppConfig>,
}

/// An application as `winget`, the registry or the source index reports it.
#[derive(Debug)]
pub struct InstalledApp {
    pub name: String,
    pub id: String,
    pub version: String,
    pub source: String,
}

/// The text of an `InstalledApp`.
pub ghost struct AppRecord {
    pub name: Seq<char>,
    pub id: Seq<char>,
    pub version: Seq<char>,
    pub source: Seq<char>,
}

/// The content of an `AppConfig`.
pub ghost struct ConfigRecord {
    pub id: Seq<char>,
    pub name: Seq<char>,
    pub version: Seq<char>,
    pub available_in_winget: bool,
    pub note: Option<Seq<char>>,
}

impl View for InstalledApp {
    type V = AppRecord;

    open spec fn view(&self) -> AppRecord {
        AppRecord {
            name: self.name@,
            id: self.id@,
            version: self.version@,
            source: self.source@,
        }
    }
}

pub open spec fn note_view(note: Option<String>) -> Option<Seq<char>> {
    match note {
        Some(n) => Some(n@),
        None => None,
    }
}

impl View for AppConfig {
    type V = ConfigRecord;

    open spec fn view(&self) -> ConfigRecord {
        ConfigRecord {
            id: self.id@,
            name: self.name@,
            version: self.version@,
            available_in_winget: self.available_in_winget,
            note: note_view(self.note),
        }
    }
}

/// The records of a list of applications.
pub open spec fn records(v: Seq<InstalledApp>) -> Seq<AppRecord> {
    v.map_values(|a: InstalledApp| a@)
}

/// The records of a list of configuration entries.
pub open spec fn config_records(v: Seq<AppConfig>) -> Seq<ConfigRecord> {
    v.map_values(|a: AppConfig| a@)
}

impl InstalledApp {
    pub fn new(name: String, id: String, version: String, source: String) -> (res: Self)
        ensures
            res@ == (AppRecord { name: name@, id: id@, version: version@, source: source@ }),
    {
        InstalledApp { name, id, version, source }
    }

    /// An application with only an id and a name, the rest empty.
    pub fn with_id_and_name(id: &String, name: &String) -> (res: Self)
        ensures
            res@ == (AppRecord {
                name: name@,
                id: id@,
                version: Seq::empty(),
                source: Seq::empty(),
            }),
    {
        InstalledApp {
            name: name.clone(),
            id: id.clone(),
            version: String::new(),
            source: String::new(),
        }
    }
}

impl Clone for InstalledApp {
    fn clone(&self) -> (res: Self)
        ensures
            res@ == self@,
    {
        InstalledApp {
            name: self.name.clone(),
            id: self.id.clone(),
            version: self.version.clone(),
            source: self.source.clone(),
        }
    }
}

pub fn clone_note(note: &Option<String>) -> (res: Option<String>)
    ensures
        note_view(res) == note_view(*note),
{
    match note {
        Some(n) => Some(n.clone()),
        None => None,
    }
}

impl Clone for AppConfig {
    fn clone(&self) -> (res: Self)
        ensures
            res@ == self@,
    {
        AppConfig {
            id: self.id.clone(),
            name: self.name.clone(),
            version: self.version.clone(),
            available_in_winget: self.available_in_winget,
            note: clone_note(&self.note),
        }
    }
}

/// Copies a list of applications.
pub fn clone_apps(v: &Vec<InstalledApp>) -> (res: Vec<InstalledApp>)
    ensures
        records(res@) == records(v@),
{
    let mut out: Vec<InstalledApp> = Vec::new();
    let mut k: usize = 0;
    while k < v.len()
        invariant
            k <= v@.len(),
            records(out@) == records(v@).take(k as int),
        decreases v@.len() - k,
    {
        let ghost before = records(out@);
        out.push(v[k].clone());
        assert(records(out@) =~= before.push(v@[k as int]@));
        assert(records(v@).take(k + 1) =~= records(v@).take(k as int).push(v@[k as int]@));
        k = k + 1;
    }
    assert(records(v@).take(v@.len() as int) =~= records(v@));
    out
}

/// Copies a list of configuration entries.
pub fn clone_configs(v: &Vec<AppConfig>) -> (res: Vec<AppConfig>)
    ensures
        config_records(res@) == config_records(v@),
{
    let mut out: Vec<AppConfig> = Vec::new();
    let mut k: usize = 0;
    while k < v.len()
        invariant
            k <= v@.len(),
            config_records(out@) == config_records(v@).take(k as int),
        decreases v@.len() - k,
    {
        let ghost before = config_records(out@);
        out.push(v[k].clone());
        assert(config_records(out@) =~= before.push(v@[k as int]@));
        assert(config_records(v@).take(k + 1) =~= config_records(v@).take(k as int).push(
            v@[k as int]@,
        ));
        k = k + 1;
    }
    assert(config_records(v@).take(v@.len() as int) =~= config_records(v@));
    out
}

} // verus!
