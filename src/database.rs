use vstd::prelude::*;
use vstd::string::*;
use crate::directory::{Directory, FileId};

verus! {

/// The long identity of a crate: its display name and, for all but the standard
/// library, the identifier it was declared under.
#[derive(Clone, Debug)]
pub struct CrateInput {
    pub name: String,
    pub discriminator: Option<String>,
}

/// The interned identity of a crate in a database.
#[derive(Clone, Copy, Debug, PartialEq, Eq, Structural)]
pub struct CrateId {
    pub index: usize,
}

pub open spec fn opt_view(o: Option<String>) -> Option<Seq<char>> {
    match o {
        Some(s) => Some(s@),
        None => None,
    }
}

/// What identifies a crate: two crates with equal keys are the same crate.
pub open spec fn crate_key(c: CrateInput) -> (Seq<char>, Option<Seq<char>>) {
    (c.name@, opt_view(c.discriminator))
}

#[derive(Clone, Copy, Debug, PartialEq, Eq, Structural)]
pub enum Edition {
    V2023_01,
    V2023_10,
    V2023_11,
    V2024_07,
}

/// The settings of one crate.
#[derive(Clone, Debug)]
pub struct CrateSettings {
    /// A display name that overrides the crate's identifier.
    pub name: Option<String>,
    pub edition: Edition,
    /// Whether features that are still experimental are enabled.
    pub experimental_features: bool,
}

pub open spec fn settings_view(s: CrateSettings) -> (Option<Seq<char>>, Edition, bool) {
    (opt_view(s.name), s.edition, s.experimental_features)
}

pub open spec fn default_settings_view() -> (Option<Seq<char>>, Edition, bool) {
    (None, Edition::V2023_01, false)
}

pub open spec fn corelib_settings_view() -> (Option<Seq<char>>, Edition, bool) {
    (None, Edition::V2024_07, true)
}

impl CrateSettings {
    /// The settings of a crate that declares none.
    pub fn default_settings() -> (r: CrateSettings)
        ensures
            settings_view(r) == default_settings_view(),
    {
        CrateSettings { name: None, edition: Edition::V2023_01, experimental_features: false }
    }

    pub fn duplicate(&self) -> (r: CrateSettings)
        ensures
            settings_view(r) == settings_view(*self),
    {
        let name = match &self.name {
            Some(n) => Some(n.clone()),
            None => None,
        };
        CrateSettings { name, edition: self.edition, experimental_features: self.experimental_features }
    }
}

/// The settings of the standard library when it is compiled from source.
pub fn dev_corelib_crate_settings() -> (r: CrateSettings)
    ensures
        settings_view(r) == corelib_settings_view(),
{
    CrateSettings { name: None, edition: Edition::V2024_07, experimental_features: true }
}

/// Where a crate's root lives and how it is compiled.
pub struct CrateConfiguration {
    pub root: Directory,
    pub settings: CrateSettings,
}

/// The store that the rest of a compilation reads: the crates with their configurations,
/// the interned virtual files, and contents that replace on-disk files.
pub struct Database {
    crates: Vec<CrateInput>,
    configs: Vec<Option<CrateConfiguration>>,
    files: Vec<(String, String)>,
    overrides: Vec<(String, String)>,
}

pub open spec fn pair_view(e: (String, String)) -> (Seq<char>, Seq<char>) {
    (e.0@, e.1@)
}

impl Database {
    pub closed spec fn crate_keys(&self) -> Seq<(Seq<char>, Option<Seq<char>>)> {
        self.crates@.map_values(|c: CrateInput| crate_key(c))
    }

    pub closed spec fn configs(&self) -> Seq<Option<CrateConfiguration>> {
        self.configs@
    }

    /// The interned virtual files, as name and content.
    pub closed spec fn files(&self) -> Seq<(Seq<char>, Seq<char>)> {
        self.files@.map_values(|e: (String, String)| pair_view(e))
    }

    /// Contents that replace files on disk, by absolute path.
    pub closed spec fn overrides(&self) -> Seq<(Seq<char>, Seq<char>)> {
        self.overrides@.map_values(|e: (String, String)| pair_view(e))
    }

    pub open spec fn wf(&self) -> bool {
        &&& self.crate_keys().len() == self.configs().len()
        &&& forall|i: int, j: int|
            0 <= i < self.crate_keys().len() && 0 <= j < self.crate_keys().len() && i != j
                ==> #[trigger] self.crate_keys()[i] != #[trigger] self.crate_keys()[j]
    }

    pub open spec fn has_crate(&self, key: (Seq<char>, Option<Seq<char>>)) -> bool {
        exists|i: int| 0 <= i < self.crate_keys().len() && #[trigger] self.crate_keys()[i] == key
    }

    /// The configuration registered for the crate with this key, if any.
    pub open spec fn config_of(&self, key: (Seq<char>, Option<Seq<char>>)) -> Option<CrateConfiguration> {
        if self.has_crate(key) {
            self.configs()[choose|i: int| 0 <= i < self.crate_keys().len() && #[trigger] self.crate_keys()[i] == key]
        } else {
            None
        }
    }

    pub fn new() -> (r: Database)
        ensures
            r.wf(),
            r.crate_keys().len() == 0,
            r.files().len() == 0,
            r.overrides().len() == 0,
    {
        let r = Database { crates: Vec::new(), configs: Vec::new(), files: Vec::new(), overrides: Vec::new() };
        assert(r.crate_keys() =~= Seq::<(Seq<char>, Option<Seq<char>>)>::empty());
        assert(r.files() =~= Seq::<(Seq<char>, Seq<char>)>::empty());
        assert(r.overrides() =~= Seq::<(Seq<char>, Seq<char>)>::empty());
        r
    }

    /// The interned identity of `c`: the one it already had, or a new one without a
    /// configuration.
    pub fn intern_crate(&mut self, c: CrateInput) -> (r: CrateId)
        requires
            old(self).wf(),
        ensures
            final(self).wf(),
            r.index < final(self).crate_keys().len(),
            final(self).crate_keys()[r.index as int] == crate_key(c),
            final(self).crate_keys().len() >= old(self).crate_keys().len(),
            forall|i: int| 0 <= i < old(self).crate_keys().len() ==> #[trigger] final(self).crate_keys()[i] == old(self).crate_keys()[i],
            final(self).files() == old(self).files(),
            final(self).overrides() == old(self).overrides(),
            forall|k: (Seq<char>, Option<Seq<char>>)| #[trigger] final(self).config_of(k) == old(self).config_of(k),
            forall|k: (Seq<char>, Option<Seq<char>>)| #[trigger] final(self).has_crate(k) == (old(self).has_crate(k) || k == crate_key(c)),
    {
        let n = self.crates.len();
        let mut i: usize = 0;
        while i < n
            invariant
                n == self.crates@.len(),
                n == self.crate_keys().len(),
                self.wf(),
                i <= n,
                forall|j: int| 0 <= j < i ==> #[trigger] self.crate_keys()[j] != crate_key(c),
            decreases n - i,
        {
            let e = &self.crates[i];
            let same_disc = match (&e.discriminator, &c.discriminator) {
                (Some(a), Some(b)) => *a == *b,
                (None, None) => true,
                _ => false,
            };
            if e.name == c.name && same_disc {
                assert(self.crate_keys()[i as int] == crate_key(c));
                return CrateId { index: i };
            }
            assert(self.crate_keys()[i as int] == crate_key(self.crates@[i as int]));
            i = i + 1;
        }
        let ghost old_self = *self;
        self.crates.push(c);
        self.configs.push(None);
        proof {
            assert(self.crate_keys() =~= old_self.crate_keys().push(crate_key(c)));
            assert(self.configs() =~= old_self.configs().push(None));
            assert(!old_self.has_crate(crate_key(c)));
            assert forall|k: (Seq<char>, Option<Seq<char>>)| #[trigger] self.has_crate(k) == (old_self.has_crate(k) || k == crate_key(c)) by {
                if old_self.has_crate(k) {
                    let j = choose|j: int| 0 <= j < old_self.crate_keys().len() && #[trigger] old_self.crate_keys()[j] == k;
                    assert(self.crate_keys()[j] == k);
                }
                if k == crate_key(c) {
                    assert(self.crate_keys()[n as int] == k);
                }
                if self.has_crate(k) && k != crate_key(c) {
                    let j = choose|j: int| 0 <= j < self.crate_keys().len() && #[trigger] self.crate_keys()[j] == k;
                    assert(old_self.crate_keys()[j] == k);
                }
            }
            assert forall|k: (Seq<char>, Option<Seq<char>>)| #[trigger] self.config_of(k) == old_self.config_of(k) by {
                if old_self.has_crate(k) {
                    let j = choose|j: int| 0 <= j < old_self.crate_keys().len() && #[trigger] old_self.crate_keys()[j] == k;
                    let j2 = choose|j: int| 0 <= j < self.crate_keys().len() && #[trigger] self.crate_keys()[j] == k;
                    assert(self.crate_keys()[j] == k);
                    assert(j2 == j);
                } else if k == crate_key(c) {
                    let j2 = choose|j: int| 0 <= j < self.crate_keys().len() && #[trigger] self.crate_keys()[j] == k;
                    assert(self.crate_keys()[n as int] == k);
                    assert(j2 == n);
                }
            }
        }
        CrateId { index: n }
    }

    /// The long identity of the interned crate `id`.
    pub fn crate_input(&self, id: CrateId) -> (r: CrateInput)
        requires
            id.index < self.crate_keys().len(),
        ensures
            crate_key(r) == self.crate_keys()[id.index as int],
    {
        let c = &self.crates[id.index];
        let discriminator = match &c.discriminator {
            Some(d) => Some(d.clone()),
            None => None,
        };
        CrateInput { name: c.name.clone(), discriminator }
    }

    /// Registers `config` for the crate `id`, replacing the one it had.
    pub fn set_crate_config(&mut self, id: CrateId, config: CrateConfiguration)
        requires
            old(self).wf(),
            id.index < old(self).crate_keys().len(),
        ensures
            final(self).wf(),
            final(self).crate_keys() == old(self).crate_keys(),
            final(self).files() == old(self).files(),
            final(self).overrides() == old(self).overrides(),
            forall|k: (Seq<char>, Option<Seq<char>>)| #[trigger] final(self).config_of(k) == if k == old(self).crate_keys()[id.index as int] {
                Some(config)
            } else {
                old(self).config_of(k)
            },
    {
        let ghost old_self = *self;
        self.configs.set(id.index, Some(config));
        proof {
            assert(self.crate_keys() =~= old_self.crate_keys());
            assert forall|k: (Seq<char>, Option<Seq<char>>)| #[trigger] self.config_of(k) == if k == old_self.crate_keys()[id.index as int] {
                Some(config)
            } else {
                old_self.config_of(k)
            } by {
                assert(self.has_crate(k) == old_self.has_crate(k));
                if k == old_self.crate_keys()[id.index as int] {
                    let j = choose|j: int| 0 <= j < self.crate_keys().len() && #[trigger] self.crate_keys()[j] == k;
                    assert(self.has_crate(k));
                    assert(j == id.index);
                } else if self.has_crate(k) {
                    let j = choose|j: int| 0 <= j < self.crate_keys().len() && #[trigger] self.crate_keys()[j] == k;
                    assert(j != id.index);
                }
            }
        }
    }

    /// The handle of the virtual file `name` with `content`: the one it already had, or a
    /// new one.
    pub fn intern_file(&mut self, name: &str, content: &str) -> (r: FileId)
        requires
            old(self).wf(),
        ensures
            final(self).wf(),
            final(self).crate_keys() == old(self).crate_keys(),
            final(self).configs() == old(self).configs(),
            final(self).overrides() == old(self).overrides(),
            final(self).files().len() >= old(self).files().len(),
            forall|i: int| 0 <= i < old(self).files().len() ==> #[trigger] final(self).files()[i] == old(self).files()[i],
            r.index < final(self).files().len(),
            final(self).files()[r.index as int] == (name@, content@),
            forall|k: (Seq<char>, Option<Seq<char>>)| #[trigger] final(self).config_of(k) == old(self).config_of(k),
    {
        let n = self.files.len();
        let name_s = String::from_str(name);
        let content_s = String::from_str(content);
        let mut i: usize = 0;
        while i < n
            invariant
                n == self.files@.len(),
                i <= n,
                self.wf(),
                name_s@ == name@,
                content_s@ == content@,
            decreases n - i,
        {
            if self.files[i].0 == name_s && self.files[i].1 == content_s {
                assert(self.files@[i as int].0@ == name@);
                assert(self.files@[i as int].1@ == content@);
                assert(self.files()[i as int] == pair_view(self.files@[i as int]));
                return FileId { index: i };
            }
            i = i + 1;
        }
        let ghost old_self = *self;
        self.files.push((name_s, content_s));
        assert(self.files() =~= old_self.files().push((name@, content@)));
        FileId { index: n }
    }

    /// Replaces, for the rest of the session, the content of the file on disk at `path`.
    pub fn override_file_content(&mut self, path: String, content: String)
        requires
            old(self).wf(),
        ensures
            final(self).wf(),
            final(self).crate_keys() == old(self).crate_keys(),
            final(self).configs() == old(self).configs(),
            final(self).files() == old(self).files(),
            final(self).overrides() == old(self).overrides().push((path@, content@)),
    {
        let ghost old_self = *self;
        self.overrides.push((path, content));
        assert(self.overrides() =~= old_self.overrides().push((path@, content@)));
    }

    /// The content of the interned virtual file `id`.
    pub fn file_content(&self, id: FileId) -> (r: Option<&str>)
        ensures
            match r {
                Some(s) => id.index < self.files().len() && s@ == self.files()[id.index as int].1,
                None => id.index >= self.files().len(),
            },
    {
        if id.index < self.files.len() {
            Some(self.files[id.index].1.as_str())
        } else {
            None
        }
    }

    /// The content that replaced the file on disk at `path`, the latest if several did.
    pub fn overridden_content(&self, path: &str) -> (r: Option<&str>)
        ensures
            match r {
                Some(s) => self.overrides().contains((path@, s@)),
                None => forall|i: int| 0 <= i < self.overrides().len() ==> (#[trigger] self.overrides()[i]).0 != path@,
            },
    {
        let key = String::from_str(path);
        let mut i: usize = self.overrides.len();
        while i > 0
            invariant
                i <= self.overrides@.len(),
                key@ == path@,
                forall|j: int| i <= j < self.overrides().len() ==> (#[trigger] self.overrides()[j]).0 != path@,
            decreases i,
        {
            let e = &self.overrides[i - 1];
            assert(self.overrides()[i - 1] == pair_view(self.overrides@[i - 1]));
            if e.0 == key {
                return Some(e.1.as_str());
            }
            i = i - 1;
        }
        None
    }

    /// The configuration registered for `c`, if any.
    pub fn crate_config(&self, c: &CrateInput) -> (r: Option<&CrateConfiguration>)
        requires
            self.wf(),
        ensures
            r == match self.config_of(crate_key(*c)) {
                Some(x) => Some(&x),
                None => None::<&CrateConfiguration>,
            },
    {
        let n = self.crates.len();
        let mut i: usize = 0;
        while i < n
            invariant
                n == self.crates@.len(),
                n == self.crate_keys().len(),
                n == self.configs@.len(),
                self.wf(),
                i <= n,
                forall|j: int| 0 <= j < i ==> #[trigger] self.crate_keys()[j] != crate_key(*c),
            decreases n - i,
        {
            let e = &self.crates[i];
            let same_disc = match (&e.discriminator, &c.discriminator) {
                (Some(a), Some(b)) => *a == *b,
                (None, None) => true,
                _ => false,
            };
            assert(self.crate_keys()[i as int] == crate_key(self.crates@[i as int]));
            if e.name == c.name && same_disc {
                proof {
                    assert(self.has_crate(crate_key(*c)));
                    let j = choose|j: int| 0 <= j < self.crate_keys().len() && #[trigger] self.crate_keys()[j] == crate_key(*c);
                    assert(j == i);
                }
                return match &self.configs[i] {
                    Some(x) => Some(x),
                    None => None,
                };
            }
            i = i + 1;
        }
        None
    }
}

} // verus!
