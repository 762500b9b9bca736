use vstd::prelude::*;
use vstd::string::*;
use crate::database::{settings_view, CrateConfiguration, CrateId, CrateInput, CrateSettings, Database};
use crate::directory::Directory;
use crate::project::corelib_name;

verus! {

/// Settings for every crate, with overrides by crate identifier.
pub struct CratesConfig {
    pub global: CrateSettings,
    pub overrides: Vec<(String, CrateSettings)>,
}

/// A project manifest, as loaded from a project directory.
pub struct ProjectConfig {
    /// The directory that relative crate roots are resolved against.
    pub base_path: String,
    /// The declared crates: identifier and root directory.
    pub crate_roots: Vec<(String, String)>,
    pub crates_config: CratesConfig,
}

/// Why a project manifest could not be loaded.
#[derive(Clone, Debug)]
pub struct DeserializationError {
    pub message: String,
}

/// The settings that apply to `id`: its first override, else the global ones.
pub open spec fn lookup_settings(ov: Seq<(String, CrateSettings)>, id: Seq<char>, global: CrateSettings) -> CrateSettings
    decreases ov.len(),
{
    if ov.len() == 0 {
        global
    } else if ov[0].0@ == id {
        ov[0].1
    } else {
        lookup_settings(ov.drop_first(), id, global)
    }
}

pub open spec fn settings_for(c: CratesConfig, id: Seq<char>) -> CrateSettings {
    lookup_settings(c.overrides@, id, c.global)
}

/// The display name of the crate declared as `id`.
pub open spec fn resolved_name(c: CratesConfig, id: Seq<char>) -> Seq<char> {
    match settings_for(c, id).name {
        Some(n) => n@,
        None => id,
    }
}

/// The identity of the crate declared as `id`: its display name, and the identifier as
/// discriminator unless the name is the standard library's.
pub open spec fn resolved_key(c: CratesConfig, id: Seq<char>) -> (Seq<char>, Option<Seq<char>>) {
    let name = resolved_name(c, id);
    (name, if name == corelib_name() { None } else { Some(id) })
}

/// Where a crate root declared as `rel` lies: `rel` itself when absolute, else under `base`.
pub open spec fn absolute_root(base: Seq<char>, rel: Seq<char>) -> Seq<char> {
    if rel.len() > 0 && rel[0] == '/' {
        rel
    } else if base.len() > 0 && base.last() == '/' {
        base + rel
    } else {
        base + seq!['/'] + rel
    }
}

impl CratesConfig {
    /// The settings that apply to the crate declared as `id`.
    pub fn get(&self, id: &str) -> (r: &CrateSettings)
        ensures
            *r == settings_for(*self, id@),
    {
        let n = self.overrides.len();
        let mut i: usize = 0;
        let key = String::from_str(id);
        assert(self.overrides@.subrange(0, n as int) =~= self.overrides@);
        while i < n
            invariant
                n == self.overrides@.len(),
                i <= n,
                key@ == id@,
                settings_for(*self, id@) == lookup_settings(self.overrides@.subrange(i as int, n as int), id@, self.global),
            decreases n - i,
        {
            let ghost rest = self.overrides@.subrange(i as int, n as int);
            assert(rest[0] == self.overrides@[i as int]);
            if self.overrides[i].0 == key {
                return &self.overrides[i].1;
            }
            assert(rest.drop_first() =~= self.overrides@.subrange(i + 1, n as int));
            i = i + 1;
        }
        &self.global
    }
}

impl ProjectConfig {
    /// The absolute directory of a crate root declared as `rel`.
    pub fn absolute_crate_root(&self, rel: &str) -> (r: String)
        ensures
            r@ == absolute_root(self.base_path@, rel@),
    {
        let n = rel.unicode_len();
        if n > 0 && rel.get_char(0) == '/' {
            return String::from_str(rel);
        }
        let m = self.base_path.as_str().unicode_len();
        if m > 0 && self.base_path.as_str().get_char(m - 1) == '/' {
            self.base_path.clone().concat(rel)
        } else {
            let r = self.base_path.clone().concat("/").concat(rel);
            proof {
                reveal_strlit("/");
            }
            r
        }
    }
}

/// Resolves the crate declared as `crate_identifier`: its identity in `db` and its settings.
pub fn get_crate_id_and_settings<'a>(
    db: &mut Database,
    crate_identifier: &String,
    config: &'a ProjectConfig,
) -> (r: (CrateId, &'a CrateSettings))
    requires
        old(db).wf(),
    ensures
        final(db).wf(),
        r.0.index < final(db).crate_keys().len(),
        final(db).crate_keys()[r.0.index as int] == resolved_key(config.crates_config, crate_identifier@),
        final(db).crate_keys().len() >= old(db).crate_keys().len(),
        forall|i: int| 0 <= i < old(db).crate_keys().len() ==> #[trigger] final(db).crate_keys()[i] == old(db).crate_keys()[i],
        *r.1 == settings_for(config.crates_config, crate_identifier@),
        final(db).files() == old(db).files(),
        final(db).overrides() == old(db).overrides(),
        forall|k: (Seq<char>, Option<Seq<char>>)| #[trigger] final(db).config_of(k) == old(db).config_of(k),
{
    let crate_settings = config.crates_config.get(crate_identifier.as_str());
    let name = match &crate_settings.name {
        Some(n) => n.clone(),
        None => crate_identifier.clone(),
    };
    let discriminator = if name == String::from_str("core") {
        None
    } else {
        Some(crate_identifier.clone())
    };
    let crate_id = db.intern_crate(CrateInput { name, discriminator });
    (crate_id, crate_settings)
}

/// Registers the crate declared as `crate_identifier` with the root `root` and the
/// settings the manifest gives it.
pub fn update_crate_root(
    db: &mut Database,
    config: &ProjectConfig,
    crate_identifier: &String,
    root: Directory,
)
    requires
        old(db).wf(),
    ensures
        final(db).wf(),
        final(db).files() == old(db).files(),
        final(db).overrides() == old(db).overrides(),
        forall|k: (Seq<char>, Option<Seq<char>>)| #[trigger] final(db).config_of(k) == if k == resolved_key(
            config.crates_config,
            crate_identifier@,
        ) {
            final(db).config_of(k)
        } else {
            old(db).config_of(k)
        },
        final(db).config_of(resolved_key(config.crates_config, crate_identifier@)) matches Some(c) && c.root
            == root && settings_view(c.settings) == settings_view(settings_for(config.crates_config, crate_identifier@)),
{
    let (crate_id, crate_settings) = get_crate_id_and_settings(db, crate_identifier, config);
    db.set_crate_config(crate_id, CrateConfiguration { root, settings: crate_settings.duplicate() });
}

/// The registration that the roots `roots[..n]` leave for the crate `k`: that of the
/// last root resolving to `k`.
pub open spec fn last_root_for(
    c: CratesConfig,
    roots: Seq<(String, String)>,
    k: (Seq<char>, Option<Seq<char>>),
    n: int,
) -> Option<int>
    decreases n,
{
    if n <= 0 {
        None
    } else if resolved_key(c, roots[n - 1].0@) == k {
        Some(n - 1)
    } else {
        last_root_for(c, roots, k, n - 1)
    }
}

/// `cfg` registers the crate root `rel` under `base` with the settings of `id`.
pub open spec fn real_root_config(cfg: Option<CrateConfiguration>, config: ProjectConfig, j: int) -> bool {
    match cfg {
        Some(x) => match x.root {
            Directory::Real(p) => p@ == absolute_root(config.base_path@, config.crate_roots@[j].1@)
                && settings_view(x.settings) == settings_view(settings_for(config.crates_config, config.crate_roots@[j].0@)),
            Directory::Virtual(_) => false,
        },
        None => false,
    }
}

/// Registers every crate root that the manifest declares, as a directory on disk.
pub fn update_crate_roots_from_project_config(db: &mut Database, config: &ProjectConfig)
    requires
        old(db).wf(),
    ensures
        final(db).wf(),
        final(db).files() == old(db).files(),
        final(db).overrides() == old(db).overrides(),
        forall|k: (Seq<char>, Option<Seq<char>>)| match #[trigger] last_root_for(
            config.crates_config,
            config.crate_roots@,
            k,
            config.crate_roots@.len() as int,
        ) {
            Some(j) => real_root_config(final(db).config_of(k), *config, j),
            None => final(db).config_of(k) == old(db).config_of(k),
        },
{
    let ghost db0 = *db;
    let n = config.crate_roots.len();
    let mut i: usize = 0;
    while i < n
        invariant
            n == config.crate_roots@.len(),
            i <= n,
            db.wf(),
            db.files() == db0.files(),
            db.overrides() == db0.overrides(),
            forall|k: (Seq<char>, Option<Seq<char>>)| match #[trigger] last_root_for(
                config.crates_config,
                config.crate_roots@,
                k,
                i as int,
            ) {
                Some(j) => real_root_config(db.config_of(k), *config, j),
                None => db.config_of(k) == db0.config_of(k),
            },
        decreases n - i,
    {
        let entry = &config.crate_roots[i];
        let root = Directory::Real(config.absolute_crate_root(entry.1.as_str()));
        let ghost before = *db;
        update_crate_root(db, config, &entry.0, root);
        proof {
            let key_i = resolved_key(config.crates_config, config.crate_roots@[i as int].0@);
            assert forall|k: (Seq<char>, Option<Seq<char>>)| match #[trigger] last_root_for(
                config.crates_config,
                config.crate_roots@,
                k,
                i + 1,
            ) {
                Some(j) => real_root_config(db.config_of(k), *config, j),
                None => db.config_of(k) == db0.config_of(k),
            } by {
                if k == key_i {
                    assert(last_root_for(config.crates_config, config.crate_roots@, k, i + 1) == Some(i as int));
                } else {
                    assert(last_root_for(config.crates_config, config.crate_roots@, k, i + 1) == last_root_for(
                        config.crates_config,
                        config.crate_roots@,
                        k,
                        i as int,
                    ));
                    assert(db.config_of(k) == before.config_of(k));
                }
            }
        }
        i = i + 1;
    }
}

/// The identities of the crates that the manifest declares, in its order.
pub fn get_main_crate_ids_from_project(db: &mut Database, config: &ProjectConfig) -> (r: Vec<CrateId>)
    requires
        old(db).wf(),
    ensures
        final(db).wf(),
        final(db).files() == old(db).files(),
        final(db).overrides() == old(db).overrides(),
        forall|k: (Seq<char>, Option<Seq<char>>)| #[trigger] final(db).config_of(k) == old(db).config_of(k),
        r@.len() == config.crate_roots@.len(),
        forall|i: int| 0 <= i < r@.len() ==> (#[trigger] r@[i]).index < final(db).crate_keys().len()
            && final(db).crate_keys()[r@[i].index as int] == resolved_key(config.crates_config, config.crate_roots@[i].0@),
{
    let ghost db0 = *db;
    let n = config.crate_roots.len();
    let mut ids: Vec<CrateId> = Vec::new();
    let mut i: usize = 0;
    while i < n
        invariant
            n == config.crate_roots@.len(),
            i <= n,
            ids@.len() == i,
            db.wf(),
            db.files() == db0.files(),
            db.overrides() == db0.overrides(),
            forall|k: (Seq<char>, Option<Seq<char>>)| #[trigger] db.config_of(k) == db0.config_of(k),
            forall|j: int| 0 <= j < i ==> (#[trigger] ids@[j]).index < db.crate_keys().len()
                && db.crate_keys()[ids@[j].index as int] == resolved_key(config.crates_config, config.crate_roots@[j].0@),
        decreases n - i,
    {
        let ghost before = *db;
        let (id, _) = get_crate_id_and_settings(db, &config.crate_roots[i].0, config);
        proof {
            assert forall|j: int| 0 <= j < i implies (#[trigger] ids@[j]).index < db.crate_keys().len()
                && db.crate_keys()[ids@[j].index as int] == resolved_key(config.crates_config, config.crate_roots@[j].0@) by {
                assert(before.crate_keys().len() <= db.crate_keys().len());
            }
        }
        ids.push(id);
        i = i + 1;
    }
    ids
}

} // verus!
