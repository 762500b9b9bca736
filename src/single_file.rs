use vstd::prelude::*;
use vstd::string::*;
use crate::config::{
    absolute_root, get_main_crate_ids_from_project, last_root_for, real_root_config, resolved_key,
    update_crate_roots_from_project_config, DeserializationError, ProjectConfig,
};
use crate::database::{
    crate_key, default_settings_view, settings_view, CrateConfiguration, CrateInput, CrateSettings, Database,
};
use crate::directory::Directory;

verus! {

/// Why a project on disk could not be set up.
#[derive(Clone, Debug)]
pub enum ProjectError {
    /// Only files with the `.cairo` extension can be compiled.
    BadFileExtension,
    NoSuchFile { path: String },
    /// The path could not be made canonical, or has no parent.
    BadPath { path: String },
    LoadProjectError(DeserializationError),
}

/// What the file system says of a single source file.
pub struct SingleFile {
    /// The path as given.
    pub path: String,
    /// Whether something exists at `path`.
    pub exists: bool,
    /// The canonical absolute form of `path`, if it could be made.
    pub canonical: Option<String>,
}

/// What a project on disk is set up from.
pub enum ProjectSource {
    /// A directory: its manifest, or why it could not be loaded.
    Manifest(Result<ProjectConfig, DeserializationError>),
    /// A single source file.
    SingleFile(SingleFile),
}

/// The index of the last `c` in `p`, or -1.
pub open spec fn last_index(p: Seq<char>, c: char) -> int
    decreases p.len(),
{
    if p.len() == 0 {
        -1
    } else if p.last() == c {
        p.len() - 1
    } else {
        last_index(p.drop_last(), c)
    }
}

pub open spec fn file_name(p: Seq<char>) -> Seq<char> {
    p.subrange(last_index(p, '/') + 1, p.len() as int)
}

/// The part of a file name after its last dot, unless that dot starts the name.
pub open spec fn extension(name: Seq<char>) -> Option<Seq<char>> {
    let d = last_index(name, '.');
    if d <= 0 {
        None
    } else {
        Some(name.subrange(d + 1, name.len() as int))
    }
}

/// The part of a file name before its extension.
pub open spec fn stem(name: Seq<char>) -> Seq<char> {
    let d = last_index(name, '.');
    if d <= 0 {
        name
    } else {
        name.subrange(0, d)
    }
}

/// The directory that holds `p`, if `p` has one.
pub open spec fn parent(p: Seq<char>) -> Option<Seq<char>> {
    let s = last_index(p, '/');
    if s < 0 || p.len() <= 1 {
        None
    } else if s == 0 {
        Some(seq!['/'])
    } else {
        Some(p.subrange(0, s))
    }
}

/// The root module generated for a lone file: it declares the file as a submodule.
pub open spec fn stub_module(stem: Seq<char>) -> Seq<char> {
    "mod "@ + stem + ";"@
}

proof fn lemma_last_index_bounds(p: Seq<char>, c: char)
    ensures
        -1 <= last_index(p, c) < p.len(),
        last_index(p, c) >= 0 ==> p[last_index(p, c)] == c,
    decreases p.len(),
{
    if p.len() > 0 {
        lemma_last_index_bounds(p.drop_last(), c);
    }
}

/// The index of the last `c` in `s`, if any.
pub fn find_last(s: &str, c: char) -> (r: Option<usize>)
    ensures
        match r {
            Some(i) => i as int == last_index(s@, c),
            None => last_index(s@, c) == -1,
        },
{
    let n = s.unicode_len();
    let mut i: usize = n;
    assert(s@.subrange(0, n as int) =~= s@);
    while i > 0
        invariant
            n == s@.len(),
            i <= n,
            last_index(s@, c) == last_index(s@.subrange(0, i as int), c),
        decreases i,
    {
        let ghost pre = s@.subrange(0, i as int);
        assert(pre.drop_last() =~= s@.subrange(0, i - 1));
        if s.get_char(i - 1) == c {
            return Some(i - 1);
        }
        i = i - 1;
    }
    None
}

pub fn file_name_of(p: &str) -> (r: &str)
    ensures
        r@ == file_name(p@),
{
    proof {
        lemma_last_index_bounds(p@, '/');
    }
    let n = p.unicode_len();
    match find_last(p, '/') {
        Some(i) => p.substring_char(i + 1, n),
        None => p.substring_char(0, n),
    }
}

pub fn extension_of(name: &str) -> (r: Option<&str>)
    ensures
        match r {
            Some(e) => extension(name@) == Some(e@),
            None => extension(name@) is None,
        },
{
    proof {
        lemma_last_index_bounds(name@, '.');
    }
    let n = name.unicode_len();
    match find_last(name, '.') {
        Some(d) => if d == 0 {
            None
        } else {
            Some(name.substring_char(d + 1, n))
        },
        None => None,
    }
}

pub fn stem_of(name: &str) -> (r: &str)
    ensures
        r@ == stem(name@),
{
    proof {
        lemma_last_index_bounds(name@, '.');
    }
    let n = name.unicode_len();
    match find_last(name, '.') {
        Some(d) => if d == 0 {
            name
        } else {
            name.substring_char(0, d)
        },
        None => name,
    }
}

pub fn parent_of(p: &str) -> (r: Option<String>)
    ensures
        match r {
            Some(d) => parent(p@) == Some(d@),
            None => parent(p@) is None,
        },
{
    proof {
        lemma_last_index_bounds(p@, '/');
    }
    let n = p.unicode_len();
    if n <= 1 {
        return None;
    }
    match find_last(p, '/') {
        Some(s) => if s == 0 {
            let r = String::from_str("/");
            proof {
                reveal_strlit("/");
                assert(r@ =~= seq!['/']);
            }
            Some(r)
        } else {
            Some(String::from_str(p.substring_char(0, s)))
        },
        None => None,
    }
}

/// The absolute path of the root module of a crate rooted at `dir`.
pub fn root_module_path(dir: &str) -> (r: String)
    ensures
        r@ == absolute_root(dir@, "lib.cairo"@),
{
    let m = dir.unicode_len();
    proof {
        reveal_strlit("lib.cairo");
    }
    if m > 0 && dir.get_char(m - 1) == '/' {
        String::from_str(dir).concat("lib.cairo")
    } else {
        proof {
            reveal_strlit("/");
        }
        String::from_str(dir).concat("/").concat("lib.cairo")
    }
}

/// `c` is registered with the directory on disk `dir` and default settings.
pub open spec fn real_default_config(cfg: Option<CrateConfiguration>, dir: Seq<char>) -> bool {
    match cfg {
        Some(x) => x.root matches Directory::Real(p) && p@ == dir && settings_view(x.settings)
            == default_settings_view(),
        None => false,
    }
}

/// What setting up the lone file `f` on `before` leaves.
pub open spec fn single_file_post(
    before: Database,
    f: SingleFile,
    r: Result<CrateInput, ProjectError>,
    after: Database,
) -> bool {
    let name = file_name(f.path@);
    &&& after.wf()
    &&& if extension(name) != Some("cairo"@) {
        r matches Err(ProjectError::BadFileExtension)
    } else if !f.exists {
        r matches Err(ProjectError::NoSuchFile { path }) && path@ == f.path@
    } else if f.canonical is None || parent(f.canonical->Some_0@) is None {
        r matches Err(ProjectError::BadPath { path }) && path@ == f.path@
    } else {
        let dir = parent(f.canonical->Some_0@)->Some_0;
        let s = stem(name);
        let key = if s == "lib"@ {
            (dir, None::<Seq<char>>)
        } else {
            (s, None::<Seq<char>>)
        };
        &&& r matches Ok(c) && crate_key(c) == key
        &&& real_default_config(after.config_of(key), dir)
        &&& forall|k: (Seq<char>, Option<Seq<char>>)| k != key ==> #[trigger] after.config_of(k) == before.config_of(k)
        &&& after.overrides() == if s == "lib"@ {
            before.overrides()
        } else {
            before.overrides().push((absolute_root(dir, "lib.cairo"@), stub_module(s)))
        }
    }
    &&& r is Err ==> forall|k: (Seq<char>, Option<Seq<char>>)| #[trigger] after.config_of(k) == before.config_of(k)
}

/// Sets up the database to compile one source file. A file named `lib.cairo` makes its
/// directory a crate; any other file becomes the only submodule of a crate whose root
/// module is generated.
pub fn setup_single_file_project(db: &mut Database, file: &SingleFile) -> (r: Result<CrateInput, ProjectError>)
    requires
        old(db).wf(),
    ensures
        single_file_post(*old(db), *file, r, *final(db)),
{
    let name = file_name_of(file.path.as_str());
    let is_cairo = match extension_of(name) {
        Some(e) => String::from_str(e) == String::from_str("cairo"),
        None => false,
    };
    if !is_cairo {
        return Err(ProjectError::BadFileExtension);
    }
    if !file.exists {
        return Err(ProjectError::NoSuchFile { path: file.path.clone() });
    }
    let canonical = match &file.canonical {
        Some(c) => c,
        None => {
            return Err(ProjectError::BadPath { path: file.path.clone() });
        },
    };
    let file_dir = match parent_of(canonical.as_str()) {
        Some(d) => d,
        None => {
            return Err(ProjectError::BadPath { path: file.path.clone() });
        },
    };
    let file_stem = stem_of(name);
    let ghost db0 = *db;
    let is_lib = String::from_str(file_stem) == String::from_str("lib");
    let root = Directory::Real(file_dir.clone());
    let settings = CrateSettings::default_settings();
    if is_lib {
        let crate_id = db.intern_crate(CrateInput { name: file_dir.clone(), discriminator: None });
        db.set_crate_config(crate_id, CrateConfiguration { root, settings });
        assert(real_default_config(db.config_of((file_dir@, None)), file_dir@));
        assert forall|k: (Seq<char>, Option<Seq<char>>)| k != (file_dir@, None::<Seq<char>>) implies #[trigger] db.config_of(k) == db0.config_of(k) by {}
        Ok(CrateInput { name: file_dir, discriminator: None })
    } else {
        let crate_id = db.intern_crate(CrateInput { name: String::from_str(file_stem), discriminator: None });
        db.set_crate_config(crate_id, CrateConfiguration { root, settings });
        assert(real_default_config(db.config_of((file_stem@, None)), file_dir@));
        let main_file = root_module_path(file_dir.as_str());
        let content = String::from_str("mod ").concat(file_stem).concat(";");
        let ghost db1 = *db;
        db.override_file_content(main_file, content);
        assert(real_default_config(db.config_of((file_stem@, None)), file_dir@));
        assert forall|k: (Seq<char>, Option<Seq<char>>)| k != (file_stem@, None::<Seq<char>>) implies #[trigger] db.config_of(k) == db0.config_of(k) by {
            assert(db.config_of(k) == db1.config_of(k));
        }
        Ok(CrateInput { name: String::from_str(file_stem), discriminator: None })
    }
}

/// Sets up the database to compile a project on disk: every crate that a manifest
/// declares, or a single file. Returns the crates set up.
pub fn setup_project(db: &mut Database, source: ProjectSource) -> (r: Result<Vec<CrateInput>, ProjectError>)
    requires
        old(db).wf(),
    ensures
        final(db).wf(),
        match source {
            ProjectSource::Manifest(Err(e)) => r matches Err(ProjectError::LoadProjectError(e2)) && e2 == e
                && *final(db) == *old(db),
            ProjectSource::Manifest(Ok(config)) => {
                &&& r matches Ok(v) && v@.len() == config.crate_roots@.len() && forall|i: int|
                    0 <= i < v@.len() ==> crate_key(#[trigger] v@[i]) == resolved_key(
                        config.crates_config,
                        config.crate_roots@[i].0@,
                    )
                &&& forall|k: (Seq<char>, Option<Seq<char>>)| match #[trigger] last_root_for(
                    config.crates_config,
                    config.crate_roots@,
                    k,
                    config.crate_roots@.len() as int,
                ) {
                    Some(j) => real_root_config(final(db).config_of(k), config, j),
                    None => final(db).config_of(k) == old(db).config_of(k),
                }
            },
            ProjectSource::SingleFile(f) => exists|r1: Result<CrateInput, ProjectError>|
                single_file_post(*old(db), f, r1, *final(db)) && match r1 {
                    Ok(c) => r matches Ok(v) && v@.len() == 1 && v@[0] == c,
                    Err(e) => r == Err::<Vec<CrateInput>, ProjectError>(e),
                },
        },
{
    match source {
        ProjectSource::Manifest(loaded) => {
            let config = match loaded {
                Ok(config) => config,
                Err(e) => {
                    return Err(ProjectError::LoadProjectError(e));
                },
            };
            let ghost db0 = *db;
            let ids = get_main_crate_ids_from_project(db, &config);
            let ghost db1 = *db;
            let mut inputs: Vec<CrateInput> = Vec::new();
            let mut i: usize = 0;
            while i < ids.len()
                invariant
                    i <= ids@.len(),
                    inputs@.len() == i,
                    *db == db1,
                    ids@.len() == config.crate_roots@.len(),
                    forall|j: int| 0 <= j < ids@.len() ==> (#[trigger] ids@[j]).index < db.crate_keys().len()
                        && db.crate_keys()[ids@[j].index as int] == resolved_key(config.crates_config, config.crate_roots@[j].0@),
                    forall|j: int| 0 <= j < i ==> crate_key(#[trigger] inputs@[j]) == resolved_key(
                        config.crates_config,
                        config.crate_roots@[j].0@,
                    ),
                decreases ids@.len() - i,
            {
                inputs.push(db.crate_input(ids[i]));
                i = i + 1;
            }
            update_crate_roots_from_project_config(db, &config);
            proof {
                assert forall|k: (Seq<char>, Option<Seq<char>>)| match #[trigger] last_root_for(
                    config.crates_config,
                    config.crate_roots@,
                    k,
                    config.crate_roots@.len() as int,
                ) {
                    Some(j) => real_root_config(db.config_of(k), config, j),
                    None => db.config_of(k) == db0.config_of(k),
                } by {
                    assert(db1.config_of(k) == db0.config_of(k));
                }
            }
            Ok(inputs)
        },
        ProjectSource::SingleFile(f) => {
            let r1 = setup_single_file_project(db, &f);
            match r1 {
                Ok(c) => Ok(vec![c]),
                Err(e) => Err(e),
            }
        },
    }
}

/// What a path names on disk.
#[derive(Clone, Copy, Debug, PartialEq, Eq, Structural)]
pub enum PathKind {
    File,
    Directory,
    Missing,
}

/// Why a path cannot be compiled in the mode asked for.
#[derive(Clone, Copy, Debug, PartialEq, Eq, Structural)]
pub enum CompilerPathError {
    FileWithoutSingleFile,
    DirectoryWithSingleFile,
    DoesNotExist,
}

impl CompilerPathError {
    pub fn message(&self) -> (r: String)
        ensures
            r@ == match *self {
                CompilerPathError::FileWithoutSingleFile => "The given path is a file, but --single-file was not supplied."@,
                CompilerPathError::DirectoryWithSingleFile => "The given path is a directory, but --single-file was supplied."@,
                CompilerPathError::DoesNotExist => "The given path does not exist."@,
            },
    {
        match self {
            CompilerPathError::FileWithoutSingleFile => String::from_str(
                "The given path is a file, but --single-file was not supplied.",
            ),
            CompilerPathError::DirectoryWithSingleFile => String::from_str(
                "The given path is a directory, but --single-file was supplied.",
            ),
            CompilerPathError::DoesNotExist => String::from_str("The given path does not exist."),
        }
    }
}

/// Checks that a path of kind `kind` can be compiled: a file only in single-file mode, a
/// directory only outside it.
pub fn check_compiler_path(single_file: bool, kind: PathKind) -> (r: Result<(), CompilerPathError>)
    ensures
        r == match kind {
            PathKind::File => if single_file {
                Ok::<(), CompilerPathError>(())
            } else {
                Err(CompilerPathError::FileWithoutSingleFile)
            },
            PathKind::Directory => if single_file {
                Err(CompilerPathError::DirectoryWithSingleFile)
            } else {
                Ok(())
            },
            PathKind::Missing => Err(CompilerPathError::DoesNotExist),
        },
{
    match kind {
        PathKind::File => if !single_file {
            return Err(CompilerPathError::FileWithoutSingleFile);
        },
        PathKind::Directory => if single_file {
            return Err(CompilerPathError::DirectoryWithSingleFile);
        },
        PathKind::Missing => {
            return Err(CompilerPathError::DoesNotExist);
        },
    }
    Ok(())
}

} // verus!
