use vstd::prelude::*;
use vstd::string::*;
use crate::database::{
    corelib_settings_view, crate_key, default_settings_view, dev_corelib_crate_settings,
    settings_view, CrateConfiguration, CrateInput, CrateSettings, Database,
};
use crate::directory::{has_file, Directory, VirtualDirectory};
use crate::file_set::{has_key, keys_distinct, lemma_sorted_distinct, FileSet};
use crate::path::{
    is_valid_path, lemma_join_split, lemma_split_nonempty, split_path, split_virtual_path, strings_view,
};

verus! {

/// The name of the standard-library crate.
pub open spec fn corelib_name() -> Seq<char> {
    "core"@
}

/// The file that is a crate's root module.
pub open spec fn root_module_name() -> Seq<char> {
    "lib.cairo"@
}

/// Why an in-memory project could not be set up.
#[derive(Debug)]
pub enum InMemoryProjectError {
    EmptyMainCrateName,
    /// A crate's file set has no root module.
    MissingRequiredFile { crate_name: String, path: String },
    /// A path of a crate's file set is not a well-formed logical path.
    InvalidVirtualPath { crate_name: String, path: String },
}

/// A project whose files all live in memory: the main crate's and the standard library's.
pub struct InMemoryProject {
    pub main_crate_name: String,
    pub main_crate_files: FileSet,
    pub corelib_files: FileSet,
    pub main_crate_settings: Option<CrateSettings>,
}

/// The characters that have Unicode's `White_Space` property.
pub open spec fn is_white_space(c: char) -> bool {
    let u = c as int;
    (0x9 <= u <= 0xd) || u == 0x20 || u == 0x85 || u == 0xa0 || u == 0x1680 || (0x2000 <= u <= 0x200a)
        || u == 0x2028 || u == 0x2029 || u == 0x202f || u == 0x205f || u == 0x3000
}

/// Empty, or white space only.
pub open spec fn is_blank(s: Seq<char>) -> bool {
    forall|i: int| 0 <= i < s.len() ==> is_white_space(#[trigger] s[i])
}

/// Whether `c` is white space, as `char::is_whitespace` decides.
pub fn is_whitespace(c: char) -> (r: bool)
    ensures
        r == is_white_space(c),
{
    let u = c as u32;
    (0x9 <= u && u <= 0xd) || u == 0x20 || u == 0x85 || u == 0xa0 || u == 0x1680 || (0x2000 <= u && u
        <= 0x200a) || u == 0x2028 || u == 0x2029 || u == 0x202f || u == 0x205f || u == 0x3000
}

/// Whether `s` is empty or white space only.
pub fn is_blank_str(s: &str) -> (r: bool)
    ensures
        r == is_blank(s@),
{
    let n = s.unicode_len();
    let mut i: usize = 0;
    while i < n
        invariant
            n == s@.len(),
            i <= n,
            forall|j: int| 0 <= j < i ==> is_white_space(#[trigger] s@[j]),
        decreases n - i,
    {
        if !is_whitespace(s.get_char(i)) {
            return false;
        }
        i = i + 1;
    }
    true
}

pub open spec fn all_valid(entries: Seq<(Seq<char>, Seq<char>)>) -> bool {
    forall|j: int| 0 <= j < entries.len() ==> is_valid_path(#[trigger] entries[j].0)
}

/// `p` is the path of the first entry that is not a well-formed logical path.
pub open spec fn is_first_invalid(entries: Seq<(Seq<char>, Seq<char>)>, p: Seq<char>) -> bool {
    exists|m: int|
        0 <= m < entries.len() && #[trigger] entries[m].0 == p && !is_valid_path(p) && forall|j: int|
            0 <= j < m ==> is_valid_path(#[trigger] entries[j].0)
}

/// The tree holds exactly the entries: as many files, each at its entry's segments with
/// its entry's content.
pub open spec fn tree_holds(
    d: VirtualDirectory,
    db_files: Seq<(Seq<char>, Seq<char>)>,
    entries: Seq<(Seq<char>, Seq<char>)>,
) -> bool {
    &&& d.wf()
    &&& d.file_count() == entries.len()
    &&& d.files_from(db_files, entries)
    &&& d.root_has_file(root_module_name()) == has_key(entries, root_module_name())
}

/// The database changed only by interning more virtual files.
pub open spec fn only_files_added(before: Database, after: Database) -> bool {
    &&& after.wf()
    &&& after.crate_keys() == before.crate_keys()
    &&& after.overrides() == before.overrides()
    &&& forall|k: (Seq<char>, Option<Seq<char>>)| #[trigger] after.config_of(k) == before.config_of(k)
    &&& after.files().len() >= before.files().len()
    &&& forall|i: int| 0 <= i < before.files().len() ==> #[trigger] after.files()[i] == before.files()[i]
}

proof fn lemma_split_no_slash(p: Seq<char>)
    requires
        forall|i: int| 0 <= i < p.len() ==> p[i] != '/',
    ensures
        split_path(p) == seq![p],
    decreases p.len(),
{
    if p.len() == 0 {
        assert(p =~= Seq::<char>::empty());
        assert(split_path(p) =~= seq![p]);
    } else {
        assert forall|i: int| 0 <= i < p.drop_last().len() implies p.drop_last()[i] != '/' by {
            assert(p.drop_last()[i] == p[i]);
        }
        lemma_split_no_slash(p.drop_last());
        assert(p[p.len() - 1] != '/');
        assert(p.drop_last().push(p.last()) =~= p);
        assert(split_path(p) =~= seq![p]);
    }
}

proof fn lemma_single_segment(p: Seq<char>, name: Seq<char>)
    requires
        split_path(p) == seq![name],
    ensures
        p == name,
{
    lemma_join_split(p);
}

/// Builds the virtual tree of `files`, interning each file's content in `db`.
pub fn build_virtual_directory(db: &mut Database, crate_name: &str, files: &FileSet) -> (r: Result<
    VirtualDirectory,
    InMemoryProjectError,
>)
    requires
        old(db).wf(),
        files.wf(),
    ensures
        only_files_added(*old(db), *final(db)),
        match r {
            Ok(d) => all_valid(files@) && tree_holds(d, final(db).files(), files@),
            Err(InMemoryProjectError::InvalidVirtualPath { crate_name: c, path }) => !all_valid(files@)
                && c@ == crate_name@ && is_first_invalid(files@, path@),
            Err(_) => false,
        },
{
    let ghost db0 = *db;
    let ghost entries = files@;
    proof {
        lemma_sorted_distinct(entries);
    }
    let mut root = VirtualDirectory::new();
    let n = files.len();
    let mut m: usize = 0;
    while m < n
        invariant
            n == entries.len(),
            entries == files@,
            keys_distinct(entries),
            m <= n,
            only_files_added(db0, *db),
            db0 == *old(db),
            root.wf(),
            root.file_count() == m,
            root.files_from(db.files(), entries.subrange(0, m as int)),
            forall|j: int| 0 <= j < m ==> is_valid_path(#[trigger] entries[j].0),
            has_key(entries.subrange(0, m as int), root_module_name()) ==> root.root_has_file(root_module_name()),
        decreases n - m,
    {
        let (path, content) = files.entry(m);
        let segs = match split_virtual_path(path) {
            Ok(segs) => segs,
            Err(_) => {
                assert(is_first_invalid(entries, path@));
                return Err(
                    InMemoryProjectError::InvalidVirtualPath {
                        crate_name: String::from_str(crate_name),
                        path: String::from_str(path),
                    },
                );
            },
        };
        proof {
            lemma_split_nonempty(path@);
        }
        let ghost sub = entries.subrange(0, m as int);
        let ghost sub1 = entries.subrange(0, m + 1);
        let name = segs[segs.len() - 1].as_str();
        let ghost db_before = *db;
        let file_id = db.intern_file(name, content);
        proof {
            assert forall|i: int, k: int|
                0 <= i < root.nodes@.len() && 0 <= k < root.nodes@[i].files@.len() implies root.file_path(i, k)
                    != strings_view(segs@) by {
                let f = root.nodes@[i].files@[k];
                assert(root.file_from(i, k, db_before.files(), sub));
                let j = choose|j: int| 0 <= j < sub.len() && crate::directory::entry_is_file(root.file_path(i, k), f, db_before.files(), #[trigger] sub[j]);
                if root.file_path(i, k) == strings_view(segs@) {
                    lemma_join_split(sub[j].0);
                    lemma_join_split(path@);
                    assert(entries[j].0 == entries[m as int].0);
                }
            }
        }
        let ghost root_before = root;
        root.insert_file(&segs, file_id);
        proof {
            assert(sub1 =~= sub.push(entries[m as int]));
            assert forall|i: int, k: int|
                0 <= i < root.nodes@.len() && 0 <= k < root.nodes@[i].files@.len() implies #[trigger] root.file_from(i, k, db.files(), sub1) by {
                let f = root.nodes@[i].files@[k];
                if i < root_before.nodes@.len() && k < root_before.nodes@[i].files@.len() {
                    assert(f == root_before.nodes@[i].files@[k]);
                    assert(root_before.file_from(i, k, db_before.files(), sub));
                    let q = choose|q: int| 0 <= q < sub.len() && crate::directory::entry_is_file(root_before.file_path(i, k), f, db_before.files(), #[trigger] sub[q]);
                    assert(root.file_path(i, k) == root_before.file_path(i, k));
                    assert(sub1[q] == sub[q]);
                    assert(crate::directory::entry_is_file(root.file_path(i, k), f, db.files(), sub1[q]));
                } else {
                    assert(sub1[m as int] == entries[m as int]);
                    assert(crate::directory::entry_is_file(root.file_path(i, k), f, db.files(), sub1[m as int]));
                }
            }
            if has_key(sub1, root_module_name()) {
                if has_key(sub, root_module_name()) {
                    let q = choose|q: int| 0 <= q < sub.len() && (#[trigger] sub[q]).0 == root_module_name();
                    let k = choose|k: int| 0 <= k < root_before.nodes@[0].files@.len() && (#[trigger] root_before.nodes@[0].files@[k]).0@ == root_module_name();
                    assert(root.nodes@[0].files@[k] == root_before.nodes@[0].files@[k]);
                    assert(root.nodes@[0].files@[k].0@ == root_module_name());
                } else {
                    let q = choose|q: int| 0 <= q < sub1.len() && (#[trigger] sub1[q]).0 == root_module_name();
                    if q < m {
                        assert(sub[q] == sub1[q]);
                    }
                    assert(path@ == root_module_name());
                    // a single segment: the root module sits at the root
                    assert(split_path(path@) == seq![path@]) by {
                        reveal_strlit("lib.cairo");
                        lemma_split_no_slash(path@);
                    }
                    assert(strings_view(segs@)[0] == segs@[0]@);
                    assert(strings_view(segs@) =~= seq![segs@[0]@]);
                    assert(segs@[0]@ == root_module_name());
                    assert(crate::directory::file_at_node(root.nodes@[0], segs@[0]@));
                }
                assert(root.root_has_file(root_module_name()));
            }
            assert(root.files_from(db.files(), sub1));
        }
        m = m + 1;
    }
    proof {
        assert(entries.subrange(0, n as int) =~= entries);
        if root.root_has_file(root_module_name()) {
            let k = choose|k: int| 0 <= k < root.nodes@[0].files@.len() && (#[trigger] root.nodes@[0].files@[k]).0@ == root_module_name();
            let f = root.nodes@[0].files@[k];
            assert(root.file_from(0, k, db.files(), entries));
            let q = choose|q: int| 0 <= q < entries.len() && crate::directory::entry_is_file(root.file_path(0, k), f, db.files(), #[trigger] entries[q]);
            assert(root.file_path(0, k) =~= seq![root_module_name()]);
            lemma_single_segment(entries[q].0, root_module_name());
            assert(has_key(entries, root_module_name()));
        }
    }
    Ok(root)
}

} // verus!

verus! {

pub proof fn lemma_files_from_extend(
    d: VirtualDirectory,
    f1: Seq<(Seq<char>, Seq<char>)>,
    f2: Seq<(Seq<char>, Seq<char>)>,
    entries: Seq<(Seq<char>, Seq<char>)>,
)
    requires
        d.files_from(f1, entries),
        f2.len() >= f1.len(),
        forall|i: int| 0 <= i < f1.len() ==> #[trigger] f2[i] == f1[i],
    ensures
        d.files_from(f2, entries),
{
    assert forall|i: int, k: int|
        0 <= i < d.nodes@.len() && 0 <= k < d.nodes@[i].files@.len() implies #[trigger] d.file_from(i, k, f2, entries) by {
        let f = d.nodes@[i].files@[k];
        assert(d.file_from(i, k, f1, entries));
        let m = choose|m: int| 0 <= m < entries.len() && crate::directory::entry_is_file(d.file_path(i, k), f, f1, #[trigger] entries[m]);
        assert(f2[f.1.index as int] == f1[f.1.index as int]);
        assert(crate::directory::entry_is_file(d.file_path(i, k), f, f2, entries[m]));
    }
    assert(d.files_from(f2, entries));
}

pub open spec fn core_key() -> (Seq<char>, Option<Seq<char>>) {
    (corelib_name(), None)
}

pub open spec fn main_key(p: InMemoryProject) -> (Seq<char>, Option<Seq<char>>) {
    (p.main_crate_name@, None)
}

pub open spec fn main_settings_view(p: InMemoryProject) -> (Option<Seq<char>>, crate::database::Edition, bool) {
    match p.main_crate_settings {
        Some(s) => settings_view(s),
        None => default_settings_view(),
    }
}

/// The inputs on which an in-memory project can be set up.
pub open spec fn setup_succeeds(p: InMemoryProject) -> bool {
    &&& !is_blank(p.main_crate_name@)
    &&& all_valid(p.corelib_files@)
    &&& has_key(p.corelib_files@, root_module_name())
    &&& all_valid(p.main_crate_files@)
    &&& has_key(p.main_crate_files@, root_module_name())
}

/// `e` is the error owed for `p`: the first precondition that fails decides.
pub open spec fn expected_error(p: InMemoryProject, e: InMemoryProjectError) -> bool {
    if is_blank(p.main_crate_name@) {
        e is EmptyMainCrateName
    } else if !all_valid(p.corelib_files@) {
        match e {
            InMemoryProjectError::InvalidVirtualPath { crate_name, path } => crate_name@ == corelib_name()
                && is_first_invalid(p.corelib_files@, path@),
            _ => false,
        }
    } else if !has_key(p.corelib_files@, root_module_name()) {
        match e {
            InMemoryProjectError::MissingRequiredFile { crate_name, path } => crate_name@ == corelib_name()
                && path@ == root_module_name(),
            _ => false,
        }
    } else if !all_valid(p.main_crate_files@) {
        match e {
            InMemoryProjectError::InvalidVirtualPath { crate_name, path } => crate_name@ == "main"@
                && is_first_invalid(p.main_crate_files@, path@),
            _ => false,
        }
    } else {
        match e {
            InMemoryProjectError::MissingRequiredFile { crate_name, path } => crate_name@ == "main"@ && path@
                == root_module_name(),
            _ => false,
        }
    }
}

/// The crate `key` is registered in `db` with a virtual root that holds exactly `entries`,
/// and with settings `sv`.
pub open spec fn registered_as(
    db: Database,
    key: (Seq<char>, Option<Seq<char>>),
    entries: Seq<(Seq<char>, Seq<char>)>,
    sv: (Option<Seq<char>>, crate::database::Edition, bool),
) -> bool {
    match db.config_of(key) {
        Some(c) => settings_view(c.settings) == sv && match c.root {
            Directory::Virtual(d) => tree_holds(d, db.files(), entries),
            Directory::Real(_) => false,
        },
        None => false,
    }
}

/// What setting up `p` on `before` leaves: the result `r` and the database `after`.
pub open spec fn setup_post(
    before: Database,
    p: InMemoryProject,
    r: Result<Vec<CrateInput>, InMemoryProjectError>,
    after: Database,
) -> bool {
    &&& after.wf()
    &&& (r is Ok <==> setup_succeeds(p))
    &&& match r {
        Ok(v) => {
            &&& v@.len() == 1
            &&& crate_key(v@[0]) == main_key(p)
            &&& registered_as(after, main_key(p), p.main_crate_files@, main_settings_view(p))
            &&& main_key(p) != core_key() ==> registered_as(
                after,
                core_key(),
                p.corelib_files@,
                corelib_settings_view(),
            )
            &&& forall|k: (Seq<char>, Option<Seq<char>>)|
                k != main_key(p) && k != core_key() ==> #[trigger] after.config_of(k) == before.config_of(k)
        },
        Err(e) => {
            &&& expected_error(p, e)
            &&& forall|k: (Seq<char>, Option<Seq<char>>)| #[trigger] after.config_of(k) == before.config_of(k)
        },
    }
}

/// Registers an in-memory project: the standard library under its reserved name and the
/// main crate under its own. Returns the main crate. Both trees are built before either
/// crate is registered, so a failure registers nothing.
pub fn setup_in_memory_project(db: &mut Database, project: &InMemoryProject) -> (r: Result<
    Vec<CrateInput>,
    InMemoryProjectError,
>)
    requires
        old(db).wf(),
        project.main_crate_files.wf(),
        project.corelib_files.wf(),
    ensures
        setup_post(*old(db), *project, r, *final(db)),
{
    if is_blank_str(project.main_crate_name.as_str()) {
        return Err(InMemoryProjectError::EmptyMainCrateName);
    }
    let ghost db0 = *db;
    let core_root = match build_virtual_directory(db, "core", &project.corelib_files) {
        Ok(d) => d,
        Err(e) => {
            return Err(e);
        },
    };
    if !has_file(&core_root.nodes[0], "lib.cairo") {
        return Err(
            InMemoryProjectError::MissingRequiredFile {
                crate_name: String::from_str("core"),
                path: String::from_str("lib.cairo"),
            },
        );
    }
    let ghost db1 = *db;
    let main_root = match build_virtual_directory(db, "main", &project.main_crate_files) {
        Ok(d) => d,
        Err(e) => {
            return Err(e);
        },
    };
    if !has_file(&main_root.nodes[0], "lib.cairo") {
        return Err(
            InMemoryProjectError::MissingRequiredFile {
                crate_name: String::from_str("main"),
                path: String::from_str("lib.cairo"),
            },
        );
    }
    let ghost db2 = *db;
    proof {
        lemma_files_from_extend(core_root, db1.files(), db2.files(), project.corelib_files@);
    }
    let core_id = db.intern_crate(CrateInput { name: String::from_str("core"), discriminator: None });
    db.set_crate_config(
        core_id,
        CrateConfiguration { root: Directory::Virtual(core_root), settings: dev_corelib_crate_settings() },
    );
    let ghost db3 = *db;
    let settings = match &project.main_crate_settings {
        Some(s) => s.duplicate(),
        None => CrateSettings::default_settings(),
    };
    let main_input = CrateInput { name: project.main_crate_name.clone(), discriminator: None };
    let main_id = db.intern_crate(main_input);
    db.set_crate_config(main_id, CrateConfiguration { root: Directory::Virtual(main_root), settings });
    let r = vec![CrateInput { name: project.main_crate_name.clone(), discriminator: None }];
    proof {
        assert(db.config_of(main_key(*project)) == db.config_of(crate_key(main_input)));
        if main_key(*project) != core_key() {
            assert(db.config_of(core_key()) == db3.config_of(core_key()));
        }
    }
    Ok(r)
}

/// Setting up the same project twice, the second time on the database that the first call
/// left, gives the same outcome: on success the same crate, registered with the same files
/// and settings.
pub proof fn lemma_setup_idempotent(
    p: InMemoryProject,
    db0: Database,
    r1: Result<Vec<CrateInput>, InMemoryProjectError>,
    db1: Database,
    r2: Result<Vec<CrateInput>, InMemoryProjectError>,
    db2: Database,
)
    requires
        setup_post(db0, p, r1, db1),
        setup_post(db1, p, r2, db2),
    ensures
        r1 is Ok <==> r2 is Ok,
        r1 is Ok ==> crate_key(r1->Ok_0@[0]) == crate_key(r2->Ok_0@[0]),
        r1 is Ok ==> registered_as(db1, main_key(p), p.main_crate_files@, main_settings_view(p))
            && registered_as(db2, main_key(p), p.main_crate_files@, main_settings_view(p)),
{
}

/// A main crate name that is empty or white space fails first, and registers nothing,
/// not even the standard library.
pub proof fn lemma_blank_name_rejected(
    p: InMemoryProject,
    db0: Database,
    r: Result<Vec<CrateInput>, InMemoryProjectError>,
    db1: Database,
)
    requires
        setup_post(db0, p, r, db1),
        is_blank(p.main_crate_name@),
    ensures
        r matches Err(InMemoryProjectError::EmptyMainCrateName),
        db1.config_of(core_key()) == db0.config_of(core_key()),
        forall|k: (Seq<char>, Option<Seq<char>>)| #[trigger] db1.config_of(k) == db0.config_of(k),
{
}

/// An empty main file set lacks the main crate's root module; an empty standard-library
/// file set lacks the standard library's.
pub proof fn lemma_empty_file_sets_rejected(
    p: InMemoryProject,
    db0: Database,
    r: Result<Vec<CrateInput>, InMemoryProjectError>,
    db1: Database,
)
    requires
        setup_post(db0, p, r, db1),
        !is_blank(p.main_crate_name@),
    ensures
        p.corelib_files@.len() == 0 ==> (r matches Err(
            InMemoryProjectError::MissingRequiredFile { crate_name, path },
        ) && crate_name@ == corelib_name() && path@ == root_module_name()),
        p.main_crate_files@.len() == 0 && all_valid(p.corelib_files@) && has_key(
            p.corelib_files@,
            root_module_name(),
        ) ==> (r matches Err(InMemoryProjectError::MissingRequiredFile { crate_name, path })
            && crate_name@ == "main"@ && path@ == root_module_name()),
{
}

/// A main file set with a malformed path fails with the first such path, and registers
/// no crate.
pub proof fn lemma_invalid_main_path_rejected(
    p: InMemoryProject,
    db0: Database,
    r: Result<Vec<CrateInput>, InMemoryProjectError>,
    db1: Database,
)
    requires
        setup_post(db0, p, r, db1),
        !is_blank(p.main_crate_name@),
        all_valid(p.corelib_files@),
        has_key(p.corelib_files@, root_module_name()),
        !all_valid(p.main_crate_files@),
    ensures
        r matches Err(InMemoryProjectError::InvalidVirtualPath { crate_name, path }) && crate_name@
            == "main"@ && is_first_invalid(p.main_crate_files@, path@),
        forall|k: (Seq<char>, Option<Seq<char>>)| #[trigger] db1.config_of(k) == db0.config_of(k),
{
}

} // verus!

verus! {

/// `r` is what the root module of a crate configured by `cfg` holds in `db`: the content of
/// the root-module file of its virtual tree, or, for a root on disk, content that
/// replaced that file.
pub open spec fn root_content_of(db: Database, cfg: CrateConfiguration, r: Option<String>) -> bool {
    match cfg.root {
        Directory::Virtual(d) => (r is Some ==> exists|k: int|
            0 <= k < d.nodes@[0].files@.len() && (#[trigger] d.nodes@[0].files@[k]).0@ == root_module_name()
                && d.nodes@[0].files@[k].1.index < db.files().len() && db.files()[d.nodes@[0].files@[k].1.index as int].1
                == r->Some_0@) && (r is None ==> d.nodes@.len() == 0 || !d.root_has_file(root_module_name())
                || exists|k: int|
                0 <= k < d.nodes@[0].files@.len() && (#[trigger] d.nodes@[0].files@[k]).0@ == root_module_name()
                    && d.nodes@[0].files@[k].1.index >= db.files().len()),
        Directory::Real(dir) => r is Some ==> db.overrides().contains(
            (crate::config::absolute_root(dir@, root_module_name()), r->Some_0@),
        ),
    }
}

/// The content of the root module of the registered crate `c`.
pub fn root_module_content(db: &Database, c: &CrateInput) -> (r: Option<String>)
    requires
        db.wf(),
    ensures
        match db.config_of(crate_key(*c)) {
            None => r is None,
            Some(cfg) => root_content_of(*db, cfg, r),
        },
{
    let cfg = match db.crate_config(c) {
        Some(cfg) => cfg,
        None => {
            return None;
        },
    };
    let r = match &cfg.root {
        Directory::Virtual(d) => {
            if d.nodes.len() == 0 {
                return None;
            }
            let root = &d.nodes[0];
            let name = String::from_str("lib.cairo");
            let mut k: usize = 0;
            let mut found: Option<usize> = None;
            while k < root.files.len()
                invariant_except_break
                    found is None,
                invariant
                    k <= root.files@.len(),
                    name@ == root_module_name(),
                    forall|q: int| 0 <= q < k ==> (#[trigger] root.files@[q]).0@ != root_module_name(),
                ensures
                    found matches Some(j) ==> j < root.files@.len() && root.files@[j as int].0@ == root_module_name(),
                    found is None ==> forall|q: int| 0 <= q < root.files@.len() ==> (#[trigger] root.files@[q]).0@ != root_module_name(),
                decreases root.files@.len() - k,
            {
                if root.files[k].0 == name {
                    found = Some(k);
                    break;
                }
                k = k + 1;
            }
            match found {
                Some(k) => {
                    assert(root.files@[k as int].0@ == root_module_name());
                    assert(d.nodes@[0].files@[k as int].0@ == root_module_name());
                    match db.file_content(root.files[k].1) {
                        Some(s) => Some(String::from_str(s)),
                        None => None,
                    }
                },
                None => None,
            }
        },
        Directory::Real(dir) => {
            let path = crate::single_file::root_module_path(dir.as_str());
            match db.overridden_content(path.as_str()) {
                Some(s) => Some(String::from_str(s)),
                None => None,
            }
        },
    };
    r
}

/// After a successful in-memory setup, the root module of the main crate reads as the
/// project's root-module file.
pub proof fn lemma_main_root_module_content(
    p: InMemoryProject,
    db0: Database,
    r: Result<Vec<CrateInput>, InMemoryProjectError>,
    db1: Database,
    content: Option<String>,
)
    requires
        setup_post(db0, p, r, db1),
        r is Ok,
        root_content_of(db1, db1.config_of(main_key(p))->Some_0, content),
    ensures
        content is Some,
        exists|m: int|
            0 <= m < p.main_crate_files@.len() && #[trigger] p.main_crate_files@[m] == (
                root_module_name(),
                content->Some_0@,
            ),
{
    let cfg = db1.config_of(main_key(p))->Some_0;
    let d = cfg.root->Virtual_0;
    assert(tree_holds(d, db1.files(), p.main_crate_files@));
    let entries = p.main_crate_files@;
    let k = choose|k: int| 0 <= k < d.nodes@[0].files@.len() && (#[trigger] d.nodes@[0].files@[k]).0@ == root_module_name();
    assert(d.file_from(0, k, db1.files(), entries));
    if content is None {
        if exists|k2: int|
            0 <= k2 < d.nodes@[0].files@.len() && (#[trigger] d.nodes@[0].files@[k2]).0@ == root_module_name()
                && d.nodes@[0].files@[k2].1.index >= db1.files().len() {
            let k2 = choose|k2: int|
                0 <= k2 < d.nodes@[0].files@.len() && (#[trigger] d.nodes@[0].files@[k2]).0@ == root_module_name()
                    && d.nodes@[0].files@[k2].1.index >= db1.files().len();
            assert(d.file_from(0, k2, db1.files(), entries));
        }
    } else {
        let k3 = choose|k3: int|
            0 <= k3 < d.nodes@[0].files@.len() && (#[trigger] d.nodes@[0].files@[k3]).0@ == root_module_name()
                && d.nodes@[0].files@[k3].1.index < db1.files().len() && db1.files()[d.nodes@[0].files@[k3].1.index as int].1
                == content->Some_0@;
        assert(d.file_from(0, k3, db1.files(), entries));
        let m = choose|m: int| 0 <= m < entries.len() && crate::directory::entry_is_file(
            d.file_path(0, k3),
            d.nodes@[0].files@[k3],
            db1.files(),
            #[trigger] entries[m],
        );
        assert(d.file_path(0, k3) =~= seq![root_module_name()]);
        lemma_single_segment(entries[m].0, root_module_name());
        assert(entries[m] == (root_module_name(), content->Some_0@));
    }
}

} // verus!
