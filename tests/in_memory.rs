use cairo_project_setup::database::{CrateInput, CrateSettings, Database, Edition};
use cairo_project_setup::directory::Directory;
use cairo_project_setup::file_set::FileSet;
use cairo_project_setup::project::{
    build_virtual_directory, root_module_content, setup_in_memory_project, InMemoryProject,
    InMemoryProjectError,
};

fn file_set(entries: &[(&str, &str)]) -> FileSet {
    let mut files = FileSet::new();
    for (path, content) in entries {
        files.insert(path, content);
    }
    files
}

fn project(name: &str, main: &[(&str, &str)], core: &[(&str, &str)]) -> InMemoryProject {
    InMemoryProject {
        main_crate_name: name.to_string(),
        main_crate_files: file_set(main),
        corelib_files: file_set(core),
        main_crate_settings: None,
    }
}

fn plain(name: &str) -> CrateInput {
    CrateInput { name: name.to_string(), discriminator: None }
}

#[test]
fn setup_in_memory_project_rejects_invalid_path() {
    let mut db = Database::new();
    let project = project(
        "test",
        &[("lib.cairo", "fn main() {}")],
        &[("lib.cairo", ""), ("../bad.cairo", "")],
    );
    let error = setup_in_memory_project(&mut db, &project).unwrap_err();
    assert!(matches!(error, InMemoryProjectError::InvalidVirtualPath { .. }));
}

#[test]
fn setup_in_memory_project_requires_lib_files() {
    let mut db = Database::new();
    let project = project("test", &[], &[]);
    let error = setup_in_memory_project(&mut db, &project).unwrap_err();
    assert!(matches!(error, InMemoryProjectError::MissingRequiredFile { .. }));
}

#[test]
fn setup_in_memory_project_exposes_virtual_files() {
    let mut db = Database::new();
    let project = project(
        "test",
        &[("lib.cairo", "mod nested;"), ("nested.cairo", "fn x() {}")],
        &[("lib.cairo", "")],
    );
    let inputs = setup_in_memory_project(&mut db, &project).unwrap();
    assert_eq!(inputs.len(), 1);
    assert_eq!(root_module_content(&db, &inputs[0]), Some("mod nested;".to_string()));
    assert_eq!(root_module_content(&db, &plain("core")), Some(String::new()));
}

#[test]
fn empty_core_file_set_is_missing_core_root() {
    let mut db = Database::new();
    let project = project("test", &[("lib.cairo", "")], &[]);
    match setup_in_memory_project(&mut db, &project) {
        Err(InMemoryProjectError::MissingRequiredFile { crate_name, path }) => {
            assert_eq!(crate_name, "core");
            assert_eq!(path, "lib.cairo");
        }
        _ => panic!("expected a missing core root module"),
    }
    assert!(db.crate_config(&plain("core")).is_none());
}

#[test]
fn empty_main_file_set_is_missing_main_root() {
    let mut db = Database::new();
    let project = project("test", &[], &[("lib.cairo", "")]);
    match setup_in_memory_project(&mut db, &project) {
        Err(InMemoryProjectError::MissingRequiredFile { crate_name, path }) => {
            assert_eq!(crate_name, "main");
            assert_eq!(path, "lib.cairo");
        }
        _ => panic!("expected a missing main root module"),
    }
    assert!(db.crate_config(&plain("core")).is_none());
    assert!(db.crate_config(&plain("test")).is_none());
}

#[test]
fn blank_main_names_are_rejected_before_anything_is_registered() {
    for name in ["", "   ", "\t\n", "\u{3000}"] {
        let mut db = Database::new();
        let project = project(name, &[("lib.cairo", "")], &[("lib.cairo", "")]);
        let error = setup_in_memory_project(&mut db, &project).unwrap_err();
        assert!(matches!(error, InMemoryProjectError::EmptyMainCrateName));
        assert!(db.crate_config(&plain("core")).is_none());
    }
}

#[test]
fn name_with_inner_text_is_not_blank() {
    let mut db = Database::new();
    let project = project(" a ", &[("lib.cairo", "")], &[("lib.cairo", "")]);
    let inputs = setup_in_memory_project(&mut db, &project).unwrap();
    assert_eq!(inputs[0].name, " a ");
}

#[test]
fn invalid_main_path_registers_no_crate() {
    let mut db = Database::new();
    let project = project(
        "test",
        &[("lib.cairo", "fn main() {}"), ("../bad", "")],
        &[("lib.cairo", "")],
    );
    match setup_in_memory_project(&mut db, &project) {
        Err(InMemoryProjectError::InvalidVirtualPath { crate_name, path }) => {
            assert_eq!(crate_name, "main");
            assert_eq!(path, "../bad");
        }
        _ => panic!("expected an invalid virtual path"),
    }
    assert!(db.crate_config(&plain("core")).is_none());
    assert!(db.crate_config(&plain("test")).is_none());
}

#[test]
fn setting_up_twice_gives_the_same_crate_and_content() {
    let mut db = Database::new();
    let project = project(
        "test",
        &[("lib.cairo", "mod nested;"), ("nested.cairo", "fn x() {}")],
        &[("lib.cairo", "")],
    );
    let first = setup_in_memory_project(&mut db, &project).unwrap();
    let first_content = root_module_content(&db, &first[0]);
    let second = setup_in_memory_project(&mut db, &project).unwrap();
    let second_content = root_module_content(&db, &second[0]);
    assert_eq!(first[0].name, second[0].name);
    assert_eq!(first[0].discriminator, second[0].discriminator);
    assert_eq!(first_content, second_content);
    assert_eq!(first_content, Some("mod nested;".to_string()));
}

#[test]
fn main_settings_are_kept() {
    let mut db = Database::new();
    let mut project = project("test", &[("lib.cairo", "")], &[("lib.cairo", "")]);
    project.main_crate_settings = Some(CrateSettings {
        name: None,
        edition: Edition::V2023_11,
        experimental_features: true,
    });
    setup_in_memory_project(&mut db, &project).unwrap();
    let config = db.crate_config(&plain("test")).unwrap();
    assert_eq!(config.settings.edition, Edition::V2023_11);
    assert!(config.settings.experimental_features);
    let core = db.crate_config(&plain("core")).unwrap();
    assert_eq!(core.settings.edition, Edition::V2024_07);
    assert!(core.settings.experimental_features);
}

#[test]
fn default_main_settings_when_none_given() {
    let mut db = Database::new();
    let project = project("test", &[("lib.cairo", "")], &[("lib.cairo", "")]);
    setup_in_memory_project(&mut db, &project).unwrap();
    let config = db.crate_config(&plain("test")).unwrap();
    assert_eq!(config.settings.edition, Edition::V2023_01);
    assert!(!config.settings.experimental_features);
}

#[test]
fn tree_holds_one_file_per_entry() {
    let mut db = Database::new();
    let files = file_set(&[
        ("lib.cairo", "mod a;"),
        ("a.cairo", "mod b;"),
        ("a/b.cairo", "fn b() {}"),
        ("a/c/d.cairo", "fn d() {}"),
        ("x/y/z.cairo", "fn z() {}"),
    ]);
    let tree = match build_virtual_directory(&mut db, "main", &files) {
        Ok(tree) => tree,
        Err(_) => panic!("expected a tree"),
    };
    let count: usize = tree.nodes.iter().map(|n| n.files.len()).sum();
    assert_eq!(count, 5);
    // root, a, a/c, x, x/y
    assert_eq!(tree.nodes.len(), 5);
    let root = &tree.nodes[0];
    assert_eq!(root.files.len(), 2);
    assert_eq!(root.dirs.len(), 2);
    let a = root.dirs.iter().find(|(name, _)| name == "a").unwrap().1;
    let b = tree.nodes[a].files.iter().find(|(name, _)| name == "b.cairo").unwrap().1;
    assert_eq!(db.file_content(b), Some("fn b() {}"));
}

#[test]
fn empty_file_set_gives_empty_tree() {
    let mut db = Database::new();
    let tree = match build_virtual_directory(&mut db, "core", &FileSet::new()) {
        Ok(tree) => tree,
        Err(_) => panic!("expected a tree"),
    };
    assert_eq!(tree.nodes.len(), 1);
    assert!(tree.nodes[0].files.is_empty());
}

#[test]
fn first_invalid_path_in_order_is_reported() {
    let mut db = Database::new();
    let files = file_set(&[("z//a", ""), ("lib.cairo", ""), ("./b", "")]);
    match build_virtual_directory(&mut db, "core", &files) {
        Err(InMemoryProjectError::InvalidVirtualPath { crate_name, path }) => {
            assert_eq!(crate_name, "core");
            assert_eq!(path, "./b");
        }
        _ => panic!("expected an invalid virtual path"),
    }
}

#[test]
fn main_crate_named_core_replaces_the_standard_library() {
    let mut db = Database::new();
    let project = project("core", &[("lib.cairo", "main")], &[("lib.cairo", "std")]);
    setup_in_memory_project(&mut db, &project).unwrap();
    assert_eq!(root_module_content(&db, &plain("core")), Some("main".to_string()));
    match &db.crate_config(&plain("core")).unwrap().root {
        Directory::Virtual(_) => {}
        Directory::Real(_) => panic!("expected a virtual root"),
    }
}
