use cairo_project_setup::config::{CratesConfig, DeserializationError, ProjectConfig};
use cairo_project_setup::database::{CrateInput, CrateSettings, Database, Edition};
use cairo_project_setup::directory::Directory;
use cairo_project_setup::project::root_module_content;
use cairo_project_setup::single_file::{
    check_compiler_path, setup_project, setup_single_file_project, CompilerPathError, PathKind,
    ProjectError, ProjectSource, SingleFile,
};

fn lone(path: &str, exists: bool, canonical: Option<&str>) -> SingleFile {
    SingleFile { path: path.to_string(), exists, canonical: canonical.map(|c| c.to_string()) }
}

fn settings(name: Option<&str>) -> CrateSettings {
    CrateSettings { name: name.map(|n| n.to_string()), edition: Edition::V2023_10, experimental_features: false }
}

#[test]
fn lone_file_gets_a_generated_root_module() {
    let mut db = Database::new();
    let file = lone("src/hello.cairo", true, Some("/work/src/hello.cairo"));
    let input = setup_single_file_project(&mut db, &file).unwrap();
    assert_eq!(input.name, "hello");
    assert_eq!(input.discriminator, None);
    assert_eq!(root_module_content(&db, &input), Some("mod hello;".to_string()));
    match &db.crate_config(&input).unwrap().root {
        Directory::Real(dir) => assert_eq!(dir, "/work/src"),
        Directory::Virtual(_) => panic!("expected a directory on disk"),
    }
}

#[test]
fn lib_file_makes_its_directory_the_crate() {
    let mut db = Database::new();
    let file = lone("lib.cairo", true, Some("/work/pkg/lib.cairo"));
    let input = setup_single_file_project(&mut db, &file).unwrap();
    assert_eq!(input.name, "/work/pkg");
    assert_eq!(root_module_content(&db, &input), None);
}

#[test]
fn file_at_the_file_system_root() {
    let mut db = Database::new();
    let file = lone("/a.b.cairo", true, Some("/a.b.cairo"));
    let input = setup_single_file_project(&mut db, &file).unwrap();
    assert_eq!(input.name, "a.b");
    assert_eq!(root_module_content(&db, &input), Some("mod a.b;".to_string()));
}

#[test]
fn single_file_errors() {
    let mut db = Database::new();
    assert!(matches!(
        setup_single_file_project(&mut db, &lone("a.rs", true, Some("/a.rs"))),
        Err(ProjectError::BadFileExtension)
    ));
    assert!(matches!(
        setup_single_file_project(&mut db, &lone(".cairo", true, Some("/.cairo"))),
        Err(ProjectError::BadFileExtension)
    ));
    match setup_single_file_project(&mut db, &lone("gone.cairo", false, None)) {
        Err(ProjectError::NoSuchFile { path }) => assert_eq!(path, "gone.cairo"),
        _ => panic!("expected a missing file"),
    }
    match setup_single_file_project(&mut db, &lone("odd.cairo", true, None)) {
        Err(ProjectError::BadPath { path }) => assert_eq!(path, "odd.cairo"),
        _ => panic!("expected a bad path"),
    }
}

fn manifest() -> ProjectConfig {
    ProjectConfig {
        base_path: "/work".to_string(),
        crate_roots: vec![
            ("app".to_string(), "src".to_string()),
            ("std".to_string(), "/opt/corelib/src".to_string()),
            ("utils".to_string(), "vendor/utils".to_string()),
        ],
        crates_config: CratesConfig {
            global: settings(None),
            overrides: vec![
                ("std".to_string(), settings(Some("core"))),
                ("utils".to_string(), settings(Some("helpers"))),
            ],
        },
    }
}

#[test]
fn manifest_crates_are_registered_with_names_and_discriminators() {
    let mut db = Database::new();
    let inputs = setup_project(&mut db, ProjectSource::Manifest(Ok(manifest()))).unwrap();
    assert_eq!(inputs.len(), 3);
    assert_eq!(inputs[0].name, "app");
    assert_eq!(inputs[0].discriminator, Some("app".to_string()));
    assert_eq!(inputs[1].name, "core");
    assert_eq!(inputs[1].discriminator, None);
    assert_eq!(inputs[2].name, "helpers");
    assert_eq!(inputs[2].discriminator, Some("utils".to_string()));
    let roots: Vec<String> = inputs
        .iter()
        .map(|input| match &db.crate_config(input).unwrap().root {
            Directory::Real(dir) => dir.clone(),
            Directory::Virtual(_) => panic!("expected a directory on disk"),
        })
        .collect();
    assert_eq!(roots, vec!["/work/src", "/opt/corelib/src", "/work/vendor/utils"]);
    let plain = CrateInput { name: "helpers".to_string(), discriminator: None };
    assert!(db.crate_config(&plain).is_none());
}

#[test]
fn manifest_load_failure_is_passed_on() {
    let mut db = Database::new();
    let error = DeserializationError { message: "bad toml".to_string() };
    match setup_project(&mut db, ProjectSource::Manifest(Err(error))) {
        Err(ProjectError::LoadProjectError(e)) => assert_eq!(e.message, "bad toml"),
        _ => panic!("expected a load error"),
    }
}

#[test]
fn single_file_source() {
    let mut db = Database::new();
    let inputs =
        setup_project(&mut db, ProjectSource::SingleFile(lone("x.cairo", true, Some("/w/x.cairo")))).unwrap();
    assert_eq!(inputs.len(), 1);
    assert_eq!(inputs[0].name, "x");
}

#[test]
fn compiler_path_kinds() {
    assert_eq!(check_compiler_path(true, PathKind::File), Ok(()));
    assert_eq!(check_compiler_path(false, PathKind::Directory), Ok(()));
    assert_eq!(check_compiler_path(false, PathKind::File), Err(CompilerPathError::FileWithoutSingleFile));
    assert_eq!(check_compiler_path(true, PathKind::Directory), Err(CompilerPathError::DirectoryWithSingleFile));
    assert_eq!(check_compiler_path(true, PathKind::Missing), Err(CompilerPathError::DoesNotExist));
    assert_eq!(
        CompilerPathError::DoesNotExist.message(),
        "The given path does not exist."
    );
}
