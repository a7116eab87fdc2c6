use surreal_migraine::source::{
    classify_entries, DiskSource, EmbeddedEntry, EmbeddedFile, EmbeddedSource, FsEntry,
};
use surreal_migraine::types::{Migration, MigrationError, MigrationKind, MigrationSource};

fn entry(name: &str, is_dir: bool) -> FsEntry {
    FsEntry { name: name.to_string(), is_dir }
}

fn embedded_fixture() -> EmbeddedSource {
    EmbeddedSource::new(vec![
        EmbeddedEntry::File {
            name: "001_init.surql".to_string(),
            content: "CREATE TABLE test;".to_string(),
        },
        EmbeddedEntry::Dir {
            name: "002_add_user".to_string(),
            files: vec![
                EmbeddedFile {
                    name: "up.surql".to_string(),
                    content: "CREATE TABLE user;".to_string(),
                },
                EmbeddedFile {
                    name: "down.surql".to_string(),
                    content: "DROP TABLE user;".to_string(),
                },
            ],
        },
    ])
}

#[test]
fn classify_sorts_by_name() {
    let entries = vec![
        entry("002_add_user", true),
        entry("001_init.surql", false),
        entry("010_more.surql", false),
    ];
    let ms = classify_entries(&entries);
    let names: Vec<&str> = ms.iter().map(|m| m.name.as_str()).collect();
    assert_eq!(names, vec!["001_init.surql", "002_add_user", "010_more.surql"]);
    assert_eq!(ms[0].kind, MigrationKind::File);
    assert_eq!(ms[1].kind, MigrationKind::Paired);
}

#[test]
fn classify_drops_non_digit_names() {
    let entries = vec![
        entry("README.md", false),
        entry("001_init.surql", false),
        entry(".hidden", false),
        entry("helpers", true),
    ];
    let ms = classify_entries(&entries);
    assert_eq!(ms.len(), 1);
    assert_eq!(ms[0].name, "001_init.surql");
}

#[test]
fn classify_empty_listing() {
    let entries: Vec<FsEntry> = vec![];
    assert!(classify_entries(&entries).is_empty());
}

#[test]
fn disk_script_paths() {
    let ds = DiskSource::new("migrations".to_string());
    let single = Migration { name: "001_init.surql".to_string(), kind: MigrationKind::File };
    let paired = Migration { name: "002_add_user".to_string(), kind: MigrationKind::Paired };
    assert_eq!(ds.up_script_path(&single), "migrations/001_init.surql");
    assert_eq!(ds.up_script_path(&paired), "migrations/002_add_user/up.surql");
    assert_eq!(ds.down_script_path(&single), None);
    assert_eq!(
        ds.down_script_path(&paired),
        Some("migrations/002_add_user/down.surql".to_string())
    );
}

#[test]
fn embedded_list_and_gets() {
    let src = embedded_fixture();
    let list = src.list().unwrap();

    assert_eq!(list.len(), 2);
    assert_eq!(list[0].name, "001_init.surql");
    match list[0].kind {
        MigrationKind::File => {}
        _ => panic!("expected file migration"),
    }
    assert_eq!(list[1].name, "002_add_user");
    match list[1].kind {
        MigrationKind::Paired => {}
        _ => panic!("expected paired migration"),
    }

    let up0 = src.get_up(&list[0]).unwrap();
    assert_eq!(up0, "CREATE TABLE test;");
    let up1 = src.get_up(&list[1]).unwrap();
    assert_eq!(up1, "CREATE TABLE user;");
    let down0 = src.get_down(&list[0]).unwrap();
    assert_eq!(down0, None);
    let down1 = src.get_down(&list[1]).unwrap();
    assert_eq!(down1, Some("DROP TABLE user;".to_string()));
}

#[test]
fn embedded_list_drops_non_digit_names() {
    let src = EmbeddedSource::new(vec![
        EmbeddedEntry::File { name: "readme.txt".to_string(), content: "hi".to_string() },
        EmbeddedEntry::File { name: "001_a.surql".to_string(), content: "A;".to_string() },
        EmbeddedEntry::Dir { name: "helpers".to_string(), files: vec![] },
    ]);
    let list = src.list().unwrap();
    assert_eq!(list.len(), 1);
    assert_eq!(list[0].name, "001_a.surql");
}

#[test]
fn embedded_missing_entries_are_not_found() {
    let src = embedded_fixture();
    let ghost = Migration { name: "003_ghost.surql".to_string(), kind: MigrationKind::File };
    match src.get_up(&ghost) {
        Err(MigrationError::NotFound(m)) => assert_eq!(m, "migration file not found"),
        other => panic!("expected NotFound, got {:?}", other),
    }
    let ghost_dir = Migration { name: "003_ghost".to_string(), kind: MigrationKind::Paired };
    match src.get_up(&ghost_dir) {
        Err(MigrationError::NotFound(m)) => assert_eq!(m, "migration directory not found"),
        other => panic!("expected NotFound, got {:?}", other),
    }
}

#[test]
fn embedded_paired_without_down_script_errors() {
    let src = EmbeddedSource::new(vec![EmbeddedEntry::Dir {
        name: "001_up_only".to_string(),
        files: vec![EmbeddedFile {
            name: "up.surql".to_string(),
            content: "CREATE TABLE a;".to_string(),
        }],
    }]);
    let list = src.list().unwrap();
    match src.get_down(&list[0]) {
        Err(MigrationError::NotFound(m)) => assert_eq!(m, "down.surql not found"),
        other => panic!("expected NotFound, got {:?}", other),
    }
}

#[test]
fn single_kind_never_yields_down_script() {
    // For both backends, an up-only migration reports "no down script",
    // not an error.
    let src = embedded_fixture();
    let single = Migration { name: "001_init.surql".to_string(), kind: MigrationKind::File };
    assert_eq!(src.get_down(&single).unwrap(), None);

    let ds = DiskSource::new("migrations".to_string());
    assert_eq!(ds.down_script_path(&single), None);
}

#[test]
fn embedded_kind_must_match_entry_shape() {
    // A file entry does not answer for a paired migration of the same
    // name, and the other way round.
    let src = embedded_fixture();
    let as_paired = Migration { name: "001_init.surql".to_string(), kind: MigrationKind::Paired };
    match src.get_up(&as_paired) {
        Err(MigrationError::NotFound(m)) => assert_eq!(m, "migration directory not found"),
        other => panic!("expected NotFound, got {:?}", other),
    }
    let as_file = Migration { name: "002_add_user".to_string(), kind: MigrationKind::File };
    match src.get_up(&as_file) {
        Err(MigrationError::NotFound(m)) => assert_eq!(m, "migration file not found"),
        other => panic!("expected NotFound, got {:?}", other),
    }
}
