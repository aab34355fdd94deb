use cyberapi::StoreError;
use cyberapi::backup::{export_entries, import_entries, import_tables, replace_table_rows};
use cyberapi::codec::{decode_table, encode_table};
use cyberapi::envvars::EnvVars;
use cyberapi::fsmodel::FileSystem;
use cyberapi::locator::AppConfig;
use cyberapi::records::{Environment, Proxy};
use cyberapi::store::{Row, Store, Table};

fn cols(names: &[&str]) -> Vec<String> {
    names.iter().map(|n| n.to_string()).collect()
}

fn row(cells: &[Option<&str>]) -> Row {
    Row { cells: cells.iter().map(|c| c.map(|s| s.to_string())).collect() }
}

fn base_config(dir: &str) -> AppConfig {
    let mut cfg = AppConfig::new();
    cfg.set_app_dir(dir.to_string());
    cfg
}

fn table_rows<'a>(store: &'a Store, name: &str) -> &'a Vec<Row> {
    let i = store.find_table(name).unwrap();
    &store.tables[i].rows
}

fn sample_environment(id: &str) -> Environment {
    Environment {
        id: id.to_string(),
        collection: "c1".to_string(),
        name: Some("dev".to_string()),
        enabled: Some("1".to_string()),
        created_at: Some("2024-01-01T00:00:00+00:00".to_string()),
        updated_at: None,
    }
}

#[test]
fn resolve_override_with_db_extension_is_verbatim() {
    let mut cfg = base_config("/app");
    cfg.set_db_path("/custom/store.sqlite".to_string());
    let env = EnvVars::new();
    let mut fs = FileSystem::new();
    let p = cyberapi::locator::resolve_db_file(&cfg, &env, &mut fs);
    assert_eq!(p, "/custom/store.sqlite");
}

#[test]
fn resolve_override_without_extension_appends_db_filename() {
    let mut cfg = base_config("/app");
    cfg.set_db_path("%HOME%/data".to_string());
    let mut env = EnvVars::new();
    env.set_var("HOME".to_string(), "/users/alice".to_string());
    let mut fs = FileSystem::new();
    let p = cyberapi::locator::resolve_db_file(&cfg, &env, &mut fs);
    assert_eq!(p, "/users/alice/data/db.db");
}

#[test]
fn blank_override_is_ignored() {
    let mut cfg = base_config("/app");
    cfg.set_db_path("   ".to_string());
    assert_eq!(cfg.get_db_path(), None);
    let env = EnvVars::new();
    let mut fs = FileSystem::new();
    let p = cyberapi::locator::resolve_db_file(&cfg, &env, &mut fs);
    assert_eq!(p, "/app/db.db");
}

#[test]
fn fresh_install_resolves_to_primary() {
    let cfg = base_config("/app");
    let env = EnvVars::new();
    let mut fs = FileSystem::new();
    let p = cyberapi::locator::resolve_db_file(&cfg, &env, &mut fs);
    assert_eq!(p, "/app/db.db");
    assert!(!fs.is_file("/app/db.db"));
}

#[test]
fn legacy_file_migrates_by_copy() {
    let mut cfg = base_config("/app");
    cfg.set_legacy_app_dir(Some("/old".to_string()));
    let env = EnvVars::new();
    let mut fs = FileSystem::new();
    fs.write_file("/old/db.db", vec![1, 2, 3]).unwrap();
    let p = cyberapi::locator::resolve_db_file(&cfg, &env, &mut fs);
    assert_eq!(p, "/app/db.db");
    // copy, not move: the legacy file still exists, byte-identical
    assert_eq!(fs.read_file("/old/db.db").unwrap(), vec![1, 2, 3]);
    assert_eq!(fs.read_file("/app/db.db").unwrap(), vec![1, 2, 3]);
}

#[test]
fn resolution_is_idempotent() {
    let mut cfg = base_config("/app");
    cfg.set_legacy_app_dir(Some("/old".to_string()));
    let env = EnvVars::new();
    let mut fs = FileSystem::new();
    fs.write_file("/old/db.db", vec![7]).unwrap();
    let p1 = cyberapi::locator::resolve_db_file(&cfg, &env, &mut fs);
    let p2 = cyberapi::locator::resolve_db_file(&cfg, &env, &mut fs);
    assert_eq!(p1, p2);
}

#[test]
fn migration_happens_at_most_once() {
    let mut cfg = base_config("/app");
    cfg.set_legacy_app_dir(Some("/old".to_string()));
    let env = EnvVars::new();
    let mut fs = FileSystem::new();
    fs.write_file("/old/db.db", vec![1]).unwrap();
    let p1 = cyberapi::locator::resolve_db_file(&cfg, &env, &mut fs);
    assert_eq!(p1, "/app/db.db");
    // the primary moves on; a second resolution must not copy the old
    // contents over it again
    fs.write_file("/app/db.db", vec![9, 9]).unwrap();
    let p2 = cyberapi::locator::resolve_db_file(&cfg, &env, &mut fs);
    assert_eq!(p2, "/app/db.db");
    assert_eq!(fs.read_file("/app/db.db").unwrap(), vec![9, 9]);
}

#[test]
fn failed_copy_falls_back_to_legacy_path() {
    let mut cfg = base_config("/app");
    cfg.set_legacy_app_dir(Some("/old".to_string()));
    let env = EnvVars::new();
    let mut fs = FileSystem::new();
    fs.write_file("/old/db.db", vec![1]).unwrap();
    fs.deny_path("/app/db.db".to_string());
    let p = cyberapi::locator::resolve_db_file(&cfg, &env, &mut fs);
    assert_eq!(p, "/old/db.db");
    assert!(!fs.is_file("/app/db.db"));
}

#[test]
fn settings_file_has_fixed_location() {
    let cfg = base_config("/app");
    assert_eq!(cyberapi::locator::resolve_settings_file(&cfg), "/app/settings.json");
}

#[test]
fn settings_read_migrates_from_legacy() {
    let mut cfg = base_config("/app");
    cfg.set_legacy_app_dir(Some("/old".to_string()));
    let mut fs = FileSystem::new();
    fs.write_file("/old/settings.json", b"{}".to_vec()).unwrap();
    let p = cyberapi::locator::resolve_settings_file_for_read(&cfg, &mut fs);
    assert_eq!(p, "/app/settings.json");
    assert!(fs.is_file("/old/settings.json"));
    assert_eq!(fs.read_file("/app/settings.json").unwrap(), b"{}".to_vec());
}

#[test]
fn appdata_migration_copies_both_files_once() {
    let mut fs = FileSystem::new();
    fs.write_file("/old/settings.json", vec![1]).unwrap();
    fs.write_file("/old/db.db", vec![2]).unwrap();
    fs.write_file("/portable/db.db", vec![3]).unwrap();
    cyberapi::locator::migrate_from_appdata_to_portable("/old", "/portable", &mut fs).unwrap();
    assert_eq!(fs.read_file("/portable/settings.json").unwrap(), vec![1]);
    // an existing target is never overwritten
    assert_eq!(fs.read_file("/portable/db.db").unwrap(), vec![3]);
    assert!(fs.is_file("/old/settings.json"));
}

#[test]
fn init_tables_creates_schema_and_is_idempotent() {
    let mut store = Store::new();
    cyberapi::store::init_tables(&mut store);
    assert!(store.find_table("versions").is_some());
    assert!(store.find_table("environments").is_some());
    assert!(store.find_table("proxies").is_some());
    let snapshot = store.clone();
    cyberapi::store::init_tables(&mut store);
    assert_eq!(store, snapshot);
}

#[test]
fn init_tables_adds_missing_column_with_default() {
    let old_cols = cols(&["id", "proxy", "list", "mode", "created_at", "updated_at"]);
    let mut store = Store {
        tables: vec![Table {
            name: "proxies".to_string(),
            columns: old_cols,
            rows: vec![row(&[Some("p1"), None, None, None, Some("t"), Some("t")])],
        }],
    };
    cyberapi::store::init_tables(&mut store);
    let i = store.find_table("proxies").unwrap();
    assert_eq!(store.tables[i].columns.last().unwrap(), "enabled");
    assert_eq!(store.tables[i].rows[0].cells.last().unwrap(), &Some("1".to_string()));
    let snapshot = store.clone();
    cyberapi::store::init_tables(&mut store);
    assert_eq!(store, snapshot);
}

#[test]
fn column_scan_and_alter_statement() {
    let names = cols(&["id", "proxy"]);
    assert!(cyberapi::store::column_exists(&names, "proxy"));
    assert!(!cyberapi::store::column_exists(&names, "enabled"));
    assert_eq!(
        cyberapi::store::alter_add_column_sql("proxies", "enabled TEXT DEFAULT '1'"),
        "ALTER TABLE proxies ADD COLUMN enabled TEXT DEFAULT '1'"
    );
    assert_eq!(cyberapi::store::pragma_table_info_sql("proxies"), "PRAGMA table_info(proxies)");
    assert_eq!(cyberapi::store::connection_uri("/app/db.db"), "sqlite:///app/db.db");
}

#[test]
fn create_statements_are_create_if_not_exists() {
    assert!(cyberapi::records::get_environments_create_sql()
        .starts_with("CREATE TABLE IF NOT EXISTS environments"));
    assert!(cyberapi::records::get_proxies_create_sql()
        .starts_with("CREATE TABLE IF NOT EXISTS proxies"));
    assert!(cyberapi::records::get_versions_table_create_sql()
        .starts_with("CREATE TABLE IF NOT EXISTS versions"));
    assert_eq!(cyberapi::records::get_table_name_environment(), "environments");
    assert_eq!(cyberapi::records::get_table_name_proxy(), "proxies");
}

#[test]
fn encode_table_writes_canonical_document() {
    let c = cols(&["id", "name"]);
    let rows = vec![row(&[Some("a\"b"), None]), row(&[Some("x"), Some("line\nend")])];
    let text = encode_table(&c, &rows);
    assert_eq!(
        text,
        "[{\"id\":\"a\\\"b\",\"name\":null},{\"id\":\"x\",\"name\":\"line\\u000aend\"}]"
    );
}

#[test]
fn decode_inverts_encode() {
    let c = cols(&["id", "name"]);
    let rows = vec![
        row(&[Some("a\"b\\c"), None]),
        row(&[Some(""), Some("tab\there")]),
        row(&[Some("unicode \u{00e9}\u{4e16}"), Some("x")]),
    ];
    let text = encode_table(&c, &rows);
    let back = decode_table(&c, text.as_str()).unwrap();
    assert_eq!(back, rows);
}

#[test]
fn decode_accepts_whitespace_reordered_and_missing_keys() {
    let c = cols(&["id", "name"]);
    let text = " [ {\"name\": \"n1\", \"id\": \"a\"} , {\"id\": \"b\"} ] ";
    let back = decode_table(&c, text).unwrap();
    assert_eq!(back, vec![row(&[Some("a"), Some("n1")]), row(&[Some("b"), None])]);
}

#[test]
fn decode_accepts_escapes() {
    let c = cols(&["id"]);
    let back = decode_table(&c, "[{\"id\":\"a\\n\\t\\/\\u0041\"}]").unwrap();
    assert_eq!(back, vec![row(&[Some("a\n\t/A")])]);
}

#[test]
fn decode_rejects_malformed_documents() {
    let c = cols(&["id"]);
    assert_eq!(decode_table(&c, "not json"), Err(StoreError::Codec));
    assert_eq!(decode_table(&c, "[{\"id\":\"a\"}"), Err(StoreError::Codec));
    assert_eq!(decode_table(&c, "[{\"other\":\"a\"}]"), Err(StoreError::Codec));
    assert_eq!(decode_table(&c, "[{\"id\":42}]"), Err(StoreError::Codec));
    assert_eq!(decode_table(&c, "[] trailing"), Err(StoreError::Codec));
}

#[test]
fn environment_row_round_trip() {
    let e = sample_environment("e1");
    let r = e.to_row();
    let back = Environment::from_row(&r).unwrap();
    assert_eq!(back, e);
    assert_eq!(Environment::from_row(&row(&[Some("only")])), None);
}

#[test]
fn proxy_row_round_trip() {
    let p = Proxy {
        id: "p1".to_string(),
        proxy: Some("http://127.0.0.1:8080".to_string()),
        list: None,
        mode: Some("all".to_string()),
        enabled: Some("1".to_string()),
        created_at: None,
        updated_at: None,
    };
    let r = p.to_row();
    let back = Proxy::from_row(&r).unwrap();
    assert_eq!(back, p);
}

#[test]
fn missing_timestamps_take_the_given_time() {
    let e = sample_environment("e1");
    let filled = e.with_default_timestamps("NOW");
    assert_eq!(filled.created_at, Some("2024-01-01T00:00:00+00:00".to_string()));
    assert_eq!(filled.updated_at, Some("NOW".to_string()));
    let p = sample_environment("e2").prepared_for_insert();
    assert!(p.updated_at.is_some());
}

#[test]
fn export_entries_names_and_empty_tables() {
    let mut store = Store::new();
    cyberapi::store::init_tables(&mut store);
    let entries = export_entries(&store);
    assert_eq!(entries.len(), 2);
    assert_eq!(entries[0].name, "environments.json");
    assert_eq!(entries[1].name, "proxies.json");
    assert_eq!(entries[0].text, "[]");
    assert_eq!(entries[1].text, "[]");
}

#[test]
fn entry_level_round_trip_restores_rows() {
    let mut store = Store::new();
    cyberapi::store::init_tables(&mut store);
    let e1 = sample_environment("e1").to_row();
    let e2 = sample_environment("e2").to_row();
    replace_table_rows(&mut store, "environments", vec![e1.clone(), e2.clone()]);
    let entries = export_entries(&store);
    let mut store2 = Store::new();
    cyberapi::store::init_tables(&mut store2);
    import_entries(&mut store2, &entries).unwrap();
    assert_eq!(table_rows(&store2, "environments"), &vec![e1, e2]);
    assert_eq!(table_rows(&store2, "proxies").len(), 0);
}

#[test]
fn import_replaces_rather_than_merges() {
    let mut store = Store::new();
    cyberapi::store::init_tables(&mut store);
    replace_table_rows(&mut store, "environments", vec![sample_environment("old").to_row()]);
    let entries = vec![cyberapi::backup::ArchiveEntry {
        name: "environments.json".to_string(),
        text: "[{\"id\":\"new\",\"collection\":\"c\"}]".to_string(),
    }];
    import_entries(&mut store, &entries).unwrap();
    let rows = table_rows(&store, "environments");
    assert_eq!(rows.len(), 1);
    assert_eq!(rows[0].cells[0], Some("new".to_string()));
}

#[test]
fn missing_entry_leaves_table_empty_not_failing() {
    let mut store = Store::new();
    cyberapi::store::init_tables(&mut store);
    replace_table_rows(&mut store, "environments", vec![sample_environment("e").to_row()]);
    let entries = vec![cyberapi::backup::ArchiveEntry {
        name: "proxies.json".to_string(),
        text: "[]".to_string(),
    }];
    assert_eq!(import_entries(&mut store, &entries), Ok(()));
    assert_eq!(table_rows(&store, "environments").len(), 0);
}

#[test]
fn bad_entry_aborts_import_after_clearing() {
    let mut store = Store::new();
    cyberapi::store::init_tables(&mut store);
    replace_table_rows(&mut store, "environments", vec![sample_environment("e").to_row()]);
    let entries = vec![cyberapi::backup::ArchiveEntry {
        name: "environments.json".to_string(),
        text: "broken".to_string(),
    }];
    assert_eq!(import_entries(&mut store, &entries), Err(StoreError::Codec));
    assert_eq!(table_rows(&store, "environments").len(), 0);
}

#[test]
fn archive_round_trip_through_zip() {
    let mut store = Store::new();
    cyberapi::store::init_tables(&mut store);
    let e1 = sample_environment("e1").to_row();
    replace_table_rows(&mut store, "environments", vec![e1.clone()]);
    let cfg = base_config("/data");
    let env = EnvVars::new();
    let mut fs = FileSystem::new();
    let fname =
        cyberapi::backup::export_tables_on(&store, &cfg, &env, &mut fs, "2024-01-02").unwrap();
    assert_eq!(fname, "cyberapi-backup-2024-01-02.zip");
    let path = format!("/data/{}", fname);
    assert!(fs.is_file(path.as_str()));
    let mut store2 = Store::new();
    cyberapi::store::init_tables(&mut store2);
    import_tables(&mut store2, &fs, path.as_str()).unwrap();
    assert_eq!(table_rows(&store2, "environments"), &vec![e1]);
    assert_eq!(table_rows(&store2, "proxies").len(), 0);
}

#[test]
fn export_with_dated_name_from_clock() {
    let mut store = Store::new();
    cyberapi::store::init_tables(&mut store);
    let cfg = base_config("/data");
    let env = EnvVars::new();
    let mut fs = FileSystem::new();
    let fname = cyberapi::backup::export_tables(&store, &cfg, &env, &mut fs).unwrap();
    assert!(fname.starts_with("cyberapi-backup-"));
    assert!(fname.ends_with(".zip"));
}

#[test]
fn export_to_denied_target_leaves_no_archive() {
    let mut store = Store::new();
    cyberapi::store::init_tables(&mut store);
    let cfg = base_config("/data");
    let env = EnvVars::new();
    let mut fs = FileSystem::new();
    fs.deny_path("/data/cyberapi-backup-2024-01-02.zip".to_string());
    let r = cyberapi::backup::export_tables_on(&store, &cfg, &env, &mut fs, "2024-01-02");
    assert_eq!(r, Err(StoreError::Path));
    assert!(!fs.is_file("/data/cyberapi-backup-2024-01-02.zip"));
}

#[test]
fn import_missing_archive_fails_before_touching_tables() {
    let mut store = Store::new();
    cyberapi::store::init_tables(&mut store);
    replace_table_rows(&mut store, "environments", vec![sample_environment("e").to_row()]);
    let fs = FileSystem::new();
    assert_eq!(import_tables(&mut store, &fs, "/data/none.zip"), Err(StoreError::Archive));
    assert_eq!(table_rows(&store, "environments").len(), 1);
}

#[test]
fn import_corrupt_archive_fails_before_touching_tables() {
    let mut store = Store::new();
    cyberapi::store::init_tables(&mut store);
    replace_table_rows(&mut store, "environments", vec![sample_environment("e").to_row()]);
    let mut fs = FileSystem::new();
    fs.write_file("/data/bad.zip", vec![0, 1, 2, 3, 4]).unwrap();
    assert_eq!(import_tables(&mut store, &fs, "/data/bad.zip"), Err(StoreError::Archive));
    assert_eq!(table_rows(&store, "environments").len(), 1);
}

#[test]
fn path_helpers_follow_the_model() {
    assert_eq!(cyberapi::paths::path_join("/a/b", "c"), "/a/b/c");
    assert_eq!(cyberapi::paths::path_join("/a/b/", "c"), "/a/b/c");
    assert_eq!(cyberapi::paths::parent_of("/a/b/c"), Some("/a/b".to_string()));
    assert_eq!(cyberapi::paths::parent_of("file"), None);
    assert_eq!(cyberapi::paths::extension_of("/a/b.sqlite"), Some("sqlite".to_string()));
    assert_eq!(cyberapi::paths::extension_of("/a.dir/b"), None);
    assert_eq!(cyberapi::paths::extension_of("/a/.hidden"), None);
    assert!(cyberapi::paths::is_db_file("/x/store.DB"));
    assert!(cyberapi::paths::is_db_file("/x/store.sqlite"));
    assert!(!cyberapi::paths::is_db_file("/x/store.txt"));
    assert!(!cyberapi::paths::is_db_file("/x/data"));
}

#[test]
fn trim_strips_both_ends_only() {
    assert_eq!(cyberapi::locator::trim_str("  a b \t"), "a b");
    assert_eq!(cyberapi::locator::trim_str("\n\t "), "");
    assert_eq!(cyberapi::locator::trim_str(""), "");
}

#[test]
fn config_records_values_once() {
    let mut cfg = AppConfig::new();
    cfg.set_app_dir("/app".to_string());
    assert_eq!(cfg.get_app_dir().as_str(), "/app");
    cfg.set_legacy_app_dir(None);
    assert!(cfg.legacy_app_dir().is_none());
    cfg.set_legacy_app_dir(Some("/old".to_string()));
    cfg.set_legacy_app_dir(Some("/other".to_string()));
    assert_eq!(cfg.legacy_app_dir(), Some(&"/old".to_string()));
    assert_eq!(cfg.legacy_app_file("db.db"), Some("/old/db.db".to_string()));
    cfg.set_db_path("/p/db.db".to_string());
    assert_eq!(cfg.get_db_path(), Some("/p/db.db".to_string()));
    cfg.set_db_path(" ".to_string());
    assert_eq!(cfg.get_db_path(), None);
}
