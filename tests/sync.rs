use cirup_core::backend::{
    build_backend, parse_backend_kind, remote_auth_token_from_config, remote_url_from_config,
    select_backend, QueryBackendKind,
};
use cirup_core::error::CirupError;
use cirup_core::query::CanonicalQuery;
use cirup_core::revision::RevisionRange;
use cirup_core::sql::materialize_statements;
use cirup_core::sync::{
    find_language_file, join, pull_steps, push_steps, select_languages, sync_range, LanguageFile,
    LanguageMatcher, SyncDirs, SyncStep,
};
use cirup_core::Resource;

fn dirs() -> SyncDirs {
    SyncDirs { source_dir: "res".to_string(), working_dir: "work".to_string(), temp_dir: "/tmp/x".to_string() }
}

fn show(step: &SyncStep) -> (String, Option<String>, String) {
    match step {
        SyncStep::Show { vcs_path, revision, out_path } => (vcs_path.clone(), revision.clone(), out_path.clone()),
        _ => panic!("expected a show step"),
    }
}

fn query(step: &SyncStep) -> (CanonicalQuery, String, String, String) {
    match step {
        SyncStep::Query { query, a, b, out_path } => (*query, a.clone(), b.clone(), out_path.clone()),
        _ => panic!("expected a query step"),
    }
}

#[test]
fn backend_tags_and_aliases() {
    assert_eq!(parse_backend_kind("embedded"), Some(QueryBackendKind::Rusqlite));
    assert_eq!(parse_backend_kind("  RuSQLite\n"), Some(QueryBackendKind::Rusqlite));
    for t in ["local-managed", "turso-local", "turso_local", "TURSO"] {
        assert_eq!(parse_backend_kind(t), Some(QueryBackendKind::TursoLocal));
    }
    for t in ["remote-managed", "turso-remote", "turso_remote", "libsql-remote", " libsql_remote "] {
        assert_eq!(parse_backend_kind(t), Some(QueryBackendKind::TursoRemote));
    }
    assert_eq!(parse_backend_kind("postgres"), None);
}

#[test]
fn backend_selection_prefers_configuration() {
    assert_eq!(select_backend(Some("turso"), Some("embedded")).unwrap(), QueryBackendKind::TursoLocal);
    assert_eq!(select_backend(None, Some("libsql-remote")).unwrap(), QueryBackendKind::TursoRemote);
    assert_eq!(select_backend(None, None).unwrap(), QueryBackendKind::Rusqlite);
    assert!(matches!(select_backend(Some("nope"), None), Err(CirupError::Config(_))));
    assert_eq!(build_backend(QueryBackendKind::TursoRemote, &None), QueryBackendKind::Rusqlite);
    assert_eq!(build_backend(QueryBackendKind::TursoRemote, &Some("u".to_string())), QueryBackendKind::TursoRemote);
}

#[test]
fn remote_settings_precedence() {
    let env = vec![None, Some("libsql://env".to_string()), Some("hrana".to_string())];
    assert_eq!(remote_url_from_config(Some("libsql://cfg".to_string()), env.clone()), Some("libsql://cfg".to_string()));
    assert_eq!(remote_url_from_config(None, env), Some("libsql://env".to_string()));
    assert_eq!(remote_auth_token_from_config(None, vec![None, None, None]), "");
    assert_eq!(remote_auth_token_from_config(None, vec![None, None, Some("t".to_string())]), "t");
}

#[test]
fn materialize_in_chunks() {
    let few = vec![Resource::new("k", "v")];
    let stmts = materialize_statements("t", &few).unwrap();
    assert_eq!(
        stmts,
        vec![
            "DROP TABLE IF EXISTS t; CREATE TABLE t (key TEXT, val TEXT);".to_string(),
            "BEGIN".to_string(),
            "INSERT INTO t (key, val) VALUES ('k','v');".to_string(),
            "CREATE INDEX IF NOT EXISTS idx_t_key ON t (key);".to_string(),
            "COMMIT".to_string(),
        ]
    );
    let many: Vec<Resource> = (0..4500).map(|i| Resource::new(&format!("k{}", i), "v")).collect();
    let stmts = materialize_statements("t", &many).unwrap();
    assert_eq!(stmts.len(), 2 + 3 + 2);
    assert_eq!(materialize_statements("t", &vec![]).unwrap().len(), 1);
    assert!(matches!(materialize_statements("bad name", &few), Err(CirupError::Validation(_))));
}

#[test]
fn pull_without_old_revision() {
    let steps = pull_steps(&dirs(), "en.json", &vec!["fr.json".to_string()], None, None, "ab/c1", false);
    assert_eq!(steps.len(), 3);
    assert_eq!(show(&steps[0]), ("res/en.json".to_string(), None, "work/en.~abc1~.json".to_string()));
    assert_eq!(show(&steps[1]), ("res/fr.json".to_string(), None, "/tmp/x/fr.~abc1~.json".to_string()));
    assert_eq!(
        query(&steps[2]),
        (CanonicalQuery::Diff, "work/en.~abc1~.json".to_string(), "/tmp/x/fr.~abc1~.json".to_string(), "work/fr.~abc1~.json".to_string())
    );
}

#[test]
fn pull_with_old_revision() {
    let steps = pull_steps(&dirs(), "en.json", &vec!["fr.json".to_string()], Some("o1"), Some("n2"), "cur", true);
    assert_eq!(steps.len(), 5);
    assert_eq!(show(&steps[0]), ("res/en.json".to_string(), Some("o1".to_string()), "/tmp/x/en.~o1-~.json".to_string()));
    assert_eq!(show(&steps[1]), ("res/en.json".to_string(), Some("n2".to_string()), "/tmp/x/en.~n2~.json".to_string()));
    assert_eq!(
        query(&steps[2]),
        (CanonicalQuery::Change, "/tmp/x/en.~n2~.json".to_string(), "/tmp/x/en.~o1-~.json".to_string(), "work/en.~o1-n2~.json".to_string())
    );
    assert_eq!(query(&steps[4]).0, CanonicalQuery::PullLeftJoin);
    assert_eq!(query(&steps[4]).3, "work/fr.~o1-n2~.json");
}

#[test]
fn push_merges_changed_translations() {
    let marked = RevisionRange::new(None, Some("n2"));
    let translations = vec![
        LanguageFile { language: "fr".to_string(), path: "work/fr.~n2~.json".to_string(), file_name: "fr.json".to_string(), revision: RevisionRange::new(None, Some("n2")) },
        LanguageFile { language: "de".to_string(), path: "work/de.~x~.json".to_string(), file_name: "de.json".to_string(), revision: RevisionRange::new(None, Some("x")) },
        LanguageFile { language: "en".to_string(), path: "work/en.~n2~.json".to_string(), file_name: "en.json".to_string(), revision: marked },
    ];
    let repository = vec![
        LanguageFile { language: "fr".to_string(), path: "res/fr.json".to_string(), file_name: "fr.json".to_string(), revision: RevisionRange::new(None, None) },
    ];
    let steps = push_steps(&dirs(), "en.json", "en", &translations, &repository, None, Some("n2"), "cur").unwrap();
    assert_eq!(steps.len(), 3);
    assert_eq!(show(&steps[0]), ("res/en.json".to_string(), None, "/tmp/x/en.~n2~.json".to_string()));
    assert_eq!(
        query(&steps[1]),
        (CanonicalQuery::PushChangedValues, "/tmp/x/en.~n2~.json".to_string(), "work/fr.~n2~.json".to_string(), "/tmp/x/fr.~n2~.json".to_string())
    );
    assert_eq!(
        query(&steps[2]),
        (CanonicalQuery::Merge, "res/fr.json".to_string(), "/tmp/x/fr.~n2~.json".to_string(), "res/fr.json".to_string())
    );
    assert!(matches!(
        push_steps(&dirs(), "en.json", "en", &translations, &repository, None, Some("zz"), "cur"),
        Err(CirupError::Config(_))
    ));
}

#[test]
fn language_discovery() {
    let m = LanguageMatcher::new(r"\.json$", r"^strings\.(.+?)\.json$").unwrap();
    let f = find_language_file("res/strings.fr.~a-b~.json", &m).unwrap();
    assert_eq!(f.language, "fr");
    assert_eq!(f.file_name, "strings.fr.json");
    assert_eq!(f.revision, RevisionRange::new(Some("a"), Some("b")));
    assert!(find_language_file("res/readme.md", &m).is_none());
    assert!(matches!(LanguageMatcher::new("(", "x"), Err(CirupError::Config(_))));
    assert_eq!(m.language_of("strings.de.json"), Some("de".to_string()));
    assert_eq!(m.language_of("strings.de.resx"), None);
    assert_eq!(m.language_of("other.json"), None);
    let loose = LanguageMatcher { file_pattern: "(".to_string(), name_pattern: "(.*)".to_string() };
    assert_eq!(loose.language_of("x"), None);
    let codes = vec!["fr".to_string(), "en".to_string(), "de".to_string()];
    assert_eq!(select_languages(&codes, "en", &Some(vec!["de".to_string()])).unwrap(), vec![1, 2]);
    assert_eq!(select_languages(&codes, "en", &None).unwrap(), vec![0, 1, 2]);
    assert!(matches!(select_languages(&codes, "it", &None), Err(CirupError::Config(_))));
    assert_eq!(join("a/", "b"), "a/b");
    assert_eq!(join("a", "b"), "a/b");
    assert_eq!(sync_range(Some("o"), None, "c/d!").to_string(), "o-cd");
}
