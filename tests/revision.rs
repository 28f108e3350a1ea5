use cirup_core::revision::{LanguageRevision, RevisionRange};

#[test]
fn revision_range_to_string_test() {
    let mut a = RevisionRange { old_rev: Some("r123".to_string()), new_rev: Some("r456".to_string()) };
    assert_eq!(a.to_string(), "r123-r456");
    a = RevisionRange { old_rev: Some("r123".to_string()), new_rev: None };
    assert_eq!(a.to_string(), "r123-");
    a = RevisionRange { old_rev: Some("r456".to_string()), new_rev: None };
    assert_eq!(a.to_string(), "r456-");
    a = RevisionRange { old_rev: None, new_rev: None };
    assert_eq!(a.to_string(), "");
}

#[test]
fn revision_range_from_string_test() {
    let mut a = RevisionRange::from_string("r123-r456");
    assert_eq!(a.old_rev, Some("r123".to_string()));
    assert_eq!(a.new_rev, Some("r456".to_string()));
    a = RevisionRange::from_string("r123");
    assert_eq!(a.old_rev, None);
    assert_eq!(a.new_rev, Some("r123".to_string()));
    a = RevisionRange::from_string("");
    assert_eq!(a.old_rev, None);
    assert_eq!(a.new_rev, None);
    a = RevisionRange::from_string("-");
    assert_eq!(a.old_rev, None);
    assert_eq!(a.new_rev, None);
}

#[test]
fn revision_range_append_to_file_name_test() {
    let mut p = "/test/path/myfile.resx".to_string();
    let rev = RevisionRange { old_rev: Some("r123".to_string()), new_rev: Some("r456".to_string()) };
    p = rev.append_to_file_name(&p);
    assert_eq!(p, "/test/path/myfile.~r123-r456~.resx");
}

#[test]
fn revision_range_extract_from_file_name_test() {
    let (revision, path) = RevisionRange::extract_from_file_name("/test/path/myfile.~r123-r456~.resx");
    assert_eq!(revision.old_rev, Some("r123".to_string()));
    assert_eq!(revision.new_rev, Some("r456".to_string()));
    assert_eq!(path, "/test/path/myfile.resx");
    let (revision, path) = RevisionRange::extract_from_file_name("/test/path/myfile.not.a.revision.resx");
    assert_eq!(revision.old_rev, None);
    assert_eq!(revision.new_rev, None);
    assert_eq!(path, "/test/path/myfile.not.a.revision.resx");
}

#[test]
fn language_revision_to_string_test() {
    let mut a = LanguageRevision { old_rev: Some("r123".to_string()), new_rev: Some("r456".to_string()) };
    assert_eq!(a.to_string(), "r123-r456");
    a = LanguageRevision { old_rev: Some("r123".to_string()), new_rev: None };
    assert_eq!(a.to_string(), "r123-");
    a = LanguageRevision { old_rev: Some("r456".to_string()), new_rev: None };
    assert_eq!(a.to_string(), "r456-");
    a = LanguageRevision { old_rev: None, new_rev: None };
    assert_eq!(a.to_string(), "");
}

#[test]
fn language_revision_from_string_test() {
    let mut a = LanguageRevision::from_string("r123-r456");
    assert_eq!(a.old_rev, Some("r123".to_string()));
    assert_eq!(a.new_rev, Some("r456".to_string()));
    a = LanguageRevision::from_string("r123");
    assert_eq!(a.old_rev, None);
    assert_eq!(a.new_rev, Some("r123".to_string()));
    a = LanguageRevision::from_string("");
    assert_eq!(a.old_rev, None);
    assert_eq!(a.new_rev, None);
    a = LanguageRevision::from_string("-");
    assert_eq!(a.old_rev, None);
    assert_eq!(a.new_rev, None);
}

#[test]
fn language_revision_append_to_file_name_test() {
    let mut p = "/test/path/myfile.resx".to_string();
    let rev = LanguageRevision { old_rev: Some("r123".to_string()), new_rev: Some("r456".to_string()) };
    p = rev.append_to_file_name(&p);
    assert_eq!(p, "/test/path/myfile.~r123-r456~.resx");
}

#[test]
fn language_revision_extract_from_file_name_test() {
    let (revision, path) = LanguageRevision::extract_from_file_name("/test/path/myfile.~r123-r456~.resx");
    assert_eq!(revision.old_rev, Some("r123".to_string()));
    assert_eq!(revision.new_rev, Some("r456".to_string()));
    assert_eq!(path, "/test/path/myfile.resx");
    let (revision, path) = LanguageRevision::extract_from_file_name("/test/path/myfile.not.a.revision.resx");
    assert_eq!(revision.old_rev, None);
    assert_eq!(revision.new_rev, None);
    assert_eq!(path, "/test/path/myfile.not.a.revision.resx");
}

#[test]
fn revision_encoding_forms() {
    let p = "dir/strings.fr.json";
    let both = RevisionRange::new(Some("a1"), Some("b2"));
    let new_only = RevisionRange::new(None, Some("b2"));
    let old_only = RevisionRange::new(Some("a1"), None);
    assert_eq!(both.append_to_file_name(p), "dir/strings.fr.~a1-b2~.json");
    assert_eq!(new_only.append_to_file_name(p), "dir/strings.fr.~b2~.json");
    assert_eq!(old_only.append_to_file_name(p), "dir/strings.fr.~a1-~.json");
    assert_eq!(RevisionRange::new(None, None).append_to_file_name("noext"), "noext.~~");
}

#[test]
fn revision_round_trip_on_examples() {
    for r in [
        RevisionRange::new(Some("abc123"), Some("Z9")),
        RevisionRange::new(None, Some("HEAD1")),
        RevisionRange::new(Some("x"), None),
    ] {
        for p in ["a/b/file.resx", "file.fr.restext", "/x/y.z/name.json"] {
            let encoded = r.append_to_file_name(p);
            let (back, path) = RevisionRange::extract_from_file_name(&encoded);
            assert_eq!(back, r);
            assert_eq!(path, p);
        }
    }
}

#[test]
fn revision_accessors() {
    let r = RevisionRange::new(Some("o"), Some("n"));
    assert_eq!(r.old_rev_as_ref(), Some("o"));
    assert_eq!(r.new_rev_as_ref(), Some("n"));
    let e = RevisionRange::from_string("o-");
    assert_eq!(e.old_rev_as_ref(), Some("o"));
    assert_eq!(e.new_rev_as_ref(), None);
    let f = RevisionRange::from_string("a-b-c");
    assert_eq!(f.old_rev_as_ref(), Some("a"));
    assert_eq!(f.new_rev_as_ref(), Some("b-c"));
}

#[test]
fn default_range_is_empty() {
    let r = RevisionRange::default();
    assert_eq!(r, RevisionRange::new(None, None));
    assert_eq!(r.to_string(), "");
}

#[test]
fn revision_round_trip_keeps_empty_pieces() {
    let r = RevisionRange::new(None, Some("x"));
    for p in ["dir/a..b.r", "dir/.hidden.resx", "x.y/a.b.c.json", "/t/.a..b..resx"] {
        let encoded = r.append_to_file_name(p);
        let (back, path) = RevisionRange::extract_from_file_name(&encoded);
        assert_eq!(back, r);
        assert_eq!(path, p);
    }
    assert_eq!(r.append_to_file_name("dir/a..b.r"), "dir/a..b.~x~.r");
}
