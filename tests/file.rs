use cirup_core::file::{load_resource_cached, 
    extension_of, get_format_type_from_extension, load_resource_file, load_resource_str,
    save_resource_file, vfile_get, vfile_set, FileFormat, FormatType, VirtualFiles,
};
use cirup_core::json::JsonFileFormat;
use cirup_core::Resource;

const TEST_JSON: &str = r#"{
    "lblBoat": "I'm on a boat.",
    "lblYolo": "You only live once",
    "lblDogs": "Who let the dogs out?"
}"#;

#[test]
fn test_vfile() {
    let mut files = VirtualFiles::new();
    vfile_set(&mut files, "59398a3e-757b-4844-b103-047d32324a4e", "foo");
    vfile_set(&mut files, "48acadf4-4821-49df-a318-537db5000d2b", "bar");
    let foo = vfile_get(&files, "59398a3e-757b-4844-b103-047d32324a4e").unwrap();
    assert_eq!(foo, "foo");
    let bar = vfile_get(&files, "48acadf4-4821-49df-a318-537db5000d2b").unwrap();
    assert_eq!(bar, "bar");

    let test_json = TEST_JSON;
    vfile_set(&mut files, "test.json", test_json);
    let value = vfile_get(&files, "test.json").unwrap();
    assert_eq!(value, test_json);
}

#[test]
fn vfile_replaces_and_misses() {
    let mut files = VirtualFiles::new();
    assert_eq!(vfile_get(&files, "a"), None);
    vfile_set(&mut files, "a", "1");
    vfile_set(&mut files, "a", "2");
    assert_eq!(vfile_get(&files, "a"), Some("2".to_string()));
}

#[test]
fn formats_by_extension() {
    assert_eq!(get_format_type_from_extension("json"), FormatType::Json);
    assert_eq!(get_format_type_from_extension("RESX"), FormatType::Resx);
    assert_eq!(get_format_type_from_extension("ReSText"), FormatType::Restext);
    assert_eq!(get_format_type_from_extension("txt"), FormatType::Unknown);
    assert_eq!(extension_of("a/b.c/file.fr.json"), Some("json".to_string()));
    assert_eq!(extension_of("a/.hidden"), None);
    assert_eq!(extension_of("a.b/noext"), None);
}

#[test]
fn load_and_save_by_file_name() {
    let resources = load_resource_file("dir/test.json", TEST_JSON).unwrap();
    assert_eq!(resources.len(), 3);
    assert_eq!(resources[2], Resource::new("lblDogs", "Who let the dogs out?"));
    assert_eq!(load_resource_file("notes.txt", TEST_JSON).unwrap(), vec![]);
    assert_eq!(load_resource_str("k=v\n", "restext").unwrap(), vec![Resource::new("k", "v")]);
    assert_eq!(save_resource_file("out.txt", &resources).unwrap(), None);
    let text = save_resource_file("out.restext", &resources).unwrap().unwrap();
    assert!(text.starts_with("\u{feff}lblBoat=I'm on a boat.\r\n"));
    let json = save_resource_file("out.json", &resources).unwrap().unwrap();
    assert_eq!(json, TEST_JSON);
    assert_eq!(JsonFileFormat {}.extension(), "json");
}

#[test]
fn fresh_ids_and_lenient_loading() {
    let a = cirup_core::file::vfile_id();
    let b = cirup_core::file::vfile_id();
    assert_eq!(a.len(), 36);
    assert_ne!(a, b);
    assert_eq!(cirup_core::file::load_resources("x.json", "{"), vec![]);
    assert_eq!(cirup_core::file::load_resources("x.restext", "k=v"), vec![Resource::new("k", "v")]);
    assert_eq!(cirup_core::resx::without_bom("\u{feff}<root/>"), "<root/>");
    assert_eq!(cirup_core::resx::without_bom("<root/>"), "<root/>");
}

#[test]
fn cache_is_read_before_files() {
    let mut files = VirtualFiles::new();
    assert!(load_resource_cached(&files, "a.json").is_none());
    vfile_set(&mut files, "a.json", "{\"k\": {\"n\": \"v\"}}");
    assert_eq!(load_resource_cached(&files, "a.json").unwrap().unwrap(), vec![Resource::new("k.n", "v")]);
    vfile_set(&mut files, "b.resx", "<root><data name=\"k\"><value>v</value></data></root>");
    assert_eq!(load_resource_cached(&files, "b.resx").unwrap().unwrap(), vec![Resource::new("k", "v")]);
    assert!(load_resource_cached(&files, "b.resx").is_some());
    vfile_set(&mut files, "c.json", "[1]");
    assert!(load_resource_cached(&files, "c.json").unwrap().is_err());
}
