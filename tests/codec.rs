use cirup_core::json::JsonFileFormat;
use cirup_core::restext::RestextFileFormat;
use cirup_core::resx::ResxFileFormat;
use cirup_core::error::CirupError;
use cirup_core::Resource;

#[test]
fn test_json_parse() {
    let text = r#"
{
    "lblBoat": "I'm on a boat.",
    "lblYolo": "You only live once",
    "lblDogs": "Who let the dogs out?",
    "language": {
        "en": "English",
        "fr": "French"
    },
    "very": {
        "deep": {
            "object": "value"
        }
    }
}
    "#;

    let file_format = JsonFileFormat {};

    let resources = file_format.parse_from_str(&text).unwrap();

    let resource = resources.get(0).unwrap();
    assert_eq!(resource.name, "lblBoat");
    assert_eq!(resource.value, "I'm on a boat.");

    let resource = resources.get(1).unwrap();
    assert_eq!(resource.name, "lblYolo");
    assert_eq!(resource.value, "You only live once");

    let resource = resources.get(2).unwrap();
    assert_eq!(resource.name, "lblDogs");
    assert_eq!(resource.value, "Who let the dogs out?");

    let resource = resources.get(3).unwrap();
    assert_eq!(resource.name, "language.en");
    assert_eq!(resource.value, "English");

    let resource = resources.get(4).unwrap();
    assert_eq!(resource.name, "language.fr");
    assert_eq!(resource.value, "French");

    let resource = resources.get(5).unwrap();
    assert_eq!(resource.name, "very.deep.object");
    assert_eq!(resource.value, "value");
}

#[test]
fn test_json_write() {
    let file_format = JsonFileFormat {};

    let resources = vec![
        Resource::new("lblBoat", "I'm on a boat."),
        Resource::new("lblYolo", "You only live once"),
        Resource::new("lblDogs", "Who let the dogs out?"),
        Resource::new("language.en", "English"),
        Resource::new("language.fr", "French"),
        Resource::new("very.deep.object", "value"),
    ];

    let expected_text = r#"{
    "lblBoat": "I'm on a boat.",
    "lblYolo": "You only live once",
    "lblDogs": "Who let the dogs out?",
    "language": {
        "en": "English",
        "fr": "French"
    },
    "very": {
        "deep": {
            "object": "value"
        }
    }
}"#;

    let actual_text = file_format.write_to_str(&resources).unwrap();
    assert_eq!(actual_text, expected_text);
}

#[test]
fn json_order_preserved_on_one_line() {
    let text = r#"{"lblBoat":"I'm on a boat.","lblYolo":"You only live once","lblDogs":"Who let the dogs out?","language":{"en":"English","fr":"French"},"very":{"deep":{"object":"value"}}}"#;
    let resources = JsonFileFormat {}.parse_from_str(text).unwrap();
    let names: Vec<&str> = resources.iter().map(|r| r.name.as_str()).collect();
    assert_eq!(
        names,
        vec!["lblBoat", "lblYolo", "lblDogs", "language.en", "language.fr", "very.deep.object"]
    );
}

#[test]
fn json_skips_leaves_that_are_not_strings() {
    let text = r#"{"a":"x","n":3,"b":true,"z":null,"arr":["p","q"],"o":{"c":"y","d":1}}"#;
    let resources = JsonFileFormat {}.parse_from_str(text).unwrap();
    assert_eq!(resources, vec![Resource::new("a", "x"), Resource::new("o.c", "y")]);
}

#[test]
fn json_rejects_a_document_that_is_not_an_object() {
    assert!(matches!(JsonFileFormat {}.parse_from_str("[\"a\"]"), Err(CirupError::Parse(_))));
    assert!(matches!(JsonFileFormat {}.parse_from_str("{\"a\": "), Err(CirupError::Parse(_))));
}

#[test]
fn json_write_rejects_a_key_that_is_string_and_object() {
    let resources = vec![Resource::new("a", "x"), Resource::new("a.b", "y")];
    assert!(matches!(JsonFileFormat {}.write_to_str(&resources), Err(CirupError::Validation(_))));
    let resources = vec![Resource::new("a.b", "y"), Resource::new("a", "x")];
    assert!(matches!(JsonFileFormat {}.write_to_str(&resources), Err(CirupError::Validation(_))));
}

#[test]
fn json_write_groups_siblings_by_first_appearance() {
    let resources = vec![
        Resource::new("a.x", "1"),
        Resource::new("b", "2"),
        Resource::new("a.y", "3"),
        Resource::new("b", "4"),
    ];
    let text = JsonFileFormat {}.write_to_str(&resources).unwrap();
    assert_eq!(text, "{\n    \"a\": {\n        \"x\": \"1\",\n        \"y\": \"3\"\n    },\n    \"b\": \"4\"\n}");
}

#[test]
fn json_round_trip() {
    let text = r#"{"k":"v","g":{"h":"w \"quoted\""}}"#;
    let f = JsonFileFormat {};
    let first = f.parse_from_str(text).unwrap();
    let again = f.parse_from_str(&f.write_to_str(&first).unwrap()).unwrap();
    assert_eq!(first, again);
}

#[test]
fn test_restext_parse() {
    let text = r#"
lblBoat=I'm on a boat.
lblYolo=You only live once
lblDogs=Who let the dogs out?
"#;

    let file_format = RestextFileFormat {};

    let resources = file_format.parse_from_str(&text);

    let resource = resources.get(0).unwrap();
    assert_eq!(resource.name, "lblBoat");
    assert_eq!(resource.value, "I'm on a boat.");

    let resource = resources.get(1).unwrap();
    assert_eq!(resource.name, "lblYolo");
    assert_eq!(resource.value, "You only live once");

    let resource = resources.get(2).unwrap();
    assert_eq!(resource.name, "lblDogs");
    assert_eq!(resource.value, "Who let the dogs out?");
}

#[test]
fn test_restext_write() {
    let file_format = RestextFileFormat {};

    let resources = vec![
        Resource::new("lblBoat", "I'm on a boat."),
        Resource::new("lblYolo", "You only live once"),
        Resource::new("lblDogs", "Who let the dogs out?"),
    ];

    let expected_text =
        "\u{feff}lblBoat=I'm on a boat.\r\nlblYolo=You only live once\r\nlblDogs=Who let the dogs out?\r\n";

    let actual_text = file_format.write_to_str(&resources);
    assert_eq!(actual_text, expected_text);
}

#[test]
fn restext_escapes_backslash_and_line_breaks() {
    let text = RestextFileFormat {}.write_to_str(&vec![Resource::new("k", "line1\\line2\r\nline3")]);
    let mut expected: Vec<u8> = vec![0xEF, 0xBB, 0xBF];
    expected.extend_from_slice(b"k=line1\\\\line2\\r\\nline3\r\n");
    assert_eq!(text.as_bytes(), expected.as_slice());
}

#[test]
fn restext_skips_comments_blank_and_malformed_lines() {
    let text = "\u{feff}  first=1\r\n; comment\n\n=novalue\nsecond = 2\nthird=a=b\r\nlast=x\r";
    let resources = RestextFileFormat {}.parse_from_str(text);
    assert_eq!(
        resources,
        vec![Resource::new("first", "1"), Resource::new("third", "a=b"), Resource::new("last", "x\r")]
    );
}

#[test]
fn restext_round_trip() {
    let text = "a=1\nb_2=two words\r\n  c=\n";
    let f = RestextFileFormat {};
    let first = f.parse_from_str(text);
    assert_eq!(first.len(), 3);
    assert_eq!(f.parse_from_str(&f.write_to_str(&first)), first);
}

#[test]
fn test_resx_parse() {
    let text = r#"
<?xml version="1.0" encoding="utf-8"?>
<root>
  <data name="lblBoat" xml:space="preserve">
    <value>I'm on a boat.</value>
  </data>
  <data name="lblYolo" xml:space="preserve">
    <value>You only live once</value>
  </data>
  <data name="lblDogs" xml:space="preserve">
    <value>Who let the dogs out?</value>
  </data>
</root>
"#;

    let file_format = ResxFileFormat {};

    let resources = file_format.parse_from_str(&text).unwrap();

    let resource = resources.get(0).unwrap();
    assert_eq!(resource.name, "lblBoat");
    assert_eq!(resource.value, "I'm on a boat.");

    let resource = resources.get(1).unwrap();
    assert_eq!(resource.name, "lblYolo");
    assert_eq!(resource.value, "You only live once");

    let resource = resources.get(2).unwrap();
    assert_eq!(resource.name, "lblDogs");
    assert_eq!(resource.value, "Who let the dogs out?");
}

#[test]
fn test_resx_write() {
    let file_format = ResxFileFormat {};

    let resources = vec![
        Resource::new("lblBoat", "I'm on a boat."),
        Resource::new("lblYolo", "You only live once"),
        Resource::new("lblDogs", "Who let the dogs out?"),
    ];

    let expected_text = r#"<?xml version="1.0" encoding="utf-8"?>
<root>
  <data name="lblBoat" xml:space="preserve">
    <value>I'm on a boat.</value>
  </data>
  <data name="lblYolo" xml:space="preserve">
    <value>You only live once</value>
  </data>
  <data name="lblDogs" xml:space="preserve">
    <value>Who let the dogs out?</value>
  </data>
</root>"#;

    let actual_text = file_format.write_to_str(&resources);
    assert_eq!(actual_text, expected_text);
}

#[test]
fn resx_fixture_gives_three_resources() {
    let text = "\u{feff}<?xml version=\"1.0\" encoding=\"utf-8\"?>\n<root>\n  <resheader name=\"resmimetype\"><value>text/microsoft-resx</value></resheader>\n  <data name=\"lblBoat\" xml:space=\"preserve\">\n    <value>I'm on a boat.</value>\n    <comment>c</comment>\n  </data>\n  <data name=\"lblYolo\" xml:space=\"preserve\">\n    <value>You only live once</value>\n  </data>\n  <data name=\"lblDogs\" xml:space=\"preserve\">\n    <value>Who let the dogs out?</value>\n  </data>\n</root>";
    let resources = ResxFileFormat {}.parse_from_str(text).unwrap();
    assert_eq!(
        resources,
        vec![
            Resource::new("lblBoat", "I'm on a boat."),
            Resource::new("lblYolo", "You only live once"),
            Resource::new("lblDogs", "Who let the dogs out?"),
        ]
    );
}

#[test]
fn resx_escapes_and_round_trips() {
    let resources = vec![Resource::new("a\"b", "x < y & z > w"), Resource::new("e", "")];
    let f = ResxFileFormat {};
    let text = f.write_to_str(&resources);
    assert!(text.contains("<data name=\"a&quot;b\" xml:space=\"preserve\">"));
    assert!(text.contains("<value>x &lt; y &amp; z &gt; w</value>"));
    assert_eq!(f.parse_from_str(&text).unwrap(), resources);
}

#[test]
fn resx_empty_and_errors() {
    let f = ResxFileFormat {};
    assert_eq!(f.parse_from_str("").unwrap(), vec![]);
    assert_eq!(f.parse_from_str("\u{feff}").unwrap(), vec![]);
    assert_eq!(f.write_to_str(&vec![]), "<?xml version=\"1.0\" encoding=\"utf-8\"?>\n<root />");
    assert!(matches!(f.parse_from_str("<root><data name=\"k\"></data></root>"), Err(CirupError::Parse(_))));
    assert!(matches!(f.parse_from_str("<root><data><value>v</value></data></root>"), Err(CirupError::Parse(_))));
    assert!(matches!(f.parse_from_str("<root><data"), Err(CirupError::Parse(_))));
}

#[test]
fn restext_keys_follow_regex_word_characters() {
    let resources = RestextFileFormat {}.parse_from_str("a\u{203f}b=1\n\u{b2}x=2\nn\u{e9}e=3\n");
    assert_eq!(resources, vec![Resource::new("a\u{203f}b", "1"), Resource::new("n\u{e9}e", "3")]);
}

#[test]
fn json_nested_objects_and_strings_with_escapes() {
    let text = r#"{"a":{"b":{"c":"x\"y"},"d":"z"},"e":"\u00e9"}"#;
    let resources = JsonFileFormat {}.parse_from_str(text).unwrap();
    assert_eq!(resources, vec![Resource::new("a.b.c", "x\"y"), Resource::new("a.d", "z"), Resource::new("e", "\u{e9}")]);
}
