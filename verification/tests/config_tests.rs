use lion::config::{Bin, Config, Pkg};
use lion::errors::LionError;
use lion::format::serialize_config;
use lion::parse::parse_config_str;

fn sample_config() -> Config {
    Config {
        pkg: Pkg {
            name: "demo".to_string(),
            description: Some("a sample".to_string()),
            long_description: None,
        },
        bin: Bin {
            files: vec!["src/main.c".to_string(), "src/util.c".to_string()],
            out_dir: Some("build".to_string()),
            out_file: None,
        },
    }
}

#[test]
fn test_config_deserialize() {
    // Create str contents of basic lion config file
    let toml_config_str = r#"
            [pkg]
            name = "Mike"
            description = "Mikee"

            [bin]
            files = ["src/main.c"]
        "#;

    // Ensure that str contents of config were parsed correctly into `Config`
    assert_eq!(
        parse_config_str(toml_config_str)
            .unwrap_or_else(|_| panic!("testing deserialization of lion toml config")),
        Config {
            pkg: Pkg {
                name: "Mike".to_string(),
                description: Some("Mikee".to_string()),
                long_description: None
            },
            bin: Bin {
                files: vec!["src/main.c".to_string()],
                out_dir: None,
                out_file: None
            }
        }
    );
}

#[test]
fn test_serialize_exact_text() {
    let text = serialize_config(&sample_config());
    assert_eq!(
        text,
        "[pkg]\nname = \"demo\"\ndescription = \"a sample\"\n\n[bin]\nfiles = [\"src/main.c\", \"src/util.c\"]\nout_dir = \"build\"\n"
    );
}

#[test]
fn test_round_trip() {
    let c = sample_config();
    let text = serialize_config(&c);
    let back = parse_config_str(&text).unwrap();
    assert_eq!(back, c);
}

#[test]
fn test_round_trip_all_fields() {
    let c = Config {
        pkg: Pkg {
            name: "x".to_string(),
            description: Some(String::new()),
            long_description: Some("a longer story".to_string()),
        },
        bin: Bin {
            files: vec!["a.c".to_string()],
            out_dir: Some("dist".to_string()),
            out_file: Some("out.exe".to_string()),
        },
    };
    let back = parse_config_str(&serialize_config(&c)).unwrap();
    assert_eq!(back, c);
}

#[test]
fn test_serialized_text_is_real_toml() {
    // the canonical text must also satisfy an independent TOML reader
    let text = serialize_config(&sample_config());
    let table: toml::Table = toml::from_str(&text).expect("canonical text must be valid TOML");
    let pkg = table["pkg"].as_table().unwrap();
    assert_eq!(pkg["name"].as_str(), Some("demo"));
    assert_eq!(pkg["description"].as_str(), Some("a sample"));
    let bin = table["bin"].as_table().unwrap();
    let files = bin["files"].as_array().unwrap();
    assert_eq!(files.len(), 2);
    assert_eq!(files[0].as_str(), Some("src/main.c"));
    assert_eq!(files[1].as_str(), Some("src/util.c"));
    assert_eq!(bin["out_dir"].as_str(), Some("build"));
    assert!(bin.get("out_file").is_none());
}

#[test]
fn test_missing_files_is_parse_error() {
    let doc = "[pkg]\nname = \"Mike\"\n\n[bin]\nout_dir = \"dist\"\n";
    let r = parse_config_str(doc);
    assert!(matches!(r, Err(LionError::ParseError(_))));
}

#[test]
fn test_missing_name_is_parse_error() {
    let doc = "[pkg]\ndescription = \"x\"\n\n[bin]\nfiles = [\"a.c\"]\n";
    let r = parse_config_str(doc);
    assert!(matches!(r, Err(LionError::ParseError(_))));
}

#[test]
fn test_wrong_type_for_files_is_parse_error() {
    let doc = "[pkg]\nname = \"m\"\n\n[bin]\nfiles = \"src/main.c\"\n";
    let r = parse_config_str(doc);
    assert!(matches!(r, Err(LionError::ParseError(_))));
}

#[test]
fn test_duplicate_key_is_parse_error() {
    let doc = "[pkg]\nname = \"a\"\nname = \"b\"\n\n[bin]\nfiles = [\"a.c\"]\n";
    let r = parse_config_str(doc);
    assert!(matches!(r, Err(LionError::ParseError(_))));
}

#[test]
fn test_malformed_line_is_parse_error() {
    let doc = "[pkg]\nname \"a\"\n\n[bin]\nfiles = [\"a.c\"]\n";
    let r = parse_config_str(doc);
    assert!(matches!(r, Err(LionError::ParseError(_))));
}

#[test]
fn test_unknown_keys_and_tables_are_ignored() {
    let doc = "[pkg]\nname = \"m\"\nauthor = 12\n\n[workspace]\nmembers = 3\n\n[bin]\nfiles = [\"a.c\"]\n";
    let c = parse_config_str(doc).unwrap();
    assert_eq!(c.pkg.name, "m");
    assert_eq!(c.bin.files, vec!["a.c".to_string()]);
}

#[test]
fn test_empty_files_list_parses() {
    let doc = "[pkg]\nname = \"m\"\n[bin]\nfiles = []\n";
    let c = parse_config_str(doc).unwrap();
    assert!(c.bin.files.is_empty());
}

#[test]
fn test_crlf_document_parses() {
    let doc = "[pkg]\r\nname = \"m\"\r\n\r\n[bin]\r\nfiles = [\"a.c\"]\r\n";
    let c = parse_config_str(doc).unwrap();
    assert_eq!(c.pkg.name, "m");
}

#[test]
fn test_comment_lines_are_skipped() {
    let doc = "# a build manifest\n[pkg]\nname = \"m\"\n[bin]\nfiles = [\"a.c\"]\n";
    let c = parse_config_str(doc).unwrap();
    assert_eq!(c.pkg.name, "m");
}

#[test]
fn test_error_message_is_readable() {
    let r = parse_config_str("[pkg\n");
    match r {
        Err(e) => assert!(!e.message().is_empty()),
        Ok(_) => panic!("a malformed header must be rejected"),
    }
}
