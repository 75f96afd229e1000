//! Dictionary parsing, loading and merging.

use nzskkserv::dict::{
    default_encoding, default_format, parse_dict_data, parse_mozc_dict, parse_skk_dict, DictDef,
    DictFormat, DictPath,
};
use nzskkserv::encoding::Encoding;
use nzskkserv::handler::Entry;
use nzskkserv::store::{DictStore, LoadOutcome};

fn entry(candidate: &str, description: Option<&str>) -> Entry {
    Entry {
        candidate: candidate.to_string(),
        description: description.map(|s| s.to_string()),
    }
}

#[test]
fn skk_lines_parse_to_records() {
    let text = ";; comment\n\nかんじ /漢字/幹事;party/\nめも /メモ/\n";
    let records = parse_skk_dict(text);
    assert_eq!(
        records,
        vec![
            (
                "かんじ".to_string(),
                vec![entry("漢字", None), entry("幹事", Some("party"))]
            ),
            ("めも".to_string(), vec![entry("メモ", None)]),
        ]
    );
}

#[test]
fn skk_empty_tokens_are_dropped() {
    let records = parse_skk_dict("か //漢//\n");
    assert_eq!(
        records,
        vec![("か".to_string(), vec![entry("漢", None)])]
    );
}

#[test]
fn skk_line_without_space_is_skipped() {
    assert_eq!(parse_skk_dict("nospace\n"), vec![]);
}

#[test]
fn skk_crlf_lines_parse_like_lf_lines() {
    let records = parse_skk_dict("か /漢/\r\nき /木/\r\n");
    assert_eq!(
        records,
        vec![
            ("か".to_string(), vec![entry("漢", None)]),
            ("き".to_string(), vec![entry("木", None)]),
        ]
    );
}

#[test]
fn mozc_lines_parse_to_records() {
    let text = "# comment\nきろく\t記録\tnoun\tメモ\nかんじ\t漢字\n\nbad\n";
    let records = parse_mozc_dict(text);
    assert_eq!(
        records,
        vec![
            ("きろく".to_string(), vec![entry("記録", Some("メモ"))]),
            ("かんじ".to_string(), vec![entry("漢字", None)]),
        ]
    );
}

#[test]
fn euc_jp_dictionary_bytes_decode_before_parsing() {
    let bytes = encoding_rs::EUC_JP.encode("かんじ /漢字/\n").0.into_owned();
    let records = parse_dict_data(&bytes, Encoding::Eucjp, DictFormat::Skk);
    assert_eq!(
        records,
        vec![("かんじ".to_string(), vec![entry("漢字", None)])]
    );
}

#[test]
fn store_merges_sources_in_order() {
    let store = DictStore::build(vec![
        LoadOutcome::Loaded(vec![("か".to_string(), vec![entry("一", None)])]),
        LoadOutcome::Loaded(vec![
            ("か".to_string(), vec![entry("二", None)]),
            ("き".to_string(), vec![entry("木", None)]),
        ]),
    ]);
    assert_eq!(
        store.lookup("か"),
        Some(&vec![entry("一", None), entry("二", None)])
    );
    assert_eq!(store.lookup("き"), Some(&vec![entry("木", None)]));
    assert_eq!(store.lookup("く"), None);
    assert_eq!(store.len(), 2);
}

#[test]
fn failed_source_leaves_other_entries_alone() {
    let with_failure = DictStore::build(vec![
        LoadOutcome::Loaded(vec![("か".to_string(), vec![entry("一", None)])]),
        LoadOutcome::Failed,
        LoadOutcome::Loaded(vec![("か".to_string(), vec![entry("二", None)])]),
    ]);
    let without = DictStore::build(vec![
        LoadOutcome::Loaded(vec![("か".to_string(), vec![entry("一", None)])]),
        LoadOutcome::Loaded(vec![("か".to_string(), vec![entry("二", None)])]),
    ]);
    assert_eq!(with_failure.lookup("か"), without.lookup("か"));
    assert_eq!(
        with_failure.lookup("か"),
        Some(&vec![entry("一", None), entry("二", None)])
    );
}

#[test]
fn duplicate_headwords_within_a_source_accumulate() {
    let store = DictStore::build(vec![LoadOutcome::Loaded(vec![
        ("か".to_string(), vec![entry("一", None)]),
        ("か".to_string(), vec![entry("二", None)]),
    ])]);
    assert_eq!(
        store.lookup("か"),
        Some(&vec![entry("一", None), entry("二", None)])
    );
    assert_eq!(store.len(), 1);
}

#[test]
fn defaults_are_utf8_and_skk() {
    assert_eq!(default_encoding(), Encoding::Utf8);
    assert_eq!(default_format(), DictFormat::Skk);
}

#[test]
fn format_names_round_trip() {
    assert_eq!(DictFormat::Skk.to_str(), "Skk");
    assert_eq!(DictFormat::Mozc.to_str(), "Mozc");
    assert_eq!(DictFormat::from_str("Mozc"), DictFormat::Mozc);
    assert_eq!(DictFormat::from_str("Skk"), DictFormat::Skk);
    assert_eq!(DictFormat::from_str("unknown"), DictFormat::Skk);
}

#[test]
fn dict_def_location_edits() {
    let mut def = DictDef {
        path_or_url: DictPath::Url {
            url: "http://example.com".to_string(),
        },
        encoding: Encoding::Utf8,
        format: DictFormat::Skk,
    };
    assert_eq!(def.to_type_str(), "Url");
    assert!(def.set_path_url("https://dict.example.org/SKK-JISYO.L").is_ok());
    assert_eq!(def.get_path_url_str(), "https://dict.example.org/SKK-JISYO.L");
    assert!(def.set_path_url("not a url at all").is_err());
    assert_eq!(def.get_path_url_str(), "https://dict.example.org/SKK-JISYO.L");
    def.set_type("File");
    assert_eq!(def.to_type_str(), "File");
    assert_eq!(def.get_path_url_str(), "");
    assert!(def.set_path_url("/usr/share/skk/SKK-JISYO.L").is_ok());
    assert_eq!(def.get_path_url_str(), "/usr/share/skk/SKK-JISYO.L");
    def.set_type("Url");
    assert_eq!(def.get_path_url_str(), "http://example.com");
}

#[test]
fn mozc_three_field_line_has_no_description() {
    let records = parse_mozc_dict("かんじ\t漢字\tnoun\n");
    assert_eq!(
        records,
        vec![("かんじ".to_string(), vec![entry("漢字", None)])]
    );
}

#[test]
fn skk_record_with_only_empty_tokens_keeps_the_headword() {
    let store = DictStore::build(vec![LoadOutcome::Loaded(parse_skk_dict("か \n"))]);
    assert_eq!(store.lookup("か"), Some(&Vec::new()));
}
