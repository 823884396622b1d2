use std::collections::BTreeMap;

use textage_parser::cache::{cache_status, Freshness, MAX_CACHE_AGE_SECS};
use textage_parser::error::ParseError;
use textage_parser::extract::extract_block;
use textage_parser::pipeline::{deserialize_textage_data, normalize_source};
use textage_parser::rules::{
    difficulties_spec, setup_config, titles_spec, versions_spec, DatasetKind, DatasetSpec,
    LineShape, TransformRule,
};
use textage_parser::transform::{apply_rules, transform_line};

fn pattern_rule(pattern: &str, replacement: &str) -> TransformRule {
    TransformRule::Pattern { pattern: pattern.to_string(), replacement: replacement.to_string() }
}

fn keyed_spec(rules: Vec<TransformRule>) -> DatasetSpec {
    DatasetSpec {
        source_name: "t.js".to_string(),
        cache_name: "t.json".to_string(),
        block_start: r"^tbl=(\{)".to_string(),
        block_end: r"^\s*}\s*;".to_string(),
        transform_rules: rules,
        line_shape: LineShape::KeyedEntries,
        kind: DatasetKind::Difficulties,
    }
}

#[test]
fn hex_levels_become_decimal_before_the_patterns() {
    let mut rules = difficulties_spec().transform_rules;
    rules.truncate(6);
    assert_eq!(apply_rules(&rules, "A,B,C,3"), Ok("10,11,12,3".to_string()));
    assert_eq!(apply_rules(&rules, "D,E,F"), Ok("13,14,15".to_string()));
}

#[test]
fn version_line_end_cleanup() {
    let spec = versions_spec();
    assert_eq!(
        transform_line(spec.line_shape, &spec.transform_rules, "vertbl[35]=foo];"),
        Ok(",foo".to_string())
    );
}

#[test]
fn cache_freshness_by_age() {
    assert_eq!(MAX_CACHE_AGE_SECS, 172800);
    assert_eq!(cache_status(Some(3600), MAX_CACHE_AGE_SECS), Freshness::Fresh);
    assert_eq!(cache_status(Some(3 * 86400), MAX_CACHE_AGE_SECS), Freshness::Stale);
    assert_eq!(cache_status(None, MAX_CACHE_AGE_SECS), Freshness::Stale);
    assert_eq!(cache_status(Some(MAX_CACHE_AGE_SECS), MAX_CACHE_AGE_SECS), Freshness::Stale);
    assert_eq!(cache_status(Some(MAX_CACHE_AGE_SECS - 1), MAX_CACHE_AGE_SECS), Freshness::Fresh);
}

#[test]
fn keyed_line_requotes_its_key() {
    let spec = difficulties_spec();
    assert_eq!(
        transform_line(spec.line_shape, &spec.transform_rules, "  'song_a' : [1,2,A,-1],//12 "),
        Ok("\"song_a\":[1,2,10,-1],".to_string())
    );
    // only the first colon splits; the value keeps the others
    assert_eq!(
        transform_line(LineShape::KeyedEntries, &Vec::new(), "'k':'a:b'"),
        Ok("\"k\":'a:b'".to_string())
    );
    // a bare key stays bare
    assert_eq!(
        transform_line(LineShape::KeyedEntries, &Vec::new(), "key\t:\u{3000}1"),
        Ok("key:1".to_string())
    );
}

#[test]
fn keyed_line_without_separator_is_malformed() {
    let spec = difficulties_spec();
    assert_eq!(
        transform_line(spec.line_shape, &spec.transform_rules, "'song' [1,2,3]"),
        Err(ParseError::MalformedLine)
    );
}

#[test]
fn quoted_note_and_markup_in_levels() {
    let spec = difficulties_spec();
    assert_eq!(
        transform_line(spec.line_shape, &spec.transform_rules, "'s':[3,B,0,\"note\"],"),
        Ok("\"s\":[3,11,0,-1],".to_string())
    );
    assert_eq!(
        transform_line(spec.line_shape, &spec.transform_rules, "'s':[1,\"<span>x</span>\",2]"),
        Ok("\"s\":[1,2]".to_string())
    );
}

#[test]
fn title_markup_is_stripped() {
    let spec = titles_spec();
    assert_eq!(
        transform_line(
            spec.line_shape,
            &spec.transform_rules,
            "'t1'\t:[SS,3,1,\"Genre<br>\",\"Artist\",\"<b>Title<\\/b>\"],"
        ),
        Ok("\"t1\":[-1,3,1,\"Genre\",\"Artist\",\"Title\"],".to_string())
    );
    assert_eq!(
        transform_line(
            spec.line_shape,
            &spec.transform_rules,
            "'t2':[5,2,\"G\".fontcolor(\"red\"),\"<span style='x'>A<\\/span>\"]"
        ),
        Ok("\"t2\":[5,2,\"G\",\"A\"]".to_string())
    );
}

#[test]
fn transforms_are_pure() {
    let spec = titles_spec();
    let line = "'t1':[SS,3,1,\"<div class=a>X<\\/div>\"]";
    let a = transform_line(spec.line_shape, &spec.transform_rules, line);
    let b = transform_line(spec.line_shape, &spec.transform_rules, line);
    assert_eq!(a, b);
    assert_eq!(a, Ok("\"t1\":[-1,3,1,\"X\"]".to_string()));
}

#[test]
fn pattern_rules_expand_group_references() {
    let rules = vec![pattern_rule(r"(\d+)-(\d+)", "$2-$1")];
    assert_eq!(apply_rules(&rules, "1-2 and 30-40"), Ok("2-1 and 40-30".to_string()));
}

#[test]
fn invalid_pattern_is_reported() {
    let rules = vec![pattern_rule("(", "")];
    assert_eq!(apply_rules(&rules, "abc"), Err(ParseError::InvalidPattern));
    let mut spec = keyed_spec(Vec::new());
    spec.block_start = "[".to_string();
    assert_eq!(extract_block(&spec, "tbl={\n};\n"), Err(ParseError::InvalidPattern));
}

#[test]
fn difficulties_round_trip() {
    let source = "var x=1;\nactbl={\n'song1' :[1,2,A,-1],//12\n// comment\n\n  \n'song2':[3,B,0,\"note\"]\n};\ntrailing\n";
    let spec = difficulties_spec();
    let doc = extract_block(&spec, source).unwrap().unwrap();
    assert_eq!(doc, "{\n\"song1\":[1,2,10,-1],\n\"song2\":[3,11,0,-1]\n}");
    let decoded: BTreeMap<String, Vec<i8>> = serde_json::from_str(&doc).unwrap();
    let mut expected = BTreeMap::new();
    expected.insert("song1".to_string(), vec![1, 2, 10, -1]);
    expected.insert("song2".to_string(), vec![3, 11, 0, -1]);
    assert_eq!(decoded, expected);
    assert_eq!(normalize_source(&spec, source), Ok(doc));
}

#[test]
fn versions_round_trip() {
    let source = "x=1\nvertbl = [\"1st\",\"2nd\",\r\n\"3rd\"\nvertbl[35]=\"sub\"];\n\nvar y;\n";
    let spec = versions_spec();
    let doc = normalize_source(&spec, source).unwrap();
    let decoded: Vec<String> = serde_json::from_str(&doc).unwrap();
    assert_eq!(decoded, vec!["1st", "2nd", "3rd", "sub"]);
}

#[test]
fn titles_round_trip() {
    let source = "titletbl={\n'a':[SS,1,2,\"G\",\"Ar<br>tist\",\"T\"],\n'b':[7,0,1,\"G2\",\"B\",\"U\"]\n};\n";
    let spec = titles_spec();
    let doc = normalize_source(&spec, source).unwrap();
    let decoded: serde_json::Value = serde_json::from_str(&doc).unwrap();
    assert_eq!(decoded["a"][0].as_i64(), Some(-1));
    assert_eq!(decoded["a"][4].as_str(), Some("Artist"));
    assert_eq!(decoded["b"][3].as_str(), Some("G2"));
    assert_eq!(decoded.as_object().unwrap().len(), 2);
}

#[test]
fn start_line_content_follows_the_bracket() {
    let spec = versions_spec();
    let doc = extract_block(&spec, "vertbl=[\"a\",\n\"b\"\n\n").unwrap().unwrap();
    assert_eq!(doc, "[\n\"a\",\n\"b\"\n]");
}

#[test]
fn only_the_first_end_marker_counts() {
    let spec = keyed_spec(Vec::new());
    let doc = extract_block(&spec, "tbl={\n'a':1\n};\n'b':2\n};\n").unwrap().unwrap();
    assert_eq!(doc, "{\n\"a\":1\n}");
}

#[test]
fn missing_end_marker_is_unterminated() {
    let spec = difficulties_spec();
    let source = "actbl={\n'song1':[1,2,3]\n";
    assert_eq!(extract_block(&spec, source), Err(ParseError::UnterminatedBlock));
    assert_eq!(normalize_source(&spec, source), Err(ParseError::UnterminatedBlock));
    assert_eq!(extract_block(&spec, "actbl={"), Err(ParseError::UnterminatedBlock));
}

#[test]
fn missing_start_marker_yields_nothing() {
    let spec = difficulties_spec();
    assert_eq!(extract_block(&spec, "var a = 1;\n};\n"), Ok(None));
    assert_eq!(extract_block(&spec, ""), Ok(None));
    assert_eq!(normalize_source(&spec, "nothing here"), Err(ParseError::MissingBlock));
}

#[test]
fn malformed_line_aborts_the_block() {
    let spec = difficulties_spec();
    let source = "actbl={\n'song1' [1,2,3]\n};\n";
    assert_eq!(extract_block(&spec, source), Err(ParseError::MalformedLine));
}

#[test]
fn invalid_json_is_a_normalization_error() {
    let spec = difficulties_spec();
    // a comma after the last entry is not JSON
    let source = "actbl={\n'song1':[1,2,3],\n};\n";
    assert_eq!(
        extract_block(&spec, source),
        Ok(Some("{\n\"song1\":[1,2,3],\n}".to_string()))
    );
    assert_eq!(normalize_source(&spec, source), Err(ParseError::InvalidJson));
}

#[test]
fn unknown_bracket_closes_with_nothing() {
    let mut spec = keyed_spec(Vec::new());
    spec.block_start = r"^tbl=(\()".to_string();
    let doc = extract_block(&spec, "tbl=(\n'a':1\n};\n").unwrap().unwrap();
    assert_eq!(doc, "(\n\"a\":1\n");
}

#[test]
fn every_dataset_is_tried() {
    let specs = setup_config();
    assert_eq!(specs.len(), 3);
    assert_eq!(specs[0].kind, DatasetKind::Difficulties);
    assert_eq!(specs[1].kind, DatasetKind::Versions);
    assert_eq!(specs[2].kind, DatasetKind::Titles);
    assert_eq!(specs[0].cache_name, "actbl.js.parsed.json");
    let sources = vec![
        "actbl={\n'x':[A]\n};".to_string(),
        "no block".to_string(),
        "titletbl={\n'y':[1,\"t\"]\n};".to_string(),
    ];
    let out = deserialize_textage_data(&specs, &sources);
    assert_eq!(out.len(), 3);
    assert_eq!(out[0], Ok("{\n\"x\":[10]\n}".to_string()));
    assert_eq!(out[1], Err(ParseError::MissingBlock));
    assert_eq!(out[2], Ok("{\n\"y\":[1,\"t\"]\n}".to_string()));
}

#[test]
fn carriage_returns_before_newlines_are_dropped() {
    let spec = versions_spec();
    let doc = extract_block(&spec, "vertbl=[\"a\",\r\n\"b\"\r\n\r\n").unwrap().unwrap();
    assert_eq!(doc, "[\n\"a\",\n\"b\"\n]");
    let keyed = keyed_spec(Vec::new());
    let doc = extract_block(&keyed, "tbl={\r\n'a':1\r\n};\r\n").unwrap().unwrap();
    assert_eq!(doc, "{\n\"a\":1\n}");
}

#[test]
fn the_rule_table_is_the_same_on_every_call() {
    let a = setup_config();
    let b = setup_config();
    for (x, y) in a.iter().zip(b.iter()) {
        assert_eq!(x.source_name, y.source_name);
        assert_eq!(x.cache_name, format!("{}.parsed.json", x.source_name));
        assert_eq!(x.block_start, y.block_start);
        assert_eq!(x.block_end, y.block_end);
        assert_eq!(x.line_shape, y.line_shape);
        assert_eq!(format!("{:?}", x.transform_rules), format!("{:?}", y.transform_rules));
    }
    assert_eq!(a[0].line_shape, LineShape::KeyedEntries);
    assert_eq!(a[1].line_shape, LineShape::PlainEntries);
    assert_eq!(a[2].line_shape, LineShape::KeyedEntries);
    assert_eq!(a[1].block_end, r"^\s*$");
    assert_eq!(a[0].transform_rules.len(), 9);
    assert_eq!(a[1].transform_rules.len(), 3);
    assert_eq!(a[2].transform_rules.len(), 10);
}
