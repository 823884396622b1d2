//! The static description of each dataset: where its block is, how its lines
//! become JSON.

use vstd::prelude::*;
use vstd::string::StringExecFns;

verus! {

/// How the lines of a block are laid out.
#[derive(Debug, Clone, Copy, PartialEq, Eq, Structural)]
pub enum LineShape {
    /// `key: value` lines of an object.
    KeyedEntries,
    /// Bare elements of an array.
    PlainEntries,
}

/// Which typed value a dataset's JSON document decodes into.
#[derive(Debug, Clone, Copy, PartialEq, Eq, Structural)]
pub enum DatasetKind {
    Difficulties,
    Versions,
    Titles,
}

/// One substitution step of a line's normalisation.
#[derive(Debug, Clone)]
pub enum TransformRule {
    /// Every occurrence of `from` replaced by `to`, as plain text.
    Literal { from: String, to: String },
    /// Every match of the regular expression `pattern` replaced by
    /// `replacement`, in which `$1` and the like name capture groups.
    Pattern { pattern: String, replacement: String },
}

/// How to find one data table in its JavaScript source and turn it into JSON.
#[derive(Debug, Clone)]
pub struct DatasetSpec {
    /// The name of the remote script.
    pub source_name: String,
    /// The name of the local JSON artifact.
    pub cache_name: String,
    /// The line that opens the block; group 1 is the opening bracket, group 2
    /// (where there is one) content that follows it on that line.
    pub block_start: String,
    /// The line that closes the block.
    pub block_end: String,
    /// Applied in order to each line's value (keyed) or whole line (plain).
    pub transform_rules: Vec<TransformRule>,
    pub line_shape: LineShape,
    pub kind: DatasetKind,
}

/// `rule` replaces the text `from` by `to`.
pub open spec fn is_literal_rule(rule: TransformRule, from: Seq<char>, to: Seq<char>) -> bool {
    rule matches TransformRule::Literal { from: f, to: t } && f@ == from && t@ == to
}

/// `rule` replaces matches of `pattern` by `replacement`.
pub open spec fn is_pattern_rule(
    rule: TransformRule,
    pattern: Seq<char>,
    replacement: Seq<char>,
) -> bool {
    rule matches TransformRule::Pattern { pattern: p, replacement: t } && p@ == pattern && t@
        == replacement
}

fn literal(from: &str, to: &str) -> (r: TransformRule)
    ensures
        is_literal_rule(r, from@, to@),
{
    TransformRule::Literal { from: String::from_str(from), to: String::from_str(to) }
}

fn regex_rule(pat: &str, replacement: &str) -> (r: TransformRule)
    ensures
        is_pattern_rule(r, pat@, replacement@),
{
    TransformRule::Pattern {
        pattern: String::from_str(pat),
        replacement: String::from_str(replacement),
    }
}

/// The description of the song table.
pub open spec fn is_difficulties_spec(r: DatasetSpec) -> bool {
    &&& r.source_name@ == "actbl.js"@
    &&& r.cache_name@ == "actbl.js.parsed.json"@
    &&& r.block_start@ == "^\\s*actbl=(\\{).*$"@
    &&& r.block_end@ == "\\s*}\\s*;\\s*"@
    &&& r.line_shape == LineShape::KeyedEntries
    &&& r.kind == DatasetKind::Difficulties
    &&& r.transform_rules@.len() == 9
    &&& is_literal_rule(r.transform_rules@[0], "A"@, "10"@)
    &&& is_literal_rule(r.transform_rules@[1], "B"@, "11"@)
    &&& is_literal_rule(r.transform_rules@[2], "C"@, "12"@)
    &&& is_literal_rule(r.transform_rules@[3], "D"@, "13"@)
    &&& is_literal_rule(r.transform_rules@[4], "E"@, "14"@)
    &&& is_literal_rule(r.transform_rules@[5], "F"@, "15"@)
    &&& is_pattern_rule(r.transform_rules@[6], "//\\d+"@, ""@)
    &&& is_pattern_rule(r.transform_rules@[7], "\".*\"]"@, "-1]"@)
    &&& is_pattern_rule(r.transform_rules@[8], ",\"<span.*span>\""@, ""@)
}

/// The song table: for each song, its difficulty level in each play mode.
pub fn difficulties_spec() -> (r: DatasetSpec)
    ensures
        is_difficulties_spec(r),
{
    let mut rules: Vec<TransformRule> = Vec::new();
    // levels above nine are written as hexadecimal digits
    rules.push(literal("A", "10"));
    rules.push(literal("B", "11"));
    rules.push(literal("C", "12"));
    rules.push(literal("D", "13"));
    rules.push(literal("E", "14"));
    rules.push(literal("F", "15"));
    // identifiers in trailing comments
    rules.push(regex_rule("//\\d+", ""));
    // a quoted note closes the level list; it stands for "not charted"
    rules.push(regex_rule("\".*\"]", "-1]"));
    // markup between the levels
    rules.push(regex_rule(",\"<span.*span>\"", ""));
    DatasetSpec {
        source_name: String::from_str("actbl.js"),
        cache_name: String::from_str("actbl.js.parsed.json"),
        block_start: String::from_str("^\\s*actbl=(\\{).*$"),
        block_end: String::from_str("\\s*}\\s*;\\s*"),
        transform_rules: rules,
        line_shape: LineShape::KeyedEntries,
        kind: DatasetKind::Difficulties,
    }
}

/// The description of the version list.
pub open spec fn is_versions_spec(r: DatasetSpec) -> bool {
    &&& r.source_name@ == "scrlist.js"@
    &&& r.cache_name@ == "scrlist.js.parsed.json"@
    &&& r.block_start@ == "^vertbl\\s*=\\s*(\\[)(.*)$"@
    &&& r.block_end@ == "^\\s*$"@
    &&& r.line_shape == LineShape::PlainEntries
    &&& r.kind == DatasetKind::Versions
    &&& r.transform_rules@.len() == 3
    &&& is_pattern_rule(r.transform_rules@[0], ";"@, ""@)
    &&& is_pattern_rule(r.transform_rules@[1], "]$"@, ""@)
    &&& is_pattern_rule(r.transform_rules@[2], "vertbl\\[35\\]="@, ","@)
}

/// The list of game versions, in release order.
pub fn versions_spec() -> (r: DatasetSpec)
    ensures
        is_versions_spec(r),
{
    let mut rules: Vec<TransformRule> = Vec::new();
    // the array ends a statement
    rules.push(regex_rule(";", ""));
    rules.push(regex_rule("]$", ""));
    // one element is assigned on a line of its own
    rules.push(regex_rule("vertbl\\[35\\]=", ","));
    DatasetSpec {
        source_name: String::from_str("scrlist.js"),
        cache_name: String::from_str("scrlist.js.parsed.json"),
        block_start: String::from_str("^vertbl\\s*=\\s*(\\[)(.*)$"),
        block_end: String::from_str("^\\s*$"),
        transform_rules: rules,
        line_shape: LineShape::PlainEntries,
        kind: DatasetKind::Versions,
    }
}

/// The description of the title table.
pub open spec fn is_titles_spec(r: DatasetSpec) -> bool {
    &&& r.source_name@ == "titletbl.js"@
    &&& r.cache_name@ == "titletbl.js.parsed.json"@
    &&& r.block_start@ == "^\\s*titletbl=(\\{).*$"@
    &&& r.block_end@ == "\\s*}\\s*;\\s*"@
    &&& r.line_shape == LineShape::KeyedEntries
    &&& r.kind == DatasetKind::Titles
    &&& r.transform_rules@.len() == 10
    &&& is_pattern_rule(r.transform_rules@[0], ".fontcolor\\(.*?\\)"@, ""@)
    &&& is_pattern_rule(r.transform_rules@[1], "<span style='.*?'>"@, ""@)
    &&& is_pattern_rule(r.transform_rules@[2], "<\\\\/span>"@, ""@)
    &&& is_pattern_rule(r.transform_rules@[3], "<div class=.*?>"@, ""@)
    &&& is_pattern_rule(r.transform_rules@[4], "<\\\\/div>"@, ""@)
    &&& is_pattern_rule(r.transform_rules@[5], "<br>"@, ""@)
    &&& is_pattern_rule(r.transform_rules@[6], "<b>"@, ""@)
    &&& is_pattern_rule(r.transform_rules@[7], "<\\\\/b>"@, ""@)
    &&& is_pattern_rule(r.transform_rules@[8], "^\\[SS"@, "[-1"@)
    &&& is_pattern_rule(r.transform_rules@[9], "\\t"@, ""@)
}

/// The song titles, with their numeric metadata.
pub fn titles_spec() -> (r: DatasetSpec)
    ensures
        is_titles_spec(r),
{
    let mut rules: Vec<TransformRule> = Vec::new();
    // markup in the titles; the order matters, later patterns rely on the
    // escaped closing tags still being there
    rules.push(regex_rule(".fontcolor\\(.*?\\)", ""));
    rules.push(regex_rule("<span style='.*?'>", ""));
    rules.push(regex_rule("<\\\\/span>", ""));
    rules.push(regex_rule("<div class=.*?>", ""));
    rules.push(regex_rule("<\\\\/div>", ""));
    rules.push(regex_rule("<br>", ""));
    rules.push(regex_rule("<b>", ""));
    rules.push(regex_rule("<\\\\/b>", ""));
    // a symbolic first field stands for "none"
    rules.push(regex_rule("^\\[SS", "[-1"));
    rules.push(regex_rule("\\t", ""));
    DatasetSpec {
        source_name: String::from_str("titletbl.js"),
        cache_name: String::from_str("titletbl.js.parsed.json"),
        block_start: String::from_str("^\\s*titletbl=(\\{).*$"),
        block_end: String::from_str("\\s*}\\s*;\\s*"),
        transform_rules: rules,
        line_shape: LineShape::KeyedEntries,
        kind: DatasetKind::Titles,
    }
}

/// The three known datasets, in the order they are processed.
pub fn setup_config() -> (r: Vec<DatasetSpec>)
    ensures
        r@.len() == 3,
        is_difficulties_spec(r@[0]),
        is_versions_spec(r@[1]),
        is_titles_spec(r@[2]),
{
    let mut v: Vec<DatasetSpec> = Vec::new();
    v.push(difficulties_spec());
    v.push(versions_spec());
    v.push(titles_spec());
    v
}

/// What a rule does, as plain values: whether it is literal, what it looks
/// for, and what it puts in place.
pub open spec fn rule_view(rule: TransformRule) -> (bool, Seq<char>, Seq<char>) {
    match rule {
        TransformRule::Literal { from, to } => (true, from@, to@),
        TransformRule::Pattern { pattern, replacement } => (false, pattern@, replacement@),
    }
}

/// Everything a dataset description holds, as plain values.
pub open spec fn dataset_view(ds: DatasetSpec) -> (
    Seq<char>,
    Seq<char>,
    Seq<char>,
    Seq<char>,
    Seq<(bool, Seq<char>, Seq<char>)>,
    LineShape,
    DatasetKind,
) {
    (
        ds.source_name@,
        ds.cache_name@,
        ds.block_start@,
        ds.block_end@,
        ds.transform_rules@.map_values(|rule: TransformRule| rule_view(rule)),
        ds.line_shape,
        ds.kind,
    )
}

/// The rule table is one fixed value: any two descriptions that the
/// constructors' contracts admit for the same dataset hold the same names,
/// markers, rules in the same order, shape and kind.
pub proof fn lemma_rule_table_is_fixed(a: DatasetSpec, b: DatasetSpec)
    requires
        (is_difficulties_spec(a) && is_difficulties_spec(b)) || (is_versions_spec(a)
            && is_versions_spec(b)) || (is_titles_spec(a) && is_titles_spec(b)),
    ensures
        dataset_view(a) == dataset_view(b),
{
    let ra = a.transform_rules@.map_values(|rule: TransformRule| rule_view(rule));
    let rb = b.transform_rules@.map_values(|rule: TransformRule| rule_view(rule));
    assert(ra =~= rb);
}

} // verus!
