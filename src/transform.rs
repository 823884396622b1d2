//! Rewriting one line of a block into one line of JSON.

use vstd::prelude::*;
use crate::error::ParseError;
use crate::pattern::{pattern_compiles, pattern_replaced, replace_matches};
use crate::rules::{LineShape, TransformRule};
use crate::text::{
    chars_of, find_char, find_char_index, replace_all_literal, replace_literal, slice_chars,
    string_of, trim, trim_chars,
};

verus! {

/// What one rule makes of `text`; `None` where its pattern does not compile.
pub open spec fn rule_applied(rule: TransformRule, text: Seq<char>) -> Option<Seq<char>> {
    match rule {
        TransformRule::Literal { from, to } => Some(replace_all_literal(text, from@, to@)),
        TransformRule::Pattern { pattern, replacement } => {
            if pattern_compiles(pattern@) {
                Some(pattern_replaced(pattern@, text, replacement@))
            } else {
                None
            }
        },
    }
}

/// The rules applied in order, each to what the one before made.
pub open spec fn rules_applied(rules: Seq<TransformRule>, text: Seq<char>) -> Option<Seq<char>>
    decreases rules.len(),
{
    if rules.len() == 0 {
        Some(text)
    } else {
        match rules_applied(rules.drop_last(), text) {
            Some(t) => rule_applied(rules.last(), t),
            None => None,
        }
    }
}

/// The key of a keyed line: trimmed, its single quotes turned into double quotes.
pub open spec fn key_quoted(key: Seq<char>) -> Seq<char> {
    replace_all_literal(trim(key), seq!['\''], seq!['"'])
}

/// What one line of a block becomes.
///
/// A keyed line is split at its first `:`; the key is trimmed and requoted,
/// the trimmed value goes through the rules, and the two are joined by `:`.
/// A plain line is trimmed and goes through the rules whole.
pub open spec fn line_transformed(
    shape: LineShape,
    rules: Seq<TransformRule>,
    line: Seq<char>,
) -> Result<Seq<char>, ParseError> {
    match shape {
        LineShape::KeyedEntries => {
            let i = find_char(line, ':');
            if i == line.len() {
                Err(ParseError::MalformedLine)
            } else {
                match rules_applied(rules, trim(line.skip(i + 1))) {
                    Some(v) => Ok(key_quoted(line.take(i)) + seq![':'] + v),
                    None => Err(ParseError::InvalidPattern),
                }
            }
        },
        LineShape::PlainEntries => {
            match rules_applied(rules, trim(line)) {
                Some(v) => Ok(v),
                None => Err(ParseError::InvalidPattern),
            }
        },
    }
}

pub open spec fn result_view(r: Result<Vec<char>, ParseError>) -> Result<Seq<char>, ParseError> {
    match r {
        Ok(v) => Ok(v@),
        Err(e) => Err(e),
    }
}

pub open spec fn string_result_view(r: Result<String, ParseError>) -> Result<Seq<char>, ParseError> {
    match r {
        Ok(s) => Ok(s@),
        Err(e) => Err(e),
    }
}

fn apply_rule(rule: &TransformRule, text: &Vec<char>) -> (r: Result<Vec<char>, ParseError>)
    ensures
        match rule_applied(*rule, text@) {
            Some(t) => result_view(r) == Ok::<Seq<char>, ParseError>(t),
            None => r == Err::<Vec<char>, ParseError>(ParseError::InvalidPattern),
        },
{
    match rule {
        TransformRule::Literal { from, to } => {
            let f = chars_of(from.as_str());
            let t = chars_of(to.as_str());
            Ok(replace_literal(text, &f, &t))
        },
        TransformRule::Pattern { pattern, replacement } => {
            let s = string_of(text.as_slice());
            match replace_matches(pattern.as_str(), s.as_str(), replacement.as_str()) {
                Some(out) => Ok(chars_of(out.as_str())),
                None => Err(ParseError::InvalidPattern),
            }
        },
    }
}

fn apply_rules_chars(rules: &Vec<TransformRule>, text: Vec<char>) -> (r: Result<
    Vec<char>,
    ParseError,
>)
    ensures
        match rules_applied(rules@, text@) {
            Some(t) => result_view(r) == Ok::<Seq<char>, ParseError>(t),
            None => r == Err::<Vec<char>, ParseError>(ParseError::InvalidPattern),
        },
{
    let mut cur = text;
    let mut i: usize = 0;
    assert(rules@.take(0) =~= Seq::<TransformRule>::empty());
    while i < rules.len()
        invariant
            i <= rules.len(),
            rules_applied(rules@.take(i as int), text@) == Some(cur@),
        decreases rules.len() - i,
    {
        assert(rules@.take(i + 1).drop_last() =~= rules@.take(i as int));
        assert(rules@.take(i + 1).last() == rules@[i as int]);
        match apply_rule(&rules[i], &cur) {
            Ok(next) => {
                cur = next;
            },
            Err(e) => {
                proof {
                    lemma_rules_fail_later(rules@, text@, i + 1);
                }
                return Err(e);
            },
        }
        i = i + 1;
    }
    assert(rules@.take(i as int) =~= rules@);
    Ok(cur)
}

proof fn lemma_rules_fail_later(rules: Seq<TransformRule>, text: Seq<char>, i: int)
    requires
        0 <= i <= rules.len(),
        rules_applied(rules.take(i), text) is None,
    ensures
        rules_applied(rules, text) is None,
    decreases rules.len() - i,
{
    if i < rules.len() {
        assert(rules.take(i + 1).drop_last() =~= rules.take(i));
        lemma_rules_fail_later(rules, text, i + 1);
    } else {
        assert(rules.take(i) =~= rules);
    }
}

/// Applies `rules` in order to `text`.
pub fn apply_rules(rules: &Vec<TransformRule>, text: &str) -> (r: Result<String, ParseError>)
    ensures
        match rules_applied(rules@, text@) {
            Some(t) => string_result_view(r) == Ok::<Seq<char>, ParseError>(t),
            None => r == Err::<String, ParseError>(ParseError::InvalidPattern),
        },
{
    match apply_rules_chars(rules, chars_of(text)) {
        Ok(v) => Ok(string_of(v.as_slice())),
        Err(e) => Err(e),
    }
}

pub(crate) fn transform_chars(
    shape: LineShape,
    rules: &Vec<TransformRule>,
    line: &Vec<char>,
) -> (r: Result<Vec<char>, ParseError>)
    ensures
        result_view(r) == line_transformed(shape, rules@, line@),
{
    match shape {
        LineShape::KeyedEntries => {
            let i = find_char_index(line, ':');
            if i == line.len() {
                return Err(ParseError::MalformedLine);
            }
            let key = slice_chars(line, 0, i);
            let value = slice_chars(line, i + 1, line.len());
            assert(key@ =~= line@.take(i as int));
            assert(value@ =~= line@.skip(i + 1));
            let key = trim_chars(&key);
            let single = chars_of("'");
            let double = chars_of("\"");
            proof {
                reveal_strlit("'");
                reveal_strlit("\"");
            }
            assert(single@ =~= seq!['\'']);
            assert(double@ =~= seq!['"']);
            let mut out = replace_literal(&key, &single, &double);
            match apply_rules_chars(rules, trim_chars(&value)) {
                Ok(v) => {
                    let ghost kq = out@;
                    out.push(':');
                    crate::text::append_chars(&mut out, &v);
                    assert(out@ =~= kq + seq![':'] + v@);
                    Ok(out)
                },
                Err(e) => Err(e),
            }
        },
        LineShape::PlainEntries => apply_rules_chars(rules, trim_chars(line)),
    }
}

/// Rewrites one line of a block of `shape` with `rules`.
pub fn transform_line(shape: LineShape, rules: &Vec<TransformRule>, line: &str) -> (r: Result<
    String,
    ParseError,
>)
    ensures
        string_result_view(r) == line_transformed(shape, rules@, line@),
{
    match transform_chars(shape, rules, &chars_of(line)) {
        Ok(v) => Ok(string_of(v.as_slice())),
        Err(e) => Err(e),
    }
}

proof fn lemma_requote_tail(x: Seq<char>)
    requires
        !x.contains('\''),
    ensures
        replace_all_literal(x + seq!['\''], seq!['\''], seq!['"']) == x + seq!['"'],
    decreases x.len(),
{
    let q = seq!['\''];
    let s = x + q;
    if x.len() == 0 {
        assert(s =~= q);
        assert(s.take(1) =~= q);
        assert(s.skip(1) =~= Seq::<char>::empty());
        assert(replace_all_literal(Seq::<char>::empty(), q, seq!['"']) == Seq::<char>::empty());
        assert(seq!['"'] + Seq::<char>::empty() =~= x + seq!['"']);
    } else {
        assert(s.take(1) =~= seq![x[0]]);
        assert(x[0] != '\'') by {
            assert(x[0] == x[0]);
            if x[0] == '\'' {
                assert(x.contains('\''));
            }
        }
        assert(s.take(1)[0] != q[0]);
        assert(s.take(1) != q);
        assert(s.skip(1) =~= x.skip(1) + q);
        assert(!x.skip(1).contains('\'')) by {
            if x.skip(1).contains('\'') {
                let k = choose|k: int| 0 <= k < x.skip(1).len() && x.skip(1)[k] == '\'';
                assert(x[k + 1] == '\'');
            }
        }
        lemma_requote_tail(x.skip(1));
        assert(seq![x[0]] + (x.skip(1) + seq!['"']) =~= x + seq!['"']);
    }
}

proof fn lemma_requote_within(s: Seq<char>, x: char)
    ensures
        replace_all_literal(s, seq!['\''], seq!['"']).contains(x) ==> x == '"' || (x != '\''
            && s.contains(x)),
    decreases s.len(),
{
    let q = seq!['\''];
    let r = replace_all_literal(s, q, seq!['"']);
    if s.len() >= 1 {
        if s.take(1) == q {
            lemma_requote_within(s.skip(1), x);
            if r.contains(x) {
                let j = choose|j: int| 0 <= j < r.len() && r[j] == x;
                if j > 0 {
                    assert(replace_all_literal(s.skip(1), q, seq!['"'])[j - 1] == x);
                }
            }
        } else {
            assert(s[0] != '\'') by {
                if s[0] == '\'' {
                    assert(s.take(1) =~= q);
                }
            }
            lemma_requote_within(s.skip(1), x);
            if r.contains(x) {
                let j = choose|j: int| 0 <= j < r.len() && r[j] == x;
                if j > 0 {
                    assert(replace_all_literal(s.skip(1), q, seq!['"'])[j - 1] == x);
                    if s.skip(1).contains(x) {
                        let k = choose|k: int| 0 <= k < s.skip(1).len() && s.skip(1)[k] == x;
                        assert(s[k + 1] == x);
                    }
                } else {
                    assert(s[0] == x);
                }
            }
        }
    }
}

/// A keyed line that holds a `:` is split at its first `:` and never fails
/// for want of a separator: it becomes its requoted key, a `:`, and its value
/// put through the rules (or fails only where a rule's pattern does not
/// compile). The requoted key holds no `:` and no single quote, so the
/// result's first `:` is the one after it; a key written in single quotes
/// comes out in double quotes.
pub proof fn lemma_keyed_line(rules: Seq<TransformRule>, line: Seq<char>)
    requires
        line.contains(':'),
    ensures
        ({
            let i = find_char(line, ':');
            &&& 0 <= i < line.len()
            &&& line[i] == ':'
            &&& !line.take(i).contains(':')
            &&& match rules_applied(rules, trim(line.skip(i + 1))) {
                Some(v) => line_transformed(LineShape::KeyedEntries, rules, line) == Ok::<
                    Seq<char>,
                    ParseError,
                >(key_quoted(line.take(i)) + seq![':'] + v),
                None => line_transformed(LineShape::KeyedEntries, rules, line) == Err::<
                    Seq<char>,
                    ParseError,
                >(ParseError::InvalidPattern),
            }
            &&& forall|inner: Seq<char>|
                trim(line.take(i)) == seq!['\''] + inner + seq!['\''] && !inner.contains('\'')
                    ==> key_quoted(line.take(i)) == seq!['"'] + inner + seq!['"']
            &&& !key_quoted(line.take(i)).contains(':')
            &&& !key_quoted(line.take(i)).contains('\'')
            &&& forall|out: Seq<char>|
                line_transformed(LineShape::KeyedEntries, rules, line) == Ok::<
                    Seq<char>,
                    ParseError,
                >(out) ==> find_char(out, ':') == key_quoted(line.take(i)).len() && out.take(
                    find_char(out, ':'),
                ) == key_quoted(line.take(i))
        }),
{
    crate::text::lemma_find_char(line, ':');
    let i = find_char(line, ':');
    let k = choose|k: int| 0 <= k < line.len() && line[k] == ':';
    assert(i <= k);
    assert(!line.take(i).contains(':')) by {
        if line.take(i).contains(':') {
            let j = choose|j: int| 0 <= j < line.take(i).len() && line.take(i)[j] == ':';
            assert(line[j] == ':');
        }
    }
    assert forall|inner: Seq<char>|
        trim(line.take(i)) == seq!['\''] + inner + seq!['\''] && !inner.contains('\'')
            implies key_quoted(line.take(i)) == seq!['"'] + inner + seq!['"'] by {
        let q = seq!['\''];
        let s = q + inner + q;
        assert(s.take(1) =~= q);
        assert(s.skip(1) =~= inner + q);
        lemma_requote_tail(inner);
        assert(seq!['"'] + (inner + seq!['"']) =~= seq!['"'] + inner + seq!['"']);
    }
    let kq = key_quoted(line.take(i));
    crate::text::lemma_trim_within(line.take(i), ':');
    lemma_requote_within(trim(line.take(i)), ':');
    lemma_requote_within(trim(line.take(i)), '\'');
    assert forall|out: Seq<char>|
        line_transformed(LineShape::KeyedEntries, rules, line) == Ok::<Seq<char>, ParseError>(
            out,
        ) implies find_char(out, ':') == kq.len() && out.take(find_char(out, ':')) == kq by {
        let v = rules_applied(rules, trim(line.skip(i + 1)))->Some_0;
        crate::text::lemma_find_char_after(kq, ':', v);
        assert(out.take(kq.len() as int) =~= kq);
    }
}

/// Applying rules, and rewriting a line, depend on nothing but their inputs:
/// equal inputs give equal results.
pub proof fn lemma_rules_are_pure(
    rules1: Seq<TransformRule>,
    rules2: Seq<TransformRule>,
    shape: LineShape,
    text1: Seq<char>,
    text2: Seq<char>,
)
    requires
        rules1 == rules2,
        text1 == text2,
    ensures
        rules_applied(rules1, text1) == rules_applied(rules2, text2),
        line_transformed(shape, rules1, text1) == line_transformed(shape, rules2, text2),
{
}

} // verus!
