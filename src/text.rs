//! Character-level helpers: whitespace trimming, literal substitution,
//! splitting into lines and joining with newlines.

use vstd::prelude::*;

verus! {

/// The White_Space characters of Unicode, as `char::is_whitespace` has them.
pub open spec fn is_space(c: char) -> bool {
    ('\t' <= c && c <= '\r') || c == ' ' || c == '\u{85}' || c == '\u{a0}' || c == '\u{1680}'
        || ('\u{2000}' <= c && c <= '\u{200a}') || c == '\u{2028}' || c == '\u{2029}'
        || c == '\u{202f}' || c == '\u{205f}' || c == '\u{3000}'
}

pub fn is_space_char(c: char) -> (r: bool)
    ensures
        r == is_space(c),
{
    ('\t' <= c && c <= '\r') || c == ' ' || c == '\u{85}' || c == '\u{a0}' || c == '\u{1680}'
        || ('\u{2000}' <= c && c <= '\u{200a}') || c == '\u{2028}' || c == '\u{2029}'
        || c == '\u{202f}' || c == '\u{205f}' || c == '\u{3000}'
}

/// `s` without its leading whitespace.
pub open spec fn trim_start(s: Seq<char>) -> Seq<char>
    decreases s.len(),
{
    if s.len() > 0 && is_space(s[0]) {
        trim_start(s.drop_first())
    } else {
        s
    }
}

/// `s` without its trailing whitespace.
pub open spec fn trim_end(s: Seq<char>) -> Seq<char>
    decreases s.len(),
{
    if s.len() > 0 && is_space(s.last()) {
        trim_end(s.drop_last())
    } else {
        s
    }
}

/// `s` without whitespace at either end.
pub open spec fn trim(s: Seq<char>) -> Seq<char> {
    trim_end(trim_start(s))
}

/// The characters of `s` in order.
pub fn chars_of(s: &str) -> (r: Vec<char>)
    ensures
        r@ == s@,
{
    broadcast use vstd::string::group_string_axioms;

    let mut r: Vec<char> = Vec::new();
    for c in it: s.chars()
        invariant
            r@ == it.seq().take(it.index() as int),
    {
        r.push(c);
    }
    r
}

/// Relies on `String: FromIterator<char>`: the string of the characters `v` in order.
#[verifier::external_body]
pub(crate) fn string_of(v: &[char]) -> (r: String)
    ensures
        r@ == v@,
{
    v.iter().collect()
}

proof fn lemma_trim_start_skip(s: Seq<char>, i: int)
    requires
        0 <= i <= s.len(),
        forall|k: int| 0 <= k < i ==> is_space(#[trigger] s[k]),
    ensures
        trim_start(s) == trim_start(s.skip(i)),
    decreases i,
{
    if i > 0 {
        assert(s.skip(1).skip(i - 1) =~= s.skip(i));
        assert(s.drop_first() =~= s.skip(1));
        lemma_trim_start_skip(s.skip(1), i - 1);
    } else {
        assert(s.skip(0) =~= s);
    }
}

proof fn lemma_trim_end_take(s: Seq<char>, j: int)
    requires
        0 <= j <= s.len(),
        forall|k: int| j <= k < s.len() ==> is_space(#[trigger] s[k]),
    ensures
        trim_end(s) == trim_end(s.take(j)),
    decreases s.len() - j,
{
    if j < s.len() {
        assert(s.drop_last().take(j) =~= s.take(j));
        lemma_trim_end_take(s.drop_last(), j);
    } else {
        assert(s.take(j) =~= s);
    }
}

/// The characters of `v` from `from` to `to`.
pub fn slice_chars(v: &Vec<char>, from: usize, to: usize) -> (r: Vec<char>)
    requires
        from <= to <= v.len(),
    ensures
        r@ == v@.subrange(from as int, to as int),
{
    let mut r: Vec<char> = Vec::new();
    let mut i: usize = from;
    while i < to
        invariant
            from <= i <= to <= v.len(),
            r@ == v@.subrange(from as int, i as int),
        decreases to - i,
    {
        r.push(v[i]);
        assert(r@ =~= v@.subrange(from as int, i + 1));
        i = i + 1;
    }
    r
}

/// Removes whitespace at both ends.
pub fn trim_chars(v: &Vec<char>) -> (r: Vec<char>)
    ensures
        r@ == trim(v@),
{
    let n = v.len();
    let mut i: usize = 0;
    while i < n && is_space_char(v[i])
        invariant
            i <= n == v.len(),
            forall|k: int| 0 <= k < i ==> is_space(#[trigger] v@[k]),
        decreases n - i,
    {
        i = i + 1;
    }
    proof {
        lemma_trim_start_skip(v@, i as int);
        if i < n {
            assert(!is_space(v@.skip(i as int)[0]));
        }
    }
    let mut j: usize = n;
    while j > i && is_space_char(v[j - 1])
        invariant
            i <= j <= n == v.len(),
            forall|k: int| j <= k < n ==> is_space(#[trigger] v@[k]),
        decreases j,
    {
        j = j - 1;
    }
    let r = slice_chars(v, i, j);
    proof {
        let t = v@.skip(i as int);
        assert(trim_start(v@) == t);
        assert(forall|k: int| (j - i) <= k < t.len() ==> t[k] == v@[k + i]);
        lemma_trim_end_take(t, j - i);
        assert(t.take(j - i) =~= r@);
        if j > i {
            assert(r@.last() == v@[j - 1]);
        }
    }
    r
}

/// Every non-overlapping occurrence of `from` in `s`, taken from the left,
/// replaced by `to`. An empty `from` leaves `s` as it is.
pub open spec fn replace_all_literal(s: Seq<char>, from: Seq<char>, to: Seq<char>) -> Seq<char>
    decreases s.len(),
{
    if from.len() == 0 || s.len() < from.len() {
        s
    } else if s.take(from.len() as int) == from {
        to + replace_all_literal(s.skip(from.len() as int), from, to)
    } else {
        seq![s[0]] + replace_all_literal(s.skip(1), from, to)
    }
}

/// Appends the characters of `src` to `out`.
pub fn append_chars(out: &mut Vec<char>, src: &Vec<char>)
    ensures
        final(out)@ == old(out)@ + src@,
{
    let mut i: usize = 0;
    while i < src.len()
        invariant
            i <= src.len(),
            out@ == old(out)@ + src@.take(i as int),
        decreases src.len() - i,
    {
        out.push(src[i]);
        assert(src@.take(i + 1) =~= src@.take(i as int).push(src@[i as int]));
        i = i + 1;
    }
    assert(src@.take(i as int) =~= src@);
}

/// Whether `pat` occurs in `v` at position `at`.
pub fn occurs_at(v: &Vec<char>, at: usize, pat: &Vec<char>) -> (r: bool)
    requires
        at + pat.len() <= v.len(),
    ensures
        r == (v@.subrange(at as int, at + pat.len()) == pat@),
{
    let mut k: usize = 0;
    while k < pat.len()
        invariant
            k <= pat.len(),
            at + pat.len() <= v.len(),
            forall|j: int| 0 <= j < k ==> v@[at + j] == pat@[j],
        decreases pat.len() - k,
    {
        if v[at + k] != pat[k] {
            assert(v@.subrange(at as int, at + pat.len())[k as int] != pat@[k as int]);
            return false;
        }
        k = k + 1;
    }
    assert(v@.subrange(at as int, at + pat.len()) =~= pat@);
    true
}

/// Replaces every non-overlapping occurrence of `from`, from the left, by `to`.
pub fn replace_literal(text: &Vec<char>, from: &Vec<char>, to: &Vec<char>) -> (r: Vec<char>)
    ensures
        r@ == replace_all_literal(text@, from@, to@),
{
    let n = text.len();
    let m = from.len();
    if m == 0 {
        return slice_chars(text, 0, n);
    }
    let mut out: Vec<char> = Vec::new();
    let mut i: usize = 0;
    assert(text@.skip(0) =~= text@);
    assert(out@ + text@ =~= text@);
    while i < n
        invariant
            i <= n == text.len(),
            m == from.len() > 0,
            out@ + replace_all_literal(text@.skip(i as int), from@, to@) == replace_all_literal(
                text@,
                from@,
                to@,
            ),
        decreases n - i,
    {
        let rest = Ghost(text@.skip(i as int));
        if m <= n - i && occurs_at(text, i, from) {
            assert(rest@.take(m as int) =~= text@.subrange(i as int, i + m));
            assert(rest@.skip(m as int) =~= text@.skip(i + m));
            append_chars(&mut out, to);
            i = i + m;
        } else {
            if m <= n - i {
                assert(rest@.take(m as int) =~= text@.subrange(i as int, i + m));
                assert(rest@.skip(1) =~= text@.skip(i + 1));
            } else {
                assert(rest@ =~= seq![text@[i as int]] + text@.skip(i + 1));
            }
            out.push(text[i]);
            i = i + 1;
        }
    }
    assert(text@.skip(n as int) =~= Seq::<char>::empty());
    assert(out@ + Seq::<char>::empty() =~= out@);
    out
}

/// The position of the first `c` in `s`, or the length of `s` where there is none.
pub open spec fn find_char(s: Seq<char>, c: char) -> int
    decreases s.len(),
{
    if s.len() == 0 || s[0] == c {
        0
    } else {
        1 + find_char(s.drop_first(), c)
    }
}

pub proof fn lemma_find_char(s: Seq<char>, c: char)
    ensures
        0 <= find_char(s, c) <= s.len(),
        forall|k: int| 0 <= k < find_char(s, c) ==> s[k] != c,
        find_char(s, c) < s.len() ==> s[find_char(s, c)] == c,
    decreases s.len(),
{
    if s.len() > 0 && s[0] != c {
        lemma_find_char(s.drop_first(), c);
        assert forall|k: int| 0 <= k < find_char(s, c) implies s[k] != c by {
            if k > 0 {
                assert(s[k] == s.drop_first()[k - 1]);
            }
        }
    }
}

/// The position of the first `c` in `v`, or its length where there is none.
pub fn find_char_index(v: &Vec<char>, c: char) -> (r: usize)
    ensures
        r as int == find_char(v@, c),
        r <= v.len(),
{
    let mut i: usize = 0;
    while i < v.len() && v[i] != c
        invariant
            i <= v.len(),
            forall|k: int| 0 <= k < i ==> v@[k] != c,
        decreases v.len() - i,
    {
        i = i + 1;
    }
    proof {
        lemma_find_char(v@, c);
    }
    i
}

/// `l` without one carriage return at its end.
pub open spec fn strip_cr(l: Seq<char>) -> Seq<char> {
    if l.len() > 0 && l.last() == '\r' {
        l.drop_last()
    } else {
        l
    }
}

/// The pieces of `s` between newline characters, one more than there are
/// newlines; a carriage return before a newline belongs to neither piece.
pub open spec fn pieces(s: Seq<char>) -> Seq<Seq<char>>
    decreases s.len(),
{
    if s.len() == 0 {
        seq![Seq::empty()]
    } else {
        let p = pieces(s.drop_last());
        if s.last() == '\n' {
            p.update(p.len() - 1, strip_cr(p.last())).push(Seq::empty())
        } else {
            p.update(p.len() - 1, p.last().push(s.last()))
        }
    }
}

/// The lines of `s`: its pieces between newlines, without the empty one that
/// follows a final newline.
pub open spec fn lines_of(s: Seq<char>) -> Seq<Seq<char>> {
    let p = pieces(s);
    if p.last().len() == 0 {
        p.drop_last()
    } else {
        p
    }
}

/// `parts` joined with a newline between each two.
pub open spec fn join_lines(parts: Seq<Seq<char>>) -> Seq<char>
    decreases parts.len(),
{
    if parts.len() == 0 {
        Seq::empty()
    } else if parts.len() == 1 {
        parts[0]
    } else {
        join_lines(parts.drop_last()) + seq!['\n'] + parts.last()
    }
}

/// What each vector of characters holds.
pub open spec fn char_views(v: Seq<Vec<char>>) -> Seq<Seq<char>> {
    v.map_values(|l: Vec<char>| l@)
}

proof fn lemma_pieces_len(s: Seq<char>)
    ensures
        pieces(s).len() >= 1,
    decreases s.len(),
{
    if s.len() > 0 {
        lemma_pieces_len(s.drop_last());
    }
}

/// Splits `v` into its lines.
pub fn split_lines(v: &Vec<char>) -> (r: Vec<Vec<char>>)
    ensures
        char_views(r@) == lines_of(v@),
{
    let mut done: Vec<Vec<char>> = Vec::new();
    let mut cur: Vec<char> = Vec::new();
    let mut i: usize = 0;
    assert(v@.take(0) =~= Seq::<char>::empty());
    assert(char_views(done@).push(cur@) =~= pieces(v@.take(0)));
    while i < v.len()
        invariant
            i <= v.len(),
            pieces(v@.take(i as int)) == char_views(done@).push(cur@),
        decreases v.len() - i,
    {
        let c = v[i];
        assert(v@.take(i + 1).drop_last() =~= v@.take(i as int));
        assert(v@.take(i + 1).last() == c);
        if c == '\n' {
            let ghost before = cur@;
            if cur.len() > 0 && cur[cur.len() - 1] == '\r' {
                cur.pop();
            }
            assert(cur@ =~= strip_cr(before));
            let line = cur;
            done.push(line);
            cur = Vec::new();
            assert(char_views(done@).push(cur@) =~= pieces(v@.take(i + 1)));
        } else {
            cur.push(c);
            assert(char_views(done@).push(cur@) =~= pieces(v@.take(i + 1)));
        }
        i = i + 1;
    }
    assert(v@.take(i as int) =~= v@);
    if cur.len() > 0 {
        done.push(cur);
        assert(char_views(done@) =~= lines_of(v@));
    } else {
        assert(char_views(done@) =~= lines_of(v@));
    }
    done
}

/// Joins `parts` with a newline between each two.
pub fn join_with_newlines(parts: &Vec<Vec<char>>) -> (r: Vec<char>)
    ensures
        r@ == join_lines(char_views(parts@)),
{
    let mut out: Vec<char> = Vec::new();
    if parts.len() == 0 {
        return out;
    }
    append_chars(&mut out, &parts[0]);
    let mut i: usize = 1;
    assert(char_views(parts@).take(1) =~= seq![parts@[0]@]);
    while i < parts.len()
        invariant
            1 <= i <= parts.len(),
            out@ == join_lines(char_views(parts@).take(i as int)),
        decreases parts.len() - i,
    {
        assert(char_views(parts@).take(i + 1).drop_last() =~= char_views(parts@).take(i as int));
        out.push('\n');
        append_chars(&mut out, &parts[i]);
        i = i + 1;
    }
    assert(char_views(parts@).take(i as int) =~= char_views(parts@));
    out
}

/// Trimming keeps only characters that were there.
pub proof fn lemma_trim_within(s: Seq<char>, x: char)
    ensures
        trim(s).contains(x) ==> s.contains(x),
{
    lemma_trim_start_within(s, x);
    lemma_trim_end_within(trim_start(s), x);
}

proof fn lemma_trim_start_within(s: Seq<char>, x: char)
    ensures
        trim_start(s).contains(x) ==> s.contains(x),
    decreases s.len(),
{
    if s.len() > 0 && is_space(s[0]) {
        lemma_trim_start_within(s.drop_first(), x);
        if s.drop_first().contains(x) {
            let j = choose|j: int| 0 <= j < s.drop_first().len() && s.drop_first()[j] == x;
            assert(s[j + 1] == x);
        }
    }
}

proof fn lemma_trim_end_within(s: Seq<char>, x: char)
    ensures
        trim_end(s).contains(x) ==> s.contains(x),
    decreases s.len(),
{
    if s.len() > 0 && is_space(s.last()) {
        lemma_trim_end_within(s.drop_last(), x);
        if s.drop_last().contains(x) {
            let j = choose|j: int| 0 <= j < s.drop_last().len() && s.drop_last()[j] == x;
            assert(s[j] == x);
        }
    }
}

/// The first `c` of `x + [c] + y`, where `x` holds none, is the one after `x`.
pub proof fn lemma_find_char_after(x: Seq<char>, c: char, y: Seq<char>)
    requires
        !x.contains(c),
    ensures
        find_char(x + seq![c] + y, c) == x.len(),
    decreases x.len(),
{
    let s = x + seq![c] + y;
    if x.len() > 0 {
        assert(x.contains(x[0]));
        assert(s[0] == x[0]);
        assert(s.drop_first() =~= x.drop_first() + seq![c] + y);
        assert(!x.drop_first().contains(c)) by {
            if x.drop_first().contains(c) {
                let j = choose|j: int| 0 <= j < x.drop_first().len() && x.drop_first()[j] == c;
                assert(x[j + 1] == c);
            }
        }
        lemma_find_char_after(x.drop_first(), c, y);
    } else {
        assert(s[0] == c);
    }
}

} // verus!
