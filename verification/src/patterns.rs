//! Pattern matching: compiles ignore/include glob pattern lists and reads
//! pattern-source text into pattern lists.

use vstd::prelude::*;

verus! {

use globset::Glob;
use globset::GlobSet;
use globset::GlobSetBuilder;
use vstd::string::StrSliceExecFns;
use vstd::string::StringExecFns;

#[verifier::external_type_specification]
#[verifier::external_body]
pub struct ExGlob(globset::Glob);

#[verifier::external_type_specification]
#[verifier::external_body]
pub struct ExGlobSetBuilder(globset::GlobSetBuilder);

#[verifier::external_type_specification]
#[verifier::external_body]
pub struct ExGlobSet(globset::GlobSet);

/// The pattern that a parsed `Glob` was made from.
pub uninterp spec fn glob_view(g: Glob) -> Seq<char>;

/// The patterns added to a `GlobSetBuilder` so far, in order.
pub uninterp spec fn builder_view(b: GlobSetBuilder) -> Seq<Seq<char>>;

/// The pattern list that a compiled `GlobSet` was built from.
pub uninterp spec fn globset_view(g: GlobSet) -> Seq<Seq<char>>;

/// Whether one pattern parses as a glob.
pub uninterp spec fn glob_pattern_ok(pattern: Seq<char>) -> bool;

/// Whether the matcher compiles the parsed globs of this pattern list.
pub uninterp spec fn glob_set_ok(patterns: Seq<Seq<char>>) -> bool;

/// Whether the compiled set of `patterns` matches `path`.
pub uninterp spec fn glob_match(patterns: Seq<Seq<char>>, path: Seq<char>) -> bool;

/// A syntactically invalid glob pattern, or a pattern list that the matcher
/// refuses to compile.
#[derive(Debug)]
pub struct PatternError {
    pub message: String,
}

/// Relies on `globset::Glob::new`: whether a pattern parses, and what it
/// means, depend on the pattern text alone.
#[verifier::external_body]
fn glob_new(pattern: &str) -> (r: Result<Glob, String>)
    ensures
        r is Ok <==> glob_pattern_ok(pattern@),
        r matches Ok(g) ==> glob_view(g) == pattern@,
{
    globset::Glob::new(pattern).map_err(|e| e.to_string())
}

/// Relies on `globset::GlobSetBuilder::new`: the fresh builder holds no
/// patterns.
#[verifier::external_body]
fn glob_builder_new() -> (b: GlobSetBuilder)
    ensures
        builder_view(b) == Seq::<Seq<char>>::empty(),
{
    globset::GlobSetBuilder::new()
}

/// Relies on `globset::GlobSetBuilder::add`: it appends the glob to the
/// builder's pattern list.
#[verifier::external_body]
fn glob_builder_add(b: &mut GlobSetBuilder, g: Glob)
    ensures
        builder_view(*final(b)) == builder_view(*old(b)).push(glob_view(g)),
{
    b.add(g);
}

/// Relies on `globset::GlobSetBuilder::build`: whether the added patterns
/// compile into one matcher, and which matcher comes out, depend on the
/// pattern list alone.
#[verifier::external_body]
fn glob_builder_build(b: &GlobSetBuilder) -> (r: Result<GlobSet, String>)
    ensures
        r is Ok <==> glob_set_ok(builder_view(*b)),
        r matches Ok(s) ==> globset_view(s) == builder_view(*b),
{
    b.build().map_err(|e| e.to_string())
}

/// Relies on `globset::GlobSet::is_match`: the result depends on the compiled
/// patterns and the path alone. Paths are handed over in forward-slash form.
#[verifier::external_body]
fn glob_set_is_match(set: &GlobSet, path: &str) -> (b: bool)
    ensures
        b == glob_match(globset_view(*set), path@),
{
    set.is_match(path)
}

/// Whether a pattern list compiles: every pattern parses and the matcher
/// accepts the whole list.
pub open spec fn patterns_compile(patterns: Seq<Seq<char>>) -> bool {
    &&& forall|i: int| 0 <= i < patterns.len() ==> glob_pattern_ok(#[trigger] patterns[i])
    &&& glob_set_ok(patterns)
}

/// Compiles a pattern list into a matcher; a run must abort on a bad pattern
/// rather than silently select the wrong files.
pub fn build_glob_set(patterns: &Vec<String>) -> (r: Result<GlobSet, PatternError>)
    ensures
        r is Ok <==> patterns_compile(patterns.deep_view()),
        r matches Ok(g) ==> globset_view(g) == patterns.deep_view(),
{
    let ghost dv = patterns.deep_view();
    let mut builder = glob_builder_new();
    let n = patterns.len();
    let mut i: usize = 0;
    proof {
        assert(dv.take(0) =~= Seq::<Seq<char>>::empty());
    }
    while i < n
        invariant
            0 <= i <= n,
            n == patterns@.len(),
            dv == patterns.deep_view(),
            builder_view(builder) == dv.take(i as int),
            forall|t: int| 0 <= t < i ==> glob_pattern_ok(#[trigger] dv[t]),
        decreases n - i,
    {
        proof {
            assert(dv[i as int] == patterns@[i as int]@);
        }
        let glob = match glob_new(patterns[i].as_str()) {
            Ok(g) => g,
            Err(message) => {
                let mut full = "Failed to create glob pattern from: ".to_owned();
                full.append(patterns[i].as_str());
                full.append(": ");
                full.append(message.as_str());
                return Err(PatternError { message: full });
            },
        };
        glob_builder_add(&mut builder, glob);
        proof {
            assert(dv.take(i as int).push(dv[i as int]) =~= dv.take(i as int + 1));
        }
        i += 1;
    }
    proof {
        assert(dv.take(n as int) =~= dv);
    }
    match glob_builder_build(&builder) {
        Ok(set) => Ok(set),
        Err(message) => Err(PatternError { message }),
    }
}

/// Tests `path` against a compiled set.
pub fn matches_path(set: &GlobSet, path: &str) -> (b: bool)
    ensures
        b == glob_match(globset_view(*set), path@),
{
    glob_set_is_match(set, path)
}

pub open spec fn is_space_char(c: char) -> bool {
    c == ' ' || c == '\t' || c == '\r'
}

pub open spec fn is_blank_line(line: Seq<char>) -> bool {
    forall|i: int| 0 <= i < line.len() ==> is_space_char(#[trigger] line[i])
}

/// A pattern-source line is kept when it is not blank and does not start
/// with a comment mark.
pub open spec fn keeps_line(line: Seq<char>) -> bool {
    !is_blank_line(line) && !(line.len() > 0 && line[0] == '#')
}

/// One trailing carriage return is dropped from a line, so that sources with
/// either line ending read the same.
pub open spec fn strip_cr(line: Seq<char>) -> Seq<char> {
    if line.len() > 0 && line[line.len() - 1] == '\r' {
        line.drop_last()
    } else {
        line
    }
}

/// The lines of `s`, split at newline characters; a trailing newline does not
/// open an extra empty line.
pub open spec fn split_lines(s: Seq<char>) -> Seq<Seq<char>>
    decreases s.len(),
{
    if s.len() == 0 {
        Seq::empty()
    } else if s[0] == '\n' {
        seq![Seq::<char>::empty()] + split_lines(s.skip(1))
    } else {
        let rest = split_lines(s.skip(1));
        if rest.len() == 0 {
            seq![seq![s[0]]]
        } else {
            seq![seq![s[0]] + rest[0]] + rest.skip(1)
        }
    }
}

/// The kept lines, in order, each with a trailing carriage return removed.
pub open spec fn pattern_list(lines: Seq<Seq<char>>) -> Seq<Seq<char>>
    decreases lines.len(),
{
    if lines.len() == 0 {
        Seq::empty()
    } else {
        let line = strip_cr(lines[0]);
        (if keeps_line(line) {
            seq![line]
        } else {
            Seq::<Seq<char>>::empty()
        }) + pattern_list(lines.skip(1))
    }
}

/// The pattern list that a pattern-source text denotes.
pub open spec fn patterns_of(text: Seq<char>) -> Seq<Seq<char>> {
    pattern_list(split_lines(text))
}

/// Splitting off the first line: if the first `d` characters of `s` are
/// newline-free and position `d` is a newline or the end, then the lines of
/// `s` are `s.take(d)` followed by the lines of what comes after the newline.
proof fn lemma_split_first(s: Seq<char>, d: int)
    requires
        0 <= d <= s.len(),
        forall|m: int| 0 <= m < d ==> s[m] != '\n',
        d == s.len() || s[d] == '\n',
        s.len() > 0,
    ensures
        split_lines(s) == seq![s.take(d)] + (if d == s.len() {
            Seq::<Seq<char>>::empty()
        } else {
            split_lines(s.skip(d + 1))
        }),
    decreases d,
{
    if d == 0 {
        assert(s[0] == '\n');
        assert(s.take(0) =~= Seq::<char>::empty());
        assert(split_lines(s) == seq![Seq::<char>::empty()] + split_lines(s.skip(1)));
    } else {
        let t = s.skip(1);
        assert(forall|m: int| 0 <= m < d - 1 ==> t[m] != '\n');
        if t.len() == 0 {
            assert(d == 1 && s.len() == 1);
            assert(split_lines(t).len() == 0);
            assert(split_lines(s) == seq![seq![s[0]]]);
            assert(s.take(1) =~= seq![s[0]]);
            assert(seq![s.take(d)] + Seq::<Seq<char>>::empty() =~= seq![s.take(d)]);
        } else {
            lemma_split_first(t, d - 1);
            let tail = if d - 1 == t.len() {
                Seq::<Seq<char>>::empty()
            } else {
                split_lines(t.skip(d))
            };
            assert(split_lines(t) == seq![t.take(d - 1)] + tail);
            let rest = split_lines(t);
            assert(rest.len() > 0);
            assert(rest[0] == t.take(d - 1));
            assert(rest.skip(1) =~= tail);
            assert(split_lines(s) == seq![seq![s[0]] + rest[0]] + rest.skip(1));
            assert(seq![s[0]] + t.take(d - 1) =~= s.take(d));
            if d < s.len() {
                assert(t.skip(d) =~= s.skip(d + 1));
            }
        }
    }
}

fn keep_line(line: &str) -> (b: bool)
    ensures
        b == keeps_line(line@),
{
    let n = line.unicode_len();
    let mut has_content = false;
    let mut i: usize = 0;
    while i < n
        invariant
            i <= n,
            n == line@.len(),
            has_content == exists|m: int| 0 <= m < i && !is_space_char(#[trigger] line@[m]),
        decreases n - i,
    {
        let c = line.get_char(i);
        if !(c == ' ' || c == '\t' || c == '\r') {
            has_content = true;
        }
        i += 1;
    }
    assert(has_content == !is_blank_line(line@));
    if !has_content {
        return false;
    }
    assert(line@.len() > 0);
    let first = line.get_char(0);
    !(first == '#')
}

/// Reads a pattern-source text: one pattern per line, blank lines and lines
/// beginning with `#` ignored.
pub fn parse_patterns(text: &str) -> (r: Vec<String>)
    ensures
        r.deep_view() == patterns_of(text@),
{
    let n = text.unicode_len();
    let mut out: Vec<String> = Vec::new();
    let mut i: usize = 0;
    proof {
        assert(text@.skip(0) =~= text@);
        assert(out.deep_view() =~= Seq::<Seq<char>>::empty());
    }
    while i < n
        invariant
            i <= n,
            n == text@.len(),
            patterns_of(text@) == out.deep_view() + pattern_list(split_lines(text@.skip(i as int))),
        decreases n - i,
    {
        let ghost rem = text@.skip(i as int);
        let ghost dv0 = out.deep_view();
        let mut j: usize = i;
        while j < n && text.get_char(j) != '\n'
            invariant
                i <= j <= n,
                n == text@.len(),
                forall|m: int| i <= m < j ==> text@[m] != '\n',
            decreases n - j,
        {
            j += 1;
        }
        let mut k: usize = j;
        if k > i && text.get_char(k - 1) == '\r' {
            k -= 1;
        }
        let line = text.substring_char(i, k);
        let ghost line_full = text@.subrange(i as int, j as int);
        proof {
            if k < j {
                assert(line_full.len() > 0 && line_full[line_full.len() - 1] == '\r');
                assert(line@ =~= line_full.drop_last());
            } else {
                if line_full.len() > 0 {
                    assert(line_full[line_full.len() - 1] == text@[j - 1]);
                }
                assert(line@ =~= line_full);
            }
            assert(line@ == strip_cr(line_full));
        }
        let kept = keep_line(line);
        if kept {
            out.push(line.to_owned());
        }
        proof {
            lemma_split_first(rem, j - i);
            assert(rem.take(j - i) =~= line_full);
            let next = if j == n {
                Seq::<char>::empty()
            } else {
                text@.skip(j + 1)
            };
            if j < n {
                assert(rem.skip(j - i + 1) =~= text@.skip(j + 1));
            }
            assert(split_lines(rem) == seq![line_full] + split_lines(next)) by {
                if j == n {
                    assert(split_lines(Seq::<char>::empty()) =~= Seq::<Seq<char>>::empty());
                }
            }
            let lines = seq![line_full] + split_lines(next);
            assert(lines.skip(1) =~= split_lines(next));
            assert(pattern_list(split_lines(rem)) == (if keeps_line(line@) {
                seq![line@]
            } else {
                Seq::<Seq<char>>::empty()
            }) + pattern_list(split_lines(next)));
            if kept {
                assert(out.deep_view() =~= dv0.push(line@));
                assert(dv0 + (seq![line@] + pattern_list(split_lines(next))) =~= out.deep_view()
                    + pattern_list(split_lines(next)));
            } else {
                assert(dv0 + (Seq::<Seq<char>>::empty() + pattern_list(split_lines(next)))
                    =~= out.deep_view() + pattern_list(split_lines(next)));
            }
            if j < n {
                assert(next == text@.skip(j + 1));
            } else {
                assert(next =~= text@.skip(n as int));
            }
        }
        if j < n {
            i = j + 1;
        } else {
            i = n;
        }
    }
    proof {
        assert(text@.skip(n as int) =~= Seq::<char>::empty());
        assert(out.deep_view() + Seq::<Seq<char>>::empty() =~= out.deep_view());
    }
    out
}

/// The two pattern lists of one run; read once, immutable thereafter.
pub struct FilterSettings {
    pub ignore_list: Vec<String>,
    pub include_list: Vec<String>,
}

/// Builds the filter settings from the contents of the two pattern-source
/// files; a missing file stands for an empty pattern list.
pub fn get_filter_settings(ignore_text: Option<&str>, include_text: Option<&str>) -> (r:
    FilterSettings)
    ensures
        r.ignore_list.deep_view() == (match ignore_text {
            Some(t) => patterns_of(t@),
            None => Seq::<Seq<char>>::empty(),
        }),
        r.include_list.deep_view() == (match include_text {
            Some(t) => patterns_of(t@),
            None => Seq::<Seq<char>>::empty(),
        }),
{
    let ignore_list = match ignore_text {
        Some(t) => parse_patterns(t),
        None => {
            let v: Vec<String> = Vec::new();
            proof {
                assert(v.deep_view() =~= Seq::<Seq<char>>::empty());
            }
            v
        },
    };
    let include_list = match include_text {
        Some(t) => parse_patterns(t),
        None => {
            let v: Vec<String> = Vec::new();
            proof {
                assert(v.deep_view() =~= Seq::<Seq<char>>::empty());
            }
            v
        },
    };
    FilterSettings { ignore_list, include_list }
}

} // verus!
