//! File selection: relativizes discovered entries against the tree root and
//! applies ignore/include pattern sets. Ignore matches take precedence over
//! include matches, a directory match suppresses all descendants, and an
//! empty include list restricts nothing.

use vstd::prelude::*;

verus! {

use globset::GlobSet;
use vstd::string::StrSliceExecFns;
use vstd::string::StringExecFns;
use crate::patterns::FilterSettings;
use crate::patterns::PatternError;
use crate::patterns::build_glob_set;
use crate::patterns::glob_match;
use crate::patterns::patterns_compile;
use crate::patterns::globset_view;
use crate::patterns::matches_path;

/// One entry found by walking the tree: absolute path (forward-slash form)
/// and whether it is a directory.
pub struct FileEntry {
    pub path: String,
    pub is_dir: bool,
}

/// A selected regular file: absolute path and path relative to the tree root.
pub struct SelectedFile {
    pub path: String,
    pub rel_path: String,
}

pub open spec fn entry_views(v: Seq<FileEntry>) -> Seq<(Seq<char>, bool)> {
    v.map(|i: int, e: FileEntry| (e.path@, e.is_dir))
}

pub open spec fn selected_views(v: Seq<SelectedFile>) -> Seq<(Seq<char>, Seq<char>)> {
    v.map(|i: int, f: SelectedFile| (f.path@, f.rel_path@))
}

/// The path of `path` relative to `root`: the empty path when they are equal,
/// what follows `root` and one separator when `root` is a proper prefix at a
/// component boundary, and nothing otherwise.
pub open spec fn spec_relativize(root: Seq<char>, path: Seq<char>) -> Option<Seq<char>> {
    if path == root {
        Some(Seq::empty())
    } else if path.len() > root.len() && path.take(root.len() as int) == root && path[root.len() as int]
        == '/' {
        Some(path.skip(root.len() as int + 1))
    } else {
        None
    }
}

pub fn relativize(root: &str, path: &str) -> (r: Option<String>)
    ensures
        r is Some <==> spec_relativize(root@, path@) is Some,
        r matches Some(s) ==> spec_relativize(root@, path@) matches Some(rel) && s@ == rel,
{
    let m = root.unicode_len();
    let p = path.unicode_len();
    if p < m {
        return None;
    }
    let mut i: usize = 0;
    while i < m
        invariant
            i <= m,
            m == root@.len(),
            p == path@.len(),
            m <= p,
            forall|t: int| 0 <= t < i ==> path@[t] == root@[t],
        decreases m - i,
    {
        if path.get_char(i) != root.get_char(i) {
            proof {
                assert(path@ != root@);
                assert(path@.take(m as int)[i as int] != root@[i as int]);
            }
            return None;
        }
        i += 1;
    }
    if p == m {
        proof {
            assert(path@ =~= root@);
        }
        Some(String::new())
    } else if path.get_char(m) == '/' {
        let rest = path.substring_char(m + 1, p);
        proof {
            assert(path@.take(m as int) =~= root@);
            assert(path@ != root@);
            assert(rest@ =~= path@.skip(m as int + 1));
        }
        Some(rest.to_owned())
    } else {
        proof {
            if path@ == root@ {
                assert(path@.len() == root@.len());
            }
        }
        None
    }
}

/// The dual probe of the pattern matcher for a path known to be a directory:
/// the bare relative path, and the path with a separator appended; a match on
/// either counts.
pub open spec fn dir_match(patterns: Seq<Seq<char>>, rel: Seq<char>) -> bool {
    glob_match(patterns, rel) || glob_match(patterns, rel.push('/'))
}

pub open spec fn entry_match(patterns: Seq<Seq<char>>, rel: Seq<char>, is_dir: bool) -> bool {
    if is_dir {
        dir_match(patterns, rel)
    } else {
        glob_match(patterns, rel)
    }
}

pub fn dir_match_exec(set: &GlobSet, rel: &str) -> (b: bool)
    ensures
        b == dir_match(globset_view(*set), rel@),
{
    if matches_path(set, rel) {
        return true;
    }
    let mut with_slash = rel.to_owned();
    with_slash.append("/");
    proof {
        reveal_strlit("/");
        assert(with_slash@ =~= rel@.push('/'));
    }
    matches_path(set, with_slash.as_str())
}

/// Whether some ancestor directory of `rel` is matched (with the dual probe),
/// which suppresses every descendant.
pub open spec fn ancestor_ignored(patterns: Seq<Seq<char>>, rel: Seq<char>) -> bool {
    exists|t: int| 0 <= t < rel.len() && rel[t] == '/' && dir_match(patterns, #[trigger] rel.take(t))
}

fn ancestor_ignored_exec(set: &GlobSet, rel: &str) -> (b: bool)
    ensures
        b == ancestor_ignored(globset_view(*set), rel@),
{
    let n = rel.unicode_len();
    let mut i: usize = 0;
    let mut found = false;
    while i < n
        invariant
            i <= n,
            n == rel@.len(),
            found == exists|t: int|
                0 <= t < i && rel@[t] == '/' && dir_match(globset_view(*set), #[trigger] rel@.take(t)),
        decreases n - i,
    {
        if rel.get_char(i) == '/' {
            let prefix = rel.substring_char(0, i);
            proof {
                assert(prefix@ =~= rel@.take(i as int));
            }
            if dir_match_exec(set, prefix) {
                found = true;
            }
        }
        proof {
            assert(forall|t: int|
                (0 <= t < i + 1 && rel@[t] == '/' && dir_match(globset_view(*set), #[trigger] rel@.take(t)))
                    ==> (0 <= t < i && rel@[t] == '/' && dir_match(globset_view(*set), rel@.take(t)))
                    || t == i);
        }
        i += 1;
    }
    found
}

/// A file is suppressed when its own relative path matches the ignore set or
/// some ancestor directory does.
pub open spec fn file_suppressed(patterns: Seq<Seq<char>>, rel: Seq<char>) -> bool {
    glob_match(patterns, rel) || ancestor_ignored(patterns, rel)
}

pub fn file_suppressed_exec(set: &GlobSet, rel: &str) -> (b: bool)
    ensures
        b == file_suppressed(globset_view(*set), rel@),
{
    if matches_path(set, rel) {
        true
    } else {
        ancestor_ignored_exec(set, rel)
    }
}

/// The selection rule for one entry: only regular files pass, ignore matches
/// (own or ancestor) drop unconditionally, and a non-empty include set must
/// match; an empty include set is no restriction.
pub open spec fn file_selected(
    ig: Seq<Seq<char>>,
    inc: Seq<Seq<char>>,
    rel: Seq<char>,
    is_dir: bool,
) -> bool {
    &&& !is_dir
    &&& !file_suppressed(ig, rel)
    &&& (inc.len() == 0 || glob_match(inc, rel))
}

/// The selection over a discovered entry list: for each entry that lies under
/// `root` and passes the rule, the pair of its absolute and relative path,
/// in input order.
pub open spec fn spec_selection(
    entries: Seq<FileEntry>,
    root: Seq<char>,
    ig: Seq<Seq<char>>,
    inc: Seq<Seq<char>>,
) -> Seq<(Seq<char>, Seq<char>)>
    decreases entries.len(),
{
    if entries.len() == 0 {
        Seq::empty()
    } else {
        let e = entries[0];
        let rest = spec_selection(entries.skip(1), root, ig, inc);
        match spec_relativize(root, e.path@) {
            Some(rel) => if file_selected(ig, inc, rel, e.is_dir) {
                seq![(e.path@, rel)] + rest
            } else {
                rest
            },
            None => rest,
        }
    }
}

/// Applies ignore and include pattern lists to a discovered entry list.
/// Fails exactly when one of the two pattern lists does not compile.
pub fn filter_files(
    all_files: &Vec<FileEntry>,
    repo_path: &str,
    ignore_patterns: &Vec<String>,
    include_patterns: &Vec<String>,
) -> (r: Result<Vec<SelectedFile>, PatternError>)
    ensures
        r is Ok <==> (patterns_compile(ignore_patterns.deep_view()) && patterns_compile(
            include_patterns.deep_view(),
        )),
        r matches Ok(v) ==> selected_views(v@) == spec_selection(
            all_files@,
            repo_path@,
            ignore_patterns.deep_view(),
            include_patterns.deep_view(),
        ),
{
    let ghost igv = ignore_patterns.deep_view();
    let ghost incv = include_patterns.deep_view();
    let ignore_set = match build_glob_set(ignore_patterns) {
        Ok(s) => s,
        Err(e) => {
            return Err(e);
        },
    };
    let include_set = match build_glob_set(include_patterns) {
        Ok(s) => s,
        Err(e) => {
            return Err(e);
        },
    };
    let mut out: Vec<SelectedFile> = Vec::new();
    let n = all_files.len();
    let mut i: usize = 0;
    proof {
        assert(all_files@.skip(0) =~= all_files@);
        assert(selected_views(out@) =~= Seq::<(Seq<char>, Seq<char>)>::empty());
    }
    while i < n
        invariant
            i <= n,
            n == all_files@.len(),
            globset_view(ignore_set) == igv,
            globset_view(include_set) == incv,
            igv == ignore_patterns.deep_view(),
            incv == include_patterns.deep_view(),
            spec_selection(all_files@, repo_path@, igv, incv) == selected_views(out@)
                + spec_selection(all_files@.skip(i as int), repo_path@, igv, incv),
        decreases n - i,
    {
        let ghost rem = all_files@.skip(i as int);
        let ghost dv0 = selected_views(out@);
        proof {
            assert(rem[0] == all_files@[i as int]);
            assert(rem.skip(1) =~= all_files@.skip(i as int + 1));
        }
        let e = &all_files[i];
        match relativize(repo_path, e.path.as_str()) {
            Some(rel) => {
                let mut keep = !e.is_dir;
                if keep && file_suppressed_exec(&ignore_set, rel.as_str()) {
                    keep = false;
                }
                if keep && include_patterns.len() > 0 && !matches_path(&include_set, rel.as_str()) {
                    keep = false;
                }
                proof {
                    assert(incv.len() == include_patterns@.len());
                    assert(keep == file_selected(igv, incv, rel@, e.is_dir));
                }
                if keep {
                    let sel = SelectedFile { path: e.path.clone(), rel_path: rel };
                    out.push(sel);
                    proof {
                        assert(selected_views(out@) =~= dv0.push((e.path@, sel.rel_path@)));
                        assert(dv0 + (seq![(e.path@, sel.rel_path@)] + spec_selection(
                            rem.skip(1),
                            repo_path@,
                            igv,
                            incv,
                        )) =~= selected_views(out@) + spec_selection(rem.skip(1), repo_path@, igv, incv));
                    }
                }
            },
            None => {
            },
        }
        i += 1;
    }
    proof {
        assert(spec_selection(all_files@.skip(n as int), repo_path@, igv, incv)
            =~= Seq::<(Seq<char>, Seq<char>)>::empty());
        assert(selected_views(out@) + Seq::<(Seq<char>, Seq<char>)>::empty() =~= selected_views(out@));
    }
    Ok(out)
}

/// Whether one entry is dropped by the per-entry ignore test (the dual probe
/// for directories); entries not under the root are kept.
pub open spec fn spec_entry_ignored(
    root: Seq<char>,
    ig: Seq<Seq<char>>,
    path: Seq<char>,
    is_dir: bool,
) -> bool {
    match spec_relativize(root, path) {
        Some(rel) => entry_match(ig, rel, is_dir),
        None => false,
    }
}

/// Tests one entry against a compiled ignore set, probing the trailing
/// separator form as well when the entry is a directory.
pub fn should_ignore(set: &GlobSet, repo_path: &str, file_path: &str, is_dir: bool) -> (b: bool)
    ensures
        b == spec_entry_ignored(repo_path@, globset_view(*set), file_path@, is_dir),
{
    match relativize(repo_path, file_path) {
        Some(rel) => {
            if is_dir {
                dir_match_exec(set, rel.as_str())
            } else {
                matches_path(set, rel.as_str())
            }
        },
        None => false,
    }
}

/// The entries that survive the per-entry ignore test, in input order.
pub open spec fn spec_all_files(
    entries: Seq<FileEntry>,
    root: Seq<char>,
    ig: Seq<Seq<char>>,
) -> Seq<(Seq<char>, bool)>
    decreases entries.len(),
{
    if entries.len() == 0 {
        Seq::empty()
    } else {
        let e = entries[0];
        let rest = spec_all_files(entries.skip(1), root, ig);
        if spec_entry_ignored(root, ig, e.path@, e.is_dir) {
            rest
        } else {
            seq![(e.path@, e.is_dir)] + rest
        }
    }
}

/// Drops every discovered entry that the ignore patterns match.
/// Fails exactly when the ignore pattern list does not compile.
pub fn get_all_files(
    entries: &Vec<FileEntry>,
    repo_path: &str,
    ignore_patterns: &Vec<String>,
) -> (r: Result<Vec<FileEntry>, PatternError>)
    ensures
        r is Ok <==> patterns_compile(ignore_patterns.deep_view()),
        r matches Ok(v) ==> entry_views(v@) == spec_all_files(
            entries@,
            repo_path@,
            ignore_patterns.deep_view(),
        ),
{
    let ghost igv = ignore_patterns.deep_view();
    let ignore_set = match build_glob_set(ignore_patterns) {
        Ok(s) => s,
        Err(e) => {
            return Err(e);
        },
    };
    let mut out: Vec<FileEntry> = Vec::new();
    let n = entries.len();
    let mut i: usize = 0;
    proof {
        assert(entries@.skip(0) =~= entries@);
        assert(entry_views(out@) =~= Seq::<(Seq<char>, bool)>::empty());
    }
    while i < n
        invariant
            i <= n,
            n == entries@.len(),
            globset_view(ignore_set) == igv,
            igv == ignore_patterns.deep_view(),
            spec_all_files(entries@, repo_path@, igv) == entry_views(out@) + spec_all_files(
                entries@.skip(i as int),
                repo_path@,
                igv,
            ),
        decreases n - i,
    {
        let ghost rem = entries@.skip(i as int);
        let ghost dv0 = entry_views(out@);
        proof {
            assert(rem[0] == entries@[i as int]);
            assert(rem.skip(1) =~= entries@.skip(i as int + 1));
        }
        let e = &entries[i];
        if !should_ignore(&ignore_set, repo_path, e.path.as_str(), e.is_dir) {
            let kept = FileEntry { path: e.path.clone(), is_dir: e.is_dir };
            out.push(kept);
            proof {
                assert(entry_views(out@) =~= dv0.push((e.path@, e.is_dir)));
                assert(dv0 + (seq![(e.path@, e.is_dir)] + spec_all_files(rem.skip(1), repo_path@, igv))
                    =~= entry_views(out@) + spec_all_files(rem.skip(1), repo_path@, igv));
            }
        }
        i += 1;
    }
    proof {
        assert(spec_all_files(entries@.skip(n as int), repo_path@, igv) =~= Seq::<(Seq<char>,
            bool)>::empty());
        assert(entry_views(out@) + Seq::<(Seq<char>, bool)>::empty() =~= entry_views(out@));
    }
    Ok(out)
}

/// Selects the files of a walked tree under the run's filter settings.
pub fn filter_files_in_repo(
    repo_path: &str,
    entries: &Vec<FileEntry>,
    settings: &FilterSettings,
) -> (r: Result<Vec<SelectedFile>, PatternError>)
    ensures
        r is Ok <==> (patterns_compile(settings.ignore_list.deep_view()) && patterns_compile(
            settings.include_list.deep_view(),
        )),
        r matches Ok(v) ==> selected_views(v@) == spec_selection(
            entries@,
            repo_path@,
            settings.ignore_list.deep_view(),
            settings.include_list.deep_view(),
        ),
{
    filter_files(entries, repo_path, &settings.ignore_list, &settings.include_list)
}

/// Ignore precedence: a file whose relative path the ignore patterns match
/// never appears in the selection, whatever the include patterns say.
pub proof fn lemma_ignore_precedence(
    entries: Seq<FileEntry>,
    root: Seq<char>,
    ig: Seq<Seq<char>>,
    inc: Seq<Seq<char>>,
    k: int,
)
    requires
        0 <= k < spec_selection(entries, root, ig, inc).len(),
    ensures
        !glob_match(ig, spec_selection(entries, root, ig, inc)[k].1),
    decreases entries.len(),
{
    let sel = spec_selection(entries, root, ig, inc);
    if entries.len() == 0 {
        assert(false);
    } else {
        let e = entries[0];
        let rest = spec_selection(entries.skip(1), root, ig, inc);
        match spec_relativize(root, e.path@) {
            Some(rel) => {
                if file_selected(ig, inc, rel, e.is_dir) {
                    assert(sel == seq![(e.path@, rel)] + rest);
                    if k == 0 {
                        assert(sel[0] == (e.path@, rel));
                        assert(!file_suppressed(ig, rel));
                    } else {
                        lemma_ignore_precedence(entries.skip(1), root, ig, inc, k - 1);
                        assert(sel[k] == rest[k - 1]);
                    }
                } else {
                    lemma_ignore_precedence(entries.skip(1), root, ig, inc, k);
                }
            },
            None => {
                lemma_ignore_precedence(entries.skip(1), root, ig, inc, k);
            },
        }
    }
}

/// The selection rule with the include test waived entirely.
pub open spec fn spec_selection_unrestricted(
    entries: Seq<FileEntry>,
    root: Seq<char>,
    ig: Seq<Seq<char>>,
) -> Seq<(Seq<char>, Seq<char>)>
    decreases entries.len(),
{
    if entries.len() == 0 {
        Seq::empty()
    } else {
        let e = entries[0];
        let rest = spec_selection_unrestricted(entries.skip(1), root, ig);
        match spec_relativize(root, e.path@) {
            Some(rel) => if !e.is_dir && !file_suppressed(ig, rel) {
                seq![(e.path@, rel)] + rest
            } else {
                rest
            },
            None => rest,
        }
    }
}

/// An empty include list is no restriction: the selection equals the one in
/// which the include test is waived.
pub proof fn lemma_empty_include_unrestricted(
    entries: Seq<FileEntry>,
    root: Seq<char>,
    ig: Seq<Seq<char>>,
    inc: Seq<Seq<char>>,
)
    requires
        inc.len() == 0,
    ensures
        spec_selection(entries, root, ig, inc) == spec_selection_unrestricted(entries, root, ig),
    decreases entries.len(),
{
    if entries.len() > 0 {
        lemma_empty_include_unrestricted(entries.skip(1), root, ig, inc);
    }
}

} // verus!
