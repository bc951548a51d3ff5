//! Statistics engine: per-file size and token measurements, per-extension
//! aggregation, and the summary report with its sizes in hundredths of a
//! kilobyte and its file list sorted by token count in non-increasing order.

use vstd::prelude::*;

verus! {

use vstd::string::StrSliceExecFns;
use vstd::arithmetic::div_mod::lemma_div_is_ordered;
use vstd::arithmetic::mul::lemma_mul_inequality;
use crate::select::spec_relativize;
use crate::select::relativize;

/// A file larger than this many bytes (5000 KB) is not read for content; its
/// token count is recorded as zero while its size still counts.
pub const MAX_FILE_SIZE_BYTES: u64 = 5120000;

/// The fixed tokenizer model used for every token count.
pub open spec fn token_model() -> Seq<char> {
    "gpt-4o-2024-05-13"@
}

/// Whether the tokenizer library knows the given model name.
pub uninterp spec fn model_known(model: Seq<char>) -> bool;

/// The number of tokens that the given model's encoding assigns to a text.
pub uninterp spec fn token_count_of(model: Seq<char>, text: Seq<char>) -> nat;

/// Relies on `tiktoken_rs::bpe_for_model` (a cached per-model tokenizer;
/// whether a model name is known depends on the name alone) and
/// `CoreBPE::encode_with_special_tokens` (the encoding of a text under a
/// fixed model depends on the model and the text alone).
#[verifier::external_body]
fn count_tokens(model: &str, text: &str) -> (r: Option<usize>)
    ensures
        r is Some <==> model_known(model@),
        r matches Some(n) ==> n as nat == token_count_of(model@, text@),
{
    match tiktoken_rs::bpe_for_model(model) {
        Ok(bpe) => Some(bpe.encode_with_special_tokens(text).len()),
        Err(_) => None,
    }
}

/// The lower-cased form of a text.
pub uninterp spec fn lower_of(s: Seq<char>) -> Seq<char>;

/// Relies on `str::to_lowercase`: the lower-cased text depends on the text
/// alone.
#[verifier::external_body]
fn to_lowercase(s: &str) -> (r: String)
    ensures
        r@ == lower_of(s@),
{
    s.to_lowercase()
}

/// The characters after the last separator: the file name of a path, or the
/// whole path when it holds no separator.
pub open spec fn base_name(p: Seq<char>) -> Seq<char>
    decreases p.len(),
{
    if p.len() == 0 {
        p
    } else if p[p.len() - 1] == '/' {
        Seq::empty()
    } else {
        base_name(p.drop_last()).push(p[p.len() - 1])
    }
}

proof fn lemma_base_name_suffix(p: Seq<char>, s: int)
    requires
        0 <= s <= p.len(),
        forall|t: int| s <= t < p.len() ==> p[t] != '/',
        s == 0 || p[s - 1] == '/',
    ensures
        base_name(p) == p.skip(s),
    decreases p.len(),
{
    if p.len() == s {
        if s == 0 {
            assert(p.skip(0) =~= p);
        } else {
            assert(p[p.len() - 1] == '/');
            assert(p.skip(s) =~= Seq::<char>::empty());
        }
    } else {
        assert(p[p.len() - 1] != '/');
        lemma_base_name_suffix(p.drop_last(), s);
        assert(p.drop_last().skip(s).push(p[p.len() - 1]) =~= p.skip(s));
    }
}

fn base_name_exec(p: &str) -> (r: String)
    ensures
        r@ == base_name(p@),
{
    let n = p.unicode_len();
    let mut start = n;
    while start > 0 && p.get_char(start - 1) != '/'
        invariant
            0 <= start <= n,
            n == p@.len(),
            forall|t: int| start <= t < n ==> p@[t] != '/',
        decreases start,
    {
        start -= 1;
    }
    proof {
        lemma_base_name_suffix(p@, start as int);
    }
    let rest = p.substring_char(start, n);
    proof {
        assert(rest@ =~= p@.skip(start as int));
    }
    rest.to_owned()
}

/// The index of the last dot of a file name, or a negative value when there
/// is none.
pub open spec fn last_dot(fname: Seq<char>) -> int
    decreases fname.len(),
{
    if fname.len() == 0 {
        -1
    } else if fname[fname.len() - 1] == '.' {
        fname.len() - 1
    } else {
        last_dot(fname.drop_last())
    }
}

/// The extension of a file name: what follows the last dot, except that a
/// name without a dot, or whose only dot leads it, has none.
pub open spec fn ext_of(fname: Seq<char>) -> Option<Seq<char>> {
    let j = last_dot(fname);
    if j > 0 {
        Some(fname.skip(j + 1))
    } else {
        None
    }
}

proof fn lemma_last_dot_at(fname: Seq<char>, j: int)
    requires
        -1 <= j < fname.len(),
        forall|t: int| j < t < fname.len() ==> fname[t] != '.',
        j == -1 || fname[j] == '.',
    ensures
        last_dot(fname) == j,
    decreases fname.len(),
{
    if fname.len() == 0 {
    } else if fname[fname.len() - 1] == '.' {
        assert(j == fname.len() - 1);
    } else {
        assert(j < fname.len() - 1);
        lemma_last_dot_at(fname.drop_last(), j);
    }
}

/// The recorded extension of a file name: the lower-cased extension, or the
/// sentinel for a name without one.
pub open spec fn spec_extension(fname: Seq<char>) -> Seq<char> {
    match ext_of(fname) {
        Some(e) => lower_of(e),
        None => "no_extension"@,
    }
}

fn extension_exec(fname: &str) -> (r: String)
    ensures
        r@ == spec_extension(fname@),
{
    let n = fname.unicode_len();
    let mut j = n;
    while j > 0 && fname.get_char(j - 1) != '.'
        invariant
            0 <= j <= n,
            n == fname@.len(),
            forall|t: int| j <= t < n ==> fname@[t] != '.',
        decreases j,
    {
        j -= 1;
    }
    proof {
        lemma_last_dot_at(fname@, j - 1);
    }
    if j > 1 {
        let e = fname.substring_char(j, n);
        proof {
            assert(e@ =~= fname@.skip(j as int));
        }
        to_lowercase(e)
    } else {
        "no_extension".to_owned()
    }
}

/// A file's size in hundredths of a kilobyte, rounded half up from its byte
/// count.
pub open spec fn ckb_of(bytes: u64) -> int {
    ((bytes as int) * 100 + 512) / 1024
}

pub fn size_ckb(bytes: u64) -> (r: u64)
    ensures
        r == ckb_of(bytes),
{
    let wide: u128 = (bytes as u128) * 100 + 512;
    proof {
        lemma_mul_inequality(bytes as int, u64::MAX as int, 100);
        lemma_div_is_ordered(wide as int, u64::MAX as int * 100 + 512, 1024);
        assert((u64::MAX as int * 100 + 512) / 1024 <= u64::MAX as int);
    }
    (wide / 1024) as u64
}

/// Whether a file of this size is read for content; above the ceiling it is
/// not, and its token count is zero by policy.
pub fn needs_content(size_bytes: u64) -> (b: bool)
    ensures
        b == (size_bytes <= MAX_FILE_SIZE_BYTES),
{
    size_bytes <= MAX_FILE_SIZE_BYTES
}

/// One selected file, as the producer stage hands it over.
pub struct FileInfo {
    pub file_path: String,
    pub repo_path: String,
}

/// What the caller observed of one file: its text, that it stood above the
/// size ceiling and was not read, or that reading it failed.
pub enum FileReading {
    TooLarge,
    Text(String),
    Failed,
}

/// One file with its size and read outcome, ready for measurement.
pub struct MeasuredFile {
    pub info: FileInfo,
    pub size_bytes: u64,
    pub reading: FileReading,
}

#[derive(Debug)]
pub enum StatsError {
    TokenizerUnavailable,
}

/// The measurement of one file that contributes to the report.
pub struct FileRecord {
    pub path: String,
    pub name: String,
    pub extension: String,
    pub size_ckb: u64,
    pub tokens: usize,
}

/// One row of the report's file list.
pub struct FileData {
    pub name: String,
    pub path: String,
    pub extension: String,
    pub tokens: usize,
}

/// The aggregate of one extension: how many files carry it and their token
/// total.
pub struct FileType {
    pub extension: String,
    pub count: usize,
    pub tokens: u128,
}

/// The aggregated statistics of one run; sizes are in hundredths of a
/// kilobyte.
pub struct FileStats {
    pub file_count: usize,
    pub total_size_ckb: u128,
    pub average_size_ckb: u128,
    pub max_size_ckb: u64,
    pub min_size_ckb: u64,
    pub context_length: u128,
    pub extension_tokens: Vec<FileType>,
    pub file_data: Vec<FileData>,
}

/// The summary report of one run; sizes are in hundredths of a kilobyte.
pub struct Summary {
    pub repository: String,
    pub total_files: usize,
    pub total_size_ckb: u128,
    pub average_file_size_ckb: u128,
    pub max_file_size_ckb: u64,
    pub min_file_size_ckb: u64,
    pub file_types: Vec<FileType>,
    pub context_length: u128,
    pub file_data: Vec<FileData>,
}

/// The mathematical content of one record: relative path, file name,
/// extension, size in hundredths of a kilobyte, token count.
pub type RecV = (Seq<char>, Seq<char>, Seq<char>, int, int);

/// The mathematical content of one file-list row: name, relative path,
/// extension, token count.
pub type DataV = (Seq<char>, Seq<char>, Seq<char>, int);

/// The mathematical content of one extension aggregate: extension, file
/// count, token total.
pub type TypeV = (Seq<char>, int, int);

pub open spec fn record_view(r: FileRecord) -> RecV {
    (r.path@, r.name@, r.extension@, r.size_ckb as int, r.tokens as int)
}

pub open spec fn records_views(v: Seq<FileRecord>) -> Seq<RecV> {
    v.map(|i: int, r: FileRecord| record_view(r))
}

pub open spec fn data_view(d: FileData) -> DataV {
    (d.name@, d.path@, d.extension@, d.tokens as int)
}

pub open spec fn data_views(v: Seq<FileData>) -> Seq<DataV> {
    v.map(|i: int, d: FileData| data_view(d))
}

pub open spec fn type_view(t: FileType) -> TypeV {
    (t.extension@, t.count as int, t.tokens as int)
}

pub open spec fn type_views(v: Seq<FileType>) -> Seq<TypeV> {
    v.map(|i: int, t: FileType| type_view(t))
}

/// The record of one measured file, or nothing when the file is omitted
/// (not under the root, or unreadable). A file above the size ceiling keeps
/// its size and gets token count zero, whatever its reading held.
pub open spec fn spec_record(m: MeasuredFile) -> Option<RecV> {
    match spec_relativize(m.info.repo_path@, m.info.file_path@) {
        None => None,
        Some(rel) => {
            let name = base_name(rel);
            let ext = spec_extension(base_name(m.info.file_path@));
            let size = ckb_of(m.size_bytes);
            if m.size_bytes > MAX_FILE_SIZE_BYTES {
                Some((rel, name, ext, size, 0))
            } else {
                match m.reading {
                    FileReading::Text(c) => Some(
                        (rel, name, ext, size, token_count_of(token_model(), c@) as int),
                    ),
                    _ => None,
                }
            }
        },
    }
}

/// Whether measuring this file requires the tokenizer.
pub open spec fn spec_needs_tokens(m: MeasuredFile) -> bool {
    &&& spec_relativize(m.info.repo_path@, m.info.file_path@) is Some
    &&& m.size_bytes <= MAX_FILE_SIZE_BYTES
    &&& m.reading is Text
}

/// Measures one file. Fails exactly when the file needs the tokenizer and
/// the fixed model is unknown to it; an omitted file is not an error.
pub fn process_single_file(file: &MeasuredFile) -> (r: Result<Option<FileRecord>, StatsError>)
    ensures
        r is Err <==> (spec_needs_tokens(*file) && !model_known(token_model())),
        r matches Ok(Some(rec)) ==> spec_record(*file) == Some(record_view(rec)),
        r matches Ok(o) && o is None ==> spec_record(*file) is None,
{
    let rel = match relativize(file.info.repo_path.as_str(), file.info.file_path.as_str()) {
        Some(r) => r,
        None => {
            return Ok(None);
        },
    };
    let fname = base_name_exec(file.info.file_path.as_str());
    let extension = extension_exec(fname.as_str());
    let name = base_name_exec(rel.as_str());
    let size = size_ckb(file.size_bytes);
    if file.size_bytes > MAX_FILE_SIZE_BYTES {
        return Ok(Some(FileRecord { path: rel, name, extension, size_ckb: size, tokens: 0 }));
    }
    match &file.reading {
        FileReading::Text(c) => {
            match count_tokens("gpt-4o-2024-05-13", c.as_str()) {
                Some(t) => Ok(
                    Some(FileRecord { path: rel, name, extension, size_ckb: size, tokens: t }),
                ),
                None => Err(StatsError::TokenizerUnavailable),
            }
        },
        FileReading::TooLarge => Ok(None),
        FileReading::Failed => Ok(None),
    }
}

/// A file above the size ceiling always contributes token count zero while
/// its size still counts.
pub proof fn lemma_oversize_zero_tokens(m: MeasuredFile)
    requires
        m.size_bytes > MAX_FILE_SIZE_BYTES,
        spec_record(m) is Some,
    ensures
        spec_record(m) matches Some(rv) && rv.4 == 0 && rv.3 == ckb_of(m.size_bytes),
{
}

pub open spec fn sum_sizes(recs: Seq<RecV>) -> int
    decreases recs.len(),
{
    if recs.len() == 0 {
        0
    } else {
        sum_sizes(recs.drop_last()) + recs.last().3
    }
}

pub open spec fn sum_tokens(recs: Seq<RecV>) -> int
    decreases recs.len(),
{
    if recs.len() == 0 {
        0
    } else {
        sum_tokens(recs.drop_last()) + recs.last().4
    }
}

pub open spec fn spec_max_size(recs: Seq<RecV>) -> int
    decreases recs.len(),
{
    if recs.len() == 0 {
        0
    } else {
        let m = spec_max_size(recs.drop_last());
        if recs.last().3 >= m {
            recs.last().3
        } else {
            m
        }
    }
}

pub open spec fn spec_min_size(recs: Seq<RecV>) -> int
    decreases recs.len(),
{
    if recs.len() == 0 {
        0
    } else if recs.len() == 1 {
        recs.last().3
    } else {
        let m = spec_min_size(recs.drop_last());
        if recs.last().3 <= m {
            recs.last().3
        } else {
            m
        }
    }
}

/// Division rounded half up.
pub open spec fn half_up_div(t: int, n: int) -> int
    recommends
        n > 0,
        t >= 0,
{
    let q = t / n;
    let r = t % n;
    if 2 * r >= n {
        q + 1
    } else {
        q
    }
}

/// The average size, rounded half up; zero for an empty file set.
pub open spec fn spec_average(recs: Seq<RecV>) -> int {
    if recs.len() == 0 {
        0
    } else {
        half_up_div(sum_sizes(recs), recs.len() as int)
    }
}

/// The index of an extension in the aggregate list, or a negative value.
pub open spec fn ext_idx(acc: Seq<TypeV>, ext: Seq<char>) -> int
    decreases acc.len(),
{
    if acc.len() == 0 {
        -1
    } else if acc[0].0 == ext {
        0
    } else {
        let j = ext_idx(acc.skip(1), ext);
        if j < 0 {
            -1
        } else {
            j + 1
        }
    }
}

/// Folds one record into the aggregate list: bump the entry of its
/// extension, or open a new one in first-appearance order.
pub open spec fn agg_step(acc: Seq<TypeV>, ext: Seq<char>, tokens: int) -> Seq<TypeV> {
    let j = ext_idx(acc, ext);
    if j >= 0 {
        acc.update(j, (ext, acc[j].1 + 1, acc[j].2 + tokens))
    } else {
        acc.push((ext, 1, tokens))
    }
}

/// The per-extension aggregates of a record list, one entry per distinct
/// extension, in first-appearance order.
pub open spec fn spec_aggregate(recs: Seq<RecV>) -> Seq<TypeV>
    decreases recs.len(),
{
    if recs.len() == 0 {
        Seq::empty()
    } else {
        agg_step(spec_aggregate(recs.drop_last()), recs.last().2, recs.last().4)
    }
}

proof fn lemma_ext_idx_range(acc: Seq<TypeV>, ext: Seq<char>)
    ensures
        -1 <= ext_idx(acc, ext) < acc.len(),
        ext_idx(acc, ext) >= 0 ==> acc[ext_idx(acc, ext)].0 == ext,
    decreases acc.len(),
{
    if acc.len() > 0 && acc[0].0 != ext {
        lemma_ext_idx_range(acc.skip(1), ext);
    }
}

proof fn lemma_ext_idx_found(acc: Seq<TypeV>, ext: Seq<char>, j: int)
    requires
        0 <= j <= acc.len(),
        forall|t: int| 0 <= t < j ==> acc[t].0 != ext,
        j == acc.len() || acc[j].0 == ext,
    ensures
        ext_idx(acc, ext) == if j == acc.len() {
            -1
        } else {
            j
        },
    decreases j,
{
    if j == 0 {
        if acc.len() > 0 && acc[0].0 != ext {
            assert(false);
        }
    } else {
        assert(acc[0].0 != ext);
        lemma_ext_idx_found(acc.skip(1), ext, j - 1);
    }
}

/// The rows of the file list, one per record, in record order.
pub open spec fn datas_of(recs: Seq<RecV>) -> Seq<DataV> {
    recs.map(|i: int, r: RecV| (r.1, r.0, r.2, r.4))
}

pub open spec fn insert_desc(s: Seq<DataV>, x: DataV) -> Seq<DataV>
    decreases s.len(),
{
    if s.len() == 0 {
        seq![x]
    } else if s[0].3 >= x.3 {
        seq![s[0]] + insert_desc(s.skip(1), x)
    } else {
        seq![x] + s
    }
}

/// Stable insertion sort by token count, descending; equal counts keep their
/// input order.
pub open spec fn sort_desc(s: Seq<DataV>) -> Seq<DataV>
    decreases s.len(),
{
    if s.len() == 0 {
        Seq::empty()
    } else {
        insert_desc(sort_desc(s.drop_last()), s.last())
    }
}

pub open spec fn sorted_desc(s: Seq<DataV>) -> bool {
    forall|a: int, b: int| 0 <= a < b < s.len() ==> s[a].3 >= s[b].3
}

proof fn lemma_insert_desc_props(s: Seq<DataV>, x: DataV)
    requires
        sorted_desc(s),
    ensures
        sorted_desc(insert_desc(s, x)),
        insert_desc(s, x).len() == s.len() + 1,
        forall|k: int|
            0 <= k < insert_desc(s, x).len() ==> (#[trigger] insert_desc(s, x)[k] == x || exists|m: int|
                0 <= m < s.len() && s[m] == insert_desc(s, x)[k]),
    decreases s.len(),
{
    if s.len() == 0 {
    } else if s[0].3 >= x.3 {
        let tail = s.skip(1);
        assert(sorted_desc(tail));
        lemma_insert_desc_props(tail, x);
        let t = insert_desc(tail, x);
        let r = seq![s[0]] + t;
        assert(insert_desc(s, x) == r);
        assert forall|k: int| 0 <= k < r.len() implies (#[trigger] r[k] == x || exists|m: int|
            0 <= m < s.len() && s[m] == r[k]) by {
            if k == 0 {
                assert(s[0] == r[0]);
            } else {
                assert(r[k] == t[k - 1]);
                if t[k - 1] == x {
                } else {
                    let m = choose|m: int| 0 <= m < tail.len() && tail[m] == t[k - 1];
                    assert(s[m + 1] == r[k]);
                }
            }
        }
        assert forall|a: int, b: int| 0 <= a < b < r.len() implies r[a].3 >= r[b].3 by {
            if a == 0 {
                assert(r[b] == t[b - 1]);
                if t[b - 1] == x {
                } else {
                    let m = choose|m: int| 0 <= m < tail.len() && tail[m] == t[b - 1];
                    assert(s[0].3 >= s[m + 1].3);
                }
            } else {
                assert(r[a] == t[a - 1] && r[b] == t[b - 1]);
            }
        }
    } else {
        let r = seq![x] + s;
        assert(insert_desc(s, x) == r);
        assert forall|a: int, b: int| 0 <= a < b < r.len() implies r[a].3 >= r[b].3 by {
            if a == 0 {
                if b == 1 {
                    assert(r[b] == s[0]);
                } else {
                    assert(r[b] == s[b - 1]);
                    assert(s[0].3 >= s[b - 1].3);
                }
            } else {
                assert(r[a] == s[a - 1] && r[b] == s[b - 1]);
            }
        }
    }
}

/// The sorted file list is sorted by token count in non-increasing order and
/// holds exactly one row per record.
pub proof fn lemma_sort_desc_sorted(s: Seq<DataV>)
    ensures
        sorted_desc(sort_desc(s)),
        sort_desc(s).len() == s.len(),
    decreases s.len(),
{
    if s.len() > 0 {
        lemma_sort_desc_sorted(s.drop_last());
        lemma_insert_desc_props(sort_desc(s.drop_last()), s.last());
    }
}

/// Every record's size fits a `u64` and its token count a `usize`.
pub open spec fn recs_bounded(recs: Seq<RecV>) -> bool {
    forall|i: int|
        0 <= i < recs.len() ==> 0 <= (#[trigger] recs[i]).3 <= u64::MAX && 0 <= recs[i].4
            <= usize::MAX
}

proof fn lemma_sums_bounded(recs: Seq<RecV>)
    requires
        recs_bounded(recs),
    ensures
        0 <= sum_sizes(recs) <= recs.len() * (u64::MAX as int),
        0 <= sum_tokens(recs) <= recs.len() * (u64::MAX as int),
    decreases recs.len(),
{
    if recs.len() == 0 {
    } else {
        let pre = recs.drop_last();
        assert(recs_bounded(pre)) by {
            assert forall|t: int|
                0 <= t < pre.len() implies 0 <= (#[trigger] pre[t]).3 <= u64::MAX && 0 <= pre[t].4
                <= usize::MAX by {
                assert(pre[t] == recs[t]);
            }
        }
        lemma_sums_bounded(pre);
        assert(usize::MAX as int <= u64::MAX as int);
        assert(recs.last() == recs[recs.len() - 1]);
        assert((recs.len() - 1) * (u64::MAX as int) + (u64::MAX as int) == recs.len() * (
        u64::MAX as int)) by (nonlinear_arith);
    }
}

proof fn lemma_aggregate_bounds(recs: Seq<RecV>)
    requires
        recs_bounded(recs),
    ensures
        forall|j: int|
            0 <= j < spec_aggregate(recs).len() ==> 1 <= (#[trigger] spec_aggregate(recs)[j]).1
                <= recs.len() && 0 <= spec_aggregate(recs)[j].2 <= sum_tokens(recs),
    decreases recs.len(),
{
    if recs.len() > 0 {
        let pre = recs.drop_last();
        assert(recs_bounded(pre)) by {
            assert forall|t: int|
                0 <= t < pre.len() implies 0 <= (#[trigger] pre[t]).3 <= u64::MAX && 0 <= pre[t].4
                <= usize::MAX by {
                assert(pre[t] == recs[t]);
            }
        }
        lemma_aggregate_bounds(pre);
        lemma_sums_bounded(pre);
        let acc = spec_aggregate(pre);
        let last = recs.last();
        assert(last == recs[recs.len() - 1]);
        assert(0 <= last.4);
        assert(sum_tokens(recs) == sum_tokens(pre) + last.4);
        lemma_ext_idx_range(acc, last.2);
        let j = ext_idx(acc, last.2);
        let res = spec_aggregate(recs);
        if j >= 0 {
            assert(res == acc.update(j, (last.2, acc[j].1 + 1, acc[j].2 + last.4)));
            assert forall|k: int|
                0 <= k < res.len() implies 1 <= (#[trigger] res[k]).1 <= recs.len() && 0 <= res[k].2
                <= sum_tokens(recs) by {
                if k == j {
                    assert(res[k] == (last.2, acc[j].1 + 1, acc[j].2 + last.4));
                } else {
                    assert(res[k] == acc[k]);
                }
            }
        } else {
            assert(res == acc.push((last.2, 1, last.4)));
            assert forall|k: int|
                0 <= k < res.len() implies 1 <= (#[trigger] res[k]).1 <= recs.len() && 0 <= res[k].2
                <= sum_tokens(recs) by {
                if k == acc.len() {
                    assert(res[k] == (last.2, 1int, last.4));
                } else {
                    assert(res[k] == acc[k]);
                }
            }
        }
    }
}

proof fn lemma_insert_desc_multiset(s: Seq<DataV>, x: DataV)
    ensures
        insert_desc(s, x).to_multiset() == s.to_multiset().insert(x),
    decreases s.len(),
{
    broadcast use vstd::seq_lib::group_to_multiset_ensures;

    if s.len() == 0 {
        assert(seq![x] =~= Seq::<DataV>::empty().push(x));
        assert(insert_desc(s, x).to_multiset() =~= s.to_multiset().insert(x));
    } else if s[0].3 >= x.3 {
        let tail = s.skip(1);
        lemma_insert_desc_multiset(tail, x);
        let t = insert_desc(tail, x);
        vstd::seq_lib::lemma_multiset_commutative(seq![s[0]], t);
        vstd::seq_lib::lemma_multiset_commutative(seq![s[0]], tail);
        assert(s =~= seq![s[0]] + tail);
        assert(seq![s[0]].to_multiset().add(tail.to_multiset().insert(x)) =~= (
        seq![s[0]].to_multiset().add(tail.to_multiset())).insert(x));
    } else {
        vstd::seq_lib::lemma_multiset_commutative(seq![x], s);
        assert(seq![x] =~= Seq::<DataV>::empty().push(x));
        assert(seq![x].to_multiset().add(s.to_multiset()) =~= s.to_multiset().insert(x));
    }
}

/// The sorted file list is a permutation of its input rows: sorting loses
/// nothing and invents nothing.
pub proof fn lemma_sort_desc_multiset(s: Seq<DataV>)
    ensures
        sort_desc(s).to_multiset() == s.to_multiset(),
    decreases s.len(),
{
    broadcast use vstd::seq_lib::group_to_multiset_ensures;

    if s.len() > 0 {
        lemma_sort_desc_multiset(s.drop_last());
        lemma_insert_desc_multiset(sort_desc(s.drop_last()), s.last());
        assert(s =~= s.drop_last().push(s.last()));
    }
}

proof fn lemma_insert_desc_at(s: Seq<DataV>, x: DataV, j: int)
    requires
        0 <= j <= s.len(),
        forall|t: int| 0 <= t < j ==> s[t].3 >= x.3,
        j == s.len() || s[j].3 < x.3,
    ensures
        insert_desc(s, x) == s.take(j) + seq![x] + s.skip(j),
    decreases j,
{
    if j == 0 {
        if s.len() == 0 {
            assert(insert_desc(s, x) =~= s.take(0) + seq![x] + s.skip(0));
        } else {
            assert(s[0].3 < x.3);
            assert(insert_desc(s, x) =~= s.take(0) + seq![x] + s.skip(0));
        }
    } else {
        assert(s[0].3 >= x.3);
        let tail = s.skip(1);
        lemma_insert_desc_at(tail, x, j - 1);
        assert(seq![s[0]] + (tail.take(j - 1) + seq![x] + tail.skip(j - 1)) =~= s.take(j)
            + seq![x] + s.skip(j));
    }
}

fn insert_by_tokens(v: &mut Vec<FileData>, x: FileData)
    ensures
        data_views(final(v)@) == insert_desc(data_views(old(v)@), data_view(x)),
{
    let n = v.len();
    let mut j: usize = 0;
    while j < n && v[j].tokens >= x.tokens
        invariant
            0 <= j <= n,
            n == v@.len(),
            v@ == old(v)@,
            forall|t: int| 0 <= t < j ==> (#[trigger] v@[t]).tokens >= x.tokens,
        decreases n - j,
    {
        j += 1;
    }
    let ghost s = data_views(v@);
    let ghost xv = data_view(x);
    proof {
        assert forall|t: int| 0 <= t < j implies (#[trigger] s[t]).3 >= xv.3 by {
            assert(s[t] == data_view(v@[t]));
        }
        if (j as int) < s.len() {
            assert(s[j as int] == data_view(v@[j as int]));
        }
        lemma_insert_desc_at(s, xv, j as int);
    }
    v.insert(j, x);
    proof {
        assert(data_views(v@) =~= s.take(j as int) + seq![xv] + s.skip(j as int));
    }
}

/// What the aggregated statistics say of a record list: exact totals, the
/// average rounded half up, extremes, the per-extension aggregates in
/// first-appearance order, and the file list sorted by token count in
/// non-increasing order.
pub open spec fn stats_matches(s: FileStats, recs: Seq<RecV>) -> bool {
    &&& s.file_count == recs.len()
    &&& s.total_size_ckb as int == sum_sizes(recs)
    &&& s.average_size_ckb as int == spec_average(recs)
    &&& s.max_size_ckb as int == spec_max_size(recs)
    &&& s.min_size_ckb as int == spec_min_size(recs)
    &&& s.context_length as int == sum_tokens(recs)
    &&& type_views(s.extension_tokens@) == spec_aggregate(recs)
    &&& data_views(s.file_data@) == sort_desc(datas_of(recs))
}

/// Folds a record list into the aggregated statistics.
pub fn aggregate_records(records: &Vec<FileRecord>) -> (s: FileStats)
    ensures
        stats_matches(s, records_views(records@)),
{
    let ghost rv = records_views(records@);
    proof {
        assert(recs_bounded(rv)) by {
            assert forall|t: int|
                0 <= t < rv.len() implies 0 <= (#[trigger] rv[t]).3 <= u64::MAX && 0 <= rv[t].4
                <= usize::MAX by {
                assert(rv[t] == record_view(records@[t]));
            }
        }
        assert(usize::MAX as int <= u64::MAX as int);
    }
    let n = records.len();
    let mut total_size: u128 = 0;
    let mut context_length: u128 = 0;
    let mut max_size: u64 = 0;
    let mut min_size: u64 = 0;
    let mut types: Vec<FileType> = Vec::new();
    let mut data: Vec<FileData> = Vec::new();
    let mut i: usize = 0;
    proof {
        assert(rv.take(0) =~= Seq::<RecV>::empty());
        assert(type_views(types@) =~= Seq::<TypeV>::empty());
        assert(data_views(data@) =~= Seq::<DataV>::empty());
        assert(datas_of(Seq::<RecV>::empty()) =~= Seq::<DataV>::empty());
    }
    while i < n
        invariant
            0 <= i <= n,
            n == records@.len(),
            rv == records_views(records@),
            recs_bounded(rv),
            total_size as int == sum_sizes(rv.take(i as int)),
            context_length as int == sum_tokens(rv.take(i as int)),
            max_size as int == spec_max_size(rv.take(i as int)),
            min_size as int == spec_min_size(rv.take(i as int)),
            type_views(types@) == spec_aggregate(rv.take(i as int)),
            data_views(data@) == datas_of(rv.take(i as int)),
        decreases n - i,
    {
        let ghost pre = rv.take(i as int);
        let ghost cur = rv.take(i as int + 1);
        proof {
            assert(cur.drop_last() =~= pre);
            assert(cur.last() == rv[i as int]);
            assert(recs_bounded(pre)) by {
                assert forall|t: int|
                    0 <= t < pre.len() implies 0 <= (#[trigger] pre[t]).3 <= u64::MAX && 0
                    <= pre[t].4 <= usize::MAX by {
                    assert(pre[t] == rv[t]);
                }
            }
            lemma_sums_bounded(pre);
            lemma_aggregate_bounds(pre);
            lemma_mul_inequality(pre.len() as int, u64::MAX as int - 1, u64::MAX as int);
            assert((u64::MAX as int - 1) * (u64::MAX as int) + (u64::MAX as int) <= u128::MAX
                as int) by (nonlinear_arith);
            assert(rv[i as int] == record_view(records@[i as int]));
        }
        let r = &records[i];
        total_size = total_size + r.size_ckb as u128;
        context_length = context_length + r.tokens as u128;
        if i == 0 {
            max_size = r.size_ckb;
            min_size = r.size_ckb;
        } else {
            if r.size_ckb > max_size {
                max_size = r.size_ckb;
            }
            if r.size_ckb < min_size {
                min_size = r.size_ckb;
            }
        }
        let tn = types.len();
        let mut j: usize = 0;
        while j < tn && !(types[j].extension == r.extension)
            invariant
                0 <= j <= tn,
                tn == types@.len(),
                forall|t: int| 0 <= t < j ==> (#[trigger] types@[t]).extension@ != r.extension@,
            decreases tn - j,
        {
            proof {
                assert(types@[j as int].extension@ != r.extension@);
            }
            j += 1;
        }
        proof {
            assert forall|t: int|
                0 <= t < j implies (#[trigger] type_views(types@)[t]).0 != rv[i as int].2 by {
                assert(type_views(types@)[t] == type_view(types@[t]));
            }
            if (j as int) < tn {
                assert(type_views(types@)[j as int] == type_view(types@[j as int]));
            }
            lemma_ext_idx_found(type_views(types@), rv[i as int].2, j as int);
        }
        let ghost ts0 = types@;
        if j < tn {
            let old_t = types.remove(j);
            proof {
                assert(old_t == ts0[j as int]);
                assert(type_view(old_t) == spec_aggregate(pre)[j as int]);
                assert(old_t.count < n);
            }
            let new_t = FileType {
                extension: old_t.extension,
                count: old_t.count + 1,
                tokens: old_t.tokens + r.tokens as u128,
            };
            types.insert(j, new_t);
            proof {
                assert(types@ =~= ts0.update(j as int, new_t));
                assert(type_views(types@) =~= agg_step(
                    spec_aggregate(pre),
                    rv[i as int].2,
                    rv[i as int].4,
                ));
            }
        } else {
            types.push(
                FileType { extension: r.extension.clone(), count: 1, tokens: r.tokens as u128 },
            );
            proof {
                assert(type_views(types@) =~= agg_step(
                    spec_aggregate(pre),
                    rv[i as int].2,
                    rv[i as int].4,
                ));
            }
        }
        data.push(
            FileData {
                name: r.name.clone(),
                path: r.path.clone(),
                extension: r.extension.clone(),
                tokens: r.tokens,
            },
        );
        proof {
            assert(datas_of(cur) =~= datas_of(pre).push(
                (rv[i as int].1, rv[i as int].0, rv[i as int].2, rv[i as int].4),
            ));
            assert(data_views(data@) =~= datas_of(cur));
        }
        i += 1;
    }
    proof {
        assert(rv.take(n as int) =~= rv);
    }
    let average: u128 = if n == 0 {
        0
    } else {
        let q = total_size / (n as u128);
        let rem = total_size % (n as u128);
        proof {
            if n >= 2 {
                vstd::arithmetic::div_mod::lemma_div_is_ordered_by_denominator(
                    total_size as int,
                    2,
                    n as int,
                );
                assert(total_size as int / 2 + 1 <= u128::MAX as int);
            }
        }
        if 2 * rem >= n as u128 {
            q + 1
        } else {
            q
        }
    };
    let mut sorted: Vec<FileData> = Vec::new();
    let dn = data.len();
    let mut k: usize = 0;
    proof {
        assert(data_views(sorted@) =~= Seq::<DataV>::empty());
        assert(data_views(data@).take(0) =~= Seq::<DataV>::empty());
    }
    while k < dn
        invariant
            0 <= k <= dn,
            dn == data@.len(),
            data_views(data@) == datas_of(rv),
            data_views(sorted@) == sort_desc(data_views(data@).take(k as int)),
        decreases dn - k,
    {
        let ghost dvs = data_views(data@);
        let d = &data[k];
        let copy = FileData {
            name: d.name.clone(),
            path: d.path.clone(),
            extension: d.extension.clone(),
            tokens: d.tokens,
        };
        proof {
            assert(data_view(copy) == dvs[k as int]);
            assert(dvs.take(k as int + 1).drop_last() =~= dvs.take(k as int));
            assert(dvs.take(k as int + 1).last() == dvs[k as int]);
        }
        insert_by_tokens(&mut sorted, copy);
        k += 1;
    }
    proof {
        assert(data_views(data@).take(dn as int) =~= datas_of(rv));
    }
    FileStats {
        file_count: n,
        total_size_ckb: total_size,
        average_size_ckb: average,
        max_size_ckb: max_size,
        min_size_ckb: min_size,
        context_length,
        extension_tokens: types,
        file_data: sorted,
    }
}

/// The records of a measured file list, in input order, omitted files left
/// out.
pub open spec fn spec_records(files: Seq<MeasuredFile>) -> Seq<RecV>
    decreases files.len(),
{
    if files.len() == 0 {
        Seq::empty()
    } else {
        spec_records(files.drop_last()) + (match spec_record(files.last()) {
            Some(rv) => seq![rv],
            None => Seq::<RecV>::empty(),
        })
    }
}

/// Measures every file and folds the outcomes. A single omitted file never
/// fails the run; the run fails exactly when some file needs the tokenizer
/// and the fixed model is unknown to it.
pub fn process_files(file_infos: &Vec<MeasuredFile>) -> (r: Result<FileStats, StatsError>)
    ensures
        r is Err <==> (!model_known(token_model()) && exists|t: int|
            0 <= t < file_infos@.len() && spec_needs_tokens(#[trigger] file_infos@[t])),
        r matches Ok(s) ==> stats_matches(s, spec_records(file_infos@)),
{
    let n = file_infos.len();
    let mut records: Vec<FileRecord> = Vec::new();
    let mut i: usize = 0;
    proof {
        assert(records_views(records@) =~= Seq::<RecV>::empty());
        assert(file_infos@.take(0) =~= Seq::<MeasuredFile>::empty());
    }
    while i < n
        invariant
            0 <= i <= n,
            n == file_infos@.len(),
            records_views(records@) == spec_records(file_infos@.take(i as int)),
            forall|t: int|
                0 <= t < i ==> !(spec_needs_tokens(#[trigger] file_infos@[t]) && !model_known(
                    token_model(),
                )),
        decreases n - i,
    {
        let ghost pre = file_infos@.take(i as int);
        let ghost cur = file_infos@.take(i as int + 1);
        proof {
            assert(cur.drop_last() =~= pre);
            assert(cur.last() == file_infos@[i as int]);
        }
        let ghost rvs0 = records_views(records@);
        let f = &file_infos[i];
        match process_single_file(f) {
            Ok(Some(rec)) => {
                records.push(rec);
                proof {
                    assert(records_views(records@) =~= rvs0.push(record_view(rec)));
                    assert(spec_records(cur) =~= rvs0.push(record_view(rec)));
                }
            },
            Ok(None) => {
                proof {
                    assert(spec_records(cur) =~= rvs0);
                }
            },
            Err(e) => {
                return Err(e);
            },
        }
        i += 1;
    }
    proof {
        assert(file_infos@.take(n as int) =~= file_infos@);
    }
    Ok(aggregate_records(&records))
}

/// The file list of any report that matches a record list is sorted by
/// token count in non-increasing order.
pub proof fn lemma_report_sorted(s: FileStats, recs: Seq<RecV>)
    requires
        stats_matches(s, recs),
    ensures
        forall|a: int, b: int|
            0 <= a < b < s.file_data@.len() ==> (#[trigger] s.file_data@[a]).tokens >= (
            #[trigger] s.file_data@[b]).tokens,
{
    lemma_sort_desc_sorted(datas_of(recs));
    assert forall|a: int, b: int|
        0 <= a < b < s.file_data@.len() implies (#[trigger] s.file_data@[a]).tokens >= (
    #[trigger] s.file_data@[b]).tokens by {
        assert(data_views(s.file_data@)[a] == data_view(s.file_data@[a]));
        assert(data_views(s.file_data@)[b] == data_view(s.file_data@[b]));
    }
}

/// The size figures of any report that matches a record list add up: the
/// total is exactly the sum of the per-file sizes, and the average is that
/// total over the file count, rounded half up, or zero for an empty set.
pub proof fn lemma_report_totals(s: FileStats, recs: Seq<RecV>)
    requires
        stats_matches(s, recs),
    ensures
        s.total_size_ckb as int == sum_sizes(recs),
        recs.len() > 0 ==> s.average_size_ckb as int == half_up_div(
            sum_sizes(recs),
            recs.len() as int,
        ),
        recs.len() == 0 ==> s.average_size_ckb == 0,
{
}

/// What the summary report says of a run: the repository name and the
/// aggregated statistics of its records.
pub open spec fn summary_matches(s: Summary, repo: Seq<char>, recs: Seq<RecV>) -> bool {
    &&& s.repository@ == repo
    &&& s.total_files == recs.len()
    &&& s.total_size_ckb as int == sum_sizes(recs)
    &&& s.average_file_size_ckb as int == spec_average(recs)
    &&& s.max_file_size_ckb as int == spec_max_size(recs)
    &&& s.min_file_size_ckb as int == spec_min_size(recs)
    &&& s.context_length as int == sum_tokens(recs)
    &&& type_views(s.file_types@) == spec_aggregate(recs)
    &&& data_views(s.file_data@) == sort_desc(datas_of(recs))
}

/// Builds the summary report of a run over the measured files of a tree.
pub fn generate_summary(repo_path: &str, file_list: &Vec<MeasuredFile>) -> (r: Result<
    Summary,
    StatsError,
>)
    ensures
        r is Err <==> (!model_known(token_model()) && exists|t: int|
            0 <= t < file_list@.len() && spec_needs_tokens(#[trigger] file_list@[t])),
        r matches Ok(s) ==> summary_matches(s, base_name(repo_path@), spec_records(file_list@)),
{
    let stats = match process_files(file_list) {
        Ok(s) => s,
        Err(e) => {
            return Err(e);
        },
    };
    let repository = base_name_exec(repo_path);
    Ok(
        Summary {
            repository,
            total_files: stats.file_count,
            total_size_ckb: stats.total_size_ckb,
            average_file_size_ckb: stats.average_size_ckb,
            max_file_size_ckb: stats.max_size_ckb,
            min_file_size_ckb: stats.min_size_ckb,
            file_types: stats.extension_tokens,
            context_length: stats.context_length,
            file_data: stats.file_data,
        },
    )
}

} // verus!
