//! Digest assembly: renders the selected files as one concatenated text
//! document, bounded by a fixed preamble and a fixed end-of-repository
//! marker. A file whose content could not be read still gets its section,
//! with a placeholder line naming the error.

use vstd::prelude::*;

verus! {

use vstd::string::StringExecFns;

/// What reading one selected file produced: its text, or the message of the
/// error that prevented reading it.
pub enum ReadOutcome {
    Text(String),
    Failed(String),
}

/// One file handed to the assembler: path relative to the tree root, whether
/// it is a directory (skipped defensively), and the read outcome.
pub struct DigestEntry {
    pub rel_path: String,
    pub is_dir: bool,
    pub content: ReadOutcome,
}

pub open spec fn digest_preamble() -> Seq<char> {
    "The following text represents the contents of the repository.\nEach section begins with ----, followed by the file path and name.\nA file list is provided at the beginning. End of repository content is marked by --END--.\n\n"@
}

pub open spec fn digest_end_marker() -> Seq<char> {
    "--END--"@
}

pub open spec fn no_files_sentinel() -> Seq<char> {
    "No matching files found."@
}

pub open spec fn section_body(content: ReadOutcome) -> Seq<char> {
    match content {
        ReadOutcome::Text(c) => c@ + "\n"@,
        ReadOutcome::Failed(m) => "Error reading file: "@ + m@ + "\n\n"@,
    }
}

/// The section of one file: a delimiter line, the relative path, and the
/// content or its error placeholder.
pub open spec fn section_text(e: DigestEntry) -> Seq<char> {
    "----\n"@ + e.rel_path@ + "\n"@ + section_body(e.content)
}

/// The concatenation of one section per non-directory entry, in input order.
pub open spec fn sections_text(entries: Seq<DigestEntry>) -> Seq<char>
    decreases entries.len(),
{
    if entries.len() == 0 {
        Seq::empty()
    } else {
        (if entries[0].is_dir {
            Seq::<char>::empty()
        } else {
            section_text(entries[0])
        }) + sections_text(entries.skip(1))
    }
}

/// The whole document: the sentinel for an empty input list, otherwise the
/// preamble, the sections, and the end marker.
pub open spec fn digest_text(entries: Seq<DigestEntry>) -> Seq<char> {
    if entries.len() == 0 {
        no_files_sentinel()
    } else {
        digest_preamble() + sections_text(entries) + digest_end_marker()
    }
}

/// Renders the digest document for the given files, in input order; an empty
/// list yields the sentinel document, a normal outcome rather than an error.
pub fn generate_digest_content(files: &Vec<DigestEntry>) -> (r: String)
    ensures
        r@ == digest_text(files@),
{
    if files.len() == 0 {
        return "No matching files found.".to_owned();
    }
    let mut out =
        "The following text represents the contents of the repository.\nEach section begins with ----, followed by the file path and name.\nA file list is provided at the beginning. End of repository content is marked by --END--.\n\n".to_owned();
    let n = files.len();
    let mut i: usize = 0;
    proof {
        assert(files@.skip(0) =~= files@);
    }
    while i < n
        invariant
            i <= n,
            n == files@.len(),
            digest_preamble() + sections_text(files@) == out@ + sections_text(
                files@.skip(i as int),
            ),
        decreases n - i,
    {
        let ghost rem = files@.skip(i as int);
        let ghost out0 = out@;
        proof {
            assert(rem[0] == files@[i as int]);
            assert(rem.skip(1) =~= files@.skip(i as int + 1));
        }
        let e = &files[i];
        if !e.is_dir {
            out.append("----\n");
            out.append(e.rel_path.as_str());
            out.append("\n");
            match &e.content {
                ReadOutcome::Text(c) => {
                    out.append(c.as_str());
                    out.append("\n");
                },
                ReadOutcome::Failed(m) => {
                    out.append("Error reading file: ");
                    out.append(m.as_str());
                    out.append("\n\n");
                },
            }
            proof {
                assert(out@ =~= out0 + section_text(rem[0]));
            }
        }
        proof {
            assert(out@ + sections_text(files@.skip(i as int + 1)) =~= out0 + sections_text(rem));
        }
        i += 1;
    }
    proof {
        assert(sections_text(files@.skip(n as int)) =~= Seq::<char>::empty());
        assert(out@ =~= digest_preamble() + sections_text(files@));
    }
    out.append("--END--");
    proof {
        assert(out@ =~= digest_preamble() + sections_text(files@) + digest_end_marker());
    }
    out
}

/// Where the rendered digest of a repository is written.
pub fn digest_output_path(repo_name: &str) -> (r: String)
    ensures
        r@ == "digests/"@ + repo_name@ + ".txt"@,
{
    let mut out = "digests/".to_owned();
    out.append(repo_name);
    out.append(".txt");
    out
}

/// A non-empty digest is the fixed preamble, then exactly one section per
/// non-directory input entry in input order, then the fixed end marker; in
/// particular it starts with the preamble and ends with the marker.
pub proof fn lemma_digest_structure(files: Seq<DigestEntry>)
    requires
        files.len() > 0,
    ensures
        digest_text(files) == digest_preamble() + sections_text(files) + digest_end_marker(),
        digest_text(files).take(digest_preamble().len() as int) == digest_preamble(),
        digest_text(files).skip(digest_text(files).len() - digest_end_marker().len())
            == digest_end_marker(),
{
    let d = digest_text(files);
    let p = digest_preamble();
    let s = sections_text(files);
    let e = digest_end_marker();
    assert(d == p + s + e);
    assert(d.take(p.len() as int) =~= p);
    assert(d.skip(d.len() - e.len()) =~= e);
}

/// An empty selection yields the literal sentinel document, not the empty
/// string and not an error.
pub proof fn lemma_empty_digest()
    ensures
        digest_text(Seq::empty()) == no_files_sentinel(),
        no_files_sentinel().len() > 0,
{
    reveal_strlit("No matching files found.");
}

} // verus!
