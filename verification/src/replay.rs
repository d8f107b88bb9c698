//! The commit that shows only an amendment.
//!
//! After a rebase, comparing the old and the new head of a pull request shows
//! everything that the base moved by. To show the amendment alone it is
//! replayed onto the old head: the new commit is merged onto the parent of
//! the old one, and what differs is uploaded as a commit on top of the old
//! head. Where any step fails there is no such commit, and the plain
//! comparison is used.
use crate::error::{CliError, Failure};
use crate::outside;
use crate::text;
use vstd::prelude::*;

verus! {

/// The tree of the replayed commit, and the commit that it stands on.
#[derive(Debug, Clone, PartialEq, Eq)]
pub struct MergedTree {
    pub tree_sha: String,
    pub parent_old_sha: String,
}

/// One path of an uploaded tree.
#[derive(Debug, Clone, PartialEq, Eq)]
pub struct TreeEntry {
    pub path: String,
    pub mode: String,
    pub type_: String,
    /// The object at the path; nothing where the path is deleted.
    pub sha: Option<String>,
}

/// A path of an uploaded tree as the contracts see it.
pub struct TreeEntryView {
    pub path: Seq<char>,
    pub mode: Seq<char>,
    pub type_: Seq<char>,
    pub sha: Option<Seq<char>>,
}

impl View for TreeEntry {
    type V = TreeEntryView;

    open spec fn view(&self) -> TreeEntryView {
        TreeEntryView {
            path: self.path@,
            mode: self.mode@,
            type_: self.type_@,
            sha: text::opt_text(self.sha),
        }
    }
}

/// The contents of a list of tree entries.
pub open spec fn tree_views(v: Seq<TreeEntry>) -> Seq<TreeEntryView> {
    v.map_values(|e: TreeEntry| e@)
}

/// The arguments of the `git merge-tree` that replays `new_sha` onto the
/// parent of the old commit.
pub fn merge_tree_args(parent_old_sha: &str, parent_new_sha: &str, new_sha: &str) -> (r: Vec<String>)
    ensures
        text::texts(r@) == seq![
            "merge-tree"@,
            "--write-tree"@,
            "--merge-base="@ + parent_new_sha@,
            parent_old_sha@,
            new_sha@,
        ],
{
    let mut base = "--merge-base=".to_owned();
    base.append(parent_new_sha);
    let mut out: Vec<String> = Vec::new();
    out.push("merge-tree".to_owned());
    out.push("--write-tree".to_owned());
    out.push(base);
    out.push(parent_old_sha.to_owned());
    out.push(new_sha.to_owned());
    proof {
        assert(text::texts(out@) =~= seq![
            "merge-tree"@,
            "--write-tree"@,
            "--merge-base="@ + parent_new_sha@,
            parent_old_sha@,
            new_sha@,
        ]);
    }
    out
}

/// The arguments of the `git diff-tree` that [`compute_tree_delta`] reads.
pub fn diff_tree_args(base_tree_sha: &str, merged_tree_sha: &str) -> (r: Vec<String>)
    ensures
        text::texts(r@) == seq![
            "diff-tree"@,
            "-r"@,
            "--raw"@,
            "-z"@,
            "--no-renames"@,
            base_tree_sha@,
            merged_tree_sha@,
        ],
{
    let mut out: Vec<String> = Vec::new();
    out.push("diff-tree".to_owned());
    out.push("-r".to_owned());
    out.push("--raw".to_owned());
    out.push("-z".to_owned());
    out.push("--no-renames".to_owned());
    out.push(base_tree_sha.to_owned());
    out.push(merged_tree_sha.to_owned());
    proof {
        assert(text::texts(out@) =~= seq![
            "diff-tree"@,
            "-r"@,
            "--raw"@,
            "-z"@,
            "--no-renames"@,
            base_tree_sha@,
            merged_tree_sha@,
        ]);
    }
    out
}

/// The tree that `git merge-tree` wrote: the first line of its output.
pub open spec fn merged_tree_sha(output: Seq<char>) -> Option<Seq<char>> {
    let ls = text::lines(output);
    if ls.len() == 0 || ls[0].len() == 0 {
        None
    } else {
        Some(ls[0])
    }
}

/// The replayed tree, from the parent of the old commit and the output of
/// `git merge-tree`, each missing where git failed.
pub fn compute_merged_tree(parent_old_sha: Option<String>, output: Option<String>) -> (r: Option<
    MergedTree,
>)
    ensures
        match r {
            Some(m) => parent_old_sha == Some(m.parent_old_sha) && output is Some
                && merged_tree_sha(output->0@) == Some(m.tree_sha@),
            None => parent_old_sha is None || output is None || merged_tree_sha(
                output->0@,
            ) is None,
        },
{
    let parent_old_sha = match parent_old_sha {
        Some(p) => p,
        None => {
            return None;
        },
    };
    let output = match output {
        Some(o) => o,
        None => {
            return None;
        },
    };
    let ls = text::lines_of(output.as_str());
    proof {
        if ls.len() > 0 {
            assert(text::texts(ls@)[0] == ls@[0]@);
        }
    }
    if ls.len() == 0 || ls[0].as_str().is_empty() {
        return None;
    }
    let tree_sha = ls[0].clone();
    Some(MergedTree { tree_sha, parent_old_sha })
}

/// The kind of object that a mode stands for.
pub open spec fn type_of_mode(mode: Seq<char>) -> Seq<char> {
    if mode == "160000"@ {
        "commit"@
    } else if mode == "040000"@ {
        "tree"@
    } else {
        "blob"@
    }
}

/// The kind of object that a mode stands for. An unknown mode is taken for
/// that of a file.
pub fn mode_to_type(mode: &str) -> (r: &'static str)
    ensures
        r@ == type_of_mode(mode@),
{
    if text::same(mode, "160000") {
        "commit"
    } else if text::same(mode, "040000") {
        "tree"
    } else {
        "blob"
    }
}

// ---------------------------------------------------------------------------
// The difference of two trees
// ---------------------------------------------------------------------------

/// The number of bytes before the first NUL.
pub open spec fn until_nul(b: Seq<u8>) -> nat
    decreases b.len(),
{
    if b.len() == 0 || b[0] == 0 {
        0
    } else {
        1 + until_nul(b.drop_first())
    }
}

/// The fields of `b` between the NULs.
pub open spec fn nul_fields(b: Seq<u8>) -> Seq<Seq<u8>>
    decreases b.len(),
{
    let k = until_nul(b) as int;
    if k >= b.len() {
        seq![b]
    } else {
        seq![b.take(k)] + nul_fields(b.skip(k + 1))
    }
}

/// The words of a text: what stands between runs of white space.
pub open spec fn words(s: Seq<char>) -> Seq<Seq<char>>
    decreases s.len(),
    via words_shrink
{
    let t = text::trim_start(s);
    let k = text::span(t, text::not_blank()) as int;
    if t.len() == 0 {
        seq![]
    } else {
        seq![t.take(k)] + words(t.skip(k))
    }
}

#[via_fn]
proof fn words_shrink(s: Seq<char>) {
    let t = text::trim_start(s);
    text::lemma_span(s, text::blank());
    text::lemma_span(t, text::not_blank());
    if t.len() > 0 {
        assert(t[0] == s[text::span(s, text::blank()) as int]);
        assert(text::span(t, text::not_blank()) > 0);
    }
}

/// What one record says: an entry, nothing that is uploaded, or an error.
pub open spec fn record_entry(header: Seq<u8>, path: Seq<u8>) -> Result<
    Option<TreeEntryView>,
    Failure,
> {
    if !vstd::utf8::valid_utf8(header) {
        Ok(None)
    } else {
        let parts = words(vstd::utf8::decode_utf8(header));
        if parts.len() != 5 {
            Ok(None)
        } else if !vstd::utf8::valid_utf8(path) {
            Err(
                Failure::Generic(
                    "`git diff-tree` returned a path that is not valid UTF-8, so the replay commit cannot be uploaded: "@
                        + outside::escaped(outside::lossy(path)),
                ),
            )
        } else if parts[4] == "D"@ {
            Ok(
                Some(
                    TreeEntryView {
                        path: vstd::utf8::decode_utf8(path),
                        mode: parts[0],
                        type_: type_of_mode(parts[0]),
                        sha: None,
                    },
                ),
            )
        } else if parts[4] == "M"@ || parts[4] == "A"@ || parts[4] == "T"@ {
            Ok(
                Some(
                    TreeEntryView {
                        path: vstd::utf8::decode_utf8(path),
                        mode: parts[1],
                        type_: type_of_mode(parts[1]),
                        sha: Some(parts[3]),
                    },
                ),
            )
        } else {
            Ok(None)
        }
    }
}

/// An entry before some others.
pub open spec fn prepend(first: Option<TreeEntryView>, rest: Result<Seq<TreeEntryView>, Failure>) -> Result<
    Seq<TreeEntryView>,
    Failure,
> {
    match (first, rest) {
        (Some(e), Ok(v)) => Ok(seq![e] + v),
        (_, r) => r,
    }
}

/// The entries that the fields from `i` on list, or the first error. A record
/// is a field that starts with `:` and the path after it.
pub open spec fn delta_from(fields: Seq<Seq<u8>>, i: int) -> Result<Seq<TreeEntryView>, Failure>
    decreases fields.len() - i,
{
    if i < 0 || i >= fields.len() {
        Ok(seq![])
    } else if fields[i].len() == 0 || fields[i][0] != 58 {
        delta_from(fields, i + 1)
    } else if i + 1 >= fields.len() {
        Ok(seq![])
    } else {
        match record_entry(fields[i].skip(1), fields[i + 1]) {
            Err(e) => Err(e),
            Ok(first) => prepend(first, delta_from(fields, i + 2)),
        }
    }
}

/// The entries that the output of `git diff-tree -z` lists.
pub open spec fn tree_delta(output: Seq<u8>) -> Result<Seq<TreeEntryView>, Failure> {
    delta_from(nul_fields(output), 0)
}

/// The contents of a list of byte strings.
pub open spec fn byte_fields(v: Seq<Vec<u8>>) -> Seq<Seq<u8>> {
    v.map_values(|b: Vec<u8>| b@)
}

fn copy_bytes(b: &[u8], from: usize, to: usize) -> (r: Vec<u8>)
    requires
        from <= to <= b.len(),
    ensures
        r@ == b@.subrange(from as int, to as int),
{
    let mut out: Vec<u8> = Vec::new();
    let mut i: usize = from;
    while i < to
        invariant
            from <= i <= to <= b.len(),
            out@ == b@.subrange(from as int, i as int),
        decreases to - i,
    {
        out.push(b[i]);
        proof {
            assert(b@.subrange(from as int, i as int).push(b@[i as int]) =~= b@.subrange(
                from as int,
                i + 1,
            ));
        }
        i += 1;
    }
    out
}

proof fn lemma_until_nul_is(b: Seq<u8>, k: int)
    requires
        0 <= k <= b.len(),
        forall|i: int| 0 <= i < k ==> #[trigger] b[i] != 0,
        k < b.len() ==> b[k] == 0,
    ensures
        until_nul(b) == k,
    decreases b.len(),
{
    if k > 0 {
        assert(b[0] != 0);
        let t = b.drop_first();
        assert forall|i: int| 0 <= i < k - 1 implies #[trigger] t[i] != 0 by {
            assert(t[i] == b[i + 1]);
        }
        lemma_until_nul_is(t, k - 1);
    }
}

fn find_nul(b: &[u8], from: usize) -> (r: usize)
    requires
        from <= b.len(),
    ensures
        from <= r <= b.len(),
        r - from == until_nul(b@.skip(from as int)),
{
    let mut i: usize = from;
    while i < b.len() && b[i] != 0
        invariant
            from <= i <= b.len(),
            forall|j: int| from <= j < i ==> b@[j] != 0,
        decreases b.len() - i,
    {
        i += 1;
    }
    proof {
        lemma_until_nul_is(b@.skip(from as int), i - from);
    }
    i
}

fn split_nul(b: &[u8]) -> (r: Vec<Vec<u8>>)
    ensures
        byte_fields(r@) == nul_fields(b@),
{
    let mut out: Vec<Vec<u8>> = Vec::new();
    let mut start: usize = 0;
    let mut end: usize = find_nul(b, 0);
    proof {
        assert(b@.skip(0) =~= b@);
        assert(byte_fields(out@) + nul_fields(b@) =~= nul_fields(b@));
    }
    while end < b.len()
        invariant
            start <= end <= b.len(),
            end - start == until_nul(b@.skip(start as int)),
            byte_fields(out@) + nul_fields(b@.skip(start as int)) == nul_fields(b@),
        decreases b.len() - start,
    {
        let ghost rest = b@.skip(start as int);
        let ghost before = byte_fields(out@);
        out.push(copy_bytes(b, start, end));
        proof {
            assert(b@.subrange(start as int, end as int) =~= rest.take(end - start));
            assert(rest.skip(end - start + 1) =~= b@.skip(end + 1));
            assert(byte_fields(out@) =~= before.push(rest.take(end - start)));
            assert(byte_fields(out@) + nul_fields(b@.skip(end + 1)) =~= before + nul_fields(rest));
        }
        start = end + 1;
        end = find_nul(b, start);
    }
    let ghost before = byte_fields(out@);
    out.push(copy_bytes(b, start, end));
    proof {
        assert(b@.subrange(start as int, end as int) =~= b@.skip(start as int));
        assert(byte_fields(out@) =~= before + seq![b@.skip(start as int)]);
    }
    out
}

/// The words of a text.
fn words_of(s: &str) -> (r: Vec<String>)
    ensures
        text::texts(r@) == words(s@),
{
    let mut out: Vec<String> = Vec::new();
    let mut rest = text::trimmed_start(s);
    proof {
        lemma_words_trim(s@);
        assert(text::texts(out@) + words(rest@) =~= words(s@));
    }
    while !rest.as_str().is_empty()
        invariant
            text::texts(out@) + words(rest@) == words(s@),
            rest@ == text::trim_start(rest@),
        decreases rest@.len(),
    {
        let cs = text::chars_of(rest.as_str());
        let k: usize = text::leading_word(&cs);
        let ghost before = text::texts(out@);
        let ghost t = rest@;
        out.push(text::piece(&cs, 0, k));
        let after = text::piece(&cs, k, cs.len());
        proof {
            text::lemma_span(t, text::blank());
            text::lemma_span(t, text::not_blank());
            if text::span(t, text::blank()) > 0 {
                assert(text::trim_start(t).len() < t.len());
            }
            assert(text::span(t, text::blank()) == 0);
            assert(!text::blank()(t[0]));
            assert(k > 0);
            assert(cs@.subrange(0, k as int) =~= t.take(k as int));
            assert(after@ =~= t.skip(k as int));
            assert(text::texts(out@) =~= before.push(t.take(k as int)));
            assert(before + (seq![t.take(k as int)] + words(after@)) =~= text::texts(out@) + words(
                after@,
            ));
            lemma_words_trim(after@);
            text::lemma_span(after@, text::blank());
        }
        rest = text::trimmed_start(after.as_str());
    }
    proof {
        assert(rest@ =~= seq![]);
        lemma_words_trim(rest@);
        assert(text::trim_start(rest@) =~= seq![]);
        assert(words(rest@) =~= seq![]);
        assert(text::texts(out@) + words(rest@) =~= text::texts(out@));
    }
    out
}

/// Leading white space changes nothing about the words.
proof fn lemma_words_trim(s: Seq<char>)
    ensures
        words(text::trim_start(s)) == words(s),
        text::trim_start(text::trim_start(s)) == text::trim_start(s),
{
    let t = text::trim_start(s);
    text::lemma_span(s, text::blank());
    if t.len() > 0 {
        assert(t[0] == s[text::span(s, text::blank()) as int]);
    }
    text::lemma_span_is(t, text::blank(), 0);
    assert(t.skip(0) =~= t);
}

/// What one record says.
fn read_record(header: &[u8], path: &[u8]) -> (r: Result<Option<TreeEntry>, CliError>)
    ensures
        match r {
            Ok(o) => record_entry(header@, path@) == Ok::<Option<TreeEntryView>, Failure>(
                match o {
                    Some(e) => Some(e@),
                    None => None,
                },
            ),
            Err(e) => record_entry(header@, path@) == Err::<Option<TreeEntryView>, Failure>(e@),
        },
{
    let header_text = match outside::utf8_text(header) {
        Ok(t) => t,
        Err(_) => {
            return Ok(None);
        },
    };
    let parts = words_of(header_text.as_str());
    let ghost ps = text::texts(parts@);
    if parts.len() != 5 {
        return Ok(None);
    }
    proof {
        assert(ps[0] == parts@[0]@ && ps[1] == parts@[1]@ && ps[3] == parts@[3]@ && ps[4]
            == parts@[4]@);
    }
    let path_text = match outside::utf8_text(path) {
        Ok(t) => t,
        Err(_) => {
            let mut msg =
                "`git diff-tree` returned a path that is not valid UTF-8, so the replay commit cannot be uploaded: ".to_owned();
            let shown = outside::lossy_text(path);
            msg.append(outside::escape_text(shown.as_str()).as_str());
            return Err(CliError::Generic(msg));
        },
    };
    let status = parts[4].as_str();
    if text::same(status, "D") {
        Ok(
            Some(
                TreeEntry {
                    path: path_text,
                    mode: parts[0].clone(),
                    type_: mode_to_type(parts[0].as_str()).to_owned(),
                    sha: None,
                },
            ),
        )
    } else if text::same(status, "M") || text::same(status, "A") || text::same(status, "T") {
        Ok(
            Some(
                TreeEntry {
                    path: path_text,
                    mode: parts[1].clone(),
                    type_: mode_to_type(parts[1].as_str()).to_owned(),
                    sha: Some(parts[3].clone()),
                },
            ),
        )
    } else {
        Ok(None)
    }
}

/// The entries so far before those that are still to come.
spec fn after_entries(so_far: Seq<TreeEntryView>, rest: Result<Seq<TreeEntryView>, Failure>) -> Result<
    Seq<TreeEntryView>,
    Failure,
> {
    match rest {
        Ok(v) => Ok(so_far + v),
        Err(e) => Err(e),
    }
}

/// The entries to upload, read from the output of
/// `git diff-tree -r --raw -z --no-renames`. Added, modified, retyped and
/// deleted paths are kept, any other status is dropped. A path that is not
/// UTF-8 is an error, because no encoding would upload it under its name.
pub fn compute_tree_delta(output: &[u8]) -> (r: Result<Vec<TreeEntry>, CliError>)
    ensures
        match r {
            Ok(v) => tree_delta(output@) == Ok::<Seq<TreeEntryView>, Failure>(tree_views(v@)),
            Err(e) => tree_delta(output@) == Err::<Seq<TreeEntryView>, Failure>(e@),
        },
{
    let fields = split_nul(output);
    let ghost fs = byte_fields(fields@);
    let mut out: Vec<TreeEntry> = Vec::new();
    let mut i: usize = 0;
    proof {
        assert(tree_views(out@) =~= seq![]);
        assert(forall|v: Seq<TreeEntryView>| tree_views(out@) + v =~= v);
    }
    while i < fields.len()
        invariant
            i <= fields.len(),
            fs == byte_fields(fields@),
            fs == nul_fields(output@),
            tree_delta(output@) == after_entries(tree_views(out@), delta_from(fs, i as int)),
        decreases fields.len() - i,
    {
        let header = fields[i].as_slice();
        proof {
            assert(fs[i as int] == fields@[i as int]@);
        }
        if header.len() == 0 || header[0] != 58 {
            i += 1;
            continue ;
        }
        if fields.len() - i < 2 {
            proof {
                assert(tree_views(out@) + Seq::<TreeEntryView>::empty() =~= tree_views(out@));
            }
            return Ok(out);
        }
        proof {
            assert(fs[i + 1] == fields@[i + 1]@);
        }
        let meta = copy_bytes(header, 1, header.len());
        proof {
            assert(meta@ =~= fs[i as int].skip(1));
        }
        match read_record(meta.as_slice(), fields[i + 1].as_slice()) {
            Err(e) => {
                return Err(e);
            },
            Ok(None) => {},
            Ok(Some(e)) => {
                let ghost before = tree_views(out@);
                out.push(e);
                proof {
                    assert(tree_views(out@) =~= before.push(e@));
                    let rest = delta_from(fs, i + 2);
                    if rest is Ok {
                        assert(before + (seq![e@] + rest->Ok_0) =~= tree_views(out@)
                            + rest->Ok_0);
                    }
                }
            },
        }
        i += 2;
    }
    proof {
        assert(tree_views(out@) + Seq::<TreeEntryView>::empty() =~= tree_views(out@));
    }
    Ok(out)
}

/// The upload of a tree: what differs from a tree that GitHub has.
#[derive(Debug, Clone, PartialEq, Eq)]
pub struct TreeUpload {
    pub path: String,
    pub base_tree: String,
    pub tree: Vec<TreeEntry>,
}

/// The upload of a commit.
#[derive(Debug, Clone, PartialEq, Eq)]
pub struct CommitUpload {
    pub path: String,
    pub message: String,
    pub tree: String,
    pub parents: Vec<String>,
}

/// The tree to upload for a replayed commit. A delta that could not be read,
/// and an empty one, give no commit.
pub fn replay_for_revision(
    user: &str,
    repo: &str,
    base_tree_sha: String,
    delta: Result<Vec<TreeEntry>, CliError>,
) -> (r: Option<TreeUpload>)
    ensures
        match r {
            Some(u) => {
                &&& u.path@ == "/repos/"@ + user@ + "/"@ + repo@ + "/git/trees"@
                &&& u.base_tree == base_tree_sha
                &&& delta == Ok::<Vec<TreeEntry>, CliError>(u.tree)
                &&& u.tree.len() > 0
            },
            None => delta is Err || delta->Ok_0.len() == 0,
        },
{
    match delta {
        Ok(tree) => if tree.len() == 0 {
            None
        } else {
            Some(
                TreeUpload {
                    path: git_data_path(user, repo, "/git/trees"),
                    base_tree: base_tree_sha,
                    tree,
                },
            )
        },
        Err(_) => None,
    }
}

/// The commit to upload once its tree is there. It stands on the old head, so
/// that comparing the two shows the amendment alone. Where the tree could not
/// be uploaded there is no commit.
pub fn upload_replay_commit(
    user: &str,
    repo: &str,
    old_sha: &str,
    new_sha: &str,
    tree_sha: Option<String>,
) -> (r: Option<CommitUpload>)
    requires
        text::cuts_at(new_sha@, 7),
        text::cuts_at(old_sha@, 7),
    ensures
        match r {
            Some(u) => {
                &&& u.path@ == "/repos/"@ + user@ + "/"@ + repo@ + "/git/commits"@
                &&& u.message@ == replay_text(new_sha@, old_sha@)
                &&& tree_sha == Some(u.tree)
                &&& text::texts(u.parents@) == seq![old_sha@]
            },
            None => tree_sha is None,
        },
{
    match tree_sha {
        Some(tree) => {
            let mut parents: Vec<String> = Vec::new();
            parents.push(old_sha.to_owned());
            proof {
                assert(text::texts(parents@) =~= seq![old_sha@]);
            }
            Some(
                CommitUpload {
                    path: git_data_path(user, repo, "/git/commits"),
                    message: replay_message(new_sha, old_sha),
                    tree,
                    parents,
                },
            )
        },
        None => None,
    }
}

fn git_data_path(user: &str, repo: &str, kind: &str) -> (r: String)
    ensures
        r@ == "/repos/"@ + user@ + "/"@ + repo@ + kind@,
{
    let mut p = "/repos/".to_owned();
    p.append(user);
    p.append("/");
    p.append(repo);
    p.append(kind);
    p
}

/// The message of a commit that replays `new_sha` on `old_sha`.
pub open spec fn replay_text(new_sha: Seq<char>, old_sha: Seq<char>) -> Seq<char> {
    "mergify-cli: replay "@ + text::cut(new_sha, 7) + " on "@ + text::cut(old_sha, 7)
}

/// The message of the replayed commit.
pub fn replay_message(new_sha: &str, old_sha: &str) -> (r: String)
    requires
        text::cuts_at(new_sha@, 7),
        text::cuts_at(old_sha@, 7),
    ensures
        r@ == replay_text(new_sha@, old_sha@),
{
    let mut m = "mergify-cli: replay ".to_owned();
    m.append(text::cut_to(new_sha, 7).as_str());
    m.append(" on ");
    m.append(text::cut_to(old_sha, 7).as_str());
    m
}

// ---------------------------------------------------------------------------
// Laws
// ---------------------------------------------------------------------------

/// Nothing is uploaded for trees that do not differ.
pub proof fn law_no_difference_no_entries()
    ensures
        tree_delta(seq![]) == Ok::<Seq<TreeEntryView>, Failure>(seq![]),
{
    reveal_with_fuel(delta_from, 2);
    assert(nul_fields(seq![]) =~= seq![Seq::<u8>::empty()]);
}

/// Every uploaded entry is a deletion without an object or has the object of
/// the new tree, and its kind always fits its mode.
pub proof fn law_entry_kind_fits_mode(header: Seq<u8>, path: Seq<u8>)
    requires
        record_entry(header, path) is Ok,
        record_entry(header, path)->Ok_0 is Some,
    ensures
        ({
            let e = record_entry(header, path)->Ok_0->0;
            let parts = words(vstd::utf8::decode_utf8(header));
            &&& e.type_ == type_of_mode(e.mode)
            &&& e.path == vstd::utf8::decode_utf8(path)
            &&& e.sha is None <==> parts[4] == "D"@
        }),
{
    reveal_strlit("D");
    reveal_strlit("M");
    reveal_strlit("A");
    reveal_strlit("T");
    assert("D"@[0] != "M"@[0]);
    assert("D"@[0] != "A"@[0]);
    assert("D"@[0] != "T"@[0]);
}

/// A deleted path is uploaded with its old mode and no object, one that was
/// changed, added or retyped with its new mode and its new object, and nothing
/// else is. A mode of a submodule stands for a commit, that of a directory for a
/// tree, and any other for a file.
pub proof fn law_record_says_what_to_upload(header: Seq<u8>, path: Seq<u8>)
    requires
        vstd::utf8::valid_utf8(header),
        vstd::utf8::valid_utf8(path),
        words(vstd::utf8::decode_utf8(header)).len() == 5,
    ensures
        ({
            let parts = words(vstd::utf8::decode_utf8(header));
            let kind = |mode: Seq<char>|
                if mode == "160000"@ {
                    "commit"@
                } else if mode == "040000"@ {
                    "tree"@
                } else {
                    "blob"@
                };
            record_entry(header, path) == Ok::<Option<TreeEntryView>, Failure>(
                if parts[4] == "D"@ {
                    Some(
                        TreeEntryView {
                            path: vstd::utf8::decode_utf8(path),
                            mode: parts[0],
                            type_: kind(parts[0]),
                            sha: None,
                        },
                    )
                } else if parts[4] == "A"@ || parts[4] == "M"@ || parts[4] == "T"@ {
                    Some(
                        TreeEntryView {
                            path: vstd::utf8::decode_utf8(path),
                            mode: parts[1],
                            type_: kind(parts[1]),
                            sha: Some(parts[3]),
                        },
                    )
                } else {
                    None
                },
            )
        }),
{
}

/// A record that cannot be read is passed over; a path that is not text fails
/// the upload.
pub proof fn law_unreadable_records_are_passed_over(header: Seq<u8>, path: Seq<u8>)
    ensures
        !vstd::utf8::valid_utf8(header) ==> record_entry(header, path) == Ok::<
            Option<TreeEntryView>,
            Failure,
        >(None),
        vstd::utf8::valid_utf8(header) && words(vstd::utf8::decode_utf8(header)).len() != 5
            ==> record_entry(header, path) == Ok::<Option<TreeEntryView>, Failure>(None),
        vstd::utf8::valid_utf8(header) && words(vstd::utf8::decode_utf8(header)).len() == 5
            && !vstd::utf8::valid_utf8(path) ==> record_entry(header, path) is Err,
{
}

/// The difference of two trees is that of its first record and then that of the
/// rest.
pub proof fn law_records_are_read_in_order(header: Seq<u8>, path: Seq<u8>, rest: Seq<u8>)
    requires
        forall|i: int| 0 <= i < header.len() ==> #[trigger] header[i] != 0,
        forall|i: int| 0 <= i < path.len() ==> #[trigger] path[i] != 0,
    ensures
        ({
            let output = seq![58u8] + header + seq![0u8] + (path + seq![0u8] + rest);
            match record_entry(header, path) {
                Err(e) => tree_delta(output) == Err::<Seq<TreeEntryView>, Failure>(e),
                Ok(None) => tree_delta(output) == tree_delta(rest),
                Ok(Some(e)) => match tree_delta(rest) {
                    Ok(more) => tree_delta(output) == Ok::<Seq<TreeEntryView>, Failure>(
                        seq![e] + more,
                    ),
                    Err(f) => tree_delta(output) == Err::<Seq<TreeEntryView>, Failure>(f),
                },
            }
        }),
{
    let b = path + seq![0u8] + rest;
    let first = seq![58u8] + header;
    lemma_nul_step(first, b);
    lemma_nul_step(path, rest);
    let more = nul_fields(rest);
    let fields = nul_fields(first + seq![0u8] + b);
    assert(fields =~= seq![first, path] + more);
    assert(first[0] == 58);
    assert(first.skip(1) =~= header);
    lemma_delta_shift(fields, more, 2);
}

proof fn lemma_nul_step(first: Seq<u8>, rest: Seq<u8>)
    requires
        forall|i: int| 0 <= i < first.len() ==> #[trigger] first[i] != 0,
    ensures
        nul_fields(first + seq![0u8] + rest) == seq![first] + nul_fields(rest),
{
    let s = first + seq![0u8] + rest;
    let k = first.len() as int;
    assert forall|i: int| 0 <= i < k implies #[trigger] s[i] != 0 by {
        assert(s[i] == first[i]);
    }
    assert(s[k] == 0);
    lemma_until_nul_is(s, k);
    assert(s.take(k) =~= first);
    assert(s.skip(k + 1) =~= rest);
}

proof fn lemma_delta_shift(all: Seq<Seq<u8>>, part: Seq<Seq<u8>>, i: int)
    requires
        2 <= i,
        all.len() == part.len() + 2,
        forall|j: int| 0 <= j < part.len() ==> #[trigger] part[j] == all[j + 2],
    ensures
        delta_from(all, i) == delta_from(part, i - 2),
    decreases all.len() - i,
{
    if i < all.len() {
        assert(part[i - 2] == all[i]);
        lemma_delta_shift(all, part, i + 1);
        if i + 1 < all.len() {
            lemma_delta_shift(all, part, i + 2);
            assert(part[i - 1] == all[i + 1]);
        }
    }
}

/// The merged tree is the first line of what git wrote, and there is none where
/// git failed or wrote nothing there.
pub proof fn law_tree_is_the_first_line(
    parent: Option<String>,
    output: Option<String>,
    r: Option<MergedTree>,
)
    requires
        call_ensures(compute_merged_tree, (parent, output), r),
    ensures
        r is Some <==> parent is Some && output is Some && text::lines(output->0@).len() > 0
            && text::lines(output->0@)[0].len() > 0,
        r is Some ==> r->0.parent_old_sha == parent->0 && r->0.tree_sha@ == text::lines(
            output->0@,
        )[0],
{
}

/// The new commit is replayed onto the parent of the old one.
pub proof fn law_replay_calls_read(
    old: &str,
    new: &str,
    sha: &str,
    merge: Vec<String>,
    diff: Vec<String>,
)
    requires
        call_ensures(merge_tree_args, (old, new, sha), merge),
        call_ensures(diff_tree_args, (old, new), diff),
    ensures
        text::texts(merge@) == seq![
            "merge-tree"@,
            "--write-tree"@,
            "--merge-base="@ + new@,
            old@,
            sha@,
        ],
        text::texts(diff@) == seq![
            "diff-tree"@,
            "-r"@,
            "--raw"@,
            "-z"@,
            "--no-renames"@,
            old@,
            new@,
        ],
{
}

/// A tree is uploaded where the replay differs from its base, with every entry of
/// the difference; the commit of it follows the old one.
pub proof fn law_replay_is_uploaded(
    user: &str,
    repo: &str,
    base: String,
    delta: Result<Vec<TreeEntry>, CliError>,
    tree: Option<TreeUpload>,
    old: &str,
    new: &str,
    made: Option<String>,
    commit: Option<CommitUpload>,
)
    requires
        call_ensures(replay_for_revision, (user, repo, base, delta), tree),
        call_ensures(upload_replay_commit, (user, repo, old, new, made), commit),
        text::all_ascii(old@),
        text::all_ascii(new@),
        old@.len() >= 7,
        new@.len() >= 7,
    ensures
        tree is Some <==> delta is Ok && delta->Ok_0@.len() > 0,
        tree is Some ==> tree->0.base_tree@ == base@ && tree->0.tree@ == delta->Ok_0@
            && tree->0.path@ == "/repos/"@ + user@ + "/"@ + repo@ + "/git/trees"@,
        commit is Some <==> made is Some,
        commit is Some ==> {
            &&& commit->0.tree == made->0
            &&& commit->0.parents@.len() == 1
            &&& commit->0.parents@[0]@ == old@
            &&& commit->0.path@ == "/repos/"@ + user@ + "/"@ + repo@ + "/git/commits"@
            &&& commit->0.message@ == "mergify-cli: replay "@ + new@.take(7) + " on "@ + old@.take(7)
        },
{
    text::law_ascii_cuts_anywhere(new@, 7);
    text::law_ascii_cuts_anywhere(old@, 7);
    assert(new@.len() == 7 ==> new@.take(7) =~= new@);
    assert(old@.len() == 7 ==> old@.take(7) =~= old@);
    if commit is Some {
        let ps = text::texts(commit->0.parents@);
        assert(ps.len() == commit->0.parents@.len());
        assert(ps[0] == commit->0.parents@[0]@);
    }
}

/// A field that starts with a colon makes a record with the one after it; one that
/// does not is passed over, and a record without a path ends the list.
pub proof fn law_fields_are_taken_in_pairs(fields: Seq<Seq<u8>>, i: int)
    requires
        0 <= i < fields.len(),
    ensures
        ({
            let here = delta_from(fields, i);
            let starts = fields[i].len() > 0 && fields[i][0] == 58;
            &&& delta_from(fields, fields.len() as int) == Ok::<Seq<TreeEntryView>, Failure>(seq![])
            &&& !starts ==> here == delta_from(fields, i + 1)
            &&& starts && i == fields.len() - 1 ==> here == Ok::<Seq<TreeEntryView>, Failure>(
                seq![],
            )
            &&& starts && i < fields.len() - 1 ==> match record_entry(
                fields[i].skip(1),
                fields[i + 1],
            ) {
                Err(e) => here == Err::<Seq<TreeEntryView>, Failure>(e),
                Ok(None) => here == delta_from(fields, i + 2),
                Ok(Some(e)) => match delta_from(fields, i + 2) {
                    Ok(more) => here == Ok::<Seq<TreeEntryView>, Failure>(seq![e] + more),
                    Err(f) => here == Err::<Seq<TreeEntryView>, Failure>(f),
                },
            }
        }),
{
}

} // verus!
