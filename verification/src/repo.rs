//! The calls into the git library. Nothing here is verified: each item says
//! what is assumed of the call it makes, and most assume nothing.

use vstd::prelude::*;

verus! {

/// `git2::Repository`: an open repository.
#[verifier::external_type_specification]
#[verifier::external_body]
pub struct ExRepository(git2::Repository);

/// `git2::Error`: why a call into the git library failed.
#[verifier::external_type_specification]
#[verifier::external_body]
pub struct ExGitError(git2::Error);

/// `git2::Revwalk`: a walk over commits.
#[verifier::external_type_specification]
#[verifier::external_body]
pub struct ExRevwalk<'repo>(git2::Revwalk<'repo>);

/// `git2::Oid`: the id of an object.
#[verifier::external_type_specification]
#[verifier::external_body]
pub struct ExOid(git2::Oid);

/// `git2::Commit`: a commit.
#[verifier::external_type_specification]
#[verifier::external_body]
pub struct ExCommit<'repo>(git2::Commit<'repo>);

/// `git2::Tree`: a directory as a commit holds it.
#[verifier::external_type_specification]
#[verifier::external_body]
pub struct ExTree<'repo>(git2::Tree<'repo>);

/// `git2::Diff`: the differences between two trees.
#[verifier::external_type_specification]
#[verifier::external_body]
pub struct ExDiff<'repo>(git2::Diff<'repo>);

/// `git2::Reference`: a name for a commit, such as the head.
#[verifier::external_type_specification]
#[verifier::external_body]
pub struct ExReference<'repo>(git2::Reference<'repo>);

/// `git2::TreeEntry`: one entry of a tree.
#[verifier::external_type_specification]
#[verifier::external_body]
pub struct ExTreeEntry<'tree>(git2::TreeEntry<'tree>);

/// `git2::Object`: an object of any kind.
#[verifier::external_type_specification]
#[verifier::external_body]
pub struct ExObject<'repo>(git2::Object<'repo>);

/// What an entry of a tree points at.
#[derive(Clone, Copy, Debug, PartialEq, Eq, Structural)]
pub enum EntryKind {
    Any,
    Commit,
    Tree,
    Blob,
    Tag,
    Unknown,
}

/// What a delta of a diff did to its file.
#[derive(Clone, Copy, Debug, PartialEq, Eq, Structural)]
pub enum ChangeKind {
    Unmodified,
    Added,
    Deleted,
    Modified,
    Renamed,
    Copied,
    Ignored,
    Untracked,
    Typechange,
    Unreadable,
    Conflicted,
}

/// Calls `git2::Repository::open`. Nothing is assumed of the result.
#[verifier::external_body]
pub(crate) fn open_repository(path: &str) -> (r: Result<git2::Repository, git2::Error>) {
    git2::Repository::open(path)
}

/// `git2::Repository::revwalk`. Nothing is assumed of the result.
pub assume_specification<'a>[ git2::Repository::revwalk ](repo: &'a git2::Repository) -> (r:
    Result<git2::Revwalk<'a>, git2::Error>)
;

/// `git2::Revwalk::simplify_first_parent`. Nothing is assumed of the result.
pub assume_specification<'repo>[ git2::Revwalk::<'repo>::simplify_first_parent ](
    walk: &mut git2::Revwalk<'repo>,
) -> (r: Result<(), git2::Error>)
;

/// `git2::Revwalk::push_head`. Nothing is assumed of the result.
pub assume_specification<'repo>[ git2::Revwalk::<'repo>::push_head ](
    walk: &mut git2::Revwalk<'repo>,
) -> (r: Result<(), git2::Error>)
;

/// Calls `Iterator::next` on a `git2::Revwalk`. Nothing is assumed of the
/// result.
#[verifier::external_body]
pub(crate) fn next_commit_id<'repo>(walk: &mut git2::Revwalk<'repo>) -> (r: Option<
    Result<git2::Oid, git2::Error>,
>) {
    walk.next()
}

/// `git2::Repository::find_commit`. Nothing is assumed of the result.
pub assume_specification<'a>[ git2::Repository::find_commit ](
    repo: &'a git2::Repository,
    oid: git2::Oid,
) -> (r: Result<git2::Commit<'a>, git2::Error>)
;

/// Calls `git2::Commit::time` and reads its seconds since the epoch. Nothing
/// is assumed of the result.
#[verifier::external_body]
pub(crate) fn commit_seconds<'repo>(commit: &git2::Commit<'repo>) -> (secs: i64) {
    commit.time().seconds()
}

/// `git2::Commit::parent_count`. Nothing is assumed of the result.
pub assume_specification<'repo>[ git2::Commit::<'repo>::parent_count ](
    commit: &git2::Commit<'repo>,
) -> (n: usize)
;

/// `git2::Commit::parent`. Nothing is assumed of the result.
pub assume_specification<'repo>[ git2::Commit::<'repo>::parent ](
    commit: &git2::Commit<'repo>,
    i: usize,
) -> (r: Result<git2::Commit<'repo>, git2::Error>)
;

/// `git2::Commit::tree`. Nothing is assumed of the result.
pub assume_specification<'repo>[ git2::Commit::<'repo>::tree ](
    commit: &git2::Commit<'repo>,
) -> (r: Result<git2::Tree<'repo>, git2::Error>)
;

/// Calls `git2::Commit::id` and writes the id out in hexadecimal. Nothing is
/// assumed of the result.
#[verifier::external_body]
pub(crate) fn commit_sha<'repo>(commit: &git2::Commit<'repo>) -> (sha: String) {
    commit.id().to_string()
}

/// Calls `git2::Commit::message`; a message that is not UTF-8 counts as
/// empty. Nothing is assumed of the result.
#[verifier::external_body]
pub(crate) fn commit_message<'repo>(commit: &git2::Commit<'repo>) -> (message: String) {
    match commit.message() {
        Ok(text) => text.to_string(),
        Err(_) => String::new(),
    }
}

/// Whether `text` holds no NUL character, so that it can be handed to git as
/// a C string.
pub open spec fn is_c_text(text: Seq<char>) -> bool {
    forall|i: int| 0 <= i < text.len() ==> #[trigger] text[i] != '\0'
}

/// Calls `git2::Repository::diff_tree_to_tree` from `old` to `new` with
/// options that hold `pathspec` as their one pattern. The pattern must hold
/// no NUL, on which `git2::DiffOptions::pathspec` panics. Nothing is assumed
/// of the result.
#[verifier::external_body]
pub(crate) fn diff_trees<'a>(
    repo: &'a git2::Repository,
    old: &git2::Tree<'a>,
    new: &git2::Tree<'a>,
    pathspec: &str,
) -> (r: Result<git2::Diff<'a>, git2::Error>)
    requires
        is_c_text(pathspec@),
{
    let mut options = git2::DiffOptions::new();
    options.pathspec(pathspec);
    repo.diff_tree_to_tree(Some(old), Some(new), Some(&mut options))
}

/// The kinds of change of the deltas that `diff` holds, in its order: at
/// each place what a look at that place gives, nothing where it gives no
/// delta.
pub uninterp spec fn diff_kinds(diff: &git2::Diff) -> Seq<Option<ChangeKind>>;

/// The old paths of the deltas that `diff` holds, in its order: at each
/// place nothing where a look gives no delta, else the path of the old file,
/// if it has one, with what is not UTF-8 replaced.
pub uninterp spec fn diff_old_paths(diff: &git2::Diff) -> Seq<Option<Option<Seq<char>>>>;

/// The text of a path that may be absent in two ways.
pub open spec fn nested_text(text: Option<Option<String>>) -> Option<Option<Seq<char>>> {
    match text {
        Some(Some(inner)) => Some(Some(inner@)),
        Some(None) => Some(None),
        None => None,
    }
}

/// Calls `git2::Diff::deltas` and takes the length of the iterator. Trusted:
/// that length is the number of places that the two names of the diff's
/// contents speak of.
#[verifier::external_body]
pub(crate) fn delta_count<'repo>(diff: &git2::Diff<'repo>) -> (n: usize)
    ensures
        n == diff_kinds(diff).len(),
        n == diff_old_paths(diff).len(),
{
    diff.deltas().len()
}

/// Calls `git2::Diff::get_delta` and names the variant of the status of the
/// delta, if there is one. Trusted: below the diff's length the result is
/// what `diff_kinds` holds at that place.
#[verifier::external_body]
pub(crate) fn delta_kind_at<'repo>(diff: &git2::Diff<'repo>, i: usize) -> (kind: Option<
    ChangeKind,
>)
    ensures
        i < diff_kinds(diff).len() ==> kind == diff_kinds(diff)[i as int],
{
    diff.get_delta(i).map(|delta| match delta.status() {
        git2::Delta::Unmodified => ChangeKind::Unmodified,
        git2::Delta::Added => ChangeKind::Added,
        git2::Delta::Deleted => ChangeKind::Deleted,
        git2::Delta::Modified => ChangeKind::Modified,
        git2::Delta::Renamed => ChangeKind::Renamed,
        git2::Delta::Copied => ChangeKind::Copied,
        git2::Delta::Ignored => ChangeKind::Ignored,
        git2::Delta::Untracked => ChangeKind::Untracked,
        git2::Delta::Typechange => ChangeKind::Typechange,
        git2::Delta::Unreadable => ChangeKind::Unreadable,
        git2::Delta::Conflicted => ChangeKind::Conflicted,
    })
}

/// Calls `git2::Diff::get_delta` and reads the path of the old file of the
/// delta, if there is one, with what is not UTF-8 replaced. Trusted: below
/// the diff's length the result is what `diff_old_paths` holds at that
/// place.
#[verifier::external_body]
pub(crate) fn delta_old_path_at<'repo>(diff: &git2::Diff<'repo>, i: usize) -> (path: Option<
    Option<String>,
>)
    ensures
        i < diff_old_paths(diff).len() ==> nested_text(path) == diff_old_paths(diff)[i as int],
{
    diff.get_delta(i).map(
        |delta| delta.old_file().path().map(|old| old.to_string_lossy().to_string()),
    )
}

/// Calls `git2::Error::message`. Nothing is assumed of the result.
#[verifier::external_body]
pub(crate) fn error_text(error: &git2::Error) -> (text: String) {
    error.message().to_string()
}

/// `git2::Repository::head`. Nothing is assumed of the result.
pub assume_specification<'a>[ git2::Repository::head ](repo: &'a git2::Repository) -> (r: Result<
    git2::Reference<'a>,
    git2::Error,
>)
;

/// `git2::Reference::peel_to_tree`. Nothing is assumed of the result.
pub assume_specification<'repo>[ git2::Reference::<'repo>::peel_to_tree ](
    reference: &git2::Reference<'repo>,
) -> (r: Result<git2::Tree<'repo>, git2::Error>)
;

/// Calls `git2::Tree::get_path` with `path` as the path. Nothing is assumed
/// of the result.
#[verifier::external_body]
pub(crate) fn tree_entry_at<'repo>(tree: &git2::Tree<'repo>, path: &str) -> (r: Result<
    git2::TreeEntry<'static>,
    git2::Error,
>) {
    tree.get_path(std::path::Path::new(path))
}

/// `git2::TreeEntry::to_object`. Nothing is assumed of the result.
pub assume_specification<'tree, 'a>[ git2::TreeEntry::<'tree>::to_object ](
    entry: &git2::TreeEntry<'tree>,
    repo: &'a git2::Repository,
) -> (r: Result<git2::Object<'a>, git2::Error>)
;

/// `git2::Object::peel_to_tree`. Nothing is assumed of the result.
pub assume_specification<'repo>[ git2::Object::<'repo>::peel_to_tree ](
    object: &git2::Object<'repo>,
) -> (r: Result<git2::Tree<'repo>, git2::Error>)
;

/// The kinds of the entries that `tree` holds, in its order: at each place
/// what a look at that place gives, nothing where it gives no entry.
pub uninterp spec fn tree_entry_kinds(tree: &git2::Tree) -> Seq<Option<EntryKind>>;

/// The names of the entries that `tree` holds, in its order: at each place
/// nothing where a look gives no entry, else the entry's name, if it is
/// UTF-8.
pub uninterp spec fn tree_entry_names(tree: &git2::Tree) -> Seq<Option<Option<Seq<char>>>>;

/// `git2::Tree::len`. Assumed: the number of entries is the number of places
/// that the two names of the tree's contents speak of.
pub assume_specification<'repo>[ git2::Tree::<'repo>::len ](tree: &git2::Tree<'repo>) -> (n: usize)
    ensures
        n == tree_entry_kinds(tree).len(),
        n == tree_entry_names(tree).len(),
;

/// Calls `git2::Tree::get` and names the variant of the kind of the entry,
/// if there is one. Trusted: below the tree's length the result is what
/// `tree_entry_kinds` holds at that place.
#[verifier::external_body]
pub(crate) fn entry_kind_at<'repo>(tree: &git2::Tree<'repo>, i: usize) -> (kind: Option<
    EntryKind,
>)
    ensures
        i < tree_entry_kinds(tree).len() ==> kind == tree_entry_kinds(tree)[i as int],
{
    tree.get(i).map(|entry| match entry.kind() {
        Some(git2::ObjectType::Any) => EntryKind::Any,
        Some(git2::ObjectType::Commit) => EntryKind::Commit,
        Some(git2::ObjectType::Tree) => EntryKind::Tree,
        Some(git2::ObjectType::Blob) => EntryKind::Blob,
        Some(git2::ObjectType::Tag) => EntryKind::Tag,
        None => EntryKind::Unknown,
    })
}

/// Calls `git2::Tree::get` and reads the name of the entry, if there is one;
/// a name that is not UTF-8 counts as absent. Trusted: below the tree's
/// length the result is what `tree_entry_names` holds at that place.
#[verifier::external_body]
pub(crate) fn entry_name_at<'repo>(tree: &git2::Tree<'repo>, i: usize) -> (name: Option<
    Option<String>,
>)
    ensures
        i < tree_entry_names(tree).len() ==> nested_text(name) == tree_entry_names(tree)[i as int],
{
    tree.get(i).map(|entry| match entry.name() {
        Ok(text) => Some(text.to_string()),
        Err(_) => None,
    })
}

} // verus!
