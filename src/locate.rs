//! Finding the repository that encloses a path.
//!
//! A repository is a directory holding a marker document named `index.toml`.
//! The search starts at the given path (or at its parent, when the path names
//! the marker document itself) and walks up through the ancestors, nearest
//! first, until a probe accepts one of them.
use vstd::prelude::*;
use vstd::string::StringSliceAdditionalSpecFns;

verus! {

/// What `std::path::Path::parent` gives for a path, as text.
pub uninterp spec fn parent_of(p: Seq<char>) -> Option<Seq<char>>;

/// Whether `std::path::Path::ends_with` finds `last` as a trailing run of
/// whole components of the path.
pub uninterp spec fn ends_with_component(p: Seq<char>, last: Seq<char>) -> bool;

/// What `std::path::Path::join` gives for a base path and a part, as text.
pub uninterp spec fn joined(base: Seq<char>, part: Seq<char>) -> Seq<char>;

/// The file name of the marker document at a repository root, and of the
/// descriptor document in a package directory.
pub const MARKER_FILE: &'static str = "index.toml";

/// The directory under a repository root that holds one directory per package.
pub const PACKAGES_DIR: &'static str = "packages";

/// Whether the path's final component is the marker document.
pub open spec fn names_marker(p: Seq<char>) -> bool {
    ends_with_component(p, MARKER_FILE@)
}

/// Whether the text parses as a TOML table.
pub uninterp spec fn parses_as_table(text: Seq<char>) -> bool;

/// The most bytes `[`, `{` or `.` that a marker document may hold. The TOML
/// parser recurses once for each nested array or inline table and once for
/// each segment of a dotted key or table header, without a limit of its own;
/// these bytes bound that depth from above.
pub const MAX_NESTING_MARKS: usize = 128;

/// Whether a byte opens an array or inline table or separates key segments.
pub open spec fn is_nesting_mark(b: u8) -> bool {
    b == 0x5b || b == 0x7b || b == 0x2e
}

/// How many bytes of `bytes` are `[`, `{` or `.`.
pub open spec fn nesting_marks(bytes: Seq<u8>) -> nat
    decreases bytes.len(),
{
    if bytes.len() == 0 {
        0
    } else {
        nesting_marks(bytes.drop_last()) + if is_nesting_mark(bytes.last()) {
            1nat
        } else {
            0nat
        }
    }
}

/// Relies on `std::path::Path::parent`: the path without its final component,
/// or `None` for a root or an empty path. What is removed is a whole
/// component, so the parent is shorter.
#[verifier::external_body]
fn parent_path(p: &str) -> (r: Option<String>)
    ensures
        r matches Some(q) ==> parent_of(p@) == Some(q@) && q@.len() < p@.len(),
        r is None <==> parent_of(p@) is None,
{
    std::path::Path::new(p).parent().and_then(std::path::Path::to_str).map(String::from)
}

/// Relies on `std::path::Path::ends_with`: whether `last` is the path's final
/// component.
#[verifier::external_body]
fn path_ends_with(p: &str, last: &str) -> (r: bool)
    ensures
        r == ends_with_component(p@, last@),
{
    std::path::Path::new(p).ends_with(last)
}

/// Relies on `std::path::Path::join`: `part` appended to `base` as a further
/// component.
#[verifier::external_body]
fn join_path(base: &str, part: &str) -> (r: String)
    ensures
        r@ == joined(base@, part@),
{
    std::path::Path::new(base).join(part).to_string_lossy().into_owned()
}

/// Relies on `toml::from_str` into a `toml::value::Table`: whether the text is
/// a well-formed TOML document. The parser's recursion is kept shallow by
/// bounding the bytes that nest.
#[verifier::external_body]
fn toml_table_parses(text: &str) -> (r: bool)
    requires
        nesting_marks(text.spec_bytes()) <= MAX_NESTING_MARKS,
    ensures
        r == parses_as_table(text@),
{
    toml::from_str::<toml::value::Table>(text).is_ok()
}

/// Why no repository was found.
#[derive(Debug)]
pub enum FindRepoError {
    /// Reading from the file system failed.
    Io(std::io::Error),
    /// No directory on the way up holds a readable marker document.
    NotFound,
}

/// Declares `std::io::Error`, carried opaquely by the error variants that
/// report a failed read or write.
#[verifier::external_type_specification]
#[verifier::external_body]
pub struct ExIoError(std::io::Error);

/// The directory the search starts from: the parent of the marker document
/// when the path names it, else the path itself.
pub open spec fn search_start(p: Seq<char>) -> Seq<char> {
    if names_marker(p) && parent_of(p) is Some {
        parent_of(p)->0
    } else {
        p
    }
}

/// The path followed by its ancestors, nearest first, ending at the first
/// path that has no parent.
pub open spec fn ancestors(p: Seq<char>) -> Seq<Seq<char>>
    decreases p.len(),
{
    match parent_of(p) {
        Some(q) => if q.len() < p.len() {
            seq![p] + ancestors(q)
        } else {
            seq![p]
        },
        None => seq![p],
    }
}

/// The directories that a search from `p` probes, in order.
pub open spec fn candidates(p: Seq<char>) -> Seq<Seq<char>> {
    ancestors(search_start(p))
}

/// Some call of `probe` on a path with the text `p` answered `answer`.
pub open spec fn probed<F: Fn(&str) -> bool>(probe: F, p: Seq<char>, answer: bool) -> bool {
    exists|s: &str| s@ == p && #[trigger] probe.ensures((s,), answer)
}

/// Counts the bytes `[`, `{` and `.` of `bytes`.
pub fn count_nesting_marks(bytes: &[u8]) -> (n: usize)
    ensures
        n == nesting_marks(bytes@),
{
    let mut n: usize = 0;
    let mut i: usize = 0;
    while i < bytes.len()
        invariant
            0 <= i <= bytes@.len(),
            n <= i,
            n == nesting_marks(bytes@.subrange(0, i as int)),
        decreases bytes@.len() - i,
    {
        let b = bytes[i];
        assert(bytes@.subrange(0, i + 1 as int).drop_last() =~= bytes@.subrange(0, i as int));
        if b == 0x5b || b == 0x7b || b == 0x2e {
            n = n + 1;
        }
        i = i + 1;
    }
    assert(bytes@.subrange(0, bytes@.len() as int) =~= bytes@);
    n
}

/// Whether a marker document's text makes its directory a repository root.
/// The check is that the text is a well-formed TOML document that nests no
/// deeper than [`MAX_NESTING_MARKS`] bounds; it stands in for reading the
/// text as a repository record, whose schema this library does not hold.
pub fn is_repo_document(text: &str) -> (r: bool)
    ensures
        r == (nesting_marks(text.spec_bytes()) <= MAX_NESTING_MARKS && parses_as_table(text@)),
{
    let marks = count_nesting_marks(text.as_bytes());
    if marks > MAX_NESTING_MARKS {
        false
    } else {
        toml_table_parses(text)
    }
}

/// Where the descriptor of package `id` lies under the repository `root`:
/// `<root>/packages/<id>/index.toml`.
pub fn descriptor_path(root: &str, id: &str) -> (r: String)
    ensures
        r@ == joined(joined(joined(root@, PACKAGES_DIR@), id@), MARKER_FILE@),
{
    let dir = join_path(root, PACKAGES_DIR);
    let pkg = join_path(dir.as_str(), id);
    join_path(pkg.as_str(), MARKER_FILE)
}

/// Walks up from `path` and returns the first candidate directory that
/// `is_repo` accepts, or `NotFound` when it rejects all of them.
pub fn find_repo<F: Fn(&str) -> bool>(path: &str, is_repo: F) -> (r: Result<String, FindRepoError>)
    requires
        forall|s: &str| is_repo.requires((s,)),
    ensures
        match r {
            Ok(root) => exists|k: int|
                0 <= k < candidates(path@).len() && candidates(path@)[k] == root@ && probed(
                    is_repo,
                    root@,
                    true,
                ) && forall|j: int| 0 <= j < k ==> probed(is_repo, candidates(path@)[j], false),
            Err(e) => e is NotFound && forall|j: int|
                0 <= j < candidates(path@).len() ==> probed(is_repo, candidates(path@)[j], false),
        },
{
    let mut cur: String = path.to_string();
    if path_ends_with(path, MARKER_FILE) {
        if let Some(q) = parent_path(path) {
            cur = q;
        }
    }
    let ghost cs = candidates(path@);
    let ghost mut k: int = 0;
    assert(cur@ == search_start(path@));
    loop
        invariant
            forall|s: &str| is_repo.requires((s,)),
            cs == candidates(path@),
            0 <= k < cs.len(),
            cur@ == cs[k],
            ancestors(cur@) == cs.subrange(k, cs.len() as int),
            forall|j: int| 0 <= j < k ==> probed(is_repo, cs[j], false),
        decreases cur@.len(),
    {
        let s = cur.as_str();
        let found = is_repo(s);
        if found {
            assert(probed(is_repo, cur@, true));
            return Ok(cur);
        }
        assert(probed(is_repo, cs[k], false));
        match parent_path(cur.as_str()) {
            Some(q) => {
                let ghost rest = ancestors(q@);
                assert(ancestors(cur@) == seq![cur@] + rest);
                assert(rest[0] == q@);
                assert(cs[k + 1] == cs.subrange(k, cs.len() as int)[1]);
                assert((seq![cur@] + rest).subrange(1, rest.len() + 1 as int) =~= rest);
                assert(cs.subrange(k, cs.len() as int).subrange(1, cs.len() - k) =~= cs.subrange(
                    k + 1,
                    cs.len() as int,
                ));
                proof {
                    k = k + 1;
                }
                cur = q;
            },
            None => {
                assert(ancestors(cur@) == seq![cur@]);
                return Err(FindRepoError::NotFound);
            },
        }
    }
}

} // verus!
