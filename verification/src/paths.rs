use vstd::prelude::*;
use vstd::string::StrSliceExecFns;
use vstd::string::StringExecFns;
use crate::strs::is_prefix;
use crate::strs::str_eq;
use crate::strs::str_starts_with;

verus! {

pub open spec fn ftt_dir_spec(path: Seq<char>) -> Seq<char> {
    path + "/.ftt"@
}

pub open spec fn snapshot_dir_spec(path: Seq<char>) -> Seq<char> {
    ftt_dir_spec(path) + "/snapshots"@
}

pub open spec fn index_path_spec(path: Seq<char>) -> Seq<char> {
    ftt_dir_spec(path) + "/index.json"@
}

pub open spec fn tags_path_spec(path: Seq<char>) -> Seq<char> {
    ftt_dir_spec(path) + "/tags.json"@
}

pub open spec fn blobs_dir_spec(path: Seq<char>) -> Seq<char> {
    ftt_dir_spec(path) + "/blobs"@
}

pub open spec fn blob_path_spec(path: Seq<char>, hash: Seq<char>) -> Seq<char> {
    blobs_dir_spec(path) + "/"@ + hash
}

/// The metadata directory nested in a tracked root.
pub fn ftt_dir(path: &str) -> (r: String)
    ensures
        r@ == ftt_dir_spec(path@),
{
    path.to_owned().concat("/.ftt")
}

/// The directory of per-snapshot descriptor objects.
pub fn snapshot_dir(path: &str) -> (r: String)
    ensures
        r@ == snapshot_dir_spec(path@),
{
    ftt_dir(path).concat("/snapshots")
}

/// The whole-index object of a tracked root.
pub fn index_path(path: &str) -> (r: String)
    ensures
        r@ == index_path_spec(path@),
{
    ftt_dir(path).concat("/index.json")
}

/// The tag-registry object of a tracked root.
pub fn tags_path(path: &str) -> (r: String)
    ensures
        r@ == tags_path_spec(path@),
{
    ftt_dir(path).concat("/tags.json")
}

/// The blob area of a tracked root.
pub fn blobs_dir(path: &str) -> (r: String)
    ensures
        r@ == blobs_dir_spec(path@),
{
    ftt_dir(path).concat("/blobs")
}

/// Where the blob for a fingerprint is stored.
pub fn blob_path(base: &str, hash: &str) -> (r: String)
    ensures
        r@ == blob_path_spec(base@, hash@),
{
    blobs_dir(base).concat("/").concat(hash)
}

/// The path of an entry under `base`, relative to `base`.
pub fn relative_path(base: &str, path: &str) -> (r: String)
    requires
        is_prefix(path@, base@),
        path@.len() > base@.len(),
        path@[base@.len() as int] == '/',
    ensures
        r@ == path@.skip(base@.len() as int + 1),
{
    let b = base.unicode_len();
    let p = path.unicode_len();
    let r = path.substring_char(b + 1, p).to_owned();
    proof {
        assert(path@.subrange(base@.len() as int + 1, path@.len() as int) =~= path@.skip(
            base@.len() as int + 1,
        ));
    }
    r
}

/// The parent directory of a relative path: everything before the final
/// separator, or the empty path when the path has no separator.
pub open spec fn parent_of(p: Seq<char>) -> Seq<char>
    decreases p.len(),
{
    if p.len() == 0 {
        Seq::<char>::empty()
    } else if p.last() == '/' {
        p.drop_last()
    } else {
        parent_of(p.drop_last())
    }
}

/// The parent directory of a relative path (see `parent_of`).
pub fn parent_dir(p: &str) -> (r: String)
    ensures
        r@ == parent_of(p@),
{
    let len = p.unicode_len();
    let mut i: usize = len;
    proof {
        assert(p@.subrange(0, p@.len() as int) =~= p@);
    }
    while i > 0
        invariant
            i <= len,
            len == p@.len(),
            parent_of(p@) == parent_of(p@.subrange(0, i as int)),
        decreases i,
    {
        if p.get_char(i - 1) == '/' {
            let r = p.substring_char(0, i - 1).to_owned();
            proof {
                let cur = p@.subrange(0, i as int);
                assert(cur.last() == p@[i - 1]);
                assert(cur.drop_last() =~= p@.subrange(0, i - 1));
            }
            return r;
        }
        proof {
            let cur = p@.subrange(0, i as int);
            assert(cur.last() == p@[i - 1]);
            assert(cur.drop_last() =~= p@.subrange(0, i - 1));
        }
        i -= 1;
    }
    proof {
        assert(p@.subrange(0, 0) =~= Seq::<char>::empty());
    }
    String::new()
}

/// `d` is a directory that the existence of file path `p` implies: the
/// empty path (the root itself) or a proper prefix of `p` that ends at a
/// separator.
pub open spec fn dir_implied_by(d: Seq<char>, p: Seq<char>) -> bool {
    d.len() == 0 || (d.len() < p.len() && p[d.len() as int] == '/' && p.subrange(
        0,
        d.len() as int,
    ) == d)
}

/// Whether `d` is implied as an ancestor directory of file path `p`.
pub fn is_dir_implied(d: &str, p: &str) -> (r: bool)
    ensures
        r == dir_implied_by(d@, p@),
{
    let dlen = d.unicode_len();
    let plen = p.unicode_len();
    if dlen == 0 {
        return true;
    }
    if dlen < plen && p.get_char(dlen) == '/' && str_starts_with(p, d) {
        proof {
            assert(p@.subrange(0, d@.len() as int) == d@);
        }
        true
    } else {
        proof {
            if dir_implied_by(d@, p@) {
                assert(is_prefix(p@, d@));
            }
        }
        false
    }
}

/// `anc` is `p` itself or a directory implied as one of its ancestors.
pub open spec fn ancestor_or_self(anc: Seq<char>, p: Seq<char>) -> bool {
    anc == p || dir_implied_by(anc, p)
}

/// Whether `start` lies inside a tree that is already tracked.  The caller
/// supplies, from its own walk of the disk, the directories that contain a
/// metadata directory entry; this function decides whether any of them is
/// `start` itself or one of its ancestors.
pub fn is_inside_ftt_dir(start: &str, dirs_with_ftt: &Vec<String>) -> (r: bool)
    ensures
        r == exists|i: int|
            0 <= i < dirs_with_ftt@.len() && ancestor_or_self(dirs_with_ftt@[i]@, start@),
{
    let n = dirs_with_ftt.len();
    let mut i: usize = 0;
    while i < n
        invariant
            n == dirs_with_ftt@.len(),
            i <= n,
            forall|j: int| 0 <= j < i ==> !ancestor_or_self(dirs_with_ftt@[j]@, start@),
        decreases n - i,
    {
        let d = &dirs_with_ftt[i];
        if str_eq(d.as_str(), start) || is_dir_implied(d.as_str(), start) {
            return true;
        }
        i += 1;
    }
    false
}

} // verus!
