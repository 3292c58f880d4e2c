//! Path confinement and metadata-file locations. `confine` is the sole gate
//! between filesystem paths and store identities: an identity is always the
//! root-relative form of an already-canonicalized absolute path. The store
//! itself treats identities as opaque unique strings.
use vstd::prelude::*;

use crate::errors::Error;

verus! {

/// The root-relative identity of `path` under `root`, if `path` lies under
/// `root`: both are expected in canonical absolute form. `Some(empty)` means
/// the path is the root itself.
pub open spec fn confined(path: Seq<char>, root: Seq<char>) -> Option<Seq<char>> {
    if root.len() > 0 && root.last() == '/' {
        if path.len() >= root.len() && path.subrange(0, root.len() as int) == root {
            Some(path.skip(root.len() as int))
        } else {
            None
        }
    } else {
        if path == root {
            Some(Seq::<char>::empty())
        } else if path.len() > root.len() && path.subrange(0, root.len() as int) == root && path[
            root.len() as int
        ] == '/' {
            Some(path.skip(root.len() as int + 1))
        } else {
            None
        }
    }
}

/// The root-relative identity of an already-canonicalized absolute path.
/// `OutsideRoot` exactly when the path does not lie under the root, and
/// `InvalidIdentity` exactly when it is the root itself, which names no
/// note. Canonicalization (and the check that the file exists) is the
/// caller's part: this function never touches the filesystem.
pub fn confine(path: &str, root: &str) -> (r: Result<String, Error>)
    ensures
        r is Ok <==> (confined(path@, root@) matches Some(rel) && rel.len() > 0),
        r matches Ok(s) ==> confined(path@, root@) == Some(s@),
        r matches Err(e) ==> (e is InvalidIdentity <==> confined(path@, root@) == Some(
            Seq::<char>::empty(),
        )),
        r matches Err(e) ==> (e is OutsideRoot <==> confined(path@, root@) is None),
        r matches Err(Error::OutsideRoot { path: p, root: rt }) ==> p@ == path@ && rt@ == root@,
        r matches Err(Error::InvalidIdentity { path: p }) ==> p@ == path@,
{
    let pn = path.unicode_len();
    let rn = root.unicode_len();
    if rn > 0 && root.get_char(rn - 1) == '/' {
        if pn >= rn && crate::codec::str_eq(path.substring_char(0, rn), root) {
            if pn == rn {
                proof {
                    assert(path@.skip(rn as int) =~= Seq::<char>::empty());
                }
                return Err(Error::InvalidIdentity { path: String::from_str(path) });
            }
            let rel = path.substring_char(rn, pn);
            proof {
                assert(rel@ =~= path@.skip(rn as int));
            }
            Ok(String::from_str(rel))
        } else {
            Err(
                Error::OutsideRoot {
                    path: String::from_str(path),
                    root: String::from_str(root),
                },
            )
        }
    } else {
        if pn == rn && crate::codec::str_eq(path, root) {
            return Err(Error::InvalidIdentity { path: String::from_str(path) });
        }
        if pn > rn && crate::codec::str_eq(path.substring_char(0, rn), root) && path.get_char(rn)
            == '/' {
            if pn == rn + 1 {
                proof {
                    assert(path@.skip(rn as int + 1) =~= Seq::<char>::empty());
                }
                return Err(Error::InvalidIdentity { path: String::from_str(path) });
            }
            let rel = path.substring_char(rn + 1, pn);
            proof {
                assert(rel@ =~= path@.skip(rn as int + 1));
                assert(rel@.len() > 0);
            }
            Ok(String::from_str(rel))
        } else {
            proof {
                if pn == rn {
                    assert(path@ != root@);
                }
            }
            Err(
                Error::OutsideRoot {
                    path: String::from_str(path),
                    root: String::from_str(root),
                },
            )
        }
    }
}

/// Where the extension of the final path component begins, scanning from
/// `i` leftwards: the position of the last dot of the final component,
/// unless that dot begins the component; `p.len()` when there is no
/// extension to replace.
pub open spec fn stem_scan(p: Seq<char>, i: int) -> int
    decreases i,
{
    if i <= 0 {
        p.len() as int
    } else if p[i - 1] == '/' {
        p.len() as int
    } else if p[i - 1] == '.' {
        if i - 1 == 0 || p[i - 2] == '/' {
            p.len() as int
        } else {
            i - 1
        }
    } else {
        stem_scan(p, i - 1)
    }
}

/// The path with its extension replaced by (or, lacking one, extended with)
/// `.metadata`.
pub open spec fn with_metadata_ext(p: Seq<char>) -> Seq<char> {
    p.subrange(0, stem_scan(p, p.len() as int)) + ".metadata"@
}

/// Root and identity joined with a single separator.
pub open spec fn joined(root: Seq<char>, path: Seq<char>) -> Seq<char> {
    root + "/"@ + path
}

/// Where the metadata file of the note with this identity lives: the
/// identity mirrored under the database root, its extension replaced by
/// `.metadata`.
pub open spec fn metadata_path_chars(path: Seq<char>, database_root: Seq<char>) -> Seq<char> {
    with_metadata_ext(joined(database_root, path))
}

/// The metadata-file path of the note identity `path` under
/// `database_root` (given without a trailing slash).
pub fn get_metadata_path_from_path(path: &str, database_root: &str) -> (r: String)
    ensures
        r@ == metadata_path_chars(path@, database_root@),
{
    let mut joined_s = String::from_str(database_root);
    joined_s.append("/");
    joined_s.append(path);
    proof {
        reveal_strlit("/");
        assert(joined_s@ =~= joined(database_root@, path@));
    }
    let n = joined_s.as_str().unicode_len();
    let mut i = n;
    let mut stem = n;
    let mut found = false;
    while i > 0 && !found
        invariant
            i <= n == joined_s@.len(),
            !found ==> stem_scan(joined_s@, n as int) == stem_scan(joined_s@, i as int),
            !found ==> stem == n,
            found ==> stem == stem_scan(joined_s@, n as int),
            found ==> stem <= n,
        decreases i + (if found { 0int } else { 1int }),
    {
        let c = joined_s.as_str().get_char(i - 1);
        if c == '/' {
            stem = n;
            found = true;
        } else if c == '.' {
            if i - 1 == 0 {
                stem = n;
            } else if joined_s.as_str().get_char(i - 2) == '/' {
                stem = n;
            } else {
                stem = i - 1;
            }
            found = true;
        } else {
            i -= 1;
        }
    }
    proof {
        if !found {
            assert(stem_scan(joined_s@, 0) == joined_s@.len());
        }
        assert(stem == stem_scan(joined_s@, n as int));
    }
    let head = joined_s.as_str().substring_char(0, stem);
    let mut out = String::from_str(head);
    out.append(".metadata");
    proof {
        assert(out@ =~= with_metadata_ext(joined_s@));
    }
    out
}

/// The metadata-file path of this note under `database_root`.
pub fn get_metadata_path_from_note(note: &crate::Note, database_root: &str) -> (r: String)
    ensures
        r@ == metadata_path_chars(note@.relative_path, database_root@),
{
    get_metadata_path_from_path(note.relative_path.as_str(), database_root)
}

} // verus!
