//! Directory names that belong to version control itself.

use vstd::prelude::*;

use crate::text;

verus! {

/// What tells one file from another on disk, whatever their names are.
#[derive(Clone, Copy, Debug, PartialEq, Eq, Structural)]
pub struct FileIdentity {
    pub device: u64,
    pub file: u64,
}

/// The names that are reserved in every directory.
pub open spec fn reserved_names() -> Seq<Seq<char>> {
    seq![".git"@, ".jj"@]
}

/// How many names are reserved.
pub const RESERVED_COUNT: usize = 2;

/// Reserved name number `i`, counted from 0.
pub fn reserved_name(i: usize) -> (r: &'static str)
    requires
        i < RESERVED_COUNT,
    ensures
        r@ == reserved_names()[i as int],
{
    if i == 0 {
        ".git"
    } else {
        ".jj"
    }
}

/// Whether a name is reserved.
pub fn is_reserved_name(name: &str) -> (r: bool)
    ensures
        r == reserved_names().contains(name@),
{
    let r = text::str_eq(name, ".git") || text::str_eq(name, ".jj");
    proof {
        assert(reserved_names()[0] == ".git"@);
        assert(reserved_names()[1] == ".jj"@);
    }
    r
}

/// The first of the reserved entries that is the given file, if any.
///
/// `reserved` tells for each reserved name which file in the same directory has
/// that name, if there is one. On a file system that folds names, a file may go
/// by more names than its own.
pub open spec fn reserved_match(
    identity: FileIdentity,
    reserved: Seq<Option<FileIdentity>>,
) -> Option<int>
    decreases reserved.len(),
{
    if reserved.len() == 0 {
        None
    } else if reserved_match(identity, reserved.drop_last()) is Some {
        reserved_match(identity, reserved.drop_last())
    } else if reserved.last() == Some(identity) {
        Some(reserved.len() - 1)
    } else {
        None
    }
}

/// Suppose a file exists, checks if it is ".git" or ".jj" in the same parent
/// directory. Returns the reserved name if it is.
pub fn reject_reserved_existing_file_identity(
    disk_identity: FileIdentity,
    reserved: &Vec<Option<FileIdentity>>,
) -> (r: Option<&'static str>)
    requires
        reserved@.len() == RESERVED_COUNT,
    ensures
        match r {
            Some(name) => {
                &&& reserved_match(disk_identity, reserved@) matches Some(i)
                &&& 0 <= i < RESERVED_COUNT
                &&& name@ == reserved_names()[i]
            },
            None => reserved_match(disk_identity, reserved@) is None,
        },
{
    let mut i: usize = 0;
    assert(reserved@.take(0) =~= Seq::empty());
    while i < RESERVED_COUNT
        invariant
            i <= RESERVED_COUNT == reserved@.len(),
            reserved_match(disk_identity, reserved@.take(i as int)) is None,
        decreases RESERVED_COUNT - i,
    {
        proof {
            assert(reserved@.take(i + 1).drop_last() =~= reserved@.take(i as int));
            assert(reserved@.take(i + 1).last() == reserved@[i as int]);
        }
        // If the file had that name, there would be an identity for it. Where there is
        // none, no such file exists.
        if let Some(reserved_identity) = reserved[i] {
            if disk_identity == reserved_identity {
                proof {
                    lemma_match_stays(disk_identity, reserved@, i + 1);
                }
                return Some(reserved_name(i));
            }
        }
        i += 1;
    }
    assert(reserved@.take(i as int) =~= reserved@);
    None
}

/// A match among the first entries is the match.
proof fn lemma_match_stays(identity: FileIdentity, reserved: Seq<Option<FileIdentity>>, n: int)
    requires
        0 <= n <= reserved.len(),
        reserved_match(identity, reserved.take(n)) is Some,
    ensures
        reserved_match(identity, reserved) == reserved_match(identity, reserved.take(n)),
    decreases reserved.len() - n,
{
    if n == reserved.len() {
        assert(reserved.take(n) =~= reserved);
    } else {
        assert(reserved.take(n + 1).drop_last() =~= reserved.take(n));
        lemma_match_stays(identity, reserved, n + 1);
    }
}

/// A file is rejected exactly if it is the file behind one of the reserved
/// names.
pub proof fn lemma_reserved_match(identity: FileIdentity, reserved: Seq<Option<FileIdentity>>)
    ensures
        reserved_match(identity, reserved) is Some <==> reserved.contains(Some(identity)),
    decreases reserved.len(),
{
    if reserved.len() > 0 {
        lemma_reserved_match(identity, reserved.drop_last());
        if reserved.contains(Some(identity)) {
            let i = choose|i: int| 0 <= i < reserved.len() && reserved[i] == Some(identity);
            if i < reserved.len() - 1 {
                assert(reserved.drop_last()[i] == Some(identity));
            }
        }
        if reserved.drop_last().contains(Some(identity)) {
            let i = choose|i: int|
                0 <= i < reserved.drop_last().len() && reserved.drop_last()[i] == Some(identity);
            assert(reserved[i] == Some(identity));
        }
        if reserved.last() == Some(identity) {
            assert(reserved[reserved.len() - 1] == Some(identity));
        }
    }
}

/// A file is rejected exactly if it is the one behind `.git` or `.jj` in its directory, and
/// the name is told.
pub proof fn lemma_reserved_files_rejected(
    identity: FileIdentity,
    reserved: Vec<Option<FileIdentity>>,
    r: Option<&'static str>,
)
    requires
        reserved@.len() == 2,
        call_ensures(reject_reserved_existing_file_identity, (identity, &reserved), r),
    ensures
        r is Some <==> reserved@[0] == Some(identity) || reserved@[1] == Some(identity),
        reserved@[0] == Some(identity) ==> r->0@ == ".git"@,
        reserved@[0] != Some(identity) && reserved@[1] == Some(identity) ==> r->0@ == ".jj"@,
{
    reveal_with_fuel(reserved_match, 3);
    assert(reserved@.drop_last()[0] == reserved@[0]);
    assert(reserved@.drop_last().drop_last().len() == 0);
}

/// The reserved names are `.git` and `.jj`.
pub proof fn lemma_names_reserved(name: &str, r: bool, i: usize, reserved: &'static str)
    requires
        i < 2,
        call_ensures(is_reserved_name, (name,), r),
        call_ensures(reserved_name, (i,), reserved),
    ensures
        r <==> name@ == ".git"@ || name@ == ".jj"@,
        reserved@ == if i == 0 {
            ".git"@
        } else {
            ".jj"@
        },
{
    assert(reserved_names()[0] == ".git"@ && reserved_names()[1] == ".jj"@);
}

} // verus!
