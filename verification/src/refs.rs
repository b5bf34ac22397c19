//! Which commits to check: the branch names, and the revision range handed to `git log`.

use vstd::prelude::*;
use vstd::utf8::{encode_utf8, is_char_boundary};
use crate::text::{chars_of, string_of, trim, trim_str};

verus! {

/// The prefix of a full branch reference, `refs/heads/`.
pub open spec fn heads_prefix() -> Seq<char> {
    seq!['r', 'e', 'f', 's', '/', 'h', 'e', 'a', 'd', 's', '/']
}

/// The bytes of `refs/heads/`.
pub open spec fn heads_prefix_bytes() -> Seq<u8> {
    seq![114u8, 101, 102, 115, 47, 104, 101, 97, 100, 115, 47]
}

/// Whether cutting the first 11 bytes off the two names is possible wherever
/// it is tried: only when both are longer than 11 bytes, first the local name
/// and then, if its cut-off bytes are `refs/heads/`, the remote name.
pub open spec fn head_refs_cuttable(local: Seq<char>, remote: Seq<char>) -> bool {
    let lb = encode_utf8(local);
    let rb = encode_utf8(remote);
    (lb.len() > 11 && rb.len() > 11) ==> {
        &&& is_char_boundary(lb, 11)
        &&& lb.take(11) == heads_prefix_bytes() ==> is_char_boundary(rb, 11)
    }
}

/// Whether the first 11 bytes of `b` are those of `refs/heads/`.
fn starts_with_heads_prefix_bytes(b: &[u8]) -> (r: bool)
    requires
        b@.len() >= 11,
    ensures
        r == (b@.take(11) == heads_prefix_bytes()),
{
    let p: [u8; 11] = [114u8, 101, 102, 115, 47, 104, 101, 97, 100, 115, 47];
    assert(p@ == heads_prefix_bytes());
    let mut k: usize = 0;
    while k < 11
        invariant
            k <= 11 <= b@.len(),
            p@ == heads_prefix_bytes(),
            forall|m: int| 0 <= m < k ==> b@[m] == p@[m],
        decreases 11 - k,
    {
        if b[k] != p[k] {
            assert(b@.take(11)[k as int] != heads_prefix_bytes()[k as int]);
            return false;
        }
        k = k + 1;
    }
    assert(b@.take(11) == heads_prefix_bytes());
    true
}

/// Whether `short_branches` may be asked to cut these two names.
pub fn head_refs_cuttable_exec(local: &str, remote: &str) -> (r: bool)
    ensures
        r == head_refs_cuttable(local@, remote@),
{
    let lb = local.as_bytes();
    let rb = remote.as_bytes();
    if lb.len() <= 11 || rb.len() <= 11 {
        return true;
    }
    if !local.is_char_boundary(11) {
        return false;
    }
    if starts_with_heads_prefix_bytes(lb) {
        remote.is_char_boundary(11)
    } else {
        true
    }
}

/// Whether both names are full branch references with something after `refs/heads/`.
pub open spec fn both_full_refs(local: Seq<char>, remote: Seq<char>) -> bool {
    &&& local.len() > 11 && remote.len() > 11
    &&& local.take(11) == heads_prefix() && remote.take(11) == heads_prefix()
}

/// The branch names given by a pre-push hook: when both are full references
/// (`refs/heads/<name>`), the short names; otherwise the names as they are.
pub open spec fn short_branch_names(local: Seq<char>, remote: Seq<char>) -> (Seq<char>, Seq<char>) {
    if both_full_refs(local, remote) {
        (local.skip(11), remote.skip(11))
    } else {
        (local, remote)
    }
}

/// Whether the characters `v` begin with `refs/heads/`.
fn starts_with_heads_prefix(v: &Vec<char>) -> (b: bool)
    ensures
        b == (v@.len() >= 11 && v@.take(11) == heads_prefix()),
{
    let p = chars_of("refs/heads/");
    proof {
        reveal_strlit("refs/heads/");
        assert(p@ == heads_prefix());
    }
    if v.len() < 11 {
        return false;
    }
    let mut k: usize = 0;
    while k < 11
        invariant
            k <= 11 <= v.len(),
            p@ == heads_prefix(),
            forall|m: int| 0 <= m < k ==> v@[m] == p@[m],
        decreases 11 - k,
    {
        if v[k] != p[k] {
            assert(v@.take(11)[k as int] != heads_prefix()[k as int]);
            return false;
        }
        k = k + 1;
    }
    assert(v@.take(11) == heads_prefix());
    true
}

/// The characters of `v` from position 11 on.
fn skip_eleven(v: &Vec<char>) -> (r: String)
    requires
        v@.len() >= 11,
    ensures
        r@ == v@.skip(11),
{
    let mut w: Vec<char> = Vec::new();
    let mut i: usize = 11;
    while i < v.len()
        invariant
            11 <= i <= v.len(),
            w@ == v@.subrange(11, i as int),
        decreases v.len() - i,
    {
        w.push(v[i]);
        assert(v@.subrange(11, i + 1) == v@.subrange(11, i as int).push(v@[i as int]));
        i = i + 1;
    }
    assert(v@.subrange(11, v.len() as int) == v@.skip(11));
    string_of(&w)
}

/// The branch names that a pre-push hook hands over (`refs/heads/master` and
/// the like), cut to their short names when both are full references.
pub fn short_branches(local: &str, remote: &str) -> (r: (String, String))
    requires
        head_refs_cuttable(local@, remote@),
    ensures
        (r.0@, r.1@) == short_branch_names(local@, remote@),
{
    let l = chars_of(local);
    let m = chars_of(remote);
    if l.len() > 11 && m.len() > 11 && starts_with_heads_prefix(&l) && starts_with_heads_prefix(
        &m,
    ) {
        (skip_eleven(&l), skip_eleven(&m))
    } else {
        (string_of(&l), string_of(&m))
    }
}

/// The branch names when the hook did not give both: the local name without
/// surrounding white space, and the remote name, which defaults to the local one.
pub open spec fn default_branch_names(local: Seq<char>, remote: Option<Seq<char>>) -> (
    Seq<char>,
    Seq<char>,
) {
    let l = trim(local);
    match remote {
        Some(r) => (l, r),
        None => (l, l),
    }
}

/// The local branch (the name given, or the current branch) without
/// surrounding white space, and the remote branch, the same unless given.
pub fn default_branches(local: &str, remote: Option<&str>) -> (r: (String, String))
    ensures
        (r.0@, r.1@) == default_branch_names(local@, match remote {
            Some(s) => Some(s@),
            None => None,
        }),
{
    let l = trim_str(local);
    match remote {
        Some(s) => (l, s.to_owned()),
        None => {
            let c = l.clone();
            (l, c)
        },
    }
}

/// The range of commits on `local` that `remote_repo`'s `remote` branch lacks:
/// `<remote_repo>/<remote>..<local>`.
pub open spec fn log_range(remote_repo: Seq<char>, remote: Seq<char>, local: Seq<char>) -> Seq<char> {
    remote_repo + seq!['/'] + remote + seq!['.', '.'] + local
}

/// The revision range handed to `git log` for a remote branch and a local branch.
pub fn log_range_arg(remote_repo: &str, remote: &str, local: &str) -> (r: String)
    ensures
        r@ == log_range(remote_repo@, remote@, local@),
{
    let mut s = remote_repo.to_owned();
    s.append("/");
    s.append(remote);
    s.append("..");
    s.append(local);
    proof {
        reveal_strlit("/");
        reveal_strlit("..");
        assert("/"@ == seq!['/']);
        assert(".."@ == seq!['.', '.']);
    }
    s
}


/// When both names are full references, each short name is exactly what
/// follows `refs/heads/` in it (slashes inside the branch name included);
/// otherwise both names are kept as they are.
pub proof fn lemma_short_names_follow_prefix(local: Seq<char>, remote: Seq<char>)
    ensures
        ({
            let p = seq!['r', 'e', 'f', 's', '/', 'h', 'e', 'a', 'd', 's', '/'];
            let (l2, r2) = short_branch_names(local, remote);
            &&& (local.len() > 11 && remote.len() > 11 && local.take(11) == p && remote.take(11)
                == p) ==> p + l2 == local && p + r2 == remote && l2.len() > 0 && r2.len() > 0
            &&& !(local.len() > 11 && remote.len() > 11 && local.take(11) == p && remote.take(11)
                == p) ==> l2 == local && r2 == remote
        }),
{
    let p = seq!['r', 'e', 'f', 's', '/', 'h', 'e', 'a', 'd', 's', '/'];
    assert(heads_prefix() == p);
    if local.len() > 11 && remote.len() > 11 && local.take(11) == p && remote.take(11) == p {
        assert(p + local.skip(11) == local) by {
            assert(local.take(11) + local.skip(11) == local);
        }
        assert(p + remote.skip(11) == remote) by {
            assert(remote.take(11) + remote.skip(11) == remote);
        }
    }
}

} // verus!
