//! Whether the global git hook setting needs to change.

use vstd::prelude::*;
use crate::text::{trim, trim_end, trim_start, is_white_space, chars_of, trim_chars};

verus! {

/// Whether the global `core.hooksPath`, as git prints it (`configured`),
/// already names `hook_dir`.
pub open spec fn hook_in_place(hook_dir: Seq<char>, configured: Seq<char>) -> bool {
    configured.len() > 0 && hook_dir == trim(configured)
}

/// What setting the global hook comes to.
#[derive(Debug, PartialEq, Eq)]
pub enum SetHookPlan {
    /// The hook directory is set already: nothing to write.
    AlreadySet,
    /// Write the hook directory; `overwrites` tells whether another setting is replaced.
    Install { overwrites: bool },
}

/// Whether the characters of `a` and `b` are the same.
fn same_chars(a: &Vec<char>, b: &Vec<char>) -> (r: bool)
    ensures
        r == (a@ == b@),
{
    if a.len() != b.len() {
        return false;
    }
    let mut i: usize = 0;
    while i < a.len()
        invariant
            a.len() == b.len(),
            i <= a.len(),
            forall|k: int| 0 <= k < i ==> a@[k] == b@[k],
        decreases a.len() - i,
    {
        if a[i] != b[i] {
            return false;
        }
        i = i + 1;
    }
    assert(a@ == b@);
    true
}

/// Whether the hook directory `hook_dir` is what git prints as the global
/// `core.hooksPath` (`configured`, white space around it aside).
pub fn is_hook_in_place(hook_dir: &str, configured: &str) -> (r: bool)
    ensures
        r == hook_in_place(hook_dir@, configured@),
{
    if configured.is_empty() {
        return false;
    }
    let h = chars_of(hook_dir);
    let c = chars_of(configured);
    let t = trim_chars(&c);
    same_chars(&h, &t)
}

/// What `set-global-hook` comes to: nothing to write when a setting is
/// there and, trimmed, names the hook directory; otherwise a write, which
/// replaces another setting when one is there.
pub open spec fn set_plan(hook_dir: Seq<char>, previous: Seq<char>) -> SetHookPlan {
    if previous.len() > 0 && hook_dir == trim(previous) {
        SetHookPlan::AlreadySet
    } else {
        SetHookPlan::Install { overwrites: previous.len() > 0 }
    }
}

/// Whether `unset-global-hook` removes the setting, as
/// `git config --global --unset core.hooksPath` does: whenever one is set,
/// whatever it names.
pub open spec fn unset_clears(current: Seq<char>) -> bool {
    current.len() > 0
}

/// What `set-global-hook` does, given the hook directory and the current
/// global `core.hooksPath` as git prints it (empty when unset).
pub fn plan_set_global_hook(hook_dir: &str, previous: &str) -> (r: SetHookPlan)
    ensures
        r == set_plan(hook_dir@, previous@),
{
    if is_hook_in_place(hook_dir, previous) {
        SetHookPlan::AlreadySet
    } else {
        SetHookPlan::Install { overwrites: !previous.is_empty() }
    }
}

/// Whether `unset-global-hook` removes the global `core.hooksPath`, given
/// what git prints for it (empty when unset): whenever one is set.
pub fn should_unset_global_hook(current: &str) -> (r: bool)
    ensures
        r == unset_clears(current@),
{
    !current.is_empty()
}

/// When `set-global-hook` finds nothing to write, the setting is there, so
/// `unset-global-hook` removes it; and after `unset-global-hook`, with no
/// setting left, `set-global-hook` writes the hook directory and replaces nothing.
pub proof fn lemma_set_and_unset_agree(hook_dir: Seq<char>, configured: Seq<char>)
    ensures
        set_plan(hook_dir, configured) == SetHookPlan::AlreadySet ==> unset_clears(configured),
        set_plan(hook_dir, Seq::<char>::empty()) == (SetHookPlan::Install { overwrites: false }),
{
}

/// Text that starts and ends with a character other than white space is its
/// own trimmed form, with white space appended or not.
proof fn lemma_trim_with_trailing_space(s: Seq<char>, tail: Seq<char>)
    requires
        s.len() > 0,
        !is_white_space(s[0]),
        !is_white_space(s.last()),
        forall|i: int| 0 <= i < tail.len() ==> is_white_space(#[trigger] tail[i]),
    ensures
        trim(s + tail) == s,
    decreases tail.len(),
{
    assert((s + tail)[0] == s[0]);
    assert(trim_start(s + tail) == s + tail);
    if tail.len() == 0 {
        assert(s + tail == s);
        assert(trim_end(s) == s);
    } else {
        let t2 = tail.drop_last();
        assert((s + tail).drop_last() == s + t2);
        assert((s + tail).last() == tail.last());
        lemma_trim_with_trailing_space(s, t2);
        assert(trim_start(s + t2) == s + t2) by {
            assert((s + t2)[0] == s[0]);
        }
    }
}

/// Once git holds the hook directory, what it prints back (the directory and
/// a line end) counts as the hook being in place, for any directory name that
/// starts and ends with a character other than white space.
pub proof fn lemma_written_hook_is_in_place(hook_dir: Seq<char>)
    requires
        hook_dir.len() > 0,
        !is_white_space(hook_dir[0]),
        !is_white_space(hook_dir.last()),
    ensures
        hook_in_place(hook_dir, hook_dir + seq!['\n']),
        set_plan(hook_dir, hook_dir + seq!['\n']) == SetHookPlan::AlreadySet,
        unset_clears(hook_dir + seq!['\n']),
{
    assert(is_white_space(seq!['\n'][0]));
    lemma_trim_with_trailing_space(hook_dir, seq!['\n']);
}


/// `set-global-hook` writes nothing only when a setting is there and, with
/// the white space around it taken away, is the hook directory as a whole;
/// whenever the trimmed setting differs from the hook directory it writes,
/// replacing the setting if there is one.
pub proof fn lemma_set_plan_compares_whole_directory(hook_dir: Seq<char>, previous: Seq<char>)
    ensures
        set_plan(hook_dir, previous) == SetHookPlan::AlreadySet ==> previous.len() > 0
            && hook_dir == trim(previous),
        previous.len() > 0 && hook_dir == trim(previous) ==> set_plan(hook_dir, previous)
            == SetHookPlan::AlreadySet,
        hook_dir != trim(previous) ==> set_plan(hook_dir, previous) == (SetHookPlan::Install {
            overwrites: previous.len() > 0,
        }),
        hook_in_place(hook_dir, previous) <==> previous.len() > 0 && hook_dir == trim(previous),
        unset_clears(previous) <==> previous.len() > 0,
{
}

} // verus!
