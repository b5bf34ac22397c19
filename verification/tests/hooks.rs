use inspect_commits::hook::{
    is_hook_in_place, plan_set_global_hook, should_unset_global_hook, SetHookPlan,
};

const HOOKS: &str = "/usr/local/lib/inspect-commits/hooks";

#[test]
fn set_installs_when_nothing_is_set() {
    assert_eq!(plan_set_global_hook(HOOKS, ""), SetHookPlan::Install { overwrites: false });
}

#[test]
fn set_overwrites_another_hook_directory() {
    assert_eq!(
        plan_set_global_hook(HOOKS, "/home/me/.husky\n"),
        SetHookPlan::Install { overwrites: true }
    );
}

#[test]
fn set_skips_when_already_set() {
    let printed = format!("{}\n", HOOKS);
    assert_eq!(plan_set_global_hook(HOOKS, &printed), SetHookPlan::AlreadySet);
}

#[test]
fn unset_clears_any_hook_directory() {
    let printed = format!("{}\n", HOOKS);
    assert!(should_unset_global_hook(&printed));
    assert!(should_unset_global_hook("/other/hooks\n"));
    assert!(!should_unset_global_hook(""));
}

#[test]
fn white_space_only_setting_is_not_our_hook() {
    assert!(!is_hook_in_place(HOOKS, "  \n"));
    assert!(is_hook_in_place("", " \n"));
}

#[test]
fn set_skips_only_where_unset_clears() {
    for configured in ["", "\n", "/x\n", HOOKS, " /usr/local/lib/inspect-commits/hooks "] {
        let skips = plan_set_global_hook(HOOKS, configured) == SetHookPlan::AlreadySet;
        assert!(!skips || should_unset_global_hook(configured));
    }
}
