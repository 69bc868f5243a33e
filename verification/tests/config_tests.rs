use merge_rs::Merge;
use merge_rs::config::Opts;
use merge_rs::config::PrefixOpts;
use merge_rs::config::add;
use merge_rs::config::max;

#[test]
fn test_add_and_max() {
    assert_eq!(add(&3, &9), 12);
    assert_eq!(max(&30_000, &90_000), 90_000);
    assert_eq!(max(&90_000, &15_000), 90_000);
}

#[test]
fn test_prefix_opts_merge_is_right_biased() {
    let left = PrefixOpts::new("env1".to_string(), "env2".to_string());
    let right = PrefixOpts::new("new-1".to_string(), "new-2".to_string());
    let merged = left.merge(&right).unwrap();
    assert_eq!(merged.v1, "new-1");
    assert_eq!(merged.v2, "new-2");
}

#[test]
fn test_opts_resolution_chain() {
    let env_opts = Opts::new(
        3,
        30_000,
        Some(PrefixOpts::new("env1".to_string(), "env2".to_string())),
    );

    let mut legacy_opts = Opts::new(
        9,
        90_000,
        Some(PrefixOpts::new("new-1".to_string(), "new-2".to_string())),
    );
    legacy_opts.replicas.sub_assign(6);

    let new_opts = Opts::new(5, 15_000, None);

    let resolved = env_opts.merge(&legacy_opts).unwrap().merge(&new_opts).unwrap();
    assert_eq!(*resolved.replicas.value(), 11);
    assert_eq!(*resolved.max_timeout.value(), 90_000);
    let prefixes = resolved.prefixes.expect("prefixes should be kept");
    assert_eq!(prefixes.v1, "new-1");
    assert_eq!(prefixes.v2, "new-2");
}

#[test]
fn test_opts_merge_keeps_present_prefixes() {
    let with_prefixes = Opts::new(
        1,
        10,
        Some(PrefixOpts::new("a".to_string(), "b".to_string())),
    );
    let without = Opts::new(2, 20, None);
    let merged = with_prefixes.merge(&without).unwrap();
    let prefixes = merged.prefixes.expect("prefixes should be kept");
    assert_eq!(prefixes.v1, "a");
    assert_eq!(prefixes.v2, "b");
    assert_eq!(*merged.replicas.value(), 3);
    assert_eq!(*merged.max_timeout.value(), 20);
}
