use faustprobe::factory::{canonicalize_cache_identity_argv, factory_status};

#[test]
fn factory_scaffold_status_is_stable() {
    assert_eq!(factory_status(), "cranelift-ffi factory runtime");
}

#[test]
fn cache_identity_canonicalizes_ss_value_only() {
    // `-ss 0` vs `-ss 1` decode to different strategies: distinct tokens.
    let depth_first = canonicalize_cache_identity_argv(&["-ss".to_owned(), "0".to_owned()]);
    let breadth_first = canonicalize_cache_identity_argv(&["-ss".to_owned(), "1".to_owned()]);
    assert_ne!(depth_first, breadth_first);

    // `-ss 3` and `-ss 42` both decode to `ReverseBreadthFirst`: identical
    // canonical token, even though the raw argv strings differ.
    let three = canonicalize_cache_identity_argv(&["-ss".to_owned(), "3".to_owned()]);
    let forty_two = canonicalize_cache_identity_argv(&["-ss".to_owned(), "42".to_owned()]);
    assert_eq!(three, forty_two);
    assert_eq!(three, vec!["-ss".to_owned(), "3".to_owned()]);

    // Every other token passes through unchanged.
    let mixed = canonicalize_cache_identity_argv(&[
        "-vec".to_owned(),
        "-ss".to_owned(),
        "42".to_owned(),
        "-vs".to_owned(),
        "64".to_owned(),
    ]);
    assert_eq!(
        mixed,
        vec![
            "-vec".to_owned(),
            "-ss".to_owned(),
            "3".to_owned(),
            "-vs".to_owned(),
            "64".to_owned(),
        ]
    );
}

#[test]
fn cache_identity_canonicalizes_all_mem0_aliases() {
    for spelling in ["-mem", "-mem0", "--memory-manager", "--memory-manager0"] {
        assert_eq!(
            canonicalize_cache_identity_argv(&[spelling.to_owned()]),
            vec!["-mem0".to_owned()],
            "{spelling}"
        );
    }
    assert_ne!(
        canonicalize_cache_identity_argv(&[]),
        canonicalize_cache_identity_argv(&["-mem0".to_owned()])
    );
    assert_eq!(
        canonicalize_cache_identity_argv(&["-mem".to_owned(), "--memory-manager0".to_owned(),]),
        vec!["-mem0".to_owned()]
    );
}

#[test]
fn a_canonical_identity_is_its_own_identity() {
    let argv: Vec<String> = ["-mem", "-ss", "42", "-vec", "--memory-manager", "-ss"]
        .iter()
        .map(|s| (*s).to_owned())
        .collect();
    let once = canonicalize_cache_identity_argv(&argv);
    assert_eq!(once, ["-mem0", "-ss", "3", "-vec", "-ss"]);
    assert_eq!(canonicalize_cache_identity_argv(&once), once);
}

#[test]
fn a_strategy_that_is_no_number_is_kept() {
    let argv: Vec<String> = ["-ss", "fast", "-ss", "2"].iter().map(|s| (*s).to_owned()).collect();
    assert_eq!(canonicalize_cache_identity_argv(&argv), ["-ss", "fast", "-ss", "2"]);
}
