use faustprobe::train::{bound_text, check_lanes, resolve_path, Bound, BoundStats, Resolution};

#[test]
fn the_bounds_are_named() {
    assert_eq!(Bound::Lower.name(), "lower");
    assert_eq!(Bound::Upper.name(), "upper");
}

#[test]
fn a_control_never_held_has_no_note() {
    assert_eq!(bound_text(&BoundStats::default(), 10), None);
}

#[test]
fn the_note_says_which_bound_for_how_many_blocks() {
    let stats = BoundStats { on_lower: 3, on_upper: 0, ends_on: Some(Bound::Lower) };
    assert_eq!(
        bound_text(&stats, 10).unwrap(),
        "on its lower bound for 3 of 10 blocks, the last one included"
    );
    let stats = BoundStats { on_lower: 2, on_upper: 5, ends_on: Some(Bound::Upper) };
    assert_eq!(
        bound_text(&stats, 12).unwrap(),
        "on its lower bound for 2 of 12 blocks, not the last one; on its upper bound for 5 of 12 blocks, the last one included"
    );
    let stats = BoundStats { on_lower: 0, on_upper: 1, ends_on: None };
    assert_eq!(
        bound_text(&stats, 4).unwrap(),
        "on its upper bound for 1 of 4 blocks, not the last one"
    );
}

#[test]
fn lanes_that_do_not_fit_are_refused() {
    assert!(check_lanes(3, 0, 1, 2).is_ok());
    assert_eq!(
        check_lanes(3, 0, 1, 3).unwrap_err(),
        "the program has 3 outputs: the loss lane 0 and the gradient lanes 1..3 do not fit"
    );
    assert_eq!(
        check_lanes(2, 2, 0, 1).unwrap_err(),
        "the program has 2 outputs: the loss lane 2 and the gradient lanes 0..0 do not fit"
    );
}

#[test]
fn a_unique_control_gives_its_exact_path() {
    let found = Resolution::Unique("/synth/cutoff".to_owned());
    assert_eq!(resolve_path(&found, "cutoff"), Ok("/synth/cutoff".to_owned()));
}

#[test]
fn a_query_that_names_nothing_is_refused() {
    assert_eq!(
        resolve_path(&Resolution::NotFound, "q"),
        Err("no control matching `q`".to_owned())
    );
}

#[test]
fn an_ambiguous_query_lists_its_candidates() {
    let found = Resolution::Ambiguous(vec!["/a/gain".to_owned(), "/b/gain".to_owned()]);
    assert_eq!(
        resolve_path(&found, "gain"),
        Err("`gain` is ambiguous, matches: /a/gain, /b/gain".to_owned())
    );
}
