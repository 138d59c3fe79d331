use faustprobe::freqresp::{shift_for, Property};

#[test]
fn the_shift_fits_the_window() {
    assert_eq!(shift_for(15000), 37);
    assert_eq!(shift_for(100), 25);
    assert_eq!(shift_for(3), 1);
}

#[test]
fn a_window_of_nothing_still_shifts_by_one_frame() {
    assert_eq!(shift_for(0), 1);
    assert_eq!(shift_for(148), 37);
    assert_eq!(shift_for(147), 36);
    assert_eq!(shift_for(usize::MAX), 37);
}

#[test]
fn the_properties_are_checked_in_order_and_named() {
    let names: Vec<&str> = Property::ALL.iter().map(|p| p.name()).collect();
    assert_eq!(names, ["homogeneity", "time_invariance", "superposition"]);
}

#[test]
fn a_violation_names_the_frames_of_its_impulses() {
    assert_eq!(
        Property::TimeInvariance.violation(10, 37),
        "time invariance: the response to an impulse at frame 47 is not the response to an impulse at frame 10, 37 frames later"
    );
    assert_eq!(
        Property::Superposition.violation(0, 5),
        "superposition: the response to impulses of 1 at frame 0 and 0.5 at frame 1 is not the sum of their responses"
    );
    assert_eq!(
        Property::Homogeneity.violation(3, 4),
        "homogeneity: the response to an impulse of -0.5 is not -0.5 times the response to an impulse of 1"
    );
}

#[test]
fn each_violation_has_its_usual_cause() {
    assert!(Property::Homogeneity.usual_cause().contains("saturation"));
    assert!(Property::TimeInvariance.usual_cause().contains("LFO"));
    assert!(Property::Superposition.usual_cause().contains("median"));
}
