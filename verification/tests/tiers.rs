//! What the tiers and the event loop agree on.

use katsu::aot::{embeds_interpreter, Certainty};
use katsu::event_loop::Phase;
use katsu::jit::Tier;

#[test]
fn an_annotation_is_never_proof() {
    assert_ne!(Certainty::Speculated, Certainty::Proven);
    assert!(embeds_interpreter());
}


 
#[test]
fn tiers_order_from_slowest_to_fastest() {
    assert!(Tier::Interpreter < Tier::Baseline);
    assert!(Tier::Baseline < Tier::Optimizing);
}


 
#[test]
fn the_phase_order_is_the_one_node_programs_can_observe() {
    let order = Phase::order();
    assert_eq!(order[0], Phase::Timers);
    assert_eq!(order[3], Phase::Poll);
    assert_eq!(order[4], Phase::Check);
    assert!(
        order.windows(2).all(|w| w[0] < w[1]),
        "phases must be totally ordered"
    );
}

#[test]
fn a_build_says_which_features_are_in_it() {
    for feature in [false, true] {
        assert_eq!(katsu::node::addons_enabled(feature), feature);
        assert_eq!(katsu::event_loop::uring_compiled_in(feature), feature);
        assert_eq!(katsu::api::jit_enabled(feature), feature);
        assert_eq!(katsu::builtins::intl_available(feature), feature);
        assert_eq!(katsu::jit::jit_available(feature), feature);
    }
}
