//! Component-level behavior of the collapse pass.

use pathnorm::collapse::collapse;
use pathnorm::component::PathComponent;

fn seg(name: &str) -> PathComponent {
    PathComponent::Segment(name.to_string())
}

fn root() -> PathComponent {
    PathComponent::Root("/".to_string())
}

fn prefix(text: &str) -> PathComponent {
    PathComponent::Prefix(text.to_string())
}

#[test]
fn absolute_mixed_markers() {
    let input = vec![
        root(),
        seg("a"),
        PathComponent::Current,
        seg("b"),
        PathComponent::Parent,
        seg("c"),
    ];
    assert_eq!(collapse(&input, true), vec![root(), seg("a"), seg("c")]);
}

#[test]
fn relative_parent_cancels_then_pends() {
    let input = vec![seg("a"), PathComponent::Parent, PathComponent::Parent, seg("b")];
    assert_eq!(collapse(&input, false), vec![PathComponent::Parent, seg("b")]);
}

#[test]
fn relative_leading_parents_kept() {
    let input = vec![PathComponent::Parent, PathComponent::Parent, seg("b")];
    assert_eq!(collapse(&input, false), input);
}

#[test]
fn absolute_parent_above_root_discarded() {
    let input = vec![root(), PathComponent::Parent, seg("a")];
    assert_eq!(collapse(&input, true), vec![root(), seg("a")]);
}

#[test]
fn prefixed_parent_above_anchor_discarded() {
    let input = vec![prefix("C:"), root(), PathComponent::Parent, seg("a")];
    assert_eq!(collapse(&input, true), vec![prefix("C:"), root(), seg("a")]);
}

#[test]
fn relative_parent_after_prefix_pends() {
    let input = vec![prefix("C:"), PathComponent::Parent];
    assert_eq!(collapse(&input, false), vec![prefix("C:"), PathComponent::Parent]);
}

#[test]
fn empty_input_collapses_to_empty() {
    let input: Vec<PathComponent> = vec![];
    assert_eq!(collapse(&input, true), vec![]);
    assert_eq!(collapse(&input, false), vec![]);
}

#[test]
fn all_parents_relative_all_kept() {
    let input = vec![PathComponent::Parent, PathComponent::Parent, PathComponent::Parent];
    assert_eq!(collapse(&input, false), input);
}

#[test]
fn all_parents_absolute_all_discarded() {
    let input = vec![PathComponent::Parent, PathComponent::Parent, PathComponent::Parent];
    assert_eq!(collapse(&input, true), vec![]);
}

#[test]
fn segments_only_are_identity() {
    let input = vec![seg("a"), seg("b"), seg("c")];
    assert_eq!(collapse(&input, false), input);
    assert_eq!(collapse(&input, true), input);
}

#[test]
fn current_markers_vanish() {
    let input = vec![PathComponent::Current, PathComponent::Current];
    assert_eq!(collapse(&input, false), vec![]);
}

#[test]
fn literal_dot_dot_segment_pends_when_relative() {
    let input = vec![seg(".."), PathComponent::Parent];
    assert_eq!(collapse(&input, false), vec![seg(".."), PathComponent::Parent]);
}

#[test]
fn literal_dot_dot_segment_blocks_pop_when_absolute() {
    let input = vec![root(), seg(".."), PathComponent::Parent];
    assert_eq!(collapse(&input, true), vec![root(), seg("..")]);
}

#[test]
fn collapse_twice_matches_collapse_once() {
    let cases = vec![
        (vec![seg("a"), PathComponent::Parent, PathComponent::Parent, seg("b")], false),
        (vec![root(), PathComponent::Parent, seg("a"), PathComponent::Current], true),
        (vec![PathComponent::Parent, seg("x"), PathComponent::Parent, seg("y")], false),
    ];
    for (input, absolute) in cases {
        let once = collapse(&input, absolute);
        let twice = collapse(&once, absolute);
        assert_eq!(twice, once);
    }
}
