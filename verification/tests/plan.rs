use differential_review::panes::Relation;
use differential_review::plan::{connector, edge_span, relation_to_selected, PlanGroup};

fn group(id: &str, after: &[&str]) -> PlanGroup {
    PlanGroup { id: id.to_string(), depends_on: after.iter().map(|d| d.to_string()).collect() }
}

fn plan() -> Vec<PlanGroup> {
    vec![group("g1", &[]), group("g2", &["g1"]), group("g3", &[]), group("g4", &["g1", "g3"]), group("g5", &[])]
}

#[test]
fn a_group_is_related_to_the_selected_one_only_through_what_it_follows() {
    let groups = plan();
    let rel: Vec<Relation> = (0..5).map(|i| relation_to_selected(&groups, 3, i)).collect();
    assert_eq!(
        rel,
        [Relation::Dependency, Relation::Unrelated, Relation::Dependency, Relation::Selected, Relation::Unrelated]
    );
    assert_eq!(relation_to_selected(&groups, 9, 0), Relation::Unrelated, "a stale selection relates to nothing");
    assert_eq!(relation_to_selected(&groups, 3, 9), Relation::Unrelated);
    assert_eq!(relation_to_selected(&groups, 9, 9), Relation::Selected);
}

#[test]
fn the_connector_runs_unbroken_from_the_selected_group_to_what_it_follows() {
    let groups = plan();
    let span = edge_span(&groups, 3);
    assert_eq!(span, (0, 3));
    let cells: Vec<(&str, &str)> = (0..5).map(|i| connector(relation_to_selected(&groups, 3, i), i, span)).collect();
    assert_eq!(cells, [("├─", "│ "), ("│ ", "│ "), ("├─", "│ "), ("◆─", "  "), ("  ", "  ")]);
}

#[test]
fn a_group_followed_from_above_ends_the_connector_in_a_corner() {
    let mut groups = plan();
    groups[0] = group("g1", &["g5"]);
    let span = edge_span(&groups, 0);
    assert_eq!(span, (0, 4));
    assert_eq!(connector(relation_to_selected(&groups, 0, 4), 4, span), ("└─", "  "));
    assert_eq!(connector(relation_to_selected(&groups, 0, 0), 0, span), ("◆─", "│ "));
    assert_eq!(edge_span(&groups, 2), (2, 2), "a group that follows nothing spans itself");
    assert_eq!(edge_span(&groups, 7), (7, 7));
}
