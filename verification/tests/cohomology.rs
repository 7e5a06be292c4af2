use openshell_holonomy_consensus::cohomology::EmergenceDetector;

#[test]
fn test_flok_formation() {
    // 100 agents, 500 connections, 1 component: 500 - 100 + 1 = 401 cycles.
    let result = EmergenceDetector::detect(100, 500, 1);
    assert_eq!(result.h1, 401);
    assert!(result.emergence_detected);
}

#[test]
fn test_rigid_fleet() {
    // V = 1024, E = 2V - 3 = 2045, one component.
    let result = EmergenceDetector::detect(1024, 2045, 1);
    assert_eq!(result.h1, 1022);
}

#[test]
fn detect_reports_inputs_and_h0() {
    let result = EmergenceDetector::detect(7, 9, 2);
    assert_eq!(result.h0, 2);
    assert_eq!(result.h1, 4);
    assert_eq!(result.n_vertices, 7);
    assert_eq!(result.n_edges, 9);
    assert!(result.emergence_detected);
}

#[test]
fn detect_forest_has_no_cycles() {
    // A forest: E = V - H0.
    let result = EmergenceDetector::detect(10, 7, 3);
    assert_eq!(result.h1, 0);
    assert!(!result.emergence_detected);
}

#[test]
fn detect_inconsistent_counts_give_zero() {
    let result = EmergenceDetector::detect(10, 2, 1);
    assert_eq!(result.h1, 0);
    assert!(!result.emergence_detected);
}

#[test]
fn edge_list_path_is_one_component_without_cycles() {
    let result = EmergenceDetector::from_edge_list(&[1, 2, 3, 4], &[(1, 2), (2, 3), (3, 4)]);
    assert_eq!(result.h0, 1);
    assert_eq!(result.h1, 0);
    assert!(!result.emergence_detected);
}

#[test]
fn edge_list_triangle_with_isolated_vertices() {
    // A triangle and two isolated vertices: 3 components, one cycle.
    let result = EmergenceDetector::from_edge_list(&[1, 2, 3, 4, 5], &[(1, 2), (2, 3), (3, 1)]);
    assert_eq!(result.h0, 3);
    assert_eq!(result.h1, 1);
    assert!(result.emergence_detected);
}

#[test]
fn edge_list_two_squares() {
    let vertices = [1, 2, 3, 4, 10, 11, 12, 13];
    let edges = [(1, 2), (2, 3), (3, 4), (4, 1), (10, 11), (11, 12), (12, 13), (13, 10)];
    let result = EmergenceDetector::from_edge_list(&vertices, &edges);
    assert_eq!(result.h0, 2);
    assert_eq!(result.h1, 2);
    assert_eq!(result.n_vertices, 8);
    assert_eq!(result.n_edges, 8);
}

#[test]
fn edge_list_connects_through_unlisted_nodes() {
    // 1 and 2 are joined through node 9, which is not a listed vertex.
    let result = EmergenceDetector::from_edge_list(&[1, 2], &[(1, 9), (9, 2)]);
    assert_eq!(result.h0, 1);
}

#[test]
fn edge_list_empty_and_duplicates() {
    let empty = EmergenceDetector::from_edge_list(&[], &[]);
    assert_eq!(empty.h0, 0);
    assert_eq!(empty.h1, 0);
    let dup = EmergenceDetector::from_edge_list(&[7, 7, 8], &[]);
    assert_eq!(dup.h0, 2);
}
