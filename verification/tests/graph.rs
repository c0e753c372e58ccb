use std::collections::HashMap;

use blueprint::graph::{DagLayout, Edge, Node};
use blueprint::models::ItemStatus;

fn node(id: &str) -> Node {
    Node {
        id: id.to_string(),
        label: id.to_string(),
        status: ItemStatus::Todo,
        layer: None,
        x_position: 0,
    }
}

fn edge(from: &str, to: &str) -> Edge {
    Edge {
        from: from.to_string(),
        to: to.to_string(),
    }
}

#[test]
fn linear_chain() {
    // A → B → C → 3 layers
    let layout = DagLayout::new(
        vec![node("A"), node("B"), node("C")],
        vec![edge("A", "B"), edge("B", "C")],
    );

    assert_eq!(layout.layer_count(), 3);
    assert_eq!(layout.layers[0], vec!["A"]);
    assert_eq!(layout.layers[1], vec!["B"]);
    assert_eq!(layout.layers[2], vec!["C"]);
    assert!(layout.orphans.is_empty());
    assert!(!layout.has_cycles());
}

#[test]
fn diamond() {
    // A → B, A → C, B → D, C → D
    // Longest path: A(0) → B(1) → D(2), A(0) → C(1) → D(2)
    let layout = DagLayout::new(
        vec![node("A"), node("B"), node("C"), node("D")],
        vec![
            edge("A", "B"),
            edge("A", "C"),
            edge("B", "D"),
            edge("C", "D"),
        ],
    );

    assert_eq!(layout.layer_count(), 3);
    assert_eq!(layout.layers[0], vec!["A"]);
    assert_eq!(layout.layers[1], vec!["B", "C"]);
    assert_eq!(layout.layers[2], vec!["D"]);
    assert!(!layout.has_cycles());
}

#[test]
fn fan_out() {
    // A → B, A → C, A → D
    let layout = DagLayout::new(
        vec![node("A"), node("B"), node("C"), node("D")],
        vec![edge("A", "B"), edge("A", "C"), edge("A", "D")],
    );

    assert_eq!(layout.layer_count(), 2);
    assert_eq!(layout.layers[0], vec!["A"]);
    assert_eq!(layout.layers[1], vec!["B", "C", "D"]);
}

#[test]
fn orphans_mixed_with_connected() {
    let layout = DagLayout::new(
        vec![node("A"), node("B"), node("X"), node("Y")],
        vec![edge("A", "B")],
    );

    assert_eq!(layout.layer_count(), 2);
    assert_eq!(layout.layers[0], vec!["A"]);
    assert_eq!(layout.layers[1], vec!["B"]);
    assert_eq!(layout.orphans, vec!["X", "Y"]);
    assert!(layout.node("X").unwrap().layer.is_none());
    assert!(layout.node("Y").unwrap().layer.is_none());
}

#[test]
fn all_orphans() {
    let layout = DagLayout::new(vec![node("A"), node("B"), node("C")], vec![]);

    assert_eq!(layout.layer_count(), 0);
    assert_eq!(layout.orphans, vec!["A", "B", "C"]);
    assert_eq!(layout.edge_count(), 0);
}

#[test]
fn empty_graph() {
    let layout = DagLayout::new(vec![], vec![]);

    assert_eq!(layout.layer_count(), 0);
    assert_eq!(layout.node_count(), 0);
    assert_eq!(layout.edge_count(), 0);
    assert!(layout.orphans.is_empty());
    assert!(!layout.has_cycles());
}

#[test]
fn single_node() {
    let layout = DagLayout::new(vec![node("A")], vec![]);

    assert_eq!(layout.node_count(), 1);
    assert_eq!(layout.orphans, vec!["A"]);
    assert_eq!(layout.layer_count(), 0);
}

#[test]
fn cycle_detection_full() {
    // A → B → C → A (full cycle)
    let layout = DagLayout::new(
        vec![node("A"), node("B"), node("C")],
        vec![edge("A", "B"), edge("B", "C"), edge("C", "A")],
    );

    assert!(layout.has_cycles());
    assert_eq!(layout.cycle_nodes, vec!["A", "B", "C"]);
    // Cycle nodes placed in a fallback layer.
    assert_eq!(layout.layer_count(), 1);
    assert_eq!(layout.layers[0], vec!["A", "B", "C"]);
}

#[test]
fn cycle_detection_partial() {
    // X → A, B → C → B (partial cycle, X and A are fine)
    let layout = DagLayout::new(
        vec![node("A"), node("B"), node("C"), node("X")],
        vec![edge("X", "A"), edge("B", "C"), edge("C", "B")],
    );

    assert!(layout.has_cycles());
    assert_eq!(layout.cycle_nodes, vec!["B", "C"]);
    // X(0) → A(1) are normal layers; B,C in fallback layer 2.
    assert_eq!(layout.layer_count(), 3);
    assert_eq!(layout.layers[0], vec!["X"]);
    assert_eq!(layout.layers[1], vec!["A"]);
    assert_eq!(layout.layers[2], vec!["B", "C"]);
}

#[test]
fn longest_path_wins() {
    // A → D (direct, short path = layer 1)
    // A → B → C → D (long path = layer 3)
    // Longest path should win: D at layer 3.
    let layout = DagLayout::new(
        vec![node("A"), node("B"), node("C"), node("D")],
        vec![
            edge("A", "B"),
            edge("B", "C"),
            edge("C", "D"),
            edge("A", "D"),
        ],
    );

    assert_eq!(layout.layer_count(), 4);
    assert_eq!(layout.node("A").unwrap().layer, Some(0));
    assert_eq!(layout.node("B").unwrap().layer, Some(1));
    assert_eq!(layout.node("C").unwrap().layer, Some(2));
    assert_eq!(layout.node("D").unwrap().layer, Some(3));
}

#[test]
fn edges_with_unknown_nodes_filtered() {
    let layout = DagLayout::new(
        vec![node("A"), node("B")],
        vec![
            edge("A", "B"),
            edge("A", "GHOST"),
            edge("PHANTOM", "B"),
        ],
    );

    assert_eq!(layout.edge_count(), 1);
    assert_eq!(layout.layer_count(), 2);
    assert_eq!(layout.layers[0], vec!["A"]);
    assert_eq!(layout.layers[1], vec!["B"]);
}

#[test]
fn deterministic_ordering_within_layers() {
    // Multiple roots and children — ordering determined by barycenter.
    let layout = DagLayout::new(
        vec![node("C"), node("A"), node("B"), node("D"), node("E"), node("F")],
        vec![
            edge("C", "F"),
            edge("A", "D"),
            edge("B", "E"),
            edge("A", "E"),
        ],
    );

    // Roots: A, B, C (all have in-degree 0). Layer 1: D, E, F.
    assert_eq!(layout.layer_count(), 2);
    assert_eq!(layout.layers[0], vec!["A", "B", "C"]);
    assert_eq!(layout.layers[1], vec!["D", "E", "F"]);
}

// ==================== Edge-crossing minimization tests ====================

/// Count the number of edge crossings between two adjacent layers.
fn count_crossings(layout: &DagLayout) -> usize {
    let mut total = 0;

    for layer_idx in 0..layout.layers.len().saturating_sub(1) {
        let upper = &layout.layers[layer_idx];
        let lower = &layout.layers[layer_idx + 1];

        let upper_pos: HashMap<&str, usize> = upper
            .iter()
            .enumerate()
            .map(|(i, id)| (id.as_str(), i))
            .collect();
        let lower_pos: HashMap<&str, usize> = lower
            .iter()
            .enumerate()
            .map(|(i, id)| (id.as_str(), i))
            .collect();

        let mut edge_pairs: Vec<(usize, usize)> = Vec::new();
        for e in &layout.edges {
            if let (Some(&up), Some(&lp)) =
                (upper_pos.get(e.from.as_str()), lower_pos.get(e.to.as_str()))
            {
                edge_pairs.push((up, lp));
            }
        }

        for i in 0..edge_pairs.len() {
            for j in (i + 1)..edge_pairs.len() {
                let (a, b) = edge_pairs[i];
                let (c, d) = edge_pairs[j];
                if (a < c && b > d) || (a > c && b < d) {
                    total += 1;
                }
            }
        }
    }

    total
}

#[test]
fn barycenter_reduces_crossings() {
    // Layer 0: [A, B], Layer 1: [C, D]
    // Edges: A->D, B->C
    // Alphabetical order in layer 1 = [C, D] causes 1 crossing.
    // Barycenter: C parent B (pos 1), D parent A (pos 0).
    // After sort: [D, C] -> 0 crossings.
    let layout = DagLayout::new(
        vec![node("A"), node("B"), node("C"), node("D")],
        vec![edge("A", "D"), edge("B", "C")],
    );

    assert_eq!(layout.layer_count(), 2);
    assert_eq!(layout.layers[0], vec!["A", "B"]);
    assert_eq!(layout.layers[1], vec!["D", "C"]);
    assert_eq!(count_crossings(&layout), 0);
}

#[test]
fn barycenter_diamond_no_crossings() {
    let layout = DagLayout::new(
        vec![node("A"), node("B"), node("C"), node("D")],
        vec![
            edge("A", "B"),
            edge("A", "C"),
            edge("B", "D"),
            edge("C", "D"),
        ],
    );

    assert_eq!(count_crossings(&layout), 0);
}

#[test]
fn barycenter_fan_out_no_crossings() {
    let layout = DagLayout::new(
        vec![node("A"), node("B"), node("C"), node("D")],
        vec![edge("A", "B"), edge("A", "C"), edge("A", "D")],
    );

    assert_eq!(count_crossings(&layout), 0);
}

#[test]
fn barycenter_wide_graph_crossing_reduction() {
    // Layer 0: [A, B, C], Layer 1: [D, E, F]
    // Edges: A->F, B->E, C->D — maximum crossings alphabetically (3).
    // After barycenter: [F, E, D] -> 0 crossings.
    let layout = DagLayout::new(
        vec![
            node("A"), node("B"), node("C"),
            node("D"), node("E"), node("F"),
        ],
        vec![edge("A", "F"), edge("B", "E"), edge("C", "D")],
    );

    assert_eq!(layout.layer_count(), 2);
    assert_eq!(layout.layers[0], vec!["A", "B", "C"]);
    assert_eq!(layout.layers[1], vec!["F", "E", "D"]);
    assert_eq!(count_crossings(&layout), 0);
}

#[test]
fn x_positions_assigned_after_minimization() {
    let layout = DagLayout::new(
        vec![node("A"), node("B"), node("C"), node("D")],
        vec![edge("A", "D"), edge("B", "C")],
    );

    assert_eq!(layout.node("A").unwrap().x_position, 0);
    assert_eq!(layout.node("B").unwrap().x_position, 1);
    assert_eq!(layout.node("D").unwrap().x_position, 0);
    assert_eq!(layout.node("C").unwrap().x_position, 1);
}

#[test]
fn crossing_count_comparison() {
    // P->U, Q->T, R->S — maximum crossings alphabetically (3).
    // After barycenter: [U, T, S] -> 0 crossings.
    let layout = DagLayout::new(
        vec![
            node("P"), node("Q"), node("R"),
            node("S"), node("T"), node("U"),
        ],
        vec![edge("P", "U"), edge("Q", "T"), edge("R", "S")],
    );

    assert_eq!(count_crossings(&layout), 0);
    assert_eq!(layout.layers[1], vec!["U", "T", "S"]);
}

#[test]
fn multi_layer_crossing_reduction() {
    // Three layers: A->D, B->C, C->F, D->E
    let layout = DagLayout::new(
        vec![
            node("A"), node("B"), node("C"),
            node("D"), node("E"), node("F"),
        ],
        vec![
            edge("A", "D"),
            edge("B", "C"),
            edge("C", "F"),
            edge("D", "E"),
        ],
    );

    assert_eq!(layout.layer_count(), 3);
    assert_eq!(count_crossings(&layout), 0);
}

#[test]
fn no_connection_nodes_retain_position() {
    let layout = DagLayout::new(
        vec![
            node("A"), node("B"),
            node("C"), node("D"), node("E"),
        ],
        vec![
            edge("A", "C"),
            edge("A", "D"),
            edge("A", "E"),
            edge("B", "D"),
        ],
    );

    for layer in &layout.layers {
        for (pos, node_id) in layer.iter().enumerate() {
            assert_eq!(layout.node(node_id).unwrap().x_position, pos);
        }
    }
}

#[test]
fn backward_pass_improves_upper_layers() {
    let layout = DagLayout::new(
        vec![
            node("A"), node("B"), node("C"),
            node("D"),
            node("E"), node("F"), node("G"),
        ],
        vec![
            edge("A", "D"),
            edge("B", "D"),
            edge("C", "D"),
            edge("D", "E"),
            edge("D", "F"),
            edge("D", "G"),
        ],
    );

    assert_eq!(layout.layer_count(), 3);
    assert_eq!(count_crossings(&layout), 0);
}


#[test]
fn every_node_placed_exactly_once() {
    let layout = DagLayout::new(
        vec![node("A"), node("B"), node("C"), node("X"), node("Y")],
        vec![edge("A", "B"), edge("B", "C"), edge("C", "B")],
    );
    let mut seen: Vec<String> = layout.layers.iter().flatten().cloned().collect();
    seen.extend(layout.orphans.iter().cloned());
    seen.sort();
    assert_eq!(seen, vec!["A", "B", "C", "X", "Y"]);
}

#[test]
fn cycle_reported_only_with_a_loop() {
    let acyclic = DagLayout::new(vec![node("A"), node("B")], vec![edge("A", "B")]);
    assert!(!acyclic.has_cycles());
    let self_loop = DagLayout::new(vec![node("A")], vec![edge("A", "A")]);
    assert!(self_loop.has_cycles());
    assert_eq!(self_loop.cycle_nodes, vec!["A"]);
    // a node behind a cycle is reported with it
    let behind = DagLayout::new(
        vec![node("A"), node("B"), node("C")],
        vec![edge("A", "B"), edge("B", "A"), edge("B", "C")],
    );
    assert_eq!(behind.cycle_nodes, vec!["A", "B", "C"]);
}

#[test]
fn duplicate_ids_keep_the_last_node() {
    let mut second = node("A");
    second.label = "second".to_string();
    let layout = DagLayout::new(vec![node("A"), second], vec![]);
    assert_eq!(layout.node_count(), 1);
    assert_eq!(layout.node("A").unwrap().label, "second");
}

#[test]
fn no_layer_is_empty() {
    let layout = DagLayout::new(
        vec![node("A"), node("B"), node("C"), node("D"), node("E")],
        vec![edge("A", "B"), edge("B", "C"), edge("C", "B"), edge("A", "D")],
    );
    assert!(!layout.layers.is_empty());
    for layer in &layout.layers {
        assert!(!layer.is_empty());
    }
}
