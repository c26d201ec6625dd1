use awsm_audio::layout::{layout_grid, LayoutCell};
use awsm_audio::schema::{
    Connection, ConnectionSink, ConnectionSource, Graph, Node, NodeId, NodeKind, ParamId,
};

fn node(id: u64) -> Node {
    Node { id: NodeId(id), kind: NodeKind::Gain }
}

fn wire(from: u64, to: u64) -> Connection {
    Connection {
        from: ConnectionSource::NodeOutput { node: NodeId(from), output: 0 },
        to: ConnectionSink::NodeInput { node: NodeId(to), input: 0 },
    }
}

fn cells(g: &Graph) -> Vec<(u64, usize, usize)> {
    layout_grid(g).into_iter().map(|c: LayoutCell| (c.node.0, c.column, c.row)).collect()
}

#[test]
fn chain_goes_left_to_right() {
    let g = Graph { nodes: vec![node(3), node(1), node(2)], connections: vec![wire(1, 2), wire(2, 3)], inlets: vec![], outlets: vec![] };
    assert_eq!(cells(&g), vec![(3, 2, 0), (1, 0, 0), (2, 1, 0)]);
}

#[test]
fn columns_are_longest_distances() {
    // 1 -> 2 -> 4 and 1 -> 4, plus 3 -> 4: 4 sits after the longest path.
    let g = Graph {
        nodes: vec![node(1), node(2), node(3), node(4)],
        connections: vec![wire(1, 4), wire(3, 4), wire(2, 4), wire(1, 2)],
        inlets: vec![],
        outlets: vec![],
    };
    assert_eq!(cells(&g), vec![(1, 0, 0), (2, 1, 0), (3, 0, 1), (4, 2, 0)]);
}

#[test]
fn parameter_wires_do_not_layer() {
    let g = Graph {
        nodes: vec![node(1), node(2)],
        connections: vec![Connection {
            from: ConnectionSource::NodeOutput { node: NodeId(1), output: 0 },
            to: ConnectionSink::NodeParam { node: NodeId(2), param: ParamId("gain".to_string()) },
        }],
        inlets: vec![],
        outlets: vec![],
    };
    assert_eq!(cells(&g), vec![(1, 0, 0), (2, 0, 1)]);
}

#[test]
fn cycles_are_capped() {
    let g = Graph { nodes: vec![node(1), node(2)], connections: vec![wire(1, 2), wire(2, 1)], inlets: vec![], outlets: vec![] };
    // As many passes as there are nodes (two): depths grow, then stop.
    assert_eq!(cells(&g), vec![(1, 4, 0), (2, 3, 0)]);
}

#[test]
fn empty_graph_has_no_cells() {
    let g = Graph { nodes: vec![], connections: vec![wire(1, 2)], inlets: vec![], outlets: vec![] };
    assert!(cells(&g).is_empty());
}
