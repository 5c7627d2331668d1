use trefoil::graph::{Edge, EdgeEnd};
use trefoil::model::Model;

type Pos = (i32, i32);

fn edge(a: usize, b: usize, s: usize) -> Edge {
    Edge { vert_idx1: a, vert_idx2: b, symmetry_idx2: s }
}

fn octagon() -> Model<Pos, u32> {
    Model::polygon(8, 2, vec![(0, 0), (1, 0), (2, 1), (2, 2)], vec![0, 1], vec![0, 1])
}

fn edges_of(model: &Model<Pos, u32>) -> Vec<Edge> {
    (0..model.edge_count()).map(|i| model.edge(i)).collect()
}

#[test]
fn polygon_chains_one_copy_and_links_to_the_next() {
    let model = octagon();
    assert_eq!(model.vert_count(), 4);
    assert_eq!(model.symmetry_count(), 2);
    assert_eq!(
        edges_of(&model),
        vec![edge(0, 1, 0), edge(1, 2, 0), edge(2, 3, 0), edge(3, 0, 1)]
    );
    assert_eq!(*model.vert(2), (2, 1));
    assert_eq!(*model.symmetry(1), 1);
    assert_eq!(*model.inverse_symmetry(1), 1);
}

#[test]
fn polygon_with_one_vertex_per_copy() {
    let model: Model<Pos, u32> =
        Model::polygon(3, 3, vec![(5, 5)], vec![0, 1, 2], vec![0, 2, 1]);
    assert_eq!(edges_of(&model), vec![edge(0, 0, 1)]);
}

#[test]
fn polygon_with_a_single_copy_links_to_a_missing_copy() {
    let model: Model<Pos, u32> =
        Model::polygon(3, 1, vec![(0, 0), (1, 0), (0, 1)], vec![0], vec![0]);
    assert_eq!(
        edges_of(&model),
        vec![edge(0, 1, 0), edge(1, 2, 0), edge(2, 0, 1)]
    );
}

#[test]
fn every_polygon_vertex_has_two_edge_ends() {
    let model = octagon();
    let ends = model.edge_ends_per_vert();
    assert_eq!(ends.len(), 4);
    for list in &ends {
        assert_eq!(list.len(), 2);
    }
    assert_eq!(ends[0], vec![EdgeEnd::First(0), EdgeEnd::Second(3)]);
    assert_eq!(ends[3], vec![EdgeEnd::Second(2), EdgeEnd::First(3)]);
}

#[test]
fn edge_ends_add_up_to_twice_the_edges() {
    let mut model = octagon();
    model.add_polygon(6, &[2, 1, 0], vec![(9, 9), (8, 8), (7, 7)]);
    let total: usize = model.edge_ends_per_vert().iter().map(|l| l.len()).sum();
    assert_eq!(total, 2 * model.edge_count());
}

#[test]
fn add_polygon_chains_new_vertices_onto_the_path() {
    let mut model = octagon();
    model.add_polygon(8, &[0, 1], vec![(10, 0), (11, 0), (12, 0), (13, 0), (14, 0), (15, 0)]);
    assert_eq!(model.vert_count(), 10);
    assert_eq!(*model.vert(4), (10, 0));
    assert_eq!(*model.vert(9), (15, 0));
    assert_eq!(
        edges_of(&model)[4..].to_vec(),
        vec![
            edge(4, 5, 0),
            edge(5, 6, 0),
            edge(6, 7, 0),
            edge(7, 8, 0),
            edge(8, 9, 0),
            edge(0, 4, 0),
            edge(1, 9, 0),
        ]
    );
}

#[test]
fn add_polygon_with_one_new_vertex() {
    let mut model = octagon();
    model.add_polygon(4, &[0, 1, 2], vec![(7, 7)]);
    assert_eq!(edges_of(&model)[4..].to_vec(), vec![edge(0, 4, 0), edge(2, 4, 0)]);
    let ends = model.edge_ends_per_vert();
    assert_eq!(ends[4].len(), 2);
    assert_eq!(ends[0].len(), 3);
    assert_eq!(ends[1].len(), 2);
    assert_eq!(ends[2].len(), 3);
}

#[test]
fn verts_with_two_edges_lists_them_with_their_ends() {
    let mut model = octagon();
    model.add_polygon(5, &[3, 2], vec![(1, 1), (2, 2), (3, 3)]);
    let requests = model.verts_with_two_edges();
    assert_eq!(
        requests,
        vec![
            (0, EdgeEnd::First(0), EdgeEnd::Second(3)),
            (1, EdgeEnd::Second(0), EdgeEnd::First(1)),
            (4, EdgeEnd::First(4), EdgeEnd::Second(6)),
            (5, EdgeEnd::Second(4), EdgeEnd::First(5)),
            (6, EdgeEnd::Second(5), EdgeEnd::Second(7)),
        ]
    );
}

#[test]
fn ensure_all_verts_have_three_edges_adds_spurs() {
    let mut model = octagon();
    model.ensure_all_verts_have_three_edges(vec![(-1, 0), (-2, 0), (-3, 0), (-4, 0)]);
    assert_eq!(model.vert_count(), 8);
    assert_eq!(*model.vert(5), (-2, 0));
    assert_eq!(
        edges_of(&model)[4..].to_vec(),
        vec![edge(0, 4, 0), edge(1, 5, 0), edge(2, 6, 0), edge(3, 7, 0)]
    );
    let ends = model.edge_ends_per_vert();
    for v in 0..4 {
        assert_eq!(ends[v].len(), 3);
    }
    for v in 4..8 {
        assert_eq!(ends[v].len(), 1);
    }
}

#[test]
fn ensure_all_verts_have_three_edges_twice_adds_nothing() {
    let mut model = octagon();
    model.ensure_all_verts_have_three_edges(vec![(-1, 0), (-2, 0), (-3, 0), (-4, 0)]);
    assert!(model.verts_with_two_edges().is_empty());
    let before = edges_of(&model);
    model.ensure_all_verts_have_three_edges(vec![]);
    assert_eq!(edges_of(&model), before);
    assert_eq!(model.vert_count(), 8);
}

#[test]
fn ensure_all_verts_skips_other_degrees() {
    let mut model = octagon();
    model.add_polygon(4, &[0, 1, 2], vec![(7, 7)]);
    // vertices 0 and 2 now have three ends, 1, 3 and 4 have two
    model.ensure_all_verts_have_three_edges(vec![(1, 0), (3, 0), (4, 0)]);
    assert_eq!(
        edges_of(&model)[6..].to_vec(),
        vec![edge(1, 5, 0), edge(3, 6, 0), edge(4, 7, 0)]
    );
}

#[test]
fn set_vert_moves_one_vertex() {
    let mut model = octagon();
    model.set_vert(1, (42, 43));
    assert_eq!(*model.vert(1), (42, 43));
    assert_eq!(*model.vert(0), (0, 0));
    assert_eq!(model.edge_count(), 4);
}

#[test]
fn default_model_is_empty() {
    let model: Model<Pos, u32> = Model::default();
    assert_eq!(model.vert_count(), 0);
    assert_eq!(model.edge_count(), 0);
    assert_eq!(model.symmetry_count(), 0);
    assert!(model.vertex_texts().is_empty());
}

#[test]
fn vertex_texts_label_every_vertex_of_every_copy() {
    let model = octagon();
    let texts = model.vertex_texts();
    let got: Vec<(String, usize, usize)> = texts
        .iter()
        .map(|t| (t.text.clone(), t.symmetry_idx, t.vert_idx))
        .collect();
    assert_eq!(
        got,
        vec![
            ("0:0".to_string(), 0, 0),
            ("1:0".to_string(), 0, 1),
            ("2:0".to_string(), 0, 2),
            ("3:0".to_string(), 0, 3),
            ("0:1".to_string(), 1, 0),
            ("1:1".to_string(), 1, 1),
            ("2:1".to_string(), 1, 2),
            ("3:1".to_string(), 1, 3),
        ]
    );
}

#[test]
fn vertex_texts_with_many_vertices() {
    let verts: Vec<Pos> = (0..12).map(|i| (i, 0)).collect();
    let model: Model<Pos, u32> = Model::polygon(12, 1, verts, vec![0], vec![0]);
    let texts = model.vertex_texts();
    assert_eq!(texts.len(), 12);
    assert_eq!(texts[10].text, "10:0");
    assert_eq!(texts[11].text, "11:0");
}

#[test]
fn cloned_model_is_independent() {
    let model = octagon();
    let mut copy = model.clone();
    copy.ensure_all_verts_have_three_edges(vec![(0, 0), (0, 0), (0, 0), (0, 0)]);
    assert_eq!(model.edge_count(), 4);
    assert_eq!(copy.edge_count(), 8);
}

#[test]
fn verts_with_edge_count_selects_by_degree() {
    let mut model = octagon();
    model.add_polygon(4, &[0, 1, 2], vec![(7, 7)]);
    assert_eq!(model.verts_with_edge_count(3), vec![0, 2]);
    assert_eq!(model.verts_with_edge_count(2), vec![1, 3, 4]);
    assert_eq!(model.verts_with_edge_count(1), Vec::<usize>::new());
    model.ensure_all_verts_have_three_edges(vec![(1, 0), (3, 0), (4, 0)]);
    assert_eq!(model.verts_with_edge_count(3), vec![0, 1, 2, 3, 4]);
    assert_eq!(model.verts_with_edge_count(1), vec![5, 6, 7]);
}
