use ygramul::file_info::FileKind;
use ygramul::number::Decimal;
use ygramul::record::Record;
use ygramul::tsv::parse_record;
use ygramul::upload::{
    edge_rows, entity_edges, factor_id, factor_label_layout, factor_node, upload_action,
    EntityKind, GraphMutation, UploadAction, EDGE_THRESHOLD_DIGITS,
};

fn strings(v: &[&str]) -> Vec<String> {
    v.iter().map(|s| s.to_string()).collect()
}

#[test]
fn only_weights_above_a_tenth_of_the_largest_are_emitted() {
    let maker = edge_rows(EntityKind::Gene);
    let columns = strings(&["Gene", "Factor1", "Factor2", "Factor3"]);
    let row = parse_record(&maker, &columns, "G1\t0.01\t0.5\t1.0", '\t').ok().unwrap();
    let key = strings(&["k"]);
    let edges = entity_edges(&key, EntityKind::Gene, &row, 1);
    assert_eq!(edges.len(), 2);
    let expected = [
        ("k_2", Decimal { negative: false, mantissa: 5, exponent: -1 }),
        ("k_3", Decimal { negative: false, mantissa: 10, exponent: -1 }),
    ];
    for (m, (id, w)) in edges.iter().zip(expected) {
        match m {
            GraphMutation::EntityEdge { entity, entity_id, factor_id, weight } => {
                assert_eq!(*entity, EntityKind::Gene);
                assert_eq!(entity_id, "G1");
                assert_eq!(factor_id, id);
                assert_eq!(*weight, w);
            }
            _ => panic!("not an edge"),
        }
    }
}

#[test]
fn unreadable_weights_are_never_emitted() {
    let maker = edge_rows(EntityKind::Pheno);
    let columns = strings(&["Pheno", "Factor1", "Factor2"]);
    let row = parse_record(&maker, &columns, "P\tNaN\t0.3", '\t').ok().unwrap();
    let edges = entity_edges(&vec![], EntityKind::Pheno, &row, EDGE_THRESHOLD_DIGITS);
    assert_eq!(edges.len(), 1);
    match &edges[0] {
        GraphMutation::EntityEdge { factor_id, .. } => assert_eq!(factor_id, "2"),
        _ => panic!("not an edge"),
    }
    assert!(edges[0].template().contains("CONTROLS"));
}

#[test]
fn all_negative_row_emits_nothing() {
    let maker = edge_rows(EntityKind::Gene);
    let columns = strings(&["Gene", "Factor1"]);
    let row = parse_record(&maker, &columns, "G\t-2", '\t').ok().unwrap();
    assert_eq!(row.weight_max, Decimal { negative: false, mantissa: 0, exponent: 0 });
    assert!(entity_edges(&vec![], EntityKind::Gene, &row, 2).is_empty());
}

#[test]
fn factor_ids_join_key_and_subkey() {
    assert_eq!(factor_id(&strings(&["3", "7"]), "12"), "3_7_12");
    assert_eq!(factor_id(&vec![], "12"), "12");
}

#[test]
fn factor_label_rows_give_named_nodes() {
    let layout = factor_label_layout();
    let columns = strings(&["label", "Factor"]);
    let record: Record = parse_record(&layout, &columns, "immune\t4", '\t').ok().unwrap();
    match factor_node(&strings(&["1"]), &record) {
        GraphMutation::FactorNode { id, name } => {
            assert_eq!(id, "1_4");
            assert_eq!(name, "immune");
        }
        _ => panic!("not a node"),
    }
}

#[test]
fn upload_table() {
    assert_eq!(upload_action(FileKind::F), UploadAction::FactorNodes);
    assert_eq!(upload_action(FileKind::Gc), UploadAction::Edges(EntityKind::Gene, 2));
    assert_eq!(upload_action(FileKind::Pc), UploadAction::Edges(EntityKind::Pheno, 2));
    assert_eq!(upload_action(FileKind::Pc1), UploadAction::Ignore);
}

#[test]
fn same_row_gives_same_mutation_twice() {
    let maker = edge_rows(EntityKind::Gene);
    let columns = strings(&["Gene", "Factor1"]);
    let row = parse_record(&maker, &columns, "G\t2", '\t').ok().unwrap();
    let a = entity_edges(&vec![], EntityKind::Gene, &row, 2);
    let b = entity_edges(&vec![], EntityKind::Gene, &row, 2);
    assert_eq!(a.len(), 1);
    assert_eq!(a[0].template(), b[0].template());
    assert!(a[0].template().starts_with("MERGE"));
}
