//! The context aggregation scenarios, run against the verified reference
//! model of the engine's bucket bookkeeping. The model applies mutations
//! immediately, so it shows the state a synchronize would make observable.
//! Weights here are exact integers; the engine's doubles carry the same
//! bookkeeping.

use meritrank_connector::buckets::BucketModel;
use meritrank_connector::commands::{ReadTarget, WriteTarget};

fn named_write(c: &str) -> WriteTarget {
    WriteTarget::Named(c.to_string())
}

fn named_read(c: &str) -> ReadTarget {
    ReadTarget::Named(c.to_string())
}

#[test]
fn aggregation_sum() {
    let u1 = "U1".to_string();
    let u2 = "U2".to_string();
    let mut model = BucketModel::new();
    model.put_edge(&u1, &u2, &named_write("X"), 1);
    model.put_edge(&u1, &u2, &named_write("Y"), 2);
    assert_eq!(model.edge_weight(&u1, &u2, &ReadTarget::Aggregate), Some(3));
    // and it is the only edge the aggregate shows
    assert_eq!(model.edge_weight(&u2, &u1, &ReadTarget::Aggregate), None);
}

#[test]
fn delete_isolation() {
    let u1 = "U1".to_string();
    let u2 = "U2".to_string();
    let mut model = BucketModel::new();
    model.put_edge(&u1, &u2, &named_write("X"), 1);
    model.put_edge(&u1, &u2, &named_write("Y"), 2);
    model.delete_edge(&u1, &u2, &named_write("X"));
    assert_eq!(model.edge_weight(&u1, &u2, &ReadTarget::Aggregate), Some(2));
    assert_eq!(model.edge_weight(&u1, &u2, &named_read("X")), None);
    assert_eq!(model.edge_weight(&u1, &u2, &named_read("Y")), Some(2));
}

#[test]
fn reinsertion_restores_the_aggregate() {
    let u1 = "U1".to_string();
    let u2 = "U2".to_string();
    let mut model = BucketModel::new();
    model.put_edge(&u1, &u2, &named_write("X"), 1);
    model.put_edge(&u1, &u2, &named_write("Y"), 2);
    model.delete_edge(&u1, &u2, &named_write("X"));
    model.put_edge(&u1, &u2, &named_write("X"), 1);
    assert_eq!(model.edge_weight(&u1, &u2, &ReadTarget::Aggregate), Some(3));
}

#[test]
fn overwrite_replaces_not_accumulates() {
    let u1 = "U1".to_string();
    let u2 = "U2".to_string();
    let mut model = BucketModel::new();
    model.put_edge(&u1, &u2, &named_write("X"), 1);
    model.put_edge(&u1, &u2, &named_write("X"), 5);
    assert_eq!(model.edge_weight(&u1, &u2, &named_read("X")), Some(5));
    assert_eq!(model.edge_weight(&u1, &u2, &ReadTarget::Aggregate), Some(5));
}

#[test]
fn default_bucket_write_counts_in_the_aggregate() {
    let u1 = "U1".to_string();
    let u2 = "U2".to_string();
    let mut model = BucketModel::new();
    model.put_edge(&u1, &u2, &WriteTarget::Default, 4);
    model.put_edge(&u1, &u2, &named_write("X"), 1);
    assert_eq!(model.edge_weight(&u1, &u2, &ReadTarget::Aggregate), Some(5));
}

#[test]
fn other_pairs_are_untouched() {
    let u1 = "U1".to_string();
    let u2 = "U2".to_string();
    let u3 = "U3".to_string();
    let mut model = BucketModel::new();
    model.put_edge(&u1, &u2, &named_write("X"), 1);
    model.put_edge(&u1, &u3, &named_write("X"), 7);
    model.delete_edge(&u1, &u2, &named_write("X"));
    assert_eq!(model.edge_weight(&u1, &u3, &ReadTarget::Aggregate), Some(7));
    assert_eq!(model.edge_weight(&u1, &u2, &ReadTarget::Aggregate), None);
}

#[test]
fn negative_weights_sum() {
    let u1 = "U1".to_string();
    let u2 = "U2".to_string();
    let mut model = BucketModel::new();
    model.put_edge(&u1, &u2, &named_write("X"), -3);
    model.put_edge(&u1, &u2, &named_write("Y"), 2);
    assert_eq!(model.edge_weight(&u1, &u2, &ReadTarget::Aggregate), Some(-1));
}

#[test]
fn deleting_a_missing_edge_changes_nothing() {
    let u1 = "U1".to_string();
    let u2 = "U2".to_string();
    let mut model = BucketModel::new();
    model.put_edge(&u1, &u2, &named_write("Y"), 2);
    model.delete_edge(&u1, &u2, &named_write("X"));
    assert_eq!(model.edge_weight(&u1, &u2, &ReadTarget::Aggregate), Some(2));
}
