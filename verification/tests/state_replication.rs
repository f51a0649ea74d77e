use hardlight::state::apply_changes_to;
use hardlight::state::diff_fields;
use hardlight::state::FieldStore;
use hardlight::state::State;

fn counter_fields(counter: u32, label: &str) -> Vec<(String, Vec<u8>)> {
    vec![
        ("counter".to_string(), counter.to_le_bytes().to_vec()),
        ("label".to_string(), label.as_bytes().to_vec()),
    ]
}

#[test]
fn unchanged_state_emits_no_changes() {
    let pre = counter_fields(5, "a");
    let cur = counter_fields(5, "a");
    assert_eq!(diff_fields(&pre, &cur), vec![]);
}

#[test]
fn diff_holds_exactly_the_changed_fields_in_order() {
    let pre = vec![
        ("a".to_string(), vec![1]),
        ("b".to_string(), vec![2]),
        ("c".to_string(), vec![3]),
    ];
    let cur = vec![
        ("a".to_string(), vec![9]),
        ("b".to_string(), vec![2]),
        ("c".to_string(), vec![8]),
    ];
    assert_eq!(
        diff_fields(&pre, &cur),
        vec![("a".to_string(), vec![9]), ("c".to_string(), vec![8])]
    );
}

#[test]
fn single_field_change_emits_one_entry() {
    let pre = counter_fields(5, "a");
    let cur = counter_fields(6, "a");
    assert_eq!(
        diff_fields(&pre, &cur),
        vec![("counter".to_string(), 6u32.to_le_bytes().to_vec())]
    );
}

#[test]
fn applying_a_change_rewrites_the_named_field() {
    let mut fields = counter_fields(1, "x");
    apply_changes_to(
        &mut fields,
        &vec![("counter".to_string(), 2u32.to_le_bytes().to_vec())],
    );
    assert_eq!(fields, counter_fields(2, "x"));
}

#[test]
fn unknown_field_names_are_ignored() {
    let mut fields = counter_fields(1, "x");
    apply_changes_to(&mut fields, &vec![("no_such_field".to_string(), vec![1])]);
    assert_eq!(fields, counter_fields(1, "x"));
}

#[test]
fn changes_apply_in_batch_order() {
    let mut fields = counter_fields(0, "x");
    apply_changes_to(
        &mut fields,
        &vec![
            ("counter".to_string(), 1u32.to_le_bytes().to_vec()),
            ("counter".to_string(), 2u32.to_le_bytes().to_vec()),
        ],
    );
    assert_eq!(fields, counter_fields(2, "x"));
}

#[test]
fn applying_the_diff_rebuilds_the_state() {
    let pre = counter_fields(41, "old");
    let cur = counter_fields(42, "new");
    let changes = diff_fields(&pre, &cur);
    let mut replica = pre;
    apply_changes_to(&mut replica, &changes);
    assert_eq!(replica, cur);
}

#[test]
fn replica_applies_batches_through_the_state_trait() {
    let mut store = FieldStore::new();
    store.fields = counter_fields(0, "x");
    let ok = store.apply_changes(vec![("counter".to_string(), 7u32.to_le_bytes().to_vec())]);
    assert_eq!(ok, Ok(()));
    assert_eq!(store.fields, counter_fields(7, "x"));
}

#[test]
fn accumulated_increments_replicate_exactly() {
    // many guard releases, each bumping the counter once: the replica that
    // applied every batch holds the final value
    let mut server_side = counter_fields(0, "x");
    let mut replica = counter_fields(0, "x");
    for n in 1..=100u32 {
        let next = counter_fields(n, "x");
        let batch = diff_fields(&server_side, &next);
        assert_eq!(batch.len(), 1);
        apply_changes_to(&mut replica, &batch);
        server_side = next;
    }
    assert_eq!(replica, counter_fields(100, "x"));
}
