use sample::handlers::{
    sample_create, sample_delete, sample_retrieve, sample_retrieve_all, sample_update,
};
use sample::models::SampleObject;
use sample::store::Store;

fn body(name: &str) -> SampleObject {
    SampleObject { name: name.to_string() }
}

#[test]
fn create_then_get_returns_created_row() {
    let mut store = Store::new();
    let (created, cookie) = sample_create(&mut store, &body("hello"), None);
    assert_eq!(created.inserted_id, 1);
    assert_eq!(created.requests_count, 1);
    let (got, _) = sample_retrieve(&store, created.inserted_id, Some(cookie.as_str()));
    assert_eq!(got.name.as_deref(), Some("hello"));
    assert_eq!(got.requests_count, 2);
}

#[test]
fn ids_are_assigned_in_order() {
    let mut store = Store::new();
    let (a, _) = sample_create(&mut store, &body("a"), None);
    let (b, _) = sample_create(&mut store, &body("b"), None);
    let (c, _) = sample_create(&mut store, &body("c"), None);
    assert_eq!(a.inserted_id, 1);
    assert_eq!(b.inserted_id, 2);
    assert_eq!(c.inserted_id, 3);
}

#[test]
fn list_after_creates_and_deletes_holds_survivors() {
    let mut store = Store::new();
    for name in ["one", "two", "three", "four"] {
        sample_create(&mut store, &body(name), None);
    }
    sample_delete(&mut store, 2, None);
    sample_delete(&mut store, 4, None);
    // four creates, two removing deletes: exactly two rows survive
    let (listed, _) = sample_retrieve_all(&store, None);
    assert_eq!(listed.items.len(), 2);
    assert_eq!(listed.items[0].id, 1);
    assert_eq!(listed.items[0].name, "one");
    assert_eq!(listed.items[1].id, 3);
    assert_eq!(listed.items[1].name, "three");
}

#[test]
fn delete_of_missing_id_is_a_noop() {
    let mut store = Store::new();
    sample_create(&mut store, &body("keep"), None);
    let (resp, _) = sample_delete(&mut store, 42, None);
    assert_eq!(resp.requests_count, 1);
    let (listed, _) = sample_retrieve_all(&store, None);
    assert_eq!(listed.items.len(), 1);
    assert_eq!(listed.items[0].name, "keep");
}

#[test]
fn get_of_never_created_id_has_no_value() {
    let store = Store::new();
    let (got, _) = sample_retrieve(&store, 7, None);
    assert!(got.name.is_none());
    assert_eq!(got.requests_count, 1);
}

#[test]
fn get_of_deleted_id_has_no_value() {
    let mut store = Store::new();
    sample_create(&mut store, &body("gone"), None);
    sample_delete(&mut store, 1, None);
    let (got, _) = sample_retrieve(&store, 1, None);
    assert!(got.name.is_none());
}

#[test]
fn update_then_get_sees_new_value() {
    let mut store = Store::new();
    sample_create(&mut store, &body("before"), None);
    let (resp, _) = sample_update(&mut store, 1, &body("after"), None);
    assert_eq!(resp.requests_count, 1);
    let (got, _) = sample_retrieve(&store, 1, None);
    assert_eq!(got.name.as_deref(), Some("after"));
}

#[test]
fn update_of_missing_id_is_a_noop_with_success_shape() {
    let mut store = Store::new();
    sample_create(&mut store, &body("kept"), None);
    let (resp, _) = sample_update(&mut store, 9, &body("lost"), None);
    assert_eq!(resp.requests_count, 1);
    let (listed, _) = sample_retrieve_all(&store, None);
    assert_eq!(listed.items.len(), 1);
    assert_eq!(listed.items[0].name, "kept");
}

#[test]
fn update_leaves_other_rows_alone() {
    let mut store = Store::new();
    sample_create(&mut store, &body("first"), None);
    sample_create(&mut store, &body("second"), None);
    sample_update(&mut store, 2, &body("changed"), None);
    let (got, _) = sample_retrieve(&store, 1, None);
    assert_eq!(got.name.as_deref(), Some("first"));
}

#[test]
fn deleted_ids_are_never_reused() {
    let mut store = Store::new();
    sample_create(&mut store, &body("a"), None);
    sample_delete(&mut store, 1, None);
    let (again, _) = sample_create(&mut store, &body("b"), None);
    assert_eq!(again.inserted_id, 2);
}

#[test]
fn empty_name_is_allowed_and_not_unique() {
    let mut store = Store::new();
    sample_create(&mut store, &body(""), None);
    sample_create(&mut store, &body(""), None);
    let (listed, _) = sample_retrieve_all(&store, None);
    assert_eq!(listed.items.len(), 2);
    assert_eq!(listed.items[0].name, "");
    assert_eq!(listed.items[1].name, "");
}
