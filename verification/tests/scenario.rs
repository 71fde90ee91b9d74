use sample::handlers::{sample_create, sample_delete, sample_retrieve};
use sample::models::SampleObject;
use sample::store::Store;

// One client's whole visit: create a record, read it back, delete it, and
// read again, sending back on each request the cookie the previous response
// set. The counter advances by one per request and the value disappears
// with the row.
#[test]
fn visit_of_four_requests() {
    let mut store = Store::new();

    let obj = SampleObject { name: "hello".to_string() };
    let (created, cookie1) = sample_create(&mut store, &obj, None);
    assert_eq!(created.requests_count, 1);
    assert_eq!(created.inserted_id, 1);

    let (got, cookie2) = sample_retrieve(&store, 1, Some(cookie1.as_str()));
    assert_eq!(got.name.as_deref(), Some("hello"));
    assert_eq!(got.requests_count, 2);

    let (deleted, cookie3) = sample_delete(&mut store, 1, Some(cookie2.as_str()));
    assert_eq!(deleted.requests_count, 3);

    let (gone, _) = sample_retrieve(&store, 1, Some(cookie3.as_str()));
    assert_eq!(gone.requests_count, 4);
    assert!(gone.name.is_none());
}
