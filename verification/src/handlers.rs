use vstd::prelude::*;

use crate::models::{Item, NewItem, SampleObject};
use crate::session::{counted, get_requests_count, session_view};
use crate::store::{rows_view, tbl_delete, tbl_insert, tbl_lookup, tbl_update, Store};

verus! {

/// The envelope of the full-table listing: every row plus the request counter.
pub struct ListResponse {
    pub items: Vec<Item>,
    pub requests_count: u64,
}

/// The envelope of a create: the id the store assigned plus the request counter.
pub struct CreateResponse {
    pub inserted_id: i32,
    pub requests_count: u64,
}

/// The envelope of a get-by-id: the row's string column when the row exists
/// (the field is absent from the rendered JSON otherwise) plus the request
/// counter.
pub struct GetResponse {
    pub name: Option<String>,
    pub requests_count: u64,
}

/// The envelope of an update or delete: only the request counter.
pub struct CountResponse {
    pub requests_count: u64,
}

/// The envelope of the address lookup: the caller's address as the lookup
/// service reported it, plus the request counter.
pub struct MyIpResponse {
    pub my_ip: String,
    pub requests_count: u64,
}

/// Lists every row of the table. Each handler returns its envelope together
/// with the session cookie value to send back.
pub fn sample_retrieve_all(store: &Store, session: Option<&str>) -> (r: (ListResponse, String))
    ensures
        rows_view(r.0.items@) == store@,
        counted(r.0.requests_count, r.1@, session_view(session)),
{
    let items = store.list();
    let (count, cookie) = get_requests_count(session);
    (ListResponse { items, requests_count: count }, cookie)
}

/// Creates one row from the request body; the response carries the id the
/// store assigned to it.
pub fn sample_create(store: &mut Store, obj: &SampleObject, session: Option<&str>) -> (r: (
    CreateResponse,
    String,
))
    requires
        old(store).wf(),
        old(store).spec_next_id() < i32::MAX,
    ensures
        final(store).wf(),
        r.0.inserted_id == old(store).spec_next_id(),
        final(store)@ == tbl_insert(old(store)@, r.0.inserted_id, obj.name@),
        final(store).spec_next_id() == old(store).spec_next_id() + 1,
        counted(r.0.requests_count, r.1@, session_view(session)),
{
    let inserted = store.insert(NewItem { name: &obj.name });
    let (count, cookie) = get_requests_count(session);
    (CreateResponse { inserted_id: inserted.id, requests_count: count }, cookie)
}

/// Fetches the row with the given id; a missing row is not an error, the
/// response simply carries no value.
pub fn sample_retrieve(store: &Store, item_id: i32, session: Option<&str>) -> (r: (
    GetResponse,
    String,
))
    requires
        store.wf(),
    ensures
        match r.0.name {
            Some(s) => tbl_lookup(store@, item_id) == Some(s@),
            None => tbl_lookup(store@, item_id) is None,
        },
        counted(r.0.requests_count, r.1@, session_view(session)),
{
    let name = match store.get(item_id) {
        Some(item) => Some(item.name),
        None => None,
    };
    let (count, cookie) = get_requests_count(session);
    (GetResponse { name, requests_count: count }, cookie)
}

/// Sets the string column of the row with the given id; a missing id is a
/// no-op and still answers with the standard envelope.
pub fn sample_update(store: &mut Store, item_id: i32, obj: &SampleObject, session: Option<&str>)
    -> (r: (CountResponse, String))
    requires
        old(store).wf(),
    ensures
        final(store).wf(),
        final(store)@ == tbl_update(old(store)@, item_id, obj.name@),
        final(store).spec_next_id() == old(store).spec_next_id(),
        counted(r.0.requests_count, r.1@, session_view(session)),
{
    store.update(item_id, obj.name.as_str());
    let (count, cookie) = get_requests_count(session);
    (CountResponse { requests_count: count }, cookie)
}

/// Removes the row with the given id; a missing id is a no-op and still
/// answers with the standard envelope.
pub fn sample_delete(store: &mut Store, item_id: i32, session: Option<&str>) -> (r: (
    CountResponse,
    String,
))
    requires
        old(store).wf(),
    ensures
        final(store).wf(),
        final(store)@ == tbl_delete(old(store)@, item_id),
        final(store).spec_next_id() == old(store).spec_next_id(),
        counted(r.0.requests_count, r.1@, session_view(session)),
{
    store.delete(item_id);
    let (count, cookie) = get_requests_count(session);
    (CountResponse { requests_count: count }, cookie)
}

/// What reading the `origin` field out of the lookup service's response
/// body yields: the field's string value when the text is a JSON object
/// with a string `origin` field, and `None` otherwise. The result depends
/// on the characters alone.
pub uninterp spec fn origin_of_json(s: Seq<char>) -> Option<Seq<char>>;

/// Relies on serde_json::from_str together with the accessors
/// serde_json::Value::get and serde_json::Value::as_str: parsing is a
/// function of the characters alone.
#[verifier::external_body]
fn parse_origin(body: &str) -> (r: Option<String>)
    ensures
        match r {
            Some(s) => origin_of_json(body@) == Some(s@),
            None => origin_of_json(body@) is None,
        },
{
    let parsed: Result<serde_json::Value, serde_json::Error> = serde_json::from_str(body);
    match parsed {
        Ok(v) => match v.get("origin") {
            Some(o) => match o.as_str() {
                Some(s) => Some(s.to_owned()),
                None => None,
            },
            None => None,
        },
        Err(_) => None,
    }
}

/// Builds the address-lookup envelope from the body the lookup service
/// answered with. `None` when the body carries no `origin` string: the
/// caller treats that as the fatal failure of the outbound call, and no
/// cookie is written.
pub fn sample_http_client(body: &str, session: Option<&str>) -> (r: Option<(MyIpResponse, String)>)
    ensures
        match r {
            Some(p) => origin_of_json(body@) == Some(p.0.my_ip@) && counted(
                p.0.requests_count,
                p.1@,
                session_view(session),
            ),
            None => origin_of_json(body@) is None,
        },
{
    match parse_origin(body) {
        Some(ip) => {
            let (count, cookie) = get_requests_count(session);
            Some((MyIpResponse { my_ip: ip, requests_count: count }, cookie))
        },
        None => None,
    }
}

/// The body of every response to an unmatched route: a fixed JSON object
/// with a status marker and a human-readable reason.
pub open spec fn spec_not_found_body() -> Seq<char> {
    "{\"status\":\"error\",\"reason\":\"Resource was not found.\"}"@
}

/// Handler for unmatched routes: returns the fixed JSON error body.
pub fn not_found() -> (r: &'static str)
    ensures
        r@ == spec_not_found_body(),
{
    "{\"status\":\"error\",\"reason\":\"Resource was not found.\"}"
}

} // verus!
