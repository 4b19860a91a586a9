//! End-to-end request scenarios through the dispatcher.

use shopping_list::dispatch::{handle_request, Response};
use shopping_list::store::ItemStore;

fn request(store: &mut ItemStore, method: &str, path: &str, body: &str) -> Response {
    handle_request(store, method.as_bytes(), path.as_bytes(), body.as_bytes())
}

#[test]
fn welcome_route() {
    let mut store = ItemStore::new();
    let resp = request(&mut store, "GET", "/", "");
    assert_eq!(resp.status, 200);
    assert_eq!(resp.body, b"Welcome to my warp server!".to_vec());
}

#[test]
fn create_item_returns_it_with_id_zero() {
    let mut store = ItemStore::new();
    let resp = request(&mut store, "POST", "/shopping_list_item", "{\"name\":\"milk\"}");
    assert_eq!(resp.status, 200);
    assert_eq!(resp.body, b"{\"id\":0,\"name\":\"milk\"}".to_vec());
}

#[test]
fn fetch_created_item_by_id() {
    let mut store = ItemStore::new();
    request(&mut store, "POST", "/shopping_list_item", "{\"name\":\"milk\"}");
    let resp = request(&mut store, "GET", "/shopping_list_item/0", "");
    assert_eq!(resp.status, 200);
    assert_eq!(resp.body, b"{\"id\":0,\"name\":\"milk\"}".to_vec());
}

#[test]
fn fetch_never_created_id_is_404() {
    let mut store = ItemStore::new();
    let resp = request(&mut store, "GET", "/shopping_list_item/999", "");
    assert_eq!(resp.status, 404);
    assert!(resp.body.is_empty());
}

#[test]
fn list_after_two_creates_contains_both() {
    let mut store = ItemStore::new();
    request(&mut store, "POST", "/shopping_list_item", "{\"name\":\"milk\"}");
    request(&mut store, "POST", "/shopping_list_item", "{\"name\":\"eggs\"}");
    let resp = request(&mut store, "GET", "/shopping_list_items", "");
    assert_eq!(resp.status, 200);
    let body = String::from_utf8(resp.body).unwrap();
    assert_eq!(body, "[{\"id\":0,\"name\":\"milk\"},{\"id\":1,\"name\":\"eggs\"}]");
    assert!(body.contains("{\"id\":0,\"name\":\"milk\"}"));
    assert!(body.contains("{\"id\":1,\"name\":\"eggs\"}"));
}

#[test]
fn list_when_empty_is_empty_array() {
    let mut store = ItemStore::new();
    let resp = request(&mut store, "GET", "/shopping_list_items", "");
    assert_eq!(resp.status, 200);
    assert_eq!(resp.body, b"[]".to_vec());
}

#[test]
fn malformed_body_is_400() {
    let mut store = ItemStore::new();
    for body in [
        "",
        "milk",
        "{",
        "{\"name\":}",
        "{\"name\":\"milk\"",
        "{\"quantity\":2}",
        "{\"name\":\"milk\"} trailing",
        "{\"name\":\"unterminated}",
        "{\"name\":\"bad\\escape\"}",
        "{\"name\":\"milk\",\"quantity\":2}",
    ] {
        let resp = request(&mut store, "POST", "/shopping_list_item", body);
        assert_eq!(resp.status, 400, "body {:?} must be rejected", body);
        assert!(resp.body.is_empty());
    }
    assert!(store.get_all().is_empty());
}

#[test]
fn body_whitespace_and_escapes_are_accepted() {
    let mut store = ItemStore::new();
    let resp = request(
        &mut store,
        "POST",
        "/shopping_list_item",
        " { \"name\" : \"a\\\"b\\\\c\" } ",
    );
    assert_eq!(resp.status, 200);
    assert_eq!(
        resp.body,
        b"{\"id\":0,\"name\":\"a\\\"b\\\\c\"}".to_vec()
    );
    let got = store.get_by_id(0).unwrap();
    assert_eq!(got.name, b"a\"b\\c".to_vec());
}

#[test]
fn control_bytes_in_name_are_escaped_on_output() {
    let mut store = ItemStore::new();
    let resp = request(
        &mut store,
        "POST",
        "/shopping_list_item",
        "{\"name\":\"line\\nbreak\"}",
    );
    assert_eq!(resp.status, 200);
    assert_eq!(
        String::from_utf8(resp.body).unwrap(),
        "{\"id\":0,\"name\":\"line\\u000abreak\"}"
    );
}

#[test]
fn unmatched_routes_are_404() {
    let mut store = ItemStore::new();
    for (method, path) in [
        ("GET", "/nowhere"),
        ("POST", "/"),
        ("POST", "/shopping_list_items"),
        ("GET", "/shopping_list_item"),
        ("POST", "/shopping_list_item/0"),
        ("DELETE", "/shopping_list_item/0"),
        ("GET", "/shopping_list_item/"),
        ("GET", "/shopping_list_item/abc"),
        ("GET", "/shopping_list_item/12x"),
        ("GET", "/shopping_list_item/99999999999999999999999999"),
    ] {
        let resp = request(&mut store, method, path, "");
        assert_eq!(resp.status, 404, "{} {} must not match", method, path);
    }
}

#[test]
fn id_segment_allows_leading_zeros() {
    let mut store = ItemStore::new();
    request(&mut store, "POST", "/shopping_list_item", "{\"name\":\"milk\"}");
    let resp = request(&mut store, "GET", "/shopping_list_item/000", "");
    assert_eq!(resp.status, 200);
    assert_eq!(resp.body, b"{\"id\":0,\"name\":\"milk\"}".to_vec());
}

#[test]
fn rendered_json_round_trips_through_serde() {
    let mut store = ItemStore::new();
    request(
        &mut store,
        "POST",
        "/shopping_list_item",
        "{\"name\":\"m\\\"i\\\\l\\tk\"}",
    );
    let one = request(&mut store, "GET", "/shopping_list_item/0", "");
    let value: serde_json::Value = serde_json::from_slice(&one.body).unwrap();
    assert_eq!(value.get("id").and_then(|v| v.as_u64()), Some(0));
    assert_eq!(
        value.get("name").and_then(|v| v.as_str()),
        Some("m\"i\\l\tk")
    );
    let all = request(&mut store, "GET", "/shopping_list_items", "");
    let value: serde_json::Value = serde_json::from_slice(&all.body).unwrap();
    let arr = value.as_array().unwrap();
    assert_eq!(arr.len(), 1);
    assert_eq!(arr[0].get("id").and_then(|v| v.as_u64()), Some(0));
}
