//! The request dispatcher: matches an incoming request (method and
//! path) against the fixed route table, extracts the path id or the
//! decoded body, runs the store operation, and shapes the response.
//!
//! Routes:
//! * `GET /`                        — static welcome text
//! * `GET /shopping_list_items`     — list all items
//! * `POST /shopping_list_item`     — create an item from the JSON body
//! * `GET /shopping_list_item/{id}` — fetch one item by id
//!
//! Anything else answers 404; a creation body that does not decode
//! answers 400; a by-id path whose segment is not a number answers 404.
//! `spec_dispatch` is the route table in mathematical form, and
//! `handle_request` is proved to agree with it exactly.

use vstd::prelude::*;
use vstd::string::StringSliceAdditionalSpecFns;

use crate::json::{
    bytes_eq, dec_bytes, json_of_item, json_of_items, lemma_dec_round_trip, parse_id,
    parse_payload, render_item, render_items, spec_parse_id, spec_parse_payload,
};
use crate::models::{models_of, ItemModel};
use crate::store::{spec_get, ItemStore};

verus! {

/// An HTTP response as the core produces it: a status code and the
/// body bytes. Headers and transport are the host's business.
pub struct Response {
    pub status: u16,
    pub body: Vec<u8>,
}

/// Model of one dispatch step: the response parts and the store
/// contents after the step.
#[verifier::ext_equal]
pub ghost struct Outcome {
    pub status: u16,
    pub body: Seq<u8>,
    pub items: Seq<ItemModel>,
}

/// The welcome text of the root route.
pub open spec fn welcome_text() -> Seq<u8> {
    "Welcome to my warp server!".spec_bytes()
}

pub open spec fn method_get() -> Seq<u8> {
    "GET".spec_bytes()
}

pub open spec fn method_post() -> Seq<u8> {
    "POST".spec_bytes()
}

pub open spec fn root_path() -> Seq<u8> {
    "/".spec_bytes()
}

pub open spec fn items_path() -> Seq<u8> {
    "/shopping_list_items".spec_bytes()
}

pub open spec fn item_path() -> Seq<u8> {
    "/shopping_list_item".spec_bytes()
}

pub open spec fn item_id_prefix() -> Seq<u8> {
    "/shopping_list_item/".spec_bytes()
}

/// The route table in mathematical form: what one request does to a
/// store with contents `items`, and what it answers. First match
/// wins; the routes do not overlap.
pub open spec fn spec_dispatch(
    items: Seq<ItemModel>,
    method: Seq<u8>,
    path: Seq<u8>,
    body: Seq<u8>,
) -> Outcome {
    if method == method_get() && path == root_path() {
        Outcome { status: 200, body: welcome_text(), items }
    } else if method == method_get() && path == items_path() {
        Outcome { status: 200, body: json_of_items(items), items }
    } else if method == method_post() && path == item_path() {
        match spec_parse_payload(body) {
            Some(name) => {
                let m = ItemModel { id: items.len(), name };
                Outcome { status: 200, body: json_of_item(m), items: items.push(m) }
            },
            None => Outcome { status: 400, body: Seq::empty(), items },
        }
    } else if method == method_get() && path.len() > item_id_prefix().len() && path.take(
        item_id_prefix().len() as int,
    ) == item_id_prefix() {
        match spec_parse_id(path.skip(item_id_prefix().len() as int)) {
            Some(id) => match spec_get(items, id) {
                Some(m) => Outcome { status: 200, body: json_of_item(m), items },
                None => Outcome { status: 404, body: Seq::empty(), items },
            },
            None => Outcome { status: 404, body: Seq::empty(), items },
        }
    } else {
        Outcome { status: 404, body: Seq::empty(), items }
    }
}

/// Read-after-write over the wire: when a creation request succeeds,
/// a following fetch of `/shopping_list_item/{id}` — the id the
/// creation assigned, rendered in decimal — answers 200 with the very
/// JSON object the creation answered, and leaves the store as the
/// creation left it.
pub proof fn lemma_http_read_after_write(items: Seq<ItemModel>, body: Seq<u8>)
    requires
        spec_parse_payload(body) is Some,
        items.len() <= usize::MAX as nat,
    ensures
        ({
            let post = spec_dispatch(items, method_post(), item_path(), body);
            let get = spec_dispatch(
                post.items,
                method_get(),
                item_id_prefix() + dec_bytes(items.len()),
                Seq::empty(),
            );
            post.status == 200 && get.status == 200 && get.body == post.body && get.items
                == post.items
        }),
{
    reveal_strlit("GET");
    reveal_strlit("POST");
    reveal_strlit("/");
    reveal_strlit("/shopping_list_items");
    reveal_strlit("/shopping_list_item");
    reveal_strlit("/shopping_list_item/");
    vstd::string::is_ascii_spec_bytes("GET");
    vstd::string::is_ascii_spec_bytes("POST");
    vstd::string::is_ascii_spec_bytes("/");
    vstd::string::is_ascii_spec_bytes("/shopping_list_items");
    vstd::string::is_ascii_spec_bytes("/shopping_list_item");
    vstd::string::is_ascii_spec_bytes("/shopping_list_item/");
    assert(method_get().len() == 3);
    assert(method_post().len() == 4);
    assert(root_path().len() == 1);
    assert(items_path().len() == 20);
    assert(item_path().len() == 19);
    assert(item_id_prefix().len() == 20);
    let digits = dec_bytes(items.len());
    lemma_dec_round_trip(items.len());
    assert(digits.len() >= 1);
    let name = spec_parse_payload(body).unwrap();
    let m = ItemModel { id: items.len(), name };
    let post = spec_dispatch(items, method_post(), item_path(), body);
    assert(post.status == 200 && post.body == json_of_item(m) && post.items == items.push(m));
    let path = item_id_prefix() + digits;
    assert(path.len() == 20 + digits.len());
    assert(path.take(item_id_prefix().len() as int) =~= item_id_prefix());
    assert(path.skip(item_id_prefix().len() as int) =~= digits);
    assert(spec_parse_id(digits) == Some(items.len() as nat));
    assert(spec_get(items.push(m), items.len()) == Some(m));
}

/// Dispatches one request against the store: matches the route table,
/// performs the store operation, and returns status and body, exactly
/// as `spec_dispatch` says.
pub fn handle_request(store: &mut ItemStore, method: &[u8], path: &[u8], body: &[u8]) -> (r:
    Response)
    requires
        old(store).wf(),
    ensures
        final(store).wf(),
        r.status == spec_dispatch(old(store)@, method@, path@, body@).status,
        r.body@ == spec_dispatch(old(store)@, method@, path@, body@).body,
        final(store)@ == spec_dispatch(old(store)@, method@, path@, body@).items,
{
    let is_get = bytes_eq(method, "GET".as_bytes());
    let is_post = bytes_eq(method, "POST".as_bytes());
    if is_get && bytes_eq(path, "/".as_bytes()) {
        let mut out: Vec<u8> = Vec::new();
        out.extend_from_slice("Welcome to my warp server!".as_bytes());
        proof {
            assert(out@ =~= welcome_text());
        }
        return Response { status: 200, body: out };
    }
    if is_get && bytes_eq(path, "/shopping_list_items".as_bytes()) {
        let all = store.get_all();
        proof {
            assert(models_of(all@) =~= store@);
        }
        let out = render_items(&all);
        return Response { status: 200, body: out };
    }
    if is_post && bytes_eq(path, "/shopping_list_item".as_bytes()) {
        match parse_payload(body) {
            Some(payload) => {
                let item = store.insert(payload);
                let out = render_item(&item);
                return Response { status: 200, body: out };
            },
            None => {
                return Response { status: 400, body: Vec::new() };
            },
        }
    }
    let prefix = "/shopping_list_item/".as_bytes();
    if is_get && path.len() > prefix.len() {
        let (head, tail) = path.split_at(prefix.len());
        if bytes_eq(head, prefix) {
            proof {
                assert(head@ =~= path@.take(item_id_prefix().len() as int));
                assert(tail@ =~= path@.skip(item_id_prefix().len() as int));
            }
            match parse_id(tail) {
                Some(id) => match store.get_by_id(id) {
                    Some(item) => {
                        let out = render_item(&item);
                        return Response { status: 200, body: out };
                    },
                    None => {
                        return Response { status: 404, body: Vec::new() };
                    },
                },
                None => {
                    return Response { status: 404, body: Vec::new() };
                },
            }
        }
    }
    Response { status: 404, body: Vec::new() }
}

} // verus!
