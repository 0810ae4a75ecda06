use vstd::prelude::*;
use vstd::string::*;

use crate::route::{route, route_of, Route};
use crate::store::{ascending, product_text, ProductData, Store, StoreView};
use crate::text::{decimal, decimal_text, join_ids, joined};

verus! {

/// The page served at the index path.
pub const INDEX_PAGE: &'static str = "
<!doctype html>
<html>
    <head>
        <title>Rust minimal microservice example</title>
    </head>
    <body>
    <h2>Rust minimal microservice example</h2>
    </body>
</html>
";

/// The bytes of the index page.
pub open spec fn index_page() -> Seq<u8> {
    INDEX_PAGE.spec_bytes()
}

/// A request method, as far as the router tells methods apart.
#[derive(Clone, Copy, Debug, PartialEq, Eq, Structural)]
pub enum Method {
    Get,
    Post,
    Put,
    Delete,
    /// Any other method.
    Other,
}

/// The outcome of a request.
#[derive(Clone, Copy, Debug, PartialEq, Eq, Structural)]
pub enum Status {
    Success,
    BadRequest,
    NotFound,
    MethodNotAllowed,
}

/// The HTTP code of a status.
pub open spec fn status_code(s: Status) -> u16 {
    match s {
        Status::Success => 200,
        Status::BadRequest => 400,
        Status::NotFound => 404,
        Status::MethodNotAllowed => 405,
    }
}

impl Status {
    /// The HTTP code of this status.
    pub fn code(&self) -> (r: u16)
        ensures
            r == status_code(*self),
    {
        match self {
            Status::Success => 200,
            Status::BadRequest => 400,
            Status::NotFound => 404,
            Status::MethodNotAllowed => 405,
        }
    }
}

/// A response: a status and a plain-text body.
pub struct Response {
    pub status: Status,
    pub body: Vec<u8>,
}

impl Response {
    /// A response with the given status and an empty body.
    pub fn with_status(status: Status) -> (r: Response)
        ensures
            r.status == status,
            r.body@.len() == 0,
    {
        Response { status, body: Vec::new() }
    }
}

/// What a request asks of the service.
#[derive(Clone, Copy, Debug, PartialEq, Eq, Structural)]
pub enum Action {
    /// Serve the index page.
    Page,
    /// List the live ids.
    List,
    /// Show the record of an id.
    Show(usize),
    /// Create a record.
    Create,
    /// Replace the record of an id.
    Update(usize),
    /// Delete the record of an id.
    Delete(usize),
    /// Refuse the request with the status.
    Refuse(Status),
}

/// The action for a method on a route. The index and the collection take
/// only GET. A product route takes GET, PUT and DELETE with an id and POST
/// without one; POST with an id is a bad request, and any other pairing is
/// not allowed. A path of no route is not found.
pub open spec fn action_of(m: Method, r: Route) -> Action {
    match r {
        Route::Index => if m == Method::Get {
            Action::Page
        } else {
            Action::Refuse(Status::MethodNotAllowed)
        },
        Route::Collection => if m == Method::Get {
            Action::List
        } else {
            Action::Refuse(Status::MethodNotAllowed)
        },
        Route::Item(id) => match (m, id) {
            (Method::Get, Some(k)) => Action::Show(k),
            (Method::Post, None) => Action::Create,
            (Method::Post, Some(_)) => Action::Refuse(Status::BadRequest),
            (Method::Put, Some(k)) => Action::Update(k),
            (Method::Delete, Some(k)) => Action::Delete(k),
            _ => Action::Refuse(Status::MethodNotAllowed),
        },
        Route::Unknown => Action::Refuse(Status::NotFound),
    }
}

/// The action for a request.
pub fn classify(method: Method, path: &str) -> (a: Action)
    ensures
        a == action_of(method, route_of(path@)),
{
    match route(path) {
        Route::Index => if method == Method::Get {
            Action::Page
        } else {
            Action::Refuse(Status::MethodNotAllowed)
        },
        Route::Collection => if method == Method::Get {
            Action::List
        } else {
            Action::Refuse(Status::MethodNotAllowed)
        },
        Route::Item(id) => match (method, id) {
            (Method::Get, Some(k)) => Action::Show(k),
            (Method::Post, None) => Action::Create,
            (Method::Post, Some(_)) => Action::Refuse(Status::BadRequest),
            (Method::Put, Some(k)) => Action::Update(k),
            (Method::Delete, Some(k)) => Action::Delete(k),
            _ => Action::Refuse(Status::MethodNotAllowed),
        },
        Route::Unknown => Action::Refuse(Status::NotFound),
    }
}

/// The store after an action.
pub open spec fn after(v: StoreView, a: Action) -> StoreView {
    match a {
        Action::Create => v.inserted(ProductData),
        Action::Update(id) => v.replaced(id, ProductData),
        Action::Delete(id) => v.removed(id),
        _ => v,
    }
}

/// Whether a status and body answer an action on a store: the page; the live
/// ids in increasing order, joined by commas; a live record's text; the new
/// id; an empty body for an update or a deletion. An id that is not live is
/// not found.
pub open spec fn answers(v: StoreView, a: Action, status: Status, body: Seq<u8>) -> bool {
    match a {
        Action::Page => status == Status::Success && body == index_page(),
        Action::List => status == Status::Success && exists|ids: Seq<usize>|
            ascending(ids) && ids.to_set() == v.items.dom() && body == joined(ids),
        Action::Show(id) => if v.items.contains_key(id) {
            status == Status::Success && body == product_text()
        } else {
            status == Status::NotFound && body.len() == 0
        },
        Action::Create => status == Status::Success && body == decimal(v.next_id() as nat),
        Action::Update(id) | Action::Delete(id) => body.len() == 0 && if v.items.contains_key(id) {
            status == Status::Success
        } else {
            status == Status::NotFound
        },
        Action::Refuse(s) => status == s && body.len() == 0,
    }
}

/// Carries out an action on the store.
pub fn perform(store: &mut Store, a: Action) -> (r: Response)
    requires
        old(store).wf(),
        a == Action::Create ==> old(store)@.can_insert(),
    ensures
        final(store).wf(),
        final(store)@ == after(old(store)@, a),
        answers(old(store)@, a, r.status, r.body@),
{
    match a {
        Action::Page => Response { status: Status::Success, body: INDEX_PAGE.as_bytes_vec() },
        Action::List => {
            let ids = store.list_ids();
            let body = join_ids(&ids);
            assert(ascending(ids@) && ids@.to_set() == store@.items.dom() && body@ == joined(ids@));
            Response { status: Status::Success, body }
        },
        Action::Show(id) => match store.get(id) {
            Some(p) => Response { status: Status::Success, body: p.text() },
            None => Response::with_status(Status::NotFound),
        },
        Action::Create => {
            let id = store.insert(ProductData);
            Response { status: Status::Success, body: decimal_text(id) }
        },
        Action::Update(id) => {
            if store.replace(id, ProductData) {
                Response::with_status(Status::Success)
            } else {
                Response::with_status(Status::NotFound)
            }
        },
        Action::Delete(id) => {
            if store.remove(id) {
                Response::with_status(Status::Success)
            } else {
                Response::with_status(Status::NotFound)
            }
        },
        Action::Refuse(s) => Response::with_status(s),
    }
}

/// Answers a request: classifies it, then carries out its action while the
/// caller has the store to itself.
pub fn handle(store: &mut Store, method: Method, path: &str) -> (r: Response)
    requires
        old(store).wf(),
        action_of(method, route_of(path@)) == Action::Create ==> old(store)@.can_insert(),
    ensures
        final(store).wf(),
        final(store)@ == after(old(store)@, action_of(method, route_of(path@))),
        answers(old(store)@, action_of(method, route_of(path@)), r.status, r.body@),
{
    let a = classify(method, path);
    perform(store, a)
}

} // verus!
