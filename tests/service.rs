use rust_microservice_rest::handler::{classify, handle, Action, Method, Response, Status, INDEX_PAGE};
use rust_microservice_rest::route::{route, Route};
use rust_microservice_rest::store::{ProductData, Store};
use rust_microservice_rest::text::{decimal_text, join_ids};

fn body_text(r: &Response) -> String {
    String::from_utf8(r.body.clone()).unwrap()
}

#[test]
fn index_get_and_post() {
    let mut s = Store::new();
    let r = handle(&mut s, Method::Get, "/");
    assert_eq!(r.status, Status::Success);
    assert_eq!(r.status.code(), 200);
    assert_eq!(body_text(&r), INDEX_PAGE);
    let r = handle(&mut s, Method::Post, "/");
    assert_eq!(r.status.code(), 405);
    assert!(r.body.is_empty());
}

#[test]
fn index_aliases() {
    let mut s = Store::new();
    for p in ["/index", "/index.htm", "/index.html"] {
        let r = handle(&mut s, Method::Get, p);
        assert_eq!(r.status.code(), 200);
        assert_eq!(body_text(&r), INDEX_PAGE);
    }
    assert_eq!(handle(&mut s, Method::Get, "/index.html/").status.code(), 404);
    assert_eq!(handle(&mut s, Method::Get, "/index.txt").status.code(), 404);
}

#[test]
fn two_posts_give_zero_then_one() {
    let mut s = Store::new();
    let r = handle(&mut s, Method::Post, "/product");
    assert_eq!(r.status.code(), 200);
    assert_eq!(body_text(&r), "0");
    let r = handle(&mut s, Method::Post, "/product");
    assert_eq!(r.status.code(), 200);
    assert_eq!(body_text(&r), "1");
}

#[test]
fn delete_then_get_and_list() {
    let mut s = Store::new();
    handle(&mut s, Method::Post, "/product");
    handle(&mut s, Method::Post, "/product");
    let r = handle(&mut s, Method::Delete, "/product/0");
    assert_eq!(r.status.code(), 200);
    assert!(r.body.is_empty());
    assert_eq!(handle(&mut s, Method::Get, "/product/0").status.code(), 404);
    let r = handle(&mut s, Method::Get, "/products");
    assert_eq!(r.status.code(), 200);
    assert_eq!(body_text(&r), "1");
}

#[test]
fn put_unknown_id_is_not_found() {
    let mut s = Store::new();
    let r = handle(&mut s, Method::Put, "/product/5");
    assert_eq!(r.status, Status::NotFound);
    assert_eq!(r.status.code(), 404);
    assert!(s.list_ids().is_empty());
}

#[test]
fn post_with_id_is_bad_request() {
    let mut s = Store::new();
    assert_eq!(handle(&mut s, Method::Post, "/product/3").status.code(), 400);
    for _ in 0..5 {
        handle(&mut s, Method::Post, "/product/");
    }
    assert_eq!(handle(&mut s, Method::Post, "/product/3").status.code(), 400);
    assert_eq!(handle(&mut s, Method::Post, "/product/3/").status.code(), 400);
    assert_eq!(s.list_ids(), vec![0, 1, 2, 3, 4]);
}

#[test]
fn get_put_delete_live_record() {
    let mut s = Store::new();
    handle(&mut s, Method::Post, "/product");
    let r = handle(&mut s, Method::Get, "/product/0");
    assert_eq!(r.status.code(), 200);
    assert_eq!(body_text(&r), "{}");
    let r = handle(&mut s, Method::Put, "/product/0/");
    assert_eq!(r.status.code(), 200);
    assert!(r.body.is_empty());
    assert_eq!(handle(&mut s, Method::Delete, "/product/0").status.code(), 200);
    assert_eq!(handle(&mut s, Method::Delete, "/product/0").status.code(), 404);
    assert_eq!(handle(&mut s, Method::Put, "/product/0").status.code(), 404);
}

#[test]
fn product_without_id_allows_only_post() {
    let mut s = Store::new();
    assert_eq!(handle(&mut s, Method::Get, "/product").status.code(), 405);
    assert_eq!(handle(&mut s, Method::Put, "/product/").status.code(), 405);
    assert_eq!(handle(&mut s, Method::Delete, "/product").status.code(), 405);
    assert_eq!(handle(&mut s, Method::Other, "/product/1").status.code(), 405);
    assert!(s.list_ids().is_empty());
}

#[test]
fn collection_routes() {
    let mut s = Store::new();
    let r = handle(&mut s, Method::Get, "/products/");
    assert_eq!(r.status.code(), 200);
    assert!(r.body.is_empty());
    assert_eq!(handle(&mut s, Method::Post, "/products").status.code(), 405);
    for _ in 0..3 {
        handle(&mut s, Method::Post, "/product");
    }
    assert_eq!(body_text(&handle(&mut s, Method::Get, "/products")), "0,1,2");
}

#[test]
fn unknown_paths_are_not_found() {
    let mut s = Store::new();
    for p in ["", "/foo", "/product//", "/product/1x", "/product/x", "/productsx", "/product/1//", "product/1"] {
        assert_eq!(handle(&mut s, Method::Get, p).status.code(), 404, "{}", p);
    }
}

#[test]
fn oversized_id_counts_as_absent() {
    let mut s = Store::new();
    let p = "/product/99999999999999999999999";
    assert_eq!(route(p), Route::Item(None));
    assert_eq!(handle(&mut s, Method::Get, p).status.code(), 405);
    assert_eq!(classify(Method::Post, p), Action::Create);
    assert_eq!(route("/product/18446744073709551615"), Route::Item(Some(usize::MAX)));
    assert_eq!(route("/product/18446744073709551616"), Route::Item(None));
}

#[test]
fn route_parses_ids() {
    assert_eq!(route("/product/0"), Route::Item(Some(0)));
    assert_eq!(route("/product/007/"), Route::Item(Some(7)));
    assert_eq!(route("/product/1234"), Route::Item(Some(1234)));
    assert_eq!(route("/product"), Route::Item(None));
    assert_eq!(route("/products/"), Route::Collection);
    assert_eq!(route("/"), Route::Index);
    assert_eq!(route("/index.xml"), Route::Unknown);
}

#[test]
fn status_codes() {
    assert_eq!(Status::Success.code(), 200);
    assert_eq!(Status::BadRequest.code(), 400);
    assert_eq!(Status::NotFound.code(), 404);
    assert_eq!(Status::MethodNotAllowed.code(), 405);
    let r = Response::with_status(Status::BadRequest);
    assert_eq!(r.status, Status::BadRequest);
    assert!(r.body.is_empty());
}

#[test]
fn decimal_and_join() {
    assert_eq!(decimal_text(0), b"0".to_vec());
    assert_eq!(decimal_text(9), b"9".to_vec());
    assert_eq!(decimal_text(10), b"10".to_vec());
    assert_eq!(decimal_text(4052), b"4052".to_vec());
    assert_eq!(decimal_text(usize::MAX), usize::MAX.to_string().into_bytes());
    assert_eq!(join_ids(&vec![]), Vec::<u8>::new());
    assert_eq!(join_ids(&vec![7]), b"7".to_vec());
    assert_eq!(join_ids(&vec![0, 12, 305]), b"0,12,305".to_vec());
}

#[test]
fn product_text_is_braces() {
    assert_eq!(ProductData.text(), b"{}".to_vec());
}
