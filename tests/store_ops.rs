use rust_microservice_rest::store::{ProductData, Store};

#[test]
fn inserted_ids_are_distinct_while_live() {
    let mut s = Store::new();
    let mut live: Vec<usize> = Vec::new();
    for round in 0..20usize {
        let id = s.insert(ProductData);
        assert!(!live.contains(&id));
        live.push(id);
        if round % 3 == 0 {
            let gone = live.remove(0);
            assert!(s.remove(gone));
        }
    }
    let mut ids = s.list_ids();
    ids.sort();
    live.sort();
    assert_eq!(ids, live);
}

#[test]
fn removed_id_is_absent_until_reused() {
    let mut s = Store::new();
    let a = s.insert(ProductData);
    let b = s.insert(ProductData);
    assert!(s.remove(a));
    assert!(s.get(a).is_none());
    assert!(!s.contains(a));
    assert!(s.replace(b, ProductData));
    assert!(s.get(a).is_none());
    assert!(!s.remove(a));
    let c = s.insert(ProductData);
    assert_eq!(c, a);
    assert!(s.get(a).is_some());
}

#[test]
fn n_inserts_list_n_ids() {
    let mut s = Store::new();
    assert!(s.list_ids().is_empty());
    for _ in 0..7 {
        s.insert(ProductData);
    }
    assert_eq!(s.list_ids(), vec![0, 1, 2, 3, 4, 5, 6]);
}

#[test]
fn insert_get_replace_round_trip() {
    let mut s = Store::new();
    let k = s.insert(ProductData);
    assert_eq!(s.get(k), Some(&ProductData));
    assert!(s.replace(k, ProductData));
    assert_eq!(s.get(k), Some(&ProductData));
    assert!(!s.replace(k + 1, ProductData));
    assert_eq!(s.list_ids(), vec![k]);
}

#[test]
fn freed_ids_are_reused_last_freed_first() {
    let mut s = Store::new();
    for _ in 0..4 {
        s.insert(ProductData);
    }
    assert!(s.remove(1));
    assert!(s.remove(3));
    assert_eq!(s.list_ids(), vec![0, 2]);
    assert_eq!(s.insert(ProductData), 3);
    assert_eq!(s.insert(ProductData), 1);
    assert_eq!(s.insert(ProductData), 4);
    assert_eq!(s.list_ids(), vec![0, 1, 2, 3, 4]);
    assert!(!s.is_full());
}

#[test]
fn remove_of_never_inserted_id_fails() {
    let mut s = Store::new();
    assert!(!s.remove(0));
    assert!(!s.remove(usize::MAX));
    assert!(s.get(usize::MAX).is_none());
    assert_eq!(s.insert(ProductData), 0);
}
