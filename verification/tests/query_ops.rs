use kv_entity::{
    EntityHandler, EntityID, EntityListHandler, KvStore, RelationDirection, Tag, TagQuery,
    iterate_all, Link, Value,
};

fn entity(id: &str) -> EntityHandler {
    EntityHandler::new(EntityID::new(id.to_string()))
}

#[test]
fn attach_then_query_single_returns_value() {
    let mut store = KvStore::new();
    let e = entity("1");
    e.attach(&mut store, Tag { value: 25 }).unwrap();
    let q = TagQuery {};
    let got = q.value(25).single(&store).unwrap();
    assert_eq!(got.value, 25);
    assert!(matches!(q.value(26).single(&store), Err(_)));
}

#[test]
fn reattach_refreshes_index_row() {
    let mut store = KvStore::new();
    let e = entity("1");
    e.attach(&mut store, Tag { value: 25 }).unwrap();
    assert!(store.get("component/index/sample::Tag/value/0000000025/e-1").is_some());
    e.attach(&mut store, Tag { value: 30 }).unwrap();
    assert!(store.get("component/index/sample::Tag/value/0000000025/e-1").is_none());
    assert!(store.get("component/index/sample::Tag/value/0000000030/e-1").is_some());
    let q = TagQuery {};
    assert_eq!(q.value(30).single(&store).unwrap().value, 30);
}

#[test]
fn get_reads_back_attached_value() {
    let mut store = KvStore::new();
    let e = entity("7");
    e.attach(&mut store, Tag { value: 9 }).unwrap();
    let got: Option<Tag> = e.get(&store).unwrap();
    assert_eq!(got.unwrap().value, 9);
    let other: Option<Tag> = entity("8").get(&store).unwrap();
    assert!(other.is_none());
}

#[test]
fn detach_removes_payload_index_and_archetype() {
    let mut store = KvStore::new();
    let e = entity("1");
    e.attach(&mut store, Tag { value: 5 }).unwrap();
    e.detach::<Tag>(&mut store).unwrap();
    assert!(store.get("component/single/sample::Tag/e-1").is_none());
    assert!(store.get("component/index/sample::Tag/value/0000000005/e-1").is_none());
    // Detaching again: the archetype entry is gone, so NotFound.
    assert!(e.detach::<Tag>(&mut store).is_err());
}

#[test]
fn range_filter_returns_entities_in_encoded_order() {
    let mut store = KvStore::new();
    for i in 0..10u32 {
        entity(&format!("x{}", i)).attach(&mut store, Tag { value: 9 - i }).unwrap();
    }
    let q = TagQuery {};
    let all = q.value_range(0, 4294967295).all(&store).unwrap();
    assert_eq!(all.len(), 10);
    for i in 0..10usize {
        assert_eq!(all[i].value, i as u32);
    }
    // The range's end bound is the spec-pinned `{hi}/~`, so rows at
    // exactly the high encoded value are included.
    assert_eq!(q.value_range(3, 6).count(&store).unwrap(), 4);
    assert_eq!(q.value_range(3, 6).all(&store).unwrap().len(), 4);
}

#[test]
fn iterate_all_yields_every_entity() {
    let mut store = KvStore::new();
    for i in 0..5u32 {
        entity(&format!("n{}", i)).attach(&mut store, Tag { value: i }).unwrap();
    }
    let items: Vec<(EntityID, Tag)> = iterate_all(&store).unwrap();
    assert_eq!(items.len(), 5);
    for (id, tag) in &items {
        assert_eq!(id.id_text(), format!("e-n{}", tag.value));
    }
}

#[test]
fn link_writes_triad_and_edges_reads_it() {
    let mut store = KvStore::new();
    let a = entity("a");
    let b = EntityID::new("b".to_string());
    a.link(&mut store, &b, &Link { weight: 100 });
    assert!(store.get("relation/edge/e-a/sample::Link/in/e-b").is_some());
    assert!(store.get("relation/edge/e-b/sample::Link/out/e-a").is_some());
    assert!(store.get("relation/data/sample::Link/e-a/e-b").is_some());
    let edges = a.edges::<Link>(&store, RelationDirection::In).unwrap();
    assert_eq!(edges.len(), 1);
    assert_eq!(edges[0].0.id_text(), "e-b");
    assert_eq!(edges[0].1, RelationDirection::In);
    assert_eq!(edges[0].2.weight, 100);
    let from_b = entity("b").edges::<Link>(&store, RelationDirection::Out).unwrap();
    assert_eq!(from_b.len(), 1);
    assert_eq!(from_b[0].0.id_text(), "e-a");
    assert_eq!(from_b[0].1, RelationDirection::Out);
    assert_eq!(from_b[0].2.weight, 100);
}

#[test]
fn unlink_restores_key_set() {
    let mut store = KvStore::new();
    let a = entity("a");
    let b = EntityID::new("b".to_string());
    let before: Vec<String> = store.scan("", "~", 100).into_iter().map(|p| p.0).collect();
    a.link(&mut store, &b, &Link { weight: 1 });
    a.unlink::<Link>(&mut store, &b);
    let after: Vec<String> = store.scan("", "~", 100).into_iter().map(|p| p.0).collect();
    assert_eq!(before, after);
}

#[test]
fn delete_edges_removes_all_incident_edges() {
    let mut store = KvStore::new();
    let a = entity("a");
    a.link(&mut store, &EntityID::new("b".to_string()), &Link { weight: 1 });
    entity("c").link(&mut store, &EntityID::new("a".to_string()), &Link { weight: 2 });
    a.delete_edges::<Link>(&mut store).unwrap();
    let rows = store.scan("", "~", 100);
    assert!(rows.is_empty(), "left: {:?}", rows.iter().map(|p| &p.0).collect::<Vec<_>>());
}

#[test]
fn delete_cascades_over_components_and_edges() {
    let mut store = KvStore::new();
    let a = entity("a");
    a.attach(&mut store, Tag { value: 3 }).unwrap();
    a.link(&mut store, &EntityID::new("b".to_string()), &Link { weight: 9 });
    entity("b").attach(&mut store, Tag { value: 4 }).unwrap();
    a.delete(&mut store).unwrap();
    for (key, _) in store.scan("", "~", 100) {
        assert!(!key.contains("e-a"), "stale key: {}", key);
    }
    // b's rows survive.
    assert!(store.get("component/single/sample::Tag/e-b").is_some());
    let from_b = entity("b").edges::<Link>(&store, RelationDirection::In).unwrap();
    assert!(from_b.is_empty());
    // Deleting again: metadata is gone.
    assert!(a.delete(&mut store).is_err());
}

#[test]
fn list_attach_writes_every_entity() {
    let mut store = KvStore::new();
    let ids = vec![
        EntityID::new("p".to_string()),
        EntityID::new("q".to_string()),
        EntityID::new("r".to_string()),
    ];
    let list = EntityListHandler::new(ids);
    list.attach(&mut store, Tag { value: 11 }).unwrap();
    for id in ["p", "q", "r"] {
        assert!(store.get(&format!("component/single/sample::Tag/e-{}", id)).is_some());
        assert!(store.get(&format!("entity/metadata/e-{}", id)).is_some());
    }
    let values: Vec<Tag> = list.get(&store).unwrap();
    assert_eq!(values.len(), 3);
    assert!(values.iter().all(|t| t.value == 11));
}

#[test]
fn tuple_bundle_attaches_in_order() {
    let mut store = KvStore::new();
    let e = entity("z");
    // A tuple bundle runs the attach step once per component, in order;
    // with the same type twice the later value wins.
    e.attach(&mut store, (Tag { value: 1 }, Tag { value: 2 })).unwrap();
    let got: Option<Tag> = e.get(&store).unwrap();
    assert_eq!(got.unwrap().value, 2);
    assert!(store.get("component/index/sample::Tag/value/0000000001/e-z").is_none());
    assert!(store.get("component/index/sample::Tag/value/0000000002/e-z").is_some());
}

#[test]
fn list_delete_removes_every_entity() {
    let mut store = KvStore::new();
    for id in ["p", "q"] {
        entity(id).attach(&mut store, Tag { value: 2 }).unwrap();
    }
    entity("p").link(&mut store, &EntityID::new("q".to_string()), &Link { weight: 7 });
    let q = TagQuery {};
    let list = q.value(2).list(&store).unwrap();
    list.delete(&mut store).unwrap();
    assert!(store.scan("", "~", 100).is_empty());
    // An empty store has nothing to delete.
    assert!(list.delete(&mut store).is_err());
}

#[test]
fn filter_list_returns_matching_entities() {
    let mut store = KvStore::new();
    entity("m").attach(&mut store, Tag { value: 8 }).unwrap();
    entity("n").attach(&mut store, Tag { value: 8 }).unwrap();
    entity("o").attach(&mut store, Tag { value: 9 }).unwrap();
    let q = TagQuery {};
    let list = q.value(8).list(&store).unwrap();
    let mut ids: Vec<String> = list.entity_ids.iter().map(|e| e.id_text()).collect();
    ids.sort();
    assert_eq!(ids, vec!["e-m", "e-n"]);
    let h = q.value(9).entity(&store).unwrap();
    assert_eq!(h.entity_id().id_text(), "e-o");
}
