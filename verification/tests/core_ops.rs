use kv_entity::{
    ComponentArchetype, ComponentParts, EntityHandler, EntityID, EntityMetadata, KvStore, Mutation,
    RelationDirection, TypePath, Value, component_data_path, component_index_path, encode_i32,
    encode_u8, entity_metadata_path, next_key, nth_segment, relation_data_path, relation_edge_path,
    str_compare,
};

fn tp(s: &str) -> TypePath {
    TypePath(s.to_string())
}

#[test]
fn entity_id_text_forms() {
    assert_eq!(EntityID::new("1".to_string()).id_text(), "e-1");
    assert_eq!(EntityID::resource().id_text(), "resource");
    assert_eq!(EntityID::Empty.id_text(), "");
    assert_eq!(EntityID::Max.id_text(), "~");
}

#[test]
fn entity_id_raw_strips_prefix() {
    let e = EntityID::new_raw("e-abc".to_string());
    assert_eq!(e.id_text(), "e-abc");
    let f = EntityID::new_raw("abc".to_string());
    assert_eq!(f.id_text(), "e-abc");
}

#[test]
fn key_builders_layouts() {
    let e = EntityID::new("1".to_string());
    let b = EntityID::new("2".to_string());
    assert_eq!(component_data_path(&tp("pkg::UserInfo"), &e), "component/single/pkg::UserInfo/e-1");
    assert_eq!(
        component_index_path(&tp("pkg::UserInfo"), "name", "Alice", &e),
        "component/index/pkg::UserInfo/name/Alice/e-1"
    );
    assert_eq!(entity_metadata_path(&e), "entity/metadata/e-1");
    assert_eq!(
        relation_edge_path(&tp("pkg::Friend"), &e, &b, RelationDirection::In),
        "relation/edge/e-1/pkg::Friend/in/e-2"
    );
    assert_eq!(
        relation_edge_path(&tp("pkg::Friend"), &b, &e, RelationDirection::Out),
        "relation/edge/e-2/pkg::Friend/out/e-1"
    );
    assert_eq!(
        relation_data_path(&tp("pkg::Friend"), &e, &b),
        "relation/data/pkg::Friend/e-1/e-2"
    );
}

#[test]
fn segments_parse_back() {
    let e = EntityID::new("7".to_string());
    let b = EntityID::new("9".to_string());
    let k = relation_edge_path(&tp("pkg::Friend"), &e, &b, RelationDirection::In);
    assert_eq!(nth_segment(k.as_str(), 2).unwrap(), "e-7");
    assert_eq!(nth_segment(k.as_str(), 3).unwrap(), "pkg::Friend");
    assert_eq!(nth_segment(k.as_str(), 4).unwrap(), "in");
    assert_eq!(nth_segment(k.as_str(), 5).unwrap(), "e-9");
    assert!(nth_segment(k.as_str(), 6).is_none());
}

#[test]
fn order_preserving_encoders() {
    assert_eq!(encode_u8(25), "025");
    assert_eq!(encode_u8(0), "000");
    assert_eq!(encode_u8(255), "255");
    assert_eq!(encode_i32(-1), "2147483647");
    assert_eq!(encode_i32(0), "2147483648");
    assert!(encode_i32(-5) < encode_i32(3));
    assert!(encode_u8(9) < encode_u8(10));
}

#[test]
fn next_key_is_successor() {
    let n = next_key("abc");
    assert!(str_compare("abc", n.as_str()) == -1);
    assert_eq!(n, "abc\u{0}");
}

#[test]
fn store_put_get_delete() {
    let mut s = KvStore::new();
    s.put("b".to_string(), Value::Bytes(vec![2]));
    s.put("a".to_string(), Value::Bytes(vec![1]));
    match s.get("a") {
        Some(Value::Bytes(v)) => assert_eq!(v, &vec![1u8]),
        _ => panic!("missing row"),
    }
    s.put("a".to_string(), Value::Bytes(vec![9]));
    match s.get("a") {
        Some(Value::Bytes(v)) => assert_eq!(v, &vec![9u8]),
        _ => panic!("missing row"),
    }
    s.delete("a");
    assert!(s.get("a").is_none());
    assert!(s.get("b").is_some());
}

#[test]
fn store_scan_sorted_range() {
    let mut s = KvStore::new();
    s.put("k/3".to_string(), Value::Bytes(vec![3]));
    s.put("k/1".to_string(), Value::Bytes(vec![1]));
    s.put("k/2".to_string(), Value::Bytes(vec![2]));
    s.put("x/9".to_string(), Value::Bytes(vec![9]));
    let page = s.scan("k/", "k/~", 10);
    let keys: Vec<&str> = page.iter().map(|p| p.0.as_str()).collect();
    assert_eq!(keys, vec!["k/1", "k/2", "k/3"]);
    let limited = s.scan("k/", "k/~", 2);
    assert_eq!(limited.len(), 2);
    assert_eq!(limited[0].0, "k/1");
}

#[test]
fn attach_in_txn_writes_payload_index_and_records_value() {
    // Attach one component with an indexed name field, then re-attach with
    // a new value: the old index row is retired, the new one written.
    let e = EntityHandler::new(EntityID::new("1".to_string()));
    let mut store = KvStore::new();
    let mut meta = EntityMetadata::new_empty();
    let mut muts: Vec<Mutation> = Vec::new();
    let parts = ComponentParts {
        type_path: tp("pkg::UserInfo"),
        fields: vec![("name".to_string(), "Alice".to_string())],
        names: vec!["name".to_string()],
        payload: vec![1, 2, 3],
    };
    e.attach_component_in_txn(&mut muts, &mut meta, &parts);
    muts.push(Mutation::put(
        entity_metadata_path(e.entity_id()),
        Value::Meta(meta.clone()),
    ));
    store.apply(&muts);
    assert!(store.get("component/single/pkg::UserInfo/e-1").is_some());
    match store.get("component/index/pkg::UserInfo/name/Alice/e-1") {
        Some(Value::Bytes(v)) => assert_eq!(v, "e-1".as_bytes()),
        _ => panic!("index row missing"),
    }
    assert!(store.get("entity/metadata/e-1").is_some());

    // Re-attach with name Bob: the Alice row must be gone.
    let parts2 = ComponentParts {
        type_path: tp("pkg::UserInfo"),
        fields: vec![("name".to_string(), "Bob".to_string())],
        names: vec!["name".to_string()],
        payload: vec![4, 5],
    };
    let mut muts2: Vec<Mutation> = Vec::new();
    e.attach_component_in_txn(&mut muts2, &mut meta, &parts2);
    muts2.push(Mutation::put(
        entity_metadata_path(e.entity_id()),
        Value::Meta(meta.clone()),
    ));
    store.apply(&muts2);
    assert!(store.get("component/index/pkg::UserInfo/name/Alice/e-1").is_none());
    assert!(store.get("component/index/pkg::UserInfo/name/Bob/e-1").is_some());
    match store.get("component/single/pkg::UserInfo/e-1") {
        Some(Value::Bytes(v)) => assert_eq!(v, &vec![4u8, 5]),
        _ => panic!("payload missing"),
    }
}

#[test]
fn attach_twice_identical_is_idempotent() {
    let e = EntityHandler::new(EntityID::new("1".to_string()));
    let parts = ComponentParts {
        type_path: tp("pkg::UserInfo"),
        fields: vec![("name".to_string(), "Alice".to_string())],
        names: vec!["name".to_string()],
        payload: vec![1, 2, 3],
    };
    let mut store = KvStore::new();
    let mut meta = EntityMetadata::new_empty();
    let mut muts: Vec<Mutation> = Vec::new();
    e.attach_component_in_txn(&mut muts, &mut meta, &parts);
    muts.push(Mutation::put(entity_metadata_path(e.entity_id()), Value::Meta(meta.clone())));
    store.apply(&muts);
    let once = store.scan("", "~", 100);
    let mut muts2: Vec<Mutation> = Vec::new();
    e.attach_component_in_txn(&mut muts2, &mut meta, &parts);
    muts2.push(Mutation::put(entity_metadata_path(e.entity_id()), Value::Meta(meta.clone())));
    store.apply(&muts2);
    let twice = store.scan("", "~", 100);
    let keys_once: Vec<&str> = once.iter().map(|p| p.0.as_str()).collect();
    let keys_twice: Vec<&str> = twice.iter().map(|p| p.0.as_str()).collect();
    assert_eq!(keys_once, keys_twice);
}

#[test]
fn archetype_records_last_encoded_values() {
    let names = vec!["age".to_string(), "name".to_string()];
    let arch = ComponentArchetype::new_default(&names);
    assert_eq!(arch.index_keys.len(), 2);
    assert_eq!(arch.index_keys[0].0, "age");
    assert_eq!(arch.index_keys[0].1, "");
}

#[test]
fn direction_reverse() {
    assert_eq!(RelationDirection::In.reverse(), RelationDirection::Out);
    assert_eq!(RelationDirection::Out.reverse(), RelationDirection::In);
    assert_eq!(RelationDirection::Both.reverse(), RelationDirection::Both);
}

#[test]
fn str_compare_orders_lexicographically() {
    assert_eq!(str_compare("a", "b"), -1);
    assert_eq!(str_compare("b", "a"), 1);
    assert_eq!(str_compare("ab", "ab"), 0);
    assert_eq!(str_compare("ab", "abc"), -1);
}
