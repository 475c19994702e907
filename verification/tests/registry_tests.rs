use codegen::{
    Attributes, Enum, Error, Field, Id, Item, ItemMap, Struct, Type, Variant, Visibility,
};

fn record(name: &str, fields: Vec<Field>) -> Item {
    Item::Record(Struct::new(
        Id::new(name).unwrap(),
        Visibility::Private,
        Attributes::default(),
        fields,
    ))
}

fn union(name: &str, variants: Vec<Variant>) -> Item {
    Item::Union(Enum::new(
        Id::new(name).unwrap(),
        Visibility::Private,
        Attributes::default(),
        variants,
    ))
}

fn field(name: &str, typ: Type) -> Field {
    Field::new(Id::new(name).unwrap(), typ, vec![])
}

#[test]
fn test_registry_build_distinct_names() {
    let items = vec![record("Alpha", vec![]), record("Beta", vec![]), union("Gamma", vec![])];
    let map = ItemMap::build(items).unwrap();
    for name in ["Alpha", "Beta", "Gamma"] {
        let id = Id::new(name).unwrap();
        let item = map.get(&id).expect("registered name must resolve");
        assert_eq!(item.name().as_str(), name);
    }
    assert!(map.get(&Id::new("Delta").unwrap()).is_none());
}

#[test]
fn test_registry_build_duplicate_name_fails() {
    let items = vec![record("Alpha", vec![]), record("Beta", vec![]), record("Alpha", vec![])];
    let err = ItemMap::build(items).unwrap_err();
    assert!(matches!(&err, Error::DuplicateName(n) if n.as_str() == "Alpha"));
}

#[test]
fn test_find_named_types() {
    let a = record("Alpha", vec![field("f", Type::named("Beta").unwrap())]);
    let c = record("Gamma", vec![field("g", Type::Primitive(codegen::Primitive::I64))]);
    let map = ItemMap::build(vec![a, c]).unwrap();
    let names: Vec<String> =
        map.find_named_types().iter().map(|id| id.as_str().to_string()).collect();
    assert_eq!(names, vec!["Beta", "Alpha", "Gamma"]);
}

#[test]
fn test_find_named_types_ascending_name_order() {
    let b = record("Beta", vec![]);
    let a = record("Alpha", vec![]);
    let map = ItemMap::build(vec![b, a]).unwrap();
    let names: Vec<String> =
        map.find_named_types().iter().map(|id| id.as_str().to_string()).collect();
    assert_eq!(names, vec!["Alpha", "Beta"]);
}

#[test]
fn test_clone_and_equality_of_declarations() {
    let s = Struct::new(
        Id::new("One").unwrap(),
        Visibility::Public,
        codegen::Attributes::default().derive(&[codegen::Derive::Debug]),
        vec![field("a", Type::named("T1").unwrap())],
    );
    let s2 = s.clone();
    assert!(s == s2);
    let other = Struct::new(
        Id::new("Two").unwrap(),
        Visibility::Public,
        codegen::Attributes::default().derive(&[codegen::Derive::Debug]),
        vec![field("a", Type::named("T1").unwrap())],
    );
    assert!(s != other);

    let e = Enum::new(
        Id::new("Choice").unwrap(),
        Visibility::Private,
        codegen::Attributes::default(),
        vec![Variant::new(
            Id::new("Leaf").unwrap(),
            Some(Type::named("T1").unwrap()),
            vec![],
        )],
    );
    assert!(e == e.clone());

    let t = Type::Sequence(Box::new(Type::named("Inner").unwrap()));
    assert!(t == t.clone());
    assert!(t != Type::named("Inner").unwrap());
}

#[test]
fn test_item_named_types() {
    let a = record(
        "Alpha",
        vec![
            field("f", Type::Sequence(Box::new(Type::named("Beta").unwrap()))),
            field("g", Type::Primitive(codegen::Primitive::Boolean)),
            field("h", Type::named("Gamma").unwrap()),
        ],
    );
    let names: Vec<String> = a.get_named_types().iter().map(|id| id.as_str().to_string()).collect();
    assert_eq!(names, vec!["Beta", "Gamma"]);
}

#[test]
fn test_struct_merge() {
    let s1 = Struct::new(
        Id::new("One").unwrap(),
        Visibility::Private,
        Attributes::default(),
        vec![field("a", Type::named("T1").unwrap()), field("b", Type::named("T2").unwrap())],
    );
    let s2 = Struct::new(
        Id::new("Two").unwrap(),
        Visibility::Private,
        Attributes::default(),
        vec![field("c", Type::named("T3").unwrap())],
    );
    let merged = Struct::merge(
        Id::new("Merged").unwrap(),
        Visibility::Public,
        Attributes::default(),
        &[s1, s2],
    )
    .unwrap();
    let names: Vec<String> =
        merged.fields.iter().map(|f| f.name.as_str().to_string()).collect();
    assert_eq!(names, vec!["a", "b", "c"]);
}

#[test]
fn test_struct_merge_duplicate_field_fails() {
    let s1 = Struct::new(
        Id::new("One").unwrap(),
        Visibility::Private,
        Attributes::default(),
        vec![field("a", Type::named("T1").unwrap())],
    );
    let s2 = Struct::new(
        Id::new("Two").unwrap(),
        Visibility::Private,
        Attributes::default(),
        vec![field("a", Type::named("T2").unwrap())],
    );
    let err = Struct::merge(
        Id::new("Merged").unwrap(),
        Visibility::Public,
        Attributes::default(),
        &[s1, s2],
    )
    .unwrap_err();
    assert!(matches!(&err, Error::DuplicateName(n) if n.as_str() == "a"));
}
