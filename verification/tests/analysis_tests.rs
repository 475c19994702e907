use codegen::{
    Attributes, Enum, Field, Id, Item, ItemMap, Primitive, Struct, Type, Variant, Visibility,
};

fn record(name: &str, fields: Vec<Field>) -> Item {
    Item::Record(Struct::new(
        Id::new(name).unwrap(),
        Visibility::Private,
        Attributes::default(),
        fields,
    ))
}

fn union(name: &str, variants: Vec<Variant>) -> Item {
    Item::Union(Enum::new(
        Id::new(name).unwrap(),
        Visibility::Private,
        Attributes::default(),
        variants,
    ))
}

fn field(name: &str, typ: Type) -> Field {
    Field::new(Id::new(name).unwrap(), typ, vec![])
}

fn empty_map() -> ItemMap {
    ItemMap::build(vec![]).unwrap()
}

#[test]
fn test_simple_record_defaultable() {
    let map = empty_map();
    let item = record(
        "Simple",
        vec![
            field("a", Type::Primitive(Primitive::I64)),
            field("b", Type::Sequence(Box::new(Type::Primitive(Primitive::Text)))),
            field("c", Type::Optional(Box::new(Type::Primitive(Primitive::Boolean)))),
            field("d", Type::Mapping(Box::new(Type::Primitive(Primitive::Null)))),
        ],
    );
    assert!(item.is_defaultable(&map));
}

#[test]
fn test_record_with_either_member_not_defaultable() {
    let map = empty_map();
    let item = record(
        "HasEither",
        vec![
            field("a", Type::Primitive(Primitive::I64)),
            field(
                "b",
                Type::Either(
                    Box::new(Type::Primitive(Primitive::I64)),
                    Box::new(Type::Primitive(Primitive::Text)),
                ),
            ),
        ],
    );
    assert!(!item.is_defaultable(&map));
}

#[test]
fn test_union_never_defaultable() {
    let map = empty_map();
    let item = union(
        "Tagged",
        vec![
            Variant::new(Id::new("First").unwrap(), None, vec![]),
            Variant::new(
                Id::new("Second").unwrap(),
                Some(Type::Primitive(Primitive::I64)),
                vec![],
            ),
        ],
    );
    assert!(!item.is_defaultable(&map));
}

#[test]
fn test_defaultable_through_registry() {
    let inner = record("Inner", vec![field("x", Type::Primitive(Primitive::I64))]);
    let outer = record("Outer", vec![field("y", Type::named("Inner").unwrap())]);
    let map = ItemMap::build(vec![inner, outer]).unwrap();
    let outer_id = Id::new("Outer").unwrap();
    assert!(map.get(&outer_id).unwrap().is_defaultable(&map));

    let tagged = union("Tagged", vec![Variant::new(Id::new("V").unwrap(), None, vec![])]);
    let holder = record("Holder", vec![field("z", Type::named("Tagged").unwrap())]);
    let map2 = ItemMap::build(vec![tagged, holder]).unwrap();
    let holder_id = Id::new("Holder").unwrap();
    assert!(!map2.get(&holder_id).unwrap().is_defaultable(&map2));
}

#[test]
fn test_dangling_reference_not_defaultable() {
    let map = empty_map();
    let t = Type::Named(Id::new("Missing").unwrap());
    assert!(!t.is_defaultable(&map));
    assert!(Type::Primitive(Primitive::F64).is_defaultable(&map));
    assert!(!Type::Reference(Box::new(Type::Primitive(Primitive::I64))).is_defaultable(&map));
}

#[test]
fn test_self_reference_is_recursive() {
    let item = record("Alpha", vec![field("next", Type::named("Alpha").unwrap())]);
    let map = ItemMap::build(vec![item]).unwrap();
    let id = Id::new("Alpha").unwrap();
    assert!(map.get(&id).unwrap().is_recursive(&map));
}

#[test]
fn test_indirected_self_reference_not_recursive() {
    let item = record(
        "Alpha",
        vec![field(
            "next",
            Type::Indirected(Box::new(Type::named("Alpha").unwrap())),
        )],
    );
    let map = ItemMap::build(vec![item]).unwrap();
    let id = Id::new("Alpha").unwrap();
    assert!(!map.get(&id).unwrap().is_recursive(&map));
}

#[test]
fn test_mutual_recursion_terminates_and_reports_both() {
    let a = record("Alpha", vec![field("b", Type::named("Beta").unwrap())]);
    let b = record("Beta", vec![field("a", Type::named("Alpha").unwrap())]);
    let map = ItemMap::build(vec![a, b]).unwrap();
    let alpha = Id::new("Alpha").unwrap();
    let beta = Id::new("Beta").unwrap();
    assert!(map.get(&alpha).unwrap().is_recursive(&map));
    assert!(map.get(&beta).unwrap().is_recursive(&map));
}

#[test]
fn test_union_recursion_through_variant() {
    let item = union(
        "Node",
        vec![
            Variant::new(Id::new("Leaf").unwrap(), None, vec![]),
            Variant::new(
                Id::new("More").unwrap(),
                Some(Type::Optional(Box::new(Type::named("Node").unwrap()))),
                vec![],
            ),
        ],
    );
    let map = ItemMap::build(vec![item]).unwrap();
    let id = Id::new("Node").unwrap();
    assert!(map.get(&id).unwrap().is_recursive(&map));
}

#[test]
fn test_either_contains_only_when_both_sides_do() {
    let map = empty_map();
    let x = Id::new("X").unwrap();
    let both = Type::Either(
        Box::new(Type::Named(x.clone())),
        Box::new(Type::Named(x.clone())),
    );
    assert!(both.contains_unboxed_id(&x, &map));

    let one = Type::Either(
        Box::new(Type::Named(x.clone())),
        Box::new(Type::Primitive(Primitive::I64)),
    );
    assert!(!one.contains_unboxed_id(&x, &map));
}

#[test]
fn test_containment_propagation() {
    let map = empty_map();
    let x = Id::new("X").unwrap();
    assert!(Type::Optional(Box::new(Type::Named(x.clone()))).contains_unboxed_id(&x, &map));
    assert!(Type::Mapping(Box::new(Type::Named(x.clone()))).contains_unboxed_id(&x, &map));
    assert!(!Type::Sequence(Box::new(Type::Named(x.clone()))).contains_unboxed_id(&x, &map));
    assert!(!Type::Indirected(Box::new(Type::Named(x.clone()))).contains_unboxed_id(&x, &map));
    assert!(!Type::Reference(Box::new(Type::Named(x.clone()))).contains_unboxed_id(&x, &map));
    assert!(!Type::Primitive(Primitive::I64).contains_unboxed_id(&x, &map));
}
