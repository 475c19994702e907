use codegen::{
    Alias, Attributes, Cfg, Derive, Enum, Field, FieldAttr, Id, NewType, Primitive, Render, Struct,
    Type, Variant, Visibility,
};

#[test]
fn test_type_builder() {
    let typ = Type::Indirected(Box::new(Type::Either(
        Box::new(Type::Named(Id::new("ResultLeft").unwrap())),
        Box::new(Type::Mapping(Box::new(Type::Sequence(Box::new(Type::Optional(Box::new(
            Type::Reference(Box::new(Type::Primitive(Primitive::Text))),
        ))))))),
    )));
    assert_eq!(
        typ.render(),
        "Box<Result<ResultLeft, Map<String, Vec<Option<&String>>>>>"
    );
}

#[test]
fn test_primitive_native() {
    assert_eq!(Primitive::Null.native(), "()");
    assert_eq!(Primitive::Boolean.native(), "bool");
    assert_eq!(Primitive::I64.native(), "i64");
    assert_eq!(Primitive::F64.native(), "f64");
    assert_eq!(Primitive::Text.native(), "String");
}

#[test]
fn test_struct_render() {
    let s = Struct::new(
        Id::new("MyStruct").unwrap(),
        Visibility::Public,
        Attributes::default().derive(&[Derive::Clone, Derive::Debug]),
        vec![Field::new(
            Id::new("field1").unwrap(),
            Type::named("Type1").unwrap(),
            vec![],
        )],
    );
    assert_eq!(
        s.render(),
        "#[derive(Debug, Clone)] pub  struct MyStruct {  field1:Type1 }"
    );
}

#[test]
fn test_enum_render() {
    let e = Enum::new(
        Id::new("MyEnum").unwrap(),
        Visibility::Crate,
        Attributes::default().custom(&["my_custom_attribute".to_string()]),
        vec![
            Variant::new(
                Id::new("Variant1").unwrap(),
                None,
                vec![FieldAttr::SerdeRename("used-to-be-this".into())],
            ),
            Variant::new(
                Id::new("Variant2").unwrap(),
                Some(Type::named("VType").unwrap()),
                vec![],
            ),
        ],
    );
    assert_eq!(
        e.render(),
        "#[my_custom_attribute] pub(crate)  enum MyEnum { #[serde(rename = \"used-to-be-this\")] Variant1,  Variant2(VType) }"
    );
}

#[test]
fn test_newtype_render() {
    let n = NewType::new(
        Id::new("MyNewType").unwrap(),
        Visibility::Private,
        Attributes::default(),
        Type::named("MyOldType").unwrap(),
    );
    assert_eq!(n.render(), "  struct MyNewType(MyOldType);");
}

#[test]
fn test_alias_render() {
    let a = Alias::new(
        Id::new("MyAlias").unwrap(),
        Visibility::Crate,
        Type::named("MyAliasedType").unwrap(),
    );
    assert_eq!(a.render(), "pub(crate)  type MyAlias = MyAliasedType;");
}

#[test]
fn test_attributes_dedup_and_sorted_order() {
    let a = Attributes::default()
        .derive(&[Derive::Clone, Derive::Debug, Derive::Clone])
        .cfg(&[Cfg::Test, Cfg::TargetOs("linux".into()), Cfg::Test]);
    assert_eq!(
        a.render(),
        "#[derive(Debug, Clone)]#[cfg(test, target_os = \"linux\")]"
    );
    let b = Attributes::default().derive(&[Derive::Custom("MyDerive".into())]);
    assert_eq!(b.render(), "#[derive(MyDerive)]");
    let c = Attributes::default().custom(&["beta".to_string(), "alpha".to_string()]);
    assert_eq!(c.render(), "#[alpha, beta]");
    let d = Attributes::default()
        .derive(&[Derive::Custom("Zeta".into()), Derive::Ord, Derive::Custom("Alpha".into())]);
    assert_eq!(d.render(), "#[derive(Ord, Alpha, Zeta)]");
    let e = Attributes::default()
        .derive(&[Derive::Clone, Derive::Debug])
        .derive(&[Derive::Clone, Derive::Debug]);
    assert_eq!(e.render(), "#[derive(Debug, Clone)]");
}

#[test]
fn test_field_attr_render() {
    assert_eq!(FieldAttr::SerdeDefault.render(), "#[serde(default)]");
    assert_eq!(
        FieldAttr::SerdeRename("Field-2".into()).render(),
        "#[serde(rename = \"Field-2\")]"
    );
    assert_eq!(FieldAttr::Custom("#[foo]".into()).render(), "#[foo]");
}

#[test]
fn test_named_root_follows_left_alternative() {
    let t = Type::Either(
        Box::new(Type::Named(Id::new("LeftSide").unwrap())),
        Box::new(Type::Named(Id::new("RightSide").unwrap())),
    );
    assert_eq!(t.get_named_root().unwrap().as_str(), "LeftSide");

    let p = Type::Primitive(Primitive::I64);
    assert!(p.get_named_root().is_none());

    let wrapped = Type::Sequence(Box::new(Type::Optional(Box::new(Type::Named(
        Id::new("Inner").unwrap(),
    )))));
    assert_eq!(wrapped.get_named_root().unwrap().as_str(), "Inner");
}

#[test]
fn test_optional_builder() {
    let t = Type::named("Inner").unwrap().optional(true);
    assert_eq!(t.render(), "Option<Inner>");
    let u = Type::named("Inner").unwrap().optional(false);
    assert_eq!(u.render(), "Inner");
}

#[test]
fn test_with_rename() {
    let f = Field::with_rename("Snake Case Me", Type::named("Type3").unwrap()).unwrap();
    assert_eq!(f.name.as_str(), "snake_case_me");
    assert_eq!(f.attrs.len(), 1);
    assert!(matches!(&f.attrs[0], FieldAttr::SerdeRename(s) if s == "Snake Case Me"));

    let g = Field::with_rename("already_snake", Type::named("Type3").unwrap()).unwrap();
    assert_eq!(g.name.as_str(), "already_snake");
    assert!(g.attrs.is_empty());
}
