use stapifaction::derive::{
    collect_duplicates, derive_persist_layout, is_option, AttributeError, AttributeMeta,
    DeriveError, Expand, FieldAttribute, FieldType, Member, PersistInputReceiver,
    PersistableField, SerdeField, Token,
};
use stapifaction::{persist, Child, Entity, PathElement, PathStyle, ResolvablePath};

fn outer(meta: AttributeMeta) -> FieldAttribute {
    FieldAttribute { outer: true, meta }
}

fn persist_list(tokens: &[&str]) -> FieldAttribute {
    outer(AttributeMeta::List(
        Some(String::from("persist")),
        tokens
            .iter()
            .map(|t| {
                if *t == "=" || *t == "," {
                    Token::Punct(t.chars().next().unwrap())
                } else if t.starts_with('"') {
                    Token::Literal(t.to_string())
                } else {
                    Token::Ident(t.to_string())
                }
            })
            .collect(),
    ))
}

fn persist_path() -> FieldAttribute {
    outer(AttributeMeta::Path(Some(String::from("persist"))))
}

fn field(name: &str, ty: &[&str], attrs: Vec<FieldAttribute>) -> SerdeField {
    SerdeField {
        member: Member::Named(name.to_string()),
        serialize_name: name.to_string(),
        skip_serializing: false,
        ty: FieldType::Path(ty.iter().map(|s| s.to_string()).collect()),
        attrs,
    }
}

fn receiver(path: Option<&str>, file_name: Option<&str>, as_folders: bool) -> PersistInputReceiver {
    PersistInputReceiver {
        path: path.map(String::from),
        file_name: file_name.map(String::from),
        as_folders,
    }
}

#[test]
fn reads_id_and_expansions() {
    assert_eq!(
        PersistableField::from_attributes(&vec![persist_list(&["id"])]),
        Ok(PersistableField { id: true, expand: None })
    );
    assert_eq!(
        PersistableField::from_attributes(&vec![persist_path()]),
        Ok(PersistableField { id: false, expand: Some(Expand::Entity) })
    );
    assert_eq!(
        PersistableField::from_attributes(&vec![persist_list(&["items"])]),
        Ok(PersistableField { id: false, expand: Some(Expand::Items) })
    );
    assert_eq!(
        PersistableField::from_attributes(&vec![persist_path(), persist_list(&["id", "items"])]),
        Ok(PersistableField { id: true, expand: Some(Expand::Items) })
    );
}

#[test]
fn ignores_other_attributes_and_tokens() {
    let attrs = vec![
        outer(AttributeMeta::Path(Some(String::from("serde")))),
        outer(AttributeMeta::Path(None)),
        outer(AttributeMeta::List(Some(String::from("serde")), vec![Token::Ident(String::from("id"))])),
        persist_list(&["other", "=", "\"all\""]),
        FieldAttribute { outer: false, meta: AttributeMeta::NameValue },
    ];
    assert_eq!(
        PersistableField::from_attributes(&attrs),
        Ok(PersistableField { id: false, expand: None })
    );
    assert_eq!(PersistableField::from_attributes(&vec![]), Ok(PersistableField::default()));
}

#[test]
fn reads_expand_forms() {
    assert_eq!(
        PersistableField::from_attributes(&vec![persist_list(&["expand"])]),
        Ok(PersistableField { id: false, expand: Some(Expand::Entity) })
    );
    assert_eq!(
        PersistableField::from_attributes(&vec![persist_list(&["expand", "=", "\"all\""])]),
        Ok(PersistableField { id: false, expand: Some(Expand::Items) })
    );
    assert_eq!(
        PersistableField::from_attributes(&vec![persist_list(&["expand", "=", "\"other\""])]),
        Ok(PersistableField { id: false, expand: Some(Expand::Entity) })
    );
    assert_eq!(
        PersistableField::from_attributes(&vec![persist_list(&["expand", "=", "\"all\"", ",", "id"])]),
        Ok(PersistableField { id: true, expand: Some(Expand::Items) })
    );
    assert_eq!(
        PersistableField::from_attributes(&vec![persist_list(&["expand", ","])]),
        Ok(PersistableField { id: false, expand: Some(Expand::Entity) })
    );
}

#[test]
fn refuses_outer_name_value() {
    let attrs = vec![persist_list(&["id"]), outer(AttributeMeta::NameValue)];
    assert_eq!(
        PersistableField::from_attributes(&attrs),
        Err(AttributeError::UnexpectedNameValue)
    );
}

#[test]
fn option_types() {
    assert!(is_option(&FieldType::Path(vec![String::from("Option")])));
    assert!(is_option(&FieldType::Path(vec![String::from("std"), String::from("option"), String::from("Option")])));
    assert!(!is_option(&FieldType::Path(vec![String::from("Option"), String::from("Vec")])));
    assert!(!is_option(&FieldType::Path(vec![])));
    assert!(!is_option(&FieldType::Other));
}

#[test]
fn duplicates_are_collected_once_each() {
    let names: Vec<String> = ["a", "a", "a", "b", "c", "c"].iter().map(|s| s.to_string()).collect();
    assert_eq!(collect_duplicates(&names), vec![String::from("a"), String::from("c")]);
    let names: Vec<String> = ["b", "a", "b", "a"].iter().map(|s| s.to_string()).collect();
    assert_eq!(collect_duplicates(&names), vec![String::from("b"), String::from("a")]);
    assert!(collect_duplicates(&vec![String::from("x")]).is_empty());
}

#[test]
fn layout_of_a_product() {
    let fields = vec![
        field("id", &["u64"], vec![persist_list(&["id"])]),
        field("label", &["String"], vec![]),
        field("orders", &["Vec"], vec![persist_list(&["items"])]),
        field("factories", &["Vec"], vec![persist_list(&["items"])]),
        field("warehouse", &["Option"], vec![persist_path()]),
        field("brand", &["Brand"], vec![persist_path()]),
        field("address", &["Address"], vec![persist_path()]),
    ];
    let layout = derive_persist_layout(receiver(Some("products"), None, false), &fields).unwrap();
    assert_eq!(layout.path.as_deref(), Some("products"));
    assert!(matches!(&layout.id, Some(Member::Named(n)) if n == "id"));
    let names = |v: &Vec<stapifaction::derive::NamedField>| v.iter().map(|f| f.name.clone()).collect::<Vec<_>>();
    assert_eq!(names(&layout.entities), vec!["address", "brand"]);
    assert_eq!(names(&layout.optional_entities), vec!["warehouse"]);
    assert_eq!(names(&layout.collections), vec!["factories", "orders"]);
    assert_eq!(layout.path_style, None);
}

#[test]
fn layout_skips_serde_skipped_fields_unless_expanded() {
    let mut skipped_id = field("id", &["u64"], vec![persist_list(&["id"])]);
    skipped_id.skip_serializing = true;
    let mut skipped_entity = field("address", &["Address"], vec![persist_path()]);
    skipped_entity.skip_serializing = true;
    let fields = vec![skipped_id, field("code", &["String"], vec![persist_list(&["id"])]), skipped_entity];
    let layout = derive_persist_layout(receiver(None, None, false), &fields).unwrap();
    assert!(matches!(&layout.id, Some(Member::Named(n)) if n == "code"));
    assert_eq!(layout.entities.len(), 1);
}

#[test]
fn layout_path_styles() {
    let l = derive_persist_layout(receiver(None, None, true), &vec![]).unwrap();
    assert_eq!(l.path_style, Some(PathStyle::as_folders("index")));
    let l = derive_persist_layout(receiver(None, Some("i"), true), &vec![]).unwrap();
    assert_eq!(l.path_style, Some(PathStyle::as_folders("i")));
    let l = derive_persist_layout(receiver(None, Some("f"), false), &vec![]).unwrap();
    assert_eq!(l.path_style, Some(PathStyle::as_files("f")));
}

#[test]
fn layout_refuses_name_value_attributes() {
    let fields = vec![field("a", &["A"], vec![outer(AttributeMeta::NameValue)])];
    assert!(matches!(
        derive_persist_layout(receiver(None, None, false), &fields),
        Err(DeriveError::Attribute(AttributeError::UnexpectedNameValue))
    ));
}

#[test]
fn layout_refuses_duplicated_entities() {
    let mut b = field("b", &["B"], vec![persist_path()]);
    b.serialize_name = String::from("a");
    let fields = vec![field("z", &["Z"], vec![persist_path()]), field("a", &["A"], vec![persist_path()]), b];
    match derive_persist_layout(receiver(None, None, false), &fields) {
        Err(DeriveError::DuplicatedEntities(names)) => assert_eq!(names, vec![String::from("a")]),
        other => panic!("unexpected {:?}", other),
    }
}

#[test]
fn layout_refuses_duplicated_collections() {
    let mut b = field("b", &["Vec"], vec![persist_list(&["items"])]);
    b.serialize_name = String::from("a");
    let fields = vec![field("a", &["Vec"], vec![persist_list(&["items"])]), b];
    match derive_persist_layout(receiver(None, None, false), &fields) {
        Err(DeriveError::DuplicatedCollections(names)) => assert_eq!(names, vec![String::from("a")]),
        other => panic!("unexpected {:?}", other),
    }
}

#[test]
fn unnamed_members_are_not_persisted_apart() {
    let fields = vec![SerdeField {
        member: Member::Unnamed(0),
        serialize_name: String::from("0"),
        skip_serializing: false,
        ty: FieldType::Other,
        attrs: vec![persist_path()],
    }];
    let layout = derive_persist_layout(receiver(None, None, false), &fields).unwrap();
    assert!(layout.entities.is_empty());
}

fn serde_skip() -> FieldAttribute {
    outer(AttributeMeta::List(Some(String::from("serde")), vec![Token::Ident(String::from("skip"))]))
}

fn skipped(mut f: SerdeField) -> SerdeField {
    f.skip_serializing = true;
    f
}

/// The entity that the generated implementation reports for a layout, with
/// the given id, value handle and children by name.
fn entity_of(
    layout: &stapifaction::derive::PersistLayout,
    id: &str,
    serializable: usize,
    children: Vec<(String, Child)>,
) -> Entity {
    let mut path = ResolvablePath::default();
    if let Some(p) = &layout.path {
        path = path.append(PathElement::Path(p.clone()));
    }
    if layout.id.is_some() {
        path = path.append(PathElement::Id(id.to_string()));
    }
    Entity { path, expand_strategy: None, serializable: Some(serializable), children }
}

fn order_layout() -> stapifaction::derive::PersistLayout {
    let fields = vec![
        field("id", &["String"], vec![persist_list(&["id"])]),
        field("quantity", &["u64"], vec![]),
    ];
    derive_persist_layout(receiver(None, None, false), &fields).unwrap()
}

#[test]
fn readme_product_through_the_derive() {
    let fields = vec![
        field("id", &["u64"], vec![persist_list(&["id"])]),
        field("label", &["String"], vec![]),
        field("price", &["u64"], vec![]),
        skipped(field("orders", &["Vec"], vec![persist_list(&["expand", "=", "\"all\""]), serde_skip()])),
    ];
    let layout = derive_persist_layout(receiver(Some("products"), None, false), &fields).unwrap();
    assert!(matches!(&layout.id, Some(Member::Named(n)) if n == "id"));
    assert!(layout.entities.is_empty() && layout.optional_entities.is_empty());
    assert_eq!(layout.collections.len(), 1);
    assert_eq!(layout.collections[0].name, "orders");
    assert_eq!(layout.collections[0].ident, "orders");

    let order = order_layout();
    let orders = Child::collection(vec![entity_of(&order, "ZGFS", 1, vec![]), entity_of(&order, "OJGD", 2, vec![])]);
    let product = Child::entity(entity_of(&layout, "1", 0, vec![(layout.collections[0].name.clone(), orders)]));
    let mut paths: Vec<String> = persist(ResolvablePath::from("./"), &product, None, Some("json"))
        .into_iter()
        .map(|w| w.path)
        .collect();
    paths.sort();
    assert_eq!(
        paths,
        vec!["./products/1/data.json", "./products/1/orders/OJGD.json", "./products/1/orders/ZGFS.json"]
    );
}

#[test]
fn derive_collection_test_product_through_the_derive() {
    let fields = vec![
        field("id", &["u64"], vec![persist_list(&["id"])]),
        field("label", &["String"], vec![]),
        field("price", &["u64"], vec![]),
        skipped(field("factories", &["Vec"], vec![persist_list(&["expand", "=", "\"all\""]), serde_skip()])),
        skipped(field("orders", &["Vec"], vec![persist_list(&["expand", "=", "\"all\""]), serde_skip()])),
    ];
    let layout = derive_persist_layout(receiver(Some("products"), None, false), &fields).unwrap();
    let names: Vec<String> = layout.collections.iter().map(|f| f.name.clone()).collect();
    assert_eq!(names, vec!["factories", "orders"]);

    let factory_fields = vec![
        field("id", &["u64"], vec![persist_list(&["id"])]),
        field("name", &["String"], vec![]),
    ];
    let factory = derive_persist_layout(receiver(None, None, false), &factory_fields).unwrap();
    let order = order_layout();
    let factories = Child::collection(vec![
        entity_of(&factory, "10", 1, vec![]),
        entity_of(&factory, "20", 2, vec![]),
        entity_of(&factory, "30", 3, vec![]),
    ]);
    let orders = Child::collection(vec![entity_of(&order, "ZGFS", 4, vec![]), entity_of(&order, "OJGD", 5, vec![])]);
    let product = Child::entity(entity_of(
        &layout,
        "1",
        0,
        vec![(names[0].clone(), factories), (names[1].clone(), orders)],
    ));
    let mut paths: Vec<String> = persist(ResolvablePath::from("./"), &product, None, Some("json"))
        .into_iter()
        .map(|w| w.path)
        .collect();
    paths.sort();
    assert_eq!(
        paths,
        vec![
            "./products/1/data.json",
            "./products/1/factories/10.json",
            "./products/1/factories/20.json",
            "./products/1/factories/30.json",
            "./products/1/orders/OJGD.json",
            "./products/1/orders/ZGFS.json",
        ]
    );
}

#[test]
fn readme_expand_extracts_a_field() {
    let fields = vec![field("address", &["Address"], vec![persist_list(&["expand"])])];
    let layout = derive_persist_layout(receiver(None, None, false), &fields).unwrap();
    assert_eq!(layout.entities.len(), 1);
    assert_eq!(layout.entities[0].name, "address");
}
