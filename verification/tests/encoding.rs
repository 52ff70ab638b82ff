use scene_codec::encode::{
    dynamic_properties_to_value, entity_to_value, property_to_value, scene_to_value, EncodeError,
};
use scene_codec::property::{DynamicProperties, Entity, Property, Scene, Shape};
use scene_codec::value::Value;

fn number(text: &str) -> Value {
    Value::Number(text.to_string())
}

fn leaf(text: &str) -> Property {
    Property::Opaque(number(text))
}

fn container(name: &str, shape: Shape, names: &[&str], props: Vec<Property>) -> DynamicProperties {
    DynamicProperties {
        declared_name: name.to_string(),
        type_id: Some(name.to_string()),
        shape,
        names: names.iter().map(|n| n.to_string()).collect(),
        props,
    }
}

fn point(x: &str, y: &str) -> DynamicProperties {
    container("ComponentA", Shape::Named, &["x", "y"], vec![leaf(x), leaf(y)])
}

fn point_tree(x: &str, y: &str) -> Value {
    Value::Struct(
        "ComponentA".to_string(),
        vec![("x".to_string(), number(x)), ("y".to_string(), number(y))],
    )
}

#[test]
fn named_fields_keep_declared_order_and_text() {
    let tree = dynamic_properties_to_value(&point("1.0", "2.0")).unwrap();
    assert_eq!(tree, point_tree("1.0", "2.0"));
    assert_ne!(tree, point_tree("1", "2"));
}

#[test]
fn positional_fields_become_a_list() {
    let c = container("Pair", Shape::Positional, &[], vec![leaf("3"), leaf("4")]);
    assert_eq!(
        dynamic_properties_to_value(&c).unwrap(),
        Value::List(vec![number("3"), number("4")])
    );
}

#[test]
fn entity_is_a_tuple_struct_of_id_and_components() {
    let e = Entity { entity: 0, components: vec![point("1.0", "2.0"), point("3.0", "4.0")] };
    assert_eq!(
        entity_to_value(&e).unwrap(),
        Value::TupleStruct(
            "Entity".to_string(),
            vec![
                number("0"),
                Value::List(vec![point_tree("1.0", "2.0"), point_tree("3.0", "4.0")]),
            ],
        )
    );
}

#[test]
fn entity_identifier_is_written_in_decimal() {
    let e = Entity { entity: 4294967295, components: vec![] };
    assert_eq!(
        entity_to_value(&e).unwrap(),
        Value::TupleStruct(
            "Entity".to_string(),
            vec![number("4294967295"), Value::List(vec![])],
        )
    );
    let e = Entity { entity: 1070, components: vec![] };
    assert_eq!(
        entity_to_value(&e).unwrap(),
        Value::TupleStruct("Entity".to_string(), vec![number("1070"), Value::List(vec![])])
    );
}

#[test]
fn scene_is_the_list_of_its_entities_in_order() {
    let scene = Scene {
        entities: vec![
            Entity { entity: 7, components: vec![point("1.0", "2.0")] },
            Entity { entity: 3, components: vec![] },
        ],
    };
    assert_eq!(
        scene_to_value(&scene).unwrap(),
        Value::List(vec![
            Value::TupleStruct(
                "Entity".to_string(),
                vec![number("7"), Value::List(vec![point_tree("1.0", "2.0")])],
            ),
            Value::TupleStruct("Entity".to_string(), vec![number("3"), Value::List(vec![])]),
        ])
    );
}

#[test]
fn empty_scene_is_the_empty_list() {
    assert_eq!(scene_to_value(&Scene { entities: vec![] }).unwrap(), Value::List(vec![]));
}

#[test]
fn leaf_encodes_to_the_same_value_every_time() {
    let p = Property::Opaque(Value::Text("hello".to_string()));
    let first = property_to_value(&p).unwrap();
    let second = property_to_value(&p).unwrap();
    assert_eq!(first, Value::Text("hello".to_string()));
    assert_eq!(first, second);
}

#[test]
fn nested_containers_are_encoded_in_place() {
    let inner = container("Inner", Shape::Positional, &[], vec![leaf("1"), leaf("2")]);
    let outer = container(
        "Outer",
        Shape::Named,
        &["items", "label"],
        vec![Property::Structured(inner), Property::Opaque(Value::Text("a".to_string()))],
    );
    assert_eq!(
        dynamic_properties_to_value(&outer).unwrap(),
        Value::Struct(
            "Outer".to_string(),
            vec![
                ("items".to_string(), Value::List(vec![number("1"), number("2")])),
                ("label".to_string(), Value::Text("a".to_string())),
            ],
        )
    );
}

#[test]
fn the_identifier_not_the_declared_name_tags_the_struct() {
    let mut c = point("1", "2");
    c.declared_name = "game::ComponentA".to_string();
    c.type_id = Some("ComponentA".to_string());
    assert_eq!(dynamic_properties_to_value(&c).unwrap(), point_tree("1", "2"));
}

#[test]
fn names_and_properties_are_paired_until_either_runs_out() {
    let more_names = container("T", Shape::Named, &["a", "b", "c"], vec![leaf("1")]);
    assert_eq!(
        dynamic_properties_to_value(&more_names).unwrap(),
        Value::Struct("T".to_string(), vec![("a".to_string(), number("1"))])
    );
    let more_props = container("T", Shape::Named, &["a"], vec![leaf("1"), leaf("2")]);
    assert_eq!(
        dynamic_properties_to_value(&more_props).unwrap(),
        Value::Struct("T".to_string(), vec![("a".to_string(), number("1"))])
    );
}

#[test]
fn unparsed_type_name_is_an_error() {
    let mut c = point("1", "2");
    c.declared_name = "not a type".to_string();
    c.type_id = None;
    assert_eq!(
        dynamic_properties_to_value(&c),
        Err(EncodeError::UnparsedTypeName("not a type".to_string()))
    );
}

#[test]
fn unsupported_shape_is_an_error() {
    let c = container("Scalar", Shape::Single, &[], vec![leaf("1")]);
    assert_eq!(
        dynamic_properties_to_value(&c),
        Err(EncodeError::UnsupportedShape("Scalar".to_string()))
    );
}

#[test]
fn the_first_failing_node_decides_the_error() {
    let bad_shape = container("Second", Shape::Single, &[], vec![]);
    let mut bad_name = point("1", "2");
    bad_name.declared_name = "First".to_string();
    bad_name.type_id = None;
    let scene = Scene {
        entities: vec![
            Entity { entity: 1, components: vec![point("1", "2"), bad_name] },
            Entity { entity: 2, components: vec![bad_shape] },
        ],
    };
    assert_eq!(
        scene_to_value(&scene),
        Err(EncodeError::UnparsedTypeName("First".to_string()))
    );
}

#[test]
fn a_child_beyond_the_paired_fields_is_not_looked_at() {
    let bad = container("Bad", Shape::Single, &[], vec![]);
    let c = container("T", Shape::Named, &["a"], vec![leaf("1"), Property::Structured(bad)]);
    assert_eq!(
        dynamic_properties_to_value(&c).unwrap(),
        Value::Struct("T".to_string(), vec![("a".to_string(), number("1"))])
    );
}
