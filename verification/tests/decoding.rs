use bevy_property::PropertyTypeRegistry;
use scene_codec::decode::{
    set_prop, value_to_dynamic_properties, value_to_entity, value_to_property_box, value_to_scene,
    DecodeError,
};
use scene_codec::encode::{dynamic_properties_to_value, entity_to_value, scene_to_value};
use scene_codec::property::{DynamicProperties, Entity, Property, Scene, Shape};
use scene_codec::registry::{LeafDecoder, PropertyDecoder};
use scene_codec::value::Value;

fn registry() -> PropertyTypeRegistry {
    let mut registry = PropertyTypeRegistry::default();
    registry.register::<std::ops::Range<f32>>();
    registry.register::<Option<u32>>();
    registry
}

fn number(text: &str) -> Value {
    Value::Number(text.to_string())
}

fn range(start: &str, end: &str) -> DynamicProperties {
    DynamicProperties {
        declared_name: "Range<f32>".to_string(),
        type_id: Some("Range<f32>".to_string()),
        shape: Shape::Named,
        names: vec!["start".to_string(), "end".to_string()],
        props: vec![Property::Opaque(number(start)), Property::Opaque(number(end))],
    }
}

fn range_tree(start: &str, end: &str) -> Value {
    Value::Struct(
        "Range<f32>".to_string(),
        vec![("start".to_string(), number(start)), ("end".to_string(), number(end))],
    )
}

#[test]
fn struct_of_a_registered_type_becomes_a_named_container() {
    let decoded =
        value_to_dynamic_properties(&registry(), &LeafDecoder {}, &range_tree("1.0", "2.0"));
    assert_eq!(decoded, Ok(range("1.0", "2.0")));
}

#[test]
fn full_and_short_names_are_resolved() {
    let full = Value::Struct("core::ops::range::Range<f32>".to_string(), vec![]);
    let decoded = value_to_dynamic_properties(&registry(), &LeafDecoder {}, &full).unwrap();
    assert_eq!(decoded.declared_name, "core::ops::range::Range<f32>");
    assert_eq!(decoded.shape, Shape::Named);
    let short = Value::Struct("Option<u32>".to_string(), vec![]);
    assert!(value_to_dynamic_properties(&registry(), &LeafDecoder {}, &short).is_ok());
}

#[test]
fn unknown_type_is_refused_by_name() {
    let tree = Value::Struct("UnknownType".to_string(), vec![("x".to_string(), number("1"))]);
    assert_eq!(
        value_to_dynamic_properties(&registry(), &LeafDecoder {}, &tree),
        Err(DecodeError::MissingRegistration("UnknownType".to_string()))
    );
    assert_eq!(
        value_to_dynamic_properties(
            &PropertyTypeRegistry::default(),
            &LeafDecoder {},
            &range_tree("1", "2")
        ),
        Err(DecodeError::MissingRegistration("Range<f32>".to_string()))
    );
}

#[test]
fn a_node_that_is_no_struct_or_map_is_no_component() {
    for tree in [
        number("1"),
        Value::Text("a".to_string()),
        Value::List(vec![]),
        Value::Tuple(vec![]),
        Value::TupleStruct("Option<u32>".to_string(), vec![]),
    ] {
        assert_eq!(
            value_to_dynamic_properties(&registry(), &LeafDecoder {}, &tree),
            Err(DecodeError::NotProperties(tree.duplicate()))
        );
    }
}

#[test]
fn a_map_is_handed_to_the_decoder_whole() {
    let tree = Value::Mapping(vec![(Value::Text("k".to_string()), number("1"))]);
    assert_eq!(
        value_to_dynamic_properties(&registry(), &LeafDecoder {}, &tree),
        Err(DecodeError::Deserialize("no type reads a map".to_string()))
    );
}

#[test]
fn leaf_decoder_reads_every_node_as_a_leaf() {
    let node = Value::List(vec![number("1")]);
    assert_eq!(
        LeafDecoder {}.deserialize(&"Option<u32>".to_string(), &node),
        Ok(Property::Opaque(node.duplicate()))
    );
    assert_eq!(
        value_to_property_box(&LeafDecoder {}, &node, &"Option<u32>".to_string()),
        Ok(Property::Opaque(node.duplicate()))
    );
}

#[test]
fn a_repeated_field_name_replaces_the_first_property() {
    let tree = Value::Struct(
        "Option<u32>".to_string(),
        vec![
            ("a".to_string(), number("1")),
            ("b".to_string(), number("2")),
            ("a".to_string(), number("3")),
        ],
    );
    let decoded = value_to_dynamic_properties(&registry(), &LeafDecoder {}, &tree).unwrap();
    assert_eq!(decoded.names, vec!["a".to_string(), "b".to_string()]);
    assert_eq!(
        decoded.props,
        vec![Property::Opaque(number("3")), Property::Opaque(number("2"))]
    );
}

#[test]
fn set_prop_appends_or_replaces() {
    let mut c = range("1", "2");
    set_prop(&mut c, &"end".to_string(), Property::Opaque(number("9")));
    assert_eq!(c, range("1", "9"));
    set_prop(&mut c, &"step".to_string(), Property::Opaque(number("4")));
    assert_eq!(c.names, vec!["start".to_string(), "end".to_string(), "step".to_string()]);
    assert_eq!(c.props.len(), 3);
    assert_eq!(c.props[2], Property::Opaque(number("4")));
}

#[test]
fn entity_is_a_tuple_of_identifier_and_list() {
    let tree = Value::Tuple(vec![
        number("12"),
        Value::List(vec![range_tree("1.0", "2.0"), range_tree("3.0", "4.0")]),
    ]);
    assert_eq!(
        value_to_entity(&registry(), &LeafDecoder {}, &tree),
        Ok(Entity { entity: 12, components: vec![range("1.0", "2.0"), range("3.0", "4.0")] })
    );
}

#[test]
fn malformed_entities_are_refused() {
    let bad = vec![
        number("1"),
        Value::Tuple(vec![]),
        Value::Tuple(vec![number("1")]),
        Value::Tuple(vec![number("1"), Value::List(vec![]), Value::List(vec![])]),
        Value::Tuple(vec![number("1"), Value::Tuple(vec![])]),
        Value::Tuple(vec![Value::Text("1".to_string()), Value::List(vec![])]),
        Value::Tuple(vec![number("1.5"), Value::List(vec![])]),
        Value::Tuple(vec![number("4294967296"), Value::List(vec![])]),
        Value::Tuple(vec![number(""), Value::List(vec![])]),
        Value::TupleStruct("Entity".to_string(), vec![number("1"), Value::List(vec![])]),
    ];
    for tree in bad {
        assert_eq!(
            value_to_entity(&registry(), &LeafDecoder {}, &tree),
            Err(DecodeError::ExpectedEntity(tree.duplicate()))
        );
    }
}

#[test]
fn scene_with_a_malformed_entity_is_refused() {
    let tree = Value::List(vec![number("1")]);
    assert_eq!(
        value_to_scene(&registry(), &LeafDecoder {}, &tree),
        Err(DecodeError::ExpectedEntity(number("1")))
    );
}

#[test]
fn scene_root_must_be_a_list() {
    let tree = range_tree("1", "2");
    assert_eq!(
        value_to_scene(&registry(), &LeafDecoder {}, &tree),
        Err(DecodeError::ExpectedEntityList(range_tree("1", "2")))
    );
    let tree = Value::Tuple(vec![]);
    assert_eq!(
        value_to_scene(&registry(), &LeafDecoder {}, &tree),
        Err(DecodeError::ExpectedEntityList(Value::Tuple(vec![])))
    );
}

#[test]
fn scene_keeps_entities_in_order() {
    let tree = Value::List(vec![
        Value::Tuple(vec![number("2"), Value::List(vec![range_tree("1", "2")])]),
        Value::Tuple(vec![number("1"), Value::List(vec![])]),
    ]);
    assert_eq!(
        value_to_scene(&registry(), &LeafDecoder {}, &tree),
        Ok(Scene {
            entities: vec![
                Entity { entity: 2, components: vec![range("1", "2")] },
                Entity { entity: 1, components: vec![] },
            ],
        })
    );
    assert_eq!(
        value_to_scene(&registry(), &LeafDecoder {}, &Value::List(vec![])),
        Ok(Scene { entities: vec![] })
    );
}

#[test]
fn the_first_failing_node_decides_the_decode_error() {
    let tree = Value::List(vec![
        Value::Tuple(vec![
            number("1"),
            Value::List(vec![
                range_tree("1", "2"),
                Value::Struct("Missing".to_string(), vec![]),
                number("3"),
            ]),
        ]),
        number("4"),
    ]);
    assert_eq!(
        value_to_scene(&registry(), &LeafDecoder {}, &tree),
        Err(DecodeError::MissingRegistration("Missing".to_string()))
    );
}

#[test]
fn component_round_trip() {
    let c = range("1.0", "2.0");
    let tree = dynamic_properties_to_value(&c).unwrap();
    assert_eq!(value_to_dynamic_properties(&registry(), &LeafDecoder {}, &tree), Ok(c));
}

#[test]
fn entity_round_trip_through_a_plain_tuple() {
    let e = Entity { entity: 4000000000, components: vec![range("1.0", "2.0")] };
    let fields = match entity_to_value(&e).unwrap() {
        Value::TupleStruct(name, fields) => {
            assert_eq!(name, "Entity");
            fields
        },
        other => panic!("{:?}", other),
    };
    assert_eq!(value_to_entity(&registry(), &LeafDecoder {}, &Value::Tuple(fields)), Ok(e));
}

#[test]
fn scene_round_trip() {
    let empty = Scene { entities: vec![] };
    let tree = scene_to_value(&empty).unwrap();
    assert_eq!(value_to_scene(&registry(), &LeafDecoder {}, &tree), Ok(empty));

    let scene = Scene { entities: vec![Entity { entity: 0, components: vec![range("1", "2")] }] };
    let tree = scene_to_value(&scene).unwrap();
    let first = entity_to_value(&scene.entities[0]).unwrap();
    assert_eq!(
        value_to_scene(&registry(), &LeafDecoder {}, &tree),
        Err(DecodeError::ExpectedEntity(first))
    );
}
