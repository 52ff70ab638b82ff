use bevy_property::PropertyTypeRegistry;
use scene_codec::decode::{value_to_dynamic_properties, value_to_scene, DecodeError};
use scene_codec::property::{DynamicProperties, Property, Shape};
use scene_codec::plan::{scene_requests, Requests};
use scene_codec::registry::{MapReading, PropertyDecoder, Reading, RecordedDecoder};
use scene_codec::value::Value;

fn reading(name: &str, node: Value, outcome: Result<Property, String>) -> Reading {
    Reading { name: name.to_string(), node, outcome }
}

fn bounds() -> Property {
    Property::Structured(DynamicProperties {
        declared_name: "Range<f32>".to_string(),
        type_id: Some("Range<f32>".to_string()),
        shape: Shape::Positional,
        names: vec![],
        props: vec![Property::Opaque(number("1")), Property::Opaque(number("2"))],
    })
}

fn from_map() -> DynamicProperties {
    DynamicProperties {
        declared_name: "map".to_string(),
        type_id: None,
        shape: Shape::Named,
        names: vec!["k".to_string()],
        props: vec![Property::Opaque(number("5"))],
    }
}

/// Numbers are leaves, one list is a positional container, two nodes are refused.
fn decoder() -> RecordedDecoder {
    RecordedDecoder {
        readings: vec![
            reading("Range<f32>", number("1"), Ok(Property::Opaque(number("1")))),
            reading(
                "Range<f32>",
                Value::Text("two".to_string()),
                Err("not a number".to_string()),
            ),
            reading("Range<f32>", Value::Tuple(vec![]), Err("not a number".to_string())),
            reading("Range<f32>", Value::List(vec![number("1"), number("2")]), Ok(bounds())),
            reading("Range<f32>", number("1"), Err("never reached".to_string())),
        ],
        map_readings: vec![MapReading {
            node: Value::Mapping(vec![(Value::Text("k".to_string()), number("5"))]),
            outcome: Ok(from_map()),
        }],
    }
}

fn registry() -> PropertyTypeRegistry {
    let mut registry = PropertyTypeRegistry::default();
    registry.register::<std::ops::Range<f32>>();
    registry
}

fn number(text: &str) -> Value {
    Value::Number(text.to_string())
}

#[test]
fn a_refused_field_is_a_deserialize_error_with_its_cause() {
    let tree = Value::Struct(
        "Range<f32>".to_string(),
        vec![
            ("start".to_string(), number("1")),
            ("end".to_string(), Value::Text("two".to_string())),
        ],
    );
    assert_eq!(
        value_to_dynamic_properties(&registry(), &decoder(), &tree),
        Err(DecodeError::Deserialize("not a number".to_string()))
    );
}

#[test]
fn registration_is_looked_up_before_any_field_is_read() {
    let tree = Value::Struct(
        "Unknown".to_string(),
        vec![("start".to_string(), Value::Text("one".to_string()))],
    );
    assert_eq!(
        value_to_dynamic_properties(&registry(), &decoder(), &tree),
        Err(DecodeError::MissingRegistration("Unknown".to_string()))
    );
}

#[test]
fn fields_are_read_as_the_type_of_their_struct() {
    let tree = Value::Struct(
        "Range<f32>".to_string(),
        vec![("bounds".to_string(), Value::List(vec![number("1"), number("2")]))],
    );
    let decoded = value_to_dynamic_properties(&registry(), &decoder(), &tree).unwrap();
    assert_eq!(decoded.names, vec!["bounds".to_string()]);
    assert_eq!(decoded.props, vec![bounds()]);
}

#[test]
fn what_the_decoder_makes_of_a_map_is_the_component() {
    let tree = Value::Mapping(vec![(Value::Text("k".to_string()), number("5"))]);
    assert_eq!(
        value_to_dynamic_properties(&PropertyTypeRegistry::default(), &decoder(), &tree),
        Ok(from_map())
    );
}

#[test]
fn a_refused_field_ends_the_whole_scene() {
    let tree = Value::List(vec![
        Value::Tuple(vec![number("1"), Value::List(vec![])]),
        Value::Tuple(vec![
            number("2"),
            Value::List(vec![Value::Struct(
                "Range<f32>".to_string(),
                vec![("start".to_string(), Value::Tuple(vec![]))],
            )]),
        ]),
    ]);
    assert_eq!(
        value_to_scene(&registry(), &decoder(), &tree),
        Err(DecodeError::Deserialize("not a number".to_string()))
    );
}

#[test]
fn recorded_decoder_answers_with_the_first_matching_reading() {
    let d = decoder();
    let name = "Range<f32>".to_string();
    assert_eq!(d.deserialize(&name, &number("1")), Ok(Property::Opaque(number("1"))));
    assert_eq!(
        d.deserialize(&name, &Value::List(vec![number("1"), number("2")])),
        Ok(bounds())
    );
    assert_eq!(
        d.deserialize(&name, &Value::Text("two".to_string())),
        Err("not a number".to_string())
    );
}

#[test]
fn recorded_decoder_refuses_what_was_not_recorded() {
    let d = decoder();
    assert_eq!(
        d.deserialize(&"Range<f32>".to_string(), &number("10")),
        Err("no reading recorded".to_string())
    );
    assert_eq!(
        d.deserialize(&"Range<f64>".to_string(), &number("1")),
        Err("no reading recorded".to_string())
    );
    assert_eq!(
        d.deserialize(&"Range<f32>".to_string(), &Value::Text("1".to_string())),
        Err("no reading recorded".to_string())
    );
    assert_eq!(d.deserialize_map(&Value::Mapping(vec![])), Err("no reading recorded".to_string()));
    assert_eq!(d.deserialize_map(&number("1")), Err("no reading recorded".to_string()));
}

#[test]
fn requests_list_every_field_and_map_of_the_components_in_order() {
    let map = Value::Mapping(vec![(Value::Text("k".to_string()), number("5"))]);
    let tree = Value::List(vec![
        Value::Tuple(vec![
            number("1"),
            Value::List(vec![
                Value::Struct(
                    "A".to_string(),
                    vec![("x".to_string(), number("1")), ("y".to_string(), number("2"))],
                ),
                map.duplicate(),
                number("7"),
            ]),
        ]),
        number("8"),
        Value::Tuple(vec![number("2"), Value::Tuple(vec![])]),
        Value::Tuple(vec![
            number("3"),
            Value::List(vec![Value::Struct(
                "B".to_string(),
                vec![("z".to_string(), Value::List(vec![]))],
            )]),
        ]),
    ]);
    assert_eq!(
        scene_requests(&tree),
        Requests {
            reads: vec![
                ("A".to_string(), number("1")),
                ("A".to_string(), number("2")),
                ("B".to_string(), Value::List(vec![])),
            ],
            maps: vec![map],
        }
    );
}

#[test]
fn a_root_that_is_no_list_asks_for_nothing() {
    let tree = Value::Struct("A".to_string(), vec![("x".to_string(), number("1"))]);
    assert_eq!(scene_requests(&tree), Requests { reads: vec![], maps: vec![] });
    assert_eq!(scene_requests(&Value::List(vec![])), Requests { reads: vec![], maps: vec![] });
}

#[test]
fn answering_every_request_beforehand_decodes_as_the_answering_decoder() {
    let tree = Value::List(vec![Value::Tuple(vec![
        number("9"),
        Value::List(vec![Value::Struct(
            "Range<f32>".to_string(),
            vec![("start".to_string(), number("1")), ("end".to_string(), number("2"))],
        )]),
    ])]);
    let leaves = scene_codec::registry::LeafDecoder {};
    let requests = scene_requests(&tree);
    let mut readings = Vec::new();
    for (name, node) in requests.reads {
        let outcome = leaves.deserialize(&name, &node);
        readings.push(Reading { name, node, outcome });
    }
    let recorded = RecordedDecoder { readings, map_readings: vec![] };
    assert_eq!(
        value_to_scene(&registry(), &recorded, &tree),
        value_to_scene(&registry(), &leaves, &tree)
    );
    assert!(value_to_scene(&registry(), &recorded, &tree).is_ok());
}
