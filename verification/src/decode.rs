use vstd::prelude::*;
use bevy_property::PropertyTypeRegistry;
use crate::number::{identifier_of, parse_u32};
use crate::property::{
    containers_view, entities_view, names_view, props_view, ContainerView, DynamicProperties,
    Entity, EntityView, Property, PropertyView, Scene, Shape,
};
use crate::registry::{is_registered, resolved_names, PropertyDecoder};
use crate::value::{fields_view, values_view, Value, ValueView};

verus! {

/// Why a value tree is no scene.
#[derive(Debug, PartialEq, Eq)]
pub enum DecodeError {
    /// The type name of a struct node that the registry does not resolve.
    MissingRegistration(String),
    /// The node that stands where a component is expected and is neither a struct
    /// nor a map.
    NotProperties(Value),
    /// The node that stands where an entity is expected and is no tuple of an
    /// identifier and a list.
    ExpectedEntity(Value),
    /// The root, which is no list.
    ExpectedEntityList(Value),
    /// The cause for which a registered type refused its node.
    Deserialize(String),
}

/// The content of a [`DecodeError`].
pub enum DecodeErrorView {
    MissingRegistration(Seq<char>),
    NotProperties(ValueView),
    ExpectedEntity(ValueView),
    ExpectedEntityList(ValueView),
    Deserialize(Seq<char>),
}

impl View for DecodeError {
    type V = DecodeErrorView;

    open spec fn view(&self) -> DecodeErrorView {
        match self {
            DecodeError::MissingRegistration(name) => DecodeErrorView::MissingRegistration(name@),
            DecodeError::NotProperties(v) => DecodeErrorView::NotProperties(v@),
            DecodeError::ExpectedEntity(v) => DecodeErrorView::ExpectedEntity(v@),
            DecodeError::ExpectedEntityList(v) => DecodeErrorView::ExpectedEntityList(v@),
            DecodeError::Deserialize(cause) => DecodeErrorView::Deserialize(cause@),
        }
    }
}

/// The content of the outcome of decoding a property.
pub open spec fn decoded_property_view(r: Result<Property, DecodeError>) -> Result<
    PropertyView,
    DecodeErrorView,
> {
    match r {
        Ok(p) => Ok(p@),
        Err(e) => Err(e@),
    }
}

/// The content of the outcome of decoding a container.
pub open spec fn decoded_container_view(r: Result<DynamicProperties, DecodeError>) -> Result<
    ContainerView,
    DecodeErrorView,
> {
    match r {
        Ok(c) => Ok(c@),
        Err(e) => Err(e@),
    }
}

/// The content of the outcome of decoding an entity.
pub open spec fn decoded_entity_view(r: Result<Entity, DecodeError>) -> Result<
    EntityView,
    DecodeErrorView,
> {
    match r {
        Ok(e) => Ok(e@),
        Err(e) => Err(e@),
    }
}

/// The content of the outcome of decoding a scene.
pub open spec fn decoded_scene_view(r: Result<Scene, DecodeError>) -> Result<
    Seq<EntityView>,
    DecodeErrorView,
> {
    match r {
        Ok(s) => Ok(s@),
        Err(e) => Err(e@),
    }
}

/// The property of a node, read as the type named `name`; a refusal becomes a
/// `Deserialize` error with the same cause.
pub open spec fn decode_property_spec<D: PropertyDecoder>(
    decoder: &D,
    name: Seq<char>,
    value: ValueView,
) -> Result<PropertyView, DecodeErrorView> {
    match decoder.decoded(name, value) {
        Ok(p) => Ok(p),
        Err(cause) => Err(DecodeErrorView::Deserialize(cause)),
    }
}

/// A container with `prop` under `key`: in the place of the first property of that
/// name, or at the end under a new name.
pub open spec fn with_prop(c: ContainerView, key: Seq<char>, prop: PropertyView) -> ContainerView {
    match c.names.index_of_first(key) {
        Some(i) => ContainerView { props: c.props.update(i, prop), ..c },
        None => ContainerView { names: c.names.push(key), props: c.props.push(prop), ..c },
    }
}

/// The named container of a type without properties yet.
pub open spec fn empty_container(name: Seq<char>) -> ContainerView {
    ContainerView {
        declared_name: name,
        type_id: Some(name),
        shape: Shape::Named,
        names: Seq::empty(),
        props: Seq::empty(),
    }
}

/// The container of the first `n` fields of a struct node of type `name`, each read
/// as that type and set under its key in turn, or the first error among them.
pub open spec fn decode_fields_spec<D: PropertyDecoder>(
    decoder: &D,
    name: Seq<char>,
    fields: Seq<(Seq<char>, ValueView)>,
    n: nat,
) -> Result<ContainerView, DecodeErrorView>
    decreases n,
{
    if n == 0 || n > fields.len() {
        Ok(empty_container(name))
    } else {
        match decode_fields_spec(decoder, name, fields, (n - 1) as nat) {
            Err(e) => Err(e),
            Ok(c) => match decode_property_spec(decoder, name, fields[n - 1].1) {
                Err(e) => Err(e),
                Ok(p) => Ok(with_prop(c, fields[n - 1].0, p)),
            },
        }
    }
}

/// The container of a node.
///
/// A map node is read by its structure alone. A struct node needs its type name among
/// `names`, and gives the container of its fields. Any other node is an error that
/// holds it.
pub open spec fn decode_dynamic_spec<D: PropertyDecoder>(
    names: Set<Seq<char>>,
    decoder: &D,
    value: ValueView,
) -> Result<ContainerView, DecodeErrorView> {
    match value {
        ValueView::Mapping(_) => match decoder.decoded_map(value) {
            Ok(c) => Ok(c),
            Err(cause) => Err(DecodeErrorView::Deserialize(cause)),
        },
        ValueView::Struct(name, fields) => if names.contains(name) {
            decode_fields_spec(decoder, name, fields, fields.len())
        } else {
            Err(DecodeErrorView::MissingRegistration(name))
        },
        _ => Err(DecodeErrorView::NotProperties(value)),
    }
}

/// The containers of the first `n` nodes, or the first error among them.
pub open spec fn decode_components_spec<D: PropertyDecoder>(
    names: Set<Seq<char>>,
    decoder: &D,
    items: Seq<ValueView>,
    n: nat,
) -> Result<Seq<ContainerView>, DecodeErrorView>
    decreases n,
{
    if n == 0 || n > items.len() {
        Ok(Seq::empty())
    } else {
        match decode_components_spec(names, decoder, items, (n - 1) as nat) {
            Err(e) => Err(e),
            Ok(done) => match decode_dynamic_spec(names, decoder, items[n - 1]) {
                Err(e) => Err(e),
                Ok(c) => Ok(done.push(c)),
            },
        }
    }
}

/// The identifier and the component nodes of an entity node: a tuple of exactly two
/// nodes, the first a number that writes an identifier, the second a list.
pub open spec fn entity_parts(value: ValueView) -> Option<(u32, Seq<ValueView>)> {
    match value {
        ValueView::Tuple(items) => if items.len() == 2 {
            match (items[0], items[1]) {
                (ValueView::Number(text), ValueView::List(components)) => match identifier_of(
                    text,
                ) {
                    Some(id) => Some((id, components)),
                    None => None,
                },
                _ => None,
            }
        } else {
            None
        },
        _ => None,
    }
}

/// The entity of a node: its parts decoded, or an error that holds the node where it
/// has not the shape of an entity.
pub open spec fn decode_entity_spec<D: PropertyDecoder>(
    names: Set<Seq<char>>,
    decoder: &D,
    value: ValueView,
) -> Result<EntityView, DecodeErrorView> {
    match entity_parts(value) {
        None => Err(DecodeErrorView::ExpectedEntity(value)),
        Some((id, components)) => match decode_components_spec(
            names,
            decoder,
            components,
            components.len(),
        ) {
            Err(e) => Err(e),
            Ok(cs) => Ok(EntityView { entity: id as nat, components: cs }),
        },
    }
}

/// The entities of the first `n` nodes, or the first error among them.
pub open spec fn decode_entities_spec<D: PropertyDecoder>(
    names: Set<Seq<char>>,
    decoder: &D,
    items: Seq<ValueView>,
    n: nat,
) -> Result<Seq<EntityView>, DecodeErrorView>
    decreases n,
{
    if n == 0 || n > items.len() {
        Ok(Seq::empty())
    } else {
        match decode_entities_spec(names, decoder, items, (n - 1) as nat) {
            Err(e) => Err(e),
            Ok(done) => match decode_entity_spec(names, decoder, items[n - 1]) {
                Err(e) => Err(e),
                Ok(c) => Ok(done.push(c)),
            },
        }
    }
}

/// The scene of a root node: the entities of a list in order, or an error that holds
/// the root where it is no list.
pub open spec fn decode_scene_spec<D: PropertyDecoder>(
    names: Set<Seq<char>>,
    decoder: &D,
    value: ValueView,
) -> Result<Seq<EntityView>, DecodeErrorView> {
    match value {
        ValueView::List(items) => decode_entities_spec(names, decoder, items, items.len()),
        _ => Err(DecodeErrorView::ExpectedEntityList(value)),
    }
}

/// Once a prefix fails, every longer prefix fails in the same way.
pub proof fn lemma_fields_error<D: PropertyDecoder>(
    decoder: &D,
    name: Seq<char>,
    fields: Seq<(Seq<char>, ValueView)>,
    n: nat,
    m: nat,
)
    requires
        n <= m <= fields.len(),
        decode_fields_spec(decoder, name, fields, n) is Err,
    ensures
        decode_fields_spec(decoder, name, fields, m) == decode_fields_spec(
            decoder,
            name,
            fields,
            n,
        ),
    decreases m,
{
    if n < m {
        lemma_fields_error(decoder, name, fields, n, (m - 1) as nat);
    }
}

/// Once a prefix fails, every longer prefix fails in the same way.
pub proof fn lemma_decode_components_error<D: PropertyDecoder>(
    names: Set<Seq<char>>,
    decoder: &D,
    items: Seq<ValueView>,
    n: nat,
    m: nat,
)
    requires
        n <= m <= items.len(),
        decode_components_spec(names, decoder, items, n) is Err,
    ensures
        decode_components_spec(names, decoder, items, m) == decode_components_spec(
            names,
            decoder,
            items,
            n,
        ),
    decreases m,
{
    if n < m {
        lemma_decode_components_error(names, decoder, items, n, (m - 1) as nat);
    }
}

/// Once a prefix fails, every longer prefix fails in the same way.
pub proof fn lemma_decode_entities_error<D: PropertyDecoder>(
    names: Set<Seq<char>>,
    decoder: &D,
    items: Seq<ValueView>,
    n: nat,
    m: nat,
)
    requires
        n <= m <= items.len(),
        decode_entities_spec(names, decoder, items, n) is Err,
    ensures
        decode_entities_spec(names, decoder, items, m) == decode_entities_spec(
            names,
            decoder,
            items,
            n,
        ),
    decreases m,
{
    if n < m {
        lemma_decode_entities_error(names, decoder, items, n, (m - 1) as nat);
    }
}

/// Decodes one node as the type registered as `name`.
pub fn value_to_property_box<D: PropertyDecoder>(
    decoder: &D,
    value: &Value,
    name: &String,
) -> (r: Result<Property, DecodeError>)
    ensures
        decoded_property_view(r) == decode_property_spec(decoder, name@, value@),
{
    match decoder.deserialize(name, value) {
        Ok(p) => Ok(p),
        Err(cause) => Err(DecodeError::Deserialize(cause)),
    }
}

/// The first position of `key` among `names`.
#[verifier::loop_isolation(false)]
fn find_name(names: &Vec<String>, key: &String) -> (at: Option<usize>)
    ensures
        match at {
            Some(i) => names_view(*names).index_of_first(key@) == Some(i as int) && i
                < names.len(),
            None => names_view(*names).index_of_first(key@) is None,
        },
{
    let mut i: usize = 0;
    proof {
        names_view(*names).index_of_first_ensures(key@);
    }
    while i < names.len()
        invariant
            i <= names.len(),
            forall|j: int| 0 <= j < i ==> names_view(*names)[j] != key@,
        decreases names.len() - i,
    {
        if names[i] == *key {
            assert(names_view(*names)[i as int] == key@);
            assert(names_view(*names).contains(key@));
            return Some(i);
        }
        i += 1;
    }
    None
}

/// Sets `prop` under `key`: in the place of the first property of that name, or at
/// the end under a new name.
pub fn set_prop(container: &mut DynamicProperties, key: &String, prop: Property)
    requires
        old(container).names.len() == old(container).props.len(),
    ensures
        final(container)@ == with_prop(old(container)@, key@, prop@),
        final(container).names.len() == final(container).props.len(),
{
    let ghost before = old(container)@;
    assert(before.props == props_view(old(container).props));
    assert(before.props.len() == old(container).props.len());
    assert(forall|j: int|
        0 <= j < before.props.len() ==> before.props[j] == #[trigger] old(container).props[j]@);
    let found = find_name(&container.names, key);
    match found {
        Some(i) => {
            container.props.set(i, prop);
            assert(props_view(container.props) =~= before.props.update(i as int, prop@));
            assert(names_view(container.names) =~= before.names);
        },
        None => {
            container.names.push(key.clone());
            container.props.push(prop);
            assert(props_view(container.props) =~= before.props.push(prop@));
            assert(names_view(container.names) =~= before.names.push(key@));
        },
    }
}

/// Decodes one node into a container.
#[verifier::loop_isolation(false)]
pub fn value_to_dynamic_properties<D: PropertyDecoder>(
    registry: &PropertyTypeRegistry,
    decoder: &D,
    value: &Value,
) -> (r: Result<DynamicProperties, DecodeError>)
    ensures
        decoded_container_view(r) == decode_dynamic_spec(
            resolved_names(*registry),
            decoder,
            value@,
        ),
{
    match value {
        Value::Mapping(_) => match decoder.deserialize_map(value) {
            Ok(c) => Ok(c),
            Err(cause) => Err(DecodeError::Deserialize(cause)),
        },
        Value::Struct(name, fields) => {
            if !is_registered(registry, name.as_str()) {
                return Err(DecodeError::MissingRegistration(name.clone()));
            }
            let mut container = DynamicProperties {
                declared_name: name.clone(),
                type_id: Some(name.clone()),
                shape: Shape::Named,
                names: Vec::new(),
                props: Vec::new(),
            };
            assert(container@.names =~= Seq::<Seq<char>>::empty());
            assert(container@.props =~= Seq::<PropertyView>::empty());
            let mut i: usize = 0;
            while i < fields.len()
                invariant
                    i <= fields.len(),
                    container.names.len() == container.props.len(),
                    decode_fields_spec(decoder, name@, fields_view(*fields), i as nat) == Ok::<
                        ContainerView,
                        DecodeErrorView,
                    >(container@),
                decreases fields.len() - i,
            {
                assert(fields_view(*fields)[i as int] == (fields[i as int].0@, fields[i as int].1@));
                match value_to_property_box(decoder, &fields[i].1, name) {
                    Err(e) => {
                        proof {
                            lemma_fields_error(
                                decoder,
                                name@,
                                fields_view(*fields),
                                (i + 1) as nat,
                                fields.len() as nat,
                            );
                        }
                        return Err(e);
                    },
                    Ok(p) => {
                        set_prop(&mut container, &fields[i].0, p);
                    },
                }
                i += 1;
            }
            Ok(container)
        },
        _ => Err(DecodeError::NotProperties(value.duplicate())),
    }
}

/// The identifier and the component nodes of an entity node, if it has that shape.
fn split_entity(value: &Value) -> (parts: Option<(u32, &Vec<Value>)>)
    ensures
        match parts {
            Some((id, components)) => entity_parts(value@) == Some(
                (id, values_view(*components)),
            ),
            None => entity_parts(value@) is None,
        },
{
    match value {
        Value::Tuple(items) => {
            if items.len() != 2 {
                return None;
            }
            assert(values_view(*items)[0] == items[0]@);
            assert(values_view(*items)[1] == items[1]@);
            match (&items[0], &items[1]) {
                (Value::Number(text), Value::List(components)) => match parse_u32(text.as_str()) {
                    Some(id) => Some((id, components)),
                    None => None,
                },
                _ => None,
            }
        },
        _ => None,
    }
}

/// Decodes one node into an entity.
#[verifier::loop_isolation(false)]
pub fn value_to_entity<D: PropertyDecoder>(
    registry: &PropertyTypeRegistry,
    decoder: &D,
    value: &Value,
) -> (r: Result<Entity, DecodeError>)
    ensures
        decoded_entity_view(r) == decode_entity_spec(resolved_names(*registry), decoder, value@),
{
    match split_entity(value) {
        None => Err(DecodeError::ExpectedEntity(value.duplicate())),
        Some((id, nodes)) => {
            let ghost names = resolved_names(*registry);
            let mut components: Vec<DynamicProperties> = Vec::new();
            let mut i: usize = 0;
            while i < nodes.len()
                invariant
                    i <= nodes.len(),
                    names == resolved_names(*registry),
                    decode_components_spec(names, decoder, values_view(*nodes), i as nat) is Ok,
                    decode_components_spec(names, decoder, values_view(*nodes), i as nat)->Ok_0
                        =~= containers_view(components),
                decreases nodes.len() - i,
            {
                assert(values_view(*nodes)[i as int] == nodes[i as int]@);
                match value_to_dynamic_properties(registry, decoder, &nodes[i]) {
                    Err(e) => {
                        proof {
                            lemma_decode_components_error(
                                names,
                                decoder,
                                values_view(*nodes),
                                (i + 1) as nat,
                                nodes.len() as nat,
                            );
                        }
                        return Err(e);
                    },
                    Ok(c) => {
                        let ghost before = containers_view(components);
                        components.push(c);
                        assert(containers_view(components) =~= before.push(c@));
                    },
                }
                i += 1;
            }
            Ok(Entity { entity: id, components })
        },
    }
}

/// Decodes a root node into a scene: the entities of a list, in order, or the first
/// error met on the way through them.
#[verifier::loop_isolation(false)]
pub fn value_to_scene<D: PropertyDecoder>(
    registry: &PropertyTypeRegistry,
    decoder: &D,
    value: &Value,
) -> (r: Result<Scene, DecodeError>)
    ensures
        decoded_scene_view(r) == decode_scene_spec(resolved_names(*registry), decoder, value@),
{
    match value {
        Value::List(nodes) => {
            let ghost names = resolved_names(*registry);
            let mut entities: Vec<Entity> = Vec::new();
            let mut i: usize = 0;
            while i < nodes.len()
                invariant
                    i <= nodes.len(),
                    names == resolved_names(*registry),
                    decode_entities_spec(names, decoder, values_view(*nodes), i as nat) is Ok,
                    decode_entities_spec(names, decoder, values_view(*nodes), i as nat)->Ok_0
                        =~= entities_view(entities),
                decreases nodes.len() - i,
            {
                assert(values_view(*nodes)[i as int] == nodes[i as int]@);
                match value_to_entity(registry, decoder, &nodes[i]) {
                    Err(e) => {
                        proof {
                            lemma_decode_entities_error(
                                names,
                                decoder,
                                values_view(*nodes),
                                (i + 1) as nat,
                                nodes.len() as nat,
                            );
                        }
                        return Err(e);
                    },
                    Ok(entity) => {
                        let ghost before = entities_view(entities);
                        entities.push(entity);
                        assert(entities_view(entities) =~= before.push(entity@));
                    },
                }
                i += 1;
            }
            Ok(Scene { entities })
        },
        _ => Err(DecodeError::ExpectedEntityList(value.duplicate())),
    }
}

} // verus!
