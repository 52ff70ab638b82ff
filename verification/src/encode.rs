use vstd::prelude::*;
use crate::property::{
    names_view, props_view, ContainerView, DynamicProperties, Entity, EntityView, Property,
    PropertyView, Scene, Shape,
};
use crate::value::{fields_view, values_view, Value, ValueView};
use crate::number::{decimal, format_u32};

verus! {

/// Why a graph has no value tree.
#[derive(Debug, PartialEq, Eq)]
pub enum EncodeError {
    /// The declared type name of a container, which parses to no type identifier.
    UnparsedTypeName(String),
    /// The type name of a container whose shape no tree node stands for.
    UnsupportedShape(String),
}

/// The content of an [`EncodeError`].
pub enum EncodeErrorView {
    UnparsedTypeName(Seq<char>),
    UnsupportedShape(Seq<char>),
}

impl View for EncodeError {
    type V = EncodeErrorView;

    open spec fn view(&self) -> EncodeErrorView {
        match self {
            EncodeError::UnparsedTypeName(name) => EncodeErrorView::UnparsedTypeName(name@),
            EncodeError::UnsupportedShape(name) => EncodeErrorView::UnsupportedShape(name@),
        }
    }
}

/// The content of the result of an encoding step.
pub open spec fn encoded_view(r: Result<Value, EncodeError>) -> Result<ValueView, EncodeErrorView> {
    match r {
        Ok(v) => Ok(v@),
        Err(e) => Err(e@),
    }
}

/// The tree of a property: that of its container, or the leaf itself.
pub open spec fn encode_property_spec(p: PropertyView) -> Result<ValueView, EncodeErrorView>
    decreases p, 0nat,
{
    match p {
        PropertyView::Structured(inner) => encode_dynamic_spec(inner),
        PropertyView::Opaque(leaf) => Ok(leaf),
    }
}

/// The trees of the first `n` properties, or the first error among them.
pub open spec fn encode_props_spec(props: Seq<PropertyView>, n: nat) -> Result<
    Seq<ValueView>,
    EncodeErrorView,
>
    decreases props, n,
{
    if n == 0 || n > props.len() {
        Ok(Seq::empty())
    } else {
        match encode_props_spec(props, (n - 1) as nat) {
            Err(e) => Err(e),
            Ok(done) => match encode_property_spec(props[n - 1]) {
                Err(e) => Err(e),
                Ok(v) => Ok(done.push(v)),
            },
        }
    }
}

/// The number of fields that a named container shows: names and properties are
/// paired until either runs out.
pub open spec fn field_count(c: ContainerView) -> nat {
    if c.names.len() <= c.props.len() {
        c.names.len()
    } else {
        c.props.len()
    }
}

/// Each value under the name at its position.
pub open spec fn named(names: Seq<Seq<char>>, values: Seq<ValueView>) -> Seq<
    (Seq<char>, ValueView),
> {
    Seq::new(values.len(), |i: int| (names[i], values[i]))
}

/// The tree of a container.
///
/// A type name without an identifier is an error before anything else is looked at.
/// A named container becomes a `Struct` of its identifier and its fields in order, a
/// positional one a `List` of its properties in order; the first property that fails
/// decides the error. Any other shape is an error.
pub open spec fn encode_dynamic_spec(c: ContainerView) -> Result<ValueView, EncodeErrorView>
    decreases c, 0nat,
{
    match c.type_id {
        None => Err(EncodeErrorView::UnparsedTypeName(c.declared_name)),
        Some(id) => match c.shape {
            Shape::Named => match encode_props_spec(c.props, field_count(c)) {
                Err(e) => Err(e),
                Ok(vs) => Ok(ValueView::Struct(id, named(c.names, vs))),
            },
            Shape::Positional => match encode_props_spec(c.props, c.props.len()) {
                Err(e) => Err(e),
                Ok(vs) => Ok(ValueView::List(vs)),
            },
            Shape::Single => Err(EncodeErrorView::UnsupportedShape(c.declared_name)),
        },
    }
}

/// The trees of the first `n` containers, or the first error among them.
pub open spec fn encode_components_spec(items: Seq<ContainerView>, n: nat) -> Result<
    Seq<ValueView>,
    EncodeErrorView,
>
    decreases n,
{
    if n == 0 || n > items.len() {
        Ok(Seq::empty())
    } else {
        match encode_components_spec(items, (n - 1) as nat) {
            Err(e) => Err(e),
            Ok(done) => match encode_dynamic_spec(items[n - 1]) {
                Err(e) => Err(e),
                Ok(v) => Ok(done.push(v)),
            },
        }
    }
}

/// The tree of an entity: a tuple struct named `Entity` of the identifier in decimal
/// and the list of the components' trees.
pub open spec fn encode_entity_spec(e: EntityView) -> Result<ValueView, EncodeErrorView> {
    match encode_components_spec(e.components, e.components.len()) {
        Err(err) => Err(err),
        Ok(vs) => Ok(
            ValueView::TupleStruct(
                "Entity"@,
                seq![ValueView::Number(decimal(e.entity)), ValueView::List(vs)],
            ),
        ),
    }
}

/// The trees of the first `n` entities, or the first error among them.
pub open spec fn encode_entities_spec(items: Seq<EntityView>, n: nat) -> Result<
    Seq<ValueView>,
    EncodeErrorView,
>
    decreases n,
{
    if n == 0 || n > items.len() {
        Ok(Seq::empty())
    } else {
        match encode_entities_spec(items, (n - 1) as nat) {
            Err(e) => Err(e),
            Ok(done) => match encode_entity_spec(items[n - 1]) {
                Err(e) => Err(e),
                Ok(v) => Ok(done.push(v)),
            },
        }
    }
}

/// The tree of a scene: the list of its entities' trees, in order.
pub open spec fn encode_scene_spec(scene: Seq<EntityView>) -> Result<ValueView, EncodeErrorView> {
    match encode_entities_spec(scene, scene.len()) {
        Err(e) => Err(e),
        Ok(vs) => Ok(ValueView::List(vs)),
    }
}

/// Encodes one property.
pub fn property_to_value(prop: &Property) -> (r: Result<Value, EncodeError>)
    ensures
        encoded_view(r) == encode_property_spec(prop@),
    decreases prop, 0nat,
{
    match prop {
        Property::Structured(inner) => dynamic_properties_to_value(inner),
        Property::Opaque(leaf) => Ok(leaf.duplicate()),
    }
}

/// Encodes the first `count` properties of a vector, in order.
fn properties_to_values(props: &Vec<Property>, count: usize) -> (r: Result<
    Vec<Value>,
    EncodeError,
>)
    requires
        count <= props.len(),
    ensures
        match r {
            Ok(vs) => encode_props_spec(props_view(*props), count as nat) == Ok::<
                Seq<ValueView>,
                EncodeErrorView,
            >(values_view(vs)),
            Err(e) => encode_props_spec(props_view(*props), count as nat) == Err::<
                Seq<ValueView>,
                EncodeErrorView,
            >(e@),
        },
    decreases props, 1nat,
{
    let mut out: Vec<Value> = Vec::new();
    let mut i: usize = 0;
    while i < count
        invariant
            i <= count <= props.len(),
            encode_props_spec(props_view(*props), i as nat) is Ok,
            encode_props_spec(props_view(*props), i as nat)->Ok_0 =~= values_view(out),
        decreases count - i,
    {
        match property_to_value(&props[i]) {
            Err(e) => {
                proof {
                    lemma_props_error(props_view(*props), (i + 1) as nat, count as nat);
                }
                return Err(e);
            },
            Ok(v) => {
                let ghost before = values_view(out);
                out.push(v);
                assert(values_view(out) =~= before.push(v@));
            },
        }
        i += 1;
    }
    Ok(out)
}

/// Once a prefix fails, every longer prefix fails in the same way.
pub proof fn lemma_props_error(props: Seq<PropertyView>, n: nat, m: nat)
    requires
        n <= m <= props.len(),
        encode_props_spec(props, n) is Err,
    ensures
        encode_props_spec(props, m) == encode_props_spec(props, n),
    decreases m,
{
    if n < m {
        lemma_props_error(props, n, (m - 1) as nat);
    }
}

/// Encodes one container.
pub fn dynamic_properties_to_value(props: &DynamicProperties) -> (r: Result<Value, EncodeError>)
    ensures
        encoded_view(r) == encode_dynamic_spec(props@),
    decreases props, 0nat,
{
    let id = match &props.type_id {
        None => {
            return Err(EncodeError::UnparsedTypeName(props.declared_name.clone()));
        },
        Some(id) => id.clone(),
    };
    match props.shape {
        Shape::Named => {
            let count: usize = if props.names.len() <= props.props.len() {
                props.names.len()
            } else {
                props.props.len()
            };
            match properties_to_fields(&props.names, &props.props, count) {
                Err(e) => Err(e),
                Ok(fields) => Ok(Value::Struct(id, fields)),
            }
        },
        Shape::Positional => {
            match properties_to_values(&props.props, props.props.len()) {
                Err(e) => Err(e),
                Ok(values) => Ok(Value::List(values)),
            }
        },
        Shape::Single => Err(EncodeError::UnsupportedShape(props.declared_name.clone())),
    }
}

/// Encodes the first `count` properties of a vector, each under the name at its
/// position.
fn properties_to_fields(names: &Vec<String>, props: &Vec<Property>, count: usize) -> (r: Result<
    Vec<(String, Value)>,
    EncodeError,
>)
    requires
        count <= props.len(),
        count <= names.len(),
    ensures
        match r {
            Ok(fields) => {
                &&& encode_props_spec(props_view(*props), count as nat) is Ok
                &&& fields_view(fields) == named(
                    names_view(*names),
                    encode_props_spec(props_view(*props), count as nat)->Ok_0,
                )
            },
            Err(e) => encode_props_spec(props_view(*props), count as nat) == Err::<
                Seq<ValueView>,
                EncodeErrorView,
            >(e@),
        },
    decreases props, 1nat,
{
    let mut out: Vec<(String, Value)> = Vec::new();
    let mut i: usize = 0;
    while i < count
        invariant
            i <= count <= props.len(),
            count <= names.len(),
            out.len() == i,
            encode_props_spec(props_view(*props), i as nat) is Ok,
            fields_view(out) == named(
                names_view(*names),
                encode_props_spec(props_view(*props), i as nat)->Ok_0,
            ),
        decreases count - i,
    {
        match property_to_value(&props[i]) {
            Err(e) => {
                proof {
                    lemma_props_error(props_view(*props), (i + 1) as nat, count as nat);
                }
                return Err(e);
            },
            Ok(v) => {
                let ghost before = fields_view(out);
                out.push((names[i].clone(), v));
                assert(fields_view(out) =~= before.push((names[i as int]@, v@)));
                assert(encode_props_spec(props_view(*props), i as nat)->Ok_0.len() == before.len());
                assert(names_view(*names)[i as int] == names[i as int]@);
                assert(props_view(*props)[i as int] == props[i as int]@);
                assert(encode_props_spec(props_view(*props), (i + 1) as nat)->Ok_0
                    == encode_props_spec(props_view(*props), i as nat)->Ok_0.push(v@));
                assert(fields_view(out) =~= named(
                    names_view(*names),
                    encode_props_spec(props_view(*props), (i + 1) as nat)->Ok_0,
                ));
            },
        }
        i += 1;
    }
    Ok(out)
}

/// Encodes one entity.
pub fn entity_to_value(entity: &Entity) -> (r: Result<Value, EncodeError>)
    ensures
        encoded_view(r) == encode_entity_spec(entity@),
{
    let mut out: Vec<Value> = Vec::new();
    let mut i: usize = 0;
    while i < entity.components.len()
        invariant
            i <= entity.components.len(),
            encode_components_spec(entity@.components, i as nat) is Ok,
            encode_components_spec(entity@.components, i as nat)->Ok_0 =~= values_view(out),
        decreases entity.components.len() - i,
    {
        match dynamic_properties_to_value(&entity.components[i]) {
            Err(e) => {
                proof {
                    lemma_components_error(
                        entity@.components,
                        (i + 1) as nat,
                        entity.components.len() as nat,
                    );
                }
                return Err(e);
            },
            Ok(v) => {
                let ghost before = values_view(out);
                out.push(v);
                assert(values_view(out) =~= before.push(v@));
            },
        }
        i += 1;
    }
    let mut items: Vec<Value> = Vec::new();
    items.push(Value::Number(format_u32(entity.entity)));
    items.push(Value::List(out));
    assert(values_view(items) =~= seq![
        ValueView::Number(decimal(entity@.entity)),
        ValueView::List(values_view(out)),
    ]);
    Ok(Value::TupleStruct(String::from_str("Entity"), items))
}

/// Once a prefix fails, every longer prefix fails in the same way.
pub proof fn lemma_components_error(items: Seq<ContainerView>, n: nat, m: nat)
    requires
        n <= m <= items.len(),
        encode_components_spec(items, n) is Err,
    ensures
        encode_components_spec(items, m) == encode_components_spec(items, n),
    decreases m,
{
    if n < m {
        lemma_components_error(items, n, (m - 1) as nat);
    }
}

/// Once a prefix fails, every longer prefix fails in the same way.
pub proof fn lemma_entities_error(items: Seq<EntityView>, n: nat, m: nat)
    requires
        n <= m <= items.len(),
        encode_entities_spec(items, n) is Err,
    ensures
        encode_entities_spec(items, m) == encode_entities_spec(items, n),
    decreases m,
{
    if n < m {
        lemma_entities_error(items, n, (m - 1) as nat);
    }
}

/// Encodes a scene: the list of its entities, in order, or the first error met on the
/// way through them.
pub fn scene_to_value(scene: &Scene) -> (r: Result<Value, EncodeError>)
    ensures
        encoded_view(r) == encode_scene_spec(scene@),
{
    let mut out: Vec<Value> = Vec::new();
    let mut i: usize = 0;
    while i < scene.entities.len()
        invariant
            i <= scene.entities.len(),
            encode_entities_spec(scene@, i as nat) is Ok,
            encode_entities_spec(scene@, i as nat)->Ok_0 =~= values_view(out),
        decreases scene.entities.len() - i,
    {
        match entity_to_value(&scene.entities[i]) {
            Err(e) => {
                proof {
                    lemma_entities_error(scene@, (i + 1) as nat, scene.entities.len() as nat);
                }
                return Err(e);
            },
            Ok(v) => {
                let ghost before = values_view(out);
                out.push(v);
                assert(values_view(out) =~= before.push(v@));
            },
        }
        i += 1;
    }
    Ok(Value::List(out))
}

} // verus!
