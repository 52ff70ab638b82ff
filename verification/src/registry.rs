use vstd::prelude::*;
use bevy_property::PropertyTypeRegistry;
use crate::property::{ContainerView, DynamicProperties, Property, PropertyView};
use crate::value::{Value, ValueView};

verus! {

/// The registry of property types, as bevy_property keeps it. Its inside is not read
/// here: it is asked through [`is_registered`].
#[verifier::external_type_specification]
#[verifier::external_body]
pub struct ExPropertyTypeRegistry(PropertyTypeRegistry);

/// The names that a registry resolves: the full names of its registered types and
/// those of their short names that stand for one type only.
pub uninterp spec fn resolved_names(registry: PropertyTypeRegistry) -> Set<Seq<char>>;

/// `PropertyTypeRegistry::get` of bevy_property, asked only whether it finds a
/// registration. Not proved: that the answer is membership in [`resolved_names`],
/// which is how that set is defined.
#[verifier::external_body]
pub(crate) fn is_registered(registry: &PropertyTypeRegistry, name: &str) -> (found: bool)
    ensures
        found == resolved_names(*registry).contains(name@),
{
    registry.get(name).is_some()
}

/// What the registered types make of tree nodes.
///
/// A node is handed to the type that was resolved for it, and that type alone knows
/// how to read it. The two spec functions name what comes back, so the same node
/// read twice by the same decoder gives the same property.
pub trait PropertyDecoder {
    /// The property that the type registered as `name` reads from `value`, or the
    /// cause of its failure.
    spec fn decoded(&self, name: Seq<char>, value: ValueView) -> Result<PropertyView, Seq<char>>;

    /// The container that is read from a map node without a declared type, or the
    /// cause of the failure.
    spec fn decoded_map(&self, value: ValueView) -> Result<ContainerView, Seq<char>>;

    /// Reads `value` as the type registered as `name`.
    fn deserialize(&self, name: &String, value: &Value) -> (r: Result<Property, String>)
        ensures
            property_outcome(r) == self.decoded(name@, value@),
    ;

    /// Reads a map node by its structure alone.
    fn deserialize_map(&self, value: &Value) -> (r: Result<DynamicProperties, String>)
        ensures
            container_outcome(r) == self.decoded_map(value@),
    ;
}

/// The content of the outcome of reading a property.
pub open spec fn property_outcome(r: Result<Property, String>) -> Result<
    PropertyView,
    Seq<char>,
> {
    match r {
        Ok(p) => Ok(p@),
        Err(cause) => Err(cause@),
    }
}

/// The content of the outcome of reading a container.
pub open spec fn container_outcome(r: Result<DynamicProperties, String>) -> Result<
    ContainerView,
    Seq<char>,
> {
    match r {
        Ok(c) => Ok(c@),
        Err(cause) => Err(cause@),
    }
}

/// The decoder of leaves: every node is read as the leaf that holds it, whatever the
/// type, and a map node without a declared type is refused.
#[derive(Debug, PartialEq, Eq)]
pub struct LeafDecoder {}

/// The cause with which [`LeafDecoder`] refuses a map node.
pub open spec fn no_map_types() -> Seq<char> {
    "no type reads a map"@
}

impl PropertyDecoder for LeafDecoder {
    open spec fn decoded(&self, name: Seq<char>, value: ValueView) -> Result<
        PropertyView,
        Seq<char>,
    > {
        Ok(PropertyView::Opaque(value))
    }

    open spec fn decoded_map(&self, value: ValueView) -> Result<ContainerView, Seq<char>> {
        Err(no_map_types())
    }

    fn deserialize(&self, name: &String, value: &Value) -> (r: Result<Property, String>) {
        Ok(Property::Opaque(value.duplicate()))
    }

    fn deserialize_map(&self, value: &Value) -> (r: Result<DynamicProperties, String>) {
        Err(String::from_str("no type reads a map"))
    }
}

/// One recorded reading: what the type registered as `name` made of `node`.
#[derive(Debug, PartialEq, Eq)]
pub struct Reading {
    pub name: String,
    pub node: Value,
    pub outcome: Result<Property, String>,
}

/// The content of a [`Reading`].
pub struct ReadingView {
    pub name: Seq<char>,
    pub node: ValueView,
    pub outcome: Result<PropertyView, Seq<char>>,
}

impl View for Reading {
    type V = ReadingView;

    open spec fn view(&self) -> ReadingView {
        ReadingView { name: self.name@, node: self.node@, outcome: property_outcome(self.outcome) }
    }
}

/// One recorded reading of a map node without a declared type.
#[derive(Debug, PartialEq, Eq)]
pub struct MapReading {
    pub node: Value,
    pub outcome: Result<DynamicProperties, String>,
}

/// The content of a [`MapReading`].
pub struct MapReadingView {
    pub node: ValueView,
    pub outcome: Result<ContainerView, Seq<char>>,
}

impl View for MapReading {
    type V = MapReadingView;

    open spec fn view(&self) -> MapReadingView {
        MapReadingView { node: self.node@, outcome: container_outcome(self.outcome) }
    }
}

/// The content of a vector of readings, element by element.
pub open spec fn readings_view(readings: Vec<Reading>) -> Seq<ReadingView> {
    Seq::new(readings.len() as nat, |i: int| readings[i]@)
}

/// The content of a vector of map readings, element by element.
pub open spec fn map_readings_view(readings: Vec<MapReading>) -> Seq<MapReadingView> {
    Seq::new(readings.len() as nat, |i: int| readings[i]@)
}

/// The cause with which [`RecordedDecoder`] answers where nothing was recorded.
pub open spec fn unrecorded() -> Seq<char> {
    "no reading recorded"@
}

/// The outcome of the first reading of `node` as `name`, or a refusal where there is
/// none.
pub open spec fn recorded(readings: Seq<ReadingView>, name: Seq<char>, node: ValueView) -> Result<
    PropertyView,
    Seq<char>,
>
    decreases readings.len(),
{
    if readings.len() == 0 {
        Err(unrecorded())
    } else if readings[0].name == name && readings[0].node == node {
        readings[0].outcome
    } else {
        recorded(readings.drop_first(), name, node)
    }
}

/// The outcome of the first reading of the map `node`, or a refusal where there is
/// none.
pub open spec fn recorded_map(readings: Seq<MapReadingView>, node: ValueView) -> Result<
    ContainerView,
    Seq<char>,
>
    decreases readings.len(),
{
    if readings.len() == 0 {
        Err(unrecorded())
    } else if readings[0].node == node {
        readings[0].outcome
    } else {
        recorded_map(readings.drop_first(), node)
    }
}

/// The decoder that answers from readings taken beforehand: a node is read as the
/// first reading of the same type name and the same node says.
#[derive(Debug, PartialEq, Eq)]
pub struct RecordedDecoder {
    pub readings: Vec<Reading>,
    pub map_readings: Vec<MapReading>,
}

impl PropertyDecoder for RecordedDecoder {
    open spec fn decoded(&self, name: Seq<char>, value: ValueView) -> Result<
        PropertyView,
        Seq<char>,
    > {
        recorded(readings_view(self.readings), name, value)
    }

    open spec fn decoded_map(&self, value: ValueView) -> Result<ContainerView, Seq<char>> {
        recorded_map(map_readings_view(self.map_readings), value)
    }

    fn deserialize(&self, name: &String, value: &Value) -> (r: Result<Property, String>) {
        let ghost all = readings_view(self.readings);
        let mut i: usize = 0;
        assert(all.skip(0) =~= all);
        while i < self.readings.len()
            invariant
                i <= self.readings.len(),
                all == readings_view(self.readings),
                recorded(all, name@, value@) == recorded(all.skip(i as int), name@, value@),
            decreases self.readings.len() - i,
        {
            let reading = &self.readings[i];
            assert(all.skip(i as int)[0] == reading@);
            assert(all.skip(i as int).drop_first() =~= all.skip(i + 1));
            if reading.name == *name && reading.node.same(value) {
                return match &reading.outcome {
                    Ok(p) => Ok(p.duplicate()),
                    Err(cause) => Err(cause.clone()),
                };
            }
            i += 1;
        }
        Err(String::from_str("no reading recorded"))
    }

    fn deserialize_map(&self, value: &Value) -> (r: Result<DynamicProperties, String>) {
        let ghost all = map_readings_view(self.map_readings);
        let mut i: usize = 0;
        assert(all.skip(0) =~= all);
        while i < self.map_readings.len()
            invariant
                i <= self.map_readings.len(),
                all == map_readings_view(self.map_readings),
                recorded_map(all, value@) == recorded_map(all.skip(i as int), value@),
            decreases self.map_readings.len() - i,
        {
            let reading = &self.map_readings[i];
            assert(all.skip(i as int)[0] == reading@);
            assert(all.skip(i as int).drop_first() =~= all.skip(i + 1));
            if reading.node.same(value) {
                return match &reading.outcome {
                    Ok(c) => Ok(c.duplicate()),
                    Err(cause) => Err(cause.clone()),
                };
            }
            i += 1;
        }
        Err(String::from_str("no reading recorded"))
    }
}

} // verus!
