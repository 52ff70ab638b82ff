use vstd::prelude::*;
use crate::decode::{
    decode_components_spec, decode_dynamic_spec, decode_entities_spec, decode_entity_spec,
    decode_fields_spec, decode_property_spec, decode_scene_spec, empty_container, entity_parts,
    lemma_decode_entities_error, with_prop, DecodeErrorView,
};
use crate::encode::{
    encode_components_spec, encode_dynamic_spec, encode_entities_spec, encode_entity_spec,
    encode_property_spec, encode_props_spec, encode_scene_spec, field_count, named,
    EncodeErrorView,
};
use crate::number::{decimal, identifier_of, lemma_decimal_read_back};
use crate::plan::{
    component_maps, component_reads, components_maps, components_reads, entities_maps,
    entities_reads, entity_components, scene_entities,
};
use crate::property::{ContainerView, EntityView, PropertyView, Shape};
use crate::registry::{LeafDecoder, PropertyDecoder};
use crate::value::ValueView;

verus! {

/// A leaf encodes to the value it holds, and so to the same value every time.
pub proof fn lemma_leaf_encodes_to_itself(leaf: ValueView)
    ensures
        encode_property_spec(PropertyView::Opaque(leaf)) == Ok::<ValueView, EncodeErrorView>(leaf),
{
}

/// The trees of a prefix whose properties all encode: one for each, in order.
pub proof fn lemma_props_encoded(props: Seq<PropertyView>, n: nat)
    requires
        n <= props.len(),
        forall|i: int| 0 <= i < n ==> (#[trigger] encode_property_spec(props[i])) is Ok,
    ensures
        encode_props_spec(props, n) is Ok,
        encode_props_spec(props, n)->Ok_0.len() == n,
        forall|i: int|
            0 <= i < n ==> encode_props_spec(props, n)->Ok_0[i] == (#[trigger] encode_property_spec(
                props[i],
            ))->Ok_0,
    decreases n,
{
    if n > 0 {
        lemma_props_encoded(props, (n - 1) as nat);
        assert(encode_property_spec(props[n - 1]) is Ok);
        assert(encode_props_spec(props, n)->Ok_0 == encode_props_spec(
            props,
            (n - 1) as nat,
        )->Ok_0.push(encode_property_spec(props[n - 1])->Ok_0));
    }
}

/// The trees of a prefix whose containers all encode: one for each, in order.
pub proof fn lemma_components_encoded(items: Seq<ContainerView>, n: nat)
    requires
        n <= items.len(),
        forall|i: int| 0 <= i < n ==> (#[trigger] encode_dynamic_spec(items[i])) is Ok,
    ensures
        encode_components_spec(items, n) is Ok,
        encode_components_spec(items, n)->Ok_0.len() == n,
        forall|i: int|
            0 <= i < n ==> encode_components_spec(items, n)->Ok_0[i] == (
            #[trigger] encode_dynamic_spec(items[i]))->Ok_0,
    decreases n,
{
    if n > 0 {
        lemma_components_encoded(items, (n - 1) as nat);
    }
}

/// Where a prefix of entities encodes, each of its entities does, and the trees
/// stand in order.
pub proof fn lemma_entities_encoded(items: Seq<EntityView>, n: nat)
    requires
        n <= items.len(),
        encode_entities_spec(items, n) is Ok,
    ensures
        encode_entities_spec(items, n)->Ok_0.len() == n,
        forall|i: int|
            0 <= i < n ==> (#[trigger] encode_entity_spec(items[i])) == Ok::<
                ValueView,
                EncodeErrorView,
            >(encode_entities_spec(items, n)->Ok_0[i]),
    decreases n,
{
    if n > 0 {
        lemma_entities_encoded(items, (n - 1) as nat);
    }
}

/// Where a prefix of properties encodes, each of its properties does, and the trees
/// stand in order.
pub proof fn lemma_props_listed(props: Seq<PropertyView>, n: nat)
    requires
        n <= props.len(),
        encode_props_spec(props, n) is Ok,
    ensures
        encode_props_spec(props, n)->Ok_0.len() == n,
        forall|i: int|
            0 <= i < n ==> (#[trigger] encode_property_spec(props[i])) == Ok::<
                ValueView,
                EncodeErrorView,
            >(encode_props_spec(props, n)->Ok_0[i]),
    decreases n,
{
    if n > 0 {
        lemma_props_listed(props, (n - 1) as nat);
        assert(encode_props_spec(props, n)->Ok_0 == encode_props_spec(
            props,
            (n - 1) as nat,
        )->Ok_0.push(encode_property_spec(props[n - 1])->Ok_0));
    }
}

/// Field order: the tree of a named container is a struct of its identifier whose
/// fields are the paired names and properties in declared order, each name with the
/// tree of its property.
pub proof fn lemma_fields_in_declared_order(c: ContainerView)
    requires
        c.shape == Shape::Named,
        encode_dynamic_spec(c) is Ok,
    ensures
        encode_dynamic_spec(c)->Ok_0 is Struct,
        Some(encode_dynamic_spec(c)->Ok_0->Struct_0) == c.type_id,
        encode_dynamic_spec(c)->Ok_0->Struct_1.len() == field_count(c),
        forall|i: int|
            0 <= i < field_count(c) ==> {
                &&& (#[trigger] encode_dynamic_spec(c)->Ok_0->Struct_1[i]).0 == c.names[i]
                &&& encode_property_spec(c.props[i]) == Ok::<ValueView, EncodeErrorView>(
                    encode_dynamic_spec(c)->Ok_0->Struct_1[i].1,
                )
            },
{
    lemma_props_listed(c.props, field_count(c));
}

/// Sequence shape: the tree of a positional container is the list of the trees of
/// its properties, one for each, in order.
pub proof fn lemma_positions_kept(c: ContainerView)
    requires
        c.shape == Shape::Positional,
        encode_dynamic_spec(c) is Ok,
    ensures
        encode_dynamic_spec(c)->Ok_0 is List,
        encode_dynamic_spec(c)->Ok_0->List_0.len() == c.props.len(),
        forall|i: int|
            0 <= i < c.props.len() ==> encode_property_spec(c.props[i]) == Ok::<
                ValueView,
                EncodeErrorView,
            >(#[trigger] encode_dynamic_spec(c)->Ok_0->List_0[i]),
{
    lemma_props_listed(c.props, c.props.len());
}

/// What the fields of a struct node decode to is a named container of the node's
/// type in which no name stands twice and every name has its property.
pub proof fn lemma_decoded_container_well_formed<D: PropertyDecoder>(
    decoder: &D,
    name: Seq<char>,
    fields: Seq<(Seq<char>, ValueView)>,
    n: nat,
)
    requires
        decode_fields_spec(decoder, name, fields, n) is Ok,
    ensures
        ({
            let c = decode_fields_spec(decoder, name, fields, n)->Ok_0;
            &&& c.declared_name == name
            &&& c.type_id == Some(name)
            &&& c.shape == Shape::Named
            &&& c.names.len() == c.props.len()
            &&& c.names.no_duplicates()
        }),
    decreases n,
{
    if n == 0 || n > fields.len() {
    } else {
        lemma_decoded_container_well_formed(decoder, name, fields, (n - 1) as nat);
        let before = decode_fields_spec(decoder, name, fields, (n - 1) as nat)->Ok_0;
        let key = fields[n - 1].0;
        before.names.index_of_first_ensures(key);
        let prop = decode_property_spec(decoder, name, fields[n - 1].1)->Ok_0;
        assert(decode_fields_spec(decoder, name, fields, n)->Ok_0 == with_prop(before, key, prop));
    }
}

/// A container that its registered type reads back: it is named, its type name is
/// its own identifier and is resolved, its field names are as many as its properties
/// and all differ, and the type reads each property from the tree that the property
/// encodes to.
pub open spec fn reads_back<D: PropertyDecoder>(
    names: Set<Seq<char>>,
    decoder: &D,
    c: ContainerView,
) -> bool {
    &&& c.type_id == Some(c.declared_name)
    &&& c.shape == Shape::Named
    &&& c.names.len() == c.props.len()
    &&& c.names.no_duplicates()
    &&& names.contains(c.declared_name)
    &&& forall|i: int|
        0 <= i < c.props.len() ==> (#[trigger] encode_property_spec(c.props[i])) is Ok
            && decoder.decoded(c.declared_name, encode_property_spec(c.props[i])->Ok_0) == Ok::<
            PropertyView,
            Seq<char>,
        >(c.props[i])
}

/// The first `k` fields of the tree of such a container decode to its first `k`
/// names and properties.
proof fn lemma_fields_read_back<D: PropertyDecoder>(
    names: Set<Seq<char>>,
    decoder: &D,
    c: ContainerView,
    k: nat,
)
    requires
        reads_back(names, decoder, c),
        k <= c.props.len(),
    ensures
        encode_props_spec(c.props, c.props.len()) is Ok,
        decode_fields_spec(
            decoder,
            c.declared_name,
            named(c.names, encode_props_spec(c.props, c.props.len())->Ok_0),
            k,
        ) == Ok::<ContainerView, DecodeErrorView>(
            ContainerView {
                names: c.names.take(k as int),
                props: c.props.take(k as int),
                ..empty_container(c.declared_name)
            },
        ),
    decreases k,
{
    lemma_props_encoded(c.props, c.props.len());
    let vs = encode_props_spec(c.props, c.props.len())->Ok_0;
    let fields = named(c.names, vs);
    if k == 0 {
        assert(c.names.take(0) =~= Seq::<Seq<char>>::empty());
        assert(c.props.take(0) =~= Seq::<PropertyView>::empty());
    } else {
        lemma_fields_read_back(names, decoder, c, (k - 1) as nat);
        let before = ContainerView {
            names: c.names.take(k - 1),
            props: c.props.take(k - 1),
            ..empty_container(c.declared_name)
        };
        let key = c.names[k - 1];
        assert(fields[k - 1] == (key, vs[k - 1]));
        assert(vs[k - 1] == encode_property_spec(c.props[k - 1])->Ok_0);
        before.names.index_of_first_ensures(key);
        if before.names.index_of_first(key) is Some {
            let at = before.names.index_of_first(key)->Some_0;
            assert(c.names[at] == c.names[k - 1]);
            assert(false);
        }
        assert(before.names.push(key) =~= c.names.take(k as int));
        assert(before.props.push(c.props[k - 1]) =~= c.props.take(k as int));
        assert(with_prop(before, key, c.props[k - 1]) == ContainerView {
            names: c.names.take(k as int),
            props: c.props.take(k as int),
            ..empty_container(c.declared_name)
        });
    }
}

/// Round trip of a component: a container that its registered type reads back
/// encodes to a tree that decodes to the same container.
pub proof fn lemma_component_round_trip<D: PropertyDecoder>(
    names: Set<Seq<char>>,
    decoder: &D,
    c: ContainerView,
)
    requires
        reads_back(names, decoder, c),
    ensures
        encode_dynamic_spec(c) is Ok,
        decode_dynamic_spec(names, decoder, encode_dynamic_spec(c)->Ok_0) == Ok::<
            ContainerView,
            DecodeErrorView,
        >(c),
{
    lemma_fields_read_back(names, decoder, c, c.props.len());
    lemma_props_encoded(c.props, c.props.len());
    assert(c.names.take(c.props.len() as int) =~= c.names);
    assert(c.props.take(c.props.len() as int) =~= c.props);
}

/// Round trip with the decoder of leaves: it reads back every named container of
/// leaves whose type name is its own identifier and is resolved, and whose field
/// names are as many as its properties and all differ.
pub proof fn lemma_leaves_round_trip(
    names: Set<Seq<char>>,
    decoder: &LeafDecoder,
    c: ContainerView,
)
    requires
        c.type_id == Some(c.declared_name),
        c.shape == Shape::Named,
        c.names.len() == c.props.len(),
        c.names.no_duplicates(),
        names.contains(c.declared_name),
        forall|i: int| 0 <= i < c.props.len() ==> (#[trigger] c.props[i]) is Opaque,
    ensures
        reads_back(names, decoder, c),
        encode_dynamic_spec(c) is Ok,
        decode_dynamic_spec(names, decoder, encode_dynamic_spec(c)->Ok_0) == Ok::<
            ContainerView,
            DecodeErrorView,
        >(c),
{
    assert forall|i: int| 0 <= i < c.props.len() implies (#[trigger] encode_property_spec(
        c.props[i],
    )) is Ok && decoder.decoded(c.declared_name, encode_property_spec(c.props[i])->Ok_0) == Ok::<
        PropertyView,
        Seq<char>,
    >(c.props[i]) by {
        assert(c.props[i] is Opaque);
    }
    lemma_component_round_trip(names, decoder, c);
}

/// The first `k` trees of components that all read back decode to the first `k`
/// components.
proof fn lemma_components_read_back<D: PropertyDecoder>(
    names: Set<Seq<char>>,
    decoder: &D,
    items: Seq<ContainerView>,
    k: nat,
)
    requires
        forall|i: int| 0 <= i < items.len() ==> reads_back(names, decoder, #[trigger] items[i]),
        k <= items.len(),
    ensures
        encode_components_spec(items, items.len()) is Ok,
        encode_components_spec(items, items.len())->Ok_0.len() == items.len(),
        decode_components_spec(
            names,
            decoder,
            encode_components_spec(items, items.len())->Ok_0,
            k,
        ) == Ok::<Seq<ContainerView>, DecodeErrorView>(items.take(k as int)),
    decreases k,
{
    assert forall|i: int| 0 <= i < items.len() implies (#[trigger] encode_dynamic_spec(
        items[i],
    )) is Ok by {
        lemma_component_round_trip(names, decoder, items[i]);
    }
    lemma_components_encoded(items, items.len());
    if k == 0 {
        assert(items.take(0) =~= Seq::<ContainerView>::empty());
    } else {
        lemma_components_read_back(names, decoder, items, (k - 1) as nat);
        lemma_component_round_trip(names, decoder, items[k - 1]);
        assert(items.take(k - 1).push(items[k - 1]) =~= items.take(k as int));
    }
}

/// Round trip of an entity: where every component reads back, the two fields of the
/// encoded entity, taken as a plain tuple, decode to the same entity.
pub proof fn lemma_entity_round_trip<D: PropertyDecoder>(
    names: Set<Seq<char>>,
    decoder: &D,
    e: EntityView,
)
    requires
        e.entity <= u32::MAX,
        forall|i: int|
            0 <= i < e.components.len() ==> reads_back(names, decoder, #[trigger] e.components[i]),
    ensures
        encode_entity_spec(e) is Ok,
        encode_entity_spec(e)->Ok_0 is TupleStruct,
        encode_entity_spec(e)->Ok_0->TupleStruct_0 == "Entity"@,
        decode_entity_spec(
            names,
            decoder,
            ValueView::Tuple(encode_entity_spec(e)->Ok_0->TupleStruct_1),
        ) == Ok::<EntityView, DecodeErrorView>(e),
{
    lemma_components_read_back(names, decoder, e.components, e.components.len());
    lemma_decimal_read_back(e.entity);
    assert(e.components.take(e.components.len() as int) =~= e.components);
    let items = encode_entity_spec(e)->Ok_0->TupleStruct_1;
    assert(items[0] == ValueView::Number(decimal(e.entity)));
    assert(identifier_of(decimal(e.entity)) == Some(e.entity as u32));
    assert(entity_parts(ValueView::Tuple(items)) == Some(
        (e.entity as u32, encode_components_spec(e.components, e.components.len())->Ok_0),
    ));
}

/// Round trip of a scene: an encoded scene decodes to itself where it holds no
/// entity. Where it holds one, decoding stops at the first entity's tree, which is a
/// tuple struct where a plain tuple is expected.
pub proof fn lemma_scene_round_trip<D: PropertyDecoder>(
    names: Set<Seq<char>>,
    decoder: &D,
    scene: Seq<EntityView>,
)
    requires
        encode_scene_spec(scene) is Ok,
    ensures
        decode_scene_spec(names, decoder, encode_scene_spec(scene)->Ok_0) == (if scene.len()
            == 0 {
            Ok::<Seq<EntityView>, DecodeErrorView>(scene)
        } else {
            Err::<Seq<EntityView>, DecodeErrorView>(
                DecodeErrorView::ExpectedEntity(encode_entity_spec(scene[0])->Ok_0),
            )
        }),
{
    lemma_entities_encoded(scene, scene.len());
    let trees = encode_entities_spec(scene, scene.len())->Ok_0;
    if scene.len() == 0 {
        assert(scene =~= Seq::<EntityView>::empty());
    } else {
        assert(encode_entity_spec(scene[0]) == Ok::<ValueView, EncodeErrorView>(trees[0]));
        assert(entity_parts(trees[0]) is None);
        assert(decode_entities_spec(names, decoder, trees, 0) is Ok);
        assert(decode_entities_spec(names, decoder, trees, 1) == Err::<
            Seq<EntityView>,
            DecodeErrorView,
        >(DecodeErrorView::ExpectedEntity(trees[0])));
        lemma_decode_entities_error(names, decoder, trees, 1, trees.len());
    }
}

/// A struct node whose type name the registry does not resolve is refused with that
/// name, whatever its fields hold.
pub proof fn lemma_unresolved_struct_refused<D: PropertyDecoder>(
    names: Set<Seq<char>>,
    decoder: &D,
    name: Seq<char>,
    fields: Seq<(Seq<char>, ValueView)>,
)
    requires
        !names.contains(name),
    ensures
        decode_dynamic_spec(names, decoder, ValueView::Struct(name, fields)) == Err::<
            ContainerView,
            DecodeErrorView,
        >(DecodeErrorView::MissingRegistration(name)),
{
}

/// A list whose first node has not the shape of an entity is refused with that
/// node, whatever follows it.
pub proof fn lemma_malformed_first_entity_refused<D: PropertyDecoder>(
    names: Set<Seq<char>>,
    decoder: &D,
    items: Seq<ValueView>,
)
    requires
        items.len() > 0,
        entity_parts(items[0]) is None,
    ensures
        decode_scene_spec(names, decoder, ValueView::List(items)) == Err::<
            Seq<EntityView>,
            DecodeErrorView,
        >(DecodeErrorView::ExpectedEntity(items[0])),
{
    assert(decode_entities_spec(names, decoder, items, 0) is Ok);
    assert(decode_entities_spec(names, decoder, items, 1) == Err::<
        Seq<EntityView>,
        DecodeErrorView,
    >(DecodeErrorView::ExpectedEntity(items[0])));
    lemma_decode_entities_error(names, decoder, items, 1, items.len());
}

/// A root that is no list is refused, and the error holds it.
pub proof fn lemma_root_must_be_list<D: PropertyDecoder>(
    names: Set<Seq<char>>,
    decoder: &D,
    root: ValueView,
)
    requires
        !(root is List),
    ensures
        decode_scene_spec(names, decoder, root) == Err::<Seq<EntityView>, DecodeErrorView>(
            DecodeErrorView::ExpectedEntityList(root),
        ),
{
}

/// Two decoders agree on a list of requests: each read and each map read comes out
/// the same from both.
pub open spec fn agree_on<A: PropertyDecoder, B: PropertyDecoder>(
    a: &A,
    b: &B,
    reads: Seq<(Seq<char>, ValueView)>,
    maps: Seq<ValueView>,
) -> bool {
    &&& forall|i: int|
        0 <= i < reads.len() ==> a.decoded((#[trigger] reads[i]).0, reads[i].1) == b.decoded(
            reads[i].0,
            reads[i].1,
        )
    &&& forall|i: int|
        0 <= i < maps.len() ==> a.decoded_map(#[trigger] maps[i]) == b.decoded_map(maps[i])
}

/// Decoders that agree on two lists joined agree on each of them.
proof fn lemma_agree_on_parts<A: PropertyDecoder, B: PropertyDecoder>(
    a: &A,
    b: &B,
    reads: Seq<(Seq<char>, ValueView)>,
    more_reads: Seq<(Seq<char>, ValueView)>,
    maps: Seq<ValueView>,
    more_maps: Seq<ValueView>,
)
    requires
        agree_on(a, b, reads + more_reads, maps + more_maps),
    ensures
        agree_on(a, b, reads, maps),
        agree_on(a, b, more_reads, more_maps),
{
    let all_reads = reads + more_reads;
    let all_maps = maps + more_maps;
    assert forall|i: int| 0 <= i < reads.len() implies a.decoded(
        (#[trigger] reads[i]).0,
        reads[i].1,
    ) == b.decoded(reads[i].0, reads[i].1) by {
        assert(all_reads[i] == reads[i]);
    }
    assert forall|i: int| 0 <= i < more_reads.len() implies a.decoded(
        (#[trigger] more_reads[i]).0,
        more_reads[i].1,
    ) == b.decoded(more_reads[i].0, more_reads[i].1) by {
        assert(all_reads[reads.len() + i] == more_reads[i]);
    }
    assert forall|i: int| 0 <= i < maps.len() implies a.decoded_map(#[trigger] maps[i])
        == b.decoded_map(maps[i]) by {
        assert(all_maps[i] == maps[i]);
    }
    assert forall|i: int| 0 <= i < more_maps.len() implies a.decoded_map(#[trigger] more_maps[i])
        == b.decoded_map(more_maps[i]) by {
        assert(all_maps[maps.len() + i] == more_maps[i]);
    }
}

/// Decoders that agree on what a struct node asks for decode its fields alike.
proof fn lemma_fields_alike<A: PropertyDecoder, B: PropertyDecoder>(
    a: &A,
    b: &B,
    name: Seq<char>,
    fields: Seq<(Seq<char>, ValueView)>,
    n: nat,
)
    requires
        agree_on(a, b, component_reads(ValueView::Struct(name, fields)), Seq::empty()),
    ensures
        decode_fields_spec(a, name, fields, n) == decode_fields_spec(b, name, fields, n),
    decreases n,
{
    if n == 0 || n > fields.len() {
    } else {
        lemma_fields_alike(a, b, name, fields, (n - 1) as nat);
        let reads = component_reads(ValueView::Struct(name, fields));
        assert(reads[n - 1] == (name, fields[n - 1].1));
    }
}

/// Decoders that agree on what a component node asks for decode it alike.
proof fn lemma_component_alike<A: PropertyDecoder, B: PropertyDecoder>(
    names: Set<Seq<char>>,
    a: &A,
    b: &B,
    value: ValueView,
)
    requires
        agree_on(a, b, component_reads(value), component_maps(value)),
    ensures
        decode_dynamic_spec(names, a, value) == decode_dynamic_spec(names, b, value),
{
    match value {
        ValueView::Struct(name, fields) => {
            lemma_fields_alike(a, b, name, fields, fields.len());
        },
        ValueView::Mapping(_) => {
            assert(component_maps(value)[0] == value);
        },
        _ => {},
    }
}

/// Decoders that agree on what the first `n` component nodes ask for decode them
/// alike.
proof fn lemma_components_alike<A: PropertyDecoder, B: PropertyDecoder>(
    names: Set<Seq<char>>,
    a: &A,
    b: &B,
    items: Seq<ValueView>,
    n: nat,
)
    requires
        agree_on(a, b, components_reads(items, n), components_maps(items, n)),
    ensures
        decode_components_spec(names, a, items, n) == decode_components_spec(names, b, items, n),
    decreases n,
{
    if n == 0 || n > items.len() {
    } else {
        lemma_agree_on_parts(
            a,
            b,
            components_reads(items, (n - 1) as nat),
            component_reads(items[n - 1]),
            components_maps(items, (n - 1) as nat),
            component_maps(items[n - 1]),
        );
        lemma_components_alike(names, a, b, items, (n - 1) as nat);
        lemma_component_alike(names, a, b, items[n - 1]);
    }
}

/// Decoders that agree on what the first `n` entity nodes ask for decode them alike.
proof fn lemma_entities_alike<A: PropertyDecoder, B: PropertyDecoder>(
    names: Set<Seq<char>>,
    a: &A,
    b: &B,
    items: Seq<ValueView>,
    n: nat,
)
    requires
        agree_on(a, b, entities_reads(items, n), entities_maps(items, n)),
    ensures
        decode_entities_spec(names, a, items, n) == decode_entities_spec(names, b, items, n),
    decreases n,
{
    if n == 0 || n > items.len() {
    } else {
        let components = entity_components(items[n - 1]);
        lemma_agree_on_parts(
            a,
            b,
            entities_reads(items, (n - 1) as nat),
            components_reads(components, components.len()),
            entities_maps(items, (n - 1) as nat),
            components_maps(components, components.len()),
        );
        lemma_entities_alike(names, a, b, items, (n - 1) as nat);
        lemma_components_alike(names, a, b, components, components.len());
    }
}

/// Decoders that agree on what a tree asks for decode it alike: with every request
/// of a tree answered beforehand, the recorded decoder stands for the one that
/// answered.
pub proof fn lemma_decoders_alike<A: PropertyDecoder, B: PropertyDecoder>(
    names: Set<Seq<char>>,
    a: &A,
    b: &B,
    root: ValueView,
)
    requires
        agree_on(
            a,
            b,
            entities_reads(scene_entities(root), scene_entities(root).len()),
            entities_maps(scene_entities(root), scene_entities(root).len()),
        ),
    ensures
        decode_scene_spec(names, a, root) == decode_scene_spec(names, b, root),
{
    lemma_entities_alike(names, a, b, scene_entities(root), scene_entities(root).len());
}

} // verus!
