use vstd::prelude::*;
use crate::value::{fields_view, values_view, Value, ValueView};

verus! {

/// What decoding a tree asks of the registered types: the nodes to read, each with
/// the name of the type to read it as, and the map nodes to read by structure.
#[derive(Debug, PartialEq, Eq)]
pub struct Requests {
    pub reads: Vec<(String, Value)>,
    pub maps: Vec<Value>,
}

/// The reads that a component node asks for: each field of a struct node, as the
/// type of the struct.
pub open spec fn component_reads(value: ValueView) -> Seq<(Seq<char>, ValueView)> {
    match value {
        ValueView::Struct(name, fields) => Seq::new(fields.len(), |i: int| (name, fields[i].1)),
        _ => Seq::empty(),
    }
}

/// The map reads that a component node asks for: the node itself where it is a map.
pub open spec fn component_maps(value: ValueView) -> Seq<ValueView> {
    match value {
        ValueView::Mapping(_) => seq![value],
        _ => Seq::empty(),
    }
}

/// The reads of the first `n` component nodes, in order.
pub open spec fn components_reads(items: Seq<ValueView>, n: nat) -> Seq<(Seq<char>, ValueView)>
    decreases n,
{
    if n == 0 || n > items.len() {
        Seq::empty()
    } else {
        components_reads(items, (n - 1) as nat) + component_reads(items[n - 1])
    }
}

/// The map reads of the first `n` component nodes, in order.
pub open spec fn components_maps(items: Seq<ValueView>, n: nat) -> Seq<ValueView>
    decreases n,
{
    if n == 0 || n > items.len() {
        Seq::empty()
    } else {
        components_maps(items, (n - 1) as nat) + component_maps(items[n - 1])
    }
}

/// The component nodes of an entity node: those of the list that is the second of
/// its two fields. A node of any other shape has none.
pub open spec fn entity_components(value: ValueView) -> Seq<ValueView> {
    match value {
        ValueView::Tuple(items) => if items.len() == 2 {
            match items[1] {
                ValueView::List(components) => components,
                _ => Seq::empty(),
            }
        } else {
            Seq::empty()
        },
        _ => Seq::empty(),
    }
}

/// The reads of the first `n` entity nodes, in order.
pub open spec fn entities_reads(items: Seq<ValueView>, n: nat) -> Seq<(Seq<char>, ValueView)>
    decreases n,
{
    if n == 0 || n > items.len() {
        Seq::empty()
    } else {
        let components = entity_components(items[n - 1]);
        entities_reads(items, (n - 1) as nat) + components_reads(components, components.len())
    }
}

/// The map reads of the first `n` entity nodes, in order.
pub open spec fn entities_maps(items: Seq<ValueView>, n: nat) -> Seq<ValueView>
    decreases n,
{
    if n == 0 || n > items.len() {
        Seq::empty()
    } else {
        let components = entity_components(items[n - 1]);
        entities_maps(items, (n - 1) as nat) + components_maps(components, components.len())
    }
}

/// The entity nodes of a root: those of a list, none of any other node.
pub open spec fn scene_entities(root: ValueView) -> Seq<ValueView> {
    match root {
        ValueView::List(items) => items,
        _ => Seq::empty(),
    }
}

/// Adds what one component node asks for.
fn add_component(value: &Value, requests: &mut Requests)
    ensures
        fields_view(final(requests).reads) == fields_view(old(requests).reads) + component_reads(
            value@,
        ),
        values_view(final(requests).maps) == values_view(old(requests).maps) + component_maps(
            value@,
        ),
{
    let ghost reads = fields_view(requests.reads);
    let ghost maps = values_view(requests.maps);
    match value {
        Value::Struct(name, fields) => {
            let mut i: usize = 0;
            while i < fields.len()
                invariant
                    i <= fields.len(),
                    value@ == ValueView::Struct(name@, fields_view(*fields)),
                    values_view(requests.maps) == maps,
                    fields_view(requests.reads) =~= reads + component_reads(value@).take(i as int),
                decreases fields.len() - i,
            {
                let ghost before = fields_view(requests.reads);
                let node = fields[i].1.duplicate();
                requests.reads.push((name.clone(), node));
                assert(fields_view(requests.reads) =~= before.push((name@, node@)));
                assert(component_reads(value@).take(i + 1) =~= component_reads(value@).take(
                    i as int,
                ).push((name@, node@)));
                i += 1;
            }
            assert(component_reads(value@).take(fields.len() as int) =~= component_reads(value@));
            assert(maps + component_maps(value@) =~= maps);
        },
        Value::Mapping(_) => {
            let node = value.duplicate();
            requests.maps.push(node);
            assert(values_view(requests.maps) =~= maps + component_maps(value@));
            assert(reads + component_reads(value@) =~= reads);
        },
        _ => {
            assert(reads + component_reads(value@) =~= reads);
            assert(maps + component_maps(value@) =~= maps);
        },
    }
}

/// Adds what the first component nodes of a list ask for, all of them.
fn add_components(items: &Vec<Value>, requests: &mut Requests)
    ensures
        fields_view(final(requests).reads) == fields_view(old(requests).reads) + components_reads(
            values_view(*items),
            items.len() as nat,
        ),
        values_view(final(requests).maps) == values_view(old(requests).maps) + components_maps(
            values_view(*items),
            items.len() as nat,
        ),
{
    let ghost reads = fields_view(requests.reads);
    let ghost maps = values_view(requests.maps);
    let ghost nodes = values_view(*items);
    let mut i: usize = 0;
    assert(reads + components_reads(nodes, 0) =~= reads);
    assert(maps + components_maps(nodes, 0) =~= maps);
    while i < items.len()
        invariant
            i <= items.len(),
            nodes == values_view(*items),
            fields_view(requests.reads) == reads + components_reads(nodes, i as nat),
            values_view(requests.maps) == maps + components_maps(nodes, i as nat),
        decreases items.len() - i,
    {
        assert(nodes[i as int] == items[i as int]@);
        add_component(&items[i], requests);
        assert(reads + components_reads(nodes, (i + 1) as nat) =~= reads + components_reads(
            nodes,
            i as nat,
        ) + component_reads(nodes[i as int]));
        assert(maps + components_maps(nodes, (i + 1) as nat) =~= maps + components_maps(
            nodes,
            i as nat,
        ) + component_maps(nodes[i as int]));
        i += 1;
    }
}

/// The component nodes of an entity node, if it has the shape of one as far as its
/// list goes.
fn components_of(value: &Value) -> (found: Option<&Vec<Value>>)
    ensures
        match found {
            Some(components) => values_view(*components) == entity_components(value@),
            None => entity_components(value@) == Seq::<ValueView>::empty(),
        },
{
    match value {
        Value::Tuple(items) => {
            if items.len() != 2 {
                return None;
            }
            assert(values_view(*items)[1] == items[1]@);
            match &items[1] {
                Value::List(components) => Some(components),
                _ => None,
            }
        },
        _ => None,
    }
}

/// What decoding `root` as a scene asks of the registered types, in the order of the
/// tree: for every struct node that stands as a component, each of its fields as the
/// type of the struct; and every map node that stands as a component.
pub fn scene_requests(root: &Value) -> (requests: Requests)
    ensures
        fields_view(requests.reads) == entities_reads(
            scene_entities(root@),
            scene_entities(root@).len(),
        ),
        values_view(requests.maps) == entities_maps(
            scene_entities(root@),
            scene_entities(root@).len(),
        ),
{
    let mut requests = Requests { reads: Vec::new(), maps: Vec::new() };
    assert(fields_view(requests.reads) =~= Seq::empty());
    assert(values_view(requests.maps) =~= Seq::empty());
    match root {
        Value::List(items) => {
            let ghost nodes = values_view(*items);
            let mut i: usize = 0;
            while i < items.len()
                invariant
                    i <= items.len(),
                    nodes == values_view(*items),
                    fields_view(requests.reads) == entities_reads(nodes, i as nat),
                    values_view(requests.maps) == entities_maps(nodes, i as nat),
                decreases items.len() - i,
            {
                assert(nodes[i as int] == items[i as int]@);
                match components_of(&items[i]) {
                    Some(components) => {
                        add_components(components, &mut requests);
                    },
                    None => {
                        let ghost none = Seq::<ValueView>::empty();
                        assert(entities_reads(nodes, i as nat) + components_reads(none, 0)
                            =~= entities_reads(nodes, i as nat));
                        assert(entities_maps(nodes, i as nat) + components_maps(none, 0)
                            =~= entities_maps(nodes, i as nat));
                    },
                }
                i += 1;
            }
            requests
        },
        _ => requests,
    }
}

} // verus!
