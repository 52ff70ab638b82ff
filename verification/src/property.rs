use vstd::prelude::*;
use crate::value::{Value, ValueView};

verus! {

/// How a container lays out its properties.
#[derive(Debug, Clone, Copy, PartialEq, Eq, Structural)]
pub enum Shape {
    /// Named fields: `names` and `props` are read side by side.
    Named,
    /// Positional fields: only `props` is read.
    Positional,
    /// A single value, which no tree node stands for.
    Single,
}

/// The content of a [`Property`].
pub enum PropertyView {
    Structured(ContainerView),
    Opaque(ValueView),
}

/// The content of a [`DynamicProperties`].
pub struct ContainerView {
    pub declared_name: Seq<char>,
    pub type_id: Option<Seq<char>>,
    pub shape: Shape,
    pub names: Seq<Seq<char>>,
    pub props: Seq<PropertyView>,
}

/// One property of a component: either a container of further properties, or a leaf
/// that stands as the value it serialises to.
#[derive(Debug, PartialEq, Eq)]
pub enum Property {
    Structured(DynamicProperties),
    Opaque(Value),
}

/// A component's fields without compile-time knowledge of its type.
#[derive(Debug, PartialEq, Eq)]
pub struct DynamicProperties {
    /// The declared name of the type.
    pub declared_name: String,
    /// The type identifier that `declared_name` parses to, as text; `None` where it does
    /// not parse.
    pub type_id: Option<String>,
    pub shape: Shape,
    /// The field names, in declaration order. Read only where `shape` is `Named`.
    pub names: Vec<String>,
    /// The properties, in declaration order.
    pub props: Vec<Property>,
}

/// An object of the world: its identifier and its components.
#[derive(Debug, PartialEq, Eq)]
pub struct Entity {
    pub entity: u32,
    pub components: Vec<DynamicProperties>,
}

/// The content of an [`Entity`].
pub struct EntityView {
    pub entity: nat,
    pub components: Seq<ContainerView>,
}

/// The unit that is exchanged with the world: entities in order.
#[derive(Debug, PartialEq, Eq)]
pub struct Scene {
    pub entities: Vec<Entity>,
}

/// The content of a vector of strings.
pub open spec fn names_view(names: Vec<String>) -> Seq<Seq<char>> {
    Seq::new(names.len() as nat, |i: int| names[i]@)
}

/// The content of a vector of properties, element by element.
pub open spec fn props_view(props: Vec<Property>) -> Seq<PropertyView>
    decreases props,
{
    Seq::new(
        props.len() as nat,
        |i: int|
            if 0 <= i < props.len() {
                props[i].view()
            } else {
                PropertyView::Opaque(ValueView::Tuple(Seq::empty()))
            },
    )
}

/// The content of an optional string.
pub open spec fn text_view(text: Option<String>) -> Option<Seq<char>> {
    match text {
        Some(t) => Some(t@),
        None => None,
    }
}

impl View for Property {
    type V = PropertyView;

    open spec fn view(&self) -> PropertyView
        decreases self,
    {
        match self {
            Property::Structured(inner) => PropertyView::Structured(inner.view()),
            Property::Opaque(leaf) => PropertyView::Opaque(leaf@),
        }
    }
}

impl View for DynamicProperties {
    type V = ContainerView;

    open spec fn view(&self) -> ContainerView
        decreases self,
    {
        ContainerView {
            declared_name: self.declared_name@,
            type_id: text_view(self.type_id),
            shape: self.shape,
            names: names_view(self.names),
            props: props_view(self.props),
        }
    }
}

/// The content of a vector of containers, element by element.
pub open spec fn containers_view(items: Vec<DynamicProperties>) -> Seq<ContainerView> {
    Seq::new(items.len() as nat, |i: int| items[i]@)
}

impl View for Entity {
    type V = EntityView;

    open spec fn view(&self) -> EntityView {
        EntityView { entity: self.entity as nat, components: containers_view(self.components) }
    }
}

/// The content of a vector of entities, element by element.
pub open spec fn entities_view(items: Vec<Entity>) -> Seq<EntityView> {
    Seq::new(items.len() as nat, |i: int| items[i]@)
}

impl View for Scene {
    type V = Seq<EntityView>;

    open spec fn view(&self) -> Seq<EntityView> {
        entities_view(self.entities)
    }
}

impl Property {
    /// A deep copy: a property with the same content.
    pub fn duplicate(&self) -> (copy: Property)
        ensures
            copy@ == self@,
        decreases self,
    {
        match self {
            Property::Structured(inner) => Property::Structured(inner.duplicate()),
            Property::Opaque(leaf) => Property::Opaque(leaf.duplicate()),
        }
    }
}

impl DynamicProperties {
    /// A deep copy: a container with the same content.
    #[verifier::loop_isolation(false)]
    pub fn duplicate(&self) -> (copy: DynamicProperties)
        ensures
            copy@ == self@,
        decreases self,
    {
        let mut names: Vec<String> = Vec::new();
        let mut i: usize = 0;
        while i < self.names.len()
            invariant
                i <= self.names.len(),
                names.len() == i,
                forall|j: int| 0 <= j < i ==> names[j]@ == self.names[j]@,
            decreases self.names.len() - i,
        {
            names.push(self.names[i].clone());
            i += 1;
        }
        let mut props: Vec<Property> = Vec::new();
        let mut k: usize = 0;
        while k < self.props.len()
            invariant
                k <= self.props.len(),
                props.len() == k,
                forall|j: int| 0 <= j < k ==> props[j]@ == self.props[j]@,
            decreases self.props.len() - k,
        {
            let child = self.props[k].duplicate();
            props.push(child);
            k += 1;
        }
        let type_id = match &self.type_id {
            Some(id) => Some(id.clone()),
            None => None,
        };
        assert(names_view(names) =~= names_view(self.names));
        assert(props_view(props) =~= props_view(self.props));
        DynamicProperties {
            declared_name: self.declared_name.clone(),
            type_id,
            shape: self.shape,
            names,
            props,
        }
    }
}

} // verus!
