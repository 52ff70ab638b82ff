use vstd::prelude::*;

verus! {

/// The mathematical content of a [`Value`]: names and texts as character sequences,
/// children as sequences in their stored order.
pub enum ValueView {
    Struct(Seq<char>, Seq<(Seq<char>, ValueView)>),
    TupleStruct(Seq<char>, Seq<ValueView>),
    Tuple(Seq<ValueView>),
    List(Seq<ValueView>),
    Mapping(Seq<(ValueView, ValueView)>),
    Number(Seq<char>),
    Text(Seq<char>),
}

/// A node of the typed value tree that a scene is exchanged as.
///
/// `Number` keeps the digits as text, so nothing is lost between text and tree.
/// `Text` is a string leaf.
#[derive(Debug, PartialEq, Eq)]
pub enum Value {
    Struct(String, Vec<(String, Value)>),
    TupleStruct(String, Vec<Value>),
    Tuple(Vec<Value>),
    List(Vec<Value>),
    Mapping(Vec<(Value, Value)>),
    Number(String),
    Text(String),
}

/// The content of a vector of values, element by element.
pub open spec fn values_view(items: Vec<Value>) -> Seq<ValueView>
    decreases items,
{
    Seq::new(
        items.len() as nat,
        |i: int|
            if 0 <= i < items.len() {
                items[i].view()
            } else {
                ValueView::Tuple(Seq::empty())
            },
    )
}

/// The content of a vector of named fields, in order.
pub open spec fn fields_view(fields: Vec<(String, Value)>) -> Seq<(Seq<char>, ValueView)>
    decreases fields,
{
    Seq::new(
        fields.len() as nat,
        |i: int|
            if 0 <= i < fields.len() {
                (fields[i].0@, fields[i].1.view())
            } else {
                (Seq::empty(), ValueView::Tuple(Seq::empty()))
            },
    )
}

/// The content of a vector of key/value pairs, in order.
pub open spec fn pairs_view(pairs: Vec<(Value, Value)>) -> Seq<(ValueView, ValueView)>
    decreases pairs,
{
    Seq::new(
        pairs.len() as nat,
        |i: int|
            if 0 <= i < pairs.len() {
                (pairs[i].0.view(), pairs[i].1.view())
            } else {
                (ValueView::Tuple(Seq::empty()), ValueView::Tuple(Seq::empty()))
            },
    )
}

impl View for Value {
    type V = ValueView;

    open spec fn view(&self) -> ValueView
        decreases self,
    {
        match self {
            Value::Struct(name, fields) => ValueView::Struct(name@, fields_view(*fields)),
            Value::TupleStruct(name, items) => ValueView::TupleStruct(name@, values_view(*items)),
            Value::Tuple(items) => ValueView::Tuple(values_view(*items)),
            Value::List(items) => ValueView::List(values_view(*items)),
            Value::Mapping(pairs) => ValueView::Mapping(pairs_view(*pairs)),
            Value::Number(text) => ValueView::Number(text@),
            Value::Text(text) => ValueView::Text(text@),
        }
    }
}

impl Value {
    /// Whether two values hold the same content.
    pub fn same(&self, other: &Value) -> (r: bool)
        ensures
            r == (self@ == other@),
        decreases self,
    {
        match self {
            Value::Struct(name, fields) => match other {
                Value::Struct(other_name, other_fields) => *name == *other_name && same_fields(
                    fields,
                    other_fields,
                ),
                _ => false,
            },
            Value::TupleStruct(name, items) => match other {
                Value::TupleStruct(other_name, other_items) => *name == *other_name
                    && same_values(items, other_items),
                _ => false,
            },
            Value::Tuple(items) => match other {
                Value::Tuple(other_items) => same_values(items, other_items),
                _ => false,
            },
            Value::List(items) => match other {
                Value::List(other_items) => same_values(items, other_items),
                _ => false,
            },
            Value::Mapping(pairs) => match other {
                Value::Mapping(other_pairs) => same_pairs(pairs, other_pairs),
                _ => false,
            },
            Value::Number(text) => match other {
                Value::Number(other_text) => *text == *other_text,
                _ => false,
            },
            Value::Text(text) => match other {
                Value::Text(other_text) => *text == *other_text,
                _ => false,
            },
        }
    }

    /// A deep copy: a value with the same content.
    #[verifier::loop_isolation(false)]
    pub fn duplicate(&self) -> (copy: Value)
        ensures
            copy@ == self@,
        decreases self,
    {
        match self {
            Value::Struct(name, fields) => {
                let mut out: Vec<(String, Value)> = Vec::new();
                let mut i: usize = 0;
                while i < fields.len()
                    invariant
                        i <= fields.len(),
                        out.len() == i,
                        forall|j: int|
                            0 <= j < i ==> out[j].0@ == fields[j].0@ && out[j].1@ == fields[j].1@,
                    decreases fields.len() - i,
                {
                    let child = fields[i].1.duplicate();
                    out.push((fields[i].0.clone(), child));
                    i += 1;
                }
                assert(fields_view(out) =~= fields_view(*fields));
                Value::Struct(name.clone(), out)
            },
            Value::TupleStruct(name, items) => {
                let out = duplicate_all(items);
                Value::TupleStruct(name.clone(), out)
            },
            Value::Tuple(items) => Value::Tuple(duplicate_all(items)),
            Value::List(items) => Value::List(duplicate_all(items)),
            Value::Mapping(pairs) => {
                let mut out: Vec<(Value, Value)> = Vec::new();
                let mut i: usize = 0;
                while i < pairs.len()
                    invariant
                        i <= pairs.len(),
                        out.len() == i,
                        forall|j: int|
                            0 <= j < i ==> out[j].0@ == pairs[j].0@ && out[j].1@ == pairs[j].1@,
                    decreases pairs.len() - i,
                {
                    let key = pairs[i].0.duplicate();
                    let item = pairs[i].1.duplicate();
                    out.push((key, item));
                    i += 1;
                }
                assert(pairs_view(out) =~= pairs_view(*pairs));
                Value::Mapping(out)
            },
            Value::Number(text) => Value::Number(text.clone()),
            Value::Text(text) => Value::Text(text.clone()),
        }
    }
}

/// Deep copies of the values of a vector, in order.
pub fn duplicate_all(items: &Vec<Value>) -> (out: Vec<Value>)
    ensures
        values_view(out) == values_view(*items),
    decreases items,
{
    let mut out: Vec<Value> = Vec::new();
    let mut i: usize = 0;
    while i < items.len()
        invariant
            i <= items.len(),
            out.len() == i,
            forall|j: int| 0 <= j < i ==> out[j]@ == items[j]@,
        decreases items.len() - i,
    {
        let child = items[i].duplicate();
        out.push(child);
        i += 1;
    }
    assert(values_view(out) =~= values_view(*items));
    out
}

/// Whether two vectors of values hold the same content.
pub fn same_values(a: &Vec<Value>, b: &Vec<Value>) -> (r: bool)
    ensures
        r == (values_view(*a) == values_view(*b)),
    decreases a,
{
    if a.len() != b.len() {
        assert(values_view(*a).len() != values_view(*b).len());
        return false;
    }
    let mut i: usize = 0;
    while i < a.len()
        invariant
            i <= a.len() == b.len(),
            forall|j: int| 0 <= j < i ==> a[j]@ == b[j]@,
        decreases a.len() - i,
    {
        if !a[i].same(&b[i]) {
            assert(values_view(*a)[i as int] != values_view(*b)[i as int]);
            return false;
        }
        i += 1;
    }
    assert(values_view(*a) =~= values_view(*b));
    true
}

/// Whether two vectors of named fields hold the same content.
pub fn same_fields(a: &Vec<(String, Value)>, b: &Vec<(String, Value)>) -> (r: bool)
    ensures
        r == (fields_view(*a) == fields_view(*b)),
    decreases a,
{
    if a.len() != b.len() {
        assert(fields_view(*a).len() != fields_view(*b).len());
        return false;
    }
    let mut i: usize = 0;
    while i < a.len()
        invariant
            i <= a.len() == b.len(),
            forall|j: int| 0 <= j < i ==> a[j].0@ == b[j].0@ && a[j].1@ == b[j].1@,
        decreases a.len() - i,
    {
        if !(a[i].0 == b[i].0) || !a[i].1.same(&b[i].1) {
            assert(fields_view(*a)[i as int] != fields_view(*b)[i as int]);
            return false;
        }
        i += 1;
    }
    assert(fields_view(*a) =~= fields_view(*b));
    true
}

/// Whether two vectors of key/value pairs hold the same content.
pub fn same_pairs(a: &Vec<(Value, Value)>, b: &Vec<(Value, Value)>) -> (r: bool)
    ensures
        r == (pairs_view(*a) == pairs_view(*b)),
    decreases a,
{
    if a.len() != b.len() {
        assert(pairs_view(*a).len() != pairs_view(*b).len());
        return false;
    }
    let mut i: usize = 0;
    while i < a.len()
        invariant
            i <= a.len() == b.len(),
            forall|j: int| 0 <= j < i ==> a[j].0@ == b[j].0@ && a[j].1@ == b[j].1@,
        decreases a.len() - i,
    {
        if !a[i].0.same(&b[i].0) || !a[i].1.same(&b[i].1) {
            assert(pairs_view(*a)[i as int] != pairs_view(*b)[i as int]);
            return false;
        }
        i += 1;
    }
    assert(pairs_view(*a) =~= pairs_view(*b));
    true
}

} // verus!
