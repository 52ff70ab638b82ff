//! A scene of entities and their reflected properties, to and from a typed value
//! tree.
//!
//! [`encode`] flattens a scene into a [`value::Value`]; [`decode`] rebuilds a scene
//! from one, resolving each struct node against the registry of property types and
//! leaving the reading of each field to a [`registry::PropertyDecoder`]. Where the
//! types that read the fields live outside verified code, [`plan`] lists what a tree
//! will ask of them, and a [`registry::RecordedDecoder`] carries their answers.
//! Every function states its result exactly, over the views of [`value`] and
//! [`property`]; [`laws`] proves what holds between the two directions.

pub mod value;
pub mod property;
pub mod number;
pub mod encode;
pub mod registry;
pub mod decode;
pub mod plan;
pub mod laws;
