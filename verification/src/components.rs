pub mod light;
pub mod metadata;
pub mod ui;

pub use metadata::MetadataComponent;
pub use ui::{UIComponent, WidgetType};

use vstd::prelude::*;

verus! {

/// The kinds of components that an entity can have.
#[derive(Clone, Copy, Debug, PartialEq, Eq, Structural)]
pub enum ComponentIndex {
    Transform,
    Mesh,
    Physics,
    Ui,
}

impl ComponentIndex {
    /// The position of this kind among the component kinds.
    pub fn position(&self) -> (r: u32)
        ensures
            r == (match self {
                ComponentIndex::Transform => 0u32,
                ComponentIndex::Mesh => 1u32,
                ComponentIndex::Physics => 2u32,
                ComponentIndex::Ui => 3u32,
            }),
    {
        match self {
            ComponentIndex::Transform => 0,
            ComponentIndex::Mesh => 1,
            ComponentIndex::Physics => 2,
            ComponentIndex::Ui => 3,
        }
    }
}

} // verus!
