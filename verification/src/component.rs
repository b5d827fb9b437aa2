//! The closed set of route-component kinds and their stable string tags.

use vstd::prelude::*;

verus! {

/// The kind of a route component discovered by the tree walk.
///
/// Each kind carries a stable string tag that is embedded in generated
/// identifiers and synthetic module specifiers.
#[derive(Clone, Copy, Debug, PartialEq, Eq, Structural)]
pub enum ComponentType {
    Page,
    DefaultPage,
    Error,
    Layout,
    Loading,
    Template,
    NotFound,
}

impl ComponentType {
    /// The stable tag of this kind, as a mathematical character sequence.
    pub open spec fn name_spec(self) -> Seq<char> {
        match self {
            ComponentType::Page => "page"@,
            ComponentType::DefaultPage => "defaultPage"@,
            ComponentType::Error => "error"@,
            ComponentType::Layout => "layout"@,
            ComponentType::Loading => "loading"@,
            ComponentType::Template => "template"@,
            ComponentType::NotFound => "not-found"@,
        }
    }

    /// The stable tag of this kind.
    pub fn name(&self) -> (r: &'static str)
        ensures
            r@ == self.name_spec(),
    {
        match self {
            ComponentType::Page => "page",
            ComponentType::DefaultPage => "defaultPage",
            ComponentType::Error => "error",
            ComponentType::Layout => "layout",
            ComponentType::Loading => "loading",
            ComponentType::Template => "template",
            ComponentType::NotFound => "not-found",
        }
    }
}

} // verus!
