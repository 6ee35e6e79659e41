use vstd::prelude::*;

use crate::value::DynamicValue;

verus! {

/// The rendering default for a page whose metadata does not set one: pages
/// render unless their metadata opts out.
pub fn default_render() -> (r: bool)
    ensures
        r,
{
    true
}

/// A content page's general metadata: what the outside deserializer fills
/// from a document's front-matter section, held here as plain values.
pub struct FrontMatter {
    pub description: String,
    pub id: Option<String>,
    pub layout: String,
    pub collections: Vec<String>,
    pub primary_collection: Option<String>,
    pub props: Vec<(String, DynamicValue)>,
    pub render: bool,
    pub title: String,
}

impl FrontMatter {
    /// A minimal front matter carrying only a title: empty description, a
    /// placeholder layout, no collections, no properties, and rendering on.
    pub fn mock(name: &str) -> (r: Self)
        ensures
            r.description@.len() == 0,
            r.id is None,
            r.layout@ == "SomeLayout"@,
            r.collections@.len() == 0,
            r.primary_collection is None,
            r.props@.len() == 0,
            r.render,
            r.title@ == name@,
    {
        FrontMatter {
            description: String::new(),
            id: None,
            layout: String::from_str("SomeLayout"),
            collections: Vec::new(),
            primary_collection: None,
            props: Vec::new(),
            render: default_render(),
            title: name.to_owned(),
        }
    }
}

} // verus!
