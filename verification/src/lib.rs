//! A safe HTML builder and runtime template engine.
//!
//! Text and attribute values are escaped when they are written; `raw_html`
//! and `raw_attr` are the explicit ways around it.

use vstd::prelude::*;

mod text;

pub mod dom;
pub mod escape;
pub mod io_adapter;
pub mod link;
pub mod render;
pub mod sink;
pub mod tags;
pub mod tpl;

pub use dom::{Dom, Element, ElementView};
pub use io_adapter::IoWriteAdapter;
pub use link::{share_dom, DomWf, Link, SharedDom};
pub use sink::Sink;
pub use tags::Tags;
pub use tpl::{SafeHtml, Tpl, TplArg};

verus! {

/// Creates a new DOM with a root element of `tag` and returns a link to it.
pub fn init(tag: Tags) -> (r: Link)
    ensures
        r.tag_of() == tag,
        r.index_of() == 0,
        r.model() == Some(
            seq![
                ElementView {
                    index: 0,
                    parent: None,
                    tag,
                    attrs: seq![],
                    raw_attrs: seq![],
                    text: seq![],
                    raw_html: seq![],
                    childs: seq![],
                },
            ],
        ),
{
    Link::root(tag)
}

} // verus!
