//! Handles to elements of a DOM, with the fluent builder API.
//!
//! A link made by `init` owns its DOM, and its contracts say exactly what
//! that DOM holds. Making a child moves the DOM into a cell that the parent
//! and all its children share, so that each writes into the same DOM; a
//! link into a shared DOM can only promise that the DOM stays well formed.

use std::fmt;
use std::rc::Rc;

use vstd::cell::invcell::InvCell;
use vstd::predicate::Predicate;
use vstd::prelude::*;

use crate::dom::{dom_wf, shell, valid_attr_name, Dom, Element, ElementView};
use crate::escape::escape;
use crate::render::{compact, pretty};
use crate::sink::{wrote, Sink};
use crate::tags::Tags;
use crate::tpl::{split_template, Tpl};

verus! {

/// The invariant of a shared DOM: it stays well formed.
pub struct DomWf;

impl Predicate<Dom> for DomWf {
    open spec fn predicate(&self, d: Dom) -> bool {
        d.wf()
    }
}

/// A DOM shared by all the links into it.
pub type SharedDom = Rc<InvCell<Dom, DomWf>>;

/// Another pointer to the same shared value.
///
/// Calls `Rc::clone`, which std documents as making another pointer to the
/// same allocation; the contract claims that the new pointer holds the same
/// value.
#[verifier::external_body]
fn share<T>(rc: &Rc<T>) -> (r: Rc<T>)
    ensures
        r == *rc,
{
    Rc::clone(rc)
}

/// Puts `dom` in a cell that links can share.
pub fn share_dom(dom: Dom) -> (r: SharedDom)
    requires
        dom.wf(),
    ensures
        r.predicate() == DomWf,
{
    Rc::new(InvCell::new(dom, Ghost(DomWf)))
}

/// Where a link's DOM lives: owned by the link, or shared with other links.
enum Store {
    Own(Dom),
    Shared(SharedDom),
}

/// A handle to one element of a DOM.
pub struct Link {
    store: Store,
    index: usize,
    tag: Tags,
}

/// Whether `e` may stand at position `i` of `d`: it knows its position,
/// its attributes are safe, and it has the parent and children of the
/// element it replaces.
pub open spec fn fits(d: Seq<ElementView>, i: int, e: ElementView) -> bool {
    &&& 0 <= i < d.len()
    &&& e.index == i
    &&& e.attrs_safe()
    &&& e.parent == d[i].parent
    &&& e.childs == d[i].childs
}

/// A change that a builder makes to one element.
enum Edit<'a> {
    Attr(&'a str, &'a str),
    Id(&'a str),
    Name(&'a str),
    Value(&'a str),
    Href(&'a str),
    Src(&'a str),
    Type(&'a str),
    For(&'a str),
    Data(&'a str, &'a str),
    Class(&'a str),
    Text(&'a str),
    Tpl,
    RawAttr(&'a str),
    RawHtml(&'a str),
}

/// Whether the change names only valid attributes.
spec fn edit_ok(ed: Edit) -> bool {
    match ed {
        Edit::Attr(n, _) => valid_attr_name(n@),
        Edit::Data(k, _) => valid_attr_name(k@),
        _ => true,
    }
}

/// The element after the change.
spec fn edited(e: ElementView, ed: Edit) -> ElementView {
    match ed {
        Edit::Attr(n, v) => e.add_attr(n@, escape(v@)),
        Edit::Id(v) => e.set_attr("id"@, escape(v@)),
        Edit::Name(v) => e.add_attr("name"@, escape(v@)),
        Edit::Value(v) => e.add_attr("value"@, escape(v@)),
        Edit::Href(v) => e.add_attr("href"@, escape(v@)),
        Edit::Src(v) => e.add_attr("src"@, escape(v@)),
        Edit::Type(v) => e.add_attr("type"@, escape(v@)),
        Edit::For(v) => e.add_attr("for"@, escape(v@)),
        Edit::Data(k, v) => e.add_attr("data-"@ + k@, escape(v@)),
        Edit::Class(v) => e.merge_class(escape(v@)),
        Edit::Text(t) => ElementView { text: e.text + t@, ..e },
        Edit::Tpl => ElementView { text: e.text + "{}"@, ..e },
        Edit::RawAttr(a) => ElementView { raw_attrs: e.raw_attrs.push(a@), ..e },
        Edit::RawHtml(h) => ElementView { raw_html: e.raw_html + h@, ..e },
    }
}

/// Makes the change to `e`.
fn apply(e: &mut Element, ed: Edit)
    requires
        edit_ok(ed),
    ensures
        final(e)@ == edited(old(e)@, ed),
        old(e)@.attrs_safe() ==> final(e)@.attrs_safe(),
{
    match ed {
        Edit::Attr(n, v) => {
            e.attr(n, v);
        },
        Edit::Id(v) => {
            e.id(v);
        },
        Edit::Name(v) => {
            e.name(v);
        },
        Edit::Value(v) => {
            e.value(v);
        },
        Edit::Href(v) => {
            e.href(v);
        },
        Edit::Src(v) => {
            e.src(v);
        },
        Edit::Type(v) => {
            e.type_(v);
        },
        Edit::For(v) => {
            e.for_(v);
        },
        Edit::Data(k, v) => {
            e.data(k, v);
        },
        Edit::Class(v) => {
            e.class(v);
        },
        Edit::Text(t) => {
            e.text(t);
        },
        Edit::Tpl => {
            e.tpl();
        },
        Edit::RawAttr(a) => {
            e.raw_attr(a);
        },
        Edit::RawHtml(h) => {
            e.raw_html(h);
        },
    }
}

/// Takes the DOM out of its cell, with the element at `index` taken out
/// of it where the DOM has it: the element comes out exactly when its
/// position is in the DOM, and its shell holds its place.
fn checkout(rc: &SharedDom, index: usize) -> (r: (Dom, Option<Element>))
    requires
        rc.predicate() == DomWf,
    ensures
        r.0.wf(),
        r.1 is Some <==> index < r.0@.len(),
        r.1 matches Some(e) ==> fits(r.0@, index as int, e@) && r.0@[index as int] == shell(e@),
{
    let mut d = rc.replace(Dom::new());
    if index < d.len() {
        let e = d.take_element(index);
        (d, Some(e))
    } else {
        (d, None)
    }
}

/// Puts the element and the DOM back into the cell.
fn checkin(rc: &SharedDom, index: usize, d: Dom, e: Option<Element>)
    requires
        rc.predicate() == DomWf,
        d.wf(),
        e matches Some(e) ==> fits(d@, index as int, e@),
{
    let mut d = d;
    match e {
        Some(e) => d.put_element(index, e),
        None => {},
    }
    rc.replace(d);
}

impl Link {
    #[verifier::type_invariant]
    spec fn inv(self) -> bool {
        match self.store {
            Store::Own(d) => d.wf() && self.index < d@.len() && d@[self.index as int].tag == self.tag,
            Store::Shared(rc) => rc.predicate() == DomWf,
        }
    }

    /// The tag of the element this link points to.
    pub closed spec fn tag_of(self) -> Tags {
        self.tag
    }

    /// The position of the element this link points to.
    pub closed spec fn index_of(self) -> usize {
        self.index
    }

    /// The DOM the link owns, or `None` where it shares its DOM with other
    /// links.
    pub closed spec fn model(self) -> Option<Seq<ElementView>> {
        match self.store {
            Store::Own(d) => Some(d@),
            Store::Shared(_) => None,
        }
    }

    /// Whether the link points into the shared DOM `dom`.
    pub closed spec fn shares(self, dom: SharedDom) -> bool {
        self.store matches Store::Shared(rc) && rc == dom
    }

    /// Whether both links point into the same shared DOM.
    pub closed spec fn same_dom(self, other: Link) -> bool {
        self.store matches Store::Shared(a) && other.store matches Store::Shared(b) && a == b
    }

    /// A link that owns a new DOM holding one element with `tag`.
    pub(crate) fn root(tag: Tags) -> (r: Link)
        ensures
            r.tag_of() == tag,
            r.index_of() == 0,
            r.model() == Some(
                seq![
                    ElementView {
                        index: 0,
                        parent: None,
                        tag,
                        attrs: seq![],
                        raw_attrs: seq![],
                        text: seq![],
                        raw_html: seq![],
                        childs: seq![],
                    },
                ],
            ),
    {
        let mut d = Dom::new();
        d.push(Element::new(0, None, tag));
        let r = Link { store: Store::Own(d), index: 0, tag };
        assert(r.model().unwrap() =~= seq![r.model().unwrap()[0]]);
        r
    }

    /// Adds a new element with `tag` to the shared DOM and returns a link to
    /// it. It becomes the last child of `parent` where the DOM has that
    /// element, or where `parent` is its own new position; rendering leaves
    /// out an element listed as its own child. A parent the DOM does not
    /// have is ignored.
    pub fn new(dom: SharedDom, parent: Option<usize>, tag: Tags) -> (r: Link)
        requires
            dom.predicate() == DomWf,
        ensures
            r.tag_of() == tag,
            r.shares(dom),
            r.model() is None,
    {
        let mut d = dom.replace(Dom::new());
        let index = d.len();
        let el = Element::new(index, parent, tag);
        d.push(el);
        match parent {
            Some(p) => {
                if p <= index {
                    d.add_child(p, index);
                }
            },
            None => {},
        }
        dom.replace(d);
        Link { store: Store::Shared(dom), index, tag }
    }

    /// Moves the DOM into a shared cell, where it is not shared yet, and
    /// returns the cell.
    fn shared(&mut self) -> (r: SharedDom)
        ensures
            r.predicate() == DomWf,
            final(self).shares(r),
            final(self).index_of() == old(self).index_of(),
            final(self).tag_of() == old(self).tag_of(),
            old(self).model() is None ==> *final(self) == *old(self),
    {
        proof {
            use_type_invariant(&*self);
        }
        let mut before = Store::Shared(share_dom(Dom::new()));
        std::mem::swap(&mut before, &mut self.store);
        let rc = match before {
            Store::Own(d) => share_dom(d),
            Store::Shared(rc) => rc,
        };
        self.store = Store::Shared(share(&rc));
        rc
    }

    /// Appends a child element with `tag` and returns a link to it. The
    /// parent's DOM becomes shared with the child.
    ///
    /// Void elements (e.g. `<input>`, `<br>`, `<img>`) cannot have children.
    pub fn append(&mut self, tag: Tags) -> (r: Link)
        requires
            !old(self).tag_of().is_void_tag(),
        ensures
            r.tag_of() == tag,
            r.model() is None,
            r.same_dom(*final(self)),
            final(self).model() is None,
            final(self).index_of() == old(self).index_of(),
            final(self).tag_of() == old(self).tag_of(),
    {
        let rc = self.shared();
        let index = self.index;
        Link::new(rc, Some(index), tag)
    }

    /// Another link to the same element, writing into the same DOM, which
    /// becomes shared.
    pub fn handle(&mut self) -> (r: Link)
        ensures
            r.index_of() == old(self).index_of(),
            r.tag_of() == old(self).tag_of(),
            r.model() is None,
            r.same_dom(*final(self)),
            final(self).model() is None,
            final(self).index_of() == old(self).index_of(),
            final(self).tag_of() == old(self).tag_of(),
    {
        let rc = self.shared();
        Link { store: Store::Shared(rc), index: self.index, tag: self.tag }
    }

    /// Makes the change to the element this link points to.
    fn edit(self, ed: Edit) -> (r: Link)
        requires
            edit_ok(ed),
        ensures
            r.index_of() == self.index_of(),
            r.tag_of() == self.tag_of(),
            match self.model() {
                Some(m) => r.model() == Some(
                    m.update(self.index_of() as int, edited(m[self.index_of() as int], ed)),
                ),
                None => r == self,
            },
    {
        proof {
            use_type_invariant(&self);
        }
        let Link { store, index, tag } = self;
        match store {
            Store::Own(d) => {
                let mut d = d;
                let ghost m = d@;
                let mut e = d.take_element(index);
                apply(&mut e, ed);
                d.put_element(index, e);
                assert(d@ =~= m.update(index as int, edited(m[index as int], ed)));
                Link { store: Store::Own(d), index, tag }
            },
            Store::Shared(rc) => {
                let (d, e) = checkout(&rc, index);
                let e = match e {
                    Some(mut e) => {
                        apply(&mut e, ed);
                        Some(e)
                    },
                    None => None,
                };
                checkin(&rc, index, d, e);
                Link { store: Store::Shared(rc), index, tag }
            },
        }
    }

    /// Appends the attribute `name` with the escaped `value`.
    pub fn attr(self, name: &str, value: &str) -> (r: Self)
        requires
            valid_attr_name(name@),
        ensures
            r.index_of() == self.index_of(),
            r.tag_of() == self.tag_of(),
            match self.model() {
                Some(m) => r.model() == Some(
                    m.update(self.index_of() as int, m[self.index_of() as int].add_attr(name@, escape(value@))),
                ),
                None => r == self,
            },
    {
        self.edit(Edit::Attr(name, value))
    }

    /// Sets the `id` attribute to the escaped `value`, replacing an earlier one.
    pub fn id(self, value: &str) -> (r: Self)
        ensures
            r.index_of() == self.index_of(),
            r.tag_of() == self.tag_of(),
            match self.model() {
                Some(m) => r.model() == Some(
                    m.update(self.index_of() as int, m[self.index_of() as int].set_attr("id"@, escape(value@))),
                ),
                None => r == self,
            },
    {
        self.edit(Edit::Id(value))
    }

    /// Adds `value`, escaped, to the class list.
    pub fn class(self, value: &str) -> (r: Self)
        ensures
            r.index_of() == self.index_of(),
            r.tag_of() == self.tag_of(),
            match self.model() {
                Some(m) => r.model() == Some(
                    m.update(self.index_of() as int, m[self.index_of() as int].merge_class(escape(value@))),
                ),
                None => r == self,
            },
    {
        self.edit(Edit::Class(value))
    }

    /// Appends the attribute `name` with the escaped `value`.
    pub fn name(self, value: &str) -> (r: Self)
        ensures
            r.index_of() == self.index_of(),
            r.tag_of() == self.tag_of(),
            match self.model() {
                Some(m) => r.model() == Some(
                    m.update(self.index_of() as int, m[self.index_of() as int].add_attr("name"@, escape(value@))),
                ),
                None => r == self,
            },
    {
        self.edit(Edit::Name(value))
    }

    /// Appends the attribute `value` with the escaped `value`.
    pub fn value(self, value: &str) -> (r: Self)
        ensures
            r.index_of() == self.index_of(),
            r.tag_of() == self.tag_of(),
            match self.model() {
                Some(m) => r.model() == Some(
                    m.update(self.index_of() as int, m[self.index_of() as int].add_attr("value"@, escape(value@))),
                ),
                None => r == self,
            },
    {
        self.edit(Edit::Value(value))
    }

    /// Appends the attribute `href` with the escaped `value`.
    pub fn href(self, value: &str) -> (r: Self)
        ensures
            r.index_of() == self.index_of(),
            r.tag_of() == self.tag_of(),
            match self.model() {
                Some(m) => r.model() == Some(
                    m.update(self.index_of() as int, m[self.index_of() as int].add_attr("href"@, escape(value@))),
                ),
                None => r == self,
            },
    {
        self.edit(Edit::Href(value))
    }

    /// Appends the attribute `src` with the escaped `value`.
    pub fn src(self, value: &str) -> (r: Self)
        ensures
            r.index_of() == self.index_of(),
            r.tag_of() == self.tag_of(),
            match self.model() {
                Some(m) => r.model() == Some(
                    m.update(self.index_of() as int, m[self.index_of() as int].add_attr("src"@, escape(value@))),
                ),
                None => r == self,
            },
    {
        self.edit(Edit::Src(value))
    }

    /// Appends the attribute `type` with the escaped `value`.
    pub fn type_(self, value: &str) -> (r: Self)
        ensures
            r.index_of() == self.index_of(),
            r.tag_of() == self.tag_of(),
            match self.model() {
                Some(m) => r.model() == Some(
                    m.update(self.index_of() as int, m[self.index_of() as int].add_attr("type"@, escape(value@))),
                ),
                None => r == self,
            },
    {
        self.edit(Edit::Type(value))
    }

    /// Appends the attribute `for` with the escaped `value`.
    pub fn for_(self, value: &str) -> (r: Self)
        ensures
            r.index_of() == self.index_of(),
            r.tag_of() == self.tag_of(),
            match self.model() {
                Some(m) => r.model() == Some(
                    m.update(self.index_of() as int, m[self.index_of() as int].add_attr("for"@, escape(value@))),
                ),
                None => r == self,
            },
    {
        self.edit(Edit::For(value))
    }

    /// Appends the attribute `data-<key>` with the escaped `value`.
    pub fn data(self, key: &str, value: &str) -> (r: Self)
        requires
            valid_attr_name(key@),
        ensures
            r.index_of() == self.index_of(),
            r.tag_of() == self.tag_of(),
            match self.model() {
                Some(m) => r.model() == Some(
                    m.update(self.index_of() as int, m[self.index_of() as int].add_attr("data-"@ + key@, escape(value@))),
                ),
                None => r == self,
            },
    {
        self.edit(Edit::Data(key, value))
    }

    /// Appends `text` to the element's text; it is escaped when rendered.
    pub fn text(self, text: &str) -> (r: Self)
        ensures
            r.index_of() == self.index_of(),
            r.tag_of() == self.tag_of(),
            match self.model() {
                Some(m) => r.model() == Some(
                    m.update(self.index_of() as int, ElementView { text: m[self.index_of() as int].text + text@, ..m[self.index_of() as int] }),
                ),
                None => r == self,
            },
    {
        self.edit(Edit::Text(text))
    }

    /// Appends a `{}` template placeholder to the element's text.
    pub fn tpl(self) -> (r: Self)
        ensures
            r.index_of() == self.index_of(),
            r.tag_of() == self.tag_of(),
            match self.model() {
                Some(m) => r.model() == Some(
                    m.update(self.index_of() as int, ElementView { text: m[self.index_of() as int].text + "{}"@, ..m[self.index_of() as int] }),
                ),
                None => r == self,
            },
    {
        self.edit(Edit::Tpl)
    }

    /// Adds a raw attribute string, written without escaping.
    pub fn raw_attr(self, attr_str: &str) -> (r: Self)
        ensures
            r.index_of() == self.index_of(),
            r.tag_of() == self.tag_of(),
            match self.model() {
                Some(m) => r.model() == Some(
                    m.update(self.index_of() as int, ElementView { raw_attrs: m[self.index_of() as int].raw_attrs.push(attr_str@), ..m[self.index_of() as int] }),
                ),
                None => r == self,
            },
    {
        self.edit(Edit::RawAttr(attr_str))
    }

    /// Adds raw HTML content, written without escaping.
    pub fn raw_html(self, html: &str) -> (r: Self)
        ensures
            r.index_of() == self.index_of(),
            r.tag_of() == self.tag_of(),
            match self.model() {
                Some(m) => r.model() == Some(
                    m.update(self.index_of() as int, ElementView { raw_html: m[self.index_of() as int].raw_html + html@, ..m[self.index_of() as int] }),
                ),
                None => r == self,
            },
    {
        self.edit(Edit::RawHtml(html))
    }

    /// Writes the pretty rendering of the element and its subtree into
    /// `out`, piece by piece, stopping at the first piece the sink refuses.
    pub fn render_pretty_to<W: fmt::Write>(&self, out: &mut Sink<W>) -> (r: Result<(), fmt::Error>)
        requires
            old(out).wf(),
            !old(out).failed(),
        ensures
            match self.model() {
                Some(m) => wrote(*old(out), *final(out), r, pretty(m, self.index_of() as int, 0)),
                None => exists|d: Seq<ElementView>|
                    dom_wf(d) && wrote(
                        *old(out),
                        *final(out),
                        r,
                        #[trigger] pretty(d, self.index_of() as int, 0),
                    ),
            },
    {
        proof {
            use_type_invariant(self);
        }
        match &self.store {
            Store::Own(d) => {
                let _size = d.len();
                match d.get(self.index) {
                    Some(el) => el.render_pretty(d, 0, out),
                    None => Ok(()),
                }
            },
            Store::Shared(rc) => {
                let d = rc.replace(Dom::new());
                let _size = d.len();
                let r = match d.get(self.index) {
                    Some(el) => el.render_pretty(&d, 0, out),
                    None => {
                        assert(old(out).sent() + pretty(d@, self.index as int, 0) =~= old(out).sent());
                        Ok(())
                    },
                };
                let ghost dv = d@;
                assert(dom_wf(dv) && wrote(*old(out), *out, r, pretty(dv, self.index_of() as int, 0)));
                rc.replace(d);
                r
            },
        }
    }

    /// Writes the compact rendering of the element and its subtree into
    /// `out`, piece by piece, stopping at the first piece the sink refuses.
    pub fn render_compact_to<W: fmt::Write>(&self, out: &mut Sink<W>) -> (r: Result<(), fmt::Error>)
        requires
            old(out).wf(),
            !old(out).failed(),
        ensures
            match self.model() {
                Some(m) => wrote(*old(out), *final(out), r, compact(m, self.index_of() as int)),
                None => exists|d: Seq<ElementView>|
                    dom_wf(d) && wrote(
                        *old(out),
                        *final(out),
                        r,
                        #[trigger] compact(d, self.index_of() as int),
                    ),
            },
    {
        proof {
            use_type_invariant(self);
        }
        match &self.store {
            Store::Own(d) => {
                match d.get(self.index) {
                    Some(el) => el.render_compact(d, out),
                    None => Ok(()),
                }
            },
            Store::Shared(rc) => {
                let d = rc.replace(Dom::new());
                let r = match d.get(self.index) {
                    Some(el) => el.render_compact(&d, out),
                    None => {
                        assert(old(out).sent() + compact(d@, self.index as int) =~= old(out).sent());
                        Ok(())
                    },
                };
                let ghost dv = d@;
                assert(dom_wf(dv) && wrote(*old(out), *out, r, compact(dv, self.index_of() as int)));
                rc.replace(d);
                r
            },
        }
    }

    /// Renders the element and its subtree, indented, into a new string:
    /// the pretty rendering of the DOM as it stands.
    pub fn render_pretty(&self) -> (r: String)
        ensures
            match self.model() {
                Some(m) => r@ == pretty(m, self.index_of() as int, 0),
                None => exists|d: Seq<ElementView>|
                    dom_wf(d) && r@ == #[trigger] pretty(d, self.index_of() as int, 0),
            },
    {
        let mut sink: Sink<String> = Sink::text();
        let _ = self.render_pretty_to(&mut sink);
        sink.into_text()
    }

    /// Renders the element and its subtree, without indentation or line
    /// breaks, into a new string: the compact rendering of the DOM as it
    /// stands.
    pub fn render_compact(&self) -> (r: String)
        ensures
            match self.model() {
                Some(m) => r@ == compact(m, self.index_of() as int),
                None => exists|d: Seq<ElementView>|
                    dom_wf(d) && r@ == #[trigger] compact(d, self.index_of() as int),
            },
    {
        let mut sink: Sink<String> = Sink::text();
        let _ = self.render_compact_to(&mut sink);
        sink.into_text()
    }

    /// The same as `render_pretty`.
    pub fn render(&self) -> (r: String)
        ensures
            match self.model() {
                Some(m) => r@ == pretty(m, self.index_of() as int, 0),
                None => exists|d: Seq<ElementView>|
                    dom_wf(d) && r@ == #[trigger] pretty(d, self.index_of() as int, 0),
            },
    {
        self.render_pretty()
    }

    /// Writes the pretty rendering into `out`, piece by piece; the first
    /// error of the writer stops it and is returned. What is handed over is
    /// what `render_pretty_to` hands to a writer sink.
    pub fn render_pretty_into<W: fmt::Write>(&self, out: &mut W) -> Result<(), fmt::Error> {
        let mut sink = Sink::writer(out);
        self.render_pretty_to(&mut sink)
    }

    /// Writes the compact rendering into `out`, piece by piece; the first
    /// error of the writer stops it and is returned. What is handed over is
    /// what `render_compact_to` hands to a writer sink.
    pub fn render_compact_into<W: fmt::Write>(&self, out: &mut W) -> Result<(), fmt::Error> {
        let mut sink = Sink::writer(out);
        self.render_compact_to(&mut sink)
    }

    /// The same as `render_pretty_into`.
    pub fn render_into<W: fmt::Write>(&self, out: &mut W) -> Result<(), fmt::Error> {
        self.render_pretty_into(out)
    }

    /// A template made from the pretty rendering; `tpl()` placeholders
    /// become its slots.
    pub fn template(&self) -> (r: Tpl)
        ensures
            match self.model() {
                Some(m) => r@ == split_template(pretty(m, self.index_of() as int, 0)),
                None => exists|d: Seq<ElementView>|
                    dom_wf(d) && r@ == split_template(#[trigger] pretty(d, self.index_of() as int, 0)),
            },
    {
        let s = self.render();
        Tpl::new(s.as_str())
    }

    /// Appends a `Html` child; the DOM becomes shared with it.
    pub fn html(&mut self) -> (r: Link)
        requires
            !old(self).tag_of().is_void_tag(),
        ensures
            r.tag_of() == Tags::Html,
            r.model() is None,
            r.same_dom(*final(self)),
            final(self).model() is None,
            final(self).index_of() == old(self).index_of(),
            final(self).tag_of() == old(self).tag_of(),
    {
        self.append(Tags::Html)
    }

    /// Appends a `Head` child; the DOM becomes shared with it.
    pub fn head(&mut self) -> (r: Link)
        requires
            !old(self).tag_of().is_void_tag(),
        ensures
            r.tag_of() == Tags::Head,
            r.model() is None,
            r.same_dom(*final(self)),
            final(self).model() is None,
            final(self).index_of() == old(self).index_of(),
            final(self).tag_of() == old(self).tag_of(),
    {
        self.append(Tags::Head)
    }

    /// Appends a `Title` child; the DOM becomes shared with it.
    pub fn title(&mut self) -> (r: Link)
        requires
            !old(self).tag_of().is_void_tag(),
        ensures
            r.tag_of() == Tags::Title,
            r.model() is None,
            r.same_dom(*final(self)),
            final(self).model() is None,
            final(self).index_of() == old(self).index_of(),
            final(self).tag_of() == old(self).tag_of(),
    {
        self.append(Tags::Title)
    }

    /// Appends a `Meta` child; the DOM becomes shared with it.
    pub fn meta(&mut self) -> (r: Link)
        requires
            !old(self).tag_of().is_void_tag(),
        ensures
            r.tag_of() == Tags::Meta,
            r.model() is None,
            r.same_dom(*final(self)),
            final(self).model() is None,
            final(self).index_of() == old(self).index_of(),
            final(self).tag_of() == old(self).tag_of(),
    {
        self.append(Tags::Meta)
    }

    /// Appends a `Link` child; the DOM becomes shared with it.
    pub fn link(&mut self) -> (r: Link)
        requires
            !old(self).tag_of().is_void_tag(),
        ensures
            r.tag_of() == Tags::Link,
            r.model() is None,
            r.same_dom(*final(self)),
            final(self).model() is None,
            final(self).index_of() == old(self).index_of(),
            final(self).tag_of() == old(self).tag_of(),
    {
        self.append(Tags::Link)
    }

    /// Appends a `Body` child; the DOM becomes shared with it.
    pub fn body(&mut self) -> (r: Link)
        requires
            !old(self).tag_of().is_void_tag(),
        ensures
            r.tag_of() == Tags::Body,
            r.model() is None,
            r.same_dom(*final(self)),
            final(self).model() is None,
            final(self).index_of() == old(self).index_of(),
            final(self).tag_of() == old(self).tag_of(),
    {
        self.append(Tags::Body)
    }

    /// Appends a `Div` child; the DOM becomes shared with it.
    pub fn div(&mut self) -> (r: Link)
        requires
            !old(self).tag_of().is_void_tag(),
        ensures
            r.tag_of() == Tags::Div,
            r.model() is None,
            r.same_dom(*final(self)),
            final(self).model() is None,
            final(self).index_of() == old(self).index_of(),
            final(self).tag_of() == old(self).tag_of(),
    {
        self.append(Tags::Div)
    }

    /// Appends a `H1` child; the DOM becomes shared with it.
    pub fn h1(&mut self) -> (r: Link)
        requires
            !old(self).tag_of().is_void_tag(),
        ensures
            r.tag_of() == Tags::H1,
            r.model() is None,
            r.same_dom(*final(self)),
            final(self).model() is None,
            final(self).index_of() == old(self).index_of(),
            final(self).tag_of() == old(self).tag_of(),
    {
        self.append(Tags::H1)
    }

    /// Appends a `H2` child; the DOM becomes shared with it.
    pub fn h2(&mut self) -> (r: Link)
        requires
            !old(self).tag_of().is_void_tag(),
        ensures
            r.tag_of() == Tags::H2,
            r.model() is None,
            r.same_dom(*final(self)),
            final(self).model() is None,
            final(self).index_of() == old(self).index_of(),
            final(self).tag_of() == old(self).tag_of(),
    {
        self.append(Tags::H2)
    }

    /// Appends a `H3` child; the DOM becomes shared with it.
    pub fn h3(&mut self) -> (r: Link)
        requires
            !old(self).tag_of().is_void_tag(),
        ensures
            r.tag_of() == Tags::H3,
            r.model() is None,
            r.same_dom(*final(self)),
            final(self).model() is None,
            final(self).index_of() == old(self).index_of(),
            final(self).tag_of() == old(self).tag_of(),
    {
        self.append(Tags::H3)
    }

    /// Appends a `H4` child; the DOM becomes shared with it.
    pub fn h4(&mut self) -> (r: Link)
        requires
            !old(self).tag_of().is_void_tag(),
        ensures
            r.tag_of() == Tags::H4,
            r.model() is None,
            r.same_dom(*final(self)),
            final(self).model() is None,
            final(self).index_of() == old(self).index_of(),
            final(self).tag_of() == old(self).tag_of(),
    {
        self.append(Tags::H4)
    }

    /// Appends a `H5` child; the DOM becomes shared with it.
    pub fn h5(&mut self) -> (r: Link)
        requires
            !old(self).tag_of().is_void_tag(),
        ensures
            r.tag_of() == Tags::H5,
            r.model() is None,
            r.same_dom(*final(self)),
            final(self).model() is None,
            final(self).index_of() == old(self).index_of(),
            final(self).tag_of() == old(self).tag_of(),
    {
        self.append(Tags::H5)
    }

    /// Appends a `H6` child; the DOM becomes shared with it.
    pub fn h6(&mut self) -> (r: Link)
        requires
            !old(self).tag_of().is_void_tag(),
        ensures
            r.tag_of() == Tags::H6,
            r.model() is None,
            r.same_dom(*final(self)),
            final(self).model() is None,
            final(self).index_of() == old(self).index_of(),
            final(self).tag_of() == old(self).tag_of(),
    {
        self.append(Tags::H6)
    }

    /// Appends a `P` child; the DOM becomes shared with it.
    pub fn p(&mut self) -> (r: Link)
        requires
            !old(self).tag_of().is_void_tag(),
        ensures
            r.tag_of() == Tags::P,
            r.model() is None,
            r.same_dom(*final(self)),
            final(self).model() is None,
            final(self).index_of() == old(self).index_of(),
            final(self).tag_of() == old(self).tag_of(),
    {
        self.append(Tags::P)
    }

    /// Appends a `Span` child; the DOM becomes shared with it.
    pub fn span(&mut self) -> (r: Link)
        requires
            !old(self).tag_of().is_void_tag(),
        ensures
            r.tag_of() == Tags::Span,
            r.model() is None,
            r.same_dom(*final(self)),
            final(self).model() is None,
            final(self).index_of() == old(self).index_of(),
            final(self).tag_of() == old(self).tag_of(),
    {
        self.append(Tags::Span)
    }

    /// Appends a `A` child; the DOM becomes shared with it.
    pub fn a(&mut self) -> (r: Link)
        requires
            !old(self).tag_of().is_void_tag(),
        ensures
            r.tag_of() == Tags::A,
            r.model() is None,
            r.same_dom(*final(self)),
            final(self).model() is None,
            final(self).index_of() == old(self).index_of(),
            final(self).tag_of() == old(self).tag_of(),
    {
        self.append(Tags::A)
    }

    /// Appends a `Button` child; the DOM becomes shared with it.
    pub fn button(&mut self) -> (r: Link)
        requires
            !old(self).tag_of().is_void_tag(),
        ensures
            r.tag_of() == Tags::Button,
            r.model() is None,
            r.same_dom(*final(self)),
            final(self).model() is None,
            final(self).index_of() == old(self).index_of(),
            final(self).tag_of() == old(self).tag_of(),
    {
        self.append(Tags::Button)
    }

    /// Appends a `Form` child; the DOM becomes shared with it.
    pub fn form(&mut self) -> (r: Link)
        requires
            !old(self).tag_of().is_void_tag(),
        ensures
            r.tag_of() == Tags::Form,
            r.model() is None,
            r.same_dom(*final(self)),
            final(self).model() is None,
            final(self).index_of() == old(self).index_of(),
            final(self).tag_of() == old(self).tag_of(),
    {
        self.append(Tags::Form)
    }

    /// Appends a `Input` child; the DOM becomes shared with it.
    pub fn input(&mut self) -> (r: Link)
        requires
            !old(self).tag_of().is_void_tag(),
        ensures
            r.tag_of() == Tags::Input,
            r.model() is None,
            r.same_dom(*final(self)),
            final(self).model() is None,
            final(self).index_of() == old(self).index_of(),
            final(self).tag_of() == old(self).tag_of(),
    {
        self.append(Tags::Input)
    }

    /// Appends a `Textarea` child; the DOM becomes shared with it.
    pub fn textarea(&mut self) -> (r: Link)
        requires
            !old(self).tag_of().is_void_tag(),
        ensures
            r.tag_of() == Tags::Textarea,
            r.model() is None,
            r.same_dom(*final(self)),
            final(self).model() is None,
            final(self).index_of() == old(self).index_of(),
            final(self).tag_of() == old(self).tag_of(),
    {
        self.append(Tags::Textarea)
    }

    /// Appends a `Select` child; the DOM becomes shared with it.
    pub fn select(&mut self) -> (r: Link)
        requires
            !old(self).tag_of().is_void_tag(),
        ensures
            r.tag_of() == Tags::Select,
            r.model() is None,
            r.same_dom(*final(self)),
            final(self).model() is None,
            final(self).index_of() == old(self).index_of(),
            final(self).tag_of() == old(self).tag_of(),
    {
        self.append(Tags::Select)
    }

    /// Appends a `Opt` child; the DOM becomes shared with it.
    pub fn opt(&mut self) -> (r: Link)
        requires
            !old(self).tag_of().is_void_tag(),
        ensures
            r.tag_of() == Tags::Opt,
            r.model() is None,
            r.same_dom(*final(self)),
            final(self).model() is None,
            final(self).index_of() == old(self).index_of(),
            final(self).tag_of() == old(self).tag_of(),
    {
        self.append(Tags::Opt)
    }

    /// Appends a `Table` child; the DOM becomes shared with it.
    pub fn table(&mut self) -> (r: Link)
        requires
            !old(self).tag_of().is_void_tag(),
        ensures
            r.tag_of() == Tags::Table,
            r.model() is None,
            r.same_dom(*final(self)),
            final(self).model() is None,
            final(self).index_of() == old(self).index_of(),
            final(self).tag_of() == old(self).tag_of(),
    {
        self.append(Tags::Table)
    }

    /// Appends a `Thead` child; the DOM becomes shared with it.
    pub fn thead(&mut self) -> (r: Link)
        requires
            !old(self).tag_of().is_void_tag(),
        ensures
            r.tag_of() == Tags::Thead,
            r.model() is None,
            r.same_dom(*final(self)),
            final(self).model() is None,
            final(self).index_of() == old(self).index_of(),
            final(self).tag_of() == old(self).tag_of(),
    {
        self.append(Tags::Thead)
    }

    /// Appends a `Tbody` child; the DOM becomes shared with it.
    pub fn tbody(&mut self) -> (r: Link)
        requires
            !old(self).tag_of().is_void_tag(),
        ensures
            r.tag_of() == Tags::Tbody,
            r.model() is None,
            r.same_dom(*final(self)),
            final(self).model() is None,
            final(self).index_of() == old(self).index_of(),
            final(self).tag_of() == old(self).tag_of(),
    {
        self.append(Tags::Tbody)
    }

    /// Appends a `Tr` child; the DOM becomes shared with it.
    pub fn tr(&mut self) -> (r: Link)
        requires
            !old(self).tag_of().is_void_tag(),
        ensures
            r.tag_of() == Tags::Tr,
            r.model() is None,
            r.same_dom(*final(self)),
            final(self).model() is None,
            final(self).index_of() == old(self).index_of(),
            final(self).tag_of() == old(self).tag_of(),
    {
        self.append(Tags::Tr)
    }

    /// Appends a `Td` child; the DOM becomes shared with it.
    pub fn td(&mut self) -> (r: Link)
        requires
            !old(self).tag_of().is_void_tag(),
        ensures
            r.tag_of() == Tags::Td,
            r.model() is None,
            r.same_dom(*final(self)),
            final(self).model() is None,
            final(self).index_of() == old(self).index_of(),
            final(self).tag_of() == old(self).tag_of(),
    {
        self.append(Tags::Td)
    }

    /// Appends a `Ul` child; the DOM becomes shared with it.
    pub fn ul(&mut self) -> (r: Link)
        requires
            !old(self).tag_of().is_void_tag(),
        ensures
            r.tag_of() == Tags::Ul,
            r.model() is None,
            r.same_dom(*final(self)),
            final(self).model() is None,
            final(self).index_of() == old(self).index_of(),
            final(self).tag_of() == old(self).tag_of(),
    {
        self.append(Tags::Ul)
    }

    /// Appends a `Ol` child; the DOM becomes shared with it.
    pub fn ol(&mut self) -> (r: Link)
        requires
            !old(self).tag_of().is_void_tag(),
        ensures
            r.tag_of() == Tags::Ol,
            r.model() is None,
            r.same_dom(*final(self)),
            final(self).model() is None,
            final(self).index_of() == old(self).index_of(),
            final(self).tag_of() == old(self).tag_of(),
    {
        self.append(Tags::Ol)
    }

    /// Appends a `Li` child; the DOM becomes shared with it.
    pub fn li(&mut self) -> (r: Link)
        requires
            !old(self).tag_of().is_void_tag(),
        ensures
            r.tag_of() == Tags::Li,
            r.model() is None,
            r.same_dom(*final(self)),
            final(self).model() is None,
            final(self).index_of() == old(self).index_of(),
            final(self).tag_of() == old(self).tag_of(),
    {
        self.append(Tags::Li)
    }

    /// Appends a `Img` child; the DOM becomes shared with it.
    pub fn img(&mut self) -> (r: Link)
        requires
            !old(self).tag_of().is_void_tag(),
        ensures
            r.tag_of() == Tags::Img,
            r.model() is None,
            r.same_dom(*final(self)),
            final(self).model() is None,
            final(self).index_of() == old(self).index_of(),
            final(self).tag_of() == old(self).tag_of(),
    {
        self.append(Tags::Img)
    }

    /// Appends a `Svg` child; the DOM becomes shared with it.
    pub fn svg(&mut self) -> (r: Link)
        requires
            !old(self).tag_of().is_void_tag(),
        ensures
            r.tag_of() == Tags::Svg,
            r.model() is None,
            r.same_dom(*final(self)),
            final(self).model() is None,
            final(self).index_of() == old(self).index_of(),
            final(self).tag_of() == old(self).tag_of(),
    {
        self.append(Tags::Svg)
    }

    /// Appends a `Path` child; the DOM becomes shared with it.
    pub fn path(&mut self) -> (r: Link)
        requires
            !old(self).tag_of().is_void_tag(),
        ensures
            r.tag_of() == Tags::Path,
            r.model() is None,
            r.same_dom(*final(self)),
            final(self).model() is None,
            final(self).index_of() == old(self).index_of(),
            final(self).tag_of() == old(self).tag_of(),
    {
        self.append(Tags::Path)
    }

    /// Appends a `Script` child; the DOM becomes shared with it.
    pub fn script(&mut self) -> (r: Link)
        requires
            !old(self).tag_of().is_void_tag(),
        ensures
            r.tag_of() == Tags::Script,
            r.model() is None,
            r.same_dom(*final(self)),
            final(self).model() is None,
            final(self).index_of() == old(self).index_of(),
            final(self).tag_of() == old(self).tag_of(),
    {
        self.append(Tags::Script)
    }

    /// Appends a `Style` child; the DOM becomes shared with it.
    pub fn style(&mut self) -> (r: Link)
        requires
            !old(self).tag_of().is_void_tag(),
        ensures
            r.tag_of() == Tags::Style,
            r.model() is None,
            r.same_dom(*final(self)),
            final(self).model() is None,
            final(self).index_of() == old(self).index_of(),
            final(self).tag_of() == old(self).tag_of(),
    {
        self.append(Tags::Style)
    }

    /// Appends a `Br` child; the DOM becomes shared with it.
    pub fn br(&mut self) -> (r: Link)
        requires
            !old(self).tag_of().is_void_tag(),
        ensures
            r.tag_of() == Tags::Br,
            r.model() is None,
            r.same_dom(*final(self)),
            final(self).model() is None,
            final(self).index_of() == old(self).index_of(),
            final(self).tag_of() == old(self).tag_of(),
    {
        self.append(Tags::Br)
    }

    /// Appends a `Label` child; the DOM becomes shared with it.
    pub fn label(&mut self) -> (r: Link)
        requires
            !old(self).tag_of().is_void_tag(),
        ensures
            r.tag_of() == Tags::Label,
            r.model() is None,
            r.same_dom(*final(self)),
            final(self).model() is None,
            final(self).index_of() == old(self).index_of(),
            final(self).tag_of() == old(self).tag_of(),
    {
        self.append(Tags::Label)
    }

    /// Appends a `Iframe` child; the DOM becomes shared with it.
    pub fn iframe(&mut self) -> (r: Link)
        requires
            !old(self).tag_of().is_void_tag(),
        ensures
            r.tag_of() == Tags::Iframe,
            r.model() is None,
            r.same_dom(*final(self)),
            final(self).model() is None,
            final(self).index_of() == old(self).index_of(),
            final(self).tag_of() == old(self).tag_of(),
    {
        self.append(Tags::Iframe)
    }

    /// Appends a `Pre` child; the DOM becomes shared with it.
    pub fn pre(&mut self) -> (r: Link)
        requires
            !old(self).tag_of().is_void_tag(),
        ensures
            r.tag_of() == Tags::Pre,
            r.model() is None,
            r.same_dom(*final(self)),
            final(self).model() is None,
            final(self).index_of() == old(self).index_of(),
            final(self).tag_of() == old(self).tag_of(),
    {
        self.append(Tags::Pre)
    }

    /// Appends a `Code` child; the DOM becomes shared with it.
    pub fn code(&mut self) -> (r: Link)
        requires
            !old(self).tag_of().is_void_tag(),
        ensures
            r.tag_of() == Tags::Code,
            r.model() is None,
            r.same_dom(*final(self)),
            final(self).model() is None,
            final(self).index_of() == old(self).index_of(),
            final(self).tag_of() == old(self).tag_of(),
    {
        self.append(Tags::Code)
    }

    /// Appends a `Any` child; the DOM becomes shared with it.
    pub fn any(&mut self) -> (r: Link)
        requires
            !old(self).tag_of().is_void_tag(),
        ensures
            r.tag_of() == Tags::Any,
            r.model() is None,
            r.same_dom(*final(self)),
            final(self).model() is None,
            final(self).index_of() == old(self).index_of(),
            final(self).tag_of() == old(self).tag_of(),
    {
        self.append(Tags::Any)
    }
}

} // verus!
