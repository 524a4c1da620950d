//! The DOM arena: elements, their attributes and content, and rendering.

use vstd::prelude::*;

use std::fmt;

use crate::escape::{
    escape, escape_into_string, lemma_escape_has_no_markup, lemma_markup_free_append, markup_free,
};
use crate::sink::{
    lemma_prefix_append, lemma_prefix_trans, lemma_stop, lemma_stop_before, lemma_stop_within, put,
    put_escaped,
    wrote, Sink,
};
use crate::tags::Tags;
use crate::render::{
    closing_or_empty, compact, compact_children, indent, pretty, pretty_children, start_tag, text_block,
    attrs_text, raw_attrs_text,
};
use crate::text::{lines_of, push_str, split_lines, str_eq, strings_view};

verus! {

/// What an element holds, as plain values.
pub struct ElementView {
    pub index: usize,
    pub parent: Option<usize>,
    pub tag: Tags,
    /// Attribute names and their escaped values, in order.
    pub attrs: Seq<(Seq<char>, Seq<char>)>,
    pub raw_attrs: Seq<Seq<char>>,
    pub text: Seq<char>,
    pub raw_html: Seq<char>,
    /// Indices of the children, in the order they were appended.
    pub childs: Seq<usize>,
}

/// Whether `c` may appear in an attribute name: an ASCII letter or digit,
/// or one of `-`, `_`, `:`, `.`.
pub open spec fn is_attr_name_char(c: char) -> bool {
    ('a' <= c && c <= 'z') || ('A' <= c && c <= 'Z') || ('0' <= c && c <= '9') || c == '-' || c
        == '_' || c == ':' || c == '.'
}

/// A valid attribute name is non-empty and made of attribute-name characters.
pub open spec fn valid_attr_name(name: Seq<char>) -> bool {
    name.len() > 0 && forall|i: int| 0 <= i < name.len() ==> is_attr_name_char(#[trigger] name[i])
}

/// The first position below `k` of an attribute called `name`.
pub open spec fn first_attr_in(attrs: Seq<(Seq<char>, Seq<char>)>, name: Seq<char>, k: int) -> Option<
    int,
>
    decreases k,
{
    if k <= 0 {
        None
    } else {
        match first_attr_in(attrs, name, k - 1) {
            Some(i) => Some(i),
            None => if attrs[k - 1].0 == name {
                Some(k - 1)
            } else {
                None
            },
        }
    }
}

/// The position of the first attribute called `name`, if any.
pub open spec fn first_attr(attrs: Seq<(Seq<char>, Seq<char>)>, name: Seq<char>) -> Option<int> {
    first_attr_in(attrs, name, attrs.len() as int)
}

/// Once found below `k`, the first position stays the first below any larger bound.
pub proof fn lemma_first_attr_stable(
    attrs: Seq<(Seq<char>, Seq<char>)>,
    name: Seq<char>,
    k: int,
    m: int,
)
    requires
        k <= m,
        first_attr_in(attrs, name, k) is Some,
    ensures
        first_attr_in(attrs, name, m) == first_attr_in(attrs, name, k),
    decreases m - k,
{
    if k < m {
        lemma_first_attr_stable(attrs, name, k, m - 1);
    }
}

/// What `first_attr_in` finds is a position below `k` holding `name`, and
/// no earlier position holds it; when it finds nothing, no position below
/// `k` holds `name`.
pub proof fn lemma_first_attr_in(attrs: Seq<(Seq<char>, Seq<char>)>, name: Seq<char>, k: int)
    requires
        0 <= k <= attrs.len(),
    ensures
        match first_attr_in(attrs, name, k) {
            Some(i) => 0 <= i < k && attrs[i].0 == name && forall|j: int|
                0 <= j < i ==> attrs[j].0 != name,
            None => forall|j: int| 0 <= j < k ==> attrs[j].0 != name,
        },
    decreases k,
{
    if k > 0 {
        lemma_first_attr_in(attrs, name, k - 1);
    }
}

impl ElementView {
    /// Every attribute has a valid name and a markup-free value, so that it
    /// renders as one well-formed ` name="value"` pair.
    pub open spec fn attrs_safe(self) -> bool {
        forall|k: int|
            #![trigger self.attrs[k]]
            0 <= k < self.attrs.len() ==> valid_attr_name(self.attrs[k].0) && markup_free(
                self.attrs[k].1,
            )
    }

    /// Sets the attribute `name` to `value`: the first attribute of that name
    /// takes the new value, or a new attribute is appended.
    pub open spec fn set_attr(self, name: Seq<char>, value: Seq<char>) -> ElementView {
        let attrs = match first_attr(self.attrs, name) {
            Some(i) => self.attrs.update(i, (name, value)),
            None => self.attrs.push((name, value)),
        };
        ElementView { attrs: attrs, ..self }
    }

    /// Appends the attribute `name="value"`.
    pub open spec fn add_attr(self, name: Seq<char>, value: Seq<char>) -> ElementView {
        ElementView { attrs: self.attrs.push((name, value)), ..self }
    }

    /// Adds `value` to the class list: joined with a space to the first
    /// `class` attribute, or appended as a new `class` attribute.
    pub open spec fn merge_class(self, value: Seq<char>) -> ElementView {
        let attrs = match first_attr(self.attrs, "class"@) {
            Some(i) => self.attrs.update(i, (self.attrs[i].0, self.attrs[i].1 + " "@ + value)),
            None => self.attrs.push(("class"@, value)),
        };
        ElementView { attrs: attrs, ..self }
    }
}

/// Adding an attribute with a valid name and a markup-free value keeps the
/// attributes safe.
pub proof fn lemma_add_attr_safe(e: ElementView, name: Seq<char>, value: Seq<char>)
    requires
        e.attrs_safe(),
        valid_attr_name(name),
        markup_free(value),
    ensures
        e.add_attr(name, value).attrs_safe(),
{
    let a = e.add_attr(name, value).attrs;
    assert forall|k: int| #![trigger a[k]] 0 <= k < a.len() implies valid_attr_name(a[k].0)
        && markup_free(a[k].1) by {
        if k < e.attrs.len() {
            assert(a[k] == e.attrs[k]);
        }
    }
}

/// Setting an attribute with a valid name to a markup-free value keeps the
/// attributes safe.
pub proof fn lemma_set_attr_safe(e: ElementView, name: Seq<char>, value: Seq<char>)
    requires
        e.attrs_safe(),
        valid_attr_name(name),
        markup_free(value),
    ensures
        e.set_attr(name, value).attrs_safe(),
{
    let a = e.set_attr(name, value).attrs;
    lemma_first_attr_in(e.attrs, name, e.attrs.len() as int);
    assert forall|k: int| #![trigger a[k]] 0 <= k < a.len() implies valid_attr_name(a[k].0)
        && markup_free(a[k].1) by {
        match first_attr(e.attrs, name) {
            Some(i) => {
                if k != i {
                    assert(a[k] == e.attrs[k]);
                }
            },
            None => {
                if k < e.attrs.len() {
                    assert(a[k] == e.attrs[k]);
                }
            },
        }
    }
}

/// Merging a markup-free class into the class list keeps the attributes
/// safe.
pub proof fn lemma_merge_class_safe(e: ElementView, value: Seq<char>)
    requires
        e.attrs_safe(),
        markup_free(value),
    ensures
        e.merge_class(value).attrs_safe(),
{
    reveal_strlit("class");
    reveal_strlit(" ");
    let a = e.merge_class(value).attrs;
    match first_attr(e.attrs, "class"@) {
        Some(i) => {
            lemma_first_attr_in(e.attrs, "class"@, e.attrs.len() as int);
            assert(e.attrs[i].0 == a[i].0);
            assert(valid_attr_name(e.attrs[i].0));
            assert(markup_free(e.attrs[i].1));
            lemma_markup_free_append(e.attrs[i].1, " "@);
            lemma_markup_free_append(e.attrs[i].1 + " "@, value);
        },
        None => {},
    }
    assert forall|k: int| #![trigger a[k]] 0 <= k < a.len() implies valid_attr_name(a[k].0)
        && markup_free(a[k].1) by {
        if k < e.attrs.len() && a[k] == e.attrs[k] {
            assert(valid_attr_name(e.attrs[k].0));
        }
    }
}

/// Lists whose names agree below `k` find the same first position below `k`.
proof fn lemma_first_attr_prefix(
    a: Seq<(Seq<char>, Seq<char>)>,
    b: Seq<(Seq<char>, Seq<char>)>,
    name: Seq<char>,
    k: int,
)
    requires
        k <= a.len(),
        k <= b.len(),
        forall|j: int| 0 <= j < k ==> #[trigger] a[j].0 == b[j].0,
    ensures
        first_attr_in(a, name, k) == first_attr_in(b, name, k),
    decreases k,
{
    if k > 0 {
        lemma_first_attr_prefix(a, b, name, k - 1);
        assert(a[k - 1].0 == b[k - 1].0);
    }
}

/// Where the first attribute called `name` is replaced at its place, or
/// appended when there was none, the first attribute of that name is the
/// replaced or appended one.
proof fn lemma_first_attr_after_write(
    a: Seq<(Seq<char>, Seq<char>)>,
    name: Seq<char>,
    pair: (Seq<char>, Seq<char>),
)
    requires
        pair.0 == name,
    ensures
        match first_attr(a, name) {
            Some(i) => first_attr(a.update(i, pair), name) == Some(i),
            None => first_attr(a.push(pair), name) == Some(a.len() as int),
        },
{
    lemma_first_attr_in(a, name, a.len() as int);
    match first_attr(a, name) {
        Some(i) => {
            let b = a.update(i, pair);
            lemma_first_attr_prefix(a, b, name, i);
            lemma_first_attr_in(a, name, i);
            lemma_first_attr_stable(b, name, i + 1, b.len() as int);
        },
        None => {
            let b = a.push(pair);
            lemma_first_attr_prefix(a, b, name, a.len() as int);
        },
    }
}

/// What `id` (and any attribute set by name) writes is what a read of that
/// attribute gives back, and setting an attribute that is already there
/// adds no second one.
pub proof fn lemma_set_attr_reads_back(e: ElementView, name: Seq<char>, value: Seq<char>)
    ensures
        ({
            let after = e.set_attr(name, value);
            &&& first_attr(after.attrs, name) matches Some(i) && after.attrs[i] == (name, value)
            &&& after.attrs.len() == e.attrs.len() + (if first_attr(e.attrs, name) is Some {
                0int
            } else {
                1int
            })
        }),
{
    lemma_first_attr_in(e.attrs, name, e.attrs.len() as int);
    lemma_first_attr_after_write(e.attrs, name, (name, value));
}

/// A class added to an element that already has a `class` attribute is
/// joined to its value with a space; otherwise it becomes the value of a
/// new `class` attribute.
pub proof fn lemma_merge_class_reads_back(e: ElementView, value: Seq<char>)
    ensures
        ({
            let after = e.merge_class(value);
            match first_attr(e.attrs, "class"@) {
                Some(i) => first_attr(after.attrs, "class"@) == Some(i) && after.attrs[i].1 == e.attrs[i].1
                    + " "@ + value && after.attrs.len() == e.attrs.len(),
                None => first_attr(after.attrs, "class"@) == Some(e.attrs.len() as int)
                    && after.attrs[e.attrs.len() as int].1 == value,
            }
        }),
{
    lemma_first_attr_in(e.attrs, "class"@, e.attrs.len() as int);
    match first_attr(e.attrs, "class"@) {
        Some(i) => {
            lemma_first_attr_after_write(e.attrs, "class"@, ("class"@, e.attrs[i].1 + " "@ + value));
            assert(e.attrs[i].0 == "class"@);
            assert(e.merge_class(value).attrs =~= e.attrs.update(i, ("class"@, e.attrs[i].1 + " "@ + value)));
        },
        None => {
            lemma_first_attr_after_write(e.attrs, "class"@, ("class"@, value));
        },
    }
}

/// One node of the DOM arena.
#[derive(Debug)]
pub struct Element {
    index: usize,
    parent: Option<usize>,
    pub(crate) tag: Tags,
    attrs: Vec<(String, String)>,
    raw_attrs: Vec<String>,
    text: String,
    raw_html: String,
    pub(crate) childs: Vec<usize>,
}

/// The views of a vector of name/value pairs.
pub open spec fn pairs_view(v: Seq<(String, String)>) -> Seq<(Seq<char>, Seq<char>)> {
    v.map_values(|p: (String, String)| (p.0@, p.1@))
}

impl View for Element {
    type V = ElementView;

    closed spec fn view(&self) -> ElementView {
        ElementView {
            index: self.index,
            parent: self.parent,
            tag: self.tag,
            attrs: pairs_view(self.attrs@),
            raw_attrs: strings_view(self.raw_attrs@),
            text: self.text@,
            raw_html: self.raw_html@,
            childs: self.childs@,
        }
    }
}

/// Whether `name` is a valid attribute name; `attr` and `data` require one.
pub fn is_valid_attr_name(name: &str) -> (r: bool)
    ensures
        r == valid_attr_name(name@),
{
    let mut ok = true;
    let mut seen = false;
    for c in it: name.chars()
        invariant
            it.seq() == name@,
            seen == (it.index() > 0),
            ok == forall|i: int| 0 <= i < it.index() ==> is_attr_name_char(#[trigger] name@[i]),
    {
        let good = ('a' <= c && c <= 'z') || ('A' <= c && c <= 'Z') || ('0' <= c && c <= '9') || c
            == '-' || c == '_' || c == ':' || c == '.';
        proof {
            if ok && good {
                let n = it.index() as int;
                assert forall|i: int| 0 <= i < n + 1 implies is_attr_name_char(
                    #[trigger] name@[i],
                ) by {
                    if i == n {
                        assert(name@[i] == c);
                    }
                }
            }
        }
        ok = ok && good;
        seen = true;
    }
    ok && seen
}

impl Element {
    /// A new element with no attributes, content or children.
    pub fn new(index: usize, parent: Option<usize>, tag: Tags) -> (r: Element)
        ensures
            r@ == (ElementView {
                index,
                parent,
                tag,
                attrs: seq![],
                raw_attrs: seq![],
                text: seq![],
                raw_html: seq![],
                childs: seq![],
            }),
    {
        let r = Element {
            index,
            parent,
            tag,
            attrs: Vec::new(),
            raw_attrs: Vec::new(),
            text: String::new(),
            raw_html: String::new(),
            childs: Vec::new(),
        };
        assert(pairs_view(r.attrs@) =~= seq![]);
        assert(strings_view(r.raw_attrs@) =~= seq![]);
        r
    }

    /// The position of the first attribute called `name`.
    fn find_attr(&self, name: &str) -> (r: Option<usize>)
        ensures
            match r {
                Some(i) => first_attr(self@.attrs, name@) == Some(i as int) && i < self@.attrs.len(),
                None => first_attr(self@.attrs, name@) is None,
            },
    {
        let n = self.attrs.len();
        for i in 0..n
            invariant
                n == self.attrs@.len(),
                first_attr_in(self@.attrs, name@, i as int) is None,
        {
            if str_eq(self.attrs[i].0.as_str(), name) {
                proof {
                    lemma_first_attr_stable(self@.attrs, name@, i + 1, n as int);
                    lemma_first_attr_in(self@.attrs, name@, n as int);
                }
                return Some(i);
            }
        }
        None
    }

    /// Appends the attribute `name` with the escaped `value`.
    pub fn attr(&mut self, name: &str, value: &str) -> (r: &mut Self)
        requires
            valid_attr_name(name@),
        ensures
            (*r)@ == old(self)@.add_attr(name@, escape(value@)),
            *final(self) == *final(r),
            old(self)@.attrs_safe() ==> (*r)@.attrs_safe(),
    {
        let mut escaped_val = String::new();
        escape_into_string(&mut escaped_val, value);
        proof {
            lemma_escape_has_no_markup(value@);
            if old(self)@.attrs_safe() {
                lemma_add_attr_safe(old(self)@, name@, escape(value@));
            }
        }
        let pair = (name.to_owned(), escaped_val);
        self.attrs.push(pair);
        proof {
            assert(pairs_view(self.attrs@) =~= pairs_view(old(self).attrs@).push(
                (name@, escape(value@)),
            ));
        }
        self
    }

    /// Sets the `id` attribute to the escaped `value`; a later call replaces
    /// the value that an earlier one set.
    pub fn id(&mut self, value: &str) -> (r: &mut Self)
        ensures
            (*r)@ == old(self)@.set_attr("id"@, escape(value@)),
            *final(self) == *final(r),
            old(self)@.attrs_safe() ==> (*r)@.attrs_safe(),
    {
        let mut escaped_val = String::new();
        escape_into_string(&mut escaped_val, value);
        proof {
            reveal_strlit("id");
            lemma_escape_has_no_markup(value@);
            if old(self)@.attrs_safe() {
                lemma_set_attr_safe(old(self)@, "id"@, escape(value@));
            }
        }
        match self.find_attr("id") {
            Some(i) => {
                self.attrs.set(i, ("id".to_owned(), escaped_val));
                proof {
                    assert(pairs_view(self.attrs@) =~= pairs_view(old(self).attrs@).update(
                        i as int,
                        ("id"@, escape(value@)),
                    ));
                }
            },
            None => {
                self.attrs.push(("id".to_owned(), escaped_val));
                proof {
                    assert(pairs_view(self.attrs@) =~= pairs_view(old(self).attrs@).push(
                        ("id"@, escape(value@)),
                    ));
                }
            },
        }
        self
    }

    /// Appends the attribute `name` with the escaped `value`.
    pub fn name(&mut self, value: &str) -> (r: &mut Self)
        ensures
            (*r)@ == old(self)@.add_attr("name"@, escape(value@)),
            *final(self) == *final(r),
            old(self)@.attrs_safe() ==> (*r)@.attrs_safe(),
    {
        proof {
            reveal_strlit("name");
        }
        self.attr("name", value)
    }

    /// Appends the attribute `value` with the escaped `value`.
    pub fn value(&mut self, value: &str) -> (r: &mut Self)
        ensures
            (*r)@ == old(self)@.add_attr("value"@, escape(value@)),
            *final(self) == *final(r),
            old(self)@.attrs_safe() ==> (*r)@.attrs_safe(),
    {
        proof {
            reveal_strlit("value");
        }
        self.attr("value", value)
    }

    /// Appends the attribute `href` with the escaped `value`.
    pub fn href(&mut self, value: &str) -> (r: &mut Self)
        ensures
            (*r)@ == old(self)@.add_attr("href"@, escape(value@)),
            *final(self) == *final(r),
            old(self)@.attrs_safe() ==> (*r)@.attrs_safe(),
    {
        proof {
            reveal_strlit("href");
        }
        self.attr("href", value)
    }

    /// Appends the attribute `src` with the escaped `value`.
    pub fn src(&mut self, value: &str) -> (r: &mut Self)
        ensures
            (*r)@ == old(self)@.add_attr("src"@, escape(value@)),
            *final(self) == *final(r),
            old(self)@.attrs_safe() ==> (*r)@.attrs_safe(),
    {
        proof {
            reveal_strlit("src");
        }
        self.attr("src", value)
    }

    /// Appends the attribute `type` with the escaped `value`.
    pub fn type_(&mut self, value: &str) -> (r: &mut Self)
        ensures
            (*r)@ == old(self)@.add_attr("type"@, escape(value@)),
            *final(self) == *final(r),
            old(self)@.attrs_safe() ==> (*r)@.attrs_safe(),
    {
        proof {
            reveal_strlit("type");
        }
        self.attr("type", value)
    }

    /// Appends the attribute `for` with the escaped `value`.
    pub fn for_(&mut self, value: &str) -> (r: &mut Self)
        ensures
            (*r)@ == old(self)@.add_attr("for"@, escape(value@)),
            *final(self) == *final(r),
            old(self)@.attrs_safe() ==> (*r)@.attrs_safe(),
    {
        proof {
            reveal_strlit("for");
        }
        self.attr("for", value)
    }

    /// Appends the attribute `data-<key>` with the escaped `value`.
    pub fn data(&mut self, key: &str, value: &str) -> (r: &mut Self)
        requires
            valid_attr_name(key@),
        ensures
            (*r)@ == old(self)@.add_attr("data-"@ + key@, escape(value@)),
            *final(self) == *final(r),
            old(self)@.attrs_safe() ==> (*r)@.attrs_safe(),
    {
        let mut full = "data-".to_owned();
        push_str(&mut full, key);
        proof {
            reveal_strlit("data-");
            assert forall|i: int| 0 <= i < full@.len() implies is_attr_name_char(
                #[trigger] full@[i],
            ) by {
                if i >= 5 {
                    assert(full@[i] == key@[i - 5]);
                }
            }
        }
        self.attr(full.as_str(), value)
    }

    /// Adds `value`, escaped, to the class list; repeated calls join the
    /// classes with spaces.
    pub fn class(&mut self, value: &str) -> (r: &mut Self)
        ensures
            (*r)@ == old(self)@.merge_class(escape(value@)),
            *final(self) == *final(r),
            old(self)@.attrs_safe() ==> (*r)@.attrs_safe(),
    {
        proof {
            lemma_escape_has_no_markup(value@);
            if old(self)@.attrs_safe() {
                lemma_merge_class_safe(old(self)@, escape(value@));
            }
        }
        match self.find_attr("class") {
            Some(i) => {
                let mut merged = self.attrs[i].1.clone();
                push_str(&mut merged, " ");
                escape_into_string(&mut merged, value);
                let key = self.attrs[i].0.clone();
                self.attrs.set(i, (key, merged));
                proof {
                    assert(pairs_view(self.attrs@) =~= pairs_view(old(self).attrs@).update(
                        i as int,
                        (
                            old(self)@.attrs[i as int].0,
                            old(self)@.attrs[i as int].1 + " "@ + escape(value@),
                        ),
                    ));
                }
            },
            None => {
                let mut escaped_val = String::new();
                escape_into_string(&mut escaped_val, value);
                self.attrs.push(("class".to_owned(), escaped_val));
                proof {
                    assert(pairs_view(self.attrs@) =~= pairs_view(old(self).attrs@).push(
                        ("class"@, escape(value@)),
                    ));
                }
            },
        }
        self
    }

    /// Appends `text` to the element's text content; it is escaped when
    /// rendered.
    pub fn text(&mut self, text: &str) -> (r: &mut Self)
        ensures
            (*r)@ == (ElementView { text: old(self)@.text + text@, ..old(self)@ }),
            *final(self) == *final(r),
            old(self)@.attrs_safe() ==> (*r)@.attrs_safe(),
    {
        push_str(&mut self.text, text);
        self
    }

    /// Appends a `{}` placeholder to the text, for use with templates.
    pub fn tpl(&mut self) -> (r: &mut Self)
        ensures
            (*r)@ == (ElementView { text: old(self)@.text + "{}"@, ..old(self)@ }),
            *final(self) == *final(r),
            old(self)@.attrs_safe() ==> (*r)@.attrs_safe(),
    {
        self.text("{}")
    }

    /// Adds a raw, unescaped attribute string to the element.
    ///
    /// This bypasses escaping: the string is written into the HTML as it is.
    pub fn raw_attr(&mut self, attr_str: &str) -> (r: &mut Self)
        ensures
            (*r)@ == (ElementView {
                raw_attrs: old(self)@.raw_attrs.push(attr_str@),
                ..old(self)@
            }),
            *final(self) == *final(r),
            old(self)@.attrs_safe() ==> (*r)@.attrs_safe(),
    {
        self.raw_attrs.push(attr_str.to_owned());
        proof {
            assert(strings_view(self.raw_attrs@) =~= strings_view(old(self).raw_attrs@).push(
                attr_str@,
            ));
        }
        self
    }

    /// Adds raw, unescaped HTML content inside the element.
    ///
    /// This bypasses escaping: use it only with trusted markup.
    pub fn raw_html(&mut self, html: &str) -> (r: &mut Self)
        ensures
            (*r)@ == (ElementView { raw_html: old(self)@.raw_html + html@, ..old(self)@ }),
            *final(self) == *final(r),
            old(self)@.attrs_safe() ==> (*r)@.attrs_safe(),
    {
        push_str(&mut self.raw_html, html);
        self
    }
}


/// The DOM arena. Elements are addressed by their position; an element's
/// children come after it, but for an element listed as its own child.
#[derive(Debug)]
pub struct Dom {
    pub(crate) vec: Vec<Element>,
}

impl View for Dom {
    type V = Seq<ElementView>;

    closed spec fn view(&self) -> Seq<ElementView> {
        self.vec@.map_values(|e: Element| e@)
    }
}

/// Well-formedness of a DOM: each element knows its own position and every
/// attribute is safe to render; each child is its parent or comes after
/// it, is in the arena and names that parent as its own, and no child is
/// listed twice. So an element is the child of at most one element, its own
/// parent. An element listed as its own child is left out when rendering.
pub open spec fn dom_wf(d: Seq<ElementView>) -> bool {
    forall|i: int|
        #![trigger d[i]]
        0 <= i < d.len() ==> {
            &&& d[i].index == i
            &&& d[i].attrs_safe()
            &&& forall|j: int|
                0 <= j < d[i].childs.len() ==> i <= #[trigger] d[i].childs[j] < d.len() && d[d[i].childs[j] as int].parent
                    == Some(i as usize)
            &&& forall|j1: int, j2: int|
                0 <= j1 < j2 < d[i].childs.len() ==> #[trigger] d[i].childs[j1] != #[trigger] d[i].childs[j2]
        }
}

/// In a well-formed DOM, an element is listed as a child by at most one
/// element, and at most once there.
pub proof fn lemma_child_listed_once(d: Seq<ElementView>, i1: int, j1: int, i2: int, j2: int)
    requires
        dom_wf(d),
        0 <= i1 < d.len(),
        0 <= i2 < d.len(),
        0 <= j1 < d[i1].childs.len(),
        0 <= j2 < d[i2].childs.len(),
        d[i1].childs[j1] == d[i2].childs[j2],
    ensures
        i1 == i2 && j1 == j2,
{
    let c = d[i1].childs[j1] as int;
    assert(d[c].parent == Some(i1 as usize));
    assert(d[i2].childs[j2] == c);
    assert(d[c].parent == Some(i2 as usize));
    if j1 < j2 {
        assert(d[i1].childs[j1] != d[i1].childs[j2]);
    } else if j2 < j1 {
        assert(d[i1].childs[j2] != d[i1].childs[j1]);
    }
}

/// An element with its content emptied: its position, parent, tag and
/// children stay.
pub open spec fn shell(e: ElementView) -> ElementView {
    ElementView { attrs: seq![], raw_attrs: seq![], text: seq![], raw_html: seq![], ..e }
}

impl Dom {
    /// Whether the arena is well formed.
    pub open spec fn wf(&self) -> bool {
        dom_wf(self@)
    }

    /// An empty arena.
    pub fn new() -> (r: Dom)
        ensures
            r@ == Seq::<ElementView>::empty(),
            r.wf(),
    {
        let r = Dom { vec: Vec::new() };
        assert(r@ =~= Seq::<ElementView>::empty());
        r
    }

    /// The number of elements.
    pub fn len(&self) -> (r: usize)
        ensures
            r == self@.len(),
    {
        self.vec.len()
    }

    /// The element at `index`, if there is one.
    pub fn get(&self, index: usize) -> (r: Option<&Element>)
        ensures
            match r {
                Some(e) => index < self@.len() && e@ == self@[index as int],
                None => index >= self@.len(),
            },
    {
        if index < self.vec.len() {
            Some(&self.vec[index])
        } else {
            None
        }
    }

    /// Adds `el` at the end of the arena and returns its position. No
    /// element lists the new position as a child yet.
    pub(crate) fn push(&mut self, el: Element) -> (r: usize)
        requires
            old(self).wf(),
            el@.index == old(self)@.len(),
            el@.childs.len() == 0,
            el@.attrs_safe(),
        ensures
            r == old(self)@.len(),
            final(self)@ == old(self)@.push(el@),
            final(self).wf(),
            forall|i: int, j: int|
                0 <= i < final(self)@.len() && 0 <= j < final(self)@[i].childs.len()
                    ==> #[trigger] final(self)@[i].childs[j] != r,
    {
        let index = self.vec.len();
        self.vec.push(el);
        let ghost d = old(self)@;
        assert(self@ =~= d.push(el@));
        assert forall|i: int| 0 <= i < d.len() implies #[trigger] self@[i] == d[i] by {}
        assert forall|i: int, j: int|
            0 <= i < self@.len() && 0 <= j < self@[i].childs.len() implies #[trigger] self@[i].childs[j]
            != index by {
            if i < d.len() {
                assert(d[i].childs[j] < d.len());
            }
        }
        index
    }

    /// Registers `child` as the last child of `parent`, whose child it
    /// names itself and which no element lists yet.
    pub(crate) fn add_child(&mut self, parent: usize, child: usize)
        requires
            old(self).wf(),
            parent <= child < old(self)@.len(),
            old(self)@[child as int].parent == Some(parent),
            forall|i: int, j: int|
                0 <= i < old(self)@.len() && 0 <= j < old(self)@[i].childs.len()
                    ==> #[trigger] old(self)@[i].childs[j] != child,
        ensures
            final(self)@ == old(self)@.update(
                parent as int,
                ElementView { childs: old(self)@[parent as int].childs.push(child), ..old(self)@[parent as int] },
            ),
            final(self).wf(),
    {
        let ghost d = old(self)@;
        self.vec[parent].childs.push(child);
        assert(self@ =~= d.update(
            parent as int,
            ElementView { childs: d[parent as int].childs.push(child), ..d[parent as int] },
        ));
        assert forall|i: int| 0 <= i < self@.len() implies #[trigger] self@[i].parent == d[i].parent by {}
        assert forall|i: int| 0 <= i < self@.len() implies {
            &&& #[trigger] self@[i].index == i
            &&& self@[i].attrs_safe()
            &&& forall|j: int|
                0 <= j < self@[i].childs.len() ==> i <= #[trigger] self@[i].childs[j] < self@.len() && self@[self@[i].childs[j] as int].parent
                    == Some(i as usize)
            &&& forall|j1: int, j2: int|
                0 <= j1 < j2 < self@[i].childs.len() ==> #[trigger] self@[i].childs[j1] != #[trigger] self@[i].childs[j2]
        } by {
            if i == parent {
                let n = d[i].childs.len() as int;
                assert forall|j: int| 0 <= j < self@[i].childs.len() implies i <= #[trigger] self@[i].childs[j]
                    < self@.len() && self@[self@[i].childs[j] as int].parent == Some(i as usize) by {
                    if j < n {
                        assert(self@[i].childs[j] == d[i].childs[j]);
                        assert(d[i].childs[j] == d[i].childs[j]);
                    }
                }
                assert forall|j1: int, j2: int| 0 <= j1 < j2 < self@[i].childs.len() implies #[trigger] self@[i].childs[j1]
                    != #[trigger] self@[i].childs[j2] by {
                    assert(self@[i].childs[j1] == d[i].childs[j1]);
                    if j2 < n {
                        assert(self@[i].childs[j2] == d[i].childs[j2]);
                    }
                }
            } else {
                assert(self@[i] == d[i]);
                assert forall|j: int| 0 <= j < self@[i].childs.len() implies i <= #[trigger] self@[i].childs[j]
                    < self@.len() && self@[self@[i].childs[j] as int].parent == Some(i as usize) by {
                    assert(d[i].childs[j] == d[i].childs[j]);
                }
            }
        }
    }

    /// Takes the element at `index` out of the arena, leaving its shell in
    /// its place.
    pub(crate) fn take_element(&mut self, index: usize) -> (r: Element)
        requires
            old(self).wf(),
            index < old(self)@.len(),
        ensures
            r@ == old(self)@[index as int],
            final(self)@ == old(self)@.update(index as int, shell(old(self)@[index as int])),
            final(self).wf(),
    {
        let ghost d = old(self)@;
        let childs = copy_indices(&self.vec[index].childs);
        let mut el = Element {
            index,
            parent: self.vec[index].parent,
            tag: self.vec[index].tag,
            attrs: Vec::new(),
            raw_attrs: Vec::new(),
            text: String::new(),
            raw_html: String::new(),
            childs,
        };
        assert(pairs_view(el.attrs@) =~= seq![]);
        assert(strings_view(el.raw_attrs@) =~= seq![]);
        assert(el@ == shell(d[index as int]));
        std::mem::swap(&mut el, &mut self.vec[index]);
        assert(self@ =~= d.update(index as int, shell(d[index as int])));
        proof {
            lemma_same_shape_wf(d, self@);
        }
        el
    }

    /// Puts `el` back at `index`, in place of an element with the same
    /// position, parent and children.
    pub(crate) fn put_element(&mut self, index: usize, el: Element)
        requires
            old(self).wf(),
            index < old(self)@.len(),
            el@.index == index,
            el@.parent == old(self)@[index as int].parent,
            el@.childs == old(self)@[index as int].childs,
            el@.attrs_safe(),
        ensures
            final(self)@ == old(self)@.update(index as int, el@),
            final(self).wf(),
    {
        let ghost d = old(self)@;
        self.vec.set(index, el);
        assert(self@ =~= d.update(index as int, el@));
        proof {
            lemma_same_shape_wf(d, self@);
        }
    }
}

impl Default for Dom {
    /// An empty arena, as `Dom::new` makes.
    fn default() -> (r: Self)
        ensures
            r@ == Seq::<ElementView>::empty(),
            r.wf(),
    {
        Dom::new()
    }
}

impl Default for Element {
    /// An empty `div` at position 0 with no parent.
    fn default() -> (r: Self)
        ensures
            r@ == (ElementView {
                index: 0,
                parent: None,
                tag: Tags::Div,
                attrs: seq![],
                raw_attrs: seq![],
                text: seq![],
                raw_html: seq![],
                childs: seq![],
            }),
    {
        Element::new(0, None, Tags::default())
    }
}

/// A copy of a list of positions.
fn copy_indices(v: &Vec<usize>) -> (r: Vec<usize>)
    ensures
        r@ == v@,
{
    let mut r: Vec<usize> = Vec::new();
    for k in 0..v.len()
        invariant
            r@ == v@.subrange(0, k as int),
    {
        r.push(v[k]);
    }
    assert(r@ =~= v@);
    r
}

/// Changing what elements hold, but not their positions, parents or
/// children, keeps a DOM well formed as long as the attributes stay safe.
proof fn lemma_same_shape_wf(d: Seq<ElementView>, d2: Seq<ElementView>)
    requires
        dom_wf(d),
        d2.len() == d.len(),
        forall|i: int|
            0 <= i < d.len() ==> {
                &&& (#[trigger] d2[i]).index == d[i].index
                &&& d2[i].parent == d[i].parent
                &&& d2[i].childs == d[i].childs
                &&& d2[i].attrs_safe()
            },
    ensures
        dom_wf(d2),
{
    assert forall|i: int| 0 <= i < d2.len() implies {
        &&& #[trigger] d2[i].index == i
        &&& d2[i].attrs_safe()
        &&& forall|j: int|
            0 <= j < d2[i].childs.len() ==> i <= #[trigger] d2[i].childs[j] < d2.len() && d2[d2[i].childs[j] as int].parent
                == Some(i as usize)
        &&& forall|j1: int, j2: int|
            0 <= j1 < j2 < d2[i].childs.len() ==> #[trigger] d2[i].childs[j1] != #[trigger] d2[i].childs[j2]
    } by {
        assert(d[i].index == i);
        assert forall|j: int| 0 <= j < d2[i].childs.len() implies i <= #[trigger] d2[i].childs[j] < d2.len()
            && d2[d2[i].childs[j] as int].parent == Some(i as usize) by {
            assert(d[i].childs[j] == d2[i].childs[j]);
            let c = d[i].childs[j] as int;
            assert(d2[c].parent == d[c].parent);
        }
        assert forall|j1: int, j2: int| 0 <= j1 < j2 < d2[i].childs.len() implies #[trigger] d2[i].childs[j1]
            != #[trigger] d2[i].childs[j2] by {
            assert(d[i].childs[j1] != d[i].childs[j2]);
        }
    }
}


/// Each step of a growing text keeps what came before: then the text at
/// `k` begins the text at `m`.
proof fn lemma_growing(f: spec_fn(int) -> Seq<char>, k: int, m: int)
    requires
        k <= m,
        forall|j: int| k <= j < m ==> (#[trigger] f(j)).is_prefix_of(f(j + 1)),
    ensures
        f(k).is_prefix_of(f(m)),
    decreases m - k,
{
    if k == m {
        assert(f(k) =~= f(k).subrange(0, f(k).len() as int));
    } else {
        lemma_growing(f, k, m - 1);
        lemma_prefix_trans(f(k), f(m - 1), f(m));
    }
}

/// Putting the same text in front keeps a beginning a beginning.
proof fn lemma_prefix_front(c: Seq<char>, a: Seq<char>, b: Seq<char>)
    requires
        a.is_prefix_of(b),
    ensures
        (c + a).is_prefix_of(c + b),
{
    assert forall|i: int| 0 <= i < (c + a).len() implies (c + a)[i] == (c + b)[i] by {
        if i >= c.len() {
            assert(a[i - c.len()] == b.subrange(0, a.len() as int)[i - c.len()]);
        }
    }
    assert(c + a =~= (c + b).subrange(0, (c + a).len() as int));
}

/// Fewer levels of indentation begin more.
proof fn lemma_indent_prefix(k: nat, m: nat)
    requires
        k <= m,
    ensures
        indent(k).is_prefix_of(indent(m)),
{
    let f = |j: int| indent(j as nat);
    assert forall|j: int| k <= j < m implies (#[trigger] f(j)).is_prefix_of(f(j + 1)) by {
        lemma_prefix_append(indent(j as nat), "  "@);
    }
    lemma_growing(f, k as int, m as int);
}

/// The first `k` attributes begin the start tag, and so do all of them
/// followed by the first `k` raw attributes.
proof fn lemma_start_tag_prefix(e: ElementView, k: int)
    ensures
        0 <= k <= e.attrs.len() ==> (e.tag.opening_text() + attrs_text(e.attrs.take(k))).is_prefix_of(
            start_tag(e),
        ),
        0 <= k <= e.raw_attrs.len() ==> (e.tag.opening_text() + attrs_text(e.attrs) + raw_attrs_text(
            e.raw_attrs.take(k),
        )).is_prefix_of(start_tag(e)),
{
    let o = e.tag.opening_text();
    let all = o + attrs_text(e.attrs) + raw_attrs_text(e.raw_attrs);
    lemma_prefix_append(all, ">"@);
    if 0 <= k <= e.attrs.len() {
        let f = |j: int| attrs_text(e.attrs.take(j));
        assert forall|j: int| k <= j < e.attrs.len() implies (#[trigger] f(j)).is_prefix_of(f(j + 1)) by {
            assert(e.attrs.take(j + 1).drop_last() =~= e.attrs.take(j));
            let a = e.attrs.take(j + 1).last();
            lemma_prefix_append(f(j), " "@ + a.0 + "=\""@ + a.1 + "\""@);
            assert(f(j + 1) =~= f(j) + (" "@ + a.0 + "=\""@ + a.1 + "\""@));
        }
        lemma_growing(f, k, e.attrs.len() as int);
        assert(e.attrs.take(e.attrs.len() as int) =~= e.attrs);
        lemma_prefix_front(o, f(k), attrs_text(e.attrs));
        lemma_prefix_append(o + attrs_text(e.attrs), raw_attrs_text(e.raw_attrs));
        lemma_prefix_trans(o + f(k), o + attrs_text(e.attrs), all);
        lemma_prefix_trans(o + f(k), all, start_tag(e));
    }
    if 0 <= k <= e.raw_attrs.len() {
        let g = |j: int| raw_attrs_text(e.raw_attrs.take(j));
        assert forall|j: int| k <= j < e.raw_attrs.len() implies (#[trigger] g(j)).is_prefix_of(g(j + 1)) by {
            assert(e.raw_attrs.take(j + 1).drop_last() =~= e.raw_attrs.take(j));
            lemma_prefix_append(g(j), " "@ + e.raw_attrs.take(j + 1).last());
            assert(g(j + 1) =~= g(j) + (" "@ + e.raw_attrs.take(j + 1).last()));
        }
        lemma_growing(g, k, e.raw_attrs.len() as int);
        assert(e.raw_attrs.take(e.raw_attrs.len() as int) =~= e.raw_attrs);
        lemma_prefix_front(o + attrs_text(e.attrs), g(k), raw_attrs_text(e.raw_attrs));
        lemma_prefix_trans(o + attrs_text(e.attrs) + g(k), all, start_tag(e));
    }
}

/// The lines of text before line `k` begin the whole text block.
proof fn lemma_text_block_prefix(lines: Seq<Seq<char>>, k: int, depth: nat)
    requires
        0 <= k <= lines.len(),
    ensures
        text_block(lines.take(k), depth).is_prefix_of(text_block(lines, depth)),
{
    let f = |j: int| text_block(lines.take(j), depth);
    assert forall|j: int| k <= j < lines.len() implies (#[trigger] f(j)).is_prefix_of(f(j + 1)) by {
        assert(lines.take(j + 1).drop_last() =~= lines.take(j));
        let l = lines.take(j + 1).last();
        lemma_prefix_append(f(j), indent(depth) + escape(l) + "\n"@);
        assert(f(j + 1) =~= f(j) + (indent(depth) + escape(l) + "\n"@));
    }
    lemma_growing(f, k, lines.len() as int);
    assert(lines.take(lines.len() as int) =~= lines);
}

/// The compact renderings of the first `k` children begin those of the
/// first `m`.
proof fn lemma_compact_children_prefix(d: Seq<ElementView>, i: int, k: int, m: int)
    requires
        0 <= i < d.len(),
        0 <= k <= m <= d[i].childs.len(),
    ensures
        compact_children(d, i, k).is_prefix_of(compact_children(d, i, m)),
{
    let f = |j: int| compact_children(d, i, j);
    assert forall|j: int| k <= j < m implies (#[trigger] f(j)).is_prefix_of(f(j + 1)) by {
        let c = d[i].childs[j] as int;
        let part = if i < c < d.len() {
            compact(d, c)
        } else {
            seq![]
        };
        lemma_prefix_append(f(j), part);
    }
    lemma_growing(f, k, m);
}

/// The pretty renderings of the first `k` children begin those of the
/// first `m`.
proof fn lemma_pretty_children_prefix(d: Seq<ElementView>, i: int, k: int, m: int, depth: nat)
    requires
        0 <= i < d.len(),
        0 <= k <= m <= d[i].childs.len(),
    ensures
        pretty_children(d, i, k, depth).is_prefix_of(pretty_children(d, i, m, depth)),
{
    let f = |j: int| pretty_children(d, i, j, depth);
    assert forall|j: int| k <= j < m implies (#[trigger] f(j)).is_prefix_of(f(j + 1)) by {
        let c = d[i].childs[j] as int;
        let part = if i < c < d.len() {
            pretty(d, c, depth)
        } else {
            seq![]
        };
        lemma_prefix_append(f(j), part);
    }
    lemma_growing(f, k, m);
}

/// The doctype line, the indentation and the start tag begin the pretty
/// rendering of an element that is not a fragment.
proof fn lemma_pretty_head(d: Seq<ElementView>, i: int, depth: nat)
    requires
        0 <= i < d.len(),
        d[i].tag != Tags::Any,
    ensures
        (crate::render::pretty_doctype(d[i].tag) + indent(depth) + start_tag(d[i])).is_prefix_of(
            pretty(d, i, depth),
        ),
{
    let e = d[i];
    let head = crate::render::pretty_doctype(e.tag) + indent(depth) + start_tag(e);
    let x = pretty(d, i, depth);
    let rest = if e.tag.is_void_tag() {
        "\n"@
    } else if e.tag == Tags::Textarea {
        escape(e.text) + closing_or_empty(e.tag) + "\n"@
    } else if e.tag == Tags::Pre {
        escape(e.text) + e.raw_html + compact_children(d, i, e.childs.len() as int)
            + closing_or_empty(e.tag) + "\n"@
    } else {
        "\n"@ + text_block(lines_of(e.text), depth + 1) + crate::render::raw_block(e.raw_html, depth)
            + pretty_children(d, i, e.childs.len() as int, depth + 1) + crate::render::closing_line(
            e.tag,
            depth,
        )
    };
    assert(x =~= head + rest);
    lemma_prefix_append(head, rest);
}

/// Writes `depth` levels of indentation.
fn write_indent<W: fmt::Write>(out: &mut Sink<W>, depth: usize) -> (r: Result<(), fmt::Error>)
    requires
        old(out).wf(),
        !old(out).failed(),
    ensures
        wrote(*old(out), *final(out), r, indent(depth as nat)),
{
    let ghost before = *out;
    for k in 0..depth
        invariant
            before == *old(out),
            !before.failed(),
            wrote(before, *out, Ok(()), indent(k as nat)),
    {
        let ghost mid = *out;
        let r = put(out, "  ");
        if r.is_err() {
            proof {
                lemma_indent_prefix((k + 1) as nat, depth as nat);
                lemma_stop_within(
                    before,
                    mid,
                    *out,
                    r,
                    indent(k as nat),
                    "  "@,
                    seq![],
                    indent((k + 1) as nat),
                    indent(depth as nat),
                );
            }
            return r;
        }
        assert(out.sent() =~= before.sent() + indent((k + 1) as nat));
    }
    Ok(())
}

impl Element {
    /// Writes the start tag, attributes included.
    fn write_start_tag<W: fmt::Write>(&self, out: &mut Sink<W>) -> (r: Result<(), fmt::Error>)
        requires
            old(out).wf(),
            !old(out).failed(),
        ensures
            wrote(*old(out), *final(out), r, start_tag(self@)),
    {
        let ghost before = *out;
        let ghost o = self@.tag.opening_text();
        let r = put(out, self.tag.opening_tag());
        if r.is_err() {
            proof {
                lemma_stop_before(
                    before,
                    before,
                    *out,
                    r,
                    seq![],
                    o,
                    attrs_text(self@.attrs) + raw_attrs_text(self@.raw_attrs) + ">"@,
                    start_tag(self@),
                );
            }
            return r;
        }
        let n = self.attrs.len();
        for k in 0..n
            invariant
                n == self@.attrs.len(),
                o == self@.tag.opening_text(),
                before == *old(out),
                !before.failed(),
                wrote(before, *out, Ok(()), o + attrs_text(self@.attrs.take(k as int))),
        {
            assert(self@.attrs.take(k + 1).drop_last() =~= self@.attrs.take(k as int));
            let mut piece = String::new();
            push_str(&mut piece, " ");
            push_str(&mut piece, self.attrs[k].0.as_str());
            push_str(&mut piece, "=\"");
            push_str(&mut piece, self.attrs[k].1.as_str());
            push_str(&mut piece, "\"");
            let ghost done = o + attrs_text(self@.attrs.take(k as int));
            assert(done + piece@ =~= o + attrs_text(self@.attrs.take(k + 1)));
            let ghost mid = *out;
            let r = put(out, piece.as_str());
            if r.is_err() {
                proof {
                    lemma_start_tag_prefix(self@, k + 1);
                    lemma_stop_within(
                        before,
                        mid,
                        *out,
                        r,
                        done,
                        piece@,
                        seq![],
                        o + attrs_text(self@.attrs.take(k + 1)),
                        start_tag(self@),
                    );
                }
                return r;
            }
            assert(out.sent() =~= before.sent() + (o + attrs_text(self@.attrs.take(k + 1))));
        }
        assert(self@.attrs.take(n as int) =~= self@.attrs);
        let m = self.raw_attrs.len();
        for k in 0..m
            invariant
                m == self@.raw_attrs.len(),
                o == self@.tag.opening_text(),
                before == *old(out),
                !before.failed(),
                wrote(
                    before,
                    *out,
                    Ok(()),
                    o + attrs_text(self@.attrs) + raw_attrs_text(self@.raw_attrs.take(k as int)),
                ),
        {
            assert(self@.raw_attrs.take(k + 1).drop_last() =~= self@.raw_attrs.take(k as int));
            let mut piece = String::new();
            push_str(&mut piece, " ");
            push_str(&mut piece, self.raw_attrs[k].as_str());
            let ghost done = o + attrs_text(self@.attrs) + raw_attrs_text(self@.raw_attrs.take(k as int));
            assert(done + piece@ =~= o + attrs_text(self@.attrs) + raw_attrs_text(
                self@.raw_attrs.take(k + 1),
            ));
            let ghost mid = *out;
            let r = put(out, piece.as_str());
            if r.is_err() {
                proof {
                    lemma_start_tag_prefix(self@, k + 1);
                    lemma_stop_within(
                        before,
                        mid,
                        *out,
                        r,
                        done,
                        piece@,
                        seq![],
                        o + attrs_text(self@.attrs) + raw_attrs_text(self@.raw_attrs.take(k + 1)),
                        start_tag(self@),
                    );
                }
                return r;
            }
            assert(out.sent() =~= before.sent() + (o + attrs_text(self@.attrs) + raw_attrs_text(
                self@.raw_attrs.take(k + 1),
            )));
        }
        assert(self@.raw_attrs.take(m as int) =~= self@.raw_attrs);
        let ghost done = o + attrs_text(self@.attrs) + raw_attrs_text(self@.raw_attrs);
        let ghost mid = *out;
        let r = put(out, ">");
        if r.is_err() {
            proof {
                lemma_stop_before(before, mid, *out, r, done, ">"@, seq![], start_tag(self@));
            }
            return r;
        }
        assert(out.sent() =~= before.sent() + start_tag(self@));
        Ok(())
    }

    /// Writes the closing tag, where the tag has one.
    fn write_closing<W: fmt::Write>(&self, out: &mut Sink<W>) -> (r: Result<(), fmt::Error>)
        requires
            old(out).wf(),
            !old(out).failed(),
        ensures
            wrote(*old(out), *final(out), r, closing_or_empty(self@.tag)),
    {
        match self.tag.closing_tag() {
            Some(closing) => put(out, closing),
            None => {
                assert(old(out).sent() + closing_or_empty(self@.tag) =~= old(out).sent());
                Ok(())
            },
        }
    }

    /// Writes the compact rendering of this element and its subtree,
    /// stopping at the first piece the sink refuses.
    #[verifier::spinoff_prover]
    #[verifier::rlimit(40)]
    pub(crate) fn render_compact<W: fmt::Write>(&self, dom: &Dom, out: &mut Sink<W>) -> (r: Result<
        (),
        fmt::Error,
    >)
        requires
            old(out).wf(),
            !old(out).failed(),
            dom.wf(),
            self@.index < dom@.len(),
            dom@[self@.index as int] == self@,
        ensures
            wrote(*old(out), *final(out), r, compact(dom@, self@.index as int)),
        decreases dom@.len() - self@.index, 1nat,
    {
        let ghost before = *out;
        if self.tag == Tags::Any {
            return self.render_children_compact(dom, out);
        }
        let ghost e = self@;
        let ghost i = e.index as int;
        let ghost doctype = crate::render::compact_doctype(e.tag);
        let ghost cc = compact_children(dom@, i, e.childs.len() as int);
        let ghost closing = closing_or_empty(e.tag);
        let ghost tail = if e.tag.is_void_tag() {
            seq![]
        } else if e.tag == Tags::Textarea {
            escape(e.text) + closing
        } else {
            escape(e.text) + e.raw_html + cc + closing
        };
        let ghost x = compact(dom@, i);
        assert(x =~= doctype + start_tag(e) + tail);
        if self.tag == Tags::Html {
            let r = put(out, "<!DOCTYPE html>");
            if r.is_err() {
                proof {
                    lemma_stop_before(before, before, *out, r, seq![], doctype, start_tag(e) + tail, x);
                }
                return r;
            }
        }
        let ghost mid = *out;
        assert(mid.sent() =~= before.sent() + doctype);
        let r = self.write_start_tag(out);
        if r.is_err() {
            proof {
                lemma_stop_before(before, mid, *out, r, doctype, start_tag(e), tail, x);
            }
            return r;
        }
        let ghost head = doctype + start_tag(e);
        if self.tag.is_void() {
            assert(out.sent() =~= before.sent() + x);
            return Ok(());
        }
        let ghost mid = *out;
        assert(mid.sent() =~= before.sent() + head);
        let r = put_escaped(out, self.text.as_str());
        if r.is_err() {
            proof {
                lemma_stop_before(before, mid, *out, r, head, escape(e.text), tail.skip(escape(e.text).len() as int), x);
            }
            return r;
        }
        let ghost done = head + escape(e.text);
        if self.tag == Tags::Textarea {
            let ghost mid = *out;
            assert(mid.sent() =~= before.sent() + done);
            let r = self.write_closing(out);
            if r.is_err() {
                proof {
                    lemma_stop_before(before, mid, *out, r, done, closing, seq![], x);
                }
                return r;
            }
            assert(out.sent() =~= before.sent() + x);
            return Ok(());
        }
        let ghost mid = *out;
        assert(mid.sent() =~= before.sent() + done);
        let r = if self.raw_html.as_str().is_empty() {
            assert(out.sent() =~= out.sent() + self@.raw_html);
            Ok(())
        } else {
            put(out, self.raw_html.as_str())
        };
        if r.is_err() {
            proof {
                lemma_stop_before(before, mid, *out, r, done, e.raw_html, cc + closing, x);
            }
            return r;
        }
        let ghost done = done + e.raw_html;
        let ghost mid = *out;
        assert(mid.sent() =~= before.sent() + done);
        let r = self.render_children_compact(dom, out);
        if r.is_err() {
            proof {
                lemma_stop_before(before, mid, *out, r, done, cc, closing, x);
            }
            return r;
        }
        let ghost done = done + cc;
        let ghost mid = *out;
        assert(mid.sent() =~= before.sent() + done);
        let r = self.write_closing(out);
        if r.is_err() {
            proof {
                lemma_stop_before(before, mid, *out, r, done, closing, seq![], x);
            }
            return r;
        }
        assert(out.sent() =~= before.sent() + x);
        Ok(())
    }

    /// Writes the compact renderings of the children, in order.
    fn render_children_compact<W: fmt::Write>(&self, dom: &Dom, out: &mut Sink<W>) -> (r: Result<
        (),
        fmt::Error,
    >)
        requires
            old(out).wf(),
            !old(out).failed(),
            dom.wf(),
            self@.index < dom@.len(),
            dom@[self@.index as int] == self@,
        ensures
            wrote(
                *old(out),
                *final(out),
                r,
                compact_children(dom@, self@.index as int, self@.childs.len() as int),
            ),
        decreases dom@.len() - self@.index, 0nat,
    {
        let ghost before = *out;
        let ghost i = self@.index as int;
        let n = self.childs.len();
        for k in 0..n
            invariant
                n == self@.childs.len(),
                dom.wf(),
                0 <= i < dom@.len(),
                i == self@.index,
                dom@[i] == self@,
                before == *old(out),
                !before.failed(),
                wrote(before, *out, Ok(()), compact_children(dom@, i, k as int)),
        {
            let c = self.childs[k];
            assert(dom@[i].childs[k as int] == c);
            if c != self.index {
                let child = &dom.vec[c];
                assert(child@ == dom@[c as int]);
                let ghost mid = *out;
                let r = child.render_compact(dom, out);
                if r.is_err() {
                    proof {
                        lemma_compact_children_prefix(dom@, i, k + 1, n as int);
                        lemma_stop_within(
                            before,
                            mid,
                            *out,
                            r,
                            compact_children(dom@, i, k as int),
                            compact(dom@, c as int),
                            seq![],
                            compact_children(dom@, i, k + 1),
                            compact_children(dom@, i, n as int),
                        );
                    }
                    return r;
                }
            }
            assert(out.sent() =~= before.sent() + compact_children(dom@, i, k + 1));
        }
        Ok(())
    }

    /// Writes the text content, one indented and escaped line at a time.
    fn write_text_lines<W: fmt::Write>(&self, depth: usize, out: &mut Sink<W>) -> (r: Result<
        (),
        fmt::Error,
    >)
        requires
            old(out).wf(),
            !old(out).failed(),
        ensures
            wrote(*old(out), *final(out), r, text_block(lines_of(self@.text), depth as nat)),
    {
        let ghost before = *out;
        let lines = split_lines(self.text.as_str());
        let n = lines.len();
        for k in 0..n
            invariant
                n == lines@.len(),
                strings_view(lines@) == lines_of(self@.text),
                before == *old(out),
                !before.failed(),
                wrote(
                    before,
                    *out,
                    Ok(()),
                    text_block(strings_view(lines@).take(k as int), depth as nat),
                ),
        {
            assert(strings_view(lines@).take(k + 1).drop_last() =~= strings_view(lines@).take(
                k as int,
            ));
            let ghost ls = strings_view(lines@);
            let ghost done = text_block(ls.take(k as int), depth as nat);
            let ghost next = text_block(ls.take(k + 1), depth as nat);
            let ghost whole = text_block(ls, depth as nat);
            let ghost line = ls[k as int];
            proof {
                lemma_text_block_prefix(ls, k + 1, depth as nat);
                assert(ls.take(k + 1).last() == line);
                assert(next =~= done + indent(depth as nat) + escape(line) + "\n"@);
            }
            let ghost mid = *out;
            let r = write_indent(out, depth);
            if r.is_err() {
                proof {
                    lemma_stop_within(before, mid, *out, r, done, indent(depth as nat), escape(line) + "\n"@, next, whole);
                }
                return r;
            }
            let ghost mid = *out;
            assert(mid.sent() =~= before.sent() + (done + indent(depth as nat)));
            let r = put_escaped(out, lines[k].as_str());
            if r.is_err() {
                proof {
                    lemma_stop_within(before, mid, *out, r, done + indent(depth as nat), escape(line), "\n"@, next, whole);
                }
                return r;
            }
            let ghost mid = *out;
            assert(mid.sent() =~= before.sent() + (done + indent(depth as nat) + escape(line)));
            let r = put(out, "\n");
            if r.is_err() {
                proof {
                    lemma_stop_within(before, mid, *out, r, done + indent(depth as nat) + escape(line), "\n"@, seq![], next, whole);
                }
                return r;
            }
            assert(out.sent() =~= before.sent() + text_block(
                strings_view(lines@).take(k + 1),
                depth as nat,
            ));
        }
        assert(strings_view(lines@).take(n as int) =~= strings_view(lines@));
        Ok(())
    }

    /// Writes the pretty rendering of this element and its subtree,
    /// indented by `depth` levels, stopping at the first piece the sink
    /// refuses.
    #[verifier::spinoff_prover]
    #[verifier::rlimit(30)]
    pub(crate) fn render_pretty<W: fmt::Write>(&self, dom: &Dom, depth: usize, out: &mut Sink<W>) -> (r:
        Result<(), fmt::Error>)
        requires
            old(out).wf(),
            !old(out).failed(),
            dom.wf(),
            self@.index < dom@.len(),
            dom@[self@.index as int] == self@,
            depth + (dom@.len() - self@.index) <= usize::MAX,
        ensures
            wrote(*old(out), *final(out), r, pretty(dom@, self@.index as int, depth as nat)),
        decreases dom@.len() - self@.index, 2nat,
    {
        let ghost before = *out;
        let ghost i = self@.index as int;
        if self.tag == Tags::Any {
            return self.render_children_pretty(dom, depth, out);
        }
        let ghost e = self@;
        let ghost d = depth as nat;
        let ghost head = crate::render::pretty_doctype(e.tag) + indent(d) + start_tag(e);
        let ghost x = pretty(dom@, i, d);
        let ghost nl = "\n"@;
        let r = self.write_pretty_head(depth, out);
        if r.is_err() {
            proof {
                lemma_pretty_head(dom@, i, d);
                assert(before.sent() =~= before.sent() + Seq::<char>::empty());
                assert(Seq::<char>::empty() + head =~= head);
                lemma_stop(before, before, *out, r, seq![], head, x);
            }
            return r;
        }
        if self.tag.is_void() {
            let ghost mid = *out;
            let r = put(out, "\n");
            if r.is_err() {
                proof {
                    lemma_stop_before(before, mid, *out, r, head, nl, seq![], x);
                }
                return r;
            }
            assert(out.sent() =~= before.sent() + x);
            return Ok(());
        }
        if self.tag == Tags::Textarea {
            let ghost closing = closing_or_empty(e.tag);
            let ghost mid = *out;
            let r = put_escaped(out, self.text.as_str());
            if r.is_err() {
                proof {
                    lemma_stop_before(before, mid, *out, r, head, escape(e.text), closing + nl, x);
                }
                return r;
            }
            let ghost done = head + escape(e.text);
            let ghost mid = *out;
            assert(mid.sent() =~= before.sent() + done);
            let r = self.write_closing(out);
            if r.is_err() {
                proof {
                    lemma_stop_before(before, mid, *out, r, done, closing, nl, x);
                }
                return r;
            }
            let ghost done = done + closing;
            let ghost mid = *out;
            assert(mid.sent() =~= before.sent() + done);
            let r = put(out, "\n");
            if r.is_err() {
                proof {
                    lemma_stop_before(before, mid, *out, r, done, nl, seq![], x);
                }
                return r;
            }
            assert(out.sent() =~= before.sent() + x);
            return Ok(());
        }
        if self.tag == Tags::Pre {
            let r = self.write_pre_content(dom, out, Ghost(before), Ghost(head));
            assert(x == head + escape(e.text) + e.raw_html + compact_children(
                dom@,
                i,
                e.childs.len() as int,
            ) + closing_or_empty(e.tag) + nl);
            return r;
        }
        let ghost content = nl + text_block(lines_of(e.text), d + 1) + crate::render::raw_block(
            e.raw_html,
            d,
        ) + pretty_children(dom@, i, e.childs.len() as int, d + 1) + crate::render::closing_line(
            e.tag,
            d,
        );
        let ghost mid = *out;
        let r = self.write_pretty_content(dom, depth, out);
        if r.is_err() {
            proof {
                lemma_stop_before(before, mid, *out, r, head, content, seq![], x);
            }
            return r;
        }
        assert(out.sent() =~= before.sent() + x);
        Ok(())
    }

    /// Writes the start of a pretty element: the doctype line before
    /// `<html>`, the indentation and the start tag.
    fn write_pretty_head<W: fmt::Write>(&self, depth: usize, out: &mut Sink<W>) -> (r: Result<
        (),
        fmt::Error,
    >)
        requires
            old(out).wf(),
            !old(out).failed(),
        ensures
            wrote(
                *old(out),
                *final(out),
                r,
                crate::render::pretty_doctype(self@.tag) + indent(depth as nat) + start_tag(self@),
            ),
    {
        let ghost before = *out;
        let ghost e = self@;
        let ghost d = depth as nat;
        let ghost doctype = crate::render::pretty_doctype(e.tag);
        let ghost x = doctype + indent(d) + start_tag(e);
        let ghost nl = "\n"@;
        if self.tag == Tags::Html {
            let r = put(out, "<!DOCTYPE html>");
            if r.is_err() {
                proof {
                    lemma_stop_before(
                        before,
                        before,
                        *out,
                        r,
                        seq![],
                        "<!DOCTYPE html>"@,
                        nl + indent(d) + start_tag(e),
                        x,
                    );
                }
                return r;
            }
            let ghost mid = *out;
            assert(mid.sent() =~= before.sent() + "<!DOCTYPE html>"@);
            let r = put(out, "\n");
            if r.is_err() {
                proof {
                    lemma_stop_before(before, mid, *out, r, "<!DOCTYPE html>"@, nl, indent(d) + start_tag(e), x);
                }
                return r;
            }
        }
        let ghost mid = *out;
        assert(mid.sent() =~= before.sent() + doctype);
        let r = write_indent(out, depth);
        if r.is_err() {
            proof {
                lemma_stop_before(before, mid, *out, r, doctype, indent(d), start_tag(e), x);
            }
            return r;
        }
        let ghost mid = *out;
        assert(mid.sent() =~= before.sent() + (doctype + indent(d)));
        let r = self.write_start_tag(out);
        if r.is_err() {
            proof {
                lemma_stop_before(before, mid, *out, r, doctype + indent(d), start_tag(e), seq![], x);
            }
            return r;
        }
        assert(out.sent() =~= before.sent() + x);
        Ok(())
    }

    /// Writes what follows the start tag of a `<pre>` in pretty output: its
    /// content as it is, the closing tag and a line break.
    fn write_pre_content<W: fmt::Write>(
        &self,
        dom: &Dom,
        out: &mut Sink<W>,
        Ghost(before): Ghost<Sink<W>>,
        Ghost(head): Ghost<Seq<char>>,
    ) -> (r: Result<(), fmt::Error>)
        requires
            old(out).wf(),
            !old(out).failed(),
            dom.wf(),
            self@.index < dom@.len(),
            dom@[self@.index as int] == self@,
            wrote(before, *old(out), Ok(()), head),
        ensures
            wrote(
                before,
                *final(out),
                r,
                head + escape(self@.text) + self@.raw_html + compact_children(
                    dom@,
                    self@.index as int,
                    self@.childs.len() as int,
                ) + closing_or_empty(self@.tag) + "\n"@,
            ),
        decreases dom@.len() - self@.index, 1nat,
    {
        let ghost e = self@;
        let ghost cc = compact_children(dom@, e.index as int, e.childs.len() as int);
        let ghost closing = closing_or_empty(e.tag);
        let ghost nl = "\n"@;
        let ghost x = head + escape(e.text) + e.raw_html + cc + closing + nl;
        let ghost mid = *out;
        let r = put_escaped(out, self.text.as_str());
        if r.is_err() {
            proof {
                lemma_stop_before(before, mid, *out, r, head, escape(e.text), e.raw_html + cc + closing + nl, x);
            }
            return r;
        }
        let ghost done = head + escape(e.text);
        let ghost mid = *out;
        assert(mid.sent() =~= before.sent() + done);
        let r = if self.raw_html.as_str().is_empty() {
            assert(out.sent() =~= out.sent() + self@.raw_html);
            Ok(())
        } else {
            put(out, self.raw_html.as_str())
        };
        if r.is_err() {
            proof {
                lemma_stop_before(before, mid, *out, r, done, e.raw_html, cc + closing + nl, x);
            }
            return r;
        }
        let ghost done = done + e.raw_html;
        let ghost mid = *out;
        assert(mid.sent() =~= before.sent() + done);
        let r = self.render_children_compact(dom, out);
        if r.is_err() {
            proof {
                lemma_stop_before(before, mid, *out, r, done, cc, closing + nl, x);
            }
            return r;
        }
        let ghost done = done + cc;
        let ghost mid = *out;
        assert(mid.sent() =~= before.sent() + done);
        let r = self.write_closing(out);
        if r.is_err() {
            proof {
                lemma_stop_before(before, mid, *out, r, done, closing, nl, x);
            }
            return r;
        }
        let ghost done = done + closing;
        let ghost mid = *out;
        assert(mid.sent() =~= before.sent() + done);
        let r = put(out, "\n");
        if r.is_err() {
            proof {
                lemma_stop_before(before, mid, *out, r, done, nl, seq![], x);
            }
            return r;
        }
        assert(out.sent() =~= before.sent() + x);
        Ok(())
    }

    /// Writes what follows the start tag in pretty output: the text lines,
    /// the raw HTML, the children one level deeper and the closing line.
    #[verifier::spinoff_prover]
    #[verifier::rlimit(30)]
    fn write_pretty_content<W: fmt::Write>(&self, dom: &Dom, depth: usize, out: &mut Sink<W>) -> (r:
        Result<(), fmt::Error>)
        requires
            old(out).wf(),
            !old(out).failed(),
            dom.wf(),
            self@.index < dom@.len(),
            dom@[self@.index as int] == self@,
            depth + (dom@.len() - self@.index) <= usize::MAX,
        ensures
            wrote(
                *old(out),
                *final(out),
                r,
                "\n"@ + text_block(lines_of(self@.text), (depth + 1) as nat)
                    + crate::render::raw_block(self@.raw_html, depth as nat) + pretty_children(
                    dom@,
                    self@.index as int,
                    self@.childs.len() as int,
                    (depth + 1) as nat,
                ) + crate::render::closing_line(self@.tag, depth as nat),
            ),
        decreases dom@.len() - self@.index, 1nat,
    {
        let ghost before = *out;
        let ghost e = self@;
        let ghost d = depth as nat;
        let ghost nl = "\n"@;
        let ghost tb = text_block(lines_of(e.text), d + 1);
        let ghost rb = crate::render::raw_block(e.raw_html, d);
        let ghost pc = pretty_children(dom@, e.index as int, e.childs.len() as int, d + 1);
        let ghost cl = crate::render::closing_line(e.tag, d);
        let ghost x = nl + tb + rb + pc + cl;
        let r = put(out, "\n");
        if r.is_err() {
            proof {
                lemma_stop_before(before, before, *out, r, seq![], nl, tb + rb + pc + cl, x);
            }
            return r;
        }
        let ghost mid = *out;
        let r = self.write_text_lines(depth + 1, out);
        if r.is_err() {
            proof {
                lemma_stop_before(before, mid, *out, r, nl, tb, rb + pc + cl, x);
            }
            return r;
        }
        let ghost done = nl + tb;
        let ghost mid = *out;
        assert(mid.sent() =~= before.sent() + done);
        let r = self.write_raw_block(depth, out);
        if r.is_err() {
            proof {
                lemma_stop_before(before, mid, *out, r, done, rb, pc + cl, x);
            }
            return r;
        }
        let ghost done = done + rb;
        let ghost mid = *out;
        assert(mid.sent() =~= before.sent() + done);
        let r = self.render_children_pretty(dom, depth + 1, out);
        if r.is_err() {
            proof {
                lemma_stop_before(before, mid, *out, r, done, pc, cl, x);
            }
            return r;
        }
        let ghost done = done + pc;
        let ghost mid = *out;
        assert(mid.sent() =~= before.sent() + done);
        let r = self.write_closing_line(depth, out);
        if r.is_err() {
            proof {
                lemma_stop_before(before, mid, *out, r, done, cl, seq![], x);
            }
            return r;
        }
        assert(out.sent() =~= before.sent() + x);
        Ok(())
    }

    /// Writes the raw HTML on a line of its own, indented like the tag,
    /// where there is any.
    fn write_raw_block<W: fmt::Write>(&self, depth: usize, out: &mut Sink<W>) -> (r: Result<
        (),
        fmt::Error,
    >)
        requires
            old(out).wf(),
            !old(out).failed(),
        ensures
            wrote(*old(out), *final(out), r, crate::render::raw_block(self@.raw_html, depth as nat)),
    {
        let ghost before = *out;
        let ghost d = depth as nat;
        let ghost raw = self@.raw_html;
        let ghost nl = "\n"@;
        if self.raw_html.as_str().is_empty() {
            assert(before.sent() + crate::render::raw_block(raw, d) =~= before.sent());
            return Ok(());
        }
        let ghost x = indent(d) + raw + nl;
        let r = write_indent(out, depth);
        if r.is_err() {
            proof {
                lemma_stop_before(before, before, *out, r, seq![], indent(d), raw + nl, x);
            }
            return r;
        }
        let ghost mid = *out;
        let r = put(out, self.raw_html.as_str());
        if r.is_err() {
            proof {
                lemma_stop_before(before, mid, *out, r, indent(d), raw, nl, x);
            }
            return r;
        }
        let ghost mid = *out;
        assert(mid.sent() =~= before.sent() + (indent(d) + raw));
        let r = put(out, "\n");
        if r.is_err() {
            proof {
                lemma_stop_before(before, mid, *out, r, indent(d) + raw, nl, seq![], x);
            }
            return r;
        }
        assert(out.sent() =~= before.sent() + x);
        Ok(())
    }

    /// Writes the indented closing-tag line, where the tag has one.
    fn write_closing_line<W: fmt::Write>(&self, depth: usize, out: &mut Sink<W>) -> (r: Result<
        (),
        fmt::Error,
    >)
        requires
            old(out).wf(),
            !old(out).failed(),
        ensures
            wrote(*old(out), *final(out), r, crate::render::closing_line(self@.tag, depth as nat)),
    {
        let ghost before = *out;
        let ghost d = depth as nat;
        let ghost nl = "\n"@;
        match self.tag.closing_tag() {
            Some(closing) => {
                let ghost x = indent(d) + closing@ + nl;
                let r = write_indent(out, depth);
                if r.is_err() {
                    proof {
                        lemma_stop_before(before, before, *out, r, seq![], indent(d), closing@ + nl, x);
                    }
                    return r;
                }
                let ghost mid = *out;
                let r = put(out, closing);
                if r.is_err() {
                    proof {
                        lemma_stop_before(before, mid, *out, r, indent(d), closing@, nl, x);
                    }
                    return r;
                }
                let ghost mid = *out;
                assert(mid.sent() =~= before.sent() + (indent(d) + closing@));
                let r = put(out, "\n");
                if r.is_err() {
                    proof {
                        lemma_stop_before(before, mid, *out, r, indent(d) + closing@, nl, seq![], x);
                    }
                    return r;
                }
                assert(out.sent() =~= before.sent() + x);
                Ok(())
            },
            None => {
                assert(before.sent() + crate::render::closing_line(self@.tag, d) =~= before.sent());
                Ok(())
            },
        }
    }

    /// Writes the pretty renderings of the children, each at `depth`.
    fn render_children_pretty<W: fmt::Write>(&self, dom: &Dom, depth: usize, out: &mut Sink<W>) -> (r:
        Result<(), fmt::Error>)
        requires
            old(out).wf(),
            !old(out).failed(),
            dom.wf(),
            self@.index < dom@.len(),
            dom@[self@.index as int] == self@,
            depth + (dom@.len() - self@.index) <= usize::MAX + 1,
        ensures
            wrote(
                *old(out),
                *final(out),
                r,
                pretty_children(dom@, self@.index as int, self@.childs.len() as int, depth as nat),
            ),
        decreases dom@.len() - self@.index, 0nat,
    {
        let ghost before = *out;
        let ghost i = self@.index as int;
        let n = self.childs.len();
        for k in 0..n
            invariant
                n == self@.childs.len(),
                dom.wf(),
                0 <= i < dom@.len(),
                i == self@.index,
                dom@[i] == self@,
                depth + (dom@.len() - i) <= usize::MAX + 1,
                before == *old(out),
                !before.failed(),
                wrote(before, *out, Ok(()), pretty_children(dom@, i, k as int, depth as nat)),
        {
            let c = self.childs[k];
            assert(dom@[i].childs[k as int] == c);
            if c != self.index {
                let child = &dom.vec[c];
                assert(child@ == dom@[c as int]);
                let ghost mid = *out;
                let r = child.render_pretty(dom, depth, out);
                if r.is_err() {
                    proof {
                        lemma_pretty_children_prefix(dom@, i, k + 1, n as int, depth as nat);
                        lemma_stop_within(
                            before,
                            mid,
                            *out,
                            r,
                            pretty_children(dom@, i, k as int, depth as nat),
                            pretty(dom@, c as int, depth as nat),
                            seq![],
                            pretty_children(dom@, i, k + 1, depth as nat),
                            pretty_children(dom@, i, n as int, depth as nat),
                        );
                    }
                    return r;
                }
            }
            assert(out.sent() =~= before.sent() + pretty_children(dom@, i, k + 1, depth as nat));
        }
        Ok(())
    }
}

} // verus!
