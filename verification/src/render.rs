//! What an element of the DOM renders to, compact and pretty.

use vstd::prelude::*;

use crate::dom::ElementView;
use crate::escape::{escape, escape_char};
use crate::tags::{lemma_tag_texts_single_line, Tags};
use crate::text::lines_of;

verus! {

/// `n` levels of indentation, two spaces each.
pub open spec fn indent(n: nat) -> Seq<char>
    decreases n,
{
    if n == 0 {
        seq![]
    } else {
        indent((n - 1) as nat) + "  "@
    }
}

/// The attributes as written inside a start tag: ` name="value"` each.
pub open spec fn attrs_text(attrs: Seq<(Seq<char>, Seq<char>)>) -> Seq<char>
    decreases attrs.len(),
{
    if attrs.len() == 0 {
        seq![]
    } else {
        attrs_text(attrs.drop_last()) + " "@ + attrs.last().0 + "=\""@ + attrs.last().1 + "\""@
    }
}

/// The raw attribute strings as written inside a start tag: ` raw` each.
pub open spec fn raw_attrs_text(raws: Seq<Seq<char>>) -> Seq<char>
    decreases raws.len(),
{
    if raws.len() == 0 {
        seq![]
    } else {
        raw_attrs_text(raws.drop_last()) + " "@ + raws.last()
    }
}

/// The start tag of an element, attributes included.
pub open spec fn start_tag(e: ElementView) -> Seq<char> {
    e.tag.opening_text() + attrs_text(e.attrs) + raw_attrs_text(e.raw_attrs) + ">"@
}

/// The closing tag of `t`, or nothing for a tag without one.
pub open spec fn closing_or_empty(t: Tags) -> Seq<char> {
    match t.closing_text() {
        Some(c) => c,
        None => seq![],
    }
}

/// The doctype that precedes an `<html>` element in compact output.
pub open spec fn compact_doctype(t: Tags) -> Seq<char> {
    if t == Tags::Html {
        "<!DOCTYPE html>"@
    } else {
        seq![]
    }
}

/// The doctype line that precedes an `<html>` element in pretty output.
pub open spec fn pretty_doctype(t: Tags) -> Seq<char> {
    if t == Tags::Html {
        "<!DOCTYPE html>"@ + "\n"@
    } else {
        seq![]
    }
}

/// The compact rendering of the element at position `i` of `d`, with its
/// subtree: no indentation and no line breaks added.
pub open spec fn compact(d: Seq<ElementView>, i: int) -> Seq<char>
    decreases d.len() - i, d[i].childs.len() + 1,
{
    if 0 <= i < d.len() {
        let e = d[i];
        if e.tag == Tags::Any {
            compact_children(d, i, e.childs.len() as int)
        } else {
            let head = compact_doctype(e.tag) + start_tag(e);
            if e.tag.is_void_tag() {
                head
            } else if e.tag == Tags::Textarea {
                head + escape(e.text) + closing_or_empty(e.tag)
            } else {
                head + escape(e.text) + e.raw_html + compact_children(d, i, e.childs.len() as int)
                    + closing_or_empty(e.tag)
            }
        }
    } else {
        seq![]
    }
}

/// The compact renderings of the first `k` children of element `i`, in order.
pub open spec fn compact_children(d: Seq<ElementView>, i: int, k: int) -> Seq<char>
    decreases d.len() - i, k,
{
    if 0 <= i < d.len() && 0 < k <= d[i].childs.len() {
        let c = d[i].childs[k - 1] as int;
        compact_children(d, i, k - 1) + (if i < c < d.len() {
            compact(d, c)
        } else {
            seq![]
        })
    } else {
        seq![]
    }
}

/// Lines of text, each indented by `depth` levels, escaped and ended by a
/// line break.
pub open spec fn text_block(lines: Seq<Seq<char>>, depth: nat) -> Seq<char>
    decreases lines.len(),
{
    if lines.len() == 0 {
        seq![]
    } else {
        text_block(lines.drop_last(), depth) + indent(depth) + escape(lines.last()) + "\n"@
    }
}

/// Raw HTML content on its own line, indented like its element's tag, or
/// nothing when there is none.
pub open spec fn raw_block(raw: Seq<char>, depth: nat) -> Seq<char> {
    if raw.len() > 0 {
        indent(depth) + raw + "\n"@
    } else {
        seq![]
    }
}

/// The indented closing-tag line of `t`, or nothing for a tag without one.
pub open spec fn closing_line(t: Tags, depth: nat) -> Seq<char> {
    match t.closing_text() {
        Some(c) => indent(depth) + c + "\n"@,
        None => seq![],
    }
}

/// The pretty rendering of the element at position `i` of `d`, indented by
/// `depth` levels: one line per tag and per line of text, children one
/// level deeper. A fragment renders its children at its own depth; the
/// content of `<textarea>` and `<pre>` is written as it is, without added
/// line breaks or indentation.
pub open spec fn pretty(d: Seq<ElementView>, i: int, depth: nat) -> Seq<char>
    decreases d.len() - i, d[i].childs.len() + 1,
{
    if 0 <= i < d.len() {
        let e = d[i];
        if e.tag == Tags::Any {
            pretty_children(d, i, e.childs.len() as int, depth)
        } else {
            let head = pretty_doctype(e.tag) + indent(depth) + start_tag(e);
            if e.tag.is_void_tag() {
                head + "\n"@
            } else if e.tag == Tags::Textarea {
                head + escape(e.text) + closing_or_empty(e.tag) + "\n"@
            } else if e.tag == Tags::Pre {
                head + escape(e.text) + e.raw_html + compact_children(d, i, e.childs.len() as int)
                    + closing_or_empty(e.tag) + "\n"@
            } else {
                head + "\n"@ + text_block(lines_of(e.text), depth + 1) + raw_block(e.raw_html, depth)
                    + pretty_children(d, i, e.childs.len() as int, depth + 1) + closing_line(
                    e.tag,
                    depth,
                )
            }
        }
    } else {
        seq![]
    }
}

/// The pretty renderings of the first `k` children of element `i`, each at
/// `depth`, in order.
pub open spec fn pretty_children(d: Seq<ElementView>, i: int, k: int, depth: nat) -> Seq<char>
    decreases d.len() - i, k,
{
    if 0 <= i < d.len() && 0 < k <= d[i].childs.len() {
        let c = d[i].childs[k - 1] as int;
        pretty_children(d, i, k - 1, depth) + (if i < c < d.len() {
            pretty(d, c, depth)
        } else {
            seq![]
        })
    } else {
        seq![]
    }
}

/// An indent of `n` levels is `2 * n` spaces.
pub proof fn lemma_indent(n: nat)
    ensures
        indent(n).len() == 2 * n,
        forall|j: int| 0 <= j < indent(n).len() ==> #[trigger] indent(n)[j] == ' ',
    decreases n,
{
    reveal_strlit("  ");
    if n > 0 {
        lemma_indent((n - 1) as nat);
        let a = indent((n - 1) as nat);
        assert forall|j: int| 0 <= j < indent(n).len() implies #[trigger] indent(n)[j] == ' ' by {
            if j < a.len() {
                assert(indent(n)[j] == a[j]);
            }
        }
    }
}

/// A void element renders as its start tag alone: no content, no children
/// and no closing tag.
pub proof fn lemma_void_renders_start_tag_only(d: Seq<ElementView>, i: int, depth: nat)
    requires
        0 <= i < d.len(),
        d[i].tag.is_void_tag(),
    ensures
        compact(d, i) == start_tag(d[i]),
        pretty(d, i, depth) == indent(depth) + start_tag(d[i]) + "\n"@,
{
    assert(compact_doctype(d[i].tag) + start_tag(d[i]) =~= start_tag(d[i]));
    assert(pretty_doctype(d[i].tag) + indent(depth) + start_tag(d[i]) =~= indent(depth) + start_tag(
        d[i],
    ));
}

/// A fragment renders as its children alone, in order and, in pretty
/// output, at its own depth.
pub proof fn lemma_fragment_renders_children(d: Seq<ElementView>, i: int, depth: nat)
    requires
        0 <= i < d.len(),
        d[i].tag == Tags::Any,
    ensures
        compact(d, i) == compact_children(d, i, d[i].childs.len() as int),
        pretty(d, i, depth) == pretty_children(d, i, d[i].childs.len() as int, depth),
{
}

/// Changing an element leaves the renderings of the elements after it as
/// they were: a subtree only holds elements that come after its root.
pub proof fn lemma_render_frame(d: Seq<ElementView>, p: int, e: ElementView, i: int, depth: nat)
    requires
        0 <= p < i,
        p < d.len(),
    ensures
        compact(d.update(p, e), i) == compact(d, i),
        pretty(d.update(p, e), i, depth) == pretty(d, i, depth),
    decreases d.len() - i, 1int,
{
    if i < d.len() {
        let n = d[i].childs.len() as int;
        assert(d.update(p, e)[i] == d[i]);
        lemma_children_frame(d, p, e, i, n, depth);
        lemma_children_frame(d, p, e, i, n, depth + 1);
    }
}

/// Changing an element leaves the renderings of the children of any later
/// element as they were.
pub proof fn lemma_children_frame(
    d: Seq<ElementView>,
    p: int,
    e: ElementView,
    i: int,
    k: int,
    depth: nat,
)
    requires
        0 <= p < i < d.len(),
    ensures
        compact_children(d.update(p, e), i, k) == compact_children(d, i, k),
        pretty_children(d.update(p, e), i, k, depth) == pretty_children(d, i, k, depth),
    decreases d.len() - i, 0int, k,
{
    assert(d.update(p, e)[i] == d[i]);
    if 0 < k <= d[i].childs.len() {
        lemma_children_frame(d, p, e, i, k - 1, depth);
        let c = d[i].childs[k - 1] as int;
        if i < c < d.len() {
            lemma_render_frame(d, p, e, c, depth);
        }
    }
}

/// A child appended to element `p` renders after the children it already
/// had, which render as before.
pub proof fn lemma_appended_child_renders_last(d: Seq<ElementView>, p: int, c: usize, depth: nat)
    requires
        0 <= p < c < d.len(),
    ensures
        ({
            let d2 = d.update(p, ElementView { childs: d[p].childs.push(c), ..d[p] });
            let n = d[p].childs.len() as int;
            &&& compact_children(d2, p, n + 1) == compact_children(d, p, n) + compact(d, c as int)
            &&& pretty_children(d2, p, n + 1, depth) == pretty_children(d, p, n, depth) + pretty(
                d,
                c as int,
                depth,
            )
        }),
{
    let e = ElementView { childs: d[p].childs.push(c), ..d[p] };
    let d2 = d.update(p, e);
    let n = d[p].childs.len() as int;
    lemma_render_frame(d, p, e, c as int, depth);
    lemma_prefix_children(d, p, e, n, depth);
    assert(d2[p].childs[n] == c);
}

/// Children of `p` that were there before an append render as before.
proof fn lemma_prefix_children(d: Seq<ElementView>, p: int, e: ElementView, k: int, depth: nat)
    requires
        0 <= p < d.len(),
        e.childs.len() >= d[p].childs.len(),
        0 <= k <= d[p].childs.len(),
        forall|j: int| 0 <= j < d[p].childs.len() ==> e.childs[j] == d[p].childs[j],
    ensures
        compact_children(d.update(p, e), p, k) == compact_children(d, p, k),
        pretty_children(d.update(p, e), p, k, depth) == pretty_children(d, p, k, depth),
    decreases k,
{
    if k > 0 {
        lemma_prefix_children(d, p, e, k - 1, depth);
        let c = d[p].childs[k - 1] as int;
        assert(d.update(p, e)[p].childs[k - 1] == c);
        if p < c < d.len() {
            lemma_render_frame(d, p, e, c, depth);
        }
    }
}

/// Whether `s` holds no line break.
pub open spec fn single_line(s: Seq<char>) -> bool {
    forall|j: int| 0 <= j < s.len() ==> s[j] != '\n'
}

/// Whether nothing the element holds has a line break: its text, raw HTML,
/// raw attributes and attribute names and values.
pub open spec fn element_single_line(e: ElementView) -> bool {
    &&& single_line(e.text)
    &&& single_line(e.raw_html)
    &&& forall|k: int| 0 <= k < e.raw_attrs.len() ==> single_line(#[trigger] e.raw_attrs[k])
    &&& forall|k: int|
        0 <= k < e.attrs.len() ==> single_line((#[trigger] e.attrs[k]).0) && single_line(e.attrs[k].1)
}

proof fn lemma_single_line_append(a: Seq<char>, b: Seq<char>)
    requires
        single_line(a),
        single_line(b),
    ensures
        single_line(a + b),
{
    assert forall|j: int| 0 <= j < (a + b).len() implies (a + b)[j] != '\n' by {
        if j < a.len() {
            assert((a + b)[j] == a[j]);
        } else {
            assert((a + b)[j] == b[j - a.len()]);
        }
    }
}

proof fn lemma_escape_single_line(s: Seq<char>)
    requires
        single_line(s),
    ensures
        single_line(escape(s)),
    decreases s.len(),
{
    reveal_strlit("&amp;");
    reveal_strlit("&lt;");
    reveal_strlit("&gt;");
    reveal_strlit("&quot;");
    reveal_strlit("&#39;");
    if s.len() > 0 {
        assert(s.last() == s[s.len() - 1]);
        lemma_escape_single_line(s.drop_last());
        assert(single_line(escape_char(s.last())));
        lemma_single_line_append(escape(s.drop_last()), escape_char(s.last()));
    }
}

proof fn lemma_start_tag_single_line(e: ElementView)
    requires
        element_single_line(e),
    ensures
        single_line(start_tag(e)),
{
    reveal_strlit(" ");
    reveal_strlit("=\"");
    reveal_strlit("\"");
    reveal_strlit(">");
    lemma_tag_texts_single_line(e.tag);
    lemma_attrs_single_line(e.attrs);
    lemma_raw_attrs_single_line(e.raw_attrs);
    lemma_single_line_append(e.tag.opening_text(), attrs_text(e.attrs));
    lemma_single_line_append(e.tag.opening_text() + attrs_text(e.attrs), raw_attrs_text(e.raw_attrs));
    lemma_single_line_append(
        e.tag.opening_text() + attrs_text(e.attrs) + raw_attrs_text(e.raw_attrs),
        ">"@,
    );
}

proof fn lemma_attrs_single_line(attrs: Seq<(Seq<char>, Seq<char>)>)
    requires
        forall|k: int|
            0 <= k < attrs.len() ==> single_line((#[trigger] attrs[k]).0) && single_line(attrs[k].1),
    ensures
        single_line(attrs_text(attrs)),
    decreases attrs.len(),
{
    reveal_strlit(" ");
    reveal_strlit("=\"");
    reveal_strlit("\"");
    if attrs.len() > 0 {
        let a = attrs.last();
        assert(a == attrs[attrs.len() - 1]);
        let rest = attrs.drop_last();
        assert forall|k: int| 0 <= k < rest.len() implies single_line((#[trigger] rest[k]).0) && single_line(
            rest[k].1,
        ) by {
            assert(rest[k] == attrs[k]);
        }
        lemma_attrs_single_line(rest);
        let t = attrs_text(rest);
        lemma_single_line_append(t, " "@);
        lemma_single_line_append(t + " "@, a.0);
        lemma_single_line_append(t + " "@ + a.0, "=\""@);
        lemma_single_line_append(t + " "@ + a.0 + "=\""@, a.1);
        lemma_single_line_append(t + " "@ + a.0 + "=\""@ + a.1, "\""@);
    }
}

proof fn lemma_raw_attrs_single_line(raws: Seq<Seq<char>>)
    requires
        forall|k: int| 0 <= k < raws.len() ==> single_line(#[trigger] raws[k]),
    ensures
        single_line(raw_attrs_text(raws)),
    decreases raws.len(),
{
    reveal_strlit(" ");
    if raws.len() > 0 {
        let rest = raws.drop_last();
        assert(raws.last() == raws[raws.len() - 1]);
        assert forall|k: int| 0 <= k < rest.len() implies single_line(#[trigger] rest[k]) by {
            assert(rest[k] == raws[k]);
        }
        lemma_raw_attrs_single_line(rest);
        lemma_single_line_append(raw_attrs_text(rest), " "@);
        lemma_single_line_append(raw_attrs_text(rest) + " "@, raws.last());
    }
}

/// Compact rendering adds no line breaks: where nothing in the DOM holds
/// one, the compact rendering of any element holds none either.
pub proof fn lemma_compact_adds_no_line_break(d: Seq<ElementView>, i: int)
    requires
        forall|j: int| 0 <= j < d.len() ==> element_single_line(#[trigger] d[j]),
    ensures
        single_line(compact(d, i)),
    decreases d.len() - i, d[i].childs.len() + 1,
{
    reveal_strlit("<!DOCTYPE html>");
    if 0 <= i < d.len() {
        let e = d[i];
        let n = e.childs.len() as int;
        if e.tag == Tags::Any {
            lemma_compact_children_no_line_break(d, i, n);
        } else {
            lemma_start_tag_single_line(e);
            lemma_tag_texts_single_line(e.tag);
            let doctype = compact_doctype(e.tag);
            assert(single_line(doctype));
            let head = doctype + start_tag(e);
            lemma_single_line_append(doctype, start_tag(e));
            let closing = closing_or_empty(e.tag);
            assert(single_line(closing));
            if !e.tag.is_void_tag() {
                lemma_escape_single_line(e.text);
                lemma_single_line_append(head, escape(e.text));
                if e.tag == Tags::Textarea {
                    lemma_single_line_append(head + escape(e.text), closing);
                } else {
                    lemma_single_line_append(head + escape(e.text), e.raw_html);
                    lemma_compact_children_no_line_break(d, i, n);
                    lemma_single_line_append(head + escape(e.text) + e.raw_html, compact_children(d, i, n));
                    lemma_single_line_append(
                        head + escape(e.text) + e.raw_html + compact_children(d, i, n),
                        closing,
                    );
                }
            }
        }
    }
}

/// The compact renderings of children add no line breaks either.
pub proof fn lemma_compact_children_no_line_break(d: Seq<ElementView>, i: int, k: int)
    requires
        forall|j: int| 0 <= j < d.len() ==> element_single_line(#[trigger] d[j]),
    ensures
        single_line(compact_children(d, i, k)),
    decreases d.len() - i, k,
{
    if 0 <= i < d.len() && 0 < k <= d[i].childs.len() {
        lemma_compact_children_no_line_break(d, i, k - 1);
        let c = d[i].childs[k - 1] as int;
        if i < c < d.len() {
            lemma_compact_adds_no_line_break(d, c);
            lemma_single_line_append(compact_children(d, i, k - 1), compact(d, c));
        } else {
            assert(compact_children(d, i, k) =~= compact_children(d, i, k - 1) + Seq::<char>::empty());
        }
    }
}

} // verus!
