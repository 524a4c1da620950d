use domlink::dom::is_valid_attr_name;
use domlink::{init, share_dom, Dom, Element, IoWriteAdapter, Link, SafeHtml, Sink, Tags, Tpl, TplArg};

#[test]
fn escape_replaces_every_special_character() {
    let el = init(Tags::Div).text("&<>\"'");
    assert_eq!(el.render_compact(), "<div>&amp;&lt;&gt;&quot;&#39;</div>");
}

#[test]
fn escape_leaves_plain_text_alone() {
    let el = init(Tags::P).text("plain text, 100% ok; {x} [y]");
    assert_eq!(el.render_compact(), "<p>plain text, 100% ok; {x} [y]</p>");
}

#[test]
fn escaped_text_holds_no_markup() {
    let el = init(Tags::Span).text("<b onclick=\"x\">'q'</b>");
    let r = el.render_compact();
    let inner = &r["<span>".len()..r.len() - "</span>".len()];
    assert!(!inner.contains('<'));
    assert!(!inner.contains('>'));
    assert!(!inner.contains('"'));
    assert!(!inner.contains('\''));
}

#[test]
fn attribute_values_cannot_leave_their_quotes() {
    let el = init(Tags::Div).attr("title", "a\"b'c<d>").class("x\"y");
    assert_eq!(
        el.render_compact(),
        "<div title=\"a&quot;b&#39;c&lt;d&gt;\" class=\"x&quot;y\"></div>"
    );
}

#[test]
fn void_element_renders_start_tag_only() {
    let el = init(Tags::Img).src("a.png");
    assert_eq!(el.render_compact(), "<img alt=\"\" src=\"a.png\">");
    assert_eq!(el.render_pretty(), "<img alt=\"\" src=\"a.png\">\n");
    assert_eq!(init(Tags::Br).render_compact(), "<br>");
    assert_eq!(init(Tags::Input).type_("text").render_compact(), "<input type=\"text\">");
    assert_eq!(init(Tags::Meta).render_compact(), "<meta>");
    assert_eq!(init(Tags::Link).render_compact(), "<link>");
}

#[test]
fn fragment_renders_children_only() {
    let mut frag = init(Tags::Any);
    frag.span().text("A");
    frag.span().text("B");
    assert_eq!(frag.render_compact(), "<span>A</span><span>B</span>");
    assert_eq!(frag.render_pretty(), "<span>\n  A\n</span>\n<span>\n  B\n</span>\n");
}

#[test]
fn fragment_children_keep_parent_depth() {
    let mut root = init(Tags::Div);
    let mut frag = root.any();
    frag.span().text("a");
    frag.span().text("b");
    assert_eq!(
        root.render_pretty(),
        "<div>\n  <span>\n    a\n  </span>\n  <span>\n    b\n  </span>\n</div>\n"
    );
}

#[test]
fn appended_children_render_in_order() {
    let mut root = init(Tags::Div);
    root.p().text("first");
    root.span().text("second");
    root.p().text("third");
    assert_eq!(
        root.render_compact(),
        "<div><p>first</p><span>second</span><p>third</p></div>"
    );
}

#[test]
fn later_children_do_not_change_earlier_ones() {
    let mut root = init(Tags::Ul);
    let first = root.li().text("one");
    let before = first.render_compact();
    root.li().text("two");
    assert_eq!(first.render_compact(), before);
    assert_eq!(root.render_compact(), "<ul><li>one</li><li>two</li></ul>");
}

#[test]
fn id_write_reads_back() {
    let el = init(Tags::Div).id("a").id("b").id("c");
    assert_eq!(el.render_compact(), "<div id=\"c\"></div>");
}

#[test]
fn id_replaces_in_place() {
    let el = init(Tags::Div).name("n").id("first").class("k").id("second");
    assert_eq!(
        el.render_compact(),
        "<div name=\"n\" id=\"second\" class=\"k\"></div>"
    );
}

#[test]
fn class_merges_with_spaces() {
    let el = init(Tags::Div).class("a").id("i").class("b").class("c");
    assert_eq!(el.render_compact(), "<div class=\"a b c\" id=\"i\"></div>");
}

#[test]
fn name_and_value_are_appended() {
    let el = init(Tags::Input).name("n").value("v").value("w");
    assert_eq!(
        el.render_compact(),
        "<input name=\"n\" value=\"v\" value=\"w\">"
    );
}

#[test]
fn data_attribute_prefix() {
    let el = init(Tags::Div).data("role", "main").data("x-y", "1");
    assert_eq!(
        el.render_compact(),
        "<div data-role=\"main\" data-x-y=\"1\"></div>"
    );
}

#[test]
fn attribute_name_validity() {
    assert!(is_valid_attr_name("data-x_y:z.w9"));
    assert!(!is_valid_attr_name(""));
    assert!(!is_valid_attr_name("a b"));
    assert!(!is_valid_attr_name("on\"x"));
    assert!(!is_valid_attr_name("caf\u{e9}"));
}

#[test]
fn raw_attr_and_raw_html_are_written_as_they_are() {
    let el = init(Tags::Div)
        .raw_attr("x-data=\"{ open: false }\"")
        .raw_attr("hx-get='/a'")
        .raw_html("<b>1</b>")
        .raw_html("<i>2</i>");
    assert_eq!(
        el.render_compact(),
        "<div x-data=\"{ open: false }\" hx-get='/a'><b>1</b><i>2</i></div>"
    );
}

#[test]
fn pretty_nesting_indents_two_spaces_per_level() {
    let mut root = init(Tags::Div);
    root.div().div().text("deep");
    assert_eq!(
        root.render_pretty(),
        "<div>\n  <div>\n    <div>\n      deep\n    </div>\n  </div>\n</div>\n"
    );
}

#[test]
fn pretty_text_lines() {
    let el = init(Tags::P).text("a\r\nb\n\nc\n");
    assert_eq!(el.render_pretty(), "<p>\n  a\n  b\n  \n  c\n</p>\n");
    let el2 = init(Tags::P).text("x\ry");
    assert_eq!(el2.render_pretty(), "<p>\n  x\ry\n</p>\n");
}

#[test]
fn pretty_raw_html_on_its_own_line() {
    let el = init(Tags::Script).raw_html("go();");
    assert_eq!(el.render_pretty(), "<script>\ngo();\n</script>\n");
}

#[test]
fn textarea_content_is_not_reflowed() {
    let el = init(Tags::Textarea).text("a\n b<");
    assert_eq!(el.render_pretty(), "<textarea>a\n b&lt;</textarea>\n");
    assert_eq!(el.render_compact(), "<textarea>a\n b&lt;</textarea>");
}

#[test]
fn pre_content_is_compact_in_pretty_output() {
    let mut root = init(Tags::Div);
    let mut pre = root.pre().text(" x\n  y");
    pre.code().text("z");
    assert_eq!(
        root.render_pretty(),
        "<div>\n  <pre> x\n  y<code>z</code></pre>\n</div>\n"
    );
}

#[test]
fn doctype_precedes_html() {
    let mut page = init(Tags::Html);
    page.head().title().text("T");
    assert_eq!(
        page.render_compact(),
        "<!DOCTYPE html><html><head><title>T</title></head></html>"
    );
    assert_eq!(
        page.render_pretty(),
        "<!DOCTYPE html>\n<html>\n  <head>\n    <title>\n      T\n    </title>\n  </head>\n</html>\n"
    );
}

#[test]
fn svg_declares_namespaces() {
    assert_eq!(
        init(Tags::Svg).render_compact(),
        "<svg xmlns=\"http://www.w3.org/2000/svg\" xmlns:xlink=\"http://www.w3.org/1999/xlink\"></svg>"
    );
}

#[test]
fn render_is_render_pretty() {
    let mut root = init(Tags::Ul);
    root.li().text("a");
    assert_eq!(root.render(), root.render_pretty());
}

#[test]
fn render_into_string_writers() {
    let mut root = init(Tags::Ol);
    root.li().href("h");
    let mut pretty = String::new();
    root.render_pretty_into(&mut pretty).unwrap();
    assert_eq!(pretty, root.render_pretty());
    let mut compact = String::from("pre:");
    root.render_compact_into(&mut compact).unwrap();
    assert_eq!(compact, "pre:<ol><li href=\"h\"></li></ol>");
}

#[test]
fn render_compact_into_io_writer() {
    let el = init(Tags::Label).for_("user").text("User");
    let mut buf: Vec<u8> = Vec::new();
    let mut adapter = IoWriteAdapter(&mut buf);
    el.render_compact_into(&mut adapter).unwrap();
    assert_eq!(
        String::from_utf8(buf).unwrap(),
        "<label for=\"user\">User</label>"
    );
}

#[test]
fn link_new_on_a_shared_dom() {
    let dom = share_dom(Dom::new());
    let root = Link::new(dom.clone(), None, Tags::Table);
    let mut row = Link::new(dom.clone(), Some(0), Tags::Tr);
    row.td().text("1");
    let orphan = Link::new(dom, Some(99), Tags::Td).text("x");
    assert_eq!(root.render_compact(), "<table><tr><td>1</td></tr></table>");
    assert_eq!(orphan.render_compact(), "<td>x</td>");
}

#[test]
fn handle_writes_into_the_same_dom() {
    let mut root = init(Tags::Div);
    let mut copy = root.handle();
    copy.span().text("s");
    assert_eq!(root.render_compact(), "<div><span>s</span></div>");
}

#[test]
fn dom_new_is_empty() {
    let d = Dom::new();
    assert_eq!(d.len(), 0);
    assert!(d.get(0).is_none());
}

#[test]
fn template_placeholders_from_dom() {
    let mut row = init(Tags::Tr);
    row.td().tpl();
    row.td().tpl();
    let tpl = row.template();
    assert_eq!(
        tpl.render(&["a<", "b"]),
        "<tr>\n  <td>\n    a&lt;\n  </td>\n  <td>\n    b\n  </td>\n</tr>\n"
    );
}

#[test]
fn template_roundtrip_with_braces() {
    for s in ["a{}b{}c", "{}{}", "{", "}", "{{}}", "", "x{y}z", "{}"] {
        let tpl = Tpl::new(s);
        let braces = ["{}"; 8];
        assert_eq!(tpl.render_raw(&braces), s);
    }
}

#[test]
fn template_extra_values_ignored_and_missing_empty() {
    let tpl = Tpl::new("[{}|{}|{}]");
    assert_eq!(tpl.render_raw(&["1", "2", "3", "4", "5"]), "[1|2|3]");
    assert_eq!(tpl.render_raw(&["1"]), "[1||]");
    assert_eq!(tpl.render_raw(&[]), "[||]");
}

#[test]
fn template_without_slots_is_static() {
    let tpl = Tpl::new("<p>only</p>");
    assert_eq!(tpl.render(&["a", "b"]), "<p>only</p>");
    assert_eq!(tpl.render_raw(&[]), "<p>only</p>");
}

#[test]
fn template_adjacent_and_edge_placeholders() {
    let tpl = Tpl::new("{}{}x{}");
    assert_eq!(tpl.render(&["<", ">", "&"]), "&lt;&gt;x&amp;");
    let tpl2 = Tpl::new("{{}}");
    assert_eq!(tpl2.render(&["v"]), "{v}");
}

#[test]
fn mixed_text_matches_render_and_html_matches_raw() {
    let tpl = Tpl::new("<a>{}</a><b>{}</b>");
    let h1 = SafeHtml::new_unchecked("<i>1</i>".to_string());
    let h2 = SafeHtml::new_unchecked("<u>&</u>".to_string());
    assert_eq!(
        tpl.render_mixed(&[TplArg::Text("<x>"), TplArg::Text("&")]),
        tpl.render(&["<x>", "&"])
    );
    assert_eq!(
        tpl.render_mixed(&[TplArg::Html(&h1), TplArg::Html(&h2)]),
        tpl.render_raw(&["<i>1</i>", "<u>&</u>"])
    );
    assert_eq!(
        tpl.render_mixed(&[TplArg::Text("<x>"), TplArg::Html(&h1)]),
        "<a>&lt;x&gt;</a><b><i>1</i></b>"
    );
}

#[test]
fn safe_html_outputs() {
    let tpl = Tpl::new("<td>{}</td>");
    let safe = tpl.render_safe_html(&["<1>"]);
    assert_eq!(safe.as_str(), "<td>&lt;1&gt;</td>");
    let mut rows = String::from("<tr>");
    tpl.render_safe_html_into(&mut rows, &["2"]);
    tpl.render_safe_html_into(&mut rows, &["3"]);
    assert_eq!(rows, "<tr><td>2</td><td>3</td>");
    let mixed = tpl.render_mixed_safe_html(&[TplArg::Html(&safe)]);
    assert_eq!(mixed.clone().into_string(), "<td><td>&lt;1&gt;</td></td>");
    let s: String = String::from(mixed.clone());
    assert_eq!(s, "<td><td>&lt;1&gt;</td></td>");
    let r: &str = mixed.as_ref();
    assert_eq!(r, "<td><td>&lt;1&gt;</td></td>");
}

#[test]
fn template_writers() {
    let tpl = Tpl::new("<i>{}</i>");
    let mut out = String::new();
    tpl.render_into(&mut out, &["<"]).unwrap();
    tpl.render_raw_into(&mut out, &["<"]).unwrap();
    let h = SafeHtml::new_unchecked("<b/>".to_string());
    tpl.render_mixed_into(&mut out, &[TplArg::Html(&h)]).unwrap();
    assert_eq!(out, "<i>&lt;</i><i><</i><i><b/></i>");
}

#[test]
fn unicode_text_is_kept() {
    let el = init(Tags::P).text("\u{41f}\u{440}\u{438}\u{432}\u{435}\u{442} <\u{1f600}>");
    assert_eq!(
        el.render_compact(),
        "<p>\u{41f}\u{440}\u{438}\u{432}\u{435}\u{442} &lt;\u{1f600}&gt;</p>"
    );
}

#[test]
fn default_tag_is_div() {
    let t: Tags = Default::default();
    assert_eq!(t, Tags::Div);
}

fn decode_entities(t: &str) -> String {
    t.replace("&lt;", "<")
        .replace("&gt;", ">")
        .replace("&quot;", "\"")
        .replace("&#39;", "'")
        .replace("&amp;", "&")
}

#[test]
fn escaped_text_decodes_back() {
    for text in ["&lt; is literal", "a<b>&amp;\"'", "", "&&&", "&#39;&quot;"] {
        let el = init(Tags::P).text(text);
        let r = el.render_compact();
        let inner = &r["<p>".len()..r.len() - "</p>".len()];
        assert_eq!(decode_entities(inner), text);
    }
}

#[test]
fn text_pieces_escape_like_the_whole() {
    let a = init(Tags::P).text("a<").text(">b&").render_compact();
    let b = init(Tags::P).text("a<>b&").render_compact();
    assert_eq!(a, b);
    assert_eq!(a, "<p>a&lt;&gt;b&amp;</p>");
}

#[test]
fn pretty_raw_html_is_indented_like_its_tag() {
    let mut root = init(Tags::Html);
    root.body().script().raw_html("console.log('ready');");
    assert_eq!(
        root.render_pretty(),
        "<!DOCTYPE html>\n<html>\n  <body>\n    <script>\n    console.log('ready');\n    </script>\n  </body>\n</html>\n"
    );
}

#[test]
fn template_without_values_drops_placeholders() {
    assert_eq!(Tpl::new("a{}b").render_raw(&[]), "ab");
    assert_eq!(Tpl::new("{{}}").render_raw(&[]), "{}");
    assert_eq!(Tpl::new("{}{}").render_raw(&[]), "");
    assert_eq!(Tpl::new("x{y}z").render_raw(&[]), "x{y}z");
    assert_eq!(Tpl::new("{{}}").render_raw(&["X"]), "{X}");
}

#[test]
fn closing_tag_repeats_the_opening_name() {
    let cases = [
        (Tags::Div, "div"),
        (Tags::Opt, "option"),
        (Tags::H3, "h3"),
        (Tags::Textarea, "textarea"),
        (Tags::Code, "code"),
    ];
    for (tag, name) in cases {
        assert_eq!(init(tag).render_compact(), format!("<{}></{}>", name, name));
    }
    let svg = init(Tags::Svg).render_compact();
    assert!(svg.starts_with("<svg "));
    assert!(svg.ends_with("></svg>"));
    assert_eq!(init(Tags::Any).render_compact(), "");
}

#[test]
fn dom_and_element_defaults() {
    let d = Dom::default();
    assert_eq!(d.len(), 0);
    let e = format!("{:?}", Element::default());
    assert!(e.contains("index: 0"));
    assert!(e.contains("parent: None"));
    assert!(e.contains("tag: Div"));
}

#[test]
fn element_listed_as_its_own_child_renders_once() {
    let dom = share_dom(Dom::new());
    let el = Link::new(dom, Some(0), Tags::Div).text("x");
    assert_eq!(el.render_compact(), "<div>x</div>");
}

struct FailAfter {
    left: usize,
    got: String,
}

impl std::fmt::Write for FailAfter {
    fn write_str(&mut self, s: &str) -> std::fmt::Result {
        if self.left == 0 {
            return Err(std::fmt::Error);
        }
        self.left -= 1;
        self.got.push_str(s);
        Ok(())
    }
}

#[test]
fn writer_error_stops_rendering() {
    let mut root = init(Tags::Div);
    root.span().text("a");
    root.span().text("b");
    let mut w = FailAfter { left: 3, got: String::new() };
    assert!(root.render_compact_into(&mut w).is_err());
    let full = root.render_compact();
    assert_eq!(full, "<div><span>a</span><span>b</span></div>");
    assert!(w.got.starts_with("<div"));
    assert!(w.got.len() < full.len());
    assert!(full.starts_with(&w.got));

    let tpl = Tpl::new("<p>{}</p>{}");
    let mut w2 = FailAfter { left: 1, got: String::new() };
    assert!(tpl.render_into(&mut w2, &["x", "y"]).is_err());
    assert_eq!(w2.got, "<p>");
}

#[test]
fn pretty_into_writer_matches_render_pretty() {
    let mut root = init(Tags::Ul);
    root.li().text("one");
    root.li().raw_html("<b>two</b>");
    let mut s = String::new();
    root.render_pretty_into(&mut s).unwrap();
    assert_eq!(s, root.render_pretty());
}

struct Pieces(Vec<String>);

impl std::fmt::Write for Pieces {
    fn write_str(&mut self, s: &str) -> std::fmt::Result {
        self.0.push(s.to_string());
        Ok(())
    }
}

#[test]
fn escaped_text_streams_in_runs_without_empty_pieces() {
    let el = init(Tags::P).text("a<b");
    let mut w = Pieces(Vec::new());
    el.render_compact_into(&mut w).unwrap();
    assert_eq!(w.0, vec!["<p", ">", "a", "&lt;", "b", "</p>"]);
    let mut w2 = Pieces(Vec::new());
    init(Tags::Div).render_compact_into(&mut w2).unwrap();
    assert!(w2.0.iter().all(|p| !p.is_empty()));
    assert_eq!(w2.0.concat(), "<div></div>");
}

#[test]
fn sink_entries_match_string_renders() {
    let tpl = Tpl::new("<b>{}</b>");
    let mut s: Sink<String> = Sink::text();
    tpl.render_to(&mut s, &["<x>"]).unwrap();
    assert_eq!(s.into_text(), tpl.render(&["<x>"]));

    let mut s2: Sink<String> = Sink::text();
    tpl.render_raw_to(&mut s2, &["<x>"]).unwrap();
    assert_eq!(s2.into_text(), "<b><x></b>");

    let h = SafeHtml::new_unchecked("<i>h</i>".to_string());
    let mut s3: Sink<String> = Sink::text();
    tpl.render_mixed_to(&mut s3, &[TplArg::Html(&h)]).unwrap();
    assert_eq!(s3.into_text(), "<b><i>h</i></b>");

    let mut root = init(Tags::Ul);
    root.li().text("x");
    let mut s4: Sink<String> = Sink::text();
    root.render_pretty_to(&mut s4).unwrap();
    assert_eq!(s4.into_text(), root.render_pretty());
    let mut s5: Sink<String> = Sink::text();
    root.render_compact_to(&mut s5).unwrap();
    assert_eq!(s5.into_text(), "<ul><li>x</li></ul>");

    let mut buf = String::new();
    let mut s6 = Sink::writer(&mut buf);
    root.render_compact_to(&mut s6).unwrap();
    drop(s6);
    assert_eq!(buf, "<ul><li>x</li></ul>");
}

#[test]
fn compact_output_has_no_line_breaks() {
    let mut root = init(Tags::Html);
    root.body().div().class("container").text("Hello").attr("title", "a b");
    let r = root.render_compact();
    assert!(!r.contains('\n'));
    assert_eq!(
        r,
        "<!DOCTYPE html><html><body><div class=\"container\" title=\"a b\">Hello</div></body></html>"
    );
    let single = init(Tags::Div).class("container").text("Hello").render_compact();
    assert_eq!(single, "<div class=\"container\">Hello</div>");
}
