//! The HTML and SVG tags that the DOM builder knows.

use vstd::prelude::*;

verus! {

/// Supported HTML and SVG tags.
///
/// `Any` is a fragment tag that renders only its children. The void
/// elements `Meta`, `Link`, `Img`, `Br` and `Input` have no closing tag and
/// cannot hold children.
#[derive(Debug, Clone, Copy, PartialEq, Eq, Structural)]
pub enum Tags {
    /// `<html>`.
    Html,
    /// `<head>`.
    Head,
    /// `<body>`.
    Body,
    /// `<svg>`, with the SVG and XLink namespaces declared.
    Svg,
    /// `<path>`.
    Path,
    /// `<div>`.
    Div,
    /// `<table>`.
    Table,
    /// `<thead>`.
    Thead,
    /// `<tbody>`.
    Tbody,
    /// `<tr>`.
    Tr,
    /// `<td>`.
    Td,
    /// `<form>`.
    Form,
    /// `<iframe>`.
    Iframe,
    /// `<p>`.
    P,
    /// `<h1>`.
    H1,
    /// `<h2>`.
    H2,
    /// `<h3>`.
    H3,
    /// `<h4>`.
    H4,
    /// `<h5>`.
    H5,
    /// `<h6>`.
    H6,
    /// `<ol>`.
    Ol,
    /// `<ul>`.
    Ul,
    /// `<li>`.
    Li,
    /// `<br>`; a void element.
    Br,
    /// `<span>`.
    Span,
    /// `<img>`, with an empty `alt`; a void element.
    Img,
    /// `<a>`.
    A,
    /// `<button>`.
    Button,
    /// `<input>`; a void element.
    Input,
    /// `<textarea>`.
    Textarea,
    /// `<select>`.
    Select,
    /// `<option>`.
    Opt,
    /// `<meta>`; a void element.
    Meta,
    /// `<label>`.
    Label,
    /// `<title>`.
    Title,
    /// `<link>`; a void element.
    Link,
    /// `<script>`.
    Script,
    /// `<style>`.
    Style,
    /// `<pre>`; its content keeps its whitespace.
    Pre,
    /// `<code>`.
    Code,
    /// A fragment: renders only its children, without a wrapping element.
    Any,
}

impl Default for Tags {
    fn default() -> (t: Self)
        ensures
            t == Tags::Div,
    {
        Tags::Div
    }
}

impl Tags {
    /// The text that opens the tag, without its closing `>`.
    pub open spec fn opening_text(self) -> Seq<char> {
        match self {
            Tags::Html => "<html"@,
            Tags::Head => "<head"@,
            Tags::Body => "<body"@,
            Tags::Svg => "<svg xmlns=\"http://www.w3.org/2000/svg\" xmlns:xlink=\"http://www.w3.org/1999/xlink\""@,
            Tags::Path => "<path"@,
            Tags::Div => "<div"@,
            Tags::Table => "<table"@,
            Tags::Thead => "<thead"@,
            Tags::Tbody => "<tbody"@,
            Tags::Tr => "<tr"@,
            Tags::Td => "<td"@,
            Tags::Form => "<form"@,
            Tags::Iframe => "<iframe"@,
            Tags::P => "<p"@,
            Tags::H1 => "<h1"@,
            Tags::H2 => "<h2"@,
            Tags::H3 => "<h3"@,
            Tags::H4 => "<h4"@,
            Tags::H5 => "<h5"@,
            Tags::H6 => "<h6"@,
            Tags::Ol => "<ol"@,
            Tags::Ul => "<ul"@,
            Tags::Li => "<li"@,
            Tags::Br => "<br"@,
            Tags::Span => "<span"@,
            Tags::Img => "<img alt=\"\""@,
            Tags::A => "<a"@,
            Tags::Button => "<button"@,
            Tags::Input => "<input"@,
            Tags::Textarea => "<textarea"@,
            Tags::Select => "<select"@,
            Tags::Opt => "<option"@,
            Tags::Meta => "<meta"@,
            Tags::Label => "<label"@,
            Tags::Title => "<title"@,
            Tags::Link => "<link"@,
            Tags::Script => "<script"@,
            Tags::Style => "<style"@,
            Tags::Pre => "<pre"@,
            Tags::Code => "<code"@,
            Tags::Any => ""@,
        }
    }

    /// The element name, as it stands in the start and end tags; empty for
    /// `Any`.
    pub open spec fn tag_name(self) -> Seq<char> {
        match self {
            Tags::Html => "html"@,
            Tags::Head => "head"@,
            Tags::Body => "body"@,
            Tags::Svg => "svg"@,
            Tags::Path => "path"@,
            Tags::Div => "div"@,
            Tags::Table => "table"@,
            Tags::Thead => "thead"@,
            Tags::Tbody => "tbody"@,
            Tags::Tr => "tr"@,
            Tags::Td => "td"@,
            Tags::Form => "form"@,
            Tags::Iframe => "iframe"@,
            Tags::P => "p"@,
            Tags::H1 => "h1"@,
            Tags::H2 => "h2"@,
            Tags::H3 => "h3"@,
            Tags::H4 => "h4"@,
            Tags::H5 => "h5"@,
            Tags::H6 => "h6"@,
            Tags::Ol => "ol"@,
            Tags::Ul => "ul"@,
            Tags::Li => "li"@,
            Tags::Br => "br"@,
            Tags::Span => "span"@,
            Tags::Img => "img"@,
            Tags::A => "a"@,
            Tags::Button => "button"@,
            Tags::Input => "input"@,
            Tags::Textarea => "textarea"@,
            Tags::Select => "select"@,
            Tags::Opt => "option"@,
            Tags::Meta => "meta"@,
            Tags::Label => "label"@,
            Tags::Title => "title"@,
            Tags::Link => "link"@,
            Tags::Script => "script"@,
            Tags::Style => "style"@,
            Tags::Pre => "pre"@,
            Tags::Code => "code"@,
            Tags::Any => ""@,
        }
    }

    /// The closing tag, where the tag has one.
    pub open spec fn closing_text(self) -> Option<Seq<char>> {
        match self {
            Tags::Html => Some("</html>"@),
            Tags::Head => Some("</head>"@),
            Tags::Body => Some("</body>"@),
            Tags::Svg => Some("</svg>"@),
            Tags::Path => Some("</path>"@),
            Tags::Div => Some("</div>"@),
            Tags::Table => Some("</table>"@),
            Tags::Thead => Some("</thead>"@),
            Tags::Tbody => Some("</tbody>"@),
            Tags::Tr => Some("</tr>"@),
            Tags::Td => Some("</td>"@),
            Tags::Form => Some("</form>"@),
            Tags::Iframe => Some("</iframe>"@),
            Tags::P => Some("</p>"@),
            Tags::H1 => Some("</h1>"@),
            Tags::H2 => Some("</h2>"@),
            Tags::H3 => Some("</h3>"@),
            Tags::H4 => Some("</h4>"@),
            Tags::H5 => Some("</h5>"@),
            Tags::H6 => Some("</h6>"@),
            Tags::Ol => Some("</ol>"@),
            Tags::Ul => Some("</ul>"@),
            Tags::Li => Some("</li>"@),
            Tags::Br => None,
            Tags::Span => Some("</span>"@),
            Tags::Img => None,
            Tags::A => Some("</a>"@),
            Tags::Button => Some("</button>"@),
            Tags::Input => None,
            Tags::Textarea => Some("</textarea>"@),
            Tags::Select => Some("</select>"@),
            Tags::Opt => Some("</option>"@),
            Tags::Meta => None,
            Tags::Label => Some("</label>"@),
            Tags::Title => Some("</title>"@),
            Tags::Link => None,
            Tags::Script => Some("</script>"@),
            Tags::Style => Some("</style>"@),
            Tags::Pre => Some("</pre>"@),
            Tags::Code => Some("</code>"@),
            Tags::Any => None,
        }
    }

    /// Whether the tag is a void element, which has no content.
    pub open spec fn is_void_tag(self) -> bool {
        self == Tags::Meta || self == Tags::Link || self == Tags::Img || self == Tags::Br
            || self == Tags::Input
    }

    /// Returns the opening HTML tag representation, without its closing `>`.
    pub(crate) fn opening_tag(&self) -> (r: &'static str)
        ensures
            r@ == self.opening_text(),
    {
        match self {
            Tags::Html => "<html",
            Tags::Head => "<head",
            Tags::Body => "<body",
            Tags::Svg => "<svg xmlns=\"http://www.w3.org/2000/svg\" xmlns:xlink=\"http://www.w3.org/1999/xlink\"",
            Tags::Path => "<path",
            Tags::Div => "<div",
            Tags::Table => "<table",
            Tags::Thead => "<thead",
            Tags::Tbody => "<tbody",
            Tags::Tr => "<tr",
            Tags::Td => "<td",
            Tags::Form => "<form",
            Tags::Iframe => "<iframe",
            Tags::P => "<p",
            Tags::H1 => "<h1",
            Tags::H2 => "<h2",
            Tags::H3 => "<h3",
            Tags::H4 => "<h4",
            Tags::H5 => "<h5",
            Tags::H6 => "<h6",
            Tags::Ol => "<ol",
            Tags::Ul => "<ul",
            Tags::Li => "<li",
            Tags::Br => "<br",
            Tags::Span => "<span",
            Tags::Img => "<img alt=\"\"",
            Tags::A => "<a",
            Tags::Button => "<button",
            Tags::Input => "<input",
            Tags::Textarea => "<textarea",
            Tags::Select => "<select",
            Tags::Opt => "<option",
            Tags::Meta => "<meta",
            Tags::Label => "<label",
            Tags::Title => "<title",
            Tags::Link => "<link",
            Tags::Script => "<script",
            Tags::Style => "<style",
            Tags::Pre => "<pre",
            Tags::Code => "<code",
            Tags::Any => "",
        }
    }

    /// Returns the closing HTML tag; void elements and `Any` have none.
    pub(crate) fn closing_tag(&self) -> (r: Option<&'static str>)
        ensures
            r.is_some() == self.closing_text().is_some(),
            r.is_some() ==> r.unwrap()@ == self.closing_text().unwrap(),
    {
        match self {
            Tags::Html => Some("</html>"),
            Tags::Head => Some("</head>"),
            Tags::Body => Some("</body>"),
            Tags::Svg => Some("</svg>"),
            Tags::Path => Some("</path>"),
            Tags::Div => Some("</div>"),
            Tags::Table => Some("</table>"),
            Tags::Thead => Some("</thead>"),
            Tags::Tbody => Some("</tbody>"),
            Tags::Tr => Some("</tr>"),
            Tags::Td => Some("</td>"),
            Tags::Form => Some("</form>"),
            Tags::Iframe => Some("</iframe>"),
            Tags::P => Some("</p>"),
            Tags::H1 => Some("</h1>"),
            Tags::H2 => Some("</h2>"),
            Tags::H3 => Some("</h3>"),
            Tags::H4 => Some("</h4>"),
            Tags::H5 => Some("</h5>"),
            Tags::H6 => Some("</h6>"),
            Tags::Ol => Some("</ol>"),
            Tags::Ul => Some("</ul>"),
            Tags::Li => Some("</li>"),
            Tags::Br => None,
            Tags::Span => Some("</span>"),
            Tags::Img => None,
            Tags::A => Some("</a>"),
            Tags::Button => Some("</button>"),
            Tags::Input => None,
            Tags::Textarea => Some("</textarea>"),
            Tags::Select => Some("</select>"),
            Tags::Opt => Some("</option>"),
            Tags::Meta => None,
            Tags::Label => Some("</label>"),
            Tags::Title => Some("</title>"),
            Tags::Link => None,
            Tags::Script => Some("</script>"),
            Tags::Style => Some("</style>"),
            Tags::Pre => Some("</pre>"),
            Tags::Code => Some("</code>"),
            Tags::Any => None,
        }
    }

    /// Returns `true` if the tag is a void element.
    pub(crate) fn is_void(&self) -> (r: bool)
        ensures
            r == self.is_void_tag(),
    {
        match self {
            Tags::Meta | Tags::Link | Tags::Img | Tags::Br | Tags::Input => true,
            _ => false,
        }
    }
}

/// Every tag but the void elements and `Any` has a closing tag.
pub proof fn lemma_closing_tag_exists(t: Tags)
    ensures
        t.closing_text().is_some() <==> !(t.is_void_tag() || t == Tags::Any),
{
}

/// A tag's texts agree with its name: only `Any` has an empty start tag and
/// an empty name; every other start tag is `<` and the name, followed by
/// nothing or by built-in attributes after a space; and every tag that is
/// neither void nor `Any` closes with `</`, the same name and `>`.
pub proof fn lemma_tag_texts_agree(t: Tags)
    ensures
        t.opening_text().len() == 0 <==> t == Tags::Any,
        t.tag_name().len() == 0 <==> t == Tags::Any,
        t != Tags::Any ==> t.opening_text().take(1 + t.tag_name().len() as int) == "<"@ + t.tag_name(),
        t != Tags::Any && t.opening_text().len() > 1 + t.tag_name().len() ==> t.opening_text()[1
            + t.tag_name().len() as int] == ' ',
        !t.is_void_tag() && t != Tags::Any ==> t.closing_text() == Some("</"@ + t.tag_name() + ">"@),
{
    reveal_strlit("<");
    reveal_strlit("</");
    reveal_strlit(">");
    match t {
        Tags::Html => {
            reveal_strlit("<html");
            reveal_strlit("html");
            reveal_strlit("</html>");
            assert(t.opening_text().take(1 + t.tag_name().len() as int) =~= "<"@ + t.tag_name());
            assert(t.closing_text().unwrap() =~= "</"@ + t.tag_name() + ">"@);
        },
        Tags::Head => {
            reveal_strlit("<head");
            reveal_strlit("head");
            reveal_strlit("</head>");
            assert(t.opening_text().take(1 + t.tag_name().len() as int) =~= "<"@ + t.tag_name());
            assert(t.closing_text().unwrap() =~= "</"@ + t.tag_name() + ">"@);
        },
        Tags::Body => {
            reveal_strlit("<body");
            reveal_strlit("body");
            reveal_strlit("</body>");
            assert(t.opening_text().take(1 + t.tag_name().len() as int) =~= "<"@ + t.tag_name());
            assert(t.closing_text().unwrap() =~= "</"@ + t.tag_name() + ">"@);
        },
        Tags::Svg => {
            reveal_strlit("<svg xmlns=\"http://www.w3.org/2000/svg\" xmlns:xlink=\"http://www.w3.org/1999/xlink\"");
            reveal_strlit("svg");
            reveal_strlit("</svg>");
            assert(t.opening_text().take(1 + t.tag_name().len() as int) =~= "<"@ + t.tag_name());
            assert(t.closing_text().unwrap() =~= "</"@ + t.tag_name() + ">"@);
        },
        Tags::Path => {
            reveal_strlit("<path");
            reveal_strlit("path");
            reveal_strlit("</path>");
            assert(t.opening_text().take(1 + t.tag_name().len() as int) =~= "<"@ + t.tag_name());
            assert(t.closing_text().unwrap() =~= "</"@ + t.tag_name() + ">"@);
        },
        Tags::Div => {
            reveal_strlit("<div");
            reveal_strlit("div");
            reveal_strlit("</div>");
            assert(t.opening_text().take(1 + t.tag_name().len() as int) =~= "<"@ + t.tag_name());
            assert(t.closing_text().unwrap() =~= "</"@ + t.tag_name() + ">"@);
        },
        Tags::Table => {
            reveal_strlit("<table");
            reveal_strlit("table");
            reveal_strlit("</table>");
            assert(t.opening_text().take(1 + t.tag_name().len() as int) =~= "<"@ + t.tag_name());
            assert(t.closing_text().unwrap() =~= "</"@ + t.tag_name() + ">"@);
        },
        Tags::Thead => {
            reveal_strlit("<thead");
            reveal_strlit("thead");
            reveal_strlit("</thead>");
            assert(t.opening_text().take(1 + t.tag_name().len() as int) =~= "<"@ + t.tag_name());
            assert(t.closing_text().unwrap() =~= "</"@ + t.tag_name() + ">"@);
        },
        Tags::Tbody => {
            reveal_strlit("<tbody");
            reveal_strlit("tbody");
            reveal_strlit("</tbody>");
            assert(t.opening_text().take(1 + t.tag_name().len() as int) =~= "<"@ + t.tag_name());
            assert(t.closing_text().unwrap() =~= "</"@ + t.tag_name() + ">"@);
        },
        Tags::Tr => {
            reveal_strlit("<tr");
            reveal_strlit("tr");
            reveal_strlit("</tr>");
            assert(t.opening_text().take(1 + t.tag_name().len() as int) =~= "<"@ + t.tag_name());
            assert(t.closing_text().unwrap() =~= "</"@ + t.tag_name() + ">"@);
        },
        Tags::Td => {
            reveal_strlit("<td");
            reveal_strlit("td");
            reveal_strlit("</td>");
            assert(t.opening_text().take(1 + t.tag_name().len() as int) =~= "<"@ + t.tag_name());
            assert(t.closing_text().unwrap() =~= "</"@ + t.tag_name() + ">"@);
        },
        Tags::Form => {
            reveal_strlit("<form");
            reveal_strlit("form");
            reveal_strlit("</form>");
            assert(t.opening_text().take(1 + t.tag_name().len() as int) =~= "<"@ + t.tag_name());
            assert(t.closing_text().unwrap() =~= "</"@ + t.tag_name() + ">"@);
        },
        Tags::Iframe => {
            reveal_strlit("<iframe");
            reveal_strlit("iframe");
            reveal_strlit("</iframe>");
            assert(t.opening_text().take(1 + t.tag_name().len() as int) =~= "<"@ + t.tag_name());
            assert(t.closing_text().unwrap() =~= "</"@ + t.tag_name() + ">"@);
        },
        Tags::P => {
            reveal_strlit("<p");
            reveal_strlit("p");
            reveal_strlit("</p>");
            assert(t.opening_text().take(1 + t.tag_name().len() as int) =~= "<"@ + t.tag_name());
            assert(t.closing_text().unwrap() =~= "</"@ + t.tag_name() + ">"@);
        },
        Tags::H1 => {
            reveal_strlit("<h1");
            reveal_strlit("h1");
            reveal_strlit("</h1>");
            assert(t.opening_text().take(1 + t.tag_name().len() as int) =~= "<"@ + t.tag_name());
            assert(t.closing_text().unwrap() =~= "</"@ + t.tag_name() + ">"@);
        },
        Tags::H2 => {
            reveal_strlit("<h2");
            reveal_strlit("h2");
            reveal_strlit("</h2>");
            assert(t.opening_text().take(1 + t.tag_name().len() as int) =~= "<"@ + t.tag_name());
            assert(t.closing_text().unwrap() =~= "</"@ + t.tag_name() + ">"@);
        },
        Tags::H3 => {
            reveal_strlit("<h3");
            reveal_strlit("h3");
            reveal_strlit("</h3>");
            assert(t.opening_text().take(1 + t.tag_name().len() as int) =~= "<"@ + t.tag_name());
            assert(t.closing_text().unwrap() =~= "</"@ + t.tag_name() + ">"@);
        },
        Tags::H4 => {
            reveal_strlit("<h4");
            reveal_strlit("h4");
            reveal_strlit("</h4>");
            assert(t.opening_text().take(1 + t.tag_name().len() as int) =~= "<"@ + t.tag_name());
            assert(t.closing_text().unwrap() =~= "</"@ + t.tag_name() + ">"@);
        },
        Tags::H5 => {
            reveal_strlit("<h5");
            reveal_strlit("h5");
            reveal_strlit("</h5>");
            assert(t.opening_text().take(1 + t.tag_name().len() as int) =~= "<"@ + t.tag_name());
            assert(t.closing_text().unwrap() =~= "</"@ + t.tag_name() + ">"@);
        },
        Tags::H6 => {
            reveal_strlit("<h6");
            reveal_strlit("h6");
            reveal_strlit("</h6>");
            assert(t.opening_text().take(1 + t.tag_name().len() as int) =~= "<"@ + t.tag_name());
            assert(t.closing_text().unwrap() =~= "</"@ + t.tag_name() + ">"@);
        },
        Tags::Ol => {
            reveal_strlit("<ol");
            reveal_strlit("ol");
            reveal_strlit("</ol>");
            assert(t.opening_text().take(1 + t.tag_name().len() as int) =~= "<"@ + t.tag_name());
            assert(t.closing_text().unwrap() =~= "</"@ + t.tag_name() + ">"@);
        },
        Tags::Ul => {
            reveal_strlit("<ul");
            reveal_strlit("ul");
            reveal_strlit("</ul>");
            assert(t.opening_text().take(1 + t.tag_name().len() as int) =~= "<"@ + t.tag_name());
            assert(t.closing_text().unwrap() =~= "</"@ + t.tag_name() + ">"@);
        },
        Tags::Li => {
            reveal_strlit("<li");
            reveal_strlit("li");
            reveal_strlit("</li>");
            assert(t.opening_text().take(1 + t.tag_name().len() as int) =~= "<"@ + t.tag_name());
            assert(t.closing_text().unwrap() =~= "</"@ + t.tag_name() + ">"@);
        },
        Tags::Br => {
            reveal_strlit("<br");
            reveal_strlit("br");
            assert(t.opening_text().take(1 + t.tag_name().len() as int) =~= "<"@ + t.tag_name());
        },
        Tags::Span => {
            reveal_strlit("<span");
            reveal_strlit("span");
            reveal_strlit("</span>");
            assert(t.opening_text().take(1 + t.tag_name().len() as int) =~= "<"@ + t.tag_name());
            assert(t.closing_text().unwrap() =~= "</"@ + t.tag_name() + ">"@);
        },
        Tags::Img => {
            reveal_strlit("<img alt=\"\"");
            reveal_strlit("img");
            assert(t.opening_text().take(1 + t.tag_name().len() as int) =~= "<"@ + t.tag_name());
        },
        Tags::A => {
            reveal_strlit("<a");
            reveal_strlit("a");
            reveal_strlit("</a>");
            assert(t.opening_text().take(1 + t.tag_name().len() as int) =~= "<"@ + t.tag_name());
            assert(t.closing_text().unwrap() =~= "</"@ + t.tag_name() + ">"@);
        },
        Tags::Button => {
            reveal_strlit("<button");
            reveal_strlit("button");
            reveal_strlit("</button>");
            assert(t.opening_text().take(1 + t.tag_name().len() as int) =~= "<"@ + t.tag_name());
            assert(t.closing_text().unwrap() =~= "</"@ + t.tag_name() + ">"@);
        },
        Tags::Input => {
            reveal_strlit("<input");
            reveal_strlit("input");
            assert(t.opening_text().take(1 + t.tag_name().len() as int) =~= "<"@ + t.tag_name());
        },
        Tags::Textarea => {
            reveal_strlit("<textarea");
            reveal_strlit("textarea");
            reveal_strlit("</textarea>");
            assert(t.opening_text().take(1 + t.tag_name().len() as int) =~= "<"@ + t.tag_name());
            assert(t.closing_text().unwrap() =~= "</"@ + t.tag_name() + ">"@);
        },
        Tags::Select => {
            reveal_strlit("<select");
            reveal_strlit("select");
            reveal_strlit("</select>");
            assert(t.opening_text().take(1 + t.tag_name().len() as int) =~= "<"@ + t.tag_name());
            assert(t.closing_text().unwrap() =~= "</"@ + t.tag_name() + ">"@);
        },
        Tags::Opt => {
            reveal_strlit("<option");
            reveal_strlit("option");
            reveal_strlit("</option>");
            assert(t.opening_text().take(1 + t.tag_name().len() as int) =~= "<"@ + t.tag_name());
            assert(t.closing_text().unwrap() =~= "</"@ + t.tag_name() + ">"@);
        },
        Tags::Meta => {
            reveal_strlit("<meta");
            reveal_strlit("meta");
            assert(t.opening_text().take(1 + t.tag_name().len() as int) =~= "<"@ + t.tag_name());
        },
        Tags::Label => {
            reveal_strlit("<label");
            reveal_strlit("label");
            reveal_strlit("</label>");
            assert(t.opening_text().take(1 + t.tag_name().len() as int) =~= "<"@ + t.tag_name());
            assert(t.closing_text().unwrap() =~= "</"@ + t.tag_name() + ">"@);
        },
        Tags::Title => {
            reveal_strlit("<title");
            reveal_strlit("title");
            reveal_strlit("</title>");
            assert(t.opening_text().take(1 + t.tag_name().len() as int) =~= "<"@ + t.tag_name());
            assert(t.closing_text().unwrap() =~= "</"@ + t.tag_name() + ">"@);
        },
        Tags::Link => {
            reveal_strlit("<link");
            reveal_strlit("link");
            assert(t.opening_text().take(1 + t.tag_name().len() as int) =~= "<"@ + t.tag_name());
        },
        Tags::Script => {
            reveal_strlit("<script");
            reveal_strlit("script");
            reveal_strlit("</script>");
            assert(t.opening_text().take(1 + t.tag_name().len() as int) =~= "<"@ + t.tag_name());
            assert(t.closing_text().unwrap() =~= "</"@ + t.tag_name() + ">"@);
        },
        Tags::Style => {
            reveal_strlit("<style");
            reveal_strlit("style");
            reveal_strlit("</style>");
            assert(t.opening_text().take(1 + t.tag_name().len() as int) =~= "<"@ + t.tag_name());
            assert(t.closing_text().unwrap() =~= "</"@ + t.tag_name() + ">"@);
        },
        Tags::Pre => {
            reveal_strlit("<pre");
            reveal_strlit("pre");
            reveal_strlit("</pre>");
            assert(t.opening_text().take(1 + t.tag_name().len() as int) =~= "<"@ + t.tag_name());
            assert(t.closing_text().unwrap() =~= "</"@ + t.tag_name() + ">"@);
        },
        Tags::Code => {
            reveal_strlit("<code");
            reveal_strlit("code");
            reveal_strlit("</code>");
            assert(t.opening_text().take(1 + t.tag_name().len() as int) =~= "<"@ + t.tag_name());
            assert(t.closing_text().unwrap() =~= "</"@ + t.tag_name() + ">"@);
        },
        Tags::Any => {
            reveal_strlit("");
        },
    }
}

/// No opening or closing text of a tag holds a line break.
pub proof fn lemma_tag_texts_single_line(t: Tags)
    ensures
        forall|j: int| 0 <= j < t.opening_text().len() ==> t.opening_text()[j] != '\n',
        t.closing_text() matches Some(c) ==> forall|j: int| 0 <= j < c.len() ==> c[j] != '\n',
{
    match t {
        Tags::Html => {
            reveal_strlit("<html");
            reveal_strlit("</html>");
        },
        Tags::Head => {
            reveal_strlit("<head");
            reveal_strlit("</head>");
        },
        Tags::Body => {
            reveal_strlit("<body");
            reveal_strlit("</body>");
        },
        Tags::Svg => {
            reveal_strlit("<svg xmlns=\"http://www.w3.org/2000/svg\" xmlns:xlink=\"http://www.w3.org/1999/xlink\"");
            reveal_strlit("</svg>");
        },
        Tags::Path => {
            reveal_strlit("<path");
            reveal_strlit("</path>");
        },
        Tags::Div => {
            reveal_strlit("<div");
            reveal_strlit("</div>");
        },
        Tags::Table => {
            reveal_strlit("<table");
            reveal_strlit("</table>");
        },
        Tags::Thead => {
            reveal_strlit("<thead");
            reveal_strlit("</thead>");
        },
        Tags::Tbody => {
            reveal_strlit("<tbody");
            reveal_strlit("</tbody>");
        },
        Tags::Tr => {
            reveal_strlit("<tr");
            reveal_strlit("</tr>");
        },
        Tags::Td => {
            reveal_strlit("<td");
            reveal_strlit("</td>");
        },
        Tags::Form => {
            reveal_strlit("<form");
            reveal_strlit("</form>");
        },
        Tags::Iframe => {
            reveal_strlit("<iframe");
            reveal_strlit("</iframe>");
        },
        Tags::P => {
            reveal_strlit("<p");
            reveal_strlit("</p>");
        },
        Tags::H1 => {
            reveal_strlit("<h1");
            reveal_strlit("</h1>");
        },
        Tags::H2 => {
            reveal_strlit("<h2");
            reveal_strlit("</h2>");
        },
        Tags::H3 => {
            reveal_strlit("<h3");
            reveal_strlit("</h3>");
        },
        Tags::H4 => {
            reveal_strlit("<h4");
            reveal_strlit("</h4>");
        },
        Tags::H5 => {
            reveal_strlit("<h5");
            reveal_strlit("</h5>");
        },
        Tags::H6 => {
            reveal_strlit("<h6");
            reveal_strlit("</h6>");
        },
        Tags::Ol => {
            reveal_strlit("<ol");
            reveal_strlit("</ol>");
        },
        Tags::Ul => {
            reveal_strlit("<ul");
            reveal_strlit("</ul>");
        },
        Tags::Li => {
            reveal_strlit("<li");
            reveal_strlit("</li>");
        },
        Tags::Br => {
            reveal_strlit("<br");
        },
        Tags::Span => {
            reveal_strlit("<span");
            reveal_strlit("</span>");
        },
        Tags::Img => {
            reveal_strlit("<img alt=\"\"");
        },
        Tags::A => {
            reveal_strlit("<a");
            reveal_strlit("</a>");
        },
        Tags::Button => {
            reveal_strlit("<button");
            reveal_strlit("</button>");
        },
        Tags::Input => {
            reveal_strlit("<input");
        },
        Tags::Textarea => {
            reveal_strlit("<textarea");
            reveal_strlit("</textarea>");
        },
        Tags::Select => {
            reveal_strlit("<select");
            reveal_strlit("</select>");
        },
        Tags::Opt => {
            reveal_strlit("<option");
            reveal_strlit("</option>");
        },
        Tags::Meta => {
            reveal_strlit("<meta");
        },
        Tags::Label => {
            reveal_strlit("<label");
            reveal_strlit("</label>");
        },
        Tags::Title => {
            reveal_strlit("<title");
            reveal_strlit("</title>");
        },
        Tags::Link => {
            reveal_strlit("<link");
        },
        Tags::Script => {
            reveal_strlit("<script");
            reveal_strlit("</script>");
        },
        Tags::Style => {
            reveal_strlit("<style");
            reveal_strlit("</style>");
        },
        Tags::Pre => {
            reveal_strlit("<pre");
            reveal_strlit("</pre>");
        },
        Tags::Code => {
            reveal_strlit("<code");
            reveal_strlit("</code>");
        },
        Tags::Any => {
            reveal_strlit("");
        },
    }
}

} // verus!
