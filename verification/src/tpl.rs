//! Runtime templates with `{}` placeholders.

use std::fmt;

use vstd::prelude::*;

use crate::escape::escape;
use crate::sink::{lemma_prefix_append, lemma_prefix_trans, lemma_stop, put, put_escaped, wrote, Sink};
use crate::text::{chars_of, push_char, push_str, strings_view};

verus! {

/// HTML that the caller vouches for; it is inserted without escaping.
#[derive(Debug, Clone, PartialEq, Eq)]
pub struct SafeHtml(String);

impl View for SafeHtml {
    type V = Seq<char>;

    closed spec fn view(&self) -> Seq<char> {
        self.0@
    }
}

impl SafeHtml {
    /// Wraps `html` without checking or escaping it.
    pub fn new_unchecked(html: String) -> (r: Self)
        ensures
            r@ == html@,
    {
        SafeHtml(html)
    }

    /// The wrapped HTML.
    pub fn into_string(self) -> (r: String)
        ensures
            r@ == self@,
    {
        self.0
    }

    /// The wrapped HTML.
    pub fn as_str(&self) -> (r: &str)
        ensures
            r@ == self@,
    {
        self.0.as_str()
    }
}

impl AsRef<str> for SafeHtml {
    fn as_ref(&self) -> (r: &str)
        ensures
            r@ == self@,
    {
        self.as_str()
    }
}

impl From<SafeHtml> for String {
    fn from(value: SafeHtml) -> (r: String)
        ensures
            r@ == value@,
    {
        value.0
    }
}

impl vstd::std_specs::convert::FromSpecImpl<SafeHtml> for String {
    open spec fn obeys_from_spec() -> bool {
        true
    }

    closed spec fn from_spec(v: SafeHtml) -> String {
        v.0
    }
}

/// One value for a template slot: text to escape, or trusted HTML.
pub enum TplArg<'a> {
    Text(&'a str),
    Html(&'a SafeHtml),
}

/// What a template argument contributes to the output.
pub open spec fn arg_text(a: TplArg) -> Seq<char> {
    match a {
        TplArg::Text(t) => escape(t@),
        TplArg::Html(h) => h@,
    }
}

/// The pieces of a template: the text before, between and after the `{}`
/// placeholders, scanned from the left.
pub open spec fn split_template(s: Seq<char>) -> Seq<Seq<char>>
    decreases s.len(),
{
    if s.len() < 2 {
        seq![s]
    } else if s[0] == '{' && s[1] == '}' {
        seq![Seq::<char>::empty()] + split_template(s.skip(2))
    } else {
        let r = split_template(s.skip(1));
        r.update(0, seq![s[0]] + r[0])
    }
}

/// A template has at least one piece.
pub proof fn lemma_split_template_nonempty(s: Seq<char>)
    ensures
        split_template(s).len() >= 1,
    decreases s.len(),
{
    if s.len() >= 2 {
        if s[0] == '{' && s[1] == '}' {
            lemma_split_template_nonempty(s.skip(2));
        } else {
            lemma_split_template_nonempty(s.skip(1));
        }
    }
}

/// `pieces` with `c` in front of its first piece.
pub open spec fn prefix_first(c: Seq<char>, pieces: Seq<Seq<char>>) -> Seq<Seq<char>> {
    pieces.update(0, c + pieces[0])
}

/// The first `k` pieces, each followed by the value of its slot where the
/// piece is not the last one and there is a value for it.
pub open spec fn fill_upto(subs: Seq<Seq<char>>, vals: Seq<Seq<char>>, k: int) -> Seq<char>
    decreases k,
{
    if k <= 0 {
        seq![]
    } else {
        fill_upto(subs, vals, k - 1) + subs[k - 1] + (if k - 1 < vals.len() && k < subs.len() {
            vals[k - 1]
        } else {
            seq![]
        })
    }
}

/// The template `subs` with its slots filled by `vals`: missing values
/// leave a slot empty, extra values are ignored.
pub open spec fn fill(subs: Seq<Seq<char>>, vals: Seq<Seq<char>>) -> Seq<char> {
    fill_upto(subs, vals, subs.len() as int)
}

/// The first `k` filled pieces begin the first `m`, for `k <= m`.
proof fn lemma_fill_upto_prefix(subs: Seq<Seq<char>>, vals: Seq<Seq<char>>, k: int, m: int)
    requires
        0 <= k <= m,
    ensures
        fill_upto(subs, vals, k).is_prefix_of(fill_upto(subs, vals, m)),
    decreases m - k,
{
    if k == m {
        lemma_prefix_append(fill_upto(subs, vals, k), seq![]);
        assert(fill_upto(subs, vals, k) + seq![] =~= fill_upto(subs, vals, k));
    } else {
        lemma_fill_upto_prefix(subs, vals, k, m - 1);
        let slot = if m - 1 < vals.len() && m < subs.len() {
            vals[m - 1]
        } else {
            seq![]
        };
        lemma_prefix_append(fill_upto(subs, vals, m - 1), subs[m - 1] + slot);
        assert(fill_upto(subs, vals, m) =~= fill_upto(subs, vals, m - 1) + (subs[m - 1] + slot));
        lemma_prefix_trans(fill_upto(subs, vals, k), fill_upto(subs, vals, m - 1), fill_upto(subs, vals, m));
    }
}

/// Up to and including piece `n`, and up to its slot, the filled text
/// begins the whole filled template.
proof fn lemma_fill_piece_prefix(subs: Seq<Seq<char>>, vals: Seq<Seq<char>>, n: int)
    requires
        0 <= n < subs.len(),
    ensures
        (fill_upto(subs, vals, n) + subs[n]).is_prefix_of(fill(subs, vals)),
        fill_upto(subs, vals, n + 1).is_prefix_of(fill(subs, vals)),
{
    lemma_fill_upto_prefix(subs, vals, n + 1, subs.len() as int);
    let slot = if n < vals.len() && n + 1 < subs.len() {
        vals[n]
    } else {
        seq![]
    };
    lemma_prefix_append(fill_upto(subs, vals, n) + subs[n], slot);
    assert(fill_upto(subs, vals, n + 1) == fill_upto(subs, vals, n) + subs[n] + slot);
    lemma_prefix_trans(fill_upto(subs, vals, n) + subs[n], fill_upto(subs, vals, n + 1), fill(subs, vals));
}

/// The texts of `text`, escaped.
pub open spec fn escaped_vals(text: Seq<&str>) -> Seq<Seq<char>> {
    text.map_values(|t: &str| escape(t@))
}

/// The texts of `text`, as they are.
pub open spec fn raw_vals(text: Seq<&str>) -> Seq<Seq<char>> {
    text.map_values(|t: &str| t@)
}

/// What each template argument contributes.
pub open spec fn mixed_vals(args: Seq<TplArg>) -> Seq<Seq<char>> {
    args.map_values(|a: TplArg| arg_text(a))
}

/// The pieces joined together with `sep` between them.
pub open spec fn join_with(pieces: Seq<Seq<char>>, sep: Seq<char>) -> Seq<char>
    decreases pieces.len(),
{
    if pieces.len() == 0 {
        seq![]
    } else if pieces.len() == 1 {
        pieces[0]
    } else {
        pieces[0] + sep + join_with(pieces.drop_first(), sep)
    }
}

/// The text `s` with every `{}` placeholder, scanned from the left,
/// replaced by `v`.
pub open spec fn replace_placeholders(s: Seq<char>, v: Seq<char>) -> Seq<char>
    decreases s.len(),
{
    if s.len() < 2 {
        s
    } else if s[0] == '{' && s[1] == '}' {
        v + replace_placeholders(s.skip(2), v)
    } else {
        seq![s[0]] + replace_placeholders(s.skip(1), v)
    }
}

/// The text `s` with its `{}` placeholders, scanned from the left, removed.
pub open spec fn strip_placeholders(s: Seq<char>) -> Seq<char> {
    replace_placeholders(s, Seq::empty())
}

proof fn lemma_join_prefix_first(x: Seq<char>, pieces: Seq<Seq<char>>, sep: Seq<char>)
    requires
        pieces.len() >= 1,
    ensures
        join_with(prefix_first(x, pieces), sep) == x + join_with(pieces, sep),
{
    let q = prefix_first(x, pieces);
    if pieces.len() > 1 {
        assert(q.drop_first() =~= pieces.drop_first());
        assert(join_with(q, sep) =~= x + join_with(pieces, sep));
    }
}

/// Joining the pieces of a template with `v` is the same as putting `v`
/// in place of each of its placeholders.
pub proof fn lemma_join_pieces_replaces(s: Seq<char>, v: Seq<char>)
    ensures
        join_with(split_template(s), v) == replace_placeholders(s, v),
    decreases s.len(),
{
    if s.len() >= 2 {
        if s[0] == '{' && s[1] == '}' {
            let r = split_template(s.skip(2));
            lemma_join_pieces_replaces(s.skip(2), v);
            lemma_split_template_nonempty(s.skip(2));
            let q = seq![Seq::<char>::empty()] + r;
            assert(q.drop_first() =~= r);
            assert(join_with(q, v) =~= replace_placeholders(s, v));
        } else {
            let r = split_template(s.skip(1));
            lemma_join_pieces_replaces(s.skip(1), v);
            lemma_split_template_nonempty(s.skip(1));
            lemma_join_prefix_first(seq![s[0]], r, v);
        }
    }
}

/// Putting `{}` back in place of each placeholder changes nothing.
proof fn lemma_replace_by_braces(s: Seq<char>)
    ensures
        replace_placeholders(s, "{}"@) == s,
    decreases s.len(),
{
    reveal_strlit("{}");
    if s.len() >= 2 {
        if s[0] == '{' && s[1] == '}' {
            lemma_replace_by_braces(s.skip(2));
            assert("{}"@ + s.skip(2) =~= s);
        } else {
            lemma_replace_by_braces(s.skip(1));
            assert(seq![s[0]] + s.skip(1) =~= s);
        }
    }
}

/// Parsing loses nothing: joining the pieces of a template with `{}` gives
/// back the template text.
pub proof fn lemma_template_roundtrip(s: Seq<char>)
    ensures
        join_with(split_template(s), "{}"@) == s,
{
    lemma_join_pieces_replaces(s, "{}"@);
    lemma_replace_by_braces(s);
}

/// The value for slot `n`, or nothing where there is none.
pub open spec fn slot_val(vals: Seq<Seq<char>>, n: int) -> Seq<char> {
    if 0 <= n < vals.len() {
        vals[n]
    } else {
        seq![]
    }
}

/// Two value lists that agree on every slot fill a template alike.
proof fn lemma_fill_upto_agree(
    subs: Seq<Seq<char>>,
    a: Seq<Seq<char>>,
    b: Seq<Seq<char>>,
    k: int,
)
    requires
        k <= subs.len(),
        forall|n: int|
            0 <= n < subs.len() - 1 ==> slot_val(a, n) == #[trigger] slot_val(b, n),
    ensures
        fill_upto(subs, a, k) == fill_upto(subs, b, k),
    decreases k,
{
    if k > 0 {
        lemma_fill_upto_agree(subs, a, b, k - 1);
        if k < subs.len() {
            let n = k - 1;
            assert(slot_val(a, n) == slot_val(b, n));
        }
    }
}

/// Extra values are ignored: only as many values as the template has slots
/// are used.
pub proof fn lemma_fill_ignores_extra_values(subs: Seq<Seq<char>>, vals: Seq<Seq<char>>)
    requires
        subs.len() >= 1,
        vals.len() >= subs.len() - 1,
    ensures
        fill(subs, vals) == fill(subs, vals.take(subs.len() - 1)),
{
    let b = vals.take(subs.len() - 1);
    assert forall|n: int| 0 <= n < subs.len() - 1 implies slot_val(vals, n) == #[trigger] slot_val(b, n) by {}
    lemma_fill_upto_agree(subs, vals, b, subs.len() as int);
}

/// Missing values leave their slots empty: the same as empty values.
pub proof fn lemma_fill_missing_values_are_empty(
    subs: Seq<Seq<char>>,
    vals: Seq<Seq<char>>,
    m: nat,
)
    ensures
        fill(subs, vals) == fill(subs, vals + Seq::new(m, |j: int| Seq::<char>::empty())),
{
    let b = vals + Seq::new(m, |j: int| Seq::<char>::empty());
    assert forall|n: int| 0 <= n < subs.len() - 1 implies slot_val(vals, n) == #[trigger] slot_val(b, n) by {
        if n >= vals.len() && n < b.len() {
            assert(b[n] == Seq::<char>::empty());
        }
    }
    lemma_fill_upto_agree(subs, vals, b, subs.len() as int);
}

/// A template without placeholders renders as its text, whatever the values.
pub proof fn lemma_fill_without_slots(s: Seq<char>, vals: Seq<Seq<char>>)
    requires
        split_template(s).len() == 1,
    ensures
        fill(split_template(s), vals) == s,
{
    lemma_template_roundtrip(s);
    assert(fill_upto(split_template(s), vals, 0) == Seq::<char>::empty());
    assert(fill(split_template(s), vals) =~= split_template(s)[0]);
}

/// The first `k` pieces, each with `v` after it, followed by the rest
/// joined with `v`, give the whole template joined with `v`.
proof fn lemma_fill_upto_uniform(subs: Seq<Seq<char>>, vals: Seq<Seq<char>>, v: Seq<char>, k: int)
    requires
        1 <= k < subs.len(),
        vals.len() >= subs.len() - 1,
        forall|n: int| 0 <= n < subs.len() - 1 ==> #[trigger] vals[n] == v,
    ensures
        fill_upto(subs, vals, k) + join_with(subs.skip(k), v) == join_with(subs, v),
    decreases k,
{
    let rest = subs.skip(k - 1);
    assert(rest.drop_first() =~= subs.skip(k));
    assert(rest[0] == subs[k - 1]);
    assert(vals[k - 1] == v);
    if k == 1 {
        assert(subs.skip(0) =~= subs);
        assert(fill_upto(subs, vals, 0) == Seq::<char>::empty());
        assert(fill_upto(subs, vals, 1) + join_with(subs.skip(1), v) =~= join_with(subs, v));
    } else {
        lemma_fill_upto_uniform(subs, vals, v, k - 1);
        assert(fill_upto(subs, vals, k) + join_with(subs.skip(k), v) =~= fill_upto(subs, vals, k - 1)
            + join_with(rest, v));
    }
}

/// Filling every slot with the same value `v` is joining the pieces with
/// `v`.
pub proof fn lemma_fill_uniform(subs: Seq<Seq<char>>, vals: Seq<Seq<char>>, v: Seq<char>)
    requires
        subs.len() >= 1,
        vals.len() >= subs.len() - 1,
        forall|n: int| 0 <= n < subs.len() - 1 ==> #[trigger] vals[n] == v,
    ensures
        fill(subs, vals) == join_with(subs, v),
{
    let n = subs.len() as int;
    if n == 1 {
        assert(fill_upto(subs, vals, 0) == Seq::<char>::empty());
        assert(fill(subs, vals) =~= subs[0]);
    } else {
        lemma_fill_upto_uniform(subs, vals, v, n - 1);
        let last = subs.skip(n - 1);
        assert(last =~= seq![subs[n - 1]]);
        assert(fill(subs, vals) =~= fill_upto(subs, vals, n - 1) + join_with(last, v));
    }
}

/// Filling every slot of a template with `{}` gives back the template text.
pub proof fn lemma_fill_with_braces(s: Seq<char>, vals: Seq<Seq<char>>)
    requires
        vals.len() >= split_template(s).len() - 1,
        forall|n: int| 0 <= n < split_template(s).len() - 1 ==> #[trigger] vals[n] == "{}"@,
    ensures
        fill(split_template(s), vals) == s,
{
    lemma_split_template_nonempty(s);
    lemma_fill_uniform(split_template(s), vals, "{}"@);
    lemma_template_roundtrip(s);
}

/// Filling a template with no values gives its text with the placeholders
/// removed.
pub proof fn lemma_fill_without_values(s: Seq<char>)
    ensures
        fill(split_template(s), seq![]) == strip_placeholders(s),
{
    let p = split_template(s);
    lemma_split_template_nonempty(s);
    let m = (p.len() - 1) as nat;
    let empties = Seq::new(m, |j: int| Seq::<char>::empty());
    lemma_fill_missing_values_are_empty(p, seq![], m);
    assert(Seq::<Seq<char>>::empty() + empties =~= empties);
    lemma_fill_uniform(p, empties, Seq::empty());
    lemma_join_pieces_replaces(s, Seq::empty());
}

/// Text arguments of a mixed render are escaped, as the plain render does.
pub proof fn lemma_mixed_text_is_escaped(args: Seq<TplArg>, text: Seq<&str>)
    requires
        args.len() == text.len(),
        forall|n: int| 0 <= n < args.len() ==> #[trigger] args[n] == TplArg::Text(text[n]),
    ensures
        mixed_vals(args) == escaped_vals(text),
{
    assert(mixed_vals(args) =~= escaped_vals(text));
}

/// HTML arguments of a mixed render are inserted as they are, as the raw
/// render does.
pub proof fn lemma_mixed_html_is_raw(args: Seq<TplArg>, text: Seq<&str>)
    requires
        args.len() == text.len(),
        forall|n: int|
            0 <= n < args.len() ==> (#[trigger] args[n] matches TplArg::Html(h) && h@ == text[n]@),
    ensures
        mixed_vals(args) == raw_vals(text),
{
    assert(mixed_vals(args) =~= raw_vals(text));
}

/// A template parsed once, filled many times.
pub struct Tpl {
    subs: Vec<String>,
}

impl View for Tpl {
    type V = Seq<Seq<char>>;

    closed spec fn view(&self) -> Seq<Seq<char>> {
        strings_view(self.subs@)
    }
}

impl Tpl {
    /// Parses `input`: every `{}` becomes a slot.
    pub fn new(input: &str) -> (r: Tpl)
        ensures
            r@ == split_template(input@),
    {
        let cs = chars_of(input);
        let n = cs.len();
        let mut subs: Vec<String> = Vec::new();
        let mut cur = String::new();
        let mut i: usize = 0;
        proof {
            lemma_split_template_nonempty(input@);
            assert(input@.skip(0) =~= input@);
            assert(prefix_first(cur@, split_template(input@)) =~= split_template(input@));
            assert(strings_view(subs@) + prefix_first(cur@, split_template(input@)) =~= split_template(input@));
        }
        while i < n
            invariant
                i <= n,
                n == cs@.len(),
                cs@ == input@,
                split_template(input@) == strings_view(subs@) + prefix_first(
                    cur@,
                    split_template(input@.skip(i as int)),
                ),
            decreases n - i,
        {
            let ghost rest = input@.skip(i as int);
            proof {
                lemma_split_template_nonempty(rest);
            }
            if i + 1 < n && cs[i] == '{' && cs[i + 1] == '}' {
                proof {
                    assert(rest[0] == '{' && rest[1] == '}');
                    assert(rest.skip(2) =~= input@.skip(i + 2));
                    lemma_split_template_nonempty(rest.skip(2));
                    assert(prefix_first(Seq::<char>::empty(), split_template(rest.skip(2))) =~= split_template(rest.skip(2)));
                    assert(prefix_first(cur@, split_template(rest)) =~= seq![cur@] + split_template(rest.skip(2)));
                    assert(strings_view(subs@.push(cur)) =~= strings_view(subs@).push(cur@));
                }
                subs.push(cur);
                cur = String::new();
                i = i + 2;
            } else {
                let c = cs[i];
                proof {
                    assert(rest[0] == c);
                    assert(rest.skip(1) =~= input@.skip(i + 1));
                    lemma_split_template_nonempty(rest.skip(1));
                    if rest.len() < 2 {
                        assert(rest =~= seq![c]);
                        assert(rest.skip(1) =~= Seq::<char>::empty());
                        assert(split_template(rest) == seq![rest]);
                        assert(prefix_first(cur@, split_template(rest)) =~~= prefix_first(cur@.push(c), split_template(rest.skip(1))));
                    } else {
                        let r = split_template(rest.skip(1));
                        assert(cur@ + (seq![c] + r[0]) =~= cur@.push(c) + r[0]);
                        assert(prefix_first(cur@, split_template(rest)) =~~= prefix_first(cur@.push(c), split_template(rest.skip(1))));
                    }
                }
                push_char(&mut cur, c);
                i = i + 1;
            }
        }
        proof {
            assert(input@.skip(i as int) =~= Seq::<char>::empty());
            assert(prefix_first(cur@, split_template(Seq::<char>::empty())) =~= seq![cur@]);
            assert(strings_view(subs@.push(cur)) =~= strings_view(subs@).push(cur@));
        }
        subs.push(cur);
        Tpl { subs }
    }

    /// Writes the template filled with the texts, escaped or as they are,
    /// piece by piece, stopping at the first piece the sink refuses.
    fn write_filled<W: fmt::Write>(&self, out: &mut Sink<W>, text: &[&str], escaped: bool) -> (r:
        Result<(), fmt::Error>)
        requires
            old(out).wf(),
            !old(out).failed(),
        ensures
            wrote(
                *old(out),
                *final(out),
                r,
                fill(
                    self@,
                    if escaped {
                        escaped_vals(text@)
                    } else {
                        raw_vals(text@)
                    },
                ),
            ),
    {
        let ghost vals = if escaped {
            escaped_vals(text@)
        } else {
            raw_vals(text@)
        };
        let ghost before = *out;
        let m = self.subs.len();
        for n in 0..m
            invariant
                m == self@.len(),
                vals == (if escaped {
                    escaped_vals(text@)
                } else {
                    raw_vals(text@)
                }),
                before == *old(out),
                !before.failed(),
                wrote(before, *out, Ok(()), fill_upto(self@, vals, n as int)),
        {
            let ghost done = fill_upto(self@, vals, n as int);
            proof {
                lemma_fill_piece_prefix(self@, vals, n as int);
            }
            let ghost mid = *out;
            let r = put(out, self.subs[n].as_str());
            if r.is_err() {
                proof {
                    lemma_stop(before, mid, *out, r, done, self@[n as int], fill(self@, vals));
                }
                return r;
            }
            if n < text.len() && n + 1 < m {
                let ghost mid = *out;
                assert(mid.sent() =~= before.sent() + (done + self@[n as int]));
                let r = if escaped {
                    put_escaped(out, text[n])
                } else {
                    put(out, text[n])
                };
                if r.is_err() {
                    proof {
                        lemma_stop(before, mid, *out, r, done + self@[n as int], vals[n as int], fill(self@, vals));
                    }
                    return r;
                }
            }
            assert(out.sent() =~= before.sent() + fill_upto(self@, vals, n + 1));
        }
        Ok(())
    }

    /// Writes the template filled with the arguments into `out`, piece by
    /// piece, stopping at the first piece the sink refuses.
    pub fn render_mixed_to<W: fmt::Write>(&self, out: &mut Sink<W>, args: &[TplArg<'_>]) -> (r: Result<
        (),
        fmt::Error,
    >)
        requires
            old(out).wf(),
            !old(out).failed(),
        ensures
            wrote(*old(out), *final(out), r, fill(self@, mixed_vals(args@))),
    {
        let ghost vals = mixed_vals(args@);
        let ghost before = *out;
        let m = self.subs.len();
        for n in 0..m
            invariant
                m == self@.len(),
                vals == mixed_vals(args@),
                before == *old(out),
                !before.failed(),
                wrote(before, *out, Ok(()), fill_upto(self@, vals, n as int)),
        {
            let ghost done = fill_upto(self@, vals, n as int);
            proof {
                lemma_fill_piece_prefix(self@, vals, n as int);
            }
            let ghost mid = *out;
            let r = put(out, self.subs[n].as_str());
            if r.is_err() {
                proof {
                    lemma_stop(before, mid, *out, r, done, self@[n as int], fill(self@, vals));
                }
                return r;
            }
            if n < args.len() && n + 1 < m {
                let ghost mid = *out;
                assert(mid.sent() =~= before.sent() + (done + self@[n as int]));
                let r = match &args[n] {
                    TplArg::Text(t) => put_escaped(out, t),
                    TplArg::Html(h) => put(out, h.as_str()),
                };
                if r.is_err() {
                    proof {
                        lemma_stop(before, mid, *out, r, done + self@[n as int], vals[n as int], fill(self@, vals));
                    }
                    return r;
                }
            }
            assert(out.sent() =~= before.sent() + fill_upto(self@, vals, n + 1));
        }
        Ok(())
    }

    /// Writes the template filled with the texts, escaped, into `out`, piece
    /// by piece, stopping at the first piece the sink refuses.
    pub fn render_to<W: fmt::Write>(&self, out: &mut Sink<W>, text: &[&str]) -> (r: Result<
        (),
        fmt::Error,
    >)
        requires
            old(out).wf(),
            !old(out).failed(),
        ensures
            wrote(*old(out), *final(out), r, fill(self@, escaped_vals(text@))),
    {
        self.write_filled(out, text, true)
    }

    /// Writes the template filled with the texts as they are into `out`,
    /// piece by piece, stopping at the first piece the sink refuses.
    pub fn render_raw_to<W: fmt::Write>(&self, out: &mut Sink<W>, text: &[&str]) -> (r: Result<
        (),
        fmt::Error,
    >)
        requires
            old(out).wf(),
            !old(out).failed(),
        ensures
            wrote(*old(out), *final(out), r, fill(self@, raw_vals(text@))),
    {
        self.write_filled(out, text, false)
    }

    /// Fills the slots with the texts, escaped, as trusted HTML.
    pub fn render_safe_html(&self, text: &[&str]) -> (r: SafeHtml)
        ensures
            r@ == fill(self@, escaped_vals(text@)),
    {
        SafeHtml(self.render(text))
    }

    /// Appends the template filled with the texts, escaped.
    pub fn render_safe_html_into(&self, out: &mut String, text: &[&str])
        ensures
            final(out)@ == old(out)@ + fill(self@, escaped_vals(text@)),
    {
        let mut held = String::new();
        std::mem::swap(&mut held, out);
        let mut sink: Sink<String> = Sink::text_from(held);
        let _ = self.write_filled(&mut sink, text, true);
        let mut filled = sink.into_text();
        std::mem::swap(out, &mut filled);
    }

    /// Fills the slots with the arguments: text is escaped, trusted HTML is
    /// inserted as it is.
    pub fn render_mixed(&self, args: &[TplArg<'_>]) -> (r: String)
        ensures
            r@ == fill(self@, mixed_vals(args@)),
    {
        let mut sink: Sink<String> = Sink::text();
        let _ = self.render_mixed_to(&mut sink, args);
        sink.into_text()
    }

    /// Writes the template filled with the arguments into `out`, piece by
    /// piece; the first error of the writer stops it and is returned.
    pub fn render_mixed_into<W: fmt::Write>(&self, out: &mut W, args: &[TplArg<'_>]) -> Result<
        (),
        fmt::Error,
    > {
        let mut sink = Sink::writer(out);
        self.render_mixed_to(&mut sink, args)
    }

    /// Fills the slots with the arguments, as trusted HTML.
    pub fn render_mixed_safe_html(&self, args: &[TplArg<'_>]) -> (r: SafeHtml)
        ensures
            r@ == fill(self@, mixed_vals(args@)),
    {
        SafeHtml(self.render_mixed(args))
    }

    /// Fills the slots with the texts, escaped.
    pub fn render(&self, text: &[&str]) -> (r: String)
        ensures
            r@ == fill(self@, escaped_vals(text@)),
    {
        let mut sink: Sink<String> = Sink::text();
        let _ = self.write_filled(&mut sink, text, true);
        sink.into_text()
    }

    /// Fills the slots with the texts as they are, without escaping.
    pub fn render_raw(&self, text: &[&str]) -> (r: String)
        ensures
            r@ == fill(self@, raw_vals(text@)),
    {
        let mut sink: Sink<String> = Sink::text();
        let _ = self.write_filled(&mut sink, text, false);
        sink.into_text()
    }

    /// Writes the template filled with the texts, escaped, into `out`, piece
    /// by piece; the first error of the writer stops it and is returned.
    pub fn render_into<W: fmt::Write>(&self, out: &mut W, text: &[&str]) -> Result<(), fmt::Error> {
        let mut sink = Sink::writer(out);
        self.render_to(&mut sink, text)
    }

    /// Writes the template filled with the texts as they are into `out`,
    /// piece by piece; the first error of the writer stops it and is
    /// returned.
    pub fn render_raw_into<W: fmt::Write>(&self, out: &mut W, text: &[&str]) -> Result<
        (),
        fmt::Error,
    > {
        let mut sink = Sink::writer(out);
        self.render_raw_to(&mut sink, text)
    }
}

} // verus!
