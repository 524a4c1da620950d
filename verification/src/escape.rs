//! HTML escaping of text and attribute values.

use vstd::prelude::*;

use crate::text::{push_char, push_str};

verus! {

/// The characters that are replaced by an entity when escaped.
pub open spec fn is_special(c: char) -> bool {
    c == '&' || c == '<' || c == '>' || c == '"' || c == '\''
}

/// Whether `s` holds none of `<`, `>`, `"` and `'`: it can neither open or
/// close a tag nor end a quoted attribute value.
pub open spec fn markup_free(s: Seq<char>) -> bool {
    forall|j: int| 0 <= j < s.len() ==> !(#[trigger] s[j] == '<' || s[j] == '>' || s[j] == '"' || s[j] == '\'')
}

/// What a single character becomes once escaped.
pub open spec fn escape_char(c: char) -> Seq<char> {
    if c == '&' {
        "&amp;"@
    } else if c == '<' {
        "&lt;"@
    } else if c == '>' {
        "&gt;"@
    } else if c == '"' {
        "&quot;"@
    } else if c == '\'' {
        "&#39;"@
    } else {
        seq![c]
    }
}

/// The escaped form of `s`: every character replaced by its escape.
pub open spec fn escape(s: Seq<char>) -> Seq<char>
    decreases s.len(),
{
    if s.len() == 0 {
        seq![]
    } else {
        escape(s.drop_last()) + escape_char(s.last())
    }
}

/// Escaping distributes over concatenation.
pub proof fn lemma_escape_append(a: Seq<char>, b: Seq<char>)
    ensures
        escape(a + b) == escape(a) + escape(b),
    decreases b.len(),
{
    if b.len() == 0 {
        assert(a + b =~= a);
        assert(escape(b) =~= seq![]);
        assert(escape(a) + escape(b) =~= escape(a));
    } else {
        assert((a + b).drop_last() =~= a + b.drop_last());
        assert((a + b).last() == b.last());
        lemma_escape_append(a, b.drop_last());
        assert(escape(a + b) =~= escape(a) + escape(b.drop_last()) + escape_char(b.last()));
    }
}

proof fn lemma_escape_char_has_no_markup(c: char)
    ensures
        markup_free(escape_char(c)),
{
    reveal_strlit("&amp;");
    reveal_strlit("&lt;");
    reveal_strlit("&gt;");
    reveal_strlit("&quot;");
    reveal_strlit("&#39;");
}

/// Escaped text holds none of the characters `<`, `>`, `"` and `'`: it can
/// neither open or close a tag nor end a quoted attribute value.
pub proof fn lemma_escape_has_no_markup(s: Seq<char>)
    ensures
        markup_free(escape(s)),
    decreases s.len(),
{
    if s.len() > 0 {
        lemma_escape_has_no_markup(s.drop_last());
        lemma_escape_char_has_no_markup(s.last());
        let a = escape(s.drop_last());
        let b = escape_char(s.last());
        assert forall|j: int| 0 <= j < escape(s).len() implies !(#[trigger] escape(s)[j] == '<'
            || escape(s)[j] == '>' || escape(s)[j] == '"' || escape(s)[j] == '\'') by {
            if j < a.len() {
                assert(escape(s)[j] == a[j]);
            } else {
                assert(escape(s)[j] == b[j - a.len()]);
            }
        }
    }
}

/// Joining markup-free texts gives a markup-free text.
pub proof fn lemma_markup_free_append(a: Seq<char>, b: Seq<char>)
    requires
        markup_free(a),
        markup_free(b),
    ensures
        markup_free(a + b),
{
    assert forall|j: int| 0 <= j < (a + b).len() implies !(#[trigger] (a + b)[j] == '<' || (a
        + b)[j] == '>' || (a + b)[j] == '"' || (a + b)[j] == '\'') by {
        if j < a.len() {
            assert((a + b)[j] == a[j]);
        } else {
            assert((a + b)[j] == b[j - a.len()]);
        }
    }
}

/// Text without special characters is left as it is.
pub proof fn lemma_escape_plain(s: Seq<char>)
    requires
        forall|j: int| 0 <= j < s.len() ==> !is_special(#[trigger] s[j]),
    ensures
        escape(s) == s,
    decreases s.len(),
{
    if s.len() > 0 {
        lemma_escape_plain(s.drop_last());
        assert(!is_special(s[s.len() - 1]));
        assert(s.drop_last().push(s.last()) =~= s);
    }
}

/// Whether `t` begins with `p`.
pub open spec fn starts_with(t: Seq<char>, p: Seq<char>) -> bool {
    p.len() <= t.len() && t.take(p.len() as int) == p
}

/// The character that the entity at the start of `t` stands for, and the
/// entity's length, for the five entities that escaping writes.
pub open spec fn leading_entity(t: Seq<char>) -> Option<(char, int)> {
    if starts_with(t, "&amp;"@) {
        Some(('&', 5))
    } else if starts_with(t, "&lt;"@) {
        Some(('<', 4))
    } else if starts_with(t, "&gt;"@) {
        Some(('>', 4))
    } else if starts_with(t, "&quot;"@) {
        Some(('"', 6))
    } else if starts_with(t, "&#39;"@) {
        Some(('\'', 5))
    } else {
        None
    }
}

/// Decodes the five entities that escaping writes, scanning from the left.
pub open spec fn unescape(t: Seq<char>) -> Seq<char>
    decreases t.len(),
{
    if t.len() == 0 {
        seq![]
    } else {
        match leading_entity(t) {
            Some((c, n)) => if 0 < n <= t.len() {
                seq![c] + unescape(t.skip(n))
            } else {
                seq![t[0]] + unescape(t.skip(1))
            },
            None => seq![t[0]] + unescape(t.skip(1)),
        }
    }
}

proof fn lemma_unescape_step(c: char, x: Seq<char>)
    ensures
        unescape(escape_char(c) + x) == seq![c] + unescape(x),
{
    reveal_strlit("&amp;");
    reveal_strlit("&lt;");
    reveal_strlit("&gt;");
    reveal_strlit("&quot;");
    reveal_strlit("&#39;");
    let t = escape_char(c) + x;
    let e = escape_char(c);
    assert(t.take(e.len() as int) =~= e);
    assert(t.skip(e.len() as int) =~= x);
    if c == '&' {
        assert(starts_with(t, "&amp;"@));
    } else if c == '<' {
        assert(t[1] == 'l');
        assert(!starts_with(t, "&amp;"@)) by {
            if "&amp;"@.len() <= t.len() {
                assert(t.take(5)[1] != "&amp;"@[1]);
            }
        }
        assert(starts_with(t, "&lt;"@));
    } else if c == '>' {
        assert(!starts_with(t, "&amp;"@)) by {
            if "&amp;"@.len() <= t.len() {
                assert(t.take(5)[1] != "&amp;"@[1]);
            }
        }
        assert(!starts_with(t, "&lt;"@)) by {
            assert(t.take(4)[1] != "&lt;"@[1]);
        }
        assert(starts_with(t, "&gt;"@));
    } else if c == '"' {
        assert(!starts_with(t, "&amp;"@)) by {
            assert(t.take(5)[1] != "&amp;"@[1]);
        }
        assert(!starts_with(t, "&lt;"@)) by {
            assert(t.take(4)[1] != "&lt;"@[1]);
        }
        assert(!starts_with(t, "&gt;"@)) by {
            assert(t.take(4)[1] != "&gt;"@[1]);
        }
        assert(starts_with(t, "&quot;"@));
    } else if c == '\'' {
        assert(!starts_with(t, "&amp;"@)) by {
            assert(t.take(5)[1] != "&amp;"@[1]);
        }
        assert(!starts_with(t, "&lt;"@)) by {
            assert(t.take(4)[1] != "&lt;"@[1]);
        }
        assert(!starts_with(t, "&gt;"@)) by {
            assert(t.take(4)[1] != "&gt;"@[1]);
        }
        assert(!starts_with(t, "&quot;"@)) by {
            if "&quot;"@.len() <= t.len() {
                assert(t.take(6)[1] != "&quot;"@[1]);
            }
        }
        assert(starts_with(t, "&#39;"@));
    } else {
        assert(t[0] == c);
        assert(!starts_with(t, "&amp;"@)) by {
            if "&amp;"@.len() <= t.len() {
                assert(t.take(5)[0] != "&amp;"@[0]);
            }
        }
        assert(!starts_with(t, "&lt;"@)) by {
            if "&lt;"@.len() <= t.len() {
                assert(t.take(4)[0] != "&lt;"@[0]);
            }
        }
        assert(!starts_with(t, "&gt;"@)) by {
            if "&gt;"@.len() <= t.len() {
                assert(t.take(4)[0] != "&gt;"@[0]);
            }
        }
        assert(!starts_with(t, "&quot;"@)) by {
            if "&quot;"@.len() <= t.len() {
                assert(t.take(6)[0] != "&quot;"@[0]);
            }
        }
        assert(!starts_with(t, "&#39;"@)) by {
            if "&#39;"@.len() <= t.len() {
                assert(t.take(5)[0] != "&#39;"@[0]);
            }
        }
    }
}

/// Escaping loses nothing: decoding the entities of escaped text gives back
/// the text, so what a browser shows is exactly the text that was given.
pub proof fn lemma_unescape_escape(s: Seq<char>)
    ensures
        unescape(escape(s)) == s,
    decreases s.len(),
{
    if s.len() > 0 {
        let rest = s.skip(1);
        assert(s =~= seq![s[0]] + rest);
        lemma_escape_append(seq![s[0]], rest);
        assert(seq![s[0]].drop_last() =~= Seq::<char>::empty());
        assert(escape(Seq::<char>::empty()) =~= Seq::<char>::empty());
        assert(Seq::<char>::empty() + escape_char(s[0]) =~= escape_char(s[0]));
        assert(escape(seq![s[0]]) =~= escape_char(s[0]));
        lemma_unescape_step(s[0], escape(rest));
        lemma_unescape_escape(rest);
    }
}

/// Appends the escaped form of `s` to `out`.
pub(crate) fn write_escaped(out: &mut String, s: &str)
    ensures
        final(out)@ == old(out)@ + escape(s@),
{
    let ghost start = out@;
    for c in it: s.chars()
        invariant
            it.seq() == s@,
            out@ == start + escape(it.seq().take(it.index() as int)),
    {
        let ghost k = it.index() as int;
        proof {
            assert(it.seq().take(k + 1).drop_last() =~= it.seq().take(k));
        }
        if c == '&' {
            push_str(out, "&amp;");
        } else if c == '<' {
            push_str(out, "&lt;");
        } else if c == '>' {
            push_str(out, "&gt;");
        } else if c == '"' {
            push_str(out, "&quot;");
        } else if c == '\'' {
            push_str(out, "&#39;");
        } else {
            push_char(out, c);
        }
        assert(out@ =~= start + escape(it.seq().take(k + 1)));
    }
    assert(s@.take(s@.len() as int) =~= s@);
}

/// Appends the escaped form of `s` to the string `out`.
pub(crate) fn escape_into_string(out: &mut String, s: &str)
    ensures
        final(out)@ == old(out)@ + escape(s@),
{
    write_escaped(out, s)
}

} // verus!
