//! Small string utilities shared by the renderer and the template engine.

use vstd::prelude::*;
use vstd::string::*;

verus! {

/// The characters of `s`, in order, as a vector.
pub(crate) fn chars_of(s: &str) -> (v: Vec<char>)
    ensures
        v@ == s@,
{
    let mut v: Vec<char> = Vec::new();
    for c in it: s.chars()
        invariant
            v@ == it.seq().take(it.index() as int),
    {
        v.push(c);
    }
    v
}

/// Appends one character to `s`.
///
/// Calls `String::push`, whose documentation says that it appends the
/// given `char` to the end of the string; the contract claims exactly that.
#[verifier::external_body]
pub(crate) fn push_char(s: &mut String, c: char)
    ensures
        final(s)@ == old(s)@.push(c),
{
    s.push(c)
}

/// Appends the text of `t` to `s`.
pub(crate) fn push_str(s: &mut String, t: &str)
    ensures
        final(s)@ == old(s)@ + t@,
{
    s.append(t);
}

/// Whether two strings hold the same characters.
pub(crate) fn str_eq(a: &str, b: &str) -> (r: bool)
    ensures
        r == (a@ == b@),
{
    let x = chars_of(a);
    let y = chars_of(b);
    if x.len() != y.len() {
        return false;
    }
    let n = x.len();
    for k in 0..n
        invariant
            n == x@.len(),
            n == y@.len(),
            x@ == a@,
            y@ == b@,
            forall|j: int| 0 <= j < k ==> x@[j] == y@[j],
    {
        if x[k] != y[k] {
            return false;
        }
    }
    assert(x@ =~= y@);
    true
}

} // verus!

verus! {

/// `l` without one trailing carriage return.
pub open spec fn strip_cr(l: Seq<char>) -> Seq<char> {
    if l.len() > 0 && l.last() == '\r' {
        l.drop_last()
    } else {
        l
    }
}

/// The lines that `s` ends, and the unterminated rest after the last `\n`.
pub open spec fn line_state(s: Seq<char>) -> (Seq<Seq<char>>, Seq<char>)
    decreases s.len(),
{
    if s.len() == 0 {
        (seq![], seq![])
    } else {
        let (ls, cur) = line_state(s.drop_last());
        if s.last() == '\n' {
            (ls.push(strip_cr(cur)), seq![])
        } else {
            (ls, cur.push(s.last()))
        }
    }
}

/// The lines of `s`: split at `\n` or `\r\n`, without the terminators; a
/// final line ending is optional and an empty final segment is no line.
pub open spec fn lines_of(s: Seq<char>) -> Seq<Seq<char>> {
    let (ls, cur) = line_state(s);
    if cur.len() > 0 {
        ls.push(cur)
    } else {
        ls
    }
}

/// The views of a vector of strings.
pub open spec fn strings_view(v: Seq<String>) -> Seq<Seq<char>> {
    v.map_values(|s: String| s@)
}

/// Splits `s` into its lines.
pub(crate) fn split_lines(s: &str) -> (r: Vec<String>)
    ensures
        strings_view(r@) == lines_of(s@),
{
    let mut lines: Vec<String> = Vec::new();
    let mut cur = String::new();
    let mut pending_cr = false;
    for c in it: s.chars()
        invariant
            it.seq() == s@,
            strings_view(lines@) == line_state(it.seq().take(it.index() as int)).0,
            ({
                let spec_cur = line_state(it.seq().take(it.index() as int)).1;
                &&& pending_cr ==> spec_cur == cur@.push('\r')
                &&& !pending_cr ==> spec_cur == cur@
                &&& pending_cr == (spec_cur.len() > 0 && spec_cur.last() == '\r')
            }),
    {
        let ghost k = it.index() as int;
        proof {
            assert(it.seq().take(k + 1).drop_last() =~= it.seq().take(k));
        }
        if c == '\n' {
            let done = cur;
            proof {
                let sc = line_state(it.seq().take(k)).1;
                if pending_cr {
                    assert(sc.drop_last() =~= done@);
                }
                assert(strip_cr(sc) =~= done@);
                assert(strings_view(lines@.push(done)) =~= strings_view(lines@).push(done@));
            }
            lines.push(done);
            cur = String::new();
            pending_cr = false;
        } else {
            if pending_cr {
                push_char(&mut cur, '\r');
            }
            if c == '\r' {
                pending_cr = true;
            } else {
                push_char(&mut cur, c);
                pending_cr = false;
            }
        }
    }
    proof {
        assert(s@.take(s@.len() as int) =~= s@);
    }
    if pending_cr {
        push_char(&mut cur, '\r');
    }
    if !cur.as_str().is_empty() {
        proof {
            assert(strings_view(lines@.push(cur)) =~= strings_view(lines@).push(cur@));
        }
        lines.push(cur);
    }
    lines
}

} // verus!
