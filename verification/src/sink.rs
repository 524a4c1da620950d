//! Destinations for rendered text: a string of the sink's own, or any
//! `fmt::Write` writer, with a record of what the renderers handed to it.

use std::fmt;

use vstd::prelude::*;

use crate::io_adapter::write_str_into;
use crate::escape::{escape, escape_char, lemma_escape_append};
use crate::text::{push_char, push_str};

verus! {

/// What a sink writes into: a string of its own, or a writer.
enum Target<W> {
    Text(String),
    Writer(W),
}

/// A destination for rendered text. It records every piece handed to it,
/// the piece a writer refused included, and whether a writer has refused
/// one; after a refusal nothing more is handed to it.
pub struct Sink<W> {
    target: Target<W>,
    sent: Ghost<Seq<char>>,
    failed: Ghost<bool>,
}

impl<W> Sink<W> {
    /// The text of every piece handed to the sink so far, in order.
    pub closed spec fn sent(&self) -> Seq<char> {
        self.sent@
    }

    /// Whether a writer has refused a piece; it was the last one handed.
    pub closed spec fn failed(&self) -> bool {
        self.failed@
    }

    /// Whether the sink writes into a string of its own, which takes every
    /// piece.
    pub closed spec fn is_text(&self) -> bool {
        self.target is Text
    }

    /// A string holds exactly the text handed to it and never refuses.
    pub closed spec fn wf(&self) -> bool {
        self.target matches Target::Text(s) ==> s@ == self.sent@ && !self.failed@
    }

    /// A sink that collects the text in a new string.
    pub fn text() -> (r: Sink<W>)
        ensures
            r.wf(),
            r.is_text(),
            !r.failed(),
            r.sent() == Seq::<char>::empty(),
    {
        Sink { target: Target::Text(String::new()), sent: Ghost(Seq::empty()), failed: Ghost(false) }
    }

    /// A sink that collects the text in `s`, after what it holds.
    pub(crate) fn text_from(s: String) -> (r: Sink<W>)
        ensures
            r.wf(),
            r.is_text(),
            !r.failed(),
            r.sent() == s@,
    {
        let ghost v = s@;
        Sink { target: Target::Text(s), sent: Ghost(v), failed: Ghost(false) }
    }

    /// A sink that hands the text to `w`.
    pub fn writer(w: W) -> (r: Sink<W>)
        ensures
            r.wf(),
            !r.is_text(),
            !r.failed(),
            r.sent() == Seq::<char>::empty(),
    {
        Sink { target: Target::Writer(w), sent: Ghost(Seq::empty()), failed: Ghost(false) }
    }

    /// The collected text of a string sink.
    pub fn into_text(self) -> (r: String)
        requires
            self.wf(),
            self.is_text(),
        ensures
            r@ == self.sent(),
    {
        match self.target {
            Target::Text(s) => s,
            Target::Writer(_) => String::new(),
        }
    }
}

/// What writing `x` into a sink promises: the sink stays well formed and of
/// the same kind, and a string sink never fails. On success exactly `x` was
/// handed over. On an error the writer refused the last piece handed, and
/// what was handed, that piece included, is a beginning of `x`: the writing
/// stopped there.
pub open spec fn wrote<W>(
    before: Sink<W>,
    after: Sink<W>,
    r: Result<(), fmt::Error>,
    x: Seq<char>,
) -> bool {
    &&& after.wf()
    &&& after.is_text() == before.is_text()
    &&& before.is_text() ==> r is Ok
    &&& r is Ok ==> after.sent() == before.sent() + x && after.failed() == before.failed()
    &&& r is Err ==> after.failed() && after.sent().is_prefix_of(before.sent() + x)
}

/// Writing `done` and then stopping within `y` stops within anything that
/// begins with `done + y`.
pub(crate) proof fn lemma_stop<W>(
    before: Sink<W>,
    mid: Sink<W>,
    now: Sink<W>,
    r: Result<(), fmt::Error>,
    done: Seq<char>,
    y: Seq<char>,
    x: Seq<char>,
)
    requires
        wrote(before, mid, Ok(()), done),
        wrote(mid, now, r, y),
        r is Err,
        (done + y).is_prefix_of(x),
    ensures
        wrote(before, now, r, x),
{
    let whole = before.sent() + x;
    assert(mid.sent() + y =~= before.sent() + (done + y));
    assert forall|i: int| 0 <= i < now.sent().len() implies now.sent()[i] == whole[i] by {
        assert(now.sent()[i] == (mid.sent() + y)[i]);
        if i >= before.sent().len() {
            assert((done + y)[i - before.sent().len()] == x[i - before.sent().len()]);
        }
    }
    assert(now.sent() =~= whole.subrange(0, now.sent().len() as int));
}

/// Writing `done` and then stopping within `y` stops within `done + y`
/// followed by anything.
pub(crate) proof fn lemma_stop_before<W>(
    before: Sink<W>,
    mid: Sink<W>,
    now: Sink<W>,
    r: Result<(), fmt::Error>,
    done: Seq<char>,
    y: Seq<char>,
    rest: Seq<char>,
    x: Seq<char>,
)
    requires
        wrote(before, mid, Ok(()), done),
        wrote(mid, now, r, y),
        r is Err,
        x =~= done + y + rest,
    ensures
        wrote(before, now, r, x),
{
    lemma_prefix_append(done + y, rest);
    lemma_stop(before, mid, now, r, done, y, x);
}

/// The same, where `done + y` followed by `rest` is itself a beginning of
/// `x`.
pub(crate) proof fn lemma_stop_within<W>(
    before: Sink<W>,
    mid: Sink<W>,
    now: Sink<W>,
    r: Result<(), fmt::Error>,
    done: Seq<char>,
    y: Seq<char>,
    rest: Seq<char>,
    upto: Seq<char>,
    x: Seq<char>,
)
    requires
        wrote(before, mid, Ok(()), done),
        wrote(mid, now, r, y),
        r is Err,
        upto =~= done + y + rest,
        upto.is_prefix_of(x),
    ensures
        wrote(before, now, r, x),
{
    lemma_prefix_append(done + y, rest);
    lemma_prefix_trans(done + y, upto, x);
    lemma_stop(before, mid, now, r, done, y, x);
}

/// A sequence begins each longer sequence made from it.
pub(crate) proof fn lemma_prefix_append(a: Seq<char>, b: Seq<char>)
    ensures
        a.is_prefix_of(a + b),
{
    assert(a =~= (a + b).subrange(0, a.len() as int));
}

/// A beginning of a beginning is a beginning.
pub(crate) proof fn lemma_prefix_trans(a: Seq<char>, b: Seq<char>, c: Seq<char>)
    requires
        a.is_prefix_of(b),
        b.is_prefix_of(c),
    ensures
        a.is_prefix_of(c),
{
    assert forall|i: int| 0 <= i < a.len() implies a[i] == c[i] by {
        assert(a[i] == b.subrange(0, a.len() as int)[i]);
        assert(b[i] == c.subrange(0, b.len() as int)[i]);
    }
    assert(a =~= c.subrange(0, a.len() as int));
}

/// Hands `s` to the sink: a string sink always takes it; a writer may
/// refuse it with an error.
pub(crate) fn put<W: fmt::Write>(out: &mut Sink<W>, s: &str) -> (r: Result<(), fmt::Error>)
    requires
        old(out).wf(),
        !old(out).failed(),
    ensures
        wrote(*old(out), *final(out), r, s@),
        final(out).sent() == old(out).sent() + s@,
{
    let r = match &mut out.target {
        Target::Text(t) => {
            push_str(t, s);
            Ok(())
        },
        Target::Writer(w) => write_str_into(w, s),
    };
    proof {
        out.sent@ = out.sent@ + s@;
        if r.is_err() {
            out.failed@ = true;
        }
        lemma_prefix_append(out.sent@, seq![]);
        assert(out.sent@ + seq![] =~= out.sent@);
    }
    r
}

/// Hands `s`, escaped, to the sink: each run of plain characters in one
/// piece and each entity in one piece, nothing for empty text.
pub(crate) fn put_escaped<W: fmt::Write>(out: &mut Sink<W>, s: &str) -> (r: Result<(), fmt::Error>)
    requires
        old(out).wf(),
        !old(out).failed(),
    ensures
        wrote(*old(out), *final(out), r, escape(s@)),
{
    let ghost before = *out;
    let ghost whole = escape(s@);
    let ghost mut flushed: Seq<char> = Seq::empty();
    let mut run = String::new();
    assert(before.sent() + flushed =~= before.sent());
    for c in it: s.chars()
        invariant
            it.seq() == s@,
            before == *old(out),
            whole == escape(s@),
            wrote(before, *out, Ok(()), flushed),
            !out.failed(),
            flushed + run@ == escape(s@.take(it.index() as int)),
    {
        let ghost k = it.index() as int;
        proof {
            assert(s@.take(k + 1).drop_last() =~= s@.take(k));
            assert(s@.take(k + 1).last() == c);
            lemma_escape_prefix(s@, k + 1);
            lemma_escape_prefix(s@, k);
        }
        if c == '&' || c == '<' || c == '>' || c == '"' || c == '\'' {
            if !run.as_str().is_empty() {
                let ghost mid = *out;
                let r = put(out, run.as_str());
                if r.is_err() {
                    proof {
                        lemma_stop(before, mid, *out, r, flushed, run@, whole);
                    }
                    return r;
                }
                proof {
                    flushed = flushed + run@;
                }
                assert(out.sent() =~= before.sent() + flushed);
                run = String::new();
            }
            assert(flushed + run@ =~= flushed);
            let entity = if c == '&' {
                "&amp;"
            } else if c == '<' {
                "&lt;"
            } else if c == '>' {
                "&gt;"
            } else if c == '"' {
                "&quot;"
            } else {
                "&#39;"
            };
            assert(entity@ == escape_char(c));
            let ghost mid = *out;
            let r = put(out, entity);
            if r.is_err() {
                proof {
                    lemma_stop(before, mid, *out, r, flushed, entity@, whole);
                }
                return r;
            }
            proof {
                flushed = flushed + entity@;
            }
            assert(out.sent() =~= before.sent() + flushed);
            assert(flushed + run@ =~= escape(s@.take(k + 1)));
        } else {
            let ghost old_run = run@;
            push_char(&mut run, c);
            assert(flushed + run@ =~= flushed + old_run + escape_char(c));
        }
    }
    assert(s@.take(s@.len() as int) =~= s@);
    if !run.as_str().is_empty() {
        let ghost mid = *out;
        let r = put(out, run.as_str());
        if r.is_err() {
            proof {
                lemma_prefix_append(flushed + run@, seq![]);
                assert(flushed + run@ + seq![] =~= whole);
                lemma_stop(before, mid, *out, r, flushed, run@, whole);
            }
            return r;
        }
        proof {
            flushed = flushed + run@;
        }
    }
    assert(out.sent() =~= before.sent() + whole);
    Ok(())
}

/// Escaping the first `k` characters gives a beginning of the escaped
/// text, and escaping one more adds the escape of that character.
proof fn lemma_escape_prefix(s: Seq<char>, k: int)
    requires
        0 <= k <= s.len(),
    ensures
        escape(s.take(k)).is_prefix_of(escape(s)),
        k < s.len() ==> escape(s.take(k + 1)) == escape(s.take(k)) + escape_char(s[k]),
{
    lemma_escape_append(s.take(k), s.skip(k));
    assert(s.take(k) + s.skip(k) =~= s);
    lemma_prefix_append(escape(s.take(k)), escape(s.skip(k)));
    if k < s.len() {
        assert(s.take(k + 1).drop_last() =~= s.take(k));
    }
}

} // verus!
