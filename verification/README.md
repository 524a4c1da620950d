# domlink

A safe HTML builder and runtime template engine, verified with Verus.

- `src/escape.rs`: HTML escaping, and the proof that escaped text holds no
  `<`, `>`, `"` or `'`.
- `src/tags.rs`: the supported tags, their opening and closing text.
- `src/dom.rs`: the DOM arena (`Dom`, `Element`), the attribute builders and
  the compact and pretty renderers, each proved against `src/render.rs`.
- `src/render.rs`: what an element renders to, as spec functions, with the
  laws of rendering (void elements, fragments, child order, indentation).
- `src/link.rs`: `Link`, a handle to an element. A link made by `init`
  owns its DOM, and its contracts state exactly what the DOM holds and what
  it renders to. Making a child (`append`, `div`, ...) or a second handle
  moves the DOM into a `vstd` `InvCell` shared by all links into it; there
  the contracts keep only the DOM's well-formedness.
- `src/tpl.rs`: `Tpl`, templates with `{}` slots, and `SafeHtml`.
- `src/sink.rs`: where rendered text goes, a string or a `fmt::Write`
  writer, with a record of every piece handed to it and of whether the
  writer refused one; renderers write piece by piece and stop at the first
  refusal.
- `src/io_adapter.rs`: writing into `fmt::Write` and `io::Write` writers.
- `app/lib.rs`: `Display` for DOM handles.
