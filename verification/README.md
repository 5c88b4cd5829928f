# statica

statica is a static site generator for valid HTML. Every `**/index.html` is a
page. Data comes in through `<link rel="statica/data">`, and fragments through
`<link rel="statica/fragment">`, `<template>` and `<slot>`. Pages can be
collections, paginated listings, localized routes and layouts.

The library in `src/` holds the logic of the generator. Every function has
a `requires` / `ensures` contract, and Verus proves that the code meets it.
The contracts are stated over mathematical models: each tree, value and
table has a view made of `Seq`, `Map`-like sequences and integers. Where the
contract is a rule across several functions, the library states it as a
public proof function whose name starts with `law_`.

## Layout

- `src/parse/`: the owned HTML tree (`ast`), its attributes (an `IndexMap`
  behind trusted wrappers), the serializer, and the authoring pre-pass.
- `src/funnel/`: data values, data links, and `${path}` templates with
  dynamic attributes.
- `src/content.rs`: data formats, and reading text, JSONL and CSV data.
- `src/bind.rs`, `src/bind/slots.rs`: `data-each` lists, attribute templates,
  and slot projection.
- `src/layout.rs`, `src/alias_paths.rs`, `src/forms.rs`, `src/i18n.rs`,
  `src/images.rs`, `src/manifest.rs`, `src/search_controls.rs`,
  `src/scope/`: the page passes. These are layouts, alias paths, form wiring,
  translation and catalogs, responsive images, manifest tags, search controls,
  and fragment scoping.
- `src/paginate.rs`, `src/build/`: pagination, the pages a template emits,
  rebuild planning, and the output passes of a build.
- `src/config.rs`, `src/cli.rs`, `src/env.rs`, `src/cmd/`: settings, command
  line overrides, the environment, and project resolution.
- `tests/`: example-based tests of the library.
- `app/`: the command line program. It reads `statica.toml`, walks the file
  tree, writes files, and serves the output. It calls the library for every
  decision.

The program cannot render a page. That needs an HTML5 parser, which this
crate does not include. `build` discovers the pages, applies the build's
output passes and writes the default 404 page.
