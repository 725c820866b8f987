# cardex

A command-line Pokémon TCG card searcher backed by the TCGdex API, written
as a Verus library with a thin program around it.

- `src/` — the verified library: the TCGdex data model (`tcgdex`), request
  addresses and reply handling (`tcgdex::client`, `tcgdex::error`), the
  command filters (`cli`), and all terminal rendering (`render`: colours and
  widths, the framed box, card and set pages, the search listing, the
  half-block image rasteriser, price rows), with text and sorting helpers
  (`text`, `order`).
- `app/` — the program: argument parsing, HTTP requests, JSON decoding,
  floating-point colour and size arithmetic, and printing.
- `tests/` — tests of the library.

Usage:

```sh
cardex search ceruledge
cardex card sv08.5-147
cardex sets -n prismatic
cardex set sv08.5
```
