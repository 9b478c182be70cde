# livre

A type-safe PDF extraction library whose parsers are verified with Verus.

Every parser is a function on bytes: it takes the input, and returns either a
value with the number of bytes it consumed, or one of two errors (`Backtrack`
when the input does not match, `Cut` when no alternative should be tried).
Each parser has a `spec` function that states exactly this outcome, and Verus
proves that the code computes it, without overflow and without panics.

## Layout

- `src/extraction`: the [`Extract`] trait and its implementations: booleans,
  integers, arrays, tuples, names, strings, dates, references, indirect
  objects, dictionaries (kept raw, then typed) and streams.
- `src/filtering.rs`: stream filters; `FlateDecode` calls `flate2`.
- `src/follow_refs`: the `Build` trait, which extracts while following
  references through a `Builder` (such as `XRefBuilder`, a cross-reference
  table over the input).
- `src/fonts`: font descriptors, widths, encodings and character maps.
- `tests/`: tests against concrete inputs.
- `app/`: what the verified library does not hold: real numbers
  (floating point) and the serde interface of CID font widths.

## What the library does not hold

- Real numbers, and everything built on them: the `Object` type (any PDF
  object, which may hold a real), font descriptors (`FontDescriptor`, whose
  metrics are reals), simple fonts (`SimpleFont`) and the widths of glyphs in
  text-space units. Verus does not reason about floating point; `app/` reads
  reals and divides widths by 1000.
- Glyph names and the tables of the built-in encodings (MacRoman, WinAnsi,
  Standard, ...): the tables are not part of this source. So `BuiltInEncoding`
  is extracted by name but does not decode, and an encoding dictionary
  (`/Differences`) is not extracted; `ModifiedEncoding::from_differences`
  holds the step that applies the differences to a base character set.
- Composite fonts as a whole (`Type0`, `CIDFontType`): they rest on the font
  descriptor and on a document structure that is not part of this source.
  Their widths (`W` array, `cid_font_width`) and the `ToUnicode` lookup are
  verified.
- Dictionaries are vectors of entries with distinct keys (`RawDict`,
  `NameMap<T>`) rather than hash maps: keys are names, for which a hash map's
  behaviour cannot be stated.
- Decoded strings and names are owned (`Vec<u8>`); the escaped-sequence
  parser itself gives back the input borrowed when it holds no escape.
