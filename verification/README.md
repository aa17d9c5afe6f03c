# oar_ocr_vl

The rules of document-reading vision-language models, verified with Verus: which
configurations are usable, how a page becomes patches and tiles, how a prompt is
laid out and where the image goes in it, how positions are numbered, which token
comes next, when decoding stops and what becomes of the answer.

- `src/` is the library. Every function states its result; the properties that
  span functions are the public proof functions whose names begin with `law_`.
  Examples: a page that is decoded with drafts has the text of plain greedy decoding,
  a row of a batch is decoded as if it were alone, each fork of a page is answered by
  one child whose tokens stand in its place.
- `app/` is ordinary Rust around it: checkpoint files, tensors, the networks and the
  loops that perform what the library's state machines ask for.
- `tests/` runs the library with the real tokenizer and image crates.

What the library takes on trust is little: the tokenizer's tables and settings, its
encoding and decoding, the resampling of images, and two functions of the standard
library. Each is a small wrapper whose doc comment says what is claimed.
