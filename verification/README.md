# artxl

The verified core of a web playground for jxl-art, the tree-based image
programs that JPEG XL encodes. The library (`src/`) models a program, prints
and parses its text format, mutates it, reads the decoder's PAM output into
RGBA8, fits images to a size, and builds what the browser is sent. Its
functions carry contracts that Verus proves, and `src/roundtrip.rs` and
`src/mutation_laws.rs` hold the laws that tie them together (what printing
then parsing gives back, and that mutations and the generator keep programs
well-formed).

`app/` is the HTTP server around the library: routes, streaming, the
external encoder and decoder (`./jxl_from_tree`, `./djxl`) run as
subprocesses, the gallery files under `gallery/`, and the lossy WebP encoder
whose quality setting is a float.

Modules of the library:

- `text`: whitespace, words, lines, comments and decimal numbers.
- `tree`: programs, trees, conditions and predictors, their labels and text.
- `parse`: reading program text.
- `edit`: counting, collecting and rewriting parts of a tree.
- `prune`: dead conditions (decided by a condition above on the same
  variable) and their removal.
- `random`: the random numbers drawn from `rand`.
- `mutations`: the generator, the mutations, and flat-image detection.
- `codec`: the PAM reader and the fit to a longest edge.
- `payload`: base64 WebP payloads, the failure placeholder, PNG download.
- `gallery`: the curated gallery list.
- `pipeline`: the subprocess time limit setting.
