# trex

A LaTeX build helper. A small configuration file outlines a document (class,
preamble, chapters, sections, subsections, bibliography); trex turns that outline
and the command-line options into the TeX code of the document, picks which
files to compile from a range, and builds the engine command lines.

Layout:

- `src/`: the library, verified with Verus.
  - `parse_args`: command-line options into an argument map.
  - `config`: the configuration file into an `Outline`.
  - `compile`: the range of files, the TeX code and the engine commands.
  - `text`: the string operations the others rest on.
  - `utils`: a two-slot stack and the coloured message texts.
- `app/`: the program around it: reading files, running the engine, printing.
- `tests/`: tests of the library.
