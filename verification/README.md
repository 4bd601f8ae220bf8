# pdfdiff

Produces a PDF from two LaTeX sources with all changes marked in red: additions in red, deletions
in red strikethrough.

```
pdfdiff <original> <modified> <output-dir>
```

Each source can be a git branch, a `.tex` file or a project directory. `diff.tex` and `diff.pdf`
are written to the output directory.

## Layout

- `src/` is a library of verified decisions, written in Verus. It reads no file and runs no
  program.
  - `text`: searching and trimming text
  - `bytes`, `lines`: what files and programs hold: decoding it, searching it, and the lines of a
    file
  - `latex`: arguments of commands, the colour overrides, what makes a root file
  - `project`: the files of a project; finding its root; what is copied
  - `bibliography`: bibliographies that are missing, and the tools that generate them
  - `source`: what an argument names, and how it becomes a root file
  - `compile`: the runs of pdflatex
  - `diff`: the run of latexdiff
  - `pipeline`: the stages of a run
  - `command`, `error`: what programs are given and bring back; what can go wrong
- `app/` is the program: it walks directories, runs git, tar, latexdiff, pdflatex, bibtex and biber,
  and asks the library what to do next.
- `tests/` runs the library on concrete values.
