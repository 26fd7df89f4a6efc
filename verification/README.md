# photo2video

Makes videos out of photos: in natural order, with colour adjustments, captions,
transitions, a slowly moving picture and music. ffmpeg does the encoding.

* `src/` is the library. It decides everything that can be decided without touching the
  outside: the list of photos and what follows when it changes, adjustments, captions,
  project files, previews and thumbnails, the filters and arguments of ffmpeg, the course
  of a conversion, updates and their installation, and the settings file. Every function
  states what it does, and Verus proves it. What holds of several functions together
  stands beside them as proof functions.
* `app/` is the program around it: the window, dialogs, files, the network, running
  ffmpeg, and all that is computed in floating point.
* `tests/` runs the library on examples.

Paths are texts in the library. The program hands it absolute paths without superfluous
separators, and the names of files beside them. Floating-point numbers are held by their
bits (`scalar::Scalar`): the library orders and limits them, and leaves arithmetic to the
program.

What the library takes from outside crates stands in small functions marked
`external_body`, each with a comment on what is taken on trust.
