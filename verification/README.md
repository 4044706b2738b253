# wallfetch

`wallfetch` reads an ordered palette off a wallpaper made of horizontal
capsules, stripes or blocks on a flat background, and either prints the
colours or applies them to a text template as ANSI true-colour escapes.

## Layout

- `src/` is the library, verified with Verus. It holds the decisions and the
  integer logic: which wallpaper and template to read (`wallpaper`,
  `config`), the frame colour buckets, foreground columns, foreground region
  and per-slice medians of an image (`extract`, `palette`), the plan for
  reducing a palette (`reduction`), template rendering (`format`), reading
  and writing colour lists (`colors`), and the palette cache key (`cache`).
  The contracts of each public function state what it returns; the `law_*`
  proof functions state properties that span functions, such as the round
  trip of a palette through its hexadecimal listing.
- `app/` is the command-line program around the library: argument parsing,
  the configuration file, environment variables, files, child processes,
  image decoding, and the floating-point colour arithmetic in OKLab.
- `tests/` exercises the library on concrete values.
