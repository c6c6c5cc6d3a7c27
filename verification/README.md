# wingman

A static site generator: Markdown pages with YAML front matter under `www/`
are rendered through Handlebars templates into HTML under `_site/`, style
sheets are minified, and a development server serves the result.

The library under `src/` is verified with Verus:

- `path`: paths as sequences of components (root, `.`, `..`, names), with the
  parser, joining, file names, extensions and `set_extension`, and the laws
  that a path is known by its components and that a new extension reads back.
- `text`: splitting text at a separator character.
- `lib.rs`: where a source file is written (`destination_for`, proved to stay
  inside the target tree), what a build does with each file (`plan_render`),
  which templates are registered, and the index page of a new project.
- `frontmatter`: the framing of a page into its YAML header and its body, the
  text after the closing marker line.
- `render`: Markdown to HTML through comrak, style sheets through lightningcss.
- `forge`: the seed (project configuration, written as JSON) and the plant
  (project directory).
- `init`, `blog`: the seed templates, post file names and index page of the
  blog workflow.
- `engine`: registering template files with Handlebars and rendering pages
  through the `page` template.
- `jsondoc`: JSON documents read by the `json` crate, looked up by key.
- `cli`: the commands.

`app/` is the `wingman` program: argument parsing, the file system, the web
server, the file watcher, and the YAML and JSON parses into the library's types.
