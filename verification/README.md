# blog

The verified core of a blog whose posts are MDX-style markdown with
components, stored as a versioned syntax tree in a key-value store and
served from the edge.

- `src/` is the library, checked by Verus: the content tree and its keys and
  routes (`content`), the post parser and validator (`content::parse`), the
  component registry (`registry`), publish planning and snapshots (`publish`),
  the publish coordinator's decisions (`reconcile`, `pipeline`), the site's
  caching, feeds, redirects and purge endpoint (`site`), the bearer check
  (`authn`) and the authoring tools' decisions (`cli`).
- `tests/` runs the library on concrete inputs.
- `app/` is the `blog` command: it reads the content tree and the component
  vocabulary from disk, talks to the KV REST API, and hands plain values to
  the library.
