# catgirl_parser

A client for image boards. The library (`src/`) holds what is decided and
computed: the request builders and the URLs they make, the key that
identifies a query (a SHA-512 hash of its sorted tags, rating and domain),
the page-counting search that finds how many images a query has, the
random sampling of images, and the cache of image counts. Each of these is
verified with Verus against its contract; `src/api/paging.rs` proves that,
against a board that answers pages consistently, the count is exact and
takes at most `2 * bits(n / page_size) + 2` requests (one when there are
fewer images than a page holds), for page sizes of at least one image and
counts of up to 2^62 - 1 full pages (a board queried without stopping on an
empty first page must hold at least one image).

`app/` is the program around it: the Lua site configuration, HTTP requests,
the cache file, and the loops that carry out the library's decisions
(`ImageSession` and `TemplateSession`) one network round trip at a time.
