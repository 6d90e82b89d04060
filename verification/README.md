# request

The state of one incoming web request, without its body: method, URI, headers, cookies, host and
connection, and what is decided from them: the content type and accepted types, the format, the
address of the client, whether the context is secure, the segments of the routed path, the fields of
the query.

- `src/` is the library. `request.rs` holds the request itself, `laws.rs` what holds of it across its
  operations. The other modules hold its parts, each with the grammar it is read by.
- `app/` adds what cannot be stated there: guards, asynchronous caching, warnings, output traits.
- `tests/` runs the library, with the real HTTP, cookie and cell crates linked.

Every request is `valid`: what is kept in its cells is what its headers give, and every sign that its
connection is secure has been noted. Constructors establish this and methods keep it. Only what is
done through `cookies_mut` has to keep it itself: the jar that it leaves behind has to be no less
secure than the one it found.

What a method returns or changes is stated over `RequestView`, which holds the texts of a request
without their containers. `content_type` and `accept` fill a cell on their first call and take
`&mut self`. Where only a shared reference is at hand, `format` gives the format, and
`read_content_type` and `read_accept` read the same from the headers.
