# tailcall

The core of a GraphQL gateway, verified with Verus.

- `src/lambda`: resolver expressions, their compilation, and a machine that runs them and asks for
  outside work; selection sets written out for upstreams.
- `src/config`: configurations made from protocol buffer descriptors, and what is fetched from gRPC
  reflection services.
- `src/blueprint`: calls of queries and mutations compiled to resolvers.
- `src/http`: batching of upstream requests, routing, CORS and header maps.
- `src/auth`: checks on tokens and the choice of providers.
- `src/value.rs`, `src/text.rs`, `src/string_map.rs`, `src/valid.rs`: what the others build on.
- `app`: the command line, asynchronous I/O and conversions from and to outside types.

Functions marked `external_body` call outside crates; the comment above each says what is taken for
granted of the call.
