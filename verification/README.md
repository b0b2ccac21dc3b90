# web-modules

The rules of a buildless web frontend toolchain, verified with Verus:

- `src/csp.rs`: the content security policy of a request, its nonce, and the rewriting of HTML
  bodies;
- `src/nonce.rs`: nonces, random bytes in hexadecimal;
- `src/headers.rs`: headers and extensions of a message;
- `src/vendor.rs`: which npm packages to vendor;
- `src/compiler.rs` and `src/roots.rs`: which processors run, on which sources;
- `src/text.rs`: searching and rewriting text.

`app/` holds the command line and the tower middleware around them.
