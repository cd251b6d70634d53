# http-file-server

A compact static file server with a single-threaded nonblocking event loop,
Linux-optimized file streaming, and HTTPS via kernel TLS offload (kTLS). Its logic is
verified with [Verus](https://github.com/verus-lang/verus).

## Layout

`src/` is the verified library. It performs no input or output: it says which operation
comes next, is told of its outcome, and decides what follows.

- `bytes.rs`: searching, splitting, decimal numerals and UTF-8
- `request.rs`: where request headers end, the request line, percent-decoding
- `response.rs`: serialised response headers and MIME types
- `paths.rs`: Unix paths as byte strings
- `files.rs`: from the path of a request to the file below the root, or to a refusal
- `connection.rs`: the state machine of one connection
- `handshake.rs`: the TLS handshake of a connection, up to the hand-over to the kernel
- `tls.rs`: the socket options of kTLS, certificates and keys
- `server.rs`: the event loop over all connections, and how it is stopped
- `io.rs`: the failures that the server tells apart

`app/` is the server around it: sockets, files, the clock and TLS sessions. `tests/` runs
the library on concrete values.

## HTTP behavior

- `GET /file.txt` returns the file if it exists
- `GET /docs/` serves `docs/index.html` when present
- non-`GET` methods: `405 Method Not Allowed`
- missing files: `404 Not Found`
- paths escaping the root, by `..` or by a link: `403 Forbidden`
- what is no request: `400 Bad Request`
- oversized request headers: `431 Request Header Fields Too Large`
- connections close after each response
- at most 4096 connections are held; new ones are dropped at the limit

## What is trusted

`String::from_utf8`, `std::str::from_utf8`, `rustls_pemfile::certs`,
`rustls_pemfile::private_key` and the construction of a `rustls::ServerConfig`. The
comment at each of them says what is claimed of it.

## Use

```rust
fn main() -> std::io::Result<()> {
    let server = Server::bind("127.0.0.1:8080")?;
    server.serve("./public")
}
```

HTTPS needs Linux with the `tls` kernel module loaded:

```rust
fn main() -> std::io::Result<()> {
    let config = tls::load_server_config(Path::new("cert.pem"), Path::new("key.pem"))?;
    let server = Server::bind("0.0.0.0:443")?;
    server.serve_tls("./public", config)
}
```
