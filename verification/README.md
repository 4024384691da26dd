# plate

A tiny HTTP/1.x server. The library (`src/`) holds its logic, each function
with a contract that Verus proves:

- `text`: searching, splitting, trimming and number reading on characters.
- `strmap`: the text-to-text map used for headers and query arguments.
- `request`: parsing the text of a request (request line, headers, body).
- `handler`: what handlers see (query string read into `args`) and the
  route table.
- `response`: the status code table and the text of a response.
- `server`: the server, what it does with a request, and the checks made
  before a static file is served.
- `connection`: the decisions taken while a request is read off a
  connection.

`app/main.rs` is the program: it listens on a TCP port, does the reads and
writes and the file access, and follows what the library decides.
