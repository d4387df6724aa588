# zip_download

Downloads a prefix of an object store as one streamed ZIP archive.

`src/` is a library written in Verus. It holds the rules and the decisions, without I/O, and proves
them:

- `names`: the entry name of an object and the name of the downloaded file;
- `query`: the parameters `bucket`, `prefix` and `compression` of a request;
- `response`: the headers that the archive is answered with;
- `handler`: the checks that a request passes before it is answered;
- `produce`: the walk through the listing of a prefix, object by object, page by page;
- `zip_stream`: copying an object into its archive entry, chunk by chunk;
- `text`, `error`: path text and the errors that clients see.

A run with I/O is a chain of steps: each step says what to do next and takes the outcome. The public
proof functions whose names begin with `law_` state what holds of whole runs.

`app/` performs the steps with `async_zip`, `tokio` and `s3s`. `tests/` runs the library, with
real archives where archives are written.
