# S3 browser

A desktop browser for S3: buckets on the left, objects on the right, download with a click and a
confirmation, upload with a file picker. Downloaded files land in the current working directory;
uploaded files keep their local file name under the prefix that is shown.

The logic is a library that Verus proves; the application around it talks to the store and draws
the window.

- `src/browser.rs`: the state of the window, and how requests and replies change it
- `src/request.rs`: what is asked of the store
- `src/entry.rs`: the rows of a listing
- `src/screen.rs`: what the window shows, as plain values, and what clicks do
- `src/pick.rs`: choosing the file to upload
- `src/history.rs`: what holds over everything that can happen to a window
- `src/path.rs`, `src/order.rs`, `src/text.rs`, `src/number.rs`, `src/size.rs`: keys as paths,
  stable sorting, texts and their order, decimals, sizes
- `app/`: the program, with the AWS SDK for the store and GPUI Kit for the window; it needs the
  crate `gpui-kit` besides those in `Cargo.toml`
- `tests/`: the library on concrete values
