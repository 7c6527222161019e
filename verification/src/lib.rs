//! Sizes of Valhalla graph tiles, as a tile server sends them: requests for batches of
//! tiles, a cache of what is known, and the meaning of the server's replies.

use vstd::prelude::*;

pub mod api;
pub mod cache;
pub mod laws;
pub mod text;
pub mod tiles;
pub mod upstream;

pub use cache::SizeCache;
pub use upstream::RatiClient;

verus! {

/// Where the HTML and JavaScript of the web page lie on disk.
pub const WEB_DIR: &'static str = "web";

/// The upper bound for the bodies of requests, in bytes. A batch of `MAX_BATCH_SIZE`
/// tiles takes about 25 bytes per tile, so it fits with headroom.
pub const REQUEST_BODY_LIMIT: usize = 4 * 1024 * 1024;

/// What came of reading a page from disk. The texts say why a step failed.
#[derive(Debug)]
pub enum PageRead {
    /// There is no such file.
    NotFound,
    OpenFailed(String),
    ReadFailed(String),
    Contents(String),
}

/// The response for the page that was read from `path`: the page, or a status and a
/// text.
pub fn serve_index_html(path: &str, read: PageRead) -> (response: Result<String, (u16, String)>)
    ensures
        match read {
            PageRead::Contents(page) => response == Ok::<String, (u16, String)>(page),
            PageRead::NotFound => {
                &&& response is Err
                &&& response->Err_0.0 == 404
                &&& response->Err_0.1@ == path@ + ": not found"@
            },
            PageRead::OpenFailed(reason) => {
                &&& response is Err
                &&& response->Err_0.0 == 500
                &&& response->Err_0.1@ == "failed to open "@ + path@ + ": "@ + reason@
            },
            PageRead::ReadFailed(reason) => {
                &&& response is Err
                &&& response->Err_0.0 == 500
                &&& response->Err_0.1@ == "failed to read "@ + path@ + ": "@ + reason@
            },
        },
{
    match read {
        PageRead::Contents(page) => Ok(page),
        PageRead::NotFound => {
            let mut text = path.to_owned();
            text.append(": not found");
            Err((404, text))
        },
        PageRead::OpenFailed(reason) => {
            let mut text = "failed to open ".to_owned();
            text.append(path);
            text.append(": ");
            text.append(reason.as_str());
            Err((500, text))
        },
        PageRead::ReadFailed(reason) => {
            let mut text = "failed to read ".to_owned();
            text.append(path);
            text.append(": ");
            text.append(reason.as_str());
            Err((500, text))
        },
    }
}

/// The body of the response to a health check.
pub fn healthz() -> (body: &'static str)
    ensures
        body@ == "OK"@,
{
    "OK"
}

/// The most threads that serve requests. Fetches wait for the network and share
/// threads, so how many of them are under way makes no difference here.
pub const MAX_WORKER_THREADS: usize = 4;

/// How many threads serve requests: as many as the machine runs in parallel, and at
/// most `MAX_WORKER_THREADS`, which is also the number where that is unknown.
pub fn worker_threads(available_parallelism: Option<usize>) -> (threads: usize)
    ensures
        threads == vstd::math::min(
            match available_parallelism {
                Some(n) => n as int,
                None => 4,
            },
            4,
        ),
{
    match available_parallelism {
        Some(n) => if n < MAX_WORKER_THREADS {
            n
        } else {
            MAX_WORKER_THREADS
        },
        None => MAX_WORKER_THREADS,
    }
}

} // verus!
