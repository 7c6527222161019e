//! Requests to the tile server ("rati") and what its replies mean.

use vstd::prelude::*;

use crate::text;
use crate::text::{decimal_text, same_text};
use crate::tiles;
use crate::tiles::{Encoding, TileId};

verus! {

/// What the tile server knows of a tile.
#[derive(Debug, Clone, Copy, PartialEq, Eq, Structural)]
pub enum FetchOutcome {
    /// The tile exists and takes this many bytes on the wire.
    Found(u64),
    /// The tile does not exist.
    Missing,
}

/// Why it is unknown what the tile server knows of a tile.
#[derive(Debug)]
pub enum FetchError {
    /// No reply came; the text says why.
    Network(String),
    /// A reply came with a status other than 200 and 404.
    Upstream { status: u16, path: String },
    /// A reply came with status 200, but without the length of its body.
    MissingContentLength { path: String },
}

impl FetchError {
    /// The text of the error.
    pub open spec fn text(self) -> Seq<char> {
        match self {
            FetchError::Network(reason) => "network error: "@ + reason@,
            FetchError::Upstream { status, path } => "upstream returned status "@ + text::decimal(
                status as nat,
            ) + " for "@ + path@,
            FetchError::MissingContentLength { path } =>
                "upstream returned 200 OK without Content-Length for "@ + path@,
        }
    }

    /// The text of the error.
    pub fn message(&self) -> (text: String)
        ensures
            text@ == self.text(),
            self matches FetchError::Network(reason) ==> text@ == "network error: "@ + reason@,
            self matches FetchError::Upstream { status, path } ==> text@
                == "upstream returned status "@ + text::decimal(*status as nat) + " for "@ + path@,
            self matches FetchError::MissingContentLength { path } ==> text@
                == "upstream returned 200 OK without Content-Length for "@ + path@,
    {
        let mut text = String::new();
        match self {
            FetchError::Network(reason) => {
                text.append("network error: ");
                text.append(reason.as_str());
            },
            FetchError::Upstream { status, path } => {
                text.append("upstream returned status ");
                text.append(decimal_text(*status as u64).as_str());
                text.append(" for ");
                text.append(path.as_str());
            },
            FetchError::MissingContentLength { path } => {
                text.append("upstream returned 200 OK without Content-Length for ");
                text.append(path.as_str());
            },
        }
        assert(text@ =~= self.text());
        text
    }
}

/// `s` without the slashes at its end.
pub open spec fn without_trailing_slashes(s: Seq<char>) -> Seq<char>
    decreases s.len(),
{
    if s.len() > 0 && s.last() == '/' {
        without_trailing_slashes(s.drop_last())
    } else {
        s
    }
}

/// What is left without the slashes at the end is where the others begin: it does not
/// end in a slash, and nothing but slashes follows it.
pub proof fn lemma_only_trailing_slashes_go(s: Seq<char>) -> (n: int)
    ensures
        0 <= n <= s.len(),
        without_trailing_slashes(s) == s.take(n),
        n > 0 ==> s[n - 1] != '/',
        forall|i: int| n <= i < s.len() ==> #[trigger] s[i] == '/',
    decreases s.len(),
{
    if s.len() > 0 && s.last() == '/' {
        let n = lemma_only_trailing_slashes_go(s.drop_last());
        assert(s.drop_last().take(n) =~= s.take(n));
        assert forall|i: int| n <= i < s.len() implies #[trigger] s[i] == '/' by {
            if i < s.len() - 1 {
                assert(s.drop_last()[i] == '/');
            }
        }
        n
    } else {
        assert(s.take(s.len() as int) =~= s);
        s.len() as int
    }
}

/// `url` is `/tiles/` and `path`, put behind the part of `base_url` that ends at `n`.
/// That part does not end in a slash, and nothing but slashes follows it.
pub open spec fn is_below(url: Seq<char>, base_url: Seq<char>, n: int, path: Seq<char>) -> bool {
    &&& 0 <= n <= base_url.len()
    &&& url == base_url.take(n) + "/tiles/"@ + path
    &&& n > 0 ==> base_url[n - 1] != '/'
    &&& forall|i: int| n <= i < base_url.len() ==> #[trigger] base_url[i] == '/'
}

/// The URL of a tile ends in `/tiles/` and the path of the tile. Before that stands the
/// base URL, without the slashes at its end and with everything else.
pub proof fn lemma_tile_url_shape(base_url: Seq<char>, tile: TileId)
    ensures
        exists|n: int| #[trigger] is_below(tile_url(base_url, tile), base_url, n, tile.path()),
{
    let n = lemma_only_trailing_slashes_go(base_url);
    assert(is_below(tile_url(base_url, tile), base_url, n, tile.path()));
}

fn trim_trailing_slashes(s: &str) -> (trimmed: &str)
    ensures
        trimmed@ == without_trailing_slashes(s@),
{
    let mut end: usize = s.unicode_len();
    assert(s@ =~= s@.take(end as int));
    while end > 0 && s.get_char(end - 1) == '/'
        invariant
            end <= s@.len(),
            without_trailing_slashes(s@) == without_trailing_slashes(s@.take(end as int)),
        decreases end,
    {
        assert(s@.take(end as int).drop_last() =~= s@.take(end as int - 1));
        end -= 1;
    }
    s.substring_char(0, end)
}

/// What has to be known of the tile server to address it.
pub struct RatiClient {
    base_url: String,
}

/// A `GET` request for a tile.
#[derive(Debug)]
pub struct TileRequest {
    pub url: String,
    /// The path of the tile, for messages.
    pub path: String,
    /// The value of the `Accept-Encoding` header.
    pub accept_encoding: &'static str,
    pub encoding: Encoding,
}

/// What of a reply counts.
#[derive(Debug)]
pub struct TileReply {
    pub status: u16,
    /// The bytes of the `Content-Encoding` header, if there is one.
    pub content_encoding: Option<Vec<u8>>,
    pub content_length: Option<u64>,
}

/// What came of a request.
#[derive(Debug)]
pub struct TileFetch {
    pub outcome: Result<FetchOutcome, FetchError>,
    pub mismatch: Option<EncodingMismatch>,
}

/// A reply in another encoding than the one asked for. The size still counts.
#[derive(Debug, PartialEq, Eq)]
pub struct EncodingMismatch {
    pub requested: &'static str,
    pub got: String,
}

impl View for RatiClient {
    type V = Seq<char>;

    closed spec fn view(&self) -> Seq<char> {
        self.base_url@
    }
}

/// The URL of a tile on the server at `base_url`.
pub open spec fn tile_url(base_url: Seq<char>, tile: TileId) -> Seq<char> {
    without_trailing_slashes(base_url) + "/tiles/"@ + tile.path()
}

impl RatiClient {
    /// A client for the tile server at `base_url`.
    pub fn new(base_url: String) -> (client: RatiClient)
        ensures
            client@ == base_url@,
    {
        RatiClient { base_url }
    }

    /// The request for a tile in the given encoding.
    pub fn request(&self, tile: TileId, encoding: Encoding) -> (request: TileRequest)
        ensures
            request.url@ == tile_url(self@, tile),
            exists|n: int|
                #![trigger self@.take(n)]
                {
                    &&& 0 <= n <= self@.len()
                    &&& request.url@ == self@.take(n) + "/tiles/"@ + request.path@
                    &&& n > 0 ==> self@[n - 1] != '/'
                    &&& forall|i: int| n <= i < self@.len() ==> #[trigger] self@[i] == '/'
                },
            request.path@ == tile.path(),
            request.accept_encoding@ == encoding.name(),
            request.encoding == encoding,
    {
        let path = tile.to_path();
        let mut url = trim_trailing_slashes(self.base_url.as_str()).to_owned();
        url.append("/tiles/");
        url.append(path.as_str());
        proof {
            let n = lemma_only_trailing_slashes_go(self@);
            assert(url@ == self@.take(n) + "/tiles/"@ + path@);
        }
        TileRequest { url, path, accept_encoding: encoding.as_header_value(), encoding }
    }
}

/// What a reply to the request for the tile at `path` means; `Err` holds the reason
/// why none came. Status 200 is a tile and 404 is no tile. Any other status says
/// nothing of the tile, be it a success or not. The encoding of the reply does not
/// matter here.
pub open spec fn reply_outcome(path: String, reply: Result<TileReply, String>) -> Result<
    FetchOutcome,
    FetchError,
> {
    match reply {
        Err(reason) => Err(FetchError::Network(reason)),
        Ok(reply) => if reply.status == 404 {
            Ok(FetchOutcome::Missing)
        } else if reply.status != 200 {
            Err(FetchError::Upstream { status: reply.status, path })
        } else {
            match reply.content_length {
                Some(bytes) => Ok(FetchOutcome::Found(bytes)),
                None => Err(FetchError::MissingContentLength { path }),
            }
        },
    }
}

/// A byte that stands for itself as a character of a header.
pub open spec fn is_visible(b: u8) -> bool {
    32 <= b < 127 || b == 9
}

/// The name that a reply gives to its encoding. Without a header the body is as it
/// is stored, and a header that is not plain ASCII has no name.
pub open spec fn encoding_got(reply: TileReply) -> Seq<char> {
    match reply.content_encoding {
        None => "identity"@,
        Some(header) => if forall|i: int| 0 <= i < header@.len() ==> is_visible(header@[i]) {
            header@.map_values(|b: u8| b as char)
        } else {
            "<non-ascii>"@
        },
    }
}

/// The name that a reply gives to its encoding.
fn read_encoding(reply: &TileReply) -> (name: String)
    ensures
        name@ == encoding_got(*reply),
{
    match &reply.content_encoding {
        None => "identity".to_owned(),
        Some(header) => {
            let mut name = String::new();
            let mut i: usize = 0;
            while i < header.len()
                invariant
                    i <= header@.len(),
                    name@ == header@.take(i as int).map_values(|b: u8| b as char),
                    forall|j: int| 0 <= j < i ==> is_visible(header@[j]),
                    reply.content_encoding == Some(*header),
                decreases header.len() - i,
            {
                let b: u8 = header[i];
                if !((32 <= b && b < 127) || b == 9) {
                    assert(!is_visible(header@[i as int]));
                    return "<non-ascii>".to_owned();
                }
                name.push(b as char);
                i += 1;
                assert(name@ =~= header@.take(i as int).map_values(|b: u8| b as char));
            }
            assert(header@.take(i as int) =~= header@);
            name
        },
    }
}

impl TileRequest {
    /// Takes the reply to this request, or the reason why none came, for what it
    /// means. A tile in another encoding than the one asked for is reported, and its size
    /// counts all the same.
    pub fn read_reply(self, reply: Result<TileReply, String>) -> (fetch: TileFetch)
        ensures
            fetch.outcome == reply_outcome(self.path, reply),
            reply matches Err(reason) ==> fetch.outcome == Err::<FetchOutcome, FetchError>(
                FetchError::Network(reason),
            ),
            reply matches Ok(r) ==> {
                &&& r.status == 404 ==> fetch.outcome == Ok::<FetchOutcome, FetchError>(
                    FetchOutcome::Missing,
                )
                &&& r.status == 200 ==> match r.content_length {
                    Some(n) => fetch.outcome == Ok::<FetchOutcome, FetchError>(
                        FetchOutcome::Found(n),
                    ),
                    None => fetch.outcome == Err::<FetchOutcome, FetchError>(
                        FetchError::MissingContentLength { path: self.path },
                    ),
                }
                &&& r.status != 200 && r.status != 404 ==> fetch.outcome == Err::<
                    FetchOutcome,
                    FetchError,
                >(FetchError::Upstream { status: r.status, path: self.path })
            },
            fetch.mismatch is Some <==> reply is Ok && reply->Ok_0.status == 200
                && encoding_got(reply->Ok_0) != self.encoding.name(),
            fetch.mismatch matches Some(m) ==> {
                &&& m.requested@ == self.encoding.name()
                &&& m.got@ == encoding_got(reply->Ok_0)
            },
    {
        let reply = match reply {
            Ok(reply) => reply,
            Err(reason) => {
                return TileFetch { outcome: Err(FetchError::Network(reason)), mismatch: None };
            },
        };
        if reply.status == 404 {
            return TileFetch { outcome: Ok(FetchOutcome::Missing), mismatch: None };
        }
        if reply.status != 200 {
            return TileFetch {
                outcome: Err(FetchError::Upstream { status: reply.status, path: self.path }),
                mismatch: None,
            };
        }
        let requested = self.encoding.as_header_value();
        let got = read_encoding(&reply);
        let mismatch = if same_text(got.as_str(), requested) {
            None
        } else {
            Some(EncodingMismatch { requested, got })
        };
        let outcome = match reply.content_length {
            Some(bytes) => Ok(FetchOutcome::Found(bytes)),
            None => Err(FetchError::MissingContentLength { path: self.path }),
        };
        TileFetch { outcome, mismatch }
    }
}

/// A base URL may end in slashes: the URLs of tiles are the same as without.
pub proof fn lemma_trailing_slash_tolerated(base_url: Seq<char>, tile: TileId)
    ensures
        tile_url(base_url.push('/'), tile) == tile_url(base_url, tile),
{
    assert(base_url.push('/').drop_last() =~= base_url);
}

/// Different tiles have different URLs.
pub proof fn lemma_tile_url_injective(base_url: Seq<char>, a: TileId, b: TileId)
    requires
        tile_url(base_url, a) == tile_url(base_url, b),
    ensures
        a == b,
{
    let prefix = without_trailing_slashes(base_url) + "/tiles/"@;
    assert(a.path() =~= (prefix + a.path()).skip(prefix.len() as int));
    assert(b.path() =~= (prefix + b.path()).skip(prefix.len() as int));
    tiles::lemma_path_injective(a, b);
}

/// A reply without a `Content-Encoding` header is what was asked for exactly when no
/// encoding was asked for.
pub proof fn lemma_no_header_is_identity(reply: TileReply, encoding: Encoding)
    requires
        reply.content_encoding is None,
    ensures
        encoding_got(reply) == encoding.name() <==> encoding == Encoding::Identity,
{
    if encoding_got(reply) == encoding.name() {
        tiles::lemma_names_distinct(encoding, Encoding::Identity);
    }
}

/// A 200 reply gives the size of the tile as its own length, whatever that is, and a
/// 404 gives that there is no tile. A 200 without a length, any other status and no
/// reply at all are three different errors, which hold the path, the status or the
/// reason that they were given.
pub proof fn lemma_reply_means(path: String, reply: TileReply, n: u64, reason: String)
    ensures
        reply.status == 200 && reply.content_length == Some(n) ==> (reply_outcome(path, Ok(reply))
            matches Ok(FetchOutcome::Found(bytes)) && bytes == n),
        reply.status == 404 ==> reply_outcome(path, Ok(reply)) matches Ok(FetchOutcome::Missing),
        reply.status == 200 && reply.content_length is None ==> (reply_outcome(path, Ok(reply))
            matches Err(FetchError::MissingContentLength { path: p }) && p == path),
        reply.status != 200 && reply.status != 404 ==> (reply_outcome(path, Ok(reply))
            matches Err(FetchError::Upstream { status, path: p }) && status == reply.status && p
            == path),
        reply_outcome(path, Err(reason)) matches Err(FetchError::Network(r)) && r == reason,
{
}

/// Two 200 replies mean the same size exactly when they have the same length.
pub proof fn lemma_sizes_follow_lengths(path: String, a: TileReply, b: TileReply)
    requires
        a.status == 200,
        b.status == 200,
        a.content_length is Some,
        b.content_length is Some,
    ensures
        reply_outcome(path, Ok(a)) == reply_outcome(path, Ok(b)) <==> a.content_length
            == b.content_length,
{
}

/// The encoding of a reply is named by its header, byte for byte, where that is plain
/// ASCII; without a header it is `identity`.
pub proof fn lemma_encoding_got_is_the_header(reply: TileReply)
    ensures
        reply.content_encoding is None ==> encoding_got(reply) == "identity"@,
        reply.content_encoding matches Some(header) ==> {
            let plain = forall|i: int|
                0 <= i < header@.len() ==> (32 <= #[trigger] header@[i] <= 126 || header@[i] == 9);
            &&& plain ==> encoding_got(reply).len() == header@.len()
            &&& plain ==> forall|i: int|
                0 <= i < header@.len() ==> (#[trigger] encoding_got(reply)[i]) as int
                    == header@[i] as int
            &&& !plain ==> encoding_got(reply) == "<non-ascii>"@
        },
{
    if let Some(header) = reply.content_encoding {
        assert forall|i: int| 0 <= i < header@.len() implies is_visible(header@[i]) == (32
            <= #[trigger] header@[i] <= 126 || header@[i] == 9) by {}
        if forall|i: int|
            0 <= i < header@.len() ==> (32 <= #[trigger] header@[i] <= 126 || header@[i] == 9) {
            assert(forall|i: int| 0 <= i < header@.len() ==> is_visible(header@[i]));
        } else {
            let i = choose|i: int|
                0 <= i < header@.len() && !(32 <= #[trigger] header@[i] <= 126 || header@[i] == 9);
            assert(!is_visible(header@[i]));
        }
    }
}

/// What the text of each error says.
pub proof fn lemma_fetch_error_texts(status: u16, path: String, reason: String)
    ensures
        FetchError::Network(reason).text() == "network error: "@ + reason@,
        (FetchError::Upstream { status, path }).text() == "upstream returned status "@
            + text::decimal(status as nat) + " for "@ + path@,
        (FetchError::MissingContentLength { path }).text()
            == "upstream returned 200 OK without Content-Length for "@ + path@,
{
}

/// A reply says something of a tile only with status 404, or with status 200 and the
/// length of the body. Nothing else is ever taken for a size.
pub proof fn lemma_only_200_and_404_count(path: String, reply: TileReply)
    ensures
        reply_outcome(path, Ok(reply)) is Ok <==> reply.status == 404 || (reply.status == 200
            && reply.content_length is Some),
        reply.status != 200 && reply.status != 404 ==> reply_outcome(path, Ok(reply)) == Err::<
            FetchOutcome,
            FetchError,
        >(FetchError::Upstream { status: reply.status, path }),
{
}

/// In which encoding a reply came decides nothing about what it means.
pub proof fn lemma_outcome_ignores_encoding(path: String, a: TileReply, b: TileReply)
    requires
        a.status == b.status,
        a.content_length == b.content_length,
    ensures
        reply_outcome(path, Ok(a)) == reply_outcome(path, Ok(b)),
{
}

} // verus!
