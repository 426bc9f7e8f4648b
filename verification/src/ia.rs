//! What the archive's search and metadata endpoints return, and the
//! decisions taken on it.

use vstd::prelude::*;
use crate::error::Error;
use crate::text::{
    clone_opt_text, clone_opt_texts, decimal, decimal_string, digit_char, opt_text, opt_texts,
    push_decimal, str_eq,
};

verus! {

/// The detail record of one archive item: where its files live and what they are.
#[derive(Debug, PartialEq, Eq)]
pub struct ExtendedMetadata {
    pub created: i64,
    pub files: Vec<File>,
    pub files_count: i64,
    pub item_last_updated: i64,
    pub item_size: i64,
    pub server: String,
    pub uniq: i64,
    pub directory: String,
}

/// One file of an archive item.
#[derive(Debug, PartialEq, Eq)]
pub struct File {
    pub crc32: Option<String>,
    pub format: String,
    pub height: Option<String>,
    pub length: Option<String>,
    pub md5: String,
    pub mtime: Option<String>,
    pub name: String,
    pub sha1: Option<String>,
    pub size: Option<String>,
    pub source: String,
    pub width: Option<String>,
    pub original: Option<String>,
    pub btih: Option<String>,
    pub summation: Option<String>,
}

/// One record of the archive's search results.
#[derive(Debug, PartialEq, Eq)]
pub struct MetadataItem {
    pub collections: Option<Vec<String>>,
    pub creator: Option<String>,
    pub date: Option<String>,
    pub description: Option<String>,
    pub external_identifier: Option<String>,
    pub identifier: String,
    pub item_size: Option<u64>,
    pub title: String,
}

/// One page of search results. A page without a cursor is the last one.
#[derive(Debug, PartialEq, Eq)]
pub struct MetadataResponse {
    pub count: u64,
    pub cursor: Option<String>,
    pub items: Vec<MetadataItem>,
    pub total: u64,
}

/// A catalog item as a mathematical value.
pub struct CatalogItem {
    pub collections: Option<Seq<Seq<char>>>,
    pub creator: Option<Seq<char>>,
    pub date: Option<Seq<char>>,
    pub description: Option<Seq<char>>,
    pub external_identifier: Option<Seq<char>>,
    pub identifier: Seq<char>,
    pub item_size: Option<nat>,
    pub title: Seq<char>,
}

impl View for MetadataItem {
    type V = CatalogItem;

    open spec fn view(&self) -> CatalogItem {
        CatalogItem {
            collections: opt_texts(self.collections),
            creator: opt_text(self.creator),
            date: opt_text(self.date),
            description: opt_text(self.description),
            external_identifier: opt_text(self.external_identifier),
            identifier: self.identifier@,
            item_size: match self.item_size {
                Some(n) => Some(n as nat),
                None => None,
            },
            title: self.title@,
        }
    }
}

impl Clone for MetadataItem {
    fn clone(&self) -> (copy: Self)
        ensures
            copy@ == self@,
    {
        MetadataItem {
            collections: clone_opt_texts(&self.collections),
            creator: clone_opt_text(&self.creator),
            date: clone_opt_text(&self.date),
            description: clone_opt_text(&self.description),
            external_identifier: clone_opt_text(&self.external_identifier),
            identifier: self.identifier.clone(),
            item_size: self.item_size,
            title: self.title.clone(),
        }
    }
}

/// The catalog items of a list of search records, in order.
pub open spec fn catalog_items(items: Seq<MetadataItem>) -> Seq<CatalogItem> {
    Seq::new(items.len(), |i: int| items[i]@)
}

/// Bytes in a kibibyte.
pub const KB: u64 = 1024;

/// Bytes in a mebibyte.
pub const MB: u64 = 1024 * 1024;

/// Bytes in a gibibyte.
pub const GB: u64 = 1024 * 1024 * 1024;

/// `n / d` rounded to the nearest integer, a tie going to the even neighbour.
pub open spec fn round_half_even(n: nat, d: nat) -> nat
    recommends
        d > 0,
{
    let q = n / d;
    let r = n % d;
    if 2 * r > d || (2 * r == d && q % 2 == 1) {
        q + 1
    } else {
        q
    }
}

/// The distance between neighbouring double-precision numbers around `n`:
/// one up to 2^53, and twice as much for each further binary digit.
pub open spec fn double_spacing(n: nat) -> nat {
    if n < 0x20_0000_0000_0000 {
        1
    } else if n < 0x40_0000_0000_0000 {
        2
    } else if n < 0x80_0000_0000_0000 {
        4
    } else if n < 0x100_0000_0000_0000 {
        8
    } else if n < 0x200_0000_0000_0000 {
        16
    } else if n < 0x400_0000_0000_0000 {
        32
    } else if n < 0x800_0000_0000_0000 {
        64
    } else if n < 0x1000_0000_0000_0000 {
        128
    } else if n < 0x2000_0000_0000_0000 {
        256
    } else if n < 0x4000_0000_0000_0000 {
        512
    } else if n < 0x8000_0000_0000_0000 {
        1024
    } else {
        2048
    }
}

/// The double-precision number nearest to a 64-bit count `n`, a tie going
/// to the one with the even significand.
pub open spec fn nearest_double(n: nat) -> nat {
    round_half_even(n, double_spacing(n)) * double_spacing(n)
}

/// A byte count in hundredths of `unit`, as double-precision division and
/// rounding to two decimal places give it.
pub open spec fn hundredths(bytes: nat, unit: nat) -> nat {
    round_half_even(nearest_double(bytes) * 100, unit)
}

/// A number of hundredths written with two decimal places.
pub open spec fn two_places(h: nat) -> Seq<char> {
    decimal(h / 100) + seq!['.', digit_char(h % 100 / 10), digit_char(h % 10)]
}

/// A byte count for a reader: plain bytes below one kibibyte, otherwise the
/// largest of KB, MB and GB that does not exceed it, with two decimal places.
pub open spec fn format_bytes_text(bytes: nat) -> Seq<char> {
    if bytes < KB {
        decimal(bytes) + " B"@
    } else if bytes < MB {
        two_places(hundredths(bytes, KB as nat)) + " KB"@
    } else if bytes < GB {
        two_places(hundredths(bytes, MB as nat)) + " MB"@
    } else {
        two_places(hundredths(bytes, GB as nat)) + " GB"@
    }
}

/// `n / d` rounded to the nearest integer, a tie going to the even neighbour.
fn rounded_quotient(n: u128, d: u128) -> (q: u128)
    requires
        d > 0,
        n <= 0xffff_ffff_ffff_ffff_ffff_ffff,
    ensures
        q == round_half_even(n as nat, d as nat),
{
    let q = n / d;
    let r = n % d;
    if r > d - r || (r == d - r && q % 2 == 1) {
        q + 1
    } else {
        q
    }
}

/// The distance between neighbouring double-precision numbers around `n`.
fn spacing(n: u64) -> (s: u128)
    ensures
        s == double_spacing(n as nat),
        1 <= s <= 2048,
{
    if n < 0x20_0000_0000_0000 {
        1
    } else if n < 0x40_0000_0000_0000 {
        2
    } else if n < 0x80_0000_0000_0000 {
        4
    } else if n < 0x100_0000_0000_0000 {
        8
    } else if n < 0x200_0000_0000_0000 {
        16
    } else if n < 0x400_0000_0000_0000 {
        32
    } else if n < 0x800_0000_0000_0000 {
        64
    } else if n < 0x1000_0000_0000_0000 {
        128
    } else if n < 0x2000_0000_0000_0000 {
        256
    } else if n < 0x4000_0000_0000_0000 {
        512
    } else if n < 0x8000_0000_0000_0000 {
        1024
    } else {
        2048
    }
}

/// The double-precision number nearest to `n`.
fn nearest(n: u64) -> (d: u128)
    ensures
        d == nearest_double(n as nat),
        d <= 0x1_0000_0000_0000_0000,
{
    let step = spacing(n);
    let steps = rounded_quotient(n as u128, step);
    assert(steps <= 0x20_0000_0000_0000);
    assert(steps * step <= 0x1_0000_0000_0000_0000) by (nonlinear_arith)
        requires
            steps <= 0x20_0000_0000_0000,
            step <= 2048,
    ;
    steps * step
}

/// The byte count `bytes` in hundredths of `unit`.
fn scaled(bytes: u64, unit: u64) -> (h: u64)
    requires
        unit == KB || unit == MB || unit == GB,
    ensures
        h == hundredths(bytes as nat, unit as nat),
{
    let h = rounded_quotient(nearest(bytes) * 100, unit as u128);
    h as u64
}

/// Appends a number of hundredths with two decimal places, then `suffix`.
fn push_two_places(out: &mut String, h: u64, suffix: &str)
    ensures
        final(out)@ == old(out)@ + two_places(h as nat) + suffix@,
{
    push_decimal(out, h / 100);
    out.append(".");
    push_decimal(out, h % 100 / 10);
    push_decimal(out, h % 10);
    out.append(suffix);
    proof {
        reveal_strlit(".");
        assert("."@ =~= seq!['.']);
        assert(decimal((h % 100 / 10) as nat) =~= seq![digit_char((h % 100 / 10) as nat)]);
        assert(decimal((h % 10) as nat) =~= seq![digit_char((h % 10) as nat)]);
        assert(out@ =~= old(out)@ + two_places(h as nat) + suffix@);
    }
}

/// A byte count for a reader: `"512 B"`, `"1.50 KB"`, `"3.25 MB"`, `"2.00 GB"`.
///
/// Counts from one kibibyte on are shown in the largest unit that does not
/// exceed them, rounded to two decimal places as double-precision arithmetic
/// rounds them.
pub fn format_bytes(bytes: u64) -> (text: String)
    ensures
        text@ == format_bytes_text(bytes as nat),
{
    let mut text = String::new();
    if bytes < KB {
        push_decimal(&mut text, bytes);
        text.append(" B");
        assert(text@ =~= format_bytes_text(bytes as nat));
    } else if bytes < MB {
        push_two_places(&mut text, scaled(bytes, KB), " KB");
        assert(text@ =~= format_bytes_text(bytes as nat));
    } else if bytes < GB {
        push_two_places(&mut text, scaled(bytes, MB), " MB");
        assert(text@ =~= format_bytes_text(bytes as nat));
    } else {
        push_two_places(&mut text, scaled(bytes, GB), " GB");
        assert(text@ =~= format_bytes_text(bytes as nat));
    }
    text
}

/// The longest text, in bytes, that is handed to the URL and path routines.
pub const MAX_TEXT: usize = 0x100_0000;

/// The largest number of query parameters that is handed to the URL routines.
pub const MAX_PARAMS: usize = 8;

/// Items asked for per page of search results.
pub const PAGE_SIZE: usize = 10_000;

/// The length of a text in bytes of UTF-8.
pub open spec fn byte_len(text: Seq<char>) -> nat {
    vstd::utf8::encode_utf8(text).len()
}

/// Whether a text is short enough to be handed to the URL routines.
pub open spec fn fits(text: Seq<char>) -> bool {
    byte_len(text) <= MAX_TEXT
}

/// Query parameters as mathematical values.
pub open spec fn pairs(params: Seq<(String, String)>) -> Seq<(Seq<char>, Seq<char>)> {
    Seq::new(params.len(), |i: int| (params[i].0@, params[i].1@))
}

/// Whether a list of query parameters is short enough, in number and in
/// the length of each name and value.
pub open spec fn params_fit(params: Seq<(Seq<char>, Seq<char>)>) -> bool {
    &&& params.len() <= MAX_PARAMS
    &&& forall|i: int| 0 <= i < params.len() ==> fits((#[trigger] params[i]).0) && fits(params[i].1)
}

/// The URL that results from parsing `base` and appending `params` to its
/// query string, each name and value form-encoded; `None` where `base` does
/// not parse as an absolute URL.
pub uninterp spec fn url_with_params(
    base: Seq<char>,
    params: Seq<(Seq<char>, Seq<char>)>,
) -> Option<Seq<char>>;

/// The URL that results from parsing `base` and replacing its path by
/// `path`; `None` where `base` does not parse as an absolute URL.
pub uninterp spec fn url_with_path(base: Seq<char>, path: Seq<char>) -> Option<Seq<char>>;

/// The path that results from adjoining `name` to the directory `folder`.
pub uninterp spec fn joined_path(folder: Seq<char>, name: Seq<char>) -> Seq<char>;

/// `url::Url::parse_with_params`, by way of `reqwest::Url`: parses `base`,
/// appends the pairs to the query string and hands back the serialized URL.
/// The contract only names the result; the size limits keep the URL within
/// the 32-bit offsets that the URL type uses.
#[verifier::external_body]
fn parse_with_params(base: &str, params: &Vec<(String, String)>) -> (url: Option<String>)
    requires
        fits(base@),
        params_fit(pairs(params@)),
    ensures
        opt_text(url) == url_with_params(base@, pairs(params@)),
{
    reqwest::Url::parse_with_params(base, params).ok().map(String::from)
}

/// `url::Url::parse` followed by `url::Url::set_path`, by way of
/// `reqwest::Url`: hands back the serialized URL with the new path. The
/// contract only names the result; the size limits keep the URL within the
/// 32-bit offsets that the URL type uses.
#[verifier::external_body]
fn parse_with_path(base: &str, path: &str) -> (url: Option<String>)
    requires
        fits(base@),
        fits(path@),
    ensures
        opt_text(url) == url_with_path(base@, path@),
{
    let mut url = reqwest::Url::parse(base).ok()?;
    url.set_path(path);
    Some(url.into())
}

/// `camino::Utf8Path::join`: `name` adjoined to `folder`. The contract only
/// names the result.
#[verifier::external_body]
fn join_path(folder: &str, name: &str) -> (path: String)
    ensures
        path@ == joined_path(folder@, name@),
{
    camino::Utf8Path::new(folder).join(name).into_string()
}

/// Whether `text` is short enough to be handed to the URL routines.
fn text_fits(text: &str) -> (ok: bool)
    ensures
        ok == fits(text@),
{
    text.as_bytes().len() <= MAX_TEXT
}

/// Whether `params` are few and short enough to be handed to the URL routines.
fn all_fit(params: &Vec<(String, String)>) -> (ok: bool)
    ensures
        ok == params_fit(pairs(params@)),
{
    if params.len() > MAX_PARAMS {
        return false;
    }
    let mut i: usize = 0;
    while i < params.len()
        invariant
            i <= params.len(),
            forall|k: int|
                0 <= k < i ==> fits((#[trigger] pairs(params@)[k]).0) && fits(pairs(params@)[k].1),
        decreases params.len() - i,
    {
        assert(pairs(params@)[i as int] == (params@[i as int].0@, params@[i as int].1@));
        if !text_fits(params[i].0.as_str()) || !text_fits(params[i].1.as_str()) {
            return false;
        }
        i += 1;
    }
    true
}

/// Where searches are sent.
pub open spec fn search_endpoint() -> Seq<char> {
    "https://archive.org/services/search/v1/scrape"@
}

/// Where item details are asked for.
pub open spec fn archive_root() -> Seq<char> {
    "https://archive.org"@
}

/// The query parameters of a search: the query, all fields, the page size
/// and, from the second page on, the cursor of the page before.
pub open spec fn search_params(query: Seq<char>, count: nat, cursor: Option<Seq<char>>) -> Seq<
    (Seq<char>, Seq<char>),
> {
    let fixed = seq![("q"@, query), ("fields"@, "*"@), ("count"@, decimal(count))];
    match cursor {
        Some(c) => fixed.push(("cursor"@, c)),
        None => fixed,
    }
}

/// The URL of a search request, if its parts are short enough and the
/// endpoint parses.
pub open spec fn search_url(query: Seq<char>, count: nat, cursor: Option<Seq<char>>) -> Option<
    Seq<char>,
> {
    let params = search_params(query, count, cursor);
    if fits(search_endpoint()) && params_fit(params) {
        url_with_params(search_endpoint(), params)
    } else {
        None
    }
}

/// The path under which the details of the item `identifier` are served.
pub open spec fn details_path(identifier: Seq<char>) -> Seq<char> {
    "/metadata/"@ + identifier
}

/// The URL of a details request, if its parts are short enough and the
/// archive's address parses.
pub open spec fn details_url(identifier: Seq<char>) -> Option<Seq<char>> {
    if fits(archive_root()) && fits(details_path(identifier)) {
        url_with_path(archive_root(), details_path(identifier))
    } else {
        None
    }
}

/// Whether a file is in the container that is streamed.
pub open spec fn is_video_file(file: File) -> bool {
    file.format@ == "MPEG4"@
}

/// Whether `k` is the position of the first streamable file among `files`.
pub open spec fn is_first_video_file(files: Seq<File>, k: int) -> bool {
    &&& 0 <= k < files.len()
    &&& is_video_file(files[k])
    &&& forall|j: int| 0 <= j < k ==> !is_video_file(#[trigger] files[j])
}

/// Position of the first streamable file among `files`.
pub open spec fn first_video_file(files: Seq<File>) -> Option<int> {
    if exists|k: int| is_first_video_file(files, k) {
        Some(choose|k: int| is_first_video_file(files, k))
    } else {
        None
    }
}

/// The address of the file `name` of an item stored under `directory` on `server`.
pub open spec fn file_url(server: Seq<char>, directory: Seq<char>, name: Seq<char>) -> Seq<char> {
    "https://"@ + server + directory + "/"@ + name
}

/// The query parameters of a search request: the query, all fields, the
/// page size and, where there is one, the cursor of the page before.
pub fn search_query(query: &str, count: usize, cursor: Option<String>) -> (params: Vec<
    (String, String),
>)
    ensures
        pairs(params@) == search_params(query@, count as nat, opt_text(cursor)),
{
    let mut params: Vec<(String, String)> = Vec::new();
    params.push(("q".to_owned(), query.to_owned()));
    params.push(("fields".to_owned(), "*".to_owned()));
    params.push(("count".to_owned(), decimal_string(count as u64)));
    match cursor {
        Some(c) => {
            params.push(("cursor".to_owned(), c));
        },
        None => {},
    }
    assert(pairs(params@) =~= search_params(query@, count as nat, opt_text(cursor)));
    params
}

/// The path under which the details of the item `identifier` are served.
pub fn metadata_path(identifier: &str) -> (path: String)
    ensures
        path@ == details_path(identifier@),
{
    let mut path = "/metadata/".to_owned();
    path.append(identifier);
    path
}

/// The address of the file `name` of an item stored under `directory` on
/// `server`.
pub fn media_url(server: &str, directory: &str, name: &str) -> (url: String)
    ensures
        url@ == file_url(server@, directory@, name@),
{
    let mut url = "https://".to_owned();
    url.append(server);
    url.append(directory);
    url.append("/");
    url.append(name);
    url
}

/// What to fetch and where to put it.
#[derive(Debug, PartialEq, Eq)]
pub struct DownloadTarget {
    /// The address of the media file.
    pub url: String,
    /// The path of the file on disk.
    pub path: String,
}

/// The archive's endpoints: which requests to send, and what to take from
/// the answers.
#[derive(Debug, Default, Clone, Copy)]
pub struct InternetArchive {}

impl InternetArchive {
    /// The URL of the search request for one page of `count` items, starting
    /// at `cursor`, the token that the page before carried.
    ///
    /// Fails with `UpstreamIO` where no such URL can be formed.
    pub fn search(&self, query: &str, count: usize, cursor: Option<String>) -> (res: Result<
        String,
        Error,
    >)
        ensures
            match search_url(query@, count as nat, opt_text(cursor)) {
                Some(url) => res matches Ok(u) && u@ == url,
                None => res matches Err(e) && e == Error::UpstreamIO,
            },
    {
        let params = search_query(query, count, cursor);
        let endpoint = "https://archive.org/services/search/v1/scrape";
        if !text_fits(endpoint) || !all_fit(&params) {
            return Err(Error::UpstreamIO);
        }
        match parse_with_params(endpoint, &params) {
            Some(url) => Ok(url),
            None => Err(Error::UpstreamIO),
        }
    }

    /// Starts a walk over all pages of results for `query`.
    pub fn search_all(&self, query: &str) -> (walk: SearchWalk)
        ensures
            walk@ == WalkState::start(query@),
    {
        SearchWalk { query: query.to_owned(), cursor: None, finished: false, failed: false }
    }

    /// The URL of the request for the details of the item `identifier`.
    ///
    /// Fails with `UpstreamIO` where no such URL can be formed.
    pub fn get_item_details(&self, identifier: &str) -> (res: Result<String, Error>)
        ensures
            match details_url(identifier@) {
                Some(url) => res matches Ok(u) && u@ == url,
                None => res matches Err(e) && e == Error::UpstreamIO,
            },
    {
        let path = metadata_path(identifier);
        let root = "https://archive.org";
        if !text_fits(root) || !text_fits(path.as_str()) {
            return Err(Error::UpstreamIO);
        }
        match parse_with_path(root, path.as_str()) {
            Some(url) => Ok(url),
            None => Err(Error::UpstreamIO),
        }
    }

    /// Picks the file to stream among the files of an item and says where it
    /// is fetched from and where in `folder` it goes.
    ///
    /// The file is the first one in the MPEG4 container. Fails with
    /// `NotFound` when the item has none.
    pub fn download_video(&self, details: &ExtendedMetadata, folder: &str) -> (res: Result<
        DownloadTarget,
        Error,
    >)
        ensures
            match first_video_file(details.files@) {
                Some(k) => res matches Ok(target) && target.url@ == file_url(
                    details.server@,
                    details.directory@,
                    details.files@[k].name@,
                ) && target.path@ == joined_path(folder@, details.files@[k].name@),
                None => res matches Err(e) && e == Error::NotFound,
            },
    {
        let mut i: usize = 0;
        while i < details.files.len()
            invariant
                i <= details.files.len(),
                forall|j: int| 0 <= j < i ==> !is_video_file(#[trigger] details.files@[j]),
            decreases details.files.len() - i,
        {
            let file = &details.files[i];
            if str_eq(file.format.as_str(), "MPEG4") {
                proof {
                    let files = details.files@;
                    assert(is_first_video_file(files, i as int));
                    let c = first_video_file(files)->0;
                    assert(is_first_video_file(files, c));
                    if c < i {
                        assert(!is_video_file(files[c]));
                    } else if i < c {
                        assert(!is_video_file(files[i as int]));
                    }
                }
                let url = media_url(
                    details.server.as_str(),
                    details.directory.as_str(),
                    file.name.as_str(),
                );
                let path = join_path(folder, file.name.as_str());
                return Ok(DownloadTarget { url, path });
            }
            i += 1;
        }
        proof {
            let files = details.files@;
            assert forall|k: int| !is_first_video_file(files, k) by {
                if 0 <= k < files.len() {
                    assert(!is_video_file(files[k]));
                }
            }
        }
        Err(Error::NotFound)
    }
}

/// One page of search results as a mathematical value.
pub struct Page {
    pub count: nat,
    pub cursor: Option<Seq<char>>,
    pub items: Seq<CatalogItem>,
    pub total: nat,
}

impl View for MetadataResponse {
    type V = Page;

    open spec fn view(&self) -> Page {
        Page {
            count: self.count as nat,
            cursor: opt_text(self.cursor),
            items: catalog_items(self.items@),
            total: self.total as nat,
        }
    }
}

/// A walk over the pages of a search as a mathematical value.
pub struct WalkState {
    /// What is searched for.
    pub query: Seq<char>,
    /// The cursor that the next request carries.
    pub cursor: Option<Seq<char>>,
    /// Whether the walk is over: no further request is made.
    pub finished: bool,
    /// Whether the walk ended because a page could not be had.
    pub failed: bool,
}

impl WalkState {
    /// A walk before its first request.
    pub open spec fn start(query: Seq<char>) -> WalkState {
        WalkState { query, cursor: None, finished: false, failed: false }
    }

    /// The walk after a page has arrived: it takes over the page's cursor
    /// and ends when the page has none.
    pub open spec fn accept(self, page: Page) -> WalkState {
        if self.finished {
            self
        } else {
            WalkState {
                query: self.query,
                cursor: page.cursor,
                finished: page.cursor is None,
                failed: false,
            }
        }
    }

    /// The walk after a page could not be fetched or decoded: it is over.
    pub open spec fn fail(self) -> WalkState {
        if self.finished {
            self
        } else {
            WalkState { query: self.query, cursor: self.cursor, finished: true, failed: true }
        }
    }

    /// The items that a page contributes to the walk.
    pub open spec fn yields(self, page: Page) -> Seq<CatalogItem> {
        if self.finished {
            Seq::empty()
        } else {
            page.items
        }
    }

    /// The walk after the pages have arrived one after the other.
    pub open spec fn accept_all(self, pages: Seq<Page>) -> WalkState
        decreases pages.len(),
    {
        if pages.len() == 0 {
            self
        } else {
            self.accept_all(pages.drop_last()).accept(pages.last())
        }
    }

    /// The items that the walk has handed out once the pages have arrived
    /// one after the other.
    pub open spec fn yields_all(self, pages: Seq<Page>) -> Seq<CatalogItem>
        decreases pages.len(),
    {
        if pages.len() == 0 {
            Seq::empty()
        } else {
            self.yields_all(pages.drop_last()) + self.accept_all(pages.drop_last()).yields(
                pages.last(),
            )
        }
    }
}

/// The items of all pages, page after page.
pub open spec fn all_items(pages: Seq<Page>) -> Seq<CatalogItem>
    decreases pages.len(),
{
    if pages.len() == 0 {
        Seq::empty()
    } else {
        all_items(pages.drop_last()) + pages.last().items
    }
}

/// Whether every page but the last carries a cursor, and the last carries none.
pub open spec fn ends_with_last_page(pages: Seq<Page>) -> bool {
    &&& pages.len() > 0
    &&& forall|i: int| 0 <= i < pages.len() - 1 ==> (#[trigger] pages[i]).cursor is Some
    &&& pages.last().cursor is None
}

/// While every page carries a cursor the walk goes on: it hands out every
/// item of every page once, in page order, and its next request carries the
/// cursor of the page before.
pub proof fn lemma_walk_goes_on(query: Seq<char>, pages: Seq<Page>)
    requires
        forall|i: int| 0 <= i < pages.len() ==> (#[trigger] pages[i]).cursor is Some,
    ensures
        !WalkState::start(query).accept_all(pages).finished,
        !WalkState::start(query).accept_all(pages).failed,
        WalkState::start(query).accept_all(pages).query == query,
        WalkState::start(query).accept_all(pages).cursor == if pages.len() == 0 {
            None
        } else {
            pages.last().cursor
        },
        WalkState::start(query).yields_all(pages) == all_items(pages),
    decreases pages.len(),
{
    if pages.len() > 0 {
        let front = pages.drop_last();
        assert forall|i: int| 0 <= i < front.len() implies (#[trigger] front[i]).cursor is Some by {
            assert(front[i] == pages[i]);
        }
        lemma_walk_goes_on(query, front);
    }
}

/// Pagination completeness: over an upstream whose pages all carry a
/// cursor but the last, the walk hands out every item of every page exactly
/// once, in page order, and ends with the last page.
pub proof fn lemma_walk_complete(query: Seq<char>, pages: Seq<Page>)
    requires
        ends_with_last_page(pages),
    ensures
        WalkState::start(query).yields_all(pages) == all_items(pages),
        WalkState::start(query).accept_all(pages).finished,
        !WalkState::start(query).accept_all(pages).failed,
        forall|i: int|
            0 <= i < pages.len() ==> !(#[trigger] WalkState::start(query).accept_all(
                pages.take(i),
            )).finished,
{
    let front = pages.drop_last();
    assert forall|i: int| 0 <= i < front.len() implies (#[trigger] front[i]).cursor is Some by {
        assert(front[i] == pages[i]);
    }
    lemma_walk_goes_on(query, front);
    assert forall|i: int| 0 <= i < pages.len() implies !(#[trigger] WalkState::start(
        query,
    ).accept_all(pages.take(i))).finished by {
        let seen = pages.take(i);
        assert forall|j: int| 0 <= j < seen.len() implies (#[trigger] seen[j]).cursor is Some by {
            assert(seen[j] == pages[j]);
        }
        lemma_walk_goes_on(query, seen);
    }
}

/// A failed page ends the walk for good: whatever arrives afterwards, the
/// walk stays as it is and hands out nothing.
pub proof fn lemma_failed_walk_is_over(walk: WalkState, pages: Seq<Page>)
    requires
        !walk.finished,
    ensures
        walk.fail().finished,
        walk.fail().failed,
        walk.fail().accept_all(pages) == walk.fail(),
        walk.fail().yields_all(pages) == Seq::<CatalogItem>::empty(),
    decreases pages.len(),
{
    if pages.len() > 0 {
        lemma_failed_walk_is_over(walk, pages.drop_last());
    }
}

/// A walk over the pages of a search: which request comes next, and what
/// each answer contributes.
#[derive(Debug)]
pub struct SearchWalk {
    query: String,
    cursor: Option<String>,
    finished: bool,
    failed: bool,
}

impl View for SearchWalk {
    type V = WalkState;

    closed spec fn view(&self) -> WalkState {
        WalkState {
            query: self.query@,
            cursor: opt_text(self.cursor),
            finished: self.finished,
            failed: self.failed,
        }
    }
}

impl SearchWalk {
    /// Whether the walk is over: the last page has been seen, or a page
    /// could not be had.
    pub fn finished(&self) -> (done: bool)
        ensures
            done == self@.finished,
    {
        self.finished
    }

    /// Whether the walk ended because a page could not be had.
    pub fn failed(&self) -> (failed: bool)
        ensures
            failed == self@.failed,
    {
        self.failed
    }

    /// The URL of the request for the next page, or `None` once the last
    /// page has been seen. Every request asks for `PAGE_SIZE` items and
    /// carries the cursor of the page before.
    pub fn next_request(&self) -> (res: Option<Result<String, Error>>)
        ensures
            self@.finished ==> res is None,
            !self@.finished ==> (res matches Some(request) && match search_url(
                self@.query,
                PAGE_SIZE as nat,
                self@.cursor,
            ) {
                Some(url) => request matches Ok(u) && u@ == url,
                None => request matches Err(e) && e == Error::UpstreamIO,
            }),
    {
        if self.finished {
            None
        } else {
            let ia = InternetArchive {  };
            Some(ia.search(self.query.as_str(), PAGE_SIZE, clone_opt_text(&self.cursor)))
        }
    }

    /// Takes the answer to the last request.
    ///
    /// A page hands out its items in order, leaves its cursor for the next
    /// request and ends the walk if it has none. A failure to fetch or
    /// decode the page ends the walk and is handed back: no later page is
    /// asked for, and ingestion starts over from the first page. Whatever
    /// arrives after the end contributes nothing.
    pub fn accept(&mut self, response: Result<MetadataResponse, Error>) -> (res: Result<
        Vec<MetadataItem>,
        Error,
    >)
        ensures
            match response {
                Ok(page) => final(self)@ == old(self)@.accept(page@) && (res matches Ok(items)
                    && catalog_items(items@) == old(self)@.yields(page@)),
                Err(e) => final(self)@ == old(self)@.fail() && if old(self)@.finished {
                    res matches Ok(items) && items@.len() == 0
                } else {
                    res matches Err(err) && err == e
                },
            },
    {
        if self.finished {
            let items: Vec<MetadataItem> = Vec::new();
            assert(catalog_items(items@) =~= Seq::<CatalogItem>::empty());
            return Ok(items);
        }
        match response {
            Ok(page) => {
                let MetadataResponse { count: _, cursor, items, total: _ } = page;
                self.finished = cursor.is_none();
                self.failed = false;
                self.cursor = cursor;
                Ok(items)
            },
            Err(e) => {
                self.finished = true;
                self.failed = true;
                Err(e)
            },
        }
    }
}

/// How much of a download has arrived, and when to say so.
#[derive(Debug)]
pub struct DownloadProgress {
    progress: u64,
    reads: u64,
}

/// Chunks between two reports of progress.
pub const REPORT_EVERY: u64 = 500;

impl DownloadProgress {
    /// Bytes received so far.
    pub closed spec fn received(&self) -> nat {
        self.progress as nat
    }

    /// Chunks received so far.
    pub closed spec fn chunks(&self) -> nat {
        self.reads as nat
    }

    /// Nothing received yet.
    pub fn new() -> (p: DownloadProgress)
        ensures
            p.received() == 0,
            p.chunks() == 0,
    {
        DownloadProgress { progress: 0, reads: 0 }
    }

    /// Bytes received so far.
    pub fn bytes(&self) -> (n: u64)
        ensures
            n == self.received(),
    {
        self.progress
    }

    /// Counts a chunk of `len` bytes and says whether progress is to be
    /// reported now: on the first chunk and on every `REPORT_EVERY`th after
    /// it. Both counts stop at the largest 64-bit number.
    pub fn record_chunk(&mut self, len: usize) -> (report: bool)
        ensures
            final(self).received() == if old(self).received() + len <= u64::MAX {
                old(self).received() + len
            } else {
                u64::MAX as int
            },
            final(self).chunks() == if old(self).chunks() < u64::MAX {
                old(self).chunks() + 1
            } else {
                u64::MAX as nat
            },
            report == (old(self).chunks() % (REPORT_EVERY as nat) == 0),
    {
        let report = self.reads % REPORT_EVERY == 0;
        self.progress = if len as u64 <= u64::MAX - self.progress {
            self.progress + len as u64
        } else {
            u64::MAX
        };
        self.reads = if self.reads < u64::MAX {
            self.reads + 1
        } else {
            u64::MAX
        };
        report
    }

    /// The progress line: bytes received of `content_len` bytes expected.
    pub fn report(&self, content_len: u64) -> (line: String)
        ensures
            line@ == "Downloaded "@ + format_bytes_text(self.received()) + " / "@
                + format_bytes_text(content_len as nat),
    {
        let mut line = "Downloaded ".to_owned();
        let got = format_bytes(self.progress);
        line.append(got.as_str());
        line.append(" / ");
        let of = format_bytes(content_len);
        line.append(of.as_str());
        line
    }
}

} // verus!
