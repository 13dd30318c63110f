//! The thumbnail cache: where a thumbnail is kept, and what to do, step by
//! step, to serve one.
//!
//! A thumbnail is kept in a file named by the SHA-256 digest of its address.
//! This module decides; the caller looks on disk, downloads and stores, and
//! reports back what happened.

use vstd::prelude::*;
use vstd::utf8::encode_utf8;
use sha2::{Digest, Sha256};
use crate::catalog::PLACEHOLDER_ICON;
use crate::text::{chars_of, has_prefix, push_str, same_text, starts_with, string_of};

verus! {

/// The SHA-256 digest of a byte string.
pub uninterp spec fn sha256_digest(data: Seq<u8>) -> Seq<u8>;

/// Computes the SHA-256 digest of `data` (`sha2::Sha256`, by
/// `Digest::digest`). The digest depends on the bytes alone and has 32 bytes.
#[verifier::external_body]
fn sha256(data: &[u8]) -> (digest: Vec<u8>)
    ensures
        digest@ == sha256_digest(data@),
        digest@.len() == 32,
{
    Sha256::digest(data).to_vec()
}

/// The lower-case hexadecimal digit for `v`.
pub open spec fn hex_digit(v: int) -> char
    recommends
        0 <= v < 16,
{
    if v == 0 {
        '0'
    } else if v == 1 {
        '1'
    } else if v == 2 {
        '2'
    } else if v == 3 {
        '3'
    } else if v == 4 {
        '4'
    } else if v == 5 {
        '5'
    } else if v == 6 {
        '6'
    } else if v == 7 {
        '7'
    } else if v == 8 {
        '8'
    } else if v == 9 {
        '9'
    } else if v == 10 {
        'a'
    } else if v == 11 {
        'b'
    } else if v == 12 {
        'c'
    } else if v == 13 {
        'd'
    } else if v == 14 {
        'e'
    } else {
        'f'
    }
}

/// The bytes written in lower-case hexadecimal, two digits for each.
pub open spec fn hex_of(bytes: Seq<u8>) -> Seq<char>
    decreases bytes.len(),
{
    if bytes.len() == 0 {
        Seq::empty()
    } else {
        hex_of(bytes.drop_last()).push(hex_digit(bytes.last() as int / 16)).push(
            hex_digit(bytes.last() as int % 16),
        )
    }
}

/// The name of the file that keeps the thumbnail whose address has the given digest.
pub open spec fn file_name_of_digest(digest: Seq<u8>) -> Seq<char> {
    hex_of(digest) + ".jpg"@
}

/// The name of the file that keeps the thumbnail with the address `url`.
pub open spec fn file_name_of(url: Seq<char>) -> Seq<char> {
    file_name_of_digest(sha256_digest(encode_utf8(url)))
}

/// The path under which the cached file `file_name` is served.
pub open spec fn served_path_of(file_name: Seq<char>) -> Seq<char> {
    "/image_cache/"@ + file_name
}

fn hex_char(v: u8) -> (c: char)
    requires
        v < 16,
    ensures
        c == hex_digit(v as int),
{
    if v == 0 {
        '0'
    } else if v == 1 {
        '1'
    } else if v == 2 {
        '2'
    } else if v == 3 {
        '3'
    } else if v == 4 {
        '4'
    } else if v == 5 {
        '5'
    } else if v == 6 {
        '6'
    } else if v == 7 {
        '7'
    } else if v == 8 {
        '8'
    } else if v == 9 {
        '9'
    } else if v == 10 {
        'a'
    } else if v == 11 {
        'b'
    } else if v == 12 {
        'c'
    } else if v == 13 {
        'd'
    } else if v == 14 {
        'e'
    } else {
        'f'
    }
}

/// Writes bytes in lower-case hexadecimal, two digits for each.
pub fn hex_encode(bytes: &[u8]) -> (hex: String)
    ensures
        hex@ == hex_of(bytes@),
{
    let mut out: Vec<char> = Vec::new();
    let mut i: usize = 0;
    assert(bytes@.take(0) =~= Seq::<u8>::empty());
    while i < bytes.len()
        invariant
            i <= bytes.len(),
            out@ == hex_of(bytes@.take(i as int)),
        decreases bytes.len() - i,
    {
        let b: u8 = bytes[i];
        assert(bytes@.take(i + 1).drop_last() =~= bytes@.take(i as int));
        assert(bytes@.take(i + 1).last() == b);
        out.push(hex_char(b / 16));
        out.push(hex_char(b % 16));
        i += 1;
    }
    assert(bytes@.take(i as int) =~= bytes@);
    string_of(&out)
}

/// The hexadecimal writing has two digits for each byte.
pub proof fn lemma_hex_len(bytes: Seq<u8>)
    ensures
        hex_of(bytes).len() == 2 * bytes.len(),
    decreases bytes.len(),
{
    if bytes.len() > 0 {
        lemma_hex_len(bytes.drop_last());
    }
}

/// A file name has two characters for each byte of the digest, and four for the extension.
pub proof fn lemma_file_name_len(digest: Seq<u8>)
    ensures
        file_name_of_digest(digest).len() == 2 * digest.len() + 4,
{
    lemma_hex_len(digest);
    reveal_strlit(".jpg");
}

/// Names the file that keeps the thumbnail whose address has the digest `digest`.
pub fn file_name_for_digest(digest: &[u8]) -> (name: String)
    ensures
        name@ == file_name_of_digest(digest@),
        name@.len() == 2 * digest@.len() + 4,
{
    proof {
        lemma_file_name_len(digest@);
    }
    let hex = hex_encode(digest);
    let mut out: Vec<char> = chars_of(hex.as_str());
    push_str(&mut out, ".jpg");
    string_of(&out)
}

/// Names the file that keeps the thumbnail with the address `url`: the 64
/// hexadecimal digits of the digest of the address, and the extension.
pub fn cache_file_name(url: &str) -> (name: String)
    ensures
        name@ == file_name_of(url@),
        sha256_digest(encode_utf8(url@)).len() == 32,
        hex_of(sha256_digest(encode_utf8(url@))).len() == 64,
        name@.len() == 68,
{
    proof {
        lemma_hex_len(sha256_digest(encode_utf8(url@)));
    }
    let digest = sha256(url.as_bytes());
    file_name_for_digest(&digest)
}

/// Gives the path under which the cached file `file_name` is served.
pub fn served_path(file_name: &str) -> (path: String)
    ensures
        path@ == served_path_of(file_name@),
{
    let mut out: Vec<char> = chars_of("/image_cache/");
    push_str(&mut out, file_name);
    string_of(&out)
}

/// The answer to a download: the content type it declares, if any, and its body.
#[derive(Debug, PartialEq, Eq)]
pub struct Response {
    pub content_type: Option<String>,
    pub body: Vec<u8>,
}

/// The mathematical value of a [`Response`].
pub struct ResponseView {
    pub content_type: Option<Seq<char>>,
    pub body: Seq<u8>,
}

impl View for Response {
    type V = ResponseView;

    open spec fn view(&self) -> ResponseView {
        ResponseView {
            content_type: match self.content_type {
                Some(t) => Some(t@),
                None => None,
            },
            body: self.body@,
        }
    }
}

/// Whether a response is kept: it declares a content type that begins with
/// `image/`, and its body is not empty. A response that declares no content
/// type is not kept.
pub open spec fn is_acceptable(response: ResponseView) -> bool {
    response.body.len() > 0 && match response.content_type {
        Some(t) => has_prefix(t, "image/"@),
        None => false,
    }
}

/// Tests whether a response is kept.
pub fn accepts(response: &Response) -> (kept: bool)
    ensures
        kept == is_acceptable(response@),
{
    if response.body.len() == 0 {
        return false;
    }
    match &response.content_type {
        Some(t) => {
            let declared = chars_of(t.as_str());
            let wanted = chars_of("image/");
            starts_with(&declared, &wanted)
        },
        None => false,
    }
}

/// How far a fetch has come.
#[derive(Clone, Copy, Debug, PartialEq, Eq)]
pub enum FetchStage {
    /// It waits to learn whether the file is in the cache.
    Probing,
    /// It waits for the download.
    Downloading,
    /// It waits for the file to be stored.
    Storing,
    /// It has said what to serve.
    Finished,
}

/// What the caller reports back.
#[derive(Debug, PartialEq, Eq)]
pub enum FetchEvent {
    /// The cache was looked at: the file is there, or it is not.
    Probed { cached: bool },
    /// The download gave a response.
    Downloaded(Response),
    /// The file was stored.
    Stored,
    /// Looking, downloading or storing failed.
    Failed,
}

/// The mathematical value of a [`FetchEvent`].
pub enum FetchEventView {
    Probed { cached: bool },
    Downloaded(ResponseView),
    Stored,
    Failed,
}

impl View for FetchEvent {
    type V = FetchEventView;

    open spec fn view(&self) -> FetchEventView {
        match self {
            FetchEvent::Probed { cached } => FetchEventView::Probed { cached: *cached },
            FetchEvent::Downloaded(response) => FetchEventView::Downloaded(response@),
            FetchEvent::Stored => FetchEventView::Stored,
            FetchEvent::Failed => FetchEventView::Failed,
        }
    }
}

/// What the caller is to do next.
#[derive(Debug, PartialEq, Eq)]
pub enum FetchAction {
    /// Look whether the cache holds the file `file_name`.
    Probe { file_name: String },
    /// Download what is at `url`.
    Download { url: String },
    /// Store `body` in the cache as the file `file_name`.
    Store { file_name: String, body: Vec<u8> },
    /// Serve `path`; the fetch has ended.
    Serve { path: String },
}

/// The mathematical value of a [`FetchAction`].
pub enum FetchActionView {
    Probe { file_name: Seq<char> },
    Download { url: Seq<char> },
    Store { file_name: Seq<char>, body: Seq<u8> },
    Serve { path: Seq<char> },
}

impl View for FetchAction {
    type V = FetchActionView;

    open spec fn view(&self) -> FetchActionView {
        match self {
            FetchAction::Probe { file_name } => FetchActionView::Probe { file_name: file_name@ },
            FetchAction::Download { url } => FetchActionView::Download { url: url@ },
            FetchAction::Store { file_name, body } => FetchActionView::Store {
                file_name: file_name@,
                body: body@,
            },
            FetchAction::Serve { path } => FetchActionView::Serve { path: path@ },
        }
    }
}

/// Whether the address asks for no fetch: it is empty, or it is the placeholder.
pub open spec fn needs_no_fetch(url: Seq<char>) -> bool {
    url.len() == 0 || url == PLACEHOLDER_ICON@
}

/// The end of a fetch that gives no thumbnail: the placeholder is served.
pub open spec fn unavailable() -> (FetchStage, FetchActionView) {
    (FetchStage::Finished, FetchActionView::Serve { path: PLACEHOLDER_ICON@ })
}

/// The end of a fetch that gives the cached thumbnail of `url`.
pub open spec fn available(url: Seq<char>) -> (FetchStage, FetchActionView) {
    (FetchStage::Finished, FetchActionView::Serve { path: served_path_of(file_name_of(url)) })
}

/// How a fetch of `url` begins: with a look into the cache, unless the
/// address asks for no fetch.
pub open spec fn fetch_begin(url: Seq<char>) -> (FetchStage, FetchActionView) {
    if needs_no_fetch(url) {
        unavailable()
    } else {
        (FetchStage::Probing, FetchActionView::Probe { file_name: file_name_of(url) })
    }
}

/// How a fetch of `url` goes on from `stage` when `event` is reported. A
/// file found in the cache is served without a download. A response that
/// declares an image type and has a body is stored as it is and then served.
/// A failure, any other response (one that declares no content type among
/// them), and a report that the stage does not wait for, end the fetch with
/// the placeholder, and nothing is stored.
pub open spec fn fetch_step(url: Seq<char>, stage: FetchStage, event: FetchEventView) -> (
    FetchStage,
    FetchActionView,
) {
    match stage {
        FetchStage::Probing => match event {
            FetchEventView::Probed { cached } => if cached {
                available(url)
            } else {
                (FetchStage::Downloading, FetchActionView::Download { url: url })
            },
            _ => unavailable(),
        },
        FetchStage::Downloading => match event {
            FetchEventView::Downloaded(response) => if is_acceptable(response) {
                (
                    FetchStage::Storing,
                    FetchActionView::Store { file_name: file_name_of(url), body: response.body },
                )
            } else {
                unavailable()
            },
            _ => unavailable(),
        },
        FetchStage::Storing => match event {
            FetchEventView::Stored => available(url),
            _ => unavailable(),
        },
        FetchStage::Finished => unavailable(),
    }
}

/// One fetch of a thumbnail, from its first step to the path to serve.
#[derive(Debug)]
pub struct ImageFetch {
    url: String,
    file_name: String,
    stage: FetchStage,
}

impl ImageFetch {
    #[verifier::type_invariant]
    spec fn named(&self) -> bool {
        self.stage != FetchStage::Finished ==> self.file_name@ == file_name_of(self.url@)
            && self.file_name@.len() == 68
    }

    /// The address that is fetched.
    pub closed spec fn url_view(&self) -> Seq<char> {
        self.url@
    }

    /// How far the fetch has come.
    pub closed spec fn stage_view(&self) -> FetchStage {
        self.stage
    }

    /// Begins the fetch of the thumbnail at `url` and says what to do first.
    pub fn begin(url: &str) -> (started: (ImageFetch, FetchAction))
        ensures
            started.0.url_view() == url@,
            (started.0.stage_view(), started.1@) == fetch_begin(url@),
            !needs_no_fetch(url@) ==> file_name_of(url@).len() == 68,
    {
        if url.is_empty() || same_text(url, PLACEHOLDER_ICON) {
            let fetch = ImageFetch {
                url: url.to_owned(),
                file_name: String::new(),
                stage: FetchStage::Finished,
            };
            (fetch, FetchAction::Serve { path: PLACEHOLDER_ICON.to_owned() })
        } else {
            let file_name = cache_file_name(url);
            let action = FetchAction::Probe { file_name: file_name.clone() };
            let fetch = ImageFetch { url: url.to_owned(), file_name, stage: FetchStage::Probing };
            (fetch, action)
        }
    }

    /// How far the fetch has come.
    pub fn stage(&self) -> (stage: FetchStage)
        ensures
            stage == self.stage_view(),
    {
        self.stage
    }

    /// Takes the report of what happened and says what to do next.
    pub fn advance(&mut self, event: FetchEvent) -> (action: FetchAction)
        ensures
            final(self).url_view() == old(self).url_view(),
            (final(self).stage_view(), action@) == fetch_step(
                old(self).url_view(),
                old(self).stage_view(),
                event@,
            ),
            old(self).stage_view() != FetchStage::Finished ==> file_name_of(
                old(self).url_view(),
            ).len() == 68,
    {
        proof {
            use_type_invariant(&*self);
        }
        match self.stage {
            FetchStage::Probing => match event {
                FetchEvent::Probed { cached } => {
                    if cached {
                        self.stage = FetchStage::Finished;
                        return FetchAction::Serve { path: served_path(self.file_name.as_str()) };
                    } else {
                        self.stage = FetchStage::Downloading;
                        return FetchAction::Download { url: self.url.clone() };
                    }
                },
                _ => {},
            },
            FetchStage::Downloading => match event {
                FetchEvent::Downloaded(response) => {
                    if accepts(&response) {
                        self.stage = FetchStage::Storing;
                        return FetchAction::Store {
                            file_name: self.file_name.clone(),
                            body: response.body,
                        };
                    }
                },
                _ => {},
            },
            FetchStage::Storing => match event {
                FetchEvent::Stored => {
                    self.stage = FetchStage::Finished;
                    return FetchAction::Serve { path: served_path(self.file_name.as_str()) };
                },
                _ => {},
            },
            FetchStage::Finished => {},
        }
        self.stage = FetchStage::Finished;
        FetchAction::Serve { path: PLACEHOLDER_ICON.to_owned() }
    }
}

/// How a fetch ended in a world where the cache is `disk`: the cache
/// afterwards, the path served, and whether a download was made.
pub struct FetchRun {
    pub disk: Map<Seq<char>, Seq<u8>>,
    pub path: Seq<char>,
    pub downloaded: bool,
}

/// The fetch of `url` carried on from `stage` and `action`, every action
/// done as asked: a look into the cache tells whether `disk` holds the file, a
/// download gives `response` or fails where there is none, and storing puts
/// the file into `disk`. At most `steps` actions are done.
pub open spec fn run_from(
    disk: Map<Seq<char>, Seq<u8>>,
    url: Seq<char>,
    stage: FetchStage,
    action: FetchActionView,
    response: Option<ResponseView>,
    downloaded: bool,
    steps: nat,
) -> FetchRun
    decreases steps,
{
    match action {
        FetchActionView::Serve { path } => FetchRun { disk: disk, path: path, downloaded: downloaded },
        FetchActionView::Probe { file_name } => if steps == 0 {
            FetchRun { disk: disk, path: PLACEHOLDER_ICON@, downloaded: downloaded }
        } else {
            let next = fetch_step(
                url,
                stage,
                FetchEventView::Probed { cached: disk.dom().contains(file_name) },
            );
            run_from(disk, url, next.0, next.1, response, downloaded, (steps - 1) as nat)
        },
        FetchActionView::Download { url: from } => if steps == 0 {
            FetchRun { disk: disk, path: PLACEHOLDER_ICON@, downloaded: downloaded }
        } else {
            let event = match response {
                Some(r) => FetchEventView::Downloaded(r),
                None => FetchEventView::Failed,
            };
            let next = fetch_step(url, stage, event);
            run_from(disk, url, next.0, next.1, response, true, (steps - 1) as nat)
        },
        FetchActionView::Store { file_name, body } => if steps == 0 {
            FetchRun { disk: disk, path: PLACEHOLDER_ICON@, downloaded: downloaded }
        } else {
            let next = fetch_step(url, stage, FetchEventView::Stored);
            run_from(
                disk.insert(file_name, body),
                url,
                next.0,
                next.1,
                response,
                downloaded,
                (steps - 1) as nat,
            )
        },
    }
}

/// One whole fetch of `url` in a world where the cache is `disk` and a
/// download would give `response`.
pub open spec fn fetch_run(
    disk: Map<Seq<char>, Seq<u8>>,
    url: Seq<char>,
    response: Option<ResponseView>,
) -> FetchRun {
    let start = fetch_begin(url);
    run_from(disk, url, start.0, start.1, response, false, 4)
}

/// Whether a fetch of `url` that ended as `run` failed: the address asked
/// for a fetch, and the cached thumbnail was not served.
pub open spec fn fetch_failed(url: Seq<char>, run: FetchRun) -> bool {
    !needs_no_fetch(url) && run.path != served_path_of(file_name_of(url))
}

/// After a fetch that did not fail, a second fetch of the same address
/// serves the same path, makes no download and leaves the cache as it is,
/// whatever a download would give.
pub proof fn lemma_fetch_idempotent(
    disk: Map<Seq<char>, Seq<u8>>,
    url: Seq<char>,
    first: Option<ResponseView>,
    second: Option<ResponseView>,
)
    requires
        !fetch_failed(url, fetch_run(disk, url, first)),
    ensures
        fetch_run(fetch_run(disk, url, first).disk, url, second).path == fetch_run(
            disk,
            url,
            first,
        ).path,
        !fetch_run(fetch_run(disk, url, first).disk, url, second).downloaded,
        fetch_run(fetch_run(disk, url, first).disk, url, second).disk == fetch_run(
            disk,
            url,
            first,
        ).disk,
{
    reveal_with_fuel(run_from, 5);
    reveal_strlit("/image_cache/");
    reveal_strlit("/static/placeholder.png");
    let served = served_path_of(file_name_of(url));
    assert(served[1] == 'i');
    assert(PLACEHOLDER_ICON@[1] == 's');
    assert(served != PLACEHOLDER_ICON@);
}

/// A fetch that fails leaves the cache as it is.
pub proof fn lemma_failed_fetch_writes_nothing(
    disk: Map<Seq<char>, Seq<u8>>,
    url: Seq<char>,
    response: Option<ResponseView>,
)
    requires
        fetch_failed(url, fetch_run(disk, url, response)),
    ensures
        fetch_run(disk, url, response).disk == disk,
        fetch_run(disk, url, response).path == PLACEHOLDER_ICON@,
{
    reveal_with_fuel(run_from, 5);
}

/// A fetch stores a file only where the cache does not hold it yet, and then
/// the body of the response as it is, under the name that belongs to the address.
pub proof fn lemma_fetch_stores_the_body(
    disk: Map<Seq<char>, Seq<u8>>,
    url: Seq<char>,
    response: Option<ResponseView>,
)
    ensures
        fetch_run(disk, url, response).disk == disk || (response.is_some() && !disk.dom().contains(
            file_name_of(url),
        ) && fetch_run(disk, url, response).disk == disk.insert(
            file_name_of(url),
            response.unwrap().body,
        )),
{
    reveal_with_fuel(run_from, 5);
}

} // verus!
