//! The decisions of a check: how many requests run at once, which URLs a host
//! is tried at and in what order, how much of a body is kept, what is read out
//! of an answer, what a run prints, and how a host's answer for missing pages
//! is fingerprinted.

use vstd::prelude::*;

use rand::distr::SampleString;
use std::collections::HashSet;

use crate::structs::{
    filter_accepts, same_extras, same_page_counts, same_request, HTTPFilters, HttpData, LibOptions,
    StatusFilter,
};
use crate::text::{
    chars_of, count_lines, count_words, decimal, decimal_string, lemma_line_count_by_line_feeds,
    line_count, parse_u64,
    parse_unsigned, word_count,
};
use crate::utils::return_random_user_agent;

verus! {

/// Most of a response body that is ever read.
///
/// Applied while receiving: a body can be gigabytes, and trimming afterwards
/// would already have paid for the transfer.
pub const MAX_BODY_BYTES: usize = 1048576;

/// Labels appended to a host when fingerprinting its answer for missing pages.
pub const SOFT_404_PROBE_LEN: usize = 16;

/// How many requests to keep in flight.
///
/// Never zero: a stream that may hold no request in flight never finishes.
pub fn concurrency(requested: usize, work: usize) -> (threads: usize)
    ensures
        threads == if requested < work {
            if requested == 0 { 1 } else { requested }
        } else {
            if work == 0 { 1 } else { work }
        },
        threads >= 1,
        work >= 1 ==> threads <= work,
        requested >= 1 ==> threads <= requested,
{
    let smaller = if requested < work { requested } else { work };
    if smaller < 1 { 1 } else { smaller }
}

/// How many times to try a host.
///
/// Never zero: `retries` defaults to zero, and a loop bounded by it would skip
/// the host entirely instead of checking it once.
pub fn attempts(retries: usize) -> (tries: usize)
    ensures
        tries == spec_attempts(retries),
        retries >= 1 ==> tries == retries,
        retries == 0 ==> tries == 1,
{
    if retries < 1 { 1 } else { retries }
}

/// The URL of the `n`-th request for `host` (counted from zero): HTTPS first,
/// then plain HTTP, in turn.
pub open spec fn attempt_url(host: Seq<char>, n: nat) -> Seq<char> {
    if n % 2 == 0 {
        "https://"@ + host
    } else {
        "http://"@ + host
    }
}

/// How many times a host with `retries` is tried, as `attempts` gives it.
pub open spec fn spec_attempts(retries: usize) -> nat {
    if retries == 0 {
        1
    } else {
        retries as nat
    }
}

/// The URL of the `n`-th request (counted from zero) that a check of `host`
/// makes, or `None` when no further request is made.
///
/// Tried in order, never raced: a refused connection on port 80 wins a race
/// against a working TLS handshake and cancels it, marking the host dead.
/// Each round tries HTTPS, then plain HTTP; a host gets at least one round,
/// whatever `retries` says. The caller stops at the first request that works.
pub fn fetch_attempt_url(host: &str, retries: usize, n: usize) -> (url: Option<String>)
    ensures
        url is Some <==> n < 2 * spec_attempts(retries),
        url is Some <==> (n < 2 * retries || n < 2),
        url matches Some(u) ==> u@ == attempt_url(host@, n as nat),
{
    let rounds = attempts(retries);
    if n / 2 >= rounds {
        return None;
    }
    let mut url = if n % 2 == 0 {
        "https://".to_owned()
    } else {
        "http://".to_owned()
    };
    url.append(host);
    Some(url)
}

/// Room to reserve for a body whose length the answer declared.
pub fn capped_capacity(declared: Option<u64>) -> (capacity: usize)
    ensures
        capacity == match declared {
            Some(len) => if len > usize::MAX {
                0
            } else if len > MAX_BODY_BYTES {
                MAX_BODY_BYTES as int
            } else {
                len as int
            },
            None => 0,
        },
        capacity <= MAX_BODY_BYTES,
{
    match declared {
        Some(len) => {
            if len > usize::MAX as u64 {
                0
            } else if len > MAX_BODY_BYTES as u64 {
                MAX_BODY_BYTES
            } else {
                len as usize
            }
        },
        None => 0,
    }
}

/// What is kept of a body that arrives as `chunks`: all of it, cut at
/// [`MAX_BODY_BYTES`].
pub open spec fn capped_body(chunks: Seq<Seq<u8>>) -> Seq<u8>
    decreases chunks.len(),
{
    if chunks.len() == 0 {
        Seq::<u8>::empty()
    } else {
        let kept = capped_body(chunks.drop_last());
        let room = MAX_BODY_BYTES - kept.len();
        let chunk = chunks.last();
        kept + chunk.take(if chunk.len() < room { chunk.len() as int } else { room })
    }
}

/// Appends as much of `chunk` to `body` as fits under [`MAX_BODY_BYTES`].
pub fn append_capped(body: &mut Vec<u8>, chunk: &[u8])
    requires
        old(body)@.len() <= MAX_BODY_BYTES,
    ensures
        final(body)@ == old(body)@ + chunk@.take(
            if chunk@.len() < MAX_BODY_BYTES - old(body)@.len() {
                chunk@.len() as int
            } else {
                MAX_BODY_BYTES - old(body)@.len()
            },
        ),
        final(body)@.len() <= MAX_BODY_BYTES,
        forall|chunks: Seq<Seq<u8>>|
            old(body)@ == capped_body(chunks) ==> final(body)@ == #[trigger] capped_body(
                chunks.push(chunk@),
            ),
{
    proof {
        assert forall|chunks: Seq<Seq<u8>>| #[trigger]
            capped_body(chunks.push(chunk@)) == capped_body(chunks) + chunk@.take(
                if chunk@.len() < MAX_BODY_BYTES - capped_body(chunks).len() {
                    chunk@.len() as int
                } else {
                    MAX_BODY_BYTES - capped_body(chunks).len()
                },
            ) by {
            assert(chunks.push(chunk@).drop_last() =~= chunks);
        }
    }
    let room = MAX_BODY_BYTES - body.len();
    let take = if room < chunk.len() {
        room
    } else {
        chunk.len()
    };
    let ghost before = body@;
    body.extend_from_slice(vstd::slice::slice_subrange(chunk, 0, take));
    assert(body@ =~= before + chunk@.take(take as int));
}

/// The buffer a body is read into, with room reserved for the length the
/// answer declared. Whatever the declared length, it starts empty: the
/// declaration sizes the buffer and never decides what is kept.
pub fn start_body(declared: Option<u64>) -> (body: Vec<u8>)
    ensures
        body@ == capped_body(Seq::<Seq<u8>>::empty()),
        body@.len() == 0,
{
    Vec::with_capacity(capped_capacity(declared))
}

/// Whether a body being read has room for more: once [`MAX_BODY_BYTES`] are
/// held, no further chunk is asked for.
pub fn wants_more(body: &Vec<u8>) -> (more: bool)
    ensures
        more == (body@.len() < MAX_BODY_BYTES),
{
    body.len() < MAX_BODY_BYTES
}

/// Once a body holds [`MAX_BODY_BYTES`], further chunks leave it as it is, so
/// stopping there keeps the same bytes as reading on.
pub proof fn lemma_full_body_stays(chunks: Seq<Seq<u8>>, more: Seq<u8>)
    requires
        capped_body(chunks).len() == MAX_BODY_BYTES,
    ensures
        capped_body(chunks.push(more)) == capped_body(chunks),
{
    assert(chunks.push(more).drop_last() =~= chunks);
    assert(more.take(0) =~= Seq::<u8>::empty());
    assert(capped_body(chunks) + more.take(0) =~= capped_body(chunks));
}

/// A whole read keeps the same bytes whatever length the answer declared: a
/// body started by [`start_body`] for any declared length, and grown chunk by
/// chunk with [`append_capped`] while [`wants_more`] holds, is `capped_body`
/// of the chunks, which is the stream cut at [`MAX_BODY_BYTES`].
pub proof fn lemma_read_ignores_declared_length(chunks: Seq<Seq<u8>>, stop: int)
    requires
        0 <= stop <= chunks.len(),
        stop < chunks.len() ==> capped_body(chunks.take(stop)).len() == MAX_BODY_BYTES,
    ensures
        capped_body(chunks.take(stop)) == capped_body(chunks),
        capped_body(chunks) == concat_chunks(chunks).take(
            if concat_chunks(chunks).len() < MAX_BODY_BYTES {
                concat_chunks(chunks).len() as int
            } else {
                MAX_BODY_BYTES as int
            },
        ),
    decreases chunks.len() - stop,
{
    if stop < chunks.len() {
        lemma_full_body_stays(chunks.take(stop), chunks[stop]);
        assert(chunks.take(stop).push(chunks[stop]) =~= chunks.take(stop + 1));
        lemma_read_ignores_declared_length(chunks, stop + 1);
    } else {
        assert(chunks.take(stop) =~= chunks);
    }
    lemma_capped_body_is_prefix(chunks);
}

/// Flattens `chunks` into one sequence of bytes.
pub open spec fn concat_chunks(chunks: Seq<Seq<u8>>) -> Seq<u8>
    decreases chunks.len(),
{
    if chunks.len() == 0 {
        Seq::<u8>::empty()
    } else {
        concat_chunks(chunks.drop_last()) + chunks.last()
    }
}

/// A body read chunk by chunk is what arrived, cut at [`MAX_BODY_BYTES`]:
/// never longer than that, and never other than the first bytes received.
pub proof fn lemma_capped_body_is_prefix(chunks: Seq<Seq<u8>>)
    ensures
        capped_body(chunks) == concat_chunks(chunks).take(
            if concat_chunks(chunks).len() < MAX_BODY_BYTES {
                concat_chunks(chunks).len() as int
            } else {
                MAX_BODY_BYTES as int
            },
        ),
        capped_body(chunks).len() <= MAX_BODY_BYTES,
    decreases chunks.len(),
{
    if chunks.len() > 0 {
        let prev = chunks.drop_last();
        lemma_capped_body_is_prefix(prev);
        let all = concat_chunks(chunks);
        let before = concat_chunks(prev);
        let chunk = chunks.last();
        assert(all =~= before + chunk);
        let kept = capped_body(prev);
        let room = MAX_BODY_BYTES - kept.len();
        let n = if chunk.len() < room { chunk.len() as int } else { room };
        let cut = if all.len() < MAX_BODY_BYTES { all.len() as int } else { MAX_BODY_BYTES as int };
        if before.len() < MAX_BODY_BYTES {
            assert(kept =~= before);
            assert(capped_body(chunks) =~= all.take(cut));
        } else {
            assert(room == 0);
            assert(capped_body(chunks) =~= kept);
            assert(all.take(cut) =~= before.take(MAX_BODY_BYTES as int));
        }
    } else {
        assert(concat_chunks(chunks).take(0) =~= Seq::<u8>::empty());
    }
}


/// What a check reads of an answer before its body: the scheme and text of
/// the URL it ended at, and its status code.
pub struct ResponseHead {
    pub scheme: String,
    pub status: u16,
    pub url: String,
}

/// Whether a check with `options` reads the bodies of the answers.
pub open spec fn reads_body(options: &LibOptions) -> bool {
    options.collect_body || options.return_filters
}

/// Records the answer of `http_data`'s host (`Some`), or that it gave none
/// (`None`), and tells whether the body of the answer is to be read.
///
/// An answer whose body is read is marked active once it has been read.
pub fn record_fetch(http_data: &mut HttpData, head: Option<&ResponseHead>, options: &LibOptions) -> (read_body: bool)
    ensures
        read_body == (head is Some && reads_body(options)),
        final(http_data).checked_host == old(http_data).checked_host,
        same_page_counts(old(http_data), final(http_data)),
        same_extras(old(http_data), final(http_data)),
        final(http_data).title == old(http_data).title,
        final(http_data).body == old(http_data).body,
        match head {
            Some(h) => {
                &&& final(http_data).protocol@ == h.scheme@
                &&& final(http_data).status_code == h.status
                &&& final(http_data).final_url@ == h.url@
                &&& if reads_body(options) {
                    final(http_data).http_status == old(http_data).http_status
                } else {
                    final(http_data).http_status@ == "ACTIVE"@
                }
            },
            None => {
                &&& final(http_data).http_status@ == "INACTIVE"@
                &&& same_request(old(http_data), final(http_data))
            },
        },
{
    match head {
        Some(h) => {
            http_data.protocol = h.scheme.clone();
            http_data.status_code = h.status;
            http_data.final_url = h.url.clone();
            if options.collect_body || options.return_filters {
                true
            } else {
                http_data.http_status = "ACTIVE".to_owned();
                false
            }
        },
        None => {
            http_data.http_status = "INACTIVE".to_owned();
            false
        },
    }
}

/// What `scraper` finds in `document` for `selector`: the inner HTML of the
/// first element that matches, `None` where none matches or the selector does
/// not parse.
pub uninterp spec fn first_inner_html(document: Seq<char>, selector: Seq<char>) -> Option<Seq<char>>;

/// Parses `document` once with `scraper::Html::parse_document`, and for each of
/// two selectors read by `scraper::Selector::parse` gives the `inner_html` of
/// the first element that `Html::select` yields; `None` where none does or the
/// selector does not parse. Each result is a function of the document and the
/// selector alone, named `first_inner_html`.
#[verifier::external_body]
fn first_inner_htmls(document: &str, first: &str, second: &str) -> (found: (Option<String>, Option<String>))
    ensures
        found.0.deep_view() == first_inner_html(document@, first@),
        found.1.deep_view() == first_inner_html(document@, second@),
{
    let html = scraper::Html::parse_document(document);
    let first = match scraper::Selector::parse(first) {
        Ok(selector) => html.select(&selector).next().as_ref().map(scraper::ElementRef::inner_html),
        Err(_) => None,
    };
    let second = match scraper::Selector::parse(second) {
        Ok(selector) => html.select(&selector).next().as_ref().map(scraper::ElementRef::inner_html),
        Err(_) => None,
    };
    (first, second)
}

/// What was found, or `NULL` where nothing was.
pub open spec fn or_null(found: Option<Seq<char>>) -> Seq<char> {
    match found {
        Some(text) => text,
        None => "NULL"@,
    }
}

/// Sets the title and body of `http_data` to what was found of them, each
/// `NULL` where nothing was.
pub fn apply_title_and_body(http_data: &mut HttpData, title: Option<String>, body: Option<String>)
    ensures
        final(http_data).title@ == or_null(title.deep_view()),
        final(http_data).body@ == or_null(body.deep_view()),
        final(http_data).http_status == old(http_data).http_status,
        same_request(old(http_data), final(http_data)),
        same_page_counts(old(http_data), final(http_data)),
        same_extras(old(http_data), final(http_data)),
{
    http_data.title = match title {
        Some(text) => text,
        None => "NULL".to_owned(),
    };
    http_data.body = match body {
        Some(text) => text,
        None => "NULL".to_owned(),
    };
}

/// Extracts the title and body of an HTML document.
pub fn return_title_and_body(http_data: &mut HttpData, body: &str)
    ensures
        final(http_data).title@ == or_null(first_inner_html(body@, "title"@)),
        final(http_data).body@ == or_null(first_inner_html(body@, "body"@)),
        final(http_data).http_status == old(http_data).http_status,
        same_request(old(http_data), final(http_data)),
        same_page_counts(old(http_data), final(http_data)),
        same_extras(old(http_data), final(http_data)),
{
    let (title, inner) = first_inner_htmls(body, "title", "body");
    apply_title_and_body(http_data, title, inner);
}


/// The text that `String::from_utf8_lossy` makes of `bytes`.
pub uninterp spec fn utf8_lossy_text(bytes: Seq<u8>) -> Seq<char>;

/// `bytes` as text with `String::from_utf8_lossy`: each invalid sequence is
/// replaced by U+FFFD, and valid UTF-8 reads as what it encodes. The text is a
/// function of the bytes alone, named `utf8_lossy_text`.
#[verifier::external_body]
fn utf8_lossy(bytes: &[u8]) -> (text: String)
    ensures
        text@ == utf8_lossy_text(bytes@),
        vstd::utf8::valid_utf8(bytes@) ==> text@ == vstd::utf8::decode_utf8(bytes@),
{
    String::from_utf8_lossy(bytes).into_owned()
}

/// What a check reads of an answer once its body has arrived: the host of the
/// URL it ended at, the `Content-Type` and `Content-Length` headers where they
/// read as text, all headers written out, and the first bytes of the body.
pub struct ResponseData {
    pub host: Option<String>,
    pub content_type: Option<String>,
    pub content_length: Option<String>,
    pub headers: String,
    pub body: Vec<u8>,
}

/// The number of lines a check records for a body: one more than `str::lines`
/// counts, where that fits in a `usize`.
pub open spec fn recorded_lines(text: Seq<char>) -> nat {
    if line_count(text) < usize::MAX {
        line_count(text) + 1
    } else {
        usize::MAX as nat
    }
}

/// Fills in what the text of a body tells: its title and body, words, lines.
pub fn assign_body_text(http_data: &mut HttpData, text: &str)
    ensures
        final(http_data).title@ == or_null(first_inner_html(text@, "title"@)),
        final(http_data).body@ == or_null(first_inner_html(text@, "body"@)),
        final(http_data).words_count == word_count(text@),
        final(http_data).lines == recorded_lines(text@),
        final(http_data).lines as int == vstd::math::min(
            text@.filter(|c: char| c == '\n').len() + (if text@.len() > 0 && text@.last() != '\n' {
                1int
            } else {
                0int
            }) + 1,
            usize::MAX as int,
        ),
        final(http_data).http_status == old(http_data).http_status,
        final(http_data).content_type == old(http_data).content_type,
        final(http_data).headers == old(http_data).headers,
        final(http_data).content_length == old(http_data).content_length,
        final(http_data).points_to_another_host == old(http_data).points_to_another_host,
        same_request(old(http_data), final(http_data)),
        same_extras(old(http_data), final(http_data)),
{
    proof {
        lemma_recorded_lines_by_line_feeds(text@);
    }
    return_title_and_body(http_data, text);
    let chars = chars_of(text);
    http_data.words_count = count_words(&chars);
    let lines = count_lines(&chars);
    http_data.lines = if lines < usize::MAX {
        lines + 1
    } else {
        lines
    };
}

/// The length a check records for a body: the declared `Content-Length`
/// where it reads as a `u64`, else the number of bytes read.
pub open spec fn recorded_length(declared: Option<String>, body_len: nat) -> nat {
    match declared {
        Some(text) => match parse_unsigned(text@, u64::MAX as nat) {
            Some(n) => n,
            None => body_len,
        },
        None => body_len,
    }
}

/// Fills in everything that can only be known by reading the body, and gives
/// the host whose answers for missing pages are to be fingerprinted, where the
/// options ask for that (the empty host where the URL has none).
pub fn assign_response_data(http_data: &mut HttpData, response: &ResponseData, options: &LibOptions) -> (probe_host: Option<String>)
    ensures
        final(http_data).http_status@ == "ACTIVE"@,
        final(http_data).content_type@ == match response.content_type {
            Some(value) => value@,
            None => Seq::<char>::empty(),
        },
        final(http_data).headers@ == response.headers@,
        final(http_data).content_length == recorded_length(response.content_length, response.body@.len()),
        final(http_data).title@ == or_null(first_inner_html(utf8_lossy_text(response.body@), "title"@)),
        final(http_data).body@ == or_null(first_inner_html(utf8_lossy_text(response.body@), "body"@)),
        final(http_data).words_count == word_count(utf8_lossy_text(response.body@)),
        final(http_data).lines == recorded_lines(utf8_lossy_text(response.body@)),
        vstd::utf8::valid_utf8(response.body@) ==> {
            let text = vstd::utf8::decode_utf8(response.body@);
            &&& final(http_data).title@ == or_null(first_inner_html(text, "title"@))
            &&& final(http_data).body@ == or_null(first_inner_html(text, "body"@))
            &&& final(http_data).words_count == word_count(text)
            &&& final(http_data).lines == recorded_lines(text)
        },
        final(http_data).points_to_another_host == match response.host {
            Some(host) => host@ != old(http_data).checked_host@,
            None => true,
        },
        same_request(old(http_data), final(http_data)),
        same_extras(old(http_data), final(http_data)),
        probe_host.deep_view() == if options.return_filters {
            Some(match response.host {
                Some(host) => host@,
                None => Seq::<char>::empty(),
            })
        } else {
            None
        },
{
    http_data.http_status = "ACTIVE".to_owned();
    http_data.content_type = match &response.content_type {
        Some(value) => value.clone(),
        None => String::new(),
    };
    let declared = match &response.content_length {
        Some(value) => parse_u64(value.as_str()),
        None => None,
    };
    http_data.headers = response.headers.clone();
    http_data.content_length = match declared {
        Some(n) => n,
        None => response.body.len() as u64,
    };
    let text = utf8_lossy(response.body.as_slice());
    assign_body_text(http_data, text.as_str());
    http_data.points_to_another_host = match &response.host {
        Some(host) => !host.eq(&http_data.checked_host),
        None => true,
    };
    if options.return_filters {
        Some(
            match &response.host {
                Some(host) => host.clone(),
                None => String::new(),
            },
        )
    } else {
        None
    }
}


/// The line a run prints for `data`, if any: only for a host that answered
/// (it has a final URL) with a status that `filter` accepts, and only where
/// the run prints at all.
pub open spec fn report_line(
    print_results: bool,
    show_full_data: bool,
    data: HttpData,
    filter: (Set<u16>, Set<u16>),
) -> Option<Seq<char>> {
    if !print_results || data.final_url@.len() == 0 || !filter_accepts(
        filter.0,
        filter.1,
        data.status_code,
    ) {
        None
    } else if show_full_data {
        Some(
            data.checked_host@ + ",["@ + data.final_url@ + "],["@ + decimal(data.status_code as nat)
                + "]"@,
        )
    } else {
        Some(data.protocol@ + "://"@ + data.checked_host@)
    }
}

/// Decides what a run prints of the hosts it confirms, one line per host.
pub struct Writer {
    pub print_results: bool,
    pub show_full_data: bool,
}

impl Writer {
    /// A writer for a run with `options`.
    pub fn new(options: &LibOptions) -> (writer: Self)
        ensures
            writer.print_results == options.print_results,
            writer.show_full_data == options.show_full_data,
    {
        Writer { print_results: options.print_results, show_full_data: options.show_full_data }
    }

    /// The line to print for `http_data`, without its line ending, if any.
    pub fn report(&self, http_data: &HttpData, filter: &StatusFilter) -> (line: Option<String>)
        ensures
            line is Some <==> {
                &&& self.print_results
                &&& http_data.final_url@.len() > 0
                &&& filter_accepts(filter@.0, filter@.1, http_data.status_code)
            },
            line.deep_view() == report_line(
                self.print_results,
                self.show_full_data,
                *http_data,
                filter@,
            ),
    {
        if !self.print_results {
            return None;
        }
        if http_data.final_url.as_str().is_empty() || !filter.accepts(http_data.status_code) {
            return None;
        }
        if self.show_full_data {
            let mut line = http_data.checked_host.clone();
            line.append(",[");
            line.append(http_data.final_url.as_str());
            line.append("],[");
            let code = decimal_string(http_data.status_code as u64);
            line.append(code.as_str());
            line.append("]");
            Some(line)
        } else {
            let mut line = http_data.protocol.clone();
            line.append("://");
            line.append(http_data.checked_host.as_str());
            Some(line)
        }
    }
}

/// How many redirects the HTTP client of a run follows: `None` for a policy
/// that follows none, else the limit.
pub fn redirect_limit(max_redirects: usize) -> (limit: Option<usize>)
    ensures
        limit == if max_redirects == 0 {
            None
        } else {
            Some(max_redirects)
        },
{
    if max_redirects == 0 {
        None
    } else {
        Some(max_redirects)
    }
}

/// Whether `c` is an ASCII letter or digit.
pub open spec fn is_ascii_alphanumeric(c: char) -> bool {
    ||| 'a' <= c <= 'z'
    ||| 'A' <= c <= 'Z'
    ||| '0' <= c <= '9'
}

/// A fresh label of `len` random characters, each from `A-Z`, `a-z` or `0-9`,
/// sampled from `rand::distr::Alphanumeric` with the thread's generator
/// `rand::rng()` through `SampleString::sample_string`. Which characters come
/// out is chance. `rand::rng()` panics only where the system's random source
/// cannot seed it.
#[verifier::external_body]
fn random_label(len: usize) -> (label: String)
    ensures
        label@.len() == len,
        forall|i: int| 0 <= i < label@.len() ==> is_ascii_alphanumeric(#[trigger] label@[i]),
{
    rand::distr::Alphanumeric.sample_string(&mut rand::rng(), len)
}

/// The `k`-th page (counted from zero) that is asked of `host` to see what it
/// answers for a page that cannot exist, `label` being random.
pub open spec fn probe_path(host: Seq<char>, label: Seq<char>, k: int) -> Seq<char> {
    if k == 0 {
        host + "/admin"@ + label + "/"@
    } else if k == 1 {
        host + "/.htaccess"@ + label
    } else if k == 2 {
        host + "/"@ + label + "/"@
    } else {
        host + "/"@ + label
    }
}

/// The four pages asked of `host` to fingerprint its answer for missing pages.
pub fn probe_paths(host: &str, label: &str) -> (paths: Vec<String>)
    ensures
        paths@.len() == 4,
        forall|k: int| 0 <= k < 4 ==> #[trigger] paths@[k]@ == probe_path(host@, label@, k),
{
    let mut admin = host.to_owned();
    admin.append("/admin");
    admin.append(label);
    admin.append("/");
    let mut htaccess = host.to_owned();
    htaccess.append("/.htaccess");
    htaccess.append(label);
    let mut directory = host.to_owned();
    directory.append("/");
    directory.append(label);
    directory.append("/");
    let mut page = host.to_owned();
    page.append("/");
    page.append(label);
    let mut paths: Vec<String> = Vec::new();
    paths.push(admin);
    paths.push(htaccess);
    paths.push(directory);
    paths.push(page);
    paths
}

/// The four probes never coincide, so a run over them checks four pages.
pub proof fn lemma_probe_paths_distinct(host: Seq<char>, label: Seq<char>, j: int, k: int)
    requires
        0 <= j < k < 4,
    ensures
        probe_path(host, label, j) != probe_path(host, label, k),
{
    reveal_strlit("/admin");
    reveal_strlit("/.htaccess");
    reveal_strlit("/");
    assert(probe_path(host, label, j).len() != probe_path(host, label, k).len());
}

/// The pages asked of `host`, under a fresh random label of
/// [`SOFT_404_PROBE_LEN`] ASCII letters and digits, to fingerprint what it
/// answers for pages that do not exist.
pub fn probe_targets(host: &str) -> (paths: Vec<String>)
    ensures
        paths@.len() == 4,
        exists|label: Seq<char>|
            {
                &&& label.len() == SOFT_404_PROBE_LEN
                &&& forall|i: int| 0 <= i < label.len() ==> is_ascii_alphanumeric(#[trigger] label[i])
                &&& forall|k: int| 0 <= k < 4 ==> #[trigger] paths@[k]@ == probe_path(host@, label, k)
            },
{
    let label = random_label(SOFT_404_PROBE_LEN);
    let paths = probe_paths(host, label.as_str());
    assert(forall|k: int| 0 <= k < 4 ==> #[trigger] paths@[k]@ == probe_path(host@, label@, k));
    paths
}

/// Another handle on the same HTTP client, with `reqwest::Client::clone`:
/// clones share one connection pool. The client is opaque to the library.
#[verifier::external_body]
fn share_client(client: &reqwest::Client) -> reqwest::Client {
    client.clone()
}

/// The options of the run that fingerprints a host: the probes as its hosts,
/// the run's client, one agent drawn from the run's agents, one try per page,
/// four in flight, bodies read, nothing printed, nothing filtered and no
/// further fingerprints.
pub fn probe_options(options: &LibOptions, probes: HashSet<String>) -> (probe: LibOptions)
    ensures
        probe.hosts == probes,
        probe.user_agents@.len() == 1,
        options.user_agents@.len() == 0 ==> probe.user_agents@[0]@ == Seq::<char>::empty(),
        options.user_agents@.len() > 0 ==> exists|i: int|
            0 <= i < options.user_agents@.len() && options.user_agents@[i]@
                == probe.user_agents@[0]@,
        probe.retries == 1,
        probe.threads == 4,
        probe.collect_body,
        !probe.return_filters,
        probe.filter_codes is None,
        probe.exclude_codes is None,
        !probe.show_full_data,
        !probe.print_results,
        probe.quiet_flag,
{
    // One fixed agent: the probes are compared against each other.
    let agent = return_random_user_agent(options.user_agents.as_slice()).to_owned();
    let mut agents: Vec<String> = Vec::new();
    agents.push(agent);
    LibOptions {
        hosts: probes,
        client: share_client(&options.client),
        user_agents: agents,
        retries: 1,
        threads: 4,
        collect_body: true,
        return_filters: false,
        filter_codes: None,
        exclude_codes: None,
        show_full_data: false,
        print_results: false,
        quiet_flag: true,
    }
}

/// The fingerprints of what a host answered for pages that do not exist: for
/// each answer, in order, its length, word count and line count in decimal.
pub fn filters_from_probes(data: &Vec<HttpData>) -> (filters: HTTPFilters)
    ensures
        filters.bad_http_lengths@.len() == data@.len(),
        filters.bad_words_numbers@.len() == data@.len(),
        filters.bad_lines_numbers@.len() == data@.len(),
        forall|i: int|
            0 <= i < data@.len() ==> {
                &&& #[trigger] filters.bad_http_lengths@[i]@ == decimal(data@[i].content_length as nat)
                &&& filters.bad_words_numbers@[i]@ == decimal(data@[i].words_count as nat)
                &&& filters.bad_lines_numbers@[i]@ == decimal(data@[i].lines as nat)
            },
{
    let mut filters = HTTPFilters::empty();
    let mut i: usize = 0;
    while i < data.len()
        invariant
            i <= data@.len(),
            filters.bad_http_lengths@.len() == i,
            filters.bad_words_numbers@.len() == i,
            filters.bad_lines_numbers@.len() == i,
            forall|j: int|
                0 <= j < i ==> {
                    &&& #[trigger] filters.bad_http_lengths@[j]@ == decimal(
                        data@[j].content_length as nat,
                    )
                    &&& filters.bad_words_numbers@[j]@ == decimal(data@[j].words_count as nat)
                    &&& filters.bad_lines_numbers@[j]@ == decimal(data@[j].lines as nat)
                },
        decreases data@.len() - i,
    {
        let http_data = &data[i];
        filters.bad_http_lengths.push(decimal_string(http_data.content_length));
        filters.bad_words_numbers.push(decimal_string(http_data.words_count as u64));
        filters.bad_lines_numbers.push(decimal_string(http_data.lines as u64));
        i = i + 1;
    }
    filters
}


/// The lines a check records for a body: one per `'\n'`, one more for text
/// after the last `'\n'`, and one besides, capped at `usize::MAX`. No other
/// character, `'\r'` of a `"\r\n"` ending among them, adds a line.
pub proof fn lemma_recorded_lines_by_line_feeds(text: Seq<char>)
    ensures
        ({
            let lines = text.filter(|c: char| c == '\n').len() + (if text.len() > 0 && text.last()
                != '\n' {
                1int
            } else {
                0int
            }) + 1;
            recorded_lines(text) == if lines <= usize::MAX {
                lines
            } else {
                usize::MAX as int
            }
        }),
{
    lemma_line_count_by_line_feeds(text);
}

/// A host is tried for as many rounds as `retries` asks, and once where it
/// asks for none: each round is a request over HTTPS and one over HTTP.
pub proof fn lemma_rounds_follow_retries(retries: usize)
    ensures
        retries >= 1 ==> spec_attempts(retries) == retries,
        retries == 0 ==> spec_attempts(retries) == 1,
        forall|n: nat| n < 2 * retries ==> #[trigger] attempt_url(Seq::<char>::empty(), n) == (
            if n % 2 == 0 {
                "https://"@
            } else {
                "http://"@
            }),
{
    assert forall|n: nat| n < 2 * retries implies #[trigger] attempt_url(Seq::<char>::empty(), n)
        == (if n % 2 == 0 {
        "https://"@
    } else {
        "http://"@
    }) by {
        assert("https://"@ + Seq::<char>::empty() =~= "https://"@);
        assert("http://"@ + Seq::<char>::empty() =~= "http://"@);
    }
}

/// A run prints a line for a host only where the run prints at all, the host
/// answered (it has a final URL), and the filter accepts its status; the two
/// output forms print for the same hosts, and differ only in the line.
pub proof fn lemma_report_only_accepted(
    print_results: bool,
    show_full_data: bool,
    data: HttpData,
    filter: (Set<u16>, Set<u16>),
)
    ensures
        report_line(print_results, show_full_data, data, filter) is Some <==> {
            &&& print_results
            &&& data.final_url@.len() > 0
            &&& (filter.0.is_empty() || filter.0.contains(data.status_code))
            &&& !filter.1.contains(data.status_code)
        },
        (report_line(print_results, true, data, filter) is Some) == (report_line(
            print_results,
            false,
            data,
            filter,
        ) is Some),
{
}

} // verus!
