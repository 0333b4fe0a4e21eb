//! The values a check produces, the status filter of a run, and the options
//! of a run.

use std::collections::HashSet;
use vstd::prelude::*;
use vstd::std_specs::iter::IteratorSpec;

use crate::text::{
    all_digits, chars_of, decimal, is_white, lemma_decimal_reads_back, lemma_split_nonempty,
    lemma_split_without_separator, lemma_trim_unchanged, parse_unsigned, parse_unsigned_at,
    split_on, trim, trim_bounds,
};

verus! {

/// What a host answers for pages that cannot exist: the lengths, word counts
/// and line counts of those answers, in decimal.
#[derive(Clone, Debug, PartialEq, Eq, Hash, Default)]
pub struct HTTPFilters {
    pub bad_http_lengths: Vec<String>,
    pub bad_words_numbers: Vec<String>,
    pub bad_lines_numbers: Vec<String>,
}

/// Everything a check learns about one host.
#[derive(Clone, Debug, PartialEq, Eq, Hash, Default)]
pub struct HttpData {
    pub http_status: String,
    pub status_code: u16,
    pub checked_host: String,
    pub final_url: String,
    pub protocol: String,
    pub title: String,
    pub content_type: String,
    pub body: String,
    pub headers: String,
    pub content_length: u64,
    pub words_count: usize,
    pub lines: usize,
    pub bad_data: HTTPFilters,
    pub html_file_path: String,
    pub screenshot_data: Vec<u8>,
    pub points_to_another_host: bool,
}

impl HTTPFilters {
    /// Holds no fingerprint at all.
    pub open spec fn is_empty(&self) -> bool {
        &&& self.bad_http_lengths@.len() == 0
        &&& self.bad_words_numbers@.len() == 0
        &&& self.bad_lines_numbers@.len() == 0
    }

    /// Filters that hold nothing.
    pub fn empty() -> (filters: Self)
        ensures
            filters.is_empty(),
    {
        HTTPFilters {
            bad_http_lengths: Vec::new(),
            bad_words_numbers: Vec::new(),
            bad_lines_numbers: Vec::new(),
        }
    }
}

impl HttpData {
    /// Whether `self` records nothing yet about `host` but its name.
    pub open spec fn is_fresh_for(&self, host: Seq<char>) -> bool {
        &&& self.checked_host@ == host
        &&& self.http_status@.len() == 0
        &&& self.status_code == 0
        &&& self.final_url@.len() == 0
        &&& self.protocol@.len() == 0
        &&& self.title@.len() == 0
        &&& self.content_type@.len() == 0
        &&& self.body@.len() == 0
        &&& self.headers@.len() == 0
        &&& self.content_length == 0
        &&& self.words_count == 0
        &&& self.lines == 0
        &&& self.bad_data.is_empty()
        &&& self.html_file_path@.len() == 0
        &&& self.screenshot_data@.len() == 0
        &&& !self.points_to_another_host
    }

    /// A record for `host` that holds nothing else yet.
    pub fn new(host: String) -> (data: Self)
        ensures
            data.is_fresh_for(host@),
    {
        HttpData {
            http_status: String::new(),
            status_code: 0,
            checked_host: host,
            final_url: String::new(),
            protocol: String::new(),
            title: String::new(),
            content_type: String::new(),
            body: String::new(),
            headers: String::new(),
            content_length: 0,
            words_count: 0,
            lines: 0,
            bad_data: HTTPFilters::empty(),
            html_file_path: String::new(),
            screenshot_data: Vec::new(),
            points_to_another_host: false,
        }
    }
}

/// `a` and `b` record the same request: host, final URL, protocol and status.
pub open spec fn same_request(a: &HttpData, b: &HttpData) -> bool {
    &&& a.checked_host == b.checked_host
    &&& a.final_url == b.final_url
    &&& a.protocol == b.protocol
    &&& a.status_code == b.status_code
}

/// `a` and `b` record the same page: everything read out of the body and the
/// headers, but the title and the body themselves.
pub open spec fn same_page_counts(a: &HttpData, b: &HttpData) -> bool {
    &&& a.content_type == b.content_type
    &&& a.headers == b.headers
    &&& a.content_length == b.content_length
    &&& a.words_count == b.words_count
    &&& a.lines == b.lines
    &&& a.points_to_another_host == b.points_to_another_host
}

/// `a` and `b` hold the same fingerprints, file path and screenshot.
pub open spec fn same_extras(a: &HttpData, b: &HttpData) -> bool {
    &&& a.bad_data == b.bad_data
    &&& a.html_file_path == b.html_file_path
    &&& a.screenshot_data == b.screenshot_data
}

/// The text of an option that may be absent: absent reads as empty.
pub open spec fn text_or_empty(text: Option<&str>) -> Seq<char> {
    match text {
        Some(s) => s@,
        None => Seq::<char>::empty(),
    }
}

/// The status codes that the pieces of a list name: each piece, once trimmed,
/// read as a `u16`; pieces that do not read as one are passed over.
pub open spec fn field_codes(fields: Seq<Seq<char>>) -> Set<u16> {
    Set::new(
        |code: u16|
            exists|i: int|
                0 <= i < fields.len() && parse_unsigned(trim(#[trigger] fields[i]), 0xffff) == Some(
                    code as nat,
                ),
    )
}

/// The status codes that a comma separated list names.
pub open spec fn listed_codes(text: Seq<char>) -> Set<u16> {
    field_codes(split_on(text, ','))
}

/// Whether a filter that lets through `allowed` (all codes, where empty) and
/// holds back `blocked` accepts `code`.
pub open spec fn filter_accepts(allowed: Set<u16>, blocked: Set<u16>, code: u16) -> bool {
    (allowed.is_empty() || allowed.contains(code)) && !blocked.contains(code)
}

proof fn lemma_field_codes_push(fields: Seq<Seq<char>>, field: Seq<char>)
    ensures
        field_codes(fields.push(field)) == match parse_unsigned(trim(field), 0xffff) {
            Some(v) => field_codes(fields).insert(v as u16),
            None => field_codes(fields),
        },
{
    let longer = fields.push(field);
    let expected = match parse_unsigned(trim(field), 0xffff) {
        Some(v) => field_codes(fields).insert(v as u16),
        None => field_codes(fields),
    };
    assert forall|code: u16| field_codes(longer).contains(code) implies expected.contains(code) by {
        let i = choose|i: int|
            0 <= i < longer.len() && parse_unsigned(trim(#[trigger] longer[i]), 0xffff) == Some(
                code as nat,
            );
        if i < fields.len() {
            assert(longer[i] == fields[i]);
        }
    }
    assert forall|code: u16| expected.contains(code) implies field_codes(longer).contains(code) by {
        if field_codes(fields).contains(code) {
            let i = choose|i: int|
                0 <= i < fields.len() && parse_unsigned(trim(#[trigger] fields[i]), 0xffff) == Some(
                    code as nat,
                );
            assert(longer[i] == fields[i]);
        } else {
            assert(longer[fields.len() as int] == field);
        }
    }
    assert(field_codes(longer) =~= expected);
}

/// Adds the code that `chars[from..to]` names, if it names one.
fn add_code(set: &mut HashSet<u16>, chars: &Vec<char>, from: usize, to: usize)
    requires
        from <= to <= chars@.len(),
    ensures
        final(set)@ == match parse_unsigned(trim(chars@.subrange(from as int, to as int)), 0xffff) {
            Some(v) => old(set)@.insert(v as u16),
            None => old(set)@,
        },
{
    let (start, end) = trim_bounds(chars, from, to);
    match parse_unsigned_at(chars, start, end, 0xffff) {
        Some(code) => {
            set.insert(code as u16);
        },
        None => {},
    }
}

/// Reads a comma separated list of status codes, ignoring anything unparseable.
pub fn parse_codes(codes: Option<&str>) -> (set: HashSet<u16>)
    ensures
        set@ == listed_codes(text_or_empty(codes)),
{
    let chars = match codes {
        Some(text) => chars_of(text),
        None => Vec::new(),
    };
    let mut set: HashSet<u16> = HashSet::new();
    let mut start: usize = 0;
    let mut i: usize = 0;
    proof {
        assert(chars@.take(0) =~= Seq::<char>::empty());
        assert(chars@.subrange(0, 0) =~= Seq::<char>::empty());
        assert(split_on(chars@.take(0), ',').drop_last() =~= Seq::<Seq<char>>::empty());
        assert(field_codes(Seq::<Seq<char>>::empty()) =~= Set::<u16>::empty());
    }
    while i < chars.len()
        invariant
            start <= i <= chars@.len(),
            split_on(chars@.take(i as int), ',').last() == chars@.subrange(start as int, i as int),
            set@ == field_codes(split_on(chars@.take(i as int), ',').drop_last()),
        decreases chars@.len() - i,
    {
        let ghost prev = split_on(chars@.take(i as int), ',');
        proof {
            lemma_split_nonempty(chars@.take(i as int), ',');
            assert(chars@.take(i + 1).drop_last() =~= chars@.take(i as int));
            assert(prev =~= prev.drop_last().push(prev.last()));
        }
        if chars[i] == ',' {
            add_code(&mut set, &chars, start, i);
            proof {
                lemma_field_codes_push(prev.drop_last(), prev.last());
                assert(split_on(chars@.take(i + 1), ',').drop_last() =~= prev);
                assert(chars@.subrange(i + 1, i + 1) =~= Seq::<char>::empty());
            }
            start = i + 1;
        } else {
            proof {
                let next = split_on(chars@.take(i + 1), ',');
                assert(next.drop_last() =~= prev.drop_last());
                assert(chars@.subrange(start as int, i + 1) =~= chars@.subrange(
                    start as int,
                    i as int,
                ).push(chars@[i as int]));
            }
        }
        i = i + 1;
    }
    let ghost fields = split_on(chars@.take(i as int), ',');
    add_code(&mut set, &chars, start, chars.len());
    proof {
        lemma_split_nonempty(chars@.take(i as int), ',');
        assert(fields =~= fields.drop_last().push(fields.last()));
        lemma_field_codes_push(fields.drop_last(), fields.last());
        assert(chars@.take(i as int) =~= chars@);
        assert(chars@ =~= text_or_empty(codes));
    }
    set
}

/// An empty list names no code.
pub proof fn lemma_empty_list_names_nothing()
    ensures
        listed_codes(Seq::<char>::empty()) == Set::<u16>::empty(),
{
    let fields = split_on(Seq::<char>::empty(), ',');
    assert(fields == seq![Seq::<char>::empty()]);
    assert(trim(Seq::<char>::empty()) =~= Seq::<char>::empty());
    assert(listed_codes(Seq::<char>::empty()) =~= Set::<u16>::empty()) by {
        assert forall|code: u16| !listed_codes(Seq::<char>::empty()).contains(code) by {
            assert(parse_unsigned(trim(fields[0]), 0xffff) is None);
        }
    }
}

/// A filter built from no lists accepts every code.
pub proof fn lemma_empty_filter_accepts_everything(code: u16)
    ensures
        filter_accepts(
            listed_codes(text_or_empty(None)),
            listed_codes(text_or_empty(None)),
            code,
        ),
{
    lemma_empty_list_names_nothing();
}

/// A code that is held back is never accepted, whatever lets it through.
pub proof fn lemma_exclusion_wins(allowed: Set<u16>, blocked: Set<u16>, code: u16)
    requires
        blocked.contains(code),
    ensures
        !filter_accepts(allowed, blocked, code),
{
}

/// Where codes are listed to be let through, only those get through.
pub proof fn lemma_only_listed_codes_get_through(allowed: Set<u16>, blocked: Set<u16>, code: u16)
    requires
        !allowed.is_empty(),
        filter_accepts(allowed, blocked, code),
    ensures
        allowed.contains(code),
{
}

/// A listed code that is not held back gets through.
pub proof fn lemma_listed_code_gets_through(allowed: Set<u16>, blocked: Set<u16>, code: u16)
    requires
        allowed.contains(code),
        !blocked.contains(code),
    ensures
        filter_accepts(allowed, blocked, code),
{
}

/// Where no codes are listed to be let through, every code that is not held
/// back gets through.
pub proof fn lemma_no_list_lets_unblocked_through(allowed: Set<u16>, blocked: Set<u16>, code: u16)
    requires
        allowed.is_empty(),
        !blocked.contains(code),
    ensures
        filter_accepts(allowed, blocked, code),
{
}

/// A list that writes one code in decimal names that code and no other: a code
/// is matched whole, never as a part of a longer one.
pub proof fn lemma_written_code_names_itself_only(code: u16)
    ensures
        listed_codes(decimal(code as nat)) == Set::<u16>::empty().insert(code),
{
    let text = decimal(code as nat);
    lemma_decimal_reads_back(code as nat);
    assert forall|i: int| 0 <= i < text.len() implies text[i] != ',' by {
        assert(all_digits(text));
    }
    lemma_split_without_separator(text, ',');
    assert(!is_white(text[0]) && !is_white(text.last())) by {
        assert(all_digits(text));
        assert(text.last() == text[text.len() - 1]);
    }
    lemma_trim_unchanged(text);
    let fields = split_on(text, ',');
    assert(fields[0] == text);
    assert(parse_unsigned(trim(fields[0]), 0xffff) == Some(code as nat));
    assert(listed_codes(text) =~= Set::<u16>::empty().insert(code)) by {
        assert forall|c: u16| listed_codes(text).contains(c) implies c == code by {
            let i = choose|i: int|
                0 <= i < fields.len() && parse_unsigned(trim(#[trigger] fields[i]), 0xffff) == Some(
                    c as nat,
                );
            assert(i == 0);
        }
        assert(listed_codes(text).contains(code));
    }
}

/// Which status codes a run wants to hear about.
///
/// Parsed once into integers: matching the raw comma separated text as a
/// substring let `40` match `404`, and cost a `to_string` per host.
#[derive(Debug, Default)]
pub struct StatusFilter {
    allowed: HashSet<u16>,
    blocked: HashSet<u16>,
}

impl View for StatusFilter {
    /// The codes let through (all, where empty), and the codes held back.
    type V = (Set<u16>, Set<u16>);

    closed spec fn view(&self) -> (Set<u16>, Set<u16>) {
        (self.allowed@, self.blocked@)
    }
}

/// A set holding the same codes as `codes`.
fn copy_codes(codes: &HashSet<u16>) -> (copy: HashSet<u16>)
    ensures
        copy@ == codes@,
{
    let mut copy: HashSet<u16> = HashSet::new();
    let ghost all = vstd::std_specs::hash::spec_hash_keys_iter(codes).remaining();
    for code in it: codes.iter()
        invariant
            it.seq() == all,
            forall|c: u16|
                copy@.contains(c) <==> exists|j: int| 0 <= j < it.index() && *all[j] == c,
    {
        copy.insert(*code);
        proof {
            assert(*all[it.index() as int] == *code);
        }
    }
    proof {
        assert(all.unref().to_set() == codes@);
        assert forall|c: u16| codes@.contains(c) implies copy@.contains(c) by {
            assert(all.unref().contains(c));
            let j = choose|j: int| 0 <= j < all.unref().len() && all.unref()[j] == c;
            assert(*all[j] == c);
        }
        assert forall|c: u16| copy@.contains(c) implies codes@.contains(c) by {
            let j = choose|j: int| 0 <= j < all.len() && *all[j] == c;
            assert(all.unref()[j] == c);
        }
        assert(copy@ =~= codes@);
    }
    copy
}

impl Clone for StatusFilter {
    fn clone(&self) -> (copy: Self)
        ensures
            copy@ == self@,
    {
        StatusFilter { allowed: copy_codes(&self.allowed), blocked: copy_codes(&self.blocked) }
    }
}

impl StatusFilter {
    /// Builds the filter from the raw comma separated options.
    pub fn new(allowed: Option<&str>, blocked: Option<&str>) -> (filter: Self)
        ensures
            filter@ == (listed_codes(text_or_empty(allowed)), listed_codes(text_or_empty(blocked))),
    {
        StatusFilter { allowed: parse_codes(allowed), blocked: parse_codes(blocked) }
    }

    /// Reports whether `code` survives the filter.
    pub fn accepts(&self, code: u16) -> (accepted: bool)
        ensures
            accepted == filter_accepts(self@.0, self@.1, code),
    {
        if !self.allowed.is_empty() && !self.allowed.contains(&code) {
            return false;
        }
        !self.blocked.contains(&code)
    }
}


/// The HTTP client of a run, carried through the library as it is.
#[verifier::external_type_specification]
#[verifier::external_body]
pub struct ExClient(reqwest::Client);

/// What a run checks and how.
#[derive(Debug, Default)]
pub struct LibOptions {
    pub hosts: HashSet<String>,
    pub client: reqwest::Client,
    pub user_agents: Vec<String>,
    pub retries: usize,
    pub threads: usize,
    /// Read the response body and everything derived from it.
    ///
    /// By far the most expensive part of a check: up to a megabyte per host,
    /// parsed as HTML. Leave off unless the body is actually read back.
    pub collect_body: bool,
    /// Fingerprint each host's answer for pages that do not exist.
    pub return_filters: bool,
    pub filter_codes: Option<String>,
    pub exclude_codes: Option<String>,
    pub show_full_data: bool,
    /// Print each result as it arrives.
    pub print_results: bool,
    pub quiet_flag: bool,
}

} // verus!
