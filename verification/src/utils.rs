//! The user agents a check presents itself with, and the hosts a run reads
//! from its input.

use rand::seq::IndexedRandom;
use std::collections::HashSet;
use vstd::prelude::*;

use crate::text::{chars_of, lemma_split_nonempty, split_on, string_of, trim, trim_bounds};

verus! {

/// User agents a check picks from.
pub const USER_AGENTS: [&'static str; 28] = [
    "Mozilla/5.0 (Windows NT 6.1; WOW64; rv:77.0) Gecko/20190101 Firefox/77.0",
    "Mozilla/5.0 (Windows NT 10.0; WOW64; rv:77.0) Gecko/20100101 Firefox/77.0",
    "Mozilla/5.0 (X11; Linux ppc64le; rv:75.0) Gecko/20100101 Firefox/75.0",
    "Mozilla/5.0 (Windows NT 6.1; WOW64; rv:39.0) Gecko/20100101 Firefox/75.0",
    "Mozilla/5.0 (Macintosh; U; Intel Mac OS X 10.10; rv:75.0) Gecko/20100101 Firefox/75.0",
    "Mozilla/5.0 (X11; Linux; rv:74.0) Gecko/20100101 Firefox/74.0",
    "Mozilla/5.0 (Macintosh; Intel Mac OS X 10.13; rv:61.0) Gecko/20100101 Firefox/73.0",
    "Mozilla/5.0 (X11; OpenBSD i386; rv:72.0) Gecko/20100101 Firefox/72.0",
    "Mozilla/5.0 (Windows NT 6.3; WOW64; rv:71.0) Gecko/20100101 Firefox/71.0",
    "Mozilla/5.0 (Windows NT 6.1; WOW64; rv:70.0) Gecko/20191022 Firefox/70.0",
    "Mozilla/5.0 (Windows NT 6.1; WOW64; rv:70.0) Gecko/20190101 Firefox/70.0",
    "Mozilla/5.0 (Windows; U; Windows NT 9.1; en-US; rv:12.9.1.11) Gecko/20100821 Firefox/70",
    "Mozilla/5.0 (Windows NT 10.0; WOW64; rv:69.2.1) Gecko/20100101 Firefox/69.2",
    "Mozilla/5.0 (Windows NT 6.1; rv:68.7) Gecko/20100101 Firefox/68.7",
    "Mozilla/5.0 (X11; Linux i686; rv:64.0) Gecko/20100101 Firefox/64.0",
    "Mozilla/5.0 (Windows NT 10.0; Win64; x64) AppleWebKit/537.36 (KHTML, like Gecko) Chrome/70.0.3538.102 Safari/537.36 Edge/18.19582",
    "Mozilla/5.0 (Windows NT 10.0; Win64; x64) AppleWebKit/537.36 (KHTML, like Gecko) Chrome/70.0.3538.102 Safari/537.36 Edge/18.19577",
    "Mozilla/5.0 (X11) AppleWebKit/62.41 (KHTML, like Gecko) Edge/17.10859 Safari/452.6",
    "Mozilla/5.0 (Windows NT 10.0; Win64; x64) AppleWebKit/537.36 (KHTML like Gecko) Chrome/51.0.2704.79 Safari/537.36 Edge/14.14931",
    "Chrome (AppleWebKit/537.1; Chrome50.0; Windows NT 6.3) AppleWebKit/537.36 (KHTML like Gecko) Chrome/51.0.2704.79 Safari/537.36 Edge/14.14393",
    "Mozilla/5.0 (Windows NT 6.2; WOW64) AppleWebKit/537.36 (KHTML like Gecko) Chrome/46.0.2486.0 Safari/537.36 Edge/13.9200",
    "Mozilla/5.0 (Windows NT 10.0; Win64; x64) AppleWebKit/537.36 (KHTML like Gecko) Chrome/46.0.2486.0 Safari/537.36 Edge/13.10586",
    "Mozilla/5.0 (Windows NT 10.0; Win64; x64) AppleWebKit/537.36 (KHTML, like Gecko) Chrome/42.0.2311.135 Safari/537.36 Edge/12.246",
    "Mozilla/5.0 (Windows NT 10.0; Win64; x64) AppleWebKit/537.36 (KHTML, like Gecko) Chrome/90.0.4430.93 Safari/537.36",
    "Mozilla/5.0 (Windows NT 10.0; WOW64) AppleWebKit/537.36 (KHTML, like Gecko) Chrome/90.0.4430.93 Safari/537.36",
    "Mozilla/5.0 (Windows NT 10.0) AppleWebKit/537.36 (KHTML, like Gecko) Chrome/90.0.4430.93 Safari/537.36",
    "Mozilla/5.0 (Macintosh; Intel Mac OS X 11_3_1) AppleWebKit/537.36 (KHTML, like Gecko) Chrome/90.0.4430.93 Safari/537.36",
    "Mozilla/5.0 (X11; Linux x86_64) AppleWebKit/537.36 (KHTML, like Gecko) Chrome/90.0.4430.93 Safari/537.36",
];

/// The built in user agents, owned, for callers that need a `Vec`.
pub fn user_agents() -> (agents: Vec<String>)
    ensures
        agents@.len() == USER_AGENTS@.len(),
        forall|i: int| 0 <= i < agents@.len() ==> #[trigger] agents@[i]@ == USER_AGENTS@[i]@,
{
    let mut agents: Vec<String> = Vec::new();
    let mut i: usize = 0;
    while i < USER_AGENTS.len()
        invariant
            i <= USER_AGENTS@.len(),
            agents@.len() == i,
            forall|j: int| 0 <= j < i ==> #[trigger] agents@[j]@ == USER_AGENTS@[j]@,
        decreases USER_AGENTS@.len() - i,
    {
        agents.push(USER_AGENTS[i].to_owned());
        i = i + 1;
    }
    agents
}

/// Picks one of `strings` at random with `rand::seq::IndexedRandom::choose`
/// and the thread's generator `rand::rng()`: `None` exactly when `strings` is
/// empty, and otherwise a reference to one of its items, which one being
/// chance. `rand::rng()` panics only where the system's random source cannot
/// seed it.
#[verifier::external_body]
fn choose_one(strings: &[String]) -> (chosen: Option<&String>)
    ensures
        chosen is None <==> strings@.len() == 0,
        chosen matches Some(s) ==> exists|i: int| 0 <= i < strings@.len() && strings@[i] == *s,
{
    strings.choose(&mut rand::rng())
}

/// The agent that was chosen, or the empty agent where there was none.
pub fn agent_or_empty(chosen: Option<&String>) -> (agent: &str)
    ensures
        agent@ == match chosen {
            Some(s) => s@,
            None => Seq::<char>::empty(),
        },
{
    match chosen {
        Some(s) => s.as_str(),
        None => {
            let empty = "";
            proof {
                reveal_strlit("");
            }
            empty
        },
    }
}

/// Picks one of `strings` at random; the empty agent where there is none.
pub fn return_random_user_agent(strings: &[String]) -> (agent: &str)
    ensures
        strings@.len() == 0 ==> agent@ == Seq::<char>::empty(),
        strings@.len() > 0 ==> exists|i: int| 0 <= i < strings@.len() && strings@[i]@ == agent@,
{
    agent_or_empty(choose_one(strings))
}


/// A host name with the domain it is a label of, if any: `name.domain`.
pub open spec fn with_domain(name: Seq<char>, domain: Option<Seq<char>>) -> Seq<char> {
    match domain {
        Some(d) => name + seq!['.'] + d,
        None => name,
    }
}

/// The hosts that lines of input name: each line trimmed, blank lines passed
/// over, each name joined to `domain` where there is one.
pub open spec fn named_hosts(lines: Seq<Seq<char>>, domain: Option<Seq<char>>) -> Seq<Seq<char>>
    decreases lines.len(),
{
    if lines.len() == 0 {
        Seq::<Seq<char>>::empty()
    } else {
        let prev = named_hosts(lines.drop_last(), domain);
        let name = trim(lines.last());
        if name.len() == 0 {
            prev
        } else {
            prev.push(with_domain(name, domain))
        }
    }
}

/// Without a domain, the hosts are the input's lines, each trimmed, blank
/// ones passed over, in order.
pub proof fn lemma_hosts_are_trimmed_lines(lines: Seq<Seq<char>>)
    ensures
        named_hosts(lines, None) == lines.map_values(|line: Seq<char>| trim(line)).filter(
            |name: Seq<char>| name.len() > 0,
        ),
    decreases lines.len(),
{
    reveal_with_fuel(Seq::filter, 1);
    if lines.len() > 0 {
        lemma_hosts_are_trimmed_lines(lines.drop_last());
        let trimmed = lines.map_values(|line: Seq<char>| trim(line));
        assert(trimmed.drop_last() =~= lines.drop_last().map_values(|line: Seq<char>| trim(line)));
    } else {
        assert(lines.map_values(|line: Seq<char>| trim(line)) =~= Seq::<Seq<char>>::empty());
    }
}

/// With a domain, every host is the name read without one, joined to the
/// domain by a dot, whatever characters the name holds.
pub proof fn lemma_domain_joins_every_name(lines: Seq<Seq<char>>, domain: Seq<char>)
    ensures
        named_hosts(lines, Some(domain)) == named_hosts(lines, None).map_values(
            |name: Seq<char>| name + seq!['.'] + domain,
        ),
    decreases lines.len(),
{
    if lines.len() > 0 {
        lemma_domain_joins_every_name(lines.drop_last(), domain);
        assert(named_hosts(lines, Some(domain)) =~= named_hosts(lines, None).map_values(
            |name: Seq<char>| name + seq!['.'] + domain,
        ));
    } else {
        assert(named_hosts(lines, Some(domain)) =~= named_hosts(lines, None).map_values(
            |name: Seq<char>| name + seq!['.'] + domain,
        ));
    }
}

/// The text of a domain that may be absent.
pub open spec fn domain_text(domain: Option<&str>) -> Option<Seq<char>> {
    match domain {
        Some(d) => Some(d@),
        None => None,
    }
}

/// Adds the host that the line `chars[from..to]` names, if it names one.
fn add_host(hosts: &mut Vec<String>, chars: &Vec<char>, from: usize, to: usize, domain: Option<&str>)
    requires
        from <= to <= chars@.len(),
    ensures
        final(hosts).deep_view() == ({
            let name = trim(chars@.subrange(from as int, to as int));
            if name.len() == 0 {
                old(hosts).deep_view()
            } else {
                old(hosts).deep_view().push(with_domain(name, domain_text(domain)))
            }
        }),
{
    let (start, end) = trim_bounds(chars, from, to);
    if start < end {
        let mut host = string_of(chars, start, end);
        match domain {
            Some(d) => {
                proof {
                    reveal_strlit(".");
                }
                let ghost name = host@;
                host.append(".");
                host.append(d);
                assert(host@ =~= name + seq!['.'] + d@);
            },
            None => {},
        }
        let ghost before = hosts.deep_view();
        hosts.push(host);
        assert(hosts.deep_view() =~= before.push(host@));
    } else {
        assert(chars@.subrange(start as int, end as int).len() == 0);
    }
}

/// The hosts that `text` names, one per line, as a run reads them from its
/// input: each line trimmed, blank lines passed over, and each name joined to
/// `domain` where one is given. Repeats stay; a run keeps one of each.
pub fn host_lines(text: &str, domain: Option<&str>) -> (hosts: Vec<String>)
    ensures
        hosts.deep_view() == named_hosts(split_on(text@, '\n'), domain_text(domain)),
        ({
            let names = split_on(text@, '\n').map_values(|line: Seq<char>| trim(line)).filter(
                |name: Seq<char>| name.len() > 0,
            );
            hosts.deep_view() == match domain {
                Some(d) => names.map_values(|name: Seq<char>| name + seq!['.'] + d@),
                None => names,
            }
        }),
{
    proof {
        lemma_hosts_are_trimmed_lines(split_on(text@, '\n'));
        match domain {
            Some(d) => lemma_domain_joins_every_name(split_on(text@, '\n'), d@),
            None => {},
        }
    }
    let chars = chars_of(text);
    let mut hosts: Vec<String> = Vec::new();
    let mut start: usize = 0;
    let mut i: usize = 0;
    proof {
        assert(chars@.take(0) =~= Seq::<char>::empty());
        assert(chars@.subrange(0, 0) =~= Seq::<char>::empty());
        assert(split_on(chars@.take(0), '\n').drop_last() =~= Seq::<Seq<char>>::empty());
        assert(hosts.deep_view() =~= Seq::<Seq<char>>::empty());
    }
    while i < chars.len()
        invariant
            start <= i <= chars@.len(),
            split_on(chars@.take(i as int), '\n').last() == chars@.subrange(start as int, i as int),
            hosts.deep_view() == named_hosts(
                split_on(chars@.take(i as int), '\n').drop_last(),
                domain_text(domain),
            ),
        decreases chars@.len() - i,
    {
        let ghost prev = split_on(chars@.take(i as int), '\n');
        proof {
            lemma_split_nonempty(chars@.take(i as int), '\n');
            assert(chars@.take(i + 1).drop_last() =~= chars@.take(i as int));
            assert(prev =~= prev.drop_last().push(prev.last()));
        }
        if chars[i] == '\n' {
            add_host(&mut hosts, &chars, start, i, domain);
            proof {
                assert(prev.drop_last().push(prev.last()).drop_last() =~= prev.drop_last());
                assert(split_on(chars@.take(i + 1), '\n').drop_last() =~= prev);
                assert(chars@.subrange(i + 1, i + 1) =~= Seq::<char>::empty());
            }
            start = i + 1;
        } else {
            proof {
                let next = split_on(chars@.take(i + 1), '\n');
                assert(next.drop_last() =~= prev.drop_last());
                assert(chars@.subrange(start as int, i + 1) =~= chars@.subrange(
                    start as int,
                    i as int,
                ).push(chars@[i as int]));
            }
        }
        i = i + 1;
    }
    let ghost lines = split_on(chars@.take(i as int), '\n');
    add_host(&mut hosts, &chars, start, chars.len(), domain);
    proof {
        lemma_split_nonempty(chars@.take(i as int), '\n');
        assert(lines =~= lines.drop_last().push(lines.last()));
        assert(lines.drop_last().push(lines.last()).drop_last() =~= lines.drop_last());
        assert(chars@.take(i as int) =~= chars@);
    }
    hosts
}


/// The header line a run prints before its results: only where it shows full
/// data and is not quiet.
pub fn run_header(quiet: bool, show_full_data: bool) -> (header: Option<String>)
    ensures
        header.deep_view() == if !quiet && show_full_data {
            Some("DOMAIN,[FINAL_URL],[STATUS_CODE]"@)
        } else {
            None
        },
{
    if !quiet && show_full_data {
        Some("DOMAIN,[FINAL_URL],[STATUS_CODE]".to_owned())
    } else {
        None
    }
}

/// Refuses a run with no host to check, with the message a run gives.
pub fn require_hosts(hosts: &HashSet<String>) -> (checked: Result<(), String>)
    ensures
        checked is Err <==> hosts@.is_empty(),
        checked matches Err(message) ==> message@ == "No hosts to check."@,
{
    if hosts.is_empty() {
        Err("No hosts to check.".to_owned())
    } else {
        Ok(())
    }
}

} // verus!
