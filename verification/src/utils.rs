//! Reading resolver addresses, checking the system's limits, and naming reverse
//! lookups.

use vstd::prelude::*;

use crate::address::{ip_read, parse_ip, Endpoint, IpAddress};
use crate::error::BlastDNSError;
use crate::text::{
    chars_of, decimal, digit, digit_char, digit_value, is_bracket, is_white_space,
    law_digits_stand_for_their_values, lemma_decimal_has_no_dot, lemma_decimal_tells_apart,
    lemma_digits_differ, push_decimal, text_of, trim_bounds, trimmed, unbracket_bounds, unbracketed,
    without_back, without_front,
};

verus! {

/// The port that resolvers listen on where none is given.
pub const DNS_PORT: u16 = 53;

/// The part of a resolver's text that may be an address without a port: white space
/// and then square brackets are dropped from either end.
pub open spec fn bare_text(input: Seq<char>) -> Seq<char> {
    unbracketed(trimmed(input))
}

/// The part of a resolver's text that may be an address without a port.
pub fn bare_address(input: &str) -> (bare: String)
    ensures
        bare@ == bare_text(input@),
{
    let chars: Vec<char> = chars_of(input);
    assert(chars@.subrange(0, chars@.len() as int) =~= input@);
    let (from, to): (usize, usize) = trim_bounds(&chars, 0, chars.len());
    let (from, to): (usize, usize) = unbracket_bounds(&chars, from, to);
    text_of(&chars, from, to)
}

/// The resolver that a text stands for: `direct` is the text read as an address with
/// a port, or why it is none, and `bare` is its [`bare_text`] read as an address without
/// one.
pub open spec fn resolver_of(direct: Result<Endpoint, String>, bare: Option<IpAddress>) -> Option<
    Endpoint,
> {
    match direct {
        Ok(endpoint) => Some(endpoint),
        Err(_) => match bare {
            Some(ip) => Some(Endpoint { ip, port: DNS_PORT, scope_id: 0 }),
            None => None,
        },
    }
}

/// The resolver that the text `input` stands for, `direct` being that text read as an
/// address with a port.
pub open spec fn resolver_read(input: Seq<char>, direct: Result<Endpoint, String>) -> Option<
    Endpoint,
> {
    resolver_of(direct, ip_read(bare_text(input)))
}

/// Whether `error` says that `input` stands for no resolver, and why reading it as an
/// address with a port failed.
pub open spec fn is_unread(
    error: BlastDNSError,
    input: Seq<char>,
    direct: Result<Endpoint, String>,
) -> bool {
    &&& error matches BlastDNSError::InvalidResolver { resolver, source }
    &&& resolver@ == input
    &&& direct == Err::<Endpoint, String>(source)
}

/// The resolver that `input` stands for. `direct` is `input` read as an address with a
/// port, or why it is none, and `bare` is its [`bare_address`] read as an address
/// without one.
pub fn choose_resolver(
    input: &str,
    direct: &Result<Endpoint, String>,
    bare: Option<IpAddress>,
) -> (resolver: Result<Endpoint, BlastDNSError>)
    ensures
        match resolver_of(*direct, bare) {
            Some(endpoint) => resolver == Ok::<Endpoint, BlastDNSError>(endpoint),
            None => resolver matches Err(error) && is_unread(error, input@, *direct),
        },
{
    match direct {
        Ok(endpoint) => Ok(*endpoint),
        Err(reason) => match bare {
            Some(ip) => Ok(Endpoint { ip, port: DNS_PORT, scope_id: 0 }),
            None => Err(
                BlastDNSError::InvalidResolver {
                    resolver: input.to_owned(),
                    source: reason.clone(),
                },
            ),
        },
    }
}

/// The resolver that `input` stands for: an address with a port, or one without, which
/// may have white space and then square brackets around it. `direct` is `input` read as
/// an address with a port, or why it is none.
pub fn parse_resolver(input: &str, direct: &Result<Endpoint, String>) -> (resolver: Result<
    Endpoint,
    BlastDNSError,
>)
    ensures
        match resolver_read(input@, *direct) {
            Some(endpoint) => resolver == Ok::<Endpoint, BlastDNSError>(endpoint),
            None => resolver matches Err(error) && is_unread(error, input@, *direct),
        },
{
    let bare: Option<IpAddress> = parse_ip(bare_address(input).as_str());
    choose_resolver(input, direct, bare)
}

/// Dropping from the front drops all of a front part that is to be dropped.
proof fn lemma_without_front_prefix(
    dropped: Seq<char>,
    rest: Seq<char>,
    p: spec_fn(char) -> bool,
)
    requires
        forall|i: int| 0 <= i < dropped.len() ==> p(#[trigger] dropped[i]),
    ensures
        without_front(dropped + rest, p) == without_front(rest, p),
    decreases dropped.len(),
{
    if dropped.len() > 0 {
        lemma_without_front_prefix(dropped.drop_first(), rest, p);
        assert(p(dropped[0]));
        assert((dropped + rest).drop_first() =~= dropped.drop_first() + rest);
    } else {
        assert(dropped + rest =~= rest);
    }
}

/// Dropping from the back drops all of a back part that is to be dropped.
proof fn lemma_without_back_suffix(rest: Seq<char>, dropped: Seq<char>, p: spec_fn(char) -> bool)
    requires
        forall|i: int| 0 <= i < dropped.len() ==> p(#[trigger] dropped[i]),
    ensures
        without_back(rest + dropped, p) == without_back(rest, p),
    decreases dropped.len(),
{
    if dropped.len() > 0 {
        lemma_without_back_suffix(rest, dropped.drop_last(), p);
        assert(p(dropped.last()));
        assert((rest + dropped).drop_last() =~= rest + dropped.drop_last());
    } else {
        assert(rest + dropped =~= rest);
    }
}

/// A text that begins and ends with characters that are not to be dropped is what is
/// left when it stands between ones that are.
pub proof fn lemma_core_is_left(
    before: Seq<char>,
    core: Seq<char>,
    after: Seq<char>,
    p: spec_fn(char) -> bool,
)
    requires
        core.len() > 0,
        !p(core[0]),
        !p(core.last()),
        forall|i: int| 0 <= i < before.len() ==> p(#[trigger] before[i]),
        forall|i: int| 0 <= i < after.len() ==> p(#[trigger] after[i]),
    ensures
        without_back(without_front(before + core + after, p), p) == core,
{
    assert(before + core + after =~= before + (core + after));
    lemma_without_front_prefix(before, core + after, p);
    assert((core + after)[0] == core[0]);
    lemma_without_back_suffix(core, after, p);
}

/// White space around an address, and square brackets within that, do not change what
/// is read: an address that is given without a port is the same resolver with and
/// without them, and gets the port that resolvers listen on. A text with a port is what
/// it says, whatever its bare part.
pub proof fn law_white_space_and_brackets_do_not_count(
    address: Seq<char>,
    space_before: Seq<char>,
    opening: Seq<char>,
    closing: Seq<char>,
    space_after: Seq<char>,
    reason: String,
    endpoint: Endpoint,
)
    requires
        address.len() > 0,
        !is_white_space(address[0]) && !is_bracket(address[0]),
        !is_white_space(address.last()) && !is_bracket(address.last()),
        forall|i: int|
            0 <= i < space_before.len() ==> is_white_space(#[trigger] space_before[i]),
        forall|i: int| 0 <= i < space_after.len() ==> is_white_space(#[trigger] space_after[i]),
        forall|i: int| 0 <= i < opening.len() ==> is_bracket(#[trigger] opening[i]),
        forall|i: int| 0 <= i < closing.len() ==> is_bracket(#[trigger] closing[i]),
    ensures
        ({
            let given = space_before + (opening + address + closing) + space_after;
            let unread = Err::<Endpoint, String>(reason);
            &&& bare_text(given) == address
            &&& resolver_read(given, unread) == resolver_read(address, unread)
            &&& resolver_read(given, unread) == (match ip_read(address) {
                Some(ip) => Some(Endpoint { ip, port: DNS_PORT, scope_id: 0 }),
                None => None,
            })
            &&& resolver_read(given, Ok::<Endpoint, String>(endpoint)) == Some(endpoint)
        }),
{
    let white = |c: char| is_white_space(c);
    let bracket = |c: char| is_bracket(c);
    let inner = opening + address + closing;
    assert(inner[0] == (if opening.len() > 0 {
        opening[0]
    } else {
        address[0]
    }));
    assert(inner.last() == (if closing.len() > 0 {
        closing.last()
    } else {
        address.last()
    }));
    lemma_core_is_left(space_before, inner, space_after, white);
    lemma_core_is_left(opening, address, closing, bracket);
    lemma_core_is_left(Seq::empty(), address, Seq::empty(), white);
    lemma_core_is_left(Seq::empty(), address, Seq::empty(), bracket);
    assert(Seq::empty() + address + Seq::empty() =~= address);
}

/// File descriptors needed to run a configuration.
///
/// The UDP socket count depends on the transport: per-query sockets exist only while
/// a query is in flight, so at most `max_concurrency` are open at once, while
/// persistent sockets are held for the client's life, one per resolver. Truncated
/// responses can add a TCP socket per in-flight query on top.
pub open spec fn fds_needed(max_concurrency: nat, resolvers: nat, persistent_socket: bool) -> nat {
    (if persistent_socket {
        resolvers
    } else {
        max_concurrency
    }) + max_concurrency + 100
}

/// File descriptors needed to run a configuration.
pub fn required_fds(max_concurrency: usize, resolvers: usize, persistent_socket: bool) -> (fds:
    usize)
    requires
        fds_needed(max_concurrency as nat, resolvers as nat, persistent_socket) <= usize::MAX,
    ensures
        fds == fds_needed(max_concurrency as nat, resolvers as nat, persistent_socket),
{
    let udp: usize = if persistent_socket {
        resolvers
    } else {
        max_concurrency
    };
    udp + max_concurrency + 100
}

/// The limits on open files of a process.
#[derive(Clone, Copy, Debug, PartialEq, Eq, Structural)]
pub struct FileLimit {
    /// What is enforced.
    pub soft: u64,
    /// What the soft limit may be raised to.
    pub hard: u64,
}

impl FileLimit {
    /// What to raise the limits to, where the soft one can be raised.
    pub open spec fn raise_to(self) -> Option<FileLimit> {
        if self.soft < self.hard {
            Some(FileLimit { soft: self.hard, hard: self.hard })
        } else {
            None
        }
    }

    /// What to raise the limits to, where the soft one can be raised.
    pub fn raised(&self) -> (limit: Option<FileLimit>)
        ensures
            limit == self.raise_to(),
    {
        if self.soft < self.hard {
            Some(FileLimit { soft: self.hard, hard: self.hard })
        } else {
            None
        }
    }
}

/// What the system said of the limit on open files.
#[derive(Debug)]
pub struct FileLimitReadings {
    /// The limit as first read. `None` where it could not be read.
    pub initial: Option<FileLimit>,
    /// What came of raising the soft limit, which is only looked at where it can be
    /// raised: an error is given as text.
    pub raise: Result<(), String>,
    /// The limit as read again after that. `None` where it could not be read.
    pub reread: Option<FileLimit>,
}

/// What a configuration drives its need of file descriptors by.
pub open spec fn driver_text(max_concurrency: nat, resolvers: nat, persistent_socket: bool) -> Seq<
    char,
> {
    if persistent_socket {
        "persistent sockets for "@ + decimal(resolvers) + " resolvers plus max_concurrency "@
            + decimal(max_concurrency)
    } else {
        "max_concurrency of "@ + decimal(max_concurrency)
    }
}

/// What is said where the limit is too low.
pub open spec fn too_low_text(
    current: nat,
    max_concurrency: nat,
    resolvers: nat,
    persistent_socket: bool,
) -> Seq<char> {
    let required = decimal(fds_needed(max_concurrency, resolvers, persistent_socket));
    "NOFILE limit too low even after raising soft limit: current="@ + decimal(current)
        + ", required="@ + required + "\n"@ + driver_text(
        max_concurrency,
        resolvers,
        persistent_socket,
    ) + " needs ~"@ + required + " FDs\nIncrease with: ulimit -n "@ + required
        + " (or higher), or lower max_concurrency"@
}

/// What is said where the soft limit could not be raised.
pub open spec fn raise_failed_text(limit: FileLimit, reason: Seq<char>) -> Seq<char> {
    "failed to raise RLIMIT_NOFILE to hard limit (soft="@ + decimal(limit.soft as nat) + ", hard="@
        + decimal(limit.hard as nat) + "): "@ + reason
}

impl FileLimitReadings {
    /// The soft limit in force after it was raised as far as it goes, or what is said
    /// where that failed.
    pub open spec fn in_force(self) -> Result<u64, Seq<char>> {
        match self.initial {
            None => Err("failed to read RLIMIT_NOFILE"@),
            Some(limit) => if limit.raise_to() is None {
                Ok(limit.soft)
            } else {
                match self.raise {
                    Err(reason) => Err(raise_failed_text(limit, reason@)),
                    Ok(_) => match self.reread {
                        None => Err("failed to re-read RLIMIT_NOFILE after raising it"@),
                        Some(raised) => Ok(raised.soft),
                    },
                }
            },
        }
    }
}

/// What is said against a configuration on a system with these limits. Nothing where
/// the limit in force, or the lack of one, allows it.
pub open spec fn ulimit_objection(
    max_concurrency: nat,
    resolvers: nat,
    persistent_socket: bool,
    readings: Option<FileLimitReadings>,
) -> Option<Seq<char>> {
    match readings {
        None => None,
        Some(readings) => match readings.in_force() {
            Err(text) => Some(text),
            Ok(current) => if current < fds_needed(max_concurrency, resolvers, persistent_socket) {
                Some(too_low_text(current as nat, max_concurrency, resolvers, persistent_socket))
            } else {
                None
            },
        },
    }
}

/// The soft limit in force after it was raised as far as it goes.
fn limit_in_force(readings: &FileLimitReadings) -> (limit: Result<u64, String>)
    ensures
        match readings.in_force() {
            Ok(soft) => limit == Ok::<u64, String>(soft),
            Err(text) => limit matches Err(said) && said@ == text,
        },
{
    let initial: FileLimit = match readings.initial {
        None => {
            return Err("failed to read RLIMIT_NOFILE".to_owned());
        },
        Some(limit) => limit,
    };
    if initial.raised().is_none() {
        return Ok(initial.soft);
    }
    if let Err(reason) = &readings.raise {
        let mut text: String =
            "failed to raise RLIMIT_NOFILE to hard limit (soft=".to_owned();
        push_decimal(&mut text, initial.soft);
        text.append(", hard=");
        push_decimal(&mut text, initial.hard);
        text.append("): ");
        text.append(reason.as_str());
        return Err(text);
    }
    match readings.reread {
        None => Err("failed to re-read RLIMIT_NOFILE after raising it".to_owned()),
        Some(raised) => Ok(raised.soft),
    }
}

/// Checks whether the limit on open files is sufficient for a configuration.
/// `readings` is `None` on a system without such a limit.
pub fn check_ulimits(
    max_concurrency: usize,
    resolvers: usize,
    persistent_socket: bool,
    readings: &Option<FileLimitReadings>,
) -> (verdict: Result<(), String>)
    requires
        fds_needed(max_concurrency as nat, resolvers as nat, persistent_socket) <= usize::MAX,
    ensures
        match ulimit_objection(
            max_concurrency as nat,
            resolvers as nat,
            persistent_socket,
            *readings,
        ) {
            None => verdict is Ok,
            Some(text) => verdict matches Err(said) && said@ == text,
        },
{
    let readings: &FileLimitReadings = match readings {
        None => {
            return Ok(());
        },
        Some(readings) => readings,
    };
    let current: u64 = match limit_in_force(readings) {
        Err(text) => {
            return Err(text);
        },
        Ok(current) => current,
    };
    let required: u64 = required_fds(max_concurrency, resolvers, persistent_socket) as u64;
    if current >= required {
        return Ok(());
    }
    let mut text: String =
        "NOFILE limit too low even after raising soft limit: current=".to_owned();
    push_decimal(&mut text, current);
    text.append(", required=");
    push_decimal(&mut text, required);
    text.append("\n");
    if persistent_socket {
        let mut driver: String = "persistent sockets for ".to_owned();
        push_decimal(&mut driver, resolvers as u64);
        driver.append(" resolvers plus max_concurrency ");
        push_decimal(&mut driver, max_concurrency as u64);
        text.append(driver.as_str());
    } else {
        let mut driver: String = "max_concurrency of ".to_owned();
        push_decimal(&mut driver, max_concurrency as u64);
        text.append(driver.as_str());
    }
    text.append(" needs ~");
    push_decimal(&mut text, required);
    text.append(" FDs\nIncrease with: ulimit -n ");
    push_decimal(&mut text, required);
    text.append(" (or higher), or lower max_concurrency");
    Err(text)
}

/// `items` without those that occurred before.
pub open spec fn distinct(items: Seq<IpAddress>) -> Seq<IpAddress>
    decreases items.len(),
{
    if items.len() == 0 {
        items
    } else if items.drop_last().contains(items.last()) {
        distinct(items.drop_last())
    } else {
        distinct(items.drop_last()).push(items.last())
    }
}

/// Leaving out what occurred before loses no address and leaves none twice.
pub proof fn law_distinct_loses_nothing(items: Seq<IpAddress>)
    ensures
        forall|ip: IpAddress| #[trigger] distinct(items).contains(ip) <==> items.contains(ip),
        distinct(items).no_duplicates(),
        distinct(items).len() <= items.len(),
        items.len() > 0 ==> distinct(items).len() > 0,
    decreases items.len(),
{
    if items.len() > 0 {
        let front = items.drop_last();
        let last = items.last();
        law_distinct_loses_nothing(front);
        assert(items =~= front.push(last));
        assert forall|ip: IpAddress| items.contains(ip) == (front.contains(ip) || ip == last) by {
            if front.contains(ip) {
                let i = front.index_of(ip);
                assert(items[i] == ip);
            }
            if ip == last {
                assert(items[items.len() - 1] == ip);
            }
        }
        if !front.contains(last) {
            let kept = distinct(front);
            assert(!kept.contains(last));
            assert forall|ip: IpAddress| #[trigger] distinct(items).contains(ip) == (kept.contains(
                ip,
            ) || ip == last) by {
                if kept.contains(ip) {
                    let i = kept.index_of(ip);
                    assert(kept.push(last)[i] == ip);
                }
                assert(kept.push(last)[kept.len() as int] == last);
            }
        }
    }
}

/// Whether `items` holds `item`.
fn holds(items: &Vec<IpAddress>, item: IpAddress) -> (found: bool)
    ensures
        found == items@.contains(item),
{
    let mut i: usize = 0;
    while i < items.len()
        invariant
            i <= items@.len(),
            forall|j: int| 0 <= j < i ==> items@[j] != item,
        decreases items@.len() - i,
    {
        if items[i] == item {
            return true;
        }
        i += 1;
    }
    false
}

/// The addresses of the system's resolvers, each once and in the order that the
/// system lists them in. `servers` is that list, or why it could not be read.
pub fn get_system_resolvers(servers: Result<Vec<IpAddress>, String>) -> (resolvers: Result<
    Vec<IpAddress>,
    BlastDNSError,
>)
    ensures
        match servers {
            Err(reason) => resolvers matches Err(BlastDNSError::Configuration(text)) && text@
                == "Failed to read system DNS configuration: "@ + reason@,
            Ok(listed) => if listed@.len() == 0 {
                resolvers matches Err(BlastDNSError::Configuration(text)) && text@
                    == "No system resolvers found"@
            } else {
                resolvers matches Ok(ips) && ips@ == distinct(listed@)
            },
        },
{
    let listed: Vec<IpAddress> = match servers {
        Err(reason) => {
            let mut text: String = "Failed to read system DNS configuration: ".to_owned();
            text.append(reason.as_str());
            return Err(BlastDNSError::Configuration(text));
        },
        Ok(listed) => listed,
    };
    let mut ips: Vec<IpAddress> = Vec::new();
    let mut i: usize = 0;
    while i < listed.len()
        invariant
            i <= listed@.len(),
            ips@ == distinct(listed@.take(i as int)),
        decreases listed@.len() - i,
    {
        proof {
            law_distinct_loses_nothing(listed@.take(i as int));
            assert(listed@.take(i + 1).drop_last() =~= listed@.take(i as int));
        }
        if !holds(&ips, listed[i]) {
            ips.push(listed[i]);
        }
        i += 1;
    }
    proof {
        assert(listed@.take(i as int) =~= listed@);
        law_distinct_loses_nothing(listed@);
    }
    if ips.len() == 0 {
        return Err(BlastDNSError::Configuration("No system resolvers found".to_owned()));
    }
    Ok(ips)
}

/// The lowest `count` hexadecimal digits of `bits`, the lowest first, with dots
/// between them.
pub open spec fn dotted_nibbles(bits: nat, count: nat) -> Seq<char>
    decreases count,
{
    if count == 0 {
        seq![]
    } else if count == 1 {
        seq![digit((bits % 16) as int)]
    } else {
        seq![digit((bits % 16) as int), '.'] + dotted_nibbles(bits / 16, (count - 1) as nat)
    }
}

/// The lowest `count` octets of `bits` in base ten, the lowest first, with dots
/// between them.
pub open spec fn dotted_octets(bits: nat, count: nat) -> Seq<char>
    decreases count,
{
    if count == 0 {
        seq![]
    } else if count == 1 {
        decimal(bits % 256)
    } else {
        decimal(bits % 256) + seq!['.'] + dotted_octets(bits / 256, (count - 1) as nat)
    }
}

/// The name to ask for in a reverse lookup of `ip`.
pub open spec fn ptr_name(ip: IpAddress) -> Seq<char> {
    match ip {
        IpAddress::V4(bits) => dotted_octets(bits as nat, 4) + ".in-addr.arpa"@,
        IpAddress::V6(bits) => dotted_nibbles(bits as nat, 32) + ".ip6.arpa"@,
    }
}

/// The name to ask for in a reverse lookup of `host`, where `ip` is `host` read as an
/// address.
pub open spec fn ptr_query_text(host: Seq<char>, ip: Option<IpAddress>) -> Seq<char> {
    match ip {
        Some(ip) => ptr_name(ip),
        None => host,
    }
}

/// The name to ask for in a PTR lookup of `host`, where `ip` is `host` read as an
/// address: a host that is none is left as it is.
pub fn ptr_query(host: &str, ip: Option<IpAddress>) -> (query: String)
    ensures
        query@ == ptr_query_text(host@, ip),
{
    match ip {
        None => host.to_owned(),
        Some(IpAddress::V4(bits)) => {
            let mut query: String = String::new();
            push_octets(&mut query, bits, 4);
            query.append(".in-addr.arpa");
            query
        },
        Some(IpAddress::V6(bits)) => {
            let mut query: String = String::new();
            push_nibbles(&mut query, bits, 32);
            query.append(".ip6.arpa");
            query
        },
    }
}

/// Format an IP address for PTR lookup. A host that is no address is left as it is.
///
/// IPv4: "192.168.1.1" becomes "1.1.168.192.in-addr.arpa". IPv6: the digits of the
/// expanded address, reversed, and ".ip6.arpa".
pub fn format_ptr_query(host: &str) -> (query: String)
    ensures
        query@ == ptr_query_text(host@, ip_read(host@)),
{
    ptr_query(host, parse_ip(host))
}

/// Append the lowest `count` octets of `bits`.
fn push_octets(text: &mut String, bits: u32, count: u32)
    ensures
        final(text)@ == old(text)@ + dotted_octets(bits as nat, count as nat),
    decreases count,
{
    if count == 0 {
        assert(text@ =~= old(text)@ + dotted_octets(bits as nat, 0));
        return ;
    }
    push_decimal(text, (bits % 256) as u64);
    if count > 1 {
        text.push('.');
        push_octets(text, bits / 256, count - 1);
    }
    assert(text@ =~= old(text)@ + dotted_octets(bits as nat, count as nat));
}

/// Append the lowest `count` hexadecimal digits of `bits`.
fn push_nibbles(text: &mut String, bits: u128, count: u32)
    ensures
        final(text)@ == old(text)@ + dotted_nibbles(bits as nat, count as nat),
    decreases count,
{
    if count == 0 {
        assert(text@ =~= old(text)@ + dotted_nibbles(bits as nat, 0));
        return ;
    }
    text.push(digit_char((bits % 16) as u8));
    if count > 1 {
        text.push('.');
        push_nibbles(text, bits / 16, count - 1);
    }
    assert(text@ =~= old(text)@ + dotted_nibbles(bits as nat, count as nat));
}

/// Sixteen to the power of `count`.
spec fn sixteen_to(count: nat) -> nat
    decreases count,
{
    if count == 0 {
        1
    } else {
        16 * sixteen_to((count - 1) as nat)
    }
}

/// Digits in base sixteen tell numbers apart.
proof fn lemma_dotted_nibbles_tell_apart(a: nat, b: nat, count: nat)
    requires
        count > 0,
        a < sixteen_to(count),
        b < sixteen_to(count),
        dotted_nibbles(a, count) == dotted_nibbles(b, count),
    ensures
        a == b,
    decreases count,
{
    let rest = (count - 1) as nat;
    let left = dotted_nibbles(a, count);
    let right = dotted_nibbles(b, count);
    lemma_digits_differ((a % 16) as int, (b % 16) as int);
    assert(left[0] == digit((a % 16) as int));
    assert(right[0] == digit((b % 16) as int));
    assert(a % 16 == b % 16);
    assert(a == 16 * (a / 16) + a % 16);
    assert(b == 16 * (b / 16) + b % 16);
    assert(sixteen_to(count) == 16 * sixteen_to(rest));
    assert(a / 16 < sixteen_to(rest));
    assert(b / 16 < sixteen_to(rest));
    if count == 1 {
        assert(sixteen_to(rest) == 1);
        assert(a / 16 == b / 16);
    } else {
        assert(left.subrange(2, left.len() as int) =~= dotted_nibbles(a / 16, rest));
        assert(right.subrange(2, right.len() as int) =~= dotted_nibbles(b / 16, rest));
        lemma_dotted_nibbles_tell_apart(a / 16, b / 16, rest);
        assert(a / 16 == b / 16);
    }
}

/// Octets in base ten with dots between them tell numbers apart.
proof fn lemma_dotted_octets_tell_apart(a: nat, b: nat)
    requires
        a <= u32::MAX,
        b <= u32::MAX,
        dotted_octets(a, 4) == dotted_octets(b, 4),
    ensures
        a == b,
{
    reveal_with_fuel(dotted_octets, 4);
    lemma_split_at_dot(
        decimal(a % 256),
        dotted_octets(a / 256, 3),
        decimal(b % 256),
        dotted_octets(b / 256, 3),
    );
    lemma_split_at_dot(
        decimal(a / 256 % 256),
        dotted_octets(a / 256 / 256, 2),
        decimal(b / 256 % 256),
        dotted_octets(b / 256 / 256, 2),
    );
    lemma_split_at_dot(
        decimal(a / 256 / 256 % 256),
        dotted_octets(a / 256 / 256 / 256, 1),
        decimal(b / 256 / 256 % 256),
        dotted_octets(b / 256 / 256 / 256, 1),
    );
    lemma_decimal_tells_apart(a % 256, b % 256);
    lemma_decimal_tells_apart(a / 256 % 256, b / 256 % 256);
    lemma_decimal_tells_apart(a / 256 / 256 % 256, b / 256 / 256 % 256);
    lemma_decimal_tells_apart(a / 256 / 256 / 256 % 256, b / 256 / 256 / 256 % 256);
}

/// Two texts, each a number and more behind a dot, are equal only part by part.
proof fn lemma_split_at_dot(a: Seq<char>, x: Seq<char>, b: Seq<char>, y: Seq<char>)
    requires
        exists|n: nat| a == decimal(n),
        exists|n: nat| b == decimal(n),
    ensures
        a + seq!['.'] + x == b + seq!['.'] + y ==> a == b && x == y,
{
    let m = choose|n: nat| a == decimal(n);
    let n = choose|n: nat| b == decimal(n);
    lemma_decimal_has_no_dot(m);
    lemma_decimal_has_no_dot(n);
    let left = a + seq!['.'] + x;
    let right = b + seq!['.'] + y;
    if left == right {
        assert(left[a.len() as int] == '.');
        assert(right[b.len() as int] == '.');
        if a.len() < b.len() {
            assert(right[a.len() as int] == b[a.len() as int]);
        } else if b.len() < a.len() {
            assert(left[b.len() as int] == a[b.len() as int]);
        }
        assert(a =~= left.take(a.len() as int));
        assert(b =~= right.take(b.len() as int));
        assert(x =~= left.skip(a.len() as int + 1));
        assert(y =~= right.skip(b.len() as int + 1));
    }
}

/// A reverse lookup's name belongs to one address: two addresses have different
/// names.
pub proof fn law_ptr_names_tell_addresses_apart(a: IpAddress, b: IpAddress)
    requires
        ptr_name(a) == ptr_name(b),
    ensures
        a == b,
{
    reveal_strlit(".in-addr.arpa");
    reveal_strlit(".ip6.arpa");
    let v4 = ".in-addr.arpa"@;
    let v6 = ".ip6.arpa"@;
    let name = ptr_name(a);
    let mark = name[name.len() - 9];
    match (a, b) {
        (IpAddress::V4(m), IpAddress::V4(n)) => {
            let left = dotted_octets(m as nat, 4);
            let right = dotted_octets(n as nat, 4);
            assert(left =~= (left + v4).take(left.len() as int));
            assert(right =~= (right + v4).take(right.len() as int));
            lemma_dotted_octets_tell_apart(m as nat, n as nat);
        },
        (IpAddress::V6(m), IpAddress::V6(n)) => {
            let left = dotted_nibbles(m as nat, 32);
            let right = dotted_nibbles(n as nat, 32);
            assert(left =~= (left + v6).take(left.len() as int));
            assert(right =~= (right + v6).take(right.len() as int));
            assert(sixteen_to(32) == 0x1_0000_0000_0000_0000_0000_0000_0000_0000) by {
                reveal_with_fuel(sixteen_to, 33);
            }
            lemma_dotted_nibbles_tell_apart(m as nat, n as nat, 32);
        },
        (IpAddress::V4(_), IpAddress::V6(_)) => {
            assert(mark == 'a' && mark == '.');
        },
        (IpAddress::V6(_), IpAddress::V4(_)) => {
            assert(mark == 'a' && mark == '.');
        },
    }
}

/// Only square brackets and white space are dropped around an address: one that begins and
/// ends with anything else is taken as it is, and square brackets around it are dropped
/// from either end. The port is then 53.
pub proof fn law_only_brackets_are_dropped(address: Seq<char>, reason: String)
    requires
        address.len() > 0,
        !is_white_space(address[0]),
        !is_white_space(address.last()),
        address[0] != '[' && address[0] != ']',
        address.last() != '[' && address.last() != ']',
    ensures
        bare_text(address) == address,
        bare_text(seq!['['] + address + seq![']']) == address,
        resolver_read(address, Err::<Endpoint, String>(reason)) is Some <==> ip_read(
            address,
        ) is Some,
        resolver_read(address, Err::<Endpoint, String>(reason)) matches Some(endpoint) ==> Some(
            endpoint.ip,
        ) == ip_read(address) && endpoint.port == 53 && endpoint.scope_id == 0,
{
    let none = Seq::<char>::empty();
    law_white_space_and_brackets_do_not_count(
        address,
        none,
        none,
        none,
        none,
        reason,
        Endpoint { ip: IpAddress::V4(0), port: 0, scope_id: 0 },
    );
    law_white_space_and_brackets_do_not_count(
        address,
        none,
        seq!['['],
        seq![']'],
        none,
        reason,
        Endpoint { ip: IpAddress::V4(0), port: 0, scope_id: 0 },
    );
    assert(none + (none + address + none) + none =~= address);
    assert(none + (seq!['['] + address + seq![']']) + none =~= seq!['['] + address + seq![']']);
}

/// A resolver that is given with its port is what it says, and the address without one is
/// looked at only where that cannot be read. Where neither can be, there is none, and the
/// error tells the whole text and why.
pub proof fn law_a_port_that_is_given_stands(
    input: Seq<char>,
    endpoint: Endpoint,
    reason: String,
    bare: Option<IpAddress>,
    error: BlastDNSError,
)
    ensures
        resolver_of(Ok::<Endpoint, String>(endpoint), bare) == Some(endpoint),
        resolver_of(Err::<Endpoint, String>(reason), None) is None,
        bare matches Some(ip) ==> resolver_of(Err::<Endpoint, String>(reason), bare) == Some(
            Endpoint { ip, port: 53, scope_id: 0 },
        ),
        is_unread(error, input, Err::<Endpoint, String>(reason)) ==> {
            &&& error matches BlastDNSError::InvalidResolver { resolver, source }
            &&& resolver@ == input
            &&& source == reason
        },
{
}

/// What each part of a configuration needs of file descriptors: a hundred at least; two
/// for every query that may be in flight where each has its own socket, whatever the
/// number of resolvers; and one for every such query and one for every resolver where the
/// sockets are kept.
pub proof fn law_every_query_and_socket_needs_a_descriptor(max_concurrency: nat, resolvers: nat)
    ensures
        fds_needed(0, resolvers, false) == 100,
        fds_needed(0, 0, true) == 100,
        fds_needed(max_concurrency + 1, resolvers, false) == fds_needed(
            max_concurrency,
            resolvers,
            false,
        ) + 2,
        fds_needed(max_concurrency + 1, resolvers, true) == fds_needed(
            max_concurrency,
            resolvers,
            true,
        ) + 1,
        fds_needed(max_concurrency, resolvers + 1, true) == fds_needed(
            max_concurrency,
            resolvers,
            true,
        ) + 1,
        fds_needed(max_concurrency, resolvers + 1, false) == fds_needed(
            max_concurrency,
            resolvers,
            false,
        ),
{
}

/// A configuration is allowed just where the limit in force covers what it needs. The
/// limit in force is the soft one where it is not below the hard one, and what was read
/// after raising it where it is. A limit that cannot be read or raised is an objection,
/// and the lack of any limit is none.
pub proof fn law_a_configuration_is_allowed_where_the_limit_covers_it(
    max_concurrency: nat,
    resolvers: nat,
    persistent_socket: bool,
    readings: FileLimitReadings,
)
    ensures
        ulimit_objection(max_concurrency, resolvers, persistent_socket, None) is None,
        ({
            let needed = fds_needed(max_concurrency, resolvers, persistent_socket);
            let objection = ulimit_objection(
                max_concurrency,
                resolvers,
                persistent_socket,
                Some(readings),
            );
            match readings.initial {
                None => objection is Some,
                Some(limit) => {
                    &&& limit.soft >= limit.hard ==> limit.raise_to() is None && (
                    objection is None <==> limit.soft >= needed)
                    &&& limit.soft < limit.hard ==> {
                        &&& limit.raise_to() == Some(
                            FileLimit { soft: limit.hard, hard: limit.hard },
                        )
                        &&& readings.raise is Err ==> objection is Some
                        &&& readings.raise is Ok && readings.reread is None ==> objection is Some
                        &&& readings.raise is Ok ==> (readings.reread matches Some(raised) ==> (
                        objection is None <==> raised.soft >= needed))
                    }
                },
            }
        }),
{
}

/// Addresses stay in the order in which they were first listed: what is listed later
/// leaves what was there before as it is, and adds an address at the end just where it was
/// not listed before.
pub proof fn law_distinct_keeps_the_order(items: Seq<IpAddress>, later: Seq<IpAddress>)
    ensures
        distinct(items).is_prefix_of(distinct(items + later)),
    decreases later.len(),
{
    if later.len() > 0 {
        law_distinct_keeps_the_order(items, later.drop_last());
        assert((items + later).drop_last() =~= items + later.drop_last());
        assert((items + later).last() == later.last());
    } else {
        assert(items + later =~= items);
    }
}

/// The reverse name of an IPv4 address is its octets in reverse: that of the address with
/// the octets `a`, `b`, `c` and `d` is the numbers `d`, `c`, `b` and `a` with dots between
/// them, under `in-addr.arpa`.
pub proof fn law_octets_are_reversed(a: u8, b: u8, c: u8, d: u8)
    ensures
        ptr_name(IpAddress::V4((a * 0x100_0000 + b * 0x1_0000 + c * 0x100 + d) as u32)) == decimal(
            d as nat,
        ) + seq!['.'] + decimal(c as nat) + seq!['.'] + decimal(b as nat) + seq!['.'] + decimal(
            a as nat,
        ) + ".in-addr.arpa"@,
{
    let bits: nat = (a * 0x100_0000 + b * 0x1_0000 + c * 0x100 + d) as nat;
    assert(bits % 256 == d);
    assert(bits / 256 % 256 == c);
    assert(bits / 256 / 256 % 256 == b);
    assert(bits / 256 / 256 / 256 % 256 == a);
    reveal_with_fuel(dotted_octets, 5);
    assert(dotted_octets(bits, 4) =~= decimal(d as nat) + seq!['.'] + decimal(c as nat) + seq!['.']
        + decimal(b as nat) + seq!['.'] + decimal(a as nat));
}

/// The digits of an IPv6 address come in reverse: in its reverse name, the one that stands
/// for the lowest four bits is first, and for every next one there is a dot and then the
/// digit for the next four bits, 32 digits in all, under `ip6.arpa`. Whatever the address,
/// shifting it by four bits shifts the digits by one.
pub proof fn law_nibbles_are_reversed(bits: u128)
    ensures
        ({
            let name = ptr_name(IpAddress::V6(bits));
            let shifted = ptr_name(IpAddress::V6(bits / 16));
            let digits = name.take(63);
            &&& name == digits + ".ip6.arpa"@
            &&& digits.len() == 63
            &&& digit_value(name[0]) == bits % 16
            &&& forall|i: int| 0 <= i < 31 ==> #[trigger] name[2 * i + 1] == '.'
            &&& forall|i: int| 0 <= i < 61 ==> #[trigger] name[i + 2] == shifted[i]
        }),
{
    let name = ptr_name(IpAddress::V6(bits));
    let shifted = ptr_name(IpAddress::V6(bits / 16));
    let digits = dotted_nibbles(bits as nat, 32);
    lemma_dotted_nibbles(bits as nat, 32);
    lemma_dotted_nibbles((bits / 16) as nat, 32);
    law_digits_stand_for_their_values((bits % 16) as int);
    assert(name.take(63) =~= digits);
    assert(digits[0] == digit((bits % 16) as int));
    assert forall|i: int| 0 <= i < 31 implies #[trigger] name[2 * i + 1] == '.' by {
        assert(digits[2 * i + 1] == '.');
    }
    lemma_fewer_nibbles((bits / 16) as nat, 31);
    assert forall|i: int| 0 <= i < 61 implies #[trigger] name[i + 2] == shifted[i] by {
        assert(digits[i + 2] == dotted_nibbles((bits / 16) as nat, 31)[i]);
    }
}

/// How long digits with dots between them are, and where the dots stand.
proof fn lemma_dotted_nibbles(bits: nat, count: nat)
    requires
        count > 0,
    ensures
        dotted_nibbles(bits, count).len() == 2 * count - 1,
        forall|i: int| 0 <= i < count - 1 ==> #[trigger] dotted_nibbles(bits, count)[2 * i + 1]
            == '.',
    decreases count,
{
    if count > 1 {
        let rest = dotted_nibbles(bits / 16, (count - 1) as nat);
        lemma_dotted_nibbles(bits / 16, (count - 1) as nat);
        assert forall|i: int| 0 <= i < count - 1 implies #[trigger] dotted_nibbles(bits, count)[2
            * i + 1] == '.' by {
            if i > 0 {
                assert(dotted_nibbles(bits, count)[2 * i + 1] == rest[2 * (i - 1) + 1]);
            }
        }
    }
}

/// Fewer digits of a number are the front part of more.
proof fn lemma_fewer_nibbles(bits: nat, count: nat)
    requires
        count > 0,
    ensures
        dotted_nibbles(bits, count).is_prefix_of(dotted_nibbles(bits, count + 1)),
    decreases count,
{
    lemma_dotted_nibbles(bits, count);
    lemma_dotted_nibbles(bits, count + 1);
    let fewer = dotted_nibbles(bits, count);
    let more = dotted_nibbles(bits, count + 1);
    if count > 1 {
        lemma_fewer_nibbles(bits / 16, (count - 1) as nat);
        let fewer_rest = dotted_nibbles(bits / 16, (count - 1) as nat);
        let more_rest = dotted_nibbles(bits / 16, count);
        lemma_dotted_nibbles(bits / 16, (count - 1) as nat);
        assert forall|i: int| 0 <= i < fewer.len() implies fewer[i] == more[i] by {
            if i >= 2 {
                assert(fewer[i] == fewer_rest[i - 2]);
                assert(more[i] == more_rest[i - 2]);
                assert(fewer_rest[i - 2] == more_rest.take(fewer_rest.len() as int)[i - 2]);
            }
        }
    }
    assert(fewer =~= more.take(fewer.len() as int));
}

/// An address is asked for by its reverse name, and a host that is none by its own.
pub proof fn law_a_host_that_is_no_address_is_left_alone(host: Seq<char>, ip: IpAddress)
    ensures
        ptr_query_text(host, None) == host,
        ptr_query_text(host, Some(ip)) == ptr_name(ip),
{
}

/// An objection tells the numbers: a limit that is too low is told with what is needed, and
/// what drives that; a limit that cannot be raised is told with what it was to be raised
/// to and why it was not.
pub proof fn law_objections_tell_the_numbers(
    current: nat,
    max_concurrency: nat,
    resolvers: nat,
    limit: FileLimit,
    reason: Seq<char>,
)
    ensures
        ({
            let kept = decimal(resolvers + max_concurrency + 100);
            let fresh = decimal(2 * max_concurrency + 100);
            let head = "NOFILE limit too low even after raising soft limit: current="@ + decimal(
                current,
            ) + ", required="@;
            &&& too_low_text(current, max_concurrency, resolvers, true) == head + kept + "\n"@
                + "persistent sockets for "@ + decimal(resolvers)
                + " resolvers plus max_concurrency "@ + decimal(max_concurrency) + " needs ~"@
                + kept + " FDs\nIncrease with: ulimit -n "@ + kept
                + " (or higher), or lower max_concurrency"@
            &&& too_low_text(current, max_concurrency, resolvers, false) == head + fresh + "\n"@
                + "max_concurrency of "@ + decimal(max_concurrency) + " needs ~"@ + fresh
                + " FDs\nIncrease with: ulimit -n "@ + fresh
                + " (or higher), or lower max_concurrency"@
        }),
        raise_failed_text(limit, reason)
            == "failed to raise RLIMIT_NOFILE to hard limit (soft="@ + decimal(limit.soft as nat)
            + ", hard="@ + decimal(limit.hard as nat) + "): "@ + reason,
{
    let kept = decimal(resolvers + max_concurrency + 100);
    let fresh = decimal(2 * max_concurrency + 100);
    let head = "NOFILE limit too low even after raising soft limit: current="@ + decimal(current)
        + ", required="@;
    assert(too_low_text(current, max_concurrency, resolvers, true) =~= head + kept + "\n"@
        + "persistent sockets for "@ + decimal(resolvers) + " resolvers plus max_concurrency "@
        + decimal(max_concurrency) + " needs ~"@ + kept + " FDs\nIncrease with: ulimit -n "@ + kept
        + " (or higher), or lower max_concurrency"@);
    assert(too_low_text(current, max_concurrency, resolvers, false) =~= head + fresh + "\n"@
        + "max_concurrency of "@ + decimal(max_concurrency) + " needs ~"@ + fresh
        + " FDs\nIncrease with: ulimit -n "@ + fresh
        + " (or higher), or lower max_concurrency"@);
}

/// Each way in which an objection comes about says its own: the limit that was read but
/// does not do, or the step of reading and raising it that failed.
pub proof fn law_an_objection_says_what_failed(
    max_concurrency: nat,
    resolvers: nat,
    persistent_socket: bool,
    readings: FileLimitReadings,
    text: Seq<char>,
)
    requires
        ulimit_objection(max_concurrency, resolvers, persistent_socket, Some(readings)) == Some(
            text,
        ),
    ensures
        match readings.initial {
            None => text == "failed to read RLIMIT_NOFILE"@,
            Some(limit) => if limit.soft >= limit.hard {
                text == too_low_text(
                    limit.soft as nat,
                    max_concurrency,
                    resolvers,
                    persistent_socket,
                )
            } else {
                match (readings.raise, readings.reread) {
                    (Err(reason), _) => text == raise_failed_text(limit, reason@),
                    (Ok(_), None) => text == "failed to re-read RLIMIT_NOFILE after raising it"@,
                    (Ok(_), Some(raised)) => text == too_low_text(
                        raised.soft as nat,
                        max_concurrency,
                        resolvers,
                        persistent_socket,
                    ),
                }
            },
        },
{
}

} // verus!
