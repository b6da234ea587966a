//! The system resolver settings: the saved per-adapter DNS servers, the
//! command lines that point adapters at the local proxy and back, and the
//! parsing of what the platform tools report.

use serde_json::Value;
use vstd::prelude::*;

use crate::text::{push_text, text};

verus! {

/// The DNS servers of one network adapter (or service) and address family
/// (4, 6, or 0 where the platform does not separate them).
#[derive(Debug)]
pub struct AdapterDnsState {
    pub alias: String,
    pub family: u16,
    pub servers: Vec<String>,
}

/// `value` with each single quote doubled.
pub open spec fn escape_quotes(s: Seq<char>) -> Seq<char>
    decreases s.len(),
{
    if s.len() == 0 {
        Seq::empty()
    } else {
        escape_quotes(s.drop_last()) + if s.last() == '\'' {
            seq!['\'', '\'']
        } else {
            seq![s.last()]
        }
    }
}

/// A PowerShell single-quoted string literal holding `value`.
pub fn quote_ps(value: &str) -> (quoted: String)
    ensures
        quoted@ == seq!['\''] + escape_quotes(value@) + seq!['\''],
{
    let v = crate::text::chars_of(value);
    let mut quoted = String::new();
    crate::text::push_char(&mut quoted, '\'');
    let mut i: usize = 0;
    while i < v.len()
        invariant
            v@ == value@,
            i <= v.len(),
            quoted@ == seq!['\''] + escape_quotes(v@.take(i as int)),
        decreases v.len() - i,
    {
        let c = v[i];
        assert(v@.take(i + 1).drop_last() =~= v@.take(i as int));
        if c == '\'' {
            crate::text::push_char(&mut quoted, '\'');
            crate::text::push_char(&mut quoted, '\'');
        } else {
            crate::text::push_char(&mut quoted, c);
        }
        assert(quoted@ =~= seq!['\''] + escape_quotes(v@.take(i + 1)));
        i += 1;
    }
    assert(v@.take(v.len() as int) =~= v@);
    crate::text::push_char(&mut quoted, '\'');
    quoted
}

/// The PowerShell name of an address family.
pub fn family_name(family: u16) -> (name: &'static str)
    ensures
        family == 6 ==> name@ == "IPv6"@,
        family != 6 ==> name@ == "IPv4"@,
{
    if family == 6 {
        "IPv6"
    } else {
        "IPv4"
    }
}

/// `parts` joined with `", "`.
pub open spec fn comma_joined(parts: Seq<Seq<char>>) -> Seq<char>
    decreases parts.len(),
{
    if parts.len() == 0 {
        Seq::empty()
    } else if parts.len() == 1 {
        parts[0]
    } else {
        comma_joined(parts.drop_last()) + ", "@ + parts.last()
    }
}

pub open spec fn quoted_all(servers: Seq<String>) -> Seq<Seq<char>> {
    servers.map_values(|s: String| seq!['\''] + escape_quotes(s@) + seq!['\''])
}

pub open spec fn spec_family_name(family: u16) -> Seq<char> {
    if family == 6 {
        "IPv6"@
    } else {
        "IPv4"@
    }
}

/// The PowerShell command that sets the DNS servers of an adapter.
pub fn set_servers_script(alias: &str, family: u16, servers: &Vec<String>) -> (script: String)
    ensures
        script@ == "Set-DnsClientServerAddress -InterfaceAlias "@ + seq!['\''] + escape_quotes(
            alias@,
        ) + seq!['\''] + " -AddressFamily "@ + spec_family_name(family) + " -ServerAddresses @("@
            + comma_joined(quoted_all(servers@)) + ")"@,
{
    let mut addresses = String::new();
    let mut i: usize = 0;
    while i < servers.len()
        invariant
            i <= servers.len(),
            addresses@ == comma_joined(quoted_all(servers@).take(i as int)),
        decreases servers.len() - i,
    {
        let ghost parts = quoted_all(servers@).take(i + 1);
        assert(parts.drop_last() =~= quoted_all(servers@).take(i as int));
        if i > 0 {
            push_text(&mut addresses, ", ");
        } else {
            assert(addresses@ =~= Seq::<char>::empty());
        }
        push_text(&mut addresses, quote_ps(servers[i].as_str()).as_str());
        i += 1;
    }
    assert(quoted_all(servers@).take(servers.len() as int) =~= quoted_all(servers@));
    let mut script = text("Set-DnsClientServerAddress -InterfaceAlias ");
    push_text(&mut script, quote_ps(alias).as_str());
    push_text(&mut script, " -AddressFamily ");
    push_text(&mut script, family_name(family));
    push_text(&mut script, " -ServerAddresses @(");
    push_text(&mut script, addresses.as_str());
    push_text(&mut script, ")");
    script
}

/// The PowerShell command that returns an adapter to automatic DNS.
pub fn reset_servers_script(alias: &str, family: u16) -> (script: String)
    ensures
        script@ == "Reset-DnsClientServerAddress -InterfaceAlias "@ + seq!['\''] + escape_quotes(
            alias@,
        ) + seq!['\''] + " -AddressFamily "@ + spec_family_name(family),
{
    let mut script = text("Reset-DnsClientServerAddress -InterfaceAlias ");
    push_text(&mut script, quote_ps(alias).as_str());
    push_text(&mut script, " -AddressFamily ");
    push_text(&mut script, family_name(family));
    script
}

/// The local proxy address for an address family (IPv4 for family 4, IPv6 otherwise).
pub fn local_servers(family: u16) -> (servers: Vec<String>)
    ensures
        servers@.len() == 1,
        family == 4 ==> servers@[0]@ == "127.0.0.1"@,
        family != 4 ==> servers@[0]@ == "::1"@,
{
    let mut servers: Vec<String> = Vec::new();
    if family == 4 {
        servers.push(text("127.0.0.1"));
    } else {
        servers.push(text("::1"));
    }
    servers
}

/// The `resolvectl` arguments that set the DNS servers of a link.
pub fn resolvectl_dns_args(alias: &str, servers: &Vec<String>) -> (args: Vec<String>)
    ensures
        args@.len() == servers@.len() + 2,
        args@[0]@ == "dns"@,
        args@[1]@ == alias@,
        forall|i: int| 0 <= i < servers@.len() ==> (#[trigger] args@[i + 2])@ == servers@[i]@,
{
    let mut args: Vec<String> = Vec::new();
    args.push(text("dns"));
    args.push(text(alias));
    let mut i: usize = 0;
    while i < servers.len()
        invariant
            i <= servers.len(),
            args@.len() == i + 2,
            args@[0]@ == "dns"@,
            args@[1]@ == alias@,
            forall|j: int| 0 <= j < i ==> (#[trigger] args@[j + 2])@ == servers@[j]@,
        decreases servers.len() - i,
    {
        args.push(servers[i].clone());
        i += 1;
    }
    args
}

/// The `networksetup` arguments that set the DNS servers of a service
/// (`empty` clears them).
pub fn networksetup_dns_args(service: &str, servers: &Vec<String>) -> (args: Vec<String>)
    ensures
        args@[0]@ == "-setdnsservers"@,
        args@[1]@ == service@,
        servers@.len() == 0 ==> args@.len() == 3 && args@[2]@ == "empty"@,
        servers@.len() != 0 ==> args@.len() == servers@.len() + 2 && forall|i: int|
            0 <= i < servers@.len() ==> (#[trigger] args@[i + 2])@ == servers@[i]@,
{
    let mut args: Vec<String> = Vec::new();
    args.push(text("-setdnsservers"));
    args.push(text(service));
    if servers.len() == 0 {
        args.push(text("empty"));
        return args;
    }
    let mut i: usize = 0;
    while i < servers.len()
        invariant
            i <= servers.len(),
            args@.len() == i + 2,
            args@[0]@ == "-setdnsservers"@,
            args@[1]@ == service@,
            forall|j: int| 0 <= j < i ==> (#[trigger] args@[j + 2])@ == servers@[j]@,
        decreases servers.len() - i,
    {
        args.push(servers[i].clone());
        i += 1;
    }
    args
}

} // verus!

verus! {

pub open spec fn state_view(a: AdapterDnsState) -> (Seq<char>, u16, Seq<Seq<char>>) {
    (a.alias@, a.family, a.servers@.map_values(|s: String| s@))
}

pub open spec fn option_view(c: Option<AdapterDnsState>) -> Option<(Seq<char>, u16, Seq<Seq<char>>)> {
    match c {
        Some(a) => Some(state_view(a)),
        None => None,
    }
}

/// The words of `ws` that parse as IP addresses.
pub open spec fn ip_words(ws: Seq<Seq<char>>) -> Seq<Seq<char>>
    decreases ws.len(),
{
    if ws.len() == 0 {
        Seq::empty()
    } else if crate::packet_filter::parses_as_ip(ws.last()) {
        ip_words(ws.drop_last()).push(ws.last())
    } else {
        ip_words(ws.drop_last())
    }
}

pub open spec fn colon_pred() -> spec_fn(char) -> bool {
    |c: char| c == ':'
}

/// The interface name of a `Link N (name):` line: the text after the first
/// `(` without the trailing colons and the closing parenthesis (the whole
/// text after `(` when it does not end so); empty without `(`.
pub open spec fn link_alias(t: Seq<char>) -> Seq<char> {
    let k = crate::text::len_before(t, '(') as int;
    if k >= t.len() {
        Seq::empty()
    } else {
        let value = t.subrange(k + 1, t.len() as int);
        let tc = crate::text::trim_end_while(value, colon_pred());
        if tc.len() > 0 && tc.last() == ')' {
            tc.drop_last()
        } else {
            value
        }
    }
}

/// The addresses listed on a `DNS Servers:` line; none on other lines.
pub open spec fn dns_line_servers(t: Seq<char>) -> Seq<Seq<char>> {
    if crate::text::starts_with(t, "DNS Servers:"@) {
        ip_words(crate::text::words(t.subrange(12, t.len() as int)))
    } else {
        Seq::empty()
    }
}

pub type StateV = (Seq<char>, u16, Seq<Seq<char>>);

/// One line of `resolvectl dns` output: a `Link` line closes the current
/// interface and opens the next; other lines add servers to the current one.
pub open spec fn parse_step(st: (Seq<StateV>, Option<StateV>), line: Seq<char>) -> (
    Seq<StateV>,
    Option<StateV>,
) {
    let t = crate::text::trim_ws(line);
    if crate::text::starts_with(t, "Link "@) {
        let states = match st.1 {
            Some(c) => st.0.push(c),
            None => st.0,
        };
        let alias = link_alias(t);
        (states, if alias.len() > 0 { Some((alias, 0u16, Seq::empty())) } else { None })
    } else {
        match st.1 {
            Some(c) => (st.0, Some((c.0, c.1, c.2 + dns_line_servers(t)))),
            None => st,
        }
    }
}

pub open spec fn parse_lines(lines: Seq<Seq<char>>) -> (Seq<StateV>, Option<StateV>)
    decreases lines.len(),
{
    if lines.len() == 0 {
        (Seq::empty(), None)
    } else {
        parse_step(parse_lines(lines.drop_last()), lines.last())
    }
}

pub open spec fn no_links_message() -> Seq<char> {
    "No resolvectl-managed network interfaces were found."@
}

/// The interfaces and DNS servers in `resolvectl dns` output.
pub open spec fn spec_parse_resolvectl(output: Seq<char>) -> Result<Seq<StateV>, Seq<char>> {
    let st = parse_lines(crate::text::line_pieces(output));
    let states = match st.1 {
        Some(c) => st.0.push(c),
        None => st.0,
    };
    if states.len() == 0 {
        Err(no_links_message())
    } else {
        Ok(states)
    }
}

fn ip_tokens(v: &Vec<char>, lo: usize, hi: usize) -> (res: Vec<String>)
    requires
        lo <= hi <= v.len(),
    ensures
        res@.map_values(|s: String| s@) == ip_words(crate::text::words(v@.subrange(lo as int, hi as int))),
{
    let ws = crate::text::words_of(v, lo, hi);
    let ghost wv = ws@.map_values(|w: Vec<char>| w@);
    let mut out: Vec<String> = Vec::new();
    let mut i: usize = 0;
    while i < ws.len()
        invariant
            i <= ws.len(),
            wv == ws@.map_values(|w: Vec<char>| w@),
            out@.map_values(|s: String| s@) == ip_words(wv.take(i as int)),
        decreases ws.len() - i,
    {
        assert(wv.take(i + 1).drop_last() =~= wv.take(i as int));
        assert(wv.take(i + 1).last() == ws@[i as int]@);
        let token = crate::text::string_from_chars(&ws[i]);
        if crate::packet_filter::is_ip_address(token.as_str()) {
            let ghost before = out@.map_values(|s: String| s@);
            out.push(token);
            assert(out@.map_values(|s: String| s@) =~= before.push(ws@[i as int]@));
        }
        i += 1;
    }
    assert(wv.take(ws.len() as int) =~= wv);
    out
}

fn link_alias_exec(t: &Vec<char>) -> (alias: Vec<char>)
    ensures
        alias@ == link_alias(t@),
{
    let n = t.len();
    assert(t@.subrange(0, n as int) =~= t@);
    let k = crate::text::index_before(t, 0, n, '(');
    proof {
        crate::text::lemma_len_before(t@, '(');
    }
    assert(t@.subrange(0, k as int).len() == crate::text::len_before(t@, '('));
    if k >= n {
        return Vec::new();
    }
    let end = crate::text::skip_end(t, k + 1, n, crate::text::CharClass::Colon);
    if end > k + 1 && t[end - 1] == ')' {
        let r = crate::text::sub_chars(t, k + 1, end - 1);
        assert(t@.subrange(k + 1, end as int).drop_last() =~= r@);
        r
    } else {
        crate::text::sub_chars(t, k + 1, n)
    }
}

/// The interfaces and their DNS servers in `resolvectl dns` output;
/// refused when it names none.
pub fn parse_resolvectl_dns(output: &str) -> (res: Result<Vec<AdapterDnsState>, String>)
    ensures
        match spec_parse_resolvectl(output@) {
            Ok(states) => res matches Ok(v) && v@.map_values(|a: AdapterDnsState| state_view(a))
                == states,
            Err(e) => res matches Err(r) && r@ == e,
        },
{
    let lines = crate::text::split_lines(output);
    let ghost lv = lines@.map_values(|w: Vec<char>| w@);
    let link = crate::text::chars_of("Link ");
    let dns = crate::text::chars_of("DNS Servers:");
    proof {
        reveal_strlit("DNS Servers:");
    }
    let mut states: Vec<AdapterDnsState> = Vec::new();
    let mut current: Option<AdapterDnsState> = None;
    let mut i: usize = 0;
    while i < lines.len()
        invariant
            i <= lines.len(),
            lv == lines@.map_values(|w: Vec<char>| w@),
            lv == crate::text::line_pieces(output@),
            link@ == "Link "@,
            dns@ == "DNS Servers:"@,
            dns@.len() == 12,
            (states@.map_values(|a: AdapterDnsState| state_view(a)), option_view(current))
                == parse_lines(lv.take(i as int)),
        decreases lines.len() - i,
    {
        let line = &lines[i];
        assert(lv.take(i + 1).drop_last() =~= lv.take(i as int));
        assert(lv.take(i + 1).last() == line@);
        let n = line.len();
        assert(line@.subrange(0, n as int) =~= line@);
        let lo = crate::text::skip_start(line, 0, n, crate::text::CharClass::Whitespace);
        let hi = crate::text::skip_end(line, lo, n, crate::text::CharClass::Whitespace);
        let t = crate::text::sub_chars(line, lo, hi);
        assert(t@ == crate::text::trim_ws(line@));
        let ghost sv = states@.map_values(|a: AdapterDnsState| state_view(a));
        let is_link = crate::text::occurs_at_exec(&t, &link, 0);
        assert(is_link == crate::text::starts_with(t@, "Link "@)) by {
            assert(crate::text::occurs_at(t@, link@, 0) == crate::text::starts_with(t@, link@));
        }
        if is_link {
            let taken = current.take();
            match taken {
                Some(c) => {
                    states.push(c);
                    assert(states@.map_values(|a: AdapterDnsState| state_view(a)) =~= sv.push(
                        state_view(c),
                    ));
                },
                None => {},
            }
            let alias = link_alias_exec(&t);
            if alias.len() > 0 {
                let st = AdapterDnsState {
                    alias: crate::text::string_from_chars(&alias),
                    family: 0,
                    servers: Vec::new(),
                };
                assert(st.servers@.map_values(|s: String| s@) =~= Seq::<Seq<char>>::empty());
                current = Some(st);
            }
        } else {
            match current.take() {
                Some(mut c) => {
                    let ghost cv = state_view(c);
                    if crate::text::occurs_at_exec(&t, &dns, 0) {
                        assert(crate::text::starts_with(t@, "DNS Servers:"@));
                        let found = ip_tokens(&t, 12, t.len());
                        let mut j: usize = 0;
                        while j < found.len()
                            invariant
                                j <= found.len(),
                                c.alias@ == cv.0,
                                c.family == cv.1,
                                c.servers@.map_values(|s: String| s@) == cv.2 + found@.map_values(
                                    |s: String| s@,
                                ).take(j as int),
                            decreases found.len() - j,
                        {
                            let ghost before = c.servers@.map_values(|s: String| s@);
                            c.servers.push(found[j].clone());
                            assert(c.servers@.map_values(|s: String| s@) =~= before.push(found@[j as int]@));
                            assert(found@.map_values(|s: String| s@).take(j + 1) =~= found@.map_values(
                                |s: String| s@,
                            ).take(j as int).push(found@[j as int]@));
                            j += 1;
                        }
                        assert(found@.map_values(|s: String| s@).take(found.len() as int)
                            =~= found@.map_values(|s: String| s@));
                    } else {
                        assert(!crate::text::starts_with(t@, "DNS Servers:"@));
                        assert(cv.2 + dns_line_servers(t@) =~= cv.2);
                    }
                    current = Some(c);
                },
                None => {},
            }
        }
        i += 1;
    }
    assert(lv.take(lines.len() as int) =~= lv);
    let ghost sv = states@.map_values(|a: AdapterDnsState| state_view(a));
    match current {
        Some(c) => {
            states.push(c);
            assert(states@.map_values(|a: AdapterDnsState| state_view(a)) =~= sv.push(state_view(c)));
        },
        None => {},
    }
    if states.len() == 0 {
        return Err(text("No resolvectl-managed network interfaces were found."));
    }
    Ok(states)
}

} // verus!

verus! {

pub open spec fn star_pred() -> spec_fn(char) -> bool {
    crate::text::class_pred(crate::text::CharClass::Star)
}

/// A line of `networksetup -listallnetworkservices` as a service name:
/// trimmed, without the leading `*` of disabled services, trimmed again.
pub open spec fn service_name(line: Seq<char>) -> Seq<char> {
    crate::text::trim_ws(crate::text::trim_start_while(crate::text::trim_ws(line), star_pred()))
}

/// The non-empty service names of `lines`, in order.
pub open spec fn service_names(lines: Seq<Seq<char>>) -> Seq<Seq<char>>
    decreases lines.len(),
{
    if lines.len() == 0 {
        Seq::empty()
    } else if service_name(lines.last()).len() > 0 {
        service_names(lines.drop_last()).push(service_name(lines.last()))
    } else {
        service_names(lines.drop_last())
    }
}

/// The network services listed by `networksetup -listallnetworkservices`
/// (whose first line is a heading).
pub fn network_services(listing: &str) -> (services: Vec<String>)
    ensures
        services@.map_values(|s: String| s@) == service_names(
            crate::text::line_pieces(listing@).drop_first(),
        ),
{
    let lines = crate::text::split_lines(listing);
    let ghost lv = lines@.map_values(|w: Vec<char>| w@);
    proof {
        crate::text::lemma_pieces_nonempty(listing@, Seq::empty(), Seq::empty());
    }
    assert(lines.len() >= 1);
    let ghost rest = lv.drop_first();
    let mut services: Vec<String> = Vec::new();
    let mut i: usize = 1;
    assert(rest.take(0) =~= Seq::<Seq<char>>::empty());
    while i < lines.len()
        invariant
            1 <= i <= lines.len(),
            lv == lines@.map_values(|w: Vec<char>| w@),
            rest == lv.drop_first(),
            services@.map_values(|s: String| s@) == service_names(rest.take(i - 1)),
        decreases lines.len() - i,
    {
        let line = &lines[i];
        assert(rest.take(i as int).drop_last() =~= rest.take(i - 1));
        assert(rest.take(i as int).last() == line@);
        let n = line.len();
        assert(line@.subrange(0, n as int) =~= line@);
        let a = crate::text::skip_start(line, 0, n, crate::text::CharClass::Whitespace);
        let b = crate::text::skip_end(line, a, n, crate::text::CharClass::Whitespace);
        let c = crate::text::skip_start(line, a, b, crate::text::CharClass::Star);
        let d = crate::text::skip_start(line, c, b, crate::text::CharClass::Whitespace);
        let e = crate::text::skip_end(line, d, b, crate::text::CharClass::Whitespace);
        assert(line@.subrange(d as int, e as int) == service_name(line@));
        if e > d {
            let ghost before = services@.map_values(|s: String| s@);
            services.push(crate::text::string_from_range(line, d, e));
            assert(services@.map_values(|s: String| s@) =~= before.push(service_name(line@)));
        }
        i += 1;
    }
    if lines.len() >= 1 {
        assert(rest.take(lines.len() - 1) =~= rest);
    }
    services
}

/// Whether `networksetup -getinfo` shows an assigned IP address.
pub fn service_is_active(info: &str) -> (active: bool)
    ensures
        active == (!crate::text::contains_seq(info@, "IP address: none"@)
            && crate::text::contains_seq(info@, "IP address:"@)),
{
    let v = crate::text::chars_of(info);
    let none = crate::text::chars_of("IP address: none");
    let some = crate::text::chars_of("IP address:");
    !crate::text::contains_exec(&v, &none) && crate::text::contains_exec(&v, &some)
}

/// The lines that are IP addresses, in order, each in the standard form of
/// its address.
pub open spec fn address_lines(lines: Seq<Seq<char>>) -> Seq<Seq<char>>
    decreases lines.len(),
{
    if lines.len() == 0 {
        Seq::empty()
    } else {
        match crate::packet_filter::ip_text(crate::text::trim_ws(lines.last())) {
            Some(address) => address_lines(lines.drop_last()).push(address),
            None => address_lines(lines.drop_last()),
        }
    }
}

/// The addresses among the trimmed lines of `networksetup -getdnsservers`
/// output, in their standard form.
pub fn dns_server_lines(output: &str) -> (servers: Vec<String>)
    ensures
        servers@.map_values(|s: String| s@) == address_lines(crate::text::line_pieces(output@)),
{
    let lines = crate::text::split_lines(output);
    let ghost lv = lines@.map_values(|w: Vec<char>| w@);
    let mut servers: Vec<String> = Vec::new();
    let mut i: usize = 0;
    while i < lines.len()
        invariant
            i <= lines.len(),
            lv == lines@.map_values(|w: Vec<char>| w@),
            servers@.map_values(|s: String| s@) == address_lines(lv.take(i as int)),
        decreases lines.len() - i,
    {
        let line = &lines[i];
        assert(lv.take(i + 1).drop_last() =~= lv.take(i as int));
        assert(lv.take(i + 1).last() == line@);
        let n = line.len();
        assert(line@.subrange(0, n as int) =~= line@);
        let a = crate::text::skip_start(line, 0, n, crate::text::CharClass::Whitespace);
        let b = crate::text::skip_end(line, a, n, crate::text::CharClass::Whitespace);
        let token = crate::text::string_from_range(line, a, b);
        match crate::packet_filter::canonical_ip(token.as_str()) {
            Some(address) => {
                let ghost before = servers@.map_values(|s: String| s@);
                servers.push(address);
                assert(servers@.map_values(|s: String| s@) =~= before.push(address@));
            },
            None => {},
        }
        i += 1;
    }
    assert(lv.take(lines.len() as int) =~= lv);
    servers
}

/// The message for a platform without network services to configure.
pub fn no_services_error(states: &Vec<AdapterDnsState>) -> (res: Result<(), String>)
    ensures
        states@.len() == 0 ==> (res matches Err(e) && e@ == "No active macOS network services were found."@),
        states@.len() != 0 ==> res is Ok,
{
    if states.len() == 0 {
        Err(text("No active macOS network services were found."))
    } else {
        Ok(())
    }
}

/// The `servers` entry of an adapter in the Windows settings report.
pub enum ServersField {
    /// A list; an entry that is not a string is `None`.
    List(Vec<Option<String>>),
    /// A single string.
    Text(String),
    /// Absent, or anything else.
    Other,
}

pub open spec fn listed_servers(items: Seq<Option<String>>) -> Seq<Seq<char>>
    decreases items.len(),
{
    if items.len() == 0 {
        Seq::empty()
    } else {
        match items.last() {
            Some(s) => listed_servers(items.drop_last()).push(s@),
            None => listed_servers(items.drop_last()),
        }
    }
}

pub open spec fn spec_servers(field: ServersField) -> Seq<Seq<char>> {
    match field {
        ServersField::List(items) => listed_servers(items@),
        ServersField::Text(s) => if s@.len() > 0 {
            seq![s@]
        } else {
            Seq::empty()
        },
        ServersField::Other => Seq::empty(),
    }
}

/// One adapter of the Windows settings report as a saved state: the alias
/// and address family are required; the family is kept modulo 2^16.
pub fn adapter_dns_state(alias: Option<String>, family: Option<u64>, servers: ServersField) -> (res:
    Result<AdapterDnsState, String>)
    ensures
        alias is None ==> (res matches Err(e) && e@
            == "Windows DNS settings did not include an adapter alias."@),
        alias is Some && family is None ==> (res matches Err(e) && e@
            == "Windows DNS settings did not include an address family."@),
        alias is Some && family is Some ==> (res matches Ok(st) && st.alias@ == alias.unwrap()@
            && st.family as int == family.unwrap() as int % 65536 && st.servers@.map_values(
            |s: String| s@,
        ) == spec_servers(servers)),
{
    let alias = match alias {
        Some(a) => a,
        None => {
            return Err(text("Windows DNS settings did not include an adapter alias."));
        },
    };
    let family = match family {
        Some(f) => f,
        None => {
            return Err(text("Windows DNS settings did not include an address family."));
        },
    };
    let ghost field = servers;
    let list: Vec<String> = match servers {
        ServersField::List(items) => {
            let mut out: Vec<String> = Vec::new();
            let mut i: usize = 0;
            while i < items.len()
                invariant
                    i <= items.len(),
                    out@.map_values(|s: String| s@) == listed_servers(items@.take(i as int)),
                decreases items.len() - i,
            {
                assert(items@.take(i + 1).drop_last() =~= items@.take(i as int));
                match &items[i] {
                    Some(s) => {
                        let ghost before = out@.map_values(|s: String| s@);
                        out.push(s.clone());
                        assert(out@.map_values(|s: String| s@) =~= before.push(s@));
                    },
                    None => {},
                }
                i += 1;
            }
            assert(items@.take(items.len() as int) =~= items@);
            out
        },
        ServersField::Text(s) => {
            let mut out: Vec<String> = Vec::new();
            if s.as_str().is_empty() == false {
                out.push(s);
                assert(out@.map_values(|s: String| s@) =~= seq![s@]);
            } else {
                assert(out@.map_values(|s: String| s@) =~= Seq::<Seq<char>>::empty());
            }
            out
        },
        ServersField::Other => {
            let out: Vec<String> = Vec::new();
            assert(out@.map_values(|s: String| s@) =~= Seq::<Seq<char>>::empty());
            out
        },
    };
    let family16 = (family & 0xffff) as u16;
    assert((family & 0xffff) == family % 65536) by (bit_vector);
    Ok(AdapterDnsState { alias, family: family16, servers: list })
}

/// Refuses an empty adapter report.
pub fn check_adapter_report(output: &str) -> (res: Result<(), String>)
    ensures
        crate::text::trim_ws(output@).len() == 0 ==> (res matches Err(e) && e@
            == "No active Windows network adapters were found."@),
        crate::text::trim_ws(output@).len() != 0 ==> res is Ok,
{
    let v = crate::text::chars_of(output);
    let n = v.len();
    assert(v@.subrange(0, n as int) =~= v@);
    let a = crate::text::skip_start(&v, 0, n, crate::text::CharClass::Whitespace);
    let b = crate::text::skip_end(&v, a, n, crate::text::CharClass::Whitespace);
    if a == b {
        Err(text("No active Windows network adapters were found."))
    } else {
        Ok(())
    }
}

} // verus!

verus! {

/// The `servers` entry of a report record, as a mathematical value.
pub enum ServersView {
    List(Seq<Option<Seq<char>>>),
    Text(Seq<char>),
    Other,
}

pub open spec fn option_text(o: Option<String>) -> Option<Seq<char>> {
    match o {
        Some(s) => Some(s@),
        None => None,
    }
}

impl View for ServersField {
    type V = ServersView;

    open spec fn view(&self) -> ServersView {
        match self {
            ServersField::List(items) => ServersView::List(items@.map_values(|o: Option<String>| option_text(o))),
            ServersField::Text(s) => ServersView::Text(s@),
            ServersField::Other => ServersView::Other,
        }
    }
}

/// One adapter record of the Windows settings report: its `alias` when that
/// is a string, its `family` when that is a non-negative integer, and its
/// `servers` entry.
pub struct ReportedAdapter {
    pub alias: Option<String>,
    pub family: Option<u64>,
    pub servers: ServersField,
}

impl View for ReportedAdapter {
    type V = (Option<Seq<char>>, Option<u64>, ServersView);

    open spec fn view(&self) -> (Option<Seq<char>>, Option<u64>, ServersView) {
        (option_text(self.alias), self.family, self.servers@)
    }
}

/// The report as a JSON document holds it: an array of records, or one
/// record alone.
pub enum AdapterReport {
    Many(Vec<ReportedAdapter>),
    One(ReportedAdapter),
}

pub enum AdapterReportView {
    Many(Seq<(Option<Seq<char>>, Option<u64>, ServersView)>),
    One((Option<Seq<char>>, Option<u64>, ServersView)),
}

impl View for AdapterReport {
    type V = AdapterReportView;

    open spec fn view(&self) -> AdapterReportView {
        match self {
            AdapterReport::Many(items) => AdapterReportView::Many(items@.map_values(|r: ReportedAdapter| r@)),
            AdapterReport::One(r) => AdapterReportView::One(r@),
        }
    }
}

/// What `serde_json::from_str` makes of the report text, read through
/// `Value`'s accessors: the records, or the text of the parse error.
pub uninterp spec fn parsed_adapter_report(json: Seq<char>) -> Result<AdapterReportView, Seq<char>>;

/// `serde_json::from_str::<Value>`, with each record read through `Value`'s
/// accessors (`["alias"].as_str()`, `["family"].as_u64()`, and `["servers"]`
/// as an array of `as_str()` entries, a string, or anything else). Claimed:
/// the records, or the error text, are `parsed_adapter_report` of the text.
#[verifier::external_body]
fn read_adapter_report(json: &str) -> (res: Result<AdapterReport, String>)
    ensures
        res matches Ok(r) ==> (parsed_adapter_report(json@) matches Ok(v) && v == r@),
        res matches Err(e) ==> (parsed_adapter_report(json@) matches Err(t) && t == e@),
{
    let record = |v: &Value| ReportedAdapter {
        alias: v["alias"].as_str().map(String::from),
        family: v["family"].as_u64(),
        servers: match &v["servers"] {
            Value::Array(items) => ServersField::List(items.iter().map(|s| s.as_str().map(String::from)).collect()),
            Value::String(text) => ServersField::Text(text.clone()),
            _ => ServersField::Other,
        },
    };
    match serde_json::from_str::<Value>(json) {
        Ok(Value::Array(items)) => Ok(AdapterReport::Many(items.iter().map(record).collect())),
        Ok(value) => Ok(AdapterReport::One(record(&value))),
        Err(error) => Err(error.to_string()),
    }
}

pub open spec fn record_views(rs: Seq<ReportedAdapter>) -> Seq<(Option<Seq<char>>, Option<u64>, ServersView)> {
    rs.map_values(|a: ReportedAdapter| a@)
}

pub open spec fn report_records(r: AdapterReportView) -> Seq<(Option<Seq<char>>, Option<u64>, ServersView)> {
    match r {
        AdapterReportView::Many(items) => items,
        AdapterReportView::One(item) => seq![item],
    }
}

/// Reads the records of the Windows settings report: every element of a
/// JSON array, or the one record the document holds.
pub fn parse_adapter_report(json: &str) -> (res: Result<Vec<ReportedAdapter>, String>)
    ensures
        parsed_adapter_report(json@) matches Ok(r) ==> (res matches Ok(v) && record_views(v@)
            == report_records(r)),
        parsed_adapter_report(json@) matches Err(t) ==> (res matches Err(e) && e@
            == "Unable to read Windows DNS settings: "@ + t),
{
    match read_adapter_report(json) {
        Ok(AdapterReport::Many(items)) => Ok(items),
        Ok(AdapterReport::One(item)) => {
            let mut items: Vec<ReportedAdapter> = Vec::new();
            items.push(item);
            assert(record_views(items@) =~= seq![items@[0]@]);
            Ok(items)
        },
        Err(error) => {
            let mut msg = text("Unable to read Windows DNS settings: ");
            push_text(&mut msg, error.as_str());
            Err(msg)
        },
    }
}

pub open spec fn listed_server_views(items: Seq<Option<Seq<char>>>) -> Seq<Seq<char>>
    decreases items.len(),
{
    if items.len() == 0 {
        Seq::empty()
    } else {
        match items.last() {
            Some(s) => listed_server_views(items.drop_last()).push(s),
            None => listed_server_views(items.drop_last()),
        }
    }
}

/// The servers an entry lists: the string entries of a list, a non-empty
/// string, or none.
pub open spec fn server_views(s: ServersView) -> Seq<Seq<char>> {
    match s {
        ServersView::List(items) => listed_server_views(items),
        ServersView::Text(t) => if t.len() > 0 {
            seq![t]
        } else {
            Seq::empty()
        },
        ServersView::Other => Seq::empty(),
    }
}

proof fn lemma_listed_servers_view(items: Seq<Option<String>>)
    ensures
        listed_servers(items) == listed_server_views(items.map_values(|o: Option<String>| option_text(o))),
    decreases items.len(),
{
    if items.len() > 0 {
        lemma_listed_servers_view(items.drop_last());
        assert(items.drop_last().map_values(|o: Option<String>| option_text(o)) =~= items.map_values(
            |o: Option<String>| option_text(o),
        ).drop_last());
    }
}

/// The saved state a record gives: an alias and a family are required, and
/// the family is kept modulo 2^16.
pub open spec fn record_state(r: (Option<Seq<char>>, Option<u64>, ServersView)) -> Result<
    (Seq<char>, u16, Seq<Seq<char>>),
    Seq<char>,
> {
    match r.0 {
        None => Err("Windows DNS settings did not include an adapter alias."@),
        Some(alias) => match r.1 {
            None => Err("Windows DNS settings did not include an address family."@),
            Some(family) => Ok((alias, (family % 65536) as u16, server_views(r.2))),
        },
    }
}

/// The saved states of all records, or the error of the first one that has none.
pub open spec fn record_states(rs: Seq<(Option<Seq<char>>, Option<u64>, ServersView)>) -> Result<
    Seq<(Seq<char>, u16, Seq<Seq<char>>)>,
    Seq<char>,
>
    decreases rs.len(),
{
    if rs.len() == 0 {
        Ok(Seq::empty())
    } else {
        match record_states(rs.drop_last()) {
            Err(e) => Err(e),
            Ok(prev) => match record_state(rs.last()) {
                Err(e) => Err(e),
                Ok(st) => Ok(prev.push(st)),
            },
        }
    }
}

/// An error among the first records is the error of them all.
proof fn lemma_record_states_prefix_error(rs: Seq<(Option<Seq<char>>, Option<u64>, ServersView)>, k: int)
    requires
        0 <= k <= rs.len(),
        record_states(rs.take(k)) is Err,
    ensures
        record_states(rs) == record_states(rs.take(k)),
    decreases rs.len() - k,
{
    if k < rs.len() {
        assert(rs.take(k + 1).drop_last() =~= rs.take(k));
        lemma_record_states_prefix_error(rs, k + 1);
    } else {
        assert(rs.take(k) =~= rs);
    }
}

/// The saved states of the report records, in order; the first record
/// without an alias or family refuses the whole report.
pub fn adapter_states(records: Vec<ReportedAdapter>) -> (res: Result<Vec<AdapterDnsState>, String>)
    ensures
        record_states(record_views(records@)) matches Ok(sts) ==> (res matches Ok(v)
            && v@.map_values(|st: AdapterDnsState| state_view(st)) == sts),
        record_states(record_views(records@)) matches Err(e) ==> (res matches Err(
            m,
        ) && m@ == e),
{
    let ghost all = records@;
    let ghost rs = record_views(records@);
    let n = records.len();
    let mut remaining = records;
    let mut states: Vec<AdapterDnsState> = Vec::new();
    let mut failure: Option<String> = None;
    let mut i: usize = 0;
    assert(rs.take(0) =~= Seq::<(Option<Seq<char>>, Option<u64>, ServersView)>::empty());
    assert(states@.map_values(|st: AdapterDnsState| state_view(st)) =~= Seq::<(Seq<char>, u16, Seq<Seq<char>>)>::empty());
    while i < n && failure.is_none()
        invariant
            i <= n,
            n == all.len(),
            rs == record_views(all),
            remaining@ == all.subrange(i as int, n as int),
            failure is None ==> (record_states(rs.take(i as int)) matches Ok(sts) && states@.map_values(
                |st: AdapterDnsState| state_view(st),
            ) == sts),
            failure matches Some(e) ==> record_states(rs) == Err::<Seq<(Seq<char>, u16, Seq<Seq<char>>)>, Seq<char>>(e@),
        decreases n - i,
    {
        let r = remaining.remove(0);
        assert(r == all[i as int]);
        assert(rs.take(i + 1).drop_last() =~= rs.take(i as int));
        assert(rs.take(i + 1).last() == r@);
        assert(remaining@ =~= all.subrange(i + 1, n as int));
        let ReportedAdapter { alias, family, servers } = r;
        let ghost field = servers;
        proof {
            match field {
                ServersField::List(items) => lemma_listed_servers_view(items@),
                _ => {},
            }
        }
        match adapter_dns_state(alias, family, servers) {
            Ok(st) => {
                let ghost before = states@.map_values(|st: AdapterDnsState| state_view(st));
                states.push(st);
                assert(states@.map_values(|st: AdapterDnsState| state_view(st)) =~= before.push(state_view(st)));
            },
            Err(e) => {
                proof {
                    assert(record_states(rs.take(i + 1)) is Err);
                    lemma_record_states_prefix_error(rs, i + 1);
                }
                failure = Some(e);
            },
        }
        i += 1;
    }
    match failure {
        Some(e) => Err(e),
        None => {
            assert(rs.take(n as int) =~= rs);
            Ok(states)
        },
    }
}

} // verus!

verus! {

/// The family of resolver tools a platform offers.
pub enum DnsPlatform {
    Windows,
    Linux,
    Mac,
}

/// A command that puts one saved adapter state back.
pub enum RestoreCommand {
    /// A PowerShell script.
    PowerShell(String),
    /// A program and its arguments.
    Tool(String, Vec<String>),
}

pub open spec fn strings_view(v: Seq<String>) -> Seq<Seq<char>> {
    v.map_values(|s: String| s@)
}

pub open spec fn spec_reset_servers_script(alias: Seq<char>, family: u16) -> Seq<char> {
    "Reset-DnsClientServerAddress -InterfaceAlias "@ + seq!['\''] + escape_quotes(alias) + seq!['\'']
        + " -AddressFamily "@ + spec_family_name(family)
}

pub open spec fn spec_set_servers_script(alias: Seq<char>, family: u16, servers: Seq<String>) -> Seq<char> {
    "Set-DnsClientServerAddress -InterfaceAlias "@ + seq!['\''] + escape_quotes(alias) + seq!['\'']
        + " -AddressFamily "@ + spec_family_name(family) + " -ServerAddresses @("@ + comma_joined(
        quoted_all(servers),
    ) + ")"@
}

/// What restoring a saved state runs: on Windows a script that resets the
/// adapter (no saved servers) or sets its servers; on Linux `resolvectl
/// revert` or `resolvectl dns`; on macOS `networksetup -setdnsservers`.
pub open spec fn spec_restore_command(platform: DnsPlatform, state: AdapterDnsState) -> (
    Seq<char>,
    Seq<Seq<char>>,
) {
    let servers = strings_view(state.servers@);
    match platform {
        DnsPlatform::Windows => if servers.len() == 0 {
            ("powershell"@, seq![spec_reset_servers_script(state.alias@, state.family)])
        } else {
            ("powershell"@, seq![spec_set_servers_script(state.alias@, state.family, state.servers@)])
        },
        DnsPlatform::Linux => if servers.len() == 0 {
            ("resolvectl"@, seq!["revert"@, state.alias@])
        } else {
            ("resolvectl"@, seq!["dns"@, state.alias@] + servers)
        },
        DnsPlatform::Mac => if servers.len() == 0 {
            ("networksetup"@, seq!["-setdnsservers"@, state.alias@, "empty"@])
        } else {
            ("networksetup"@, seq!["-setdnsservers"@, state.alias@] + servers)
        },
    }
}

/// A restore command as a program (`powershell` for a script) and its
/// arguments (the script alone).
pub open spec fn command_view(c: RestoreCommand) -> (Seq<char>, Seq<Seq<char>>) {
    match c {
        RestoreCommand::PowerShell(script) => ("powershell"@, seq![script@]),
        RestoreCommand::Tool(program, args) => (program@, strings_view(args@)),
    }
}

/// The command that restores one saved adapter state.
pub fn restore_command(platform: DnsPlatform, state: &AdapterDnsState) -> (c: RestoreCommand)
    ensures
        command_view(c) == spec_restore_command(platform, *state),
{
    let empty = state.servers.len() == 0;
    match platform {
        DnsPlatform::Windows => {
            if empty {
                RestoreCommand::PowerShell(reset_servers_script(state.alias.as_str(), state.family))
            } else {
                RestoreCommand::PowerShell(
                    set_servers_script(state.alias.as_str(), state.family, &state.servers),
                )
            }
        },
        DnsPlatform::Linux => {
            if empty {
                let mut args: Vec<String> = Vec::new();
                args.push(text("revert"));
                args.push(state.alias.clone());
                assert(strings_view(args@) =~= seq!["revert"@, state.alias@]);
                RestoreCommand::Tool(text("resolvectl"), args)
            } else {
                let args = resolvectl_dns_args(state.alias.as_str(), &state.servers);
                assert(strings_view(args@) =~= seq!["dns"@, state.alias@] + strings_view(state.servers@)) by {
                    assert forall|i: int| 2 <= i < args@.len() implies strings_view(args@)[i] == (seq!["dns"@, state.alias@] + strings_view(state.servers@))[i] by {
                        assert(args@[(i - 2) + 2] == args@[i]);
                    }
                }
                RestoreCommand::Tool(text("resolvectl"), args)
            }
        },
        DnsPlatform::Mac => {
            let args = networksetup_dns_args(state.alias.as_str(), &state.servers);
            if empty {
                assert(strings_view(args@) =~= seq!["-setdnsservers"@, state.alias@, "empty"@]);
            } else {
                assert(strings_view(args@) =~= seq!["-setdnsservers"@, state.alias@] + strings_view(state.servers@)) by {
                    assert forall|i: int| 2 <= i < args@.len() implies strings_view(args@)[i] == (seq!["-setdnsservers"@, state.alias@] + strings_view(state.servers@))[i] by {
                        assert(args@[(i - 2) + 2] == args@[i]);
                    }
                }
            }
            RestoreCommand::Tool(text("networksetup"), args)
        },
    }
}

pub open spec fn first_failure(rs: Seq<Result<(), String>>) -> Option<Seq<char>>
    decreases rs.len(),
{
    if rs.len() == 0 {
        None
    } else {
        match first_failure(rs.drop_last()) {
            Some(e) => Some(e),
            None => match rs.last() {
                Err(e) => Some(e@),
                Ok(_) => None,
            },
        }
    }
}

/// The outcome of restoring every saved state: the first failure, if any
/// (every state is still tried); without one the backup is then removed.
pub fn restore_outcome(results: &Vec<Result<(), String>>) -> (res: Result<(), String>)
    ensures
        first_failure(results@) matches Some(e) ==> (res matches Err(m) && m@ == e),
        first_failure(results@) is None ==> res is Ok,
{
    let mut i: usize = 0;
    while i < results.len()
        invariant
            i <= results.len(),
            first_failure(results@.take(i as int)) is None,
        decreases results.len() - i,
    {
        assert(results@.take(i + 1).drop_last() =~= results@.take(i as int));
        match &results[i] {
            Err(e) => {
                proof {
                    lemma_first_failure_prefix(results@, i + 1);
                }
                return Err(e.clone());
            },
            Ok(()) => {},
        }
        i += 1;
    }
    assert(results@.take(results.len() as int) =~= results@);
    Ok(())
}

proof fn lemma_first_failure_prefix(rs: Seq<Result<(), String>>, k: int)
    requires
        0 <= k <= rs.len(),
        first_failure(rs.take(k)) is Some,
    ensures
        first_failure(rs) == first_failure(rs.take(k)),
    decreases rs.len() - k,
{
    if k < rs.len() {
        assert(rs.take(k + 1).drop_last() =~= rs.take(k));
        lemma_first_failure_prefix(rs, k + 1);
    } else {
        assert(rs.take(k) =~= rs);
    }
}

} // verus!

verus! {

/// The PowerShell script that restores a Windows adapter names the address
/// family of the saved state.
proof fn lemma_script_names_family(lead: Seq<char>, family: u16, rest: Seq<char>)
    ensures
        crate::text::contains_seq(
            lead + " -AddressFamily "@ + spec_family_name(family) + rest,
            " -AddressFamily "@ + spec_family_name(family),
        ),
{
    let s = lead + " -AddressFamily "@ + spec_family_name(family) + rest;
    let w = " -AddressFamily "@ + spec_family_name(family);
    assert(s.subrange(lead.len() as int, (lead.len() + w.len()) as int) =~= w);
    assert(crate::text::occurs_at(s, w, lead.len() as int));
}

/// Restoring a saved adapter state puts back that state: on Windows the
/// script is the set-servers script for the state's own alias, address family
/// and servers (the reset script when none were saved), and it names the
/// state's family (`IPv4` for a family-4 adapter); with `resolvectl` and
/// `networksetup` the arguments name the saved link or service and end with
/// the saved servers, in order.
pub proof fn lemma_restore_puts_back_saved_state(platform: DnsPlatform, st: AdapterDnsState)
    ensures
        platform is Windows && st.servers@.len() > 0 ==> spec_restore_command(platform, st)
            == ("powershell"@, seq![spec_set_servers_script(st.alias@, st.family, st.servers@)]),
        platform is Windows && st.servers@.len() == 0 ==> spec_restore_command(platform, st)
            == ("powershell"@, seq![spec_reset_servers_script(st.alias@, st.family)]),
        platform is Windows ==> crate::text::contains_seq(
            spec_restore_command(platform, st).1[0],
            " -AddressFamily "@ + spec_family_name(st.family),
        ),
        st.family == 4 ==> spec_family_name(st.family) == "IPv4"@,
        st.family == 6 ==> spec_family_name(st.family) == "IPv6"@,
        !(platform is Windows) && st.servers@.len() > 0 ==> {
            let args = spec_restore_command(platform, st).1;
            &&& args.len() == st.servers@.len() + 2
            &&& args[1] == st.alias@
            &&& args.subrange(2, args.len() as int) == strings_view(st.servers@)
        },
{
    let lead = "Set-DnsClientServerAddress -InterfaceAlias "@ + seq!['\''] + escape_quotes(st.alias@)
        + seq!['\''];
    let rest = " -ServerAddresses @("@ + comma_joined(quoted_all(st.servers@)) + ")"@;
    let rlead = "Reset-DnsClientServerAddress -InterfaceAlias "@ + seq!['\''] + escape_quotes(
        st.alias@,
    ) + seq!['\''];
    lemma_script_names_family(lead, st.family, rest);
    lemma_script_names_family(rlead, st.family, Seq::empty());
    assert(spec_set_servers_script(st.alias@, st.family, st.servers@) =~= lead
        + " -AddressFamily "@ + spec_family_name(st.family) + rest);
    assert(spec_reset_servers_script(st.alias@, st.family) =~= rlead + " -AddressFamily "@
        + spec_family_name(st.family) + Seq::<char>::empty());
    let servers = strings_view(st.servers@);
    match platform {
        DnsPlatform::Linux => {
            let args = seq!["dns"@, st.alias@] + servers;
            assert(args.subrange(2, args.len() as int) =~= servers);
        },
        DnsPlatform::Mac => {
            let args = seq!["-setdnsservers"@, st.alias@] + servers;
            assert(args.subrange(2, args.len() as int) =~= servers);
        },
        _ => {},
    }
}

} // verus!

verus! {

/// In `resolvectl dns` output, a line that is not a `Link` line never drops
/// anything read before: the interfaces closed so far stay, the current
/// interface keeps its name, family and servers, and only the addresses of a
/// `DNS Servers:` line are added after its servers; any other line changes
/// nothing, and with no current interface nothing changes at all.
pub proof fn lemma_server_lines_only_add(st: (Seq<StateV>, Option<StateV>), line: Seq<char>)
    requires
        !crate::text::starts_with(crate::text::trim_ws(line), "Link "@),
    ensures
        parse_step(st, line).0 == st.0,
        st.1 is None ==> parse_step(st, line) == st,
        !crate::text::starts_with(crate::text::trim_ws(line), "DNS Servers:"@) ==> parse_step(st, line)
            == st,
        st.1 matches Some(c) ==> (parse_step(st, line).1 matches Some(d) && d.0 == c.0 && d.1 == c.1
            && d.2.len() >= c.2.len() && d.2.subrange(0, c.2.len() as int) == c.2),
        st.1 matches Some(c) ==> (parse_step(st, line).1 matches Some(d) && d.2 == c.2 + dns_line_servers(
            crate::text::trim_ws(line),
        )),
{
    let t = crate::text::trim_ws(line);
    match st.1 {
        Some(c) => {
            let d2 = c.2 + dns_line_servers(t);
            assert(d2.subrange(0, c.2.len() as int) =~= c.2);
            if !crate::text::starts_with(t, "DNS Servers:"@) {
                assert(c.2 + dns_line_servers(t) =~= c.2);
                assert((c.0, c.1, c.2) == c);
            }
        },
        None => {},
    }
}

} // verus!
