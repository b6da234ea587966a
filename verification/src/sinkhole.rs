//! The hosts-file sinkhole: domain normalization, the managed block of the
//! hosts file, and the backend description shown on the dashboard.

use vstd::prelude::*;

use crate::models::{BlockerState, BlocklistEntry, BLOCK_END, BLOCK_START};
use crate::text::{
    ascii_alnum, before_char, index_before, len_before, lemma_find_from_some, lemma_find_from_none,
    lemma_find_from_first, lemma_find_from_absent, contains_seq, contains_exec, occurs_at, chars_of, class_pred, find, find_exec, is_ascii_alnum, is_ws,
    lower_seq, lowered_range, push_text, skip_end, skip_prefixes, skip_start, str_eq,
    string_from_range, strip_all_prefix, sub_chars, text, trim_end_while, trim_start_while,
    trim_both, trim_ws, trim_end_ws, CharClass,
};

verus! {

/// The view of a `Result` of two strings.
pub open spec fn result_view(r: Result<String, String>) -> Result<Seq<char>, Seq<char>> {
    match r {
        Ok(s) => Ok(s@),
        Err(e) => Err(e@),
    }
}

pub open spec fn is_domain_char(c: char) -> bool {
    is_ascii_alnum(c) || c == '.' || c == '-'
}

pub open spec fn domain_edge_pred() -> spec_fn(char) -> bool {
    class_pred(CharClass::DomainEdge)
}

/// The input with surrounding whitespace, slashes and backslashes removed, lowered.
pub open spec fn cleaned_domain(value: Seq<char>) -> Seq<char> {
    lower_seq(trim_both(trim_ws(value), domain_edge_pred()))
}

/// The host part of a cleaned value: scheme and `www.` prefixes removed,
/// trailing slashes removed, the path cut off, whitespace trimmed.
pub open spec fn host_part(cleaned: Seq<char>) -> Seq<char> {
    let a = strip_all_prefix(
        strip_all_prefix(strip_all_prefix(cleaned, "https://"@), "http://"@),
        "www."@,
    );
    let b = trim_end_while(a, class_pred(CharClass::Slash));
    trim_ws(before_char(b, '/'))
}

/// The result of `normalize_domain` on the characters `value`.
pub open spec fn spec_normalize_domain(value: Seq<char>) -> Result<Seq<char>, Seq<char>> {
    let cleaned = cleaned_domain(value);
    if cleaned.len() == 0 {
        Err("Domain cannot be empty."@)
    } else {
        let n = host_part(cleaned);
        if n.len() == 0 || n[0] == '.' || n.last() == '.' {
            Err("Enter a valid hostname such as example.com."@)
        } else if exists|i: int| 0 <= i < n.len() && !is_domain_char(#[trigger] n[i]) {
            Err("Use only letters, numbers, dots, and dashes in the domain name."@)
        } else {
            Ok(n)
        }
    }
}

/// Turns user input (a host name, possibly with a scheme, `www.`, a path or
/// surrounding blanks) into the lower-case host name that the blocklist stores.
pub fn normalize_domain(value: String) -> (res: Result<String, String>)
    ensures
        result_view(res) == spec_normalize_domain(value@),
{
    let v = chars_of(value.as_str());
    let n0 = v.len();
    let lo = skip_start(&v, 0, n0, CharClass::Whitespace);
    let hi = skip_end(&v, lo, n0, CharClass::Whitespace);
    assert(v@.subrange(0, n0 as int) =~= v@);
    let lo2 = skip_start(&v, lo, hi, CharClass::DomainEdge);
    let hi2 = skip_end(&v, lo2, hi, CharClass::DomainEdge);
    let cleaned = lowered_range(&v, lo2, hi2);
    let n = cleaned.len();
    assert(cleaned@ == cleaned_domain(value@));
    if n == 0 {
        return Err(text("Domain cannot be empty."));
    }
    assert(cleaned@.subrange(0, n as int) =~= cleaned@);
    let https = chars_of("https://");
    let http = chars_of("http://");
    let www = chars_of("www.");
    let a1 = skip_prefixes(&cleaned, 0, n, &https);
    let a2 = skip_prefixes(&cleaned, a1, n, &http);
    let a3 = skip_prefixes(&cleaned, a2, n, &www);
    let b = skip_end(&cleaned, a3, n, CharClass::Slash);
    let c = index_before(&cleaned, a3, b, '/');
    let s = skip_start(&cleaned, a3, c, CharClass::Whitespace);
    let e = skip_end(&cleaned, s, c, CharClass::Whitespace);
    let ghost host = cleaned@.subrange(s as int, e as int);
    assert(host == host_part(cleaned@));
    if s == e || cleaned[s] == '.' || cleaned[e - 1] == '.' {
        return Err(text("Enter a valid hostname such as example.com."));
    }
    assert(host[0] == cleaned@[s as int]);
    assert(host.last() == cleaned@[e - 1]);
    let mut i = s;
    while i < e
        invariant
            s <= i <= e <= cleaned.len(),
            host == cleaned@.subrange(s as int, e as int),
            host == host_part(cleaned@),
            cleaned@ == cleaned_domain(value@),
            cleaned@.len() != 0,
            host.len() != 0,
            host[0] != '.',
            host.last() != '.',
            forall|j: int| 0 <= j < i - s ==> is_domain_char(#[trigger] host[j]),
        decreases e - i,
    {
        let ch = cleaned[i];
        if !(ascii_alnum(ch) || ch == '.' || ch == '-') {
            assert(host[i - s] == ch);
            assert(!is_domain_char(host[i - s]));
            return Err(text("Use only letters, numbers, dots, and dashes in the domain name."));
        }
        i += 1;
    }
    Ok(string_from_range(&cleaned, s, e))
}

} // verus!

verus! {

/// The lines that one blocklist entry contributes to the managed block.
pub open spec fn entry_lines(e: BlocklistEntry) -> Seq<char> {
    if e.enabled {
        e.redirect@ + " "@ + e.domain@ + "\n"@ + e.redirect@ + " www."@ + e.domain@ + "\n"@
    } else {
        Seq::empty()
    }
}

/// The lines of all enabled entries, in order.
pub open spec fn block_body(es: Seq<BlocklistEntry>) -> Seq<char>
    decreases es.len(),
{
    if es.len() == 0 {
        Seq::empty()
    } else {
        block_body(es.drop_last()) + entry_lines(es.last())
    }
}

/// The managed hosts-file block for a blocklist.
pub open spec fn spec_managed_block(es: Seq<BlocklistEntry>) -> Seq<char> {
    BLOCK_START@ + "\n"@ + block_body(es) + BLOCK_END@
}

/// The hosts-file block that maps every enabled entry, and its `www.` form,
/// to the entry's redirect address, between the two marker lines.
pub fn managed_block_for(domains: &[BlocklistEntry]) -> (block: String)
    ensures
        block@ == spec_managed_block(domains@),
{
    let mut block = text(BLOCK_START);
    push_text(&mut block, "\n");
    let mut i: usize = 0;
    while i < domains.len()
        invariant
            i <= domains.len(),
            block@ == BLOCK_START@ + "\n"@ + block_body(domains@.take(i as int)),
        decreases domains.len() - i,
    {
        let entry = &domains[i];
        if entry.enabled {
            push_text(&mut block, entry.redirect.as_str());
            push_text(&mut block, " ");
            push_text(&mut block, entry.domain.as_str());
            push_text(&mut block, "\n");
            push_text(&mut block, entry.redirect.as_str());
            push_text(&mut block, " www.");
            push_text(&mut block, entry.domain.as_str());
            push_text(&mut block, "\n");
        }
        assert(domains@.take(i + 1).drop_last() =~= domains@.take(i as int));
        assert(domains@.take(i + 1).last() == domains@[i as int]);
        assert(block@ =~= BLOCK_START@ + "\n"@ + block_body(domains@.take(i + 1)));
        i += 1;
    }
    assert(domains@.take(domains.len() as int) =~= domains@);
    push_text(&mut block, BLOCK_END);
    block
}

pub open spec fn line_break_pred() -> spec_fn(char) -> bool {
    class_pred(CharClass::LineBreak)
}

/// Where the managed region that starts at `start` ends: after the first end
/// marker that follows, or at the end of the text.
pub open spec fn block_end_index(h: Seq<char>, start: int) -> int {
    match find(h.subrange(start, h.len() as int), BLOCK_END@) {
        Some(offset) => start + offset + BLOCK_END@.len(),
        None => h.len() as int,
    }
}

/// The user's text on either side of a removed region, with one line break
/// between the two parts when both hold something.
pub open spec fn rejoined(before: Seq<char>, after: Seq<char>) -> Seq<char> {
    if before.len() > 0 && after.len() > 0 {
        before + "\n"@ + after
    } else {
        before + after
    }
}

/// The hosts text with the first managed region (and the line breaks after it)
/// cut out, the text before it right-trimmed, and one line break between
/// what came before and what comes after; without a region, the whole text
/// right-trimmed.
pub open spec fn spec_without_managed_block(h: Seq<char>) -> Seq<char> {
    match find(h, BLOCK_START@) {
        Some(start) => {
            let end = block_end_index(h, start);
            rejoined(
                trim_end_ws(h.subrange(0, start)),
                trim_start_while(h.subrange(end, h.len() as int), line_break_pred()),
            )
        },
        None => trim_end_ws(h),
    }
}

/// Removes this program's region from a hosts file. The user's lines before
/// and after the region stay, each on its own line.
pub fn without_managed_block(hosts: &str) -> (cleaned: String)
    ensures
        cleaned@ == spec_without_managed_block(hosts@),
{
    let v = chars_of(hosts);
    let n = v.len();
    let start_marker = chars_of(BLOCK_START);
    assert(v@.subrange(0, n as int) =~= v@);
    match find_exec(&v, &start_marker) {
        Some(start) => {
            proof {
                lemma_find_from_some(v@, start_marker@, 0);
            }
            let tail = sub_chars(&v, start, n);
            let end_marker = chars_of(BLOCK_END);
            let end = match find_exec(&tail, &end_marker) {
                Some(offset) => {
                    proof {
                        lemma_find_from_some(tail@, end_marker@, 0);
                    }
                    start + offset + end_marker.len()
                },
                None => n,
            };
            let head_end = skip_end(&v, 0, start, CharClass::Whitespace);
            let rest = skip_start(&v, end, n, CharClass::LineBreak);
            let mut cleaned = string_from_range(&v, 0, head_end);
            if head_end > 0 && rest < n {
                push_text(&mut cleaned, "\n");
            }
            let rest_text = string_from_range(&v, rest, n);
            push_text(&mut cleaned, rest_text.as_str());
            cleaned
        },
        None => {
            let head_end = skip_end(&v, 0, n, CharClass::Whitespace);
            string_from_range(&v, 0, head_end)
        },
    }
}

} // verus!

verus! {

/// The hosts text after the managed region is (re)written: the rest of the
/// file, then (when enabled) a blank line and the block, then a line break.
pub open spec fn spec_updated_hosts(h: Seq<char>, enabled: bool, es: Seq<BlocklistEntry>) -> Seq<
    char,
> {
    let next = spec_without_managed_block(h);
    if enabled {
        if next.len() == 0 {
            spec_managed_block(es) + "\n"@
        } else {
            next + "\n\n"@ + spec_managed_block(es) + "\n"@
        }
    } else {
        next + "\n"@
    }
}

pub open spec fn hosts_not_writable_message() -> Seq<char> {
    "This environment cannot modify the system hosts file. Run with administrator privileges or use a system that allows hosts-file edits."@
}

/// The new contents of the hosts file: with protection enabled the managed
/// block for `domains` replaces any earlier one; disabled, it is removed.
/// Refused when the hosts file cannot be written.
pub fn write_blocker(writable: bool, hosts: &str, enabled: bool, domains: &[BlocklistEntry]) -> (res:
    Result<String, String>)
    ensures
        !writable ==> result_view(res) == Err::<Seq<char>, Seq<char>>(
            hosts_not_writable_message(),
        ),
        writable ==> result_view(res) == Ok::<Seq<char>, Seq<char>>(
            spec_updated_hosts(hosts@, enabled, domains@),
        ),
{
    if !writable {
        return Err(
            text(
                "This environment cannot modify the system hosts file. Run with administrator privileges or use a system that allows hosts-file edits.",
            ),
        );
    }
    let mut next = without_managed_block(hosts);
    if enabled {
        if next.as_str().is_empty() == false {
            push_text(&mut next, "\n\n");
        }
        let block = managed_block_for(domains);
        push_text(&mut next, block.as_str());
    }
    push_text(&mut next, "\n");
    Ok(next)
}

/// Where the sinkhole writes: the platform's hosts file, or nowhere.
pub enum SinkholeBackend {
    HostsFile { path: String, writable: bool },
    Unsupported,
}

impl SinkholeBackend {
    pub fn path(&self) -> (res: Option<&String>)
        ensures
            match self {
                SinkholeBackend::HostsFile { path, .. } => res == Some(path),
                SinkholeBackend::Unsupported => res is None,
            },
    {
        match self {
            SinkholeBackend::HostsFile { path, .. } => Some(path),
            SinkholeBackend::Unsupported => None,
        }
    }

    pub open spec fn spec_writable(&self) -> bool {
        match self {
            SinkholeBackend::HostsFile { writable, .. } => *writable,
            SinkholeBackend::Unsupported => false,
        }
    }

    #[verifier::when_used_as_spec(spec_writable)]
    pub fn writable(&self) -> (res: bool)
        ensures
            res == self.spec_writable(),
    {
        match self {
            SinkholeBackend::HostsFile { writable, .. } => *writable,
            SinkholeBackend::Unsupported => false,
        }
    }

    pub open spec fn spec_name(&self) -> Seq<char> {
        match self {
            SinkholeBackend::HostsFile { .. } => "Hosts file sinkhole"@,
            SinkholeBackend::Unsupported => "Unsupported sinkhole backend"@,
        }
    }

    pub fn name(&self) -> (res: String)
        ensures
            res@ == self.spec_name(),
    {
        match self {
            SinkholeBackend::HostsFile { .. } => text("Hosts file sinkhole"),
            SinkholeBackend::Unsupported => text("Unsupported sinkhole backend"),
        }
    }
}

/// The hosts file of an operating system (named as `std::env::consts::OS` names it).
pub open spec fn spec_hosts_location(os: Seq<char>) -> Option<Seq<char>> {
    if os == "windows"@ {
        Some("C:\\Windows\\System32\\drivers\\etc\\hosts"@)
    } else if os == "linux"@ || os == "macos"@ {
        Some("/etc/hosts"@)
    } else {
        None
    }
}

/// The sinkhole backend for the operating system `os`; `metadata_readonly`
/// is the read-only flag of the hosts file's metadata, `None` when the
/// metadata could not be read (then the file counts as writable).
pub fn sinkhole_backend(os: &str, metadata_readonly: Option<bool>) -> (res: SinkholeBackend)
    ensures
        match spec_hosts_location(os@) {
            Some(p) => res matches SinkholeBackend::HostsFile { path, writable } && path@ == p
                && writable == (match metadata_readonly {
                Some(r) => !r,
                None => true,
            }),
            None => res is Unsupported,
        },
{
    let path = if str_eq(os, "windows") {
        text("C:\\Windows\\System32\\drivers\\etc\\hosts")
    } else if str_eq(os, "linux") || str_eq(os, "macos") {
        text("/etc/hosts")
    } else {
        return SinkholeBackend::Unsupported;
    };
    let writable = match metadata_readonly {
        Some(readonly) => !readonly,
        None => true,
    };
    SinkholeBackend::HostsFile { path, writable }
}

/// The hosts file path of a backend, `/etc/hosts` when there is none.
pub fn hosts_path(backend: &SinkholeBackend) -> (res: String)
    ensures
        res@ == (match backend {
            SinkholeBackend::HostsFile { path, .. } => path@,
            SinkholeBackend::Unsupported => "/etc/hosts"@,
        }),
{
    match backend.path() {
        Some(path) => path.clone(),
        None => text("/etc/hosts"),
    }
}

pub open spec fn spec_operating_system_name(os: Seq<char>) -> Seq<char> {
    if os == "windows"@ {
        "Windows"@
    } else if os == "linux"@ {
        "Linux"@
    } else if os == "macos"@ {
        "macOS"@
    } else {
        "Cross-platform"@
    }
}

/// The display name of the operating system `os`.
pub fn operating_system_name(os: &str) -> (res: String)
    ensures
        res@ == spec_operating_system_name(os@),
{
    if str_eq(os, "windows") {
        text("Windows")
    } else if str_eq(os, "linux") {
        text("Linux")
    } else if str_eq(os, "macos") {
        text("macOS")
    } else {
        text("Cross-platform")
    }
}

/// Whether the sinkhole can write the hosts file.
pub fn can_write_hosts_file(backend: &SinkholeBackend) -> (res: bool)
    ensures
        res == backend.writable(),
{
    backend.writable()
}

/// The dashboard's description of the protection state: protection counts as
/// enabled when the hosts file holds the managed region or the packet filter runs.
pub fn blocker_state(
    hosts: &str,
    blocked_requests: u64,
    domain_count: usize,
    packet_filter_backend: String,
    packet_filter_enabled: bool,
    packet_filter_note: String,
    backend: &SinkholeBackend,
    os: &str,
) -> (state: BlockerState)
    ensures
        state.enabled == (contains_seq(hosts@, BLOCK_START@) || packet_filter_enabled),
        state.domain_count == domain_count,
        state.observed_blocked_requests == blocked_requests,
        state.hosts_path@ == (match backend {
            SinkholeBackend::HostsFile { path, .. } => path@,
            SinkholeBackend::Unsupported => "/etc/hosts"@,
        }),
        state.operating_system@ == spec_operating_system_name(os@),
        state.sinkhole_backend@ == backend.spec_name(),
        state.host_writeable == backend.writable(),
        state.protection_supported == (!(backend is Unsupported) || packet_filter_backend@
            != "unsupported"@),
        state.packet_filter_backend == packet_filter_backend,
        state.packet_filter_enabled == packet_filter_enabled,
        state.packet_filter_note == packet_filter_note,
{
    let hosts_chars = chars_of(hosts);
    let marker = chars_of(BLOCK_START);
    let has_block = contains_exec(&hosts_chars, &marker);
    let unsupported_sinkhole = match backend {
        SinkholeBackend::Unsupported => true,
        SinkholeBackend::HostsFile { .. } => false,
    };
    let filter_supported = !str_eq(packet_filter_backend.as_str(), "unsupported");
    BlockerState {
        enabled: has_block || packet_filter_enabled,
        domain_count,
        observed_blocked_requests: blocked_requests,
        hosts_path: hosts_path(backend),
        operating_system: operating_system_name(os),
        sinkhole_backend: backend.name(),
        host_writeable: backend.writable(),
        protection_supported: !unsupported_sinkhole || filter_supported,
        packet_filter_backend,
        packet_filter_enabled,
        packet_filter_note,
    }
}

} // verus!

verus! {

spec fn ws_pred_of() -> spec_fn(char) -> bool {
    crate::text::ws_pred()
}

proof fn lemma_trim_end_is_prefix(s: Seq<char>, p: spec_fn(char) -> bool)
    ensures
        trim_end_while(s, p).len() <= s.len(),
        trim_end_while(s, p) == s.subrange(0, trim_end_while(s, p).len() as int),
    decreases s.len(),
{
    if s.len() > 0 && p(s.last()) {
        lemma_trim_end_is_prefix(s.drop_last(), p);
        assert(s.drop_last().subrange(0, trim_end_while(s, p).len() as int) =~= s.subrange(
            0,
            trim_end_while(s, p).len() as int,
        ));
    } else {
        assert(s.subrange(0, s.len() as int) =~= s);
    }
}

proof fn lemma_trim_end_idempotent(s: Seq<char>, p: spec_fn(char) -> bool)
    ensures
        trim_end_while(trim_end_while(s, p), p) == trim_end_while(s, p),
    decreases s.len(),
{
    if s.len() > 0 && p(s.last()) {
        lemma_trim_end_idempotent(s.drop_last(), p);
    }
}

/// Trailing characters that are all trimmed do not change what trimming leaves.
proof fn lemma_trim_end_absorbs(s: Seq<char>, t: Seq<char>, p: spec_fn(char) -> bool)
    requires
        forall|i: int| 0 <= i < t.len() ==> p(#[trigger] t[i]),
    ensures
        trim_end_while(s + t, p) == trim_end_while(s, p),
    decreases t.len(),
{
    if t.len() > 0 {
        assert((s + t).last() == t.last());
        assert((s + t).drop_last() =~= s + t.drop_last());
        lemma_trim_end_absorbs(s, t.drop_last(), p);
    } else {
        assert(s + t =~= s);
    }
}

/// A first occurrence in `a` stays the first occurrence in `a + b`.
proof fn lemma_find_extends(a: Seq<char>, b: Seq<char>, pat: Seq<char>)
    requires
        find(a, pat) is Some,
    ensures
        find(a + b, pat) == find(a, pat),
{
    lemma_find_from_some(a, pat, 0);
    let k = find(a, pat).unwrap();
    assert((a + b).subrange(k, k + pat.len()) =~= a.subrange(k, k + pat.len()));
    assert forall|j: int| 0 <= j < k implies !occurs_at(a + b, pat, j) by {
        if occurs_at(a + b, pat, j) {
            assert((a + b).subrange(j, j + pat.len()) =~= a.subrange(j, j + pat.len()));
            assert(occurs_at(a, pat, j));
        }
    }
    lemma_find_from_first(a + b, pat, 0, k);
}

proof fn lemma_markers()
    ensures
        forall|k: int| 0 <= k < BLOCK_START@.len() ==> #[trigger] BLOCK_START@[k] != '\n',
        BLOCK_START@.len() > 0,
{
    reveal_strlit("# IP-FIREWALL:START");
}

/// The first occurrence of the end marker in the managed block is its last line.
pub open spec fn block_closes_once(es: Seq<BlocklistEntry>) -> bool {
    find(spec_managed_block(es), BLOCK_END@) == Some(
        (spec_managed_block(es).len() - BLOCK_END@.len()) as int,
    )
}

/// Writing the managed block into a hosts file that has none, then removing
/// it, gives back what removing gives on the original file.
pub proof fn lemma_block_removal_restores(user: Seq<char>, es: Seq<BlocklistEntry>)
    requires
        !contains_seq(user, BLOCK_START@),
        block_closes_once(es),
    ensures
        spec_without_managed_block(spec_updated_hosts(user, true, es)) == spec_without_managed_block(
            user,
        ),
        spec_without_managed_block(user) == trim_end_ws(user),
{
    lemma_markers();
    let sm = BLOCK_START@;
    let em = BLOCK_END@;
    lemma_find_from_absent(user, sm, 0);
    let next = trim_end_ws(user);
    assert(spec_without_managed_block(user) == next);
    lemma_trim_end_is_prefix(user, ws_pred_of());
    let block = spec_managed_block(es);
    let sep: Seq<char> = if next.len() == 0 {
        Seq::empty()
    } else {
        next + "\n\n"@
    };
    let h = spec_updated_hosts(user, true, es);
    assert(h =~= sep + block + "\n"@);
    let p = sep.len() as int;
    // the start marker occurs where the block starts, and nowhere before
    assert(block.subrange(0, sm.len() as int) =~= sm);
    assert(h.subrange(p, p + sm.len()) =~= sm);
    assert forall|j: int| 0 <= j < p implies !occurs_at(h, sm, j) by {
        if occurs_at(h, sm, j) {
            if j + sm.len() <= next.len() {
                assert(user.subrange(j, j + sm.len()) =~= h.subrange(j, j + sm.len()));
                assert(occurs_at(user, sm, j));
            } else {
                reveal_strlit("\n\n");
                let m = if j >= next.len() {
                    j
                } else {
                    next.len() as int
                };
                assert(next.len() > 0);
                assert(sep[m] == '\n');
                assert(h[m] == '\n');
                assert(h.subrange(j, j + sm.len())[m - j] == h[m]);
                assert(sm[m - j] != '\n');
            }
        }
    }
    lemma_find_from_first(h, sm, 0, p);
    // the end marker closes the block
    assert(h.subrange(p, h.len() as int) =~= block + "\n"@);
    lemma_find_extends(block, "\n"@, em);
    let end = p + block.len();
    assert(block_end_index(h, p) == end);
    assert(h.subrange(end, h.len() as int) =~= "\n"@);
    let rest = h.subrange(end, h.len() as int);
    reveal_strlit("\n");
    assert(rest.len() == 1 && rest[0] == '\n');
    assert(rest.drop_first() =~= Seq::<char>::empty());
    assert(trim_start_while(rest, line_break_pred()) =~= Seq::<char>::empty()) by {
        reveal_with_fuel(trim_start_while, 2);
    }
    assert(h.subrange(0, p) =~= sep);
    lemma_trim_end_idempotent(user, ws_pred_of());
    if next.len() != 0 {
        reveal_strlit("\n\n");
        assert(is_ws('\n'));
        lemma_trim_end_absorbs(next, "\n\n"@, ws_pred_of());
    }
    assert(spec_without_managed_block(h) =~= trim_end_ws(sep));
}

} // verus!

verus! {

/// Turning protection off after turning it on leaves the hosts file as turning
/// it off alone would: the user's own lines, right-trimmed, and a line break.
pub proof fn lemma_disable_after_enable_restores_hosts(
    user: Seq<char>,
    es: Seq<BlocklistEntry>,
    later: Seq<BlocklistEntry>,
)
    requires
        !contains_seq(user, BLOCK_START@),
        block_closes_once(es),
    ensures
        spec_updated_hosts(spec_updated_hosts(user, true, es), false, later) == spec_updated_hosts(
            user,
            false,
            later,
        ),
        spec_updated_hosts(user, false, later) == trim_end_ws(user) + "\n"@,
{
    lemma_block_removal_restores(user, es);
}

/// Turning protection on twice with the same blocklist writes the same file as once.
pub proof fn lemma_enable_is_stable(user: Seq<char>, es: Seq<BlocklistEntry>)
    requires
        !contains_seq(user, BLOCK_START@),
        block_closes_once(es),
    ensures
        spec_updated_hosts(spec_updated_hosts(user, true, es), true, es) == spec_updated_hosts(
            user,
            true,
            es,
        ),
{
    lemma_block_removal_restores(user, es);
}

} // verus!

verus! {

/// The managed block starts with the start marker and ends with the end marker.
pub proof fn lemma_managed_block_markers(es: Seq<BlocklistEntry>)
    ensures
        crate::text::starts_with(spec_managed_block(es), BLOCK_START@),
        crate::text::ends_with(spec_managed_block(es), BLOCK_END@),
{
    let b = spec_managed_block(es);
    assert(b.subrange(0, BLOCK_START@.len() as int) =~= BLOCK_START@);
    assert(b.subrange(b.len() - BLOCK_END@.len(), b.len() as int) =~= BLOCK_END@);
}

proof fn lemma_trim_start_keeps(s: Seq<char>, p: spec_fn(char) -> bool, q: spec_fn(char) -> bool)
    requires
        forall|i: int| 0 <= i < s.len() ==> q(#[trigger] s[i]),
    ensures
        forall|i: int|
            0 <= i < trim_start_while(s, p).len() ==> q(#[trigger] trim_start_while(s, p)[i]),
    decreases s.len(),
{
    if s.len() > 0 && p(s[0]) {
        assert forall|i: int| 0 <= i < s.drop_first().len() implies q(
            #[trigger] s.drop_first()[i],
        ) by {
            assert(s.drop_first()[i] == s[i + 1]);
        }
        lemma_trim_start_keeps(s.drop_first(), p, q);
        let r = trim_start_while(s, p);
        assert(r == trim_start_while(s.drop_first(), p));
        assert forall|i: int| 0 <= i < r.len() implies q(#[trigger] r[i]) by {
            assert(r[i] == trim_start_while(s.drop_first(), p)[i]);
        }
    } else {
        assert(trim_start_while(s, p) == s);
        assert forall|i: int| 0 <= i < s.len() implies q(#[trigger] trim_start_while(s, p)[i]) by {
            assert(q(s[i]));
        }
    }
}

proof fn lemma_trim_end_keeps(s: Seq<char>, p: spec_fn(char) -> bool, q: spec_fn(char) -> bool)
    requires
        forall|i: int| 0 <= i < s.len() ==> q(#[trigger] s[i]),
    ensures
        forall|i: int|
            0 <= i < trim_end_while(s, p).len() ==> q(#[trigger] trim_end_while(s, p)[i]),
    decreases s.len(),
{
    if s.len() > 0 && p(s.last()) {
        assert forall|i: int| 0 <= i < s.drop_last().len() implies q(
            #[trigger] s.drop_last()[i],
        ) by {
            assert(s.drop_last()[i] == s[i]);
        }
        lemma_trim_end_keeps(s.drop_last(), p, q);
        let r = trim_end_while(s, p);
        assert(r == trim_end_while(s.drop_last(), p));
        assert forall|i: int| 0 <= i < r.len() implies q(#[trigger] r[i]) by {
            assert(r[i] == trim_end_while(s.drop_last(), p)[i]);
        }
    } else {
        assert(trim_end_while(s, p) == s);
        assert forall|i: int| 0 <= i < s.len() implies q(#[trigger] trim_end_while(s, p)[i]) by {
            assert(q(s[i]));
        }
    }
}

proof fn lemma_strip_prefix_keeps(s: Seq<char>, pre: Seq<char>, q: spec_fn(char) -> bool)
    requires
        forall|i: int| 0 <= i < s.len() ==> q(#[trigger] s[i]),
    ensures
        forall|i: int|
            0 <= i < strip_all_prefix(s, pre).len() ==> q(#[trigger] strip_all_prefix(s, pre)[i]),
    decreases s.len(),
{
    if 0 < pre.len() <= s.len() && s.subrange(0, pre.len() as int) == pre {
        let t = s.subrange(pre.len() as int, s.len() as int);
        assert forall|i: int| 0 <= i < t.len() implies q(#[trigger] t[i]) by {
            assert(t[i] == s[i + pre.len()]);
        }
        lemma_strip_prefix_keeps(t, pre, q);
        let r = strip_all_prefix(s, pre);
        assert(r == strip_all_prefix(t, pre));
        assert forall|i: int| 0 <= i < r.len() implies q(#[trigger] r[i]) by {
            assert(r[i] == strip_all_prefix(t, pre)[i]);
        }
    } else {
        assert(strip_all_prefix(s, pre) == s);
        assert forall|i: int| 0 <= i < s.len() implies q(#[trigger] strip_all_prefix(s, pre)[i]) by {
            assert(q(s[i]));
        }
    }
}

proof fn lemma_len_before_absent(s: Seq<char>, c: char)
    requires
        forall|i: int| 0 <= i < s.len() ==> #[trigger] s[i] != c,
    ensures
        len_before(s, c) == s.len(),
    decreases s.len(),
{
    if s.len() > 0 {
        assert forall|i: int| 0 <= i < s.drop_first().len() implies #[trigger] s.drop_first()[i]
            != c by {
            assert(s.drop_first()[i] == s[i + 1]);
        }
        lemma_len_before_absent(s.drop_first(), c);
    }
}

proof fn lemma_len_before_bound(s: Seq<char>, c: char)
    ensures
        len_before(s, c) <= s.len(),
    decreases s.len(),
{
    if s.len() > 0 && s[0] != c {
        lemma_len_before_bound(s.drop_first(), c);
    }
}

/// A text that passes the host checks is left alone by trimming.
proof fn lemma_host_trims(n: Seq<char>, p: spec_fn(char) -> bool)
    requires
        n.len() > 0,
        !p(n[0]),
        !p(n.last()),
    ensures
        trim_both(n, p) == n,
{
}

pub open spec fn not_upper_pred() -> spec_fn(char) -> bool {
    |c: char| !crate::text::is_ascii_upper(c)
}

/// A normalized domain normalizes to itself, unless it still starts with
/// `www.` (only one layer of repeated `www.` prefixes is removed when they are
/// separated by blanks after a scheme).
pub proof fn lemma_normalize_idempotent(value: Seq<char>, n: Seq<char>)
    requires
        spec_normalize_domain(value) == Ok::<Seq<char>, Seq<char>>(n),
        !crate::text::starts_with(n, "www."@),
    ensures
        spec_normalize_domain(n) == Ok::<Seq<char>, Seq<char>>(n),
{
    let cleaned = cleaned_domain(value);
    assert(n == host_part(cleaned));
    // every character of the host part is a lowered character
    let t = trim_both(trim_ws(value), domain_edge_pred());
    assert forall|i: int| 0 <= i < cleaned.len() implies not_upper_pred()(#[trigger] cleaned[i]) by {
        assert(cleaned[i] == crate::text::ascii_lower(t[i]));
    }
    let q = not_upper_pred();
    let a1 = strip_all_prefix(cleaned, "https://"@);
    let a2 = strip_all_prefix(a1, "http://"@);
    let a3 = strip_all_prefix(a2, "www."@);
    let b = trim_end_while(a3, class_pred(CharClass::Slash));
    let c = before_char(b, '/');
    lemma_strip_prefix_keeps(cleaned, "https://"@, q);
    lemma_strip_prefix_keeps(a1, "http://"@, q);
    lemma_strip_prefix_keeps(a2, "www."@, q);
    lemma_trim_end_keeps(a3, class_pred(CharClass::Slash), q);
    lemma_len_before_bound(b, '/');
    assert forall|i: int| 0 <= i < c.len() implies q(#[trigger] c[i]) by {
        assert(c[i] == b[i]);
    }
    lemma_trim_start_keeps(c, ws_pred_of(), q);
    lemma_trim_end_keeps(trim_start_while(c, ws_pred_of()), ws_pred_of(), q);
    assert(forall|i: int| 0 <= i < n.len() ==> q(#[trigger] n[i]));
    assert(forall|i: int| 0 <= i < n.len() ==> is_domain_char(#[trigger] n[i]));
    // now the second pass changes nothing
    lemma_host_trims(n, ws_pred_of());
    lemma_host_trims(n, domain_edge_pred());
    assert(lower_seq(n) =~= n) by {
        assert forall|i: int| 0 <= i < n.len() implies lower_seq(n)[i] == n[i] by {
            assert(q(n[i]));
        }
    }
    assert(cleaned_domain(n) == n);
    reveal_strlit("https://");
    reveal_strlit("http://");
    reveal_strlit("www.");
    assert(strip_all_prefix(n, "https://"@) == n) by {
        if 8 <= n.len() && n.subrange(0, 8) == "https://"@ {
            assert(n.subrange(0, 8)[5] == n[5]);
            assert(is_domain_char(n[5]));
        }
    }
    assert(strip_all_prefix(n, "http://"@) == n) by {
        if 7 <= n.len() && n.subrange(0, 7) == "http://"@ {
            assert(n.subrange(0, 7)[4] == n[4]);
            assert(is_domain_char(n[4]));
        }
    }
    assert(strip_all_prefix(n, "www."@) == n);
    assert(trim_end_while(n, class_pred(CharClass::Slash)) == n);
    lemma_len_before_absent(n, '/');
    assert(before_char(n, '/') =~= n);
    assert(host_part(n) == n);
}

} // verus!

verus! {

/// The ASCII case of the input never changes what `normalize_domain` gives.
pub proof fn lemma_normalize_ignores_case(value: Seq<char>)
    ensures
        spec_normalize_domain(lower_seq(value)) == spec_normalize_domain(value),
{
    crate::text::lemma_class_preds_case_blind();
    crate::text::lemma_trim_both_lower(value, crate::text::ws_pred());
    crate::text::lemma_trim_both_lower(trim_ws(value), domain_edge_pred());
    crate::text::lemma_lower_seq_idempotent(trim_both(trim_ws(value), domain_edge_pred()));
    assert(cleaned_domain(lower_seq(value)) == cleaned_domain(value));
}

} // verus!

verus! {

/// A host name made of lower-case ASCII letters, digits, dots and dashes,
/// which neither starts nor ends with a dot nor starts with `www.`, is
/// accepted as it is, whatever its length.
pub proof fn lemma_plain_host_accepted(n: Seq<char>)
    requires
        n.len() > 0,
        forall|i: int| 0 <= i < n.len() ==> is_domain_char(#[trigger] n[i]) && !crate::text::is_ascii_upper(n[i]),
        n[0] != '.',
        n.last() != '.',
        !crate::text::starts_with(n, "www."@),
    ensures
        spec_normalize_domain(n) == Ok::<Seq<char>, Seq<char>>(n),
{
    lemma_host_trims(n, ws_pred_of());
    lemma_host_trims(n, domain_edge_pred());
    assert(lower_seq(n) =~= n);
    assert(cleaned_domain(n) == n);
    reveal_strlit("https://");
    reveal_strlit("http://");
    reveal_strlit("www.");
    assert(strip_all_prefix(n, "https://"@) == n) by {
        if 8 <= n.len() && n.subrange(0, 8) == "https://"@ {
            assert(n.subrange(0, 8)[5] == n[5]);
            assert(is_domain_char(n[5]));
        }
    }
    assert(strip_all_prefix(n, "http://"@) == n) by {
        if 7 <= n.len() && n.subrange(0, 7) == "http://"@ {
            assert(n.subrange(0, 7)[4] == n[4]);
            assert(is_domain_char(n[4]));
        }
    }
    assert(strip_all_prefix(n, "www."@) == n);
    assert(trim_end_while(n, class_pred(CharClass::Slash)) == n);
    lemma_len_before_absent(n, '/');
    assert(before_char(n, '/') =~= n);
    assert(host_part(n) == n);
}

/// A host name of ASCII letters, digits, dots and dashes that neither starts
/// nor ends with a dot is accepted, lower-cased, unless its lower-case form
/// starts with `www.`.
pub proof fn lemma_host_accepted_lowered(n: Seq<char>)
    requires
        n.len() > 0,
        forall|i: int| 0 <= i < n.len() ==> is_domain_char(#[trigger] n[i]),
        n[0] != '.',
        n.last() != '.',
        !crate::text::starts_with(lower_seq(n), "www."@),
    ensures
        spec_normalize_domain(n) == Ok::<Seq<char>, Seq<char>>(lower_seq(n)),
{
    let m = lower_seq(n);
    assert forall|i: int| 0 <= i < m.len() implies is_domain_char(#[trigger] m[i])
        && !crate::text::is_ascii_upper(m[i]) by {
        crate::text::lemma_ascii_lower_char(n[i]);
    }
    assert(m[0] == crate::text::ascii_lower(n[0]));
    assert(m.last() == crate::text::ascii_lower(n.last()));
    lemma_plain_host_accepted(m);
    lemma_normalize_ignores_case(n);
}

} // verus!

verus! {

/// With protection on, the written hosts file is the old text without its
/// managed region (and a blank line when anything is left of it), followed by
/// the block of the given entries and a line break: whatever block the file
/// held before, the current blocklist is what is written. With protection
/// off, the file is the old text without its region, and the entries play no
/// part.
pub proof fn lemma_written_hosts_hold_current_block(
    h: Seq<char>,
    es: Seq<BlocklistEntry>,
    others: Seq<BlocklistEntry>,
)
    ensures
        crate::text::ends_with(spec_updated_hosts(h, true, es), spec_managed_block(es) + "\n"@),
        spec_updated_hosts(h, true, es) == (if spec_without_managed_block(h).len() == 0 {
            Seq::<char>::empty()
        } else {
            spec_without_managed_block(h) + "\n\n"@
        }) + spec_managed_block(es) + "\n"@,
        spec_updated_hosts(h, false, es) == spec_without_managed_block(h) + "\n"@,
        spec_updated_hosts(h, false, es) == spec_updated_hosts(h, false, others),
{
    let w = spec_without_managed_block(h);
    let tail = spec_managed_block(es) + "\n"@;
    let out = spec_updated_hosts(h, true, es);
    if w.len() == 0 {
        assert(out =~= Seq::<char>::empty() + spec_managed_block(es) + "\n"@);
        assert(out.subrange(out.len() - tail.len(), out.len() as int) =~= tail);
    } else {
        assert(out =~= (w + "\n\n"@) + spec_managed_block(es) + "\n"@);
        assert(out.subrange(out.len() - tail.len(), out.len() as int) =~= tail);
    }
}

} // verus!

verus! {

/// The lines of two lists of entries, one after the other, are the lines of
/// the first followed by the lines of the second.
pub proof fn lemma_block_body_concat(a: Seq<BlocklistEntry>, b: Seq<BlocklistEntry>)
    ensures
        block_body(a + b) == block_body(a) + block_body(b),
    decreases b.len(),
{
    if b.len() == 0 {
        assert(a + b =~= a);
        assert(block_body(a) + block_body(b) =~= block_body(a));
    } else {
        lemma_block_body_concat(a, b.drop_last());
        assert((a + b).drop_last() =~= a + b.drop_last());
        assert((a + b).last() == b.last());
        assert(block_body(a + b) =~= block_body(a) + block_body(b));
    }
}

/// Adding an entry to the list adds exactly that entry's lines at the end of
/// the block body: its two lines when it is enabled, nothing otherwise.
pub proof fn lemma_block_body_push(es: Seq<BlocklistEntry>, e: BlocklistEntry)
    ensures
        block_body(es.push(e)) == block_body(es) + (if e.enabled {
            e.redirect@ + " "@ + e.domain@ + "\n"@ + e.redirect@ + " www."@ + e.domain@ + "\n"@
        } else {
            Seq::<char>::empty()
        }),
{
    lemma_block_body_concat(es, seq![e]);
    assert(es + seq![e] =~= es.push(e));
    assert(seq![e].drop_last() =~= Seq::<BlocklistEntry>::empty());
    assert(seq![e].last() == e);
    assert(block_body(Seq::<BlocklistEntry>::empty()) == Seq::<char>::empty());
    assert(block_body(seq![e]) == block_body(seq![e].drop_last()) + entry_lines(e));
    assert(block_body(seq![e]) =~= entry_lines(e));
}

/// Every enabled entry of the list sends its domain and the domain's `www.`
/// name to its redirect address in the managed block.
pub proof fn lemma_block_lists_every_enabled_entry(es: Seq<BlocklistEntry>, i: int)
    requires
        0 <= i < es.len(),
        es[i].enabled,
    ensures
        contains_seq(spec_managed_block(es), es[i].redirect@ + " "@ + es[i].domain@ + "\n"@),
        contains_seq(spec_managed_block(es), es[i].redirect@ + " www."@ + es[i].domain@ + "\n"@),
{
    let e = es[i];
    let before = es.take(i);
    let after = es.skip(i + 1);
    assert(es =~= before + seq![e] + after);
    lemma_block_body_concat(before + seq![e], after);
    lemma_block_body_push(before, e);
    assert(before.push(e) =~= before + seq![e]);
    let line1 = e.redirect@ + " "@ + e.domain@ + "\n"@;
    let line2 = e.redirect@ + " www."@ + e.domain@ + "\n"@;
    let x = block_body(before);
    let y = block_body(after);
    assert(block_body(es) =~= x + line1 + line2 + y);
    let head = BLOCK_START@ + "\n"@;
    let block = spec_managed_block(es);
    assert(block =~= head + x + line1 + line2 + y + BLOCK_END@);
    let p: int = (head.len() + x.len()) as int;
    assert(block.subrange(p, p + line1.len()) =~= line1);
    assert(occurs_at(block, line1, p));
    let q: int = p + line1.len();
    assert(block.subrange(q, q + line2.len()) =~= line2);
    assert(occurs_at(block, line2, q));
}

} // verus!
