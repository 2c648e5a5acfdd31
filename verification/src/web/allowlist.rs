//! Host allowlist for the `agentero-web` proxy.
//!
//! The proxy must never become an open relay: only hosts explicitly allowed
//! here are served, and only public DNS names can be allowed.
use vstd::prelude::*;
use crate::text::{
    all_digits, all_digits_exec, chars_of, char_is_alnum, contains, contains_str, digits_value,
    ends_with, eq, eq_str, has_suffix_str, is_alnum, lower, parse_u32_exec, parse_unsigned, split,
    split_exec, string_of, to_lower, trim, trim_end_char, trim_end_char_exec, trim_exec, views,
    is_ws, lemma_trail_char_bounds, lemma_trim_fixed, lower_char, lead, trail, trail_char,
    lemma_lead_bounds, lemma_trail_bounds,
};

verus! {

/// `host.trim().trim_end_matches('.').to_ascii_lowercase()`.
pub open spec fn normalized_host(host: Seq<char>) -> Seq<char> {
    lower(trim_end_char(trim(host), '.'))
}

/// Lowercase-trim a caller-supplied host.
pub fn normalize_host(host: &str) -> (r: String)
    ensures
        r@ == normalized_host(host@),
{
    let v = chars_of(host);
    let t = trim_exec(v.as_slice());
    let d = trim_end_char_exec(t.as_slice(), '.');
    let l = to_lower(d.as_slice());
    string_of(l.as_slice())
}

/// Law: normalizing an already normalized host changes nothing, unless the
/// normalized host ends in whitespace (whitespace that stood before trailing
/// dots, which the second trim then removes).
pub proof fn lemma_normalize_host_idempotent(host: Seq<char>)
    requires
        normalized_host(host).len() == 0 || !is_ws(normalized_host(host).last()),
    ensures
        normalized_host(normalized_host(host)) == normalized_host(host),
{
    let t = trim(host);
    let d = trim_end_char(t, '.');
    let n = lower(d);
    lemma_lead_bounds(host, 0);
    lemma_trail_bounds(host, lead(host, 0), host.len() as int);
    lemma_trail_char_bounds(t, '.', t.len() as int);
    assert(lower(n) =~= n);
    if n.len() == 0 {
        assert(trim(n) =~= n);
        assert(trim_end_char(n, '.') =~= n);
    } else {
        assert(d[0] == t[0]);
        assert(!is_ws(n[0]));
        assert(n[n.len() - 1] != '.');
        lemma_trim_fixed(n);
        assert(trim_end_char(n, '.') =~= n);
    }
}

/// One octet of a dotted-decimal IPv4 address as `Ipv4Addr` parses it: one
/// to three digits, no leading zero, at most 255.
pub open spec fn is_octet(p: Seq<char>) -> bool {
    &&& 1 <= p.len() <= 3
    &&& all_digits(p)
    &&& (p.len() == 1 || p[0] != '0')
    &&& digits_value(p) <= 255
}

/// A dotted-decimal IPv4 literal (`a.b.c.d`).
pub open spec fn ipv4_literal(h: Seq<char>) -> bool {
    let parts = split(h, '.');
    parts.len() == 4 && forall|i: int| 0 <= i < 4 ==> is_octet(#[trigger] parts[i])
}

/// An ASCII hexadecimal digit.
pub open spec fn is_hex(c: char) -> bool {
    crate::text::is_digit(c) || ('a' <= c && c <= 'f') || ('A' <= c && c <= 'F')
}

/// A label that URL parsers read as a number: decimal digits, or `0x` /
/// `0X` followed by hexadecimal digits.
pub open spec fn numeric_label(l: Seq<char>) -> bool {
    ||| (l.len() > 0 && all_digits(l))
    ||| (l.len() >= 2 && l[0] == '0' && (l[1] == 'x' || l[1] == 'X') && forall|i: int|
        2 <= i < l.len() ==> is_hex(#[trigger] l[i]))
}

/// The last label of a dotted name (the one before a trailing dot, if any).
pub open spec fn last_label(h: Seq<char>) -> Seq<char> {
    let parts = split(h, '.');
    if parts.len() > 1 && parts[parts.len() - 1].len() == 0 {
        parts[parts.len() - 2]
    } else {
        parts[parts.len() - 1]
    }
}

/// A name whose last label is a number: URL parsers read it as an IPv4
/// address in some shorthand (`127.1`, `169.254.43518`, `0x7f.0.0.1`).
pub open spec fn ends_in_number(h: Seq<char>) -> bool {
    numeric_label(last_label(h))
}

/// A character a DNS host name may hold: ASCII letter or digit, `-` or `.`.
pub open spec fn host_char(c: char) -> bool {
    is_alnum(c) || c == '-' || c == '.'
}

/// Hosts the allowlist accepts: public DNS names only. Empty and dotless
/// names, `localhost`, `.localhost` / `.local` / `.internal` / `.arpa`
/// names, IP literals and names with other characters are refused. (An IPv6
/// literal always holds `:`, so among names made of host characters only
/// IPv4 literals remain to refuse; every name whose last label is a number
/// is refused, since URL parsers read it as an IPv4 address.)
pub open spec fn public_dns_host(h: Seq<char>) -> bool {
    &&& h.len() > 0
    &&& contains(h, "."@)
    &&& h != "localhost"@
    &&& !ends_with(h, ".localhost"@)
    &&& !ends_with(h, ".local"@)
    &&& !ends_with(h, ".internal"@)
    &&& !ends_with(h, ".arpa"@)
    &&& !ipv4_literal(h)
    &&& !ends_in_number(h)
    &&& forall|i: int| 0 <= i < h.len() ==> host_char(#[trigger] h[i])
}

fn octet_exec(p: &[char]) -> (r: bool)
    ensures
        r == is_octet(p@),
{
    if p.len() < 1 || p.len() > 3 || !all_digits_exec(p) {
        return false;
    }
    if p.len() > 1 && p[0] == '0' {
        return false;
    }
    match parse_u32_exec(p) {
        Some(v) => v <= 255,
        None => {
            assert(parse_unsigned(p@, 0xFFFF_FFFF) is None);
            assert(p@.len() == 0 || p@[0] != '+') by {
                assert(crate::text::is_digit(p@[0]));
            }
            false
        },
    }
}

fn ipv4_exec(h: &[char]) -> (r: bool)
    ensures
        r == ipv4_literal(h@),
{
    let parts = split_exec(h, '.');
    if parts.len() != 4 {
        return false;
    }
    let mut i: usize = 0;
    while i < 4
        invariant
            parts@.len() == 4,
            views(parts@) == split(h@, '.'),
            i <= 4,
            forall|k: int| 0 <= k < i ==> is_octet(#[trigger] split(h@, '.')[k]),
        decreases 4 - i,
    {
        assert(views(parts@)[i as int] == parts@[i as int]@);
        if !octet_exec(parts[i].as_slice()) {
            return false;
        }
        i += 1;
    }
    true
}

fn numeric_label_exec(l: &[char]) -> (r: bool)
    ensures
        r == numeric_label(l@),
{
    if l.len() > 0 && all_digits_exec(l) {
        return true;
    }
    if l.len() < 2 || l[0] != '0' || !(l[1] == 'x' || l[1] == 'X') {
        return false;
    }
    let mut i: usize = 2;
    while i < l.len()
        invariant
            2 <= i <= l@.len(),
            forall|k: int| 2 <= k < i ==> is_hex(#[trigger] l@[k]),
        decreases l.len() - i,
    {
        let c = l[i];
        if !(('0' <= c && c <= '9') || ('a' <= c && c <= 'f') || ('A' <= c && c <= 'F')) {
            return false;
        }
        i += 1;
    }
    true
}

fn ends_in_number_exec(h: &[char]) -> (r: bool)
    ensures
        r == ends_in_number(h@),
{
    let parts = split_exec(h, '.');
    proof {
        crate::text::lemma_split_acc_nonempty(h@, '.', 0, 0);
    }
    let n = parts.len();
    assert(views(parts@)[n - 1] == parts@[n - 1]@);
    if n > 1 && parts[n - 1].len() == 0 {
        assert(views(parts@)[n - 2] == parts@[n - 2]@);
        numeric_label_exec(parts[n - 2].as_slice())
    } else {
        numeric_label_exec(parts[n - 1].as_slice())
    }
}

/// Whether `host` is a public DNS name the proxy may be pointed at.
pub fn is_public_dns_host(host: &str) -> (r: bool)
    ensures
        r == public_dns_host(host@),
{
    let h = chars_of(host);
    let hs = h.as_slice();
    if h.len() == 0 || !contains_str(hs, ".") {
        return false;
    }
    if eq_str(hs, "localhost") || has_suffix_str(hs, ".localhost") {
        return false;
    }
    if has_suffix_str(hs, ".local") || has_suffix_str(hs, ".internal") || has_suffix_str(
        hs,
        ".arpa",
    ) {
        return false;
    }
    if ipv4_exec(hs) || ends_in_number_exec(hs) {
        return false;
    }
    let mut i: usize = 0;
    while i < h.len()
        invariant
            i <= h@.len(),
            h@ == host@,
            forall|k: int| 0 <= k < i ==> host_char(#[trigger] h@[k]),
        decreases h.len() - i,
    {
        let c = h[i];
        if !(char_is_alnum(c) || c == '-' || c == '.') {
            return false;
        }
        i += 1;
    }
    true
}

/// The allowed set after asking to allow `host`.
pub open spec fn after_allow(allowed: Set<Seq<char>>, host: Seq<char>) -> Set<Seq<char>> {
    if public_dns_host(normalized_host(host)) {
        allowed.insert(normalized_host(host))
    } else {
        allowed
    }
}

/// The set of hosts the proxy may serve.
pub struct HostAllowlist {
    hosts: Vec<Vec<char>>,
}

impl View for HostAllowlist {
    type V = Set<Seq<char>>;

    closed spec fn view(&self) -> Set<Seq<char>> {
        views(self.hosts@).to_set()
    }
}

impl HostAllowlist {
    /// Every allowed host is a public DNS name.
    pub open spec fn wf(&self) -> bool {
        forall|h: Seq<char>| #[trigger] self@.contains(h) ==> public_dns_host(h)
    }

    /// An empty allowlist.
    pub fn new() -> (r: Self)
        ensures
            r.wf(),
            r@ == Set::<Seq<char>>::empty(),
    {
        let r = HostAllowlist { hosts: Vec::new() };
        assert(r@ =~= Set::<Seq<char>>::empty());
        r
    }

    fn holds(&self, h: &[char]) -> (r: bool)
        ensures
            r == self@.contains(h@),
    {
        let mut i: usize = 0;
        while i < self.hosts.len()
            invariant
                i <= self.hosts@.len(),
                forall|k: int| 0 <= k < i ==> #[trigger] self.hosts@[k]@ != h@,
            decreases self.hosts.len() - i,
        {
            if eq(self.hosts[i].as_slice(), h) {
                assert(views(self.hosts@)[i as int] == h@);
                return true;
            }
            i += 1;
        }
        assert(!views(self.hosts@).contains(h@)) by {
            if views(self.hosts@).contains(h@) {
                let k = choose|k: int| 0 <= k < views(self.hosts@).len() && views(self.hosts@)[k] == h@;
                assert(self.hosts@[k]@ == h@);
            }
        }
        false
    }

    /// Whether the proxy may serve `host` (compared after normalization).
    pub fn is_allowed(&self, host: &str) -> (r: bool)
        ensures
            r == self@.contains(normalized_host(host@)),
    {
        let n = normalize_host(host);
        let nc = chars_of(n.as_str());
        self.holds(nc.as_slice())
    }

    /// Add `host` (normalized) to the allowlist; idempotent, and a host that
    /// is not a public DNS name is dropped.
    pub fn allow_host(&mut self, host: &str)
        requires
            old(self).wf(),
        ensures
            final(self).wf(),
            final(self)@ == after_allow(old(self)@, host@),
    {
        let n = normalize_host(host);
        if !is_public_dns_host(n.as_str()) {
            return;
        }
        let nc = chars_of(n.as_str());
        if self.holds(nc.as_slice()) {
            assert(self@.insert(nc@) =~= self@);
            return;
        }
        let ghost before = views(self.hosts@);
        self.hosts.push(nc);
        assert(views(self.hosts@) =~= before.push(n@));
        assert(views(self.hosts@).to_set() =~= before.to_set().insert(n@)) by {
            before.lemma_push_to_set_commute(n@);
        }
    }
}

/// Arguments of the `web_proxy_allow_host` command.
pub struct WebProxyAllowHostArgs {
    /// Public DNS host the viewer is about to load through the proxy.
    pub host: String,
}

/// Ensure `args.host` may be served before its viewer frame loads; `false`
/// when the host is refused as non-public (the list is then unchanged).
pub fn web_proxy_allow_host(list: &mut HostAllowlist, args: &WebProxyAllowHostArgs) -> (r: bool)
    requires
        old(list).wf(),
    ensures
        final(list).wf(),
        r == public_dns_host(normalized_host(args.host@)),
        final(list)@ == after_allow(old(list)@, args.host@),
{
    let host = normalize_host(args.host.as_str());
    let accepted = is_public_dns_host(host.as_str());
    if accepted {
        list.allow_host(host.as_str());
        proof {
            lemma_normalize_public_fixed(args.host@);
        }
    }
    accepted
}

/// Normalizing a host that normalized to a public name changes nothing.
pub proof fn lemma_normalize_public_fixed(x: Seq<char>)
    requires
        public_dns_host(normalized_host(x)),
    ensures
        normalized_host(normalized_host(x)) == normalized_host(x),
{
    let t = trim(x);
    let d = trim_end_char(t, '.');
    let h = normalized_host(x);
    assert(h.len() == d.len());
    assert(forall|i: int| 0 <= i < h.len() ==> !is_ws(#[trigger] h[i])) by {
        assert forall|i: int| 0 <= i < h.len() implies !is_ws(#[trigger] h[i]) by {
            assert(host_char(h[i]));
        }
    }
    lemma_trim_fixed(h);
    lemma_trail_char_bounds(t, '.', t.len() as int);
    assert(d[d.len() - 1] != '.');
    assert(h[h.len() - 1] == lower_char(d[d.len() - 1]));
    assert(h[h.len() - 1] != '.');
    assert(trim_end_char(h, '.') =~= h);
    assert(lower(h) =~= h);
}

proof fn lemma_case_lead(a: Seq<char>, b: Seq<char>, i: int)
    requires
        lower(a) == lower(b),
        0 <= i <= a.len(),
    ensures
        lead(a, i) == lead(b, i),
    decreases a.len() - i,
{
    assert(a.len() == b.len()) by {
        assert(lower(a).len() == a.len());
    }
    if i < a.len() {
        assert(lower(a)[i] == lower(b)[i]);
        assert(lower(a)[i] == lower_char(a[i]) && lower(b)[i] == lower_char(b[i]));
        lower_char_classes_proof(a[i], b[i]);
        lemma_case_lead(a, b, i + 1);
    }
}

proof fn lemma_case_trail(a: Seq<char>, b: Seq<char>, lo: int, j: int)
    requires
        lower(a) == lower(b),
        0 <= lo <= j <= a.len(),
    ensures
        trail(a, lo, j) == trail(b, lo, j),
    decreases j - lo,
{
    assert(a.len() == b.len()) by {
        assert(lower(a).len() == a.len());
    }
    if lo < j {
        assert(lower(a)[j - 1] == lower(b)[j - 1]);
        assert(lower(a)[j - 1] == lower_char(a[j - 1]) && lower(b)[j - 1] == lower_char(b[j - 1]));
        lower_char_classes_proof(a[j - 1], b[j - 1]);
        lemma_case_trail(a, b, lo, j - 1);
    }
}

proof fn lemma_case_trail_dot(a: Seq<char>, b: Seq<char>, j: int)
    requires
        lower(a) == lower(b),
        0 <= j <= a.len(),
    ensures
        trail_char(a, '.', j) == trail_char(b, '.', j),
    decreases j,
{
    assert(a.len() == b.len()) by {
        assert(lower(a).len() == a.len());
    }
    if 0 < j {
        assert(lower(a)[j - 1] == lower(b)[j - 1]);
        assert(lower(a)[j - 1] == lower_char(a[j - 1]) && lower(b)[j - 1] == lower_char(b[j - 1]));
        lower_char_classes_proof(a[j - 1], b[j - 1]);
        lemma_case_trail_dot(a, b, j - 1);
    }
}

proof fn lower_char_classes_proof(x: char, y: char)
    requires
        lower_char(x) == lower_char(y),
    ensures
        is_ws(x) == is_ws(y),
        (x == '.') == (y == '.'),
{
}

proof fn lemma_lower_sub(a: Seq<char>, b: Seq<char>, i: int, j: int)
    requires
        lower(a) == lower(b),
        0 <= i <= j <= a.len(),
    ensures
        lower(a.subrange(i, j)) == lower(b.subrange(i, j)),
{
    assert(a.len() == b.len()) by {
        assert(lower(a).len() == a.len());
    }
    assert(lower(a.subrange(i, j)) =~= lower(a).subrange(i, j));
    assert(lower(b.subrange(i, j)) =~= lower(b).subrange(i, j));
}

/// Law: hosts that differ only in ASCII case normalize to the same name, so
/// allowing one serves the others.
pub proof fn lemma_host_case_insensitive(a: Seq<char>, b: Seq<char>)
    requires
        lower(a) == lower(b),
    ensures
        normalized_host(a) == normalized_host(b),
{
    assert(a.len() == b.len()) by {
        assert(lower(a).len() == a.len());
    }
    let n = a.len() as int;
    lemma_case_lead(a, b, 0);
    let l = lead(a, 0);
    lemma_lead_bounds(a, 0);
    lemma_case_trail(a, b, l, n);
    let e = trail(a, l, n);
    lemma_trail_bounds(a, l, n);
    let ta = trim(a);
    let tb = trim(b);
    lemma_lower_sub(a, b, l, e);
    lemma_case_trail_dot(ta, tb, ta.len() as int);
    lemma_trail_char_bounds(ta, '.', ta.len() as int);
    let k = trail_char(ta, '.', ta.len() as int);
    assert(ta.take(k) =~= ta.subrange(0, k));
    assert(tb.take(k) =~= tb.subrange(0, k));
    lemma_lower_sub(ta, tb, 0, k);
}

/// Law: allowing a host twice leaves the same list as allowing it once.
pub proof fn lemma_allow_idempotent(allowed: Set<Seq<char>>, host: Seq<char>)
    ensures
        after_allow(after_allow(allowed, host), host) == after_allow(allowed, host),
{
    assert(after_allow(after_allow(allowed, host), host) =~= after_allow(allowed, host));
}

/// Law: a host is served right after it is allowed, under any spelling that
/// differs only in ASCII case, when it is a public DNS name.
pub proof fn lemma_allow_then_serve(allowed: Set<Seq<char>>, host: Seq<char>, other: Seq<char>)
    requires
        public_dns_host(normalized_host(host)),
        lower(host) == lower(other),
    ensures
        after_allow(allowed, host).contains(normalized_host(other)),
{
    lemma_host_case_insensitive(host, other);
}

/// Law: whatever was asked, an allowlist only ever holds public DNS names,
/// so the proxy never serves a refused host.
pub proof fn lemma_served_hosts_are_public(list: HostAllowlist, host: Seq<char>)
    requires
        list.wf(),
        list@.contains(normalized_host(host)),
    ensures
        public_dns_host(normalized_host(host)),
{
}

} // verus!
