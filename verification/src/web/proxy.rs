//! Request routing and document rewriting for the `agentero-web` proxy.
//!
//! The viewer frame loads remote pages as `agentero-web://localhost/<host>/<path>`
//! (or `http://agentero-web.localhost/…` on WebView2). Documents get an
//! in-HTML Content-Security-Policy removed, then a `<base>` pointing at the
//! real origin and the selection bridge script injected right after `<head>`
//! opens.
use vstd::prelude::*;
use crate::text::{
    chars_of, contains, eq_str, find, find_from, find_from_exec, find_str, has_prefix_str,
    is_ascii_ws, char_is_ascii_ws, lemma_find_from_sound, lit, lower, match_at, push_all, replace,
    replace_from, replace_str, slice_of, starts_with, string_of, to_lower, contains_str,
};
use crate::web::allowlist::{normalized_host, HostAllowlist};
use vstd::string::StrSliceExecFns;
use vstd::utf8::{decode_utf8, encode_utf8, valid_utf8};

verus! {

/// Marker every bridge → app message carries.
pub const BRIDGE_SOURCE: &'static str = "agentero-web";

/// Selection / shortcut / navigation bridge injected into proxied documents.
///
/// Vanilla ES5 in an IIFE with no namespace leakage. Talks to the app window
/// via `postMessage`; the app validates `event.origin` against the proxy origin.
pub const WEB_BRIDGE: &'static str = r##"<script>
(function () {
  try {
    // Only the top-level proxied document talks to the app. A nested frame on
    // the same proxy origin has a readable parent and stays uninstrumented.
    try {
      if (parent === window) return;
      void parent.location.href;
      return;
    } catch (e) {}
    var post = function (message) {
      message.source = "agentero-web";
      parent.postMessage(message, "*");
    };
    // The upstream host rides in the first path segment of the proxy URL.
    var host = "";
    try {
      host = decodeURIComponent((location.pathname.match(/^\/([^/]+)/) || [])[1] || "") || "";
    } catch (e) {}

    // ---- selection → app toolbar -----------------------------------------
    var MAX_SELECTION_CHARS = 4000;
    var sendSelection = function () {
      var text = "";
      var rect = null;
      var sel = window.getSelection();
      if (sel && sel.rangeCount > 0 && !sel.isCollapsed) {
        text = (sel.toString() || "")
          .replace(/\s+/g, " ")
          .trim()
          .slice(0, MAX_SELECTION_CHARS);
        if (text) {
          var r = sel.getRangeAt(0).getBoundingClientRect();
          if (r.width !== 0 || r.height !== 0) {
            rect = { x: r.left, y: r.top, width: r.width, height: r.height };
          }
        }
      }
      if (text && rect) {
        // Raw copy inside the frame: the app's clipboard write can be refused
        // while focus sits in this cross-origin frame.
        try { document.execCommand("copy"); } catch (e) {}
      }
      post({ type: "selection", text: text, rect: rect, url: location.href });
    };
    var scheduleSelection = function () {
      // Let the browser finish updating the selection first.
      requestAnimationFrame(function () { setTimeout(sendSelection, 0); });
    };
    document.addEventListener("mouseup", scheduleSelection);
    document.addEventListener("keyup", function (event) {
      var key = event.key || "";
      if (key === "Shift" || key.indexOf("Arrow") === 0) scheduleSelection();
    });

    // The app hides its toolbar while the page scrolls (plaza parity).
    var scrollPending = false;
    window.addEventListener("scroll", function () {
      if (scrollPending) return;
      scrollPending = true;
      setTimeout(function () {
        scrollPending = false;
        post({ type: "scroll" });
      }, 150);
    }, true);

    // ---- shortcuts → app handlers -----------------------------------------
    // Keyboard events land in this frame, never in the app window; ⌘K / ⌘L
    // must be carried over explicitly.
    var isEditable = function (el) {
      if (!el || !el.nodeName) return false;
      var name = el.nodeName.toLowerCase();
      return (
        name === "input" ||
        name === "textarea" ||
        name === "select" ||
        el.isContentEditable === true
      );
    };
    document.addEventListener("keydown", function (event) {
      if (event.altKey || !(event.metaKey || event.ctrlKey)) return;
      if (isEditable(event.target)) return;
      var key = (event.key || "").toLowerCase();
      if (key !== "k" && key !== "l") return;
      event.preventDefault();
      post({ type: "shortcut", id: key === "k" ? "quickChat" : "addToChat" });
    }, true);

    // ---- navigation policy --------------------------------------------------
    // Same-site navigations stay inside the proxy so the bridge survives;
    // everything else belongs to the system browser, where the user has a
    // real session.
    document.addEventListener("click", function (event) {
      var anchor =
        event.target && event.target.closest
          ? event.target.closest("a[href]")
          : null;
      if (!anchor) return;
      var raw = anchor.getAttribute("href");
      if (!raw || raw.charAt(0) === "#" || /^javascript:/i.test(raw)) return;
      var url;
      try {
        url = new URL(anchor.href, location.href);
      } catch (e) {
        return;
      }
      if (url.protocol !== "http:" && url.protocol !== "https:") {
        // Never leak our private scheme to the system browser.
        event.preventDefault();
        return;
      }
      event.preventDefault();
      event.stopPropagation();
      if (host && url.hostname === host) {
        location.assign("/" + host + url.pathname + url.search + url.hash);
        return;
      }
      post({ type: "external", url: url.href });
    }, true);

    // SPA routers push site-root paths; keep the host segment in the URL.
    if (host) {
      ["pushState", "replaceState"].forEach(function (name) {
        var original = history[name];
        if (typeof original !== "function") return;
        history[name] = function (state, title, url) {
          if (
            typeof url === "string" &&
            url.charAt(0) === "/" &&
            url.charAt(1) !== "/" &&
            url.indexOf("/" + host + "/") !== 0
          ) {
            arguments[2] = "/" + host + url;
          }
          return original.apply(history, arguments);
        };
      });
    }

    // ---- app → frame --------------------------------------------------------
    window.addEventListener("message", function (event) {
      var data = event.data;
      if (!data || data.source !== "agentero-web-host") return;
      if (data.type === "clearSelection") {
        var sel = window.getSelection();
        if (sel) sel.removeAllRanges();
      } else if (data.type === "copySelection") {
        try { document.execCommand("copy"); } catch (e) {}
      }
    });
  } catch (e) {}
})();
</script>"##;

// ---------------------------------------------------------------------------
// Routing
// ---------------------------------------------------------------------------

/// Where a proxy request goes upstream.
pub struct Target {
    pub host: String,
    /// Path + query; the path always starts with '/'.
    pub path_query: String,
}

/// The upstream `(host, path_query)` for a request URI with this host, path
/// and query. Paths must start with `/` and hold no `..`. On the proxy's own
/// host (`localhost`, `agentero-web.localhost`) the first path segment is the
/// upstream host; any other host is the upstream host itself.
pub open spec fn target_of(host: Seq<char>, path: Seq<char>, query: Option<Seq<char>>) -> Option<
    (Seq<char>, Seq<char>),
> {
    let q = match query {
        Some(q) => seq!['?'] + q,
        None => Seq::<char>::empty(),
    };
    if !starts_with(path, "/"@) || contains(path, ".."@) {
        None
    } else if host == "localhost"@ || host == "agentero-web.localhost"@ {
        let rest = path.drop_first();
        match find(rest, "/"@) {
            None => None,
            Some(i) => if i == 0 {
                None
            } else {
                Some((rest.take(i), seq!['/'] + rest.skip(i + 1) + q))
            },
        }
    } else {
        Some((host, path + q))
    }
}

/// Parse the upstream target from the host, path and query of an
/// `agentero-web` request URI.
pub fn target_from_parts(host: &str, path: &str, query: Option<&str>) -> (r: Option<Target>)
    ensures
        match target_of(
            host@,
            path@,
            match query {
                Some(q) => Some(q@),
                None => None,
            },
        ) {
            Some((h, pq)) => r matches Some(t) && t.host@ == h && t.path_query@ == pq,
            None => r is None,
        },
{
    let p = chars_of(path);
    if !has_prefix_str(p.as_slice(), "/") || contains_str(p.as_slice(), "..") {
        return None;
    }
    let mut q: Vec<char> = Vec::new();
    match query {
        Some(qs) => {
            q.push('?');
            push_all(&mut q, lit(qs).as_slice());
        },
        None => {},
    }
    proof {
        reveal_strlit("/");
    }
    if eq_str(lit(host).as_slice(), "localhost") || eq_str(
        lit(host).as_slice(),
        "agentero-web.localhost",
    ) {
        let n = p.len();
        let rest = slice_of(p.as_slice(), 1, n);
        assert(rest@ =~= p@.drop_first());
        let i = match find_str(rest.as_slice(), "/") {
            Some(i) => i,
            None => {
                return None;
            },
        };
        if i == 0 {
            return None;
        }
        let m = rest.len();
        assert(i + 1 <= m);
        let upstream = slice_of(rest.as_slice(), 0, i);
        let tail = slice_of(rest.as_slice(), i + 1, m);
        assert(upstream@ =~= rest@.take(i as int));
        assert(tail@ =~= rest@.skip(i + 1));
        let mut pq: Vec<char> = Vec::new();
        pq.push('/');
        push_all(&mut pq, tail.as_slice());
        push_all(&mut pq, q.as_slice());
        assert(pq@ =~= seq!['/'] + tail@ + q@);
        Some(Target { host: string_of(upstream.as_slice()), path_query: string_of(pq.as_slice()) })
    } else {
        let mut pq = p;
        push_all(&mut pq, q.as_slice());
        Some(Target { host: string_of(lit(host).as_slice()), path_query: string_of(pq.as_slice()) })
    }
}

// ---------------------------------------------------------------------------
// Document rewriting
// ---------------------------------------------------------------------------

/// Minimal HTML attribute escaping: `&`, `"` and `<` become entities.
pub open spec fn escaped_attr(v: Seq<char>) -> Seq<char> {
    replace(replace(replace(v, "&"@, "&amp;"@), "\""@, "&quot;"@), "<"@, "&lt;"@)
}

/// Escape a value for a double-quoted HTML attribute.
pub fn escape_attr(value: &str) -> (r: String)
    ensures
        r@ == escaped_attr(value@),
{
    proof {
        reveal_strlit("&");
        reveal_strlit("\"");
        reveal_strlit("<");
    }
    let v = chars_of(value);
    let a = replace_str(v.as_slice(), "&", "&amp;");
    let b = replace_str(a.as_slice(), "\"", "&quot;");
    let c = replace_str(b.as_slice(), "<", "&lt;");
    string_of(c.as_slice())
}

/// Position just past the opening `<head …>` tag (found without regard to
/// ASCII case), if the document has one; `<header …>` does not count: the
/// character after `<head` must be whitespace or the tag close.
pub open spec fn head_open(h: Seq<char>) -> Option<int> {
    let l = lower(h);
    match find(l, "<head"@) {
        None => None,
        Some(s) => match find_from(l, ">"@, s) {
            None => None,
            Some(e) => if e <= s + 5 || is_ascii_ws(l[s + 5]) {
                Some(e + 1)
            } else {
                None
            },
        },
    }
}

/// Character offset just past the opening `<head …>` tag, if any.
pub fn find_head_open(html: &str) -> (r: Option<usize>)
    ensures
        match r {
            Some(at) => head_open(html@) == Some(at as int) && at <= html@.len(),
            None => head_open(html@) is None,
        },
{
    let h = chars_of(html);
    let l = to_lower(h.as_slice());
    let start = match find_str(l.as_slice(), "<head") {
        Some(s) => s,
        None => {
            return None;
        },
    };
    let gt = lit(">");
    let e = match find_from_exec(l.as_slice(), gt.as_slice(), start) {
        Some(e) => e,
        None => {
            return None;
        },
    };
    proof {
        reveal_strlit(">");
        reveal_strlit("<head");
    }
    let n = l.len();
    assert(e + 1 <= n);
    assert(start + 5 <= n);
    if e <= start + 5 || char_is_ascii_ws(l[start + 5]) {
        Some(e + 1)
    } else {
        None
    }
}

/// The head injected into a proxied document: the `<base>` then the bridge.
pub open spec fn injected_head(base_url: Seq<char>) -> Seq<char> {
    "<base href=\""@ + escaped_attr(base_url) + "\">"@ + WEB_BRIDGE@
}

/// A proxied document: in-HTML CSP removed, then the `<base>` and bridge
/// right after `<head>` opens, or in front of everything without a `<head>`.
pub open spec fn injected_document(html: Seq<char>, base_url: Seq<char>) -> Seq<char> {
    let s = stripped_csp(html);
    let head = injected_head(base_url);
    match head_open(s) {
        Some(at) => s.take(at) + head + s.skip(at),
        None => head + s,
    }
}

/// Prepare a proxied document: drop any in-HTML CSP, then inject the
/// `<base>` + bridge right after `<head>` opens.
pub fn inject_document(html: &str, base_url: &str) -> (r: String)
    ensures
        r@ == injected_document(html@, base_url@),
{
    let s = strip_meta_csp(html);
    let esc = escape_attr(base_url);
    let mut head = lit("<base href=\"");
    push_all(&mut head, lit(esc.as_str()).as_slice());
    push_all(&mut head, lit("\">").as_slice());
    push_all(&mut head, lit(WEB_BRIDGE).as_slice());
    let sc = chars_of(s.as_str());
    match find_head_open(s.as_str()) {
        Some(at) => {
            let n = sc.len();
            let mut out = slice_of(sc.as_slice(), 0, at);
            push_all(&mut out, head.as_slice());
            push_all(&mut out, slice_of(sc.as_slice(), at, n).as_slice());
            assert(out@ =~= sc@.take(at as int) + head@ + sc@.skip(at as int));
            string_of(out.as_slice())
        },
        None => {
            let mut out = head;
            push_all(&mut out, sc.as_slice());
            string_of(out.as_slice())
        },
    }
}

// ---------------------------------------------------------------------------
// Content-Security-Policy meta tags
// ---------------------------------------------------------------------------

/// First index at or after `at` that is not ASCII whitespace.
pub open spec fn skip_ascii_ws(t: Seq<char>, at: int) -> int
    decreases t.len() - at,
{
    if 0 <= at < t.len() && is_ascii_ws(t[at]) {
        skip_ascii_ws(t, at + 1)
    } else {
        at
    }
}

/// End of an attribute name starting at `at` (whitespace or `=` ends it).
pub open spec fn name_end(t: Seq<char>, at: int) -> int
    decreases t.len() - at,
{
    if 0 <= at < t.len() && !is_ascii_ws(t[at]) && t[at] != '=' {
        name_end(t, at + 1)
    } else {
        at
    }
}

/// Whether `c` ends an attribute value: the quote that opened it, or
/// whitespace or `>` for an unquoted value.
pub open spec fn ends_value(c: char, quote: Option<char>) -> bool {
    match quote {
        Some(q) => c == q,
        None => is_ascii_ws(c) || c == '>',
    }
}

/// End of an attribute value starting at `at`.
pub open spec fn value_end(t: Seq<char>, at: int, quote: Option<char>) -> int
    decreases t.len() - at,
{
    if 0 <= at < t.len() && !ends_value(t[at], quote) {
        value_end(t, at + 1, quote)
    } else {
        at
    }
}

/// Whether some attribute from `at` on is `http-equiv` with the value
/// `content-security-policy`.
pub open spec fn csp_attr_from(t: Seq<char>, at: int) -> bool
    decreases t.len() - at,
{
    if !(0 <= at < t.len()) {
        false
    } else {
        let ns = skip_ascii_ws(t, at);
        let ne = name_end(t, ns);
        let eq_at = skip_ascii_ws(t, ne);
        if eq_at >= t.len() || t[eq_at] != '=' {
            if at < eq_at <= t.len() {
                csp_attr_from(t, eq_at)
            } else {
                false
            }
        } else {
            let vs0 = skip_ascii_ws(t, eq_at + 1);
            let quote = if vs0 < t.len() && (t[vs0] == '"' || t[vs0] == '\'') {
                Some(t[vs0])
            } else {
                None
            };
            let vs = if quote is Some {
                vs0 + 1
            } else {
                vs0
            };
            let ve = value_end(t, vs, quote);
            if t.subrange(ns, ne) == "http-equiv"@ && t.subrange(vs, ve)
                == "content-security-policy"@ {
                true
            } else if at < ve <= t.len() {
                csp_attr_from(t, ve)
            } else {
                false
            }
        }
    }
}

/// Whether a lowercased `<meta …>` tag (including its `>`) sets a CSP: the
/// character after `<meta` must be whitespace, `>` or `/`, and one attribute
/// must be `http-equiv` with value `content-security-policy`.
pub open spec fn meta_csp(t: Seq<char>) -> bool {
    t.len() > 5 && (is_ascii_ws(t[5]) || t[5] == '>' || t[5] == '/') && csp_attr_from(t, 5)
}

fn skip_ws_exec(t: &[char], at: usize) -> (r: usize)
    requires
        at <= t@.len(),
    ensures
        r == skip_ascii_ws(t@, at as int),
        at <= r <= t@.len(),
{
    let mut i = at;
    while i < t.len() && char_is_ascii_ws(t[i])
        invariant
            at <= i <= t@.len(),
            skip_ascii_ws(t@, at as int) == skip_ascii_ws(t@, i as int),
        decreases t.len() - i,
    {
        i += 1;
    }
    i
}

fn name_end_exec(t: &[char], at: usize) -> (r: usize)
    requires
        at <= t@.len(),
    ensures
        r == name_end(t@, at as int),
        at <= r <= t@.len(),
{
    let mut i = at;
    while i < t.len() && !char_is_ascii_ws(t[i]) && t[i] != '='
        invariant
            at <= i <= t@.len(),
            name_end(t@, at as int) == name_end(t@, i as int),
        decreases t.len() - i,
    {
        i += 1;
    }
    i
}

fn value_end_exec(t: &[char], at: usize, quote: Option<char>) -> (r: usize)
    requires
        at <= t@.len(),
    ensures
        r == value_end(t@, at as int, quote),
        at <= r <= t@.len(),
{
    let mut i = at;
    while i < t.len()
        invariant
            at <= i <= t@.len(),
            value_end(t@, at as int, quote) == value_end(t@, i as int, quote),
        decreases t.len() - i,
    {
        let c = t[i];
        let stop = match quote {
            Some(q) => c == q,
            None => char_is_ascii_ws(c) || c == '>',
        };
        if stop {
            return i;
        }
        i += 1;
    }
    i
}

fn meta_csp_chars(t: &[char]) -> (r: bool)
    ensures
        r == meta_csp(t@),
{
    let n = t.len();
    if n <= 5 {
        return false;
    }
    let c = t[5];
    if !(char_is_ascii_ws(c) || c == '>' || c == '/') {
        return false;
    }
    let mut at: usize = 5;
    while at < n
        invariant
            n == t@.len(),
            5 <= at <= n,
            is_ascii_ws(t@[5]) || t@[5] == '>' || t@[5] == '/',
            csp_attr_from(t@, 5) == csp_attr_from(t@, at as int),
        decreases n - at,
    {
        let ns = skip_ws_exec(t, at);
        let ne = name_end_exec(t, ns);
        let eq_at = skip_ws_exec(t, ne);
        if eq_at >= n || t[eq_at] != '=' {
            if at < eq_at {
                at = eq_at;
            } else {
                return false;
            }
        } else {
            let vs0 = skip_ws_exec(t, eq_at + 1);
            let quote = if vs0 < n && (t[vs0] == '"' || t[vs0] == '\'') {
                Some(t[vs0])
            } else {
                None
            };
            let vs = if quote.is_some() {
                vs0 + 1
            } else {
                vs0
            };
            let ve = value_end_exec(t, vs, quote);
            let name = slice_of(t, ns, ne);
            let value = slice_of(t, vs, ve);
            if eq_str(name.as_slice(), "http-equiv") && eq_str(
                value.as_slice(),
                "content-security-policy",
            ) {
                assert(name@ == t@.subrange(ns as int, ne as int));
                assert(value@ == t@.subrange(vs as int, ve as int));
                assert(csp_attr_from(t@, at as int));
                return true;
            }
            if at < ve {
                at = ve;
            } else {
                return false;
            }
        }
    }
    false
}

/// Whether a lowercased `<meta …>` tag (including its `>`) sets a CSP.
pub fn meta_sets_csp(tag: &str) -> (r: bool)
    requires
        starts_with(tag@, "<meta"@),
    ensures
        r == meta_csp(tag@),
{
    let t = chars_of(tag);
    meta_csp_chars(t.as_slice())
}

/// `h[copied..]` with every CSP-setting `<meta …>` tag found from `scan` on
/// removed; `l` is the lowercased document.
pub open spec fn strip_csp_from(h: Seq<char>, l: Seq<char>, scan: int, copied: int) -> Seq<char>
    decreases h.len() - scan,
{
    match find_from(l, "<meta"@, scan) {
        None => h.subrange(copied, h.len() as int),
        Some(start) => match find_from(l, ">"@, start) {
            None => h.subrange(copied, h.len() as int),
            Some(gt) => if 0 <= scan <= start <= gt < h.len() {
                if meta_csp(l.subrange(start, gt + 1)) {
                    h.subrange(copied, start) + strip_csp_from(h, l, gt + 1, gt + 1)
                } else {
                    strip_csp_from(h, l, gt + 1, copied)
                }
            } else {
                h.subrange(copied, h.len() as int)
            },
        },
    }
}

/// The document with every `<meta http-equiv="content-security-policy">`
/// tag deleted; each tag runs from `<meta` to the next `>`.
pub open spec fn stripped_csp(h: Seq<char>) -> Seq<char> {
    strip_csp_from(h, lower(h), 0, 0)
}

/// The `[start, end)` ranges of the CSP-setting `<meta …>` tags that
/// stripping finds in `h` from `scan` on, in document order; `l` is the
/// lowercased document.
pub open spec fn csp_cuts(h: Seq<char>, l: Seq<char>, scan: int) -> Seq<(int, int)>
    decreases h.len() - scan,
{
    match find_from(l, "<meta"@, scan) {
        None => Seq::empty(),
        Some(start) => match find_from(l, ">"@, start) {
            None => Seq::empty(),
            Some(gt) => if 0 <= scan <= start <= gt < h.len() {
                if meta_csp(l.subrange(start, gt + 1)) {
                    seq![(start, gt + 1)] + csp_cuts(h, l, gt + 1)
                } else {
                    csp_cuts(h, l, gt + 1)
                }
            } else {
                Seq::empty()
            },
        },
    }
}

/// `h[from..]` with the ranges `cuts` taken out.
pub open spec fn without_ranges(h: Seq<char>, cuts: Seq<(int, int)>, from: int) -> Seq<char>
    decreases cuts.len(),
{
    if cuts.len() == 0 {
        h.subrange(from, h.len() as int)
    } else {
        h.subrange(from, cuts[0].0) + without_ranges(h, cuts.drop_first(), cuts[0].1)
    }
}

/// Each range of `cuts` is a CSP-setting `<meta …>` tag of the lowercased
/// document `l`, from its `<meta` to its `>`, at or after `lo`; the ranges
/// come in order and do not overlap.
pub open spec fn csp_tag_ranges(l: Seq<char>, cuts: Seq<(int, int)>, lo: int) -> bool {
    &&& forall|k: int|
        #![trigger cuts[k]]
        0 <= k < cuts.len() ==> {
            &&& lo <= cuts[k].0 < cuts[k].1 <= l.len()
            &&& match_at(l, "<meta"@, cuts[k].0)
            &&& l[cuts[k].1 - 1] == '>'
            &&& meta_csp(l.subrange(cuts[k].0, cuts[k].1))
        }
    &&& forall|k: int| #![trigger cuts[k]] 0 <= k < cuts.len() - 1 ==> cuts[k].1 <= cuts[k + 1].0
}

proof fn lemma_strip_csp_cuts(h: Seq<char>, l: Seq<char>, scan: int, copied: int)
    requires
        0 <= copied <= scan,
        l.len() == h.len(),
    ensures
        strip_csp_from(h, l, scan, copied) == without_ranges(h, csp_cuts(h, l, scan), copied),
        csp_tag_ranges(l, csp_cuts(h, l, scan), scan),
    decreases h.len() - scan,
{
    reveal_strlit(">");
    lemma_find_from_sound(l, "<meta"@, scan);
    match find_from(l, "<meta"@, scan) {
        None => {},
        Some(start) => {
            lemma_find_from_sound(l, ">"@, start);
            match find_from(l, ">"@, start) {
                None => {},
                Some(gt) => {
                    if 0 <= scan <= start <= gt < h.len() {
                        let rest = csp_cuts(h, l, gt + 1);
                        assert(l.subrange(gt, gt + 1) == ">"@);
                        assert(l[gt] == l.subrange(gt, gt + 1)[0]);
                        if meta_csp(l.subrange(start, gt + 1)) {
                            lemma_strip_csp_cuts(h, l, gt + 1, gt + 1);
                            let cuts = seq![(start, gt + 1)] + rest;
                            assert(cuts.drop_first() =~= rest);
                            assert(cuts[0] == (start, gt + 1));
                            assert forall|k: int| #![trigger cuts[k]] 0 <= k < cuts.len() - 1 implies cuts[k].1
                                <= cuts[k + 1].0 by {
                                if k > 0 {
                                    assert(cuts[k] == rest[k - 1]);
                                    assert(cuts[k + 1] == rest[k]);
                                } else {
                                    assert(cuts[1] == rest[0]);
                                }
                            }
                            assert forall|k: int| #![trigger cuts[k]] 0 <= k < cuts.len() implies {
                                &&& scan <= cuts[k].0 < cuts[k].1 <= l.len()
                                &&& match_at(l, "<meta"@, cuts[k].0)
                                &&& l[cuts[k].1 - 1] == '>'
                                &&& meta_csp(l.subrange(cuts[k].0, cuts[k].1))
                            } by {
                                if k > 0 {
                                    assert(cuts[k] == rest[k - 1]);
                                }
                            }
                        } else {
                            lemma_strip_csp_cuts(h, l, gt + 1, copied);
                        }
                    }
                },
            }
        },
    }
}

/// Law: stripping keeps every character of the document outside the removed
/// tags, in order. Each removed range is a `<meta …>` tag (found without
/// regard to ASCII case, running to its first `>`) that sets a
/// Content-Security-Policy, and the ranges come in order without overlap.
pub proof fn lemma_stripped_csp_removes_only_csp_tags(h: Seq<char>)
    ensures
        stripped_csp(h) == without_ranges(h, csp_cuts(h, lower(h), 0), 0),
        csp_tag_ranges(lower(h), csp_cuts(h, lower(h), 0), 0),
{
    lemma_strip_csp_cuts(h, lower(h), 0, 0);
}

/// Delete every `<meta http-equiv="content-security-policy">` tag.
pub fn strip_meta_csp(html: &str) -> (r: String)
    ensures
        r@ == stripped_csp(html@),
{
    let h = chars_of(html);
    let l = to_lower(h.as_slice());
    let n = h.len();
    let meta = lit("<meta");
    let gt_pat = lit(">");
    let mut out: Vec<char> = Vec::new();
    let mut copied: usize = 0;
    let mut scan: usize = 0;
    loop
        invariant
            n == h@.len(),
            l@ == lower(h@),
            meta@ == "<meta"@,
            gt_pat@ == ">"@,
            copied <= scan <= n,
            out@ + strip_csp_from(h@, l@, scan as int, copied as int) == stripped_csp(html@),
            h@ == html@,
        decreases n - scan,
    {
        assert(l@.len() == n);
        let start = match find_from_exec(l.as_slice(), meta.as_slice(), scan) {
            Some(s) => s,
            None => {
                let tail = slice_of(h.as_slice(), copied, n);
                push_all(&mut out, tail.as_slice());
                return string_of(out.as_slice());
            },
        };
        let gt = match find_from_exec(l.as_slice(), gt_pat.as_slice(), start) {
            Some(g) => g,
            None => {
                let tail = slice_of(h.as_slice(), copied, n);
                push_all(&mut out, tail.as_slice());
                return string_of(out.as_slice());
            },
        };
        proof {
            lemma_find_from_sound(l@, meta@, scan as int);
            lemma_find_from_sound(l@, gt_pat@, start as int);
            reveal_strlit(">");
        }
        let end = gt + 1;
        let tag = slice_of(l.as_slice(), start, end);
        if meta_csp_chars(tag.as_slice()) {
            let kept = slice_of(h.as_slice(), copied, start);
            let ghost before = out@;
            push_all(&mut out, kept.as_slice());
            assert(before + strip_csp_from(h@, l@, scan as int, copied as int) == out@
                + strip_csp_from(h@, l@, end as int, end as int));
            copied = end;
        }
        scan = end;
    }
}

/// The `<base>` for a page served from `final_url`: the URL minus its query.
pub open spec fn base_url(u: Seq<char>) -> Seq<char> {
    match find(u, "?"@) {
        Some(i) => u.take(i),
        None => u,
    }
}

/// The document URL minus its query, so relative links resolve as siblings.
pub fn base_url_for(final_url: &str) -> (r: String)
    ensures
        r@ == base_url(final_url@),
{
    let u = chars_of(final_url);
    match find_str(u.as_slice(), "?") {
        Some(i) => {
            let p = slice_of(u.as_slice(), 0, i);
            assert(p@ =~= u@.take(i as int));
            string_of(p.as_slice())
        },
        None => string_of(u.as_slice()),
    }
}

/// No character of `s` is `c`.
pub open spec fn lacks(s: Seq<char>, c: char) -> bool {
    forall|k: int| 0 <= k < s.len() ==> #[trigger] s[k] != c
}

proof fn lemma_replace_drops(s: Seq<char>, c: char, t: Seq<char>, i: int)
    requires
        lacks(t, c),
        0 <= i,
    ensures
        lacks(replace_from(s, seq![c], t, i), c),
    decreases s.len() - i,
{
    let f = seq![c];
    if i >= s.len() {
    } else if match_at(s, f, i) {
        lemma_replace_drops(s, c, t, i + 1);
        let r = replace_from(s, f, t, i + 1);
        assert forall|k: int| 0 <= k < (t + r).len() implies #[trigger] (t + r)[k] != c by {
            if k >= t.len() {
                assert((t + r)[k] == r[k - t.len()]);
            }
        }
    } else {
        assert(s[i] != c) by {
            if s[i] == c {
                assert(s.subrange(i, i + 1) =~= f);
            }
        }
        lemma_replace_drops(s, c, t, i + 1);
        let r = replace_from(s, f, t, i + 1);
        assert forall|k: int| 0 <= k < (seq![s[i]] + r).len() implies #[trigger] (seq![s[i]]
            + r)[k] != c by {
            if k >= 1 {
                assert((seq![s[i]] + r)[k] == r[k - 1]);
            }
        }
    }
}

proof fn lemma_replace_keeps_absent(s: Seq<char>, f: Seq<char>, t: Seq<char>, x: char, i: int)
    requires
        lacks(s, x),
        lacks(t, x),
        0 <= i,
    ensures
        lacks(replace_from(s, f, t, i), x),
    decreases s.len() - i,
{
    if f.len() == 0 || i >= s.len() {
        let r = replace_from(s, f, t, i);
        assert forall|k: int| 0 <= k < r.len() implies #[trigger] r[k] != x by {
            assert(r[k] == s[i + k]);
        }
    } else if match_at(s, f, i) {
        lemma_replace_keeps_absent(s, f, t, x, i + f.len());
        let r = replace_from(s, f, t, i + f.len());
        assert forall|k: int| 0 <= k < (t + r).len() implies #[trigger] (t + r)[k] != x by {
            if k >= t.len() {
                assert((t + r)[k] == r[k - t.len()]);
            }
        }
    } else {
        lemma_replace_keeps_absent(s, f, t, x, i + 1);
        let r = replace_from(s, f, t, i + 1);
        assert forall|k: int| 0 <= k < (seq![s[i]] + r).len() implies #[trigger] (seq![s[i]]
            + r)[k] != x by {
            if k >= 1 {
                assert((seq![s[i]] + r)[k] == r[k - 1]);
            }
        }
    }
}

/// Law: an escaped attribute value holds no `"` and no `<`, so a base URL
/// can neither close the `href` attribute nor open a tag.
pub proof fn lemma_escaped_attr_is_inert(v: Seq<char>)
    ensures
        lacks(escaped_attr(v), '"'),
        lacks(escaped_attr(v), '<'),
{
    reveal_strlit("&");
    reveal_strlit("\"");
    reveal_strlit("<");
    reveal_strlit("&quot;");
    reveal_strlit("&lt;");
    let r1 = replace(v, "&"@, "&amp;"@);
    let r2 = replace(r1, "\""@, "&quot;"@);
    assert("\""@ =~= seq!['"']);
    assert("<"@ =~= seq!['<']);
    lemma_replace_drops(r1, '"', "&quot;"@, 0);
    lemma_replace_drops(r2, '<', "&lt;"@, 0);
    lemma_replace_keeps_absent(r2, "<"@, "&lt;"@, '"', 0);
}

/// The upstream URL of a target: always HTTPS.
pub fn upstream_url(target: &Target) -> (r: String)
    ensures
        r@ == "https://"@ + target.host@ + target.path_query@,
{
    let mut out = lit("https://");
    push_all(&mut out, chars_of(target.host.as_str()).as_slice());
    push_all(&mut out, chars_of(target.path_query.as_str()).as_slice());
    string_of(out.as_slice())
}

/// The body of the refusal sent for a host that is not allowed.
pub fn not_allowed_message(host: &str) -> (r: String)
    ensures
        r@ == "agentero-web: "@ + host@ + " is not allowed here"@,
{
    let mut out = lit("agentero-web: ");
    push_all(&mut out, chars_of(host).as_slice());
    push_all(&mut out, lit(" is not allowed here").as_slice());
    string_of(out.as_slice())
}

/// Whether a response's content type is HTML (its document gets rewritten).
pub fn is_html(content_type: &str) -> (r: bool)
    ensures
        r == starts_with(content_type@, "text/html"@),
{
    has_prefix_str(chars_of(content_type).as_slice(), "text/html")
}

/// Law: a document without any `<meta` tag (in any ASCII case) comes
/// through CSP stripping unchanged.
pub proof fn lemma_strip_csp_keeps_meta_free_document(h: Seq<char>)
    requires
        !contains(lower(h), "<meta"@),
    ensures
        stripped_csp(h) == h,
{
    assert(h.subrange(0, h.len() as int) =~= h);
}


// ---------------------------------------------------------------------------
// Answering a request
// ---------------------------------------------------------------------------

/// Why a proxy request is answered without going upstream.
pub struct Refusal {
    pub status: u16,
    pub body: String,
}

/// The body of the refusal sent for a request URI that names no target.
pub open spec fn malformed_body() -> Seq<char> {
    "agentero-web: malformed request"@
}

/// The upstream URL of a request, or how it is refused: a request without a
/// target is malformed (400), one whose host is not on the allowlist is
/// forbidden (403) and never fetched.
pub open spec fn routed(
    allowed: Set<Seq<char>>,
    host: Option<Seq<char>>,
    path: Seq<char>,
    query: Option<Seq<char>>,
) -> Result<Seq<char>, (u16, Seq<char>)> {
    match host {
        None => Err((400u16, malformed_body())),
        Some(h) => match target_of(h, path, query) {
            None => Err((400u16, malformed_body())),
            Some((th, pq)) => if !allowed.contains(normalized_host(th)) {
                Err((403u16, "agentero-web: "@ + th + " is not allowed here"@))
            } else {
                Ok("https://"@ + th + pq)
            },
        },
    }
}

/// Route a request URI's host, path and query: the HTTPS URL to fetch, or
/// the refusal to answer with.
pub fn route_request(list: &HostAllowlist, host: Option<&str>, path: &str, query: Option<&str>) -> (r:
    Result<String, Refusal>)
    requires
        list.wf(),
    ensures
        match (
            r,
            routed(
                list@,
                match host {
                    Some(h) => Some(h@),
                    None => None,
                },
                path@,
                match query {
                    Some(q) => Some(q@),
                    None => None,
                },
            ),
        ) {
            (Ok(url), Ok(u)) => url@ == u,
            (Err(refusal), Err((status, body))) => refusal.status == status && refusal.body@ == body,
            _ => false,
        },
{
    let h = match host {
        Some(h) => h,
        None => {
            return Err(Refusal { status: 400, body: string_of(lit("agentero-web: malformed request").as_slice()) });
        },
    };
    let target = match target_from_parts(h, path, query) {
        Some(t) => t,
        None => {
            return Err(Refusal { status: 400, body: string_of(lit("agentero-web: malformed request").as_slice()) });
        },
    };
    if !list.is_allowed(target.host.as_str()) {
        return Err(Refusal { status: 403, body: not_allowed_message(target.host.as_str()) });
    }
    Ok(upstream_url(&target))
}

/// Law: the proxy is never an open relay. A request it forwards names a
/// target whose host is on the allowlist, and what it fetches is that host
/// over HTTPS; a request for any other host is answered 403 (or 400 when it
/// names no target) and never fetched.
pub proof fn lemma_forwards_only_allowed_hosts(
    allowed: Set<Seq<char>>,
    host: Option<Seq<char>>,
    path: Seq<char>,
    query: Option<Seq<char>>,
)
    ensures
        match host {
            Some(h) => match target_of(h, path, query) {
                Some((th, pq)) => if allowed.contains(normalized_host(th)) {
                    routed(allowed, host, path, query) == Ok::<Seq<char>, (u16, Seq<char>)>(
                        "https://"@ + th + pq,
                    )
                } else {
                    routed(allowed, host, path, query) matches Err((status, _)) && status == 403
                },
                None => routed(allowed, host, path, query) matches Err((status, _)) && status
                    == 400,
            },
            None => routed(allowed, host, path, query) matches Err((status, _)) && status == 400,
        },
{
}

/// `std::str::from_utf8(bytes)`: the text that `bytes` encode when they are
/// valid UTF-8, and nothing when they are not.
#[verifier::external_body]
fn utf8_text(bytes: &[u8]) -> (r: Option<&str>)
    ensures
        r is Some == valid_utf8(bytes@),
        r matches Some(t) ==> t@ == decode_utf8(bytes@),
{
    std::str::from_utf8(bytes).ok()
}

/// The body sent back for an upstream response: an HTML document in valid
/// UTF-8 gets its CSP stripped and the base and bridge injected, encoded
/// back to UTF-8; everything else passes through untouched.
pub open spec fn rewritten_body(
    content_type: Seq<char>,
    is_document: bool,
    final_url: Seq<char>,
    body: Seq<u8>,
) -> Seq<u8> {
    if starts_with(content_type, "text/html"@) && is_document && valid_utf8(body) {
        encode_utf8(injected_document(decode_utf8(body), base_url(final_url)))
    } else {
        body
    }
}

/// Rewrite an upstream response body; `is_document` says whether it is a
/// whole page (an XHR fragment goes through as it is).
pub fn rewrite_body(content_type: &str, is_document: bool, final_url: &str, body: Vec<u8>) -> (r: Vec<u8>)
    ensures
        r@ == rewritten_body(content_type@, is_document, final_url@, body@),
{
    if !is_html(content_type) || !is_document {
        return body;
    }
    match utf8_text(body.as_slice()) {
        Some(text) => {
            let page = inject_document(text, base_url_for(final_url).as_str());
            page.as_str().as_bytes_vec()
        },
        None => body,
    }
}

/// What the proxy got back from upstream.
pub struct UpstreamReply {
    pub status: u16,
    /// The `Content-Type` header, when present and text.
    pub content_type: Option<String>,
    /// The URL after any redirects.
    pub final_url: String,
    pub body: Vec<u8>,
}

/// What the proxy answers the frame with.
pub struct ProxyResponse {
    pub status: u16,
    pub content_type: String,
    pub body: Vec<u8>,
}

/// The status passed on for an upstream status: itself when it is a valid
/// HTTP status (100 through 999), else 502.
pub open spec fn passed_status(s: u16) -> u16 {
    if 100 <= s && s <= 999 {
        s
    } else {
        502
    }
}

/// The content type passed on: the upstream one, else
/// `application/octet-stream`.
pub open spec fn passed_content_type(ct: Option<Seq<char>>) -> Seq<char> {
    match ct {
        Some(c) => c,
        None => "application/octet-stream"@,
    }
}

/// The answer to a fetched request: 502 with `agentero-web: upstream
/// unavailable` when the fetch failed; otherwise the upstream status and
/// content type, with the body rewritten as [`rewrite_body`] does.
pub fn upstream_response<E>(reply: Result<UpstreamReply, E>, is_document: bool) -> (r: ProxyResponse)
    ensures
        match reply {
            Err(_) => r.status == 502 && r.content_type@ == "text/plain"@ && r.body@
                == encode_utf8("agentero-web: upstream unavailable"@),
            Ok(u) => {
                let ct = passed_content_type(
                    match u.content_type {
                        Some(c) => Some(c@),
                        None => None,
                    },
                );
                &&& r.status == passed_status(u.status)
                &&& r.content_type@ == ct
                &&& r.body@ == rewritten_body(ct, is_document, u.final_url@, u.body@)
            },
        },
{
    match reply {
        Err(_) => ProxyResponse {
            status: 502,
            content_type: string_of(lit("text/plain").as_slice()),
            body: "agentero-web: upstream unavailable".as_bytes_vec(),
        },
        Ok(u) => {
            let status: u16 = if 100 <= u.status && u.status <= 999 {
                u.status
            } else {
                502
            };
            let content_type = match u.content_type {
                Some(c) => c,
                None => string_of(lit("application/octet-stream").as_slice()),
            };
            let body = rewrite_body(content_type.as_str(), is_document, u.final_url.as_str(), u.body);
            ProxyResponse { status, content_type, body }
        },
    }
}

/// The answer to a refused request: its status, as plain text.
pub fn refusal_response(refusal: Refusal) -> (r: ProxyResponse)
    ensures
        r.status == refusal.status,
        r.content_type@ == "text/plain"@,
        r.body@ == encode_utf8(refusal.body@),
{
    ProxyResponse {
        status: refusal.status,
        content_type: string_of(lit("text/plain").as_slice()),
        body: refusal.body.as_str().as_bytes_vec(),
    }
}

} // verus!
