//! From a classified citation fragment and the paper's layout data to the
//! place the PDF viewer jumps to.
use vstd::prelude::*;
use crate::citation::resolve::{
    first_item, first_numbered_item, likely_region_id, resolve_section_index, section_choice,
    LayoutIndexItem, LayoutRegion,
};
use crate::citation::source::{
    kind_of_key, parse_citation_number, resolve_page, CitationError, FragmentKind,
};
use crate::text::{
    chars_of, contains, contains_str, dec, eq, eq_str, lemma_split_acc_nonempty, lit,
    parse_unsigned, split, split_exec, string_of, string_views, views,
};

verus! {

/// Where the highlighted box of a resolved citation comes from.
#[derive(Debug, Clone, Copy, PartialEq, Eq, Structural)]
pub enum BboxSource {
    /// The whole page.
    WholePage,
    /// The box of this region of the raw layout.
    Region(usize),
    /// The box of this sidebar entry.
    Item(usize),
}

/// Where a citation fragment points: 0-based page, title, region id and box.
pub struct ResolvedFragment {
    pub page_index: u32,
    pub title: Option<String>,
    pub region_id: String,
    pub bbox: BboxSource,
}

/// What a resolved fragment is made of.
pub open spec fn fragment_view(f: ResolvedFragment) -> (u32, Option<Seq<char>>, Seq<char>, BboxSource) {
    (f.page_index, f.title.deep_view(), f.region_id@, f.bbox)
}

/// The fragment a raw layout region gives: its page, title (else text) and id.
pub open spec fn region_fragment(r: LayoutRegion, i: int) -> (u32, Option<Seq<char>>, Seq<char>, BboxSource) {
    (
        r.page_index,
        match r.title {
            Some(t) => Some(t@),
            None => r.text.deep_view(),
        },
        r.id@,
        BboxSource::Region(i as usize),
    )
}

/// The fragment a sidebar entry gives: its page, title and layout region id.
pub open spec fn item_fragment(item: LayoutIndexItem, i: int) -> (u32, Option<Seq<char>>, Seq<char>, BboxSource) {
    (item.page_index, item.title.deep_view(), item.layout_region_id@, BboxSource::Item(i as usize))
}

fn copy_string(s: &String) -> (r: String)
    ensures
        r@ == s@,
{
    string_of(chars_of(s.as_str()).as_slice())
}

fn copy_opt(s: &Option<String>) -> (r: Option<String>)
    ensures
        r.deep_view() == s.deep_view(),
{
    match s {
        Some(x) => Some(copy_string(x)),
        None => None,
    }
}

fn from_region(regions: &Vec<LayoutRegion>, i: usize) -> (r: ResolvedFragment)
    requires
        i < regions@.len(),
    ensures
        fragment_view(r) == region_fragment(regions@[i as int], i as int),
{
    let region = &regions[i];
    let title = match &region.title {
        Some(t) => Some(copy_string(t)),
        None => copy_opt(&region.text),
    };
    ResolvedFragment {
        page_index: region.page_index,
        title,
        region_id: copy_string(&region.id),
        bbox: BboxSource::Region(i),
    }
}

fn from_item(items: &Vec<LayoutIndexItem>, i: usize) -> (r: ResolvedFragment)
    requires
        i < items@.len(),
    ensures
        fragment_view(r) == item_fragment(items@[i as int], i as int),
{
    let item = &items[i];
    ResolvedFragment {
        page_index: item.page_index,
        title: copy_opt(&item.title),
        region_id: copy_string(&item.layout_region_id),
        bbox: BboxSource::Item(i),
    }
}

/// Resolve `#section=<heading>` against the raw layout regions.
pub fn resolve_section(regions: &Vec<LayoutRegion>, heading: &str) -> (r: Result<ResolvedFragment, CitationError>)
    ensures
        match section_choice(regions@, heading@) {
            Some(i) => r matches Ok(f) && fragment_view(f) == region_fragment(regions@[i], i),
            None => r matches Err(CitationError::SectionNotFound { heading: h }) && h@ == heading@,
        },
{
    match resolve_section_index(regions, heading) {
        Some(i) => {
            proof {
                crate::citation::resolve::lemma_section_choice_bounds(regions@, heading@);
            }
            Ok(from_region(regions, i))
        },
        None => Err(CitationError::SectionNotFound { heading: string_of(chars_of(heading).as_slice()) }),
    }
}

/// First sidebar entry with the given id.
pub open spec fn item_with_id(items: Seq<LayoutIndexItem>, id: Seq<char>, i: int) -> Option<int>
    decreases items.len() - i,
{
    if i < 0 || i >= items.len() {
        None
    } else if items[i].id@ == id {
        Some(i)
    } else {
        item_with_id(items, id, i + 1)
    }
}

/// Index of the first sidebar entry with id `id`.
pub fn find_item_by_id(items: &Vec<LayoutIndexItem>, id: &str) -> (r: Option<usize>)
    ensures
        match r {
            Some(i) => item_with_id(items@, id@, 0) == Some(i as int) && i < items@.len(),
            None => item_with_id(items@, id@, 0) is None,
        },
{
    let want = chars_of(id);
    let mut i: usize = 0;
    while i < items.len()
        invariant
            i <= items@.len(),
            want@ == id@,
            item_with_id(items@, id@, 0) == item_with_id(items@, id@, i as int),
        decreases items.len() - i,
    {
        if eq(chars_of(items[i].id.as_str()).as_slice(), want.as_slice()) {
            return Some(i);
        }
        i += 1;
    }
    None
}

/// Which sidebar entry a numbered citation (`figure=3`) resolves to: the
/// entry with id `<section>-<n>` when there is one, else the first entry
/// that is numbered `n` in that section.
pub open spec fn numbered_choice(items: Seq<LayoutIndexItem>, section: Seq<char>, n: nat) -> Option<int> {
    match item_with_id(items, section + "-"@ + dec(n), 0) {
        Some(i) => Some(i),
        None => first_item(items, section, n, 0),
    }
}

proof fn lemma_item_with_id_bounds(items: Seq<LayoutIndexItem>, id: Seq<char>, i: int)
    ensures
        item_with_id(items, id, i) matches Some(k) ==> 0 <= k < items.len(),
    decreases items.len() - i,
{
    if 0 <= i < items.len() && items[i].id@ != id {
        lemma_item_with_id_bounds(items, id, i + 1);
    }
}

proof fn lemma_first_item_bounds(items: Seq<LayoutIndexItem>, section: Seq<char>, n: nat, i: int)
    ensures
        first_item(items, section, n, i) matches Some(k) ==> 0 <= k < items.len(),
    decreases items.len() - i,
{
    if 0 <= i < items.len() && !crate::citation::resolve::item_matches(items[i], section, n) {
        lemma_first_item_bounds(items, section, n, i + 1);
    }
}

/// Resolve a numbered citation (`figure` / `table` / `algorithm` / `formula`)
/// against the sidebar entries.
pub fn resolve_numbered(items: &Vec<LayoutIndexItem>, section: &str, number: &str) -> (r: Result<ResolvedFragment, CitationError>)
    ensures
        match parse_unsigned(number@, usize::MAX as int) {
            None => r matches Err(CitationError::BadNumber { section: s, number: m }) && s@ == section@ && m@ == number@,
            Some(n) => match numbered_choice(items@, section@, n as nat) {
                Some(i) => r matches Ok(f) && fragment_view(f) == item_fragment(items@[i], i),
                None => r matches Err(CitationError::RegionNotFound { what: w }) && w@ == section@ + " "@ + dec(n as nat),
            },
        },
{
    let n = match parse_citation_number(section, number) {
        Ok(n) => n,
        Err(e) => {
            return Err(e);
        },
    };
    let likely = likely_region_id(section, n);
    proof {
        crate::text::lemma_parse_unsigned_range(number@, usize::MAX as int);
        lemma_item_with_id_bounds(items@, likely@, 0);
        lemma_first_item_bounds(items@, section@, n as nat, 0);
    }
    match find_item_by_id(items, likely.as_str()) {
        Some(i) => Ok(from_item(items, i)),
        None => match first_numbered_item(items, section, n) {
            Some(i) => Ok(from_item(items, i)),
            None => {
                let mut what = chars_of(section);
                crate::text::push_all(&mut what, lit(" ").as_slice());
                crate::text::push_all(&mut what, crate::text::dec_exec(n as u64).as_slice());
                Err(CitationError::RegionNotFound { what: string_of(what.as_slice()) })
            },
        },
    }
}

/// Resolve `#region=<id>` to the sidebar entry with that id.
pub fn resolve_region(items: &Vec<LayoutIndexItem>, region_id: &str) -> (r: Result<ResolvedFragment, CitationError>)
    ensures
        match item_with_id(items@, region_id@, 0) {
            Some(i) => r matches Ok(f) && fragment_view(f) == item_fragment(items@[i], i),
            None => r matches Err(CitationError::RegionNotFound { what: w }) && w@ == region_id@,
        },
{
    proof {
        lemma_item_with_id_bounds(items@, region_id@, 0);
    }
    match find_item_by_id(items, region_id) {
        Some(i) => Ok(from_item(items, i)),
        None => Err(CitationError::RegionNotFound { what: string_of(chars_of(region_id).as_slice()) }),
    }
}

/// Resolve `#page=<n>` (1-based) to the whole page.
pub fn resolve_page_fragment(value: &str) -> (r: Result<ResolvedFragment, CitationError>)
    ensures
        match parse_unsigned(value@, 0xFFFF_FFFF) {
            None => r matches Err(CitationError::BadPage { value: v }) && v@ == value@,
            Some(p) => if p == 0 {
                r matches Err(CitationError::PageZero)
            } else {
                r matches Ok(f) && fragment_view(f) == (
                    (p - 1) as u32,
                    Some("Page "@ + dec(p as nat)),
                    "page-"@ + dec(p as nat),
                    BboxSource::WholePage,
                )
            },
        },
{
    proof {
        crate::text::lemma_parse_unsigned_range(value@, 0xFFFF_FFFF);
    }
    match resolve_page(value) {
        Ok(t) => Ok(ResolvedFragment { page_index: t.page_index, title: Some(t.title), region_id: t.region_id, bbox: BboxSource::WholePage }),
        Err(e) => Err(e),
    }
}

/// Which layout file a fragment kind is resolved against.
#[derive(Debug, Clone, Copy, PartialEq, Eq, Structural)]
pub enum LayoutNeed {
    /// The raw layout regions (`source/layout.json`).
    Regions,
    /// The sidebar index (`source/layout-index.json`).
    Items,
    /// Nothing: pages resolve from the number alone.
    Nothing,
}

/// Sections need the raw layout, pages nothing, everything else the index.
pub open spec fn need_of(kind: FragmentKind) -> LayoutNeed {
    match kind {
        FragmentKind::Section => LayoutNeed::Regions,
        FragmentKind::Page => LayoutNeed::Nothing,
        _ => LayoutNeed::Items,
    }
}

/// Which layout data resolving a fragment of `kind` reads.
pub fn layout_needed(kind: FragmentKind) -> (r: LayoutNeed)
    ensures
        r == need_of(kind),
{
    match kind {
        FragmentKind::Section => LayoutNeed::Regions,
        FragmentKind::Page => LayoutNeed::Nothing,
        _ => LayoutNeed::Items,
    }
}

/// The fragment key a numbered kind is cited with.
pub open spec fn numbered_key(kind: FragmentKind) -> Seq<char> {
    match kind {
        FragmentKind::Figure => "figure"@,
        FragmentKind::Table => "table"@,
        FragmentKind::Algorithm => "algorithm"@,
        _ => "formula"@,
    }
}

/// Resolve a classified fragment against the layout data its kind needs
/// (`regions` for sections, `items` for figures, tables, algorithms,
/// formulas and regions; pages need neither).
pub fn resolve_classified(
    kind: FragmentKind,
    value: &str,
    regions: &Vec<LayoutRegion>,
    items: &Vec<LayoutIndexItem>,
) -> (r: Result<ResolvedFragment, CitationError>)
    ensures
        match kind {
            FragmentKind::Section => match section_choice(regions@, value@) {
                Some(i) => r matches Ok(f) && fragment_view(f) == region_fragment(regions@[i], i),
                None => r matches Err(CitationError::SectionNotFound { heading: h }) && h@ == value@,
            },
            FragmentKind::Region => match item_with_id(items@, value@, 0) {
                Some(i) => r matches Ok(f) && fragment_view(f) == item_fragment(items@[i], i),
                None => r matches Err(CitationError::RegionNotFound { what: w }) && w@ == value@,
            },
            FragmentKind::Page => match parse_unsigned(value@, 0xFFFF_FFFF) {
                None => r matches Err(CitationError::BadPage { value: v }) && v@ == value@,
                Some(p) => if p == 0 {
                    r matches Err(CitationError::PageZero)
                } else {
                    r matches Ok(f) && fragment_view(f) == (
                        (p - 1) as u32,
                        Some("Page "@ + dec(p as nat)),
                        "page-"@ + dec(p as nat),
                        BboxSource::WholePage,
                    )
                },
            },
            _ => match parse_unsigned(value@, usize::MAX as int) {
                None => r matches Err(CitationError::BadNumber { section: s, number: m }) && s@ == numbered_key(kind) && m@ == value@,
                Some(n) => match numbered_choice(items@, numbered_key(kind), n as nat) {
                    Some(i) => r matches Ok(f) && fragment_view(f) == item_fragment(items@[i], i),
                    None => r matches Err(CitationError::RegionNotFound { what: w }) && w@ == numbered_key(kind) + " "@ + dec(n as nat),
                },
            },
        },
{
    match kind {
        FragmentKind::Section => resolve_section(regions, value),
        FragmentKind::Region => resolve_region(items, value),
        FragmentKind::Page => resolve_page_fragment(value),
        FragmentKind::Figure => resolve_numbered(items, "figure", value),
        FragmentKind::Table => resolve_numbered(items, "table", value),
        FragmentKind::Algorithm => resolve_numbered(items, "algorithm", value),
        FragmentKind::Formula => resolve_numbered(items, "formula", value),
    }
}

/// Where a citation link points, for the PDF viewer.
pub struct CitationTarget {
    /// Vault-relative paper folder path (`papers/<id>`).
    pub paper_path: String,
    /// Vault-relative path from the citation link.
    pub path: String,
    /// Raw fragment (e.g. `figure=1`).
    pub fragment: String,
    /// 0-based page index for the PDF viewer.
    pub page_index: u32,
    /// Human-readable title when available.
    pub title: Option<String>,
    /// Region id suitable for the PDF highlight registry.
    pub region_id: String,
    /// Where the box to scroll to and highlight comes from.
    pub bbox: BboxSource,
}

/// The target of a citation whose fragment resolved.
pub fn citation_target(paper_path: String, path: String, fragment: String, resolved: ResolvedFragment) -> (r: CitationTarget)
    ensures
        r.paper_path@ == paper_path@,
        r.path@ == path@,
        r.fragment@ == fragment@,
        (r.page_index, r.title.deep_view(), r.region_id@, r.bbox) == fragment_view(resolved),
{
    CitationTarget {
        paper_path,
        path,
        fragment,
        page_index: resolved.page_index,
        title: resolved.title,
        region_id: resolved.region_id,
        bbox: resolved.bbox,
    }
}

/// Vault-relative paths use `/` whatever the platform's separator.
pub open spec fn forward_slashes(s: Seq<char>) -> Seq<char> {
    s.map_values(|c: char| if c == '\\' { '/' } else { c })
}

/// Replace every `\` of a relative path with `/`.
pub fn to_forward_slashes(path: &str) -> (r: String)
    ensures
        r@ == forward_slashes(path@),
{
    let c = chars_of(path);
    let mut out: Vec<char> = Vec::new();
    let mut i: usize = 0;
    while i < c.len()
        invariant
            i <= c@.len(),
            out@ =~= forward_slashes(c@.take(i as int)),
        decreases c.len() - i,
    {
        out.push(if c[i] == '\\' { '/' } else { c[i] });
        assert(forward_slashes(c@.take(i + 1)) =~= forward_slashes(c@.take(i as int)).push(
            if c@[i as int] == '\\' { '/' } else { c@[i as int] },
        ));
        i += 1;
    }
    assert(c@.take(c@.len() as int) =~= c@);
    string_of(out.as_slice())
}


// ---------------------------------------------------------------------------
// Vault-relative paths
// ---------------------------------------------------------------------------

/// A path component that names a file or folder: not empty and not `.`.
pub open spec fn named_part(p: Seq<char>) -> bool {
    p.len() > 0 && p != "."@
}

/// The named components of `parts`, in order.
pub open spec fn named_parts(parts: Seq<Seq<char>>) -> Seq<Seq<char>>
    decreases parts.len(),
{
    if parts.len() == 0 {
        Seq::empty()
    } else {
        let rest = named_parts(parts.drop_last());
        if named_part(parts.last()) {
            rest.push(parts.last())
        } else {
            rest
        }
    }
}

/// The components of a citation path inside the vault. Separators are `/`
/// (and `\` on Windows); empty and `.` components are dropped. There are
/// none when the path is absolute (starts with a separator), climbs out with
/// `..`, starts with a Windows drive, or names nothing.
pub open spec fn vault_parts(path: Seq<char>, windows: bool) -> Option<Seq<Seq<char>>> {
    let q = if windows {
        forward_slashes(path)
    } else {
        path
    };
    let parts = split(q, '/');
    let kept = named_parts(parts);
    if q.len() > 0 && q[0] == '/' {
        None
    } else if parts.contains(".."@) {
        None
    } else if windows && contains(parts[0], ":"@) {
        None
    } else if kept.len() == 0 {
        None
    } else {
        Some(kept)
    }
}

/// The components of a vault-relative citation path, or none when the path
/// could leave the vault or names nothing.
pub fn vault_relative_parts(path: &str, windows: bool) -> (r: Option<Vec<String>>)
    ensures
        match r {
            Some(v) => vault_parts(path@, windows) == Some(string_views(v@)),
            None => vault_parts(path@, windows) is None,
        },
{
    let q: Vec<char> = if windows {
        chars_of(to_forward_slashes(path).as_str())
    } else {
        chars_of(path)
    };
    if q.len() > 0 && q[0] == '/' {
        return None;
    }
    let parts = split_exec(q.as_slice(), '/');
    proof {
        lemma_split_acc_nonempty(q@, '/', 0, 0);
    }
    let ghost pv = views(parts@);
    let mut out: Vec<String> = Vec::new();
    let mut i: usize = 0;
    while i < parts.len()
        invariant
            i <= parts@.len(),
            pv == views(parts@),
            pv == split(q@, '/'),
            q@ == (if windows {
                forward_slashes(path@)
            } else {
                path@
            }),
            string_views(out@) == named_parts(pv.take(i as int)),
            forall|k: int| 0 <= k < i ==> #[trigger] pv[k] != ".."@,
        decreases parts.len() - i,
    {
        let p = &parts[i];
        assert(pv[i as int] == p@);
        assert(pv.take(i + 1).drop_last() =~= pv.take(i as int));
        assert(pv.take(i + 1).last() == p@);
        if eq_str(p.as_slice(), "..") {
            assert(pv.contains(".."@));
            return None;
        }
        let named = p.len() > 0 && !eq_str(p.as_slice(), ".");
        if named {
            let ghost before = out@;
            out.push(string_of(p.as_slice()));
            assert(string_views(out@) =~= string_views(before).push(p@));
        }
        i += 1;
    }
    assert(pv.take(pv.len() as int) =~= pv);
    assert(!pv.contains(".."@));
    if windows && contains_str(parts[0].as_slice(), ":") {
        return None;
    }
    if out.len() == 0 {
        return None;
    }
    Some(out)
}

/// Every component kept by [`named_parts`] is named and comes from `parts`.
proof fn lemma_named_parts(parts: Seq<Seq<char>>)
    ensures
        forall|k: int|
            0 <= k < named_parts(parts).len() ==> named_part(#[trigger] named_parts(parts)[k])
                && parts.contains(named_parts(parts)[k]),
    decreases parts.len(),
{
    if parts.len() > 0 {
        let d = parts.drop_last();
        lemma_named_parts(d);
        let rest = named_parts(d);
        assert forall|k: int| 0 <= k < named_parts(parts).len() implies named_part(
            #[trigger] named_parts(parts)[k],
        ) && parts.contains(named_parts(parts)[k]) by {
            if k < rest.len() {
                assert(named_parts(parts)[k] == rest[k]);
                let j = choose|j: int| 0 <= j < d.len() && d[j] == rest[k];
                assert(parts[j] == d[j]);
            } else {
                assert(named_parts(parts)[k] == parts.last());
                assert(parts[parts.len() - 1] == parts.last());
            }
        }
    }
}

/// Law: a vault path that is accepted never climbs out of the vault: each
/// of its components names a file or folder, and none is `..`.
pub proof fn lemma_vault_parts_stay_inside(path: Seq<char>, windows: bool)
    ensures
        match vault_parts(path, windows) {
            Some(ps) => ps.len() > 0 && forall|k: int|
                0 <= k < ps.len() ==> named_part(#[trigger] ps[k]) && ps[k] != ".."@,
            None => true,
        },
{
    let q = if windows {
        forward_slashes(path)
    } else {
        path
    };
    let parts = split(q, '/');
    lemma_named_parts(parts);
}

/// The name a fragment key gives each kind.
pub open spec fn kind_name(kind: FragmentKind) -> Seq<char> {
    match kind {
        FragmentKind::Section => "section"@,
        FragmentKind::Figure => "figure"@,
        FragmentKind::Table => "table"@,
        FragmentKind::Algorithm => "algorithm"@,
        FragmentKind::Formula => "formula"@,
        FragmentKind::Region => "region"@,
        FragmentKind::Page => "page"@,
    }
}

/// Law: each fragment key names its own kind and no other: a key has a kind
/// exactly when it is that kind's name (so distinct keys give distinct
/// kinds), and a numbered citation (figure, table, algorithm, formula) is
/// looked up under the very name it was cited with.
pub proof fn lemma_key_names_kind(key: Seq<char>, kind: FragmentKind)
    ensures
        kind_of_key(key) == Some(kind) <==> key == kind_name(kind),
        kind_of_key(key) == Some(kind) && need_of(kind) == LayoutNeed::Items && kind
            != FragmentKind::Region ==> numbered_key(kind) == key,
{
    reveal_strlit("section");
    reveal_strlit("figure");
    reveal_strlit("table");
    reveal_strlit("algorithm");
    reveal_strlit("formula");
    reveal_strlit("region");
    reveal_strlit("page");
    assert("section"@[0] == 's' && "figure"@[0] == 'f' && "table"@[0] == 't');
    assert("algorithm"@[0] == 'a' && "formula"@[0] == 'f' && "region"@[0] == 'r');
    assert("page"@[0] == 'p' && "figure"@[1] == 'i' && "formula"@[1] == 'o');
}

} // verus!
