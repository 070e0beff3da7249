//! Reading a product page: which elements carry the name, the tags, the
//! purchase options and the links. The HTML parser and its selectors are
//! scraper's.

use vstd::prelude::*;
use scraper::{Html, Selector};
use crate::page::PageFacts;
use crate::price::{dlc_marker, PurchaseOption};

verus! {

/// What `scraper` gives for the document `page` and the selector `css`: the
/// inner HTML of each matching element, in document order; none where `css`
/// is no selector.
pub uninterp spec fn inner_htmls_of(page: Seq<char>, css: Seq<char>) -> Seq<Seq<char>>;

/// What `scraper` gives for the document `page` and the selector `css`: the
/// value of attribute `name` of each matching element, in document order;
/// none where `css` is no selector.
pub uninterp spec fn attr_values_of(page: Seq<char>, css: Seq<char>, name: Seq<char>) -> Seq<Option<Seq<char>>>;

/// What `scraper` gives for the document `page`: for each element that
/// `outer` matches, in document order, its id and the inner HTML of the
/// first element inside it that `inner` matches; none where either is no
/// selector.
pub uninterp spec fn ids_and_inner_of(page: Seq<char>, outer: Seq<char>, inner: Seq<char>) -> Seq<(Option<Seq<char>>, Option<Seq<char>>)>;

pub open spec fn str_views(v: Seq<String>) -> Seq<Seq<char>> {
    v.map_values(|s: String| s@)
}

pub open spec fn opt_view(o: Option<String>) -> Option<Seq<char>> {
    match o {
        Some(s) => Some(s@),
        None => None,
    }
}

/// Relies on `scraper::Html::parse_document`, `scraper::Selector::parse`,
/// `Html::select` and `ElementRef::inner_html`.
#[verifier::external_body]
fn select_inner(page: &str, css: &str) -> (r: Vec<String>)
    ensures
        str_views(r@) == inner_htmls_of(page@, css@),
{
    match Selector::parse(css) {
        Ok(sel) => Html::parse_document(page).select(&sel).map(|e| e.inner_html()).collect(),
        Err(_) => Vec::new(),
    }
}

/// Relies on `scraper::Html::parse_document`, `scraper::Selector::parse`,
/// `Html::select` and `Element::attr`.
#[verifier::external_body]
fn select_attr(page: &str, css: &str, name: &str) -> (r: Vec<Option<String>>)
    ensures
        r@.map_values(|o: Option<String>| opt_view(o)) == attr_values_of(page@, css@, name@),
{
    match Selector::parse(css) {
        Ok(sel) => Html::parse_document(page)
            .select(&sel)
            .map(|e| e.value().attr(name).map(|v| v.to_string()))
            .collect(),
        Err(_) => Vec::new(),
    }
}

/// Relies on `scraper::Html::parse_document`, `scraper::Selector::parse`,
/// `Html::select`, `Element::id`, `ElementRef::select` and
/// `ElementRef::inner_html`.
#[verifier::external_body]
fn select_id_and_inner(page: &str, outer: &str, inner: &str) -> (r: Vec<(Option<String>, Option<String>)>)
    ensures
        r@.map_values(|p: (Option<String>, Option<String>)| (opt_view(p.0), opt_view(p.1)))
            == ids_and_inner_of(page@, outer@, inner@),
{
    match (Selector::parse(outer), Selector::parse(inner)) {
        (Ok(o), Ok(i)) => Html::parse_document(page)
            .select(&o)
            .map(|e| (e.value().id().map(|v| v.to_string()), e.select(&i).next().map(|p| p.inner_html())))
            .collect(),
        _ => Vec::new(),
    }
}

/// The characters of the Unicode White_Space property.
pub open spec fn is_white_space(c: char) -> bool {
    let u = c as u32;
    (9 <= u && u <= 13) || u == 32 || u == 0x85 || u == 0xa0 || u == 0x1680 || (0x2000 <= u && u
        <= 0x200a) || u == 0x2028 || u == 0x2029 || u == 0x202f || u == 0x205f || u == 0x3000
}

/// The first position at or after `i` that holds no white space.
pub open spec fn lead_end(s: Seq<char>, i: int) -> int
    decreases s.len() - i,
{
    if i >= s.len() {
        s.len() as int
    } else if is_white_space(s[i]) {
        lead_end(s, i + 1)
    } else {
        i
    }
}

/// The end of `s[..j]` without its trailing white space.
pub open spec fn trail_start(s: Seq<char>, j: int) -> int
    decreases j,
{
    if j <= 0 {
        0
    } else if is_white_space(s[j - 1]) {
        trail_start(s, j - 1)
    } else {
        j
    }
}

/// `s` without leading and trailing white space.
pub open spec fn trim_text(s: Seq<char>) -> Seq<char> {
    let a = lead_end(s, 0);
    let b = trail_start(s, s.len() as int);
    if a < b {
        s.subrange(a, b)
    } else {
        Seq::empty()
    }
}

/// Relies on `str::trim`: `s` without leading and trailing white space, as
/// the Unicode White_Space property defines it.
#[verifier::external_body]
fn trimmed(s: &str) -> (r: String)
    ensures
        r@ == trim_text(s@),
{
    s.trim().to_string()
}

pub open spec fn trims(s: Seq<Seq<char>>) -> Seq<Seq<char>> {
    s.map_values(|t: Seq<char>| trim_text(t))
}

/// The present values of `s`, in order.
pub open spec fn somes(s: Seq<Option<Seq<char>>>) -> Seq<Seq<char>>
    decreases s.len(),
{
    if s.len() == 0 {
        Seq::empty()
    } else {
        match s.last() {
            Some(v) => somes(s.drop_last()).push(v),
            None => somes(s.drop_last()),
        }
    }
}

/// The purchase option read from an element with the given id and price
/// text: an add-on exactly when the id is the add-on marker; its price text
/// trimmed.
pub open spec fn option_read(o: PurchaseOption, p: (Option<Seq<char>>, Option<Seq<char>>)) -> bool {
    &&& o.is_dlc == (p.0 == Some(dlc_marker()))
    &&& opt_view(o.price_text) == match p.1 {
        Some(t) => Some(trim_text(t)),
        None => None,
    }
}

fn trim_all(v: &Vec<String>) -> (r: Vec<String>)
    ensures
        str_views(r@) == trims(str_views(v@)),
{
    let mut r: Vec<String> = Vec::new();
    let mut i: usize = 0;
    while i < v.len()
        invariant
            i <= v.len(),
            str_views(r@) == trims(str_views(v@.take(i as int))),
        decreases v.len() - i,
    {
        let t = trimmed(v[i].as_str());
        proof {
            assert(trims(str_views(v@.take(i + 1))) =~= trims(str_views(v@.take(i as int))).push(trim_text(v@[i as int]@)));
            assert(str_views(r@.push(t)) =~= str_views(r@).push(t@));
        }
        r.push(t);
        i = i + 1;
    }
    assert(v@.take(v.len() as int) =~= v@);
    r
}

/// The link targets of every anchor of the page, in document order.
fn link_targets(page: &str) -> (r: Vec<String>)
    ensures
        str_views(r@) == somes(attr_values_of(page@, "a"@, "href"@)),
{
    let hrefs = select_attr(page, "a", "href");
    let ghost hv = hrefs@.map_values(|o: Option<String>| opt_view(o));
    let mut r: Vec<String> = Vec::new();
    let mut i: usize = 0;
    while i < hrefs.len()
        invariant
            i <= hrefs.len(),
            hv == hrefs@.map_values(|o: Option<String>| opt_view(o)),
            str_views(r@) == somes(hv.take(i as int)),
        decreases hrefs.len() - i,
    {
        assert(hv.take(i + 1).drop_last() =~= hv.take(i as int));
        assert(hv.take(i + 1).last() == opt_view(hrefs@[i as int]));
        match &hrefs[i] {
            Some(h) => {
                let h2 = h.clone();
                assert(str_views(r@.push(h2)) =~= str_views(r@).push(h2@));
                r.push(h2);
            },
            None => {},
        }
        i = i + 1;
    }
    assert(hv.take(hrefs.len() as int) =~= hv);
    r
}

/// Every purchase option of the page.
fn purchase_options(page: &str) -> (r: Vec<PurchaseOption>)
    ensures
        r@.len() == ids_and_inner_of(page@, ".game_purchase_action"@, ".price"@).len(),
        forall|i: int| 0 <= i < r@.len() ==> option_read(r@[i],
            #[trigger] ids_and_inner_of(page@, ".game_purchase_action"@, ".price"@)[i]),
{
    let found = select_id_and_inner(page, ".game_purchase_action", ".price");
    let ghost fv = ids_and_inner_of(page@, ".game_purchase_action"@, ".price"@);
    let mut r: Vec<PurchaseOption> = Vec::new();
    let mut i: usize = 0;
    while i < found.len()
        invariant
            i <= found.len(),
            r@.len() == i,
            fv.len() == found@.len(),
            forall|k: int| 0 <= k < found@.len() ==> fv[k] == (opt_view(found@[k].0), opt_view(found@[k].1)),
            forall|k: int| 0 <= k < i ==> option_read(r@[k], #[trigger] fv[k]),
        decreases found.len() - i,
    {
        let (id, text) = &found[i];
        let price_text = match text {
            Some(t) => Some(trimmed(t.as_str())),
            None => None,
        };
        let element_id = match id {
            Some(s) => Some(s.as_str()),
            None => None,
        };
        let o = PurchaseOption::from_element(element_id, price_text);
        assert(option_read(o, fv[i as int]));
        r.push(o);
        i = i + 1;
    }
    r
}

/// The values the crawl reads off a product page: the first product name
/// element, the tag elements, the purchase options and the link targets,
/// each trimmed.
pub fn page_facts(page: &str) -> (r: PageFacts)
    ensures
        r.name is Some <==> inner_htmls_of(page@, ".apphub_AppName"@).len() > 0,
        r.name matches Some(n) ==> n@ == trim_text(inner_htmls_of(page@, ".apphub_AppName"@)[0]),
        str_views(r.tags@) == trims(inner_htmls_of(page@, ".app_tag"@)),
        r.options@.len() == ids_and_inner_of(page@, ".game_purchase_action"@, ".price"@).len(),
        forall|i: int| 0 <= i < r.options@.len() ==> option_read(r.options@[i],
            #[trigger] ids_and_inner_of(page@, ".game_purchase_action"@, ".price"@)[i]),
        str_views(r.links@) == somes(attr_values_of(page@, "a"@, "href"@)),
{
    let names = select_inner(page, ".apphub_AppName");
    let name = if names.len() > 0 {
        Some(trimmed(names[0].as_str()))
    } else {
        None
    };
    let tags = trim_all(&select_inner(page, ".app_tag"));
    PageFacts { name, tags, options: purchase_options(page), links: link_targets(page) }
}

} // verus!
