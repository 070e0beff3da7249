//! What a fetched page yields: the values read off the page, and what the
//! crawl makes of them.

use vstd::prelude::*;
use crate::links::{app_id_of_link, link_app_id};
use crate::price::{normalize, normalized, option_prices, PurchaseOption};
use crate::product::App;

verus! {

/// The values read off one product page.
pub struct PageFacts {
    /// The product's display name, where the page shows one.
    pub name: Option<String>,
    pub tags: Vec<String>,
    pub options: Vec<PurchaseOption>,
    /// The targets of the page's links.
    pub links: Vec<String>,
}

/// What the crawl makes of one fetched page: the record of its product, if it
/// can have one, and the products that it links to.
pub struct PageReport {
    pub app: Option<App>,
    pub links: Vec<u32>,
}

/// The tags that name something: the `+` that opens the tag editor is dropped.
pub open spec fn kept_tags(tags: Seq<String>) -> Seq<String>
    decreases tags.len(),
{
    if tags.len() == 0 {
        Seq::empty()
    } else if tags.last()@ == seq!['+'] {
        kept_tags(tags.drop_last())
    } else {
        kept_tags(tags.drop_last()).push(tags.last())
    }
}

/// The products that the links name, in the links' order.
pub open spec fn linked_ids(links: Seq<String>) -> Seq<u32>
    decreases links.len(),
{
    if links.len() == 0 {
        Seq::empty()
    } else {
        match link_app_id(links.last()@) {
            Some(id) => linked_ids(links.drop_last()).push(id),
            None => linked_ids(links.drop_last()),
        }
    }
}

/// `s` with every repeat of an earlier element dropped, in first-seen order.
pub open spec fn dedup(s: Seq<u32>) -> Seq<u32>
    decreases s.len(),
{
    if s.len() == 0 {
        Seq::empty()
    } else if dedup(s.drop_last()).contains(s.last()) {
        dedup(s.drop_last())
    } else {
        dedup(s.drop_last()).push(s.last())
    }
}

/// `dedup(s)` holds each element of `s` exactly once.
pub proof fn lemma_dedup(s: Seq<u32>)
    ensures
        dedup(s).no_duplicates(),
        forall|x: u32| dedup(s).contains(x) <==> s.contains(x),
    decreases s.len(),
{
    if s.len() > 0 {
        let init = s.drop_last();
        lemma_dedup(init);
        let d = dedup(init);
        assert forall|x: u32| s.contains(x) <==> (init.contains(x) || x == s.last()) by {
            if s.contains(x) {
                let i = choose|i: int| 0 <= i < s.len() && s[i] == x;
                if i < s.len() - 1 {
                    assert(init[i] == x);
                }
            }
            if init.contains(x) {
                let i = choose|i: int| 0 <= i < init.len() && init[i] == x;
                assert(s[i] == x);
            }
            if x == s.last() {
                assert(s[s.len() - 1] == x);
            }
        }
        if !d.contains(s.last()) {
            let e = d.push(s.last());
            assert forall|x: u32| e.contains(x) <==> (d.contains(x) || x == s.last()) by {
                if e.contains(x) {
                    let i = choose|i: int| 0 <= i < e.len() && e[i] == x;
                    if i < d.len() {
                        assert(d[i] == x);
                    }
                }
                if d.contains(x) {
                    let i = choose|i: int| 0 <= i < d.len() && d[i] == x;
                    assert(e[i] == x);
                }
                if x == s.last() {
                    assert(e[d.len() as int] == x);
                }
            }
            assert forall|i: int, j: int| 0 <= i < e.len() && 0 <= j < e.len() && i != j implies e[i] != e[j] by {
                if i < d.len() && j < d.len() {
                } else if i < d.len() {
                    assert(d.contains(d[i]));
                } else {
                    assert(d.contains(d[j]));
                }
            }
        }
    }
}

/// Whether a page yields a record: it needs a purchase option, to have a
/// price, and a name.
pub open spec fn recordable(page: PageFacts) -> bool {
    &&& page.options@.len() > 0
    &&& page.name is Some
    &&& page.name.unwrap()@.len() > 0
}

pub fn keep_tags(tags: &Vec<String>) -> (r: Vec<String>)
    ensures
        r@ == kept_tags(tags@),
{
    let mut r: Vec<String> = Vec::new();
    let mut i: usize = 0;
    while i < tags.len()
        invariant
            i <= tags.len(),
            r@ == kept_tags(tags@.take(i as int)),
        decreases tags.len() - i,
    {
        assert(tags@.take(i + 1).drop_last() =~= tags@.take(i as int));
        let t = &tags[i];
        let plus = String::from_str("+");
        proof {
            reveal_strlit("+");
            assert(plus@ =~= seq!['+']);
        }
        if !(*t == plus) {
            r.push(t.clone());
        }
        i = i + 1;
    }
    assert(tags@.take(tags.len() as int) =~= tags@);
    r
}

/// The products that the links name, each once, in first-seen order.
pub fn link_ids(links: &Vec<String>) -> (r: Vec<u32>)
    ensures
        r@ == dedup(linked_ids(links@)),
        r@.no_duplicates(),
        forall|x: u32| r@.contains(x) <==> linked_ids(links@).contains(x),
{
    let mut r: Vec<u32> = Vec::new();
    let mut i: usize = 0;
    while i < links.len()
        invariant
            i <= links.len(),
            r@ == dedup(linked_ids(links@.take(i as int))),
        decreases links.len() - i,
    {
        assert(links@.take(i + 1).drop_last() =~= links@.take(i as int));
        assert(links@.take(i + 1).last() == links@[i as int]);
        let ghost prev = linked_ids(links@.take(i as int));
        let ghost next = linked_ids(links@.take(i + 1));
        match app_id_of_link(links[i].as_str()) {
            Some(id) => {
                assert(next == prev.push(id));
                assert(next.drop_last() =~= prev);
                let mut seen = false;
                let mut j: usize = 0;
                while j < r.len()
                    invariant
                        j <= r.len(),
                        seen <==> exists|k: int| 0 <= k < j && r@[k] == id,
                    decreases r.len() - j,
                {
                    if r[j] == id {
                        seen = true;
                    }
                    j = j + 1;
                }
                assert(seen == r@.contains(id));
                if !seen {
                    r.push(id);
                }
            },
            None => {},
        }
        i = i + 1;
    }
    assert(links@.take(links.len() as int) =~= links@);
    proof {
        lemma_dedup(linked_ids(links@));
    }
    r
}

/// What the crawl makes of the page of product `id`: a record where the page
/// has a purchase option and a name, with the greatest option price and the
/// kept tags; and, whatever the record, every product that the page links to.
pub fn evaluate_page(id: u32, page: PageFacts) -> (r: PageReport)
    ensures
        r.links@ == dedup(linked_ids(page.links@)),
        r.app is Some <==> recordable(page),
        r.app matches Some(a) ==> {
            &&& a.id == id
            &&& page.name == Some(a.name)
            &&& a.tags@ == kept_tags(page.tags@)
            &&& normalized(option_prices(page.options@)) == Some(a.price as nat)
        },
{
    let links = link_ids(&page.links);
    let price = normalize(&page.options);
    let app = match (price, page.name) {
        (Some(p), Some(name)) => {
            if name.as_str().is_empty() {
                None
            } else {
                Some(App::new(id, name, keep_tags(&page.tags), p))
            }
        },
        _ => None,
    };
    PageReport { app, links }
}

} // verus!
