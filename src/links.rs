//! Product page addresses: the address of a product, and the product that a
//! link on a page points to.

use vstd::prelude::*;
use crate::price::{digit_value, digits_value, has_prefix, is_digit};
use crate::text::chars_of;

verus! {

/// The decimal digits of `n`, most significant first.
pub open spec fn decimal_of(n: nat) -> Seq<char>
    decreases n,
{
    if n < 10 {
        seq![digit_char(n)]
    } else {
        decimal_of(n / 10).push(digit_char(n % 10))
    }
}

pub open spec fn digit_char(d: nat) -> char {
    ('0' as u32 + d) as char
}

/// Relies on `ToString` for `u32`: integers are written in decimal, without
/// sign or leading zeros.
#[verifier::external_body]
fn decimal_string(n: u32) -> (r: String)
    ensures
        r@ == decimal_of(n as nat),
{
    n.to_string()
}

/// The address that every product page starts with.
pub open spec fn product_prefix() -> Seq<char> {
    "https://store.steampowered.com/app/"@
}

/// The address of the page of product `id`.
pub open spec fn page_address(id: u32) -> Seq<char> {
    product_prefix() + decimal_of(id as nat) + seq!['/']
}

pub fn page_for_app(id: u32) -> (r: String)
    ensures
        r@ == page_address(id),
{
    let mut r = String::from_str("https://store.steampowered.com/app/");
    let digits = decimal_string(id);
    r.append(digits.as_str());
    r.append("/");
    proof {
        reveal_strlit("/");
    }
    r
}

/// What `url::Url::parse` and then `Url::path` give for the text `link`:
/// the path of the address, or `None` where it is no valid address.
pub uninterp spec fn url_path_of(link: Seq<char>) -> Option<Seq<char>>;

/// Relies on `url::Url::parse`, for whether `link` is an address, and on
/// `Url::path`, for its path.
#[verifier::external_body]
fn url_path(link: &str) -> (r: Option<String>)
    ensures
        r is None ==> url_path_of(link@) is None,
        r matches Some(p) ==> url_path_of(link@) == Some(p@),
{
    url::Url::parse(link).ok().map(|u| u.path().to_string())
}

/// The position of the first `/` at or after `from` in `s`, or its length.
pub open spec fn slash_from(s: Seq<char>, from: int) -> int
    decreases s.len() - from,
{
    if from >= s.len() {
        s.len() as int
    } else if s[from] == '/' {
        from
    } else {
        slash_from(s, from + 1)
    }
}

/// The second segment of a path that starts with `/` (in `/app/400/` it is
/// `400`), if the path has one.
pub open spec fn second_segment(p: Seq<char>) -> Option<Seq<char>> {
    if p.len() > 0 && p[0] == '/' && slash_from(p, 1) < p.len() {
        let start = slash_from(p, 1) + 1;
        Some(p.subrange(start, slash_from(p, start)))
    } else {
        None
    }
}

pub open spec fn all_digits(s: Seq<char>) -> bool {
    forall|i: int| 0 <= i < s.len() ==> is_digit(#[trigger] s[i])
}

/// The `u32` that `s` spells in decimal, with an optional leading `+`, as
/// `str::parse::<u32>` reads it.
pub open spec fn decimal_u32(s: Seq<char>) -> Option<u32> {
    let d = if s.len() > 0 && s[0] == '+' { s.drop_first() } else { s };
    if d.len() > 0 && all_digits(d) && digits_value(d) <= u32::MAX {
        Some(digits_value(d) as u32)
    } else {
        None
    }
}

/// The product that a path names.
pub open spec fn path_app_id(p: Seq<char>) -> Option<u32> {
    match second_segment(p) {
        Some(seg) => decimal_u32(seg),
        None => None,
    }
}

/// The product that a link names: only links into the product pages name one.
pub open spec fn link_app_id(link: Seq<char>) -> Option<u32> {
    if has_prefix(link, product_prefix()) {
        match url_path_of(link) {
            Some(p) => path_app_id(p),
            None => None,
        }
    } else {
        None
    }
}

proof fn lemma_slash_from(s: Seq<char>, from: int, k: int)
    requires
        0 <= from <= k <= s.len(),
        k == s.len() || s[k] == '/',
        forall|j: int| from <= j < k ==> s[j] != '/',
    ensures
        slash_from(s, from) == k,
    decreases k - from,
{
    if from < k {
        lemma_slash_from(s, from + 1, k);
    }
}

fn find_slash(s: &Vec<char>, from: usize) -> (r: usize)
    requires
        from <= s.len(),
    ensures
        r == slash_from(s@, from as int),
        from <= r <= s.len(),
{
    let mut k = from;
    while k < s.len() && s[k] != '/'
        invariant
            from <= k <= s.len(),
            forall|j: int| from <= j < k ==> s@[j] != '/',
        decreases s.len() - k,
    {
        k = k + 1;
    }
    proof {
        lemma_slash_from(s@, from as int, k as int);
    }
    k
}

/// `s[a..b]` read as a decimal `u32`.
fn parse_u32(s: &Vec<char>, a: usize, b: usize) -> (r: Option<u32>)
    requires
        a <= b <= s.len(),
    ensures
        r == decimal_u32(s@.subrange(a as int, b as int)),
{
    let ghost whole = s@.subrange(a as int, b as int);
    let start: usize = if a < b && s[a] == '+' { a + 1 } else { a };
    let ghost d = s@.subrange(start as int, b as int);
    assert(d =~= (if whole.len() > 0 && whole[0] == '+' { whole.drop_first() } else { whole }));
    if start == b {
        return None;
    }
    let mut value: u32 = 0;
    let mut i: usize = start;
    while i < b
        invariant
            start <= i <= b <= s.len(),
            d == s@.subrange(start as int, b as int),
            whole == s@.subrange(a as int, b as int),
            d == (if whole.len() > 0 && whole[0] == '+' { whole.drop_first() } else { whole }),
            d.len() > 0,
            value == digits_value(s@.subrange(start as int, i as int)),
            all_digits(s@.subrange(start as int, i as int)),
        decreases b - i,
    {
        let ghost before = s@.subrange(start as int, i as int);
        let ghost after = s@.subrange(start as int, i + 1);
        assert(after.drop_last() =~= before);
        let c = s[i];
        assert(after.last() == c);
        if !('0' <= c && c <= '9') {
            assert(d[i - start] == c);
            assert(!is_digit(d[i - start]));
            return None;
        }
        let digit = (c as u32 - '0' as u32);
        assert(digit == digit_value(c));
        match value.checked_mul(10) {
            Some(m) => match m.checked_add(digit) {
                Some(v) => {
                    value = v;
                },
                None => {
                    proof {
                        assert(digits_value(after) == value * 10 + digit);
                        assert(d.take(i + 1 - start) =~= after);
                        lemma_digits_grow(d, (i + 1 - start) as int);
                    }
                    return None;
                },
            },
            None => {
                proof {
                    assert(d.take(i + 1 - start) =~= after);
                    lemma_digits_grow(d, (i + 1 - start) as int);
                }
                return None;
            },
        }
        assert(all_digits(after)) by {
            assert forall|j: int| 0 <= j < after.len() implies is_digit(#[trigger] after[j]) by {
                if j < before.len() {
                    assert(after[j] == before[j]);
                }
            }
        }
        i = i + 1;
    }
    assert(s@.subrange(start as int, b as int) =~= d);
    Some(value)
}

/// A prefix of digits never spells more than the whole.
proof fn lemma_digits_grow(d: Seq<char>, n: int)
    requires
        0 <= n <= d.len(),
    ensures
        digits_value(d.take(n)) <= digits_value(d),
    decreases d.len() - n,
{
    if n < d.len() {
        lemma_digits_grow(d, n + 1);
        assert(d.take(n + 1).drop_last() =~= d.take(n));
    } else {
        assert(d.take(n) =~= d);
    }
}

/// The product that a path names: its second segment read as a decimal `u32`.
pub fn app_id_of_path(p: &str) -> (r: Option<u32>)
    ensures
        r == path_app_id(p@),
{
    let s = chars_of(p);
    if s.len() == 0 || s[0] != '/' {
        return None;
    }
    let first_end = find_slash(&s, 1);
    if first_end >= s.len() {
        return None;
    }
    let start = first_end + 1;
    let end = find_slash(&s, start);
    parse_u32(&s, start, end)
}

/// The product that a link on a page names, if it is a link into the product
/// pages whose path names one.
pub fn app_id_of_link(link: &str) -> (r: Option<u32>)
    ensures
        r == link_app_id(link@),
{
    let s = chars_of(link);
    let prefix = chars_of("https://store.steampowered.com/app/");
    if !crate::price::has_prefix_exec(&s, &prefix) {
        return None;
    }
    match url_path(link) {
        Some(p) => app_id_of_path(p.as_str()),
        None => None,
    }
}

} // verus!
