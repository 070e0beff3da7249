//! Price normalisation. Prices are held as whole hundredths of the currency
//! unit, so `19,99€` is `1999`.

use vstd::prelude::*;
use crate::text::chars_of;

verus! {

/// What `str::to_lowercase` returns for the characters `s`.
pub uninterp spec fn lower_of(s: Seq<char>) -> Seq<char>;

/// Relies on `str::to_lowercase`: its result depends on the characters alone.
#[verifier::external_body]
fn lowercase(s: &str) -> (r: String)
    ensures
        r@ == lower_of(s@),
{
    s.to_lowercase()
}

pub open spec fn is_digit(c: char) -> bool {
    '0' <= c && c <= '9'
}

pub open spec fn digit_value(c: char) -> nat {
    (c as int - '0' as int) as nat
}

pub open spec fn is_separator(c: char) -> bool {
    c == ',' || c == '.'
}

/// The number that the decimal digits of `s` spell, in order; any other
/// character is passed over.
pub open spec fn digits_value(s: Seq<char>) -> nat
    decreases s.len(),
{
    if s.len() == 0 {
        0
    } else if is_digit(s.last()) {
        digits_value(s.drop_last()) * 10 + digit_value(s.last())
    } else {
        digits_value(s.drop_last())
    }
}

pub open spec fn has_digit(s: Seq<char>) -> bool {
    exists|i: int| 0 <= i < s.len() && is_digit(#[trigger] s[i])
}

pub open spec fn has_separator(s: Seq<char>) -> bool {
    exists|i: int| 0 <= i < s.len() && is_separator(#[trigger] s[i])
}

/// How many digits follow the last separator of `s` (all digits of `s` where it
/// has none).
pub open spec fn trailing_digits(s: Seq<char>) -> nat
    decreases s.len(),
{
    if s.len() == 0 {
        0
    } else if is_separator(s.last()) {
        0
    } else if is_digit(s.last()) {
        trailing_digits(s.drop_last()) + 1
    } else {
        trailing_digits(s.drop_last())
    }
}

/// The number of decimals: a last separator followed by one or two digits is
/// the decimal mark; every other separator groups thousands.
pub open spec fn decimals(s: Seq<char>) -> nat {
    if has_separator(s) && trailing_digits(s) <= 2 {
        trailing_digits(s)
    } else {
        0
    }
}

pub open spec fn scale(decimals: nat) -> nat {
    if decimals == 0 {
        100
    } else if decimals == 1 {
        10
    } else {
        1
    }
}

/// The amount, in hundredths, that the text `s` states, if it has a digit.
pub open spec fn amount_of(s: Seq<char>) -> Option<nat> {
    if has_digit(s) {
        Some(digits_value(s) * scale(decimals(s)))
    } else {
        None
    }
}

/// The position of the first euro sign of `s`, or its length.
pub open spec fn euro_index(s: Seq<char>) -> nat
    decreases s.len(),
{
    if s.len() == 0 {
        0
    } else if s[0] == '€' {
        0
    } else {
        1 + euro_index(s.drop_first())
    }
}

pub open spec fn has_prefix(t: Seq<char>, p: Seq<char>) -> bool {
    p.len() <= t.len() && t.take(p.len() as int) == p
}

pub open spec fn contains_at(t: Seq<char>, p: Seq<char>, i: int) -> bool {
    0 <= i && i + p.len() <= t.len() && t.subrange(i, i + p.len()) == p
}

pub open spec fn contains(t: Seq<char>, p: Seq<char>) -> bool {
    exists|i: int| contains_at(t, p, i)
}

/// Whether lower-case price text marks the option as costing nothing.
pub open spec fn is_free_text(t: Seq<char>) -> bool {
    has_prefix(t, seq!['f', 'r', 'e', 'e'])
        || contains(t, seq!['p', 'l', 'a', 'y', ' ', 'w', 'i', 't', 'h', ' ', 'f', 'i', 'r', 'e', 'f', 'l', 'y'])
        || contains(t, seq!['d', 'e', 'm', 'o'])
}

pub open spec fn is_blank(c: char) -> bool {
    c == ' ' || c == '\t' || c == '\u{a0}'
}

/// Currency symbols and blanks, which may stand before the amount.
pub open spec fn is_currency(c: char) -> bool {
    c == '$' || c == '£' || c == '¥' || c == '₩' || c == '₹' || c == '₽' || c == '¢' || is_blank(c)
}

/// The characters of an amount: digits, separators and the dashes of
/// `19,--`, which are passed over.
pub open spec fn is_number_char(c: char) -> bool {
    is_digit(c) || is_separator(c) || c == '-'
}

/// The first position at or after `i` that holds no currency symbol or blank.
pub open spec fn currency_end(s: Seq<char>, i: int) -> int
    decreases s.len() - i,
{
    if i >= s.len() {
        s.len() as int
    } else if is_currency(s[i]) {
        currency_end(s, i + 1)
    } else {
        i
    }
}

/// The first position at or after `i` that is not part of an amount.
pub open spec fn number_end(s: Seq<char>, i: int) -> int
    decreases s.len() - i,
{
    if i >= s.len() {
        s.len() as int
    } else if is_number_char(s[i]) {
        number_end(s, i + 1)
    } else {
        i
    }
}

/// The amount that `body` states: after any currency symbols and blanks, a
/// run of digits and separators that ends the text or is followed by a
/// blank (what follows is annotation); nothing otherwise.
pub open spec fn price_amount(body: Seq<char>) -> Option<nat> {
    let a = currency_end(body, 0);
    let e = number_end(body, a);
    if e == body.len() || is_blank(body[e]) {
        amount_of(body.subrange(a, e))
    } else {
        None
    }
}

/// The price, in hundredths, of lower-case price text: nothing for a free
/// option; else the amount written before any euro sign; and nothing where no
/// amount can be read or it does not fit in 64 bits.
pub open spec fn lowered_price(t: Seq<char>) -> nat {
    if is_free_text(t) {
        0
    } else {
        match price_amount(t.take(euro_index(t) as int)) {
            Some(v) => if v <= u64::MAX { v } else { 0 },
            None => 0,
        }
    }
}

/// The price, in hundredths, of one price text as shown on a page.
pub open spec fn text_price(s: Seq<char>) -> nat {
    lowered_price(lower_of(s))
}

proof fn lemma_euro_index(s: Seq<char>, k: int)
    requires
        0 <= k <= s.len(),
        k == s.len() || s[k] == '€',
        forall|j: int| 0 <= j < k ==> s[j] != '€',
    ensures
        euro_index(s) == k,
    decreases k,
{
    if k > 0 {
        lemma_euro_index(s.drop_first(), k - 1);
    }
}

pub(crate) proof fn lemma_currency_end(s: Seq<char>, from: int, k: int)
    requires
        0 <= from <= k <= s.len(),
        k == s.len() || !is_currency(s[k]),
        forall|j: int| from <= j < k ==> is_currency(s[j]),
    ensures
        currency_end(s, from) == k,
    decreases k - from,
{
    if from < k {
        lemma_currency_end(s, from + 1, k);
    }
}

proof fn lemma_number_end(s: Seq<char>, from: int, k: int)
    requires
        0 <= from <= k <= s.len(),
        k == s.len() || !is_number_char(s[k]),
        forall|j: int| from <= j < k ==> is_number_char(s[j]),
    ensures
        number_end(s, from) == k,
    decreases k - from,
{
    if from < k {
        lemma_number_end(s, from + 1, k);
    }
}

fn is_blank_exec(c: char) -> (r: bool)
    ensures
        r == is_blank(c),
{
    c == ' ' || c == '\t' || c == '\u{a0}'
}

fn is_currency_exec(c: char) -> (r: bool)
    ensures
        r == is_currency(c),
{
    c == '$' || c == '£' || c == '¥' || c == '₩' || c == '₹' || c == '₽' || c == '¢' || is_blank_exec(c)
}

pub(crate) fn has_prefix_exec(t: &Vec<char>, p: &Vec<char>) -> (r: bool)
    ensures
        r == has_prefix(t@, p@),
{
    if p.len() > t.len() {
        return false;
    }
    let mut i: usize = 0;
    while i < p.len()
        invariant
            p.len() <= t.len(),
            i <= p.len(),
            forall|j: int| 0 <= j < i ==> t@[j] == p@[j],
        decreases p.len() - i,
    {
        if t[i] != p[i] {
            assert(t@.take(p.len() as int)[i as int] != p@[i as int]);
            return false;
        }
        i = i + 1;
    }
    assert(t@.take(p.len() as int) =~= p@);
    true
}

fn contains_at_exec(t: &Vec<char>, p: &Vec<char>, i: usize) -> (r: bool)
    requires
        i + p.len() <= t.len(),
    ensures
        r == contains_at(t@, p@, i as int),
{
    let mut j: usize = 0;
    while j < p.len()
        invariant
            i + p.len() <= t.len(),
            j <= p.len(),
            forall|k: int| 0 <= k < j ==> t@[i + k] == p@[k],
        decreases p.len() - j,
    {
        if t[i + j] != p[j] {
            assert(t@.subrange(i as int, i + p.len())[j as int] != p@[j as int]);
            return false;
        }
        j = j + 1;
    }
    assert(t@.subrange(i as int, i + p.len()) =~= p@);
    true
}

fn contains_exec(t: &Vec<char>, p: &Vec<char>) -> (r: bool)
    ensures
        r == contains(t@, p@),
{
    if p.len() > t.len() {
        return false;
    }
    let last = t.len() - p.len();
    let mut i: usize = 0;
    while i < last
        invariant
            last == t.len() - p.len(),
            i <= last,
            forall|k: int| 0 <= k < i ==> !contains_at(t@, p@, k),
        decreases last - i,
    {
        if contains_at_exec(t, p, i) {
            return true;
        }
        i = i + 1;
    }
    if contains_at_exec(t, p, last) {
        return true;
    }
    assert forall|k: int| !contains_at(t@, p@, k) by {
        if 0 <= k && k + p.len() <= t.len() && k != last {
            assert(k < i);
        }
    }
    false
}

/// The amount, in hundredths, that `t[a..k]` states, where it has a digit and
/// the amount fits in 64 bits.
fn amount_exec(t: &Vec<char>, a: usize, k: usize) -> (r: Option<u64>)
    requires
        a <= k <= t.len(),
    ensures
        r == (match amount_of(t@.subrange(a as int, k as int)) {
            Some(v) => if v <= u64::MAX { Some(v as u64) } else { None },
            None => None,
        }),
{
    let mut value: u64 = 0;
    let mut overflow = false;
    let mut seen_digit = false;
    let mut seen_separator = false;
    let mut trailing: usize = 0;
    let mut i: usize = a;
    while i < k
        invariant
            a <= i <= k <= t.len(),
            trailing <= i - a,
            overflow ==> digits_value(t@.subrange(a as int, i as int)) > u64::MAX,
            !overflow ==> value == digits_value(t@.subrange(a as int, i as int)),
            seen_digit == has_digit(t@.subrange(a as int, i as int)),
            seen_separator == has_separator(t@.subrange(a as int, i as int)),
            trailing == trailing_digits(t@.subrange(a as int, i as int)),
        decreases k - i,
    {
        let ghost before = t@.subrange(a as int, i as int);
        let ghost after = t@.subrange(a as int, i + 1);
        assert(after.drop_last() =~= before);
        assert(after.last() == t@[i as int]);
        let c = t[i];
        if '0' <= c && c <= '9' {
            let d = (c as u32 - '0' as u32) as u64;
            assert(d == digit_value(c));
            if !overflow {
                match value.checked_mul(10) {
                    Some(m) => match m.checked_add(d) {
                        Some(v) => {
                            value = v;
                        },
                        None => {
                            overflow = true;
                        },
                    },
                    None => {
                        overflow = true;
                        assert(digits_value(after) >= digits_value(before) * 10);
                    },
                }
            } else {
                assert(digits_value(after) >= digits_value(before)) by (nonlinear_arith)
                    requires
                        digits_value(after) == digits_value(before) * 10 + d,
                ;
            }
            seen_digit = true;
            trailing = trailing + 1;
        } else if c == ',' || c == '.' {
            seen_separator = true;
            trailing = 0;
        }
        assert(seen_digit == has_digit(after)) by {
            if has_digit(after) && !is_digit(c) {
                let j = choose|j: int| 0 <= j < after.len() && is_digit(#[trigger] after[j]);
                assert(before[j] == after[j]);
            }
            if has_digit(before) {
                let j = choose|j: int| 0 <= j < before.len() && is_digit(#[trigger] before[j]);
                assert(after[j] == before[j]);
            }
        }
        assert(seen_separator == has_separator(after)) by {
            if has_separator(after) && !is_separator(c) {
                let j = choose|j: int| 0 <= j < after.len() && is_separator(#[trigger] after[j]);
                assert(before[j] == after[j]);
            }
            if has_separator(before) {
                let j = choose|j: int| 0 <= j < before.len() && is_separator(#[trigger] before[j]);
                assert(after[j] == before[j]);
            }
        }
        i = i + 1;
    }
    let ghost cut = t@.subrange(a as int, k as int);
    if !seen_digit {
        return None;
    }
    let places: usize = if seen_separator && trailing <= 2 { trailing } else { 0 };
    let factor: u64 = if places == 0 { 100 } else if places == 1 { 10 } else { 1 };
    assert(factor == scale(decimals(cut)));
    if overflow {
        assert(digits_value(cut) * factor >= digits_value(cut)) by (nonlinear_arith)
            requires
                factor >= 1,
        ;
        return None;
    }
    value.checked_mul(factor)
}

/// The price, in hundredths, of price text that is already in lower case.
pub fn price_of_lowered(t: &str) -> (r: u64)
    ensures
        r == lowered_price(t@),
{
    let cs = chars_of(t);
    let free = vec!['f', 'r', 'e', 'e'];
    let firefly = vec!['p', 'l', 'a', 'y', ' ', 'w', 'i', 't', 'h', ' ', 'f', 'i', 'r', 'e', 'f', 'l', 'y'];
    let demo = vec!['d', 'e', 'm', 'o'];
    if has_prefix_exec(&cs, &free) || contains_exec(&cs, &firefly) || contains_exec(&cs, &demo) {
        return 0;
    }
    let mut k: usize = 0;
    while k < cs.len() && cs[k] != '€'
        invariant
            k <= cs.len(),
            forall|j: int| 0 <= j < k ==> cs@[j] != '€',
        decreases cs.len() - k,
    {
        k = k + 1;
    }
    proof {
        lemma_euro_index(cs@, k as int);
    }
    let ghost body = cs@.take(k as int);
    let mut a: usize = 0;
    while a < k && is_currency_exec(cs[a])
        invariant
            a <= k <= cs.len(),
            body == cs@.take(k as int),
            forall|j: int| 0 <= j < a ==> is_currency(#[trigger] body[j]),
        decreases k - a,
    {
        a = a + 1;
    }
    proof {
        lemma_currency_end(body, 0, a as int);
    }
    let mut e: usize = a;
    while e < k && (('0' <= cs[e] && cs[e] <= '9') || cs[e] == ',' || cs[e] == '.' || cs[e] == '-')
        invariant
            a <= e <= k <= cs.len(),
            body == cs@.take(k as int),
            forall|j: int| a <= j < e ==> is_number_char(#[trigger] body[j]),
        decreases k - e,
    {
        e = e + 1;
    }
    proof {
        lemma_number_end(body, a as int, e as int);
    }
    if e < k && !is_blank_exec(cs[e]) {
        return 0;
    }
    assert(cs@.subrange(a as int, e as int) =~= body.subrange(a as int, e as int));
    match amount_exec(&cs, a, e) {
        Some(v) => v,
        None => 0,
    }
}

/// The price, in hundredths, of one price text as shown on a page: the text is
/// put in lower case first.
pub fn parse_price(price: &str) -> (r: u64)
    ensures
        r == text_price(price@),
{
    let lowered = lowercase(price);
    price_of_lowered(lowered.as_str())
}

/// One purchase option of a product page: whether it sells an add-on, and the
/// price text that it shows, if any.
#[derive(Clone, Debug)]
pub struct PurchaseOption {
    pub is_dlc: bool,
    pub price_text: Option<String>,
}

/// The element id that marks a purchase option as an add-on.
pub open spec fn dlc_marker() -> Seq<char> {
    "dlc_purchase_action"@
}

impl PurchaseOption {
    pub fn new(is_dlc: bool, price_text: Option<String>) -> (r: PurchaseOption)
        ensures
            r.is_dlc == is_dlc,
            r.price_text == price_text,
    {
        PurchaseOption { is_dlc, price_text }
    }

    /// A purchase option read from a page element with the given id: it sells
    /// an add-on exactly when the id is the add-on marker.
    pub fn from_element(element_id: Option<&str>, price_text: Option<String>) -> (r: PurchaseOption)
        ensures
            r.is_dlc == (match element_id {
                Some(id) => id@ == dlc_marker(),
                None => false,
            }),
            r.price_text == price_text,
    {
        let is_dlc = match element_id {
            Some(id) => {
                let marker = String::from_str("dlc_purchase_action");
                let id = String::from_str(id);
                id == marker
            },
            None => false,
        };
        PurchaseOption { is_dlc, price_text }
    }
}

/// What one purchase option adds to the price of its product, in hundredths.
pub open spec fn option_price(o: PurchaseOption) -> nat {
    if o.is_dlc {
        0
    } else {
        match o.price_text {
            Some(t) => text_price(t@),
            None => 0,
        }
    }
}

/// The greatest of `s`, or 0 where `s` is empty.
pub open spec fn max_of(s: Seq<nat>) -> nat
    decreases s.len(),
{
    if s.len() == 0 {
        0
    } else if max_of(s.drop_last()) >= s.last() {
        max_of(s.drop_last())
    } else {
        s.last()
    }
}

pub open spec fn nats_of(s: Seq<u64>) -> Seq<nat> {
    s.map_values(|x: u64| x as nat)
}

pub open spec fn option_prices(options: Seq<PurchaseOption>) -> Seq<nat> {
    options.map_values(|o: PurchaseOption| option_price(o))
}

/// The normalised price of a product whose options contribute `prices`: their
/// greatest; nothing where there are none.
pub open spec fn normalized(prices: Seq<nat>) -> Option<nat> {
    if prices.len() == 0 {
        None
    } else {
        Some(max_of(prices))
    }
}

/// The normalised price of a product from what each purchase option
/// contributes: the greatest, or `None` where there is no option.
pub fn max_price(prices: &Vec<u64>) -> (r: Option<u64>)
    ensures
        r matches Some(v) ==> normalized(nats_of(prices@)) == Some(v as nat),
        r is None <==> normalized(nats_of(prices@)) is None,
{
    if prices.len() == 0 {
        return None;
    }
    let mut best: u64 = 0;
    let mut i: usize = 0;
    while i < prices.len()
        invariant
            i <= prices.len(),
            best as nat == max_of(nats_of(prices@.take(i as int))),
        decreases prices.len() - i,
    {
        let ghost before = nats_of(prices@.take(i as int));
        let ghost after = nats_of(prices@.take(i + 1));
        assert(after.drop_last() =~= before);
        if prices[i] > best {
            best = prices[i];
        }
        i = i + 1;
    }
    assert(prices@.take(prices.len() as int) =~= prices@);
    Some(best)
}

/// The normalised price, in hundredths, of a product with the given purchase
/// options: the greatest contribution, or `None` where the page has no option.
pub fn normalize(options: &Vec<PurchaseOption>) -> (r: Option<u64>)
    ensures
        r matches Some(v) ==> normalized(option_prices(options@)) == Some(v as nat),
        r is None <==> options@.len() == 0,
{
    let mut prices: Vec<u64> = Vec::new();
    let mut i: usize = 0;
    while i < options.len()
        invariant
            i <= options.len(),
            nats_of(prices@) == option_prices(options@.take(i as int)),
        decreases options.len() - i,
    {
        let o = &options[i];
        let p: u64 = if o.is_dlc {
            0
        } else {
            match &o.price_text {
                Some(t) => parse_price(t.as_str()),
                None => 0,
            }
        };
        proof {
            assert(option_prices(options@.take(i + 1)) =~= option_prices(options@.take(i as int)).push(option_price(options@[i as int])));
            assert(nats_of(prices@.push(p)) =~= nats_of(prices@).push(p as nat));
        }
        prices.push(p);
        i = i + 1;
    }
    assert(options@.take(options.len() as int) =~= options@);
    max_price(&prices)
}

} // verus!
