use vstd::prelude::*;

verus! {

/// What a request path names.
#[derive(Clone, Copy, Debug, PartialEq, Eq, Structural)]
pub enum Route {
    /// The static index page.
    Index,
    /// The collection of all products.
    Collection,
    /// One product; the id is absent when the path gives none, or gives one
    /// too large for `usize`.
    Item(Option<usize>),
    /// Nothing this service serves.
    Unknown,
}

/// Whether `c` is an ASCII decimal digit.
pub open spec fn is_digit(c: char) -> bool {
    '0' <= c && c <= '9'
}

/// The value of an ASCII digit.
pub open spec fn digit_value(c: char) -> nat {
    (c as u32 - 48) as nat
}

/// The number that a run of decimal digits writes.
pub open spec fn digits_value(d: Seq<char>) -> nat
    decreases d.len(),
{
    if d.len() == 0 {
        0
    } else {
        digits_value(d.drop_last()) * 10 + digit_value(d.last())
    }
}

/// Whether `d` is a non-empty run of decimal digits.
pub open spec fn is_number(d: Seq<char>) -> bool {
    d.len() > 0 && forall|i: int| 0 <= i < d.len() ==> is_digit(#[trigger] d[i])
}

/// The id a run of digits gives, if it fits in `usize`.
pub open spec fn id_of(d: Seq<char>) -> Option<usize> {
    if digits_value(d) <= usize::MAX {
        Some(digits_value(d) as usize)
    } else {
        None
    }
}

/// What follows `/product/` in a path, less one trailing `/`.
pub open spec fn item_segment(p: Seq<char>) -> Seq<char> {
    let rest = p.skip("/product/"@.len() as int);
    if rest.len() > 0 && rest.last() == '/' {
        rest.drop_last()
    } else {
        rest
    }
}

/// The route of a path. The index is `/`, `/index`, `/index.htm` or
/// `/index.html`; the collection is `/products`, with or without a final
/// `/`; a product is `/product` or `/product/`, with no id, or
/// `/product/<digits>`, with or without a final `/`.
pub open spec fn route_of(p: Seq<char>) -> Route {
    if p == "/"@ || p == "/index"@ || p == "/index.htm"@ || p == "/index.html"@ {
        Route::Index
    } else if p == "/products"@ || p == "/products/"@ {
        Route::Collection
    } else if p == "/product"@ || p == "/product/"@ {
        Route::Item(None)
    } else if "/product/"@.is_prefix_of(p) && is_number(item_segment(p)) {
        Route::Item(id_of(item_segment(p)))
    } else {
        Route::Unknown
    }
}

/// Whether two strings hold the same characters.
fn text_is(s: &str, lit: &str) -> (r: bool)
    ensures
        r == (s@ == lit@),
{
    let n = s.unicode_len();
    let m = lit.unicode_len();
    if n != m {
        return false;
    }
    let mut i: usize = 0;
    while i < n
        invariant
            n == s@.len(),
            m == lit@.len(),
            n == m,
            i <= n,
            forall|j: int| 0 <= j < i ==> s@[j] == lit@[j],
        decreases n - i,
    {
        if s.get_char(i) != lit.get_char(i) {
            return false;
        }
        i = i + 1;
    }
    assert(s@ =~= lit@);
    true
}

/// Whether `s` begins with `lit`.
fn starts_with(s: &str, lit: &str) -> (r: bool)
    ensures
        r == lit@.is_prefix_of(s@),
{
    let n = s.unicode_len();
    let m = lit.unicode_len();
    if n < m {
        return false;
    }
    let mut i: usize = 0;
    while i < m
        invariant
            n == s@.len(),
            m == lit@.len(),
            m <= n,
            i <= m,
            forall|j: int| 0 <= j < i ==> s@[j] == lit@[j],
        decreases m - i,
    {
        if s.get_char(i) != lit.get_char(i) {
            assert(lit@[i as int] != s@.subrange(0, m as int)[i as int]);
            return false;
        }
        i = i + 1;
    }
    assert(lit@ =~= s@.subrange(0, m as int));
    true
}

/// A number never shrinks as digits are added to it.
proof fn lemma_digits_value_grows(d: Seq<char>, k: int)
    requires
        0 <= k <= d.len(),
    ensures
        digits_value(d.take(k)) <= digits_value(d),
    decreases d.len(),
{
    if k < d.len() {
        lemma_digits_value_grows(d.drop_last(), k);
        assert(d.drop_last().take(k) =~= d.take(k));
    } else {
        assert(d.take(k) =~= d);
    }
}

/// Whether the characters of `s` from `from` to `to` are all digits.
fn all_digits(s: &str, from: usize, to: usize) -> (r: bool)
    requires
        from <= to <= s@.len(),
    ensures
        r == forall|i: int| 0 <= i < to - from ==> is_digit(#[trigger] s@.subrange(from as int, to as int)[i]),
{
    let ghost d = s@.subrange(from as int, to as int);
    let mut i: usize = from;
    while i < to
        invariant
            from <= i <= to <= s@.len(),
            d == s@.subrange(from as int, to as int),
            forall|j: int| 0 <= j < i - from ==> is_digit(#[trigger] d[j]),
        decreases to - i,
    {
        let c = s.get_char(i);
        if !('0' <= c && c <= '9') {
            assert(d[i - from] == c);
            return false;
        }
        i = i + 1;
    }
    true
}

/// The number written by the digits of `s` from `from` to `to`, if it fits
/// in `usize`.
fn number_at(s: &str, from: usize, to: usize) -> (r: Option<usize>)
    requires
        from <= to <= s@.len(),
        forall|i: int| 0 <= i < to - from ==> is_digit(#[trigger] s@.subrange(from as int, to as int)[i]),
    ensures
        r == id_of(s@.subrange(from as int, to as int)),
{
    let ghost d = s@.subrange(from as int, to as int);
    let mut v: usize = 0;
    let mut i: usize = from;
    while i < to
        invariant
            from <= i <= to <= s@.len(),
            d == s@.subrange(from as int, to as int),
            forall|j: int| 0 <= j < to - from ==> is_digit(#[trigger] d[j]),
            v == digits_value(d.take(i - from)),
        decreases to - i,
    {
        let c = s.get_char(i);
        let ghost k = i - from;
        assert(c == d[k]);
        assert(is_digit(d[k]));
        let dig: usize = (c as u32 - 48u32) as usize;
        assert(d.take(k + 1).drop_last() =~= d.take(k));
        assert(d.take(k + 1).last() == c);
        assert(digits_value(d.take(k + 1)) == v * 10 + dig);
        if v > (usize::MAX - dig) / 10 {
            proof {
                lemma_digits_value_grows(d, k + 1);
                assert(v * 10 + dig > usize::MAX) by (nonlinear_arith)
                    requires
                        v > (usize::MAX - dig) / 10,
                        dig <= 9,
                ;
            }
            return None;
        }
        assert(v * 10 + dig <= usize::MAX) by (nonlinear_arith)
            requires
                v <= (usize::MAX - dig) / 10,
                dig <= 9,
        ;
        v = v * 10 + dig;
        i = i + 1;
    }
    assert(d.take(to - from) =~= d);
    Some(v)
}

/// The route of `path`.
pub fn route(path: &str) -> (r: Route)
    ensures
        r == route_of(path@),
{
    if text_is(path, "/") || text_is(path, "/index") || text_is(path, "/index.htm") || text_is(
        path,
        "/index.html",
    ) {
        Route::Index
    } else if text_is(path, "/products") || text_is(path, "/products/") {
        Route::Collection
    } else if text_is(path, "/product") || text_is(path, "/product/") {
        Route::Item(None)
    } else if starts_with(path, "/product/") {
        proof {
            reveal_strlit("/product/");
        }
        let n = path.unicode_len();
        let start: usize = 9;
        let mut end: usize = n;
        if n > start && path.get_char(n - 1) == '/' {
            end = n - 1;
        }
        proof {
            let rest = path@.skip(9);
            if n > start && path@[n - 1] == '/' {
                assert(rest.last() == '/');
                assert(item_segment(path@) =~= path@.subrange(9, end as int));
            } else {
                assert(item_segment(path@) =~= path@.subrange(9, end as int));
            }
        }
        if end > start && all_digits(path, start, end) {
            Route::Item(number_at(path, start, end))
        } else {
            Route::Unknown
        }
    } else {
        Route::Unknown
    }
}

} // verus!
