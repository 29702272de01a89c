//! Text: the operations on strings that the control plane needs, each with
//! its meaning over sequences of characters.

use vstd::prelude::*;
use vstd::string::*;

verus! {

/// The order of names: by code point, the shorter of two texts first where
/// one is a prefix of the other.
pub open spec fn lt(a: Seq<char>, b: Seq<char>) -> bool
    decreases a.len(),
{
    if b.len() == 0 {
        false
    } else if a.len() == 0 {
        true
    } else if a[0] != b[0] {
        (a[0] as u32) < (b[0] as u32)
    } else {
        lt(a.drop_first(), b.drop_first())
    }
}

/// No text comes before itself.
pub proof fn lt_irreflexive(a: Seq<char>)
    ensures
        !lt(a, a),
    decreases a.len(),
{
    if a.len() > 0 {
        lt_irreflexive(a.drop_first());
    }
}

/// Of two different texts one comes before the other.
pub proof fn lt_total(a: Seq<char>, b: Seq<char>)
    ensures
        a == b || lt(a, b) || lt(b, a),
    decreases a.len(),
{
    if a.len() > 0 && b.len() > 0 && a[0] == b[0] {
        lt_total(a.drop_first(), b.drop_first());
        if a.drop_first() == b.drop_first() {
            assert(a =~= seq![a[0]] + a.drop_first());
            assert(b =~= seq![b[0]] + b.drop_first());
        }
    } else if a.len() == 0 && b.len() == 0 {
        assert(a =~= b);
    } else if a.len() > 0 && b.len() > 0 {
        vstd::utf8::char_u32_cast(a[0], a[0] as u32);
        vstd::utf8::char_u32_cast(b[0], b[0] as u32);
    }
}

/// The order of names is transitive.
pub proof fn lt_transitive(a: Seq<char>, b: Seq<char>, c: Seq<char>)
    requires
        lt(a, b),
        lt(b, c),
    ensures
        lt(a, c),
    decreases a.len(),
{
    if a.len() > 0 && a[0] == b[0] && b[0] == c[0] {
        lt_transitive(a.drop_first(), b.drop_first(), c.drop_first());
    }
}

/// Two texts are never each before the other.
pub proof fn lt_asymmetric(a: Seq<char>, b: Seq<char>)
    requires
        lt(a, b),
    ensures
        !lt(b, a),
        a != b,
{
    if lt(b, a) {
        lt_transitive(a, b, a);
    }
    lt_irreflexive(a);
}

/// An owned copy of a text.
pub fn owned(s: &str) -> (r: String)
    ensures
        r@ == s@,
{
    s.to_owned()
}

/// Whether two texts are the same.
pub fn same(a: &str, b: &str) -> (r: bool)
    ensures
        r == (a@ == b@),
{
    let x: String = a.to_owned();
    let y: String = b.to_owned();
    x == y
}

/// The characters of a text.
pub fn chars_of(s: &str) -> (r: Vec<char>)
    ensures
        r@ == s@,
{
    let mut r: Vec<char> = Vec::new();
    for c in it: s.chars()
        invariant
            r@ =~= s@.take(it.index()),
            it.seq() == s@,
    {
        r.push(c);
    }
    r
}

/// Whether `a` comes before `b` in the order of names.
pub fn less(a: &str, b: &str) -> (r: bool)
    ensures
        r == lt(a@, b@),
{
    let x: Vec<char> = chars_of(a);
    let y: Vec<char> = chars_of(b);
    let mut i: usize = 0;
    assert(x@.skip(0) =~= x@ && y@.skip(0) =~= y@);
    while i < x.len() && i < y.len()
        invariant
            x@ == a@,
            y@ == b@,
            i <= x.len(),
            i <= y.len(),
            lt(x@, y@) == lt(x@.skip(i as int), y@.skip(i as int)),
        decreases x.len() - i,
    {
        let c: char = x[i];
        let d: char = y[i];
        assert(x@.skip(i as int)[0] == c && y@.skip(i as int)[0] == d);
        if c != d {
            return (c as u32) < (d as u32);
        }
        assert(x@.skip(i as int).drop_first() =~= x@.skip(i + 1));
        assert(y@.skip(i as int).drop_first() =~= y@.skip(i + 1));
        i = i + 1;
    }
    i < y.len()
}

/// The decimal digit `d`.
pub open spec fn digit(d: nat) -> char {
    "0123456789"@[d as int]
}

/// `n` in decimal.
pub open spec fn dec(n: nat) -> Seq<char>
    decreases n,
{
    if n < 10 {
        seq![digit(n)]
    } else {
        dec(n / 10).push(digit(n % 10))
    }
}

/// `n` in decimal.
pub fn decimal(n: u64) -> (r: String)
    ensures
        r@ == dec(n as nat),
    decreases n,
{
    proof {
        reveal_strlit("0123456789");
    }
    let d: usize = (n % 10) as usize;
    let last: &str = "0123456789".substring_char(d, d + 1);
    assert(last@ =~= seq![digit(d as nat)]);
    if n < 10 {
        owned(last)
    } else {
        let front: String = decimal(n / 10);
        let r: String = front.concat(last);
        assert(r@ =~= dec((n / 10) as nat).push(digit(d as nat)));
        r
    }
}

/// The parts, one after the other, with `sep` between each two.
pub open spec fn joined(parts: Seq<Seq<char>>, sep: Seq<char>) -> Seq<char>
    decreases parts.len(),
{
    if parts.len() == 0 {
        Seq::<char>::empty()
    } else if parts.len() == 1 {
        parts[0]
    } else {
        joined(parts.drop_last(), sep) + sep + parts.last()
    }
}

/// The parts, one after the other, with `sep` between each two.
pub fn join(parts: &Vec<String>, sep: &str) -> (r: String)
    ensures
        r@ == joined(parts.deep_view(), sep@),
{
    let mut r: String = String::new();
    let mut i: usize = 0;
    let ghost all = parts.deep_view();
    while i < parts.len()
        invariant
            all == parts.deep_view(),
            i <= parts.len(),
            r@ == joined(all.take(i as int), sep@),
        decreases parts.len() - i,
    {
        if i > 0 {
            r.append(sep);
        }
        r.append(parts[i].as_str());
        assert(all.take(i + 1).drop_last() =~= all.take(i as int));
        assert(all.take(i + 1).last() == parts[i as int]@);
        if i == 0 {
            assert(r@ =~= all.take(1)[0]);
        }
        i = i + 1;
    }
    assert(all.take(parts.len() as int) =~= all);
    r
}

/// Whether `name` is one of `list`.
pub fn listed(list: &[String], name: &str) -> (r: bool)
    ensures
        r == list.deep_view().contains(name@),
{
    let mut i: usize = 0;
    while i < list.len()
        invariant
            i <= list.len(),
            forall|j: int| 0 <= j < i ==> (#[trigger] list@[j])@ != name@,
        decreases list.len() - i,
    {
        if same(list[i].as_str(), name) {
            assert(list.deep_view()[i as int] == name@);
            return true;
        }
        i = i + 1;
    }
    proof {
        if list.deep_view().contains(name@) {
            let j = list.deep_view().index_of(name@);
            assert(list@[j]@ == name@);
        }
    }
    false
}

/// Whether two optional texts are the same.
pub fn same_option(a: &Option<String>, b: &Option<String>) -> (r: bool)
    ensures
        r == (a.deep_view() == b.deep_view()),
{
    match (a, b) {
        (Some(x), Some(y)) => same(x.as_str(), y.as_str()),
        (None, None) => true,
        _ => false,
    }
}

/// Whether `a` is there and is the text `b`.
pub fn is_some_text(a: &Option<String>, b: &str) -> (r: bool)
    ensures
        r == (a.deep_view() == Some(b@)),
{
    match a {
        Some(x) => same(x.as_str(), b),
        None => false,
    }
}

/// `s` without any `c` at its end.
pub open spec fn trimmed_end(s: Seq<char>, c: char) -> Seq<char>
    decreases s.len(),
{
    if s.len() > 0 && s.last() == c {
        trimmed_end(s.drop_last(), c)
    } else {
        s
    }
}

/// `s` without any `c` at its end.
pub fn trim_end(s: &str, c: char) -> (r: String)
    ensures
        r@ == trimmed_end(s@, c),
{
    let x: Vec<char> = chars_of(s);
    let mut n: usize = x.len();
    assert(s@.take(n as int) =~= s@);
    while n > 0 && x[n - 1] == c
        invariant
            n <= x.len(),
            x@ == s@,
            trimmed_end(s@, c) == trimmed_end(s@.take(n as int), c),
        decreases n,
    {
        assert(s@.take(n as int).drop_last() =~= s@.take(n - 1));
        n = n - 1;
    }
    let r: &str = s.substring_char(0, n);
    assert(r@ =~= s@.take(n as int));
    owned(r)
}

/// Whether `s` begins with `p`.
pub open spec fn begins(s: Seq<char>, p: Seq<char>) -> bool {
    p.len() <= s.len() && s.take(p.len() as int) == p
}

/// `s` without any `p` at its start, however often it stands there.
pub open spec fn trimmed_start(s: Seq<char>, p: Seq<char>) -> Seq<char>
    decreases s.len(),
{
    if p.len() > 0 && begins(s, p) {
        trimmed_start(s.skip(p.len() as int), p)
    } else {
        s
    }
}

/// Whether `s` holds `p` from its character `at` on.
fn holds_at(s: &Vec<char>, p: &Vec<char>, at: usize) -> (r: bool)
    requires
        at <= s.len(),
    ensures
        r == begins(s@.skip(at as int), p@),
{
    if p.len() > s.len() - at {
        return false;
    }
    let mut i: usize = 0;
    while i < p.len()
        invariant
            i <= p.len(),
            at <= s.len(),
            p.len() <= s.len() - at,
            forall|j: int| 0 <= j < i ==> s@[at + j] == #[trigger] p@[j],
        decreases p.len() - i,
    {
        if s[at + i] != p[i] {
            assert(s@.skip(at as int).take(p@.len() as int)[i as int] != p@[i as int]);
            return false;
        }
        i = i + 1;
    }
    assert(s@.skip(at as int).take(p@.len() as int) =~= p@);
    true
}

/// `s` without any `p` at its start, however often it stands there.
pub fn trim_start(s: &str, p: &str) -> (r: String)
    ensures
        r@ == trimmed_start(s@, p@),
{
    let x: Vec<char> = chars_of(s);
    let y: Vec<char> = chars_of(p);
    let mut at: usize = 0;
    assert(s@.skip(0) =~= s@);
    while y.len() > 0 && holds_at(&x, &y, at)
        invariant
            x@ == s@,
            y@ == p@,
            at <= x.len(),
            trimmed_start(s@, p@) == trimmed_start(s@.skip(at as int), p@),
        decreases x.len() - at,
    {
        assert(s@.skip(at as int).skip(p@.len() as int) =~= s@.skip(at + p@.len()));
        at = at + y.len();
    }
    let r: &str = s.substring_char(at, x.len());
    assert(r@ =~= s@.skip(at as int));
    owned(r)
}

/// Whether `p` stands somewhere in `s`.
pub open spec fn within(s: Seq<char>, p: Seq<char>) -> bool {
    exists|at: int| 0 <= at <= s.len() && #[trigger] begins(s.skip(at), p)
}

/// Whether `p` stands somewhere in `s`.
pub fn contains(s: &str, p: &str) -> (r: bool)
    ensures
        r == within(s@, p@),
{
    let x: Vec<char> = chars_of(s);
    let y: Vec<char> = chars_of(p);
    let mut at: usize = 0;
    loop
        invariant
            x@ == s@,
            y@ == p@,
            at <= x.len(),
            forall|b: int| 0 <= b < at ==> !(#[trigger] begins(s@.skip(b), p@)),
        decreases x.len() - at,
    {
        if holds_at(&x, &y, at) {
            return true;
        }
        if at == x.len() {
            return false;
        }
        at = at + 1;
    }
}

/// What stands in `s` before the first `:` or `/`.
pub open spec fn host_part(s: Seq<char>) -> Seq<char>
    decreases s.len(),
{
    if s.len() == 0 || s[0] == ':' || s[0] == '/' {
        Seq::<char>::empty()
    } else {
        seq![s[0]] + host_part(s.drop_first())
    }
}

/// What stands in `s` before the first `:` or `/`.
pub fn until_colon_or_slash(s: &str) -> (r: String)
    ensures
        r@ == host_part(s@),
{
    let x: Vec<char> = chars_of(s);
    let mut n: usize = 0;
    assert(s@.skip(0) =~= s@);
    assert(s@.take(0) + host_part(s@) =~= host_part(s@));
    while n < x.len() && x[n] != ':' && x[n] != '/'
        invariant
            x@ == s@,
            n <= x.len(),
            host_part(s@) == s@.take(n as int) + host_part(s@.skip(n as int)),
        decreases x.len() - n,
    {
        assert(s@.skip(n as int).drop_first() =~= s@.skip(n + 1));
        assert(s@.take(n as int) + (seq![s@[n as int]] + host_part(s@.skip(n + 1))) =~= s@.take(
            n + 1,
        ) + host_part(s@.skip(n + 1)));
        n = n + 1;
    }
    let r: &str = s.substring_char(0, n);
    assert(r@ =~= s@.take(n as int));
    assert(s@.take(n as int) + Seq::<char>::empty() =~= s@.take(n as int));
    owned(r)
}

/// How a character of a path is written in one segment of a URL.
pub open spec fn path_char(c: char) -> Seq<char> {
    if c == '%' {
        "%25"@
    } else if c == '/' {
        "%2F"@
    } else {
        seq![c]
    }
}

/// A path written as one segment of a URL.
pub open spec fn path_segment(s: Seq<char>) -> Seq<char>
    decreases s.len(),
{
    if s.len() == 0 {
        Seq::<char>::empty()
    } else {
        path_segment(s.drop_last()) + path_char(s.last())
    }
}

/// A path written as one segment of a URL.
pub fn as_segment(s: &str) -> (r: String)
    ensures
        r@ == path_segment(s@),
{
    let x: Vec<char> = chars_of(s);
    let mut r: String = String::new();
    let mut i: usize = 0;
    while i < x.len()
        invariant
            x@ == s@,
            i <= x.len(),
            r@ == path_segment(s@.take(i as int)),
        decreases x.len() - i,
    {
        assert(s@.take(i + 1).drop_last() =~= s@.take(i as int));
        let c: char = x[i];
        if c == '%' {
            r.append("%25");
        } else if c == '/' {
            r.append("%2F");
        } else {
            let one: &str = s.substring_char(i, i + 1);
            assert(one@ =~= seq![c]);
            r.append(one);
        }
        i = i + 1;
    }
    assert(s@.take(x.len() as int) =~= s@);
    r
}

/// A path written as one segment holds no slash: it stays one segment.
pub proof fn segment_has_no_slash(s: Seq<char>)
    ensures
        !path_segment(s).contains('/'),
    decreases s.len(),
{
    if s.len() > 0 {
        segment_has_no_slash(s.drop_last());
        reveal_strlit("%25");
        reveal_strlit("%2F");
        let front = path_segment(s.drop_last());
        let end = path_char(s.last());
        assert forall|i: int| 0 <= i < path_segment(s).len() implies path_segment(s)[i] != '/' by {
            if i < front.len() {
                assert(front.contains(front[i]));
                assert(path_segment(s)[i] == front[i]);
            } else {
                assert(path_segment(s)[i] == end[i - front.len()]);
            }
        }
    }
}

/// How many bytes of UTF-8 a character takes.
pub open spec fn width(c: char) -> nat {
    if (c as u32) < 0x80 {
        1
    } else if (c as u32) < 0x800 {
        2
    } else if (c as u32) < 0x10000 {
        3
    } else {
        4
    }
}

/// How many bytes of UTF-8 a text takes.
pub open spec fn bytes(s: Seq<char>) -> nat
    decreases s.len(),
{
    if s.len() == 0 {
        0
    } else {
        bytes(s.drop_last()) + width(s.last())
    }
}

/// The first eight bytes of an identifier, where they are whole characters;
/// otherwise all of it.
pub open spec fn shortened(s: Seq<char>) -> Seq<char> {
    if exists|n: int| 0 <= n <= s.len() && bytes(#[trigger] s.take(n)) == 8 {
        s.take(choose|n: int| 0 <= n <= s.len() && bytes(#[trigger] s.take(n)) == 8)
    } else {
        s
    }
}

/// More characters take more bytes.
pub proof fn bytes_grow(s: Seq<char>, m: int, n: int)
    requires
        0 <= m < n <= s.len(),
    ensures
        bytes(s.take(m)) < bytes(s.take(n)),
    decreases n - m,
{
    assert(s.take(n).drop_last() =~= s.take(n - 1));
    if m < n - 1 {
        bytes_grow(s, m, n - 1);
    }
}

/// The first eight bytes of an identifier, where they are whole characters;
/// otherwise all of it.
pub fn short(id: &str) -> (r: String)
    ensures
        r@ == shortened(id@),
{
    let x: Vec<char> = chars_of(id);
    let mut n: usize = 0;
    let mut size: usize = 0;
    while n < x.len() && size < 8
        invariant
            x@ == id@,
            n <= x.len(),
            size < 12,
            size == bytes(id@.take(n as int)),
            forall|m: int| 0 <= m < n ==> bytes(#[trigger] id@.take(m)) < 8,
        decreases x.len() - n,
    {
        let c: u32 = x[n] as u32;
        let w: usize = if c < 0x80 {
            1
        } else if c < 0x800 {
            2
        } else if c < 0x10000 {
            3
        } else {
            4
        };
        assert(id@.take(n + 1).drop_last() =~= id@.take(n as int));
        size = size + w;
        n = n + 1;
    }
    if size == 8 {
        let r: &str = id.substring_char(0, n);
        assert(r@ =~= id@.take(n as int));
        proof {
            let k = choose|k: int| 0 <= k <= id@.len() && bytes(#[trigger] id@.take(k)) == 8;
            assert(bytes(id@.take(n as int)) == 8);
            if k < n {
                bytes_grow(id@, k, n as int);
            } else if k > n {
                bytes_grow(id@, n as int, k);
            }
        }
        owned(r)
    } else {
        proof {
            assert forall|k: int| 0 <= k <= id@.len() implies bytes(#[trigger] id@.take(k))
                != 8 by {
                if k > n {
                    bytes_grow(id@, n as int, k);
                }
            }
        }
        owned(id)
    }
}

/// What `{:?}` writes for a text: the text in double quotes, with what needs
/// it escaped.
pub uninterp spec fn quoted_text(s: Seq<char>) -> Seq<char>;

/// The `Debug` form of a `str` in the standard library. The contract claims
/// only that it depends on the text alone.
#[verifier::external_body]
pub(crate) fn quoted(s: &str) -> (r: String)
    ensures
        r@ == quoted_text(s@),
{
    format!("{:?}", s)
}

/// What `{:?}` writes for a list of texts.
pub open spec fn quoted_list_text(list: Seq<Seq<char>>) -> Seq<char> {
    "["@ + joined(Seq::new(list.len(), |i: int| quoted_text(list[i])), ", "@) + "]"@
}

/// What `{:?}` writes for a list of texts.
pub fn quoted_list(list: &Vec<String>) -> (r: String)
    ensures
        r@ == quoted_list_text(list.deep_view()),
{
    let mut parts: Vec<String> = Vec::new();
    let mut i: usize = 0;
    while i < list.len()
        invariant
            i <= list.len(),
            parts.len() == i,
            forall|j: int| 0 <= j < i ==> (#[trigger] parts[j])@ == quoted_text(list[j]@),
        decreases list.len() - i,
    {
        parts.push(quoted(list[i].as_str()));
        i = i + 1;
    }
    assert(parts.deep_view() =~= Seq::new(
        list.deep_view().len(),
        |k: int| quoted_text(list.deep_view()[k]),
    ));
    owned("[").concat(join(&parts, ", ").as_str()).concat("]")
}

/// A text in lower case, as Unicode defines it.
pub uninterp spec fn lowercase_text(s: Seq<char>) -> Seq<char>;

/// `str::to_lowercase` of the standard library. The contract claims only that
/// the result depends on the text alone.
#[verifier::external_body]
pub(crate) fn lowercase(s: &str) -> (r: String)
    ensures
        r@ == lowercase_text(s@),
{
    s.to_lowercase()
}

/// A text without the white space at its two ends.
pub uninterp spec fn trimmed_text(s: Seq<char>) -> Seq<char>;

/// `str::trim` of the standard library. The contract claims that the result
/// depends on the text alone and is a part of it.
#[verifier::external_body]
pub(crate) fn trim(s: &str) -> (r: &str)
    ensures
        r@ == trimmed_text(s@),
        within(s@, r@),
{
    s.trim()
}

} // verus!
