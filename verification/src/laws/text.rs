//! What the operations on texts do to their characters.

use crate::api;
use crate::double;
use crate::text;
use vstd::prelude::*;

verus! {

/// Two texts are ordered by the first character in which they differ, and
/// where there is none the shorter one comes first.
pub proof fn first_difference_orders(a: Seq<char>, b: Seq<char>, k: int)
    requires
        0 <= k <= a.len(),
        k <= b.len(),
        forall|j: int| 0 <= j < k ==> #[trigger] a[j] == b[j],
        k < a.len() && k < b.len() ==> a[k] != b[k],
    ensures
        text::lt(a, b) <==> k < b.len() && (k == a.len() || (a[k] as u32) < (b[k] as u32)),
    decreases a.len(),
{
    if k > 0 {
        assert(a[0] == b[0]);
        let (x, y) = (a.drop_first(), b.drop_first());
        assert forall|j: int| 0 <= j < k - 1 implies #[trigger] x[j] == y[j] by {
            assert(a[j + 1] == b[j + 1]);
        }
        first_difference_orders(x, y, k - 1);
    }
}

/// The number that decimal digits stand for.
pub open spec fn value(digits: Seq<char>) -> int
    decreases digits.len(),
{
    if digits.len() == 0 {
        0
    } else {
        10 * value(digits.drop_last()) + (digits.last() as u32 - '0' as u32)
    }
}

/// A number in decimal is made of digits, starts with none that is zero unless
/// it is zero, and reads back as that number.
pub proof fn decimal_reads_back(n: nat)
    ensures
        text::dec(n).len() > 0,
        forall|i: int| 0 <= i < text::dec(n).len() ==> '0' <= #[trigger] text::dec(n)[i] <= '9',
        n > 0 ==> text::dec(n)[0] != '0',
        value(text::dec(n)) == n,
    decreases n,
{
    reveal_strlit("0123456789");
    digit_has_its_value(n % 10);
    if n >= 10 {
        decimal_reads_back(n / 10);
        assert(text::dec(n).drop_last() =~= text::dec(n / 10));
    } else {
        assert(text::dec(n).drop_last() =~= Seq::<char>::empty());
        assert(value(Seq::<char>::empty()) == 0);
    }
}

proof fn digit_has_its_value(d: nat)
    requires
        d < 10,
    ensures
        text::digit(d) as u32 - '0' as u32 == d,
{
    reveal_strlit("0123456789");
    if d == 0 {
        assert(text::digit(d) == '0');
    } else if d == 1 {
        assert(text::digit(d) == '1');
    } else if d == 2 {
        assert(text::digit(d) == '2');
    } else if d == 3 {
        assert(text::digit(d) == '3');
    } else if d == 4 {
        assert(text::digit(d) == '4');
    } else if d == 5 {
        assert(text::digit(d) == '5');
    } else if d == 6 {
        assert(text::digit(d) == '6');
    } else if d == 7 {
        assert(text::digit(d) == '7');
    } else if d == 8 {
        assert(text::digit(d) == '8');
    } else {
        assert(text::digit(d) == '9');
    }
}

/// Parts are joined with the separator between each two: the first part, the
/// separator, and the others joined.
pub proof fn joined_from_the_front(first: Seq<char>, others: Seq<Seq<char>>, sep: Seq<char>)
    ensures
        text::joined(seq![first], sep) == first,
        others.len() > 0 ==> text::joined(seq![first] + others, sep) == first + sep + text::joined(
            others,
            sep,
        ),
    decreases others.len(),
{
    if others.len() > 0 {
        let all = seq![first] + others;
        let front = others.drop_last();
        assert(all.drop_last() =~= seq![first] + front);
        assert(all.last() == others.last());
        joined_from_the_front(first, front, sep);
        if front.len() == 0 {
            assert(all.drop_last() =~= seq![first]);
        } else {
            assert(first + sep + text::joined(front, sep) + sep + others.last() =~= first + sep + (
            text::joined(front, sep) + sep + others.last()));
        }
    }
}

/// Trimming the end takes every one of the characters that stand there and
/// nothing else.
pub proof fn end_is_trimmed(s: Seq<char>, c: char)
    ensures
        ({
            let r = text::trimmed_end(s, c);
            &&& r.len() <= s.len()
            &&& r == s.take(r.len() as int)
            &&& r.len() > 0 ==> r.last() != c
            &&& forall|i: int| r.len() <= i < s.len() ==> #[trigger] s[i] == c
        }),
    decreases s.len(),
{
    if s.len() > 0 && s.last() == c {
        let front = s.drop_last();
        end_is_trimmed(front, c);
        let r = text::trimmed_end(s, c);
        assert(r =~= s.take(r.len() as int));
        assert forall|i: int| r.len() <= i < s.len() implies #[trigger] s[i] == c by {
            if i < front.len() {
                assert(front[i] == c);
            }
        }
    } else {
        assert(s.take(s.len() as int) =~= s);
    }
}

/// Trimming the start takes whole copies of the prefix, as many as stand there,
/// and nothing else.
pub proof fn start_is_trimmed(s: Seq<char>, p: Seq<char>, rest: Seq<char>)
    requires
        p.len() > 0,
    ensures
        !text::begins(text::trimmed_start(s, p), p),
        text::trimmed_start(p + rest, p) == text::trimmed_start(rest, p),
        !text::begins(s, p) ==> text::trimmed_start(s, p) == s,
    decreases s.len(),
{
    if text::begins(s, p) {
        start_is_trimmed(s.skip(p.len() as int), p, rest);
    }
    assert((p + rest).take(p.len() as int) =~= p);
    assert((p + rest).skip(p.len() as int) =~= rest);
}

/// A host is what stands before the first colon or slash.
pub proof fn host_ends_at_colon_or_slash(s: Seq<char>, k: int)
    requires
        0 <= k <= s.len(),
        forall|i: int| 0 <= i < k ==> #[trigger] s[i] != ':' && s[i] != '/',
        k < s.len() ==> s[k] == ':' || s[k] == '/',
    ensures
        text::host_part(s) == s.take(k),
    decreases s.len(),
{
    if k > 0 {
        assert(s[0] != ':' && s[0] != '/');
        let rest = s.drop_first();
        assert forall|i: int| 0 <= i < k - 1 implies #[trigger] rest[i] != ':' && rest[i]
            != '/' by {
            assert(s[i + 1] != ':' && s[i + 1] != '/');
        }
        host_ends_at_colon_or_slash(rest, k - 1);
        assert(seq![s[0]] + rest.take(k - 1) =~= s.take(k));
    } else {
        assert(s.take(0) =~= Seq::<char>::empty());
    }
}

/// A path is written as a segment character by character: a slash and a percent
/// sign by their codes, every other character as it is.
pub proof fn segment_is_written_by_character(a: Seq<char>, b: Seq<char>, c: char)
    ensures
        text::path_segment(a + b) == text::path_segment(a) + text::path_segment(b),
        c == '/' ==> text::path_segment(seq![c]) == "%2F"@,
        c == '%' ==> text::path_segment(seq![c]) == "%25"@,
        c != '/' && c != '%' ==> text::path_segment(seq![c]) == seq![c],
    decreases b.len(),
{
    assert(seq![c].drop_last() =~= Seq::<char>::empty());
    assert(text::path_segment(seq![c].drop_last()) =~= Seq::<char>::empty());
    assert(text::path_segment(seq![c]) =~= text::path_char(c));
    if b.len() == 0 {
        assert(a + b =~= a);
        assert(text::path_segment(a) + text::path_segment(b) =~= text::path_segment(a));
    } else {
        assert((a + b).drop_last() =~= a + b.drop_last());
        segment_is_written_by_character(a, b.drop_last(), c);
        assert(text::path_segment(a + b) =~= text::path_segment(a) + text::path_segment(b));
    }
}

/// An identifier of characters that take one byte each is cut to eight of them,
/// and a shorter one is left as it is.
pub proof fn identifier_is_cut_to_eight(s: Seq<char>)
    requires
        forall|i: int| 0 <= i < s.len() ==> (#[trigger] s[i] as u32) < 0x80,
    ensures
        text::shortened(s) == if s.len() >= 8 {
            s.take(8)
        } else {
            s
        },
{
    assert forall|n: int| 0 <= n <= s.len() implies text::bytes(#[trigger] s.take(n)) == n by {
        one_byte_each(s, n);
    }
    if s.len() >= 8 {
        assert(text::bytes(s.take(8)) == 8);
    }
}

proof fn one_byte_each(s: Seq<char>, n: int)
    requires
        0 <= n <= s.len(),
        forall|i: int| 0 <= i < s.len() ==> (#[trigger] s[i] as u32) < 0x80,
    ensures
        text::bytes(s.take(n)) == n,
    decreases n,
{
    if n > 0 {
        one_byte_each(s, n - 1);
        assert(s.take(n).drop_last() =~= s.take(n - 1));
        assert((s[n - 1] as u32) < 0x80);
    }
}

/// An identifier is cut after whole characters that take eight bytes together,
/// wherever that is, and left as it is where there is no such place.
pub proof fn identifier_is_cut_after_eight_bytes(s: Seq<char>, n: int)
    requires
        0 <= n <= s.len(),
    ensures
        text::bytes(s.take(n)) == 8 ==> text::shortened(s) == s.take(n),
        text::shortened(s) == s || text::bytes(text::shortened(s)) == 8,
{
    if text::bytes(s.take(n)) == 8 {
        let k = choose|k: int| 0 <= k <= s.len() && text::bytes(#[trigger] s.take(k)) == 8;
        if k < n {
            text::bytes_grow(s, k, n);
        } else if n < k {
            text::bytes_grow(s, n, k);
        }
    }
}

/// Whether a scheme ends at the character `at`.
pub open spec fn scheme_ends_at(s: Seq<char>, at: int) -> bool {
    &&& 0 <= at
    &&& at + 3 <= s.len()
    &&& s[at] == ':'
    &&& s[at + 1] == '/'
    &&& s[at + 2] == '/'
}

/// Where an engine is, by what it announces: a URL stands for itself without
/// slashes at its end; a host with a port and a bare host are reached by http,
/// the latter at the engines' own port.
pub proof fn announced_address_is_completed(addr: Seq<char>)
    ensures
        ({
            let url = exists|at: int| scheme_ends_at(addr, at);
            let port = addr.contains(':');
            &&& url ==> api::engine_url(addr) == text::trimmed_end(addr, '/')
            &&& !url && port ==> api::engine_url(addr) == "http://"@ + addr
            &&& !url && !port ==> api::engine_url(addr) == "http://"@ + addr + ":9090"@
        }),
{
    reveal_strlit("://");
    reveal_strlit(":");
    if exists|at: int| scheme_ends_at(addr, at) {
        let at = choose|at: int| scheme_ends_at(addr, at);
        assert(addr.skip(at).take(3) =~= "://"@);
        assert(text::begins(addr.skip(at), "://"@));
    }
    if text::within(addr, "://"@) {
        let at = choose|at: int|
            0 <= at <= addr.len() && #[trigger] text::begins(addr.skip(at), "://"@);
        assert(addr.skip(at).take(3)[0] == ':');
        assert(addr.skip(at).take(3)[1] == '/');
        assert(addr.skip(at).take(3)[2] == '/');
        assert(scheme_ends_at(addr, at));
    }
    if addr.contains(':') {
        let at = addr.index_of(':');
        assert(addr.skip(at).take(1) =~= ":"@);
        assert(text::begins(addr.skip(at), ":"@));
    }
    if text::within(addr, ":"@) {
        let at = choose|at: int|
            0 <= at <= addr.len() && #[trigger] text::begins(addr.skip(at), ":"@);
        assert(addr.skip(at).take(1)[0] == ':');
        assert(addr[at] == ':');
    }
}

/// A size for people to read: in bytes below a kibibyte; otherwise in the
/// largest unit of which there is at least one, to the nearest tenth of the
/// size as a double has it, which is the size itself up to 2^53.
pub proof fn size_is_read_to_the_nearest_tenth(b: u64, unit: nat, name: Seq<char>) -> (r: (
    nat,
    nat,
))
    requires
        ({
            ||| unit == 0x400 && name == "KiB"@ && b < 0x10_0000
            ||| unit == 0x10_0000 && name == "MiB"@ && b < 0x4000_0000
            ||| unit == 0x4000_0000 && name == "GiB"@ && b < 0x100_0000_0000
            ||| unit == 0x100_0000_0000 && name == "TiB"@ && b < 0x4_0000_0000_0000
            ||| unit == 0x4_0000_0000_0000 && name == "PiB"@
        }),
        unit <= b,
    ensures
        ({
            let (size, tenths) = r;
            &&& b < 0x20_0000_0000_0000 ==> size == b
            &&& 0x20_0000_0000_0000 * size <= 0x20_0000_0000_0001 * b
            &&& 0x1F_FFFF_FFFF_FFFF * b <= 0x20_0000_0000_0000 * size
            &&& 2 * (tenths * unit) <= 20 * size + unit
            &&& 20 * size <= 2 * (tenths * unit) + unit
            &&& api::human_text(b) == text::dec(tenths / 10) + "."@ + text::dec(tenths % 10) + " "@
                + name
        }),
{
    double::nearest_whole_close(b as nat);
    let size = double::nearest_whole(b as nat);
    if b < 0x20_0000_0000_0000 {
        double::small_wholes_are_exact(b as nat);
    }
    let tenths = double::nearest_even(10 * size, unit);
    double::nearest_even_close(10 * size, unit);
    (size, tenths)
}

/// A size below a kibibyte is given in bytes.
pub proof fn small_size_is_exact(b: u64)
    requires
        b < 0x400,
    ensures
        api::human_text(b) == text::dec(b as nat) + " B"@,
{
    double::small_wholes_are_exact(b as nat);
}

} // verus!
