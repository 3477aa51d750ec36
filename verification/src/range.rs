//! Byte-range request parsing and serve-window resolution.
//!
//! Only the single-range form `bytes=<start>-<end-or-empty>` is accepted.
//! Given the authoritative total size of the file, the parser yields a
//! concrete inclusive `(start, end)` window, or nothing when the header is
//! absent, malformed, or describes an unsatisfiable range; the responder
//! then falls back to a bounded default window starting at byte zero.

use vstd::prelude::*;

use crate::numfmt::all_digits;
use crate::numfmt::dec_digits;
use crate::numfmt::is_digit;
use crate::numfmt::parse_u64;

verus! {

/// Is `c` a whitespace character, as `str::trim` understands whitespace
/// (the Unicode `White_Space` set)?
pub open spec fn is_space(c: char) -> bool {
    let u = c as u32;
    ||| u == 0x20
    ||| (0x9 <= u && u <= 0xd)
    ||| u == 0x85
    ||| u == 0xa0
    ||| u == 0x1680
    ||| (0x2000 <= u && u <= 0x200a)
    ||| u == 0x2028
    ||| u == 0x2029
    ||| u == 0x202f
    ||| u == 0x205f
    ||| u == 0x3000
}

/// `s` without its leading whitespace.
pub open spec fn trim_start(s: Seq<char>) -> Seq<char>
    decreases s.len(),
{
    if s.len() > 0 && is_space(s[0]) {
        trim_start(s.skip(1))
    } else {
        s
    }
}

/// `s` without its trailing whitespace.
pub open spec fn trim_end(s: Seq<char>) -> Seq<char>
    decreases s.len(),
{
    if s.len() > 0 && is_space(s.last()) {
        trim_end(s.drop_last())
    } else {
        s
    }
}

/// `s` without leading and trailing whitespace: what `str::trim` leaves.
pub open spec fn spec_trim(s: Seq<char>) -> Seq<char> {
    trim_end(trim_start(s))
}

/// The characters of the mandatory header prefix, `bytes=`.
pub open spec fn bytes_prefix() -> Seq<char> {
    seq!['b', 'y', 't', 'e', 's', '=']
}

/// Does `s` begin with the `bytes=` prefix?
pub open spec fn has_bytes_prefix(s: Seq<char>) -> bool {
    s.len() >= 6 && s.take(6) == bytes_prefix()
}

/// Index of the first occurrence of `c` in `s`, or `s.len()` when absent.
pub open spec fn idx_of(s: Seq<char>, c: char) -> int
    decreases s.len(),
{
    if s.len() == 0 {
        0
    } else if s[0] == c {
        0
    } else {
        1 + idx_of(s.skip(1), c)
    }
}

/// `idx_of` names the least index holding `c`, or the length when no
/// position does.
pub proof fn lemma_idx_of(s: Seq<char>, c: char)
    ensures
        0 <= idx_of(s, c) <= s.len(),
        idx_of(s, c) < s.len() ==> s[idx_of(s, c)] == c,
        forall|k: int| 0 <= k < idx_of(s, c) ==> s[k] != c,
    decreases s.len(),
{
    if s.len() > 0 && s[0] != c {
        lemma_idx_of(s.skip(1), c);
        assert forall|k: int| 0 <= k < idx_of(s, c) implies s[k] != c by {
            if k > 0 {
                assert(s.skip(1)[k - 1] == s[k]);
            }
        }
        if idx_of(s, c) < s.len() {
            assert(s.skip(1)[idx_of(s, c) - 1] == s[idx_of(s, c)]);
        }
    }
}

/// Does the header body hold exactly one `-`: one somewhere, and none
/// after it?  The single-range form demands exactly this shape.
pub open spec fn single_dash(body: Seq<char>) -> bool {
    let x = idx_of(body, '-');
    x < body.len() && idx_of(body.skip(x + 1), '-') == body.skip(x + 1).len()
}

/// The start field of a header body: the text before its dash, trimmed.
pub open spec fn start_field(body: Seq<char>) -> Seq<char> {
    spec_trim(body.take(idx_of(body, '-')))
}

/// The end field of a header body: the text after its dash, trimmed.
pub open spec fn end_field(body: Seq<char>) -> Seq<char> {
    spec_trim(body.skip(idx_of(body, '-') + 1))
}

/// `total - 1`, with zero total held at zero.
pub open spec fn last_byte(total: u64) -> u64 {
    if total == 0 {
        0
    } else {
        (total - 1) as u64
    }
}

/// What the range parser yields for header value `value` against a file of
/// `total` bytes: the concrete inclusive window, or nothing when the
/// header is malformed or the range unsatisfiable.  Only the single-range
/// form `bytes=<start>-<end-or-empty>` is accepted: the trimmed value must
/// carry the prefix and exactly one dash.  The end field defaults to the
/// last byte when empty, and is clamped to the last byte in any case; a
/// window is unsatisfiable when its start exceeds its end or falls at or
/// beyond the total size.
pub open spec fn spec_parse_range(value: Seq<char>, total: u64) -> Option<(u64, u64)> {
    let v = spec_trim(value);
    if !has_bytes_prefix(v) {
        None
    } else {
        let body = v.skip(6);
        if !single_dash(body) {
            None
        } else {
            match parse_u64(start_field(body)) {
                None => None,
                Some(start) => {
                    let end_opt = if end_field(body).len() == 0 {
                        Some(last_byte(total))
                    } else {
                        parse_u64(end_field(body))
                    };
                    match end_opt {
                        None => None,
                        Some(end) => if start > end || start >= total {
                            None
                        } else {
                            Some(
                                (
                                    start,
                                    if end < last_byte(total) {
                                        end
                                    } else {
                                        last_byte(total)
                                    },
                                ),
                            )
                        },
                    }
                },
            }
        }
    }
}

/// The bounded default window served when no usable range was requested:
/// it starts at byte zero and ends at the smaller of the default chunk's
/// last byte and the file's last byte.
pub open spec fn default_window(total: u64) -> (u64, u64)
    recommends
        total > 0,
{
    (
        0u64,
        if crate::DEFAULT_CHUNK_SIZE - 1 < last_byte(total) {
            (crate::DEFAULT_CHUNK_SIZE - 1) as u64
        } else {
            last_byte(total)
        },
    )
}

/// The serve window chosen for an optional raw range header against a file
/// of `total` bytes: the parsed window when the header is present and
/// usable, and the bounded default window otherwise.
pub open spec fn spec_resolve_window(range: Option<Seq<char>>, total: u64) -> (u64, u64)
    recommends
        total > 0,
{
    match range {
        Some(h) => match spec_parse_range(h, total) {
            Some(w) => w,
            None => default_window(total),
        },
        None => default_window(total),
    }
}

/// Trimming an all-digit text leaves it unchanged.
proof fn lemma_trim_of_digits(s: Seq<char>)
    requires
        all_digits(s),
    ensures
        spec_trim(s) == s,
{
    if s.len() > 0 {
        assert(is_digit(s[0]));
        assert(!is_space(s[0]));
        assert(trim_start(s) == s);
        assert(is_digit(s.last()));
        assert(!is_space(s.last()));
        assert(trim_end(s) == s);
    }
}

/// An all-digit text holds no dash.
proof fn lemma_digits_have_no_dash(s: Seq<char>)
    requires
        all_digits(s),
    ensures
        idx_of(s, '-') == s.len(),
{
    lemma_idx_of(s, '-');
    if idx_of(s, '-') < s.len() {
        assert(is_digit(s[idx_of(s, '-')]));
        assert('-' as u32 == 45);
    }
}

/// The header `bytes=<d1>-<d2>`, with `d1` a numeral and `d2` a numeral or
/// empty, decomposes into exactly those fields: nothing is trimmed away,
/// the prefix is found, the dash is unique, and the fields are `d1` and
/// `d2` themselves.
proof fn lemma_decimal_header_fields(d1: Seq<char>, d2: Seq<char>)
    requires
        d1.len() > 0,
        all_digits(d1),
        all_digits(d2),
    ensures
        ({
            let h = bytes_prefix() + d1 + seq!['-'] + d2;
            let body = spec_trim(h).skip(6);
            &&& spec_trim(h) == h
            &&& has_bytes_prefix(h)
            &&& body == d1 + seq!['-'] + d2
            &&& single_dash(body)
            &&& start_field(body) == d1
            &&& end_field(body) == d2
        }),
{
    let h = bytes_prefix() + d1 + seq!['-'] + d2;
    assert(h[0] == 'b');
    assert(!is_space(h[0]));
    assert(trim_start(h) == h);
    if d2.len() > 0 {
        assert(h.last() == d2.last());
        assert(is_digit(d2.last()));
    } else {
        assert(h.last() == '-');
    }
    assert(!is_space(h.last()));
    assert(trim_end(h) == h);
    assert(h.take(6) =~= bytes_prefix());
    assert(has_bytes_prefix(h));
    let body = h.skip(6);
    assert(body =~= d1 + seq!['-'] + d2);
    lemma_idx_of(body, '-');
    let x = idx_of(body, '-');
    assert(x == d1.len()) by {
        if x < d1.len() {
            assert(body[x] == d1[x]);
            assert(is_digit(d1[x]));
            assert('-' as u32 == 45);
        }
        if x > d1.len() {
            assert(body[d1.len() as int] == '-');
        }
    }
    let rest = body.skip(x + 1);
    assert(rest =~= d2);
    lemma_digits_have_no_dash(d2);
    assert(x < body.len());
    assert(single_dash(body));
    assert(body.take(x) =~= d1);
    lemma_trim_of_digits(d1);
    assert(start_field(body) == d1);
    lemma_trim_of_digits(d2);
    assert(end_field(body) == d2);
}

/// Whenever a header's end field is empty — the end was omitted — and its
/// start field names a byte within the file, the resolved window runs to
/// the file's last byte.
pub proof fn lemma_omitted_end_resolves_to_last_byte(value: Seq<char>, total: u64, start: u64)
    requires
        ({
            let v = spec_trim(value);
            let body = v.skip(6);
            &&& has_bytes_prefix(v)
            &&& single_dash(body)
            &&& parse_u64(start_field(body)) == Some(start)
            &&& end_field(body).len() == 0
        }),
        start < total,
    ensures
        spec_parse_range(value, total) == Some((start, (total - 1) as u64)),
{
}

/// A header of the form `bytes=<start>-`, with the end omitted and the
/// start within the file, resolves to the window that ends at the file's
/// last byte; with the start at or beyond the total it is refused.
pub proof fn lemma_open_range_resolution(start: u64, total: u64)
    ensures
        start < total ==> spec_parse_range(bytes_prefix() + dec_digits(start as nat) + seq!['-'], total)
            == Some((start, (total - 1) as u64)),
        start >= total ==> spec_parse_range(
            bytes_prefix() + dec_digits(start as nat) + seq!['-'],
            total,
        ) is None,
{
    crate::numfmt::lemma_dec_digits_roundtrip(start as nat);
    crate::numfmt::lemma_parse_dec_digits(start);
    let ds = dec_digits(start as nat);
    lemma_decimal_header_fields(ds, Seq::<char>::empty());
    assert(bytes_prefix() + ds + seq!['-'] =~= bytes_prefix() + ds + seq!['-']
        + Seq::<char>::empty());
    if start < total {
        assert(last_byte(total) == (total - 1) as u64);
        assert(start <= (total - 1) as u64);
    }
}

/// A header `bytes=<start>-<end>` whose start exceeds its end, or lies at
/// or beyond the total size, is refused.
pub proof fn lemma_unsatisfiable_decimal_range_rejected(start: u64, end: u64, total: u64)
    requires
        start > end || start >= total,
    ensures
        spec_parse_range(
            bytes_prefix() + dec_digits(start as nat) + seq!['-'] + dec_digits(end as nat),
            total,
        ) is None,
{
    crate::numfmt::lemma_parse_dec_digits(start);
    crate::numfmt::lemma_parse_dec_digits(end);
    crate::numfmt::lemma_dec_digits_roundtrip(start as nat);
    crate::numfmt::lemma_dec_digits_roundtrip(end as nat);
    lemma_decimal_header_fields(dec_digits(start as nat), dec_digits(end as nat));
}

/// A request whose start field lies beyond its end field, or at or beyond
/// the total size, is unusable: the parser refuses it, and the resolved
/// window falls back to the bounded default window.
pub proof fn lemma_unsatisfiable_range_falls_back(
    value: Seq<char>,
    total: u64,
    start: u64,
    end: u64,
)
    requires
        total > 0,
        ({
            let body = spec_trim(value).skip(6);
            &&& parse_u64(start_field(body)) == Some(start)
            &&& (if end_field(body).len() == 0 {
                end == last_byte(total)
            } else {
                parse_u64(end_field(body)) == Some(end)
            })
        }),
        start > end || start >= total,
    ensures
        spec_parse_range(value, total) is None,
        spec_resolve_window(Some(value), total) == default_window(total),
{
}

/// The default window is capped by the chunk size: a file larger than the
/// default chunk is served its first chunk, a smaller one whole.
pub proof fn lemma_default_window_caps_at_chunk(total: u64)
    requires
        total > 0,
    ensures
        total > crate::DEFAULT_CHUNK_SIZE ==> default_window(total) == (
            0u64,
            (crate::DEFAULT_CHUNK_SIZE - 1) as u64,
        ),
        total <= crate::DEFAULT_CHUNK_SIZE ==> default_window(total) == (
            0u64,
            (total - 1) as u64,
        ),
{
}

/// Is `c` whitespace?  Mirrors [`is_space`].
fn is_space_char(c: char) -> (r: bool)
    ensures
        r == is_space(c),
{
    let u = c as u32;
    u == 0x20 || (0x9 <= u && u <= 0xd) || u == 0x85 || u == 0xa0 || u == 0x1680 || (0x2000 <= u
        && u <= 0x200a) || u == 0x2028 || u == 0x2029 || u == 0x202f || u == 0x205f || u == 0x3000
}

/// Leading whitespace, one index at a time, is what `trim_start` removes.
proof fn lemma_trim_start_at(s: Seq<char>, i: int)
    requires
        0 <= i <= s.len(),
        forall|k: int| 0 <= k < i ==> is_space(#[trigger] s[k]),
        i == s.len() || !is_space(s[i]),
    ensures
        trim_start(s) == s.skip(i),
    decreases i,
{
    if i == 0 {
        assert(s.skip(0) =~= s);
    } else {
        lemma_trim_start_at(s.skip(1), i - 1);
        assert(s.skip(1).skip(i - 1) =~= s.skip(i));
    }
}

/// Trailing whitespace, one index at a time, is what `trim_end` removes.
proof fn lemma_trim_end_at(s: Seq<char>, j: int)
    requires
        0 <= j <= s.len(),
        forall|k: int| j <= k < s.len() ==> is_space(#[trigger] s[k]),
        j == 0 || !is_space(s[j - 1]),
    ensures
        trim_end(s) == s.take(j),
    decreases s.len() - j,
{
    if j == s.len() {
        assert(s.take(j) =~= s);
    } else {
        lemma_trim_end_at(s.drop_last(), j);
        assert(s.drop_last().take(j) =~= s.take(j));
    }
}

/// Trim a string slice: what remains of `s` after leading and trailing
/// whitespace goes.
fn trim_str(s: &str) -> (r: &str)
    ensures
        r@ == spec_trim(s@),
{
    let n = s.unicode_len();
    let mut i: usize = 0;
    while i < n && is_space_char(s.get_char(i))
        invariant
            n == s@.len(),
            0 <= i <= n,
            forall|k: int| 0 <= k < i ==> is_space(#[trigger] s@[k]),
        decreases n - i,
    {
        i = i + 1;
    }
    proof {
        lemma_trim_start_at(s@, i as int);
    }
    let mut j: usize = n;
    while j > i && is_space_char(s.get_char(j - 1))
        invariant
            n == s@.len(),
            i <= j <= n,
            i == n || !is_space(s@[i as int]),
            forall|k: int| j <= k < n ==> is_space(#[trigger] s@[k]),
        decreases j,
    {
        j = j - 1;
    }
    let r = s.substring_char(i, j);
    proof {
        let t = s@.skip(i as int);
        assert forall|k: int| j - i <= k < t.len() implies is_space(#[trigger] t[k]) by {
            assert(t[k] == s@[k + i]);
        }
        if j > i {
            assert(t[j - i - 1] == s@[j - 1]);
        }
        lemma_trim_end_at(t, j - i);
        assert(t.take(j - i) =~= s@.subrange(i as int, j as int));
    }
    r
}

/// Does `s` begin with `bytes=`?  Mirrors [`has_bytes_prefix`].
fn has_bytes_prefix_str(s: &str) -> (r: bool)
    ensures
        r == has_bytes_prefix(s@),
{
    let n = s.unicode_len();
    if n < 6 {
        proof {
            assert(!has_bytes_prefix(s@));
        }
        return false;
    }
    let r = s.get_char(0) == 'b' && s.get_char(1) == 'y' && s.get_char(2) == 't' && s.get_char(3)
        == 'e' && s.get_char(4) == 's' && s.get_char(5) == '=';
    proof {
        if r {
            assert(s@.take(6) =~= bytes_prefix());
        } else {
            assert(s@.take(6) != bytes_prefix()) by {
                if s@.take(6) == bytes_prefix() {
                    assert(s@[0] == s@.take(6)[0]);
                    assert(s@[1] == s@.take(6)[1]);
                    assert(s@[2] == s@.take(6)[2]);
                    assert(s@[3] == s@.take(6)[3]);
                    assert(s@[4] == s@.take(6)[4]);
                    assert(s@[5] == s@.take(6)[5]);
                }
            }
        }
    }
    r
}

/// Index of the first `c` in `s`, or the length of `s` when absent.
pub(crate) fn find_char(s: &str, c: char) -> (r: usize)
    ensures
        r as int == idx_of(s@, c),
        r <= s@.len(),
{
    let n = s.unicode_len();
    let mut i: usize = 0;
    while i < n && s.get_char(i) != c
        invariant
            n == s@.len(),
            0 <= i <= n,
            forall|k: int| 0 <= k < i ==> s@[k] != c,
        decreases n - i,
    {
        i = i + 1;
    }
    proof {
        lemma_idx_of(s@, c);
        let x = idx_of(s@, c);
        if i < n {
            if x < i {
                assert(s@[x] == c);
            }
            if i < x {
                assert(s@[i as int] != c);
            }
        } else {
            if x < n {
                assert(s@[x] == c);
            }
        }
    }
    i
}

/// Parse `s` as a `u64` numeral: an optional `+` sign followed by decimal
/// digits.  Mirrors [`parse_u64`].
fn parse_u64_str(s: &str) -> (r: Option<u64>)
    ensures
        r == parse_u64(s@),
{
    let n = s.unicode_len();
    let mut i: usize = 0;
    if n > 0 && s.get_char(0) == '+' {
        i = 1;
    }
    let ghost d = crate::numfmt::unsigned_body(s@);
    proof {
        assert(d =~= s@.skip(i as int));
    }
    if i == n {
        proof {
            assert(d.len() == 0);
        }
        return None;
    }
    let mut acc: u64 = 0;
    let mut j: usize = i;
    while j < n
        invariant
            n == s@.len(),
            i <= j <= n,
            d == s@.skip(i as int),
            d == crate::numfmt::unsigned_body(s@),
            forall|k: int| 0 <= k < j - i ==> is_digit(#[trigger] d[k]),
            acc == crate::numfmt::digits_val(d.take(j - i)),
        decreases n - j,
    {
        let c = s.get_char(j);
        proof {
            assert(d[j - i] == s@[j as int]);
        }
        let u = c as u32;
        if !(48 <= u && u <= 57) {
            proof {
                assert(!is_digit(d[j - i]));
            }
            return None;
        }
        let dv: u64 = (u - 48) as u64;
        proof {
            assert(dv == crate::numfmt::digit_val(c));
        }
        let limit: u64 = (u64::MAX - dv) / 10;
        proof {
            vstd::arithmetic::div_mod::lemma_fundamental_div_mod((u64::MAX - dv) as int, 10);
            assert(limit * 10 + ((u64::MAX - dv) as int % 10) == u64::MAX - dv);
            assert(0 <= (u64::MAX - dv) as int % 10 < 10) by {
                vstd::arithmetic::div_mod::lemma_mod_division_less_than_divisor(
                    (u64::MAX - dv) as int,
                    10,
                );
            }
        }
        if acc > limit {
            proof {
                assert(acc * 10 + dv > u64::MAX) by {
                    assert(acc >= limit + 1);
                    vstd::arithmetic::mul::lemma_mul_inequality(limit + 1, acc as int, 10);
                }
                crate::numfmt::lemma_digits_val_push(d.take(j - i), c);
                assert(d.take(j - i).push(c) =~= d.take(j - i + 1));
                assert(crate::numfmt::digits_val(d.take(j - i + 1)) > u64::MAX);
                crate::numfmt::lemma_digits_val_prefix_le(d, j - i + 1, d.len() as int);
                assert(d.take(d.len() as int) =~= d);
            }
            return None;
        }
        proof {
            assert(acc * 10 + dv <= u64::MAX) by {
                vstd::arithmetic::mul::lemma_mul_inequality(acc as int, limit as int, 10);
            }
            crate::numfmt::lemma_digits_val_push(d.take(j - i), c);
            assert(d.take(j - i).push(c) =~= d.take(j - i + 1));
        }
        acc = acc * 10 + dv;
        j = j + 1;
    }
    proof {
        assert(d.take(n - i) =~= d);
    }
    Some(acc)
}

/// Parse a raw range-header value against the total file size, yielding
/// the concrete inclusive serve window or nothing when the header is
/// unusable.  The result is exactly what [`spec_parse_range`] names: only
/// the single-range form `bytes=<start>-<end-or-empty>` is accepted; an
/// omitted end resolves to `total - 1`, a requested end is clamped to
/// `total - 1`, and a window starting at or beyond the total, or beyond
/// its own end, is rejected.
pub fn parse_range_header(value: &str, total: u64) -> (r: Option<(u64, u64)>)
    ensures
        r == spec_parse_range(value@, total),
{
    let v = trim_str(value);
    if !has_bytes_prefix_str(v) {
        return None;
    }
    let n = v.unicode_len();
    let body = v.substring_char(6, n);
    proof {
        assert(body@ =~= v@.skip(6));
    }
    let bn = body.unicode_len();
    let dash = find_char(body, '-');
    if dash == bn {
        proof {
            assert(!single_dash(body@));
        }
        return None;
    }
    let rest = body.substring_char(dash + 1, bn);
    proof {
        assert(rest@ =~= body@.skip(dash + 1));
    }
    let dash2 = find_char(rest, '-');
    if dash2 != rest.unicode_len() {
        proof {
            lemma_idx_of(rest@, '-');
            assert(!single_dash(body@));
        }
        return None;
    }
    proof {
        lemma_idx_of(body@, '-');
        assert(single_dash(body@));
    }
    let start_str = trim_str(body.substring_char(0, dash));
    proof {
        assert(body@.take(dash as int) =~= body@.subrange(0, dash as int));
        assert(start_str@ == start_field(body@));
    }
    let start = match parse_u64_str(start_str) {
        Some(start) => start,
        None => {
            return None;
        },
    };
    let end_str = trim_str(rest);
    proof {
        assert(end_str@ == end_field(body@));
    }
    let last: u64 = if total == 0 {
        0
    } else {
        total - 1
    };
    let end_opt: Option<u64> = if end_str.unicode_len() == 0 {
        Some(last)
    } else {
        parse_u64_str(end_str)
    };
    let end = match end_opt {
        Some(end) => end,
        None => {
            return None;
        },
    };
    if start > end || start >= total {
        None
    } else {
        Some((start, if end < last {
            end
        } else {
            last
        }))
    }
}

} // verus!
