//! Character- and byte-level helpers shared by the other modules.

use vstd::prelude::*;
use vstd::string::{StrSliceExecFns, StringExecFns};

verus! {

broadcast use vstd::string::group_string_axioms;

/// The characters of a string slice, in order.
pub fn chars_of(s: &str) -> (out: Vec<char>)
    ensures
        out@ == s@,
{
    let mut out: Vec<char> = Vec::new();
    let mut it = s.chars();
    let ghost all = s@;
    loop
        invariant
            vstd::std_specs::iter::IteratorSpec::remaining(&it) == all.skip(out@.len() as int),
            out@ == all.take(out@.len() as int),
            out@.len() <= all.len(),
            all == s@,
        ensures
            out@ == s@,
        decreases all.len() - out@.len(),
    {
        match it.next() {
            Some(c) => {
                out.push(c);
            },
            None => {
                assert(all.skip(out@.len() as int).len() == 0);
                assert(out@ =~= all);
                break;
            },
        }
    }
    out
}


/// ASCII lowercase of one character; every other character is unchanged.
pub open spec fn lower_char(c: char) -> char {
    if 'A' <= c && c <= 'Z' {
        ((c as u32) + 32) as char
    } else {
        c
    }
}

/// ASCII lowercase of a character sequence (what `to_ascii_lowercase` gives).
pub open spec fn lower(s: Seq<char>) -> Seq<char> {
    s.map_values(|c: char| lower_char(c))
}

/// `s` ends with `t`.
pub open spec fn ends_with<T>(s: Seq<T>, t: Seq<T>) -> bool {
    t.len() <= s.len() && s.subrange(s.len() - t.len(), s.len() as int) == t
}

/// `s` with every trailing `'.'` removed (what `trim_end_matches('.')` gives).
pub open spec fn trim_trailing_dots(s: Seq<char>) -> Seq<char>
    decreases s.len(),
{
    if s.len() > 0 && s.last() == '.' {
        trim_trailing_dots(s.drop_last())
    } else {
        s
    }
}

/// A (normalised) host is the domain itself or one of its subdomains.
pub open spec fn covers(host: Seq<char>, domain: Seq<char>) -> bool {
    host == domain || ends_with(host, seq!['.'] + domain)
}

/// The form in which hosts are compared: trailing dots dropped, ASCII lowercased.
pub open spec fn host_key(host: Seq<char>) -> Seq<char> {
    lower(trim_trailing_dots(host))
}

/// A host falls under a listed domain, ignoring ASCII case and trailing dots
/// of the host.
pub open spec fn domain_matches(host: Seq<char>, domain: Seq<char>) -> bool {
    covers(host_key(host), lower(domain))
}

/// ASCII lowercase of one character.
pub fn lower_char_exec(c: char) -> (r: char)
    ensures
        r == lower_char(c),
{
    if 'A' <= c && c <= 'Z' {
        let b: u8 = c as u8;
        let l: u8 = b + 32;
        l as char
    } else {
        c
    }
}

/// Length of the prefix of `s` left after dropping trailing dots.
pub fn trimmed_dots_len(s: &Vec<char>) -> (n: usize)
    ensures
        n <= s@.len(),
        s@.take(n as int) == trim_trailing_dots(s@),
{
    let mut n = s.len();
    assert(s@.take(n as int) =~= s@);
    while n > 0 && s[n - 1] == '.'
        invariant
            n <= s@.len(),
            trim_trailing_dots(s@.take(n as int)) == trim_trailing_dots(s@),
        decreases n,
    {
        assert(s@.take(n as int).drop_last() =~= s@.take(n - 1));
        n = n - 1;
    }
    n
}

/// `lower(a[off..off + len]) == lower(b)` where `b` has length `len`.
fn lower_eq_at(a: &Vec<char>, off: usize, b: &Vec<char>) -> (r: bool)
    requires
        off + b@.len() <= a@.len(),
    ensures
        r == (lower(a@.subrange(off as int, off + b@.len())) == lower(b@)),
{
    let mut i: usize = 0;
    let alen = a.len();
    while i < b.len()
        invariant
            alen == a@.len(),
            off + b@.len() <= a@.len(),
            i <= b@.len(),
            forall|k: int| 0 <= k < i ==> lower_char(a@[off + k]) == lower_char(b@[k]),
        decreases b@.len() - i,
    {
        if lower_char_exec(a[off + i]) != lower_char_exec(b[i]) {
            assert(lower(a@.subrange(off as int, off + b@.len()))[i as int] != lower(b@)[i as int]);
            return false;
        }
        i = i + 1;
    }
    assert(lower(a@.subrange(off as int, off + b@.len())) =~= lower(b@));
    true
}

/// Whether the host prefix `h[..hlen]` (already free of trailing dots)
/// falls under `domain`, ignoring ASCII case.
pub fn covers_lower(h: &Vec<char>, hlen: usize, domain: &Vec<char>) -> (r: bool)
    requires
        hlen <= h@.len(),
    ensures
        r == covers(lower(h@.take(hlen as int)), lower(domain@)),
{
    let ghost hs = lower(h@.take(hlen as int));
    let ghost ds = lower(domain@);
    let dl = domain.len();
    if hlen == dl {
        let r = lower_eq_at(h, 0, domain);
        assert(lower(h@.subrange(0, dl as int)) =~= hs);
        proof {
            if !r {
                assert(hs != ds);
                assert(!ends_with(hs, seq!['.'] + ds));
            }
        }
        r
    } else if hlen > dl {
        let dot = h[hlen - dl - 1];
        let ghost dotted = seq!['.'] + ds;
        if dot != '.' {
            assert(hs[hlen - dl - 1] != '.');
            assert(hs.subrange(hs.len() - dotted.len(), hs.len() as int)[0] != dotted[0]);
            assert(hs.len() != ds.len());
            return false;
        }
        let r = lower_eq_at(h, hlen - dl, domain);
        assert(lower(h@.subrange(hlen - dl, hlen as int)) =~= hs.subrange(hlen - dl, hlen as int));
        proof {
            if r {
                assert(hs.subrange(hs.len() - dotted.len(), hs.len() as int) =~= dotted);
            } else {
                if ends_with(hs, dotted) {
                    assert(hs.subrange(hlen - dl, hlen as int) =~= dotted.subrange(1, dotted.len() as int));
                    assert(dotted.subrange(1, dotted.len() as int) =~= ds);
                }
            }
        }
        r
    } else {
        false
    }
}


/// Lowercasing commutes with dropping trailing dots.
pub proof fn lemma_trim_lower(s: Seq<char>)
    ensures
        trim_trailing_dots(lower(s)) == lower(trim_trailing_dots(s)),
    decreases s.len(),
{
    if s.len() > 0 {
        assert(lower(s).last() == lower_char(s.last()));
        assert(lower(s).drop_last() =~= lower(s.drop_last()));
        if s.last() == '.' {
            lemma_trim_lower(s.drop_last());
        }
    } else {
        assert(lower(s) =~= s);
    }
}

/// Lowercasing twice is lowercasing once.
pub proof fn lemma_lower_idempotent(s: Seq<char>)
    ensures
        lower(lower(s)) == lower(s),
{
    assert forall|i: int| 0 <= i < s.len() implies #[trigger] lower(lower(s))[i] == lower(s)[i] by {
        let c = s[i];
        if 'A' <= c && c <= 'Z' {
            assert(((c as u32) + 32) as char >= 'a');
        }
    }
    assert(lower(lower(s)) =~= lower(s));
}

/// The comparison key of a host ignores its ASCII case.
pub proof fn lemma_host_key_lower(h: Seq<char>)
    ensures
        host_key(lower(h)) == host_key(h),
{
    lemma_trim_lower(h);
    lemma_lower_idempotent(trim_trailing_dots(h));
}

/// The comparison key of a host ignores one more trailing dot.
pub proof fn lemma_host_key_dot(h: Seq<char>)
    ensures
        host_key(h.push('.')) == host_key(h),
{
    assert(h.push('.').drop_last() =~= h);
}

/// Lowercasing distributes over concatenation.
pub proof fn lemma_lower_concat(a: Seq<char>, b: Seq<char>)
    ensures
        lower(a + b) == lower(a) + lower(b),
{
    assert(lower(a + b) =~= lower(a) + lower(b));
}

/// Prefixing a label to a host whose normalised form is covered by a
/// domain keeps it covered.
pub proof fn lemma_covers_subdomain(h: Seq<char>, d: Seq<char>, label: Seq<char>)
    requires
        covers(h, d),
    ensures
        covers(label + seq!['.'] + h, d),
{
    let s = label + seq!['.'] + h;
    let dd = seq!['.'] + d;
    if h == d {
        assert(s.subrange(s.len() - dd.len(), s.len() as int) =~= dd);
    } else {
        assert(s.subrange(s.len() - dd.len(), s.len() as int) =~= h.subrange(h.len() - dd.len(), h.len() as int));
    }
}


/// Unicode `White_Space` (what `char::is_whitespace` and `str::trim` use).
pub open spec fn is_ws(c: char) -> bool {
    ||| ('\t' <= c && c <= '\r')
    ||| c == ' '
    ||| c == '\u{85}'
    ||| c == '\u{a0}'
    ||| c == '\u{1680}'
    ||| ('\u{2000}' <= c && c <= '\u{200a}')
    ||| c == '\u{2028}'
    ||| c == '\u{2029}'
    ||| c == '\u{202f}'
    ||| c == '\u{205f}'
    ||| c == '\u{3000}'
}

pub open spec fn trim_start_ws(s: Seq<char>) -> Seq<char>
    decreases s.len(),
{
    if s.len() > 0 && is_ws(s[0]) {
        trim_start_ws(s.drop_first())
    } else {
        s
    }
}

pub open spec fn trim_end_ws(s: Seq<char>) -> Seq<char>
    decreases s.len(),
{
    if s.len() > 0 && is_ws(s.last()) {
        trim_end_ws(s.drop_last())
    } else {
        s
    }
}

/// `s` without leading and trailing white space (what `str::trim` gives).
pub open spec fn trim_ws(s: Seq<char>) -> Seq<char> {
    trim_end_ws(trim_start_ws(s))
}

pub fn is_ws_exec(c: char) -> (r: bool)
    ensures
        r == is_ws(c),
{
    ('\t' <= c && c <= '\r') || c == ' ' || c == '\u{85}' || c == '\u{a0}' || c == '\u{1680}'
        || ('\u{2000}' <= c && c <= '\u{200a}') || c == '\u{2028}' || c == '\u{2029}'
        || c == '\u{202f}' || c == '\u{205f}' || c == '\u{3000}'
}

/// Bounds `(a, b)` of `s[from..to]` with white space trimmed from both ends.
pub fn trim_ws_bounds(s: &Vec<char>, from: usize, to: usize) -> (r: (usize, usize))
    requires
        from <= to <= s@.len(),
    ensures
        from <= r.0 <= r.1 <= to,
        s@.subrange(r.0 as int, r.1 as int) == trim_ws(s@.subrange(from as int, to as int)),
{
    let mut a = from;
    while a < to && is_ws_exec(s[a])
        invariant
            from <= a <= to <= s@.len(),
            trim_start_ws(s@.subrange(a as int, to as int)) == trim_start_ws(s@.subrange(from as int, to as int)),
        decreases to - a,
    {
        assert(s@.subrange(a as int, to as int).drop_first() =~= s@.subrange(a + 1, to as int));
        a = a + 1;
    }
    let mut b = to;
    assert(s@.subrange(a as int, b as int) == trim_start_ws(s@.subrange(from as int, to as int)));
    while b > a && is_ws_exec(s[b - 1])
        invariant
            from <= a <= b <= to <= s@.len(),
            trim_end_ws(s@.subrange(a as int, b as int)) == trim_ws(s@.subrange(from as int, to as int)),
        decreases b - a,
    {
        assert(s@.subrange(a as int, b as int).drop_last() =~= s@.subrange(a as int, b - 1));
        b = b - 1;
    }
    (a, b)
}

/// `t` occurs in `s` at index `i`.
pub open spec fn occurs_at<T>(s: Seq<T>, t: Seq<T>, i: int) -> bool {
    0 <= i && i + t.len() <= s.len() && s.subrange(i, i + t.len()) == t
}

/// The first index, from `k` on, at which `t` occurs in `s`.
pub open spec fn first_index_from<T>(s: Seq<T>, t: Seq<T>, k: int) -> Option<int>
    decreases s.len() + 1 - k,
{
    if k < 0 || k + t.len() > s.len() {
        None
    } else if occurs_at(s, t, k) {
        Some(k)
    } else {
        first_index_from(s, t, k + 1)
    }
}

/// The first index at which `t` occurs in `s`.
pub open spec fn first_index<T>(s: Seq<T>, t: Seq<T>) -> Option<int> {
    first_index_from(s, t, 0)
}

/// `t` occurs somewhere in `s` (what `str::contains` gives).
pub open spec fn contains<T>(s: Seq<T>, t: Seq<T>) -> bool {
    first_index(s, t) is Some
}

/// Whether `t` occurs in `s` at `i`.
fn occurs_at_bytes(s: &[u8], t: &[u8], i: usize) -> (r: bool)
    requires
        i + t@.len() <= s@.len(),
    ensures
        r == occurs_at(s@, t@, i as int),
{
    let mut j: usize = 0;
    let slen = s.len();
    while j < t.len()
        invariant
            slen == s@.len(),
            i + t@.len() <= s@.len(),
            j <= t@.len(),
            forall|k: int| 0 <= k < j ==> s@[i + k] == t@[k],
        decreases t@.len() - j,
    {
        if s[i + j] != t[j] {
            assert(s@.subrange(i as int, i + t@.len())[j as int] != t@[j as int]);
            return false;
        }
        j = j + 1;
    }
    assert(s@.subrange(i as int, i + t@.len()) =~= t@);
    true
}

/// The first index at which `t` occurs in `s`.
pub fn find_bytes(s: &[u8], t: &[u8]) -> (r: Option<usize>)
    ensures
        match first_index(s@, t@) {
            Some(i) => r == Some(i as usize),
            None => r is None,
        },
{
    if t.len() > s.len() {
        return None;
    }
    let last = s.len() - t.len();
    let mut i: usize = 0;
    loop
        invariant
            last + t@.len() == s@.len(),
            i <= last,
            first_index(s@, t@) == first_index_from(s@, t@, i as int),
        decreases last - i,
    {
        if occurs_at_bytes(s, t, i) {
            return Some(i);
        }
        if i == last {
            assert(first_index_from(s@, t@, i + 1) is None);
            return None;
        }
        i = i + 1;
    }
}


/// Whether `t` occurs in `s` at `i`.
fn occurs_at_chars(s: &[char], t: &[char], i: usize) -> (r: bool)
    requires
        i + t@.len() <= s@.len(),
    ensures
        r == occurs_at(s@, t@, i as int),
{
    let mut j: usize = 0;
    let slen = s.len();
    while j < t.len()
        invariant
            slen == s@.len(),
            i + t@.len() <= s@.len(),
            j <= t@.len(),
            forall|k: int| 0 <= k < j ==> s@[i + k] == t@[k],
        decreases t@.len() - j,
    {
        if s[i + j] != t[j] {
            assert(s@.subrange(i as int, i + t@.len())[j as int] != t@[j as int]);
            return false;
        }
        j = j + 1;
    }
    assert(s@.subrange(i as int, i + t@.len()) =~= t@);
    true
}

/// The first index at which `t` occurs in `s`.
pub fn find_chars(s: &[char], t: &[char]) -> (r: Option<usize>)
    ensures
        match first_index(s@, t@) {
            Some(i) => r == Some(i as usize),
            None => r is None,
        },
{
    if t.len() > s.len() {
        return None;
    }
    let last = s.len() - t.len();
    let mut i: usize = 0;
    loop
        invariant
            last + t@.len() == s@.len(),
            i <= last,
            first_index(s@, t@) == first_index_from(s@, t@, i as int),
        decreases last - i,
    {
        if occurs_at_chars(s, t, i) {
            return Some(i);
        }
        if i == last {
            assert(first_index_from(s@, t@, i + 1) is None);
            return None;
        }
        i = i + 1;
    }
}


pub open spec fn is_digit(c: char) -> bool {
    '0' <= c && c <= '9'
}

pub open spec fn digit_value(c: char) -> nat {
    ((c as int) - ('0' as int)) as nat
}

pub open spec fn all_digits(s: Seq<char>) -> bool {
    forall|i: int| 0 <= i < s.len() ==> is_digit(#[trigger] s[i])
}

/// The number a string of decimal digits denotes.
pub open spec fn digits_value(s: Seq<char>) -> nat
    decreases s.len(),
{
    if s.len() == 0 {
        0
    } else {
        digits_value(s.drop_last()) * 10 + digit_value(s.last())
    }
}

/// What `str::parse` gives for an unsigned integer type whose largest value
/// is `max`: an optional `+`, then one or more ASCII digits, in range.
pub open spec fn parse_unsigned(s: Seq<char>, max: nat) -> Option<nat> {
    let d = if s.len() > 0 && s[0] == '+' { s.drop_first() } else { s };
    if d.len() > 0 && all_digits(d) && digits_value(d) <= max {
        Some(digits_value(d))
    } else {
        None
    }
}

/// A longer digit string never denotes a smaller number.
pub proof fn lemma_digits_value_prefix(s: Seq<char>, k: int)
    requires
        0 <= k <= s.len(),
        all_digits(s),
    ensures
        digits_value(s.take(k)) <= digits_value(s),
    decreases s.len() - k,
{
    if k < s.len() {
        let t = s.take(k + 1);
        assert(t.drop_last() =~= s.take(k));
        assert(is_digit(s[k]));
        lemma_digits_value_prefix(s, k + 1);
    } else {
        assert(s.take(k) =~= s);
    }
}

/// Parses `s[from..to]` as `str::parse` does for an unsigned type with
/// largest value `max`.
pub fn parse_unsigned_range(s: &[char], from: usize, to: usize, max: u64) -> (r: Option<u64>)
    requires
        from <= to <= s@.len(),
    ensures
        match parse_unsigned(s@.subrange(from as int, to as int), max as nat) {
            Some(v) => r == Some(v as u64),
            None => r is None,
        },
{
    let ghost whole = s@.subrange(from as int, to as int);
    let mut a = from;
    if from < to && s[from] == '+' {
        a = from + 1;
    }
    let ghost d = s@.subrange(a as int, to as int);
    assert(d =~= (if whole.len() > 0 && whole[0] == '+' { whole.drop_first() } else { whole }));
    if a == to {
        return None;
    }
    let mut acc: u128 = 0;
    let mut i = a;
    while i < to
        invariant
            a <= i <= to <= s@.len(),
            d == s@.subrange(a as int, to as int),
            whole == s@.subrange(from as int, to as int),
            d == (if whole.len() > 0 && whole[0] == '+' { whole.drop_first() } else { whole }),
            d.len() > 0,
            all_digits(s@.subrange(a as int, i as int)),
            acc == digits_value(s@.subrange(a as int, i as int)),
            acc <= max,
        decreases to - i,
    {
        let c = s[i];
        if !('0' <= c && c <= '9') {
            assert(d[i - a] == c);
            assert(!is_digit(d[i - a]));
            return None;
        }
        let dv: u8 = (c as u8) - 48;
        let ghost prev = s@.subrange(a as int, i as int);
        let ghost next = s@.subrange(a as int, i + 1);
        assert(next.drop_last() =~= prev);
        assert(dv as nat == digit_value(c));
        acc = acc * 10 + (dv as u128);
        assert(all_digits(next)) by {
            assert forall|j: int| 0 <= j < next.len() implies is_digit(#[trigger] next[j]) by {
                if j < prev.len() {
                    assert(next[j] == prev[j]);
                }
            }
        }
        if acc > max as u128 {
            proof {
                assert(d.take(i + 1 - a) =~= next);
                if all_digits(d) {
                    lemma_digits_value_prefix(d, i + 1 - a);
                }
            }
            return None;
        }
        i = i + 1;
    }
    assert(s@.subrange(a as int, i as int) =~= d);
    Some(acc as u64)
}

pub open spec fn digit_char(d: nat) -> char {
    ((d + 48) as u8) as char
}

/// Decimal digits of `n` (what `{}` formatting of an unsigned number gives).
pub open spec fn dec_chars(n: nat) -> Seq<char>
    decreases n,
{
    if n < 10 {
        seq![digit_char(n)]
    } else {
        dec_chars(n / 10) + seq![digit_char(n % 10)]
    }
}

/// Appends the decimal digits of `n`.
pub fn push_decimal(out: &mut String, n: u64)
    ensures
        final(out)@ == old(out)@ + dec_chars(n as nat),
    decreases n,
{
    if n >= 10 {
        push_decimal(out, n / 10);
    }
    let d: u8 = (n % 10) as u8;
    let c: char = (d + 48) as char;
    crate::bindings::push_char(out, c);
}


/// What `first_index_from` finds is an occurrence, at or after `k`, with
/// none before it.
pub proof fn lemma_first_index_from<T>(s: Seq<T>, t: Seq<T>, k: int)
    requires
        0 <= k,
    ensures
        first_index_from(s, t, k) matches Some(i) ==> {
            &&& occurs_at(s, t, i)
            &&& k <= i
            &&& forall|j: int| k <= j < i ==> !occurs_at(s, t, j)
        },
        first_index_from(s, t, k) is None ==> forall|j: int| k <= j ==> !occurs_at(s, t, j),
    decreases s.len() + 1 - k,
{
    if k + t.len() > s.len() {
        assert forall|j: int| k <= j implies !occurs_at(s, t, j) by {}
    } else if !occurs_at(s, t, k) {
        lemma_first_index_from(s, t, k + 1);
    }
}


pub open spec fn is_bracket(c: char) -> bool {
    c == '[' || c == ']'
}

pub open spec fn trim_start_brackets(s: Seq<char>) -> Seq<char>
    decreases s.len(),
{
    if s.len() > 0 && is_bracket(s[0]) {
        trim_start_brackets(s.drop_first())
    } else {
        s
    }
}

pub open spec fn trim_end_brackets(s: Seq<char>) -> Seq<char>
    decreases s.len(),
{
    if s.len() > 0 && is_bracket(s.last()) {
        trim_end_brackets(s.drop_last())
    } else {
        s
    }
}

/// `s` without leading and trailing `[` and `]` (what
/// `trim_matches(|c| c == '[' || c == ']')` gives).
pub open spec fn trim_brackets(s: Seq<char>) -> Seq<char> {
    trim_end_brackets(trim_start_brackets(s))
}

/// Bounds `(a, b)` of `s[from..to]` with brackets trimmed from both ends.
pub fn trim_bracket_bounds(s: &Vec<char>, from: usize, to: usize) -> (r: (usize, usize))
    requires
        from <= to <= s@.len(),
    ensures
        from <= r.0 <= r.1 <= to,
        s@.subrange(r.0 as int, r.1 as int) == trim_brackets(s@.subrange(from as int, to as int)),
{
    let mut a = from;
    while a < to && (s[a] == '[' || s[a] == ']')
        invariant
            from <= a <= to <= s@.len(),
            trim_start_brackets(s@.subrange(a as int, to as int)) == trim_start_brackets(s@.subrange(from as int, to as int)),
        decreases to - a,
    {
        assert(s@.subrange(a as int, to as int).drop_first() =~= s@.subrange(a + 1, to as int));
        a = a + 1;
    }
    let mut b = to;
    assert(s@.subrange(a as int, b as int) == trim_start_brackets(s@.subrange(from as int, to as int)));
    while b > a && (s[b - 1] == '[' || s[b - 1] == ']')
        invariant
            from <= a <= b <= to <= s@.len(),
            trim_end_brackets(s@.subrange(a as int, b as int)) == trim_brackets(s@.subrange(from as int, to as int)),
        decreases b - a,
    {
        assert(s@.subrange(a as int, b as int).drop_last() =~= s@.subrange(a as int, b - 1));
        b = b - 1;
    }
    (a, b)
}

/// The last index below `k` at which `c` stands in `s`.
pub open spec fn last_index_below(s: Seq<char>, c: char, k: int) -> Option<int>
    decreases k,
{
    if k <= 0 {
        None
    } else if s[k - 1] == c {
        Some(k - 1)
    } else {
        last_index_below(s, c, k - 1)
    }
}

/// The last index at which `c` stands in `s` (what `rfind` gives, in
/// characters).
pub open spec fn last_index_of(s: Seq<char>, c: char) -> Option<int> {
    last_index_below(s, c, s.len() as int)
}

/// `s[from..to]` as an owned string.
pub fn sub_string(s: &str, from: usize, to: usize) -> (r: String)
    requires
        from <= to <= s@.len(),
    ensures
        r@ == s@.subrange(from as int, to as int),
{
    String::from_str(s.substring_char(from, to))
}

/// Whether two strings are equal.
pub fn str_eq(a: &str, b: &str) -> (r: bool)
    ensures
        r == (a@ == b@),
{
    let x = chars_of(a);
    let y = chars_of(b);
    if x.len() != y.len() {
        assert(lower(x@).len() == x@.len() && lower(y@).len() == y@.len());
        return false;
    }
    let mut i: usize = 0;
    while i < x.len()
        invariant
            x@ == a@,
            y@ == b@,
            x@.len() == y@.len(),
            i <= x@.len(),
            forall|k: int| 0 <= k < i ==> x@[k] == y@[k],
        decreases x@.len() - i,
    {
        if x[i] != y[i] {
            return false;
        }
        i = i + 1;
    }
    assert(x@ =~= y@);
    true
}

/// Whether two strings are equal ignoring ASCII case (what
/// `eq_ignore_ascii_case` gives).
pub fn eq_ignore_case(a: &str, b: &str) -> (r: bool)
    ensures
        r == (lower(a@) == lower(b@)),
{
    let x = chars_of(a);
    let y = chars_of(b);
    if x.len() != y.len() {
        assert(lower(x@).len() == x@.len() && lower(y@).len() == y@.len());
        return false;
    }
    let mut i: usize = 0;
    while i < x.len()
        invariant
            x@ == a@,
            y@ == b@,
            x@.len() == y@.len(),
            i <= x@.len(),
            forall|k: int| 0 <= k < i ==> lower_char(x@[k]) == lower_char(y@[k]),
        decreases x@.len() - i,
    {
        if lower_char_exec(x[i]) != lower_char_exec(y[i]) {
            assert(lower(x@)[i as int] != lower(y@)[i as int]);
            return false;
        }
        i = i + 1;
    }
    assert(lower(x@) =~= lower(y@));
    true
}

/// ASCII lowercase copy of a character vector.
pub fn lower_vec(v: &Vec<char>) -> (r: Vec<char>)
    ensures
        r@ == lower(v@),
{
    let mut r: Vec<char> = Vec::new();
    let mut i: usize = 0;
    while i < v.len()
        invariant
            i <= v@.len(),
            r@ == lower(v@.take(i as int)),
        decreases v@.len() - i,
    {
        r.push(lower_char_exec(v[i]));
        assert(lower(v@.take(i + 1)) =~= lower(v@.take(i as int)).push(lower_char(v@[i as int])));
        i = i + 1;
    }
    assert(v@.take(i as int) =~= v@);
    r
}


/// An occurrence at `i` with none in `[k, i)` is what `first_index_from`
/// finds.
pub proof fn lemma_first_index_is<T>(s: Seq<T>, t: Seq<T>, k: int, i: int)
    requires
        0 <= k <= i,
        occurs_at(s, t, i),
        forall|j: int| k <= j < i ==> !occurs_at(s, t, j),
    ensures
        first_index_from(s, t, k) == Some(i),
    decreases i - k,
{
    if k < i {
        lemma_first_index_is(s, t, k + 1, i);
    }
}

/// Appending bytes does not move the first occurrence of a pattern.
pub proof fn lemma_first_index_extend<T>(s: Seq<T>, t: Seq<T>, u: Seq<T>)
    requires
        first_index(s, t) is Some,
    ensures
        first_index(s + u, t) == first_index(s, t),
{
    lemma_first_index_from(s, t, 0);
    let i = first_index(s, t)->0;
    let su = s + u;
    assert(su.subrange(i, i + t.len()) =~= s.subrange(i, i + t.len()));
    assert forall|j: int| 0 <= j < i implies !occurs_at(su, t, j) by {
        assert(!occurs_at(s, t, j));
        assert(su.subrange(j, j + t.len()) =~= s.subrange(j, j + t.len()));
    }
    lemma_first_index_is(su, t, 0, i);
}


/// The decimal digits of a number are non-empty digits that denote it.
pub proof fn lemma_dec_chars(n: nat)
    ensures
        dec_chars(n).len() >= 1,
        all_digits(dec_chars(n)),
        digits_value(dec_chars(n)) == n,
    decreases n,
{
    if n < 10 {
        let c = digit_char(n);
        assert(c as int == n + 48);
        let s = dec_chars(n);
        assert(s.drop_last() =~= Seq::<char>::empty());
        assert(digits_value(s.drop_last()) == 0);
    } else {
        lemma_dec_chars(n / 10);
        let d = n % 10;
        let c = digit_char(d);
        assert(c as int == d + 48);
        let s = dec_chars(n);
        assert(s.drop_last() =~= dec_chars(n / 10));
        assert(s.last() == c);
        assert forall|i: int| 0 <= i < s.len() implies is_digit(#[trigger] s[i]) by {
            if i < s.len() - 1 {
                assert(s[i] == dec_chars(n / 10)[i]);
            }
        }
        assert((n / 10) * 10 + n % 10 == n) by (nonlinear_arith);
    }
}


/// An occurrence anywhere means `contains`.
pub proof fn lemma_occurs_contains<T>(s: Seq<T>, t: Seq<T>, i: int)
    requires
        occurs_at(s, t, i),
    ensures
        contains(s, t),
{
    lemma_first_index_from(s, t, 0);
}

} // verus!
