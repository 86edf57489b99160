//! Character-level string helpers: prefix tests, splitting on a separator,
//! decimal parsing and formatting.  Everything is specified over `Seq<char>`
//! views.

use vstd::prelude::*;

verus! {

/// Relies on std's `String::push`: appends one character at the end.
pub assume_specification[ String::push ](s: &mut String, c: char)
    ensures
        final(s)@ == old(s)@.push(c),
;

/// Relies on std's `str` equality: true exactly when the two character
/// sequences are equal.
#[verifier::external_body]
pub(crate) fn str_eq(a: &str, b: &str) -> (r: bool)
    ensures
        r == (a@ == b@),
{
    a == b
}

pub open spec fn spec_starts_with(s: Seq<char>, p: Seq<char>) -> bool {
    p.len() <= s.len() && s.subrange(0, p.len() as int) == p
}

/// True when the sequence holds no occurrence of `c`.
pub open spec fn has_no_char(s: Seq<char>, c: char) -> bool {
    forall|j: int| 0 <= j < s.len() ==> s[j] != c
}

pub fn str_starts_with(s: &str, p: &str) -> (r: bool)
    ensures
        r == spec_starts_with(s@, p@),
{
    let n = p.unicode_len();
    let m = s.unicode_len();
    if n > m {
        return false;
    }
    let mut i: usize = 0;
    while i < n
        invariant
            0 <= i <= n,
            n == p@.len(),
            m == s@.len(),
            n <= m,
            forall|j: int| 0 <= j < i ==> s@[j] == p@[j],
        decreases n - i,
    {
        if s.get_char(i) != p.get_char(i) {
            return false;
        }
        i = i + 1;
    }
    proof {
        assert(s@.subrange(0, n as int) =~= p@);
    }
    true
}

/// Number of consecutive spaces in `s` starting at index `i`.
pub open spec fn count_spaces_from(s: Seq<char>, i: int) -> int
    decreases s.len() - i,
{
    if 0 <= i < s.len() && s[i] == ' ' {
        1 + count_spaces_from(s, i + 1)
    } else {
        0
    }
}

/// Advances `i` past any spaces; exec mirror of `count_spaces_from`.
pub fn skip_spaces(s: &str, i: usize) -> (r: usize)
    requires
        i <= s@.len(),
    ensures
        r == i + count_spaces_from(s@, i as int),
        i <= r <= s@.len(),
    decreases s@.len() - i,
{
    let n = s.unicode_len();
    if i < n && s.get_char(i) == ' ' {
        skip_spaces(s, i + 1)
    } else {
        i
    }
}

/// Index of the first occurrence of `c` in `s`, assuming one exists.
pub open spec fn first_index_of(s: Seq<char>, c: char) -> int
    decreases s.len(),
{
    if s.len() == 0 {
        0
    } else if s[0] == c {
        0
    } else {
        1 + first_index_of(s.subrange(1, s.len() as int), c)
    }
}

pub proof fn lemma_first_index_of(s: Seq<char>, c: char)
    requires
        exists|j: int| 0 <= j < s.len() && s[j] == c,
    ensures
        0 <= first_index_of(s, c) < s.len(),
        s[first_index_of(s, c)] == c,
        forall|k: int| 0 <= k < first_index_of(s, c) ==> s[k] != c,
    decreases s.len(),
{
    if s.len() > 0 && s[0] != c {
        let t = s.subrange(1, s.len() as int);
        assert(exists|j: int| 0 <= j < t.len() && t[j] == c) by {
            let j0 = choose|j: int| 0 <= j < s.len() && s[j] == c;
            assert(t[j0 - 1] == c);
        }
        lemma_first_index_of(t, c);
        assert forall|k: int| 0 <= k < first_index_of(s, c) implies s[k] != c by {
            if k > 0 {
                assert(s[k] == t[k - 1]);
            }
        }
    }
}

/// `s` split at every occurrence of `c`; empty pieces are kept, as with
/// std's `str::split` on a single character.
pub open spec fn split_on(s: Seq<char>, c: char) -> Seq<Seq<char>>
    decreases s.len(),
    via split_on_decreases
{
    if exists|j: int| 0 <= j < s.len() && s[j] == c {
        let k = first_index_of(s, c);
        seq![s.subrange(0, k)] + split_on(s.subrange(k + 1, s.len() as int), c)
    } else {
        seq![s]
    }
}

#[via_fn]
proof fn split_on_decreases(s: Seq<char>, c: char) {
    if exists|j: int| 0 <= j < s.len() && s[j] == c {
        lemma_first_index_of(s, c);
    }
}

pub proof fn lemma_split_on_step(s: Seq<char>, c: char, k: int)
    requires
        0 <= k < s.len(),
        s[k] == c,
        forall|j: int| 0 <= j < k ==> s[j] != c,
    ensures
        split_on(s, c) == seq![s.subrange(0, k)] + split_on(
            s.subrange(k + 1, s.len() as int),
            c,
        ),
{
    lemma_first_index_of(s, c);
    let k0 = first_index_of(s, c);
    if k0 < k {
        assert(s[k0] != c);
        assert(false);
    }
    if k < k0 {
        assert(s[k] != c);
        assert(false);
    }
}

pub proof fn lemma_split_on_whole(s: Seq<char>, c: char)
    requires
        has_no_char(s, c),
    ensures
        split_on(s, c) == seq![s],
{
}

/// Splits `s` on every occurrence of `c`, keeping empty pieces.
pub fn split_str(s: &str, c: char) -> (r: Vec<String>)
    ensures
        r.deep_view() == split_on(s@, c),
{
    let n = s.unicode_len();
    let mut out: Vec<String> = Vec::new();
    let mut start: usize = 0;
    let mut i: usize = 0;
    proof {
        assert(s@.subrange(0, n as int) =~= s@);
        assert(out.deep_view() + split_on(s@, c) =~= split_on(s@, c));
    }
    while i < n
        invariant
            0 <= start <= i <= n,
            n == s@.len(),
            split_on(s@, c) == out.deep_view() + split_on(s@.subrange(start as int, n as int), c),
            forall|j: int| start <= j < i ==> s@[j] != c,
        decreases n - i,
    {
        if s.get_char(i) == c {
            let piece = s.substring_char(start, i);
            out.push(piece.to_owned());
            proof {
                let tail = s@.subrange(start as int, n as int);
                let k = i - start;
                assert(tail[k] == c);
                assert(forall|j: int| 0 <= j < k ==> tail[j] != c);
                lemma_split_on_step(tail, c, k);
                assert(tail.subrange(0, k) =~= s@.subrange(start as int, i as int));
                assert(tail.subrange(k + 1, tail.len() as int) =~= s@.subrange(
                    i + 1,
                    n as int,
                ));
            }
            start = i + 1;
        }
        i = i + 1;
    }
    let piece = s.substring_char(start, n);
    out.push(piece.to_owned());
    proof {
        let tail = s@.subrange(start as int, n as int);
        assert(has_no_char(tail, c));
        lemma_split_on_whole(tail, c);
    }
    out
}

pub open spec fn is_dec_digit(c: char) -> bool {
    '0' <= c && c <= '9'
}

pub open spec fn dec_digit_val(c: char) -> int {
    c as int - '0' as int
}

pub open spec fn all_dec_digits(s: Seq<char>) -> bool {
    forall|j: int| 0 <= j < s.len() ==> is_dec_digit(s[j])
}

/// Value of a string of decimal digits, most significant first.
pub open spec fn dec_value(s: Seq<char>) -> int
    decreases s.len(),
{
    if s.len() == 0 {
        0
    } else {
        dec_value(s.drop_last()) * 10 + dec_digit_val(s.last())
    }
}

pub proof fn lemma_dec_value_nonneg(s: Seq<char>)
    requires
        all_dec_digits(s),
    ensures
        dec_value(s) >= 0,
    decreases s.len(),
{
    if s.len() > 0 {
        assert(all_dec_digits(s.drop_last()));
        lemma_dec_value_nonneg(s.drop_last());
    }
}

pub proof fn lemma_dec_value_prefix(s: Seq<char>, k: int)
    requires
        all_dec_digits(s),
        0 <= k <= s.len(),
    ensures
        dec_value(s) >= dec_value(s.subrange(0, k)),
    decreases s.len() - k,
{
    if k < s.len() {
        let p = s.subrange(0, k);
        let q = s.subrange(0, k + 1);
        assert(q.drop_last() =~= p);
        assert(all_dec_digits(p));
        lemma_dec_value_nonneg(p);
        assert(dec_value(q) == dec_value(p) * 10 + dec_digit_val(q.last()));
        assert(dec_value(p) * 10 >= dec_value(p)) by (nonlinear_arith)
            requires dec_value(p) >= 0;
        lemma_dec_value_prefix(s, k + 1);
    } else {
        assert(s.subrange(0, k) =~= s);
    }
}

/// Mirror of `str::parse::<u32>` for the inputs this library meets:
/// an optional leading `+`, then one or more decimal digits whose value
/// fits in a `u32`.
pub open spec fn parse_u32_spec(s: Seq<char>) -> Option<u32> {
    let body = if s.len() >= 1 && s[0] == '+' {
        s.subrange(1, s.len() as int)
    } else {
        s
    };
    if body.len() >= 1 && all_dec_digits(body) && dec_value(body) <= u32::MAX {
        Some(dec_value(body) as u32)
    } else {
        None
    }
}

fn parse_digits(s: &str, from: usize) -> (r: Option<u32>)
    requires
        from <= s@.len(),
    ensures
        ({
            let body = s@.subrange(from as int, s@.len() as int);
            match r {
                Some(v) => body.len() >= 1 && all_dec_digits(body) && dec_value(body) <= u32::MAX
                    && v == dec_value(body),
                None => !(body.len() >= 1 && all_dec_digits(body) && dec_value(body)
                    <= u32::MAX),
            }
        }),
{
    let n = s.unicode_len();
    if from >= n {
        return None;
    }
    let ghost body = s@.subrange(from as int, s@.len() as int);
    let mut acc: u64 = 0;
    let mut i: usize = from;
    while i < n
        invariant
            from <= i <= n,
            n == s@.len(),
            body == s@.subrange(from as int, s@.len() as int),
            all_dec_digits(body.subrange(0, i - from)),
            acc == dec_value(body.subrange(0, i - from)),
            acc <= u32::MAX,
        decreases n - i,
    {
        let c = s.get_char(i);
        if !('0' <= c && c <= '9') {
            proof {
                assert(body[i - from] == s@[i as int]);
                assert(!is_dec_digit(body[i - from]));
                assert(!all_dec_digits(body));
            }
            return None;
        }
        let d: u64 = (c as u32 as u64) - ('0' as u32 as u64);
        let next: u64 = acc * 10 + d;
        proof {
            let p = body.subrange(0, i - from);
            let q = body.subrange(0, i + 1 - from);
            assert(q.drop_last() =~= p);
            assert(q.last() == body[i - from]);
            assert(body[i - from] == s@[i as int]);
            assert(d == dec_digit_val(s@[i as int]));
            assert(next == dec_value(q));
        }
        if next > 0xffff_ffffu64 {
            proof {
                let q = body.subrange(0, i + 1 - from);
                assert(all_dec_digits(q));
                if all_dec_digits(body) {
                    lemma_dec_value_prefix(body, i + 1 - from);
                }
            }
            return None;
        }
        acc = next;
        i = i + 1;
    }
    proof {
        assert(body.subrange(0, n - from) =~= body);
    }
    Some(acc as u32)
}

/// Parses a `u32` the way `str::parse::<u32>` does on the grammar above.
pub fn parse_u32(s: &str) -> (r: Option<u32>)
    ensures
        r == parse_u32_spec(s@),
{
    let n = s.unicode_len();
    if n >= 1 && s.get_char(0) == '+' {
        parse_digits(s, 1)
    } else {
        proof {
            assert(s@.subrange(0, s@.len() as int) =~= s@);
        }
        parse_digits(s, 0)
    }
}

pub open spec fn dec_digit_char(d: int) -> char {
    if d == 0 { '0' }
    else if d == 1 { '1' }
    else if d == 2 { '2' }
    else if d == 3 { '3' }
    else if d == 4 { '4' }
    else if d == 5 { '5' }
    else if d == 6 { '6' }
    else if d == 7 { '7' }
    else if d == 8 { '8' }
    else { '9' }
}

/// Decimal representation of a non-negative number, no sign, no padding.
pub open spec fn dec_str(n: int) -> Seq<char>
    decreases n,
{
    if n < 10 {
        seq![dec_digit_char(n)]
    } else {
        dec_str(n / 10).push(dec_digit_char(n % 10))
    }
}

/// Decimal representation of a signed number.
pub open spec fn dec_str_signed(n: int) -> Seq<char> {
    if n < 0 {
        seq!['-'] + dec_str(-n)
    } else {
        dec_str(n)
    }
}

fn dec_digit_exec(d: u64) -> (c: char)
    requires
        d <= 9,
    ensures
        c == dec_digit_char(d as int),
{
    match d {
        0 => '0',
        1 => '1',
        2 => '2',
        3 => '3',
        4 => '4',
        5 => '5',
        6 => '6',
        7 => '7',
        8 => '8',
        _ => '9',
    }
}

/// Appends the decimal form of `n` to `s`.
pub fn push_dec_u64(s: &mut String, n: u64)
    ensures
        final(s)@ == old(s)@ + dec_str(n as int),
    decreases n,
{
    if n < 10 {
        s.push(dec_digit_exec(n));
    } else {
        push_dec_u64(s, n / 10);
        s.push(dec_digit_exec(n % 10));
    }
}

/// Appends the decimal form of `n`, with a leading `-` when negative.
pub fn push_dec_i64(s: &mut String, n: i64)
    ensures
        final(s)@ == old(s)@ + dec_str_signed(n as int),
{
    if n < 0 {
        s.push('-');
        let mag: u64 = ((-(n + 1)) as u64) + 1;
        push_dec_u64(s, mag);
    } else {
        push_dec_u64(s, n as u64);
    }
}

/// View of an optional string as an optional character sequence.
pub open spec fn opt_str_view(o: Option<String>) -> Option<Seq<char>> {
    match o {
        Some(s) => Some(s@),
        None => None,
    }
}

/// Clone of an optional string, with the result pinned down.
pub fn clone_opt_string(o: &Option<String>) -> (r: Option<String>)
    ensures
        r == *o,
{
    match o {
        Some(s) => Some(s.clone()),
        None => None,
    }
}

} // verus!
