//! Reading the resident set size out of a process status text.
use vstd::prelude::*;
use vstd::std_specs::iter::IteratorSpec;

verus! {

/// The characters of a string slice, in order.
fn chars_of(s: &str) -> (v: Vec<char>)
    ensures
        v@ == s@,
{
    broadcast use vstd::string::axiom_spec_iter, vstd::string::next_postcondition;

    let mut it = s.chars();
    let mut out: Vec<char> = Vec::new();
    loop
        invariant
            it.obeys_prophetic_iter_laws(),
            out@ + it.remaining() == s@,
            it.decrease() is Some,
        ensures
            out@ == s@,
        decreases it.decrease()->0,
    {
        let ghost before = it.remaining();
        match it.next() {
            Some(c) => {
                out.push(c);
                assert(out@ + it.remaining() =~= s@);
            },
            None => {
                assert(out@ =~= s@);
                break;
            },
        }
    }
    out
}


/// A character with the Unicode `White_Space` property (what `split_whitespace` splits at).
pub open spec fn is_unicode_space(c: char) -> bool {
    let u = c as u32;
    ||| 9 <= u <= 13
    ||| u == 32 || u == 0x85 || u == 0xA0 || u == 0x1680
    ||| 0x2000 <= u <= 0x200A
    ||| u == 0x2028 || u == 0x2029 || u == 0x202F || u == 0x205F || u == 0x3000
}

/// An ASCII decimal digit.
pub open spec fn is_digit(c: char) -> bool {
    48 <= (c as u32) <= 57
}

/// The end of the line that starts at `i`: the next newline, or the end of the text.
pub open spec fn line_end(s: Seq<char>, i: int) -> int
    decreases s.len() - i,
{
    if i >= s.len() || i < 0 {
        s.len() as int
    } else if s[i] == '\n' {
        i
    } else {
        line_end(s, i + 1)
    }
}

/// A line ends at or after its start and at or before the end of the text.
pub proof fn lemma_line_end_bounds(s: Seq<char>, i: int)
    requires
        0 <= i <= s.len(),
    ensures
        i <= line_end(s, i) <= s.len(),
    decreases s.len() - i,
{
    if i < s.len() && s[i] != '\n' {
        lemma_line_end_bounds(s, i + 1);
    }
}

/// The characters `s[i..e]` begin with `p`.
pub open spec fn starts_with_at(s: Seq<char>, i: int, e: int, p: Seq<char>) -> bool {
    e - i >= p.len() && forall|k: int| 0 <= k < p.len() ==> s[i + k] == p[k]
}

/// The start of the first line, from the line that starts at `i` on, that
/// begins with `VmRSS:`.
pub open spec fn rss_line(s: Seq<char>, i: int) -> Option<int>
    decreases s.len() + 1 - i,
{
    if i >= s.len() || i < 0 {
        None
    } else {
        let e = line_end(s, i);
        if starts_with_at(s, i, e, "VmRSS:"@) {
            Some(i)
        } else {
            proof {
                lemma_line_end_bounds(s, i);
            }
            rss_line(s, e + 1)
        }
    }
}

/// The first position in `[i, e)` that is not a space, or `e`.
pub open spec fn skip_space(s: Seq<char>, i: int, e: int) -> int
    decreases e - i,
{
    if i >= e {
        e
    } else if !is_unicode_space(s[i]) {
        i
    } else {
        skip_space(s, i + 1, e)
    }
}

/// The first position in `[i, e)` that is a space, or `e`.
pub open spec fn skip_token(s: Seq<char>, i: int, e: int) -> int
    decreases e - i,
{
    if i >= e {
        e
    } else if is_unicode_space(s[i]) {
        i
    } else {
        skip_token(s, i + 1, e)
    }
}

/// The decimal value of the digits `s[a..b]`.
pub open spec fn digits_value(s: Seq<char>, a: int, b: int) -> nat
    decreases b - a,
{
    if b <= a {
        0
    } else {
        (digits_value(s, a, b - 1) * 10 + ((s[b - 1] as u32) - 48)) as nat
    }
}

/// All of `s[a..b]` are digits.
pub open spec fn all_digits(s: Seq<char>, a: int, b: int) -> bool {
    forall|k: int| a <= k < b ==> is_digit(#[trigger] s[k])
}

/// `u64`'s `from_str` on `s[a..b]`: an optional `+`, then one or more digits,
/// whose value fits in 64 bits.
pub open spec fn parse_u64(s: Seq<char>, a: int, b: int) -> Option<nat> {
    let d = if a < b && s[a] == '+' { a + 1 } else { a };
    if d < b && all_digits(s, d, b) && digits_value(s, d, b) <= u64::MAX {
        Some(digits_value(s, d, b))
    } else {
        None
    }
}

/// The kilobytes that the line `s[i..line_end(s, i)]` reports: its second
/// whitespace-separated field read as a number, or 0 when there is none or it
/// does not parse.
pub open spec fn line_kb(s: Seq<char>, i: int) -> nat {
    let e = line_end(s, i);
    let t0 = skip_space(s, i, e);
    let e0 = skip_token(s, t0, e);
    let t1 = skip_space(s, e0, e);
    let e1 = skip_token(s, t1, e);
    if t1 < e {
        match parse_u64(s, t1, e1) {
            Some(v) => v,
            None => 0,
        }
    } else {
        0
    }
}

/// The resident set size, in kilobytes, that a status text reports on its first
/// `VmRSS:` line (0 when there is none).
pub open spec fn status_rss_kb(s: Seq<char>) -> nat {
    match rss_line(s, 0) {
        Some(i) => line_kb(s, i),
        None => 0,
    }
}

/// Kilobytes as bytes, when that fits in 64 bits.
pub open spec fn kb_to_bytes(kb: nat) -> Option<u64> {
    if kb * 1024 <= u64::MAX {
        Some((kb * 1024) as u64)
    } else {
        None
    }
}

fn is_space_char(c: char) -> (b: bool)
    ensures
        b == is_unicode_space(c),
{
    let u = c as u32;
    (9 <= u && u <= 13) || u == 32 || u == 0x85 || u == 0xA0 || u == 0x1680 || (0x2000 <= u && u <= 0x200A)
        || u == 0x2028 || u == 0x2029 || u == 0x202F || u == 0x205F || u == 0x3000
}

fn find_line_end(v: &Vec<char>, i: usize) -> (e: usize)
    requires
        i <= v@.len(),
    ensures
        e as int == line_end(v@, i as int),
{
    let mut j = i;
    while j < v.len() && v[j] != '\n'
        invariant
            i <= j <= v@.len(),
            line_end(v@, j as int) == line_end(v@, i as int),
        decreases v@.len() - j,
    {
        j = j + 1;
    }
    j
}

fn find_skip_space(v: &Vec<char>, i: usize, e: usize) -> (r: usize)
    requires
        i <= e <= v@.len(),
    ensures
        r as int == skip_space(v@, i as int, e as int),
        i <= r <= e,
{
    let mut j = i;
    while j < e && is_space_char(v[j])
        invariant
            i <= j <= e,
            e <= v@.len(),
            skip_space(v@, j as int, e as int) == skip_space(v@, i as int, e as int),
        decreases e - j,
    {
        j = j + 1;
    }
    j
}

fn find_skip_token(v: &Vec<char>, i: usize, e: usize) -> (r: usize)
    requires
        i <= e <= v@.len(),
    ensures
        r as int == skip_token(v@, i as int, e as int),
        i <= r <= e,
{
    let mut j = i;
    while j < e && !is_space_char(v[j])
        invariant
            i <= j <= e,
            e <= v@.len(),
            skip_token(v@, j as int, e as int) == skip_token(v@, i as int, e as int),
        decreases e - j,
    {
        j = j + 1;
    }
    j
}

fn starts_with_rss(v: &Vec<char>, i: usize, e: usize) -> (b: bool)
    requires
        i <= e <= v@.len(),
    ensures
        b == starts_with_at(v@, i as int, e as int, "VmRSS:"@),
{
    proof {
        reveal_strlit("VmRSS:");
    }
    if e - i < 6 {
        return false;
    }
    let b = v[i] == 'V' && v[i + 1] == 'm' && v[i + 2] == 'R' && v[i + 3] == 'S' && v[i + 4] == 'S' && v[i + 5] == ':';
    proof {
        let p = "VmRSS:"@;
        if b {
            assert forall|k: int| 0 <= k < p.len() implies v@[i + k] == p[k] by {
                assert(0 <= k < 6);
            }
        } else {
            assert(!(forall|k: int| 0 <= k < p.len() ==> v@[i + k] == p[k])) by {
                if forall|k: int| 0 <= k < p.len() ==> v@[i + k] == p[k] {
                    assert(v@[i + 0] == p[0]);
                    assert(v@[i + 1] == p[1]);
                    assert(v@[i + 2] == p[2]);
                    assert(v@[i + 3] == p[3]);
                    assert(v@[i + 4] == p[4]);
                    assert(v@[i + 5] == p[5]);
                }
            }
        }
    }
    b
}

proof fn lemma_digits_value_grows(s: Seq<char>, a: int, k: int, b: int)
    requires
        a <= k <= b,
        all_digits(s, a, b),
    ensures
        digits_value(s, a, k) <= digits_value(s, a, b),
    decreases b - k,
{
    if k < b {
        lemma_digits_value_grows(s, a, k, b - 1);
        assert(is_digit(s[b - 1]));
    }
}

fn parse_digits(v: &Vec<char>, a: usize, b: usize) -> (r: Option<u64>)
    requires
        a <= b <= v@.len(),
    ensures
        match r {
            Some(x) => parse_u64(v@, a as int, b as int) == Some(x as nat),
            None => parse_u64(v@, a as int, b as int) is None,
        },
{
    let d = if a < b && v[a] == '+' { a + 1 } else { a };
    if d >= b {
        return None;
    }
    let mut acc: u64 = 0;
    let mut k = d;
    while k < b
        invariant
            a <= d <= k <= b,
            b <= v@.len(),
            d as int == (if a < b && v@[a as int] == '+' { a + 1 } else { a as int }),
            all_digits(v@, d as int, k as int),
            acc as nat == digits_value(v@, d as int, k as int),
        decreases b - k,
    {
        let c = v[k];
        let u = c as u32;
        if u < 48 || u > 57 {
            return None;
        }
        let digit = (u - 48) as u64;
        let next = match acc.checked_mul(10) {
            Some(m) => m.checked_add(digit),
            None => None,
        };
        match next {
            Some(n) => {
                acc = n;
            },
            None => {
                proof {
                    assert(digits_value(v@, d as int, k as int + 1) > u64::MAX);
                    if all_digits(v@, d as int, b as int) {
                        lemma_digits_value_grows(v@, d as int, k as int + 1, b as int);
                    }
                }
                return None;
            },
        }
        k = k + 1;
    }
    Some(acc)
}

/// The resident set size, in bytes, that a process status text (as in
/// `/proc/self/status`) reports: the second field of the first line that begins
/// with `VmRSS:`, in kilobytes, times 1024; 0 when there is no such line or the
/// field does not parse. `None` when the byte count does not fit in 64 bits.
pub fn rss_bytes_from_status(status: &str) -> (bytes: Option<u64>)
    ensures
        bytes == kb_to_bytes(status_rss_kb(status@)),
{
    let v = chars_of(status);
    let n = v.len();
    let mut i: usize = 0;
    while i < n
        invariant
            v@ == status@,
            n == v@.len(),
            i <= n,
            rss_line(v@, i as int) == rss_line(v@, 0),
        decreases n - i,
    {
        let e = find_line_end(&v, i);
        proof {
            lemma_line_end_bounds(v@, i as int);
        }
        if starts_with_rss(&v, i, e) {
            let t0 = find_skip_space(&v, i, e);
            let e0 = find_skip_token(&v, t0, e);
            let t1 = find_skip_space(&v, e0, e);
            let e1 = find_skip_token(&v, t1, e);
            let kb: u64 = if t1 < e {
                match parse_digits(&v, t1, e1) {
                    Some(x) => x,
                    None => 0,
                }
            } else {
                0
            };
            return kb.checked_mul(1024);
        }
        proof {
            assert(rss_line(v@, i as int) == rss_line(v@, e + 1));
            assert(rss_line(v@, n as int) is None);
        }
        if e >= n {
            i = n;
        } else {
            i = e + 1;
        }
    }
    Some(0)
}

} // verus!
