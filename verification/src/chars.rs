use vstd::prelude::*;

verus! {

/// The characters that Unicode lists with the `White_Space` property.
pub open spec fn is_unicode_whitespace(c: char) -> bool {
    let v = c as u32;
    ||| 0x09 <= v <= 0x0D
    ||| v == 0x20
    ||| v == 0x85
    ||| v == 0xA0
    ||| v == 0x1680
    ||| 0x2000 <= v <= 0x200A
    ||| v == 0x2028
    ||| v == 0x2029
    ||| v == 0x202F
    ||| v == 0x205F
    ||| v == 0x3000
}

/// Whether `c` is white space in the Unicode sense, as `char::is_whitespace` decides.
pub fn is_whitespace(c: char) -> (r: bool)
    ensures
        r == is_unicode_whitespace(c),
{
    let v = c as u32;
    (0x09 <= v && v <= 0x0D) || v == 0x20 || v == 0x85 || v == 0xA0 || v == 0x1680 || (0x2000
        <= v && v <= 0x200A) || v == 0x2028 || v == 0x2029 || v == 0x202F || v == 0x205F || v
        == 0x3000
}

/// The characters of `s`, in order.
pub fn str_chars(s: &str) -> (r: Vec<char>)
    ensures
        r@ == s@,
{
    let mut out: Vec<char> = Vec::new();
    for c in it: s.chars()
        invariant
            out@ == it.seq().take(it.index() as int),
            it.seq() == s@,
    {
        out.push(c);
    }
    out
}

/// Appends `c` to `s` (`String::push`).
#[verifier::external_body]
pub fn push_char(s: &mut String, c: char)
    ensures
        final(s)@ == old(s)@.push(c),
{
    s.push(c);
}


/// The decimal digit character for `d` (`0` to `9`).
pub open spec fn digit_char(d: nat) -> char {
    ((d + 48) as u32) as char
}

/// The decimal representation of `n`, without sign or leading zeros.
pub open spec fn decimal(n: nat) -> Seq<char>
    decreases n,
{
    if n < 10 {
        seq![digit_char(n)]
    } else {
        decimal(n / 10).push(digit_char(n % 10))
    }
}

/// The decimal representation of `n`, as `n.to_string()` writes it.
pub fn decimal_string(n: u32) -> (r: String)
    ensures
        r@ == decimal(n as nat),
    decreases n,
{
    if n < 10 {
        let mut s = String::new();
        push_char(&mut s, digit_of(n));
        s
    } else {
        let mut s = decimal_string(n / 10);
        push_char(&mut s, digit_of(n % 10));
        s
    }
}

pub fn digit_of(d: u32) -> (c: char)
    requires
        d < 10,
    ensures
        c == digit_char(d as nat),
{
    match d {
        0 => '0',
        1 => '1',
        2 => '2',
        3 => '3',
        4 => '4',
        5 => '5',
        6 => '6',
        7 => '7',
        8 => '8',
        _ => '9',
    }
}

/// The number that the decimal digits of `d` write (any leading zeros allowed).
pub open spec fn digits_value(d: Seq<char>) -> int
    decreases d.len(),
{
    if d.len() == 0 {
        0
    } else {
        digits_value(d.drop_last()) * 10 + ((d.last() as u32) - 48)
    }
}

pub open spec fn all_decimal(d: Seq<char>) -> bool {
    forall|i: int| 0 <= i < d.len() ==> '0' <= #[trigger] d[i] <= '9'
}

/// What `u16::from_str` makes of `s`: an optional `+`, then at least one decimal digit, the
/// value at most 65535.
pub open spec fn spec_parse_u16(s: Seq<char>) -> Option<u16> {
    if s.len() == 0 || (s.len() == 1 && (s[0] == '+' || s[0] == '-')) {
        None
    } else {
        let d = if s[0] == '+' {
            s.drop_first()
        } else {
            s
        };
        if all_decimal(d) && digits_value(d) <= 65535 {
            Some(digits_value(d) as u16)
        } else {
            None
        }
    }
}

proof fn lemma_digits_value_grows(d: Seq<char>, k: int)
    requires
        0 <= k <= d.len(),
        all_decimal(d),
    ensures
        0 <= digits_value(d.take(k)) <= digits_value(d),
    decreases d.len(),
{
    if d.len() > 0 {
        if k == d.len() {
            assert(d.take(k) =~= d);
            lemma_digits_value_grows(d.drop_last(), k - 1);
            assert(d.drop_last().take(k - 1) =~= d.drop_last());
        } else {
            lemma_digits_value_grows(d.drop_last(), k);
            assert(d.drop_last().take(k) =~= d.take(k));
            lemma_digits_value_grows(d.drop_last(), d.len() - 1);
            assert(d.drop_last().take(d.len() - 1) =~= d.drop_last());
        }
    } else {
        assert(d.take(k) =~= d);
    }
}

/// `s` read as a `u16` the way `str::parse::<u16>` reads it.
pub fn parse_u16(s: &Vec<char>) -> (r: Option<u16>)
    ensures
        r == spec_parse_u16(s@),
{
    let n = s.len();
    if n == 0 || (n == 1 && (s[0] == '+' || s[0] == '-')) {
        return None;
    }
    let start: usize = if s[0] == '+' {
        1
    } else {
        0
    };
    let ghost d = if s@[0] == '+' {
        s@.drop_first()
    } else {
        s@
    };
    assert(d =~= s@.skip(start as int));
    let mut value: u32 = 0;
    let mut i: usize = start;
    while i < n
        invariant
            start <= i <= n == s@.len(),
            n > 0,
            !(n == 1 && (s@[0] == '+' || s@[0] == '-')),
            d == (if s@[0] == '+' {
                s@.drop_first()
            } else {
                s@
            }),
            d =~= s@.skip(start as int),
            all_decimal(d.take(i - start)),
            value == digits_value(d.take(i - start)),
            value <= 65535,
        decreases n - i,
    {
        let c = s[i];
        if c < '0' || c > '9' {
            assert(!('0' <= d[i - start] <= '9'));
            return None;
        }
        proof {
            assert(d.take(i - start + 1).drop_last() =~= d.take(i - start));
            assert(d.take(i - start + 1).last() == c);
        }
        value = value * 10 + (c as u32 - 48);
        if value > 65535 {
            proof {
                if all_decimal(d) {
                    lemma_digits_value_grows(d, i - start + 1);
                }
            }
            return None;
        }
        i = i + 1;
    }
    assert(d.take(i - start) =~= d);
    Some(value as u16)
}

/// `s` without the white space at its start.
pub open spec fn trim_start(s: Seq<char>) -> Seq<char>
    decreases s.len(),
{
    if s.len() > 0 && is_unicode_whitespace(s[0]) {
        trim_start(s.drop_first())
    } else {
        s
    }
}

/// `s` without the white space at its end.
pub open spec fn trim_end(s: Seq<char>) -> Seq<char>
    decreases s.len(),
{
    if s.len() > 0 && is_unicode_whitespace(s.last()) {
        trim_end(s.drop_last())
    } else {
        s
    }
}

/// `s` without white space at either end (`str::trim`).
pub open spec fn spec_trim(s: Seq<char>) -> Seq<char> {
    trim_end(trim_start(s))
}

proof fn lemma_trim_start_skip(s: Seq<char>, i: int)
    requires
        0 <= i <= s.len(),
        forall|j: int| 0 <= j < i ==> is_unicode_whitespace(#[trigger] s[j]),
    ensures
        trim_start(s) == trim_start(s.skip(i)),
    decreases i,
{
    if i > 0 {
        lemma_trim_start_skip(s.drop_first(), i - 1);
        assert(s.drop_first().skip(i - 1) =~= s.skip(i));
    } else {
        assert(s.skip(0) =~= s);
    }
}

proof fn lemma_trim_end_take(s: Seq<char>, k: int)
    requires
        0 <= k <= s.len(),
        forall|j: int| k <= j < s.len() ==> is_unicode_whitespace(#[trigger] s[j]),
    ensures
        trim_end(s) == trim_end(s.take(k)),
    decreases s.len() - k,
{
    if k < s.len() {
        lemma_trim_end_take(s.drop_last(), k);
        assert(s.drop_last().take(k) =~= s.take(k));
    } else {
        assert(s.take(k) =~= s);
    }
}

/// `s` without white space at either end.
pub fn trim_chars(s: &Vec<char>) -> (r: Vec<char>)
    ensures
        r@ == spec_trim(s@),
{
    let n = s.len();
    let mut start: usize = 0;
    while start < n && is_whitespace(s[start])
        invariant
            start <= n == s@.len(),
            forall|j: int| 0 <= j < start ==> is_unicode_whitespace(#[trigger] s@[j]),
        decreases n - start,
    {
        start = start + 1;
    }
    proof {
        lemma_trim_start_skip(s@, start as int);
    }
    let ghost t = s@.skip(start as int);
    assert(trim_start(t) == t) by {
        if t.len() > 0 {
            assert(t[0] == s@[start as int]);
        }
    }
    let mut end: usize = n;
    while end > start && is_whitespace(s[end - 1])
        invariant
            start <= end <= n == s@.len(),
            t == s@.skip(start as int),
            forall|j: int| end <= j < n ==> is_unicode_whitespace(#[trigger] s@[j]),
        decreases end,
    {
        end = end - 1;
    }
    proof {
        lemma_trim_end_take(t, end - start);
        assert(t.take(end - start) =~= s@.subrange(start as int, end as int));
        let u = s@.subrange(start as int, end as int);
        if u.len() > 0 {
            assert(u.last() == s@[end - 1]);
        }
    }
    let mut out: Vec<char> = Vec::new();
    let mut i: usize = start;
    while i < end
        invariant
            start <= i <= end <= n == s@.len(),
            out@ == s@.subrange(start as int, i as int),
        decreases end - i,
    {
        out.push(s[i]);
        i = i + 1;
        assert(out@ =~= s@.subrange(start as int, i as int));
    }
    out
}

} // verus!
