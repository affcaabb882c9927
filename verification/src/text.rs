//! Text helpers shared by labels, search matching and query building.
use vstd::prelude::*;
use vstd::std_specs::iter::IteratorSpec;

verus! {

// ── trusted calls into std ──────────────────────────────────────────────────

/// Appends `c` to `s` by calling `String::push`, whose documentation says it
/// appends the given char to the end of the string.
#[verifier::external_body]
pub(crate) fn push_char(s: &mut String, c: char)
    ensures
        final(s)@ == old(s)@.push(c),
{
    s.push(c);
}

/// The lowercase form of a string as computed by `str::to_lowercase`
/// (Unicode `Lowercase` mapping, char by char, with the final-sigma rule).
pub uninterp spec fn lowercase(s: Seq<char>) -> Seq<char>;

/// Calls `str::to_lowercase`; its result is named by [`lowercase`], a
/// function of the string's characters alone. Nothing more is claimed of the
/// Unicode case mapping.
#[verifier::external_body]
pub(crate) fn to_lowercase(s: &str) -> (r: String)
    ensures
        r@ == lowercase(s@),
{
    s.to_lowercase()
}

/// `needle` occurs as a contiguous run of characters in `hay` (the empty
/// needle occurs everywhere).
pub open spec fn seq_contains(hay: Seq<char>, needle: Seq<char>) -> bool {
    exists|i: int| 0 <= i && i + needle.len() <= hay.len() && #[trigger] hay.subrange(i, i + needle.len()) == needle
}

/// The characters of `s`, in order.
pub(crate) fn chars_of(s: &str) -> (v: Vec<char>)
    ensures
        v@ == s@,
{
    let mut v: Vec<char> = Vec::new();
    let mut chars = s.chars();
    let ghost mut k: int = 0;
    loop
        invariant
            0 <= k <= s@.len(),
            chars.remaining() == s@.skip(k),
            v@ == s@.take(k),
        ensures
            v@ == s@,
        decreases s@.len() - k,
    {
        match chars.next() {
            Some(c) => {
                proof {
                    assert(c == s@[k]);
                    assert(s@.skip(k).drop_first() =~= s@.skip(k + 1));
                }
                v.push(c);
                proof {
                    k = k + 1;
                }
                assert(v@ =~= s@.take(k));
            },
            None => {
                assert(s@.take(k) =~= s@);
                break;
            },
        }
    }
    v
}

/// Whether `needle[..]` occurs in `hay` starting at `at`.
fn occurs_at(hay: &Vec<char>, needle: &Vec<char>, at: usize) -> (b: bool)
    requires
        at + needle@.len() <= hay@.len(),
    ensures
        b == (hay@.subrange(at as int, at + needle@.len()) == needle@),
{
    let hay_len: usize = hay.len();
    let mut j: usize = 0;
    while j < needle.len()
        invariant
            hay_len == hay@.len(),
            at + needle@.len() <= hay@.len(),
            j <= needle@.len(),
            forall|q: int| 0 <= q < j ==> hay@[at + q] == needle@[q],
        decreases needle@.len() - j,
    {
        if hay[at + j] != needle[j] {
            assert(hay@.subrange(at as int, at + needle@.len())[j as int] != needle@[j as int]);
            return false;
        }
        j = j + 1;
    }
    assert(hay@.subrange(at as int, at + needle@.len()) =~= needle@);
    true
}

/// Whether `needle` occurs as a contiguous run of characters in `hay`.
pub(crate) fn contains(hay: &str, needle: &str) -> (b: bool)
    ensures
        b == seq_contains(hay@, needle@),
{
    let h = chars_of(hay);
    let n = chars_of(needle);
    if n.len() == 0 {
        assert(hay@.subrange(0int, 0int + needle@.len()) =~= needle@);
        return true;
    }
    if n.len() > h.len() {
        return false;
    }
    let hay_len: usize = h.len();
    let last: usize = hay_len - n.len();
    let mut i: usize = 0;
    while i <= last
        invariant
            hay_len == h@.len(),
            n@.len() >= 1,
            h@ == hay@,
            n@ == needle@,
            last == h@.len() - n@.len(),
            i <= last + 1,
            forall|q: int| 0 <= q < i ==> #[trigger] hay@.subrange(q, q + needle@.len()) != needle@,
        decreases last + 1 - i,
    {
        if occurs_at(&h, &n, i) {
            return true;
        }
        i = i + 1;
    }
    false
}

// ── decimal numbers ─────────────────────────────────────────────────────────

/// The decimal digit for `d` in `0..10`.
pub open spec fn digit_char(d: int) -> char {
    if d == 0 {
        '0'
    } else if d == 1 {
        '1'
    } else if d == 2 {
        '2'
    } else if d == 3 {
        '3'
    } else if d == 4 {
        '4'
    } else if d == 5 {
        '5'
    } else if d == 6 {
        '6'
    } else if d == 7 {
        '7'
    } else if d == 8 {
        '8'
    } else {
        '9'
    }
}

/// Decimal representation of a natural number, most significant digit first,
/// without leading zeros.
pub open spec fn decimal(n: nat) -> Seq<char>
    decreases n,
{
    if n < 10 {
        seq![digit_char(n as int)]
    } else {
        decimal(n / 10).push(digit_char((n % 10) as int))
    }
}

/// Decimal representation of an integer, with a leading `-` when negative.
pub open spec fn signed_decimal(i: int) -> Seq<char> {
    if i < 0 {
        seq!['-'] + decimal((-i) as nat)
    } else {
        decimal(i as nat)
    }
}

fn digit(d: u64) -> (c: char)
    requires
        d < 10,
    ensures
        c == digit_char(d as int),
{
    match d {
        0 => '0',
        1 => '1',
        2 => '2',
        3 => '3',
        4 => '4',
        5 => '5',
        6 => '6',
        7 => '7',
        8 => '8',
        _ => '9',
    }
}

/// Appends the decimal representation of `n` to `s`.
pub(crate) fn push_decimal(s: &mut String, n: u64)
    ensures
        final(s)@ == old(s)@ + decimal(n as nat),
    decreases n,
{
    if n >= 10 {
        push_decimal(s, n / 10);
    }
    push_char(s, digit(n % 10));
    assert(decimal(n as nat) =~= if n < 10 {
        seq![digit_char(n as int)]
    } else {
        decimal((n / 10) as nat).push(digit_char((n % 10) as int))
    });
}

/// Appends the decimal representation of `x` (with a `-` sign when negative)
/// to `s`.
pub(crate) fn push_signed_decimal(s: &mut String, x: i64)
    ensures
        final(s)@ == old(s)@ + signed_decimal(x as int),
{
    if x < 0 {
        push_char(s, '-');
        let magnitude: u64 = if x == i64::MIN {
            9_223_372_036_854_775_808u64
        } else {
            (-x) as u64
        };
        push_decimal(s, magnitude);
    } else {
        push_decimal(s, x as u64);
    }
}

} // verus!
