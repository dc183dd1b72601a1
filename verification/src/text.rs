//! Text utilities the dashboard core builds its cell contents from:
//! decimal rendering of counters, lexicographic ordering of names,
//! substring matching for the list filter, and joining reason strings.

use vstd::prelude::*;

verus! {

/// The character for one decimal digit value.
pub open spec fn digit_char(d: nat) -> char {
    if d == 0 {
        '0'
    } else if d == 1 {
        '1'
    } else if d == 2 {
        '2'
    } else if d == 3 {
        '3'
    } else if d == 4 {
        '4'
    } else if d == 5 {
        '5'
    } else if d == 6 {
        '6'
    } else if d == 7 {
        '7'
    } else if d == 8 {
        '8'
    } else {
        '9'
    }
}

/// Decimal representation of a number, most significant digit first,
/// without leading zeros (a lone zero for 0).
pub open spec fn dec_rep(n: nat) -> Seq<char>
    decreases n,
{
    if n < 10 {
        seq![digit_char(n)]
    } else {
        dec_rep(n / 10).push(digit_char(n % 10))
    }
}

/// One-character string for a digit value.
fn digit_str(d: u8) -> (r: &'static str)
    requires
        d < 10,
    ensures
        r@ =~= seq![digit_char(d as nat)],
{
    proof {
        reveal_strlit("0");
        reveal_strlit("1");
        reveal_strlit("2");
        reveal_strlit("3");
        reveal_strlit("4");
        reveal_strlit("5");
        reveal_strlit("6");
        reveal_strlit("7");
        reveal_strlit("8");
        reveal_strlit("9");
    }
    match d {
        0 => "0",
        1 => "1",
        2 => "2",
        3 => "3",
        4 => "4",
        5 => "5",
        6 => "6",
        7 => "7",
        8 => "8",
        _ => "9",
    }
}

/// Renders a number in decimal.
pub fn u128_to_string(n: u128) -> (r: String)
    ensures
        r@ == dec_rep(n as nat),
    decreases n,
{
    if n < 10 {
        let s = digit_str(n as u8);
        s.to_owned()
    } else {
        let mut s = u128_to_string(n / 10);
        s.append(digit_str((n % 10) as u8));
        proof {
            assert(s@ =~= dec_rep((n / 10) as nat).push(digit_char((n % 10) as nat)));
        }
        s
    }
}

/// Renders a number in decimal.
pub fn u64_to_string(n: u64) -> (r: String)
    ensures
        r@ == dec_rep(n as nat),
{
    u128_to_string(n as u128)
}

/// Decides whether two strings hold the same characters.
pub fn str_eq(a: &str, b: &str) -> (r: bool)
    ensures
        r == (a@ == b@),
{
    let a_len = a.unicode_len();
    let b_len = b.unicode_len();
    if a_len != b_len {
        return false;
    }
    let mut i: usize = 0;
    while i < a_len
        invariant
            0 <= i <= a_len,
            a_len == a@.len(),
            a_len == b@.len(),
            forall|j: int| 0 <= j < i ==> a@[j] == b@[j],
        decreases a_len - i,
    {
        if a.get_char(i) != b.get_char(i) {
            return false;
        }
        i = i + 1;
    }
    proof {
        assert(a@ =~= b@);
    }
    true
}

/// Strict lexicographic order by character value, examined from
/// position `i` on; a proper prefix precedes its extensions.
pub open spec fn lex_lt_from(a: Seq<char>, b: Seq<char>, i: int) -> bool
    decreases b.len() - i,
{
    if i < 0 || i >= b.len() {
        false
    } else if i >= a.len() {
        true
    } else if a[i] != b[i] {
        (a[i] as u32) < (b[i] as u32)
    } else {
        lex_lt_from(a, b, i + 1)
    }
}

/// Strict lexicographic order by character value.
pub open spec fn lex_lt(a: Seq<char>, b: Seq<char>) -> bool {
    lex_lt_from(a, b, 0)
}

/// Nothing precedes itself.
pub proof fn lemma_lex_irrefl(a: Seq<char>)
    ensures
        !lex_lt(a, a),
{
    lemma_lex_irrefl_from(a, 0);
}

proof fn lemma_lex_irrefl_from(a: Seq<char>, i: int)
    requires
        0 <= i,
    ensures
        !lex_lt_from(a, a, i),
    decreases a.len() - i,
{
    if i < a.len() {
        lemma_lex_irrefl_from(a, i + 1);
    }
}

/// Two sequences that neither precedes the other, compared from a
/// position where they agree so far, agree from that position on.
proof fn lemma_lex_connex_from(a: Seq<char>, b: Seq<char>, i: int)
    requires
        0 <= i <= a.len(),
        i <= b.len(),
        !lex_lt_from(a, b, i),
        !lex_lt_from(b, a, i),
    ensures
        a.skip(i) =~= b.skip(i),
    decreases a.len() + b.len() - i,
{
    if i < a.len() && i < b.len() {
        if a[i] != b[i] {
            if (a[i] as u32) < (b[i] as u32) {
                assert(lex_lt_from(a, b, i));
            } else if (b[i] as u32) < (a[i] as u32) {
                assert(lex_lt_from(b, a, i));
            } else {
                vstd::utf8::char_u32_cast(a[i], a[i] as u32);
                vstd::utf8::char_u32_cast(b[i], b[i] as u32);
            }
        }
        assert(a[i] == b[i]);
        lemma_lex_connex_from(a, b, i + 1);
        assert(a.skip(i).len() == b.skip(i).len());
        assert forall|k: int| 0 <= k < a.skip(i).len() implies a.skip(i)[k] == b.skip(i)[k] by {
            if k == 0 {
                assert(a.skip(i)[0] == a[i]);
                assert(b.skip(i)[0] == b[i]);
            } else {
                assert(a.skip(i + 1)[k - 1] == b.skip(i + 1)[k - 1]);
                assert(a.skip(i)[k] == a[i + k]);
                assert(b.skip(i)[k] == b[i + k]);
                assert(a.skip(i + 1)[k - 1] == a[i + k]);
                assert(b.skip(i + 1)[k - 1] == b[i + k]);
            }
        }
    } else {
        assert(i == a.len() && i == b.len());
    }
}

/// Of two distinct sequences, one strictly precedes the other.
pub proof fn lemma_lex_trichotomy(a: Seq<char>, b: Seq<char>)
    ensures
        lex_lt(a, b) || lex_lt(b, a) || a =~= b,
{
    if !lex_lt(a, b) && !lex_lt(b, a) {
        lemma_lex_connex_from(a, b, 0);
        assert(a.skip(0) =~= a);
        assert(b.skip(0) =~= b);
    }
}

proof fn lemma_lex_trans_from(a: Seq<char>, b: Seq<char>, c: Seq<char>, i: int)
    requires
        0 <= i,
        lex_lt_from(a, b, i),
        lex_lt_from(b, c, i),
    ensures
        lex_lt_from(a, c, i),
    decreases c.len() - i,
{
    if i < a.len() && i < b.len() && i < c.len() {
        if a[i] == b[i] && b[i] == c[i] {
            lemma_lex_trans_from(a, b, c, i + 1);
        }
    }
}

/// Lexicographic order is transitive.
pub proof fn lemma_lex_trans(a: Seq<char>, b: Seq<char>, c: Seq<char>)
    requires
        lex_lt(a, b),
        lex_lt(b, c),
    ensures
        lex_lt(a, c),
{
    lemma_lex_trans_from(a, b, c, 0);
}

/// Decides the strict lexicographic order on two strings.
pub fn str_lt(a: &str, b: &str) -> (r: bool)
    ensures
        r == lex_lt(a@, b@),
{
    let a_len = a.unicode_len();
    let b_len = b.unicode_len();
    let mut i: usize = 0;
    loop
        invariant
            i <= a_len,
            i <= b_len,
            a_len == a@.len(),
            b_len == b@.len(),
            lex_lt(a@, b@) == lex_lt_from(a@, b@, i as int),
        decreases b_len - i,
    {
        if i >= b_len {
            return false;
        }
        if i >= a_len {
            return true;
        }
        let ca = a.get_char(i);
        let cb = b.get_char(i);
        if ca != cb {
            return (ca as u32) < (cb as u32);
        }
        i = i + 1;
    }
}

/// The needle occurs in the haystack starting at position `i`.
pub open spec fn matches_at(hay: Seq<char>, needle: Seq<char>, i: int) -> bool {
    0 <= i && i + needle.len() <= hay.len() && hay.subrange(i, i + needle.len()) =~= needle
}

/// The needle occurs somewhere in the haystack. An empty needle
/// always occurs.
pub open spec fn contains_sub(hay: Seq<char>, needle: Seq<char>) -> bool {
    exists|i: int| matches_at(hay, needle, i)
}

/// Whether the needle occurs in the haystack as a contiguous run of
/// characters; the filter's substring test.
pub fn str_contains(hay: &str, needle: &[char]) -> (r: bool)
    ensures
        r == contains_sub(hay@, needle@),
{
    let hay_len = hay.unicode_len();
    let n_len = needle.len();
    if n_len > hay_len {
        proof {
            assert(forall|i: int| !matches_at(hay@, needle@, i));
        }
        return false;
    }
    let mut start: usize = 0;
    loop
        invariant
            0 <= start <= hay_len - n_len + 1,
            n_len <= hay_len,
            hay_len == hay@.len(),
            n_len == needle@.len(),
            forall|j: int| 0 <= j < start ==> !matches_at(hay@, needle@, j),
        decreases hay_len - n_len + 1 - start,
    {
        if start > hay_len - n_len {
            proof {
                assert(forall|j: int| !matches_at(hay@, needle@, j));
            }
            return false;
        }
        let mut k: usize = 0;
        let mut mismatch: bool = false;
        while k < n_len
            invariant
                0 <= k <= n_len,
                start + n_len <= hay_len,
                hay_len == hay@.len(),
                n_len == needle@.len(),
                !mismatch ==> (forall|m: int|
                    0 <= m < k ==> hay@[start + m] == needle@[m]),
                mismatch ==> !matches_at(hay@, needle@, start as int),
            decreases n_len - k,
        {
            if !mismatch {
                let hc = hay.get_char(start + k);
                if hc != needle[k] {
                    mismatch = true;
                    proof {
                        assert(hay@.subrange(
                            start as int,
                            start + needle@.len(),
                        )[k as int] == hay@[start + k]);
                    }
                }
            }
            k = k + 1;
        }
        if !mismatch {
            proof {
                assert(hay@.subrange(start as int, start + needle@.len()) =~= needle@);
                assert(matches_at(hay@, needle@, start as int));
            }
            return true;
        }
        start = start + 1;
    }
}

/// A duration rendered for display: the count of its largest fitting
/// unit among days, hours, minutes and seconds, with the unit letter.
/// Negative durations render as zero.
pub open spec fn age_text(d: int) -> Seq<char> {
    let s = if d < 0 { 0 } else { d };
    if s >= 86400 {
        dec_rep((s / 86400) as nat) + "d"@
    } else if s >= 3600 {
        dec_rep((s / 3600) as nat) + "h"@
    } else if s >= 60 {
        dec_rep((s / 60) as nat) + "m"@
    } else {
        dec_rep(s as nat) + "s"@
    }
}

/// Renders a duration in seconds for display.
pub fn age_string(d: i128) -> (r: String)
    ensures
        r@ == age_text(d as int),
{
    let s: i128 = if d < 0 {
        0
    } else {
        d
    };
    if s >= 86400 {
        u128_to_string((s / 86400) as u128).concat("d")
    } else if s >= 3600 {
        u128_to_string((s / 3600) as u128).concat("h")
    } else if s >= 60 {
        u128_to_string((s / 60) as u128).concat("m")
    } else {
        u128_to_string(s as u128).concat("s")
    }
}

/// The given strings joined by `", "`.
pub open spec fn joined(parts: Seq<Seq<char>>) -> Seq<char>
    decreases parts.len(),
{
    if parts.len() == 0 {
        Seq::empty()
    } else if parts.len() == 1 {
        parts[0]
    } else {
        joined(parts.drop_last()) + seq![',', ' '] + parts.last()
    }
}

/// Joins strings with `", "` between them.
pub fn join_comma(parts: &Vec<String>) -> (r: String)
    ensures
        r@ == joined(parts@.map_values(|p: String| p@)),
{
    proof {
        reveal_strlit(", ");
        assert(", "@ =~= seq![',', ' ']);
    }
    let mut out = String::new();
    let mut i: usize = 0;
    while i < parts.len()
        invariant
            0 <= i <= parts@.len(),
            out@ == joined(parts@.map_values(|p: String| p@).take(i as int)),
            ", "@ =~= seq![',', ' '],
        decreases parts@.len() - i,
    {
        if i > 0 {
            out.append(", ");
        }
        out.append(parts[i].as_str());
        proof {
            let views = parts@.map_values(|p: String| p@);
            assert(views.take(i + 1).drop_last() =~= views.take(i as int));
            assert(views.take(i + 1).last() == views[i as int]);
            assert(views[i as int] == parts@[i as int]@);
            if i == 0 {
                assert(joined(views.take(1)) == views.take(1)[0]);
                assert(out@ =~= joined(views.take(1)));
            } else {
                assert(out@ =~= joined(views.take(i as int)) + seq![',', ' ']
                    + views[i as int]);
                assert(out@ =~= joined(views.take(i + 1)));
            }
        }
        i = i + 1;
    }
    proof {
        assert(parts@.map_values(|p: String| p@).take(parts@.len() as int)
            =~= parts@.map_values(|p: String| p@));
    }
    out
}

} // verus!
