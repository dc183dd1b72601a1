//! The resource's network address, parsed with an exact contract. A
//! malformed address yields nothing, never an error. The accepted
//! syntax is the usual textual one: dotted-quad addresses of four
//! decimal octets up to 255 without leading zeros, and the colon
//! notation of eight hexadecimal groups of one to four digits, with
//! at most one `::` standing for a run of zero groups and an
//! optional embedded dotted-quad in place of the last two groups.

use vstd::prelude::*;

use crate::model::PodData;

verus! {

/// The character is a decimal digit.
pub open spec fn is_digit(c: char) -> bool {
    48 <= c as u32 <= 57
}

/// The value of a decimal digit character.
pub open spec fn digit_val(c: char) -> int {
    c as u32 - 48
}

/// One step of the dotted-quad scan. The state is (finished octets,
/// digits in the current octet, value of the current octet, still
/// valid). An octet must not continue past a leading zero.
pub open spec fn ipv4_step(
    st: (Seq<int>, int, int, bool),
    c: char,
) -> (Seq<int>, int, int, bool) {
    let (done, len, val, ok) = st;
    if !ok {
        st
    } else if c == '.' {
        if len == 0 || done.len() >= 3 {
            (done, len, val, false)
        } else {
            (done.push(val), 0, 0, true)
        }
    } else if is_digit(c) {
        let v = val * 10 + digit_val(c);
        if len >= 3 || v > 255 || (len >= 1 && val == 0) {
            (done, len, val, false)
        } else {
            (done, len + 1, v, true)
        }
    } else {
        (done, len, val, false)
    }
}

/// The address scan over a whole text.
pub open spec fn ipv4_scan(s: Seq<char>) -> (Seq<int>, int, int, bool)
    decreases s.len(),
{
    if s.len() == 0 {
        (Seq::empty(), 0, 0, true)
    } else {
        ipv4_step(ipv4_scan(s.drop_last()), s.last())
    }
}

/// The four fields of the text read as a dotted-quad address, if it
/// is one.
pub open spec fn ipv4_of(s: Seq<char>) -> Option<(int, int, int, int)> {
    let (done, len, val, ok) = ipv4_scan(s);
    if ok && done.len() == 3 && len >= 1 {
        Option::Some((done[0], done[1], done[2], val))
    } else {
        Option::None
    }
}

/// Parses a dotted-quad address.
pub fn parse_ipv4(s: &str) -> (r: Option<(u8, u8, u8, u8)>)
    ensures
        match r {
            Option::Some(q) => ipv4_of(s@) == Option::Some(
                (q.0 as int, q.1 as int, q.2 as int, q.3 as int),
            ),
            Option::None => ipv4_of(s@) is None,
        },
{
    let n = s.unicode_len();
    let mut done: Vec<u8> = Vec::new();
    let mut len: u8 = 0;
    let mut val: u16 = 0;
    let mut ok: bool = true;
    let mut i: usize = 0;
    proof {
        assert(s@.take(0) =~= Seq::<char>::empty());
        assert(done@.map_values(|b: u8| b as int) =~= Seq::<int>::empty());
    }
    while i < n
        invariant
            0 <= i <= n,
            n == s@.len(),
            val <= 255,
            done@.len() <= 3,
            ipv4_scan(s@.take(i as int)) == (
                done@.map_values(|b: u8| b as int),
                len as int,
                val as int,
                ok,
            ),
        decreases n - i,
    {
        let ghost pre = done@.map_values(|b: u8| b as int);
        let c = s.get_char(i);
        proof {
            assert(s@.take(i + 1).drop_last() =~= s@.take(i as int));
            assert(s@.take(i + 1).last() == s@[i as int]);
        }
        if ok {
            if c == '.' {
                if len == 0 || done.len() >= 3 {
                    ok = false;
                } else {
                    done.push(val as u8);
                    len = 0;
                    val = 0;
                    proof {
                        assert(done@.map_values(|b: u8| b as int) =~= pre.push(
                            done@.last() as int,
                        ));
                    }
                }
            } else if c >= '0' && c <= '9' {
                let d: u16 = (c as u32 as u16) - 48;
                let v: u16 = val * 10 + d;
                if len >= 3 || v > 255 || (len >= 1 && val == 0) {
                    ok = false;
                } else {
                    len = len + 1;
                    val = v;
                }
            } else {
                ok = false;
            }
        }
        i = i + 1;
    }
    proof {
        assert(s@.take(n as int) =~= s@);
    }
    if ok && done.len() == 3 && len >= 1 {
        Option::Some((done[0], done[1], done[2], val as u8))
    } else {
        Option::None
    }
}


/// An address value: a dotted-quad, or a colon-form address as its
/// eight 16-bit groups.
#[derive(Clone, Copy, Debug, PartialEq, Eq, Structural)]
pub enum IpValue {
    V4(u8, u8, u8, u8),
    V6(u16, u16, u16, u16, u16, u16, u16, u16),
}

/// The value of one hexadecimal digit, or -1 for any other
/// character.
pub open spec fn hex_digit_val(c: char) -> int {
    if 48 <= c as u32 <= 57 {
        c as u32 - 48
    } else if 97 <= c as u32 <= 102 {
        c as u32 - 87
    } else if 65 <= c as u32 <= 70 {
        c as u32 - 55
    } else {
        -1
    }
}

/// The character is a hexadecimal digit.
pub open spec fn is_hex_digit(c: char) -> bool {
    hex_digit_val(c) >= 0
}

/// The value of a run of hexadecimal digits.
pub open spec fn hex_val(g: Seq<char>) -> int
    decreases g.len(),
{
    if g.len() == 0 {
        0
    } else {
        hex_val(g.drop_last()) * 16 + hex_digit_val(g.last())
    }
}

/// A valid colon-form group: one to four hexadecimal digits.
pub open spec fn group_ok(g: Seq<char>) -> bool {
    1 <= g.len() <= 4 && (forall|i: int| 0 <= i < g.len() ==> is_hex_digit(#[trigger] g[i]))
}

/// The value of a run of decimal digits.
pub open spec fn dec_val(g: Seq<char>) -> int
    decreases g.len(),
{
    if g.len() == 0 {
        0
    } else {
        dec_val(g.drop_last()) * 10 + digit_val(g.last())
    }
}

/// A valid dotted-quad octet inside a colon-form address: one to
/// three decimal digits, at most 255, without a leading zero.
pub open spec fn octet_ok(g: Seq<char>) -> bool {
    &&& 1 <= g.len() <= 3
    &&& (forall|i: int| 0 <= i < g.len() ==> is_digit(#[trigger] g[i]))
    &&& (g.len() == 1 || g[0] != '0')
    &&& dec_val(g) <= 255
}

/// The state of the colon-form scan.
pub ghost struct ScanSix {
    /// Groups committed before a `::`.
    pub head: Seq<int>,
    /// Groups committed after the `::`.
    pub tail: Seq<int>,
    /// A `::` has been seen.
    pub seen_gap: bool,
    /// Exactly one `:` has just been seen and not yet resolved.
    pub pending: bool,
    /// The characters of the group being read.
    pub cur: Seq<char>,
    /// Committed octets of an embedded dotted-quad tail.
    pub v4_done: Seq<int>,
    /// The characters of the embedded octet being read.
    pub v4_cur: Seq<char>,
    /// An embedded dotted-quad tail has begun.
    pub in_v4: bool,
    /// No rule has been broken yet.
    pub ok: bool,
}

/// The scan's starting state.
pub open spec fn six_start() -> ScanSix {
    ScanSix {
        head: Seq::empty(),
        tail: Seq::empty(),
        seen_gap: false,
        pending: false,
        cur: Seq::empty(),
        v4_done: Seq::empty(),
        v4_cur: Seq::empty(),
        in_v4: false,
        ok: true,
    }
}

/// One step of the colon-form scan: a lone `:` separates groups and
/// a second one right after it is the single allowed gap; groups are
/// one to four hexadecimal digits; a `.` turns the group being read
/// into the first octet of an embedded dotted-quad, which then runs
/// to the end.
pub open spec fn six_step(st: ScanSix, c: char) -> ScanSix {
    if !st.ok {
        st
    } else if st.in_v4 {
        if is_digit(c) {
            ScanSix { v4_cur: st.v4_cur.push(c), ..st }
        } else if c == '.' {
            if octet_ok(st.v4_cur) && st.v4_done.len() < 3 {
                ScanSix { v4_done: st.v4_done.push(dec_val(st.v4_cur)), v4_cur: Seq::empty(), ..st }
            } else {
                ScanSix { ok: false, ..st }
            }
        } else {
            ScanSix { ok: false, ..st }
        }
    } else if c == ':' {
        if st.pending {
            if st.seen_gap {
                ScanSix { ok: false, ..st }
            } else {
                ScanSix { seen_gap: true, pending: false, ..st }
            }
        } else if st.cur.len() > 0 {
            if group_ok(st.cur) {
                if st.seen_gap {
                    ScanSix {
                        tail: st.tail.push(hex_val(st.cur)),
                        cur: Seq::empty(),
                        pending: true,
                        ..st
                    }
                } else {
                    ScanSix {
                        head: st.head.push(hex_val(st.cur)),
                        cur: Seq::empty(),
                        pending: true,
                        ..st
                    }
                }
            } else {
                ScanSix { ok: false, ..st }
            }
        } else if st.head.len() == 0 && !st.seen_gap {
            ScanSix { pending: true, ..st }
        } else {
            ScanSix { ok: false, ..st }
        }
    } else if c == '.' {
        if !st.pending && octet_ok(st.cur) {
            ScanSix {
                in_v4: true,
                v4_done: seq![dec_val(st.cur)],
                cur: Seq::empty(),
                ..st
            }
        } else {
            ScanSix { ok: false, ..st }
        }
    } else if is_hex_digit(c) {
        if st.pending {
            if !st.seen_gap && st.head.len() == 0 {
                ScanSix { ok: false, ..st }
            } else {
                ScanSix { pending: false, cur: seq![c], ..st }
            }
        } else {
            ScanSix { cur: st.cur.push(c), ..st }
        }
    } else {
        ScanSix { ok: false, ..st }
    }
}

/// The colon-form scan over a whole text.
pub open spec fn six_scan(s: Seq<char>) -> ScanSix
    decreases s.len(),
{
    if s.len() == 0 {
        six_start()
    } else {
        six_step(six_scan(s.drop_last()), s.last())
    }
}

/// This many zero groups.
pub open spec fn zero_groups(n: int) -> Seq<int> {
    Seq::new(n as nat, |i: int| 0)
}

/// The eight groups denoted by committed parts: the trailing `extra`
/// groups join the side the gap position dictates; with a gap, the
/// gap expands to the zero groups that bring the total to eight and
/// must stand for at least one; without one, exactly eight groups
/// must be present.
pub open spec fn six_join(
    head: Seq<int>,
    tail: Seq<int>,
    gap: bool,
    extra: Seq<int>,
) -> Option<Seq<int>> {
    if gap {
        let t = tail + extra;
        if head.len() + t.len() <= 7 {
            Option::Some(head + zero_groups(8 - head.len() - t.len()) + t)
        } else {
            Option::None
        }
    } else {
        let h = head + extra;
        if h.len() == 8 {
            Option::Some(h)
        } else {
            Option::None
        }
    }
}

/// The eight groups of the text read as a colon-form address, if it
/// is one.
pub open spec fn six_groups(s: Seq<char>) -> Option<Seq<int>> {
    let st = six_scan(s);
    if !st.ok || st.pending {
        Option::None
    } else if st.in_v4 {
        if st.v4_done.len() == 3 && octet_ok(st.v4_cur) {
            let o = st.v4_done.push(dec_val(st.v4_cur));
            six_join(st.head, st.tail, st.seen_gap, seq![o[0] * 256 + o[1], o[2] * 256 + o[3]])
        } else {
            Option::None
        }
    } else if st.cur.len() > 0 {
        if group_ok(st.cur) {
            six_join(st.head, st.tail, st.seen_gap, seq![hex_val(st.cur)])
        } else {
            Option::None
        }
    } else if st.seen_gap {
        six_join(st.head, st.tail, true, Seq::empty())
    } else {
        Option::None
    }
}

/// The textual address read as a value: a dotted-quad when the text
/// is one, else a colon-form address when the text is one, else
/// nothing.
pub open spec fn ip_value_of(s: Seq<char>) -> Option<IpValue> {
    match ipv4_of(s) {
        Option::Some(q) => Option::Some(
            IpValue::V4(q.0 as u8, q.1 as u8, q.2 as u8, q.3 as u8),
        ),
        Option::None => match six_groups(s) {
            Option::Some(g) => Option::Some(
                IpValue::V6(
                    g[0] as u16,
                    g[1] as u16,
                    g[2] as u16,
                    g[3] as u16,
                    g[4] as u16,
                    g[5] as u16,
                    g[6] as u16,
                    g[7] as u16,
                ),
            ),
            Option::None => Option::None,
        },
    }
}



/// Decimal runs of up to three digits stay under a thousand.
proof fn lemma_dec_val_small(g: Seq<char>)
    requires
        forall|j: int| 0 <= j < g.len() ==> is_digit(#[trigger] g[j]),
    ensures
        0 <= dec_val(g),
        g.len() <= 1 ==> dec_val(g) < 10,
        g.len() <= 2 ==> dec_val(g) < 100,
        g.len() <= 3 ==> dec_val(g) < 1000,
    decreases g.len(),
{
    if g.len() > 0 {
        assert forall|j: int| 0 <= j < g.drop_last().len() implies is_digit(
            #[trigger] g.drop_last()[j],
        ) by {
            assert(g.drop_last()[j] == g[j]);
        }
        lemma_dec_val_small(g.drop_last());
    }
}

/// Hexadecimal runs of up to four digits stay under two to the
/// sixteenth.
proof fn lemma_hex_val_small(g: Seq<char>)
    requires
        forall|j: int| 0 <= j < g.len() ==> is_hex_digit(#[trigger] g[j]),
    ensures
        0 <= hex_val(g),
        g.len() <= 1 ==> hex_val(g) < 16,
        g.len() <= 2 ==> hex_val(g) < 256,
        g.len() <= 3 ==> hex_val(g) < 4096,
        g.len() <= 4 ==> hex_val(g) < 65536,
    decreases g.len(),
{
    if g.len() > 0 {
        assert forall|j: int| 0 <= j < g.drop_last().len() implies is_hex_digit(
            #[trigger] g.drop_last()[j],
        ) by {
            assert(g.drop_last()[j] == g[j]);
        }
        lemma_hex_val_small(g.drop_last());
    }
}

/// Reads one hexadecimal digit.
fn hex_digit(c: char) -> (r: Option<u8>)
    ensures
        match r {
            Option::Some(v) => hex_digit_val(c) == v as int && v < 16,
            Option::None => !is_hex_digit(c),
        },
{
    let u = c as u32;
    if u >= 48 && u <= 57 {
        Option::Some((u - 48) as u8)
    } else if u >= 97 && u <= 102 {
        Option::Some((u - 87) as u8)
    } else if u >= 65 && u <= 70 {
        Option::Some((u - 55) as u8)
    } else {
        Option::None
    }
}

/// Reads a dotted-quad octet: at most three decimal digits, no
/// leading zero, at most 255.
fn try_octet(g: &[char]) -> (r: Option<u8>)
    ensures
        match r {
            Option::Some(v) => octet_ok(g@) && v as int == dec_val(g@),
            Option::None => !octet_ok(g@),
        },
{
    let n = g.len();
    if n == 0 || n > 3 {
        return Option::None;
    }
    if n > 1 && g[0] == '0' {
        return Option::None;
    }
    let mut acc: u16 = 0;
    let mut i: usize = 0;
    while i < n
        invariant
            0 <= i <= n,
            n == g@.len(),
            1 <= n <= 3,
            acc as int == dec_val(g@.take(i as int)),
            forall|j: int| 0 <= j < i ==> is_digit(#[trigger] g@[j]),
        decreases n - i,
    {
        let c = g[i];
        let u = c as u32;
        if u >= 48 && u <= 57 {
            proof {
                assert(g@.take(i + 1).drop_last() =~= g@.take(i as int));
                assert(g@.take(i + 1).last() == g@[i as int]);
                assert forall|j: int| 0 <= j < i implies is_digit(
                    #[trigger] g@.take(i as int)[j],
                ) by {
                    assert(g@.take(i as int)[j] == g@[j]);
                }
                lemma_dec_val_small(g@.take(i as int));
            }
            acc = acc * 10 + ((u as u16) - 48);
        } else {
            return Option::None;
        }
        i = i + 1;
    }
    proof {
        assert(g@.take(n as int) =~= g@);
    }
    if acc > 255 {
        return Option::None;
    }
    Option::Some(acc as u8)
}

/// Reads a colon-form group: one to four hexadecimal digits.
fn try_group(g: &[char]) -> (r: Option<u16>)
    ensures
        match r {
            Option::Some(v) => group_ok(g@) && v as int == hex_val(g@),
            Option::None => !group_ok(g@),
        },
{
    let n = g.len();
    if n == 0 || n > 4 {
        return Option::None;
    }
    let mut acc: u32 = 0;
    let mut i: usize = 0;
    while i < n
        invariant
            0 <= i <= n,
            n == g@.len(),
            1 <= n <= 4,
            acc as int == hex_val(g@.take(i as int)),
            forall|j: int| 0 <= j < i ==> is_hex_digit(#[trigger] g@[j]),
        decreases n - i,
    {
        match hex_digit(g[i]) {
            Option::Some(d) => {
                proof {
                    assert(g@.take(i + 1).drop_last() =~= g@.take(i as int));
                    assert(g@.take(i + 1).last() == g@[i as int]);
                    assert forall|j: int| 0 <= j < i implies is_hex_digit(
                        #[trigger] g@.take(i as int)[j],
                    ) by {
                        assert(g@.take(i as int)[j] == g@[j]);
                    }
                    lemma_hex_val_small(g@.take(i as int));
                }
                acc = acc * 16 + (d as u32);
            },
            Option::None => {
                return Option::None;
            },
        }
        i = i + 1;
    }
    proof {
        assert(g@.take(n as int) =~= g@);
        lemma_hex_val_small(g@);
    }
    Option::Some(acc as u16)
}


/// Builds the address value from the committed groups, expanding a
/// gap to zero groups.
fn assemble_six(head: Vec<u16>, tail: Vec<u16>, gap: bool) -> (r: Option<IpValue>)
    ensures
        ({
            let j = six_join(
                head@.map_values(|g: u16| g as int),
                tail@.map_values(|g: u16| g as int),
                gap,
                Seq::empty(),
            );
            match r {
                Option::Some(v) => j is Some && v == IpValue::V6(
                    j->Some_0[0] as u16,
                    j->Some_0[1] as u16,
                    j->Some_0[2] as u16,
                    j->Some_0[3] as u16,
                    j->Some_0[4] as u16,
                    j->Some_0[5] as u16,
                    j->Some_0[6] as u16,
                    j->Some_0[7] as u16,
                ),
                Option::None => j is None,
            }
        }),
{
    let ghost headv = head@.map_values(|g: u16| g as int);
    let ghost tailv = tail@.map_values(|g: u16| g as int);
    proof {
        assert(tailv + Seq::<int>::empty() =~= tailv);
        assert(headv + Seq::<int>::empty() =~= headv);
    }
    if gap {
        if head.len() <= 7 && tail.len() <= 7 - head.len() {
            let mut groups = head;
            let mut rest = tail;
            let k = 8 - groups.len() - rest.len();
            let mut j: usize = 0;
            while j < k
                invariant
                    0 <= j <= k,
                    k == 8 - headv.len() - tailv.len(),
                    headv.len() + tailv.len() <= 7,
                    rest@.map_values(|g: u16| g as int) == tailv,
                    groups@.map_values(|g: u16| g as int) == headv + zero_groups(j as int),
                decreases k - j,
            {
                let ghost prevg = groups@;
                groups.push(0);
                proof {
                    assert(prevg.map_values(|g: u16| g as int).len() == prevg.len());
                    assert(groups@.map_values(|g: u16| g as int) =~= prevg.map_values(
                        |g: u16| g as int,
                    ).push(0));
                    assert(headv + zero_groups(j + 1) =~= (headv + zero_groups(
                        j as int,
                    )).push(0));
                }
                j = j + 1;
            }
            groups.append(&mut rest);
            proof {
                assert(groups@.map_values(|g: u16| g as int) =~= headv + zero_groups(k as int)
                    + tailv);
            }
            let v = IpValue::V6(
                groups[0],
                groups[1],
                groups[2],
                groups[3],
                groups[4],
                groups[5],
                groups[6],
                groups[7],
            );
            Option::Some(v)
        } else {
            Option::None
        }
    } else {
        if head.len() == 8 {
            let v = IpValue::V6(
                head[0],
                head[1],
                head[2],
                head[3],
                head[4],
                head[5],
                head[6],
                head[7],
            );
            Option::Some(v)
        } else {
            Option::None
        }
    }
}

/// Parses a textual address: a dotted-quad, else a colon-form
/// address.
pub fn parse_ip(s: &str) -> (r: Option<IpValue>)
    ensures
        r == ip_value_of(s@),
{
    match parse_ipv4(s) {
        Option::Some(q) => {
            return Option::Some(IpValue::V4(q.0, q.1, q.2, q.3));
        },
        Option::None => {},
    }
    let n = s.unicode_len();
    let mut head: Vec<u16> = Vec::new();
    let mut tail: Vec<u16> = Vec::new();
    let mut seen_gap: bool = false;
    let mut pending: bool = false;
    let mut cur: Vec<char> = Vec::new();
    let mut v4_done: Vec<u8> = Vec::new();
    let mut v4_cur: Vec<char> = Vec::new();
    let mut in_v4: bool = false;
    let mut ok: bool = true;
    proof {
        assert(s@.take(0) =~= Seq::<char>::empty());
        assert(head@.map_values(|g: u16| g as int) =~= Seq::<int>::empty());
        assert(tail@.map_values(|g: u16| g as int) =~= Seq::<int>::empty());
        assert(v4_done@.map_values(|b: u8| b as int) =~= Seq::<int>::empty());
    }
    let mut i: usize = 0;
    while i < n
        invariant
            0 <= i <= n,
            n == s@.len(),
            ({
                let st = six_scan(s@.take(i as int));
                &&& st.head == head@.map_values(|g: u16| g as int)
                &&& st.tail == tail@.map_values(|g: u16| g as int)
                &&& st.seen_gap == seen_gap
                &&& st.pending == pending
                &&& st.cur == cur@
                &&& st.v4_done == v4_done@.map_values(|b: u8| b as int)
                &&& st.v4_cur == v4_cur@
                &&& st.in_v4 == in_v4
                &&& st.ok == ok
            }),
        decreases n - i,
    {
        let ghost st0 = six_scan(s@.take(i as int));
        let c = s.get_char(i);
        proof {
            assert(s@.take(i + 1).drop_last() =~= s@.take(i as int));
            assert(s@.take(i + 1).last() == s@[i as int]);
        }
        if ok {
            if in_v4 {
                let u = c as u32;
                if u >= 48 && u <= 57 {
                    v4_cur.push(c);
                    proof {
                        assert(v4_cur@ =~= st0.v4_cur.push(c));
                    }
                } else if c == '.' {
                    if v4_done.len() < 3 {
                        match try_octet(v4_cur.as_slice()) {
                            Option::Some(o) => {
                                v4_done.push(o);
                                v4_cur = Vec::new();
                                proof {
                                    assert(v4_done@.map_values(|b: u8| b as int)
                                        =~= st0.v4_done.push(dec_val(st0.v4_cur)));
                                    assert(v4_cur@ =~= Seq::<char>::empty());
                                }
                            },
                            Option::None => {
                                ok = false;
                            },
                        }
                    } else {
                        ok = false;
                    }
                } else {
                    ok = false;
                }
            } else if c == ':' {
                if pending {
                    if seen_gap {
                        ok = false;
                    } else {
                        seen_gap = true;
                        pending = false;
                    }
                } else if cur.len() > 0 {
                    match try_group(cur.as_slice()) {
                        Option::Some(g) => {
                            if seen_gap {
                                tail.push(g);
                                proof {
                                    assert(tail@.map_values(|g2: u16| g2 as int)
                                        =~= st0.tail.push(hex_val(st0.cur)));
                                }
                            } else {
                                head.push(g);
                                proof {
                                    assert(head@.map_values(|g2: u16| g2 as int)
                                        =~= st0.head.push(hex_val(st0.cur)));
                                }
                            }
                            cur = Vec::new();
                            pending = true;
                            proof {
                                assert(cur@ =~= Seq::<char>::empty());
                            }
                        },
                        Option::None => {
                            ok = false;
                        },
                    }
                } else if head.len() == 0 && !seen_gap {
                    pending = true;
                } else {
                    ok = false;
                }
            } else if c == '.' {
                if !pending {
                    match try_octet(cur.as_slice()) {
                        Option::Some(o) => {
                            in_v4 = true;
                            v4_done = Vec::new();
                            v4_done.push(o);
                            cur = Vec::new();
                            proof {
                                assert(v4_done@.map_values(|b: u8| b as int) =~= seq![
                                    dec_val(st0.cur),
                                ]);
                                assert(cur@ =~= Seq::<char>::empty());
                            }
                        },
                        Option::None => {
                            ok = false;
                        },
                    }
                } else {
                    ok = false;
                }
            } else {
                match hex_digit(c) {
                    Option::Some(_) => {
                        if pending {
                            if !seen_gap && head.len() == 0 {
                                ok = false;
                            } else {
                                pending = false;
                                cur = Vec::new();
                                cur.push(c);
                                proof {
                                    assert(cur@ =~= seq![c]);
                                }
                            }
                        } else {
                            cur.push(c);
                            proof {
                                assert(cur@ =~= st0.cur.push(c));
                            }
                        }
                    },
                    Option::None => {
                        ok = false;
                    },
                }
            }
        }
        i = i + 1;
    }
    proof {
        assert(s@.take(n as int) =~= s@);
    }
    if !ok || pending {
        return Option::None;
    }
    if in_v4 {
        if v4_done.len() == 3 {
            match try_octet(v4_cur.as_slice()) {
                Option::Some(o) => {
                    let ghost st = six_scan(s@);
                    let g1: u16 = (v4_done[0] as u16) * 256 + (v4_done[1] as u16);
                    let g2: u16 = (v4_done[2] as u16) * 256 + (o as u16);
                    proof {
                        let ov = st.v4_done.push(dec_val(st.v4_cur));
                        assert(ov[0] == v4_done@[0] as int);
                        assert(ov[1] == v4_done@[1] as int);
                        assert(ov[2] == v4_done@[2] as int);
                        assert(ov[3] == o as int);
                    }
                    if seen_gap {
                        tail.push(g1);
                        tail.push(g2);
                        proof {
                            let ov = st.v4_done.push(dec_val(st.v4_cur));
                            assert(tail@.map_values(|g: u16| g as int) =~= st.tail + seq![
                                ov[0] * 256 + ov[1],
                                ov[2] * 256 + ov[3],
                            ]);
                            assert(st.tail + seq![ov[0] * 256 + ov[1], ov[2] * 256 + ov[3]]
                                + Seq::<int>::empty() =~= st.tail + seq![
                                ov[0] * 256 + ov[1],
                                ov[2] * 256 + ov[3],
                            ]);
                        }
                    } else {
                        head.push(g1);
                        head.push(g2);
                        proof {
                            let ov = st.v4_done.push(dec_val(st.v4_cur));
                            assert(head@.map_values(|g: u16| g as int) =~= st.head + seq![
                                ov[0] * 256 + ov[1],
                                ov[2] * 256 + ov[3],
                            ]);
                        }
                    }
                    assemble_six(head, tail, seen_gap)
                },
                Option::None => Option::None,
            }
        } else {
            Option::None
        }
    } else if cur.len() > 0 {
        match try_group(cur.as_slice()) {
            Option::Some(g) => {
                let ghost st = six_scan(s@);
                if seen_gap {
                    tail.push(g);
                    proof {
                        assert(tail@.map_values(|g2: u16| g2 as int) =~= st.tail + seq![
                            hex_val(st.cur),
                        ]);
                    }
                } else {
                    head.push(g);
                    proof {
                        assert(head@.map_values(|g2: u16| g2 as int) =~= st.head + seq![
                            hex_val(st.cur),
                        ]);
                    }
                }
                assemble_six(head, tail, seen_gap)
            },
            Option::None => Option::None,
        }
    } else if seen_gap {
        assemble_six(head, tail, true)
    } else {
        Option::None
    }
}

impl PodData {
    /// The reported network address, when present and well formed.
    pub fn ip(&self) -> (r: Option<IpValue>)
        ensures
            match self@.status {
                Option::Some(st) => match st.pod_ip {
                    Option::Some(s) => r == ip_value_of(s),
                    Option::None => r is None,
                },
                Option::None => r is None,
            },
    {
        match &self.status {
            Option::Some(st) => match &st.pod_ip {
                Option::Some(s) => parse_ip(s.as_str()),
                Option::None => Option::None,
            },
            Option::None => Option::None,
        }
    }
}

} // verus!
