//! The textual state-key format.
//!
//! A Blackjack state is the triple (player sum, dealer sum, usable ace),
//! written `"<player_sum>-<dealer_sum>-<usable_ace>"` with the sums in
//! decimal and the flag spelled `true` or `false`, for example
//! `"20-7-true"`. [`encode_state`] emits this format and [`decode_state`]
//! parses it back; together with [`lemma_state_key_injective`] this gives
//! the round trip: decoding an encoded key returns exactly the triple that
//! produced it.

use vstd::prelude::*;

verus! {

use vstd::string::*;

/// The decimal digit characters, in order.
pub open spec fn digit_char(d: int) -> char {
    if d == 0 {
        '0'
    } else if d == 1 {
        '1'
    } else if d == 2 {
        '2'
    } else if d == 3 {
        '3'
    } else if d == 4 {
        '4'
    } else if d == 5 {
        '5'
    } else if d == 6 {
        '6'
    } else if d == 7 {
        '7'
    } else if d == 8 {
        '8'
    } else {
        '9'
    }
}

pub open spec fn is_digit_char(c: char) -> bool {
    c == '0' || c == '1' || c == '2' || c == '3' || c == '4' || c == '5' || c == '6' || c == '7'
        || c == '8' || c == '9'
}

pub open spec fn digit_val(c: char) -> int {
    if c == '0' {
        0
    } else if c == '1' {
        1
    } else if c == '2' {
        2
    } else if c == '3' {
        3
    } else if c == '4' {
        4
    } else if c == '5' {
        5
    } else if c == '6' {
        6
    } else if c == '7' {
        7
    } else if c == '8' {
        8
    } else {
        9
    }
}

/// The decimal representation of `n`, most significant digit first, with no
/// leading zero (`0` itself is written as one digit).
pub open spec fn dec_rep(n: nat) -> Seq<char>
    decreases n,
{
    if n < 10 {
        seq![digit_char(n as int)]
    } else {
        dec_rep(n / 10).push(digit_char((n % 10) as int))
    }
}

pub open spec fn all_digits(s: Seq<char>) -> bool {
    forall|i: int| 0 <= i < s.len() ==> is_digit_char(#[trigger] s[i])
}

/// A nonempty digit string with no leading zero.
pub open spec fn canonical_digits(s: Seq<char>) -> bool {
    s.len() >= 1 && all_digits(s) && (s.len() == 1 || s[0] != '0')
}

/// The value of a digit string.
pub open spec fn parse_dec(s: Seq<char>) -> nat
    decreases s.len(),
{
    if s.len() == 0 {
        0
    } else {
        (parse_dec(s.drop_last()) * 10 + digit_val(s.last())) as nat
    }
}

/// The spelling of the usable-ace flag.
pub open spec fn bool_rep(u: bool) -> Seq<char> {
    if u {
        seq!['t', 'r', 'u', 'e']
    } else {
        seq!['f', 'a', 'l', 's', 'e']
    }
}

/// The key text for the state triple `(p, d, u)`.
pub open spec fn state_key(p: nat, d: nat, u: bool) -> Seq<char> {
    dec_rep(p) + seq!['-'] + dec_rep(d) + seq!['-'] + bool_rep(u)
}

/// Decimal representations are canonical digit strings, and only zero
/// starts with the zero digit.
pub proof fn lemma_dec_rep_canonical(n: nat)
    ensures
        canonical_digits(dec_rep(n)),
        dec_rep(n)[0] == '0' <==> n == 0,
        n < 10 <==> dec_rep(n).len() == 1,
    decreases n,
{
    if n < 10 {
    } else {
        lemma_dec_rep_canonical(n / 10);
        let s = dec_rep(n / 10);
        assert(dec_rep(n) == s.push(digit_char((n % 10) as int)));
        assert(dec_rep(n)[0] == s[0]);
        assert(forall|i: int|
            0 <= i < s.len() ==> #[trigger] dec_rep(n)[i] == s[i] && is_digit_char(s[i]));
    }
}

/// Parsing inverts printing: the decimal representation of `n` parses back
/// to `n`.
pub proof fn lemma_parse_dec_rep(n: nat)
    ensures
        parse_dec(dec_rep(n)) == n,
    decreases n,
{
    if n < 10 {
        reveal_with_fuel(parse_dec, 2);
        assert(dec_rep(n).drop_last() =~= Seq::<char>::empty());
        assert(parse_dec(dec_rep(n)) == digit_val(digit_char(n as int)));
    } else {
        lemma_parse_dec_rep(n / 10);
        let s = dec_rep(n);
        assert(s.drop_last() =~= dec_rep(n / 10));
        assert(parse_dec(s) == (n / 10) * 10 + n % 10);
        assert((n / 10) * 10 + n % 10 == n) by (nonlinear_arith);
    }
}

/// Printing inverts parsing on canonical digit strings.
pub proof fn lemma_dec_rep_parse(s: Seq<char>)
    requires
        canonical_digits(s),
    ensures
        dec_rep(parse_dec(s)) == s,
    decreases s.len(),
{
    if s.len() == 1 {
        reveal_with_fuel(parse_dec, 2);
        assert(s.drop_last() =~= Seq::<char>::empty());
        assert(s.last() == s[0]);
        assert(parse_dec(s) == digit_val(s[0]));
        assert(dec_rep(parse_dec(s)) =~= s);
    } else {
        let t = s.drop_last();
        assert(canonical_digits(t));
        lemma_dec_rep_parse(t);
        if t.len() == 1 && t[0] == '0' {
            assert(s[0] == '0' && s.len() >= 2);
            assert(false);
        }
        assert(parse_dec(t) >= 1) by {
            if parse_dec(t) == 0 {
                lemma_dec_rep_canonical(parse_dec(t));
                assert(t[0] == '0' && t.len() == 1);
            }
        }
        let n = parse_dec(s);
        let q = parse_dec(t);
        let v = digit_val(s.last());
        assert(n == q * 10 + v);
        assert(n / 10 == q && n % 10 == v) by (nonlinear_arith)
            requires n == q * 10 + v && 0 <= v < 10 && q >= 0;
        assert(n >= 10) by (nonlinear_arith)
            requires n == q * 10 + v && q >= 1 && v >= 0;
        assert(dec_rep(n) == dec_rep(q).push(digit_char(v)));
        assert(dec_rep(n) =~= s);
    }
}

/// A longer digit prefix never parses to a smaller value.
pub proof fn lemma_parse_prefix_le(s: Seq<char>, i: int)
    requires
        0 <= i <= s.len(),
    ensures
        parse_dec(s.take(i)) <= parse_dec(s),
    decreases s.len() - i,
{
    if i == s.len() {
        assert(s.take(i) =~= s);
    } else {
        lemma_parse_prefix_le(s, i + 1);
        let t = s.take(i + 1);
        assert(t.drop_last() =~= s.take(i));
        assert(parse_dec(s.take(i)) <= parse_dec(s.take(i)) * 10 + digit_val(t.last()))
            by (nonlinear_arith);
    }
}

/// Distinct state triples have distinct key texts, so a key determines the
/// triple that produced it: the round trip from a triple through its key
/// and back is the identity.
pub proof fn lemma_state_key_injective(p1: nat, d1: nat, u1: bool, p2: nat, d2: nat, u2: bool)
    requires
        state_key(p1, d1, u1) == state_key(p2, d2, u2),
    ensures
        p1 == p2 && d1 == d2 && u1 == u2,
{
    let s = state_key(p1, d1, u1);
    lemma_dec_rep_canonical(p1);
    lemma_dec_rep_canonical(p2);
    lemma_dec_rep_canonical(d1);
    lemma_dec_rep_canonical(d2);
    let a1 = dec_rep(p1);
    let a2 = dec_rep(p2);
    assert(a1.len() == a2.len()) by {
        if a1.len() < a2.len() {
            assert(s[a1.len() as int] == '-');
            assert(state_key(p2, d2, u2)[a1.len() as int] == a2[a1.len() as int]);
            assert(is_digit_char(a2[a1.len() as int]));
        }
        if a2.len() < a1.len() {
            assert(s[a2.len() as int] == '-');
            assert(s[a2.len() as int] == a1[a2.len() as int]);
            assert(is_digit_char(a1[a2.len() as int]));
        }
    }
    assert forall|i: int| 0 <= i < a1.len() implies a1[i] == a2[i] by {
        assert(s[i] == a1[i]);
        assert(state_key(p2, d2, u2)[i] == a2[i]);
    }
    assert(a1 =~= a2);
    lemma_parse_dec_rep(p1);
    lemma_parse_dec_rep(p2);
    let b1 = dec_rep(d1);
    let b2 = dec_rep(d2);
    let off = a1.len() as int + 1;
    assert(b1.len() == b2.len()) by {
        if b1.len() < b2.len() {
            assert(s[off + b1.len() as int] == '-');
            assert(state_key(p2, d2, u2)[off + b1.len() as int] == b2[b1.len() as int]);
            assert(is_digit_char(b2[b1.len() as int]));
        }
        if b2.len() < b1.len() {
            assert(s[off + b2.len() as int] == '-');
            assert(s[off + b2.len() as int] == b1[b2.len() as int]);
            assert(is_digit_char(b1[b2.len() as int]));
        }
    }
    assert(b1 =~= b2) by {
        assert(forall|i: int| 0 <= i < b1.len() ==> s[off + i] == b1[i] && #[trigger] b2[i] == state_key(
            p2, d2, u2)[off + i]);
    }
    lemma_parse_dec_rep(d1);
    lemma_parse_dec_rep(d2);
    assert(u1 == u2) by {
        let boff = off + b1.len() as int + 1;
        if u1 != u2 {
            assert(bool_rep(u1).len() != bool_rep(u2).len());
            assert(s.len() == boff + bool_rep(u1).len());
            assert(state_key(p2, d2, u2).len() == boff + bool_rep(u2).len());
        }
    }
}

/// The text of one decimal digit.
fn digit_str(d: usize) -> (r: &'static str)
    requires
        d < 10,
    ensures
        r@ == seq![digit_char(d as int)],
{
    if d == 0 {
        proof {
            reveal_strlit("0");
            assert("0"@ =~= seq![digit_char(0)]);
        }
        "0"
    } else if d == 1 {
        proof {
            reveal_strlit("1");
            assert("1"@ =~= seq![digit_char(1)]);
        }
        "1"
    } else if d == 2 {
        proof {
            reveal_strlit("2");
            assert("2"@ =~= seq![digit_char(2)]);
        }
        "2"
    } else if d == 3 {
        proof {
            reveal_strlit("3");
            assert("3"@ =~= seq![digit_char(3)]);
        }
        "3"
    } else if d == 4 {
        proof {
            reveal_strlit("4");
            assert("4"@ =~= seq![digit_char(4)]);
        }
        "4"
    } else if d == 5 {
        proof {
            reveal_strlit("5");
            assert("5"@ =~= seq![digit_char(5)]);
        }
        "5"
    } else if d == 6 {
        proof {
            reveal_strlit("6");
            assert("6"@ =~= seq![digit_char(6)]);
        }
        "6"
    } else if d == 7 {
        proof {
            reveal_strlit("7");
            assert("7"@ =~= seq![digit_char(7)]);
        }
        "7"
    } else if d == 8 {
        proof {
            reveal_strlit("8");
            assert("8"@ =~= seq![digit_char(8)]);
        }
        "8"
    } else {
        proof {
            reveal_strlit("9");
            assert("9"@ =~= seq![digit_char(9)]);
        }
        "9"
    }
}

/// Writes `n` in decimal.
pub(crate) fn format_decimal(n: usize) -> (r: String)
    ensures
        r@ == dec_rep(n as nat),
    decreases n,
{
    if n < 10 {
        digit_str(n).to_owned()
    } else {
        let mut s = format_decimal(n / 10);
        s.append(digit_str(n % 10));
        proof {
            assert(s@ =~= dec_rep((n / 10) as nat).push(digit_char((n % 10) as int)));
        }
        s
    }
}

/// Writes the key text for the state triple: the two sums in decimal,
/// the flag as `true` or `false`, the three fields joined by `-`.
pub fn encode_state(player_sum: usize, dealer_sum: usize, usable_ace: bool) -> (r: String)
    ensures
        r@ == state_key(player_sum as nat, dealer_sum as nat, usable_ace),
{
    let mut s = format_decimal(player_sum);
    s.append("-");
    let d = format_decimal(dealer_sum);
    s.append(d.as_str());
    s.append("-");
    if usable_ace {
        s.append("true");
    } else {
        s.append("false");
    }
    proof {
        reveal_strlit("-");
        reveal_strlit("true");
        reveal_strlit("false");
        assert("-"@ =~= seq!['-']);
        if usable_ace {
            assert("true"@ =~= bool_rep(true));
        } else {
            assert("false"@ =~= bool_rep(false));
        }
        assert(s@ =~= state_key(player_sum as nat, dealer_sum as nat, usable_ace));
    }
    s
}

/// Reads one decimal digit.
fn digit_of(c: char) -> (r: Option<usize>)
    ensures
        r matches Some(d) ==> is_digit_char(c) && d == digit_val(c) && d < 10,
        r is None ==> !is_digit_char(c),
{
    match c {
        '0' => Some(0),
        '1' => Some(1),
        '2' => Some(2),
        '3' => Some(3),
        '4' => Some(4),
        '5' => Some(5),
        '6' => Some(6),
        '7' => Some(7),
        '8' => Some(8),
        '9' => Some(9),
        _ => None,
    }
}

/// A decimal representation of `m` sits at `start` in `s` as a maximal
/// digit run.
pub open spec fn field_at(s: Seq<char>, start: int, m: nat) -> bool {
    &&& start + dec_rep(m).len() <= s.len()
    &&& s.subrange(start, start + dec_rep(m).len() as int) == dec_rep(m)
    &&& (start + dec_rep(m).len() == s.len() || !is_digit_char(s[start + dec_rep(m).len() as int]))
}

/// Reads the canonical decimal field that starts at `start`: a nonempty
/// maximal digit run with no leading zero, whose value fits a `usize`.
fn parse_field(s: &str, start: usize) -> (r: Option<(usize, usize)>)
    requires
        start <= s@.len(),
    ensures
        r matches Some(ve) ==> start + dec_rep(ve.0 as nat).len() == ve.1 && field_at(
            s@,
            start as int,
            ve.0 as nat,
        ),
        forall|m: nat|
            m <= usize::MAX && #[trigger] field_at(s@, start as int, m) ==> r == Some(
                (m as usize, (start + dec_rep(m).len()) as usize),
            ),
{
    let n = s.unicode_len();
    if start >= n {
        proof {
            assert forall|m: nat| m <= usize::MAX && field_at(s@, start as int, m) implies false by {
                lemma_dec_rep_canonical(m);
            }
        }
        return None;
    }
    let c0 = s.get_char(start);
    let d0 = match digit_of(c0) {
        Some(d) => d,
        None => {
            proof {
                assert forall|m: nat|
                    m <= usize::MAX && field_at(s@, start as int, m) implies false by {
                    lemma_dec_rep_canonical(m);
                    assert(s@[start as int] == dec_rep(m)[0]);
                }
            }
            return None;
        },
    };
    if c0 == '0' {
        // A canonical zero field is exactly one digit long.
        if start + 1 < n {
            let c1 = s.get_char(start + 1);
            if digit_of(c1).is_some() {
                proof {
                    assert forall|m: nat|
                        m <= usize::MAX && field_at(s@, start as int, m) implies false by {
                        lemma_dec_rep_canonical(m);
                        assert(s@[start as int] == dec_rep(m)[0]);
                        assert(m == 0);
                        assert(dec_rep(m).len() == 1);
                    }
                }
                return None;
            }
        }
        proof {
            reveal_with_fuel(parse_dec, 2);
            assert(dec_rep(0).drop_last() =~= Seq::<char>::empty());
            assert(s@.subrange(start as int, start as int + 1) =~= dec_rep(0nat));
            assert(field_at(s@, start as int, 0nat));
            assert forall|m: nat|
                m <= usize::MAX && field_at(s@, start as int, m) implies m == 0 by {
                lemma_dec_rep_canonical(m);
                assert(s@[start as int] == dec_rep(m)[0]);
            }
        }
        return Some((0, start + 1));
    }
    let ghost sv = s@;
    let mut i: usize = start;
    let mut acc: usize = 0;
    let mut stop = false;
    while !stop && i < n
        invariant
            start <= i <= n == sv.len(),
            s@ == sv,
            forall|j: int| start <= j < i ==> is_digit_char(#[trigger] sv[j]),
            acc as nat == parse_dec(sv.subrange(start as int, i as int)),
            i > start || !stop,
            sv[start as int] == c0,
            is_digit_char(c0) && c0 != '0',
            stop ==> i < n && !is_digit_char(sv[i as int]),
        decreases n - i + (if stop { 0int } else { 1int }),
    {
        let c = s.get_char(i);
        match digit_of(c) {
            Some(dg) => {
                if acc > (usize::MAX - dg) / 10 {
                    // The field overflows a usize, so it is not a value this
                    // library ever wrote.
                    proof {
                        assert(acc * 10 + dg > usize::MAX) by (nonlinear_arith)
                            requires
                                acc > (usize::MAX - dg) / 10,
                                0 <= dg < 10,
                                usize::MAX >= 10,
                        ;
                        assert forall|m: nat|
                            m <= usize::MAX && field_at(s@, start as int, m) implies false by {
                            lemma_dec_rep_canonical(m);
                            let ds = dec_rep(m);
                            let e = start + ds.len() as int;
                            assert(e >= i + 1) by {
                                if e <= i {
                                    assert(is_digit_char(sv[e])) by {
                                        if e < i {
                                        } else {
                                            assert(sv[e] == c);
                                        }
                                    }
                                }
                            }
                            lemma_parse_prefix_le(ds, i + 1 - start);
                            lemma_parse_dec_rep(m);
                            assert(sv.subrange(start as int, i + 1) =~= ds.take(i + 1 - start));
                            assert(sv.subrange(start as int, i + 1).drop_last() =~= sv.subrange(
                                start as int,
                                i as int,
                            ));
                            assert(sv.subrange(start as int, i + 1).last() == sv[i as int]);
                            assert(parse_dec(sv.subrange(start as int, i + 1)) == acc * 10 + dg);
                        }
                    }
                    return None;
                }
                proof {
                    assert(acc * 10 <= usize::MAX - dg) by (nonlinear_arith)
                        requires
                            acc <= (usize::MAX - dg) / 10,
                            0 <= dg < 10,
                    ;
                    assert(sv.subrange(start as int, i + 1).drop_last() =~= sv.subrange(
                        start as int,
                        i as int,
                    ));
                    assert(sv.subrange(start as int, i + 1).last() == sv[i as int]);
                }
                acc = acc * 10 + dg;
                i = i + 1;
            },
            None => {
                stop = true;
            },
        }
    }
    proof {
        assert(i == n || !is_digit_char(sv[i as int]));
        let run = sv.subrange(start as int, i as int);
        assert(run[0] == c0);
        assert(canonical_digits(run));
        lemma_dec_rep_parse(run);
        assert(run == dec_rep(acc as nat));
        assert(field_at(sv, start as int, acc as nat));
        assert forall|m: nat|
            m <= usize::MAX && field_at(s@, start as int, m) implies m == acc as nat by {
            lemma_dec_rep_canonical(m);
            let ds = dec_rep(m);
            let e = start + ds.len() as int;
            assert(dec_rep(m).len() == i - start) by {
                if e < i {
                    assert(is_digit_char(sv[e]));
                }
                if e > i {
                    assert(is_digit_char(ds[i - start]));
                    assert(sv[i as int] == ds[i - start]);
                }
            }
            lemma_parse_dec_rep(m);
            assert(ds =~= run);
        }
    }
    Some((acc, i))
}

/// How the pieces of a key text sit inside it.
proof fn lemma_key_structure(s: Seq<char>, p: nat, d: nat, u: bool)
    requires
        s == state_key(p, d, u),
    ensures
        field_at(s, 0, p),
        s[dec_rep(p).len() as int] == '-',
        field_at(s, dec_rep(p).len() as int + 1, d),
        s[dec_rep(p).len() as int + 1 + dec_rep(d).len() as int] == '-',
        s.len() == dec_rep(p).len() + 1 + dec_rep(d).len() + 1 + bool_rep(u).len(),
        s.subrange(dec_rep(p).len() as int + dec_rep(d).len() as int + 2, s.len() as int) == bool_rep(u),
{
    lemma_dec_rep_canonical(p);
    lemma_dec_rep_canonical(d);
    let a = dec_rep(p).len() as int;
    let b = dec_rep(d).len() as int;
    assert(s.subrange(0, a) =~= dec_rep(p));
    assert(s.subrange(a + 1, a + 1 + b) =~= dec_rep(d));
    assert(s.subrange(a + b + 2, s.len() as int) =~= bool_rep(u));
    assert(field_at(s, 0, p));
    assert(field_at(s, a + 1, d));
}

/// Parses a key text back to its state triple, strictly: the result is
/// `Some` exactly on the texts that [`encode_state`] produces, and the
/// triple returned is the one that was encoded.
pub fn decode_state(state: String) -> (r: Option<(usize, usize, bool)>)
    ensures
        r matches Some(t) ==> state@ == state_key(t.0 as nat, t.1 as nat, t.2),
        forall|p: nat, d: nat, u: bool|
            p <= usize::MAX && d <= usize::MAX && state@ == #[trigger] state_key(p, d, u)
                ==> r == Some((p as usize, d as usize, u)),
{
    let ghost sv = state@;
    let s = state.as_str();
    let n = s.unicode_len();
    let first = parse_field(s, 0);
    if first.is_none() {
        proof {
            assert forall|p: nat, d: nat, u: bool|
                p <= usize::MAX && d <= usize::MAX && sv == #[trigger] state_key(p, d, u)
                implies false by {
                lemma_key_structure(sv, p, d, u);
            }
        }
        return None;
    }
    let (p, i) = first.unwrap();
    proof {
        assert forall|pp: nat, dd: nat, uu: bool|
            pp <= usize::MAX && dd <= usize::MAX && sv == #[trigger] state_key(pp, dd, uu)
            implies pp == p as nat && i == dec_rep(pp).len() by {
            lemma_key_structure(sv, pp, dd, uu);
        }
    }
    if i >= n {
        proof {
            assert forall|pp: nat, dd: nat, uu: bool|
                pp <= usize::MAX && dd <= usize::MAX && sv == #[trigger] state_key(pp, dd, uu)
                implies false by {
                lemma_key_structure(sv, pp, dd, uu);
            }
        }
        return None;
    }
    if s.get_char(i) != '-' {
        proof {
            assert forall|pp: nat, dd: nat, uu: bool|
                pp <= usize::MAX && dd <= usize::MAX && sv == #[trigger] state_key(pp, dd, uu)
                implies false by {
                lemma_key_structure(sv, pp, dd, uu);
            }
        }
        return None;
    }
    let second = parse_field(s, i + 1);
    if second.is_none() {
        proof {
            assert forall|pp: nat, dd: nat, uu: bool|
                pp <= usize::MAX && dd <= usize::MAX && sv == #[trigger] state_key(pp, dd, uu)
                implies false by {
                lemma_key_structure(sv, pp, dd, uu);
            }
        }
        return None;
    }
    let (d, j) = second.unwrap();
    proof {
        assert forall|pp: nat, dd: nat, uu: bool|
            pp <= usize::MAX && dd <= usize::MAX && sv == #[trigger] state_key(pp, dd, uu)
            implies dd == d as nat && j == i + 1 + dec_rep(dd).len() by {
            lemma_key_structure(sv, pp, dd, uu);
        }
    }
    if j >= n {
        proof {
            assert forall|pp: nat, dd: nat, uu: bool|
                pp <= usize::MAX && dd <= usize::MAX && sv == #[trigger] state_key(pp, dd, uu)
                implies false by {
                lemma_key_structure(sv, pp, dd, uu);
            }
        }
        return None;
    }
    if s.get_char(j) != '-' {
        proof {
            assert forall|pp: nat, dd: nat, uu: bool|
                pp <= usize::MAX && dd <= usize::MAX && sv == #[trigger] state_key(pp, dd, uu)
                implies false by {
                lemma_key_structure(sv, pp, dd, uu);
            }
        }
        return None;
    }
    let t = j + 1;
    let rem = n - t;
    if rem == 4 && s.get_char(t) == 't' && s.get_char(t + 1) == 'r' && s.get_char(t + 2) == 'u'
        && s.get_char(t + 3) == 'e' {
        proof {
            assert(sv.subrange(t as int, n as int) =~= bool_rep(true));
            assert(sv =~= state_key(p as nat, d as nat, true));
            assert forall|pp: nat, dd: nat, uu: bool|
                pp <= usize::MAX && dd <= usize::MAX && sv == #[trigger] state_key(pp, dd, uu)
                implies pp == p as nat && dd == d as nat && uu == true by {
                lemma_state_key_injective(pp, dd, uu, p as nat, d as nat, true);
            }
        }
        return Some((p, d, true));
    }
    if rem == 5 && s.get_char(t) == 'f' && s.get_char(t + 1) == 'a' && s.get_char(t + 2) == 'l'
        && s.get_char(t + 3) == 's' && s.get_char(t + 4) == 'e' {
        proof {
            assert(sv.subrange(t as int, n as int) =~= bool_rep(false));
            assert(sv =~= state_key(p as nat, d as nat, false));
            assert forall|pp: nat, dd: nat, uu: bool|
                pp <= usize::MAX && dd <= usize::MAX && sv == #[trigger] state_key(pp, dd, uu)
                implies pp == p as nat && dd == d as nat && uu == false by {
                lemma_state_key_injective(pp, dd, uu, p as nat, d as nat, false);
            }
        }
        return Some((p, d, false));
    }
    proof {
        assert forall|pp: nat, dd: nat, uu: bool|
            pp <= usize::MAX && dd <= usize::MAX && sv == #[trigger] state_key(pp, dd, uu)
            implies false by {
            lemma_key_structure(sv, pp, dd, uu);
            let tail = sv.subrange(t as int, n as int);
            assert(tail == bool_rep(uu));
            if uu {
                assert(rem == 4);
                assert(sv[t as int] == 't' && sv[t + 1] == 'r' && sv[t + 2] == 'u' && sv[t + 3]
                    == 'e');
            } else {
                assert(rem == 5);
                assert(sv[t as int] == 'f' && sv[t + 1] == 'a' && sv[t + 2] == 'l' && sv[t + 3]
                    == 's' && sv[t + 4] == 'e');
            }
        }
    }
    None
}

} // verus!
