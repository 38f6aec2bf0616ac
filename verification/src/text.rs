//! Verified text helpers: decimal rendering of machine integers, and the
//! rewriting of a number's rendered form into plain decimal notation.
use crate::number::all_digits;
use crate::number::is_digit_char;
use vstd::prelude::*;

verus! {

/// The decimal digit character for a digit value.
pub open spec fn digit_char(d: int) -> char {
    if d == 0 {
        '0'
    } else if d == 1 {
        '1'
    } else if d == 2 {
        '2'
    } else if d == 3 {
        '3'
    } else if d == 4 {
        '4'
    } else if d == 5 {
        '5'
    } else if d == 6 {
        '6'
    } else if d == 7 {
        '7'
    } else if d == 8 {
        '8'
    } else {
        '9'
    }
}

/// The decimal text of a natural number: no sign, no leading zeros
/// (except for zero itself).
pub open spec fn dec_str(n: nat) -> Seq<char>
    decreases n,
{
    if n < 10 {
        seq![digit_char(n as int)]
    } else {
        dec_str(n / 10) + seq![digit_char((n % 10) as int)]
    }
}

/// The numeric value of a digit character.
pub open spec fn digit_val(c: char) -> nat {
    if '0' <= c <= '9' {
        (c as nat - '0' as nat) as nat
    } else {
        0
    }
}

/// The value of a string of decimal digits, most significant first.
pub open spec fn dec_value(s: Seq<char>) -> nat
    decreases s.len(),
{
    if s.len() == 0 {
        0
    } else {
        dec_value(s.subrange(0, s.len() - 1)) * 10 + digit_val(s[s.len() - 1])
    }
}

/// The first position of `c` in `s`, or -1 if `c` does not occur.
pub open spec fn find_char(s: Seq<char>, c: char) -> int
    decreases s.len(),
{
    if s.len() == 0 {
        -1
    } else if s[0] == c {
        0
    } else if find_char(s.subrange(1, s.len() as int), c) < 0 {
        -1
    } else {
        find_char(s.subrange(1, s.len() as int), c) + 1
    }
}

/// `find_char` returns the first position of `c`, or -1 when there is none.
pub proof fn lemma_find_char(s: Seq<char>, c: char)
    ensures
        find_char(s, c) >= 0 ==> 0 <= find_char(s, c) < s.len() && s[find_char(s, c)] == c && (
        forall|j: int| 0 <= j < find_char(s, c) ==> s[j] != c),
        find_char(s, c) < 0 ==> forall|j: int| 0 <= j < s.len() ==> s[j] != c,
    decreases s.len(),
{
    if s.len() > 0 && s[0] != c {
        let t = s.subrange(1, s.len() as int);
        lemma_find_char(t, c);
        assert forall|j: int| 1 <= j < s.len() implies s[j] == t[j - 1] by {}
    }
}

fn digit_text(d: u64) -> (r: &'static str)
    requires
        d < 10,
    ensures
        r@ == seq![digit_char(d as int)],
{
    proof {
        reveal_strlit("0");
        reveal_strlit("1");
        reveal_strlit("2");
        reveal_strlit("3");
        reveal_strlit("4");
        reveal_strlit("5");
        reveal_strlit("6");
        reveal_strlit("7");
        reveal_strlit("8");
        reveal_strlit("9");
    }
    let r: &'static str = if d == 0 {
        "0"
    } else if d == 1 {
        "1"
    } else if d == 2 {
        "2"
    } else if d == 3 {
        "3"
    } else if d == 4 {
        "4"
    } else if d == 5 {
        "5"
    } else if d == 6 {
        "6"
    } else if d == 7 {
        "7"
    } else if d == 8 {
        "8"
    } else {
        "9"
    };
    proof {
        assert(r@ =~= seq![digit_char(d as int)]);
    }
    r
}

/// A run of `n` zero characters.
pub open spec fn zeros_seq(n: nat) -> Seq<char> {
    Seq::new(n, |i: int| '0')
}

/// A digit string of at most three digits is worth at most 999.
pub proof fn lemma_dec_value_small(s: Seq<char>)
    ensures
        s.len() <= 1 ==> dec_value(s) <= 9,
        s.len() <= 2 ==> dec_value(s) <= 99,
        s.len() <= 3 ==> dec_value(s) <= 999,
    decreases s.len(),
{
    if 0 < s.len() <= 3 {
        lemma_dec_value_small(s.subrange(0, s.len() - 1));
    }
}

/// `s` without its trailing zero characters.
pub open spec fn strip_zeros(s: Seq<char>) -> Seq<char>
    decreases s.len(),
{
    if s.len() > 0 && s.last() == '0' {
        strip_zeros(s.drop_last())
    } else {
        s
    }
}

/// Rewrites the text a number was rendered as into plain decimal notation.
///
/// Text of the shape `[-] d+ [. d+] E (+|-) d{1,3}` becomes the same value
/// written without an exponent, trailing zeros of the fraction dropped;
/// `+Inf` and `-Inf` become `inf` and `-inf`; everything else is left as
/// it stands.
pub open spec fn normalize_text(s: Seq<char>) -> Seq<char> {
    if s == seq!['+', 'I', 'n', 'f'] {
        seq!['i', 'n', 'f']
    } else if s == seq!['-', 'I', 'n', 'f'] {
        seq!['-', 'i', 'n', 'f']
    } else {
        let e = find_char(s, 'E');
        if e < 0 {
            s
        } else {
            let neg = s[0] == '-';
            let h0: int = if neg {
                1
            } else {
                0
            };
            let d = find_char(s, '.');
            let has_dot = h0 < d < e;
            let head = if has_dot {
                s.subrange(h0, d)
            } else {
                s.subrange(h0, e)
            };
            let frac = if has_dot {
                strip_zeros(s.subrange(d + 1, e))
            } else {
                Seq::<char>::empty()
            };
            let xdigits = s.subrange(e + 2, s.len() as int);
            let rawfrac = if has_dot {
                s.subrange(d + 1, e)
            } else {
                Seq::<char>::empty()
            };
            if e + 2 < s.len() <= e + 5 && (s[e + 1] == '+' || s[e + 1] == '-') && all_digits(
                xdigits,
            ) && head.len() >= 1 && all_digits(head) && all_digits(rawfrac) {
                let ev = dec_value(xdigits) as int;
                let sev: int = if s[e + 1] == '-' {
                    -ev
                } else {
                    ev
                };
                plain_of(neg, head, frac, sev)
            } else {
                s
            }
        }
    }
}

/// The plain decimal writing of `[-] head.frac × 10^sev`: the digits of
/// `head` and `frac` with the decimal point moved `sev` places to the
/// right, zero-padded where it leaves the digits.
pub open spec fn plain_of(neg: bool, head: Seq<char>, frac: Seq<char>, sev: int) -> Seq<char> {
    let all = head + frac;
    let pp = head.len() + sev;
    let body = if pp <= 0 {
        seq!['0', '.'] + zeros_seq((-pp) as nat) + all
    } else if pp >= all.len() {
        all + zeros_seq((pp - all.len()) as nat)
    } else {
        all.subrange(0, pp) + seq!['.'] + all.subrange(pp, all.len() as int)
    };
    if neg {
        seq!['-'] + body
    } else {
        body
    }
}

/// The first position of `c` in `s`, as `find_char` gives it.
#[verifier::loop_isolation(false)]
fn find_first_char(s: &str, c: char) -> (r: Option<usize>)
    ensures
        match r {
            Some(i) => i as int == find_char(s@, c),
            None => find_char(s@, c) < 0,
        },
{
    proof {
        lemma_find_char(s@, c);
    }
    let n = s.unicode_len();
    let mut i: usize = 0;
    while i < n
        invariant
            i <= n,
            n == s@.len(),
            forall|j: int| 0 <= j < i ==> s@[j] != c,
        decreases n - i,
    {
        if s.get_char(i) == c {
            proof {
                if find_char(s@, c) < i {
                    assert(s@[find_char(s@, c)] != c);
                }
            }
            return Some(i);
        }
        i = i + 1;
    }
    None
}

/// Whether every character of `s` in `[from, to)` is a decimal digit.
#[verifier::loop_isolation(false)]
fn check_all_digits(s: &str, from: usize, to: usize) -> (r: bool)
    requires
        from <= to <= s@.len(),
    ensures
        r == all_digits(s@.subrange(from as int, to as int)),
{
    let mut i: usize = from;
    while i < to
        invariant
            from <= i <= to <= s@.len(),
            forall|j: int| from <= j < i ==> is_digit_char(#[trigger] s@[j]),
        decreases to - i,
    {
        let ch = s.get_char(i);
        if !(ch >= '0' && ch <= '9') {
            proof {
                assert(s@.subrange(from as int, to as int)[i - from] == ch);
            }
            return false;
        }
        i = i + 1;
    }
    proof {
        assert forall|j: int| 0 <= j < to - from implies is_digit_char(
            #[trigger] s@.subrange(from as int, to as int)[j],
        ) by {
            assert(s@.subrange(from as int, to as int)[j] == s@[from + j]);
        }
    }
    true
}

/// The value of the digits of `s` in `[from, to)`; at most three digits.
#[verifier::loop_isolation(false)]
fn parse_small_digits(s: &str, from: usize, to: usize) -> (r: u64)
    requires
        from <= to <= s@.len(),
        to - from <= 3,
        all_digits(s@.subrange(from as int, to as int)),
    ensures
        r as nat == dec_value(s@.subrange(from as int, to as int)),
        r <= 999,
{
    proof {
        lemma_dec_value_small(s@.subrange(from as int, to as int));
    }
    let mut i: usize = from;
    let mut v: u64 = 0;
    while i < to
        invariant
            from <= i <= to <= s@.len(),
            to - from <= 3,
            all_digits(s@.subrange(from as int, to as int)),
            v as nat == dec_value(s@.subrange(from as int, i as int)),
        decreases to - i,
    {
        let ch = s.get_char(i);
        proof {
            assert(s@.subrange(from as int, to as int)[i - from] == ch);
            lemma_dec_value_small(s@.subrange(from as int, i as int));
        }
        let d: u32 = (ch as u32) - ('0' as u32);
        v = v * 10 + (d as u64);
        i = i + 1;
        proof {
            let pre = s@.subrange(from as int, i - 1);
            let cur = s@.subrange(from as int, i as int);
            assert(cur.subrange(0, cur.len() - 1) =~= pre);
            assert(cur[cur.len() - 1] == ch);
        }
    }
    proof {
        assert(s@.subrange(from as int, i as int) =~= s@.subrange(from as int, to as int));
    }
    v
}

/// Appends `n` zero characters.
#[verifier::loop_isolation(false)]
fn push_zeros(out: &mut String, n: usize)
    ensures
        final (out)@ == old(out)@ + zeros_seq(n as nat),
{
    proof {
        reveal_strlit("0");
    }
    let ghost base = out@;
    proof {
        assert(base + zeros_seq(0) =~= base);
    }
    let mut i: usize = 0;
    while i < n
        invariant
            i <= n,
            base == old(out)@,
            out@ == base + zeros_seq(i as nat),
        decreases n - i,
    {
        out.append("0");
        i = i + 1;
        proof {
            assert(out@ =~= base + zeros_seq(i as nat));
        }
    }
}

/// Rewrites a number's rendered text into plain decimal notation, as
/// `normalize_text` describes.
#[verifier::rlimit(100)]
#[verifier::loop_isolation(false)]
pub fn normalize_number_text(s: &str) -> (r: String)
    ensures
        r@ == normalize_text(s@),
{
    let ghost inf_pos: Seq<char> = seq!['+', 'I', 'n', 'f'];
    let ghost inf_neg: Seq<char> = seq!['-', 'I', 'n', 'f'];
    let n = s.unicode_len();
    if n == 4 {
        let c0 = s.get_char(0);
        let c1 = s.get_char(1);
        let c2 = s.get_char(2);
        let c3 = s.get_char(3);
        if c1 == 'I' && c2 == 'n' && c3 == 'f' {
            if c0 == '+' {
                proof {
                    assert(s@ =~= inf_pos);
                    reveal_strlit("inf");
                    assert("inf"@ =~= seq!['i', 'n', 'f']);
                }
                return String::from_str("inf");
            }
            if c0 == '-' {
                proof {
                    assert(s@ =~= inf_neg);
                    reveal_strlit("-inf");
                    assert("-inf"@ =~= seq!['-', 'i', 'n', 'f']);
                }
                return String::from_str("-inf");
            }
        }
    }
    proof {
        assert(s@ != inf_pos && s@ != inf_neg) by {
            if s@ == inf_pos {
                assert(s@.len() == 4 && s@[0] == '+' && s@[1] == 'I' && s@[2] == 'n' && s@[3]
                    == 'f');
            }
            if s@ == inf_neg {
                assert(s@.len() == 4 && s@[0] == '-' && s@[1] == 'I' && s@[2] == 'n' && s@[3]
                    == 'f');
            }
        }
    }
    let e = match find_first_char(s, 'E') {
        None => {
            return String::from_str(s);
        },
        Some(e) => e,
    };
    proof {
        lemma_find_char(s@, 'E');
    }
    let neg = s.get_char(0) == '-';
    let h0: usize = if neg {
        1
    } else {
        0
    };
    let d_opt = match find_first_char(s, '.') {
        None => None,
        Some(d) => if h0 < d && d < e {
            Some(d)
        } else {
            None
        },
    };
    proof {
        lemma_find_char(s@, '.');
    }
    let (head_lo, head_hi): (usize, usize) = match d_opt {
        Some(d) => (h0, d),
        None => (h0, e),
    };
    let ghost head = s@.subrange(head_lo as int, head_hi as int);
    let ghost frac = match d_opt {
        Some(d) => strip_zeros(s@.subrange(d + 1, e as int)),
        None => Seq::<char>::empty(),
    };
    let well_formed = n - e > 2 && n - e <= 5 && {
        let xs = s.get_char(e + 1);
        (xs == '+' || xs == '-') && check_all_digits(s, e + 2, n) && head_hi - head_lo >= 1
            && check_all_digits(s, head_lo, head_hi) && (match d_opt {
            Some(d) => check_all_digits(s, d + 1, e),
            None => true,
        })
    };
    if !well_formed {
        return String::from_str(s);
    }
    let ev = parse_small_digits(s, e + 2, n);
    let exp_negative = s.get_char(e + 1) == '-';
    let ghost sev: int = if exp_negative {
        -(ev as int)
    } else {
        ev as int
    };
    // drop the fraction's trailing zeros, as the plain form writes none
    let f_end: usize = match d_opt {
        Some(d) => {
            let mut e2 = e;
            while e2 > d + 1 && s.get_char(e2 - 1) == '0'
                invariant
                    d + 1 <= e2 <= e,
                    strip_zeros(s@.subrange(d + 1, e as int)) == strip_zeros(
                        s@.subrange(d + 1, e2 as int),
                    ),
                decreases e2,
            {
                proof {
                    assert(s@.subrange(d + 1, e2 as int).drop_last() =~= s@.subrange(
                        d + 1,
                        e2 - 1,
                    ));
                }
                e2 = e2 - 1;
            }
            proof {
                assert(strip_zeros(s@.subrange(d + 1, e2 as int)) == s@.subrange(
                    d + 1,
                    e2 as int,
                ));
            }
            e2
        },
        None => e,
    };
    let out = rebuild_plain(s, neg, head_lo, head_hi, d_opt, f_end, exp_negative, ev);
    proof {
        assert(out@ == plain_of(neg, head, frac, sev));
        assert(normalize_text(s@) == plain_of(neg, head, frac, sev));
    }
    out
}

/// Writes `[-] head.frac × 10^(±ev)` in plain decimal, the pieces given as
/// ranges of `s`: the head is `s[head_lo..head_hi]` and the fraction, when
/// a dot was found, is `s[d+1..e]`.
#[verifier::rlimit(100)]
fn rebuild_plain(
    s: &str,
    neg: bool,
    head_lo: usize,
    head_hi: usize,
    d_opt: Option<usize>,
    e: usize,
    exp_negative: bool,
    ev: u64,
) -> (r: String)
    requires
        head_lo <= head_hi <= e < s@.len(),
        head_hi - head_lo >= 1,
        ev <= 999,
        match d_opt {
            Some(d) => d == head_hi && d + 1 <= e,
            None => true,
        },
    ensures
        r@ == plain_of(
            neg,
            s@.subrange(head_lo as int, head_hi as int),
            match d_opt {
                Some(d) => s@.subrange(d + 1, e as int),
                None => Seq::<char>::empty(),
            },
            if exp_negative {
                -(ev as int)
            } else {
                ev as int
            },
        ),
{
    let ghost head = s@.subrange(head_lo as int, head_hi as int);
    let ghost frac: Seq<char> = match d_opt {
        Some(d) => s@.subrange(d + 1, e as int),
        None => Seq::<char>::empty(),
    };
    let head_len = head_hi - head_lo;
    let frac_len = match d_opt {
        Some(d) => e - (d + 1),
        None => 0,
    };
    let all_len = head_len + frac_len;
    let ghost all = head + frac;
    proof {
        assert(all.len() == all_len);
    }
    // the position of the decimal point, computed wide enough that it
    // cannot overflow
    let pp: i128 = if exp_negative {
        (head_len as i128) - (ev as i128)
    } else {
        (head_len as i128) + (ev as i128)
    };
    let mut out = String::new();
    if neg {
        proof {
            reveal_strlit("-");
        }
        out.append("-");
    }
    let ghost out_sign = out@;
    if pp <= 0 {
        extend_point_before(&mut out, s, head_lo, head_hi, d_opt, e, (-pp) as usize);
        proof {
            assert(out@ =~= out_sign + (seq!['0', '.'] + zeros_seq((-(pp as int)) as nat) + all));
        }
    } else if pp >= all_len as i128 {
        extend_point_after(&mut out, s, head_lo, head_hi, d_opt, e, (pp - all_len as i128) as usize);
        proof {
            assert(out@ =~= out_sign + (all + zeros_seq((pp - all_len as int) as nat)));
        }
    } else {
        extend_point_inside(&mut out, s, head_lo, head_hi, d_opt, e, pp as usize);
        proof {
            assert(out@ =~= out_sign + (all.subrange(0, pp as int) + seq!['.'] + all.subrange(
                pp as int,
                all.len() as int,
            )));
        }
    }
    out
}

/// The ranges the pieces of a number's rendered form occupy in `s`: the
/// head is `s[head_lo..head_hi]` and, when a dot was found at `d`, the
/// fraction is `s[d+1..e]`.
spec fn piece_ranges_ok(s: Seq<char>, head_lo: usize, head_hi: usize, d_opt: Option<usize>, e: usize) -> bool {
    head_lo <= head_hi <= e < s.len() && match d_opt {
        Some(d) => d == head_hi && d + 1 <= e,
        None => true,
    }
}

/// The fraction piece of a number's rendered form.
spec fn frac_piece(s: Seq<char>, d_opt: Option<usize>, e: usize) -> Seq<char> {
    match d_opt {
        Some(d) => s.subrange(d + 1, e as int),
        None => Seq::<char>::empty(),
    }
}

/// Appends the head and fraction digits.
fn append_digits(out: &mut String, s: &str, head_lo: usize, head_hi: usize, d_opt: Option<usize>, e: usize)
    requires
        piece_ranges_ok(s@, head_lo, head_hi, d_opt, e),
    ensures
        final (out)@ == old(out)@ + (s@.subrange(head_lo as int, head_hi as int) + frac_piece(
            s@,
            d_opt,
            e,
        )),
{
    out.append(s.substring_char(head_lo, head_hi));
    match d_opt {
        Some(d) => out.append(s.substring_char(d + 1, e)),
        None => (),
    }
    proof {
        assert(out@ =~= old(out)@ + (s@.subrange(head_lo as int, head_hi as int) + frac_piece(
            s@,
            d_opt,
            e,
        )));
    }
}

/// Writes the digits with the decimal point `k` places before them:
/// `0.` then `k` zeros then the digits.
fn extend_point_before(out: &mut String, s: &str, head_lo: usize, head_hi: usize, d_opt: Option<usize>, e: usize, k: usize)
    requires
        piece_ranges_ok(s@, head_lo, head_hi, d_opt, e),
    ensures
        final (out)@ == old(out)@ + (seq!['0', '.'] + zeros_seq(k as nat) + (s@.subrange(
            head_lo as int,
            head_hi as int,
        ) + frac_piece(s@, d_opt, e))),
{
    proof {
        reveal_strlit("0.");
        assert("0."@ =~= seq!['0', '.']);
    }
    out.append("0.");
    push_zeros(out, k);
    append_digits(out, s, head_lo, head_hi, d_opt, e);
    proof {
        assert(out@ =~= old(out)@ + (seq!['0', '.'] + zeros_seq(k as nat) + (s@.subrange(
            head_lo as int,
            head_hi as int,
        ) + frac_piece(s@, d_opt, e))));
    }
}

/// Writes the digits with the decimal point `k` places after them: the
/// digits then `k` zeros.
fn extend_point_after(out: &mut String, s: &str, head_lo: usize, head_hi: usize, d_opt: Option<usize>, e: usize, k: usize)
    requires
        piece_ranges_ok(s@, head_lo, head_hi, d_opt, e),
    ensures
        final (out)@ == old(out)@ + ((s@.subrange(head_lo as int, head_hi as int) + frac_piece(
            s@,
            d_opt,
            e,
        )) + zeros_seq(k as nat)),
{
    append_digits(out, s, head_lo, head_hi, d_opt, e);
    push_zeros(out, k);
    proof {
        assert(out@ =~= old(out)@ + ((s@.subrange(head_lo as int, head_hi as int) + frac_piece(
            s@,
            d_opt,
            e,
        )) + zeros_seq(k as nat)));
    }
}

/// Writes the digits with the decimal point after the first `pu` of them.
#[verifier::rlimit(40)]
fn extend_point_inside(out: &mut String, s: &str, head_lo: usize, head_hi: usize, d_opt: Option<usize>, e: usize, pu: usize)
    requires
        piece_ranges_ok(s@, head_lo, head_hi, d_opt, e),
        0 < pu < head_hi - head_lo + frac_piece(s@, d_opt, e).len(),
    ensures
        final (out)@ == old(out)@ + ({
            let all = s@.subrange(head_lo as int, head_hi as int) + frac_piece(s@, d_opt, e);
            all.subrange(0, pu as int) + seq!['.'] + all.subrange(pu as int, all.len() as int)
        }),
{
    let head_len = head_hi - head_lo;
    let ghost all = s@.subrange(head_lo as int, head_hi as int) + frac_piece(s@, d_opt, e);
    proof {
        reveal_strlit(".");
    }
    if pu <= head_len {
        out.append(s.substring_char(head_lo, head_lo + pu));
        out.append(".");
        out.append(s.substring_char(head_lo + pu, head_hi));
        match d_opt {
            Some(d) => out.append(s.substring_char(d + 1, e)),
            None => (),
        }
    } else {
        // pu beyond the head forces a nonempty fraction part
        let d = match d_opt {
            Some(d) => d,
            None => 0,
        };
        out.append(s.substring_char(head_lo, head_hi));
        out.append(s.substring_char(d + 1, d + 1 + (pu - head_len)));
        out.append(".");
        out.append(s.substring_char(d + 1 + (pu - head_len), e));
    }
    proof {
        assert(out@ =~= old(out)@ + (all.subrange(0, pu as int) + seq!['.'] + all.subrange(
            pu as int,
            all.len() as int,
        )));
    }
}

/// `s` left-padded with `c` to at least `width` characters.
pub open spec fn pad_left(s: Seq<char>, width: int, c: char) -> Seq<char> {
    if s.len() >= width {
        s
    } else {
        Seq::new((width - s.len()) as nat, |i: int| c) + s
    }
}

/// Renders a machine integer in decimal, left-padded with `c` to at
/// least `width` characters.
#[verifier::loop_isolation(false)]
pub fn padded_dec(n: u64, width: usize, c: char) -> (r: String)
    ensures
        r@ == pad_left(dec_str(n as nat), width as int, c),
{
    let d = u64_to_dec(n);
    let len = d.as_str().unicode_len();
    if len >= width {
        return d;
    }
    let mut out = String::new();
    let mut k: usize = 0;
    proof {
        assert(out@ =~= Seq::new(0, |i: int| c));
    }
    while k < width - len
        invariant
            len < width,
            k <= width - len,
            out@ == Seq::new(k as nat, |i: int| c),
        decreases width - len - k,
    {
        out.push(c);
        k = k + 1;
        proof {
            assert(out@ =~= Seq::new(k as nat, |i: int| c));
        }
    }
    out.append(d.as_str());
    proof {
        assert(out@ =~= pad_left(dec_str(n as nat), width as int, c));
    }
    out
}

/// Relies on String::push: appends one character.
pub assume_specification[ std::string::String::push ](s: &mut String, c: char)
    ensures
        final (s)@ == old(s)@.push(c),
;

/// The characters of `v` in `[from, to)`, as an owned string.
#[verifier::loop_isolation(false)]
pub fn chars_to_string(v: &Vec<char>, from: usize, to: usize) -> (r: String)
    requires
        from <= to <= v@.len(),
    ensures
        r@ == v@.subrange(from as int, to as int),
{
    let mut out = String::new();
    let mut i: usize = from;
    proof {
        assert(out@ =~= v@.subrange(from as int, from as int));
    }
    while i < to
        invariant
            from <= i <= to,
            out@ == v@.subrange(from as int, i as int),
        decreases to - i,
    {
        out.push(v[i]);
        i = i + 1;
        proof {
            assert(out@ =~= v@.subrange(from as int, i as int));
        }
    }
    out
}

/// Whether the characters of `v` in `[from, to)` read as `lit`.
#[verifier::loop_isolation(false)]
pub fn range_eq_str(v: &Vec<char>, from: usize, to: usize, lit: &str) -> (r: bool)
    requires
        from <= to <= v@.len(),
    ensures
        r == (v@.subrange(from as int, to as int) == lit@),
{
    let ghost piece = v@.subrange(from as int, to as int);
    let m = lit.unicode_len();
    if to - from != m {
        return false;
    }
    let mut i: usize = 0;
    while i < m
        invariant
            i <= m,
            m == to - from,
            forall|j: int| 0 <= j < i ==> piece[j] == lit@[j],
        decreases m - i,
    {
        if v[from + i] != lit.get_char(i) {
            proof {
                assert(piece[i as int] != lit@[i as int]);
            }
            return false;
        }
        i = i + 1;
    }
    proof {
        assert(piece =~= lit@);
    }
    true
}

/// Renders a machine integer in decimal.
pub fn u64_to_dec(n: u64) -> (r: String)
    ensures
        r@ == dec_str(n as nat),
    decreases n,
{
    if n < 10 {
        String::from_str(digit_text(n))
    } else {
        let mut s = u64_to_dec(n / 10);
        s.append(digit_text(n % 10));
        proof {
            assert(s@ =~= dec_str(n as nat));
        }
        s
    }
}

} // verus!
