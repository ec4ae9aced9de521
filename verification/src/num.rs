//! Decimal text for the codec: integers are written without leading zeros,
//! coordinates are held in micro-degrees and written as plain decimals with
//! at most six fraction digits, trailing zeros stripped. Parsing accepts an
//! optional sign, an integer part, and an optional fraction of any length,
//! truncating fraction digits past the sixth.
use vstd::prelude::*;

verus! {

/// One micro-degree scale: how many micro units make one whole unit.
pub const MICRO: u64 = 1_000_000;

pub open spec fn pow10(n: nat) -> nat
    decreases n,
{
    if n == 0 {
        1
    } else {
        10 * pow10((n - 1) as nat)
    }
}

pub open spec fn digit_char(d: int) -> char {
    ((48 + d) as u8) as char
}

pub open spec fn char_digit(c: char) -> int {
    c as u32 - 48
}

pub open spec fn is_digit(c: char) -> bool {
    48 <= c as u32 <= 57
}

pub open spec fn all_digits(s: Seq<char>) -> bool {
    forall|i: int| 0 <= i < s.len() ==> is_digit(#[trigger] s[i])
}

/// The decimal digits of `n`, most significant first, no leading zeros.
pub open spec fn dec_rep(n: nat) -> Seq<char>
    decreases n,
{
    if n < 10 {
        seq![digit_char(n as int)]
    } else {
        dec_rep(n / 10).push(digit_char((n % 10) as int))
    }
}

/// The number a digit string denotes.
pub open spec fn dec_val(s: Seq<char>) -> nat
    decreases s.len(),
{
    if s.len() == 0 {
        0
    } else {
        dec_val(s.drop_last()) * 10 + (char_digit(s.last()) as nat)
    }
}

/// The digits of `r` zero-padded on the left to width `w`.
pub open spec fn pad_digits(r: nat, w: nat) -> Seq<char>
    decreases w,
{
    if w == 0 {
        Seq::empty()
    } else {
        pad_digits(r / 10, (w - 1) as nat).push(digit_char((r % 10) as int))
    }
}

/// The fraction digits for `r` micro units: `r` padded to width `w`, with
/// trailing zeros stripped.
pub open spec fn stripped_digits(r: nat, w: nat) -> Seq<char>
    decreases w,
{
    if w == 0 {
        Seq::empty()
    } else if r % 10 == 0 {
        stripped_digits(r / 10, (w - 1) as nat)
    } else {
        pad_digits(r, w)
    }
}

/// The decimal text of a micro-degree value: sign, whole part, and a
/// fraction part only when it is non-zero.
pub open spec fn fmt_micro(m: int) -> Seq<char> {
    let a = (if m < 0 {
        -m
    } else {
        m
    }) as nat;
    let q = a / (MICRO as nat);
    let r = a % (MICRO as nat);
    let sign: Seq<char> = if m < 0 {
        seq!['-']
    } else {
        Seq::empty()
    };
    if r == 0 {
        sign + dec_rep(q)
    } else {
        sign + dec_rep(q) + seq!['.'] + stripped_digits(r, 6)
    }
}

/// The micro value of a fraction digit string: the first six digits,
/// right-padded with zeros; further digits are truncated away.
pub open spec fn frac_val(f: Seq<char>) -> nat {
    if f.len() >= 6 {
        dec_val(f.subrange(0, 6))
    } else {
        dec_val(f) * pow10((6 - f.len()) as nat)
    }
}

/// Index of the first `.`, or the length if there is none.
pub open spec fn first_dot(s: Seq<char>) -> int
    decreases s.len(),
{
    if s.len() == 0 {
        0
    } else if s[0] == '.' {
        0
    } else {
        1 + first_dot(s.drop_first())
    }
}

pub proof fn lemma_first_dot(s: Seq<char>)
    ensures
        0 <= first_dot(s) <= s.len(),
        forall|j: int| 0 <= j < first_dot(s) ==> s[j] != '.',
        first_dot(s) < s.len() ==> s[first_dot(s)] == '.',
    decreases s.len(),
{
    if s.len() > 0 && s[0] != '.' {
        lemma_first_dot(s.drop_first());
        assert forall|j: int| 0 <= j < first_dot(s) implies s[j] != '.' by {
            if j > 0 {
                assert(s.drop_first()[j - 1] == s[j]);
            }
        }
    }
}

/// An unsigned digit string of at most `cap` digits, as a number.
pub open spec fn spec_parse_digits(t: Seq<char>, cap: nat) -> Option<nat> {
    if 1 <= t.len() <= cap && all_digits(t) {
        Some(dec_val(t))
    } else {
        None
    }
}

/// An optionally `-`-signed integer of at most 18 digits.
pub open spec fn spec_parse_int(t: Seq<char>) -> Option<int> {
    if t.len() >= 1 && t[0] == '-' {
        match spec_parse_digits(t.drop_first(), 18) {
            Some(v) => Some(-(v as int)),
            None => None,
        }
    } else {
        match spec_parse_digits(t, 18) {
            Some(v) => Some(v as int),
            None => None,
        }
    }
}

/// A decimal number in micro units: optional sign, a whole part of at most
/// 12 digits, and an optional non-empty fraction part.
pub open spec fn dec_micro(t: Seq<char>) -> Option<int> {
    let neg = t.len() >= 1 && t[0] == '-';
    let body = if neg {
        t.drop_first()
    } else {
        t
    };
    let k = first_dot(body);
    if k >= body.len() {
        match spec_parse_digits(body, 12) {
            Some(v) => Some(
                if neg {
                    -(v * (MICRO as nat)) as int
                } else {
                    (v * (MICRO as nat)) as int
                },
            ),
            None => None,
        }
    } else {
        let ip = body.subrange(0, k);
        let fp = body.subrange(k + 1, body.len() as int);
        if 1 <= ip.len() <= 12 && all_digits(ip) && 1 <= fp.len() && all_digits(fp) {
            let v = dec_val(ip) * (MICRO as nat) + frac_val(fp);
            Some(
                if neg {
                    -(v as int)
                } else {
                    v as int
                },
            )
        } else {
            None
        }
    }
}

pub proof fn lemma_pow10_mono(a: nat, b: nat)
    requires
        a <= b,
    ensures
        pow10(a) <= pow10(b),
    decreases b,
{
    if a < b {
        lemma_pow10_mono(a, (b - 1) as nat);
    }
}

pub proof fn lemma_dec_val_bound(s: Seq<char>)
    requires
        all_digits(s),
    ensures
        dec_val(s) < pow10(s.len()),
    decreases s.len(),
{
    if s.len() > 0 {
        assert(all_digits(s.drop_last())) by {
            assert(forall|i: int| 0 <= i < s.len() - 1 ==> s.drop_last()[i] == s[i]);
        }
        lemma_dec_val_bound(s.drop_last());
        assert(is_digit(s.last()));
    }
}

/// `dec_rep` produces at least one digit and nothing else, and `dec_val`
/// reads the number back.
pub proof fn lemma_dec_rep(n: nat)
    ensures
        all_digits(dec_rep(n)),
        dec_rep(n).len() >= 1,
        dec_val(dec_rep(n)) == n,
    decreases n,
{
    if n < 10 {
        let s = dec_rep(n);
        assert(s.drop_last() =~= Seq::<char>::empty());
        assert(dec_val(Seq::<char>::empty()) == 0);
        assert(s.last() == digit_char(n as int));
        assert(char_digit(digit_char(n as int)) == n);
        assert(dec_val(s) == n);
    } else {
        lemma_dec_rep(n / 10);
        let head = dec_rep(n / 10);
        let s = dec_rep(n);
        assert(s == head.push(digit_char((n % 10) as int)));
        assert(s.drop_last() =~= head);
        assert(char_digit(digit_char((n % 10) as int)) == n % 10);
        assert(dec_val(s) == dec_val(head) * 10 + n % 10);
        assert(dec_val(s) == (n / 10) * 10 + n % 10);
        assert(n == (n / 10) * 10 + n % 10) by (nonlinear_arith);
        assert forall|i: int| 0 <= i < s.len() implies is_digit(#[trigger] s[i]) by {
            if i < head.len() {
                assert(s[i] == head[i]);
            }
        }
    }
}

/// A number below `10^k` needs at most `k` digits.
pub proof fn lemma_dec_rep_len(n: nat, k: nat)
    requires
        k >= 1,
        n < pow10(k),
    ensures
        dec_rep(n).len() <= k,
    decreases n,
{
    if n >= 10 {
        assert(k >= 2) by {
            reveal_with_fuel(pow10, 2);
            if k == 1 {
                assert(pow10(1nat) == 10);
            }
        }
        assert(n / 10 < pow10((k - 1) as nat)) by {
            assert(pow10(k) == 10 * pow10((k - 1) as nat));
            assert(n < 10 * pow10((k - 1) as nat) ==> n / 10 < pow10((k - 1) as nat))
                by (nonlinear_arith);
        }
        lemma_dec_rep_len(n / 10, (k - 1) as nat);
    }
}

pub proof fn lemma_pad_digits(r: nat, w: nat)
    requires
        r < pow10(w),
    ensures
        all_digits(pad_digits(r, w)),
        pad_digits(r, w).len() == w,
        dec_val(pad_digits(r, w)) == r,
    decreases w,
{
    if w == 0 {
        assert(pow10(0nat) == 1);
    } else {
        assert(pow10(w) == 10 * pow10((w - 1) as nat));
        assert(r / 10 < pow10((w - 1) as nat)) by {
            assert(r < 10 * pow10((w - 1) as nat) ==> r / 10 < pow10((w - 1) as nat))
                by (nonlinear_arith);
        }
        lemma_pad_digits(r / 10, (w - 1) as nat);
        let head = pad_digits(r / 10, (w - 1) as nat);
        let s = pad_digits(r, w);
        assert(s.drop_last() =~= head);
        assert(dec_val(s) == (r / 10) * 10 + r % 10);
        assert(r == (r / 10) * 10 + r % 10) by (nonlinear_arith);
        assert forall|i: int| 0 <= i < s.len() implies is_digit(#[trigger] s[i]) by {
            if i < head.len() {
                assert(s[i] == head[i]);
            }
        }
    }
}

/// Stripping trailing zeros keeps the fraction value: reading the stripped
/// digits back at scale six recovers `r` scaled from width `w` to six.
pub proof fn lemma_stripped_digits(r: nat, w: nat)
    requires
        0 < r < pow10(w),
        w <= 6,
    ensures
        all_digits(stripped_digits(r, w)),
        1 <= stripped_digits(r, w).len() <= w,
        dec_val(stripped_digits(r, w)) * pow10((6 - stripped_digits(r, w).len()) as nat) == r
            * pow10((6 - w) as nat),
    decreases w,
{
    assert(w >= 1) by {
        if w == 0 {
            assert(pow10(0nat) == 1);
        }
    }
    if r % 10 == 0 {
        assert(r >= 10) by {
            assert(r == (r / 10) * 10 + r % 10) by (nonlinear_arith);
        }
        assert(r / 10 > 0);
        assert(r / 10 < pow10((w - 1) as nat)) by {
            assert(pow10(w) == 10 * pow10((w - 1) as nat));
            assert(r < 10 * pow10((w - 1) as nat) ==> r / 10 < pow10((w - 1) as nat))
                by (nonlinear_arith);
        }
        lemma_stripped_digits(r / 10, (w - 1) as nat);
        let s = stripped_digits(r, w);
        assert(s == stripped_digits(r / 10, (w - 1) as nat));
        let l = s.len();
        assert(dec_val(s) * pow10((6 - l) as nat) == (r / 10) * pow10((6 - (w - 1)) as nat));
        assert(pow10((7 - w) as nat) == 10 * pow10((6 - w) as nat));
        assert((r / 10) * (10 * pow10((6 - w) as nat)) == ((r / 10) * 10) * pow10((6 - w) as nat))
            by (nonlinear_arith);
        assert((r / 10) * 10 == r) by {
            assert(r == (r / 10) * 10 + r % 10) by (nonlinear_arith);
        }
    } else {
        lemma_pad_digits(r, w);
    }
}

/// A non-empty digit run trims to itself.
pub proof fn lemma_digits_trim(s: Seq<char>)
    requires
        all_digits(s),
        s.len() >= 1,
    ensures
        crate::text::spec_trim(s) == s,
{
    assert(is_digit(s[0]));
    assert(is_digit(s.last()));
    crate::text::lemma_trim_id(s);
}

/// Every character of a formatted micro value is a digit, a sign or a dot,
/// so none of it is whitespace.
pub proof fn lemma_fmt_micro_chars(v: int)
    requires
        -1_000_000_000_000_000_000 < v < 1_000_000_000_000_000_000,
    ensures
        fmt_micro(v).len() >= 1,
        forall|i: int|
            0 <= i < fmt_micro(v).len() ==> !crate::text::is_ws(#[trigger] fmt_micro(v)[i]),
{
    let a = (if v < 0 {
        -v
    } else {
        v
    }) as nat;
    let q = a / (MICRO as nat);
    let r = a % (MICRO as nat);
    assert(0 <= r < MICRO as nat) by {
        vstd::arithmetic::div_mod::lemma_remainder_upper(a as int, MICRO as int);
        vstd::arithmetic::div_mod::lemma_remainder_lower(a as int, MICRO as int);
    }
    lemma_dec_rep(q);
    let t = fmt_micro(v);
    if r == 0 {
        assert forall|i: int| 0 <= i < t.len() implies !crate::text::is_ws(#[trigger] t[i]) by {
            if v < 0 {
                if i > 0 {
                    assert(t[i] == dec_rep(q)[i - 1]);
                    assert(is_digit(t[i]));
                }
            } else {
                assert(t[i] == dec_rep(q)[i]);
                assert(is_digit(t[i]));
            }
        }
    } else {
        assert(pow10(6nat) == 1_000_000) by {
            reveal_with_fuel(pow10, 7);
        }
        lemma_stripped_digits(r, 6);
        let qs = dec_rep(q);
        let fs = stripped_digits(r, 6);
        let body = qs + seq!['.'] + fs;
        assert forall|i: int| 0 <= i < body.len() implies !crate::text::is_ws(
            #[trigger] body[i],
        ) by {
            if i < qs.len() {
                assert(body[i] == qs[i]);
                assert(is_digit(body[i]));
            } else if i == qs.len() {
                assert(body[i] == '.');
            } else {
                assert(body[i] == fs[i - qs.len() - 1]);
                assert(is_digit(body[i]));
            }
        }
        if v < 0 {
            assert(t =~= seq!['-'] + body);
            assert forall|i: int| 0 <= i < t.len() implies !crate::text::is_ws(
                #[trigger] t[i],
            ) by {
                if i > 0 {
                    assert(t[i] == body[i - 1]);
                }
            }
        } else {
            assert(t =~= body);
        }
    }
}

/// Reading stripped fraction digits back gives the fraction exactly.
pub proof fn lemma_frac_of_stripped(r: nat)
    requires
        0 < r < 1_000_000,
    ensures
        frac_val(stripped_digits(r, 6)) == r,
{
    assert(pow10(6nat) == 1_000_000) by {
        reveal_with_fuel(pow10, 7);
    }
    assert(pow10(0nat) == 1);
    lemma_stripped_digits(r, 6);
    let fs = stripped_digits(r, 6);
    if fs.len() >= 6 {
        assert(fs.len() == 6);
        assert(fs.subrange(0, 6) =~= fs);
        assert(dec_val(fs) * pow10(0nat) == r * pow10(0nat));
        assert(frac_val(fs) == dec_val(fs.subrange(0, 6)));
    } else {
        assert(dec_val(fs) * pow10((6 - fs.len()) as nat) == r * pow10(0nat));
        assert(frac_val(fs) == dec_val(fs) * pow10((6 - fs.len()) as nat));
    }
}

/// Formatting a micro value and parsing the text recovers the value.
#[verifier::rlimit(60)]
pub proof fn lemma_micro_round_trip(m: int)
    requires
        -1_000_000_000_000_000_000 < m < 1_000_000_000_000_000_000,
    ensures
        dec_micro(fmt_micro(m)) == Some(m),
{
    let a = (if m < 0 {
        -m
    } else {
        m
    }) as nat;
    let mic = MICRO as nat;
    let q = a / mic;
    let r = a % mic;
    assert(a == mic * q + r && 0 <= r < mic) by {
        vstd::arithmetic::div_mod::lemma_fundamental_div_mod(a as int, mic as int);
        vstd::arithmetic::div_mod::lemma_remainder_upper(a as int, mic as int);
        vstd::arithmetic::div_mod::lemma_remainder_lower(a as int, mic as int);
    }
    assert(pow10(12nat) == 1_000_000_000_000) by {
        reveal_with_fuel(pow10, 13);
    }
    assert(pow10(6nat) == 1_000_000) by {
        reveal_with_fuel(pow10, 7);
    }
    assert(q < pow10(12nat)) by {
        assert(a < 1_000_000_000_000_000_000);
        assert(mic * q <= a);
        assert(q >= pow10(12nat) ==> mic * q >= 1_000_000_000_000_000_000) by (nonlinear_arith)
            requires
                mic == 1_000_000,
                pow10(12nat) == 1_000_000_000_000,
        ;
    }
    lemma_dec_rep(q);
    lemma_dec_rep_len(q, 12);
    let qs = dec_rep(q);
    if r == 0 {
        let body = qs;
        let t = fmt_micro(m);
        assert(first_dot(body) >= body.len()) by {
            lemma_first_dot(body);
            if first_dot(body) < body.len() {
                assert(is_digit(body[first_dot(body)]));
            }
        }
        assert(spec_parse_digits(body, 12) == Some(q));
        if m < 0 {
            assert(t =~= seq!['-'] + qs);
            assert(t[0] == '-');
            assert(t.drop_first() =~= body);
            assert(q * mic == a) by (nonlinear_arith)
                requires
                    a == mic * q + r,
                    r == 0,
            ;
            assert(dec_micro(t) == Some(-(a as int)));
        } else {
            assert(t =~= qs);
            assert(t.len() >= 1);
            assert(t[0] != '-') by {
                assert(is_digit(t[0]));
            }
            assert(q * mic == a) by (nonlinear_arith)
                requires
                    a == mic * q + r,
                    r == 0,
            ;
            assert(dec_micro(t) == Some(a as int));
        }
    } else {
        lemma_stripped_digits(r, 6);
        lemma_frac_of_stripped(r);
        let fs = stripped_digits(r, 6);
        let body = qs + seq!['.'] + fs;
        let t = fmt_micro(m);
        assert(first_dot(body) == qs.len()) by {
            lemma_first_dot_at(body, qs.len() as int);
        }
        let k = qs.len() as int;
        assert(body.subrange(0, k) =~= qs);
        assert(body.subrange(k + 1, body.len() as int) =~= fs);
        assert(frac_val(fs) == r);
        let v = dec_val(qs) * mic + frac_val(fs);
        assert(v == q * mic + r);
        assert(q * mic + r == a) by (nonlinear_arith)
            requires
                a == mic * q + r,
        ;
        if m < 0 {
            assert(t =~= seq!['-'] + body);
            assert(t[0] == '-');
            assert(t.drop_first() =~= body);
            assert(dec_micro(t) == Some(-(a as int)));
        } else {
            assert(t =~= body);
            assert(t[0] != '-') by {
                assert(t[0] == qs[0]);
                assert(is_digit(qs[0]));
            }
            assert(dec_micro(t) == Some(a as int));
        }
    }
}

proof fn lemma_first_dot_at(s: Seq<char>, k: int)
    requires
        0 <= k < s.len(),
        forall|j: int| 0 <= j < k ==> #[trigger] s[j] != '.',
        s[k] == '.',
    ensures
        first_dot(s) == k,
{
    lemma_first_dot(s);
    let f = first_dot(s);
    if f < k {
        assert(s[f] != '.');
    }
    if f > k {
        assert(s[k] != '.');
    }
}

/// The decimal text of `n`.
pub fn format_u64(n: u64) -> (r: String)
    ensures
        r@ == dec_rep(n as nat),
    decreases n,
{
    if n < 10 {
        let mut s = String::new();
        push_digit(&mut s, (n % 10) as u8);
        proof {
            assert(s@ =~= dec_rep(n as nat));
        }
        s
    } else {
        let mut s = format_u64(n / 10);
        push_digit(&mut s, (n % 10) as u8);
        s
    }
}

fn push_digit(s: &mut String, d: u8)
    requires
        d < 10,
    ensures
        final(s)@ == old(s)@.push(digit_char(d as int)),
{
    let c: char = (48 + d) as char;
    crate::text::push_char(s, c);
}

/// The decimal text of a micro-degree value, as `fmt_micro` describes.
pub fn format_micro(m: i64) -> (r: String)
    requires
        -1_000_000_000_000_000_000 < m < 1_000_000_000_000_000_000,
    ensures
        r@ == fmt_micro(m as int),
{
    let neg = m < 0;
    let a: u64 = if neg {
        (-m) as u64
    } else {
        m as u64
    };
    let q: u64 = a / MICRO;
    let r: u64 = a % MICRO;
    let mut s = String::new();
    if neg {
        crate::text::push_char(&mut s, '-');
    }
    let whole = format_u64(q);
    s.append(whole.as_str());
    if r > 0 {
        crate::text::push_char(&mut s, '.');
        let mut rr: u64 = r;
        let mut ww: usize = 6;
        proof {
            assert(pow10(6nat) == 1_000_000) by {
                reveal_with_fuel(pow10, 7);
            }
        }
        while rr % 10 == 0
            invariant
                0 < rr < pow10(ww as nat),
                ww <= 6,
                stripped_digits(r as nat, 6) == stripped_digits(rr as nat, ww as nat),
            decreases ww,
        {
            proof {
                assert(rr >= 10) by {
                    assert(rr == (rr / 10) * 10 + rr % 10) by (nonlinear_arith);
                }
                assert(ww >= 1) by {
                    if ww == 0 {
                        assert(pow10(0nat) == 1);
                    }
                }
                assert(rr / 10 < pow10((ww - 1) as nat)) by {
                    assert(pow10(ww as nat) == 10 * pow10((ww - 1) as nat));
                    assert(rr < 10 * pow10((ww - 1) as nat) ==> rr / 10 < pow10((ww - 1) as nat))
                        by (nonlinear_arith);
                }
                assert(rr / 10 > 0) by {
                    assert(rr == (rr / 10) * 10 + rr % 10) by (nonlinear_arith);
                }
            }
            rr = rr / 10;
            ww = ww - 1;
        }
        proof {
            assert(stripped_digits(rr as nat, ww as nat) == pad_digits(rr as nat, ww as nat)) by {
                assert(ww >= 1) by {
                    if ww == 0 {
                        assert(pow10(0nat) == 1);
                    }
                }
            }
        }
        append_padded(&mut s, rr, ww);
        proof {
            assert(s@ =~= fmt_micro(m as int));
        }
    } else {
        proof {
            assert(s@ =~= fmt_micro(m as int));
        }
    }
    s
}

fn append_padded(s: &mut String, r: u64, w: usize)
    requires
        w <= 19,
    ensures
        final(s)@ == old(s)@ + pad_digits(r as nat, w as nat),
    decreases w,
{
    if w == 0 {
        proof {
            assert(old(s)@ + pad_digits(r as nat, 0nat) =~= old(s)@);
        }
    } else {
        append_padded(s, r / 10, w - 1);
        push_digit(s, (r % 10) as u8);
        proof {
            assert(s@ =~= old(s)@ + pad_digits(r as nat, w as nat));
        }
    }
}

/// Parses an unsigned run of at most `cap` digits from `s[lo..hi)`.
pub fn parse_digits_range(s: &str, lo: usize, hi: usize, cap: usize) -> (r: Option<u64>)
    requires
        lo <= hi <= s@.len(),
        cap <= 19,
    ensures
        match spec_parse_digits(s@.subrange(lo as int, hi as int), cap as nat) {
            Some(v) => r == Some(v as u64),
            None => r is None,
        },
{
    let ghost t = s@.subrange(lo as int, hi as int);
    proof {
        assert(pow10(19nat) == 10_000_000_000_000_000_000) by {
            reveal_with_fuel(pow10, 20);
        }
        if 1 <= t.len() <= cap && all_digits(t) {
            lemma_dec_val_bound(t);
            lemma_pow10_mono(t.len(), 19);
        }
    }
    if hi == lo || hi - lo > cap {
        return None;
    }
    let mut acc: u64 = 0;
    let mut i: usize = lo;
    while i < hi
        invariant
            lo <= i <= hi <= s@.len(),
            hi - lo <= cap <= 19,
            t == s@.subrange(lo as int, hi as int),
            all_digits(t.subrange(0, i - lo)),
            acc == dec_val(t.subrange(0, i - lo)),
            acc < pow10((i - lo) as nat),
        decreases hi - i,
    {
        let c = s.get_char(i);
        let cc: u32 = c as u32;
        if cc < 48 || cc > 57 {
            proof {
                assert(t[i - lo] == c);
                assert(!is_digit(c));
            }
            return None;
        }
        let d: u64 = (cc - 48) as u64;
        proof {
            lemma_pow10_mono((i - lo) as nat, 18);
            assert(pow10(18nat) == 1_000_000_000_000_000_000) by {
                reveal_with_fuel(pow10, 19);
            }
        }
        acc = acc * 10 + d;
        i = i + 1;
        proof {
            let pre = t.subrange(0, i - lo - 1);
            let cur = t.subrange(0, i - lo);
            assert(cur.drop_last() =~= pre);
            assert(cur.last() == c);
            assert(all_digits(cur)) by {
                assert(forall|j: int| 0 <= j < cur.len() - 1 ==> cur[j] == pre[j]);
            }
            assert(pow10((i - lo) as nat) == 10 * pow10((i - lo - 1) as nat));
        }
    }
    proof {
        assert(t.subrange(0, (hi - lo) as int) =~= t);
    }
    Some(acc)
}

/// Parses an optionally signed integer from `s[lo..hi)`.
pub fn parse_int_range(s: &str, lo: usize, hi: usize) -> (r: Option<i64>)
    requires
        lo <= hi <= s@.len(),
    ensures
        match spec_parse_int(s@.subrange(lo as int, hi as int)) {
            Some(v) => r == Some(v as i64) && v == (v as i64) as int,
            None => r is None,
        },
{
    let ghost t = s@.subrange(lo as int, hi as int);
    proof {
        assert(pow10(18nat) == 1_000_000_000_000_000_000) by {
            reveal_with_fuel(pow10, 19);
        }
    }
    if lo < hi && s.get_char(lo) == '-' {
        proof {
            assert(t[0] == '-');
            assert(t.drop_first() =~= s@.subrange(lo as int + 1, hi as int));
            if spec_parse_digits(t.drop_first(), 18) is Some {
                lemma_dec_val_bound(t.drop_first());
                lemma_pow10_mono(t.drop_first().len(), 18);
            }
        }
        match parse_digits_range(s, lo + 1, hi, 18) {
            Some(v) => Some(-(v as i64)),
            None => None,
        }
    } else {
        proof {
            if t.len() >= 1 {
                assert(t[0] == s@[lo as int]);
            }
            if spec_parse_digits(t, 18) is Some {
                lemma_dec_val_bound(t);
                lemma_pow10_mono(t.len(), 18);
            }
        }
        match parse_digits_range(s, lo, hi, 18) {
            Some(v) => Some(v as i64),
            None => None,
        }
    }
}

/// Parses a signed decimal from `s[lo..hi)` into micro units, as
/// `dec_micro` describes.
pub fn parse_micro_range(s: &str, lo: usize, hi: usize) -> (r: Option<i64>)
    requires
        lo <= hi <= s@.len(),
    ensures
        match dec_micro(s@.subrange(lo as int, hi as int)) {
            Some(v) => r == Some(v as i64) && v == (v as i64) as int,
            None => r is None,
        },
{
    let ghost t = s@.subrange(lo as int, hi as int);
    let neg = lo < hi && s.get_char(lo) == '-';
    let blo: usize = if neg {
        lo + 1
    } else {
        lo
    };
    let ghost body = s@.subrange(blo as int, hi as int);
    proof {
        if neg {
            assert(t[0] == '-');
            assert(t.drop_first() =~= body);
        } else {
            if t.len() >= 1 {
                assert(t[0] == s@[lo as int]);
            }
            assert(t =~= body);
        }
        assert(pow10(12nat) == 1_000_000_000_000) by {
            reveal_with_fuel(pow10, 13);
        }
        assert(pow10(6nat) == 1_000_000) by {
            reveal_with_fuel(pow10, 7);
        }
        lemma_first_dot(body);
    }
    // find the dot inside the body, if any
    let mut dot: usize = blo;
    while dot < hi && s.get_char(dot) != '.'
        invariant
            blo <= dot <= hi <= s@.len(),
            body == s@.subrange(blo as int, hi as int),
            forall|j: int| 0 <= j < dot - blo ==> #[trigger] body[j] != '.',
        decreases hi - dot,
    {
        proof {
            assert(body[dot - blo] == s@[dot as int]);
        }
        dot = dot + 1;
    }
    proof {
        if dot < hi {
            assert(body[dot - blo] == '.');
            lemma_first_dot_at(body, dot - blo);
        } else {
            lemma_first_dot(body);
            if first_dot(body) < body.len() {
                assert(body[first_dot(body)] != '.');
            }
        }
    }
    if dot == hi {
        // no fraction part
        proof {
            if spec_parse_digits(body, 12) is Some {
                lemma_dec_val_bound(body);
                lemma_pow10_mono(body.len(), 12);
            }
        }
        match parse_digits_range(s, blo, hi, 12) {
            Some(v) => {
                let val: i64 = (v * MICRO) as i64;
                proof {
                    assert(v * (MICRO as nat) < pow10(12nat) * 1_000_000) by (nonlinear_arith)
                        requires
                            v < pow10(12nat),
                            MICRO == 1_000_000,
                    ;
                }
                if neg {
                    Some(-val)
                } else {
                    Some(val)
                }
            },
            None => None,
        }
    } else {
        let ghost ip = body.subrange(0, dot - blo);
        let ghost fp = body.subrange(dot - blo + 1, body.len() as int);
        proof {
            assert(ip =~= s@.subrange(blo as int, dot as int));
            assert(fp =~= s@.subrange(dot as int + 1, hi as int));
        }
        let whole = match parse_digits_range(s, blo, dot, 12) {
            Some(v) => v,
            None => {
                return None;
            },
        };
        let frac = match parse_frac_range(s, dot + 1, hi) {
            Some(v) => v,
            None => {
                return None;
            },
        };
        proof {
            lemma_dec_val_bound(ip);
            lemma_pow10_mono(ip.len(), 12);
            assert(whole * (MICRO as nat) < pow10(12nat) * 1_000_000) by (nonlinear_arith)
                requires
                    whole < pow10(12nat),
                    MICRO == 1_000_000,
            ;
        }
        let val: i64 = (whole * MICRO + frac) as i64;
        if neg {
            Some(-val)
        } else {
            Some(val)
        }
    }
}

/// Parses a fraction digit run from `s[lo..hi)` into micro units, reading
/// the first six digits and ignoring the rest, as `frac_val` describes.
fn parse_frac_range(s: &str, lo: usize, hi: usize) -> (r: Option<u64>)
    requires
        lo <= hi <= s@.len(),
    ensures
        ({
            let f = s@.subrange(lo as int, hi as int);
            if 1 <= f.len() && all_digits(f) {
                r == Some(frac_val(f) as u64) && frac_val(f) < 1_000_000
            } else {
                r is None
            }
        }),
{
    let ghost f = s@.subrange(lo as int, hi as int);
    if lo == hi {
        return None;
    }
    // every character must be a digit, even past the sixth
    let mut i: usize = lo;
    while i < hi
        invariant
            lo <= i <= hi <= s@.len(),
            f == s@.subrange(lo as int, hi as int),
            all_digits(f.subrange(0, i - lo)),
        decreases hi - i,
    {
        let c = s.get_char(i);
        let cc: u32 = c as u32;
        if cc < 48 || cc > 57 {
            proof {
                assert(f[i - lo] == c);
            }
            return None;
        }
        i = i + 1;
        proof {
            let cur = f.subrange(0, i - lo);
            assert(forall|j: int| 0 <= j < cur.len() - 1 ==> cur[j] == f.subrange(
                0,
                i - lo - 1,
            )[j]);
            assert(cur[i - lo - 1] == c);
        }
    }
    proof {
        assert(f.subrange(0, (hi - lo) as int) =~= f);
    }
    let take: usize = if hi - lo >= 6 {
        6
    } else {
        hi - lo
    };
    let ghost g = f.subrange(0, take as int);
    proof {
        assert(all_digits(g)) by {
            assert(forall|j: int| 0 <= j < g.len() ==> g[j] == f[j]);
        }
        lemma_dec_val_bound(g);
        lemma_pow10_mono(g.len(), 6);
        assert(pow10(6nat) == 1_000_000) by {
            reveal_with_fuel(pow10, 7);
        }
    }
    let digits = match parse_digits_range(s, lo, lo + take, 6) {
        Some(v) => v,
        None => {
            proof {
                assert(g =~= s@.subrange(lo as int, (lo + take) as int));
                assert(false);
            }
            return None;
        },
    };
    let mut scale: u64 = 1;
    let mut k: usize = take;
    while k < 6
        invariant
            take <= k <= 6,
            scale == pow10((k - take) as nat),
            scale <= 1_000_000,
        decreases 6 - k,
    {
        proof {
            lemma_pow10_mono((k - take) as nat, 5);
            assert(pow10(5nat) == 100_000) by {
                reveal_with_fuel(pow10, 6);
            }
        }
        scale = scale * 10;
        k = k + 1;
        proof {
            assert(pow10((k - take) as nat) == 10 * pow10((k - take - 1) as nat));
            lemma_pow10_mono((k - take) as nat, 6);
            assert(pow10(6nat) == 1_000_000) by {
                reveal_with_fuel(pow10, 7);
            }
        }
    }
    proof {
        assert(g =~= s@.subrange(lo as int, (lo + take) as int));
        assert(pow10(0nat) == 1);
        lemma_pow10_mul(g.len(), (6 - g.len()) as nat);
        assert(dec_val(g) * scale < 1_000_000) by (nonlinear_arith)
            requires
                dec_val(g) < pow10(g.len()),
                scale == pow10((6 - g.len()) as nat),
                pow10(g.len()) * pow10((6 - g.len()) as nat) == 1_000_000,
        ;
        if f.len() >= 6 {
            assert(g =~= f.subrange(0, 6));
            assert(frac_val(f) == dec_val(g));
            assert(scale == pow10(0nat));
        } else {
            assert(g =~= f);
            assert(frac_val(f) == dec_val(f) * pow10((6 - f.len()) as nat));
        }
        assert(digits * scale == frac_val(f));
    }
    Some(digits * scale)
}

pub proof fn lemma_pow10_mul(a: nat, b: nat)
    ensures
        pow10(a) * pow10(b) == pow10(a + b),
    decreases a,
{
    if a == 0 {
        assert(pow10(0nat) == 1);
    } else {
        lemma_pow10_mul((a - 1) as nat, b);
        assert(pow10(a) * pow10(b) == (10 * pow10((a - 1) as nat)) * pow10(b));
        assert((10 * pow10((a - 1) as nat)) * pow10(b) == 10 * (pow10((a - 1) as nat) * pow10(b)))
            by (nonlinear_arith);
    }
}

} // verus!
