//! The tagged, self-describing text serialization of scheduler state and
//! note metadata, together with the strict parser for it. The parser accepts
//! exactly the canonical output of the printer, so decoding pins the encoded
//! text down completely: `encode(decode(s)) == s` wherever decoding succeeds,
//! and `decode(encode(x)) == x` for every encodable value.
use vstd::prelude::*;

use crate::errors::Error;
use crate::schedulers::sm2_of;
use crate::schedulers::Scheduler;
use crate::schedulers::sm2::SuperMemo2;
use crate::note_valid;
use crate::NoteV;
use crate::SerializedNote;
use crate::SerializedNoteV;

verus! {

/// Whether `c` is a decimal digit.
pub open spec fn is_digit(c: char) -> bool {
    48 <= c as int <= 57
}

/// The numeric value of a digit character.
pub open spec fn digit_val(c: char) -> int {
    c as int - 48
}

/// The digit character of a value in 0..=9.
pub open spec fn digit_char(d: int) -> char {
    if d == 0 {
        '0'
    } else if d == 1 {
        '1'
    } else if d == 2 {
        '2'
    } else if d == 3 {
        '3'
    } else if d == 4 {
        '4'
    } else if d == 5 {
        '5'
    } else if d == 6 {
        '6'
    } else if d == 7 {
        '7'
    } else if d == 8 {
        '8'
    } else {
        '9'
    }
}

/// The canonical decimal digits of `n >= 0`, most significant first.
pub open spec fn dec_chars(n: int) -> Seq<char>
    decreases n,
{
    if n < 10 {
        seq![digit_char(n)]
    } else {
        dec_chars(n / 10) + seq![digit_char(n % 10)]
    }
}

/// The canonical decimal form of an integer: a minus sign for negative
/// values, no leading zeros, no `-0`.
pub open spec fn int_chars(n: int) -> Seq<char> {
    if n < 0 {
        seq!['-'] + dec_chars(-n)
    } else {
        dec_chars(n)
    }
}

/// The value of a digit string, most significant first.
pub open spec fn digits_val(s: Seq<char>) -> int
    decreases s.len(),
{
    if s.len() == 0 {
        0
    } else {
        digits_val(s.drop_last()) * 10 + digit_val(s.last())
    }
}

/// A canonical unsigned decimal: nonempty, all digits, no leading zero.
pub open spec fn is_canonical_nat(s: Seq<char>) -> bool {
    &&& s.len() >= 1
    &&& (forall|j: int| 0 <= j < s.len() ==> is_digit(#[trigger] s[j]))
    &&& (s.len() > 1 ==> s[0] != '0')
}

/// Every character the canonical form of an integer can contain.
pub open spec fn int_char_ok(c: char) -> bool {
    is_digit(c) || c == '-'
}

/// The canonical digits of a value are nonempty, all digits, without a
/// leading zero, and evaluate back to the value.
pub proof fn lemma_dec_chars_canonical(n: int)
    requires
        n >= 0,
    ensures
        is_canonical_nat(dec_chars(n)),
        digits_val(dec_chars(n)) == n,
        n < 10 ==> dec_chars(n).len() == 1,
        n >= 10 ==> dec_chars(n).len() > 1,
        dec_chars(n)[0] != '0' || n == 0,
    decreases n,
{
    if n < 10 {
        let w = dec_chars(n);
        assert(w =~= seq![digit_char(n)]);
        assert(w.drop_last() =~= Seq::<char>::empty());
        assert(digits_val(w.drop_last()) == 0);
        assert(digits_val(w) == digits_val(w.drop_last()) * 10 + digit_val(w.last()));
        assert(digit_val(digit_char(n)) == n);
    } else {
        lemma_dec_chars_canonical(n / 10);
        let p = dec_chars(n / 10);
        let w = dec_chars(n);
        assert(w =~= p + seq![digit_char(n % 10)]);
        assert(w.drop_last() =~= p);
        assert(w.last() == digit_char(n % 10));
        assert(digit_val(digit_char(n % 10)) == n % 10);
        assert(digits_val(w) == (n / 10) * 10 + n % 10);
        assert(w[0] == p[0]);
        assert(n / 10 > 0);
    }
}

/// A nonempty all-digit string without a leading zero is the canonical form
/// of its own value: the printer and the strict parser are mutually inverse.
pub proof fn lemma_canonical_nat_unique(s: Seq<char>)
    requires
        is_canonical_nat(s),
    ensures
        digits_val(s) >= 0,
        dec_chars(digits_val(s)) == s,
        s.len() > 1 ==> digits_val(s) >= 10,
    decreases s.len(),
{
    if s.len() == 1 {
        assert(s.drop_last() =~= Seq::<char>::empty());
        assert(digits_val(s.drop_last()) == 0);
        assert(digits_val(s) == digits_val(s.drop_last()) * 10 + digit_val(s.last()));
        assert(digits_val(s) == digit_val(s[0]));
        assert(dec_chars(digits_val(s)) =~= seq![digit_char(digit_val(s[0]))]);
        assert(digit_char(digit_val(s[0])) == s[0]);
        assert(dec_chars(digits_val(s)) =~= s);
    } else {
        let p = s.drop_last();
        assert(p[0] == s[0]);
        assert(forall|j: int| 0 <= j < p.len() ==> is_digit(#[trigger] p[j]));
        lemma_canonical_nat_unique(p);
        let n = digits_val(s);
        let d = digit_val(s.last());
        assert(n == digits_val(p) * 10 + d);
        assert(digits_val(p) >= 1) by {
            if p.len() == 1 {
                assert(p.drop_last() =~= Seq::<char>::empty());
                assert(digits_val(p.drop_last()) == 0);
                assert(digits_val(p) == digits_val(p.drop_last()) * 10 + digit_val(p.last()));
                assert(p[0] != '0');
            }
        }
        assert(n >= 10);
        assert(n / 10 == digits_val(p) && n % 10 == d) by {
            assert(n == digits_val(p) * 10 + d && 0 <= d < 10);
        }
        assert(dec_chars(n) =~= dec_chars(digits_val(p)) + seq![digit_char(d)]);
        assert(digit_char(d) == s.last());
        assert(dec_chars(n) =~= p + seq![s.last()]);
        assert(p + seq![s.last()] =~= s);
    }
}

/// The value of an all-digit string is at least the value of any of its
/// prefixes.
pub proof fn lemma_digits_val_monotone(s: Seq<char>, i: int)
    requires
        0 <= i <= s.len(),
        forall|j: int| 0 <= j < s.len() ==> is_digit(#[trigger] s[j]),
    ensures
        0 <= digits_val(s.subrange(0, i)) <= digits_val(s),
    decreases s.len() - i,
{
    if i == s.len() {
        assert(s.subrange(0, i) =~= s);
        lemma_digits_val_nonneg(s);
    } else {
        lemma_digits_val_monotone(s, i + 1);
        let p = s.subrange(0, i);
        let w = s.subrange(0, i + 1);
        assert(w.drop_last() =~= p);
        assert(w.last() == s[i]);
        lemma_digits_val_nonneg(p);
        assert(digits_val(w) == digits_val(p) * 10 + digit_val(s[i]));
    }
}

/// The value of an all-digit string is not negative.
pub proof fn lemma_digits_val_nonneg(s: Seq<char>)
    requires
        forall|j: int| 0 <= j < s.len() ==> is_digit(#[trigger] s[j]),
    ensures
        digits_val(s) >= 0,
    decreases s.len(),
{
    if s.len() > 0 {
        assert(forall|j: int|
            0 <= j < s.drop_last().len() ==> is_digit(#[trigger] s.drop_last()[j]));
        lemma_digits_val_nonneg(s.drop_last());
    }
}

/// The canonical form of an integer consists of digits and at most a leading
/// minus sign; in particular it contains neither a space nor a newline.
pub proof fn lemma_int_chars_charset(n: int)
    ensures
        forall|j: int| 0 <= j < int_chars(n).len() ==> int_char_ok(#[trigger] int_chars(n)[j]),
        forall|j: int|
            0 <= j < int_chars(n).len() ==> (#[trigger] int_chars(n)[j]) != ' ' && int_chars(n)[j]
                != '\n',
        int_chars(n).len() >= 1,
{
    if n < 0 {
        lemma_dec_chars_canonical(-n);
        assert(forall|j: int|
            0 <= j < int_chars(n).len() ==> int_char_ok(#[trigger] int_chars(n)[j])) by {
            assert(int_chars(n)[0] == '-');
            assert(forall|j: int|
                1 <= j < int_chars(n).len() ==> int_chars(n)[j] == dec_chars(-n)[j - 1]
                    && is_digit(#[trigger] int_chars(n)[j]));
        }
    } else {
        lemma_dec_chars_canonical(n);
    }
}

/// The string of a digit in 0..=9.
fn digit_str(d: u64) -> (r: &'static str)
    requires
        d < 10,
    ensures
        r@ == seq![digit_char(d as int)],
{
    let r: &'static str = match d {
        0 => {
            proof {
                reveal_strlit("0");
            }
            "0"
        },
        1 => {
            proof {
                reveal_strlit("1");
            }
            "1"
        },
        2 => {
            proof {
                reveal_strlit("2");
            }
            "2"
        },
        3 => {
            proof {
                reveal_strlit("3");
            }
            "3"
        },
        4 => {
            proof {
                reveal_strlit("4");
            }
            "4"
        },
        5 => {
            proof {
                reveal_strlit("5");
            }
            "5"
        },
        6 => {
            proof {
                reveal_strlit("6");
            }
            "6"
        },
        7 => {
            proof {
                reveal_strlit("7");
            }
            "7"
        },
        8 => {
            proof {
                reveal_strlit("8");
            }
            "8"
        },
        _ => {
            proof {
                reveal_strlit("9");
            }
            "9"
        },
    };
    proof {
        assert(r@ =~= seq![digit_char(d as int)]);
    }
    r
}

/// The canonical decimal form of an unsigned value.
fn nat_to_string(n: u64) -> (r: String)
    ensures
        r@ == dec_chars(n as int),
    decreases n,
{
    if n < 10 {
        String::from_str(digit_str(n))
    } else {
        let mut s = nat_to_string(n / 10);
        s.append(digit_str(n % 10));
        proof {
            assert(s@ =~= dec_chars(n as int / 10) + seq![digit_char(n as int % 10)]);
        }
        s
    }
}

/// The canonical decimal form of a signed value.
pub fn i64_to_string(n: i64) -> (r: String)
    ensures
        r@ == int_chars(n as int),
{
    if n >= 0 {
        nat_to_string(n as u64)
    } else {
        let mut s = String::from_str("-");
        let m: u64 = if n == i64::MIN {
            9223372036854775808u64
        } else {
            (-n) as u64
        };
        proof {
            reveal_strlit("-");
            assert(m as int == -(n as int));
        }
        let t = nat_to_string(m);
        s.append(t.as_str());
        proof {
            assert(s@ =~= seq!['-'] + dec_chars(-(n as int)));
        }
        s
    }
}

/// Whether two string slices hold the same characters.
pub(crate) fn str_eq(a: &str, b: &str) -> (r: bool)
    ensures
        r == (a@ == b@),
{
    let x = String::from_str(a);
    let y = String::from_str(b);
    x == y
}

/// The first position at or after `from` holding `c`, if any.
pub(crate) fn find_char(s: &str, from: usize, c: char) -> (r: Option<usize>)
    requires
        from <= s@.len(),
    ensures
        r matches Some(i) ==> from <= i < s@.len() && s@[i as int] == c && (forall|j: int|
            from <= j < i ==> s@[j] != c),
        r is None ==> forall|j: int| from <= j < s@.len() ==> s@[j] != c,
{
    let n = s.unicode_len();
    let mut i = from;
    while i < n
        invariant
            from <= i <= n,
            n == s@.len(),
            forall|j: int| from <= j < i ==> s@[j] != c,
        decreases n - i,
    {
        if s.get_char(i) == c {
            return Some(i);
        }
        i += 1;
    }
    None
}

/// The strict parse of `s[from..to]` as a canonical unsigned decimal: fails
/// exactly on strings the printer never produces and on values over
/// `u64::MAX`.
fn parse_u64_in(s: &str, from: usize, to: usize) -> (r: Option<u64>)
    requires
        from <= to <= s@.len(),
    ensures
        r matches Some(n) ==> is_canonical_nat(s@.subrange(from as int, to as int)) && digits_val(
            s@.subrange(from as int, to as int),
        ) == n,
        r is None <==> !(is_canonical_nat(s@.subrange(from as int, to as int)) && digits_val(
            s@.subrange(from as int, to as int),
        ) <= u64::MAX),
{
    let ghost sub = s@.subrange(from as int, to as int);
    if to == from {
        return None;
    }
    if to - from > 1 && s.get_char(from) == '0' {
        proof {
            assert(sub[0] == '0');
        }
        return None;
    }
    let mut acc: u64 = 0;
    let mut i = from;
    while i < to
        invariant
            from <= i <= to <= s@.len(),
            sub == s@.subrange(from as int, to as int),
            to - from > 1 ==> s@[from as int] != '0',
            forall|j: int| from <= j < i ==> is_digit(#[trigger] s@[j]),
            acc == digits_val(s@.subrange(from as int, i as int)),
        decreases to - i,
    {
        let c = s.get_char(i);
        let u = c as u32;
        if u < 48 || u > 57 {
            proof {
                assert(sub[i - from] == s@[i as int]);
                assert(!is_digit(sub[i - from]));
            }
            return None;
        }
        let d = (u - 48) as u64;
        let ghost prefix = s@.subrange(from as int, i as int);
        let ghost grown = s@.subrange(from as int, i + 1 as int);
        proof {
            assert(grown.drop_last() =~= prefix);
            assert(grown.last() == s@[i as int]);
            assert(digits_val(grown) == acc * 10 + d);
        }
        let step = match acc.checked_mul(10) {
            Some(a) => a.checked_add(d),
            None => None,
        };
        match step {
            Some(a) => {
                acc = a;
            },
            None => {
                proof {
                    if is_canonical_nat(sub) && digits_val(sub) <= u64::MAX {
                        assert(forall|j: int|
                            0 <= j < sub.len() ==> is_digit(#[trigger] sub[j]));
                        lemma_digits_val_monotone(sub, i + 1 - from);
                        assert(sub.subrange(0, i + 1 - from) =~= grown);
                        assert(digits_val(sub) >= digits_val(grown));
                    }
                }
                return None;
            },
        }
        i += 1;
    }
    proof {
        assert(s@.subrange(from as int, to as int) =~= sub);
        assert(is_canonical_nat(sub));
    }
    Some(acc)
}

/// The strict parse of `s[from..to]` as a canonical signed decimal that fits
/// an `i64`: succeeds exactly on `int_chars(n)` for some `n: i64`.
pub(crate) fn parse_i64_in(s: &str, from: usize, to: usize) -> (r: Option<i64>)
    requires
        from <= to <= s@.len(),
    ensures
        r matches Some(n) ==> s@.subrange(from as int, to as int) == int_chars(n as int),
        r is Some <==> exists|n: i64| s@.subrange(from as int, to as int) == int_chars(n as int),
{
    let ghost sub = s@.subrange(from as int, to as int);
    if to > from && s.get_char(from) == '-' {
        let ghost rest = s@.subrange(from + 1 as int, to as int);
        let r = parse_u64_in(s, from + 1, to);
        match r {
            Some(v) => {
                proof {
                    lemma_canonical_nat_unique(rest);
                }
                if v == 0 {
                    // "-0" is never canonical.
                    proof {
                        if exists|n: i64| sub == int_chars(n as int) {
                            let n = choose|n: i64| sub == int_chars(n as int);
                            lemma_int_chars_neg_shape(n as int, sub);
                        }
                    }
                    None
                } else if v <= 9223372036854775807u64 {
                    let n: i64 = -(v as i64);
                    proof {
                        assert(sub =~= seq!['-'] + rest);
                        assert(sub =~= int_chars(n as int));
                    }
                    Some(n)
                } else if v == 9223372036854775808u64 {
                    let n: i64 = i64::MIN;
                    proof {
                        assert(sub =~= seq!['-'] + rest);
                        assert(sub =~= int_chars(n as int));
                    }
                    Some(n)
                } else {
                    proof {
                        if exists|n: i64| sub == int_chars(n as int) {
                            let n = choose|n: i64| sub == int_chars(n as int);
                            lemma_int_chars_neg_shape(n as int, sub);
                            assert(rest =~= sub.subrange(1, sub.len() as int));
                            assert(rest == dec_chars(-(n as int)));
                            lemma_dec_chars_canonical(-(n as int));
                            assert(digits_val(rest) == -(n as int));
                        }
                    }
                    None
                }
            },
            None => {
                proof {
                    if exists|n: i64| sub == int_chars(n as int) {
                        let n = choose|n: i64| sub == int_chars(n as int);
                        lemma_int_chars_neg_shape(n as int, sub);
                        assert(rest =~= sub.subrange(1, sub.len() as int));
                        assert(rest == dec_chars(-(n as int)));
                        lemma_dec_chars_canonical(-(n as int));
                    }
                }
                None
            },
        }
    } else {
        let r = parse_u64_in(s, from, to);
        match r {
            Some(v) => {
                if v <= 9223372036854775807u64 {
                    let n: i64 = v as i64;
                    proof {
                        lemma_canonical_nat_unique(sub);
                        assert(sub =~= int_chars(n as int));
                    }
                    Some(n)
                } else {
                    proof {
                        if exists|n: i64| sub == int_chars(n as int) {
                            let n = choose|n: i64| sub == int_chars(n as int);
                            lemma_int_chars_pos_shape(n as int, sub);
                            lemma_dec_chars_canonical(n as int);
                        }
                    }
                    None
                }
            },
            None => {
                proof {
                    if exists|n: i64| sub == int_chars(n as int) {
                        let n = choose|n: i64| sub == int_chars(n as int);
                        lemma_int_chars_pos_shape(n as int, sub);
                        lemma_dec_chars_canonical(n as int);
                    }
                }
                None
            },
        }
    }
}

/// The tagged, self-describing text of a scheduler state: the tag naming the
/// algorithm, then its fields, space-separated, each in canonical decimal.
pub open spec fn scheduler_chars(sc: Scheduler) -> Seq<char> {
    match sc {
        Scheduler::Sm2(m) => "SuperMemo2 "@ + int_chars(m.counter as int) + " "@ + int_chars(
            m.interval as int,
        ) + " "@ + int_chars(m.easiness_factor as int),
    }
}

/// The algorithm tag of a serialized scheduler: its text up to the first
/// space.
pub open spec fn tag_of(s: Seq<char>) -> Seq<char>
    decreases s.len(),
{
    if s.len() == 0 || s[0] == ' ' {
        Seq::<char>::empty()
    } else {
        seq![s[0]] + tag_of(s.drop_first())
    }
}

/// The tag is the prefix that the first space (or the end) delimits.
pub proof fn lemma_tag_of_prefix(s: Seq<char>, i: int)
    requires
        0 <= i <= s.len(),
        forall|j: int| 0 <= j < i ==> s[j] != ' ',
        i < s.len() ==> s[i] == ' ',
    ensures
        tag_of(s) == s.subrange(0, i),
    decreases i,
{
    if i == 0 {
        if s.len() == 0 || s[0] == ' ' {
            assert(tag_of(s) =~= s.subrange(0, 0));
        } else {
            assert(false);
        }
    } else {
        let t = s.drop_first();
        assert(forall|j: int| 0 <= j < i - 1 ==> #[trigger] t[j] == s[j + 1] && t[j] != ' ');
        assert(i - 1 < t.len() ==> t[i - 1] == ' ');
        lemma_tag_of_prefix(t, i - 1);
        assert(tag_of(s) == seq![s[0]] + t.subrange(0, i - 1));
        assert(seq![s[0]] + t.subrange(0, i - 1) =~= s.subrange(0, i));
    }
}

/// Two distinct values never share a canonical form.
pub proof fn lemma_int_chars_injective(a: int, b: int)
    requires
        int_chars(a) == int_chars(b),
    ensures
        a == b,
{
    if a >= 0 && b >= 0 {
        lemma_dec_chars_canonical(a);
        lemma_dec_chars_canonical(b);
    } else if a < 0 && b < 0 {
        lemma_dec_chars_canonical(-a);
        lemma_dec_chars_canonical(-b);
        assert(int_chars(a).subrange(1, int_chars(a).len() as int) =~= dec_chars(-a));
        assert(int_chars(b).subrange(1, int_chars(b).len() as int) =~= dec_chars(-b));
    } else if a < 0 {
        lemma_dec_chars_canonical(-a);
        lemma_dec_chars_canonical(b);
        assert(int_chars(a)[0] == '-');
        assert(is_digit(int_chars(b)[0]));
    } else {
        lemma_dec_chars_canonical(a);
        lemma_dec_chars_canonical(-b);
        assert(int_chars(b)[0] == '-');
        assert(is_digit(int_chars(a)[0]));
    }
}

/// How a serialized scheduler is laid out: the tag, one space, and the three
/// fields with their separating spaces, the fields free of spaces.
pub proof fn lemma_scheduler_chars_shape(sc: Scheduler, s: Seq<char>)
    requires
        s == scheduler_chars(sc),
    ensures
        s.len() == 13 + int_chars(sm2_of(sc).counter as int).len() + int_chars(
            sm2_of(sc).interval as int,
        ).len() + int_chars(sm2_of(sc).easiness_factor as int).len(),
        s.subrange(0, 10) == "SuperMemo2"@,
        forall|j: int| 0 <= j < 10 ==> s[j] != ' ',
        s[10] == ' ',
        s.subrange(11, 11 + int_chars(sm2_of(sc).counter as int).len() as int) == int_chars(
            sm2_of(sc).counter as int,
        ),
        forall|j: int|
            11 <= j < 11 + int_chars(sm2_of(sc).counter as int).len() ==> s[j] != ' ',
        s[11 + int_chars(sm2_of(sc).counter as int).len() as int] == ' ',
        s.subrange(
            12 + int_chars(sm2_of(sc).counter as int).len() as int,
            (12 + int_chars(sm2_of(sc).counter as int).len() + int_chars(
                sm2_of(sc).interval as int,
            ).len()) as int,
        ) == int_chars(sm2_of(sc).interval as int),
        forall|j: int|
            12 + int_chars(sm2_of(sc).counter as int).len() <= j < 12 + int_chars(
                sm2_of(sc).counter as int,
            ).len() + int_chars(sm2_of(sc).interval as int).len() ==> s[j] != ' ',
        s[(12 + int_chars(sm2_of(sc).counter as int).len() + int_chars(
            sm2_of(sc).interval as int,
        ).len()) as int] == ' ',
        s.subrange(
            (13 + int_chars(sm2_of(sc).counter as int).len() + int_chars(
                sm2_of(sc).interval as int,
            ).len()) as int,
            s.len() as int,
        ) == int_chars(sm2_of(sc).easiness_factor as int),
        forall|j: int|
            13 + int_chars(sm2_of(sc).counter as int).len() + int_chars(
                sm2_of(sc).interval as int,
            ).len() <= j < s.len() ==> s[j] != ' ',
{
    let m = sm2_of(sc);
    let ic1 = int_chars(m.counter as int);
    let ic2 = int_chars(m.interval as int);
    let ic3 = int_chars(m.easiness_factor as int);
    reveal_strlit("SuperMemo2 ");
    reveal_strlit("SuperMemo2");
    reveal_strlit(" ");
    lemma_int_chars_charset(m.counter as int);
    lemma_int_chars_charset(m.interval as int);
    lemma_int_chars_charset(m.easiness_factor as int);
    assert(s =~= "SuperMemo2 "@ + ic1 + " "@ + ic2 + " "@ + ic3);
    assert(s.subrange(0, 10) =~= "SuperMemo2"@);
    assert(s.subrange(11, 11 + ic1.len() as int) =~= ic1);
    assert(s.subrange(12 + ic1.len() as int, (12 + ic1.len() + ic2.len()) as int) =~= ic2);
    assert(s.subrange((13 + ic1.len() + ic2.len()) as int, s.len() as int) =~= ic3);
}

/// The tagged, self-describing text of this scheduler state.
pub fn encode_scheduler(sc: &Scheduler) -> (r: String)
    ensures
        r@ == scheduler_chars(*sc),
{
    match sc {
        Scheduler::Sm2(m) => {
            let mut s = String::from_str("SuperMemo2 ");
            let f1 = i64_to_string(m.counter);
            s.append(f1.as_str());
            s.append(" ");
            let f2 = i64_to_string(m.interval);
            s.append(f2.as_str());
            s.append(" ");
            let f3 = i64_to_string(m.easiness_factor);
            s.append(f3.as_str());
            s
        },
    }
}

/// Decodes the tagged text of a scheduler state. Succeeds exactly on the
/// canonical encoding of a well-formed state; an unrecognized algorithm tag
/// is `UnknownSchedulerType`, anything else malformed is
/// `SerializationFailure`.
#[verifier::rlimit(60)]
#[verifier::spinoff_prover]
pub fn decode_scheduler(s: &str) -> (r: Result<Scheduler, Error>)
    ensures
        r matches Ok(sc) ==> s@ == scheduler_chars(sc) && sc.is_valid(),
        (exists|sc: Scheduler| sc.is_valid() && s@ == scheduler_chars(sc)) ==> r is Ok,
        r matches Err(e) ==> (e is UnknownSchedulerType <==> tag_of(s@) != "SuperMemo2"@),
        r matches Err(e) ==> (e is UnknownSchedulerType || e is SerializationFailure),
        r matches Err(Error::UnknownSchedulerType { tag }) ==> tag@ == tag_of(s@),
{
    let n = s.unicode_len();
    let sp1 = match find_char(s, 0, ' ') {
        Some(i) => i,
        None => {
            // No fields at all: the tag is the whole text.
            proof {
                lemma_tag_of_prefix(s@, s@.len() as int);
                assert(s@.subrange(0, s@.len() as int) =~= s@);
                if exists|sc: Scheduler| sc.is_valid() && s@ == scheduler_chars(sc) {
                    let sc = choose|sc: Scheduler| sc.is_valid() && s@ == scheduler_chars(sc);
                    lemma_scheduler_chars_shape(sc, s@);
                }
            }
            let whole = String::from_str(s);
            if str_eq(s, "SuperMemo2") {
                return Err(
                    Error::SerializationFailure {
                        detail: String::from_str("scheduler state has no fields"),
                    },
                );
            } else {
                return Err(Error::UnknownSchedulerType { tag: whole });
            }
        },
    };
    let tag = s.substring_char(0, sp1);
    proof {
        lemma_tag_of_prefix(s@, sp1 as int);
    }
    if !str_eq(tag, "SuperMemo2") {
        proof {
            if exists|sc: Scheduler| sc.is_valid() && s@ == scheduler_chars(sc) {
                let sc = choose|sc: Scheduler| sc.is_valid() && s@ == scheduler_chars(sc);
                lemma_scheduler_chars_shape(sc, s@);
                assert(sp1 == 10);
            }
        }
        return Err(Error::UnknownSchedulerType { tag: String::from_str(tag) });
    }
    proof {
        if exists|sc: Scheduler| sc.is_valid() && s@ == scheduler_chars(sc) {
            let sc = choose|sc: Scheduler| sc.is_valid() && s@ == scheduler_chars(sc);
            lemma_scheduler_chars_shape(sc, s@);
            assert(sp1 == 10);
        }
    }
    let malformed = Error::SerializationFailure {
        detail: String::from_str("malformed scheduler state"),
    };
    let sp2 = match find_char(s, sp1 + 1, ' ') {
        Some(i) => i,
        None => {
            proof {
                if exists|sc: Scheduler| sc.is_valid() && s@ == scheduler_chars(sc) {
                    let sc = choose|sc: Scheduler| sc.is_valid() && s@ == scheduler_chars(sc);
                    lemma_scheduler_chars_shape(sc, s@);
                }
            }
            return Err(malformed);
        },
    };
    let counter = match parse_i64_in(s, sp1 + 1, sp2) {
        Some(v) => v,
        None => {
            proof {
                if exists|sc: Scheduler| sc.is_valid() && s@ == scheduler_chars(sc) {
                    let sc = choose|sc: Scheduler| sc.is_valid() && s@ == scheduler_chars(sc);
                    lemma_scheduler_chars_shape(sc, s@);
                    let ic1 = int_chars(sm2_of(sc).counter as int);
                    assert(sp2 == 11 + ic1.len());
                    assert(s@.subrange(11, sp2 as int) == ic1);
                }
            }
            return Err(malformed);
        },
    };
    let sp3 = match find_char(s, sp2 + 1, ' ') {
        Some(i) => i,
        None => {
            proof {
                if exists|sc: Scheduler| sc.is_valid() && s@ == scheduler_chars(sc) {
                    let sc = choose|sc: Scheduler| sc.is_valid() && s@ == scheduler_chars(sc);
                    lemma_scheduler_chars_shape(sc, s@);
                    let ic1 = int_chars(sm2_of(sc).counter as int);
                    assert(sp2 == 11 + ic1.len());
                }
            }
            return Err(malformed);
        },
    };
    let interval = match parse_i64_in(s, sp2 + 1, sp3) {
        Some(v) => v,
        None => {
            proof {
                if exists|sc: Scheduler| sc.is_valid() && s@ == scheduler_chars(sc) {
                    let sc = choose|sc: Scheduler| sc.is_valid() && s@ == scheduler_chars(sc);
                    lemma_scheduler_chars_shape(sc, s@);
                    let ic1 = int_chars(sm2_of(sc).counter as int);
                    let ic2 = int_chars(sm2_of(sc).interval as int);
                    assert(sp2 == 11 + ic1.len());
                    assert(sp3 == (12 + ic1.len() + ic2.len()) as int);
                    assert(s@.subrange(sp2 + 1, sp3 as int) == ic2);
                }
            }
            return Err(malformed);
        },
    };
    let easiness = match parse_i64_in(s, sp3 + 1, n) {
        Some(v) => v,
        None => {
            proof {
                if exists|sc: Scheduler| sc.is_valid() && s@ == scheduler_chars(sc) {
                    let sc = choose|sc: Scheduler| sc.is_valid() && s@ == scheduler_chars(sc);
                    lemma_scheduler_chars_shape(sc, s@);
                    let ic1 = int_chars(sm2_of(sc).counter as int);
                    let ic2 = int_chars(sm2_of(sc).interval as int);
                    assert(sp2 == 11 + ic1.len());
                    assert(sp3 == (12 + ic1.len() + ic2.len()) as int);
                    assert(s@.subrange(sp3 + 1, s@.len() as int) == int_chars(
                        sm2_of(sc).easiness_factor as int,
                    ));
                }
            }
            return Err(malformed);
        },
    };
    if counter < 0 || interval < 0 || easiness < 0 {
        proof {
            if exists|sc: Scheduler| sc.is_valid() && s@ == scheduler_chars(sc) {
                let sc = choose|sc: Scheduler| sc.is_valid() && s@ == scheduler_chars(sc);
                lemma_scheduler_chars_shape(sc, s@);
                let ic1 = int_chars(sm2_of(sc).counter as int);
                let ic2 = int_chars(sm2_of(sc).interval as int);
                assert(sp2 == 11 + ic1.len());
                assert(sp3 == (12 + ic1.len() + ic2.len()) as int);
                assert(s@.subrange(11, sp2 as int) == ic1);
                assert(s@.subrange(sp2 + 1, sp3 as int) == ic2);
                assert(s@.subrange(sp3 + 1, s@.len() as int) == int_chars(
                    sm2_of(sc).easiness_factor as int,
                ));
                lemma_int_chars_injective(counter as int, sm2_of(sc).counter as int);
                lemma_int_chars_injective(interval as int, sm2_of(sc).interval as int);
                lemma_int_chars_injective(easiness as int, sm2_of(sc).easiness_factor as int);
            }
        }
        return Err(malformed);
    }
    let result = Scheduler::Sm2(SuperMemo2::new(counter, interval, easiness));
    proof {
        reveal_strlit("SuperMemo2 ");
        reveal_strlit("SuperMemo2");
        reveal_strlit(" ");
        assert(s@ =~= s@.subrange(0, sp1 as int) + seq![s@[sp1 as int]] + s@.subrange(
            sp1 + 1,
            sp2 as int,
        ) + seq![s@[sp2 as int]] + s@.subrange(sp2 + 1, sp3 as int) + seq![s@[sp3 as int]]
            + s@.subrange(sp3 + 1, s@.len() as int));
        assert(s@ =~= scheduler_chars(result));
    }
    Ok(result)
}

/// A canonical form that does not begin with a minus sign is of a value
/// `>= 0`, and is then its digit string.
proof fn lemma_int_chars_pos_shape(n: int, s: Seq<char>)
    requires
        s == int_chars(n),
        s.len() == 0 || s[0] != '-',
    ensures
        n >= 0,
        s == dec_chars(n),
{
    if n < 0 {
        lemma_dec_chars_canonical(-n);
        assert(s[0] == '-');
    }
}

/// A canonical form that begins with a minus sign is of a value `< 0`, and
/// its remainder is the digit string of the absolute value.
proof fn lemma_int_chars_neg_shape(n: int, s: Seq<char>)
    requires
        s == int_chars(n),
        s.len() > 0 && s[0] == '-',
    ensures
        n < 0,
        s.subrange(1, s.len() as int) == dec_chars(-n),
        digits_val(s.subrange(1, s.len() as int)) == -n >= 1,
{
    if n >= 0 {
        lemma_dec_chars_canonical(n);
        assert(is_digit(s[0]));
    } else {
        lemma_dec_chars_canonical(-n);
        assert(s.subrange(1, s.len() as int) =~= dec_chars(-n));
    }
}

/// The size cap, in characters, on a stored metadata text: larger inputs are
/// rejected rather than decoded, a defensive bound against hostile files.
pub const METADATA_SIZE_CAP: usize = 10240;

/// The line-based metadata text of a storage projection: a versioned header,
/// then the identity, the due timestamp and the tagged scheduler payload,
/// one field per line.
pub open spec fn framed(path: Seq<char>, due: int, payload: Seq<char>) -> Seq<char> {
    "astronote 1\npath "@ + path + "\ndue "@ + int_chars(due) + "\nscheduler "@ + payload + "\n"@
}

/// The metadata text of a storage projection.
pub open spec fn note_chars(sn: SerializedNoteV) -> Seq<char> {
    framed(sn.relative_path, sn.next_datetime as int, sn.scheduler)
}

/// Whether a storage projection can be framed in the line-based text: its
/// identity and its payload are free of newlines.
pub open spec fn frame_ok(sn: SerializedNoteV) -> bool {
    &&& forall|j: int| 0 <= j < sn.relative_path.len() ==> sn.relative_path[j] != '\n'
    &&& forall|j: int| 0 <= j < sn.scheduler.len() ==> sn.scheduler[j] != '\n'
}

/// How the metadata text is laid out: each field region and each delimiting
/// newline, the variable regions free of newlines.
pub proof fn lemma_framed_shape(sn: SerializedNoteV, s: Seq<char>)
    requires
        s == note_chars(sn),
        frame_ok(sn),
    ensures
        s.len() == 34 + sn.relative_path.len() + int_chars(sn.next_datetime as int).len()
            + sn.scheduler.len(),
        s.subrange(0, 17) == "astronote 1\npath "@,
        s.subrange(17, 17 + sn.relative_path.len() as int) == sn.relative_path,
        forall|j: int| 17 <= j < 17 + sn.relative_path.len() ==> s[j] != '\n',
        s[17 + sn.relative_path.len() as int] == '\n',
        s.subrange(
            17 + sn.relative_path.len() as int,
            22 + sn.relative_path.len() as int,
        ) == "\ndue "@,
        s.subrange(
            22 + sn.relative_path.len() as int,
            (22 + sn.relative_path.len() + int_chars(sn.next_datetime as int).len()) as int,
        ) == int_chars(sn.next_datetime as int),
        forall|j: int|
            22 + sn.relative_path.len() <= j < 22 + sn.relative_path.len() + int_chars(
                sn.next_datetime as int,
            ).len() ==> s[j] != '\n',
        s[(22 + sn.relative_path.len() + int_chars(sn.next_datetime as int).len()) as int]
            == '\n',
        s.subrange(
            (22 + sn.relative_path.len() + int_chars(sn.next_datetime as int).len()) as int,
            (33 + sn.relative_path.len() + int_chars(sn.next_datetime as int).len()) as int,
        ) == "\nscheduler "@,
        s.subrange(
            (33 + sn.relative_path.len() + int_chars(sn.next_datetime as int).len()) as int,
            s.len() - 1,
        ) == sn.scheduler,
        forall|j: int|
            33 + sn.relative_path.len() + int_chars(sn.next_datetime as int).len() <= j < s.len()
                - 1 ==> s[j] != '\n',
        s[s.len() - 1] == '\n',
{
    let pl = sn.relative_path.len() as int;
    let ic = int_chars(sn.next_datetime as int);
    let il = ic.len() as int;
    let yl = sn.scheduler.len() as int;
    reveal_strlit("astronote 1\npath ");
    reveal_strlit("\ndue ");
    reveal_strlit("\nscheduler ");
    reveal_strlit("\n");
    lemma_int_chars_charset(sn.next_datetime as int);
    assert(s =~= "astronote 1\npath "@ + sn.relative_path + "\ndue "@ + ic + "\nscheduler "@
        + sn.scheduler + "\n"@);
    assert(s.subrange(0, 17) =~= "astronote 1\npath "@);
    assert(s.subrange(17, 17 + pl) =~= sn.relative_path);
    assert(s.subrange(17 + pl, 22 + pl) =~= "\ndue "@);
    assert(s.subrange(22 + pl, 22 + pl + il) =~= ic);
    assert(s.subrange(22 + pl + il, 33 + pl + il) =~= "\nscheduler "@);
    assert(s.subrange(33 + pl + il, s.len() - 1) =~= sn.scheduler);
}


/// The tagged text of a scheduler state determines the state: no two
/// states share an encoding, so decoding loses nothing.
pub proof fn lemma_scheduler_chars_injective(a: Scheduler, b: Scheduler)
    requires
        scheduler_chars(a) == scheduler_chars(b),
    ensures
        a == b,
{
    let s = scheduler_chars(a);
    lemma_scheduler_chars_shape(a, s);
    lemma_scheduler_chars_shape(b, s);
    let ma = sm2_of(a);
    let mb = sm2_of(b);
    let l1a = int_chars(ma.counter as int).len() as int;
    let l1b = int_chars(mb.counter as int).len() as int;
    assert(l1a == l1b) by {
        if l1a < l1b {
            assert(s[11 + l1a] == ' ');
        } else if l1b < l1a {
            assert(s[11 + l1b] == ' ');
        }
    }
    lemma_int_chars_injective(ma.counter as int, mb.counter as int);
    let l2a = int_chars(ma.interval as int).len() as int;
    let l2b = int_chars(mb.interval as int).len() as int;
    assert(l2a == l2b) by {
        if l2a < l2b {
            assert(s[(12 + l1a + l2a) as int] == ' ');
        } else if l2b < l2a {
            assert(s[(12 + l1b + l2b) as int] == ' ');
        }
    }
    lemma_int_chars_injective(ma.interval as int, mb.interval as int);
    lemma_int_chars_injective(ma.easiness_factor as int, mb.easiness_factor as int);
}

/// The metadata text of a framable storage projection determines the
/// projection: the round trip through the file backend loses nothing.
pub proof fn lemma_note_chars_injective(a: SerializedNoteV, b: SerializedNoteV)
    requires
        frame_ok(a),
        frame_ok(b),
        note_chars(a) == note_chars(b),
    ensures
        a.relative_path == b.relative_path,
        a.next_datetime == b.next_datetime,
        a.scheduler == b.scheduler,
{
    let s = note_chars(a);
    lemma_framed_shape(a, s);
    lemma_framed_shape(b, s);
    let pa = a.relative_path.len() as int;
    let pb = b.relative_path.len() as int;
    assert(pa == pb) by {
        if pa < pb {
            assert(s[17 + pa] == '\n');
        } else if pb < pa {
            assert(s[17 + pb] == '\n');
        }
    }
    assert(a.relative_path == b.relative_path);
    let da = int_chars(a.next_datetime as int).len() as int;
    let db = int_chars(b.next_datetime as int).len() as int;
    assert(da == db) by {
        if da < db {
            assert(s[(22 + pa + da) as int] == '\n');
        } else if db < da {
            assert(s[(22 + pb + db) as int] == '\n');
        }
    }
    lemma_int_chars_injective(a.next_datetime as int, b.next_datetime as int);
    assert(a.scheduler == b.scheduler);
}


/// A well-formed note always serializes and frames: its identity is free of
/// newlines by validity, and a scheduler payload never holds one.
pub proof fn lemma_valid_note_frames(n: NoteV)
    requires
        note_valid(n),
    ensures
        frame_ok(
            SerializedNoteV {
                relative_path: n.relative_path,
                next_datetime: n.next_datetime,
                scheduler: scheduler_chars(n.scheduler),
            },
        ),
{
    let s = scheduler_chars(n.scheduler);
    lemma_scheduler_chars_newline_free(n.scheduler);
    assert(forall|j: int| 0 <= j < s.len() ==> s[j] != '\n');
}

/// The tagged text of a scheduler state never holds a newline.
pub proof fn lemma_scheduler_chars_newline_free(sc: Scheduler)
    ensures
        forall|j: int|
            0 <= j < scheduler_chars(sc).len() ==> (#[trigger] scheduler_chars(sc)[j]) != '\n',
{
    let s = scheduler_chars(sc);
    let m = sm2_of(sc);
    let ic1 = int_chars(m.counter as int);
    let ic2 = int_chars(m.interval as int);
    let ic3 = int_chars(m.easiness_factor as int);
    reveal_strlit("SuperMemo2 ");
    reveal_strlit(" ");
    lemma_int_chars_charset(m.counter as int);
    lemma_int_chars_charset(m.interval as int);
    lemma_int_chars_charset(m.easiness_factor as int);
    assert forall|j: int| 0 <= j < s.len() implies (#[trigger] s[j]) != '\n' by {
        assert(s == "SuperMemo2 "@ + ic1 + " "@ + ic2 + " "@ + ic3);
        if j < 11 {
            assert(s[j] == "SuperMemo2 "@[j]);
        } else if j < 11 + ic1.len() {
            assert(s[j] == ic1[j - 11]);
        } else if j == 11 + ic1.len() {
            assert(s[j] == ' ');
        } else if j < 12 + ic1.len() + ic2.len() {
            assert(s[j] == ic2[j - 12 - ic1.len()]);
        } else if j == 12 + ic1.len() + ic2.len() {
            assert(s[j] == ' ');
        } else {
            assert(s[j] == ic3[j - 13 - ic1.len() - ic2.len()]);
        }
    }
}

/// The metadata text of a storage projection. Fails with
/// `SerializationFailure` exactly when the projection cannot be framed, that
/// is, when its identity or its payload holds a newline.
pub fn encode_note(sn: &SerializedNote) -> (r: Result<String, Error>)
    ensures
        r matches Ok(t) ==> t@ == note_chars(sn@) && frame_ok(sn@),
        r is Ok <==> frame_ok(sn@),
        r matches Err(e) ==> e is SerializationFailure,
{
    match find_char(sn.relative_path.as_str(), 0, '\n') {
        Some(i) => {
            proof {
                assert(sn@.relative_path[i as int] == '\n');
            }
            return Err(
                Error::SerializationFailure {
                    detail: String::from_str("note identity holds a newline"),
                },
            );
        },
        None => {},
    }
    match find_char(sn.scheduler.as_str(), 0, '\n') {
        Some(i) => {
            proof {
                assert(sn@.scheduler[i as int] == '\n');
            }
            return Err(
                Error::SerializationFailure {
                    detail: String::from_str("scheduler payload holds a newline"),
                },
            );
        },
        None => {},
    }
    let mut s = String::from_str("astronote 1\npath ");
    s.append(sn.relative_path.as_str());
    s.append("\ndue ");
    let due = i64_to_string(sn.next_datetime);
    s.append(due.as_str());
    s.append("\nscheduler ");
    s.append(sn.scheduler.as_str());
    s.append("\n");
    proof {
        assert(s@ =~= note_chars(sn@));
    }
    Ok(s)
}

/// Decodes a metadata text back into a storage projection. Succeeds exactly
/// on the framing of some projection within the size cap; everything else,
/// oversize input included, is `SerializationFailure`.
#[verifier::rlimit(80)]
#[verifier::spinoff_prover]
pub fn decode_note(s: &str) -> (r: Result<SerializedNote, Error>)
    ensures
        r matches Ok(sn) ==> s@ == note_chars(sn@) && frame_ok(sn@) && s@.len()
            <= METADATA_SIZE_CAP,
        r is Ok <==> ((exists|sn: SerializedNoteV| frame_ok(sn) && s@ == note_chars(sn))
            && s@.len() <= METADATA_SIZE_CAP),
        r matches Err(e) ==> e is SerializationFailure,
{
    let n = s.unicode_len();
    let malformed = Error::SerializationFailure {
        detail: String::from_str("malformed note metadata"),
    };
    if n > METADATA_SIZE_CAP {
        return Err(
            Error::SerializationFailure {
                detail: String::from_str("note metadata over the size cap"),
            },
        );
    }
    if n < 17 {
        proof {
            if exists|w: SerializedNoteV| frame_ok(w) && s@ == note_chars(w) {
                let w = choose|w: SerializedNoteV| frame_ok(w) && s@ == note_chars(w);
                lemma_framed_shape(w, s@);
            }
        }
        return Err(malformed);
    }
    let head = s.substring_char(0, 17);
    if !str_eq(head, "astronote 1\npath ") {
        proof {
            if exists|w: SerializedNoteV| frame_ok(w) && s@ == note_chars(w) {
                let w = choose|w: SerializedNoteV| frame_ok(w) && s@ == note_chars(w);
                lemma_framed_shape(w, s@);
            }
        }
        return Err(malformed);
    }
    let i1 = match find_char(s, 17, '\n') {
        Some(i) => i,
        None => {
            proof {
                if exists|w: SerializedNoteV| frame_ok(w) && s@ == note_chars(w) {
                    let w = choose|w: SerializedNoteV| frame_ok(w) && s@ == note_chars(w);
                    lemma_framed_shape(w, s@);
                }
            }
            return Err(malformed);
        },
    };
    proof {
        if exists|w: SerializedNoteV| frame_ok(w) && s@ == note_chars(w) {
            let w = choose|w: SerializedNoteV| frame_ok(w) && s@ == note_chars(w);
            lemma_framed_shape(w, s@);
            assert(i1 == 17 + w.relative_path.len());
        }
    }
    if i1 + 5 > n {
        proof {
            if exists|w: SerializedNoteV| frame_ok(w) && s@ == note_chars(w) {
                let w = choose|w: SerializedNoteV| frame_ok(w) && s@ == note_chars(w);
                lemma_framed_shape(w, s@);
            }
        }
        return Err(malformed);
    }
    let due_key = s.substring_char(i1, i1 + 5);
    if !str_eq(due_key, "\ndue ") {
        proof {
            if exists|w: SerializedNoteV| frame_ok(w) && s@ == note_chars(w) {
                let w = choose|w: SerializedNoteV| frame_ok(w) && s@ == note_chars(w);
                lemma_framed_shape(w, s@);
                assert(i1 == 17 + w.relative_path.len());
            }
        }
        return Err(malformed);
    }
    let i2 = match find_char(s, i1 + 5, '\n') {
        Some(i) => i,
        None => {
            proof {
                if exists|w: SerializedNoteV| frame_ok(w) && s@ == note_chars(w) {
                    let w = choose|w: SerializedNoteV| frame_ok(w) && s@ == note_chars(w);
                    lemma_framed_shape(w, s@);
                    assert(i1 == 17 + w.relative_path.len());
                }
            }
            return Err(malformed);
        },
    };
    let due = match parse_i64_in(s, i1 + 5, i2) {
        Some(v) => v,
        None => {
            proof {
                if exists|w: SerializedNoteV| frame_ok(w) && s@ == note_chars(w) {
                    let w = choose|w: SerializedNoteV| frame_ok(w) && s@ == note_chars(w);
                    lemma_framed_shape(w, s@);
                    assert(i1 == 17 + w.relative_path.len());
                    assert(i2 == 22 + w.relative_path.len() + int_chars(
                        w.next_datetime as int,
                    ).len());
                    assert(s@.subrange(i1 + 5, i2 as int) == int_chars(w.next_datetime as int));
                }
            }
            return Err(malformed);
        },
    };
    if i2 + 11 > n {
        proof {
            if exists|w: SerializedNoteV| frame_ok(w) && s@ == note_chars(w) {
                let w = choose|w: SerializedNoteV| frame_ok(w) && s@ == note_chars(w);
                lemma_framed_shape(w, s@);
                assert(i1 == 17 + w.relative_path.len());
                assert(i2 == 22 + w.relative_path.len() + int_chars(w.next_datetime as int).len());
            }
        }
        return Err(malformed);
    }
    let sched_key = s.substring_char(i2, i2 + 11);
    if !str_eq(sched_key, "\nscheduler ") {
        proof {
            if exists|w: SerializedNoteV| frame_ok(w) && s@ == note_chars(w) {
                let w = choose|w: SerializedNoteV| frame_ok(w) && s@ == note_chars(w);
                lemma_framed_shape(w, s@);
                assert(i1 == 17 + w.relative_path.len());
                assert(i2 == 22 + w.relative_path.len() + int_chars(w.next_datetime as int).len());
            }
        }
        return Err(malformed);
    }
    let i3 = match find_char(s, i2 + 11, '\n') {
        Some(i) => i,
        None => {
            proof {
                if exists|w: SerializedNoteV| frame_ok(w) && s@ == note_chars(w) {
                    let w = choose|w: SerializedNoteV| frame_ok(w) && s@ == note_chars(w);
                    lemma_framed_shape(w, s@);
                    assert(i1 == 17 + w.relative_path.len());
                    assert(i2 == 22 + w.relative_path.len() + int_chars(
                        w.next_datetime as int,
                    ).len());
                }
            }
            return Err(malformed);
        },
    };
    if i3 != n - 1 {
        proof {
            if exists|w: SerializedNoteV| frame_ok(w) && s@ == note_chars(w) {
                let w = choose|w: SerializedNoteV| frame_ok(w) && s@ == note_chars(w);
                lemma_framed_shape(w, s@);
                assert(i1 == 17 + w.relative_path.len());
                assert(i2 == 22 + w.relative_path.len() + int_chars(w.next_datetime as int).len());
                assert(i3 == s@.len() - 1);
            }
        }
        return Err(malformed);
    }
    let path = s.substring_char(17, i1);
    let payload = s.substring_char(i2 + 11, i3);
    let result = SerializedNote {
        relative_path: String::from_str(path),
        next_datetime: due,
        scheduler: String::from_str(payload),
    };
    proof {
        reveal_strlit("astronote 1\npath ");
        reveal_strlit("\ndue ");
        reveal_strlit("\nscheduler ");
        reveal_strlit("\n");
        assert(s@ =~= s@.subrange(0, 17) + s@.subrange(17, i1 as int) + s@.subrange(
            i1 as int,
            i1 + 5,
        ) + s@.subrange(i1 + 5, i2 as int) + s@.subrange(i2 as int, i2 + 11) + s@.subrange(
            i2 + 11,
            i3 as int,
        ) + seq![s@[i3 as int]]);
        assert(seq![s@[i3 as int]] =~= "\n"@);
        assert(s@ =~= note_chars(result@));
    }
    Ok(result)
}

/// A budget for size-capped reads: the collaborator that reads a metadata
/// file charges each chunk against it and stops as soon as the cap is
/// exceeded, so a hostile or corrupted file cannot draw unbounded resources.
#[derive(Debug)]
pub struct LimitReader {
    limit: usize,
}

impl LimitReader {
    /// How many bytes the budget still allows.
    pub closed spec fn remaining(&self) -> nat {
        self.limit as nat
    }

    /// A fresh budget of `limit` bytes.
    pub fn new(limit: usize) -> (r: Self)
        ensures
            r.remaining() == limit,
    {
        LimitReader { limit }
    }

    /// Whether a read of `n` bytes still fits the budget.
    pub fn check(&self, n: usize) -> (r: bool)
        ensures
            r == (n <= self.remaining()),
    {
        n <= self.limit
    }

    /// Charges `n` bytes against the budget; fails, leaving the budget
    /// unchanged, exactly when the budget is too small.
    pub fn consume(&mut self, n: usize) -> (r: Result<(), Error>)
        ensures
            r is Ok <==> n <= old(self).remaining(),
            r is Ok ==> final(self).remaining() == old(self).remaining() - n,
            r matches Err(e) ==> *final(self) == *old(self) && e is StorageIOFailure,
    {
        if n > self.limit {
            return Err(
                Error::StorageIOFailure { detail: String::from_str("too many bytes") },
            );
        }
        self.limit = self.limit - n;
        Ok(())
    }
}

} // verus!
